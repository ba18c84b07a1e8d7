//! The rolling capture buffer: new samples are appended at the back and the
//! oldest are dropped from the front, so that the buffer holds one screen
//! and a margin for the trigger search.

use vstd::prelude::*;

verus! {

/// Number of samples kept beyond one screen, as slack for the trigger search.
pub const TRIGGER_MARGIN: usize = 200;

/// A bounded buffer of samples, oldest first.
pub struct SampleBuffer {
    samples: Vec<i32>,
}

/// The last `n` entries of `s`, or all of `s` where it has no more.
pub open spec fn keep_last<A>(s: Seq<A>, n: int) -> Seq<A> {
    if s.len() > n {
        s.subrange(s.len() - n, s.len() as int)
    } else {
        s
    }
}

/// Pushing onto a trimmed sequence and trimming again keeps what trimming
/// once after the push keeps: what is kept is the tail of all that was
/// pushed, and the entry pushed last is its last.
pub proof fn lemma_keep_last_push<A>(s: Seq<A>, x: A, n: int)
    requires
        n >= 1,
    ensures
        keep_last(keep_last(s, n).push(x), n) == keep_last(s.push(x), n),
        keep_last(s, n).len() <= n,
        keep_last(s.push(x), n).last() == x,
{
    assert(keep_last(keep_last(s, n).push(x), n) =~= keep_last(s.push(x), n));
}

/// Trimming to a smaller depth after trimming to a larger one is trimming
/// to the smaller one.
pub proof fn lemma_keep_last_twice<A>(s: Seq<A>, m: int, n: int)
    requires
        0 <= n <= m,
    ensures
        keep_last(keep_last(s, m), n) == keep_last(s, n),
{
    assert(keep_last(keep_last(s, m), n) =~= keep_last(s, n));
}

/// What the buffer holds after `new_samples` arrived, with room for
/// `samples_needed` samples and the margin. Nothing new leaves it as it is.
pub open spec fn appended(old_samples: Seq<i32>, new_samples: Seq<i32>, samples_needed: int) -> Seq<
    i32,
> {
    if new_samples.len() == 0 {
        old_samples
    } else {
        keep_last(old_samples + new_samples, samples_needed + TRIGGER_MARGIN)
    }
}

impl View for SampleBuffer {
    type V = Seq<i32>;

    closed spec fn view(&self) -> Seq<i32> {
        self.samples@
    }
}

impl SampleBuffer {
    /// An empty buffer.
    pub fn new() -> (buffer: Self)
        ensures
            buffer@.len() == 0,
    {
        SampleBuffer { samples: Vec::new() }
    }

    /// Number of samples held.
    pub fn len(&self) -> (n: usize)
        ensures
            n == self@.len(),
    {
        self.samples.len()
    }

    /// The samples, oldest first.
    pub fn samples(&self) -> (s: &Vec<i32>)
        ensures
            s@ == self@,
    {
        &self.samples
    }

    /// Appends `new_samples`, then drops samples from the front until no
    /// more than `samples_needed` and the margin are left. An empty
    /// `new_samples` changes nothing.
    pub fn append(&mut self, new_samples: &[i32], samples_needed: usize)
        ensures
            final(self)@ == appended(old(self)@, new_samples@, samples_needed as int),
            new_samples@.len() > 0 ==> final(self)@.len() <= samples_needed + TRIGGER_MARGIN,
    {
        if new_samples.len() == 0 {
            return ;
        }
        self.samples.extend_from_slice(new_samples);
        assert(self.samples@ =~= old(self).samples@ + new_samples@);
        let len = self.samples.len();
        if samples_needed <= usize::MAX - TRIGGER_MARGIN {
            let capacity = samples_needed + TRIGGER_MARGIN;
            if len > capacity {
                let kept = self.samples.split_off(len - capacity);
                self.samples = kept;
            }
        }
    }
}

} // verus!
