//! The hand-over of captured samples: the audio side pushes mono samples
//! into a bounded ring, and the display side drains what is there, without
//! waiting, once per tick.

use ringbuf::traits::{Consumer, Producer};
use ringbuf::HeapRb;
use vstd::prelude::*;

verus! {

/// Capacity of the capture ring: one second at 48 kHz.
pub const BUFFER_SIZE: usize = 48_000;

/// Largest capacity that a ring can be made with: a ring of it takes one
/// gibibyte, which every supported machine can address.
pub const MAX_RING_CAPACITY: usize = 0x0fff_ffff;

/// The bounded ring that carries samples from the audio side to the display
/// side. It holds a `ringbuf::HeapRb<i32>`, which is hidden from the
/// verifier: what is known of a ring is what `ring_contents` and
/// `ring_capacity` name, and what the functions `ring_new`, `ring_try_push`
/// and `ring_try_pop` state of them without proof.
#[verifier::external_body]
pub struct SampleRing {
    ring: HeapRb<i32>,
}

/// The samples that a ring holds, oldest first.
pub uninterp spec fn ring_contents(ring: SampleRing) -> Seq<i32>;

/// The number of samples that a ring was made to hold.
pub uninterp spec fn ring_capacity(ring: SampleRing) -> nat;

/// `ringbuf::HeapRb::new`: an empty ring of the given capacity. The outside
/// function panics on a capacity of zero and on one whose storage is larger
/// than an allocation can be; `requires` leaves both out.
#[verifier::external_body]
fn ring_new(capacity: usize) -> (ring: SampleRing)
    requires
        0 < capacity <= MAX_RING_CAPACITY,
    ensures
        ring_contents(ring) == Seq::<i32>::empty(),
        ring_capacity(ring) == capacity,
{
    SampleRing { ring: HeapRb::<i32>::new(capacity) }
}

/// `ringbuf::traits::Producer::try_push` on a ring that nothing else has
/// access to: a ring that is not full takes the sample at the back; a full
/// one stays as it is and the sample is refused.
#[verifier::external_body]
fn ring_try_push(ring: &mut SampleRing, sample: i32) -> (pushed: bool)
    ensures
        ring_capacity(*final(ring)) == ring_capacity(*old(ring)),
        pushed == (ring_contents(*old(ring)).len() < ring_capacity(*old(ring))),
        pushed ==> ring_contents(*final(ring)) == ring_contents(*old(ring)).push(sample),
        !pushed ==> ring_contents(*final(ring)) == ring_contents(*old(ring)),
{
    ring.ring.try_push(sample).is_ok()
}

/// `ringbuf::traits::Consumer::try_pop` on a ring that nothing else has
/// access to: the oldest sample leaves the ring and is returned; an empty
/// ring stays as it is and gives `None`.
#[verifier::external_body]
fn ring_try_pop(ring: &mut SampleRing) -> (sample: Option<i32>)
    ensures
        ring_capacity(*final(ring)) == ring_capacity(*old(ring)),
        ring_contents(*old(ring)).len() == 0 ==> sample is None && ring_contents(*final(ring))
            == ring_contents(*old(ring)),
        ring_contents(*old(ring)).len() > 0 ==> sample == Some(ring_contents(*old(ring))[0])
            && ring_contents(*final(ring)) == ring_contents(*old(ring)).subrange(
            1,
            ring_contents(*old(ring)).len() as int,
        ),
{
    ring.ring.try_pop()
}

/// The first `count` entries of `s`, or all of `s` where it has no more.
pub open spec fn keep_first(s: Seq<i32>, count: int) -> Seq<i32> {
    if s.len() > count {
        s.subrange(0, count)
    } else {
        s
    }
}

/// What is left of `s` after its first `count` entries were taken.
pub open spec fn drop_first(s: Seq<i32>, count: int) -> Seq<i32> {
    if s.len() > count {
        s.subrange(count, s.len() as int)
    } else {
        Seq::empty()
    }
}

/// Takes the oldest samples out of the ring, up to `max_count` of them,
/// without waiting for more.
pub fn read_samples(ring: &mut SampleRing, max_count: usize) -> (samples: Vec<i32>)
    ensures
        samples@ == keep_first(ring_contents(*old(ring)), max_count as int),
        ring_contents(*final(ring)) == drop_first(ring_contents(*old(ring)), max_count as int),
        ring_capacity(*final(ring)) == ring_capacity(*old(ring)),
{
    let mut samples: Vec<i32> = Vec::new();
    let ghost before = ring_contents(*ring);
    loop
        invariant
            samples@.len() <= max_count,
            samples@.len() <= before.len(),
            samples@ == before.subrange(0, samples@.len() as int),
            ring_contents(*ring) == before.subrange(samples@.len() as int, before.len() as int),
            ring_capacity(*ring) == ring_capacity(*old(ring)),
        ensures
            samples@ =~= keep_first(before, max_count as int),
            ring_contents(*ring) =~= drop_first(before, max_count as int),
            ring_capacity(*ring) == ring_capacity(*old(ring)),
        decreases max_count - samples@.len(),
    {
        if samples.len() >= max_count {
            break ;
        }
        match ring_try_pop(ring) {
            Some(sample) => {
                samples.push(sample);
                assert(samples@ =~= before.subrange(0, samples@.len() as int));
                assert(ring_contents(*ring) =~= before.subrange(
                    samples@.len() as int,
                    before.len() as int,
                ));
            },
            None => {
                break ;
            },
        }
    }
    samples
}

/// Sum of the entries of `data` from index `lo` up to, not including, `hi`.
pub open spec fn sum_between(data: Seq<i32>, lo: int, hi: int) -> int
    decreases hi - lo,
{
    if hi <= lo {
        0
    } else {
        sum_between(data, lo, hi - 1) + data[hi - 1]
    }
}

/// `n / d` rounded toward zero, for `d > 0`.
pub open spec fn quotient_toward_zero(n: int, d: int) -> int {
    if n >= 0 {
        n / d
    } else {
        -((-n) / d)
    }
}

/// Number of frames in `len` interleaved samples of `channels` channels. A
/// last frame that is cut short counts.
pub open spec fn frame_count(len: int, channels: int) -> int {
    (len + channels - 1) / channels
}

/// One past the last index of frame `k`.
pub open spec fn frame_end(len: int, channels: int, k: int) -> int {
    if (k + 1) * channels < len {
        (k + 1) * channels
    } else {
        len
    }
}

/// Mean of the samples of frame `k`, rounded toward zero.
pub open spec fn frame_mean(data: Seq<i32>, channels: int, k: int) -> int {
    let lo = k * channels;
    let hi = frame_end(data.len() as int, channels, k);
    quotient_toward_zero(sum_between(data, lo, hi), hi - lo)
}

/// The interleaved samples mixed down to one channel: the mean of each frame.
pub open spec fn mono(data: Seq<i32>, channels: int) -> Seq<i32> {
    Seq::new(
        frame_count(data.len() as int, channels) as nat,
        |k: int| frame_mean(data, channels, k) as i32,
    )
}

/// Room left in a ring.
pub open spec fn ring_room(ring: SampleRing) -> int {
    if ring_contents(ring).len() < ring_capacity(ring) {
        ring_capacity(ring) - ring_contents(ring).len()
    } else {
        0
    }
}

/// A sum of `i32` values lies within as many times the range of an `i32`.
proof fn lemma_sum_between_bounds(data: Seq<i32>, lo: int, hi: int)
    requires
        0 <= lo <= hi <= data.len(),
    ensures
        -(hi - lo) * 0x8000_0000 <= sum_between(data, lo, hi) <= (hi - lo) * 0x7fff_ffff,
    decreases hi - lo,
{
    if hi > lo {
        lemma_sum_between_bounds(data, lo, hi - 1);
        assert(-(hi - lo) * 0x8000_0000 == -(hi - 1 - lo) * 0x8000_0000 - 0x8000_0000)
            by (nonlinear_arith);
        assert((hi - lo) * 0x7fff_ffff == (hi - 1 - lo) * 0x7fff_ffff + 0x7fff_ffff)
            by (nonlinear_arith);
    }
}

/// The mean of `i32` values is an `i32`.
proof fn lemma_mean_in_range(sum: int, count: int)
    requires
        count > 0,
        -count * 0x8000_0000 <= sum <= count * 0x7fff_ffff,
    ensures
        -0x8000_0000 <= quotient_toward_zero(sum, count) <= 0x7fff_ffff,
{
    if sum >= 0 {
        assert(0 <= sum / count <= 0x7fff_ffff) by (nonlinear_arith)
            requires
                count > 0,
                0 <= sum <= count * 0x7fff_ffff,
        ;
    } else {
        assert(0 <= (-sum) / count <= 0x8000_0000) by (nonlinear_arith)
            requires
                count > 0,
                0 <= -sum <= count * 0x8000_0000,
        ;
    }
}

/// `k` frames cover `len` samples where the last of them begins before
/// `len` and they end at or after it.
proof fn lemma_frame_count(len: int, channels: int, k: int)
    requires
        channels > 0,
        0 <= len,
        0 <= k,
        k == 0 ==> len == 0,
        (k - 1) * channels < len || k == 0,
        len <= k * channels,
    ensures
        frame_count(len, channels) == k,
{
    let q = (len + channels - 1) / channels;
    assert(q == k) by (nonlinear_arith)
        requires
            q == (len + channels - 1) / channels,
            channels > 0,
            0 <= k,
            (k - 1) * channels < len || (k == 0 && len == 0),
            len <= k * channels,
    ;
}

/// Mixes interleaved samples of `channels` channels down to one channel by
/// taking the mean of each frame. A last frame that is cut short is the
/// mean of the samples it has.
pub fn mix_to_mono(data: &[i32], channels: u16) -> (mixed: Vec<i32>)
    requires
        channels > 0,
    ensures
        mixed@ == mono(data@, channels as int),
{
    let n = data.len();
    let width = channels as usize;
    let mut mixed: Vec<i32> = Vec::new();
    let mut start: usize = 0;
    assert(mixed@.len() * width == 0) by (nonlinear_arith)
        requires
            mixed@.len() == 0,
    ;
    while start < n
        invariant
            n == data@.len(),
            width == channels,
            width > 0,
            start <= n,
            start < n ==> start == mixed@.len() * width,
            mixed@.len() == 0 ==> start == 0,
            mixed@.len() > 0 ==> (mixed@.len() - 1) * width < start <= mixed@.len() * width,
            forall|k: int|
                0 <= k < mixed@.len() ==> #[trigger] mixed@[k] as int == frame_mean(
                    data@,
                    channels as int,
                    k,
                ),
        decreases n - start,
    {
        let ghost k = mixed@.len() as int;
        let end = if width < n - start {
            start + width
        } else {
            n
        };
        assert((k + 1) * width == k * width + width) by (nonlinear_arith);
        assert(end as int == frame_end(n as int, channels as int, k));
        let mut sum: i64 = 0;
        let mut i: usize = start;
        while i < end
            invariant
                start <= i <= end <= n,
                n == data@.len(),
                end - start <= 0xffff,
                sum as int == sum_between(data@, start as int, i as int),
                -(i - start) * 0x8000_0000 <= sum <= (i - start) * 0x7fff_ffff,
            decreases end - i,
        {
            proof {
                lemma_sum_between_bounds(data@, start as int, i + 1);
                assert((i - start) * 0x8000_0000 <= 0xffff * 0x8000_0000) by (nonlinear_arith)
                    requires
                        0 <= i - start <= 0xffff,
                ;
                assert((i - start) * 0x7fff_ffff <= 0xffff * 0x7fff_ffff) by (nonlinear_arith)
                    requires
                        0 <= i - start <= 0xffff,
                ;
            }
            sum = sum + (data[i] as i64);
            i += 1;
        }
        let count: u64 = (end - start) as u64;
        proof {
            lemma_mean_in_range(sum as int, count as int);
            assert((end - start) * 0x8000_0000 <= 0xffff * 0x8000_0000) by (nonlinear_arith)
                requires
                    0 <= end - start <= 0xffff,
            ;
        }
        let mean: i32 = if sum >= 0 {
            ((sum as u64) / count) as i32
        } else {
            let q: u64 = ((-sum) as u64) / count;
            (-(q as i64)) as i32
        };
        assert(mean as int == frame_mean(data@, channels as int, k));
        mixed.push(mean);
        start = end;
    }
    proof {
        lemma_frame_count(n as int, channels as int, mixed@.len() as int);
        assert(mixed@ =~= mono(data@, channels as int));
    }
    mixed
}

impl SampleRing {
    /// An empty ring that holds up to `capacity` samples. There is no ring
    /// of capacity zero, and none of more than `MAX_RING_CAPACITY`.
    pub fn new(capacity: usize) -> (ring: Option<Self>)
        ensures
            ring is Some <==> 0 < capacity <= MAX_RING_CAPACITY,
            ring matches Some(r) ==> ring_contents(r).len() == 0 && ring_capacity(r) == capacity,
    {
        if capacity == 0 || capacity > MAX_RING_CAPACITY {
            None
        } else {
            Some(ring_new(capacity))
        }
    }
}

/// Mixes the interleaved samples down to one channel and pushes the result
/// into the ring, up to the room that is left. Returns the number of
/// samples pushed; the rest is dropped.
pub fn push_frames(ring: &mut SampleRing, data: &[i32], channels: u16) -> (pushed: usize)
    requires
        channels > 0,
    ensures
        ring_contents(*final(ring)) == ring_contents(*old(ring)) + keep_first(
            mono(data@, channels as int),
            ring_room(*old(ring)),
        ),
        pushed == keep_first(mono(data@, channels as int), ring_room(*old(ring))).len(),
        ring_capacity(*final(ring)) == ring_capacity(*old(ring)),
{
    let mixed = mix_to_mono(data, channels);
    let ghost before = ring_contents(*ring);
    let ghost room = ring_room(*ring);
    let mut pushed: usize = 0;
    loop
        invariant
            pushed <= mixed@.len(),
            pushed <= room,
            room == ring_room(*old(ring)),
            before == ring_contents(*old(ring)),
            mixed@ == mono(data@, channels as int),
            ring_capacity(*ring) == ring_capacity(*old(ring)),
            ring_contents(*ring) == before + mixed@.subrange(0, pushed as int),
        ensures
            ring_capacity(*ring) == ring_capacity(*old(ring)),
            ring_contents(*ring) =~= before + keep_first(mixed@, room),
            pushed == keep_first(mixed@, room).len(),
        decreases mixed@.len() - pushed,
    {
        if pushed >= mixed.len() {
            assert(mixed@.subrange(0, pushed as int) =~= mixed@);
            break ;
        }
        if !ring_try_push(ring, mixed[pushed]) {
            break ;
        }
        assert(ring_contents(*ring) =~= before + mixed@.subrange(0, pushed + 1));
        pushed += 1;
    }
    pushed
}

} // verus!
