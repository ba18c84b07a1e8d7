//! Trace persistence: a bounded history of past traces, oldest first, drawn
//! under the live trace with an opacity that grows with recency.

use crate::buffer::keep_last;
use crate::waveform::DisplayPoint;
use std::collections::VecDeque;
use vstd::prelude::*;

verus! {

/// Smallest number of traces the history can be set to keep.
pub const MIN_PERSISTENCE_FRAMES: usize = 1;

/// Largest number of traces the history can be set to keep.
pub const MAX_PERSISTENCE_FRAMES: usize = 30;

/// Number of traces a new canvas keeps.
pub const DEFAULT_PERSISTENCE_FRAMES: usize = 10;

/// Opacity that no trace of the history reaches, in thousandths: the live
/// trace is drawn at 1000.
pub const HISTORY_ALPHA_LIMIT: u32 = 600;

/// What a canvas holds, as plain values.
pub struct CanvasState {
    /// The kept traces, oldest first.
    pub history: Seq<Seq<DisplayPoint>>,
    pub persistence_enabled: bool,
    pub persistence_frames: usize,
}

/// The history of past traces and its settings. The history holds no more
/// traces than its depth, which lies between 1 and 30; it holds none while
/// persistence is off, and none of its traces is empty.
pub struct WaveformCanvas {
    history: VecDeque<Vec<DisplayPoint>>,
    persistence_enabled: bool,
    persistence_frames: usize,
}

/// The traces that a history holds.
pub open spec fn traces_of(history: Seq<Vec<DisplayPoint>>) -> Seq<Seq<DisplayPoint>> {
    Seq::new(history.len(), |i: int| history[i]@)
}

/// `frames` limited to the range that the history can be set to.
pub open spec fn clamp_frames(frames: int) -> int {
    if frames < MIN_PERSISTENCE_FRAMES {
        MIN_PERSISTENCE_FRAMES as int
    } else if frames > MAX_PERSISTENCE_FRAMES {
        MAX_PERSISTENCE_FRAMES as int
    } else {
        frames
    }
}

/// Opacity, in thousandths, of the trace at position `index` of a history of
/// `count` traces: `(index + 1) / (count + 1)` of the limit, rounded down.
pub open spec fn alpha_at(index: int, count: int) -> int {
    (HISTORY_ALPHA_LIMIT * (index + 1)) / (count + 1)
}

/// Every trace of a history of at most `MAX_PERSISTENCE_FRAMES` traces is
/// drawn below the limit, and a newer one is brighter than an older one.
pub proof fn lemma_alpha_grows_with_recency(older: int, newer: int, count: int)
    requires
        0 <= older < newer < count <= MAX_PERSISTENCE_FRAMES,
    ensures
        0 < alpha_at(older, count) < alpha_at(newer, count) < HISTORY_ALPHA_LIMIT,
{
    let d = count + 1;
    let a = alpha_at(older, count);
    let b = alpha_at(newer, count);
    assert(a * d <= 600 * (older + 1) < (a + 1) * d) by (nonlinear_arith)
        requires
            a == (600 * (older + 1)) / d,
            d > 0,
    ;
    assert(b * d <= 600 * (newer + 1) < (b + 1) * d) by (nonlinear_arith)
        requires
            b == (600 * (newer + 1)) / d,
            d > 0,
    ;
    assert(a > 0) by (nonlinear_arith)
        requires
            600 * (older + 1) < (a + 1) * d,
            0 < d <= 31,
            older >= 0,
    ;
    assert(a < b) by (nonlinear_arith)
        requires
            a * d <= 600 * (older + 1),
            600 * (newer + 1) < (b + 1) * d,
            older + 1 <= newer,
            0 < d <= 31,
    ;
    assert(b < 600) by (nonlinear_arith)
        requires
            b * d <= 600 * (newer + 1),
            newer + 1 < d,
            d > 0,
    ;
}

impl View for WaveformCanvas {
    type V = CanvasState;

    closed spec fn view(&self) -> CanvasState {
        CanvasState {
            history: traces_of(self.history@),
            persistence_enabled: self.persistence_enabled,
            persistence_frames: self.persistence_frames,
        }
    }
}

impl Default for WaveformCanvas {
    fn default() -> (canvas: Self)
        ensures
            canvas@.history.len() == 0,
            canvas@.persistence_enabled,
            canvas@.persistence_frames == DEFAULT_PERSISTENCE_FRAMES,
    {
        WaveformCanvas::new()
    }
}

impl WaveformCanvas {
    #[verifier::type_invariant]
    spec fn bounded(&self) -> bool {
        &&& MIN_PERSISTENCE_FRAMES <= self.persistence_frames <= MAX_PERSISTENCE_FRAMES
        &&& self.history@.len() <= self.persistence_frames
        &&& !self.persistence_enabled ==> self.history@.len() == 0
        &&& forall|i: int| 0 <= i < self.history@.len() ==> (#[trigger] self.history@[i])@.len() > 0
    }

    /// A canvas with persistence on, the default depth and no history.
    pub fn new() -> (canvas: Self)
        ensures
            canvas@.history.len() == 0,
            canvas@.persistence_enabled,
            canvas@.persistence_frames == DEFAULT_PERSISTENCE_FRAMES,
    {
        WaveformCanvas {
            history: VecDeque::new(),
            persistence_enabled: true,
            persistence_frames: DEFAULT_PERSISTENCE_FRAMES,
        }
    }

    /// Appends a trace to the history and drops the oldest traces beyond the
    /// configured depth. With persistence off, or for a trace without
    /// points, nothing changes.
    pub fn add_to_history(&mut self, points: Vec<DisplayPoint>)
        ensures
            final(self)@.persistence_enabled == old(self)@.persistence_enabled,
            final(self)@.persistence_frames == old(self)@.persistence_frames,
            final(self)@.history == if old(self)@.persistence_enabled && points@.len() > 0 {
                keep_last(old(self)@.history.push(points@), old(self)@.persistence_frames as int)
            } else {
                old(self)@.history
            },
    {
        proof {
            use_type_invariant(&*self);
        }
        if self.persistence_enabled && points.len() > 0 {
            let depth = self.persistence_frames;
            let mut history: VecDeque<Vec<DisplayPoint>> = VecDeque::new();
            std::mem::swap(&mut self.history, &mut history);
            history.push_back(points);
            trim_front(&mut history, depth);
            std::mem::swap(&mut self.history, &mut history);
            assert(traces_of(self.history@) =~= keep_last(
                traces_of(old(self).history@).push(points@),
                depth as int,
            ));
        }
    }

    /// Switches persistence on or off. Switching it off clears the history.
    pub fn toggle_persistence(&mut self)
        ensures
            final(self)@.persistence_enabled == !old(self)@.persistence_enabled,
            final(self)@.persistence_frames == old(self)@.persistence_frames,
            final(self)@.history == if old(self)@.persistence_enabled {
                Seq::<Seq<DisplayPoint>>::empty()
            } else {
                old(self)@.history
            },
            final(self)@.history.len() == 0,
    {
        proof {
            use_type_invariant(&*self);
        }
        if self.persistence_enabled {
            let mut cleared: VecDeque<Vec<DisplayPoint>> = VecDeque::new();
            std::mem::swap(&mut self.history, &mut cleared);
            self.persistence_enabled = false;
        } else {
            self.persistence_enabled = true;
        }
        assert(traces_of(self.history@) =~= Seq::<Seq<DisplayPoint>>::empty());
    }

    /// Sets the depth of the history, limited to the range from 1 to 30, and
    /// drops the oldest traces beyond it.
    pub fn set_persistence_frames(&mut self, frames: usize)
        ensures
            final(self)@.persistence_enabled == old(self)@.persistence_enabled,
            final(self)@.persistence_frames == clamp_frames(frames as int),
            final(self)@.history == keep_last(old(self)@.history, clamp_frames(frames as int)),
    {
        proof {
            use_type_invariant(&*self);
        }
        let depth = if frames < MIN_PERSISTENCE_FRAMES {
            MIN_PERSISTENCE_FRAMES
        } else if frames > MAX_PERSISTENCE_FRAMES {
            MAX_PERSISTENCE_FRAMES
        } else {
            frames
        };
        let mut history: VecDeque<Vec<DisplayPoint>> = VecDeque::new();
        std::mem::swap(&mut self.history, &mut history);
        self.persistence_frames = depth;
        trim_front(&mut history, depth);
        std::mem::swap(&mut self.history, &mut history);
        assert(traces_of(self.history@) =~= keep_last(
            traces_of(old(self).history@),
            depth as int,
        ));
    }

    /// Whether persistence is on.
    pub fn is_persistence_enabled(&self) -> (enabled: bool)
        ensures
            enabled == self@.persistence_enabled,
    {
        self.persistence_enabled
    }

    /// Depth of the history. It lies between 1 and 30.
    pub fn get_persistence_frames(&self) -> (frames: usize)
        ensures
            frames == self@.persistence_frames,
            MIN_PERSISTENCE_FRAMES <= frames <= MAX_PERSISTENCE_FRAMES,
    {
        proof {
            use_type_invariant(self);
        }
        self.persistence_frames
    }

    /// The kept traces, oldest first. There are no more of them than the
    /// depth, none with persistence off, and none is empty.
    pub fn get_history(&self) -> (history: &VecDeque<Vec<DisplayPoint>>)
        ensures
            traces_of(history@) == self@.history,
            history@.len() <= self@.persistence_frames,
            !self@.persistence_enabled ==> history@.len() == 0,
            forall|i: int| 0 <= i < history@.len() ==> (#[trigger] history@[i])@.len() > 0,
    {
        proof {
            use_type_invariant(self);
        }
        &self.history
    }

    /// Opacity, in thousandths, of each trace of the history, oldest first.
    pub fn history_alphas(&self) -> (alphas: Vec<u32>)
        ensures
            alphas@.len() == self@.history.len(),
            forall|i: int|
                0 <= i < alphas@.len() ==> #[trigger] alphas@[i] as int == alpha_at(
                    i,
                    self@.history.len() as int,
                ),
    {
        let count = self.history.len();
        let mut alphas: Vec<u32> = Vec::new();
        let mut i: usize = 0;
        while i < count
            invariant
                i <= count,
                count == self.history@.len(),
                alphas@.len() == i,
                forall|k: int|
                    0 <= k < i ==> #[trigger] alphas@[k] as int == alpha_at(k, count as int),
            decreases count - i,
        {
            alphas.push(history_alpha(i, count));
            i += 1;
        }
        alphas
    }
}

/// Drops entries from the front until no more than `depth` are left.
fn trim_front(history: &mut VecDeque<Vec<DisplayPoint>>, depth: usize)
    ensures
        final(history)@ == keep_last(old(history)@, depth as int),
{
    while history.len() > depth
        invariant
            history@.len() <= old(history)@.len(),
            history@.len() >= depth || history@.len() == old(history)@.len(),
            history@ == old(history)@.subrange(
                old(history)@.len() - history@.len(),
                old(history)@.len() as int,
            ),
        decreases history@.len(),
    {
        let _oldest = history.pop_front();
    }
    assert(history@ =~= keep_last(old(history)@, depth as int));
}

/// Opacity, in thousandths, of the trace at position `index` of a history of
/// `count` traces.
pub fn history_alpha(index: usize, count: usize) -> (alpha: u32)
    requires
        index < count,
    ensures
        alpha as int == alpha_at(index as int, count as int),
        alpha < HISTORY_ALPHA_LIMIT,
{
    let scaled: u128 = (HISTORY_ALPHA_LIMIT as u128) * ((index as u128) + 1);
    let q: u128 = scaled / ((count as u128) + 1);
    assert(q < HISTORY_ALPHA_LIMIT) by (nonlinear_arith)
        requires
            q == (HISTORY_ALPHA_LIMIT * (index + 1)) / (count + 1),
            0 <= index < count,
            HISTORY_ALPHA_LIMIT == 600,
    ;
    q as u32
}

} // verus!
