//! Trigger configuration and edge detection.
//!
//! Sample values and trigger levels are signed integers in microvolts.

use vstd::prelude::*;

verus! {

/// Highest trigger level that can be configured: +10 V, in microvolts.
pub const MAX_TRIGGER_LEVEL: i32 = 10_000_000;

/// Lowest trigger level that can be configured: -10 V, in microvolts.
pub const MIN_TRIGGER_LEVEL: i32 = -10_000_000;

/// Acquisition mode. It is carried with the settings and has no effect on
/// edge detection.
#[derive(Debug, Clone, Copy, PartialEq, Eq, Structural)]
pub enum TriggerMode {
    Auto,
    Normal,
    Single,
}

/// Polarity of the edge that fires the trigger.
#[derive(Debug, Clone, Copy, PartialEq, Eq, Structural)]
pub enum TriggerEdge {
    Rising,
    Falling,
}

/// What the user has set the trigger to.
#[derive(Debug, Clone, Copy)]
pub struct TriggerSettings {
    pub enabled: bool,
    pub mode: TriggerMode,
    pub edge: TriggerEdge,
    /// Threshold in microvolts.
    pub level: i32,
}

/// The other polarity.
pub open spec fn opposite_edge(edge: TriggerEdge) -> TriggerEdge {
    match edge {
        TriggerEdge::Rising => TriggerEdge::Falling,
        TriggerEdge::Falling => TriggerEdge::Rising,
    }
}

/// `level` limited to the configurable range.
pub open spec fn clamp_level(level: int) -> int {
    if level < MIN_TRIGGER_LEVEL {
        MIN_TRIGGER_LEVEL as int
    } else if level > MAX_TRIGGER_LEVEL {
        MAX_TRIGGER_LEVEL as int
    } else {
        level
    }
}

/// Whether the step from `prev` to `curr` crosses `level` in the direction of `edge`.
pub open spec fn edge_fires(edge: TriggerEdge, level: int, prev: int, curr: int) -> bool {
    match edge {
        TriggerEdge::Rising => prev < level && curr >= level,
        TriggerEdge::Falling => prev > level && curr <= level,
    }
}

/// Whether the trigger fires at index `i`: the sample before it and the sample
/// at it form a crossing.
pub open spec fn fires_at(samples: Seq<i32>, edge: TriggerEdge, level: int, i: int) -> bool {
    1 <= i < samples.len() && edge_fires(edge, level, samples[i - 1] as int, samples[i] as int)
}

/// Whether `i` is the earliest index at which the trigger fires.
pub open spec fn is_first_fire(samples: Seq<i32>, edge: TriggerEdge, level: int, i: int) -> bool {
    fires_at(samples, edge, level, i) && forall|j: int|
        0 <= j < i ==> !fires_at(samples, edge, level, j)
}

/// The earliest index at which the trigger fires, or 0 where it fires nowhere.
pub open spec fn trigger_index(samples: Seq<i32>, edge: TriggerEdge, level: int) -> int {
    if exists|i: int| fires_at(samples, edge, level, i) {
        choose|i: int| is_first_fire(samples, edge, level, i)
    } else {
        0
    }
}

/// The earliest firing index is unique, so it is the trigger index.
pub proof fn lemma_first_fire_is_trigger_index(
    samples: Seq<i32>,
    edge: TriggerEdge,
    level: int,
    i: int,
)
    requires
        is_first_fire(samples, edge, level, i),
    ensures
        trigger_index(samples, edge, level) == i,
{
    let t = choose|k: int| is_first_fire(samples, edge, level, k);
    assert(is_first_fire(samples, edge, level, t));
    if t < i {
        assert(!fires_at(samples, edge, level, t));
    }
    if i < t {
        assert(!fires_at(samples, edge, level, i));
    }
}

/// The trigger index lies inside the buffer, or is 0 for an empty one.
pub proof fn lemma_trigger_index_bounds(samples: Seq<i32>, edge: TriggerEdge, level: int)
    ensures
        0 <= trigger_index(samples, edge, level),
        samples.len() > 0 ==> trigger_index(samples, edge, level) < samples.len(),
        samples.len() == 0 ==> trigger_index(samples, edge, level) == 0,
{
    if exists|i: int| fires_at(samples, edge, level, i) {
        let w = choose|i: int| fires_at(samples, edge, level, i);
        lemma_least_fire_exists(samples, edge, level, w);
        let t = choose|k: int| is_first_fire(samples, edge, level, k);
        assert(is_first_fire(samples, edge, level, t));
    }
}

/// Where the trigger fires at `w`, some index at or before `w` is the earliest.
proof fn lemma_least_fire_exists(samples: Seq<i32>, edge: TriggerEdge, level: int, w: int)
    requires
        fires_at(samples, edge, level, w),
    ensures
        exists|k: int| is_first_fire(samples, edge, level, k),
    decreases w,
{
    if exists|j: int| 0 <= j < w && fires_at(samples, edge, level, j) {
        let j = choose|j: int| 0 <= j < w && fires_at(samples, edge, level, j);
        lemma_least_fire_exists(samples, edge, level, j);
    } else {
        assert(is_first_fire(samples, edge, level, w));
    }
}

impl Default for TriggerSettings {
    fn default() -> (r: Self)
        ensures
            r.enabled,
            r.mode == TriggerMode::Auto,
            r.edge == TriggerEdge::Rising,
            r.level == 0,
    {
        TriggerSettings {
            enabled: true,
            mode: TriggerMode::Auto,
            edge: TriggerEdge::Rising,
            level: 0,
        }
    }
}

impl TriggerSettings {
    /// Switches triggering on or off.
    pub fn toggle_enabled(&mut self)
        ensures
            final(self).enabled == !old(self).enabled,
            final(self).mode == old(self).mode,
            final(self).edge == old(self).edge,
            final(self).level == old(self).level,
    {
        self.enabled = !self.enabled;
    }

    /// Sets the threshold, limited to the range from -10 V to +10 V.
    pub fn set_level(&mut self, level: i32)
        ensures
            final(self).level == clamp_level(level as int),
            final(self).enabled == old(self).enabled,
            final(self).mode == old(self).mode,
            final(self).edge == old(self).edge,
    {
        if level < MIN_TRIGGER_LEVEL {
            self.level = MIN_TRIGGER_LEVEL;
        } else if level > MAX_TRIGGER_LEVEL {
            self.level = MAX_TRIGGER_LEVEL;
        } else {
            self.level = level;
        }
    }

    /// Switches between the rising and the falling edge.
    pub fn toggle_edge(&mut self)
        ensures
            final(self).edge == opposite_edge(old(self).edge),
            final(self).enabled == old(self).enabled,
            final(self).mode == old(self).mode,
            final(self).level == old(self).level,
    {
        self.edge = match self.edge {
            TriggerEdge::Rising => TriggerEdge::Falling,
            TriggerEdge::Falling => TriggerEdge::Rising,
        };
    }
}

/// Scans the sample pairs from oldest to newest and returns the index of the
/// first one that crosses the level in the configured direction, or 0 where
/// none does.
pub fn find_trigger_index(samples: &[i32], settings: &TriggerSettings) -> (index: usize)
    ensures
        index as int == trigger_index(samples@, settings.edge, settings.level as int),
        index == 0 || is_first_fire(samples@, settings.edge, settings.level as int, index as int),
        index == 0 ==> forall|i: int| !fires_at(samples@, settings.edge, settings.level as int, i),
{
    let level = settings.level;
    let n = samples.len();
    let mut i: usize = 1;
    while i < n
        invariant
            1 <= i,
            n == samples@.len(),
            level == settings.level,
            forall|j: int| 0 <= j < i ==> !fires_at(samples@, settings.edge, level as int, j),
        decreases n - i,
    {
        let prev = samples[i - 1];
        let curr = samples[i];
        let triggered = match settings.edge {
            TriggerEdge::Rising => prev < level && curr >= level,
            TriggerEdge::Falling => prev > level && curr <= level,
        };
        if triggered {
            proof {
                lemma_first_fire_is_trigger_index(
                    samples@,
                    settings.edge,
                    level as int,
                    i as int,
                );
            }
            return i;
        }
        i += 1;
    }
    0
}

} // verus!
