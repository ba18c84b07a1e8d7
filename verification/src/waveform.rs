//! The captured waveform, its scales, and the window of it that fills one
//! screen.
//!
//! Units: samples and volts per division in microvolts, time per division in
//! nanoseconds, the sample rate in hertz. A display point has its horizontal
//! position in millionths of the screen width and its height in thousandths
//! of a division.
//!
//! One step of a scale control is a factor of two, up or down.

use crate::trigger::{
    find_trigger_index, lemma_trigger_index_bounds, trigger_index, TriggerEdge, TriggerSettings,
};
use vstd::arithmetic::power2::{lemma2_to64, lemma_pow2_unfold, pow2};
use vstd::prelude::*;

verus! {

/// Number of horizontal divisions on the screen.
pub const HORIZONTAL_DIVISIONS: u64 = 10;

/// Nanoseconds in one second.
pub const NANOS_PER_SECOND: u64 = 1_000_000_000;

/// Smallest time per division: 10 microseconds, in nanoseconds.
pub const MIN_TIME_PER_DIVISION: u64 = 10_000;

/// Time per division of a new waveform: 1 millisecond, in nanoseconds.
pub const DEFAULT_TIME_PER_DIVISION: u64 = 1_000_000;

/// Smallest volts per division: 10 millivolts, in microvolts.
pub const MIN_VOLTS_PER_DIVISION: u32 = 10_000;

/// Volts per division of a new waveform: 0.5 V, in microvolts.
pub const DEFAULT_VOLTS_PER_DIVISION: u32 = 500_000;

/// Horizontal position of the right edge of the screen.
pub const X_FULL_SCALE: u32 = 1_000_000;

/// Height of one division.
pub const Y_PER_DIVISION: u32 = 1_000;

/// One point of the trace.
#[derive(Debug, Clone, Copy, PartialEq, Eq, Structural)]
pub struct DisplayPoint {
    /// Position across the screen, from 0 to `X_FULL_SCALE`.
    pub x: u32,
    /// Height above the centre line, `Y_PER_DIVISION` to a division.
    pub y: i64,
}

/// What a waveform holds, as plain values.
pub struct WaveformState {
    pub samples: Seq<i32>,
    pub time_per_division: u64,
    pub volts_per_division: u32,
    pub sample_rate: u32,
}

/// The samples that are on display and the scales that they are shown at.
/// Neither scale is ever below its floor.
#[derive(Debug)]
pub struct WaveformData {
    samples: Vec<i32>,
    time_per_division: u64,
    volts_per_division: u32,
    sample_rate: u32,
}

/// `v` limited to what a `usize` holds.
pub open spec fn saturate_usize(v: int) -> int {
    if v > usize::MAX {
        usize::MAX as int
    } else {
        v
    }
}

/// Number of samples that span the ten divisions of one screen, rounded to
/// the nearest whole sample (a half rounds up).
pub open spec fn samples_per_screen(time_per_division: int, sample_rate: int) -> int {
    (time_per_division * HORIZONTAL_DIVISIONS * sample_rate + NANOS_PER_SECOND / 2)
        / (NANOS_PER_SECOND as int)
}

/// Twice `v`, limited to `max`.
pub open spec fn doubled(v: int, max: int) -> int {
    if 2 * v > max {
        max
    } else {
        2 * v
    }
}

/// Half of `v` rounded down, but no less than `floor`.
pub open spec fn halved(v: int, floor: int) -> int {
    if v / 2 < floor {
        floor
    } else {
        v / 2
    }
}

/// `v`, but no less than `floor`.
pub open spec fn at_least(v: int, floor: int) -> int {
    if v < floor {
        floor
    } else {
        v
    }
}

/// Index at which the window is anchored: the trigger index where
/// triggering is enabled, else the start of the most recent screen.
pub open spec fn window_anchor(
    samples: Seq<i32>,
    enabled: bool,
    edge: TriggerEdge,
    level: int,
    per_screen: int,
) -> int {
    if enabled {
        trigger_index(samples, edge, level)
    } else if samples.len() > per_screen {
        samples.len() - per_screen
    } else {
        0
    }
}

/// One past the last index of the window.
pub open spec fn window_end(anchor: int, per_screen: int, len: int) -> int {
    if anchor + per_screen < len {
        anchor + per_screen
    } else {
        len
    }
}

/// First index of the window.
pub open spec fn window_start(anchor: int, end: int, per_screen: int) -> int {
    let back = if end > per_screen {
        end - per_screen
    } else {
        0
    };
    if anchor < back {
        anchor
    } else {
        back
    }
}

/// Height of a sample on the screen: `sample * Y_PER_DIVISION /
/// volts_per_division`, rounded toward zero.
pub open spec fn sample_height(sample: int, volts_per_division: int) -> int {
    if sample >= 0 {
        (sample * Y_PER_DIVISION) / volts_per_division
    } else {
        -((-sample * Y_PER_DIVISION) / volts_per_division)
    }
}

/// Horizontal position of the `i`-th point of a screen of `per_screen`
/// samples, rounded down.
pub open spec fn point_x(i: int, per_screen: int) -> int {
    (i * X_FULL_SCALE) / per_screen
}

/// The points of the trace for the given waveform and trigger.
pub open spec fn display_points(w: WaveformState, enabled: bool, edge: TriggerEdge, level: int) -> Seq<
    DisplayPoint,
> {
    let per_screen = saturate_usize(
        samples_per_screen(w.time_per_division as int, w.sample_rate as int),
    );
    let anchor = window_anchor(w.samples, enabled, edge, level, per_screen);
    let end = window_end(anchor, per_screen, w.samples.len() as int);
    let start = window_start(anchor, end, per_screen);
    Seq::new(
        (end - start) as nat,
        |i: int|
            (DisplayPoint {
                x: point_x(i, per_screen) as u32,
                y: sample_height(w.samples[start + i] as int, w.volts_per_division as int) as i64,
            }),
    )
}

/// `v` halved `times` times, never going below `floor`.
pub open spec fn halved_repeatedly(v: int, floor: int, times: nat) -> int
    decreases times,
{
    if times == 0 {
        v
    } else {
        halved_repeatedly(halved(v, floor), floor, (times - 1) as nat)
    }
}

/// The number of samples per screen is the whole number nearest to the time
/// per division times the ten divisions times the sample rate: it is off by
/// at most half a sample.
pub proof fn lemma_samples_per_screen_is_nearest(time_per_division: int, sample_rate: int)
    requires
        0 <= time_per_division,
        0 <= sample_rate,
    ensures
        0 <= samples_per_screen(time_per_division, sample_rate),
        2 * (samples_per_screen(time_per_division, sample_rate) * NANOS_PER_SECOND
            - time_per_division * HORIZONTAL_DIVISIONS * sample_rate) <= NANOS_PER_SECOND,
        2 * (time_per_division * HORIZONTAL_DIVISIONS * sample_rate - samples_per_screen(
            time_per_division,
            sample_rate,
        ) * NANOS_PER_SECOND) < NANOS_PER_SECOND,
{
    let exact = time_per_division * HORIZONTAL_DIVISIONS * sample_rate;
    assert(exact >= 0) by (nonlinear_arith)
        requires
            exact == time_per_division * 10 * sample_rate,
            0 <= time_per_division,
            0 <= sample_rate,
    ;
}

/// A scale at its floor stays there however often it is halved.
pub proof fn lemma_floor_is_kept(floor: int, times: nat)
    requires
        0 <= floor,
    ensures
        halved_repeatedly(floor, floor, times) == floor,
    decreases times,
{
    if times > 0 {
        lemma_floor_is_kept(floor, (times - 1) as nat);
    }
}

/// Halving a scale often enough brings it to its floor exactly: after
/// `times` steps for a scale below the `times`-th power of two.
pub proof fn lemma_halving_reaches_floor(v: int, floor: int, times: nat)
    requires
        1 <= floor <= v,
        v < pow2(times),
    ensures
        halved_repeatedly(v, floor, times) == floor,
    decreases times,
{
    if times == 0 {
        lemma2_to64();
    } else {
        lemma_pow2_unfold(times);
        if v / 2 < floor {
            lemma_floor_is_kept(floor, (times - 1) as nat);
        } else {
            lemma_halving_reaches_floor(v / 2, floor, (times - 1) as nat);
        }
    }
}

/// Decreasing the time scale 64 times, or the voltage scale 32 times,
/// brings it to its floor, wherever it stood; increasing it from there
/// moves it strictly above the floor.
pub proof fn lemma_scale_floors(time_per_division: u64, volts_per_division: u32)
    requires
        time_per_division >= MIN_TIME_PER_DIVISION,
        volts_per_division >= MIN_VOLTS_PER_DIVISION,
    ensures
        halved_repeatedly(time_per_division as int, MIN_TIME_PER_DIVISION as int, 64)
            == MIN_TIME_PER_DIVISION,
        halved_repeatedly(volts_per_division as int, MIN_VOLTS_PER_DIVISION as int, 32)
            == MIN_VOLTS_PER_DIVISION,
        doubled(MIN_TIME_PER_DIVISION as int, u64::MAX as int) > MIN_TIME_PER_DIVISION,
        doubled(MIN_VOLTS_PER_DIVISION as int, u32::MAX as int) > MIN_VOLTS_PER_DIVISION,
{
    lemma2_to64();
    lemma_halving_reaches_floor(time_per_division as int, MIN_TIME_PER_DIVISION as int, 64);
    lemma_halving_reaches_floor(volts_per_division as int, MIN_VOLTS_PER_DIVISION as int, 32);
}

/// The window of one screen starts a screen before its end, or at the start
/// of the buffer where that is nearer, and holds a full screen of samples
/// or the whole buffer.
pub proof fn lemma_window(anchor: int, per_screen: int, len: int)
    requires
        0 <= per_screen,
        0 <= anchor,
        anchor < len || (anchor == 0 && len == 0),
    ensures
        ({
            let end = window_end(anchor, per_screen, len);
            let start = window_start(anchor, end, per_screen);
            &&& 0 <= start <= end <= len
            &&& start <= anchor
            &&& end - start == if per_screen < len {
                per_screen
            } else {
                len
            }
        }),
{
}

impl View for WaveformData {
    type V = WaveformState;

    closed spec fn view(&self) -> WaveformState {
        WaveformState {
            samples: self.samples@,
            time_per_division: self.time_per_division,
            volts_per_division: self.volts_per_division,
            sample_rate: self.sample_rate,
        }
    }
}

impl Clone for WaveformData {
    fn clone(&self) -> (copy: Self)
        ensures
            copy@ == self@,
    {
        proof {
            use_type_invariant(self);
        }
        let samples = self.samples.clone();
        assert(samples@ =~= self.samples@);
        WaveformData {
            samples,
            time_per_division: self.time_per_division,
            volts_per_division: self.volts_per_division,
            sample_rate: self.sample_rate,
        }
    }
}

impl WaveformData {
    #[verifier::type_invariant]
    spec fn scales_above_floor(&self) -> bool {
        &&& self.time_per_division >= MIN_TIME_PER_DIVISION
        &&& self.volts_per_division >= MIN_VOLTS_PER_DIVISION
    }

    /// An empty waveform at the default scales.
    pub fn new(sample_rate: u32) -> (w: Self)
        ensures
            w@.samples.len() == 0,
            w@.time_per_division == DEFAULT_TIME_PER_DIVISION,
            w@.volts_per_division == DEFAULT_VOLTS_PER_DIVISION,
            w@.sample_rate == sample_rate,
    {
        WaveformData {
            samples: Vec::new(),
            time_per_division: DEFAULT_TIME_PER_DIVISION,
            volts_per_division: DEFAULT_VOLTS_PER_DIVISION,
            sample_rate,
        }
    }

    /// The samples, oldest first.
    pub fn samples(&self) -> (s: &Vec<i32>)
        ensures
            s@ == self@.samples,
    {
        &self.samples
    }

    /// Time per division in nanoseconds. It is never below the floor.
    pub fn time_per_division(&self) -> (t: u64)
        ensures
            t == self@.time_per_division,
            t >= MIN_TIME_PER_DIVISION,
    {
        proof {
            use_type_invariant(self);
        }
        self.time_per_division
    }

    /// Volts per division in microvolts. It is never below the floor.
    pub fn volts_per_division(&self) -> (v: u32)
        ensures
            v == self@.volts_per_division,
            v >= MIN_VOLTS_PER_DIVISION,
    {
        proof {
            use_type_invariant(self);
        }
        self.volts_per_division
    }

    /// Sample rate in hertz.
    pub fn sample_rate(&self) -> (r: u32)
        ensures
            r == self@.sample_rate,
    {
        self.sample_rate
    }

    /// Replaces the samples.
    pub fn update_samples(&mut self, new_samples: Vec<i32>)
        ensures
            final(self)@ == (WaveformState { samples: new_samples@, ..old(self)@ }),
    {
        proof {
            use_type_invariant(&*self);
        }
        self.samples = new_samples;
    }

    /// Sets the time per division, raised to the floor where it is below it.
    pub fn set_time_per_division(&mut self, nanos: u64)
        ensures
            final(self)@ == (WaveformState {
                time_per_division: at_least(nanos as int, MIN_TIME_PER_DIVISION as int) as u64,
                ..old(self)@
            }),
    {
        proof {
            use_type_invariant(&*self);
        }
        self.time_per_division = if nanos < MIN_TIME_PER_DIVISION {
            MIN_TIME_PER_DIVISION
        } else {
            nanos
        };
    }

    /// Sets the volts per division, raised to the floor where it is below it.
    pub fn set_volts_per_division(&mut self, microvolts: u32)
        ensures
            final(self)@ == (WaveformState {
                volts_per_division: at_least(
                    microvolts as int,
                    MIN_VOLTS_PER_DIVISION as int,
                ) as u32,
                ..old(self)@
            }),
    {
        proof {
            use_type_invariant(&*self);
        }
        self.volts_per_division = if microvolts < MIN_VOLTS_PER_DIVISION {
            MIN_VOLTS_PER_DIVISION
        } else {
            microvolts
        };
    }

    /// Doubles the time per division, stopping at the largest value the
    /// field holds.
    pub fn increase_time_scale(&mut self)
        ensures
            final(self)@ == (WaveformState {
                time_per_division: doubled(
                    old(self)@.time_per_division as int,
                    u64::MAX as int,
                ) as u64,
                ..old(self)@
            }),
    {
        proof {
            use_type_invariant(&*self);
        }
        self.time_per_division = if self.time_per_division > u64::MAX / 2 {
            u64::MAX
        } else {
            self.time_per_division * 2
        };
    }

    /// Halves the time per division, stopping at the floor.
    pub fn decrease_time_scale(&mut self)
        ensures
            final(self)@ == (WaveformState {
                time_per_division: halved(
                    old(self)@.time_per_division as int,
                    MIN_TIME_PER_DIVISION as int,
                ) as u64,
                ..old(self)@
            }),
    {
        proof {
            use_type_invariant(&*self);
        }
        let half: u64 = self.time_per_division / 2;
        self.time_per_division = if half < MIN_TIME_PER_DIVISION {
            MIN_TIME_PER_DIVISION
        } else {
            half
        };
    }

    /// Doubles the volts per division, stopping at the largest value the
    /// field holds.
    pub fn increase_voltage_scale(&mut self)
        ensures
            final(self)@ == (WaveformState {
                volts_per_division: doubled(
                    old(self)@.volts_per_division as int,
                    u32::MAX as int,
                ) as u32,
                ..old(self)@
            }),
    {
        proof {
            use_type_invariant(&*self);
        }
        self.volts_per_division = if self.volts_per_division > u32::MAX / 2 {
            u32::MAX
        } else {
            self.volts_per_division * 2
        };
    }

    /// Halves the volts per division, stopping at the floor.
    pub fn decrease_voltage_scale(&mut self)
        ensures
            final(self)@ == (WaveformState {
                volts_per_division: halved(
                    old(self)@.volts_per_division as int,
                    MIN_VOLTS_PER_DIVISION as int,
                ) as u32,
                ..old(self)@
            }),
    {
        proof {
            use_type_invariant(&*self);
        }
        let half: u32 = self.volts_per_division / 2;
        self.volts_per_division = if half < MIN_VOLTS_PER_DIVISION {
            MIN_VOLTS_PER_DIVISION
        } else {
            half
        };
    }

    /// Number of samples that one screen spans at the current time scale,
    /// limited to what a `usize` holds.
    pub fn calculate_samples_per_screen(&self) -> (n: usize)
        ensures
            n as int == saturate_usize(
                samples_per_screen(self@.time_per_division as int, self@.sample_rate as int),
            ),
    {
        let t: u128 = self.time_per_division as u128;
        let rate: u128 = self.sample_rate as u128;
        assert(t * 10 * rate <= 0xffff_ffff_ffff_ffff * 10 * 0xffff_ffff) by (nonlinear_arith)
            requires
                0 <= t <= 0xffff_ffff_ffff_ffff,
                0 <= rate <= 0xffff_ffff,
        ;
        let scaled: u128 = t * (HORIZONTAL_DIVISIONS as u128) * rate;
        let rounded: u128 = (scaled + (NANOS_PER_SECOND as u128) / 2) / (NANOS_PER_SECOND as u128);
        if rounded > usize::MAX as u128 {
            usize::MAX
        } else {
            rounded as usize
        }
    }

    /// Index at which the trigger first fires in the samples, or 0.
    pub fn find_trigger_point(&self, settings: &TriggerSettings) -> (index: usize)
        ensures
            index as int == trigger_index(self@.samples, settings.edge, settings.level as int),
    {
        find_trigger_index(self.samples.as_slice(), settings)
    }

    /// The trace of one screen: the window of samples anchored at the
    /// trigger (or at the most recent screen where triggering is off), one
    /// point per sample.
    ///
    /// The window holds a full screen of samples wherever the buffer has as
    /// many, and the whole buffer otherwise. Near the end of the buffer the
    /// window is moved back rather than cut short.
    pub fn get_display_samples(&self, trigger_settings: &TriggerSettings) -> (points: Vec<
        DisplayPoint,
    >)
        ensures
            points@ == display_points(
                self@,
                trigger_settings.enabled,
                trigger_settings.edge,
                trigger_settings.level as int,
            ),
            points@.len() == screen_len(self@),
            forall|i: int| 0 <= i < points@.len() ==> #[trigger] points@[i].x < X_FULL_SCALE,
    {
        proof {
            use_type_invariant(self);
            lemma_trigger_index_bounds(
                self.samples@,
                trigger_settings.edge,
                trigger_settings.level as int,
            );
        }
        let n = self.samples.len();
        let per_screen = self.calculate_samples_per_screen();
        let mut points: Vec<DisplayPoint> = Vec::new();
        if n == 0 {
            assert(points@ =~= display_points(
                self@,
                trigger_settings.enabled,
                trigger_settings.edge,
                trigger_settings.level as int,
            ));
            return points;
        }
        let anchor = if trigger_settings.enabled {
            self.find_trigger_point(trigger_settings)
        } else if n > per_screen {
            n - per_screen
        } else {
            0
        };
        let end = if per_screen < n - anchor {
            anchor + per_screen
        } else {
            n
        };
        let back = if end > per_screen {
            end - per_screen
        } else {
            0
        };
        let start = if anchor < back {
            anchor
        } else {
            back
        };
        let mut i = start;
        while i < end
            invariant
                start <= i <= end <= n,
                n == self.samples@.len(),
                end - start <= per_screen,
                self.volts_per_division >= MIN_VOLTS_PER_DIVISION,
                points@.len() == i - start,
                forall|j: int|
                    0 <= j < points@.len() ==> #[trigger] points@[j] == (DisplayPoint {
                        x: point_x(j, per_screen as int) as u32,
                        y: sample_height(
                            self.samples@[start + j] as int,
                            self.volts_per_division as int,
                        ) as i64,
                    }),
                forall|j: int| 0 <= j < points@.len() ==> #[trigger] points@[j].x < X_FULL_SCALE,
            decreases end - i,
        {
            let x = position_of(i - start, per_screen);
            let y = height_of(self.samples[i], self.volts_per_division);
            points.push(DisplayPoint { x, y });
            i += 1;
        }
        assert(points@ =~= display_points(
            self@,
            trigger_settings.enabled,
            trigger_settings.edge,
            trigger_settings.level as int,
        ));
        points
    }
}

/// Number of points in the trace of one screen: a full screen of samples,
/// or all the samples where there are fewer.
pub open spec fn screen_len(w: WaveformState) -> nat {
    let per_screen = saturate_usize(
        samples_per_screen(w.time_per_division as int, w.sample_rate as int),
    );
    if per_screen < w.samples.len() {
        per_screen as nat
    } else {
        w.samples.len()
    }
}

/// Horizontal position of point `i` of a screen of `per_screen` samples.
fn position_of(i: usize, per_screen: usize) -> (x: u32)
    requires
        i < per_screen,
    ensures
        x as int == point_x(i as int, per_screen as int),
        x < X_FULL_SCALE,
{
    let scaled: u128 = (i as u128) * (X_FULL_SCALE as u128);
    let q: u128 = scaled / (per_screen as u128);
    assert(q < X_FULL_SCALE) by (nonlinear_arith)
        requires
            q == (i * X_FULL_SCALE) / (per_screen as int),
            0 <= i < per_screen,
    ;
    q as u32
}

/// Height of `sample` at the given scale.
fn height_of(sample: i32, volts_per_division: u32) -> (y: i64)
    requires
        volts_per_division > 0,
    ensures
        y as int == sample_height(sample as int, volts_per_division as int),
{
    let magnitude: u64 = if sample >= 0 {
        sample as u64
    } else {
        (-(sample as i64)) as u64
    };
    assert(magnitude <= 0x8000_0000);
    assert(magnitude as int == if sample >= 0 {
        sample as int
    } else {
        -(sample as int)
    });
    assert(magnitude * Y_PER_DIVISION <= 0x8000_0000 * 1_000) by (nonlinear_arith)
        requires
            magnitude <= 0x8000_0000,
            Y_PER_DIVISION == 1_000,
    ;
    let scaled: u64 = magnitude * (Y_PER_DIVISION as u64);
    let q: u64 = scaled / (volts_per_division as u64);
    assert(q <= scaled) by (nonlinear_arith)
        requires
            q == scaled / (volts_per_division as u64),
            volts_per_division >= 1,
    ;
    if sample >= 0 {
        q as i64
    } else {
        -(q as i64)
    }
}

} // verus!
