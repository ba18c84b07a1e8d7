//! The oscilloscope session: the state that one capture session owns, the
//! user's controls and what each of them does to the state, and the work
//! of one display tick.

use crate::buffer::{appended, keep_last, SampleBuffer};
use crate::measurement::{duty_cycle, frequency_millihertz, peak_to_peak, root_mean_square};
use crate::persistence::{
    clamp_frames, CanvasState, WaveformCanvas, DEFAULT_PERSISTENCE_FRAMES,
};
use crate::spectrum::{SpectrumCanvas, SpectrumState, DEFAULT_SAMPLE_RATE};
use crate::trigger::{clamp_level, opposite_edge, TriggerEdge, TriggerMode, TriggerSettings};
use crate::waveform::{
    at_least, display_points, doubled, halved, samples_per_screen, saturate_usize, DisplayPoint,
    WaveformData, WaveformState, DEFAULT_TIME_PER_DIVISION, DEFAULT_VOLTS_PER_DIVISION,
    MIN_TIME_PER_DIVISION, MIN_VOLTS_PER_DIVISION,
};
use vstd::prelude::*;

verus! {

/// Change of the trigger level by one step of the level controls: 0.1 V, in
/// microvolts.
pub const TRIGGER_LEVEL_STEP: i32 = 100_000;

/// Arrangement of the trace and the spectrum on the screen.
#[derive(Debug, Clone, Copy, PartialEq, Eq, Structural)]
pub enum LayoutMode {
    ScopeOnly,
    SpectrumOnly,
    SideBySide,
    Stacked,
}

/// A control of the oscilloscope, as the user operates it. Times are in
/// nanoseconds and voltages in microvolts.
#[derive(Debug, Clone, Copy, PartialEq, Eq, Structural)]
pub enum ControlMessage {
    IncreaseTimeScale,
    DecreaseTimeScale,
    SetTimeScale(u64),
    IncreaseVoltageScale,
    DecreaseVoltageScale,
    SetVoltageScale(u32),
    ToggleTrigger,
    ToggleTriggerEdge,
    IncreaseTriggerLevel,
    DecreaseTriggerLevel,
    SetTriggerLevel(i32),
    TogglePersistence,
    IncreasePersistence,
    DecreasePersistence,
    SetPersistenceFrames(u8),
    SetLayoutMode(LayoutMode),
}

/// A key that has a name rather than a character.
#[derive(Debug, Clone, Copy, PartialEq, Eq, Structural)]
pub enum NamedKey {
    ArrowUp,
    ArrowDown,
    ArrowLeft,
    ArrowRight,
    Other,
}

/// A key of the keyboard.
#[derive(Debug, Clone, Copy, PartialEq, Eq, Structural)]
pub enum Key {
    Character(char),
    Named(NamedKey),
    Unidentified,
}

/// The measurements on the current samples.
#[derive(Debug, Clone, Copy, PartialEq, Eq, Structural)]
pub struct Measurements {
    /// Frequency in millihertz.
    pub frequency: Option<u64>,
    /// Peak-to-peak amplitude in microvolts.
    pub peak_to_peak: Option<u32>,
    /// RMS amplitude in microvolts.
    pub rms: Option<u32>,
    /// Duty cycle in hundredths of a percent.
    pub duty_cycle: Option<u32>,
}

/// One capture session: the waveform on display, the trigger settings, the
/// history of traces, the spectrum, the capture buffer and the layout.
pub struct OzScope {
    pub waveform: WaveformData,
    pub trigger_settings: TriggerSettings,
    pub canvas: WaveformCanvas,
    pub spectrum_canvas: SpectrumCanvas,
    pub audio_buffer: SampleBuffer,
    pub layout_mode: LayoutMode,
}

/// What a session holds, as plain values.
pub struct ScopeState {
    pub waveform: WaveformState,
    pub trigger_settings: TriggerSettings,
    pub canvas: CanvasState,
    pub spectrum: SpectrumState,
    pub audio_buffer: Seq<i32>,
    pub layout_mode: LayoutMode,
}

impl View for OzScope {
    type V = ScopeState;

    open spec fn view(&self) -> ScopeState {
        ScopeState {
            waveform: self.waveform@,
            trigger_settings: self.trigger_settings,
            canvas: self.canvas@,
            spectrum: self.spectrum_canvas@,
            audio_buffer: self.audio_buffer@,
            layout_mode: self.layout_mode,
        }
    }
}

/// The control that a key stands for, if any.
pub open spec fn control_for_key(key: Key) -> Option<ControlMessage> {
    match key {
        Key::Character(c) => if c == '+' || c == '=' {
            Some(ControlMessage::IncreaseTimeScale)
        } else if c == '-' {
            Some(ControlMessage::DecreaseTimeScale)
        } else if c == 't' || c == 'T' {
            Some(ControlMessage::ToggleTrigger)
        } else if c == 'e' || c == 'E' {
            Some(ControlMessage::ToggleTriggerEdge)
        } else if c == 'p' || c == 'P' {
            Some(ControlMessage::TogglePersistence)
        } else {
            None
        },
        Key::Named(NamedKey::ArrowUp) => Some(ControlMessage::IncreaseVoltageScale),
        Key::Named(NamedKey::ArrowDown) => Some(ControlMessage::DecreaseVoltageScale),
        Key::Named(NamedKey::ArrowRight) => Some(ControlMessage::IncreaseTriggerLevel),
        Key::Named(NamedKey::ArrowLeft) => Some(ControlMessage::DecreaseTriggerLevel),
        Key::Named(NamedKey::Other) => None,
        Key::Unidentified => None,
    }
}

/// The waveform with another time per division.
pub open spec fn with_time_per_division(w: WaveformState, nanos: int) -> WaveformState {
    WaveformState { time_per_division: nanos as u64, ..w }
}

/// The waveform with another volts per division.
pub open spec fn with_volts_per_division(w: WaveformState, microvolts: int) -> WaveformState {
    WaveformState { volts_per_division: microvolts as u32, ..w }
}

/// The trigger settings with another level.
pub open spec fn with_level(t: TriggerSettings, level: int) -> TriggerSettings {
    TriggerSettings { level: level as i32, ..t }
}

/// The canvas with persistence switched: off clears the history.
pub open spec fn with_persistence_toggled(c: CanvasState) -> CanvasState {
    CanvasState {
        history: if c.persistence_enabled {
            Seq::empty()
        } else {
            c.history
        },
        persistence_enabled: !c.persistence_enabled,
        ..c
    }
}

/// The canvas with another depth: the oldest traces beyond it are dropped.
pub open spec fn with_persistence_frames(c: CanvasState, frames: int) -> CanvasState {
    CanvasState {
        history: keep_last(c.history, clamp_frames(frames)),
        persistence_frames: clamp_frames(frames) as usize,
        ..c
    }
}

/// The state after the user operated a control.
pub open spec fn control_effect(s: ScopeState, control: ControlMessage) -> ScopeState {
    match control {
        ControlMessage::IncreaseTimeScale => ScopeState {
            waveform: with_time_per_division(
                s.waveform,
                doubled(s.waveform.time_per_division as int, u64::MAX as int),
            ),
            ..s
        },
        ControlMessage::DecreaseTimeScale => ScopeState {
            waveform: with_time_per_division(
                s.waveform,
                halved(s.waveform.time_per_division as int, MIN_TIME_PER_DIVISION as int),
            ),
            ..s
        },
        ControlMessage::SetTimeScale(nanos) => ScopeState {
            waveform: with_time_per_division(
                s.waveform,
                at_least(nanos as int, MIN_TIME_PER_DIVISION as int),
            ),
            ..s
        },
        ControlMessage::IncreaseVoltageScale => ScopeState {
            waveform: with_volts_per_division(
                s.waveform,
                doubled(s.waveform.volts_per_division as int, u32::MAX as int),
            ),
            ..s
        },
        ControlMessage::DecreaseVoltageScale => ScopeState {
            waveform: with_volts_per_division(
                s.waveform,
                halved(s.waveform.volts_per_division as int, MIN_VOLTS_PER_DIVISION as int),
            ),
            ..s
        },
        ControlMessage::SetVoltageScale(microvolts) => ScopeState {
            waveform: with_volts_per_division(
                s.waveform,
                at_least(microvolts as int, MIN_VOLTS_PER_DIVISION as int),
            ),
            ..s
        },
        ControlMessage::ToggleTrigger => ScopeState {
            trigger_settings: TriggerSettings {
                enabled: !s.trigger_settings.enabled,
                ..s.trigger_settings
            },
            ..s
        },
        ControlMessage::ToggleTriggerEdge => ScopeState {
            trigger_settings: TriggerSettings {
                edge: opposite_edge(s.trigger_settings.edge),
                ..s.trigger_settings
            },
            ..s
        },
        ControlMessage::IncreaseTriggerLevel => ScopeState {
            trigger_settings: with_level(
                s.trigger_settings,
                clamp_level(s.trigger_settings.level + TRIGGER_LEVEL_STEP),
            ),
            ..s
        },
        ControlMessage::DecreaseTriggerLevel => ScopeState {
            trigger_settings: with_level(
                s.trigger_settings,
                clamp_level(s.trigger_settings.level - TRIGGER_LEVEL_STEP),
            ),
            ..s
        },
        ControlMessage::SetTriggerLevel(level) => ScopeState {
            trigger_settings: with_level(s.trigger_settings, clamp_level(level as int)),
            ..s
        },
        ControlMessage::TogglePersistence => ScopeState {
            canvas: with_persistence_toggled(s.canvas),
            ..s
        },
        ControlMessage::IncreasePersistence => ScopeState {
            canvas: with_persistence_frames(s.canvas, s.canvas.persistence_frames + 1),
            ..s
        },
        ControlMessage::DecreasePersistence => ScopeState {
            canvas: with_persistence_frames(s.canvas, s.canvas.persistence_frames - 1),
            ..s
        },
        ControlMessage::SetPersistenceFrames(frames) => ScopeState {
            canvas: with_persistence_frames(s.canvas, frames as int),
            ..s
        },
        ControlMessage::SetLayoutMode(mode) => ScopeState { layout_mode: mode, ..s },
    }
}

/// The state after `new_samples` arrived: they go through the capture
/// buffer into the waveform. No new samples change nothing.
pub open spec fn audio_effect(s: ScopeState, new_samples: Seq<i32>) -> ScopeState {
    if new_samples.len() == 0 {
        s
    } else {
        let buffer = appended(
            s.audio_buffer,
            new_samples,
            saturate_usize(
                samples_per_screen(
                    s.waveform.time_per_division as int,
                    s.waveform.sample_rate as int,
                ),
            ),
        );
        ScopeState {
            audio_buffer: buffer,
            waveform: WaveformState { samples: buffer, ..s.waveform },
            ..s
        }
    }
}

/// The trace of the current waveform under the current trigger settings.
pub open spec fn current_trace(s: ScopeState) -> Seq<DisplayPoint> {
    display_points(
        s.waveform,
        s.trigger_settings.enabled,
        s.trigger_settings.edge,
        s.trigger_settings.level as int,
    )
}

/// The state after one display tick: the new samples are taken in, and the
/// trace that results joins the history.
pub open spec fn tick_effect(s: ScopeState, new_samples: Seq<i32>) -> ScopeState {
    let taken = audio_effect(s, new_samples);
    let trace = current_trace(taken);
    ScopeState {
        canvas: CanvasState {
            history: if taken.canvas.persistence_enabled && trace.len() > 0 {
                keep_last(taken.canvas.history.push(trace), taken.canvas.persistence_frames as int)
            } else {
                taken.canvas.history
            },
            ..taken.canvas
        },
        ..taken
    }
}

/// The measurements on the samples of a waveform.
pub open spec fn measurements_of(w: WaveformState) -> Measurements {
    Measurements {
        frequency: frequency_millihertz(w.samples, w.sample_rate as int),
        peak_to_peak: peak_to_peak(w.samples),
        rms: root_mean_square(w.samples),
        duty_cycle: duty_cycle(w.samples),
    }
}

/// The control that a key stands for, if any.
pub fn key_to_control(key: &Key) -> (control: Option<ControlMessage>)
    ensures
        control == control_for_key(*key),
{
    match key {
        Key::Character(c) => {
            let c = *c;
            if c == '+' || c == '=' {
                Some(ControlMessage::IncreaseTimeScale)
            } else if c == '-' {
                Some(ControlMessage::DecreaseTimeScale)
            } else if c == 't' || c == 'T' {
                Some(ControlMessage::ToggleTrigger)
            } else if c == 'e' || c == 'E' {
                Some(ControlMessage::ToggleTriggerEdge)
            } else if c == 'p' || c == 'P' {
                Some(ControlMessage::TogglePersistence)
            } else {
                None
            }
        },
        Key::Named(NamedKey::ArrowUp) => Some(ControlMessage::IncreaseVoltageScale),
        Key::Named(NamedKey::ArrowDown) => Some(ControlMessage::DecreaseVoltageScale),
        Key::Named(NamedKey::ArrowRight) => Some(ControlMessage::IncreaseTriggerLevel),
        Key::Named(NamedKey::ArrowLeft) => Some(ControlMessage::DecreaseTriggerLevel),
        Key::Named(NamedKey::Other) => None,
        Key::Unidentified => None,
    }
}

impl OzScope {
    /// A session without samples, at the default settings.
    pub fn new(sample_rate: u32) -> (scope: Self)
        ensures
            scope@.waveform.samples.len() == 0,
            scope@.waveform.sample_rate == sample_rate,
            scope@.waveform.time_per_division == DEFAULT_TIME_PER_DIVISION,
            scope@.waveform.volts_per_division == DEFAULT_VOLTS_PER_DIVISION,
            scope@.trigger_settings.enabled,
            scope@.trigger_settings.mode == TriggerMode::Auto,
            scope@.trigger_settings.edge == TriggerEdge::Rising,
            scope@.trigger_settings.level == 0,
            scope@.canvas.history.len() == 0,
            scope@.canvas.persistence_enabled,
            scope@.canvas.persistence_frames == DEFAULT_PERSISTENCE_FRAMES,
            scope@.spectrum.spectrum.len() == 0,
            scope@.spectrum.sample_rate == DEFAULT_SAMPLE_RATE,
            scope@.audio_buffer.len() == 0,
            scope@.layout_mode == LayoutMode::SideBySide,
    {
        OzScope {
            waveform: WaveformData::new(sample_rate),
            trigger_settings: TriggerSettings::default(),
            canvas: WaveformCanvas::new(),
            spectrum_canvas: SpectrumCanvas::new(),
            audio_buffer: SampleBuffer::new(),
            layout_mode: LayoutMode::SideBySide,
        }
    }

    /// Applies a control to the session.
    pub fn handle_control(&mut self, control: ControlMessage)
        ensures
            final(self)@ == control_effect(old(self)@, control),
    {
        match control {
            ControlMessage::IncreaseTimeScale => {
                self.waveform.increase_time_scale();
            },
            ControlMessage::DecreaseTimeScale => {
                self.waveform.decrease_time_scale();
            },
            ControlMessage::SetTimeScale(nanos) => {
                self.waveform.set_time_per_division(nanos);
            },
            ControlMessage::IncreaseVoltageScale => {
                self.waveform.increase_voltage_scale();
            },
            ControlMessage::DecreaseVoltageScale => {
                self.waveform.decrease_voltage_scale();
            },
            ControlMessage::SetVoltageScale(microvolts) => {
                self.waveform.set_volts_per_division(microvolts);
            },
            ControlMessage::ToggleTrigger => {
                self.trigger_settings.toggle_enabled();
            },
            ControlMessage::ToggleTriggerEdge => {
                self.trigger_settings.toggle_edge();
            },
            ControlMessage::IncreaseTriggerLevel => {
                let level = self.trigger_settings.level;
                let raised = if level > i32::MAX - TRIGGER_LEVEL_STEP {
                    i32::MAX
                } else {
                    level + TRIGGER_LEVEL_STEP
                };
                self.trigger_settings.set_level(raised);
            },
            ControlMessage::DecreaseTriggerLevel => {
                let level = self.trigger_settings.level;
                let lowered = if level < i32::MIN + TRIGGER_LEVEL_STEP {
                    i32::MIN
                } else {
                    level - TRIGGER_LEVEL_STEP
                };
                self.trigger_settings.set_level(lowered);
            },
            ControlMessage::SetTriggerLevel(level) => {
                self.trigger_settings.set_level(level);
            },
            ControlMessage::TogglePersistence => {
                self.canvas.toggle_persistence();
            },
            ControlMessage::IncreasePersistence => {
                let current = self.canvas.get_persistence_frames();
                self.canvas.set_persistence_frames(current + 1);
            },
            ControlMessage::DecreasePersistence => {
                let current = self.canvas.get_persistence_frames();
                self.canvas.set_persistence_frames(current - 1);
            },
            ControlMessage::SetPersistenceFrames(frames) => {
                self.canvas.set_persistence_frames(frames as usize);
            },
            ControlMessage::SetLayoutMode(mode) => {
                self.layout_mode = mode;
            },
        }
    }

    /// Takes in the samples that arrived since the last tick: appends them
    /// to the capture buffer, trims it to one screen and the margin, and
    /// makes its content the waveform.
    pub fn update_audio(&mut self, new_samples: &[i32])
        ensures
            final(self)@ == audio_effect(old(self)@, new_samples@),
    {
        if new_samples.len() > 0 {
            let samples_needed = self.waveform.calculate_samples_per_screen();
            self.audio_buffer.append(new_samples, samples_needed);
            let current = self.audio_buffer.samples().clone();
            assert(current@ =~= self.audio_buffer@);
            self.waveform.update_samples(current);
        }
    }

    /// The work of one display tick: takes in the new samples and adds the
    /// trace that results to the history.
    pub fn update(&mut self, new_samples: &[i32])
        ensures
            final(self)@ == tick_effect(old(self)@, new_samples@),
    {
        self.update_audio(new_samples);
        let points = self.waveform.get_display_samples(&self.trigger_settings);
        self.canvas.add_to_history(points);
    }

    /// The trace of the current waveform.
    pub fn trace(&self) -> (points: Vec<DisplayPoint>)
        ensures
            points@ == current_trace(self@),
    {
        self.waveform.get_display_samples(&self.trigger_settings)
    }

    /// The measurements on the current waveform.
    pub fn measurements(&self) -> (m: Measurements)
        ensures
            m == measurements_of(self@.waveform),
    {
        Measurements {
            frequency: self.waveform.calculate_frequency(),
            peak_to_peak: self.waveform.calculate_peak_to_peak(),
            rms: self.waveform.calculate_rms(),
            duty_cycle: self.waveform.calculate_duty_cycle(),
        }
    }
}

} // verus!
