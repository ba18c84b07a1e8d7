//! Core of a software oscilloscope in fixed-point arithmetic: trigger
//! detection, screen windowing, signal measurements, trace persistence and
//! the framing of spectrum transforms.

pub mod buffer;
pub mod capture;
pub mod measurement;
pub mod persistence;
pub mod scope;
pub mod spectrum;
pub mod trigger;
pub mod waveform;
