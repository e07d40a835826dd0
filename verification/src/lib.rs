//! Beat-synced waveform capture, publication and display for the WAVE audio effect.

pub mod aliasing;
pub mod binary;
pub mod chart;
pub mod coherence;
pub mod continuity;
pub mod decimal;
pub mod display;
pub mod editor;
pub mod engine;
pub mod envelope;
pub mod float;
pub mod geometry;
pub mod guarantees;
pub mod nearest;
pub mod offset;
pub mod ordering;
pub mod pacing;
pub mod paint;
pub mod panels;
pub mod ports;
pub mod publication;
pub mod readers;
pub mod rounding;
pub mod sightings;
pub mod stereo;
pub mod timing;
pub mod view;
pub mod waveform;
pub mod waveform_paint;
pub mod window;
