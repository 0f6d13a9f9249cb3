//! A step sequencer driven from a button grid.
//!
//! The control side ([`MDS`]) edits per-track patterns from key gestures and
//! draws them; the audio side ([`MDSRenderer`]) holds its own copy of the
//! patterns, kept up to date by the edits that the control side sends, and
//! turns them into triggers, buffer after buffer.

pub mod channel;
pub mod grid;
pub mod message;
pub mod port;
pub mod renderer;
pub mod sequencer;
pub mod stepbuf;
pub mod track;

pub use crate::renderer::MDSRenderer;
pub use crate::sequencer::MDS;
