//! A square-wave synthesiser driven by a tick-ordered score.
//!
//! The score is a sequence of [`event::Event`] values; [`engine::Context`]
//! walks it in step with the sample clock, keeps the channel settings and
//! the sounding voices, and reports for every sample what each voice
//! contributes. [`score`] turns the messages of a multi-track score into
//! that sequence.

pub mod event;
pub mod engine;
pub mod score;
