//! The deterministic heart of a desktop audio capture pipeline.
//!
//! A capture device delivers interleaved frames at its own rate and channel
//! count. The [`normalizer::Normalizer`] turns them into the inner form
//! (48 kHz, stereo) and from there into one or two output formats, cut into
//! chunks of a fixed duration. The [`intake::Intake`] numbers the chunks, puts
//! them on a recording clock that starts at zero and marks discontinuities;
//! the [`stream::Stream`] holds what the owner, the intake and the
//! [`watchdog::Watchdog`] share.
//!
//! Samples are IEEE 754 single precision numbers and are carried as their bit
//! patterns (see [`sample`]). Everything that has to be computed in floating
//! point, and every act on the outside world (threads, clocks, devices), is
//! requested from the caller as a step and answered with its outcome, so each
//! transition here is a function of plain values.

pub mod arith;
pub mod chunk_ring;
pub mod delivery_laws;
pub mod flow_laws;
pub mod format_laws;
pub mod frames;
pub mod intake;
pub mod intake_laws;
pub mod normalizer;
pub mod normalizer_laws;
pub mod progress_laws;
pub mod resampler;
pub mod round_laws;
pub mod sample;
pub mod shape_laws;
pub mod shared;
pub mod split_laws;
pub mod stream;
pub mod tap;
pub mod types;
pub mod watchdog;
pub mod watchdog_laws;
