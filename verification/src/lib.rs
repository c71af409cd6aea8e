//! Process-scoped audio capture and live broadcast for shared listening
//! sessions.
//!
//! The audio of one process is captured, normalized into 32-bit float
//! samples, resampled to the canonical 48 kHz stereo layout, cut into 20 ms
//! frames and fanned out to any number of subscribers, while a coordinator
//! keeps track of who hosts the session and who listens.
//!
//! Samples travel through the pipeline as IEEE-754 binary32 bit patterns, so
//! every step here is integer arithmetic with an exact contract:
//!
//! - [`enumerate`] lists the windows that can be captured and finds the
//!   target process;
//! - [`capture`] holds the capability check and the handle that stops a
//!   session, [`engine`] the decisions of the capture thread;
//! - [`format`], [`sample`] and [`normalize`] turn packet bytes into samples;
//! - [`resample`] converts rate and channel count, [`framer`] cuts frames;
//! - [`fanout`] and [`jam_bot`] publish the frames to the subscribers;
//! - [`payload`] encodes packets for the desktop client;
//! - [`session`] and [`identity`] are the session's lifecycle.

pub mod fanout;
pub mod capture;
pub mod engine;
pub mod enumerate;
pub mod format;
pub mod framer;
pub mod identity;
pub mod jam_bot;
pub mod normalize;
pub mod payload;
pub mod resample;
pub mod sample;
pub mod session;
pub mod text;
