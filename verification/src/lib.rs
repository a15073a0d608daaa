//! The decisions of a live process-event capture: which events are recorded,
//! when a capture stops, what it reports, and how events are rendered as lines.
//!
//! - [`monitors`]: event sources and classes, and the names of sources.
//! - [`target`]: what a capture is aimed at, and the steps that start it.
//! - [`capture`]: limits, mode and outcome of a capture.
//! - [`relay`]: the state machine that takes events and counts them.
//! - [`trace`]: what holds of that machine over a whole capture.
//! - [`session`]: the life of a capture session.
//! - [`stream`]: one line of text for each event.
//! - [`text`]: what the others need of characters and strings.
pub mod capture;
pub mod monitors;
pub mod relay;
pub mod session;
pub mod stream;
pub mod target;
pub mod text;
pub mod trace;
