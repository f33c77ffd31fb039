//! Core of a telemetry collection daemon: an IPFIX decoding engine with a
//! live template table, and the aggregation of the decoded statistics into
//! periodic reports.
//!
//! The pipeline has four actors. The frame source and the template source
//! feed the decoder; the decoder feeds the reporter. What each actor
//! decides is here, as functions from state and event to the next state
//! and what to do; the channels, the timers and the sockets are left to
//! the program around the library.
//!
//! - `message`: the messages between the actors.
//! - `bytes`, `wire`: the layout of an IPFIX message, and the decoding of
//!   data records with a template.
//! - `template`: the template table.
//! - `diagnostics`, `engine`, `laws`: the decoder's state and its step, what
//!   it drops, and what holds of it over runs of events.
//! - `fanout`: the recipients of a producer.
//! - `report`, `text`: the reporter's state and its step, and the text of a
//!   report.
//! - `coordinator`: how the process ends.
//! - `options`: what the process is started with.

pub mod bytes;
pub mod coordinator;
pub mod diagnostics;
pub mod engine;
pub mod fanout;
pub mod laws;
pub mod message;
pub mod options;
pub mod report;
pub mod template;
pub mod text;
pub mod wire;
