//! Reporting and republishing of bioacoustic bird-detection events.
//!
//! The verified core covers three subsystems: reconciling civil (naive)
//! date-times with a fixed named time zone, including daylight-saving
//! ambiguity and gap handling; an incremental log-tailing pipeline with a
//! resumable byte cursor; and an order-preserving availability checker for
//! derived media URLs. Everything that performs I/O — the HTTP server, the
//! SQL store, the filesystem watcher, the time-series client — lives outside
//! this crate and hands plain values in and out.

pub mod flickr;
pub mod parse;
pub mod publish;
pub mod serving;
pub mod tailer;
pub mod text;
pub mod time;
