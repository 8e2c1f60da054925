//! Protocol decoder and session tracker for a microcontroller that reports its
//! progress as text lines: stage, running pulse total and active time.
//!
//! - `text`: line cleaning and keyword search over lines held as bytes.
//! - `number`: the integer and decimal literals that follow a keyword.
//! - `session`: the session model, the line decoder and the laws it keeps.
//! - `framing`: bytes from a stream gathered into lines.
//! - `log_record`, `event_log`: the daily log file's records and the
//!   in-memory event log.
//! - `config`, `connection`: settings and what a connection asks for.

mod clock;
pub mod config;
pub mod connection;
pub mod event_log;
pub mod framing;
pub mod log_record;
pub mod number;
pub mod session;
pub mod text;

pub use number::find_int_after;
pub use session::{ActiveSource, Change, CoreState};
