//! Host discovery over an IPv4 range.
//!
//! A scan takes a range of addresses, runs a pipeline of probes against
//! each one, and reports one result per target, the progress made, and one
//! terminal event. This library holds the rules of that: what is decided,
//! stated against mathematical models and proved.
//!
//! - [`addr`]: addresses, their 32-bit value and their dotted-decimal text.
//! - [`text`]: digits, numerals, whitespace and fields.
//! - [`types`]: errors, results, the messages of the command and event
//!   channels, and the table of well-known ports.
//! - [`net`]: the probe capability, the decoding of the platform's answers,
//!   and a provider with fixed answers.
//! - [`scanner`]: the pipeline of one target, the admission gate and
//!   progress counter of a scan, and a driver that scans a range one target
//!   at a time.
//! - [`bridge`]: the grammar of range text and the decisions of the
//!   orchestrator between a frontend and the engine.
//! - [`tui`] and [`ui`]: the state of the terminal and window frontends.
//!
//! Network calls, channels, tasks and drawing are left to the program around
//! the library, which asks the library what to do next.

pub mod addr;
pub mod bridge;
pub mod net;
pub mod scanner;
pub mod text;
pub mod tui;
pub mod types;
pub mod ui;
