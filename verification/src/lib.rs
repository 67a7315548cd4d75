//! A debounced command dispatcher.
//!
//! Short textual commands arrive one at a time; a quiet-window debouncer
//! coalesces rapid bursts so that only the most recent command of a burst is
//! acted on. The surviving command is parsed into an intent (open an
//! application, run a web search, or invalid) and resolved through an ordered
//! chain of launch attempts with web fallbacks.
//!
//! Command text is handled as `Vec<char>`; callers that hold a `String`
//! convert at the boundary.

use vstd::prelude::*;

pub mod debounce;
pub mod parser;
pub mod resolver;
pub mod text;

verus! {

/// The quiet window `W`, in milliseconds: a submission is acted on only if no
/// newer submission has arrived within this long after it.
pub const QUIET_WINDOW_MS: u64 = 1500;

} // verus!
