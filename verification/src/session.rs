//! The record of one free-typing session: what was typed, which words
//! were discovered, and when. Writing the record to disk is the
//! surrounding application's concern.

use vstd::prelude::*;

verus! {

/// One finished typing session, ready to be persisted.
#[derive(Debug, Clone)]
pub struct Session {
    pub timestamp: String,
    pub typed_text: String,
    pub discovered_words: Vec<String>,
    pub duration_seconds: Option<u64>,
}

impl Session {
    /// Builds the record of a session from the typed text and the
    /// discovered words, stamped with the present local time.
    pub fn new(typed_text: String, discovered_words: Vec<String>) -> (r: Session)
        ensures
            r.typed_text == typed_text,
            r.discovered_words == discovered_words,
            r.duration_seconds is None,
    {
        Session {
            timestamp: current_timestamp(),
            typed_text,
            discovered_words,
            duration_seconds: None,
        }
    }
}

/// Relies on `chrono::Local::now` and `chrono::DateTime::format`: the
/// moment of the call as a local date and time, written out as text.
/// Nothing is promised of the result, which depends on the clock.
#[verifier::external_body]
fn current_timestamp() -> String {
    chrono::Local::now().format("%Y-%m-%d %H:%M:%S").to_string()
}

} // verus!
