//! Decisions of the program's screens that need no terminal: the cap on the
//! log that the program keeps, and the keys that edit a search filter.

use crate::text::push_char;
use std::collections::VecDeque;
use vstd::prelude::*;

verus! {

/// How many log messages the program keeps.
pub const LOG_CAP: usize = 1000;

/// The log after one more message: the message is added at the end, and
/// where the log then holds more than `LOG_CAP` messages, the oldest one is
/// dropped.
pub open spec fn with_log(logs: Seq<Vec<u8>>, msg: Vec<u8>) -> Seq<Vec<u8>> {
    if logs.len() >= LOG_CAP {
        logs.push(msg).skip(1)
    } else {
        logs.push(msg)
    }
}

/// Adds a message to the log and keeps the log within its cap.
pub fn push_log(logs: &mut VecDeque<Vec<u8>>, msg: Vec<u8>)
    ensures
        final(logs)@ == with_log(old(logs)@, msg),
        old(logs)@.len() <= LOG_CAP ==> final(logs)@.len() <= LOG_CAP,
{
    logs.push_back(msg);
    if logs.len() > LOG_CAP {
        let ghost full = logs@;
        let _ = logs.pop_front();
        assert(full.subrange(1, full.len() as int) == full.skip(1));
    }
}

/// A key, as the search filter sees it.
#[derive(Debug, Clone, Copy, PartialEq, Eq)]
pub enum FilterKey {
    Char(char),
    Backspace,
    Enter,
    Esc,
    Other,
}

/// What the screen does after a key that went to the search filter.
#[derive(Debug, Clone, Copy, PartialEq, Eq)]
pub enum KeyOutcome {
    /// The screen is drawn again.
    Render,
    /// The selection jumps to the next entry that matches the filter, and
    /// the screen is drawn again.
    JumpAndRender,
    /// Nothing changes.
    Skip,
}

/// The text of an optional string.
pub open spec fn filter_text(filter: Option<String>) -> Option<Seq<char>> {
    match filter {
        Some(s) => Some(s@),
        None => None,
    }
}

/// The filter, the typing mode and the outcome after a key that was typed
/// while the filter is edited. A character is added to the filter and
/// backspace takes its last character away, where there is a filter; enter
/// ends the typing and asks for a jump to the next match; escape ends the
/// typing and drops the filter; any other key does nothing.
pub open spec fn filter_key_spec(filter: Option<Seq<char>>, mode: bool, key: FilterKey) -> (
    Option<Seq<char>>,
    bool,
    KeyOutcome,
) {
    match key {
        FilterKey::Char(c) => (
            match filter {
                Some(f) => Some(f.push(c)),
                None => None,
            },
            mode,
            KeyOutcome::Render,
        ),
        FilterKey::Backspace => (
            match filter {
                Some(f) => Some(
                    if f.len() > 0 {
                        f.drop_last()
                    } else {
                        f
                    },
                ),
                None => None,
            },
            mode,
            KeyOutcome::Render,
        ),
        FilterKey::Enter => (filter, false, KeyOutcome::JumpAndRender),
        FilterKey::Esc => (None, false, KeyOutcome::Render),
        FilterKey::Other => (filter, mode, KeyOutcome::Skip),
    }
}

/// Takes the last character off a string. Trusted: `String::pop` removes
/// the last character and returns it, and returns `None` and changes nothing
/// where the string is empty.
#[verifier::external_body]
fn pop_char(s: &mut String) -> (r: Option<char>)
    ensures
        old(s)@.len() > 0 ==> r == Some(old(s)@.last()) && final(s)@ == old(s)@.drop_last(),
        old(s)@.len() == 0 ==> r is None && final(s)@ == old(s)@,
{
    s.pop()
}

/// Handles a key that was typed while the search filter is edited.
pub fn filter_key(filter: &mut Option<String>, mode: &mut bool, key: FilterKey) -> (r: KeyOutcome)
    ensures
        (filter_text(*final(filter)), *final(mode), r) == filter_key_spec(
            filter_text(*old(filter)),
            *old(mode),
            key,
        ),
{
    match key {
        FilterKey::Char(c) => {
            match filter {
                Some(f) => {
                    push_char(f, c);
                },
                None => {},
            }
            KeyOutcome::Render
        },
        FilterKey::Backspace => {
            match filter {
                Some(f) => {
                    let _ = pop_char(f);
                },
                None => {},
            }
            KeyOutcome::Render
        },
        FilterKey::Enter => {
            *mode = false;
            KeyOutcome::JumpAndRender
        },
        FilterKey::Esc => {
            *mode = false;
            *filter = None;
            KeyOutcome::Render
        },
        FilterKey::Other => KeyOutcome::Skip,
    }
}

} // verus!
