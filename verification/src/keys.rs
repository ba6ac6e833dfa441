//! Decisions taken on key presses: moving the highlighted result, reading a
//! digit key, and what `Alt` does when the selection is not a readable
//! desktop file.

use vstd::prelude::*;
use crate::info::{parse_capacity, parsed_u64};
use crate::listing::Mode;
use crate::text::{chars_eq, chars_of, string_of, trim, trim_chars};

verus! {

/// The highlighted index after `Down` among `count` results.
pub open spec fn next_index(index: int, count: int) -> int {
    if index + 1 < count {
        index + 1
    } else {
        index
    }
}

/// The highlighted index after `Up`.
pub open spec fn previous_index(index: int) -> int {
    if index > 0 {
        index - 1
    } else {
        index
    }
}

/// Moves the highlight down, unless it is on the last result.
pub fn select_next(index: usize, count: usize) -> (r: usize)
    ensures
        r == next_index(index as int, count as int),
        index < count ==> r < count,
{
    if count > 0 && index < count - 1 {
        index + 1
    } else {
        index
    }
}

/// Moves the highlight up, unless it is on the first result.
pub fn select_previous(index: usize) -> (r: usize)
    ensures
        r == previous_index(index as int),
        r <= index,
{
    if index > 0 {
        index - 1
    } else {
        index
    }
}

/// `Down` then `Up` comes back to the same result whenever `Down` moved.
pub proof fn law_down_then_up(index: int, count: int)
    requires
        0 <= index,
        index + 1 < count,
    ensures
        previous_index(next_index(index, count)) == index,
{
}

/// `Up` then `Down` comes back to the same result whenever `Up` moved.
pub proof fn law_up_then_down(index: int, count: int)
    requires
        0 < index < count,
    ensures
        next_index(previous_index(index), count) == index,
{
}

/// The number named by a key: its name, trimmed, read as a `usize`.
pub fn key_number(name: &str) -> (r: Option<usize>)
    ensures
        r == match parsed_u64(trim(name@)) {
            Some(v) => if v <= usize::MAX {
                Some(v as usize)
            } else {
                None::<usize>
            },
            None => None::<usize>,
        },
{
    let t = trim_chars(&chars_of(name));
    let s = string_of(&t);
    match parse_capacity(s.as_str()) {
        Some(v) => if v <= usize::MAX as u64 {
            Some(v as usize)
        } else {
            None
        },
        None => None,
    }
}

/// What `Alt` does when the selection is not a readable desktop file.
#[derive(Clone, Copy, PartialEq, Eq, Structural, Debug)]
pub enum AltFallback {
    /// The entry reads `!!`: the starfield runs in the terminal.
    Starfield,
    /// The chat opens.
    OpenChat,
    /// The marker notes open.
    OpenMarker,
    /// The desktop file could not be read.
    Unreadable,
}

/// What `Alt` does when the selected path is not a readable desktop file: in
/// chat mode with the chat hidden, `!!` runs the starfield and anything else
/// opens the chat; in notes mode the marker opens; else it is reported.
pub fn alt_fallback(mode: Mode, chat_visible: bool, entry_text: &str) -> (r: AltFallback)
    ensures
        r == if mode == Mode::Ai && !chat_visible {
            if entry_text@ == "!!"@ {
                AltFallback::Starfield
            } else {
                AltFallback::OpenChat
            }
        } else if mode == Mode::Notes {
            AltFallback::OpenMarker
        } else {
            AltFallback::Unreadable
        },
{
    if mode == Mode::Ai && !chat_visible {
        if chars_eq(&chars_of(entry_text), &chars_of("!!")) {
            AltFallback::Starfield
        } else {
            AltFallback::OpenChat
        }
    } else if mode == Mode::Notes {
        AltFallback::OpenMarker
    } else {
        AltFallback::Unreadable
    }
}

} // verus!
