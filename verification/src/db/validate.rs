//! The checks a track or release must pass before it is stored.

use vstd::prelude::*;
use crate::models::{ReleaseInput, ReleaseInputView, TrackInput, TrackInputView};
use crate::text::{char_count, is_blank, text_eq, trim};

verus! {

/// The statuses a track can have.
pub open spec fn valid_track_status(s: Seq<char>) -> bool {
    s == "Idea"@ || s == "Draft"@ || s == "In Progress"@ || s == "Final"@
}

/// The types a release can have.
pub open spec fn valid_release_type(s: Seq<char>) -> bool {
    s == "Album"@ || s == "EP"@ || s == "Single"@
}

/// The statuses a release can have.
pub open spec fn valid_release_status(s: Seq<char>) -> bool {
    s == "Planned"@ || s == "In Progress"@ || s == "Released"@
}

/// The first rule a track input breaks, as the message shown to the user.
pub open spec fn track_input_error(i: TrackInputView) -> Option<Seq<char>> {
    if is_blank(i.internal_code) {
        Some("Internal Code is required"@)
    } else if is_blank(i.title) {
        Some("Title is required"@)
    } else if !valid_track_status(i.status) {
        Some("Invalid Track status"@)
    } else if i.bpm matches Some(b) && b <= 0 {
        Some("BPM must be a positive integer"@)
    } else {
        None
    }
}

/// The first rule a release input breaks, as the message shown to the user.
pub open spec fn release_input_error(i: ReleaseInputView) -> Option<Seq<char>> {
    if is_blank(i.internal_code) {
        Some("Internal Code is required"@)
    } else if is_blank(i.title) {
        Some("Title is required"@)
    } else if !valid_release_type(i.release_type) {
        Some("Invalid Release type"@)
    } else if !valid_release_status(i.status) {
        Some("Invalid Release status"@)
    } else {
        None
    }
}

/// Whether the text is empty once trimmed.
pub fn blank(s: &str) -> (r: bool)
    ensures
        r == is_blank(s@),
{
    let t = trim(s);
    char_count(t.as_str()) == 0
}

/// Checks a track input; the error is the first rule it breaks.
pub fn validate_track_input(input: &TrackInput) -> (r: Result<(), String>)
    ensures
        match r {
            Ok(()) => track_input_error(input@) is None,
            Err(e) => track_input_error(input@) == Some(e@),
        },
{
    if blank(input.internal_code.as_str()) {
        return Err(String::from_str("Internal Code is required"));
    }
    if blank(input.title.as_str()) {
        return Err(String::from_str("Title is required"));
    }
    let s = input.status.as_str();
    if !(text_eq(s, "Idea") || text_eq(s, "Draft") || text_eq(s, "In Progress") || text_eq(
        s,
        "Final",
    )) {
        return Err(String::from_str("Invalid Track status"));
    }
    if let Some(bpm) = input.bpm {
        if bpm <= 0 {
            return Err(String::from_str("BPM must be a positive integer"));
        }
    }
    Ok(())
}

/// Checks a release input; the error is the first rule it breaks.
pub fn validate_release_input(input: &ReleaseInput) -> (r: Result<(), String>)
    ensures
        match r {
            Ok(()) => release_input_error(input@) is None,
            Err(e) => release_input_error(input@) == Some(e@),
        },
{
    if blank(input.internal_code.as_str()) {
        return Err(String::from_str("Internal Code is required"));
    }
    if blank(input.title.as_str()) {
        return Err(String::from_str("Title is required"));
    }
    let t = input.release_type.as_str();
    if !(text_eq(t, "Album") || text_eq(t, "EP") || text_eq(t, "Single")) {
        return Err(String::from_str("Invalid Release type"));
    }
    let s = input.status.as_str();
    if !(text_eq(s, "Planned") || text_eq(s, "In Progress") || text_eq(s, "Released")) {
        return Err(String::from_str("Invalid Release status"));
    }
    Ok(())
}

} // verus!
