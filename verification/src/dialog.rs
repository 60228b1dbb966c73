//! Answers read back from the desktop's dialog boxes.

use vstd::prelude::*;
use crate::text::{chars_of, string_from_chars, trim, trim_chars};

verus! {

/// The answer of a dialog: its output without surrounding white space, when the dialog
/// was not cancelled and the answer is not blank.
pub open spec fn spec_dialog_choice(succeeded: bool, output: Seq<char>) -> Option<Seq<char>> {
    if !succeeded || trim(output).len() == 0 {
        None
    } else {
        Some(trim(output))
    }
}

/// The answer of a dialog, from its exit status and its output.
pub fn dialog_choice(succeeded: bool, output: &str) -> (r: Option<String>)
    ensures
        r.deep_view() == spec_dialog_choice(succeeded, output@),
{
    if !succeeded {
        return None;
    }
    let value = trim_chars(&chars_of(output));
    if value.len() == 0 {
        None
    } else {
        Some(string_from_chars(value.as_slice()))
    }
}

/// A search term typed into an entry box, unless it is blank. The term is kept as typed.
pub fn search_term(entry: Option<String>) -> (r: Option<String>)
    ensures
        r.deep_view() == match entry {
            Some(q) => if trim(q@).len() > 0 {
                Some(q@)
            } else {
                None
            },
            None => None,
        },
{
    match entry {
        Some(q) => {
            let t = trim_chars(&chars_of(q.as_str()));
            if t.len() > 0 {
                Some(q)
            } else {
                None
            }
        },
        None => None,
    }
}

} // verus!
