//! The prompt in which the user types the name of a category.

use vstd::prelude::*;
use crate::text;

verus! {

pub const IDOK: usize = 1;

pub const IDCANCEL: usize = 2;

pub const ID_EDIT: usize = 3;

/// What a button of the prompt does: the prompt ends with a name or without, or stays.
#[derive(Debug)]
pub enum PromptStep {
    Done(Option<String>),
    Stay,
}

/// What a button of the prompt does: confirming gives what was typed, without white space
/// at its ends.
pub fn on_command(id: usize, typed: &str) -> (r: PromptStep)
    ensures
        match r {
            PromptStep::Done(Some(name)) => id == IDOK && name@ == text::trimmed(typed@),
            PromptStep::Done(None) => id == IDCANCEL,
            PromptStep::Stay => id != IDOK && id != IDCANCEL,
        },
{
    if id == IDOK {
        let chars = text::chars_of(typed);
        PromptStep::Done(Some(text::string_of(text::trim(&chars))))
    } else if id == IDCANCEL {
        PromptStep::Done(None)
    } else {
        PromptStep::Stay
    }
}

} // verus!
