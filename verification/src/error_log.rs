//! The log of errors.

use vstd::prelude::*;
use crate::numbers;
use crate::text;

verus! {

pub const MAX_LOG_BYTES: u64 = 262144;

/// A line of the log.
pub open spec fn line_of(seconds: nat, context: Seq<char>, error: Seq<char>) -> Seq<char> {
    seq!['['] + numbers::decimal(seconds) + "] "@ + context + ": "@ + error + seq!['\n']
}

/// A line of the log.
pub fn log_line(seconds: u64, context: &str, error: &str) -> (r: String)
    ensures
        r@ == line_of(seconds as nat, context@, error@),
{
    let mut out: Vec<char> = Vec::new();
    out.push('[');
    numbers::add_decimal(&mut out, seconds);
    text::add_text(&mut out, "] ");
    text::add_text(&mut out, context);
    text::add_text(&mut out, ": ");
    text::add_text(&mut out, error);
    out.push('\n');
    assert(out@ =~= line_of(seconds as nat, context@, error@));
    text::string_of(&out)
}

/// Whether a log of this size starts anew. A log that is not there does not.
pub fn starts_anew(size: Option<u64>) -> (r: bool)
    ensures
        r == (size matches Some(n) && n > MAX_LOG_BYTES),
{
    match size {
        Some(n) => n > MAX_LOG_BYTES,
        None => false,
    }
}

} // verus!
