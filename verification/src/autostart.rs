//! Starting with the session: what the registry holds for it.

use vstd::prelude::*;
use crate::text;

verus! {

pub const RUN_KEY: &'static str = "Software\\Microsoft\\Windows\\CurrentVersion\\Run";

pub const VALUE: &'static str = "FeatherDock";

/// The value that starts a program with the session.
pub open spec fn run_line(exe: Seq<char>) -> Seq<char> {
    seq!['"'] + exe + seq!['"']
}

/// A value that starts this program.
pub open spec fn starts(stored: Seq<char>, exe: Seq<char>) -> bool {
    text::lower(text::stripped(text::trimmed(stored), '"')) == text::lower(exe)
}

/// The value that starts a program with the session.
pub fn run_value(exe: &str) -> (r: String)
    ensures
        r@ == run_line(exe@),
{
    let mut out: Vec<char> = Vec::new();
    out.push('"');
    text::add_text(&mut out, exe);
    out.push('"');
    assert(out@ =~= run_line(exe@));
    text::string_of(&out)
}

/// Whether a stored value starts this program; letter case and quotes do not matter.
pub fn is_enabled(stored: &Option<String>, exe: &str) -> (r: bool)
    ensures
        r == (match *stored {
            Some(s) => starts(s@, exe@),
            None => false,
        }),
{
    match stored {
        Some(s) => {
            let chars = text::chars_of(s.as_str());
            let bare = text::trim_of(text::trim(&chars), '"');
            let a = text::lower_chars(bare);
            let own = text::chars_of(exe);
            let b = text::lower_chars(&own);
            text::same_chars(&a, &b)
        },
        None => false,
    }
}

/// A program that was set to start with the session is found to be so. A path neither
/// begins nor ends with a quote.
pub proof fn law_set_is_enabled(exe: Seq<char>)
    requires
        exe.len() > 0,
        exe[0] != '"',
        exe.last() != '"',
    ensures
        starts(run_line(exe), exe),
{
    let s = run_line(exe);
    assert(s[0] == '"' && s.last() == '"');
    assert(text::trim_front(s) == s);
    assert(text::trim_back(s) == s);
    assert(text::trimmed(s) == s);
    reveal_with_fuel(text::strip_front, 2);
    reveal_with_fuel(text::strip_back, 2);
    assert(s.skip(1)[0] == exe[0]);
    assert(text::strip_front(s, '"') =~= s.skip(1));
    assert(s.skip(1).last() == '"');
    assert(s.skip(1).drop_last() =~= exe);
    assert(text::stripped(s, '"') =~= exe);
}

} // verus!
