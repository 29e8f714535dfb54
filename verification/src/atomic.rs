//! Names for writing files so that a reader never sees half of one: the bytes go to a
//! file beside the target, which then takes its place.

use vstd::prelude::*;
use crate::numbers;
use crate::text;

verus! {

/// The UTF-16 code units of a character.
pub open spec fn units_of(c: char) -> Seq<u16> {
    let n = c as int;
    if n < 0x10000 {
        seq![n as u16]
    } else {
        seq![(0xD800 + (n - 0x10000) / 0x400) as u16, (0xDC00 + (n - 0x10000) % 0x400) as u16]
    }
}

/// The UTF-16 code units of a text.
pub open spec fn units(s: Seq<char>) -> Seq<u16>
    decreases s.len(),
{
    if s.len() == 0 {
        seq![]
    } else {
        units(s.drop_last()) + units_of(s.last())
    }
}

/// The UTF-16 code units of a text, and a zero that ends it.
pub open spec fn wide_of(s: Seq<char>) -> Seq<u16> {
    units(s).push(0)
}

/// The character that code units begin with, and how many of them it takes.
pub open spec fn first_char(u: Seq<u16>) -> (char, int) {
    if 0xD800 <= u[0] < 0xDC00 && u.len() > 1 {
        ((0x10000 + (u[0] - 0xD800) * 0x400 + (u[1] - 0xDC00)) as char, 2)
    } else {
        (u[0] as char, 1)
    }
}

fn add_units(out: &mut Vec<u16>, c: char)
    ensures
        final(out)@ == old(out)@ + units_of(c),
{
    let ghost was = out@;
    let n: u32 = c as u32;
    if n < 0x10000 {
        out.push(n as u16);
    } else {
        let m: u32 = n - 0x10000;
        assert(m / 0x400 < 0x400);
        out.push((0xD800 + m / 0x400) as u16);
        out.push((0xDC00 + m % 0x400) as u16);
    }
    assert(out@ =~= was + units_of(c));
}

/// The UTF-16 code units of a text, and a zero that ends it.
pub fn wide(s: &str) -> (r: Vec<u16>)
    ensures
        r@ == wide_of(s@),
{
    let chars = text::chars_of(s);
    let mut out: Vec<u16> = Vec::new();
    let mut i: usize = 0;
    assert(s@.take(0) =~= seq![]);
    while i < chars.len()
        invariant
            chars@ == s@,
            i <= chars@.len(),
            out@ == units(s@.take(i as int)),
        decreases chars@.len() - i,
    {
        add_units(&mut out, chars[i]);
        proof {
            assert(s@.take(i as int + 1).drop_last() =~= s@.take(i as int));
        }
        i += 1;
    }
    assert(s@.take(i as int) =~= s@);
    out.push(0);
    out
}

/// A path as the system takes it.
pub fn wide_path(path: &str) -> (r: Vec<u16>)
    ensures
        r@ == wide_of(path@),
{
    wide(path)
}

/// The name of the file beside the target.
pub fn temp_name(process: u32, nanos: u128) -> (r: String)
    ensures
        r@ == ".featherdock-"@ + numbers::decimal(process as nat) + seq!['-'] + numbers::decimal(
            nanos as nat,
        ) + ".tmp"@,
{
    let mut out = text::chars_of(".featherdock-");
    numbers::add_decimal(&mut out, process as u64);
    out.push('-');
    numbers::add_large(&mut out, nanos);
    text::add_text(&mut out, ".tmp");
    assert(out@ =~= ".featherdock-"@ + numbers::decimal(process as nat) + seq!['-']
        + numbers::decimal(nanos as nat) + ".tmp"@);
    text::string_of(&out)
}

proof fn lemma_no_zero(c: char)
    requires
        c != '\0',
    ensures
        forall|k: int| 0 <= k < units_of(c).len() ==> #[trigger] units_of(c)[k] != 0,
{
    let m = c as int - 0x10000;
    if m >= 0 {
        assert(m / 0x400 < 0x400);
    }
}

/// A text without a zero character reaches the system whole: the zero that ends it is the
/// first.
pub proof fn law_zero_ends(s: Seq<char>)
    requires
        !s.contains('\0'),
    ensures
        forall|i: int| 0 <= i < wide_of(s).len() - 1 ==> #[trigger] wide_of(s)[i] != 0,
        wide_of(s).last() == 0,
    decreases s.len(),
{
    if s.len() > 0 {
        let front = s.drop_last();
        assert(!front.contains('\0')) by {
            if front.contains('\0') {
                let k = choose|k: int| 0 <= k < front.len() && front[k] == '\0';
                assert(s[k] == '\0');
            }
        }
        law_zero_ends(front);
        let c = s.last();
        assert(c != '\0') by {
            assert(s[s.len() - 1] == c);
        }
        lemma_no_zero(c);
        assert forall|i: int| 0 <= i < wide_of(s).len() - 1 implies #[trigger] wide_of(s)[i]
            != 0 by {
            if i < units(front).len() {
                assert(wide_of(front)[i] != 0);
            } else {
                assert(wide_of(s)[i] == units_of(c)[i - units(front).len()]);
            }
        }
    }
}

/// Different characters have different code units: what was written can be read again.
pub proof fn law_units_tell(c: char, rest: Seq<u16>)
    ensures
        first_char(units_of(c) + rest) == (c, units_of(c).len() as int),
{
    let n = c as int;
    if n >= 0x10000 {
        let m = n - 0x10000;
        assert(0 <= m < 0x100000);
        let hi = 0xD800 + m / 0x400;
        let lo = 0xDC00 + m % 0x400;
        assert(hi < 0xDC00);
        assert(lo < 0xE000);
        let u = units_of(c) + rest;
        assert(u[0] == hi as u16 && u[1] == lo as u16);
    } else {
        assert((units_of(c) + rest)[0] == n as u16);
    }
}

} // verus!
