//! Whole numbers in writing.

use vstd::prelude::*;
use vstd::slice::slice_subrange;

verus! {

pub open spec fn is_digit(c: char) -> bool {
    '0' <= c && c <= '9'
}

/// The number that a run of decimal digits writes.
pub open spec fn digits_value(s: Seq<char>) -> nat
    decreases s.len(),
{
    if s.len() == 0 {
        0
    } else {
        10 * digits_value(s.drop_last()) + ((s.last() as int - '0' as int) as nat)
    }
}

/// One digit or more, and nothing else.
pub open spec fn all_digits(s: Seq<char>) -> bool {
    s.len() > 0 && forall|i: int| 0 <= i < s.len() ==> is_digit(#[trigger] s[i])
}

/// `s` without one plus sign in front.
pub open spec fn unsigned(s: Seq<char>) -> Seq<char> {
    if s.len() > 0 && s[0] == '+' {
        s.skip(1)
    } else {
        s
    }
}

/// The number up to `max` that `s` writes: decimal digits, perhaps behind a plus sign.
pub open spec fn number(s: Seq<char>, max: nat) -> Option<nat> {
    let d = unsigned(s);
    if all_digits(d) && digits_value(d) <= max {
        Some(digits_value(d))
    } else {
        None
    }
}

/// The decimal writing of a number, without leading zeros.
pub open spec fn decimal(n: nat) -> Seq<char>
    decreases n,
{
    if n < 10 {
        seq![('0' as u8 + n) as char]
    } else {
        decimal(n / 10).push(('0' as u8 + n % 10) as char)
    }
}

/// The decimal writing of a whole number, with a minus sign if it is below zero.
pub open spec fn signed_decimal(n: int) -> Seq<char> {
    if n < 0 {
        seq!['-'] + decimal((-n) as nat)
    } else {
        decimal(n as nat)
    }
}

/// The upper case hexadecimal digit of a number below sixteen.
pub open spec fn hex_digit(n: nat) -> char {
    if n < 10 {
        ('0' as u8 + n) as char
    } else {
        ('A' as u8 + (n - 10)) as char
    }
}

/// The last `width` upper case hexadecimal digits of a number.
pub open spec fn hex(n: nat, width: nat) -> Seq<char>
    decreases width,
{
    if width == 0 {
        seq![]
    } else {
        hex(n / 16, (width - 1) as nat).push(hex_digit(n % 16))
    }
}

/// A number below a hundred in two decimal digits.
pub open spec fn two_digits(n: nat) -> Seq<char> {
    seq![('0' as u8 + (n / 10) % 10) as char, ('0' as u8 + n % 10) as char]
}

pub proof fn lemma_decimal_digits(n: nat)
    ensures
        all_digits(decimal(n)),
        digits_value(decimal(n)) == n,
    decreases n,
{
    if n < 10 {
        let s = decimal(n);
        assert(s.drop_last() =~= Seq::<char>::empty());
        assert(digits_value(s.drop_last()) == 0);
    } else {
        lemma_decimal_digits(n / 10);
        let s = decimal(n);
        assert(s.drop_last() =~= decimal(n / 10));
    }
}

/// A number reads back as it was written.
pub proof fn law_number_of_decimal(n: nat, max: nat)
    requires
        n <= max,
    ensures
        number(decimal(n), max) == Some(n),
{
    lemma_decimal_digits(n);
    assert(is_digit(decimal(n)[0]));
}

/// The number up to `max` that a run of characters writes.
fn read(s: &[char], max: u64) -> (r: Option<u64>)
    ensures
        r is Some <==> number(s@, max as nat) is Some,
        r matches Some(n) ==> number(s@, max as nat) == Some(n as nat),
{
    let mut start: usize = 0;
    if s.len() > 0 && s[0] == '+' {
        start = 1;
    }
    let d = slice_subrange(s, start, s.len());
    assert(d@ =~= unsigned(s@));
    if d.len() == 0 {
        return None;
    }
    let mut total: u64 = 0;
    let mut over: bool = false;
    let mut i: usize = 0;
    while i < d.len()
        invariant
            i <= d@.len(),
            d@ == unsigned(s@),
            forall|j: int| 0 <= j < i ==> is_digit(#[trigger] d@[j]),
            over ==> digits_value(d@.take(i as int)) > max,
            !over ==> total == digits_value(d@.take(i as int)) && total <= max,
        decreases d@.len() - i,
    {
        let c = d[i];
        if c < '0' || c > '9' {
            assert(!is_digit(d@[i as int]));
            return None;
        }
        let digit: u64 = (c as u32 - '0' as u32) as u64;
        proof {
            assert(d@.take(i as int + 1).drop_last() =~= d@.take(i as int));
            assert(d@.take(i as int + 1).last() == c);
        }
        if !over {
            let wide: u128 = total as u128 * 10 + digit as u128;
            if wide > max as u128 {
                over = true;
            } else {
                total = wide as u64;
            }
        }
        i += 1;
    }
    assert(d@.take(i as int) =~= d@);
    if over {
        None
    } else {
        Some(total)
    }
}

/// The `u64` that a run of characters writes.
pub fn read_u64(s: &[char]) -> (r: Option<u64>)
    ensures
        r is Some <==> number(s@, u64::MAX as nat) is Some,
        r matches Some(n) ==> number(s@, u64::MAX as nat) == Some(n as nat),
{
    read(s, u64::MAX)
}

/// The `u32` that a run of characters writes.
pub fn read_u32(s: &[char]) -> (r: Option<u32>)
    ensures
        r is Some <==> number(s@, u32::MAX as nat) is Some,
        r matches Some(n) ==> number(s@, u32::MAX as nat) == Some(n as nat),
{
    match read(s, u32::MAX as u64) {
        Some(n) => Some(n as u32),
        None => None,
    }
}

/// Appends the decimal writing of a number.
pub fn add_decimal(out: &mut Vec<char>, n: u64)
    ensures
        final(out)@ == old(out)@ + decimal(n as nat),
{
    add_large(out, n as u128);
}

/// Appends the decimal writing of a large number.
pub fn add_large(out: &mut Vec<char>, n: u128)
    ensures
        final(out)@ == old(out)@ + decimal(n as nat),
    decreases n,
{
    if n < 10 {
        out.push((48u8 + n as u8) as char);
    } else {
        add_large(out, n / 10);
        out.push((48u8 + (n % 10) as u8) as char);
    }
    assert(out@ =~= old(out)@ + decimal(n as nat));
}

/// Appends the decimal writing of a whole number.
pub fn add_signed(out: &mut Vec<char>, n: isize)
    ensures
        final(out)@ == old(out)@ + signed_decimal(n as int),
{
    let ghost start = out@;
    if n >= 0 {
        add_decimal(out, n as u64);
    } else {
        out.push('-');
        let below: u64 = (-(n + 1)) as u64;
        add_decimal(out, below + 1);
    }
    assert(out@ =~= start + signed_decimal(n as int));
}

/// Appends the last `width` upper case hexadecimal digits of a number.
pub fn add_hex(out: &mut Vec<char>, n: u64, width: usize)
    ensures
        final(out)@ == old(out)@ + hex(n as nat, width as nat),
    decreases width,
{
    if width > 0 {
        add_hex(out, n / 16, width - 1);
        let d: u8 = (n % 16) as u8;
        if d < 10 {
            out.push((48u8 + d) as char);
        } else {
            out.push((65u8 + (d - 10)) as char);
        }
    }
    assert(out@ =~= old(out)@ + hex(n as nat, width as nat));
}

/// Appends a number below a hundred in two decimal digits.
pub fn add_two_digits(out: &mut Vec<char>, n: u32)
    ensures
        final(out)@ == old(out)@ + two_digits(n as nat),
{
    out.push((48u8 + ((n / 10) % 10) as u8) as char);
    out.push((48u8 + (n % 10) as u8) as char);
    assert(out@ =~= old(out)@ + two_digits(n as nat));
}

} // verus!
