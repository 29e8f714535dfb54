//! The words of a text.

use vstd::prelude::*;
use vstd::slice::slice_subrange;
use crate::text;

verus! {

/// Where the first character that separates words stands, or the length.
pub open spec fn first_where(s: Seq<char>, p: spec_fn(char) -> bool) -> int
    decreases s.len(),
{
    if s.len() == 0 || p(s[0]) {
        0
    } else {
        1 + first_where(s.skip(1), p)
    }
}

/// The pieces between characters that separate words; some may be empty.
pub open spec fn parts(s: Seq<char>, p: spec_fn(char) -> bool) -> Seq<Seq<char>>
    decreases s.len(),
{
    let at = first_where(s, p);
    if at < 0 || at >= s.len() {
        seq![s]
    } else {
        seq![s.take(at)] + parts(s.skip(at + 1), p)
    }
}

pub open spec fn white() -> spec_fn(char) -> bool {
    |c: char| text::is_white(c)
}

/// White space, hyphens and underscores.
pub open spec fn joins(c: char) -> bool {
    text::is_white(c) || c == '-' || c == '_'
}

pub open spec fn joiner() -> spec_fn(char) -> bool {
    |c: char| joins(c)
}

/// What separates the parts of a device's name.
pub open spec fn marks(c: char) -> bool {
    c == '#' || c == '{' || c == '}'
}

pub open spec fn marker() -> spec_fn(char) -> bool {
    |c: char| marks(c)
}

proof fn lemma_first_where(s: Seq<char>, p: spec_fn(char) -> bool, at: int)
    requires
        0 <= at <= s.len(),
        forall|i: int| 0 <= i < at ==> !p(#[trigger] s[i]),
        at < s.len() ==> p(s[at]),
    ensures
        first_where(s, p) == at,
    decreases s.len(),
{
    if at > 0 {
        let t = s.skip(1);
        assert forall|i: int| 0 <= i < at - 1 implies !p(#[trigger] t[i]) by {
            assert(t[i] == s[i + 1]);
        }
        assert(!p(s[0]));
        lemma_first_where(t, p, at - 1);
    }
}

/// Whether a character separates the words of a label.
pub fn is_joiner(c: char) -> (r: bool)
    ensures
        r == joins(c),
{
    text::is_whitespace(c) || c == '-' || c == '_'
}

fn is_marker(c: char) -> (r: bool)
    ensures
        r == marks(c),
{
    c == '#' || c == '{' || c == '}'
}

fn split_where<F: Fn(char) -> bool>(
    s: &[char],
    sep: F,
    Ghost(p): Ghost<spec_fn(char) -> bool>,
) -> (r: Vec<Vec<char>>)
    requires
        forall|c: char| call_requires(sep, (c,)),
        forall|c: char, o: bool| call_ensures(sep, (c,), o) ==> o == p(c),
    ensures
        text::rows(r@) == parts(s@, p),
{
    let mut out: Vec<Vec<char>> = Vec::new();
    let mut rest = s;
    assert(text::rows(out@) + parts(rest@, p) =~= parts(s@, p));
    loop
        invariant
            forall|c: char| call_requires(sep, (c,)),
            forall|c: char, o: bool| call_ensures(sep, (c,), o) ==> o == p(c),
            text::rows(out@) + parts(rest@, p) == parts(s@, p),
        decreases rest@.len(),
    {
        let mut at: usize = 0;
        while at < rest.len() && !sep(rest[at])
            invariant
                forall|c: char| call_requires(sep, (c,)),
                forall|c: char, o: bool| call_ensures(sep, (c,), o) ==> o == p(c),
                at <= rest@.len(),
                forall|i: int| 0 <= i < at ==> !p(#[trigger] rest@[i]),
            decreases rest@.len() - at,
        {
            at += 1;
        }
        proof {
            lemma_first_where(rest@, p, at as int);
        }
        if at >= rest.len() {
            let ghost was = out@;
            out.push(text::own(rest));
            assert(text::rows(out@) =~= text::rows(was) + seq![rest@]);
            return out;
        }
        let head = slice_subrange(rest, 0, at);
        let tail = slice_subrange(rest, at + 1, rest.len());
        let ghost was = out@;
        out.push(text::own(head));
        proof {
            assert(head@ =~= rest@.take(at as int));
            assert(tail@ =~= rest@.skip(at as int + 1));
            assert(text::rows(out@) =~= text::rows(was) + seq![head@]);
            assert(text::rows(was) + (seq![head@] + parts(tail@, p)) =~= (text::rows(was)
                + seq![head@]) + parts(tail@, p));
        }
        rest = tail;
    }
}

/// The pieces between white space; some may be empty.
pub fn split_white(s: &[char]) -> (r: Vec<Vec<char>>)
    ensures
        text::rows(r@) == parts(s@, white()),
{
    split_where(s, text::is_whitespace, Ghost(white()))
}

/// The pieces between what separates the words of a label; some may be empty.
pub fn split_label(s: &[char]) -> (r: Vec<Vec<char>>)
    ensures
        text::rows(r@) == parts(s@, joiner()),
{
    split_where(s, is_joiner, Ghost(joiner()))
}

/// The parts of a device's name; some may be empty.
pub fn split_marks(s: &[char]) -> (r: Vec<Vec<char>>)
    ensures
        text::rows(r@) == parts(s@, marker()),
{
    split_where(s, is_marker, Ghost(marker()))
}

/// From `a` to `b` a text has no separator, and there is one, or an end of the text, on
/// either side.
pub open spec fn is_run(s: Seq<char>, p: spec_fn(char) -> bool, a: int, b: int) -> bool {
    &&& 0 <= a <= b <= s.len()
    &&& forall|i: int| a <= i < b ==> !p(#[trigger] s[i])
    &&& a == 0 || p(s[a - 1])
    &&& b == s.len() || p(s[b])
}

/// `x` is what stands between two neighbouring separators of a text.
pub open spec fn is_piece(s: Seq<char>, p: spec_fn(char) -> bool, x: Seq<char>) -> bool {
    exists|a: int, b: int| #[trigger] is_run(s, p, a, b) && x == s.subrange(a, b)
}

/// What a text falls into is what stands between its separators: all of it, and nothing
/// else.
pub proof fn law_parts(s: Seq<char>, p: spec_fn(char) -> bool, x: Seq<char>)
    ensures
        parts(s, p).contains(x) <==> is_piece(s, p, x),
    decreases s.len(),
{
    let at = first_where(s, p);
    lemma_first_where_is(s, p);
    let ps = parts(s, p);
    if at >= s.len() {
        if is_piece(s, p, x) {
            let (a, b) = choose|a: int, b: int| #[trigger]
                is_run(s, p, a, b) && x == s.subrange(a, b);
            assert(s.subrange(0, s.len() as int) =~= s);
            assert(a == 0 && b == s.len());
            assert(ps[0] == x);
        }
        if ps.contains(x) {
            assert(is_run(s, p, 0, s.len() as int));
            assert(s.subrange(0, s.len() as int) =~= s);
        }
    } else {
        let t = s.skip(at + 1);
        let q = parts(t, p);
        law_parts(t, p, x);
        assert(ps =~= seq![s.take(at)] + q);
        assert(s.take(at) =~= s.subrange(0, at));
        if ps.contains(x) {
            let k = choose|k: int| 0 <= k < ps.len() && ps[k] == x;
            if k == 0 {
                assert(is_run(s, p, 0, at));
            } else {
                assert(q[k - 1] == x);
                assert(q.contains(x));
                let (a, b) = choose|a: int, b: int| #[trigger]
                    is_run(t, p, a, b) && x == t.subrange(a, b);
                let c = a + at + 1;
                let d = b + at + 1;
                assert forall|i: int| c <= i < d implies !p(#[trigger] s[i]) by {
                    assert(t[i - at - 1] == s[i]);
                }
                assert(is_run(s, p, c, d));
                assert(s.subrange(c, d) =~= t.subrange(a, b));
            }
        }
        if is_piece(s, p, x) {
            let (a, b) = choose|a: int, b: int| #[trigger]
                is_run(s, p, a, b) && x == s.subrange(a, b);
            if a <= at {
                assert(a == 0);
                assert(b <= at) by {
                    if b > at {
                        assert(!p(s[at]));
                    }
                }
                assert(b == at);
                assert(ps[0] == x);
            } else {
                let c = a - at - 1;
                let d = b - at - 1;
                assert forall|i: int| c <= i < d implies !p(#[trigger] t[i]) by {
                    assert(t[i] == s[i + at + 1]);
                }
                assert(is_run(t, p, c, d));
                assert(s.subrange(a, b) =~= t.subrange(c, d));
                assert(q.contains(x));
                let k = choose|k: int| 0 <= k < q.len() && q[k] == x;
                assert(ps[k + 1] == x);
            }
        }
    }
}

proof fn lemma_first_where_is(s: Seq<char>, p: spec_fn(char) -> bool)
    ensures
        0 <= first_where(s, p) <= s.len(),
        forall|i: int| 0 <= i < first_where(s, p) ==> !p(#[trigger] s[i]),
        first_where(s, p) < s.len() ==> p(s[first_where(s, p)]),
    decreases s.len(),
{
    if s.len() > 0 && !p(s[0]) {
        let t = s.skip(1);
        lemma_first_where_is(t, p);
        assert forall|i: int| 0 <= i < first_where(s, p) implies !p(#[trigger] s[i]) by {
            if i > 0 {
                assert(t[i - 1] == s[i]);
            }
        }
    }
}

} // verus!
