//! What the ways of taking text apart promise.

use vstd::prelude::*;
use crate::facts;
use crate::numbers;
use crate::paths;
use crate::text;

verus! {

/// From `a` to `b` stands all of a text but the white space around it.
pub open spec fn is_core(s: Seq<char>, a: int, b: int) -> bool {
    &&& 0 <= a <= b <= s.len()
    &&& forall|i: int| 0 <= i < a ==> text::is_white(#[trigger] s[i])
    &&& forall|i: int| b <= i < s.len() ==> text::is_white(#[trigger] s[i])
    &&& a < b ==> !text::is_white(s[a]) && !text::is_white(s[b - 1])
}

proof fn lemma_trim_front(s: Seq<char>) -> (a: int)
    ensures
        0 <= a <= s.len(),
        text::trim_front(s) == s.skip(a),
        forall|i: int| 0 <= i < a ==> text::is_white(#[trigger] s[i]),
        a < s.len() ==> !text::is_white(s[a]),
    decreases s.len(),
{
    if s.len() > 0 && text::is_white(s[0]) {
        let t = s.skip(1);
        let a = lemma_trim_front(t);
        assert(t.skip(a) =~= s.skip(a + 1));
        assert forall|i: int| 0 <= i < a + 1 implies text::is_white(#[trigger] s[i]) by {
            if i > 0 {
                assert(t[i - 1] == s[i]);
            }
        }
        a + 1
    } else {
        assert(s.skip(0) =~= s);
        0
    }
}

proof fn lemma_trim_back(s: Seq<char>) -> (b: int)
    ensures
        0 <= b <= s.len(),
        text::trim_back(s) == s.take(b),
        forall|i: int| b <= i < s.len() ==> text::is_white(#[trigger] s[i]),
        b > 0 ==> !text::is_white(s[b - 1]),
    decreases s.len(),
{
    if s.len() > 0 && text::is_white(s.last()) {
        let t = s.drop_last();
        let b = lemma_trim_back(t);
        assert(t.take(b) =~= s.take(b));
        assert forall|i: int| b <= i < s.len() implies text::is_white(#[trigger] s[i]) by {
            if i < t.len() {
                assert(t[i] == s[i]);
            }
        }
        b
    } else {
        assert(s.take(s.len() as int) =~= s);
        s.len() as int
    }
}

/// Trimming takes white space from both ends, all of it, and nothing else.
pub proof fn law_trimmed(s: Seq<char>)
    ensures
        exists|a: int, b: int| #[trigger] is_core(s, a, b) && text::trimmed(s) == s.subrange(a, b),
{
    let a = lemma_trim_front(s);
    let t = s.skip(a);
    let c = lemma_trim_back(t);
    let b = a + c;
    assert(t.take(c) =~= s.subrange(a, b));
    assert forall|i: int| b <= i < s.len() implies text::is_white(#[trigger] s[i]) by {
        assert(t[i - a] == s[i]);
    }
    if a < b {
        assert(t[c - 1] == s[b - 1]);
    }
    if c == 0 && a < s.len() {
        assert(t[0] == s[a]);
        assert(text::is_white(t[0]));
    }
    assert(is_core(s, a, b));
}

/// The blank, the tab and the ends of lines are white space; letters, digits and what a
/// path is written with are not.
pub proof fn law_white(c: char)
    ensures
        c == ' ' || c == '\t' || c == '\n' || c == '\r' ==> text::is_white(c),
        'a' <= c <= 'z' || 'A' <= c <= 'Z' || '0' <= c <= '9' ==> !text::is_white(c),
        c == '\\' || c == '/' || c == '.' || c == ':' || c == '"' || c == '\'' || c == '-' || c
            == '_' || c == '=' || c == '#' ==> !text::is_white(c),
{
}

/// Stripping takes a mark from both ends, as often as it stands there, and nothing else.
pub proof fn law_stripped(s: Seq<char>, c: char)
    ensures
        exists|a: int, b: int| #[trigger]
            is_unmarked(s, c, a, b) && text::stripped(s, c) == s.subrange(a, b),
{
    let a = lemma_strip_front(s, c);
    let t = s.skip(a);
    let d = lemma_strip_back(t, c);
    let b = a + d;
    assert(t.take(d) =~= s.subrange(a, b));
    assert forall|i: int| b <= i < s.len() implies #[trigger] s[i] == c by {
        assert(t[i - a] == s[i]);
    }
    if a < b {
        assert(t[d - 1] == s[b - 1]);
    }
    if d == 0 && a < s.len() {
        assert(t[0] == s[a]);
        assert(t[0] == c);
    }
    assert(is_unmarked(s, c, a, b));
}

/// From `a` to `b` stands all of a text but the marks around it.
pub open spec fn is_unmarked(s: Seq<char>, c: char, a: int, b: int) -> bool {
    &&& 0 <= a <= b <= s.len()
    &&& forall|i: int| 0 <= i < a ==> #[trigger] s[i] == c
    &&& forall|i: int| b <= i < s.len() ==> #[trigger] s[i] == c
    &&& a < b ==> s[a] != c && s[b - 1] != c
}

proof fn lemma_strip_front(s: Seq<char>, c: char) -> (a: int)
    ensures
        0 <= a <= s.len(),
        text::strip_front(s, c) == s.skip(a),
        forall|i: int| 0 <= i < a ==> #[trigger] s[i] == c,
        a < s.len() ==> s[a] != c,
    decreases s.len(),
{
    if s.len() > 0 && s[0] == c {
        let t = s.skip(1);
        let a = lemma_strip_front(t, c);
        assert(t.skip(a) =~= s.skip(a + 1));
        assert forall|i: int| 0 <= i < a + 1 implies #[trigger] s[i] == c by {
            if i > 0 {
                assert(t[i - 1] == s[i]);
            }
        }
        a + 1
    } else {
        assert(s.skip(0) =~= s);
        0
    }
}

proof fn lemma_strip_back(s: Seq<char>, c: char) -> (b: int)
    ensures
        0 <= b <= s.len(),
        text::strip_back(s, c) == s.take(b),
        forall|i: int| b <= i < s.len() ==> #[trigger] s[i] == c,
        b > 0 ==> s[b - 1] != c,
    decreases s.len(),
{
    if s.len() > 0 && s.last() == c {
        let t = s.drop_last();
        let b = lemma_strip_back(t, c);
        assert(t.take(b) =~= s.take(b));
        assert forall|i: int| b <= i < s.len() implies #[trigger] s[i] == c by {
            if i < t.len() {
                assert(t[i] == s[i]);
            }
        }
        b
    } else {
        assert(s.take(s.len() as int) =~= s);
        s.len() as int
    }
}

/// Lower case changes the capitals of ASCII, to the letter that is as far behind `a` as
/// they are behind `A`, and nothing else.
pub proof fn law_lower(s: Seq<char>, i: int)
    requires
        0 <= i < s.len(),
    ensures
        text::lower(s).len() == s.len(),
        'A' <= s[i] <= 'Z' ==> text::lower(s)[i] as u32 - 'a' as u32 == s[i] as u32 - 'A' as u32,
        !('A' <= s[i] <= 'Z') ==> text::lower(s)[i] == s[i],
        text::lower(text::lower(s)) == text::lower(s),
{
    assert forall|k: int| 0 <= k < s.len() implies text::lower_of(text::lower(s)[k]) == text::lower(
        s,
    )[k] by {}
    assert(text::lower(text::lower(s)) =~= text::lower(s));
}

/// A text is cut at the first mark in it: what stands before has none, and both sides with
/// the mark between them are the text. One without the mark is not cut.
pub proof fn law_cut(s: Seq<char>, c: char)
    ensures
        text::cut(s, c) matches Some((a, b)) ==> s == a.push(c) + b && facts::lacks(a, c),
        text::cut(s, c) is None ==> facts::lacks(s, c),
{
    text::lemma_first_of(s, c);
    let at = text::first_of(s, c);
    if at < s.len() {
        let a = s.take(at);
        assert(s =~= a.push(c) + s.skip(at + 1));
    }
}

/// Pieces with a mark between each two.
pub open spec fn with_marks(ps: Seq<Seq<char>>, c: char) -> Seq<char>
    decreases ps.len(),
{
    if ps.len() == 0 {
        seq![]
    } else if ps.len() == 1 {
        ps[0]
    } else {
        ps[0].push(c) + with_marks(ps.skip(1), c)
    }
}

/// What a text falls into at its marks has none, and is the text again with the marks
/// between the pieces.
pub proof fn law_pieces(s: Seq<char>, c: char)
    ensures
        text::pieces(s, c).len() > 0,
        with_marks(text::pieces(s, c), c) == s,
        forall|i: int| 0 <= i < text::pieces(s, c).len() ==> facts::lacks(
            #[trigger] text::pieces(s, c)[i],
            c,
        ),
    decreases s.len(),
{
    let at = text::first_of(s, c);
    text::lemma_first_of(s, c);
    let ps = text::pieces(s, c);
    if at < s.len() {
        let t = s.skip(at + 1);
        let q = text::pieces(t, c);
        law_pieces(t, c);
        assert(ps =~= seq![s.take(at)] + q);
        assert(ps.skip(1) =~= q);
        assert(s =~= s.take(at).push(c) + t);
        assert forall|i: int| 0 <= i < ps.len() implies facts::lacks(#[trigger] ps[i], c) by {
            if i > 0 {
                assert(ps[i] == q[i - 1]);
            }
        }
    }
}

/// One text comes before another where they differ first at a lesser character, or where it
/// ends first.
pub proof fn law_before(a: Seq<char>, b: Seq<char>)
    ensures
        text::before(a, b) <==> exists|k: int| #[trigger] differ_at(a, b, k),
    decreases a.len(),
{
    if a.len() > 0 && b.len() > 0 && a[0] == b[0] {
        let x = a.skip(1);
        let y = b.skip(1);
        law_before(x, y);
        if text::before(x, y) {
            let k = choose|k: int| #[trigger] differ_at(x, y, k);
            assert forall|i: int| 0 <= i < k + 1 implies #[trigger] a[i] == b[i] by {
                if i > 0 {
                    assert(x[i - 1] == y[i - 1]);
                }
            }
            assert(differ_at(a, b, k + 1));
        }
        if exists|k: int| #[trigger] differ_at(a, b, k) {
            let k = choose|k: int| #[trigger] differ_at(a, b, k);
            assert(k > 0);
            assert forall|i: int| 0 <= i < k - 1 implies #[trigger] x[i] == y[i] by {
                assert(a[i + 1] == b[i + 1]);
            }
            assert(differ_at(x, y, k - 1));
        }
    } else {
        if text::before(a, b) {
            assert(differ_at(a, b, 0));
        }
        if exists|k: int| #[trigger] differ_at(a, b, k) {
            let k = choose|k: int| #[trigger] differ_at(a, b, k);
            if k > 0 {
                assert(a[0] == b[0]);
            }
        }
    }
}

/// `a` and `b` are the same up to `k`, and there `a` ends or has the lesser character.
pub open spec fn differ_at(a: Seq<char>, b: Seq<char>, k: int) -> bool {
    &&& 0 <= k <= a.len() && k < b.len()
    &&& forall|i: int| 0 <= i < k ==> #[trigger] a[i] == b[i]
    &&& k == a.len() || a[k] < b[k]
}

/// The first place where a part stands: it does, and at no earlier place; there is none
/// only where it stands nowhere.
pub proof fn law_find(s: Seq<char>, part: Seq<char>, from: int)
    requires
        0 <= from,
    ensures
        ({
            let at = text::find_from(s, part, from);
            if at >= 0 {
                &&& from <= at && at + part.len() <= s.len()
                &&& s.subrange(at, at + part.len()) == part
                &&& forall|i: int|
                    from <= i < at ==> #[trigger] s.subrange(i, i + part.len()) != part
            } else {
                forall|i: int|
                    from <= i && i + part.len() <= s.len() ==> #[trigger] s.subrange(
                        i,
                        i + part.len(),
                    ) != part
            }
        }),
    decreases s.len() + 1 - from,
{
    if from + part.len() <= s.len() && s.subrange(from, from + part.len()) != part {
        law_find(s, part, from + 1);
    }
}

/// A number with one more digit is ten times as much and that digit.
pub proof fn law_decimal_grows(n: nat, d: nat)
    requires
        d < 10,
    ensures
        n > 0 ==> numbers::decimal(10 * n + d) == numbers::decimal(n).push((48 + d) as char),
        numbers::decimal(d) == seq![(48 + d) as char],
{
    assert((10 * n + d) / 10 == n);
    assert((10 * n + d) % 10 == d);
}

/// A number with one more hexadecimal digit is sixteen times as much and that digit, which
/// is a decimal one or a capital from A on.
pub proof fn law_hex_grows(n: nat, d: nat, width: nat)
    requires
        d < 16,
    ensures
        numbers::hex(16 * n + d, width + 1) == numbers::hex(n, width).push(
            if d < 10 {
                (48 + d) as char
            } else {
                (55 + d) as char
            },
        ),
        numbers::hex(n, 0).len() == 0,
{
    assert((16 * n + d) / 16 == n);
    assert((16 * n + d) % 16 == d);
}

/// Two digits write a number below a hundred.
pub proof fn law_two_digits(n: nat)
    requires
        n < 100,
    ensures
        numbers::two_digits(n).len() == 2,
        numbers::two_digits(n)[0] as int - 48 == n / 10,
        numbers::two_digits(n)[1] as int - 48 == n % 10,
{
}

/// A file name is its stem, a dot and its extension, where it has one; the extension has no
/// dot, and the stem is not empty. A name without an extension is its own stem.
pub proof fn law_stem_and_extension(name: Seq<char>)
    ensures
        paths::extension_of_name(name) matches Some(e) ==> name == paths::stem_of_name(name).push(
            '.',
        ) + e && facts::lacks(e, '.') && paths::stem_of_name(name).len() > 0,
        paths::extension_of_name(name) is None ==> paths::stem_of_name(name) == name,
        paths::extension_of_name(name) is None <==> forall|i: int|
            0 < i < name.len() ==> #[trigger] name[i] != '.',
{
    paths::lemma_last_of(name, '.');
    let at = paths::last_of(name, '.');
    if at > 0 {
        assert(name =~= name.take(at).push('.') + name.skip(at + 1));
        assert(name[at] == '.');
    }
}

proof fn lemma_next_sep(s: Seq<char>, from: int, raw: bool)
    requires
        0 <= from <= s.len(),
    ensures
        from <= paths::next_sep(s, from, raw) <= s.len(),
        forall|i: int|
            from <= i < paths::next_sep(s, from, raw) ==> !paths::parts(#[trigger] s[i], raw),
        paths::next_sep(s, from, raw) < s.len() ==> paths::parts(
            s[paths::next_sep(s, from, raw)],
            raw,
        ),
    decreases s.len() - from,
{
    if from < s.len() && !paths::parts(s[from], raw) {
        lemma_next_sep(s, from + 1, raw);
    }
}

proof fn lemma_next_sep_is(s: Seq<char>, from: int, raw: bool, at: int)
    requires
        0 <= from <= at <= s.len(),
        forall|i: int| from <= i < at ==> !paths::parts(#[trigger] s[i], raw),
        at < s.len() ==> paths::parts(s[at], raw),
    ensures
        paths::next_sep(s, from, raw) == at,
{
    lemma_next_sep(s, from, raw);
    let r = paths::next_sep(s, from, raw);
    if r < at {
        assert(!paths::parts(s[r], raw));
    }
    if at < r {
        assert(!paths::parts(s[at], raw));
    }
}

/// A name that one component can have: it is not empty, has no separator and is not one
/// dot or two.
pub open spec fn is_plain_name(n: Seq<char>) -> bool {
    n.len() > 0 && n != seq!['.'] && n != seq!['.', '.'] && forall|i: int|
        0 <= i < n.len() ==> #[trigger] n[i] != '\\' && n[i] != '/'
}

/// The components of a path and of what is put behind it.
proof fn lemma_components_push(s: Seq<char>, n: Seq<char>, raw: bool)
    requires
        is_plain_name(n),
    ensures
        paths::components(s.push('\\') + n, raw) == paths::components(s, raw).push(n),
    decreases s.len(),
{
    let t = s.push('\\') + n;
    let at = paths::next_sep(s, 0, raw);
    lemma_next_sep(s, 0, raw);
    assert(paths::components(n, raw) == seq![n]) by {
        lemma_next_sep_is(n, 0, raw, n.len() as int);
    }
    assert forall|i: int| 0 <= i < at implies !paths::parts(#[trigger] t[i], raw) by {
        assert(t[i] == s[i]);
    }
    lemma_next_sep_is(t, 0, raw, at);
    if at < s.len() {
        let u = s.skip(at + 1);
        assert(t.skip(at + 1) =~= u.push('\\') + n);
        assert(t.take(at) =~= s.take(at));
        lemma_components_push(u, n, raw);
        assert(paths::components(t, raw) =~= paths::components(s, raw).push(n));
    } else {
        assert(t.skip(at + 1) =~= n);
        assert(t.take(at) =~= s);
        if s.len() == 0 {
            assert(paths::kept(s, raw) =~= seq![]);
        }
        assert(paths::components(t, raw) =~= paths::components(s, raw).push(n));
    }
}

/// A path on a drive, such as `C:\Users`.
pub open spec fn on_drive(dir: Seq<char>) -> bool {
    dir.len() >= 3 && paths::is_letter(dir[0]) && dir[1] == ':' && paths::is_sep(dir[2])
}

/// The name of a file in a directory of a drive is what it was put there as, and so are its
/// stem and its extension.
pub proof fn law_name_in_directory(dir: Seq<char>, name: Seq<char>)
    requires
        on_drive(dir),
        is_plain_name(name),
    ensures
        paths::name_of(paths::joined(dir, name)) == Some(name),
        paths::stem_of(paths::joined(dir, name)) == Some(paths::stem_of_name(name)),
        paths::extension_of(paths::joined(dir, name)) == paths::extension_of_name(name),
{
    let j = paths::joined(dir, name);
    assert(j[0] == dir[0] && j[1] == ':' && j[2] == dir[2]);
    assert(paths::volume_len(j) == 2);
    let b = paths::body_of(j);
    assert(b =~= j.skip(3));
    if paths::is_sep(dir.last()) {
        if dir.len() == 3 {
            assert(b =~= name);
            lemma_next_sep_is(name, 0, false, name.len() as int);
        } else {
            let s = dir.subrange(3, dir.len() - 1);
            assert(b =~= s + seq![dir.last()] + name);
            if dir.last() == '\\' {
                assert(b =~= s.push('\\') + name);
                lemma_components_push(s, name, false);
            } else {
                lemma_components_push(s, name, false);
                lemma_slash_same(s, name);
                assert(b =~= s.push('/') + name);
            }
        }
    } else {
        let s = dir.skip(3);
        assert(b =~= s.push('\\') + name);
        lemma_components_push(s, name, false);
    }
}

/// A slash separates as a backslash does.
proof fn lemma_slash_same(s: Seq<char>, n: Seq<char>)
    ensures
        paths::components(s.push('/') + n, false) == paths::components(s.push('\\') + n, false),
    decreases s.len(),
{
    let t = s.push('/') + n;
    let u = s.push('\\') + n;
    let at = paths::next_sep(s, 0, false);
    lemma_next_sep(s, 0, false);
    assert forall|i: int| 0 <= i < at implies !paths::parts(#[trigger] t[i], false) by {
        assert(t[i] == s[i]);
    }
    assert forall|i: int| 0 <= i < at implies !paths::parts(#[trigger] u[i], false) by {
        assert(u[i] == s[i]);
    }
    lemma_next_sep_is(t, 0, false, at);
    lemma_next_sep_is(u, 0, false, at);
    assert(t.take(at) =~= u.take(at));
    if at < s.len() {
        let r = s.skip(at + 1);
        assert(t.skip(at + 1) =~= r.push('/') + n);
        assert(u.skip(at + 1) =~= r.push('\\') + n);
        lemma_slash_same(r, n);
    } else {
        assert(t.skip(at + 1) =~= n);
        assert(u.skip(at + 1) =~= n);
    }
}

/// A directory of a drive and a name are joined by one separator.
pub proof fn law_joined(dir: Seq<char>, name: Seq<char>)
    requires
        on_drive(dir),
    ensures
        paths::is_sep(dir.last()) ==> paths::joined(dir, name) == dir + name,
        !paths::is_sep(dir.last()) ==> paths::joined(dir, name) == dir.push('\\') + name,
{
}

} // verus!
