//! Facts about the text vocabulary that the round trips rest on.

use vstd::prelude::*;
use crate::text;

verus! {

/// No character of `s` is `c`.
pub open spec fn lacks(s: Seq<char>, c: char) -> bool {
    forall|i: int| 0 <= i < s.len() ==> #[trigger] s[i] != c
}

/// `s` is not empty and has white space at neither end.
pub open spec fn snug(s: Seq<char>) -> bool {
    s.len() > 0 && !text::is_white(s[0]) && !text::is_white(s.last())
}

/// A line that a text keeps apart from its neighbours: no line feed in it, no carriage
/// return at its end.
pub open spec fn is_line(s: Seq<char>) -> bool {
    lacks(s, '\n') && (s.len() == 0 || s.last() != '\r')
}

/// Each of these is a line.
pub open spec fn are_lines(ls: Seq<Seq<char>>) -> bool {
    forall|i: int| 0 <= i < ls.len() ==> is_line(#[trigger] ls[i])
}

/// No one of the first `n` characters of `s` is a line feed, a quote mark, a number
/// sign or an equals sign.
pub open spec fn plain_upto(s: Seq<char>, n: nat) -> bool
    decreases n,
{
    n == 0 || ({
        let c = s[n - 1];
        c != '\n' && c != '"' && c != '\'' && c != '#' && c != '=' && plain_upto(s, (n - 1) as nat)
    })
}

/// No character of `s` is a line feed, a quote mark, a number sign or an equals sign.
pub open spec fn plain(s: Seq<char>) -> bool {
    lacks(s, '\n') && lacks(s, '"') && lacks(s, '\'') && lacks(s, '#') && lacks(s, '=')
}

/// No one of the first `n` characters of `s` is a line feed.
pub open spec fn one_line_upto(s: Seq<char>, n: nat) -> bool
    decreases n,
{
    n == 0 || (s[n - 1] != '\n' && one_line_upto(s, (n - 1) as nat))
}

pub proof fn lemma_plain(s: Seq<char>, n: nat)
    requires
        n == s.len(),
        plain_upto(s, n),
    ensures
        plain(s),
{
    lemma_plain_upto(s, n);
    assert(s.take(n as int) =~= s);
}

proof fn lemma_plain_upto(s: Seq<char>, n: nat)
    requires
        n <= s.len(),
        plain_upto(s, n),
    ensures
        plain(s.take(n as int)),
    decreases n,
{
    if n > 0 {
        lemma_plain_upto(s, (n - 1) as nat);
        let t = s.take(n as int);
        let f = s.take(n - 1);
        assert forall|i: int| 0 <= i < n implies t[i] == (if i < n - 1 {
            f[i]
        } else {
            s[n - 1]
        }) by {}
    }
    assert(n == s.len() ==> s.take(n as int) =~= s);
}

pub proof fn lemma_one_line(s: Seq<char>, n: nat)
    requires
        n <= s.len(),
        one_line_upto(s, n),
    ensures
        lacks(s.take(n as int), '\n'),
        n == s.len() ==> lacks(s, '\n'),
    decreases n,
{
    if n > 0 {
        lemma_one_line(s, (n - 1) as nat);
        let t = s.take(n as int);
        let f = s.take(n - 1);
        assert forall|i: int| 0 <= i < n implies t[i] == (if i < n - 1 {
            f[i]
        } else {
            s[n - 1]
        }) by {}
    }
    assert(n == s.len() ==> s.take(n as int) =~= s);
}

pub proof fn lemma_trim_snug(s: Seq<char>)
    requires
        snug(s),
    ensures
        text::trimmed(s) == s,
{
}

/// A blank after a text without white space at its ends is trimmed off.
pub proof fn lemma_trim_blank_after(s: Seq<char>)
    requires
        snug(s),
    ensures
        text::trimmed(s.push(' ')) == s,
{
    let t = s.push(' ');
    assert(text::trim_front(t) == t);
    assert(t.drop_last() =~= s);
    assert(text::trim_back(t) == text::trim_back(s));
}

/// A blank before a text without white space at its ends is trimmed off.
pub proof fn lemma_trim_blank_before(s: Seq<char>)
    requires
        snug(s),
    ensures
        text::trimmed(seq![' '] + s) == s,
{
    let t = seq![' '] + s;
    assert(t.skip(1) =~= s);
    assert(text::trim_front(t) == text::trim_front(s));
}

/// White space at the end makes no difference to a trimmed text.
pub proof fn lemma_trim_white_after(s: Seq<char>, c: char)
    requires
        text::is_white(c),
    ensures
        text::trimmed(s.push(c)) == text::trimmed(s),
    decreases s.len(),
{
    let t = s.push(c);
    if s.len() == 0 {
        assert(t.skip(1) =~= Seq::<char>::empty());
        assert(text::trim_front(t) == text::trim_front(t.skip(1)));
        assert(text::trim_front(s) =~= Seq::<char>::empty());
    } else if text::is_white(s[0]) {
        lemma_trim_white_after(s.skip(1), c);
        assert(t.skip(1) =~= s.skip(1).push(c));
    } else {
        assert(text::trim_front(t) == t);
        assert(t.drop_last() =~= s);
    }
}

/// The first `c` of `a` followed by `c` is behind `a`, where `a` lacks `c`.
pub proof fn lemma_cut_at(a: Seq<char>, c: char, b: Seq<char>)
    requires
        lacks(a, c),
    ensures
        text::cut(a + seq![c] + b, c) == Some((a, b)),
        text::first_of(a + seq![c] + b, c) == a.len(),
{
    let s = a + seq![c] + b;
    text::lemma_first_of_is(s, c, a.len() as int);
    assert(s.take(a.len() as int) =~= a);
    assert(s.skip(a.len() as int + 1) =~= b);
}

pub proof fn lemma_no_cut(a: Seq<char>, c: char)
    requires
        lacks(a, c),
    ensures
        text::first_of(a, c) == a.len(),
        text::cut(a, c) is None,
{
    text::lemma_first_of_is(a, c, a.len() as int);
}

/// The lines of a text that goes on after a line feed.
pub proof fn lemma_lines_after_feed(a: Seq<char>, b: Seq<char>)
    requires
        lacks(a, '\n'),
    ensures
        text::lines(a.push('\n') + b) == seq![text::chomp(a)] + text::lines(b),
{
    let s = a.push('\n') + b;
    assert(s =~= a + seq!['\n'] + b);
    lemma_cut_at(a, '\n', b);
    assert(s.take(a.len() as int) =~= a);
    assert(s.skip(a.len() as int + 1) =~= b);
}

/// A text that ends with a line feed keeps its lines apart from those that follow.
pub proof fn lemma_lines_concat(a: Seq<char>, b: Seq<char>)
    requires
        a.len() == 0 || a.last() == '\n',
    ensures
        text::lines(a + b) == text::lines(a) + text::lines(b),
    decreases a.len(),
{
    if a.len() == 0 {
        assert(a + b =~= b);
        assert(text::lines(a) + text::lines(b) =~= text::lines(b));
    } else {
        let at = text::first_of(a, '\n');
        text::lemma_first_of(a, '\n');
        assert(at < a.len());
        let head = a.take(at);
        let tail = a.skip(at + 1);
        assert(a =~= head.push('\n') + tail);
        assert(a + b =~= head.push('\n') + (tail + b));
        assert(tail.len() > 0 ==> tail.last() == a.last());
        lemma_lines_concat(tail, b);
        lemma_lines_after_feed(head, tail + b);
        lemma_lines_after_feed(head, tail);
        assert(text::lines(a + b) =~= text::lines(a) + text::lines(b));
    }
}

pub proof fn lemma_unlines_end(ls: Seq<Seq<char>>)
    ensures
        text::unlines(ls).len() == 0 || text::unlines(ls).last() == '\n',
{
}

pub proof fn lemma_unlines_concat(a: Seq<Seq<char>>, b: Seq<Seq<char>>)
    ensures
        text::unlines(a + b) == text::unlines(a) + text::unlines(b),
    decreases b.len(),
{
    if b.len() == 0 {
        assert(a + b =~= a);
        assert(text::unlines(a) + text::unlines(b) =~= text::unlines(a));
    } else {
        lemma_unlines_concat(a, b.drop_last());
        assert((a + b).drop_last() =~= a + b.drop_last());
        assert(text::unlines(a + b) =~= text::unlines(a) + text::unlines(b));
    }
}

/// Splitting a text made of lines gives those lines.
pub proof fn lemma_lines_of_unlines(ls: Seq<Seq<char>>)
    requires
        are_lines(ls),
    ensures
        text::lines(text::unlines(ls)) == ls,
    decreases ls.len(),
{
    if ls.len() > 0 {
        let front = ls.drop_last();
        assert(are_lines(front)) by {
            assert forall|i: int| 0 <= i < front.len() implies is_line(#[trigger] front[i]) by {
                assert(is_line(ls[i]));
            }
        }
        lemma_lines_of_unlines(front);
        lemma_unlines_end(front);
        let last = ls.last();
        assert(is_line(ls[ls.len() - 1]));
        lemma_lines_concat(text::unlines(front), last.push('\n'));
        lemma_lines_after_feed(last, Seq::empty());
        assert(last.push('\n') + Seq::empty() =~= last.push('\n'));
        assert(seq![text::chomp(last)] + text::lines(Seq::empty()) =~= seq![last]);
        assert(ls =~= front + seq![last]);
    }
}

/// Whatever ends with a line feed, a line feed behind the rest adds no line.
pub proof fn lemma_lines_push_feed(s: Seq<char>)
    requires
        s.len() > 0,
        s.last() != '\n',
    ensures
        text::lines(s).len() > 0,
        text::lines(s.push('\n')) == text::lines(s).drop_last().push(text::chomp(text::lines(s).last())),
        lacks(text::lines(s).last(), '\n'),
    decreases s.len(),
{
    let at = text::first_of(s, '\n');
    text::lemma_first_of(s, '\n');
    if at < s.len() {
        let head = s.take(at);
        let tail = s.skip(at + 1);
        assert(s =~= head.push('\n') + tail);
        assert(s.push('\n') =~= head.push('\n') + tail.push('\n'));
        assert(tail.last() == s.last());
        lemma_lines_push_feed(tail);
        lemma_lines_after_feed(head, tail);
        lemma_lines_after_feed(head, tail.push('\n'));
        assert(text::lines(s) =~= seq![text::chomp(head)] + text::lines(tail));
        assert(text::lines(s).last() == text::lines(tail).last());
        assert(text::lines(s).drop_last() =~= seq![text::chomp(head)] + text::lines(tail).drop_last());
        assert(text::lines(s.push('\n')) =~= text::lines(s).drop_last().push(text::chomp(text::lines(s).last())));
    } else {
        lemma_lines_after_feed(s, Seq::empty());
        assert(s.push('\n') + Seq::empty() =~= s.push('\n'));
        assert(text::lines(s) == seq![s]);
        assert(text::lines(s).drop_last() =~= Seq::<Seq<char>>::empty());
        assert(text::lines(s.push('\n')) =~= seq![text::chomp(s)]);
    }
}

/// The line that gives `key` the value `v`, as it stands.
pub open spec fn word_line(key: Seq<char>, v: Seq<char>) -> Seq<char> {
    key + seq![' ', '=', ' '] + v
}

/// How a line that pairs a key with a value is taken apart.
pub proof fn lemma_word_line(key: Seq<char>, v: Seq<char>)
    requires
        snug(key),
        lacks(key, '='),
        lacks(key, '\n'),
        snug(v),
        lacks(v, '\n'),
    ensures
        text::trimmed(word_line(key, v)) == word_line(key, v),
        word_line(key, v).len() > 0,
        word_line(key, v)[0] == key[0],
        text::cut(word_line(key, v), '=') == Some((key.push(' '), seq![' '] + v)),
        text::trimmed(key.push(' ')) == key,
        text::trimmed(seq![' '] + v) == v,
        is_line(word_line(key, v)),
{
    let l = word_line(key, v);
    let a = key.push(' ');
    let b = seq![' '] + v;
    assert(l =~= a + seq!['='] + b);
    assert(l.last() == v.last());
    assert(l[0] == key[0]);
    lemma_trim_snug(l);
    lemma_cut_at(a, '=', b);
    lemma_trim_blank_after(key);
    lemma_trim_blank_before(v);
}

/// `v` in double quotes.
pub open spec fn in_quotes(v: Seq<char>) -> Seq<char> {
    seq!['"'] + v + seq!['"']
}

/// Quote marks around a text that has none at its ends come off.
pub proof fn lemma_in_quotes(v: Seq<char>)
    requires
        v.len() > 0,
        v[0] != '"',
        v.last() != '"',
    ensures
        text::stripped(in_quotes(v), '"') == v,
        snug(in_quotes(v)),
        lacks(v, '\n') ==> lacks(in_quotes(v), '\n'),
{
    let s = in_quotes(v);
    assert(s.skip(1) =~= v.push('"'));
    assert(text::strip_front(s, '"') == text::strip_front(v.push('"'), '"'));
    assert(text::strip_front(v.push('"'), '"') == v.push('"'));
    assert(v.push('"').drop_last() =~= v);
    assert(text::strip_back(v.push('"'), '"') == text::strip_back(v, '"'));
}

/// No one of the first `n` characters of `s` is an ASCII capital, an equals sign, a line
/// feed, white space or a double quote.
pub open spec fn word_upto(s: Seq<char>, n: nat) -> bool
    decreases n,
{
    n == 0 || ({
        let c = s[n - 1];
        !('A' <= c && c <= 'Z') && c != '=' && c != '\n' && !text::is_white(c) && c != '"'
            && word_upto(s, (n - 1) as nat)
    })
}

/// A word in lower case is its own lower case and has nothing to trim.
pub proof fn lemma_word(s: Seq<char>, n: nat)
    requires
        s.len() == n,
        n > 0,
        word_upto(s, n),
    ensures
        text::lower(s) == s,
        snug(s),
        text::trimmed(s) == s,
        lacks(s, '='),
        lacks(s, '\n'),
        s[0] != '"',
        s.last() != '"',
{
    assert forall|i: int| 0 <= i < n implies !('A' <= #[trigger] s[i] && s[i] <= 'Z') && s[i] != '='
        && s[i] != '\n' && !text::is_white(s[i]) && s[i] != '"' by {
        lemma_word_at(s, n, i);
    }
    assert(s[0] != '"' && s[n - 1] != '"');
    assert(text::lower(s) =~= s);
    lemma_trim_snug(s);
}

proof fn lemma_word_at(s: Seq<char>, n: nat, i: int)
    requires
        word_upto(s, n),
        0 <= i < n,
    ensures
        !('A' <= s[i] && s[i] <= 'Z') && s[i] != '=' && s[i] != '\n' && !text::is_white(s[i])
            && s[i] != '"',
    decreases n,
{
    if i < n - 1 {
        lemma_word_at(s, (n - 1) as nat, i);
    }
}

} // verus!
