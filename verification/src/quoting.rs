//! Double-quoted values: the escape of backslashes, quote marks and line feeds, and the
//! two ways of reading escapes back.

use vstd::prelude::*;
use vstd::slice::slice_subrange;
use crate::facts;
use crate::text;

verus! {

/// How one character is written between double quotes. With `controls`, a line feed has
/// an escape of its own, so that the text stays on one line.
pub open spec fn quote_of(c: char, controls: bool) -> Seq<char> {
    if c == '\\' || c == '"' {
        seq!['\\', c]
    } else if controls && c == '\n' {
        seq!['\\', 'n']
    } else {
        seq![c]
    }
}

/// How a text is written between double quotes.
pub open spec fn quoted(s: Seq<char>, controls: bool) -> Seq<char>
    decreases s.len(),
{
    if s.len() == 0 {
        seq![]
    } else {
        quote_of(s[0], controls) + quoted(s.skip(1), controls)
    }
}

/// What a backslash and `c` stand for. With `controls`, `n`, `r` and `t` name control
/// characters and an unknown escape is kept as written; without, every escape stands
/// for the character itself.
pub open spec fn escape_of(c: char, controls: bool) -> Seq<char> {
    if !controls || c == '\\' || c == '"' {
        seq![c]
    } else if c == 'n' {
        seq!['\n']
    } else if c == 'r' {
        seq!['\r']
    } else if c == 't' {
        seq!['\t']
    } else {
        seq!['\\', c]
    }
}

/// The text that stands for `s` when escapes are read.
pub open spec fn unescaped(s: Seq<char>, controls: bool) -> Seq<char>
    decreases s.len(),
{
    if s.len() == 0 {
        seq![]
    } else if s[0] != '\\' {
        seq![s[0]] + unescaped(s.skip(1), controls)
    } else if s.len() == 1 {
        seq!['\\']
    } else {
        escape_of(s[1], controls) + unescaped(s.skip(2), controls)
    }
}

/// `s` starts and ends with `mark`, and these are two characters.
pub open spec fn enclosed(s: Seq<char>, mark: char) -> bool {
    s.len() >= 2 && s[0] == mark && s.last() == mark
}

/// `s` without its first and last characters.
pub open spec fn inside(s: Seq<char>) -> Seq<char> {
    s.subrange(1, s.len() - 1)
}

/// The value written as `s`: white space at the ends is dropped; in double quotes
/// escapes are read, without controls; anything else stands for itself.
pub open spec fn simple_value(s: Seq<char>) -> Seq<char> {
    let t = text::trimmed(s);
    if enclosed(t, '"') {
        unescaped(inside(t), false)
    } else {
        t
    }
}

/// The value written as `s`: white space at the ends is dropped; in double quotes
/// escapes are read, with controls; in single quotes nothing is; anything else stands
/// for itself.
pub open spec fn rich_value(s: Seq<char>) -> Seq<char> {
    let t = text::trimmed(s);
    if enclosed(t, '"') {
        unescaped(inside(t), true)
    } else if enclosed(t, '\'') {
        inside(t)
    } else {
        t
    }
}

/// The line that gives `key` the value `v` in double quotes.
pub open spec fn pair_line(key: Seq<char>, v: Seq<char>, controls: bool) -> Seq<char> {
    key + seq![' ', '=', ' ', '"'] + quoted(v, controls) + seq!['"']
}

/// Reading the escapes of a quoted text gives the text back: a writer with controls goes
/// with a reader with controls, and one without goes with one without.
pub proof fn law_unescaped_quoted(s: Seq<char>, controls: bool)
    ensures
        unescaped(quoted(s, controls), controls) == s,
    decreases s.len(),
{
    if s.len() > 0 {
        let rest = s.skip(1);
        law_unescaped_quoted(rest, controls);
        let q = quoted(s, controls);
        let one = quote_of(s[0], controls);
        if one.len() == 2 {
            assert(q.skip(2) =~= quoted(rest, controls));
            assert(q[0] == '\\' && q[1] == one[1]);
        } else {
            assert(q.skip(1) =~= quoted(rest, controls));
            assert(q[0] == s[0]);
        }
        assert(unescaped(q, controls) =~= seq![s[0]] + rest);
        assert(seq![s[0]] + rest =~= s);
    }
}

/// A quoted text has no line feed where it has an escape for one, or nothing to escape.
pub proof fn lemma_quoted_one_line(s: Seq<char>, controls: bool)
    requires
        controls || facts::lacks(s, '\n'),
    ensures
        facts::lacks(quoted(s, controls), '\n'),
    decreases s.len(),
{
    if s.len() > 0 {
        let rest = s.skip(1);
        if !controls {
            assert forall|i: int| 0 <= i < rest.len() implies #[trigger] rest[i] != '\n' by {
                assert(s[i + 1] != '\n');
            }
            assert(s[0] != '\n');
        }
        lemma_quoted_one_line(rest, controls);
    }
}

/// A value in double quotes reads back as itself, both ways.
pub proof fn law_value_of_quoted(v: Seq<char>)
    ensures
        simple_value(seq![' ', '"'] + quoted(v, false) + seq!['"']) == v,
        rich_value(seq![' ', '"'] + quoted(v, true) + seq!['"']) == v,
{
    lemma_trimmed_quoted(v, false);
    lemma_trimmed_quoted(v, true);
    law_unescaped_quoted(v, false);
    law_unescaped_quoted(v, true);
}

proof fn lemma_trimmed_quoted(v: Seq<char>, controls: bool)
    ensures
        ({
            let t = text::trimmed(seq![' ', '"'] + quoted(v, controls) + seq!['"']);
            enclosed(t, '"') && inside(t) == quoted(v, controls)
        }),
{
    let q = quoted(v, controls);
    let t = seq!['"'] + q + seq!['"'];
    assert(seq![' ', '"'] + q + seq!['"'] =~= seq![' '] + t);
    facts::lemma_trim_blank_before(t);
    assert(inside(t) =~= q);
}

/// How a line that pairs a key with a quoted value is taken apart.
pub proof fn lemma_pair_line(key: Seq<char>, v: Seq<char>, controls: bool)
    requires
        facts::snug(key),
        facts::plain(key),
    ensures
        text::trimmed(pair_line(key, v, controls)) == pair_line(key, v, controls),
        pair_line(key, v, controls).len() > 0,
        pair_line(key, v, controls)[0] == key[0],
        text::cut(pair_line(key, v, controls), '=') == Some(
            (key.push(' '), seq![' ', '"'] + quoted(v, controls) + seq!['"']),
        ),
        text::trimmed(key.push(' ')) == key,
        controls || facts::lacks(v, '\n') ==> facts::is_line(pair_line(key, v, controls)),
{
    let l = pair_line(key, v, controls);
    let a = key.push(' ');
    let b = seq![' ', '"'] + quoted(v, controls) + seq!['"'];
    assert(l =~= a + seq!['='] + b);
    assert(l.last() == '"');
    assert(l[0] == key[0]);
    facts::lemma_trim_snug(l);
    facts::lemma_cut_at(a, '=', b);
    facts::lemma_trim_blank_after(key);
    if controls || facts::lacks(v, '\n') {
        lemma_quoted_one_line(v, controls);
    }
}

/// A text as it is written between double quotes.
pub fn quote(value: &str, controls: bool) -> (r: String)
    ensures
        r@ == quoted(value@, controls),
{
    let v = text::chars_of(value);
    let out = quote_chars(&v, controls);
    text::string_of(&out)
}

/// Characters as they are written between double quotes.
pub fn quote_chars(v: &[char], controls: bool) -> (r: Vec<char>)
    ensures
        r@ == quoted(v@, controls),
{
    let mut out: Vec<char> = Vec::new();
    let mut i: usize = 0;
    assert(v@.skip(0) =~= v@);
    assert(out@ + quoted(v@.skip(0), controls) =~= quoted(v@, controls));
    while i < v.len()
        invariant
            i <= v@.len(),
            out@ + quoted(v@.skip(i as int), controls) == quoted(v@, controls),
        decreases v@.len() - i,
    {
        let c = v[i];
        let ghost was = out@;
        if c == '\\' || c == '"' {
            out.push('\\');
            out.push(c);
        } else if controls && c == '\n' {
            out.push('\\');
            out.push('n');
        } else {
            out.push(c);
        }
        proof {
            let rest = v@.skip(i as int);
            assert(rest.skip(1) =~= v@.skip(i as int + 1));
            assert(out@ =~= was + quote_of(c, controls));
            let after = quoted(rest.skip(1), controls);
            assert(out@ + after =~= was + (quote_of(c, controls) + after));
        }
        i += 1;
    }
    assert(v@.skip(i as int) =~= Seq::<char>::empty());
    assert(out@ + Seq::<char>::empty() =~= out@);
    out
}

/// Reads the escapes of a run of characters.
pub fn unescape_chars(v: &[char], controls: bool) -> (r: Vec<char>)
    ensures
        r@ == unescaped(v@, controls),
{
    let mut out: Vec<char> = Vec::new();
    let mut i: usize = 0;
    assert(v@.skip(0) =~= v@);
    assert(out@ + unescaped(v@.skip(0), controls) =~= unescaped(v@, controls));
    while i < v.len()
        invariant
            i <= v@.len(),
            out@ + unescaped(v@.skip(i as int), controls) == unescaped(v@, controls),
        decreases v@.len() - i,
    {
        let c = v[i];
        let ghost was = out@;
        let ghost rest = v@.skip(i as int);
        if c != '\\' {
            out.push(c);
            proof {
                assert(rest.skip(1) =~= v@.skip(i as int + 1));
                assert(out@ + unescaped(rest.skip(1), controls) =~= was + (seq![c] + unescaped(
                    rest.skip(1),
                    controls,
                )));
            }
            i += 1;
        } else if i + 1 == v.len() {
            out.push('\\');
            proof {
                assert(rest =~= seq!['\\']);
                assert(v@.skip(i as int + 1) =~= Seq::<char>::empty());
                assert(out@ + unescaped(v@.skip(i as int + 1), controls) =~= was + seq!['\\']);
            }
            i += 1;
        } else {
            let d = v[i + 1];
            if !controls || d == '\\' || d == '"' {
                out.push(d);
            } else if d == 'n' {
                out.push('\n');
            } else if d == 'r' {
                out.push('\r');
            } else if d == 't' {
                out.push('\t');
            } else {
                out.push('\\');
                out.push(d);
            }
            proof {
                assert(rest.skip(2) =~= v@.skip(i as int + 2));
                assert(out@ =~= was + escape_of(d, controls));
                assert(out@ + unescaped(rest.skip(2), controls) =~= was + (escape_of(d, controls)
                    + unescaped(rest.skip(2), controls)));
            }
            i += 2;
        }
    }
    assert(v@.skip(i as int) =~= Seq::<char>::empty());
    assert(out@ + Seq::<char>::empty() =~= out@);
    out
}

/// The value written as a run of characters, without controls.
pub fn simple_unquote(s: &[char]) -> (r: String)
    ensures
        r@ == simple_value(s@),
{
    let t = text::trim(s);
    if t.len() >= 2 && t[0] == '"' && t[t.len() - 1] == '"' {
        let body = slice_subrange(t, 1, t.len() - 1);
        let out = unescape_chars(body, false);
        text::string_of(&out)
    } else {
        text::string_of(t)
    }
}

/// The value written as a run of characters, with controls and single quotes.
pub fn rich_unquote(s: &[char]) -> (r: String)
    ensures
        r@ == rich_value(s@),
{
    let t = text::trim(s);
    if t.len() >= 2 && t[0] == '"' && t[t.len() - 1] == '"' {
        let body = slice_subrange(t, 1, t.len() - 1);
        let out = unescape_chars(body, true);
        text::string_of(&out)
    } else if t.len() >= 2 && t[0] == '\'' && t[t.len() - 1] == '\'' {
        text::string_of(slice_subrange(t, 1, t.len() - 1))
    } else {
        text::string_of(t)
    }
}

/// Appends the line that gives `key` a value in double quotes, with its line feed.
pub fn add_pair(out: &mut Vec<char>, key: &str, value: &str, controls: bool)
    ensures
        final(out)@ == old(out)@ + pair_line(key@, value@, controls).push('\n'),
{
    let ghost start = out@;
    let v = text::chars_of(value);
    text::add_text(out, key);
    out.push(' ');
    out.push('=');
    out.push(' ');
    out.push('"');
    let q = quote_chars(&v, controls);
    text::add_chars(out, &q);
    out.push('"');
    out.push('\n');
    assert(out@ =~= start + pair_line(key@, value@, controls).push('\n'));
}

} // verus!
