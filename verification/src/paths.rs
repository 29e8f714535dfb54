//! Windows paths as text: components, file names, stems and extensions.

use vstd::prelude::*;
use vstd::slice::slice_subrange;
use crate::casing;
use crate::text;

verus! {

/// A character that separates the components of a path.
pub open spec fn is_sep(c: char) -> bool {
    c == '\\' || c == '/'
}

pub open spec fn is_letter(c: char) -> bool {
    ('a' <= c && c <= 'z') || ('A' <= c && c <= 'Z')
}

/// A path that the system takes as it stands: it begins with `\\?\`. A slash is no separator
/// behind that, and one dot is a component.
pub open spec fn verbatim(s: Seq<char>) -> bool {
    s.len() >= 4 && s[0] == '\\' && s[1] == '\\' && s[2] == '?' && s[3] == '\\'
}

/// A character that separates the components of a path that is verbatim or not.
pub open spec fn parts(c: char, raw: bool) -> bool {
    c == '\\' || (c == '/' && !raw)
}

/// The index of the first separator at or after `from`, or the length.
pub open spec fn next_sep(s: Seq<char>, from: int, raw: bool) -> int
    decreases s.len() - from,
{
    if from < 0 || from >= s.len() || parts(s[from], raw) {
        from
    } else {
        next_sep(s, from + 1, raw)
    }
}

/// How many characters of a verbatim path name its volume: those of a share behind
/// `\\?\UNC\`, of a drive, or of the one component behind `\\?\`.
pub open spec fn verbatim_len(s: Seq<char>) -> int {
    if s.len() >= 8 && s[4] == 'U' && s[5] == 'N' && s[6] == 'C' && is_sep(s[7]) {
        let server = next_sep(s, 8, true);
        let share = next_sep(s, server + 1, true);
        if server < s.len() && server + 1 < share {
            share
        } else {
            server
        }
    } else if s.len() >= 6 && is_letter(s[4]) && s[5] == ':' && (s.len() == 6 || is_sep(s[6])) {
        6
    } else {
        next_sep(s, 4, true)
    }
}

/// How many characters of a path name its volume: two for a drive such as `C:`; for a
/// share such as `\\server\share`, as many as that takes; none for other paths that are not
/// verbatim.
pub open spec fn volume_len(s: Seq<char>) -> int {
    if verbatim(s) {
        verbatim_len(s)
    } else if s.len() >= 2 && is_letter(s[0]) && s[1] == ':' {
        2
    } else if s.len() >= 2 && is_sep(s[0]) && is_sep(s[1]) {
        let server = next_sep(s, 2, false);
        let share = next_sep(s, server + 1, false);
        if 2 < server && server < s.len() && server + 1 < share {
            share
        } else {
            0
        }
    } else {
        0
    }
}

/// What stands behind the volume of a path and the separator that follows it.
pub open spec fn body_of(s: Seq<char>) -> Seq<char> {
    let v = volume_len(s);
    if v < s.len() && is_sep(s[v]) {
        s.skip(v + 1)
    } else {
        s.skip(v)
    }
}

/// The components of a body, without empty ones and, unless the path is verbatim, those
/// that are one dot.
pub open spec fn components(s: Seq<char>, raw: bool) -> Seq<Seq<char>>
    decreases s.len(),
{
    if s.len() == 0 {
        seq![]
    } else {
        let at = next_sep(s, 0, raw);
        if at < 0 || at >= s.len() {
            kept(s, raw)
        } else {
            kept(s.take(at), raw) + components(s.skip(at + 1), raw)
        }
    }
}

/// A component, unless it is empty or one dot that says nothing.
pub open spec fn kept(c: Seq<char>, raw: bool) -> Seq<Seq<char>> {
    if c.len() == 0 || (c == seq!['.'] && !raw) {
        seq![]
    } else {
        seq![c]
    }
}

/// The name that a path ends with: its last component, unless that is one dot or two.
pub open spec fn name_of(path: Seq<char>) -> Option<Seq<char>> {
    let cs = components(body_of(path), verbatim(path));
    if cs.len() > 0 && cs.last() != seq!['.'] && cs.last() != seq!['.', '.'] {
        Some(cs.last())
    } else {
        None
    }
}

/// The index of the last `c` in `s`, or -1.
pub open spec fn last_of(s: Seq<char>, c: char) -> int
    decreases s.len(),
{
    if s.len() == 0 {
        -1
    } else if s.last() == c {
        s.len() - 1
    } else {
        last_of(s.drop_last(), c)
    }
}

/// A file name without its extension: what precedes the last dot, unless that is
/// nothing.
pub open spec fn stem_of_name(name: Seq<char>) -> Seq<char> {
    let at = last_of(name, '.');
    if at > 0 {
        name.take(at)
    } else {
        name
    }
}

/// The extension of a file name: what follows the last dot, where something precedes it.
pub open spec fn extension_of_name(name: Seq<char>) -> Option<Seq<char>> {
    let at = last_of(name, '.');
    if at > 0 {
        Some(name.skip(at + 1))
    } else {
        None
    }
}

/// The name that a path ends with, without its extension.
pub open spec fn stem_of(path: Seq<char>) -> Option<Seq<char>> {
    match name_of(path) {
        Some(name) => Some(stem_of_name(name)),
        None => None,
    }
}

/// The extension of the name that a path ends with.
pub open spec fn extension_of(path: Seq<char>) -> Option<Seq<char>> {
    match name_of(path) {
        Some(name) => extension_of_name(name),
        None => None,
    }
}

/// Components with a backslash before each.
pub open spec fn chained(cs: Seq<Seq<char>>) -> Seq<char>
    decreases cs.len(),
{
    if cs.len() == 0 {
        seq![]
    } else {
        chained(cs.drop_last()).push('\\') + cs.last()
    }
}

/// `dir` and the name of a file or folder joined by one backslash; none is put behind a
/// separator, a bare drive or nothing. A verbatim directory is written anew from its volume
/// and its components.
pub open spec fn joined(dir: Seq<char>, name: Seq<char>) -> Seq<char> {
    if verbatim(dir) {
        (dir.take(volume_len(dir)) + chained(components(body_of(dir), true))).push('\\') + name
    } else if dir.len() == 0 || is_sep(dir.last()) || (dir.len() == 2 && volume_len(dir) == 2) {
        dir + name
    } else {
        dir.push('\\') + name
    }
}

/// `s` with every slash turned into a backslash.
pub open spec fn backslashed(s: Seq<char>) -> Seq<char> {
    Seq::new(
        s.len(),
        |i: int|
            if s[i] == '/' {
                '\\'
            } else {
                s[i]
            },
    )
}

/// A path with backslashes alone and none at its end.
pub open spec fn plain_path(s: Seq<char>) -> Seq<char> {
    text::strip_back(backslashed(s), '\\')
}

/// What two paths are compared by: backslashes alone, none at the end, lower case. The case
/// of ASCII letters goes first.
pub open spec fn key_of(s: Seq<char>) -> Seq<char> {
    casing::lowercased(text::lower(plain_path(s)))
}

/// Two characters that a path may have in place of each other: two separators, or the two
/// cases of an ASCII letter.
pub open spec fn alike(a: char, b: char) -> bool {
    (is_sep(a) && is_sep(b)) || text::lower_of(a) == text::lower_of(b)
}

/// `q` is `p` spelled in another way: with other separators, with ASCII letters of the other
/// case, and with more separators at the end.
pub open spec fn respelled(p: Seq<char>, q: Seq<char>) -> bool {
    &&& p.len() <= q.len()
    &&& forall|i: int| 0 <= i < p.len() ==> alike(#[trigger] p[i], q[i])
    &&& forall|i: int| p.len() <= i < q.len() ==> is_sep(#[trigger] q[i])
}

/// A text that a key can be: no slash, no ASCII letter in upper case, and no backslash at
/// the end.
pub open spec fn in_key_form(s: Seq<char>) -> bool {
    &&& !s.contains('/')
    &&& text::lower(s) == s
    &&& s.len() > 0 ==> s.last() != '\\'
}

pub proof fn lemma_last_of(s: Seq<char>, c: char)
    ensures
        -1 <= last_of(s, c) < s.len(),
        last_of(s, c) >= 0 ==> s[last_of(s, c)] == c,
        forall|i: int| last_of(s, c) < i < s.len() ==> s[i] != c,
    decreases s.len(),
{
    if s.len() > 0 && s.last() != c {
        lemma_last_of(s.drop_last(), c);
        assert forall|i: int| last_of(s, c) < i < s.len() implies s[i] != c by {
            if i < s.len() - 1 {
                assert(s.drop_last()[i] == s[i]);
            }
        }
    }
}

/// Slashes turn into backslashes one for one, and a second pass changes nothing.
pub proof fn law_plain_path_idempotent(s: Seq<char>)
    ensures
        plain_path(plain_path(s)) == plain_path(s),
{
    lemma_strip_back(backslashed(s), '\\');
    let p = plain_path(s);
    assert forall|i: int| 0 <= i < p.len() implies p[i] != '/' by {
        assert(p[i] == backslashed(s)[i]);
    }
    assert(backslashed(p) =~= p);
}

proof fn lemma_strip_back_run(s: Seq<char>, n: int)
    requires
        0 <= n <= s.len(),
        forall|i: int| n <= i < s.len() ==> s[i] == '\\',
    ensures
        text::strip_back(s, '\\') == text::strip_back(s.take(n), '\\'),
    decreases s.len() - n,
{
    if n < s.len() {
        lemma_strip_back_run(s.drop_last(), n);
        assert(s.drop_last().take(n) =~= s.take(n));
    } else {
        assert(s.take(n) =~= s);
    }
}

proof fn lemma_lower_strip(s: Seq<char>)
    ensures
        text::lower(text::strip_back(s, '\\')) == text::strip_back(text::lower(s), '\\'),
    decreases s.len(),
{
    if s.len() > 0 {
        assert(text::lower(s).drop_last() =~= text::lower(s.drop_last()));
        assert(text::lower(s).last() == text::lower_of(s.last()));
        if s.last() == '\\' {
            lemma_lower_strip(s.drop_last());
        }
    }
}

/// A path and another spelling of it have the same key: neither the direction of slashes, nor
/// the case of ASCII letters, nor separators at the end make a difference.
pub proof fn law_key_ignores_spelling(p: Seq<char>, q: Seq<char>)
    requires
        respelled(p, q),
    ensures
        key_of(p) == key_of(q),
{
    let n = p.len() as int;
    let a = text::lower(backslashed(p));
    let b = text::lower(backslashed(q));
    lemma_lower_strip(backslashed(p));
    lemma_lower_strip(backslashed(q));
    assert forall|i: int| n <= i < b.len() implies b[i] == '\\' by {
        assert(is_sep(q[i]));
    }
    lemma_strip_back_run(b, n);
    assert(b.take(n) =~= a) by {
        assert forall|i: int| 0 <= i < n implies b[i] == a[i] by {
            assert(alike(p[i], q[i]));
        }
    }
}

/// Tidying a path first makes no difference to its key, and paths that are tidied to the same
/// text have the same key.
pub proof fn law_key_of_plain_path(p: Seq<char>, q: Seq<char>)
    ensures
        key_of(plain_path(p)) == key_of(p),
        plain_path(p) == plain_path(q) ==> key_of(p) == key_of(q),
{
    law_plain_path_idempotent(p);
}

/// A text in the form of a key is tidy, and has its ASCII letters in lower case.
pub(crate) proof fn lemma_key_form(s: Seq<char>)
    requires
        in_key_form(s),
    ensures
        text::lower(plain_path(s)) == s,
{
    assert forall|i: int| 0 <= i < s.len() implies s[i] != '/' by {
        assert(s.contains(s[i]));
    }
    assert(backslashed(s) =~= s);
}

/// A tidy text has no slash, and no backslash at its end.
pub(crate) proof fn lemma_plain_path(s: Seq<char>)
    ensures
        !plain_path(s).contains('/'),
        plain_path(s).len() > 0 ==> plain_path(s).last() != '\\',
{
    let p = plain_path(s);
    lemma_strip_back(backslashed(s), '\\');
    assert forall|i: int| 0 <= i < p.len() implies p[i] != '/' by {
        assert(p[i] == backslashed(s)[i]);
    }
}

proof fn lemma_strip_back(s: Seq<char>, c: char)
    ensures
        text::strip_back(s, c).len() <= s.len(),
        text::strip_back(s, c) == s.take(text::strip_back(s, c).len() as int),
        text::strip_back(s, c).len() > 0 ==> text::strip_back(s, c).last() != c,
    decreases s.len(),
{
    if s.len() > 0 && s.last() == c {
        lemma_strip_back(s.drop_last(), c);
        let n = text::strip_back(s, c).len() as int;
        assert(s.drop_last().take(n) =~= s.take(n));
    } else {
        assert(s.take(s.len() as int) =~= s);
    }
}

pub(crate) fn find_sep(s: &[char], from: usize, raw: bool) -> (r: usize)
    requires
        from <= s@.len(),
    ensures
        r == next_sep(s@, from as int, raw),
        from <= r <= s@.len(),
{
    let mut i: usize = from;
    while i < s.len() && s[i] != '\\' && (raw || s[i] != '/')
        invariant
            from <= i <= s@.len(),
            next_sep(s@, from as int, raw) == next_sep(s@, i as int, raw),
        decreases s@.len() - i,
    {
        i += 1;
    }
    i
}

pub(crate) fn separates(c: char) -> (r: bool)
    ensures
        r == is_sep(c),
{
    c == '\\' || c == '/'
}

pub(crate) fn names_drive(c: char) -> (r: bool)
    ensures
        r == is_letter(c),
{
    ('a' <= c && c <= 'z') || ('A' <= c && c <= 'Z')
}

pub(crate) fn is_verbatim(s: &[char]) -> (r: bool)
    ensures
        r == verbatim(s@),
{
    s.len() >= 4 && s[0] == '\\' && s[1] == '\\' && s[2] == '?' && s[3] == '\\'
}

fn verbatim_volume(s: &[char]) -> (r: usize)
    requires
        verbatim(s@),
    ensures
        r == verbatim_len(s@),
        r <= s@.len(),
{
    if s.len() >= 8 && s[4] == 'U' && s[5] == 'N' && s[6] == 'C' && separates(s[7]) {
        let server: usize = find_sep(s, 8, true);
        if server < s.len() {
            let share: usize = find_sep(s, server + 1, true);
            if server + 1 < share {
                return share;
            }
        }
        return server;
    }
    if s.len() >= 6 && names_drive(s[4]) && s[5] == ':' && (s.len() == 6 || separates(s[6])) {
        return 6;
    }
    find_sep(s, 4, true)
}

pub(crate) fn volume(s: &[char]) -> (r: usize)
    ensures
        r == volume_len(s@),
        r <= s@.len(),
{
    if is_verbatim(s) {
        return verbatim_volume(s);
    }
    if s.len() < 2 {
        return 0;
    }
    if names_drive(s[0]) && s[1] == ':' {
        return 2;
    }
    if separates(s[0]) && separates(s[1]) {
        let server: usize = find_sep(s, 2, false);
        if server < s.len() {
            let share: usize = find_sep(s, server + 1, false);
            if 2 < server && server + 1 < share {
                return share;
            }
        }
    }
    0
}

pub(crate) fn body(s: &[char]) -> (r: &[char])
    ensures
        r@ == body_of(s@),
{
    let v: usize = volume(s);
    let from: usize = if v < s.len() && separates(s[v]) {
        v + 1
    } else {
        v
    };
    let r = slice_subrange(s, from, s.len());
    assert(r@ =~= body_of(s@));
    r
}

pub(crate) fn split_body(s: &[char], raw: bool) -> (r: Vec<Vec<char>>)
    ensures
        text::rows(r@) == components(s@, raw),
{
    let mut out: Vec<Vec<char>> = Vec::new();
    let mut rest = s;
    assert(text::rows(out@) + components(rest@, raw) =~= components(s@, raw));
    loop
        invariant
            text::rows(out@) + components(rest@, raw) == components(s@, raw),
        decreases rest@.len(),
    {
        if rest.len() == 0 {
            assert(text::rows(out@) + components(rest@, raw) =~= text::rows(out@));
            return out;
        }
        let at: usize = find_sep(rest, 0, raw);
        let head = slice_subrange(rest, 0, at);
        assert(head@ =~= rest@.take(at as int));
        let skip: bool = head.len() == 0 || (!raw && head.len() == 1 && head[0] == '.');
        proof {
            assert(head@ == seq!['.'] <==> head@.len() == 1 && head@[0] == '.') by {
                if head@.len() == 1 && head@[0] == '.' {
                    assert(head@ =~= seq!['.']);
                }
            }
        }
        let ghost part = kept(head@, raw);
        let ghost was = text::rows(out@);
        if !skip {
            out.push(text::own(head));
        }
        assert(text::rows(out@) =~= was + part);
        if at >= rest.len() {
            assert(head@ =~= rest@);
            return out;
        }
        let tail = slice_subrange(rest, at + 1, rest.len());
        proof {
            assert(tail@ =~= rest@.skip(at as int + 1));
            assert(was + (part + components(tail@, raw)) =~= (was + part) + components(
                tail@,
                raw,
            ));
        }
        rest = tail;
    }
}

fn dot_at(s: &[char]) -> (r: Option<usize>)
    ensures
        r is Some <==> last_of(s@, '.') > 0,
        r matches Some(i) ==> i == last_of(s@, '.') && 0 < i < s@.len(),
{
    let mut n: usize = s.len();
    assert(s@.take(n as int) =~= s@);
    while n > 1
        invariant
            n <= s@.len(),
            last_of(s@, '.') == last_of(s@.take(n as int), '.'),
        decreases n,
    {
        if s[n - 1] == '.' {
            return Some(n - 1);
        }
        assert(s@.take(n as int).drop_last() =~= s@.take(n as int - 1));
        n -= 1;
    }
    proof {
        lemma_last_of(s@.take(n as int), '.');
    }
    None
}

/// The name that a path ends with.
pub fn file_name(path: &str) -> (r: Option<String>)
    ensures
        text::opt_text(r) == name_of(path@),
{
    let p = text::chars_of(path);
    match name_chars(&p) {
        Some(c) => Some(text::string_of(&c)),
        None => None,
    }
}

fn name_chars(p: &[char]) -> (r: Option<Vec<char>>)
    ensures
        r is Some <==> name_of(p@) is Some,
        r matches Some(c) ==> name_of(p@) == Some(c@),
{
    let mut cs = split_body(body(p), is_verbatim(p));
    match cs.pop() {
        Some(c) => {
            proof {
                assert(components(body_of(p@), verbatim(p@)).last() == c@);
                assert(c@.len() == 1 && c@[0] == '.' ==> c@ =~= seq!['.']);
                assert(c@.len() == 2 && c@[0] == '.' && c@[1] == '.' ==> c@ =~= seq!['.', '.']);
            }
            if (c.len() == 1 && c[0] == '.') || (c.len() == 2 && c[0] == '.' && c[1] == '.') {
                None
            } else {
                Some(c)
            }
        },
        None => {
            assert(components(body_of(p@), verbatim(p@)).len() == 0);
            None
        },
    }
}

/// The name that a path ends with, without its extension.
pub fn file_stem(path: &str) -> (r: Option<String>)
    ensures
        text::opt_text(r) == stem_of(path@),
{
    let p = text::chars_of(path);
    match name_chars(&p) {
        Some(c) => {
            let stem = stem_chars(&c);
            Some(text::string_of(stem))
        },
        None => None,
    }
}

fn stem_chars(name: &[char]) -> (r: &[char])
    ensures
        r@ == stem_of_name(name@),
{
    match dot_at(name) {
        Some(at) => {
            let r = slice_subrange(name, 0, at);
            assert(r@ =~= name@.take(at as int));
            r
        },
        None => name,
    }
}

/// The extension of the name that a path ends with.
pub fn extension(path: &str) -> (r: Option<String>)
    ensures
        text::opt_text(r) == extension_of(path@),
{
    let p = text::chars_of(path);
    match name_chars(&p) {
        Some(c) => {
            let n: usize = c.len();
            match dot_at(&c) {
                Some(at) => {
                    let e = slice_subrange(&c, at + 1, n);
                    assert(e@ =~= c@.skip(at as int + 1));
                    Some(text::string_of(e))
                },
                None => None,
            }
        },
        None => None,
    }
}

/// A directory and the name of a file or folder in it.
pub(crate) fn join(dir: &str, name: &str) -> (r: String)
    ensures
        r@ == joined(dir@, name@),
{
    let d = text::chars_of(dir);
    let mut out: Vec<char> = Vec::new();
    if is_verbatim(&d) {
        let v: usize = volume(&d);
        let cs = split_body(body(&d), true);
        let ghost all = components(body_of(d@), true);
        text::add_chars(&mut out, slice_subrange(&d, 0, v));
        assert(out@ =~= d@.take(v as int) + chained(all.take(0)));
        let mut i: usize = 0;
        while i < cs.len()
            invariant
                i <= cs@.len(),
                all == text::rows(cs@),
                out@ == d@.take(v as int) + chained(all.take(i as int)),
            decreases cs@.len() - i,
        {
            out.push('\\');
            text::add_chars(&mut out, &cs[i]);
            proof {
                assert(all.take(i as int + 1).drop_last() =~= all.take(i as int));
                assert(all.take(i as int + 1).last() == cs@[i as int]@);
            }
            i += 1;
            assert(out@ =~= d@.take(v as int) + chained(all.take(i as int)));
        }
        assert(all.take(i as int) =~= all);
        out.push('\\');
    } else {
        let n: usize = d.len();
        let bare: bool = n == 2 && volume(&d) == 2;
        text::add_chars(&mut out, &d);
        if n > 0 && !bare && !separates(d[n - 1]) {
            out.push('\\');
        }
    }
    text::add_text(&mut out, name);
    assert(out@ =~= joined(dir@, name@));
    text::string_of(&out)
}

/// A path with backslashes alone and none at its end.
pub fn tidy(path: &str) -> (r: String)
    ensures
        r@ == plain_path(path@),
{
    let p = text::chars_of(path);
    let mut out: Vec<char> = Vec::new();
    let mut i: usize = 0;
    while i < p.len()
        invariant
            i <= p@.len(),
            out@ == backslashed(p@).take(i as int),
        decreases p@.len() - i,
    {
        if p[i] == '/' {
            out.push('\\');
        } else {
            out.push(p[i]);
        }
        i += 1;
        assert(out@ =~= backslashed(p@).take(i as int));
    }
    assert(out@ =~= backslashed(p@));
    let t = text::trim_end_of(&out, '\\');
    text::string_of(t)
}

} // verus!
