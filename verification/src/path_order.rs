//! When two paths are the same and which of two comes first: they are held against each
//! other part by part, so that the way separators are written makes no difference.

use vstd::prelude::*;
use vstd::slice::slice_subrange;
use crate::paths;
use crate::text;

verus! {

/// A verbatim path to a share.
pub open spec fn verbatim_share(s: Seq<char>) -> bool {
    s.len() >= 8 && s[4] == 'U' && s[5] == 'N' && s[6] == 'C' && paths::is_sep(s[7])
}

/// A verbatim path to a drive.
pub open spec fn verbatim_drive(s: Seq<char>) -> bool {
    s.len() >= 6 && paths::is_letter(s[4]) && s[5] == ':' && (s.len() == 6 || paths::is_sep(s[6]))
}

/// What lies between two places of a text, the later of which may be missing.
pub open spec fn between(s: Seq<char>, from: int, to: int) -> Seq<char> {
    if from <= to {
        s.subrange(from, to)
    } else {
        seq![]
    }
}

/// The parts that name the volume of a path. The first begins with a digit for its kind, in
/// the order of the kinds: a verbatim component, share or drive, a device, a share, a drive.
/// The letter of a drive has no case.
pub open spec fn volume_parts(s: Seq<char>) -> Seq<Seq<char>> {
    let v = paths::volume_len(s);
    if paths::verbatim(s) {
        if verbatim_share(s) {
            let server = paths::next_sep(s, 8, true);
            seq![seq!['1'] + between(s, 8, server), between(s, server + 1, v)]
        } else if verbatim_drive(s) {
            seq![seq!['2', text::lower_of(s[4])]]
        } else {
            seq![seq!['0'] + between(s, 4, v)]
        }
    } else if v == 0 {
        seq![]
    } else if v == 2 {
        seq![seq!['5', text::lower_of(s[0])]]
    } else {
        let server = paths::next_sep(s, 2, false);
        if server == 3 && s[2] == '.' {
            seq![seq!['3'] + between(s, server + 1, v)]
        } else {
            seq![seq!['4'] + between(s, 2, server), between(s, server + 1, v)]
        }
    }
}

/// The part for where a path starts within its volume: at the root, which a share or a
/// device always does, or at the current directory where one dot says so.
pub open spec fn start_parts(s: Seq<char>) -> Seq<Seq<char>> {
    let v = paths::volume_len(s);
    if v < s.len() && paths::is_sep(s[v]) {
        seq![seq!['6']]
    } else if v > 2 && !paths::verbatim(s) {
        seq![seq!['6']]
    } else if v == 0 && s.len() > 0 && s[0] == '.' && (s.len() == 1 || paths::is_sep(s[1])) {
        seq![seq!['7']]
    } else {
        seq![]
    }
}

/// The part for a component: one dot, two dots, or a name.
pub open spec fn part_of(c: Seq<char>) -> Seq<char> {
    if c == seq!['.'] {
        seq!['7']
    } else if c == seq!['.', '.'] {
        seq!['8']
    } else {
        seq!['9'] + c
    }
}

/// All that a path is compared by, part by part.
pub open spec fn route_of(s: Seq<char>) -> Seq<Seq<char>> {
    volume_parts(s) + start_parts(s) + paths::components(
        paths::body_of(s),
        paths::verbatim(s),
    ).map_values(|c: Seq<char>| part_of(c))
}

/// `a` comes before `b`, part by part.
pub open spec fn ahead(a: Seq<Seq<char>>, b: Seq<Seq<char>>) -> bool
    decreases a.len(),
{
    if b.len() == 0 {
        false
    } else if a.len() == 0 {
        true
    } else if a[0] != b[0] {
        text::before(a[0], b[0])
    } else {
        ahead(a.skip(1), b.skip(1))
    }
}

/// The path `p` comes before the path `q`.
pub open spec fn sooner(p: Seq<char>, q: Seq<char>) -> bool {
    ahead(route_of(p), route_of(q))
}

/// `p` and `q` are the same path.
pub open spec fn same_path(p: Seq<char>, q: Seq<char>) -> bool {
    route_of(p) == route_of(q)
}

proof fn lemma_ahead_total(a: Seq<Seq<char>>, b: Seq<Seq<char>>)
    ensures
        !(ahead(a, b) && ahead(b, a)),
        !ahead(a, b) && !ahead(b, a) ==> a == b,
        a == b ==> !ahead(a, b),
    decreases a.len(),
{
    if a.len() > 0 && b.len() > 0 {
        text::lemma_before_total(a[0], b[0]);
        lemma_ahead_total(a.skip(1), b.skip(1));
        if a[0] == b[0] && a.skip(1) == b.skip(1) {
            assert(a =~= seq![a[0]] + a.skip(1));
            assert(b =~= seq![b[0]] + b.skip(1));
        }
    } else if a.len() == 0 && b.len() == 0 {
        assert(a =~= b);
    }
}

proof fn lemma_ahead_trans(a: Seq<Seq<char>>, b: Seq<Seq<char>>, c: Seq<Seq<char>>)
    requires
        ahead(a, b),
        ahead(b, c),
    ensures
        ahead(a, c),
    decreases a.len(),
{
    if a.len() > 0 {
        if a[0] == b[0] && b[0] == c[0] {
            lemma_ahead_trans(a.skip(1), b.skip(1), c.skip(1));
        } else if a[0] != b[0] && b[0] != c[0] {
            text::lemma_before_trans(a[0], b[0], c[0]);
            text::lemma_before_total(a[0], c[0]);
        }
    }
}

/// Paths stand in one order: of two, one comes before the other or they are the same, never
/// both, and what comes before a path comes before all that it comes before.
pub proof fn law_sooner_is_an_order(p: Seq<char>, q: Seq<char>, r: Seq<char>)
    ensures
        sooner(p, q) || sooner(q, p) || same_path(p, q),
        !(sooner(p, q) && sooner(q, p)),
        same_path(p, q) ==> !sooner(p, q),
        sooner(p, q) && sooner(q, r) ==> sooner(p, r),
{
    lemma_ahead_total(route_of(p), route_of(q));
    if sooner(p, q) && sooner(q, r) {
        lemma_ahead_trans(route_of(p), route_of(q), route_of(r));
    }
}

fn marked(mark: char, name: &[char]) -> (r: Vec<char>)
    ensures
        r@ == seq![mark] + name@,
{
    let mut out: Vec<char> = Vec::new();
    out.push(mark);
    text::add_chars(&mut out, name);
    assert(out@ =~= seq![mark] + name@);
    out
}

fn span(s: &[char], from: usize, to: usize) -> (r: Vec<char>)
    requires
        from <= s@.len() || from > to,
        to <= s@.len(),
    ensures
        r@ == between(s@, from as int, to as int),
{
    if from <= to {
        text::own(slice_subrange(s, from, to))
    } else {
        Vec::new()
    }
}

fn drive(mark: char, letter: char) -> (r: Vec<char>)
    ensures
        r@ == seq![mark, text::lower_of(letter)],
{
    let mut out: Vec<char> = Vec::new();
    out.push(mark);
    out.push(text::lower_char(letter));
    assert(out@ =~= seq![mark, text::lower_of(letter)]);
    out
}

fn add_volume(out: &mut Vec<Vec<char>>, s: &[char])
    ensures
        text::rows(final(out)@) == text::rows(old(out)@) + volume_parts(s@),
{
    let ghost was = text::rows(out@);
    let v: usize = paths::volume(s);
    if paths::is_verbatim(s) {
        if s.len() >= 8 && s[4] == 'U' && s[5] == 'N' && s[6] == 'C' && paths::separates(s[7]) {
            let server: usize = paths::find_sep(s, 8, true);
            let share = if server < v {
                span(s, server + 1, v)
            } else {
                Vec::new()
            };
            out.push(marked('1', &span(s, 8, server)));
            out.push(share);
        } else if s.len() >= 6 && paths::names_drive(s[4]) && s[5] == ':' && (s.len() == 6
            || paths::separates(s[6])) {
            out.push(drive('2', s[4]));
        } else {
            out.push(marked('0', &span(s, 4, v)));
        }
    } else if v == 2 {
        out.push(drive('5', s[0]));
    } else if v > 0 {
        let server: usize = paths::find_sep(s, 2, false);
        let share = span(s, server + 1, v);
        if server == 3 && s[2] == '.' {
            out.push(marked('3', &share));
        } else {
            out.push(marked('4', &span(s, 2, server)));
            out.push(share);
        }
    }
    assert(text::rows(out@) =~= was + volume_parts(s@));
}

fn add_start(out: &mut Vec<Vec<char>>, s: &[char])
    ensures
        text::rows(final(out)@) == text::rows(old(out)@) + start_parts(s@),
{
    let ghost was = text::rows(out@);
    let v: usize = paths::volume(s);
    if (v < s.len() && paths::separates(s[v])) || (v > 2 && !paths::is_verbatim(s)) {
        out.push(marked('6', &Vec::new()));
    } else if v == 0 && s.len() > 0 && s[0] == '.' && (s.len() == 1 || paths::separates(s[1])) {
        out.push(marked('7', &Vec::new()));
    }
    assert(text::rows(out@) =~= was + start_parts(s@));
}

fn part(c: &[char]) -> (r: Vec<char>)
    ensures
        r@ == part_of(c@),
{
    proof {
        assert(c@.len() == 1 && c@[0] == '.' ==> c@ =~= seq!['.']);
        assert(c@.len() == 2 && c@[0] == '.' && c@[1] == '.' ==> c@ =~= seq!['.', '.']);
    }
    if c.len() == 1 && c[0] == '.' {
        marked('7', &Vec::new())
    } else if c.len() == 2 && c[0] == '.' && c[1] == '.' {
        marked('8', &Vec::new())
    } else {
        marked('9', c)
    }
}

/// All that a path is compared by.
pub(crate) fn route(path: &str) -> (r: Vec<Vec<char>>)
    ensures
        text::rows(r@) == route_of(path@),
{
    let s = text::chars_of(path);
    let mut out: Vec<Vec<char>> = Vec::new();
    add_volume(&mut out, &s);
    add_start(&mut out, &s);
    let cs = paths::split_body(paths::body(&s), paths::is_verbatim(&s));
    let ghost start = text::rows(out@);
    let ghost all = paths::components(paths::body_of(s@), paths::verbatim(s@)).map_values(
        |c: Seq<char>| part_of(c),
    );
    assert(start =~= volume_parts(s@) + start_parts(s@));
    assert(start + all.take(0) =~= start);
    let mut i: usize = 0;
    while i < cs.len()
        invariant
            i <= cs@.len(),
            text::rows(cs@) == paths::components(paths::body_of(s@), paths::verbatim(s@)),
            all == text::rows(cs@).map_values(|c: Seq<char>| part_of(c)),
            text::rows(out@) == start + all.take(i as int),
        decreases cs@.len() - i,
    {
        let ghost was = text::rows(out@);
        out.push(part(&cs[i]));
        proof {
            assert(all.take(i as int + 1) =~= all.take(i as int).push(all[i as int]));
            assert(all[i as int] == part_of(cs@[i as int]@));
            assert(text::rows(out@) =~= was.push(all[i as int]));
        }
        i += 1;
    }
    assert(all.take(i as int) =~= all);
    out
}

/// Whether one path comes before another, by what they are compared by.
pub(crate) fn is_ahead(a: &Vec<Vec<char>>, b: &Vec<Vec<char>>) -> (r: bool)
    ensures
        r == ahead(text::rows(a@), text::rows(b@)),
{
    let ghost x = text::rows(a@);
    let ghost y = text::rows(b@);
    let mut i: usize = 0;
    assert(x.skip(0) =~= x);
    assert(y.skip(0) =~= y);
    loop
        invariant
            x == text::rows(a@),
            y == text::rows(b@),
            i <= a@.len(),
            i <= b@.len(),
            ahead(x, y) == ahead(x.skip(i as int), y.skip(i as int)),
        decreases a@.len() - i,
    {
        if i >= b.len() {
            return false;
        }
        if i >= a.len() {
            return true;
        }
        if !text::same_chars(&a[i], &b[i]) {
            return text::is_before(&a[i], &b[i]);
        }
        assert(x.skip(i as int).skip(1) =~= x.skip(i as int + 1));
        assert(y.skip(i as int).skip(1) =~= y.skip(i as int + 1));
        i += 1;
    }
}

} // verus!
