//! What searching promises: the entries that hold all that was typed are found, those that
//! fit better stand first, and everything that can be opened can be found.

use vstd::prelude::*;
use crate::apps;
use crate::casing;
use crate::command_palette;
use crate::command_palette::{ActionView, CommandView};
use crate::config;
use crate::desktop_scan;
use crate::order;
use crate::text;
use crate::windows_list;
use crate::words;
use crate::paths;

verus! {

/// `q` stands in `s` at `at`.
pub open spec fn stands_at(s: Seq<char>, q: Seq<char>, at: int) -> bool {
    0 <= at && at + q.len() <= s.len() && forall|k: int|
        0 <= k < q.len() ==> #[trigger] q[k] == s[at + k]
}

/// The label of an entry in lower case.
pub open spec fn name(e: CommandView) -> Seq<char> {
    casing::lowercased(e.label)
}

/// What was typed, without blanks around it and in lower case.
pub open spec fn typed(query: Seq<char>) -> Seq<char> {
    casing::lowercased(text::trimmed(query))
}

/// The label begins with what was typed.
pub open spec fn label_starts(e: CommandView, query: Seq<char>) -> bool {
    stands_at(name(e), typed(query), 0)
}

/// White space, a hyphen or an underscore.
pub open spec fn parts_words(c: char) -> bool {
    text::is_white(c) || c == '-' || c == '_'
}

/// A word of the label begins with what was typed: it stands in the label at the front or
/// behind what parts words, and has nothing that parts words itself.
pub open spec fn word_starts(e: CommandView, query: Seq<char>) -> bool {
    exists|at: int| #[trigger]
        stands_at(name(e), typed(query), at) && (at == 0 || parts_words(name(e)[at - 1])) && forall|
            k: int,
        |
            0 <= k < typed(query).len() ==> !parts_words(#[trigger] typed(query)[k])
}

/// What was typed stands somewhere in the label.
pub open spec fn label_holds(e: CommandView, query: Seq<char>) -> bool {
    exists|at: int| #[trigger] stands_at(name(e), typed(query), at)
}

/// From `a` to `b` stands a word of what was typed, with white space or an end on either
/// side.
pub open spec fn word_of(query: Seq<char>, a: int, b: int) -> bool {
    &&& 0 <= a < b <= query.len()
    &&& forall|i: int| a <= i < b ==> !text::is_white(#[trigger] query[i])
    &&& a == 0 || text::is_white(query[a - 1])
    &&& b == query.len() || text::is_white(query[b])
}

/// A text stands somewhere in the label or the detail of an entry, in lower case.
pub open spec fn entry_holds(e: CommandView, x: Seq<char>) -> bool {
    exists|at: int| #[trigger]
        stands_at(casing::lowercased(e.label + seq![' '] + e.detail), casing::lowercased(x), at)
}

/// Each word of what was typed stands in the label or the detail of an entry.
pub open spec fn holds_each_word(e: CommandView, query: Seq<char>) -> bool {
    forall|a: int, b: int| #[trigger]
        word_of(query, a, b) ==> entry_holds(e, query.subrange(a, b))
}

proof fn lemma_holds(s: Seq<char>, q: Seq<char>)
    ensures
        text::holds(s, q) <==> exists|at: int| #[trigger] stands_at(s, q, at),
{
    if exists|at: int| #[trigger] stands_at(s, q, at) {
        let at = choose|at: int| #[trigger] stands_at(s, q, at);
        assert(s.subrange(at, at + q.len()) =~= q);
    }
    if text::holds(s, q) {
        let at = choose|at: int|
            0 <= at <= s.len() - q.len() && #[trigger] s.subrange(at, at + q.len()) == q;
        assert forall|k: int| 0 <= k < q.len() implies #[trigger] q[k] == s[at + k] by {
            assert(s.subrange(at, at + q.len())[k] == s[at + k]);
        }
        assert(stands_at(s, q, at));
    }
}

proof fn lemma_begins(s: Seq<char>, q: Seq<char>)
    ensures
        text::begins(s, q) <==> stands_at(s, q, 0),
{
    if stands_at(s, q, 0) {
        assert(s.take(q.len() as int) =~= q);
    }
    if text::begins(s, q) {
        assert forall|k: int| 0 <= k < q.len() implies #[trigger] q[k] == s[0 + k] by {
            assert(s.take(q.len() as int)[k] == s[k]);
        }
    }
}

proof fn lemma_word(e: CommandView, query: Seq<char>)
    requires
        typed(query).len() > 0,
    ensures
        command_palette::word_begins(name(e), typed(query)) <==> word_starts(e, query),
{
    let l = name(e);
    let q = typed(query);
    let p = words::joiner();
    let ps = words::parts(l, p);
    if command_palette::word_begins(l, q) {
        let i = choose|i: int| 0 <= i < ps.len() && text::begins(#[trigger] ps[i], q);
        let x = ps[i];
        assert(ps.contains(x));
        words::law_parts(l, p, x);
        lemma_begins(x, q);
        let (a, b) = choose|a: int, b: int| #[trigger]
            words::is_run(l, p, a, b) && x == l.subrange(a, b);
        assert forall|k: int| 0 <= k < q.len() implies #[trigger] q[k] == l[a + k] by {
            assert(x[k] == l[a + k]);
            assert(q[k] == x[0 + k]);
        }
        assert(stands_at(l, q, a));
        assert forall|k: int| 0 <= k < q.len() implies !parts_words(#[trigger] q[k]) by {
            assert(!p(l[a + k]));
        }
        assert(a == 0 || p(l[a - 1]));
    }
    if word_starts(e, query) {
        let at = choose|at: int| #[trigger]
            stands_at(l, q, at) && (at == 0 || parts_words(l[at - 1])) && forall|k: int|
                0 <= k < q.len() ==> !parts_words(#[trigger] q[k]);
        assert forall|i: int| at <= i < at + q.len() implies !p(#[trigger] l[i]) by {
            assert(q[i - at] == l[at + (i - at)]);
        }
        let end = lemma_run_end(l, p, at, at + q.len());
        let x = l.subrange(at, end);
        assert(at == 0 || p(l[at - 1]));
        assert(words::is_run(l, p, at, end));
        words::law_parts(l, p, x);
        let i = choose|i: int| 0 <= i < ps.len() && ps[i] == x;
        assert forall|k: int| 0 <= k < q.len() implies #[trigger] q[k] == x[0 + k] by {
            assert(q[k] == l[at + k]);
        }
        lemma_begins(x, q);
        assert(text::begins(ps[i], q));
    }
}

/// Where a run that has no separator up to `to` ends.
proof fn lemma_run_end(s: Seq<char>, p: spec_fn(char) -> bool, from: int, to: int) -> (end: int)
    requires
        0 <= from <= to <= s.len(),
        forall|i: int| from <= i < to ==> !p(#[trigger] s[i]),
    ensures
        to <= end <= s.len(),
        forall|i: int| from <= i < end ==> !p(#[trigger] s[i]),
        end == s.len() || p(s[end]),
    decreases s.len() - to,
{
    if to == s.len() || p(s[to]) {
        to
    } else {
        lemma_run_end(s, p, from, to + 1)
    }
}

proof fn lemma_matched(e: CommandView, query: Seq<char>)
    ensures
        command_palette::matched(e, query) <==> holds_each_word(e, query),
{
    let p = words::white();
    let ps = words::parts(query, p);
    let hay = casing::lowercased(e.label + seq![' '] + e.detail);
    if command_palette::matched(e, query) {
        assert forall|a: int, b: int| #[trigger] word_of(query, a, b) implies entry_holds(
            e,
            query.subrange(a, b),
        ) by {
            let x = query.subrange(a, b);
            assert(words::is_run(query, p, a, b));
            words::law_parts(query, p, x);
            let i = choose|i: int| 0 <= i < ps.len() && ps[i] == x;
            assert(ps[i].len() > 0);
            lemma_holds(hay, casing::lowercased(x));
        }
    }
    if holds_each_word(e, query) {
        assert forall|i: int| 0 <= i < ps.len() implies (#[trigger] ps[i]).len() == 0 || text::holds(
            command_palette::searched(e),
            casing::lowercased(ps[i]),
        ) by {
            let x = ps[i];
            assert(ps.contains(x));
            words::law_parts(query, p, x);
            let (a, b) = choose|a: int, b: int| #[trigger]
                words::is_run(query, p, a, b) && x == query.subrange(a, b);
            if x.len() > 0 {
                assert forall|k: int| a <= k < b implies !text::is_white(#[trigger] query[k]) by {
                    assert(!p(query[k]));
                }
                assert(a == 0 || p(query[a - 1]));
                assert(b == query.len() || p(query[b]));
                assert(word_of(query, a, b));
                assert(entry_holds(e, x));
                lemma_holds(hay, casing::lowercased(x));
            }
        }
    }
}

/// What is found is what holds every word that was typed, in its label or its detail,
/// whatever the case of letters.
pub proof fn law_match_holds_each_word(e: CommandView, query: Seq<char>)
    ensures
        command_palette::matched(e, query) <==> holds_each_word(e, query),
{
    lemma_matched(e, query);
}

/// The numbers of two entries are in the order in which they fit: one whose label begins
/// with what was typed has the least, then one with a word that does, then one that has it
/// elsewhere in the label, and one that has it in its detail alone the most.
pub proof fn law_score(a: CommandView, b: CommandView, query: Seq<char>)
    requires
        typed(query).len() > 0,
    ensures
        label_starts(a, query) && !label_starts(b, query) ==> command_palette::rank(a, query)
            < command_palette::rank(b, query),
        word_starts(a, query) && !word_starts(b, query) && !label_starts(b, query)
            ==> command_palette::rank(a, query) < command_palette::rank(b, query),
        label_holds(a, query) && !label_holds(b, query) ==> command_palette::rank(a, query)
            < command_palette::rank(b, query),
        alike_in_fit(a, b, query) ==> command_palette::rank(a, query) == command_palette::rank(
            b,
            query,
        ),
{
    lemma_word(a, query);
    lemma_word(b, query);
    lemma_begins(name(a), typed(query));
    lemma_begins(name(b), typed(query));
    lemma_holds(name(a), typed(query));
    lemma_holds(name(b), typed(query));
}

/// Two entries have what was typed in the same kind of place.
pub open spec fn alike_in_fit(a: CommandView, b: CommandView, query: Seq<char>) -> bool {
    &&& label_starts(a, query) == label_starts(b, query)
    &&& label_starts(a, query) || {
        &&& word_starts(a, query) == word_starts(b, query)
        &&& word_starts(a, query) || label_holds(a, query) == label_holds(b, query)
    }
}

/// The best match stands first. No entry stands behind one that fits less well: neither one
/// whose label begins with what was typed behind one whose label does not, nor one with a
/// word that begins so behind one without, nor one that has it in its label behind one that
/// does not. Entries that fit equally well stand in the order of their labels.
pub proof fn law_best_match_first(es: Seq<CommandView>, query: Seq<char>, limit: nat, i: int, j: int)
    requires
        0 <= i < j < command_palette::results(es, query, limit).len(),
    ensures
        ({
            let x = command_palette::results(es, query, limit)[i];
            let y = command_palette::results(es, query, limit)[j];
            &&& typed(query).len() > 0 && label_starts(y, query) ==> label_starts(x, query)
            &&& typed(query).len() > 0 && word_starts(y, query) ==> word_starts(x, query)
                || label_starts(x, query)
            &&& typed(query).len() > 0 && label_holds(y, query) ==> label_holds(x, query)
            &&& typed(query).len() == 0 || alike_in_fit(x, y, query) ==> !text::before(
                name(y),
                name(x),
            )
        }),
{
    let r = command_palette::results(es, query, limit);
    let x = r[i];
    let y = r[j];
    command_palette::law_results(es, query, limit);
    assert(!command_palette::by_rank(query)(y, x));
    lemma_starts_hold(x, query);
    lemma_starts_hold(y, query);
    if typed(query).len() > 0 {
        law_score(y, x, query);
        law_score(x, y, query);
    }
}

proof fn lemma_starts_hold(e: CommandView, query: Seq<char>)
    ensures
        label_starts(e, query) ==> label_holds(e, query),
        word_starts(e, query) ==> label_holds(e, query),
{
    if word_starts(e, query) {
        let at = choose|at: int| #[trigger]
            stands_at(name(e), typed(query), at) && (at == 0 || parts_words(name(e)[at - 1]))
                && forall|k: int|
                0 <= k < typed(query).len() ==> !parts_words(#[trigger] typed(query)[k]);
        assert(stands_at(name(e), typed(query), at));
    }
}

proof fn lemma_filter(es: Seq<CommandView>, query: Seq<char>)
    ensures
        command_palette::matches_of(es, query) == es.filter(
            |e: CommandView| holds_each_word(e, query),
        ),
    decreases es.len(),
{
    reveal(Seq::filter);
    if es.len() > 0 {
        lemma_filter(es.drop_last(), query);
        lemma_matched(es.last(), query);
    }
}

/// The entries that hold every word that was typed are shown, each as often as it is there,
/// and no others; where there are more than the limit, as many as that are shown, and none
/// that is left out fits better than one that is shown.
pub proof fn law_matches_are_shown(es: Seq<CommandView>, query: Seq<char>, limit: nat)
    ensures
        ({
            let hits = es.filter(|e: CommandView| holds_each_word(e, query));
            let r = command_palette::results(es, query, limit);
            &&& hits.len() <= limit ==> r.to_multiset() == hits.to_multiset()
            &&& hits.len() > limit ==> r.len() == limit
            &&& r.to_multiset().subset_of(hits.to_multiset())
            &&& forall|e: CommandView, i: int|
                0 <= i < r.len() && es.contains(e) && holds_each_word(e, query) && !r.contains(e)
                    && typed(query).len() > 0 ==> {
                    let x = #[trigger] r[i];
                    &&& #[trigger] label_starts(e, query) ==> label_starts(x, query)
                    &&& word_starts(e, query) ==> word_starts(x, query) || label_starts(x, query)
                    &&& label_holds(e, query) ==> label_holds(x, query)
                    &&& alike_in_fit(x, e, query) ==> !text::before(name(e), name(x))
                }
        }),
{
    broadcast use vstd::seq_lib::group_to_multiset_ensures;

    lemma_filter(es, query);
    let hits = command_palette::matches_of(es, query);
    let lt = command_palette::by_rank(query);
    let all = order::arranged(hits, lt);
    let r = command_palette::results(es, query, limit);
    order::lemma_arranged_multiset(hits, lt);
    order::lemma_arranged_len(hits, lt);
    command_palette::law_results(es, query, hits.len());
    command_palette::law_results(es, query, limit);
    assert(command_palette::results(es, query, hits.len()) == all);
    if hits.len() > limit {
        let rest = all.skip(limit as int);
        assert(all =~= r + rest);
        vstd::seq_lib::lemma_multiset_commutative(r, rest);
    }
    assert forall|e: CommandView, i: int|
        0 <= i < r.len() && es.contains(e) && holds_each_word(e, query) && !r.contains(e) && typed(
            query,
        ).len() > 0 implies {
        let x = #[trigger] r[i];
        &&& #[trigger] label_starts(e, query) ==> label_starts(x, query)
        &&& word_starts(e, query) ==> word_starts(x, query) || label_starts(x, query)
        &&& label_holds(e, query) ==> label_holds(x, query)
        &&& alike_in_fit(x, e, query) ==> !text::before(name(e), name(x))
    } by {
        lemma_matched(e, query);
        assert(all.contains(e));
        let j = choose|j: int| 0 <= j < all.len() && all[j] == e;
        if j < r.len() {
            assert(r[j] == e);
        }
        law_best_match_first(es, query, hits.len(), i, j);
    }
}

/// An entry opens a pinned item: it has its label, where it has one, and opens what is
/// launched for it.
pub open spec fn opens_pinned(
    e: CommandView,
    spec: config::ItemView,
    app_path: Option<Seq<char>>,
) -> bool {
    &&& apps::resolved_of(spec, app_path) matches Some(p) && e.action == ActionView::OpenPath(p)
        && e.detail == p
    &&& spec.label matches Some(l) ==> e.label == l
}

/// An entry goes to an open window and is called as that is.
pub open spec fn goes_to_window(e: CommandView, w: windows_list::WindowView) -> bool {
    e.label == w.title && e.action == ActionView::ActivateWindow(w.hwnd)
}

/// An entry opens a program of the desktop and is called as that is.
pub open spec fn opens_program(e: CommandView, p: desktop_scan::EntryView) -> bool {
    p.path is Some && e.label == p.label && e.detail == p.path->0 && e.action
        == ActionView::OpenPath(p.path->0)
}

/// An entry is there, or one that differs from it in the case of letters alone.
pub open spec fn found_among(es: Seq<CommandView>, e: CommandView) -> bool {
    exists|i: int|
        0 <= i < es.len() && text::lower((#[trigger] es[i]).label) == text::lower(e.label)
            && text::lower(es[i].detail) == text::lower(e.detail)
}

proof fn lemma_deduped(es: Seq<CommandView>)
    ensures
        forall|i: int|
            0 <= i < es.len() ==> found_among(command_palette::deduped(es), #[trigger] es[i]),
        forall|e: CommandView| #[trigger]
            command_palette::deduped(es).contains(e) ==> es.contains(e),
    decreases es.len(),
{
    if es.len() > 0 {
        let f = es.drop_last();
        let d = command_palette::deduped(f);
        let r = command_palette::deduped(es);
        lemma_deduped(f);
        assert forall|i: int| 0 <= i < es.len() implies found_among(r, #[trigger] es[i]) by {
            if i < f.len() {
                assert(f[i] == es[i]);
                assert(found_among(d, f[i]));
                let k = choose|k: int|
                    0 <= k < d.len() && text::lower((#[trigger] d[k]).label) == text::lower(
                        f[i].label,
                    ) && text::lower(d[k].detail) == text::lower(f[i].detail);
                assert(r[k] == d[k]);
            } else {
                assert(text::lower(r[r.len() - 1].label) == text::lower(es[i].label));
            }
        }
        assert forall|e: CommandView| #[trigger] r.contains(e) implies es.contains(e) by {
            let k = choose|k: int| 0 <= k < r.len() && r[k] == e;
            if k < d.len() {
                assert(d[k] == e);
                assert(d.contains(e));
                let m = choose|m: int| 0 <= m < f.len() && f[m] == e;
                assert(es[m] == e);
            } else {
                assert(es[es.len() - 1] == e);
            }
        }
    }
}

proof fn lemma_pinned_entries(
    specs: Seq<config::ItemView>,
    app_paths: Seq<Option<Seq<char>>>,
    e: CommandView,
)
    requires
        specs.len() == app_paths.len(),
    ensures
        command_palette::pinned_entries(specs, app_paths).contains(e) ==> exists|i: int|
            0 <= i < specs.len() && opens_pinned(e, #[trigger] specs[i], app_paths[i]),
        forall|i: int|
            0 <= i < specs.len() && apps::resolved_of(#[trigger] specs[i], app_paths[i]) is Some
                ==> exists|k: int|
                0 <= k < command_palette::pinned_entries(specs, app_paths).len() && opens_pinned(
                    #[trigger] command_palette::pinned_entries(specs, app_paths)[k],
                    specs[i],
                    app_paths[i],
                ),
    decreases specs.len(),
{
    if specs.len() > 0 {
        let fs = specs.drop_last();
        let fa = app_paths.drop_last();
        let f = command_palette::pinned_entries(fs, fa);
        let r = command_palette::pinned_entries(specs, app_paths);
        lemma_pinned_entries(fs, fa, e);
        if r.contains(e) {
            let k = choose|k: int| 0 <= k < r.len() && r[k] == e;
            if k < f.len() {
                assert(f[k] == e);
                assert(f.contains(e));
                let i = choose|i: int|
                    0 <= i < fs.len() && opens_pinned(e, #[trigger] fs[i], fa[i]);
                assert(specs[i] == fs[i]);
            } else {
                assert(opens_pinned(e, specs[specs.len() - 1], app_paths[specs.len() - 1]));
            }
        }
        assert forall|i: int|
            0 <= i < specs.len() && apps::resolved_of(#[trigger] specs[i], app_paths[i]) is Some implies exists|
            k: int,
        | 0 <= k < r.len() && opens_pinned(#[trigger] r[k], specs[i], app_paths[i]) by {
            if i < fs.len() {
                assert(fs[i] == specs[i]);
                let k = choose|k: int|
                    0 <= k < f.len() && opens_pinned(#[trigger] f[k], fs[i], fa[i]);
                assert(r[k] == f[k]);
            } else {
                assert(opens_pinned(r[f.len() as int], specs[i], app_paths[i]));
            }
        }
    }
}

proof fn lemma_program_entries(es: Seq<desktop_scan::EntryView>, e: CommandView)
    ensures
        command_palette::program_entries(es).contains(e) ==> exists|i: int|
            0 <= i < es.len() && opens_program(e, #[trigger] es[i]),
        forall|i: int|
            0 <= i < es.len() && (#[trigger] es[i]).path is Some ==> exists|k: int|
                0 <= k < command_palette::program_entries(es).len() && opens_program(
                    #[trigger] command_palette::program_entries(es)[k],
                    es[i],
                ),
    decreases es.len(),
{
    if es.len() > 0 {
        let fs = es.drop_last();
        let f = command_palette::program_entries(fs);
        let r = command_palette::program_entries(es);
        lemma_program_entries(fs, e);
        if r.contains(e) {
            let k = choose|k: int| 0 <= k < r.len() && r[k] == e;
            if k < f.len() {
                assert(f[k] == e);
                assert(f.contains(e));
                let i = choose|i: int| 0 <= i < fs.len() && opens_program(e, #[trigger] fs[i]);
                assert(es[i] == fs[i]);
            } else {
                assert(opens_program(e, es[es.len() - 1]));
            }
        }
        assert forall|i: int|
            0 <= i < es.len() && (#[trigger] es[i]).path is Some implies exists|k: int|
            0 <= k < r.len() && opens_program(#[trigger] r[k], es[i]) by {
            if i < fs.len() {
                assert(fs[i] == es[i]);
                let k = choose|k: int| 0 <= k < f.len() && opens_program(#[trigger] f[k], fs[i]);
                assert(r[k] == f[k]);
            } else {
                assert(opens_program(r[f.len() as int], es[i]));
            }
        }
    }
}

/// All that can be opened can be found, and nothing else: every open window, every program
/// of the desktop that has a path and every pinned item with something to launch is there,
/// up to the case of letters; and each entry is one of these and does what it says.
pub proof fn law_all_can_be_found(
    specs: Seq<config::ItemView>,
    app_paths: Seq<Option<Seq<char>>>,
    ws: Seq<windows_list::WindowView>,
    programs: Seq<desktop_scan::EntryView>,
    e: CommandView,
)
    requires
        specs.len() == app_paths.len(),
    ensures
        ({
            let all = command_palette::collected(specs, app_paths, ws, programs);
            &&& (exists|i: int| 0 <= i < ws.len() && goes_to_window(e, #[trigger] ws[i]) && e.detail
                == "运行中的窗口"@) ==> found_among(all, e)
            &&& (exists|i: int| 0 <= i < programs.len() && opens_program(e, #[trigger] programs[i]))
                ==> found_among(all, e)
            &&& (exists|i: int|
                0 <= i < specs.len() && opens_pinned(e, #[trigger] specs[i], app_paths[i])
                    && specs[i].label is Some) ==> found_among(all, e)
            &&& all.contains(e) ==> (exists|i: int|
                0 <= i < ws.len() && goes_to_window(e, #[trigger] ws[i])) || (exists|i: int|
                0 <= i < programs.len() && opens_program(e, #[trigger] programs[i])) || (exists|
                i: int,
            | 0 <= i < specs.len() && opens_pinned(e, #[trigger] specs[i], app_paths[i]))
        }),
{
    let a = command_palette::pinned_entries(specs, app_paths);
    let b = command_palette::window_entries(ws);
    let c = command_palette::program_entries(programs);
    let raw = a + b + c;
    let lt = command_palette::by_name();
    let sorted = order::arranged(raw, lt);
    let all = command_palette::collected(specs, app_paths, ws, programs);
    lemma_deduped(sorted);
    lemma_pinned_entries(specs, app_paths, e);
    lemma_program_entries(programs, e);
    order::lemma_arranged_contains(raw, lt, e);
    if all.contains(e) {
        assert(sorted.contains(e));
        let k = choose|k: int| 0 <= k < raw.len() && raw[k] == e;
        if k < a.len() {
            assert(a[k] == e);
            assert(a.contains(e));
        } else if k < a.len() + b.len() {
            assert(b[k - a.len()] == e);
            assert(goes_to_window(e, ws[k - a.len()]));
        } else {
            assert(c[k - a.len() - b.len()] == e);
            assert(c.contains(e));
        }
    }
    assert(sorted.contains(e) ==> found_among(all, e)) by {
        if sorted.contains(e) {
            let k = choose|k: int| 0 <= k < sorted.len() && sorted[k] == e;
            assert(found_among(all, sorted[k]));
        }
    }
    if exists|i: int| 0 <= i < ws.len() && goes_to_window(e, #[trigger] ws[i]) && e.detail
        == "运行中的窗口"@ {
        let i = choose|i: int|
            0 <= i < ws.len() && goes_to_window(e, #[trigger] ws[i]) && e.detail == "运行中的窗口"@;
        assert(b[i] == e);
        assert(raw[a.len() + i] == e);
    }
    if exists|i: int| 0 <= i < programs.len() && opens_program(e, #[trigger] programs[i]) {
        let i = choose|i: int| 0 <= i < programs.len() && opens_program(e, #[trigger] programs[i]);
        let k = choose|k: int| 0 <= k < c.len() && opens_program(#[trigger] c[k], programs[i]);
        assert(c[k] == e);
        assert(raw[a.len() + b.len() + k] == e);
    }
    if exists|i: int|
        0 <= i < specs.len() && opens_pinned(e, #[trigger] specs[i], app_paths[i])
            && specs[i].label is Some {
        let i = choose|i: int|
            0 <= i < specs.len() && opens_pinned(e, #[trigger] specs[i], app_paths[i])
                && specs[i].label is Some;
        let k = choose|k: int|
            0 <= k < a.len() && opens_pinned(#[trigger] a[k], specs[i], app_paths[i]);
        assert(a[k] == e);
        assert(raw[k] == e);
    }
}

/// What has no label is called by its file without the extension, or else by the file.
pub proof fn law_name_for(path: Seq<char>, otherwise: Seq<char>)
    ensures
        paths::stem_of(path) is Some ==> command_palette::name_for(path, otherwise)
            == paths::stem_of(path)->0,
        paths::stem_of(path) is None && paths::name_of(path) is Some ==> command_palette::name_for(
            path,
            otherwise,
        ) == paths::name_of(path)->0,
        paths::stem_of(path) is None && paths::name_of(path) is None ==> command_palette::name_for(
            path,
            otherwise,
        ) == otherwise,
{
}

} // verus!
