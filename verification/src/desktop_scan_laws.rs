//! What holds of the scan of the desktop as a whole.

use vstd::prelude::*;
use crate::casing;
use crate::content::ContentKind;
use crate::desktop_scan;
use crate::desktop_scan::{EntryView, ScanView};
use crate::facts;
use crate::numbers;
use crate::order;
use crate::text;

verus! {

proof fn lemma_unescape_after(s: Seq<char>, t: Seq<char>)
    ensures
        desktop_scan::unescaped(desktop_scan::escaped(s) + t) == s + desktop_scan::unescaped(t),
    decreases s.len(),
{
    if s.len() == 0 {
        assert(desktop_scan::escaped(s) + t =~= t);
        assert(s + desktop_scan::unescaped(t) =~= desktop_scan::unescaped(t));
    } else {
        let front = s.drop_last();
        let c = s.last();
        let e = desktop_scan::escape_of(c);
        lemma_unescape_after(front, e + t);
        assert(desktop_scan::escaped(s) + t =~= desktop_scan::escaped(front) + (e + t));
        if e.len() == 2 {
            assert((e + t).skip(2) =~= t);
        } else {
            assert((e + t).skip(1) =~= t);
        }
        assert(desktop_scan::unescaped(e + t) =~= seq![c] + desktop_scan::unescaped(t));
        assert(front + (seq![c] + desktop_scan::unescaped(t)) =~= s + desktop_scan::unescaped(t));
    }
}

/// What was written can be read again, whatever it holds.
pub proof fn law_unescaped_escaped(s: Seq<char>)
    ensures
        desktop_scan::unescaped(desktop_scan::escaped(s)) == s,
{
    lemma_unescape_after(s, seq![]);
    assert(desktop_scan::escaped(s) + Seq::<char>::empty() =~= desktop_scan::escaped(s));
    assert(s + desktop_scan::unescaped(seq![]) =~= s);
}

/// A written text stays within its field and its line.
pub proof fn law_escaped_is_one_field(s: Seq<char>)
    ensures
        facts::lacks(desktop_scan::escaped(s), '\t'),
        facts::lacks(desktop_scan::escaped(s), '\n'),
        facts::lacks(desktop_scan::escaped(s), '\r'),
    decreases s.len(),
{
    if s.len() > 0 {
        law_escaped_is_one_field(s.drop_last());
    }
}

/// A kind is found under its own code.
pub proof fn law_kind_of_code(kind: ContentKind)
    ensures
        desktop_scan::kind_for(desktop_scan::code_of(kind)) == Some(kind),
{
    lemma_codes(kind);
}

proof fn lemma_codes(kind: ContentKind)
    ensures
        desktop_scan::kind_for(desktop_scan::code_of(kind)) == Some(kind),
        facts::lacks(desktop_scan::code_of(kind), '\t'),
        facts::is_line(desktop_scan::code_of(kind)),
        desktop_scan::code_of(kind).len() > 0,
{
    reveal_strlit("app");
    reveal_strlit("shortcut");
    reveal_strlit("folder");
    reveal_strlit("image");
    reveal_strlit("file");
    let c = desktop_scan::code_of(kind);
    reveal_with_fuel(facts::word_upto, 10);
    facts::lemma_word(c, c.len());
    assert("app"@[0] == 'a' && "shortcut"@[0] == 's' && "folder"@.len() == 6 && "image"@[0] == 'i'
        && "file"@.len() == 4);
    assert forall|i: int| 0 <= i < c.len() implies #[trigger] c[i] != '\t' by {}
}

proof fn lemma_piece(a: Seq<char>, b: Seq<char>)
    requires
        facts::lacks(a, '\t'),
    ensures
        text::pieces(a + seq!['\t'] + b, '\t') == seq![a] + text::pieces(b, '\t'),
{
    let s = a + seq!['\t'] + b;
    facts::lemma_cut_at(a, '\t', b);
    assert(s.take(a.len() as int) =~= a);
    assert(s.skip(a.len() as int + 1) =~= b);
}

proof fn lemma_last_piece(a: Seq<char>)
    requires
        facts::lacks(a, '\t'),
    ensures
        text::pieces(a, '\t') == seq![a],
{
    facts::lemma_no_cut(a, '\t');
}

proof fn lemma_words()
    ensures
        "entry\t"@ == "entry"@ + seq!['\t'],
        "written\t"@ == "written"@ + seq!['\t'],
        "signature\t"@ == "signature"@ + seq!['\t'],
        "entry"@.len() == 5,
        "written"@.len() == 7,
        "signature"@.len() == 9,
        facts::lacks("entry"@, '\t'),
        facts::lacks("written"@, '\t'),
        facts::lacks("signature"@, '\t'),
        facts::lacks("entry"@, '\n'),
        facts::lacks("written"@, '\n'),
        facts::lacks("signature"@, '\n'),
{
    reveal_strlit("entry");
    reveal_strlit("written");
    reveal_strlit("signature");
    reveal_strlit("entry\t");
    reveal_strlit("written\t");
    reveal_strlit("signature\t");
    assert("entry\t"@ =~= "entry"@ + seq!['\t']);
    assert("written\t"@ =~= "written"@ + seq!['\t']);
    assert("signature\t"@ =~= "signature"@ + seq!['\t']);
}

proof fn lemma_heading()
    ensures
        facts::lacks("# FeatherDock drawer scan cache"@, '\n'),
        facts::lacks("# FeatherDock drawer scan cache"@, '\t'),
        "# FeatherDock drawer scan cache"@.len() == 31,
        "# FeatherDock drawer scan cache"@.last() == 'e',
{
    reveal_strlit("# FeatherDock drawer scan cache");
    let s = "# FeatherDock drawer scan cache"@;
    reveal_with_fuel(facts::one_line_upto, 40);
    facts::lemma_one_line(s, s.len());
    assert forall|i: int| 0 <= i < s.len() implies #[trigger] s[i] != '\t' by {}
}

proof fn lemma_heading_line(was: ScanView)
    ensures
        desktop_scan::after_line(
            was,
            text::pieces("# FeatherDock drawer scan cache"@, '\t'),
        ) == Some(was),
{
    lemma_heading();
    lemma_words();
    lemma_last_piece("# FeatherDock drawer scan cache"@);
}

proof fn lemma_digits(n: nat)
    ensures
        facts::lacks(numbers::decimal(n), '\t'),
        facts::lacks(numbers::decimal(n), '\n'),
        facts::lacks(numbers::decimal(n), '\r'),
        numbers::decimal(n).len() > 0,
    decreases n,
{
    if n >= 10 {
        lemma_digits(n / 10);
    }
}

proof fn lemma_written_line(was: ScanView, n: nat)
    requires
        n <= u64::MAX,
    ensures
        desktop_scan::after_line(
            was,
            text::pieces("written\t"@ + numbers::decimal(n), '\t'),
        ) == Some(ScanView { written: Some(n), ..was }),
        facts::is_line("written\t"@ + numbers::decimal(n)),
{
    lemma_words();
    lemma_digits(n);
    numbers::law_number_of_decimal(n, u64::MAX as nat);
    let d = numbers::decimal(n);
    lemma_piece("written"@, d);
    lemma_last_piece(d);
    assert("written\t"@ + d =~= "written"@ + seq!['\t'] + d);
    assert(seq!["written"@] + seq![d] =~= seq!["written"@, d]);
    assert(("written\t"@ + d).last() == d.last());
}

proof fn lemma_signature_line(was: ScanView, sig: Seq<char>)
    ensures
        desktop_scan::after_line(
            was,
            text::pieces("signature\t"@ + desktop_scan::escaped(sig), '\t'),
        ) == Some(ScanView { signature: Some(sig), ..was }),
        facts::is_line("signature\t"@ + desktop_scan::escaped(sig)),
{
    lemma_words();
    law_escaped_is_one_field(sig);
    law_unescaped_escaped(sig);
    let e = desktop_scan::escaped(sig);
    lemma_piece("signature"@, e);
    lemma_last_piece(e);
    assert("signature\t"@ + e =~= "signature"@ + seq!['\t'] + e);
    assert(seq!["signature"@] + seq![e] =~= seq!["signature"@, e]);
    if e.len() > 0 {
        assert(("signature\t"@ + e).last() == e.last());
    }
}

/// A file, as the cache remembers it.
pub open spec fn remembered(e: EntryView) -> EntryView {
    EntryView { pidl: None, ..e }
}

/// The files among these, as the cache remembers them.
pub open spec fn files(es: Seq<EntryView>) -> Seq<EntryView>
    decreases es.len(),
{
    if es.len() == 0 {
        seq![]
    } else if es.last().path is Some {
        files(es.drop_last()).push(remembered(es.last()))
    } else {
        files(es.drop_last())
    }
}

proof fn lemma_entry_line(was: ScanView, e: EntryView)
    requires
        e.path is Some,
    ensures
        desktop_scan::after_line(was, text::pieces(desktop_scan::entry_line(e), '\t')) == Some(
            ScanView { entries: was.entries.push(remembered(e)), ..was },
        ),
        facts::is_line(desktop_scan::entry_line(e)),
{
    lemma_words();
    let a = desktop_scan::escaped(e.label);
    let b = desktop_scan::escaped(e.key);
    let c = desktop_scan::escaped(e.path->Some_0);
    let d = desktop_scan::code_of(e.kind);
    law_escaped_is_one_field(e.label);
    law_escaped_is_one_field(e.key);
    law_escaped_is_one_field(e.path->Some_0);
    law_unescaped_escaped(e.label);
    law_unescaped_escaped(e.key);
    law_unescaped_escaped(e.path->Some_0);
    lemma_codes(e.kind);
    let t = seq!['\t'];
    let r3 = c + t + d;
    let r2 = b + t + r3;
    let r1 = a + t + r2;
    let line = desktop_scan::entry_line(e);
    assert(line =~= "entry"@ + t + r1);
    lemma_piece("entry"@, r1);
    lemma_piece(a, r2);
    lemma_piece(b, r3);
    lemma_piece(c, d);
    lemma_last_piece(d);
    let p = text::pieces(line, '\t');
    assert(p =~= seq!["entry"@, a, b, c, d]);
    assert(line.last() == d.last());
    assert forall|i: int| 0 <= i < line.len() implies #[trigger] line[i] != '\n' by {
        let n0 = 6int;
        let n1 = n0 + a.len() + 1;
        let n2 = n1 + b.len() + 1;
        let n3 = n2 + c.len() + 1;
        if i < 5 {
            assert(line[i] == "entry"@[i]);
        } else if i == 5 {
        } else if i < n1 - 1 {
            assert(line[i] == a[i - n0]);
        } else if i == n1 - 1 {
        } else if i < n2 - 1 {
            assert(line[i] == b[i - n1]);
        } else if i == n2 - 1 {
        } else if i < n3 - 1 {
            assert(line[i] == c[i - n2]);
        } else if i == n3 - 1 {
        } else {
            assert(line[i] == d[i - n3]);
        }
    }
}

proof fn lemma_entries(head: Seq<Seq<char>>, was: ScanView, es: Seq<EntryView>)
    requires
        desktop_scan::read_lines(head) == Some(was),
        facts::are_lines(head),
    ensures
        desktop_scan::read_lines(head + desktop_scan::entry_lines(es)) == Some(
            ScanView { entries: was.entries + files(es), ..was },
        ),
        facts::are_lines(head + desktop_scan::entry_lines(es)),
    decreases es.len(),
{
    if es.len() == 0 {
        assert(head + desktop_scan::entry_lines(es) =~= head);
        assert(was.entries + files(es) =~= was.entries);
    } else {
        lemma_entries(head, was, es.drop_last());
        let front = head + desktop_scan::entry_lines(es.drop_last());
        let all = head + desktop_scan::entry_lines(es);
        if es.last().path is Some {
            let line = desktop_scan::entry_line(es.last());
            let mid = ScanView { entries: was.entries + files(es.drop_last()), ..was };
            lemma_entry_line(mid, es.last());
            assert(all =~= front.push(line));
            assert(all.drop_last() =~= front);
            assert(mid.entries.push(remembered(es.last())) =~= was.entries + files(es));
            assert forall|i: int| 0 <= i < all.len() implies facts::is_line(#[trigger] all[i]) by {
                if i < front.len() {
                    assert(facts::is_line(front[i]));
                }
            }
        } else {
            assert(all =~= front);
        }
    }
}

/// A remembered scan is read as it was written: the time, the signature and all files,
/// whatever their names hold.
pub proof fn law_rendered_parses(seconds: nat, signature: Seq<char>, es: Seq<EntryView>)
    requires
        seconds <= u64::MAX,
    ensures
        desktop_scan::parsed(desktop_scan::rendered(seconds, signature, es)) == Some(
            ScanView { written: Some(seconds), signature: Some(signature), entries: files(es) },
        ),
{
    let l0 = "# FeatherDock drawer scan cache"@;
    let l1 = "written\t"@ + numbers::decimal(seconds);
    let l2 = "signature\t"@ + desktop_scan::escaped(signature);
    let head = seq![l0, l1, l2];
    let v0 = desktop_scan::nothing_read();
    let v1 = ScanView { written: Some(seconds), ..v0 };
    let v2 = ScanView { signature: Some(signature), ..v1 };
    lemma_heading();
    lemma_heading_line(v0);
    lemma_written_line(v0, seconds);
    lemma_signature_line(v1, signature);
    assert(head.drop_last() =~= seq![l0, l1]);
    assert(head.drop_last().drop_last() =~= seq![l0]);
    assert(head.drop_last().drop_last().drop_last() =~= seq![]);
    reveal_with_fuel(desktop_scan::read_lines, 4);
    assert(desktop_scan::read_lines(seq![l0]) == Some(v0));
    assert(desktop_scan::read_lines(seq![l0, l1]) == Some(v1));
    assert(desktop_scan::read_lines(head) == Some(v2));
    assert(facts::is_line(l0));
    assert(facts::are_lines(head)) by {
        assert forall|i: int| 0 <= i < head.len() implies facts::is_line(#[trigger] head[i]) by {
            if i == 0 {
            } else if i == 1 {
            } else {
            }
        }
    }
    lemma_entries(head, v2, es);
    facts::lemma_lines_of_unlines(desktop_scan::cache_lines(seconds, signature, es));
    assert(v2.entries + files(es) =~= files(es));
}

/// The places that the drawer always shows are there, once each where they were not; and
/// what was there stays, in its order.
pub proof fn law_missing_are_added(es: Seq<EntryView>, more: Seq<EntryView>)
    ensures
        ({
            let r = desktop_scan::with_missing(es, more);
            &&& es.len() <= r.len()
            &&& r.take(es.len() as int) == es
            &&& forall|i: int|
                0 <= i < more.len() ==> desktop_scan::has_key(r, (#[trigger] more[i]).key)
            &&& forall|i: int, j: int|
                es.len() <= j < r.len() && 0 <= i < j ==> (#[trigger] r[i]).key
                    != (#[trigger] r[j]).key
        }),
    decreases more.len(),
{
    let r = desktop_scan::with_missing(es, more);
    if more.len() == 0 {
        assert(r.take(es.len() as int) =~= es);
    } else {
        let front = desktop_scan::with_missing(es, more.drop_last());
        law_missing_are_added(es, more.drop_last());
        let key = more.last().key;
        if desktop_scan::has_key(front, key) {
        } else {
            assert(r.take(es.len() as int) =~= front.take(es.len() as int));
            assert(r[r.len() - 1].key == key);
            assert forall|i: int, j: int| es.len() <= j < r.len() && 0 <= i < j implies (
            #[trigger] r[i]).key != (#[trigger] r[j]).key by {
                if j < front.len() {
                    assert(front[i].key != front[j].key);
                } else {
                    assert(front[i] == r[i]);
                }
            }
        }
        assert forall|i: int| 0 <= i < more.len() implies desktop_scan::has_key(
            r,
            (#[trigger] more[i]).key,
        ) by {
            if i < more.len() - 1 {
                assert(more.drop_last()[i] == more[i]);
                let k = choose|k: int| 0 <= k < front.len() && (#[trigger] front[k]).key
                    == more[i].key;
                assert(r[k] == front[k]);
            }
        }
    }
}

proof fn lemma_by_label()
    ensures
        order::strict_weak(desktop_scan::by_label()),
{
    let lt = desktop_scan::by_label();
    assert forall|a: EntryView| !#[trigger] lt(a, a) by {
        text::lemma_before_total(casing::lowercased(a.label), casing::lowercased(a.label));
    }
    assert forall|a: EntryView, b: EntryView, c: EntryView| #[trigger] lt(a, b) && #[trigger] lt(
        b,
        c,
    ) implies lt(a, c) by {
        text::lemma_before_trans(
            casing::lowercased(a.label),
            casing::lowercased(b.label),
            casing::lowercased(c.label),
        );
    }
    assert forall|a: EntryView, b: EntryView, c: EntryView| !#[trigger] lt(a, b) && !#[trigger] lt(
        b,
        c,
    ) implies !lt(a, c) by {
        let x = casing::lowercased(a.label);
        let y = casing::lowercased(b.label);
        let z = casing::lowercased(c.label);
        text::lemma_not_before_trans(x, y, z);
    }
}

/// Sorting keeps every entry and leaves no label after one that comes before it.
pub proof fn law_sorted(es: Seq<EntryView>)
    ensures
        desktop_scan::sorted(es).to_multiset() == es.to_multiset(),
        order::in_order(desktop_scan::sorted(es), desktop_scan::by_label()),
{
    lemma_by_label();
    order::lemma_arranged_multiset(es, desktop_scan::by_label());
    order::lemma_arranged_in_order(es, desktop_scan::by_label());
}

/// The drawer shows programs of the desktop and the places that it always shows, and
/// every program.
pub proof fn law_drawer_holds_programs(scanned: Seq<EntryView>, places: Seq<EntryView>, e: EntryView)
    ensures
        scanned.contains(e) && desktop_scan::is_program(e) ==> desktop_scan::scan_shown(
            scanned,
            places,
        ).contains(e),
        desktop_scan::scan_shown(scanned, places).contains(e) ==> (scanned.contains(e)
            && desktop_scan::is_program(e)) || places.contains(e),
{
    let a = desktop_scan::sorted(scanned);
    let b = desktop_scan::programs(a);
    let c = desktop_scan::with_missing(b, places);
    order::lemma_arranged_contains(scanned, desktop_scan::by_label(), e);
    order::lemma_arranged_contains(c, desktop_scan::by_label(), e);
    lemma_programs(a, e);
    lemma_with_missing(b, places, e);
}

proof fn lemma_programs(es: Seq<EntryView>, e: EntryView)
    ensures
        desktop_scan::programs(es).contains(e) <==> es.contains(e) && desktop_scan::is_program(e),
    decreases es.len(),
{
    if es.len() > 0 {
        let front = es.drop_last();
        lemma_programs(front, e);
        let p = desktop_scan::programs(front);
        let r = desktop_scan::programs(es);
        assert(es =~= front.push(es.last()));
        lemma_push(front, es.last(), e);
        if desktop_scan::is_program(es.last()) {
            lemma_push(p, es.last(), e);
        }
    }
}

proof fn lemma_push(s: Seq<EntryView>, x: EntryView, e: EntryView)
    ensures
        s.push(x).contains(e) <==> s.contains(e) || x == e,
{
    let t = s.push(x);
    if s.contains(e) {
        let k = choose|k: int| 0 <= k < s.len() && s[k] == e;
        assert(t[k] == e);
    }
    if x == e {
        assert(t[s.len() as int] == e);
    }
    if t.contains(e) {
        let k = choose|k: int| 0 <= k < t.len() && t[k] == e;
        if k < s.len() {
            assert(s[k] == e);
        }
    }
}

proof fn lemma_with_missing(es: Seq<EntryView>, more: Seq<EntryView>, e: EntryView)
    ensures
        es.contains(e) ==> desktop_scan::with_missing(es, more).contains(e),
        desktop_scan::with_missing(es, more).contains(e) ==> es.contains(e) || more.contains(e),
    decreases more.len(),
{
    if more.len() > 0 {
        let front = more.drop_last();
        lemma_with_missing(es, front, e);
        assert(more =~= front.push(more.last()));
        lemma_push(front, more.last(), e);
        lemma_push(desktop_scan::with_missing(es, front), more.last(), e);
    }
}

} // verus!
