//! What is promised of the drawer: which programs it shows and under which heading, where
//! they stand, and what the pointer does there.

use vstd::prelude::*;
use crate::categories::CategoryView;
use crate::content;
use crate::content::ContentKind;
use crate::desktop_scan;
use crate::drawer;
use crate::drawer::{DrawerEffect, DrawerState, EntryCommand, HeaderAction};
use crate::drawer_layout;
use crate::drawer_layout::{Layout, Metrics, SectionKind, SectionView};
use crate::drawer_view;
use crate::drawer_view::Scroller;
use crate::paths;
use crate::text;
use crate::numbers;

verus! {

/// Whether a program of the desktop has not been taken off.
pub open spec fn in_sight(hidden: Seq<Seq<char>>) -> spec_fn(desktop_scan::EntryView) -> bool {
    |d: desktop_scan::EntryView| !hidden.contains(d.key)
}

/// The drawer shows the programs of the desktop that are not taken off, in their order and
/// each with its own name, key and target.
pub proof fn law_shows_the_rest(ds: Seq<desktop_scan::EntryView>, hidden: Seq<Seq<char>>)
    ensures
        ({
            let kept = ds.filter(in_sight(hidden));
            let r = drawer::built(ds, hidden);
            &&& r.len() == kept.len()
            &&& forall|k: int|
                0 <= k < r.len() ==> (#[trigger] r[k]).label == kept[k].label && r[k].key
                    == kept[k].key && r[k].path == kept[k].path && r[k].pidl == kept[k].pidl
        }),
    decreases ds.len(),
{
    reveal(Seq::filter);
    if ds.len() > 0 {
        law_shows_the_rest(ds.drop_last(), hidden);
    }
}

/// Every directory is a folder and nothing else is; a program, a link and an image are known
/// by the extension, whatever the case of its letters.
pub proof fn law_kinds(path: Seq<char>, is_dir: bool, ext: Seq<char>)
    requires
        paths::extension_of(path) == Some(ext),
    ensures
        ({
            let k = content::kind_of(path, is_dir);
            let w = text::lower(ext);
            let program = seq!["exe"@, "com"@, "bat"@, "cmd"@];
            let link = seq!["lnk"@, "url"@];
            &&& is_dir <==> k == ContentKind::Folder
            &&& !is_dir ==> (program.contains(w) <==> k == ContentKind::Application)
            &&& !is_dir ==> (link.contains(w) <==> k == ContentKind::Shortcut)
            &&& !is_dir && (w == "png"@ || w == "jpg"@ || w == "jpeg"@ || w == "gif"@ || w
                == "bmp"@ || w == "webp"@ || w == "ico"@) ==> k == ContentKind::Image
        }),
{
    let w = text::lower(ext);
    let program = seq!["exe"@, "com"@, "bat"@, "cmd"@];
    let link = seq!["lnk"@, "url"@];
    assert(program[0] == "exe"@ && program[1] == "com"@ && program[2] == "bat"@ && program[3]
        == "cmd"@);
    assert(link[0] == "lnk"@ && link[1] == "url"@);
    reveal_strlit("exe");
    reveal_strlit("com");
    reveal_strlit("bat");
    reveal_strlit("cmd");
    reveal_strlit("lnk");
    reveal_strlit("url");
    reveal_strlit("png");
    reveal_strlit("jpg");
    reveal_strlit("jpeg");
    reveal_strlit("gif");
    reveal_strlit("bmp");
    reveal_strlit("webp");
    reveal_strlit("ico");
    assert("exe"@[0] == 'e' && "com"@[0] == 'c' && "bat"@[0] == 'b' && "cmd"@[0] == 'c');
    assert("lnk"@[0] == 'l' && "url"@[0] == 'u');
    assert("png"@[0] == 'p' && "jpg"@[0] == 'j' && "jpeg"@[0] == 'j' && "gif"@[0] == 'g' && "bmp"@[1]
        == 'm' && "bat"@[1] == 'a' && "webp"@[0] == 'w' && "ico"@[0] == 'i');
}

/// A key is in one of these rows.
pub open spec fn listed(cats: Seq<CategoryView>, key: Seq<char>) -> bool {
    exists|j: int| 0 <= j < cats.len() && (#[trigger] cats[j]).items.contains(key)
}

/// No program before this one has its key.
pub open spec fn is_first(keys: Seq<Seq<char>>, at: int) -> bool {
    forall|k: int| 0 <= k < at ==> #[trigger] keys[k] != keys[at]
}

/// A row lists one key before another.
pub open spec fn in_turn(items: Seq<Seq<char>>, a: Seq<char>, b: Seq<char>) -> bool {
    exists|p: int, q: int| 0 <= p < q < items.len() && #[trigger] items[p] == a && #[trigger] items[q]
        == b
}

/// What a section takes from one row.
pub open spec fn row_taken(
    keys: Seq<Seq<char>>,
    items: Seq<Seq<char>>,
    claimed: Seq<bool>,
    e: Seq<usize>,
    m: Seq<bool>,
) -> bool {
    &&& m.len() == keys.len()
    &&& forall|k: int|
        0 <= k < e.len() ==> (#[trigger] e[k]) < keys.len() && items.contains(keys[e[k] as int])
            && is_first(keys, e[k] as int) && !claimed[e[k] as int]
    &&& forall|a: int, b: int|
        0 <= a < b < e.len() ==> in_turn(
            items,
            keys[#[trigger] e[a] as int],
            keys[#[trigger] e[b] as int],
        )
    &&& forall|at: int|
        0 <= at < keys.len() ==> (#[trigger] m[at] <==> claimed[at] || (is_first(keys, at)
            && items.contains(keys[at])))
    &&& forall|at: int|
        0 <= at < keys.len() && !claimed[at] && #[trigger] m[at] ==> e.contains(at as usize)
}

proof fn lemma_row_taken(keys: Seq<Seq<char>>, items: Seq<Seq<char>>, claimed: Seq<bool>)
    requires
        claimed.len() == keys.len(),
        keys.len() <= usize::MAX,
    ensures
        row_taken(
            keys,
            items,
            claimed,
            drawer_layout::taken(keys, items, claimed).0,
            drawer_layout::taken(keys, items, claimed).1,
        ),
    decreases items.len(),
{
    let (e, m) = drawer_layout::taken(keys, items, claimed);
    if items.len() > 0 {
        let f = items.drop_last();
        let last = items.last();
        lemma_row_taken(keys, f, claimed);
        let (fe, fm) = drawer_layout::taken(keys, f, claimed);
        let at = drawer_layout::place_of(keys, last);
        drawer_layout::lemma_place_of(keys, last);
        assert forall|x: Seq<char>| #[trigger] items.contains(x) <==> f.contains(x) || x == last by {
            if items.contains(x) {
                let p = choose|p: int| 0 <= p < items.len() && items[p] == x;
                if p < f.len() {
                    assert(f[p] == x);
                }
            }
            if f.contains(x) {
                let p = choose|p: int| 0 <= p < f.len() && f[p] == x;
                assert(items[p] == x);
            }
            if x == last {
                assert(items[items.len() - 1] == x);
            }
        }
        assert forall|a: Seq<char>, b: Seq<char>| in_turn(f, a, b) implies #[trigger] in_turn(
            items,
            a,
            b,
        ) by {
            let (p, q) = choose|p: int, q: int|
                0 <= p < q < f.len() && #[trigger] f[p] == a && #[trigger] f[q] == b;
            assert(items[p] == a && items[q] == b);
        }
        assert forall|x: int| 0 <= x < keys.len() && is_first(keys, x) && keys[x]
            == last implies x == at by {
            if at < x {
                assert(keys[at] != keys[x]);
            }
        }
        assert(at < keys.len() ==> is_first(keys, at));
        if at < keys.len() && !fm[at] {
            assert forall|a: int, b: int| 0 <= a < b < e.len() implies in_turn(
                items,
                keys[#[trigger] e[a] as int],
                keys[#[trigger] e[b] as int],
            ) by {
                assert(e[a] == fe[a]);
                if b < fe.len() {
                    assert(e[b] == fe[b]);
                    assert(in_turn(f, keys[fe[a] as int], keys[fe[b] as int]));
                } else {
                    let x = keys[fe[a] as int];
                    assert(f.contains(x));
                    let p = choose|p: int| 0 <= p < f.len() && f[p] == x;
                    assert(items[p] == x);
                    assert(items[items.len() - 1] == keys[e[b] as int]);
                }
            }
            assert forall|k: int| 0 <= k < e.len() implies (#[trigger] e[k]) < keys.len()
                && items.contains(keys[e[k] as int]) && is_first(keys, e[k] as int)
                && !claimed[e[k] as int] by {
                if k < fe.len() {
                    assert(e[k] == fe[k]);
                }
            }
            assert forall|x: int|
                0 <= x < keys.len() && !claimed[x] && #[trigger] m[x] implies e.contains(
                x as usize,
            ) by {
                if x == at {
                    assert(e[e.len() - 1] == x as usize);
                } else {
                    assert(fm[x]);
                    let k = choose|k: int| 0 <= k < fe.len() && fe[k] == x as usize;
                    assert(e[k] == x as usize);
                }
            }
            assert forall|x: int| 0 <= x < keys.len() implies (#[trigger] m[x] <==> claimed[x] || (
            is_first(keys, x) && items.contains(keys[x]))) by {
                assert(x != at ==> m[x] == fm[x]);
            }
        } else {
            assert(e == fe && m == fm);
            assert forall|a: int, b: int| 0 <= a < b < e.len() implies in_turn(
                items,
                keys[#[trigger] e[a] as int],
                keys[#[trigger] e[b] as int],
            ) by {
                assert(in_turn(f, keys[fe[a] as int], keys[fe[b] as int]));
            }
        }
    }
}

/// What the sections of the user's rows hold.
pub open spec fn rows_taken(
    keys: Seq<Seq<char>>,
    cats: Seq<CategoryView>,
    i: int,
    e: Seq<usize>,
) -> bool {
    &&& forall|at: int|
        0 <= at < keys.len() ==> (#[trigger] e.contains(at as usize) <==> is_first(keys, at)
            && cats[i].items.contains(keys[at]) && !listed(cats.take(i), keys[at]))
    &&& forall|a: int, b: int|
        0 <= a < b < e.len() ==> in_turn(
            cats[i].items,
            keys[#[trigger] e[a] as int],
            keys[#[trigger] e[b] as int],
        )
}

proof fn lemma_listed(cats: Seq<CategoryView>, key: Seq<char>)
    requires
        cats.len() > 0,
    ensures
        listed(cats, key) <==> listed(cats.drop_last(), key) || cats.last().items.contains(key),
{
    let f = cats.drop_last();
    if listed(cats, key) {
        let j = choose|j: int| 0 <= j < cats.len() && (#[trigger] cats[j]).items.contains(key);
        if j < f.len() {
            assert(f[j].items.contains(key));
        }
    }
    if listed(f, key) {
        let j = choose|j: int| 0 <= j < f.len() && (#[trigger] f[j]).items.contains(key);
        assert(cats[j].items.contains(key));
    }
    if cats.last().items.contains(key) {
        assert(cats[cats.len() - 1].items.contains(key));
    }
}

proof fn lemma_rows_taken(keys: Seq<Seq<char>>, cats: Seq<CategoryView>)
    requires
        keys.len() <= usize::MAX,
    ensures
        drawer_layout::custom(keys, cats).0.len() == cats.len(),
        drawer_layout::custom(keys, cats).1.len() == keys.len(),
        forall|at: int|
            0 <= at < keys.len() ==> (#[trigger] drawer_layout::custom(keys, cats).1[at]
                <==> is_first(keys, at) && listed(cats, keys[at])),
        forall|i: int|
            0 <= i < cats.len() ==> rows_taken(
                keys,
                cats,
                i,
                (#[trigger] drawer_layout::custom(keys, cats).0[i]).entries,
            ),
    decreases cats.len(),
{
    let (rows, marks) = drawer_layout::custom(keys, cats);
    if cats.len() > 0 {
        let f = cats.drop_last();
        lemma_rows_taken(keys, f);
        let (front, before) = drawer_layout::custom(keys, f);
        let items = cats.last().items;
        lemma_row_taken(keys, items, before);
        let (e, m) = drawer_layout::taken(keys, items, before);
        assert forall|at: int| 0 <= at < keys.len() implies (#[trigger] marks[at] <==> is_first(
            keys,
            at,
        ) && listed(cats, keys[at])) by {
            lemma_listed(cats, keys[at]);
            assert(before[at] <==> is_first(keys, at) && listed(f, keys[at]));
            assert(m[at] == marks[at]);
        }
        assert forall|i: int| 0 <= i < cats.len() implies rows_taken(
            keys,
            cats,
            i,
            (#[trigger] rows[i]).entries,
        ) by {
            assert(cats.take(i) =~= f.take(i));
            if i < f.len() {
                assert(rows[i] == front[i]);
                assert(rows_taken(keys, f, i, front[i].entries));
                assert(f[i] == cats[i]);
            } else {
                assert(f.take(i) =~= f);
                assert(rows[i].entries == e);
                assert forall|at: int| 0 <= at < keys.len() implies (#[trigger] e.contains(
                    at as usize,
                ) <==> is_first(keys, at) && items.contains(keys[at]) && !listed(
                    cats.take(i),
                    keys[at],
                )) by {
                    assert(before[at] <==> is_first(keys, at) && listed(f, keys[at]));
                    assert(m[at] <==> before[at] || (is_first(keys, at) && items.contains(
                        keys[at],
                    )));
                    if e.contains(at as usize) {
                        let k = choose|k: int| 0 <= k < e.len() && e[k] == at as usize;
                        assert(e[k] < keys.len());
                    }
                }
            }
        }
    } else {
        assert forall|at: int| 0 <= at < keys.len() implies (#[trigger] marks[at] <==> is_first(
            keys,
            at,
        ) && listed(cats, keys[at])) by {}
    }
}

/// A program stands under the first row that lists its key, in the order of that row's
/// list; a program that no row lists stands under the last heading.
pub proof fn law_sections_hold(keys: Seq<Seq<char>>, cats: Seq<CategoryView>)
    requires
        keys.len() <= usize::MAX,
    ensures
        forall|i: int|
            0 <= i < cats.len() ==> rows_taken(
                keys,
                cats,
                i,
                (#[trigger] drawer_layout::sections_of(keys, cats)[i]).entries,
            ),
        forall|at: int|
            0 <= at < keys.len() && drawer_layout::sections_of(keys, cats).len() > cats.len() ==> (
            #[trigger] drawer_layout::sections_of(keys, cats).last().entries.contains(at as usize)
                <==> !(is_first(keys, at) && listed(cats, keys[at]))),
{
    let (rows, marks) = drawer_layout::custom(keys, cats);
    let s = drawer_layout::sections_of(keys, cats);
    lemma_rows_taken(keys, cats);
    drawer_layout::lemma_unmarked(marks);
    assert forall|i: int| 0 <= i < cats.len() implies rows_taken(
        keys,
        cats,
        i,
        (#[trigger] s[i]).entries,
    ) by {
        assert(s[i] == rows[i]);
    }
    assert forall|at: int| 0 <= at < keys.len() && s.len() > cats.len() implies (
    #[trigger] s.last().entries.contains(at as usize) <==> !(is_first(keys, at) && listed(
        cats,
        keys[at],
    ))) by {
        assert(marks[at] <==> is_first(keys, at) && listed(cats, keys[at]));
    }
}

/// The programs of a section stand as one reads: each beside the one before it, or at the
/// left of the next line.
pub proof fn law_reading_order(s: Seq<SectionView>, m: Metrics, n: int, i: int)
    requires
        m.cols > 0,
        i >= 0,
    ensures
        drawer_layout::cell_left(m, 0) == m.lpad,
        drawer_layout::cell_top(s, m, n, 0) == drawer_layout::grid_top(s, m, n),
        (i + 1) % m.cols as int != 0 ==> drawer_layout::cell_left(m, i + 1)
            == drawer_layout::cell_left(m, i) + m.cell_w + m.gap_x && drawer_layout::cell_top(
            s,
            m,
            n,
            i + 1,
        ) == drawer_layout::cell_top(s, m, n, i),
        (i + 1) % m.cols as int == 0 ==> drawer_layout::cell_left(m, i + 1) == m.lpad
            && drawer_layout::cell_top(s, m, n, i + 1) == drawer_layout::cell_top(s, m, n, i)
            + m.cell_h + m.gap_y,
{
    let c = m.cols as int;
    let row = i / c;
    let col = i % c;
    let w = m.cell_w + m.gap_x;
    let h = m.cell_h + m.gap_y;
    vstd::arithmetic::div_mod::lemma_fundamental_div_mod(i, c);
    vstd::arithmetic::div_mod::lemma_mod_bound(i, c);
    if col + 1 < c {
        assert(i + 1 == c * row + (col + 1));
        vstd::arithmetic::div_mod::lemma_fundamental_div_mod_converse(i + 1, c, row, col + 1);
        assert((col + 1) * w == col * w + w) by (nonlinear_arith);
    } else {
        assert(i + 1 == c * (row + 1) + 0) by (nonlinear_arith)
            requires
                i == c * row + col,
                col + 1 == c,
        ;
        vstd::arithmetic::div_mod::lemma_fundamental_div_mod_converse(i + 1, c, row + 1, 0);
        assert((row + 1) * h == row * h + h) by (nonlinear_arith);
        assert(0 * w == 0) by (nonlinear_arith);
    }
    assert(0 * w == 0 && 0 * h == 0) by (nonlinear_arith);
    vstd::arithmetic::div_mod::lemma_fundamental_div_mod_converse(0, c, 0, 0);
}

/// A layout goes from top to bottom: each heading, its programs under it, then the next
/// heading, and at the end the button for a new category.
pub proof fn law_top_to_bottom(l: Layout, s: Seq<SectionView>, m: Metrics, n: int)
    requires
        drawer_layout::can_lay_out(s, m),
        drawer_layout::is_layout(l, s, m),
        0 <= n < s.len(),
    ensures
        l.bands@.len() == s.len(),
        l.bands@[0].header.top == 0,
        l.bands@[n].section == n,
        l.bands@[n].header.bottom - l.bands@[n].header.top == m.header_h,
        l.bands@[n].grid_top == l.bands@[n].header.bottom,
        n + 1 < s.len() ==> l.bands@[n + 1].header.top == l.bands@[n].grid_bottom + m.section_gap,
        n + 1 == s.len() ==> l.add_button.top == l.bands@[n].grid_bottom + m.section_gap,
        l.add_button.bottom - l.add_button.top == m.add_h,
        l.content_h == l.add_button.bottom,
{
    drawer_layout::lemma_bottom(s, m, n);
    drawer_layout::lemma_bottom(s, m, 0);
    if n + 1 < s.len() {
        drawer_layout::lemma_bottom(s, m, n + 1);
    }
    drawer_layout::lemma_bottom(s, m, s.len() - 1);
}

/// As many programs are drawn as the sections hold, each for the program that it stands
/// for.
pub proof fn law_cells_stand_for(s: Seq<SectionView>, m: Metrics, n: int)
    requires
        0 <= n <= s.len(),
    ensures
        drawer_layout::grid(s, m, n).len() == drawer_layout::flat(s.take(n)).len(),
        forall|k: int|
            0 <= k < drawer_layout::grid(s, m, n).len() ==> (#[trigger] drawer_layout::grid(
                s,
                m,
                n,
            )[k]).entry == drawer_layout::flat(s.take(n))[k],
    decreases n,
{
    if n > 0 {
        law_cells_stand_for(s, m, n - 1);
        assert(s.take(n).drop_last() =~= s.take(n - 1));
        assert(s.take(n).last() == s[n - 1]);
        let a = drawer_layout::grid(s, m, n - 1);
        let g = drawer_layout::grid(s, m, n);
        let p = drawer_layout::placed(s, m, n - 1);
        let f = drawer_layout::flat(s.take(n - 1));
        assert forall|k: int| 0 <= k < g.len() implies (#[trigger] g[k]).entry
            == drawer_layout::flat(s.take(n))[k] by {
            if k < a.len() {
                assert(g[k] == a[k]);
            } else {
                assert(g[k] == p[k - a.len()]);
            }
        }
    }
}

/// A drop above the middle of the gap under a section goes to that section or an earlier
/// one, and one below it to a later one; the last takes what is left.
pub proof fn law_drop_section(s: Seq<SectionView>, m: Metrics, y: int, from: int)
    requires
        0 <= from < s.len(),
    ensures
        ({
            let n = drawer_layout::section_at(s, m, y, from);
            &&& from <= n < s.len()
            &&& forall|k: int|
                from <= k < n ==> 2 * y >= 2 * #[trigger] drawer_layout::grid_bottom(s, m, k)
                    + m.section_gap
            &&& n + 1 < s.len() ==> 2 * y < 2 * drawer_layout::grid_bottom(s, m, n) + m.section_gap
        }),
    decreases s.len() - from,
{
    if !(from + 1 >= s.len() || 2 * y < 2 * drawer_layout::grid_bottom(s, m, from) + m.section_gap) {
        law_drop_section(s, m, y, from + 1);
    }
}

/// A dragged program is dropped and the drawer stays; a clicked one is opened and the drawer
/// closes.
pub proof fn law_release(s: DrawerState, header: Option<(usize, HeaderAction)>, on_add: bool)
    ensures
        ({
            let t = drawer::released_state(s);
            let e = drawer::released_effects(s, header, on_add);
            &&& t.drag is None && t.editing == s.editing
            &&& s.drag is Some ==> e.contains(DrawerEffect::Release)
            &&& s.drag is Some && s.drag->0.active ==> t.closing == s.closing && e.contains(
                DrawerEffect::Drop(s.drag->0.entry),
            ) && forall|i: usize| !#[trigger] e.contains(DrawerEffect::Launch(i))
            &&& s.drag is Some && !s.drag->0.active ==> t.closing && e.contains(
                DrawerEffect::Launch(s.drag->0.entry),
            ) && forall|i: usize| !#[trigger] e.contains(DrawerEffect::Drop(i))
        }),
{
    let e = drawer::released_effects(s, header, on_add);
    if s.drag is Some {
        assert(e[0] == DrawerEffect::Release);
        if s.drag->0.active {
            assert(e[1] == DrawerEffect::Drop(s.drag->0.entry));
        } else {
            assert(e[1] == DrawerEffect::Launch(s.drag->0.entry));
        }
    }
}

/// Without a drag, a control of a heading acts on the category of that heading, and the
/// button under the programs makes a new one; nothing else happens.
pub proof fn law_click_beside(s: DrawerState, c: usize)
    requires
        s.drag is None,
    ensures
        drawer::released_state(s) == s,
        forall|on_add: bool| #[trigger]
            drawer::released_effects(s, Some((c, HeaderAction::Delete)), on_add) == seq![
                DrawerEffect::DeleteCategory(c),
            ],
        forall|on_add: bool| #[trigger]
            drawer::released_effects(s, Some((c, HeaderAction::Rename)), on_add) == seq![
                DrawerEffect::Rename(c),
            ],
        drawer::released_effects(s, None, true) == seq![DrawerEffect::AddCategory],
        drawer::released_effects(s, None, false).len() == 0,
{
}

/// Closing lets the pointer go, forgets what is under it, and starts one animation.
pub proof fn law_closing(s: DrawerState)
    ensures
        drawer::closed_state(s).closing,
        drawer::closed_state(s).editing == s.editing,
        !s.closing ==> drawer::closed_state(s).drag is None && drawer::closed_state(s).hovered
            is None,
        s.closing <==> drawer::closed_effects(s).len() == 0,
        !s.closing ==> drawer::closed_effects(s).contains(DrawerEffect::Release)
            && drawer::closed_effects(s).contains(DrawerEffect::Animate),
{
    if !s.closing {
        assert(drawer::closed_effects(s)[0] == DrawerEffect::Release);
        assert(drawer::closed_effects(s)[1] == DrawerEffect::Animate);
    }
}

/// A drag once begun goes on, with the program it began with.
pub proof fn law_drag_lasts(d: drawer::Drag, far: bool)
    ensures
        drawer::drag_on(d, far).entry == d.entry,
        drawer::drag_on(d, far).active <==> d.active || far,
{
}

/// The time that a clock has run from one reading to the other brings it there.
pub proof fn law_clock(last: u32, now: u32)
    ensures
        0 <= drawer::ticks_between(last, now) <= u32::MAX,
        (last + drawer::ticks_between(last, now)) % 0x1_0000_0000 == now,
{
}

/// A number of the menu names one category at most, and none beyond those there are.
pub proof fn law_menu_choice(id: usize, categories: nat)
    requires
        categories <= usize::MAX,
    ensures
        drawer::entry_choice(id, categories) matches EntryCommand::MoveTo(Some(i)) ==> i
            < categories && id == drawer::ID_CTX_CATEGORY_BASE + i,
        drawer::entry_choice(id, categories) is Open <==> id == drawer::ID_CTX_OPEN,
        drawer::entry_choice(id, categories) is Pin <==> id == drawer::ID_CTX_PIN,
        drawer::entry_choice(id, categories) is Hide <==> id == drawer::ID_CTX_HIDE,
        drawer::entry_choice(id, categories) is MoveToNew <==> id == drawer::ID_CTX_NEW_CATEGORY,
        drawer::entry_choice(id, categories) == EntryCommand::MoveTo(None) <==> id
            == drawer::ID_CTX_UNCATEGORIZED,
{
}

/// The menu of categories offers to leave all first, then every category under its name,
/// and a new one last.
pub proof fn law_menu_lines(cats: Seq<CategoryView>)
    requires
        cats.len() <= usize::MAX - drawer::ID_CTX_CATEGORY_BASE,
    ensures
        ({
            let r = drawer::category_menu_of(cats);
            let top: int = if cats.len() > 0 {
                2
            } else {
                1
            };
            &&& r.len() == top + cats.len() + 2
            &&& r[0].0 == drawer::ID_CTX_UNCATEGORIZED
            &&& r.last().0 == drawer::ID_CTX_NEW_CATEGORY
            &&& forall|i: int|
                0 <= i < cats.len() ==> (#[trigger] r[top + i]).0 == drawer::ID_CTX_CATEGORY_BASE
                    + i && r[top + i].1 == cats[i].name && r[top + i].2
        }),
{
    let r = drawer::category_menu_of(cats);
    let lines = drawer::category_lines(cats);
    let top: int = if cats.len() > 0 {
        2
    } else {
        1
    };
    assert forall|i: int| 0 <= i < cats.len() implies (#[trigger] r[top + i]).0
        == drawer::ID_CTX_CATEGORY_BASE + i && r[top + i].1 == cats[i].name && r[top + i].2 by {
        assert(r[top + i] == lines[i]);
    }
}

/// The wheel turned away goes up, turned towards the user it goes down, a row of programs
/// for each notch.
pub proof fn law_wheel(delta: int, notches: int, dots: int)
    requires
        dots > 0,
    ensures
        delta > 0 ==> drawer_view::turned(delta, dots) <= 0,
        delta < 0 ==> drawer_view::turned(delta, dots) >= 0,
        drawer_view::turned(-delta, dots) == -drawer_view::turned(delta, dots),
        drawer_view::turned(-120 * notches, dots) == notches * ((drawer_view::CELL_H
            + drawer_view::CELL_GAP) * dots),
{
    let step = (drawer_view::CELL_H + drawer_view::CELL_GAP) * dots;
    assert(step > 0) by (nonlinear_arith)
        requires
            dots > 0,
            step == (drawer_view::CELL_H + drawer_view::CELL_GAP) * dots,
            drawer_view::CELL_H == 94,
            drawer_view::CELL_GAP == 6,
    ;
    let size = if delta < 0 {
        -delta
    } else {
        delta
    };
    assert(size * step >= 0) by (nonlinear_arith)
        requires
            size >= 0,
            step > 0,
    ;
    let n = if notches < 0 {
        -notches
    } else {
        notches
    };
    assert((120 * n) * step == 120 * (n * step)) by (nonlinear_arith);
    assert((-n) * step == -(n * step) && 0 * step == 0) by (nonlinear_arith);
}

/// The content moves by what the wheel was turned, and stops at its ends.
pub proof fn law_scrolled(v: Scroller, delta: int)
    requires
        v.wf(),
    ensures
        ({
            let to = v.scroll + drawer_view::turned(delta, v.dots as int);
            let r = drawer_view::scrolled(v, delta);
            &&& to < 0 ==> r.scroll == 0
            &&& to > v.max_scroll ==> r.scroll == v.max_scroll
            &&& 0 <= to <= v.max_scroll ==> r.scroll == to
            &&& r.max_scroll == v.max_scroll && r.viewport_h == v.viewport_h && r.dots == v.dots
        }),
{
}

/// Content that has become shorter is moved only as far as it must to fill the view; what
/// fits is not scrolled.
pub proof fn law_refitted(v: Scroller, content_h: int)
    requires
        v.wf(),
        0 <= content_h <= 0x0C00_0000_0000_0000,
    ensures
        ({
            let r = drawer_view::refitted(v, content_h);
            &&& content_h <= v.viewport_h ==> r.scroll == 0 && r.max_scroll == 0
            &&& content_h > v.viewport_h ==> r.max_scroll + v.viewport_h == content_h
            &&& v.scroll + v.viewport_h <= content_h ==> r.scroll == v.scroll
            &&& r.scroll <= v.scroll
            &&& r.viewport_h == v.viewport_h && r.dots == v.dots
        }),
{
}

/// A point below the title is on the content that is scrolled to it.
pub proof fn law_content_under(v: Scroller, y: int)
    requires
        v.wf(),
    ensures
        ({
            let top = drawer_view::HEADER_H * v.dots;
            &&& top <= y <= top + v.viewport_h <==> drawer_view::content_at(v, y) is Some
            &&& drawer_view::content_at(v, y) matches Some(c) ==> c - v.scroll == y - top
        }),
{
}

/// The view is no higher than its content, and where there is room above the dock the
/// content is seen whole.
pub proof fn law_view_height(content_h: int, anchor_top: int, work_top: int, dots: int)
    requires
        dots > 0,
        content_h >= 0,
    ensures
        ({
            let h = drawer_view::view_height(content_h, anchor_top, work_top, dots);
            let room = 96 * (anchor_top - work_top) - (drawer_view::MARGIN
                + drawer_view::ANCHOR_GAP + drawer_view::HEADER_H + drawer_view::LPAD) * dots;
            &&& 0 <= h <= content_h
            &&& content_h <= room ==> h == content_h
            &&& room >= drawer_view::LEAST_VIEW * dots ==> h <= room
            &&& content_h >= drawer_view::LEAST_VIEW * dots ==> h >= drawer_view::LEAST_VIEW * dots
        }),
{
    let a = drawer_view::MARGIN as int;
    let b = drawer_view::ANCHOR_GAP as int;
    let c = drawer_view::HEADER_H as int;
    let d = drawer_view::LPAD as int;
    assert((a + b + c + d) * dots == a * dots + b * dots + c * dots + d * dots) by (nonlinear_arith);
    assert(drawer_view::LEAST_VIEW * dots >= 0) by (nonlinear_arith)
        requires
            dots > 0,
    ;
    assert(c * dots >= 0 && d * dots >= 0) by (nonlinear_arith)
        requires
            dots > 0,
            c >= 0,
            d >= 0,
    ;
}

/// A control that is found belongs to the heading under the pointer, and a heading of the
/// programs without a category has none.
pub proof fn law_control_found(
    s: Seq<SectionView>,
    m: Metrics,
    dots: int,
    x: int,
    y: int,
    from: int,
)
    requires
        0 <= from,
    ensures
        drawer_view::control_at(s, m, dots, x, y, from) matches Some((c, a)) ==> exists|n: int|
            from <= n < s.len() && (#[trigger] s[n]).kind == SectionKind::Custom(c) && (match a {
                HeaderAction::Delete => drawer_layout::holds(
                    drawer_view::delete_area(drawer_layout::band(s, m, n).header, dots),
                    x,
                    y,
                ),
                HeaderAction::Rename => drawer_layout::holds(
                    drawer_view::rename_area(drawer_layout::band(s, m, n).header, dots),
                    x,
                    y,
                ),
            }),
    decreases s.len() - from,
{
    if from < s.len() {
        let here = drawer_view::control_in(
            s[from].kind,
            drawer_layout::band(s, m, from).header,
            dots,
            x,
            y,
        );
        if let Some((c, _)) = here {
            assert(s[from].kind == SectionKind::Custom(c));
        } else {
            law_control_found(s, m, dots, x, y, from + 1);
        }
    }
}

/// New categories are called by their number, so that no two that are made one after the
/// other are called alike.
pub proof fn law_fresh_names(a: nat, b: nat)
    requires
        drawer::fresh_name(a) == drawer::fresh_name(b),
    ensures
        a == b,
{
    let p = "新分类 "@;
    assert(drawer::fresh_name(a).skip(p.len() as int) =~= numbers::decimal(a + 1));
    assert(drawer::fresh_name(b).skip(p.len() as int) =~= numbers::decimal(b + 1));
    numbers::lemma_decimal_digits(a + 1);
    numbers::lemma_decimal_digits(b + 1);
}

/// A drop above the programs of a section goes to their first line, and one among them to
/// the line that it is in.
pub proof fn law_drop_line(m: Metrics, grid_top: int, y: int)
    requires
        m.cell_h + m.gap_y > 0,
    ensures
        ({
            let stride = m.cell_h + m.gap_y;
            let r = drawer_layout::row_at(m, grid_top, y);
            &&& y <= grid_top ==> r == 0
            &&& y >= grid_top ==> r >= 0 && stride * r <= y - grid_top < stride * (r + 1)
        }),
{
    let stride = m.cell_h + m.gap_y;
    let into = if y < grid_top {
        0
    } else {
        y - grid_top
    };
    vstd::arithmetic::div_mod::lemma_fundamental_div_mod(into, stride);
    vstd::arithmetic::div_mod::lemma_mod_bound(into, stride);
    let r = into / stride;
    assert(stride * (r + 1) == stride * r + stride) by (nonlinear_arith);
    if into == 0 {
        vstd::arithmetic::div_mod::lemma_fundamental_div_mod_converse(0, stride, 0, 0);
    }
    assert(r >= 0) by (nonlinear_arith)
        requires
            stride > 0,
            into >= 0,
            stride * r > into - stride,
    ;
}

/// A drop left of the programs goes before the first of a line, one right of them behind
/// the last, and none beyond.
pub proof fn law_drop_column(m: Metrics, x: int)
    requires
        m.cell_w + m.gap_x > 0,
    ensures
        0 <= drawer_layout::column_at(m, x) <= m.cols,
        2 * (x - m.lpad) + m.cell_w < 0 ==> drawer_layout::column_at(m, x) == 0,
        2 * (x - m.lpad) + m.cell_w >= (2 * (m.cell_w + m.gap_x)) * m.cols
            ==> drawer_layout::column_at(m, x) == m.cols,
{
    let d = 2 * (m.cell_w + m.gap_x);
    let n = 2 * (x - m.lpad) + m.cell_w;
    vstd::arithmetic::div_mod::lemma_fundamental_div_mod(n, d);
    vstd::arithmetic::div_mod::lemma_mod_bound(n, d);
    let q = n / d;
    let c = m.cols as int;
    if n < 0 {
        assert(q < 0) by (nonlinear_arith)
            requires
                d > 0,
                d * q <= n,
                n < 0,
        ;
    }
    if n >= d * c {
        assert(q >= c) by (nonlinear_arith)
            requires
                d > 0,
                d * q > n - d,
                n >= d * c,
        ;
    }
}

/// A heading of a category has two controls, one that deletes it and one that renames it;
/// the heading of the programs without a category has none.
pub proof fn law_controls(kind: SectionKind, header: drawer_layout::Rect, dots: int, x: int, y: int)
    ensures
        ({
            let r = drawer_view::control_in(kind, header, dots, x, y);
            let on_delete = drawer_layout::holds(drawer_view::delete_area(header, dots), x, y);
            let on_rename = drawer_layout::holds(drawer_view::rename_area(header, dots), x, y);
            match kind {
                SectionKind::Uncategorized => r is None,
                SectionKind::Custom(c) => {
                    &&& on_delete ==> r == Some((c, HeaderAction::Delete))
                    &&& on_rename && !on_delete ==> r == Some((c, HeaderAction::Rename))
                    &&& !on_rename && !on_delete ==> r is None
                },
            }
        }),
{
}

/// No control is found only where the pointer is on none.
pub proof fn law_control_missed(
    s: Seq<SectionView>,
    m: Metrics,
    dots: int,
    x: int,
    y: int,
    from: int,
)
    requires
        0 <= from,
    ensures
        drawer_view::control_at(s, m, dots, x, y, from) is None ==> forall|n: int|
            from <= n < s.len() ==> drawer_view::control_in(
                (#[trigger] s[n]).kind,
                drawer_layout::band(s, m, n).header,
                dots,
                x,
                y,
            ) is None,
    decreases s.len() - from,
{
    if from < s.len() {
        law_control_missed(s, m, dots, x, y, from + 1);
    }
}

/// A point is in a rectangle where it is between its sides, which belong to it.
pub proof fn law_holds(r: drawer_layout::Rect, x: int, y: int)
    ensures
        drawer_layout::holds(r, x, y) ==> r.left <= x && x <= r.right,
        drawer_layout::holds(r, x, y) ==> r.top <= y && y <= r.bottom,
        r.left <= r.right && r.top <= r.bottom ==> drawer_layout::holds(
            r,
            r.left as int,
            r.bottom as int,
        ) && drawer_layout::holds(r, r.right as int, r.top as int),
{
}

} // verus!
