//! What the list of open windows promises: which windows are on the dock, which stand
//! together, and in what order.

use vstd::prelude::*;
use crate::numbers;
use crate::order;
use crate::text;
use crate::windows_list;
use crate::windows_list::{FoundWindow, GroupView, ScreenRect, WindowFacts, WindowView};
use crate::casing;

verus! {

/// A window that cannot be seen, has no title or is one of the shell is not on the dock,
/// nor is a tool or a window of another one, unless it asks for a place. Every other window
/// is.
pub proof fn law_belongs(f: WindowFacts)
    ensures
        !f.visible ==> !windows_list::belongs(f),
        f.cloaked ==> !windows_list::belongs(f),
        f.title_len == 0 ==> !windows_list::belongs(f),
        f.tool_window && !f.app_window ==> !windows_list::belongs(f),
        f.has_owner && !f.app_window ==> !windows_list::belongs(f),
        f.class@ == "Progman"@ || f.class@ == "WorkerW"@ || f.class@ == "Shell_TrayWnd"@
            || f.class@ == "Shell_SecondaryTrayWnd"@ || f.class@ == "FeatherDockWindow"@ || f.class@
            == "Windows.UI.Core.CoreWindow"@ <==> windows_list::is_shell(f.class@),
        windows_list::is_shell(f.class@) ==> !windows_list::belongs(f),
        f.visible && !f.cloaked && f.title_len != 0 && !windows_list::is_shell(f.class@) && (
        f.app_window || !(f.has_owner || f.tool_window)) ==> windows_list::belongs(f),
{
}

/// A found window that belongs on the dock and has a title.
pub open spec fn wanted_window() -> spec_fn(FoundWindow) -> bool {
    |f: FoundWindow| windows_list::belongs(f.facts) && f.window.title@.len() > 0
}

pub open spec fn window_in() -> spec_fn(FoundWindow) -> WindowView {
    |f: FoundWindow| f.window@
}

/// The windows of the dock are those found windows that belong there, in their order.
pub proof fn law_belonging(found: Seq<FoundWindow>)
    ensures
        windows_list::belonging(found) == found.filter(wanted_window()).map_values(window_in()),
    decreases found.len(),
{
    reveal(Seq::filter);
    if found.len() > 0 {
        law_belonging(found.drop_last());
        let f = found.drop_last().filter(wanted_window());
        let r = found.filter(wanted_window());
        assert(windows_list::belonging(found) =~= r.map_values(window_in()));
    } else {
        assert(windows_list::belonging(found) =~= found.filter(wanted_window()).map_values(
            window_in(),
        ));
    }
}

/// Windows of one program have one key, and those of none go by their handles: two that
/// are not the same window have not the same key then.
pub proof fn law_window_key(a: WindowView, b: WindowView)
    ensures
        a.exe_path is Some && a.exe_path == b.exe_path ==> windows_list::window_key(a)
            == windows_list::window_key(b),
        a.exe_path matches Some(p) ==> windows_list::window_key(a) == text::lower(
            text::stripped(text::trimmed(p), '"'),
        ),
        a.exe_path is None && b.exe_path is None && a.hwnd != b.hwnd ==> windows_list::window_key(a)
            != windows_list::window_key(b),
{
    if a.exe_path is None && b.exe_path is None && a.hwnd != b.hwnd {
        let x = numbers::signed_decimal(a.hwnd as int);
        let y = numbers::signed_decimal(b.hwnd as int);
        lemma_signed(a.hwnd as int, b.hwnd as int);
        if "hwnd:"@ + x == "hwnd:"@ + y {
            assert(x =~= ("hwnd:"@ + x).skip("hwnd:"@.len() as int));
            assert(y =~= ("hwnd:"@ + y).skip("hwnd:"@.len() as int));
        }
    }
}

proof fn lemma_signed(a: int, b: int)
    requires
        a != b,
    ensures
        numbers::signed_decimal(a) != numbers::signed_decimal(b),
{
    let x = numbers::signed_decimal(a);
    let y = numbers::signed_decimal(b);
    let m = (if a < 0 {
        -a
    } else {
        a
    }) as nat;
    let n = (if b < 0 {
        -b
    } else {
        b
    }) as nat;
    numbers::lemma_decimal_digits(m);
    numbers::lemma_decimal_digits(n);
    assert(numbers::is_digit(numbers::decimal(m)[0]));
    assert(numbers::is_digit(numbers::decimal(n)[0]));
    if x == y {
        if a < 0 && b < 0 {
            assert(x.skip(1) =~= numbers::decimal(m));
            assert(y.skip(1) =~= numbers::decimal(n));
        } else if a < 0 {
            assert(x[0] == '-');
        } else if b < 0 {
            assert(y[0] == '-');
        }
    }
}

/// A group holds one of these windows.
pub open spec fn holds_window(gs: Seq<GroupView>, w: WindowView) -> bool {
    exists|i: int|
        0 <= i < gs.len() && (#[trigger] gs[i]).windows.contains(w) && gs[i].key
            == windows_list::window_key(w)
}

proof fn lemma_pool(gs: Seq<GroupView>, w: WindowView)
    ensures
        windows_list::pool(gs).count(w) > 0 ==> exists|i: int|
            0 <= i < gs.len() && (#[trigger] gs[i]).windows.contains(w),
    decreases gs.len(),
{
    broadcast use vstd::seq_lib::group_to_multiset_ensures;

    if gs.len() > 0 {
        let f = gs.drop_last();
        lemma_pool(f, w);
        if windows_list::pool(gs).count(w) > 0 {
            if windows_list::pool(f).count(w) > 0 {
                let i = choose|i: int| 0 <= i < f.len() && (#[trigger] f[i]).windows.contains(w);
                assert(gs[i].windows.contains(w));
            } else {
                assert(gs.last().windows.to_multiset().count(w) > 0);
                assert(gs[gs.len() - 1].windows.contains(w));
            }
        }
    }
}

/// Every open window stands in the group of its application. The groups stand in the order
/// of their first windows, and the windows of a group in their own order: by handle, the
/// lower first.
pub proof fn law_grouped(ws: Seq<WindowView>)
    ensures
        ({
            let gs = windows_list::grouped(ws);
            &&& forall|i: int| 0 <= i < ws.len() ==> holds_window(gs, #[trigger] ws[i])
            &&& forall|i: int| 0 <= i < gs.len() ==> (#[trigger] gs[i]).windows.len() > 0
            &&& forall|i: int, j: int|
                0 <= i < j < gs.len() ==> (#[trigger] gs[i]).windows[0].hwnd <= (
                #[trigger] gs[j]).windows[0].hwnd
            &&& forall|i: int, k: int, m: int|
                0 <= i < gs.len() && 0 <= k < m < gs[i].windows.len()
                    ==> #[trigger] gs[i].windows[k].hwnd <= #[trigger] gs[i].windows[m].hwnd
        }),
{
    broadcast use vstd::seq_lib::group_to_multiset_ensures;

    let gs = windows_list::grouped(ws);
    windows_list::law_groups_hold_all(ws);
    windows_list::law_groups_in_order(ws);
    assert forall|i: int| 0 <= i < gs.len() implies (#[trigger] gs[i]).windows.len() > 0 by {
        windows_list::law_groups_are_pure(ws, i);
    }
    assert forall|i: int| 0 <= i < ws.len() implies holds_window(gs, #[trigger] ws[i]) by {
        let w = ws[i];
        assert(ws.contains(w));
        assert(ws.to_multiset().count(w) > 0);
        lemma_pool(gs, w);
        let g = choose|g: int| 0 <= g < gs.len() && (#[trigger] gs[g]).windows.contains(w);
        windows_list::law_groups_are_pure(ws, g);
        let k = choose|k: int| 0 <= k < gs[g].windows.len() && gs[g].windows[k] == w;
        assert(windows_list::window_key(gs[g].windows[k]) == gs[g].key);
    }
    assert forall|i: int, j: int| 0 <= i < j < gs.len() implies (#[trigger] gs[i]).windows[0].hwnd
        <= (#[trigger] gs[j]).windows[0].hwnd by {
        assert(!windows_list::by_first_handle()(gs[j], gs[i]));
    }
    assert forall|i: int, k: int, m: int|
        0 <= i < gs.len() && 0 <= k < m < gs[i].windows.len() implies #[trigger] gs[i].windows[k].hwnd
        <= #[trigger] gs[i].windows[m].hwnd by {
        windows_list::law_groups_are_pure(ws, i);
        assert(!windows_list::by_handle()(gs[i].windows[m], gs[i].windows[k]));
    }
}

/// A group that has the icon and the name of one of its windows.
pub open spec fn named_by_window(g: GroupView) -> bool {
    exists|k: int|
        0 <= k < g.windows.len() && g.icon_path == (#[trigger] g.windows[k]).exe_path && g.label == (
        match g.windows[k].exe_path {
            Some(p) => windows_list::app_label(p),
            None => g.windows[k].title,
        })
}

proof fn lemma_collected_named(ws: Seq<WindowView>)
    ensures
        forall|i: int|
            0 <= i < windows_list::collected(ws).len() ==> named_by_window(
                #[trigger] windows_list::collected(ws)[i],
            ),
    decreases ws.len(),
{
    if ws.len() > 0 {
        let f = windows_list::collected(ws.drop_last());
        let r = windows_list::collected(ws);
        let w = ws.last();
        lemma_collected_named(ws.drop_last());
        windows_list::lemma_group_at(f, windows_list::window_key(w));
        let at = windows_list::group_at(f, windows_list::window_key(w));
        assert forall|i: int| 0 <= i < r.len() implies named_by_window(#[trigger] r[i]) by {
            if i < f.len() {
                assert(named_by_window(f[i]));
                let k = choose|k: int|
                    0 <= k < f[i].windows.len() && f[i].icon_path == (
                    #[trigger] f[i].windows[k]).exe_path && f[i].label == (
                    match f[i].windows[k].exe_path {
                        Some(p) => windows_list::app_label(p),
                        None => f[i].windows[k].title,
                    });
                assert(r[i].windows[k] == f[i].windows[k]);
            } else {
                assert(r[i].windows[0] == w);
            }
        }
    }
}

/// A group is called and drawn as the program of its windows; one of a window without a
/// program has the title of that.
pub proof fn law_groups_are_named(ws: Seq<WindowView>, i: int)
    requires
        0 <= i < windows_list::grouped(ws).len(),
    ensures
        named_by_window(windows_list::grouped(ws)[i]),
{
    let c = windows_list::collected(ws);
    let t = c.map_values(|g: GroupView| windows_list::tidied(g));
    let g = windows_list::grouped(ws)[i];
    lemma_collected_named(ws);
    order::lemma_arranged_contains(t, windows_list::by_first_handle(), g);
    assert(windows_list::grouped(ws).contains(g));
    let m = choose|m: int| 0 <= m < t.len() && t[m] == g;
    let d = c[m];
    assert(g == windows_list::tidied(d));
    assert(named_by_window(d));
    let k = choose|k: int|
        0 <= k < d.windows.len() && d.icon_path == (#[trigger] d.windows[k]).exe_path && d.label == (
        match d.windows[k].exe_path {
            Some(p) => windows_list::app_label(p),
            None => d.windows[k].title,
        });
    let w = d.windows[k];
    order::lemma_arranged_contains(d.windows, windows_list::by_handle(), w);
    assert(d.windows.contains(w));
    let q = choose|q: int| 0 <= q < g.windows.len() && g.windows[q] == w;
    assert(g.windows[q] == w);
}

/// Four known programs have names of their own.
pub proof fn law_known_labels(path: Seq<char>)
    ensures
        crate::paths::stem_of(path) matches Some(s) ==> text::lower(s) == "msedge"@
            ==> windows_list::app_label(path) == "Edge"@,
        crate::paths::stem_of(path) matches Some(s) ==> text::lower(s) == "chrome"@
            ==> windows_list::app_label(path) == "Chrome"@,
        crate::paths::stem_of(path) matches Some(s) ==> text::lower(s) == "code"@
            ==> windows_list::app_label(path) == "VS Code"@,
        crate::paths::stem_of(path) matches Some(s) ==> text::lower(s) == "explorer"@
            ==> windows_list::app_label(path) == "Explorer"@,
{
    reveal_strlit("msedge");
    reveal_strlit("chrome");
    reveal_strlit("code");
    reveal_strlit("explorer");
    assert("msedge"@[0] == 'm' && "chrome"@[0] == 'c' && "code"@[0] == 'c' && "explorer"@[0] == 'e');
    assert("chrome"@.len() == 6 && "code"@.len() == 4);
}

/// A window covers a monitor where every point of the monitor is in it.
pub proof fn law_covers(inner: ScreenRect, outer: ScreenRect, x: int, y: int)
    requires
        outer.left < outer.right,
        outer.top < outer.bottom,
    ensures
        windows_list::covers(inner, outer) && outer.left <= x < outer.right && outer.top <= y
            < outer.bottom ==> inner.left <= x < inner.right && inner.top <= y < inner.bottom,
        !windows_list::covers(inner, outer) <==> inner.left > outer.left || inner.top > outer.top
            || inner.right < outer.right || inner.bottom < outer.bottom,
{
}

/// The dock looks at its windows anew when one comes or goes, is shown or hidden, or
/// changes between there and not there; nothing else makes it.
pub proof fn law_changes_windows(event: u32)
    ensures
        windows_list::changes_windows(event) <==> (0x8000 <= event <= 0x8003) || event == 0x8017
            || event == 0x8018,
{
}

/// A dash, an underscore or a dot ends a word and stands for a blank.
pub proof fn law_title_words(a: Seq<char>, sep: char, b: Seq<char>, new_word: bool)
    requires
        sep == '-' || sep == '_' || sep == '.',
    ensures
        windows_list::titled(a + seq![sep] + b, new_word) == windows_list::titled(a, new_word)
            + seq![' '] + windows_list::titled(b, true),
    decreases a.len(),
{
    let s = a + seq![sep] + b;
    if a.len() == 0 {
        assert(s.skip(1) =~= b);
        assert(s[0] == sep);
        assert(windows_list::titled(a, new_word) =~= Seq::<char>::empty());
        assert(windows_list::titled(s, new_word) =~= windows_list::titled(a, new_word) + seq![' ']
            + windows_list::titled(b, true));
    } else {
        let t = a.skip(1);
        assert(s.skip(1) =~= t + seq![sep] + b);
        assert(s[0] == a[0]);
        let c = a[0];
        let next = c == '-' || c == '_' || c == '.';
        law_title_words(t, sep, b, next);
        assert(windows_list::titled(s, new_word) =~= windows_list::titled(a, new_word) + seq![' ']
            + windows_list::titled(b, true));
    }
}

/// Of a word the first letter is a capital and the others are as they were.
pub proof fn law_title_word(s: Seq<char>)
    requires
        s.len() > 0,
        forall|i: int| 0 <= i < s.len() ==> #[trigger] s[i] != '-' && s[i] != '_' && s[i] != '.',
    ensures
        windows_list::titled(s, true) == casing::uppercased(s[0]) + s.skip(1),
        windows_list::titled(s, false) == s,
    decreases s.len(),
{
    let t = s.skip(1);
    assert forall|i: int| 0 <= i < t.len() implies #[trigger] t[i] != '-' && t[i] != '_' && t[i]
        != '.' by {
        assert(t[i] == s[i + 1]);
    }
    if t.len() > 0 {
        law_title_word(t);
    }
    assert(windows_list::titled(t, false) =~= t);
    assert(seq![s[0]] + t =~= s);
}

} // verus!
