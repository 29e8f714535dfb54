//! What a click and a rebuild promise: the windows of an application are tried from the
//! best to the worst, and every window shows up in the row, once and where it belongs.

use vstd::prelude::*;
use crate::activation;
use crate::apps;
use crate::content;
use crate::content::ContentKind;
use crate::dock::{ItemRole, ItemView, RefView};
use crate::text;
use crate::windows_list::GroupView;

verus! {

/// Two texts are the same but for the case of ASCII letters.
pub open spec fn alike(a: Seq<char>, b: Seq<char>) -> bool {
    a.len() == b.len() && forall|i: int|
        0 <= i < a.len() ==> text::lower_of(#[trigger] a[i]) == text::lower_of(b[i])
}

/// The title of a window is the label of an item; blanks around them do not count.
pub open spec fn named_as(w: RefView, item: ItemView) -> bool {
    let l = text::trimmed(item.label);
    l.len() > 0 && alike(text::trimmed(w.title), l)
}

/// The title of a window is the label of an item, a blank, and more.
pub open spec fn named_after(w: RefView, item: ItemView) -> bool {
    let l = text::trimmed(item.label);
    let t = text::trimmed(w.title);
    l.len() > 0 && t.len() > l.len() && t[l.len() as int] == ' ' && alike(
        t.take(l.len() as int),
        l,
    )
}

/// The window in front is this one, and belongs to the item.
pub open spec fn stands_in_front(
    item: ItemView,
    front: Option<isize>,
    owned: bool,
    raw: isize,
) -> bool {
    front == Some(raw) && (owned || item.hwnd == Some(raw) || exists|i: int|
        0 <= i < item.windows.len() && (#[trigger] item.windows[i]).hwnd == raw)
}

/// One of the first `n` windows of an item has this handle and the label for its title.
pub open spec fn named_before(item: ItemView, n: int, raw: isize) -> bool {
    exists|i: int|
        0 <= i < n && i < item.windows.len() && (#[trigger] item.windows[i]).hwnd == raw && named_as(
            item.windows[i],
            item,
        )
}

/// One of the first `n` windows of an item has this handle and a title that starts with the
/// label.
pub open spec fn named_after_before(item: ItemView, n: int, raw: isize) -> bool {
    exists|i: int|
        0 <= i < n && i < item.windows.len() && (#[trigger] item.windows[i]).hwnd == raw
            && named_after(item.windows[i], item)
}

/// One of the first `n` windows of an item has this handle.
pub open spec fn among(item: ItemView, n: int, raw: isize) -> bool {
    exists|i: int|
        0 <= i < n && i < item.windows.len() && (#[trigger] item.windows[i]).hwnd == raw
}

/// The handles of the windows with a property, in order.
spec fn chosen(ws: Seq<RefView>, f: spec_fn(RefView) -> bool) -> Seq<isize>
    decreases ws.len(),
{
    if ws.len() == 0 {
        seq![]
    } else {
        let front = chosen(ws.drop_last(), f);
        if f(ws.last()) {
            front.push(ws.last().hwnd)
        } else {
            front
        }
    }
}

/// One of the first `n` windows has a property and this handle.
spec fn picked(ws: Seq<RefView>, f: spec_fn(RefView) -> bool, n: int, raw: isize) -> bool {
    exists|i: int|
        0 <= i < n && i < ws.len() && f(#[trigger] ws[i]) && ws[i].hwnd == raw
}

/// A chosen window is there, and those before it are chosen windows that stand before it.
proof fn lemma_chosen(ws: Seq<RefView>, f: spec_fn(RefView) -> bool, j: int) -> (at: int)
    requires
        0 <= j < ws.len(),
        f(ws[j]),
    ensures
        0 <= at < chosen(ws, f).len(),
        chosen(ws, f)[at] == ws[j].hwnd,
        forall|m: int| 0 <= m < at ==> picked(ws, f, j, #[trigger] chosen(ws, f)[m]),
    decreases ws.len(),
{
    let g = ws.drop_last();
    let c = chosen(ws, f);
    let d = chosen(g, f);
    lemma_chosen_only(g, f);
    if j < g.len() {
        assert(g[j] == ws[j]);
        let at = lemma_chosen(g, f, j);
        assert(c[at] == d[at]);
        assert forall|m: int| 0 <= m < at implies picked(ws, f, j, #[trigger] c[m]) by {
            assert(c[m] == d[m]);
            assert(picked(g, f, j, d[m]));
            let i = choose|i: int|
                0 <= i < j && i < g.len() && f(#[trigger] g[i]) && g[i].hwnd == d[m];
            assert(ws[i] == g[i]);
        }
        at
    } else {
        assert forall|m: int| 0 <= m < d.len() implies picked(ws, f, j, #[trigger] c[m]) by {
            assert(c[m] == d[m]);
            assert(picked(g, f, g.len() as int, d[m]));
            let i = choose|i: int|
                0 <= i < g.len() && i < g.len() && f(#[trigger] g[i]) && g[i].hwnd == d[m];
            assert(ws[i] == g[i]);
        }
        d.len() as int
    }
}

proof fn lemma_chosen_only(ws: Seq<RefView>, f: spec_fn(RefView) -> bool)
    ensures
        forall|m: int|
            0 <= m < chosen(ws, f).len() ==> picked(
                ws,
                f,
                ws.len() as int,
                #[trigger] chosen(ws, f)[m],
            ),
    decreases ws.len(),
{
    if ws.len() > 0 {
        let g = ws.drop_last();
        let c = chosen(ws, f);
        let d = chosen(g, f);
        lemma_chosen_only(g, f);
        assert forall|m: int| 0 <= m < c.len() implies picked(
            ws,
            f,
            ws.len() as int,
            #[trigger] c[m],
        ) by {
            if m < d.len() {
                assert(c[m] == d[m]);
                assert(picked(g, f, g.len() as int, d[m]));
                let i = choose|i: int|
                    0 <= i < g.len() && i < g.len() && f(#[trigger] g[i]) && g[i].hwnd == d[m];
                assert(ws[i] == g[i]);
            } else {
                assert(ws[ws.len() - 1].hwnd == c[m]);
            }
        }
    }
}

proof fn lemma_title_is(w: RefView, item: ItemView)
    ensures
        activation::title_is(w.title, text::trimmed(item.label)) == named_as(w, item),
        activation::title_begins(w.title, text::trimmed(item.label)) == named_after(w, item),
{
    let l = text::trimmed(item.label);
    let t = text::trimmed(w.title);
    let a = text::lower(t);
    let b = text::lower(l);
    if a == b {
        assert forall|i: int| 0 <= i < t.len() implies text::lower_of(#[trigger] t[i])
            == text::lower_of(l[i]) by {
            assert(a[i] == b[i]);
        }
    }
    if named_as(w, item) {
        assert(a =~= b);
    }
    let n = l.len() as int;
    if activation::title_begins(w.title, l) {
        let head = a.take(n + 1);
        assert(head == b.push(' '));
        assert(head[n] == ' ');
        assert(text::lower_of(t[n]) == ' ');
        assert forall|i: int| 0 <= i < n implies text::lower_of(#[trigger] t.take(n)[i])
            == text::lower_of(l[i]) by {
            assert(head[i] == b[i]);
        }
    }
    if named_after(w, item) {
        assert(a.take(n + 1) =~= b.push(' ')) by {
            assert forall|i: int| 0 <= i < n + 1 implies a.take(n + 1)[i] == b.push(' ')[i] by {
                if i < n {
                    assert(text::lower_of(t.take(n)[i]) == text::lower_of(l[i]));
                }
            }
        }
    }
}

proof fn lemma_groups(ws: Seq<RefView>, label: Seq<char>)
    ensures
        activation::titled(ws, label) == chosen(
            ws,
            |w: RefView| activation::title_is(w.title, label),
        ),
        activation::prefixed(ws, label) == chosen(
            ws,
            |w: RefView| activation::title_begins(w.title, label),
        ),
        activation::handles(ws) == chosen(ws, |w: RefView| true),
    decreases ws.len(),
{
    if ws.len() > 0 {
        lemma_groups(ws.drop_last(), label);
        assert(activation::handles(ws) =~= activation::handles(ws.drop_last()).push(
            ws.last().hwnd,
        ));
    } else {
        assert(activation::handles(ws) =~= chosen(ws, |w: RefView| true));
    }
}

/// The place where a value first occurs.
spec fn first_at(s: Seq<isize>, x: isize) -> int
    decreases s.len(),
{
    if s.len() == 0 {
        0
    } else if s.drop_last().contains(x) {
        first_at(s.drop_last(), x)
    } else {
        s.len() - 1
    }
}

proof fn lemma_first_at(s: Seq<isize>, x: isize)
    requires
        s.contains(x),
    ensures
        0 <= first_at(s, x) < s.len(),
        s[first_at(s, x)] == x,
        forall|i: int| 0 <= i < s.len() && s[i] == x ==> first_at(s, x) <= i,
    decreases s.len(),
{
    let f = s.drop_last();
    if f.contains(x) {
        lemma_first_at(f, x);
        assert forall|i: int| 0 <= i < s.len() && s[i] == x implies first_at(s, x) <= i by {
            if i < f.len() {
                assert(f[i] == x);
            }
        }
    } else {
        let k = choose|k: int| 0 <= k < s.len() && s[k] == x;
        if k < f.len() {
            assert(f[k] == x);
        }
        assert forall|i: int| 0 <= i < s.len() && s[i] == x implies first_at(s, x) <= i by {
            if i < f.len() {
                assert(f[i] == x);
            }
        }
    }
}

proof fn lemma_uniq_order(s: Seq<isize>, a: int, b: int)
    requires
        0 <= a < b < activation::uniq(s).len(),
    ensures
        first_at(s, activation::uniq(s)[a]) < first_at(s, activation::uniq(s)[b]),
    decreases s.len(),
{
    if s.len() > 0 {
        let f = s.drop_last();
        let u = activation::uniq(f);
        let r = activation::uniq(s);
        activation::law_uniq(f);
        assert(u[a] == r[a]);
        assert(u.contains(u[a]));
        assert(f.contains(r[a]));
        lemma_first_at(f, r[a]);
        if b < u.len() {
            assert(u[b] == r[b]);
            assert(u.contains(u[b]));
            assert(f.contains(r[b]));
            lemma_uniq_order(f, a, b);
        }
    }
}

spec fn by_name(item: ItemView) -> spec_fn(RefView) -> bool {
    |w: RefView| activation::title_is(w.title, text::trimmed(item.label))
}

spec fn by_start(item: ItemView) -> spec_fn(RefView) -> bool {
    |w: RefView| activation::title_begins(w.title, text::trimmed(item.label))
}

/// The window in front, if it belongs to the item.
spec fn fronts(item: ItemView, front: Option<isize>, owned: bool) -> Seq<isize> {
    match front {
        Some(raw) => if owned || activation::has_window(item, raw) {
            seq![raw]
        } else {
            seq![]
        },
        None => seq![],
    }
}

/// The first window.
spec fn firsts(item: ItemView) -> Seq<isize> {
    match item.hwnd {
        Some(raw) => seq![raw],
        None => seq![],
    }
}

/// How far the groups of the list reach: the window in front, the windows with the title,
/// those with its start, and the first window.
spec fn ends(item: ItemView, front: Option<isize>, owned: bool) -> (int, int, int, int) {
    let a = fronts(item, front, owned).len() as int;
    let b = a + chosen(item.windows, by_name(item)).len();
    let c = b + chosen(item.windows, by_start(item)).len();
    (a, b, c, c + firsts(item).len())
}

proof fn lemma_wanted(item: ItemView, front: Option<isize>, owned: bool)
    ensures
        activation::wanted(item, front, owned) == fronts(item, front, owned) + chosen(
            item.windows,
            by_name(item),
        ) + chosen(item.windows, by_start(item)) + firsts(item) + activation::handles(item.windows),
{
    lemma_groups(item.windows, text::trimmed(item.label));
}

proof fn lemma_in_front(item: ItemView, front: Option<isize>, owned: bool, x: isize)
    ensures
        fronts(item, front, owned).contains(x) <==> stands_in_front(item, front, owned, x),
{
    let f = fronts(item, front, owned);
    let hs = activation::handles(item.windows);
    if stands_in_front(item, front, owned, x) {
        if !owned && item.hwnd != Some(x) {
            let i = choose|i: int|
                0 <= i < item.windows.len() && (#[trigger] item.windows[i]).hwnd == x;
            assert(hs[i] == x);
        }
        assert(f[0] == x);
    }
    if f.contains(x) && !owned && item.hwnd != Some(x) {
        assert(hs.contains(x));
        let i = choose|i: int| 0 <= i < hs.len() && hs[i] == x;
        assert(item.windows[i].hwnd == x);
    }
}

/// What a place of the list is.
proof fn lemma_place(item: ItemView, front: Option<isize>, owned: bool, k: int)
    requires
        0 <= k < activation::wanted(item, front, owned).len(),
    ensures
        ({
            let x = activation::wanted(item, front, owned)[k];
            let n = item.windows.len() as int;
            let (a, b, c, d) = ends(item, front, owned);
            &&& k < a ==> stands_in_front(item, front, owned, x)
            &&& a <= k < b ==> named_before(item, n, x) && x == chosen(
                item.windows,
                by_name(item),
            )[k - a]
            &&& b <= k < c ==> named_after_before(item, n, x) && x == chosen(
                item.windows,
                by_start(item),
            )[k - b]
            &&& c <= k < d ==> item.hwnd == Some(x)
            &&& d <= k ==> k - d < n && item.windows[k - d].hwnd == x
        }),
{
    lemma_wanted(item, front, owned);
    let w = activation::wanted(item, front, owned);
    let x = w[k];
    let ws = item.windows;
    let n = ws.len() as int;
    let (a, b, c, d) = ends(item, front, owned);
    if k < a {
        assert(fronts(item, front, owned)[k] == x);
        assert(fronts(item, front, owned).contains(x));
        lemma_in_front(item, front, owned, x);
    } else if k < b {
        lemma_chosen_only(ws, by_name(item));
        assert(x == chosen(ws, by_name(item))[k - a]);
        lemma_picked(item, n, x);
    } else if k < c {
        lemma_chosen_only(ws, by_start(item));
        assert(x == chosen(ws, by_start(item))[k - b]);
        lemma_picked(item, n, x);
    } else if k < d {
        assert(x == firsts(item)[k - c]);
    } else {
        assert(x == activation::handles(ws)[k - d]);
    }
}

proof fn lemma_picked(item: ItemView, n: int, x: isize)
    ensures
        picked(item.windows, by_name(item), n, x) ==> named_before(item, n, x),
        picked(item.windows, by_start(item), n, x) ==> named_after_before(item, n, x),
{
    let ws = item.windows;
    if picked(ws, by_name(item), n, x) {
        let f = by_name(item);
        let i = choose|i: int| 0 <= i < n && i < ws.len() && f(#[trigger] ws[i]) && ws[i].hwnd == x;
        lemma_title_is(ws[i], item);
        assert(named_as(ws[i], item));
    }
    if picked(ws, by_start(item), n, x) {
        let f = by_start(item);
        let i = choose|i: int| 0 <= i < n && i < ws.len() && f(#[trigger] ws[i]) && ws[i].hwnd == x;
        lemma_title_is(ws[i], item);
        assert(named_after(ws[i], item));
    }
}

/// What is tried before the value at a place of the list stands before that place.
proof fn lemma_before(w: Seq<isize>, a: int, b: int, k: int) -> (c: int)
    requires
        0 <= a < b < activation::uniq(w).len(),
        0 <= k < w.len(),
        w[k] == activation::uniq(w)[b],
    ensures
        0 <= c < k,
        w[c] == activation::uniq(w)[a],
{
    let order = activation::uniq(w);
    activation::law_uniq(w);
    lemma_uniq_order(w, a, b);
    assert(order.contains(order[a]) && order.contains(order[b]));
    lemma_first_at(w, order[a]);
    lemma_first_at(w, order[b]);
    first_at(w, order[a])
}

proof fn lemma_named_first(item: ItemView, front: Option<isize>, owned: bool, a: int, b: int, j: int)
    requires
        0 <= a < b < activation::uniq(activation::wanted(item, front, owned)).len(),
        0 <= j < item.windows.len(),
        item.windows[j].hwnd == activation::uniq(activation::wanted(item, front, owned))[b],
    ensures
        ({
            let x = activation::uniq(activation::wanted(item, front, owned))[a];
            let n = item.windows.len() as int;
            let w = item.windows[j];
            &&& named_as(w, item) ==> stands_in_front(item, front, owned, x) || named_before(
                item,
                j,
                x,
            )
            &&& named_after(w, item) ==> stands_in_front(item, front, owned, x) || named_before(
                item,
                n,
                x,
            ) || named_after_before(item, j, x)
            &&& stands_in_front(item, front, owned, x) || named_before(item, n, x)
                || named_after_before(item, n, x) || item.hwnd == Some(x) || among(item, j, x)
        }),
{
    let ws = item.windows;
    let w = activation::wanted(item, front, owned);
    let (e0, e1, e2, e3) = ends(item, front, owned);
    lemma_wanted(item, front, owned);
    lemma_title_is(ws[j], item);
    if named_as(ws[j], item) {
        let at = lemma_chosen(ws, by_name(item), j);
        assert(w[e0 + at] == chosen(ws, by_name(item))[at]);
        let c = lemma_before(w, a, b, e0 + at);
        lemma_place(item, front, owned, c);
        if c >= e0 {
            assert(picked(ws, by_name(item), j, chosen(ws, by_name(item))[c - e0]));
            lemma_picked(item, j, w[c]);
        }
    }
    if named_after(ws[j], item) {
        let at = lemma_chosen(ws, by_start(item), j);
        assert(w[e1 + at] == chosen(ws, by_start(item))[at]);
        let c = lemma_before(w, a, b, e1 + at);
        lemma_place(item, front, owned, c);
        if c >= e1 {
            assert(picked(ws, by_start(item), j, chosen(ws, by_start(item))[c - e1]));
            lemma_picked(item, j, w[c]);
        }
    }
    assert(w[e3 + j] == activation::handles(ws)[j]);
    let c = lemma_before(w, a, b, e3 + j);
    lemma_place(item, front, owned, c);
}

/// The windows that are tried are the one in front, if it belongs to the item, and those of
/// the item, each once.
pub proof fn law_windows_tried(item: ItemView, front: Option<isize>, owned: bool)
    ensures
        ({
            let order = activation::uniq(activation::wanted(item, front, owned));
            &&& order.no_duplicates()
            &&& forall|x: isize| #[trigger]
                order.contains(x) <==> stands_in_front(item, front, owned, x) || item.hwnd == Some(x)
                    || among(item, item.windows.len() as int, x)
        }),
{
    let ws = item.windows;
    let n = ws.len() as int;
    let w = activation::wanted(item, front, owned);
    let order = activation::uniq(w);
    let (e0, e1, e2, e3) = ends(item, front, owned);
    activation::law_uniq(w);
    lemma_wanted(item, front, owned);
    assert forall|x: isize| #[trigger] order.contains(x) <==> stands_in_front(item, front, owned, x)
        || item.hwnd == Some(x) || among(item, n, x) by {
        if w.contains(x) {
            let k = choose|k: int| 0 <= k < w.len() && w[k] == x;
            lemma_place(item, front, owned, k);
        }
        if stands_in_front(item, front, owned, x) {
            lemma_in_front(item, front, owned, x);
            let f = fronts(item, front, owned);
            let k = choose|k: int| 0 <= k < f.len() && f[k] == x;
            assert(w[k] == x);
        }
        if item.hwnd == Some(x) {
            assert(firsts(item)[0] == x);
            assert(w[e2] == x);
        }
        if among(item, n, x) {
            let i = choose|i: int| 0 <= i < n && i < ws.len() && (#[trigger] ws[i]).hwnd == x;
            assert(activation::handles(ws)[i] == x);
            assert(w[e3 + i] == x);
        }
    }
}

/// The windows of an application are tried from the best to the worst: the one in front if
/// it belongs to the item; then those with the label for their title; then those whose
/// title starts with it; then the first window; then all others. Windows that are equally
/// good are tried in their own order.
pub proof fn law_best_window_first(item: ItemView, front: Option<isize>, owned: bool)
    ensures
        ({
            let order = activation::uniq(activation::wanted(item, front, owned));
            let ws = item.windows;
            let n = ws.len() as int;
            &&& forall|b: int|
                0 < b < order.len() ==> !stands_in_front(item, front, owned, #[trigger] order[b])
            &&& forall|a: int, b: int, j: int|
                0 <= a < b < order.len() && 0 <= j < n && (#[trigger] ws[j]).hwnd
                    == #[trigger] order[b] && named_as(ws[j], item) ==> stands_in_front(
                    item,
                    front,
                    owned,
                    #[trigger] order[a],
                ) || named_before(item, j, order[a])
            &&& forall|a: int, b: int, j: int|
                0 <= a < b < order.len() && 0 <= j < n && (#[trigger] ws[j]).hwnd
                    == #[trigger] order[b] && named_after(ws[j], item) ==> stands_in_front(
                    item,
                    front,
                    owned,
                    #[trigger] order[a],
                ) || named_before(item, n, order[a]) || named_after_before(item, j, order[a])
            &&& forall|a: int, b: int|
                0 <= a < b < order.len() && item.hwnd == Some(#[trigger] order[b])
                    ==> stands_in_front(item, front, owned, #[trigger] order[a]) || named_before(
                    item,
                    n,
                    order[a],
                ) || named_after_before(item, n, order[a])
            &&& forall|a: int, b: int, j: int|
                0 <= a < b < order.len() && 0 <= j < n && (#[trigger] ws[j]).hwnd
                    == #[trigger] order[b] ==> stands_in_front(
                    item,
                    front,
                    owned,
                    #[trigger] order[a],
                ) || named_before(item, n, order[a]) || named_after_before(item, n, order[a])
                    || item.hwnd == Some(order[a]) || among(item, j, order[a])
        }),
{
    let ws = item.windows;
    let n = ws.len() as int;
    let w = activation::wanted(item, front, owned);
    let order = activation::uniq(w);
    let (e0, e1, e2, e3) = ends(item, front, owned);
    lemma_wanted(item, front, owned);
    assert forall|a: int, b: int, j: int|
        0 <= a < b < order.len() && 0 <= j < n && (#[trigger] ws[j]).hwnd == #[trigger] order[b]
            && named_as(ws[j], item) implies stands_in_front(item, front, owned, #[trigger] order[a])
        || named_before(item, j, order[a]) by {
        lemma_named_first(item, front, owned, a, b, j);
    }
    assert forall|a: int, b: int, j: int|
        0 <= a < b < order.len() && 0 <= j < n && (#[trigger] ws[j]).hwnd == #[trigger] order[b]
            && named_after(ws[j], item) implies stands_in_front(
        item,
        front,
        owned,
        #[trigger] order[a],
    ) || named_before(item, n, order[a]) || named_after_before(item, j, order[a]) by {
        lemma_named_first(item, front, owned, a, b, j);
    }
    assert forall|a: int, b: int|
        0 <= a < b < order.len() && item.hwnd == Some(#[trigger] order[b]) implies stands_in_front(
        item,
        front,
        owned,
        #[trigger] order[a],
    ) || named_before(item, n, order[a]) || named_after_before(item, n, order[a]) by {
        assert(firsts(item)[0] == order[b]);
        assert(w[e2] == order[b]);
        let c = lemma_before(w, a, b, e2);
        lemma_place(item, front, owned, c);
    }
    assert forall|a: int, b: int, j: int|
        0 <= a < b < order.len() && 0 <= j < n && (#[trigger] ws[j]).hwnd
            == #[trigger] order[b] implies stands_in_front(item, front, owned, #[trigger] order[a])
        || named_before(item, n, order[a]) || named_after_before(item, n, order[a]) || item.hwnd
        == Some(order[a]) || among(item, j, order[a]) by {
        lemma_named_first(item, front, owned, a, b, j);
    }
    assert forall|b: int| 0 < b < order.len() implies !stands_in_front(
        item,
        front,
        owned,
        #[trigger] order[b],
    ) by {
        if stands_in_front(item, front, owned, order[b]) {
            lemma_in_front(item, front, owned, order[b]);
            let f = fronts(item, front, owned);
            let k = choose|k: int| 0 <= k < f.len() && f[k] == order[b];
            assert(w[k] == order[b]);
            let c = lemma_before(w, 0, b, k);
        }
    }
}

/// An item shows the windows of a group: all of them, in order, and the first is the one
/// that it goes by.
pub open spec fn shows_windows(item: ItemView, g: GroupView) -> bool {
    &&& item.windows.len() == g.windows.len()
    &&& forall|k: int|
        0 <= k < g.windows.len() ==> (#[trigger] item.windows[k]).hwnd == g.windows[k].hwnd
            && item.windows[k].title == g.windows[k].title
    &&& item.group_key == Some(g.key)
    &&& item.hwnd == (if g.windows.len() > 0 {
        Some(g.windows[0].hwnd)
    } else {
        None
    })
}

/// An item is the same pin as another: its label, its picture, what it opens, its kind and
/// its role.
pub open spec fn same_pin(a: ItemView, b: ItemView) -> bool {
    &&& a.label == b.label && a.glyph == b.glyph && a.color == b.color
    &&& a.path == b.path && a.icon == b.icon && a.kind == b.kind && a.role == b.role
}

/// A pinned item is the application of a group: it opens the same program, or a window of
/// the group has its label for a title.
pub open spec fn is_application(item: ItemView, g: GroupView) -> bool {
    (item.path is Some && apps::same_program(item.path->0, g.key)) || (text::trimmed(
        item.label,
    ).len() > 0 && exists|i: int|
        0 <= i < g.windows.len() && alike(
            text::trimmed((#[trigger] g.windows[i]).title),
            text::trimmed(item.label),
        ))
}

proof fn lemma_alike(a: Seq<char>, b: Seq<char>)
    ensures
        alike(a, b) <==> text::lower(a) == text::lower(b),
{
    if text::lower(a) == text::lower(b) {
        assert(text::lower(a).len() == text::lower(b).len());
        assert forall|i: int| 0 <= i < a.len() implies text::lower_of(#[trigger] a[i])
            == text::lower_of(b[i]) by {
            assert(text::lower(a)[i] == text::lower(b)[i]);
        }
    }
    if alike(a, b) {
        assert(text::lower(a) =~= text::lower(b));
    }
}

proof fn lemma_identifies(item: ItemView, g: GroupView)
    ensures
        activation::identifies(item.label, item.path, g) <==> is_application(item, g),
{
    let l = text::trimmed(item.label);
    if apps::window_titled(item.label, g.windows) {
        let i = choose|i: int|
            0 <= i < g.windows.len() && text::lower(text::trimmed((#[trigger] g.windows[i]).title))
                == text::lower(l);
        lemma_alike(text::trimmed(g.windows[i].title), l);
    }
    if exists|i: int|
        0 <= i < g.windows.len() && alike(text::trimmed((#[trigger] g.windows[i]).title), l) {
        let i = choose|i: int|
            0 <= i < g.windows.len() && alike(text::trimmed((#[trigger] g.windows[i]).title), l);
        lemma_alike(text::trimmed(g.windows[i].title), l);
    }
}

/// A pinned item of a row has the windows of one of these groups, or those that it had.
pub open spec fn fits_pin(item: ItemView, pin: ItemView, groups: Seq<GroupView>) -> bool {
    same_pin(item, pin) && (item == pin || (pin.windows.len() == 0 && exists|k: int|
        0 <= k < groups.len() && shows_windows(item, #[trigger] groups[k]) && is_application(
            pin,
            groups[k],
        )))
}

/// The pinned items stay in their places and are the same pins. Each has the windows of an
/// application that it is, or those that it had. What is left over has windows, and no
/// pinned item without any is its application.
pub proof fn law_settled(pinned: Seq<ItemView>, groups: Seq<GroupView>)
    requires
        forall|k: int| 0 <= k < groups.len() ==> (#[trigger] groups[k]).windows.len() > 0,
    ensures
        ({
            let (items, rest) = activation::settled(pinned, groups);
            &&& items.len() == pinned.len()
            &&& forall|i: int|
                0 <= i < pinned.len() ==> fits_pin(#[trigger] items[i], pinned[i], groups)
            &&& forall|k: int| 0 <= k < rest.len() ==> groups.contains(#[trigger] rest[k])
            &&& forall|i: int, k: int|
                0 <= i < items.len() && 0 <= k < rest.len() && is_application(
                    #[trigger] pinned[i],
                    #[trigger] rest[k],
                ) ==> items[i].windows.len() > 0
            &&& forall|k: int|
                0 <= k < groups.len() ==> rest.contains(#[trigger] groups[k]) || exists|i: int|
                    0 <= i < items.len() && shows_windows(#[trigger] items[i], groups[k])
        }),
    decreases groups.len(),
{
    if groups.len() > 0 {
        let f = groups.drop_last();
        assert forall|k: int| 0 <= k < f.len() implies (#[trigger] f[k]).windows.len() > 0 by {
            assert(f[k] == groups[k]);
        }
        law_settled(pinned, f);
        let (items, rest) = activation::settled(pinned, f);
        let (now, left) = activation::settled(pinned, groups);
        let g = groups.last();
        assert(g == groups[groups.len() - 1]);
        let at = activation::taker(items, g);
        activation::lemma_taker(items, g);
        assert forall|i: int| 0 <= i < pinned.len() implies fits_pin(
            #[trigger] now[i],
            pinned[i],
            groups,
        ) by {
            assert(fits_pin(items[i], pinned[i], f));
            if i == at {
                lemma_identifies(items[i], g);
                assert(items[i].windows.len() == 0);
                if items[i] != pinned[i] {
                    let k = choose|k: int|
                        0 <= k < f.len() && shows_windows(items[i], #[trigger] f[k])
                            && is_application(pinned[i], f[k]);
                    assert(f[k].windows.len() > 0);
                }
                assert(items[i] == pinned[i]);
                assert(shows_windows(now[i], groups[groups.len() - 1]));
            } else if items[i] != pinned[i] {
                let k = choose|k: int|
                    0 <= k < f.len() && shows_windows(items[i], #[trigger] f[k]) && is_application(
                        pinned[i],
                        f[k],
                    );
                assert(groups[k] == f[k]);
                assert(now[i] == items[i]);
            }
        }
        assert forall|k: int| 0 <= k < left.len() implies groups.contains(#[trigger] left[k]) by {
            if k < rest.len() {
                assert(left[k] == rest[k]);
                assert(f.contains(rest[k]));
                let m = choose|m: int| 0 <= m < f.len() && f[m] == rest[k];
                assert(groups[m] == rest[k]);
            }
        }
        assert forall|i: int, k: int|
            0 <= i < now.len() && 0 <= k < left.len() && is_application(
                #[trigger] pinned[i],
                #[trigger] left[k],
            ) implies now[i].windows.len() > 0 by {
            if k < rest.len() {
                assert(left[k] == rest[k]);
                assert(items[i].windows.len() > 0);
            } else {
                assert(fits_pin(items[i], pinned[i], f));
                lemma_identifies(items[i], g);
                assert(is_application(items[i], g));
                assert(!activation::takes(items[i], g));
            }
        }
        assert forall|k: int| 0 <= k < groups.len() implies left.contains(#[trigger] groups[k])
            || exists|i: int| 0 <= i < now.len() && shows_windows(#[trigger] now[i], groups[k]) by {
            if k < f.len() {
                assert(f[k] == groups[k]);
                if rest.contains(f[k]) {
                    let m = choose|m: int| 0 <= m < rest.len() && rest[m] == f[k];
                    assert(left[m] == f[k]);
                } else {
                    let i = choose|i: int|
                        0 <= i < items.len() && shows_windows(#[trigger] items[i], f[k]);
                    assert(items[i].windows.len() > 0);
                    assert(now[i] == items[i]);
                }
            } else if at < items.len() {
                assert(shows_windows(now[at], g));
            } else {
                assert(left[left.len() - 1] == g);
            }
        }
    } else {
        assert forall|i: int| 0 <= i < pinned.len() implies fits_pin(
            #[trigger] pinned[i],
            pinned[i],
            groups,
        ) by {}
    }
}

/// The parts of the row stand where they belong: Start, the drawer where it is on, the
/// pinned items, and the control center at the end; between the last two a divider and the
/// other applications, and neither where there are none.
pub proof fn law_row(pinned: Seq<ItemView>, groups: Seq<GroupView>, drawer: bool)
    requires
        forall|k: int| 0 <= k < groups.len() ==> (#[trigger] groups[k]).windows.len() > 0,
    ensures
        ({
            let r = activation::row(pinned, groups, drawer);
            let (items, rest) = activation::settled(pinned, groups);
            let from: int = if drawer {
                2
            } else {
                1
            };
            let n = pinned.len() as int;
            &&& r[0].role == ItemRole::Start && r.last().role == ItemRole::Control
            &&& drawer ==> r[1].role == ItemRole::Drawer
            &&& r.len() == from + n + 1 + (if rest.len() > 0 {
                rest.len() + 1
            } else {
                0
            })
            &&& forall|i: int|
                0 <= i < n ==> fits_pin(#[trigger] r[from + i], pinned[i], groups) && r[from + i]
                    == items[i]
            &&& rest.len() > 0 ==> r[from + n].role == ItemRole::Divider
            &&& forall|k: int|
                0 <= k < rest.len() ==> {
                    let item = #[trigger] r[from + n + 1 + k];
                    &&& item.role == ItemRole::Running && item.label == rest[k].label && item.icon
                        == rest[k].icon_path
                    &&& shows_windows(item, rest[k]) && item.path is None
                }
        }),
{
    let r = activation::row(pinned, groups, drawer);
    let (items, rest) = activation::settled(pinned, groups);
    law_settled(pinned, groups);
    let from: int = if drawer {
        2
    } else {
        1
    };
    let n = pinned.len() as int;
    assert forall|i: int| 0 <= i < n implies fits_pin(#[trigger] r[from + i], pinned[i], groups)
        && r[from + i] == items[i] by {
        assert(r[from + i] == items[i]);
    }
    assert forall|k: int| 0 <= k < rest.len() implies {
        let item = #[trigger] r[from + n + 1 + k];
        &&& item.role == ItemRole::Running && item.label == rest[k].label && item.icon
            == rest[k].icon_path
        &&& shows_windows(item, rest[k]) && item.path is None
    } by {
        assert(r[from + n + 1 + k] == apps::running_view(rest[k]));
    }
}

/// Two paths are the same program where they are the same but for case, white space and
/// quote marks around them, or have the same file name.
pub proof fn law_same_program(pinned: Seq<char>, key: Seq<char>)
    ensures
        text::lower(text::stripped(text::trimmed(pinned), '"')) == key ==> apps::same_program(
            pinned,
            key,
        ),
        apps::same_program(pinned, key) && text::lower(text::stripped(text::trimmed(pinned), '"'))
            != key ==> crate::paths::name_of(key) is Some && crate::paths::name_of(
            text::lower(text::stripped(text::trimmed(pinned), '"')),
        ) == crate::paths::name_of(key),
{
}

/// What an item of the file launches: its path, or else its executable, or else where its
/// application is registered.
pub proof fn law_resolved(spec: crate::config::ItemView, app_path: Option<Seq<char>>)
    ensures
        spec.path is Some ==> apps::resolved_of(spec, app_path) == spec.path,
        spec.path is None && spec.exe is Some ==> apps::resolved_of(spec, app_path) == spec.exe,
        spec.path is None && spec.exe is None && spec.app is Some ==> apps::resolved_of(
            spec,
            app_path,
        ) == app_path,
        spec.path is None && spec.exe is None && spec.app is None ==> apps::resolved_of(
            spec,
            app_path,
        ) is None,
{
}

/// An item of the file becomes a pinned item of the dock that opens what it launches and
/// has its label and its icon, without windows; nothing comes of it only where it neither
/// launches anything nor has an icon.
pub proof fn law_built(spec: crate::config::ItemView, app_path: Option<Seq<char>>, is_dir: bool)
    ensures
        ({
            let b = apps::built(spec, app_path, is_dir);
            let path = apps::resolved_of(spec, app_path);
            &&& b.len() == 0 <==> path is None && spec.icon is None
            &&& b.len() <= 1
            &&& b.len() == 1 ==> {
                &&& b[0].role == ItemRole::Pinned && b[0].path == path && b[0].icon == spec.icon
                &&& b[0].hwnd is None && b[0].group_key is None && b[0].windows.len() == 0
                &&& spec.label matches Some(l) ==> b[0].label == l
                &&& spec.label is None && path is Some && crate::paths::stem_of(path->0) is Some
                    ==> b[0].label == crate::paths::stem_of(path->0)->0
                &&& path is Some && is_dir ==> b[0].kind == ContentKind::Folder
                &&& path matches Some(p) ==> b[0].kind == content::kind_of(p, is_dir)
            }
        }),
{
}

/// How many of the first items of the file come to something.
pub open spec fn built_before(
    specs: Seq<crate::config::ItemView>,
    found: Seq<apps::Lookup>,
    i: int,
) -> int
    decreases i,
{
    if i <= 0 {
        0
    } else {
        built_before(specs, found, i - 1) + (if apps::resolved_of(
            specs[i - 1],
            text::opt_text(found[i - 1].app_path),
        ) is None && specs[i - 1].icon is None {
            0int
        } else {
            1
        })
    }
}

proof fn lemma_built_before(
    specs: Seq<crate::config::ItemView>,
    found: Seq<apps::Lookup>,
    n: int,
    i: int,
)
    requires
        0 <= i <= n <= specs.len(),
        specs.len() == found.len(),
    ensures
        built_before(specs.take(n), found.take(n), i) == built_before(specs, found, i),
        built_before(specs, found, i) >= 0,
    decreases i,
{
    if i > 0 {
        lemma_built_before(specs, found, n, i - 1);
    }
}

/// The items of the file become items of the dock in their order.
pub proof fn law_built_in_order(specs: Seq<crate::config::ItemView>, found: Seq<apps::Lookup>)
    requires
        specs.len() == found.len(),
    ensures
        apps::built_all(specs, found).len() == built_before(specs, found, specs.len() as int),
        forall|i: int|
            0 <= i < specs.len() && (apps::resolved_of(
                #[trigger] specs[i],
                text::opt_text(found[i].app_path),
            ) is Some || specs[i].icon is Some) ==> {
                let k = built_before(specs, found, i);
                &&& 0 <= k < apps::built_all(specs, found).len()
                &&& apps::built_all(specs, found)[k].path == apps::resolved_of(
                    specs[i],
                    text::opt_text(found[i].app_path),
                )
                &&& apps::built_all(specs, found)[k].icon == specs[i].icon
                &&& specs[i].label matches Some(l) ==> apps::built_all(specs, found)[k].label == l
            },
    decreases specs.len(),
{
    if specs.len() > 0 {
        let n = specs.len() - 1;
        let s = specs.drop_last();
        let l = found.drop_last();
        assert(s =~= specs.take(n) && l =~= found.take(n));
        law_built_in_order(s, l);
        lemma_built_before(specs, found, n, n);
        let all = apps::built_all(specs, found);
        let front = apps::built_all(s, l);
        law_built(specs.last(), text::opt_text(found.last().app_path), found.last().is_dir);
        assert forall|i: int|
            0 <= i < specs.len() && (apps::resolved_of(
                #[trigger] specs[i],
                text::opt_text(found[i].app_path),
            ) is Some || specs[i].icon is Some) implies {
            let k = built_before(specs, found, i);
            &&& 0 <= k < all.len()
            &&& all[k].path == apps::resolved_of(specs[i], text::opt_text(found[i].app_path))
            &&& all[k].icon == specs[i].icon
            &&& specs[i].label matches Some(l) ==> all[k].label == l
        } by {
            lemma_built_before(specs, found, n, i);
            if i < n {
                assert(s[i] == specs[i] && l[i] == found[i]);
                let k = built_before(s, l, i);
                assert(all[k] == front[k]);
            }
        }
    }
}

/// The newest program is one of those that were found, none is newer, and those before it
/// are older; there is one unless none was found.
pub proof fn law_newest(ds: Seq<apps::Dated>)
    ensures
        apps::newest(ds) is None <==> ds.len() == 0,
        apps::newest(ds) matches Some(i) ==> 0 <= i < ds.len() && (forall|j: int|
            0 <= j < ds.len() ==> (#[trigger] ds[j]).modified <= ds[i].modified) && (forall|j: int|
            0 <= j < i ==> (#[trigger] ds[j]).modified < ds[i].modified),
    decreases ds.len(),
{
    if ds.len() > 0 {
        let f = ds.drop_last();
        law_newest(f);
        assert(forall|j: int| 0 <= j < f.len() ==> f[j] == #[trigger] ds[j]);
        if let Some(i) = apps::newest(ds) {
            assert forall|j: int| 0 <= j < ds.len() implies (#[trigger] ds[j]).modified
                <= ds[i].modified by {
                if j < f.len() {
                    assert(f[j] == ds[j]);
                }
            }
            assert forall|j: int| 0 <= j < i implies (#[trigger] ds[j]).modified
                < ds[i].modified by {
                assert(f[j] == ds[j]);
            }
        }
    }
}

} // verus!
