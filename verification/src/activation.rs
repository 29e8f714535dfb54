//! Which window a click on an icon goes to, which icon an open window belongs to, and
//! the row of the dock that follows from the pinned items and the open windows.

use vstd::prelude::*;
use crate::apps;
use crate::content::ContentKind;
use crate::dock;
use crate::dock::{DockItem, ItemView, RefView};
use crate::text;
use crate::windows_list;
use crate::windows_list::{GroupView, RunningGroup, RunningWindow, WindowView};

verus! {

/// What tells one state of the open windows from another.
#[derive(Clone, Debug, PartialEq, Eq)]
pub struct RunningSig {
    pub hwnd: isize,
    pub title: String,
    pub exe_path: Option<String>,
}

impl View for RunningSig {
    type V = WindowView;

    open spec fn view(&self) -> WindowView {
        WindowView {
            hwnd: self.hwnd,
            title: self.title@,
            exe_path: text::opt_text(self.exe_path),
        }
    }
}

pub open spec fn sig_views(v: Seq<RunningSig>) -> Seq<WindowView> {
    v.map_values(|s: RunningSig| s@)
}

/// The title is the label.
pub open spec fn title_is(title: Seq<char>, label: Seq<char>) -> bool {
    label.len() > 0 && text::lower(text::trimmed(title)) == text::lower(label)
}

/// The title starts with the label and a blank.
pub open spec fn title_begins(title: Seq<char>, label: Seq<char>) -> bool {
    label.len() > 0 && text::begins(
        text::lower(text::trimmed(title)),
        text::lower(label).push(' '),
    )
}

/// The handles of the windows whose title is the label.
pub open spec fn titled(ws: Seq<RefView>, label: Seq<char>) -> Seq<isize>
    decreases ws.len(),
{
    if ws.len() == 0 {
        seq![]
    } else {
        let front = titled(ws.drop_last(), label);
        if title_is(ws.last().title, label) {
            front.push(ws.last().hwnd)
        } else {
            front
        }
    }
}

/// The handles of the windows whose title starts with the label.
pub open spec fn prefixed(ws: Seq<RefView>, label: Seq<char>) -> Seq<isize>
    decreases ws.len(),
{
    if ws.len() == 0 {
        seq![]
    } else {
        let front = prefixed(ws.drop_last(), label);
        if title_begins(ws.last().title, label) {
            front.push(ws.last().hwnd)
        } else {
            front
        }
    }
}

pub open spec fn handles(ws: Seq<RefView>) -> Seq<isize> {
    ws.map_values(|w: RefView| w.hwnd)
}

/// An item has this window.
pub open spec fn has_window(item: ItemView, raw: isize) -> bool {
    item.hwnd == Some(raw) || handles(item.windows).contains(raw)
}

/// The windows to try, best first, with repetitions: the one in front if it belongs to
/// the item, those with the label for a title, those whose title starts with it, the
/// first window, and all others.
pub open spec fn wanted(item: ItemView, front: Option<isize>, owned: bool) -> Seq<isize> {
    let label = text::trimmed(item.label);
    (match front {
        Some(raw) => if owned || has_window(item, raw) {
            seq![raw]
        } else {
            seq![]
        },
        None => seq![],
    }) + titled(item.windows, label) + prefixed(item.windows, label) + (match item.hwnd {
        Some(raw) => seq![raw],
        None => seq![],
    }) + handles(item.windows)
}

/// `s` without what occurs earlier in it.
pub open spec fn uniq(s: Seq<isize>) -> Seq<isize>
    decreases s.len(),
{
    if s.len() == 0 {
        seq![]
    } else {
        let front = uniq(s.drop_last());
        if front.contains(s.last()) {
            front
        } else {
            front.push(s.last())
        }
    }
}

/// A pinned item is the application of a group, by its program or by its label.
pub open spec fn identifies(label: Seq<char>, path: Option<Seq<char>>, g: GroupView) -> bool {
    (path is Some && apps::same_program(path->0, g.key)) || apps::window_titled(label, g.windows)
}

/// A pinned item that has no windows yet and is the application of a group.
pub open spec fn takes(item: ItemView, g: GroupView) -> bool {
    item.windows.len() == 0 && identifies(item.label, item.path, g)
}

/// The first of these items that takes a group, or their number.
pub open spec fn taker(items: Seq<ItemView>, g: GroupView) -> int
    decreases items.len(),
{
    if items.len() == 0 || takes(items[0], g) {
        0
    } else {
        1 + taker(items.skip(1), g)
    }
}

/// The pinned items with the windows that belong to them, and the groups that belong to
/// none.
pub open spec fn settled(pinned: Seq<ItemView>, groups: Seq<GroupView>) -> (
    Seq<ItemView>,
    Seq<GroupView>,
)
    decreases groups.len(),
{
    if groups.len() == 0 {
        (pinned, seq![])
    } else {
        let (items, rest) = settled(pinned, groups.drop_last());
        let g = groups.last();
        let at = taker(items, g);
        if at < items.len() {
            (items.update(at, apps::attached(items[at], g)), rest)
        } else {
            (items, rest.push(g))
        }
    }
}

/// The row of the dock: Start, the drawer if it is on, the pinned items, a divider and
/// the other applications if there are any, and the control center.
pub open spec fn row(pinned: Seq<ItemView>, groups: Seq<GroupView>, drawer: bool) -> Seq<ItemView> {
    let (items, rest) = settled(pinned, groups);
    seq![apps::start_view()] + (if drawer {
        seq![apps::drawer_view()]
    } else {
        seq![]
    }) + items + (if rest.len() > 0 {
        seq![apps::divider_view()] + rest.map_values(|g: GroupView| apps::running_view(g))
    } else {
        seq![]
    }) + seq![apps::control_view()]
}

/// What tells this state of the open windows from another.
pub fn running_sig(running: &Vec<RunningWindow>) -> (r: Vec<RunningSig>)
    ensures
        sig_views(r@) == windows_list::window_views(running@),
{
    let ghost all = windows_list::window_views(running@);
    let mut out: Vec<RunningSig> = Vec::new();
    let mut i: usize = 0;
    while i < running.len()
        invariant
            i <= running@.len(),
            all == windows_list::window_views(running@),
            sig_views(out@) == all.take(i as int),
        decreases running@.len() - i,
    {
        let ghost was = out@;
        let s = RunningSig {
            hwnd: running[i].hwnd,
            title: text::copy_text(running[i].title.as_str()),
            exe_path: text::copy_opt(&running[i].exe_path),
        };
        out.push(s);
        proof {
            assert(sig_views(out@) =~= sig_views(was).push(s@));
            assert(all.take(i as int + 1) =~= all.take(i as int).push(s@));
        }
        i += 1;
    }
    assert(all.take(i as int) =~= all);
    out
}

fn same_opt(a: &Option<String>, b: &Option<String>) -> (r: bool)
    ensures
        r == (text::opt_text(*a) == text::opt_text(*b)),
{
    match (a, b) {
        (Some(x), Some(y)) => text::same(x.as_str(), y.as_str()),
        (None, None) => true,
        _ => false,
    }
}

/// Whether two states of the open windows are the same.
pub fn same_sig(a: &Vec<RunningSig>, b: &Vec<RunningSig>) -> (r: bool)
    ensures
        r == (sig_views(a@) == sig_views(b@)),
{
    if a.len() != b.len() {
        assert(sig_views(a@).len() != sig_views(b@).len());
        return false;
    }
    let mut i: usize = 0;
    while i < a.len()
        invariant
            i <= a@.len(),
            a@.len() == b@.len(),
            forall|j: int| 0 <= j < i ==> #[trigger] sig_views(a@)[j] == sig_views(b@)[j],
        decreases a@.len() - i,
    {
        if a[i].hwnd != b[i].hwnd || !text::same(a[i].title.as_str(), b[i].title.as_str())
            || !same_opt(&a[i].exe_path, &b[i].exe_path) {
            assert(sig_views(a@)[i as int] != sig_views(b@)[i as int]);
            return false;
        }
        assert(sig_views(a@)[i as int] =~= sig_views(b@)[i as int]);
        i += 1;
    }
    assert(sig_views(a@) =~= sig_views(b@));
    true
}

/// Whether a title is a label; white space around the title and letter case make no
/// difference.
pub fn title_equals_label(title: &str, label: &str) -> (r: bool)
    ensures
        r == title_is(title@, label@),
{
    let l = text::chars_of(label);
    if l.len() == 0 {
        return false;
    }
    let t = text::chars_of(title);
    let have = text::lower_chars(text::trim(&t));
    let want = text::lower_chars(&l);
    text::same_chars(&have, &want)
}

/// Whether a title starts with a label and a blank.
pub fn title_starts_with_label(title: &str, label: &str) -> (r: bool)
    ensures
        r == title_begins(title@, label@),
{
    let l = text::chars_of(label);
    if l.len() == 0 {
        return false;
    }
    let t = text::chars_of(title);
    let have = text::lower_chars(text::trim(&t));
    let mut want = text::lower_chars(&l);
    want.push(' ');
    text::begins_with(&have, &want)
}

fn holds_handle(v: &Vec<isize>, raw: isize) -> (r: bool)
    ensures
        r == v@.contains(raw),
{
    let mut i: usize = 0;
    while i < v.len()
        invariant
            i <= v@.len(),
            forall|j: int| 0 <= j < i ==> v@[j] != raw,
        decreases v@.len() - i,
    {
        if v[i] == raw {
            assert(v@[i as int] == raw);
            return true;
        }
        i += 1;
    }
    false
}

fn push_new(order: &mut Vec<isize>, raw: isize, Ghost(seen): Ghost<Seq<isize>>)
    requires
        old(order)@ == uniq(seen),
    ensures
        final(order)@ == uniq(seen.push(raw)),
{
    assert(seen.push(raw).drop_last() =~= seen);
    if !holds_handle(order, raw) {
        order.push(raw);
    }
}

fn item_has_window(item: &DockItem, raw: isize) -> (r: bool)
    ensures
        r == has_window(item@, raw),
{
    if let Some(h) = item.hwnd {
        if h == raw {
            return true;
        }
    }
    let ghost hs = handles(item@.windows);
    let mut i: usize = 0;
    while i < item.windows.len()
        invariant
            i <= item.windows@.len(),
            hs == handles(item@.windows),
            item@.hwnd != Some(raw),
            forall|j: int| 0 <= j < i ==> #[trigger] hs[j] != raw,
        decreases item.windows@.len() - i,
    {
        assert(hs[i as int] == item.windows@[i as int].hwnd);
        if item.windows[i].hwnd == raw {
            assert(hs.contains(raw));
            return true;
        }
        i += 1;
    }
    false
}

/// The windows to go to, best first, each once, given the window in front and whether it
/// belongs to the item in another way.
pub fn activation_order_with_foreground_owned(
    item: &DockItem,
    foreground: Option<isize>,
    foreground_owned_by_item: bool,
) -> (r: Vec<isize>)
    ensures
        r@ == uniq(wanted(item@, foreground, foreground_owned_by_item)),
{
    let ghost ws = item@.windows;
    let l = text::chars_of(item.label.as_str());
    let label = text::string_of(text::trim(&l));
    let mut order: Vec<isize> = Vec::new();
    let ghost mut seen: Seq<isize> = seq![];
    if let Some(raw) = foreground {
        if foreground_owned_by_item || item_has_window(item, raw) {
            push_new(&mut order, raw, Ghost(seen));
            proof {
                seen = seen.push(raw);
            }
        }
    }
    let ghost first = seen;
    let mut i: usize = 0;
    assert(seen =~= first + titled(ws.take(0), label@));
    while i < item.windows.len()
        invariant
            i <= item.windows@.len(),
            ws == item@.windows,
            order@ == uniq(seen),
            seen == first + titled(ws.take(i as int), label@),
        decreases item.windows@.len() - i,
    {
        proof {
            assert(ws.take(i as int + 1).drop_last() =~= ws.take(i as int));
            assert(ws.take(i as int + 1).last() == item.windows@[i as int]@);
        }
        if title_equals_label(item.windows[i].title.as_str(), label.as_str()) {
            let raw: isize = item.windows[i].hwnd;
            push_new(&mut order, raw, Ghost(seen));
            proof {
                seen = seen.push(raw);
                assert(seen =~= first + titled(ws.take(i as int + 1), label@));
            }
        }
        i += 1;
    }
    assert(ws.take(i as int) =~= ws);
    let ghost second = seen;
    let mut k: usize = 0;
    assert(seen =~= second + prefixed(ws.take(0), label@));
    while k < item.windows.len()
        invariant
            k <= item.windows@.len(),
            ws == item@.windows,
            order@ == uniq(seen),
            seen == second + prefixed(ws.take(k as int), label@),
        decreases item.windows@.len() - k,
    {
        proof {
            assert(ws.take(k as int + 1).drop_last() =~= ws.take(k as int));
            assert(ws.take(k as int + 1).last() == item.windows@[k as int]@);
        }
        if title_starts_with_label(item.windows[k].title.as_str(), label.as_str()) {
            let raw: isize = item.windows[k].hwnd;
            push_new(&mut order, raw, Ghost(seen));
            proof {
                seen = seen.push(raw);
                assert(seen =~= second + prefixed(ws.take(k as int + 1), label@));
            }
        }
        k += 1;
    }
    assert(ws.take(k as int) =~= ws);
    if let Some(primary) = item.hwnd {
        push_new(&mut order, primary, Ghost(seen));
        proof {
            seen = seen.push(primary);
        }
    }
    let ghost fourth = seen;
    let ghost hs = handles(ws);
    let mut m: usize = 0;
    assert(seen =~= fourth + hs.take(0));
    while m < item.windows.len()
        invariant
            m <= item.windows@.len(),
            ws == item@.windows,
            hs == handles(ws),
            order@ == uniq(seen),
            seen == fourth + hs.take(m as int),
        decreases item.windows@.len() - m,
    {
        let raw: isize = item.windows[m].hwnd;
        push_new(&mut order, raw, Ghost(seen));
        proof {
            assert(hs[m as int] == raw);
            assert(hs.take(m as int + 1) =~= hs.take(m as int).push(raw));
            seen = seen.push(raw);
            assert(seen =~= fourth + hs.take(m as int + 1));
        }
        m += 1;
    }
    proof {
        assert(hs.take(m as int) =~= hs);
        assert(seen =~= wanted(item@, foreground, foreground_owned_by_item));
    }
    order
}

/// The windows to go to, best first, given the window in front.
pub fn activation_order_with_foreground(item: &DockItem, foreground: Option<isize>) -> (r: Vec<
    isize,
>)
    ensures
        r@ == uniq(wanted(item@, foreground, false)),
{
    activation_order_with_foreground_owned(item, foreground, false)
}

/// The window to go to.
pub fn activation_target(item: &DockItem) -> (r: Option<isize>)
    ensures
        ({
            let order = uniq(wanted(item@, None, false));
            r == (if order.len() > 0 {
                Some(order[0])
            } else {
                None
            })
        }),
{
    let order = activation_order_with_foreground(item, None);
    if order.len() > 0 {
        Some(order[0])
    } else {
        None
    }
}

/// Whether the window in front belongs to an item: it is one of its windows, or it is a
/// window of the dock's list whose program is the item's.
pub fn foreground_window_belongs_to_item(
    item: &DockItem,
    raw: isize,
    listed: bool,
    exe_path: &Option<String>,
) -> (r: bool)
    ensures
        r <==> has_window(item@, raw) || (listed && exe_path is Some && ((item@.group_key is Some
            && apps::same_program(exe_path->0@, item@.group_key->0)) || (item@.kind
            == ContentKind::Application && item@.path is Some && apps::same_program(
            item@.path->0,
            exe_path->0@,
        )))),
{
    if item_has_window(item, raw) {
        return true;
    }
    if !listed {
        return false;
    }
    let exe = match exe_path {
        Some(p) => p,
        None => {
            return false;
        },
    };
    if let Some(key) = &item.group_key {
        if apps::exe_matches(exe.as_str(), key.as_str()) {
            return true;
        }
    }
    match &item.path {
        Some(path) => item.kind == ContentKind::Application && apps::exe_matches(
            path.as_str(),
            exe.as_str(),
        ),
        None => false,
    }
}

/// Whether a pinned item is the application of a group.
pub fn pinned_identity_matches_group(label: &str, path: &Option<String>, group: &RunningGroup) -> (r:
    bool)
    ensures
        r == identifies(label@, text::opt_text(*path), group@),
{
    if let Some(p) = path {
        if apps::exe_matches(p.as_str(), group.key.as_str()) {
            return true;
        }
    }
    apps::title_matches_label(label, group)
}

/// Whether a pinned item takes the windows of a group.
pub fn pinned_matches_group(item: &DockItem, group: &RunningGroup) -> (r: bool)
    ensures
        r == takes(item@, group@),
{
    item.windows.len() == 0 && pinned_identity_matches_group(
        item.label.as_str(),
        &item.path,
        group,
    )
}

/// The first group that a pinned item, windows or not, is the application of.
pub fn find_group_for_pinned(
    label: &str,
    path: &Option<String>,
    groups: &Vec<RunningGroup>,
) -> (r: Option<usize>)
    ensures
        match r {
            Some(i) => i < groups@.len() && identifies(
                label@,
                text::opt_text(*path),
                groups@[i as int]@,
            ) && forall|j: int|
                0 <= j < i ==> !identifies(
                    label@,
                    text::opt_text(*path),
                    (#[trigger] groups@[j])@,
                ),
            None => forall|j: int|
                0 <= j < groups@.len() ==> !identifies(
                    label@,
                    text::opt_text(*path),
                    (#[trigger] groups@[j])@,
                ),
        },
{
    let mut i: usize = 0;
    while i < groups.len()
        invariant
            i <= groups@.len(),
            forall|j: int|
                0 <= j < i ==> !identifies(
                    label@,
                    text::opt_text(*path),
                    (#[trigger] groups@[j])@,
                ),
        decreases groups@.len() - i,
    {
        if pinned_identity_matches_group(label, path, &groups[i]) {
            return Some(i);
        }
        i += 1;
    }
    None
}

/// A group is the one that an icon stands for: by its key or by the icon's label.
pub open spec fn stands_for(label: Seq<char>, key: Option<Seq<char>>, g: GroupView) -> bool {
    key == Some(g.key) || apps::window_titled(label, g.windows)
}

/// The first group that the icon of an open application stands for.
pub fn find_group_for_running(
    label: &str,
    group_key: &Option<String>,
    groups: &Vec<RunningGroup>,
) -> (r: Option<usize>)
    ensures
        match r {
            Some(i) => i < groups@.len() && stands_for(
                label@,
                text::opt_text(*group_key),
                groups@[i as int]@,
            ) && forall|j: int|
                0 <= j < i ==> !stands_for(
                    label@,
                    text::opt_text(*group_key),
                    (#[trigger] groups@[j])@,
                ),
            None => forall|j: int|
                0 <= j < groups@.len() ==> !stands_for(
                    label@,
                    text::opt_text(*group_key),
                    (#[trigger] groups@[j])@,
                ),
        },
{
    let mut i: usize = 0;
    while i < groups.len()
        invariant
            i <= groups@.len(),
            forall|j: int|
                0 <= j < i ==> !stands_for(
                    label@,
                    text::opt_text(*group_key),
                    (#[trigger] groups@[j])@,
                ),
        decreases groups@.len() - i,
    {
        let by_key: bool = match group_key {
            Some(k) => text::same(k.as_str(), groups[i].key.as_str()),
            None => false,
        };
        if by_key || apps::title_matches_label(label, &groups[i]) {
            return Some(i);
        }
        i += 1;
    }
    None
}

pub proof fn lemma_taker(items: Seq<ItemView>, g: GroupView)
    ensures
        0 <= taker(items, g) <= items.len(),
        taker(items, g) < items.len() ==> takes(items[taker(items, g)], g),
        forall|i: int| 0 <= i < taker(items, g) ==> !takes(#[trigger] items[i], g),
    decreases items.len(),
{
    if items.len() > 0 && !takes(items[0], g) {
        lemma_taker(items.skip(1), g);
        assert forall|i: int| 0 <= i < taker(items, g) implies !takes(#[trigger] items[i], g) by {
            if i > 0 {
                assert(items.skip(1)[i - 1] == items[i]);
            }
        }
    }
}

fn find_taker(items: &Vec<DockItem>, g: &RunningGroup) -> (r: usize)
    ensures
        r == taker(dock::item_views(items@), g@),
        r <= items@.len(),
{
    let ghost all = dock::item_views(items@);
    let mut i: usize = 0;
    while i < items.len() && !pinned_matches_group(&items[i], g)
        invariant
            i <= items@.len(),
            all == dock::item_views(items@),
            forall|j: int| 0 <= j < i ==> !takes(#[trigger] all[j], g@),
        decreases items@.len() - i,
    {
        i += 1;
    }
    proof {
        lemma_taker(all, g@);
        if i < items@.len() {
            assert(takes(all[i as int], g@));
        }
    }
    i
}

/// The pinned items of the dock: those of the file, or the built-in ones where the file
/// makes none.
pub fn pinned_or_default(from_file: Vec<DockItem>, built_in: Vec<DockItem>) -> (r: Vec<DockItem>)
    ensures
        r@ == (if from_file@.len() > 0 {
            from_file@
        } else {
            built_in@
        }),
{
    if from_file.len() > 0 {
        from_file
    } else {
        built_in
    }
}

/// The row of the dock for these pinned items and open windows.
pub fn compose_items(pinned: Vec<DockItem>, running: &Vec<RunningWindow>, drawer_enabled: bool) -> (r:
    Vec<DockItem>)
    ensures
        dock::item_views(r@) == row(
            dock::item_views(pinned@),
            windows_list::grouped(windows_list::window_views(running@)),
            drawer_enabled,
        ),
{
    let ghost start = dock::item_views(pinned@);
    let groups = windows_list::group_by_application(running);
    let ghost gs = windows_list::group_views(groups@);
    let mut pinned = pinned;
    let mut rest: Vec<usize> = Vec::new();
    let ghost mut rest_views: Seq<GroupView> = seq![];
    let mut i: usize = 0;
    assert((dock::item_views(pinned@), rest_views) == settled(start, gs.take(0)));
    while i < groups.len()
        invariant
            i <= groups@.len(),
            gs == windows_list::group_views(groups@),
            (dock::item_views(pinned@), rest_views) == settled(start, gs.take(i as int)),
            rest@.len() == rest_views.len(),
            forall|k: int|
                0 <= k < rest@.len() ==> (#[trigger] rest@[k]) < groups@.len() && rest_views[k]
                    == groups@[rest@[k] as int]@,
        decreases groups@.len() - i,
    {
        proof {
            assert(gs.take(i as int + 1).drop_last() =~= gs.take(i as int));
            assert(gs.take(i as int + 1).last() == groups@[i as int]@);
        }
        let ghost was = dock::item_views(pinned@);
        let at: usize = find_taker(&pinned, &groups[i]);
        if at < pinned.len() {
            apps::attach_running(&mut pinned[at], &groups[i]);
            assert(dock::item_views(pinned@) =~= was.update(
                at as int,
                apps::attached(was[at as int], groups@[i as int]@),
            ));
        } else {
            rest.push(i);
            proof {
                rest_views = rest_views.push(groups@[i as int]@);
            }
        }
        i += 1;
    }
    assert(gs.take(i as int) =~= gs);
    let ghost settled_items = dock::item_views(pinned@);
    let mut items: Vec<DockItem> = Vec::new();
    items.push(apps::start_item());
    if drawer_enabled {
        items.push(apps::drawer_item());
    }
    let ghost head = dock::item_views(items@);
    assert(head =~= seq![apps::start_view()] + (if drawer_enabled {
        seq![apps::drawer_view()]
    } else {
        seq![]
    }));
    items.append(&mut pinned);
    assert(dock::item_views(items@) =~= head + settled_items);
    if rest.len() > 0 {
        items.push(apps::divider_item());
        let ghost base = dock::item_views(items@);
        assert(base =~= (head + settled_items).push(apps::divider_view()));
        let ghost runs = rest_views.map_values(|g: GroupView| apps::running_view(g));
        let mut k: usize = 0;
        assert(dock::item_views(items@) =~= base + runs.take(0));
        while k < rest.len()
            invariant
                k <= rest@.len(),
                rest@.len() == rest_views.len(),
                runs == rest_views.map_values(|g: GroupView| apps::running_view(g)),
                forall|k: int|
                    0 <= k < rest@.len() ==> (#[trigger] rest@[k]) < groups@.len() && rest_views[k]
                        == groups@[rest@[k] as int]@,
                dock::item_views(items@) == base + runs.take(k as int),
            decreases rest@.len() - k,
        {
            let ghost so_far = items@;
            assert(rest@[k as int] < groups@.len());
            let item = apps::running_item(&groups[rest[k]]);
            items.push(item);
            proof {
                assert(dock::item_views(items@) =~= dock::item_views(so_far).push(item@));
                assert(runs.take(k as int + 1) =~= runs.take(k as int).push(item@));
            }
            k += 1;
        }
        assert(runs.take(k as int) =~= runs);
        assert(dock::item_views(items@) =~= head + settled_items + (seq![apps::divider_view()]
            + runs));
    } else {
        assert(rest_views.len() == 0);
        assert(dock::item_views(items@) =~= head + settled_items + seq![]);
    }
    items.push(apps::control_item());
    assert(dock::item_views(items@) =~= row(start, gs, drawer_enabled));
    items
}

/// No window is tried twice, and the windows that are tried are those that are wanted.
pub proof fn law_uniq(s: Seq<isize>)
    ensures
        uniq(s).no_duplicates(),
        forall|x: isize| #[trigger] uniq(s).contains(x) <==> s.contains(x),
        s.len() > 0 ==> uniq(s).len() > 0 && uniq(s)[0] == s[0],
    decreases s.len(),
{
    if s.len() > 0 {
        let f = s.drop_last();
        law_uniq(f);
        let u = uniq(f);
        let r = uniq(s);
        assert forall|x: isize| #[trigger] r.contains(x) <==> s.contains(x) by {
            if s.contains(x) {
                let k = choose|k: int| 0 <= k < s.len() && s[k] == x;
                if k < f.len() {
                    assert(f[k] == x);
                    assert(u.contains(x));
                    let m = choose|m: int| 0 <= m < u.len() && u[m] == x;
                    assert(r[m] == x);
                } else if !u.contains(x) {
                    assert(r[r.len() - 1] == x);
                }
            }
            if r.contains(x) {
                let m = choose|m: int| 0 <= m < r.len() && r[m] == x;
                if m < u.len() {
                    assert(u[m] == x);
                    assert(u.contains(x));
                    let k = choose|k: int| 0 <= k < f.len() && f[k] == x;
                    assert(s[k] == x);
                } else {
                    assert(s[s.len() - 1] == x);
                }
            }
        }
        if f.len() == 0 {
            assert(u.len() == 0);
        } else {
            assert(f[0] == s[0]);
        }
    }
}

/// Every window of an item is tried, and the window in front is tried first if it belongs
/// to the item.
pub proof fn law_every_window_is_tried(item: ItemView, front: Option<isize>, owned: bool)
    ensures
        forall|i: int|
            0 <= i < item.windows.len() ==> uniq(wanted(item, front, owned)).contains(
                (#[trigger] item.windows[i]).hwnd,
            ),
        front is Some && (owned || has_window(item, front->0)) ==> uniq(
            wanted(item, front, owned),
        ).len() > 0 && uniq(wanted(item, front, owned))[0] == front->0,
{
    let w = wanted(item, front, owned);
    law_uniq(w);
    let hs = handles(item.windows);
    assert forall|i: int| 0 <= i < item.windows.len() implies uniq(w).contains(
        (#[trigger] item.windows[i]).hwnd,
    ) by {
        let at = w.len() - hs.len() + i;
        assert(w[at] == hs[i]);
        assert(w.contains(item.windows[i].hwnd));
    }
}

/// A group that has found its place in the row.
pub open spec fn shown(items: Seq<ItemView>, rest: Seq<GroupView>, g: GroupView) -> bool {
    rest.contains(g) || exists|i: int|
        0 <= i < items.len() && (#[trigger] items[i]).windows == apps::refs_of(g.windows)
            && items[i].group_key == Some(g.key)
}

/// No open application is missing from the row: each is merged into a pinned item or has
/// an item of its own.
pub proof fn law_every_group_is_shown(pinned: Seq<ItemView>, groups: Seq<GroupView>)
    requires
        forall|k: int| 0 <= k < groups.len() ==> (#[trigger] groups[k]).windows.len() > 0,
    ensures
        ({
            let (items, rest) = settled(pinned, groups);
            &&& items.len() == pinned.len()
            &&& forall|k: int| 0 <= k < groups.len() ==> shown(items, rest, #[trigger] groups[k])
            &&& rest.len() <= groups.len()
        }),
    decreases groups.len(),
{
    if groups.len() > 0 {
        let f = groups.drop_last();
        assert forall|k: int| 0 <= k < f.len() implies (#[trigger] f[k]).windows.len() > 0 by {
            assert(f[k] == groups[k]);
        }
        law_every_group_is_shown(pinned, f);
        let (items, rest) = settled(pinned, f);
        let (new_items, new_rest) = settled(pinned, groups);
        let g = groups.last();
        let at = taker(items, g);
        lemma_taker(items, g);
        assert(g == groups[groups.len() - 1]);
        assert forall|k: int| 0 <= k < groups.len() implies shown(
            new_items,
            new_rest,
            #[trigger] groups[k],
        ) by {
            if k < f.len() {
                assert(shown(items, rest, f[k]));
                if rest.contains(f[k]) {
                    let m = choose|m: int| 0 <= m < rest.len() && rest[m] == f[k];
                    assert(new_rest[m] == f[k]);
                } else {
                    let i = choose|i: int|
                        0 <= i < items.len() && (#[trigger] items[i]).windows == apps::refs_of(
                            f[k].windows,
                        ) && items[i].group_key == Some(f[k].key);
                    assert(items[i].windows.len() > 0);
                    assert(i != at);
                    assert(new_items[i] == items[i]);
                }
            } else if at < items.len() {
                assert(new_items[at].windows == apps::refs_of(g.windows));
            } else {
                assert(new_rest[new_rest.len() - 1] == g);
            }
        }
    }
}

/// The row starts with Start and ends with the control center.
pub proof fn law_row_ends(pinned: Seq<ItemView>, groups: Seq<GroupView>, drawer: bool)
    ensures
        row(pinned, groups, drawer).len() >= 2,
        row(pinned, groups, drawer)[0] == apps::start_view(),
        row(pinned, groups, drawer).last() == apps::control_view(),
{
}

} // verus!
