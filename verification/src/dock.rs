//! The row of the dock: its items, the state of their slots, and how a new list of items
//! is merged into a row that is still moving.
//!
//! The animated values of a slot are the bits of single-precision floats, so that the
//! rules here and the easing of the painter share one record.

use vstd::prelude::*;
use crate::content::ContentKind;
use crate::dock_laws;
use crate::numbers;
use crate::text;

verus! {

/// The bits of 0.0.
pub const ZERO: u32 = 0;

/// The bits of 1.0.
pub const ONE: u32 = 0x3F80_0000;

/// The bits of 0.015: a slot that is leaving is dropped at this presence.
pub const PRESENCE_GONE: u32 = 0x3C75_C28F;

/// The resting width of the divider, in logical pixels.
pub const DIVIDER_W: u32 = 16;

/// The resting width of an icon, in logical pixels.
pub const BASE_ICON: u32 = 50;

/// What a slot of the dock stands for.
#[derive(Clone, Copy, Debug, PartialEq, Eq, Structural)]
pub enum ItemRole {
    /// Opens the Start menu.
    Start,
    /// Launches a path.
    Pinned,
    /// Goes to an open window.
    Running,
    /// Separates pinned items from open windows.
    Divider,
    /// Opens the control center.
    Control,
    /// Opens the app drawer.
    Drawer,
}

/// What makes two items the same slot.
#[derive(Clone, Debug, PartialEq, Eq, Hash)]
pub enum ItemKey {
    Start,
    Divider,
    Control,
    Drawer,
    Pinned(String),
    Running(String),
}

/// What makes two items the same slot.
#[verifier::ext_equal]
pub enum KeyView {
    Start,
    Divider,
    Control,
    Drawer,
    Pinned(Seq<char>),
    Running(Seq<char>),
}

impl View for ItemKey {
    type V = KeyView;

    open spec fn view(&self) -> KeyView {
        match self {
            ItemKey::Start => KeyView::Start,
            ItemKey::Divider => KeyView::Divider,
            ItemKey::Control => KeyView::Control,
            ItemKey::Drawer => KeyView::Drawer,
            ItemKey::Pinned(s) => KeyView::Pinned(s@),
            ItemKey::Running(s) => KeyView::Running(s@),
        }
    }
}

/// An open window.
#[derive(Clone, Debug, PartialEq, Eq)]
pub struct RunningWindowRef {
    pub hwnd: isize,
    pub title: String,
}

/// An item of the dock.
pub struct DockItem {
    pub label: String,
    /// Drawn where there is no icon.
    pub glyph: &'static str,
    /// The colour of that, in hundredths.
    pub color: (u8, u8, u8),
    pub path: Option<String>,
    pub icon: Option<String>,
    pub kind: ContentKind,
    pub role: ItemRole,
    /// The window to go to.
    pub hwnd: Option<isize>,
    pub group_key: Option<String>,
    pub windows: Vec<RunningWindowRef>,
}

#[verifier::ext_equal]
pub struct RefView {
    pub hwnd: isize,
    pub title: Seq<char>,
}

impl View for RunningWindowRef {
    type V = RefView;

    open spec fn view(&self) -> RefView {
        RefView { hwnd: self.hwnd, title: self.title@ }
    }
}

pub open spec fn ref_views(v: Seq<RunningWindowRef>) -> Seq<RefView> {
    v.map_values(|w: RunningWindowRef| w@)
}

/// What an item of the dock is.
#[verifier::ext_equal]
pub struct ItemView {
    pub label: Seq<char>,
    pub glyph: Seq<char>,
    pub color: (u8, u8, u8),
    pub path: Option<Seq<char>>,
    pub icon: Option<Seq<char>>,
    pub kind: ContentKind,
    pub role: ItemRole,
    pub hwnd: Option<isize>,
    pub group_key: Option<Seq<char>>,
    pub windows: Seq<RefView>,
}

impl View for DockItem {
    type V = ItemView;

    open spec fn view(&self) -> ItemView {
        ItemView {
            label: self.label@,
            glyph: self.glyph@,
            color: self.color,
            path: text::opt_text(self.path),
            icon: text::opt_text(self.icon),
            kind: self.kind,
            role: self.role,
            hwnd: self.hwnd,
            group_key: text::opt_text(self.group_key),
            windows: ref_views(self.windows@),
        }
    }
}

pub open spec fn item_views(v: Seq<DockItem>) -> Seq<ItemView> {
    v.map_values(|i: DockItem| i@)
}

/// The state of a slot. The animated values are the bits of floats.
#[derive(Clone, Copy, Debug, PartialEq, Eq, Structural)]
pub struct Slot {
    pub scale: u32,
    pub bounce: u32,
    pub presence: u32,
    /// Whether the slot is there to stay; one that is not is dropped once it has shrunk.
    pub staying: bool,
    pub running_presence: u32,
    pub running: bool,
}

/// The row of the dock.
pub struct Dock {
    pub items: Vec<DockItem>,
    pub slots: Vec<Slot>,
}

/// The key of an item: an open window goes by its application, or else its handle; a
/// pinned item by its path, or else its icon, or else its label.
pub open spec fn key_of(item: DockItem) -> KeyView {
    match item.role {
        ItemRole::Start => KeyView::Start,
        ItemRole::Divider => KeyView::Divider,
        ItemRole::Control => KeyView::Control,
        ItemRole::Drawer => KeyView::Drawer,
        ItemRole::Running => KeyView::Running(
            match item.group_key {
                Some(k) => k@,
                None => "hwnd:"@ + numbers::signed_decimal(
                    match item.hwnd {
                        Some(h) => h as int,
                        None => 0,
                    },
                ),
            },
        ),
        ItemRole::Pinned => KeyView::Pinned(
            match item.path {
                Some(p) => p@,
                None => match item.icon {
                    Some(p) => p@,
                    None => item.label@,
                },
            },
        ),
    }
}

pub open spec fn keys_of(items: Seq<DockItem>) -> Seq<KeyView> {
    Seq::new(items.len(), |i: int| key_of(items[i]))
}

pub open spec fn is_running(item: DockItem) -> bool {
    item.windows@.len() > 0
}

/// A slot that is there from the start.
pub open spec fn present_slot(running: bool) -> Slot {
    Slot {
        scale: ONE,
        bounce: ZERO,
        presence: ONE,
        staying: true,
        running_presence: if running {
            ONE
        } else {
            ZERO
        },
        running,
    }
}

/// A slot that opens.
pub open spec fn entering_slot(running: bool) -> Slot {
    Slot {
        scale: ONE,
        bounce: ZERO,
        presence: ZERO,
        staying: true,
        running_presence: ZERO,
        running,
    }
}

/// The float with these bits is at most the one with the bits `PRESENCE_GONE`.
pub open spec fn is_gone(bits: u32) -> bool {
    bits <= PRESENCE_GONE || 0x8000_0000 <= bits <= 0xFF80_0000
}

/// A slot that has left and shrunk.
pub open spec fn is_finished(s: Slot) -> bool {
    !s.staying && is_gone(s.presence)
}

/// Where a slot of a merged row comes from.
#[derive(Clone, Copy)]
pub enum Origin {
    /// An old slot that leaves.
    Exiting(usize),
    /// An old slot that stays, and the new item in it.
    Kept(usize, usize),
    /// A new item.
    Entering(usize),
}

/// The first old item that is free and has this key, or the number of old items.
pub open spec fn free_match(old: Seq<KeyView>, used: Seq<bool>, key: KeyView, from: int) -> int
    decreases old.len() - from,
{
    if from < 0 || from >= old.len() {
        old.len() as int
    } else if !used[from] && old[from] == key {
        from
    } else {
        free_match(old, used, key, from + 1)
    }
}

/// Which old item each new item takes over, in order, and which are taken then.
pub open spec fn matching(old: Seq<KeyView>, new: Seq<KeyView>) -> (Seq<Option<usize>>, Seq<bool>)
    decreases new.len(),
{
    if new.len() == 0 {
        (seq![], Seq::new(old.len(), |i: int| false))
    } else {
        let (front, used) = matching(old, new.drop_last());
        let at = free_match(old, used, new.last(), 0);
        if at < old.len() {
            (front.push(Some(at as usize)), used.update(at, true))
        } else {
            (front.push(None), used)
        }
    }
}

/// The old items from `from` to `to` that are not taken, leaving.
pub open spec fn exits(used: Seq<bool>, from: int, to: int) -> Seq<Origin>
    decreases to - from,
{
    if from >= to {
        seq![]
    } else {
        let front = exits(used, from, to - 1);
        if used[to - 1] {
            front
        } else {
            front.push(Origin::Exiting((to - 1) as usize))
        }
    }
}

/// The slots for the first new items, and how far the old items are accounted for. Old
/// items that leave stand before the first old item behind them that stays.
pub open spec fn merged_upto(ms: Seq<Option<usize>>, used: Seq<bool>) -> (Seq<Origin>, int)
    decreases ms.len(),
{
    if ms.len() == 0 {
        (seq![], 0)
    } else {
        let (front, next) = merged_upto(ms.drop_last(), used);
        let new = (ms.len() - 1) as usize;
        match ms.last() {
            Some(old) => (
                (front + exits(used, next, old as int)).push(Origin::Kept(old, new)),
                if next < old {
                    old as int
                } else {
                    next
                },
            ),
            None => (front.push(Origin::Entering(new)), next),
        }
    }
}

/// The slots of a row into which a new list of items is merged.
pub open spec fn merged(old: Seq<KeyView>, new: Seq<KeyView>) -> Seq<Origin> {
    let (ms, used) = matching(old, new);
    let (front, next) = merged_upto(ms, used);
    front + exits(used, next, old.len() as int)
}

pub open spec fn merged_item(o: Origin, old: Seq<DockItem>, new: Seq<DockItem>) -> DockItem {
    match o {
        Origin::Exiting(i) => old[i as int],
        Origin::Kept(_, j) => new[j as int],
        Origin::Entering(j) => new[j as int],
    }
}

pub open spec fn merged_slot(o: Origin, old: Seq<Slot>, new: Seq<DockItem>) -> Slot {
    match o {
        Origin::Exiting(i) => Slot { staying: false, running: false, ..old[i as int] },
        Origin::Kept(i, j) => Slot {
            staying: true,
            running: is_running(new[j as int]),
            ..old[i as int]
        },
        Origin::Entering(j) => entering_slot(is_running(new[j as int])),
    }
}

/// The old slot whose icon a slot of the merged row uses.
pub open spec fn reused(o: Origin) -> Option<usize> {
    match o {
        Origin::Exiting(i) => Some(i),
        Origin::Kept(i, _) => Some(i),
        Origin::Entering(_) => None,
    }
}

pub open spec fn merged_items(p: Seq<Origin>, old: Seq<DockItem>, new: Seq<DockItem>) -> Seq<
    DockItem,
> {
    Seq::new(p.len(), |k: int| merged_item(p[k], old, new))
}

pub open spec fn merged_slots(p: Seq<Origin>, old: Seq<Slot>, new: Seq<DockItem>) -> Seq<Slot> {
    Seq::new(p.len(), |k: int| merged_slot(p[k], old, new))
}

pub open spec fn reused_all(p: Seq<Origin>) -> Seq<Option<usize>> {
    Seq::new(p.len(), |k: int| reused(p[k]))
}

/// The indices of the slots that have left and shrunk.
pub open spec fn finished(slots: Seq<Slot>) -> Seq<usize>
    decreases slots.len(),
{
    if slots.len() == 0 {
        seq![]
    } else {
        let front = finished(slots.drop_last());
        if is_finished(slots.last()) {
            front.push((slots.len() - 1) as usize)
        } else {
            front
        }
    }
}

/// What is left of a list that runs along the slots.
pub open spec fn left<T>(list: Seq<T>, slots: Seq<Slot>) -> Seq<T>
    decreases slots.len(),
{
    if slots.len() == 0 {
        seq![]
    } else {
        let front = left(list.drop_last(), slots.drop_last());
        if is_finished(slots.last()) {
            front
        } else {
            front.push(list.last())
        }
    }
}

impl Slot {
    /// A slot that is there from the start.
    pub fn present(running: bool) -> (r: Slot)
        ensures
            r == present_slot(running),
    {
        let running_presence: u32 = if running {
            ONE
        } else {
            ZERO
        };
        Slot { scale: ONE, bounce: ZERO, presence: ONE, staying: true, running_presence, running }
    }

    /// A slot that opens.
    pub fn entering(running: bool) -> (r: Slot)
        ensures
            r == entering_slot(running),
    {
        Slot {
            scale: ONE,
            bounce: ZERO,
            presence: ZERO,
            staying: true,
            running_presence: ZERO,
            running,
        }
    }
}

/// The resting width of a slot, in logical pixels.
pub fn role_base_width(role: ItemRole) -> (r: u32)
    ensures
        r == (if role == ItemRole::Divider {
            DIVIDER_W
        } else {
            BASE_ICON
        }),
{
    match role {
        ItemRole::Divider => DIVIDER_W,
        _ => BASE_ICON,
    }
}

/// Whether two keys are the same.
pub fn same_key(a: &ItemKey, b: &ItemKey) -> (r: bool)
    ensures
        r == (a@ == b@),
{
    match (a, b) {
        (ItemKey::Start, ItemKey::Start) => true,
        (ItemKey::Divider, ItemKey::Divider) => true,
        (ItemKey::Control, ItemKey::Control) => true,
        (ItemKey::Drawer, ItemKey::Drawer) => true,
        (ItemKey::Pinned(x), ItemKey::Pinned(y)) => text::same(x.as_str(), y.as_str()),
        (ItemKey::Running(x), ItemKey::Running(y)) => text::same(x.as_str(), y.as_str()),
        _ => false,
    }
}

impl DockItem {
    /// What makes the item the same slot as another.
    pub fn key(&self) -> (r: ItemKey)
        ensures
            r@ == key_of(*self),
    {
        match self.role {
            ItemRole::Start => ItemKey::Start,
            ItemRole::Divider => ItemKey::Divider,
            ItemRole::Control => ItemKey::Control,
            ItemRole::Drawer => ItemKey::Drawer,
            ItemRole::Running => match &self.group_key {
                Some(k) => ItemKey::Running(text::copy_text(k.as_str())),
                None => {
                    let handle: isize = match self.hwnd {
                        Some(h) => h,
                        None => 0,
                    };
                    let mut out = text::chars_of("hwnd:");
                    numbers::add_signed(&mut out, handle);
                    ItemKey::Running(text::string_of(&out))
                },
            },
            ItemRole::Pinned => match &self.path {
                Some(p) => ItemKey::Pinned(text::copy_text(p.as_str())),
                None => match &self.icon {
                    Some(p) => ItemKey::Pinned(text::copy_text(p.as_str())),
                    None => ItemKey::Pinned(text::copy_text(self.label.as_str())),
                },
            },
        }
    }
}

pub open spec fn key_views(v: Seq<ItemKey>) -> Seq<KeyView> {
    Seq::new(v.len(), |i: int| v[i]@)
}

fn item_keys(items: &Vec<DockItem>) -> (r: Vec<ItemKey>)
    ensures
        key_views(r@) == keys_of(items@),
{
    let mut out: Vec<ItemKey> = Vec::new();
    let mut i: usize = 0;
    while i < items.len()
        invariant
            i <= items@.len(),
            key_views(out@) == keys_of(items@).take(i as int),
        decreases items@.len() - i,
    {
        let ghost was = out@;
        let k = items[i].key();
        out.push(k);
        proof {
            assert(key_views(out@) =~= key_views(was).push(k@));
            assert(keys_of(items@).take(i as int + 1) =~= keys_of(items@).take(i as int).push(k@));
        }
        i += 1;
    }
    assert(keys_of(items@).take(i as int) =~= keys_of(items@));
    out
}

pub proof fn lemma_free_match(old: Seq<KeyView>, used: Seq<bool>, key: KeyView, from: int)
    requires
        0 <= from <= old.len(),
    ensures
        from <= free_match(old, used, key, from) <= old.len(),
        free_match(old, used, key, from) < old.len() ==> !used[free_match(old, used, key, from)]
            && old[free_match(old, used, key, from)] == key,
        forall|i: int|
            from <= i < free_match(old, used, key, from) ==> used[i] || #[trigger] old[i] != key,
    decreases old.len() - from,
{
    if from < old.len() && !(!used[from] && old[from] == key) {
        lemma_free_match(old, used, key, from + 1);
    }
}

pub proof fn lemma_matching_lens(old: Seq<KeyView>, new: Seq<KeyView>)
    ensures
        matching(old, new).0.len() == new.len(),
        matching(old, new).1.len() == old.len(),
    decreases new.len(),
{
    if new.len() > 0 {
        lemma_matching_lens(old, new.drop_last());
        lemma_free_match(old, matching(old, new.drop_last()).1, new.last(), 0);
    }
}

fn find_free(old: &Vec<ItemKey>, used: &Vec<bool>, key: &ItemKey) -> (r: usize)
    requires
        old@.len() == used@.len(),
    ensures
        r == free_match(key_views(old@), used@, key@, 0),
        r <= old@.len(),
{
    let ghost ks = key_views(old@);
    let mut i: usize = 0;
    while i < old.len()
        invariant
            i <= old@.len(),
            old@.len() == used@.len(),
            ks == key_views(old@),
            free_match(ks, used@, key@, 0) == free_match(ks, used@, key@, i as int),
        decreases old@.len() - i,
    {
        if !used[i] && same_key(&old[i], key) {
            return i;
        }
        i += 1;
    }
    i
}

fn match_items(old: &Vec<ItemKey>, new: &Vec<ItemKey>) -> (r: (Vec<Option<usize>>, Vec<bool>))
    ensures
        (r.0@, r.1@) == matching(key_views(old@), key_views(new@)),
        r.0@.len() == new@.len(),
        r.1@.len() == old@.len(),
{
    let ghost ko = key_views(old@);
    let ghost kn = key_views(new@);
    let n: usize = old.len();
    let mut used: Vec<bool> = Vec::new();
    let mut k: usize = 0;
    while k < n
        invariant
            k <= n,
            used@ == Seq::new(k as nat, |i: int| false),
        decreases n - k,
    {
        used.push(false);
        k += 1;
        assert(used@ =~= Seq::new(k as nat, |i: int| false));
    }
    let mut out: Vec<Option<usize>> = Vec::new();
    let mut i: usize = 0;
    assert(out@ =~= matching(ko, kn.take(0)).0);
    assert(used@ =~= matching(ko, kn.take(0)).1);
    while i < new.len()
        invariant
            i <= new@.len(),
            ko == key_views(old@),
            kn == key_views(new@),
            used@.len() == old@.len(),
            (out@, used@) == matching(ko, kn.take(i as int)),
        decreases new@.len() - i,
    {
        proof {
            assert(kn.take(i as int + 1).drop_last() =~= kn.take(i as int));
            assert(kn.take(i as int + 1).last() == new@[i as int]@);
        }
        let at: usize = find_free(old, &used, &new[i]);
        if at < old.len() {
            used.set(at, true);
            out.push(Some(at));
        } else {
            out.push(None);
        }
        i += 1;
    }
    proof {
        assert(kn.take(i as int) =~= kn);
        lemma_matching_lens(ko, kn);
    }
    (out, used)
}

proof fn lemma_matched_in_range(old: Seq<KeyView>, new: Seq<KeyView>)
    requires
        old.len() <= usize::MAX,
    ensures
        forall|j: int|
            0 <= j < new.len() ==> ((#[trigger] matching(old, new).0[j]) is Some ==> matching(
                old,
                new,
            ).0[j]->0 < old.len()),
    decreases new.len(),
{
    lemma_matching_lens(old, new);
    if new.len() > 0 {
        let f = new.drop_last();
        lemma_matched_in_range(old, f);
        lemma_matching_lens(old, f);
        lemma_free_match(old, matching(old, f).1, new.last(), 0);
        let ms = matching(old, new).0;
        assert forall|j: int| 0 <= j < new.len() && (#[trigger] ms[j]) is Some implies ms[j]->0
            < old.len() by {
            if j < f.len() {
                assert(ms[j] == matching(old, f).0[j]);
            }
        }
    }
}

fn as_options(items: Vec<DockItem>) -> (r: Vec<Option<DockItem>>)
    ensures
        r@ == Seq::new(items@.len(), |i: int| Some(items@[i])),
{
    let ghost all = items@;
    let rest = crate::order::reversed(items);
    let mut rest = rest;
    let mut out: Vec<Option<DockItem>> = Vec::new();
    while rest.len() > 0
        invariant
            out@.len() + rest@.len() == all.len(),
            rest@ == all.skip(out@.len() as int).reverse(),
            out@ == Seq::new(out@.len(), |i: int| Some(all[i])),
        decreases rest@.len(),
    {
        let ghost was = rest@;
        let ghost n = out@.len() as int;
        match rest.pop() {
            Some(x) => {
                out.push(Some(x));
                proof {
                    assert(was.last() == all[n]);
                    assert(rest@ =~= all.skip(n + 1).reverse());
                    assert(out@ =~= Seq::new(out@.len(), |i: int| Some(all[i])));
                }
            },
            None => {},
        }
    }
    out
}

/// The parts of a row that is being merged.
struct Merge {
    items: Vec<DockItem>,
    slots: Vec<Slot>,
    remap: Vec<Option<usize>>,
}

impl Merge {
    spec fn shows(
        &self,
        p: Seq<Origin>,
        old: Seq<DockItem>,
        slots: Seq<Slot>,
        new: Seq<DockItem>,
    ) -> bool {
        &&& self.items@ == merged_items(p, old, new)
        &&& self.slots@ == merged_slots(p, slots, new)
        &&& self.remap@ == reused_all(p)
    }

    fn add(&mut self, item: DockItem, slot: Slot, from: Option<usize>)
        ensures
            final(self).items@ == old(self).items@.push(item),
            final(self).slots@ == old(self).slots@.push(slot),
            final(self).remap@ == old(self).remap@.push(from),
    {
        self.items.push(item);
        self.slots.push(slot);
        self.remap.push(from);
    }
}

proof fn lemma_shows_push(
    m: Merge,
    after: Merge,
    p: Seq<Origin>,
    o: Origin,
    old: Seq<DockItem>,
    slots: Seq<Slot>,
    new: Seq<DockItem>,
)
    requires
        m.shows(p, old, slots, new),
        after.items@ == m.items@.push(merged_item(o, old, new)),
        after.slots@ == m.slots@.push(merged_slot(o, slots, new)),
        after.remap@ == m.remap@.push(reused(o)),
    ensures
        after.shows(p.push(o), old, slots, new),
{
    assert(after.items@ =~= merged_items(p.push(o), old, new));
    assert(after.slots@ =~= merged_slots(p.push(o), slots, new));
    assert(after.remap@ =~= reused_all(p.push(o)));
}

/// Lets the old items from `from` to `to` that are not taken leave.
fn let_exit(
    m: &mut Merge,
    stock: &mut Vec<Option<DockItem>>,
    old_slots: &Vec<Slot>,
    used: &Vec<bool>,
    from: usize,
    to: usize,
    Ghost(p): Ghost<Seq<Origin>>,
    Ghost(old_items): Ghost<Seq<DockItem>>,
    Ghost(new): Ghost<Seq<DockItem>>,
)
    requires
        from <= to <= old_items.len(),
        old(stock)@.len() == old_items.len(),
        old_slots@.len() == old_items.len(),
        used@.len() == old_items.len(),
        forall|i: int| from <= i < old_items.len() ==> #[trigger] old(stock)@[i] == Some(old_items[i]),
        old(m).shows(p, old_items, old_slots@, new),
    ensures
        final(stock)@.len() == old_items.len(),
        forall|i: int|
            to <= i < old_items.len() ==> #[trigger] final(stock)@[i] == Some(old_items[i]),
        final(m).shows(
            p + exits(used@, from as int, to as int),
            old_items,
            old_slots@,
            new,
        ),
{
    let mut i: usize = from;
    assert(p + exits(used@, from as int, from as int) =~= p);
    while i < to
        invariant
            from <= i <= to <= old_items.len(),
            stock@.len() == old_items.len(),
            old_slots@.len() == old_items.len(),
            used@.len() == old_items.len(),
            forall|k: int| i <= k < old_items.len() ==> #[trigger] stock@[k] == Some(old_items[k]),
            m.shows(p + exits(used@, from as int, i as int), old_items, old_slots@, new),
        decreases to - i,
    {
        let ghost so_far = p + exits(used@, from as int, i as int);
        if !used[i] {
            let ghost was = *m;
            let ghost shelf = stock@;
            assert(shelf[i as int] == Some(old_items[i as int]));
            let taken = stock[i].take();
            match taken {
                Some(item) => {
                    let mut s: Slot = old_slots[i];
                    s.staying = false;
                    s.running = false;
                    m.add(item, s, Some(i));
                    proof {
                        lemma_shows_push(
                            was,
                            *m,
                            so_far,
                            Origin::Exiting(i),
                            old_items,
                            old_slots@,
                            new,
                        );
                        assert(so_far.push(Origin::Exiting(i)) =~= p + exits(
                            used@,
                            from as int,
                            i as int + 1,
                        ));
                    }
                },
                None => {
                    assert(false);
                },
            }
            assert forall|k: int| i < k < old_items.len() implies #[trigger] stock@[k] == Some(
                old_items[k],
            ) by {
                assert(shelf[k] == Some(old_items[k]));
            }
        }
        i += 1;
    }
}

impl Dock {
    /// Items and slots run along each other.
    pub open spec fn wf(&self) -> bool {
        self.items@.len() == self.slots@.len()
    }

    /// A row with these items, there from the start.
    pub fn new(items: Vec<DockItem>) -> (r: Dock)
        ensures
            r.wf(),
            r.items@ == items@,
            r.slots@ == Seq::new(items@.len(), |i: int| present_slot(is_running(items@[i]))),
            forall|i: int|
                0 <= i < items@.len() ==> (#[trigger] r.slots@[i]).staying && r.slots@[i].running == (
                items@[i].windows@.len() > 0),
    {
        let mut slots: Vec<Slot> = Vec::new();
        let mut i: usize = 0;
        while i < items.len()
            invariant
                i <= items@.len(),
                slots@ == Seq::new(i as nat, |k: int| present_slot(is_running(items@[k]))),
            decreases items@.len() - i,
        {
            slots.push(Slot::present(items[i].windows.len() > 0));
            i += 1;
            assert(slots@ =~= Seq::new(i as nat, |k: int| present_slot(is_running(items@[k]))));
        }
        Dock { items, slots }
    }

    /// Starts the hop of an icon; an index that names none does nothing.
    pub fn bump(&mut self, i: usize)
        ensures
            final(self).items@ == old(self).items@,
            final(self).slots@ == (if i < old(self).slots@.len() {
                old(self).slots@.update(i as int, Slot { bounce: ONE, ..old(self).slots@[i as int] })
            } else {
                old(self).slots@
            }),
    {
        if i < self.slots.len() {
            let mut s: Slot = self.slots[i];
            s.bounce = ONE;
            self.slots.set(i, s);
        }
    }

    /// The item under the pointer, given which icons the pointer is in: the first that
    /// is not the divider and is not leaving.
    pub fn hit_test(&self, inside: &Vec<bool>) -> (r: Option<usize>)
        requires
            self.wf(),
            inside@.len() == self.items@.len(),
        ensures
            match r {
                Some(i) => i < self.items@.len() && self.clickable(inside@, i as int) && forall|
                    j: int,
                |
                    0 <= j < i ==> !self.clickable(inside@, j),
                None => forall|j: int| 0 <= j < self.items@.len() ==> !self.clickable(inside@, j),
            },
    {
        let mut i: usize = 0;
        while i < self.items.len()
            invariant
                i <= self.items@.len(),
                self.wf(),
                inside@.len() == self.items@.len(),
                forall|j: int| 0 <= j < i ==> !self.clickable(inside@, j),
            decreases self.items@.len() - i,
        {
            if self.items[i].role != ItemRole::Divider && self.slots[i].staying && inside[i] {
                return Some(i);
            }
            i += 1;
        }
        None
    }

    /// The pointer is in an icon that reacts to it.
    pub open spec fn clickable(&self, inside: Seq<bool>, i: int) -> bool {
        self.items@[i].role != ItemRole::Divider && self.slots@[i].staying && inside[i]
    }

    /// Merges a new list of items into the row. Items that stay keep their slots, new
    /// ones open, old ones shrink. Returns the old slot whose icon each slot reuses.
    pub fn reconcile(&mut self, desired: Vec<DockItem>) -> (r: Vec<Option<usize>>)
        requires
            old(self).wf(),
        ensures
            final(self).wf(),
            ({
                let p = merged(keys_of(old(self).items@), keys_of(desired@));
                &&& final(self).items@ == merged_items(p, old(self).items@, desired@)
                &&& final(self).slots@ == merged_slots(p, old(self).slots@, desired@)
                &&& r@ == reused_all(p)
            }),
            dock_laws::stayers(final(self).items@, final(self).slots@) == desired@,
            forall|k: int|
                0 <= k < final(self).slots@.len() && (#[trigger] final(self).slots@[k]).staying
                    ==> final(self).slots@[k].running == (final(self).items@[k].windows@.len() > 0),
            forall|k: int|
                0 <= k < final(self).slots@.len() && !(#[trigger] final(self).slots@[k]).staying
                    ==> !final(self).slots@[k].running && r@[k] is Some && r@[k]->0
                    < old(self).items@.len() && final(self).items@[k] == old(
                    self,
                ).items@[r@[k]->0 as int],
            forall|k: int|
                0 <= k < r@.len() ==> match #[trigger] r@[k] {
                    Some(i) => {
                        &&& i < old(self).items@.len()
                        &&& key_of(final(self).items@[k]) == key_of(old(self).items@[i as int])
                        &&& final(self).slots@[k].scale == old(self).slots@[i as int].scale
                        &&& final(self).slots@[k].bounce == old(self).slots@[i as int].bounce
                        &&& final(self).slots@[k].presence == old(self).slots@[i as int].presence
                        &&& final(self).slots@[k].running_presence == old(
                            self,
                        ).slots@[i as int].running_presence
                    },
                    None => {
                        &&& final(self).slots@[k].staying
                        &&& final(self).slots@[k].scale == ONE
                        &&& final(self).slots@[k].bounce == ZERO
                        &&& final(self).slots@[k].presence == ZERO
                        &&& final(self).slots@[k].running_presence == ZERO
                    },
                },
            forall|i: usize| i < old(self).items@.len() ==> #[trigger] r@.contains(Some(i)),
            forall|k: int, l: int|
                0 <= k < l < r@.len() && r@[k] is Some ==> #[trigger] r@[k] != #[trigger] r@[l],
    {
        let ghost old_all = self.items@;
        let ghost new_all = desired@;
        let ghost ko = keys_of(old_all);
        let ghost kn = keys_of(new_all);
        let old_keys = item_keys(&self.items);
        let new_keys = item_keys(&desired);
        let count: usize = self.items.len();
        let (matches, used) = match_items(&old_keys, &new_keys);
        proof {
            assert(key_views(old_keys@).len() == old_keys@.len());
            assert(key_views(new_keys@).len() == new_keys@.len());
            lemma_matched_in_range(ko, kn);
        }
        let mut old_items: Vec<DockItem> = Vec::new();
        std::mem::swap(&mut old_items, &mut self.items);
        let mut old_slots: Vec<Slot> = Vec::new();
        std::mem::swap(&mut old_slots, &mut self.slots);
        let mut stock = as_options(old_items);
        let mut fresh = as_options(desired);
        let mut m = Merge { items: Vec::new(), slots: Vec::new(), remap: Vec::new() };
        let mut next: usize = 0;
        let mut j: usize = 0;
        proof {
            let p = merged_upto(matches@.take(0), used@).0;
            assert(m.items@ =~= merged_items(p, old_all, new_all));
            assert(m.slots@ =~= merged_slots(p, old_slots@, new_all));
            assert(m.remap@ =~= reused_all(p));
        }
        while j < matches.len()
            invariant
                j <= matches@.len(),
                matches@.len() == new_all.len(),
                count == old_all.len(),
                next <= count,
                stock@.len() == old_all.len(),
                fresh@.len() == new_all.len(),
                old_slots@.len() == old_all.len(),
                used@.len() == old_all.len(),
                forall|i: int| next <= i < old_all.len() ==> #[trigger] stock@[i] == Some(old_all[i]),
                forall|i: int| j <= i < new_all.len() ==> #[trigger] fresh@[i] == Some(new_all[i]),
                forall|i: int|
                    0 <= i < matches@.len() ==> ((#[trigger] matches@[i]) is Some ==> matches@[i]->0
                        < old_all.len()),
                next == merged_upto(matches@.take(j as int), used@).1,
                m.shows(
                    merged_upto(matches@.take(j as int), used@).0,
                    old_all,
                    old_slots@,
                    new_all,
                ),
            decreases matches@.len() - j,
        {
            let ghost p = merged_upto(matches@.take(j as int), used@).0;
            proof {
                assert(matches@.take(j as int + 1).drop_last() =~= matches@.take(j as int));
                assert(matches@.take(j as int + 1).last() == matches@[j as int]);
                assert(fresh@[j as int] == Some(new_all[j as int]));
            }
            let ghost shelf = fresh@;
            let found: Option<usize> = matches[j];
            let mut q = Ghost(p);
            if let Some(limit) = found {
                assert(matches@[j as int] is Some);
                proof {
                    q@ = p + exits(used@, next as int, limit as int);
                }
                if next < limit {
                    let_exit(
                        &mut m,
                        &mut stock,
                        &old_slots,
                        &used,
                        next,
                        limit,
                        Ghost(p),
                        Ghost(old_all),
                        Ghost(new_all),
                    );
                    next = limit;
                } else {
                    assert(p + exits(used@, next as int, limit as int) =~= p);
                }
            }
            let ghost was = m;
            match fresh[j].take() {
                Some(item) => {
                    let running: bool = item.windows.len() > 0;
                    match found {
                        Some(i) => {
                            let mut s: Slot = old_slots[i];
                            s.staying = true;
                            s.running = running;
                            m.add(item, s, Some(i));
                            proof {
                                lemma_shows_push(
                                    was,
                                    m,
                                    q@,
                                    Origin::Kept(i, j),
                                    old_all,
                                    old_slots@,
                                    new_all,
                                );
                            }
                        },
                        None => {
                            m.add(item, Slot::entering(running), None);
                            proof {
                                lemma_shows_push(
                                    was,
                                    m,
                                    p,
                                    Origin::Entering(j),
                                    old_all,
                                    old_slots@,
                                    new_all,
                                );
                            }
                        },
                    }
                },
                None => {
                    assert(false);
                },
            }
            assert forall|i: int| j < i < new_all.len() implies #[trigger] fresh@[i] == Some(
                new_all[i],
            ) by {
                assert(shelf[i] == Some(new_all[i]));
            }
            j += 1;
        }
        assert(matches@.take(j as int) =~= matches@);
        let ghost p = merged_upto(matches@, used@).0;
        let_exit(
            &mut m,
            &mut stock,
            &old_slots,
            &used,
            next,
            count,
            Ghost(p),
            Ghost(old_all),
            Ghost(new_all),
        );
        proof {
            dock_laws::law_row_shows_new_items(old_all, old_slots@, new_all);
            dock_laws::law_row_keeps_slots(old_all, old_slots@, new_all);
        }
        let Merge { items, slots, remap } = m;
        self.items = items;
        self.slots = slots;
        remap
    }

    /// Drops the slots that have left and shrunk; returns their indices, in order.
    pub fn take_finished_exits(&mut self) -> (r: Vec<usize>)
        requires
            old(self).wf(),
        ensures
            final(self).wf(),
            r@ == finished(old(self).slots@),
            final(self).items@ == left(old(self).items@, old(self).slots@),
            final(self).slots@ == left(old(self).slots@, old(self).slots@),
            forall|i: usize| #[trigger]
                r@.contains(i) <==> i < old(self).slots@.len() && !old(self).slots@[i as int].staying
                    && is_gone(old(self).slots@[i as int].presence),
            forall|a: int, b: int| 0 <= a < b < r@.len() ==> r@[a] < r@[b],
            forall|i: int|
                0 <= i < old(self).slots@.len() && ((#[trigger] old(self).slots@[i]).staying
                    || !is_gone(old(self).slots@[i].presence)) ==> ({
                    let k = dock_laws::kept_before(old(self).slots@, i);
                    &&& 0 <= k < final(self).slots@.len()
                    &&& final(self).slots@[k] == old(self).slots@[i]
                    &&& final(self).items@[k] == old(self).items@[i]
                }),
            final(self).slots@.len() + r@.len() == old(self).slots@.len(),
    {
        let ghost items = self.items@;
        let ghost slots = self.slots@;
        let n: usize = self.items.len();
        let mut removed: Vec<usize> = Vec::new();
        let mut k: usize = 0;
        let mut at: usize = 0;
        proof {
            assert(items.skip(0) =~= items);
            assert(slots.skip(0) =~= slots);
            assert(self.items@ =~= left(items.take(0), slots.take(0)) + items.skip(0));
            assert(self.slots@ =~= left(slots.take(0), slots.take(0)) + slots.skip(0));
        }
        while k < n
            invariant
                k <= n,
                n == items.len(),
                n == slots.len(),
                at <= k,
                at == left(items.take(k as int), slots.take(k as int)).len(),
                at == left(slots.take(k as int), slots.take(k as int)).len(),
                self.items@ == left(items.take(k as int), slots.take(k as int)) + items.skip(
                    k as int,
                ),
                self.slots@ == left(slots.take(k as int), slots.take(k as int)) + slots.skip(
                    k as int,
                ),
                removed@ == finished(slots.take(k as int)),
            decreases n - k,
        {
            let ghost li = left(items.take(k as int), slots.take(k as int));
            let ghost ls = left(slots.take(k as int), slots.take(k as int));
            proof {
                assert(slots.take(k as int + 1).drop_last() =~= slots.take(k as int));
                assert(items.take(k as int + 1).drop_last() =~= items.take(k as int));
                assert(self.slots@[at as int] == slots[k as int]);
            }
            let s: Slot = self.slots[at];
            let gone: bool = s.presence <= PRESENCE_GONE || (0x8000_0000 <= s.presence && s.presence
                <= 0xFF80_0000);
            if !s.staying && gone {
                self.items.remove(at);
                self.slots.remove(at);
                removed.push(k);
                proof {
                    assert((li + items.skip(k as int)).remove(at as int) =~= li + items.skip(
                        k as int + 1,
                    ));
                    assert((ls + slots.skip(k as int)).remove(at as int) =~= ls + slots.skip(
                        k as int + 1,
                    ));
                }
            } else {
                proof {
                    assert(li + items.skip(k as int) =~= li.push(items[k as int]) + items.skip(
                        k as int + 1,
                    ));
                    assert(ls + slots.skip(k as int) =~= ls.push(slots[k as int]) + slots.skip(
                        k as int + 1,
                    ));
                }
                at += 1;
            }
            k += 1;
        }
        proof {
            assert(items.take(k as int) =~= items);
            assert(slots.take(k as int) =~= slots);
            assert(left(items, slots) + items.skip(k as int) =~= left(items, slots));
            assert(left(slots, slots) + slots.skip(k as int) =~= left(slots, slots));
            dock_laws::law_finished(items, slots);
            dock_laws::law_rest_closes_up(items, slots);
            dock_laws::law_rest_closes_up(slots, slots);
        }
        removed
    }
}

} // verus!
