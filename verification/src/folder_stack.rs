//! The menu that shows what is in a pinned folder.

use vstd::prelude::*;
use crate::casing;
use crate::order;
use crate::text;

verus! {

/// The most entries that the menu shows.
pub const MAX_STACK_ITEMS: usize = 24;

/// The number of the first entry in the menu.
pub const ID_ENTRY_BASE: usize = 4100;

pub const ID_OPEN_FOLDER: usize = 4197;

pub const ID_REVEAL_FOLDER: usize = 4198;

/// One thing in a folder.
#[derive(Clone, Debug, PartialEq, Eq)]
pub struct StackEntry {
    pub label: String,
    pub is_dir: bool,
    pub path: String,
}

pub ghost struct StackView {
    pub label: Seq<char>,
    pub is_dir: bool,
    pub path: Seq<char>,
}

impl View for StackEntry {
    type V = StackView;

    open spec fn view(&self) -> StackView {
        StackView { label: self.label@, is_dir: self.is_dir, path: self.path@ }
    }
}

pub open spec fn views(v: Seq<StackEntry>) -> Seq<StackView> {
    v.map_values(|e: StackEntry| e@)
}

/// Folders come first, then labels decide, then paths; letter case does not matter.
pub open spec fn precedes(a: StackView, b: StackView) -> bool {
    let al = casing::lowercased(a.label);
    let bl = casing::lowercased(b.label);
    if a.is_dir != b.is_dir {
        a.is_dir
    } else if al != bl {
        text::before(al, bl)
    } else {
        text::before(casing::lowercased(a.path), casing::lowercased(b.path))
    }
}

pub open spec fn stack_order() -> spec_fn(StackView, StackView) -> bool {
    |a: StackView, b: StackView| precedes(a, b)
}

/// The entries that the menu shows.
pub open spec fn shown(es: Seq<StackView>) -> Seq<StackView> {
    let all = order::arranged(es, stack_order());
    if all.len() > MAX_STACK_ITEMS {
        all.take(MAX_STACK_ITEMS as int)
    } else {
        all
    }
}

impl StackEntry {
    pub fn new(label: &str, is_dir: bool, path: &str) -> (r: StackEntry)
        ensures
            r@ == (StackView { label: label@, is_dir, path: path@ }),
    {
        StackEntry { label: text::copy_text(label), is_dir, path: text::copy_text(path) }
    }
}

fn comes_first(a: &StackEntry, b: &StackEntry) -> (r: bool)
    ensures
        r == precedes(a@, b@),
{
    if a.is_dir != b.is_dir {
        return a.is_dir;
    }
    let al = text::chars_of(casing::to_lowercase(a.label.as_str()).as_str());
    let bl = text::chars_of(casing::to_lowercase(b.label.as_str()).as_str());
    if !text::same_chars(&al, &bl) {
        return text::is_before(&al, &bl);
    }
    let ap = text::chars_of(casing::to_lowercase(a.path.as_str()).as_str());
    let bp = text::chars_of(casing::to_lowercase(b.path.as_str()).as_str());
    text::is_before(&ap, &bp)
}

/// The entries that the menu shows: folders first, in the order of their names, and no
/// more than the menu holds.
pub fn normalize_entries_for_menu(entries: Vec<StackEntry>) -> (r: Vec<StackEntry>)
    ensures
        views(r@) == shown(views(entries@)),
{
    let ghost all = entries@;
    let ghost lt = |a: StackEntry, b: StackEntry| precedes(a@, b@);
    let mut r = order::stable_sort(entries, comes_first, Ghost(lt));
    proof {
        order::lemma_arranged_map(all, lt, |e: StackEntry| e@, stack_order());
    }
    let ghost sorted = r@;
    if r.len() > MAX_STACK_ITEMS {
        r.truncate(MAX_STACK_ITEMS);
        assert(views(r@) =~= views(sorted).take(MAX_STACK_ITEMS as int));
    }
    r
}

/// How an entry is shown: a mark stands before a folder.
pub fn entry_text(entry: &StackEntry) -> (r: String)
    ensures
        r@ == (if entry.is_dir {
            "▸ "@
        } else {
            "  "@
        }) + entry.label@,
{
    let mut out = if entry.is_dir {
        text::chars_of("▸ ")
    } else {
        text::chars_of("  ")
    };
    text::add_text(&mut out, entry.label.as_str());
    text::string_of(&out)
}

/// What a choice from the menu asks for.
#[derive(Clone, Copy, Debug, PartialEq, Eq, Structural)]
pub enum StackChoice {
    OpenEntry(usize),
    OpenFolder,
    RevealFolder,
    Nothing,
}

/// What the choice of a number asks for, with this many entries in the menu.
pub fn chosen(id: usize, count: usize) -> (r: StackChoice)
    requires
        count <= MAX_STACK_ITEMS,
    ensures
        r == (if ID_ENTRY_BASE <= id < ID_ENTRY_BASE + count {
            StackChoice::OpenEntry((id - ID_ENTRY_BASE) as usize)
        } else if id == ID_OPEN_FOLDER {
            StackChoice::OpenFolder
        } else if id == ID_REVEAL_FOLDER {
            StackChoice::RevealFolder
        } else {
            StackChoice::Nothing
        }),
        r matches StackChoice::OpenEntry(i) ==> i < count && id == ID_ENTRY_BASE + i,
        r == StackChoice::OpenFolder <==> id == ID_OPEN_FOLDER,
        r == StackChoice::RevealFolder <==> id == ID_REVEAL_FOLDER,
{
    if id >= ID_ENTRY_BASE && id < ID_ENTRY_BASE + count {
        StackChoice::OpenEntry(id - ID_ENTRY_BASE)
    } else if id == ID_OPEN_FOLDER {
        StackChoice::OpenFolder
    } else if id == ID_REVEAL_FOLDER {
        StackChoice::RevealFolder
    } else {
        StackChoice::Nothing
    }
}

proof fn lemma_order()
    ensures
        order::strict_weak(stack_order()),
{
    let lt = stack_order();
    assert forall|a: StackView| !#[trigger] lt(a, a) by {
        text::lemma_before_total(casing::lowercased(a.path), casing::lowercased(a.path));
    }
    assert forall|a: StackView, b: StackView, c: StackView| #[trigger] lt(a, b) && #[trigger] lt(
        b,
        c,
    ) implies lt(a, c) by {
        lemma_precedes(a, b, c);
    }
    assert forall|a: StackView, b: StackView, c: StackView| !#[trigger] lt(a, b) && !#[trigger] lt(
        b,
        c,
    ) implies !lt(a, c) by {
        lemma_precedes(a, b, c);
    }
}

proof fn lemma_precedes(a: StackView, b: StackView, c: StackView)
    ensures
        precedes(a, b) && precedes(b, c) ==> precedes(a, c),
        !precedes(a, b) && !precedes(b, c) ==> !precedes(a, c),
{
    let al = casing::lowercased(a.label);
    let bl = casing::lowercased(b.label);
    let cl = casing::lowercased(c.label);
    let ap = casing::lowercased(a.path);
    let bp = casing::lowercased(b.path);
    let cp = casing::lowercased(c.path);
    text::lemma_before_total(al, bl);
    text::lemma_before_total(bl, cl);
    text::lemma_before_total(al, cl);
    text::lemma_before_total(ap, bp);
    text::lemma_before_total(bp, cp);
    text::lemma_before_total(ap, cp);
    if text::before(al, bl) && text::before(bl, cl) {
        text::lemma_before_trans(al, bl, cl);
    }
    if text::before(cl, bl) && text::before(bl, al) {
        text::lemma_before_trans(cl, bl, al);
    }
    if text::before(ap, bp) && text::before(bp, cp) {
        text::lemma_before_trans(ap, bp, cp);
    }
    if !text::before(ap, bp) && !text::before(bp, cp) {
        text::lemma_not_before_trans(ap, bp, cp);
    }
}

/// The menu holds no more entries than it may; none of them comes after one that it
/// precedes; and an entry that is left out precedes none that is shown.
pub proof fn law_shown(es: Seq<StackView>)
    ensures
        shown(es).len() == (if es.len() > MAX_STACK_ITEMS {
            MAX_STACK_ITEMS as nat
        } else {
            es.len()
        }),
        order::in_order(shown(es), stack_order()),
        forall|i: int, j: int|
            0 <= i < shown(es).len() <= j < es.len() ==> !#[trigger] precedes(
                order::arranged(es, stack_order())[j],
                shown(es)[i],
            ),
{
    lemma_order();
    order::lemma_arranged_in_order(es, stack_order());
    order::lemma_arranged_len(es, stack_order());
    let all = order::arranged(es, stack_order());
    let r = shown(es);
    assert forall|i: int, j: int| 0 <= i < j < r.len() implies !#[trigger] stack_order()(
        r[j],
        r[i],
    ) by {
        assert(!stack_order()(all[j], all[i]));
    }
    assert forall|i: int, j: int| 0 <= i < r.len() <= j < es.len() implies !#[trigger] precedes(
        all[j],
        r[i],
    ) by {
        assert(!stack_order()(all[j], all[i]));
    }
}

/// No folder stands after a file.
pub proof fn law_folders_first(es: Seq<StackView>)
    ensures
        forall|i: int, j: int|
            0 <= i < j < shown(es).len() && (#[trigger] shown(es)[j]).is_dir ==> (
            #[trigger] shown(es)[i]).is_dir,
{
    law_shown(es);
    let r = shown(es);
    assert forall|i: int, j: int| 0 <= i < j < r.len() && (#[trigger] r[j]).is_dir implies (
    #[trigger] r[i]).is_dir by {
        assert(!stack_order()(r[j], r[i]));
    }
}

} // verus!
