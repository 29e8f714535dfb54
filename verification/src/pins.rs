//! Pinning things to the dock, and what its items are called by their previews.

use vstd::prelude::*;
use crate::command_palette;
use crate::command_palette::label_for_path;
use crate::config;
use crate::config::add_item_at;
use crate::dock::DockItem;
use crate::numbers;
use crate::paths;
use crate::text;

verus! {

/// What came of pinning a list of paths.
pub struct Pinned {
    /// The text of the file with the items, or nothing where there is no file.
    pub content: Option<String>,
    /// How many paths were pinned that were not before.
    pub count: usize,
    /// The path that ended it: there is nothing at it.
    pub missing: Option<String>,
}

pub ghost struct PinnedView {
    pub content: Option<Seq<char>>,
    pub count: int,
    pub missing: Option<Seq<char>>,
}

impl View for Pinned {
    type V = PinnedView;

    open spec fn view(&self) -> PinnedView {
        PinnedView {
            content: text::opt_text(self.content),
            count: self.count as int,
            missing: text::opt_text(self.missing),
        }
    }
}

/// What comes of pinning one more path.
pub open spec fn and_then_pinned(p: PinnedView, path: Seq<char>, exists: bool) -> PinnedView {
    let content = config::content_of(p.content);
    if p.missing is Some {
        p
    } else if !exists {
        PinnedView { missing: Some(path), ..p }
    } else if config::has_launch(config::parsed(content), paths::key_of(path)) {
        p
    } else {
        PinnedView {
            content: Some(
                config::appended(content, command_palette::name_for(path, "Item"@), path),
            ),
            count: p.count + 1,
            ..p
        }
    }
}

/// What comes of pinning a list of paths, of which some exist.
pub open spec fn pinned_all(
    content: Option<Seq<char>>,
    paths: Seq<Seq<char>>,
    exist: Seq<bool>,
) -> PinnedView
    decreases paths.len(),
{
    if paths.len() == 0 {
        PinnedView { content, count: 0, missing: None }
    } else {
        and_then_pinned(
            pinned_all(content, paths.drop_last(), exist.drop_last()),
            paths.last(),
            exist.last(),
        )
    }
}

fn as_str(s: &Option<String>) -> (r: Option<&str>)
    ensures
        text::opt_str(r) == text::opt_text(*s),
{
    match s {
        Some(t) => Some(t.as_str()),
        None => None,
    }
}

/// Pins a list of paths, one after the other, up to the first that does not exist. What is
/// pinned already is left alone.
pub fn add_contents(content: Option<String>, items: &Vec<String>, exist: &Vec<bool>) -> (r: Pinned)
    requires
        items@.len() == exist@.len(),
    ensures
        r@ == pinned_all(text::opt_text(content), text::texts(items@), exist@),
{
    let ghost from = text::opt_text(content);
    let ghost all = text::texts(items@);
    let mut p = Pinned { content, count: 0, missing: None };
    let mut i: usize = 0;
    assert(all.take(0) =~= Seq::empty());
    while i < items.len()
        invariant
            items@.len() == exist@.len(),
            all == text::texts(items@),
            i <= items@.len(),
            p.count <= i,
            p@ == pinned_all(from, all.take(i as int), exist@.take(i as int)),
        decreases items@.len() - i,
    {
        proof {
            assert(all.take(i + 1).drop_last() =~= all.take(i as int));
            assert(exist@.take(i + 1).drop_last() =~= exist@.take(i as int));
            assert(all.take(i + 1).last() == items@[i as int]@);
        }
        if p.missing.is_none() {
            if !exist[i] {
                p.missing = Some(text::copy_text(items[i].as_str()));
            } else {
                let label = label_for_path(items[i].as_str(), "Item");
                let added = add_item_at(as_str(&p.content), label.as_str(), items[i].as_str());
                if let Some(t) = added {
                    p.content = Some(t);
                    p.count = p.count + 1;
                }
            }
        }
        i += 1;
    }
    assert(all.take(i as int) =~= all);
    assert(exist@.take(i as int) =~= exist@);
    p
}

/// What the user is told of a path at which there is nothing.
pub fn missing_text(path: &str) -> (r: String)
    ensures
        r@ == "路径不存在："@ + path@,
{
    let mut out = text::chars_of("路径不存在：");
    text::add_text(&mut out, path);
    text::string_of(&out)
}

/// What the user is told when the system could not open something; `code` is what the
/// system answered.
pub fn open_error(code: isize) -> (r: Option<String>)
    ensures
        r is Some == (code <= 32),
        r matches Some(s) ==> s@ == "Windows 无法打开此内容（ShellExecute="@
            + numbers::signed_decimal(code as int) + "）"@,
{
    if code > 32 {
        return None;
    }
    let mut out = text::chars_of("Windows 无法打开此内容（ShellExecute=");
    numbers::add_signed(&mut out, code);
    text::add_text(&mut out, "）");
    Some(text::string_of(&out))
}

/// What the windows of an item are called by while they are previewed.
pub open spec fn preview_key_of(item: DockItem) -> Seq<char> {
    match item.group_key {
        Some(k) => k@,
        None => item.label@,
    }
}

/// What the windows of an item are called by while they are previewed, where it has any.
pub fn preview_key(item: &DockItem) -> (r: Option<String>)
    ensures
        text::opt_text(r) == (if item.windows@.len() == 0 {
            None
        } else {
            Some(preview_key_of(*item))
        }),
{
    if item.windows.len() == 0 {
        return None;
    }
    match &item.group_key {
        Some(k) => Some(text::copy_text(k.as_str())),
        None => Some(text::copy_text(item.label.as_str())),
    }
}

/// Nothing is pinned after a path that does not exist.
pub proof fn law_missing_ends_pinning(
    content: Option<Seq<char>>,
    paths: Seq<Seq<char>>,
    exist: Seq<bool>,
    path: Seq<char>,
    exists: bool,
)
    requires
        paths.len() == exist.len(),
        pinned_all(content, paths, exist).missing is Some,
    ensures
        pinned_all(content, paths.push(path), exist.push(exists)) == pinned_all(
            content,
            paths,
            exist,
        ),
{
    assert(paths.push(path).drop_last() =~= paths);
    assert(exist.push(exists).drop_last() =~= exist);
}

/// The file changes only where something is pinned.
pub proof fn law_content_changes_by_pinning(
    content: Option<Seq<char>>,
    paths: Seq<Seq<char>>,
    exist: Seq<bool>,
)
    requires
        paths.len() == exist.len(),
    ensures
        0 <= pinned_all(content, paths, exist).count <= paths.len(),
        pinned_all(content, paths, exist).count == 0 ==> pinned_all(content, paths, exist).content
            == content,
    decreases paths.len(),
{
    if paths.len() > 0 {
        law_content_changes_by_pinning(content, paths.drop_last(), exist.drop_last());
    }
}

} // verus!
