//! Where the icon of an item of the dock comes from.

use vstd::prelude::*;
use crate::content::ContentKind;
use crate::dock::{DockItem, ItemRole};
use crate::text;

verus! {

/// The size that icons are extracted in, in pixels.
pub const ICON_SIZE: u32 = 256;

/// Where an icon comes from.
pub enum IconPlan {
    /// The item has no icon: it is drawn.
    Nothing,
    /// The program of a window, or else the window itself.
    Window(isize),
    /// A file. Without a kind, what the file is has to be looked at.
    File { path: String, kind: Option<ContentKind> },
}

pub enum IconPlanView {
    Nothing,
    Window(isize),
    File { path: Seq<char>, kind: Option<ContentKind> },
}

impl View for IconPlan {
    type V = IconPlanView;

    open spec fn view(&self) -> IconPlanView {
        match self {
            IconPlan::Nothing => IconPlanView::Nothing,
            IconPlan::Window(hwnd) => IconPlanView::Window(*hwnd),
            IconPlan::File { path, kind } => IconPlanView::File { path: path@, kind: *kind },
        }
    }
}

/// Where the icon of an item comes from: a pinned item has the icon that was chosen for it,
/// or else that of what it opens.
pub open spec fn plan_of(item: DockItem) -> IconPlanView {
    match item.role {
        ItemRole::Running => match item.hwnd {
            Some(hwnd) => IconPlanView::Window(hwnd),
            None => IconPlanView::Nothing,
        },
        ItemRole::Pinned => match item.icon {
            Some(icon) => IconPlanView::File { path: icon@, kind: None },
            None => match item.path {
                Some(path) => IconPlanView::File { path: path@, kind: Some(item.kind) },
                None => IconPlanView::Nothing,
            },
        },
        _ => IconPlanView::Nothing,
    }
}

/// Where the icon of an item comes from.
pub fn icon_plan(item: &DockItem) -> (r: IconPlan)
    ensures
        r@ == plan_of(*item),
{
    match item.role {
        ItemRole::Running => match item.hwnd {
            Some(hwnd) => IconPlan::Window(hwnd),
            None => IconPlan::Nothing,
        },
        ItemRole::Pinned => match &item.icon {
            Some(icon) => IconPlan::File { path: text::copy_text(icon.as_str()), kind: None },
            None => match &item.path {
                Some(path) => IconPlan::File {
                    path: text::copy_text(path.as_str()),
                    kind: Some(item.kind),
                },
                None => IconPlan::Nothing,
            },
        },
        _ => IconPlan::Nothing,
    }
}

/// One way to get the icon of a file.
#[derive(Clone, Copy, Debug, PartialEq, Eq, Structural)]
pub enum IconSource {
    /// The picture that the file holds.
    Picture,
    /// The icon that the file holds.
    Extracted,
    /// The large icon that the system has for it.
    Jumbo,
    /// The small icon that the system has for it.
    Shell,
}

/// The ways to get the icon of a file, in the order in which they are tried: the sharpest
/// come first.
pub fn icon_sources(kind: ContentKind) -> (r: Vec<IconSource>)
    ensures
        r@ == (if kind == ContentKind::Image {
            seq![
                IconSource::Picture,
                IconSource::Extracted,
                IconSource::Jumbo,
                IconSource::Shell,
            ]
        } else {
            seq![IconSource::Extracted, IconSource::Jumbo, IconSource::Shell]
        }),
        r@.contains(IconSource::Picture) <==> kind == ContentKind::Image,
        kind == ContentKind::Image ==> r@[0] == IconSource::Picture,
        r@.last() == IconSource::Shell,
{
    let mut out: Vec<IconSource> = Vec::new();
    if kind == ContentKind::Image {
        out.push(IconSource::Picture);
    }
    out.push(IconSource::Extracted);
    out.push(IconSource::Jumbo);
    out.push(IconSource::Shell);
    assert(out@ =~= if kind == ContentKind::Image {
        seq![
            IconSource::Picture,
            IconSource::Extracted,
            IconSource::Jumbo,
            IconSource::Shell,
        ]
    } else {
        seq![IconSource::Extracted, IconSource::Jumbo, IconSource::Shell]
    });
    out
}

/// How an item is drawn.
#[derive(Clone, Copy, Debug, PartialEq, Eq, Structural)]
pub enum Picture {
    /// A line that separates.
    Line,
    /// Four panes.
    Panes,
    /// Two sliders.
    Sliders,
    /// A grid of squares.
    Squares,
    Icon,
    /// A coloured tile with a glyph, in place of an icon that there is not.
    Tile,
}

/// How an item is drawn; `has_icon` says that its icon was found.
pub fn picture(role: ItemRole, has_icon: bool) -> (r: Picture)
    ensures
        r == (match role {
            ItemRole::Divider => Picture::Line,
            ItemRole::Start => Picture::Panes,
            ItemRole::Control => Picture::Sliders,
            ItemRole::Drawer => Picture::Squares,
            _ => if has_icon {
                Picture::Icon
            } else {
                Picture::Tile
            },
        }),
        r == Picture::Icon ==> has_icon,
        (role == ItemRole::Pinned || role == ItemRole::Running) && has_icon ==> r == Picture::Icon,
        (role == ItemRole::Pinned || role == ItemRole::Running) && !has_icon ==> r == Picture::Tile,
        role == ItemRole::Divider <==> r == Picture::Line,
{
    match role {
        ItemRole::Divider => Picture::Line,
        ItemRole::Start => Picture::Panes,
        ItemRole::Control => Picture::Sliders,
        ItemRole::Drawer => Picture::Squares,
        _ => if has_icon {
            Picture::Icon
        } else {
            Picture::Tile
        },
    }
}

/// The old icon that each slot of a merged row goes on with, and whether it needs a new one.
pub open spec fn needs_icon(remap: Seq<Option<usize>>, old_count: nat) -> Seq<bool> {
    Seq::new(
        remap.len(),
        |i: int| !(remap[i] is Some && remap[i]->Some_0 < old_count),
    )
}

/// Which slots of a merged row need an icon loaded; the others go on with that of the old
/// slot that they come from.
pub fn fresh_icons(remap: &Vec<Option<usize>>, old_count: usize) -> (r: Vec<bool>)
    ensures
        r@ == needs_icon(remap@, old_count as nat),
{
    let mut out: Vec<bool> = Vec::new();
    let mut i: usize = 0;
    while i < remap.len()
        invariant
            i <= remap@.len(),
            out@ == needs_icon(remap@, old_count as nat).take(i as int),
        decreases remap@.len() - i,
    {
        let fresh: bool = match remap[i] {
            Some(at) => at >= old_count,
            None => true,
        };
        out.push(fresh);
        i += 1;
        assert(out@ =~= needs_icon(remap@, old_count as nat).take(i as int));
    }
    assert(out@ =~= needs_icon(remap@, old_count as nat));
    out
}

} // verus!
