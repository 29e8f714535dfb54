//! The items of the dock: what each is made from, and which open windows belong to it.

use vstd::prelude::*;
use crate::config;
use crate::config::ItemSpec;
use crate::content;
use crate::content::ContentKind;
use crate::dock;
use crate::dock::{DockItem, ItemRole, ItemView, RefView, RunningWindowRef};
use crate::paths;
use crate::text;
use crate::windows_list;
use crate::windows_list::{GroupView, RunningGroup, WindowView};

verus! {

/// A path that was looked up, and whether a directory is there.
pub struct Resolved {
    pub path: String,
    pub is_dir: bool,
}

/// What was looked up for one item of the file: where its application is registered, and
/// whether a directory is at the path that it launches.
pub struct Lookup {
    pub app_path: Option<String>,
    pub is_dir: bool,
}

/// A program and when it was last changed.
pub struct Dated {
    pub modified: u64,
    pub path: String,
}

/// An item with a label, a character, a colour and a role, and nothing else.
pub open spec fn bare(
    label: Seq<char>,
    glyph: Seq<char>,
    color: (u8, u8, u8),
    kind: ContentKind,
    role: ItemRole,
) -> ItemView {
    ItemView {
        label,
        glyph,
        color,
        path: None,
        icon: None,
        kind,
        role,
        hwnd: None,
        group_key: None,
        windows: seq![],
    }
}

pub open spec fn start_view() -> ItemView {
    bare("Start"@, "\u{229E}"@, (16, 50, 95), ContentKind::Application, ItemRole::Start)
}

pub open spec fn control_view() -> ItemView {
    bare("控制中心"@, "\u{2699}"@, (30, 32, 38), ContentKind::Application, ItemRole::Control)
}

pub open spec fn drawer_view() -> ItemView {
    bare("应用抽屉"@, "\u{25A6}"@, (28, 30, 36), ContentKind::Application, ItemRole::Drawer)
}

pub open spec fn divider_view() -> ItemView {
    bare(""@, ""@, (100, 100, 100), ContentKind::File, ItemRole::Divider)
}

/// What the dock keeps of a window.
pub open spec fn ref_of(w: WindowView) -> RefView {
    RefView { hwnd: w.hwnd, title: w.title }
}

pub open spec fn refs_of(ws: Seq<WindowView>) -> Seq<RefView> {
    ws.map_values(|w: WindowView| ref_of(w))
}

/// The handle of the first window.
pub open spec fn primary_of(ws: Seq<WindowView>) -> Option<isize> {
    if ws.len() > 0 {
        Some(ws[0].hwnd)
    } else {
        None
    }
}

/// The item of an application that is not pinned.
pub open spec fn running_view(g: GroupView) -> ItemView {
    ItemView {
        label: g.label,
        glyph: content::stand_in(ContentKind::Application).0,
        color: content::stand_in(ContentKind::Application).1,
        path: None,
        icon: g.icon_path,
        kind: ContentKind::Application,
        role: ItemRole::Running,
        hwnd: primary_of(g.windows),
        group_key: Some(g.key),
        windows: refs_of(g.windows),
    }
}

/// An item with the windows of an application.
pub open spec fn attached(item: ItemView, g: GroupView) -> ItemView {
    ItemView {
        hwnd: primary_of(g.windows),
        group_key: Some(g.key),
        windows: refs_of(g.windows),
        ..item
    }
}

/// A pinned path and an application are the same program: by the whole path, or else by
/// the name of the file.
pub open spec fn same_program(pinned: Seq<char>, key: Seq<char>) -> bool {
    let p = windows_list::app_key(pinned);
    p == key || (paths::name_of(p) is Some && paths::name_of(p) == paths::name_of(key))
}

/// A window has this label for its title; letter case and white space around make no
/// difference.
pub open spec fn window_titled(label: Seq<char>, ws: Seq<WindowView>) -> bool {
    let l = text::trimmed(label);
    l.len() > 0 && exists|i: int|
        0 <= i < ws.len() && text::lower(text::trimmed((#[trigger] ws[i]).title)) == text::lower(l)
}

/// The path that an item of the file launches.
pub open spec fn resolved_of(spec: config::ItemView, app_path: Option<Seq<char>>) -> Option<
    Seq<char>,
> {
    if spec.path is Some {
        spec.path
    } else if spec.exe is Some {
        spec.exe
    } else if spec.app is Some {
        app_path
    } else {
        None
    }
}

/// What an item without a label is called.
pub open spec fn label_of(path: Option<Seq<char>>) -> Seq<char> {
    match path {
        Some(p) => match paths::stem_of(p) {
            Some(s) => s,
            None => "App"@,
        },
        None => "App"@,
    }
}

/// The item of the dock for an item of the file; none where there is nothing to show or
/// launch.
pub open spec fn built(spec: config::ItemView, app_path: Option<Seq<char>>, is_dir: bool) -> Seq<
    ItemView,
> {
    let path = resolved_of(spec, app_path);
    if path is None && spec.icon is None {
        seq![]
    } else {
        let kind = match path {
            Some(p) => content::kind_of(p, is_dir),
            None => ContentKind::File,
        };
        seq![
            ItemView {
                label: match spec.label {
                    Some(l) => l,
                    None => label_of(path),
                },
                glyph: content::stand_in(kind).0,
                color: content::stand_in(kind).1,
                path,
                icon: spec.icon,
                kind,
                role: ItemRole::Pinned,
                hwnd: None,
                group_key: None,
                windows: seq![],
            },
        ]
    }
}

pub open spec fn built_all(specs: Seq<config::ItemView>, found: Seq<Lookup>) -> Seq<ItemView>
    decreases specs.len(),
{
    if specs.len() == 0 {
        seq![]
    } else {
        built_all(specs.drop_last(), found.drop_last()) + built(
            specs.last(),
            text::opt_text(found.last().app_path),
            found.last().is_dir,
        )
    }
}

/// An item of the built-in set.
pub open spec fn default_view(
    label: Seq<char>,
    glyph: Seq<char>,
    color: (u8, u8, u8),
    found: Option<Resolved>,
) -> ItemView {
    ItemView {
        path: match found {
            Some(f) => Some(f.path@),
            None => None,
        },
        kind: match found {
            Some(f) => content::kind_of(f.path@, f.is_dir),
            None => ContentKind::Application,
        },
        ..bare(label, glyph, color, ContentKind::Application, ItemRole::Pinned)
    }
}

/// The most recent of these; the first of equals.
pub open spec fn newest(ds: Seq<Dated>) -> Option<int>
    decreases ds.len(),
{
    if ds.len() == 0 {
        None
    } else {
        match newest(ds.drop_last()) {
            Some(i) => if ds.last().modified > ds[i].modified {
                Some(ds.len() - 1)
            } else {
                Some(i)
            },
            None => Some(0),
        }
    }
}

fn bare_item(
    label: &str,
    glyph: &'static str,
    color: (u8, u8, u8),
    kind: ContentKind,
    role: ItemRole,
) -> (r: DockItem)
    ensures
        r@ == bare(label@, glyph@, color, kind, role),
{
    let r = DockItem {
        label: text::copy_text(label),
        glyph,
        color,
        path: None,
        icon: None,
        kind,
        role,
        hwnd: None,
        group_key: None,
        windows: Vec::new(),
    };
    assert(r@ =~= bare(label@, glyph@, color, kind, role));
    r
}

/// The button that opens the Start menu.
pub fn start_item() -> (r: DockItem)
    ensures
        r@ == start_view(),
{
    bare_item("Start", "\u{229E}", (16, 50, 95), ContentKind::Application, ItemRole::Start)
}

/// The button that opens the control center.
pub fn control_item() -> (r: DockItem)
    ensures
        r@ == control_view(),
{
    bare_item("控制中心", "\u{2699}", (30, 32, 38), ContentKind::Application, ItemRole::Control)
}

/// The button that opens the app drawer.
pub fn drawer_item() -> (r: DockItem)
    ensures
        r@ == drawer_view(),
{
    bare_item("应用抽屉", "\u{25A6}", (28, 30, 36), ContentKind::Application, ItemRole::Drawer)
}

/// The line between pinned items and open windows.
pub fn divider_item() -> (r: DockItem)
    ensures
        r@ == divider_view(),
{
    bare_item("", "", (100, 100, 100), ContentKind::File, ItemRole::Divider)
}

fn window_refs(g: &RunningGroup) -> (r: Vec<RunningWindowRef>)
    ensures
        dock::ref_views(r@) == refs_of(g@.windows),
{
    let mut out: Vec<RunningWindowRef> = Vec::new();
    let mut i: usize = 0;
    while i < g.windows.len()
        invariant
            i <= g.windows@.len(),
            dock::ref_views(out@) == refs_of(g@.windows).take(i as int),
        decreases g.windows@.len() - i,
    {
        let ghost was = out@;
        let w = RunningWindowRef {
            hwnd: g.windows[i].hwnd,
            title: text::copy_text(g.windows[i].title.as_str()),
        };
        out.push(w);
        proof {
            assert(dock::ref_views(out@) =~= dock::ref_views(was).push(w@));
            assert(refs_of(g@.windows).take(i as int + 1) =~= refs_of(g@.windows).take(
                i as int,
            ).push(w@));
        }
        i += 1;
    }
    assert(refs_of(g@.windows).take(i as int) =~= refs_of(g@.windows));
    out
}

fn primary_window(g: &RunningGroup) -> (r: Option<isize>)
    ensures
        r == primary_of(g@.windows),
{
    if g.windows.len() > 0 {
        assert(g@.windows[0] == g.windows@[0]@);
        Some(g.windows[0].hwnd)
    } else {
        None
    }
}

/// The item of an application that is not pinned.
pub fn running_item(group: &RunningGroup) -> (r: DockItem)
    ensures
        r@ == running_view(group@),
{
    let (glyph, color) = content::fallback_visual(ContentKind::Application);
    let r = DockItem {
        label: text::copy_text(group.label.as_str()),
        glyph,
        color,
        path: None,
        icon: text::copy_opt(&group.icon_path),
        kind: ContentKind::Application,
        role: ItemRole::Running,
        hwnd: primary_window(group),
        group_key: Some(text::copy_text(group.key.as_str())),
        windows: window_refs(group),
    };
    assert(r@ =~= running_view(group@));
    r
}

/// Whether a pinned path and an application are the same program.
pub fn exe_matches(pinned_path: &str, group_key: &str) -> (r: bool)
    ensures
        r == same_program(pinned_path@, group_key@),
{
    let pinned = windows_list::normalize_app_key(pinned_path);
    if text::same(pinned.as_str(), group_key) {
        return true;
    }
    match (paths::file_name(pinned.as_str()), paths::file_name(group_key)) {
        (Some(a), Some(b)) => text::same(a.as_str(), b.as_str()),
        _ => false,
    }
}

/// Whether a window of a group has this label for its title.
pub fn title_matches_label(label: &str, group: &RunningGroup) -> (r: bool)
    ensures
        r == window_titled(label@, group@.windows),
{
    let l = text::chars_of(label);
    let t = text::trim(&l);
    if t.len() == 0 {
        return false;
    }
    let want = text::lower_chars(t);
    let ghost ws = group@.windows;
    let mut i: usize = 0;
    while i < group.windows.len()
        invariant
            i <= group.windows@.len(),
            ws == group@.windows,
            text::trimmed(label@).len() > 0,
            want@ == text::lower(text::trimmed(label@)),
            forall|j: int|
                0 <= j < i ==> text::lower(text::trimmed((#[trigger] ws[j]).title)) != want@,
        decreases group.windows@.len() - i,
    {
        let w = text::chars_of(group.windows[i].title.as_str());
        let have = text::lower_chars(text::trim(&w));
        assert(ws[i as int].title == w@);
        if text::same_chars(&have, &want) {
            return true;
        }
        i += 1;
    }
    false
}

/// Gives an item the windows of an application.
pub fn attach_running(item: &mut DockItem, group: &RunningGroup)
    ensures
        final(item)@ == attached(old(item)@, group@),
{
    item.hwnd = primary_window(group);
    item.group_key = Some(text::copy_text(group.key.as_str()));
    item.windows = window_refs(group);
    assert(item@ =~= attached(old(item)@, group@));
}

fn default_item(
    label: &str,
    glyph: &'static str,
    color: (u8, u8, u8),
    found: &Option<Resolved>,
) -> (r: DockItem)
    ensures
        r@ == default_view(label@, glyph@, color, *found),
{
    let mut r = bare_item(label, glyph, color, ContentKind::Application, ItemRole::Pinned);
    if let Some(f) = found {
        r.kind = content::classify_path(f.path.as_str(), f.is_dir);
        r.path = Some(text::copy_text(f.path.as_str()));
    }
    assert(r@ =~= default_view(label@, glyph@, color, *found));
    r
}

/// The built-in items, with the programs that were found. The assistant goes by the name
/// that it is given.
pub fn default_items(
    edge: &Option<Resolved>,
    chrome: &Option<Resolved>,
    code: &Option<Resolved>,
    assistant_label: &str,
    assistant: &Option<Resolved>,
) -> (r: Vec<DockItem>)
    ensures
        dock::item_views(r@) == seq![
            default_view("Edge"@, "\u{1F310}"@, (18, 45, 85), *edge),
            default_view("Chrome"@, "\u{1F30D}"@, (92, 42, 30), *chrome),
            default_view("VS Code"@, "\u{1F4DD}"@, (14, 46, 78), *code),
            default_view(assistant_label@, "\u{2728}"@, (85, 50, 28), *assistant),
        ],
{
    let mut out: Vec<DockItem> = Vec::new();
    out.push(default_item("Edge", "\u{1F310}", (18, 45, 85), edge));
    out.push(default_item("Chrome", "\u{1F30D}", (92, 42, 30), chrome));
    out.push(default_item("VS Code", "\u{1F4DD}", (14, 46, 78), code));
    out.push(default_item(assistant_label, "\u{2728}", (85, 50, 28), assistant));
    assert(dock::item_views(out@) =~= seq![
        default_view("Edge"@, "\u{1F310}"@, (18, 45, 85), *edge),
        default_view("Chrome"@, "\u{1F30D}"@, (92, 42, 30), *chrome),
        default_view("VS Code"@, "\u{1F4DD}"@, (14, 46, 78), *code),
        default_view(assistant_label@, "\u{2728}"@, (85, 50, 28), *assistant),
    ]);
    out
}

/// The path that an item of the file launches: its path, or else its executable, or else
/// where its application is registered.
pub fn resolve_launch_path(spec: &ItemSpec, app_path: &Option<String>) -> (r: Option<String>)
    ensures
        text::opt_text(r) == resolved_of(spec@, text::opt_text(*app_path)),
{
    match &spec.path {
        Some(p) => Some(text::copy_text(p.as_str())),
        None => match &spec.exe {
            Some(p) => Some(text::copy_text(p.as_str())),
            None => match &spec.app {
                Some(_) => text::copy_opt(app_path),
                None => None,
            },
        },
    }
}

/// What an item without a label is called.
pub fn label_from(exe: &Option<String>) -> (r: String)
    ensures
        r@ == label_of(text::opt_text(*exe)),
{
    match exe {
        Some(p) => match paths::file_stem(p.as_str()) {
            Some(s) => s,
            None => text::copy_text("App"),
        },
        None => text::copy_text("App"),
    }
}

fn build_item(spec: &ItemSpec, found: &Lookup) -> (r: Option<DockItem>)
    ensures
        ({
            let b = built(spec@, text::opt_text(found.app_path), found.is_dir);
            match r {
                Some(item) => b == seq![item@],
                None => b.len() == 0,
            }
        }),
{
    let path = resolve_launch_path(spec, &found.app_path);
    if path.is_none() && spec.icon.is_none() {
        return None;
    }
    let label = match &spec.label {
        Some(l) => text::copy_text(l.as_str()),
        None => label_from(&path),
    };
    let kind = match &path {
        Some(p) => content::classify_path(p.as_str(), found.is_dir),
        None => ContentKind::File,
    };
    let (glyph, color) = content::fallback_visual(kind);
    let item = DockItem {
        label,
        glyph,
        color,
        path,
        icon: text::copy_opt(&spec.icon),
        kind,
        role: ItemRole::Pinned,
        hwnd: None,
        group_key: None,
        windows: Vec::new(),
    };
    proof {
        let b = built(spec@, text::opt_text(found.app_path), found.is_dir);
        assert(dock::ref_views(item.windows@) =~= seq![]);
        assert(item@ =~= b[0]);
        assert(b =~= seq![item@]);
    }
    Some(item)
}

/// The items of the dock for the items of the file.
pub fn from_config(specs: &Vec<ItemSpec>, found: &Vec<Lookup>) -> (r: Vec<DockItem>)
    requires
        specs@.len() == found@.len(),
    ensures
        dock::item_views(r@) == built_all(config::views(specs@), found@),
{
    let ghost all = config::views(specs@);
    let mut out: Vec<DockItem> = Vec::new();
    let mut i: usize = 0;
    assert(dock::item_views(out@) =~= built_all(all.take(0), found@.take(0)));
    while i < specs.len()
        invariant
            i <= specs@.len(),
            specs@.len() == found@.len(),
            all == config::views(specs@),
            dock::item_views(out@) == built_all(all.take(i as int), found@.take(i as int)),
        decreases specs@.len() - i,
    {
        let ghost was = out@;
        proof {
            assert(all.take(i as int + 1).drop_last() =~= all.take(i as int));
            assert(found@.take(i as int + 1).drop_last() =~= found@.take(i as int));
            assert(all.take(i as int + 1).last() == specs@[i as int]@);
        }
        let made = build_item(&specs[i], &found[i]);
        let ghost b = built(
            specs@[i as int]@,
            text::opt_text(found@[i as int].app_path),
            found@[i as int].is_dir,
        );
        match made {
            Some(item) => {
                out.push(item);
                assert(dock::item_views(out@) =~= dock::item_views(was) + b);
            },
            None => {
                assert(b =~= seq![]);
                assert(dock::item_views(out@) =~= dock::item_views(was) + b);
            },
        }
        i += 1;
    }
    assert(all.take(i as int) =~= all);
    assert(found@.take(i as int) =~= found@);
    out
}

/// The place in the registry where an application is registered.
pub fn app_paths_key(exe: &str) -> (r: String)
    ensures
        r@ == "SOFTWARE\\Microsoft\\Windows\\CurrentVersion\\App Paths\\"@ + exe@,
{
    let mut out = text::chars_of("SOFTWARE\\Microsoft\\Windows\\CurrentVersion\\App Paths\\");
    text::add_text(&mut out, exe);
    text::string_of(&out)
}

/// A registered path without white space or quote marks around it.
pub fn registered_path(value: &str) -> (r: String)
    ensures
        r@ == text::stripped(text::trimmed(value@), '"'),
{
    let v = text::chars_of(value);
    text::string_of(text::trim_of(text::trim(&v), '"'))
}

/// A path below a directory, with a backslash between.
pub fn under(base: &str, rel: &str) -> (r: String)
    ensures
        r@ == base@ + seq!['\\'] + rel@,
{
    let mut out = text::chars_of(base);
    out.push('\\');
    text::add_text(&mut out, rel);
    assert(out@ =~= base@ + seq!['\\'] + rel@);
    text::string_of(&out)
}

/// The most recent of these programs; the first of equals.
pub fn newest_program(found: &Vec<Dated>) -> (r: Option<String>)
    ensures
        match newest(found@) {
            Some(i) => r is Some && r->0@ == found@[i].path@,
            None => r is None,
        },
{
    if found.len() == 0 {
        return None;
    }
    let mut best: usize = 0;
    let mut i: usize = 1;
    assert(newest(found@.take(1)) == Some(0int)) by {
        reveal_with_fuel(newest, 2);
        assert(found@.take(1).drop_last() =~= seq![]);
    }
    while i < found.len()
        invariant
            1 <= i <= found@.len(),
            best < i,
            newest(found@.take(i as int)) == Some(best as int),
        decreases found@.len() - i,
    {
        assert(found@.take(i as int + 1).drop_last() =~= found@.take(i as int));
        if found[i].modified > found[best].modified {
            best = i;
        }
        i += 1;
    }
    assert(found@.take(i as int) =~= found@);
    Some(text::copy_text(found[best].path.as_str()))
}

} // verus!
