//! The open windows that belong on the dock: which do, what application each is of, and
//! what a change of the desktop means for the dock.

use vstd::prelude::*;
use vstd::multiset::Multiset;
use crate::casing;
use crate::numbers;
use crate::order;
use crate::paths;
use crate::text;

verus! {

/// An open window.
#[derive(Clone, Debug, PartialEq, Eq)]
pub struct RunningWindow {
    pub hwnd: isize,
    pub title: String,
    pub exe_path: Option<String>,
}

/// The open windows of one application.
#[derive(Clone, Debug, PartialEq, Eq)]
pub struct RunningGroup {
    pub key: String,
    pub label: String,
    pub icon_path: Option<String>,
    pub windows: Vec<RunningWindow>,
}

#[verifier::ext_equal]
pub struct WindowView {
    pub hwnd: isize,
    pub title: Seq<char>,
    pub exe_path: Option<Seq<char>>,
}

#[verifier::ext_equal]
pub struct GroupView {
    pub key: Seq<char>,
    pub label: Seq<char>,
    pub icon_path: Option<Seq<char>>,
    pub windows: Seq<WindowView>,
}

impl View for RunningWindow {
    type V = WindowView;

    open spec fn view(&self) -> WindowView {
        WindowView {
            hwnd: self.hwnd,
            title: self.title@,
            exe_path: text::opt_text(self.exe_path),
        }
    }
}

pub open spec fn window_views(v: Seq<RunningWindow>) -> Seq<WindowView> {
    v.map_values(|w: RunningWindow| w@)
}

impl View for RunningGroup {
    type V = GroupView;

    open spec fn view(&self) -> GroupView {
        GroupView {
            key: self.key@,
            label: self.label@,
            icon_path: text::opt_text(self.icon_path),
            windows: window_views(self.windows@),
        }
    }
}

pub open spec fn group_views(v: Seq<RunningGroup>) -> Seq<GroupView> {
    v.map_values(|g: RunningGroup| g@)
}

/// A rectangle of the screen.
#[derive(Clone, Copy, Debug, PartialEq, Eq, Structural)]
pub struct ScreenRect {
    pub left: i32,
    pub top: i32,
    pub right: i32,
    pub bottom: i32,
}

/// What the system says of a window.
pub struct WindowFacts {
    pub visible: bool,
    /// It asks for a place on the taskbar.
    pub app_window: bool,
    /// It asks for none.
    pub tool_window: bool,
    pub has_owner: bool,
    pub title_len: i32,
    pub class: String,
    /// It is there but not on the screen.
    pub cloaked: bool,
}

/// A window and what the system says of it.
pub struct FoundWindow {
    pub facts: WindowFacts,
    pub window: RunningWindow,
}

/// What is done to a window.
#[derive(Clone, Copy, Debug, PartialEq, Eq, Structural)]
pub enum WindowStep {
    Restore,
    Minimize,
    Maximize,
    /// Bring it in front of all others.
    Foreground,
}

/// What a change of the desktop means for the dock.
#[derive(Clone, Copy, Debug, PartialEq, Eq, Structural)]
pub enum Change {
    /// There may be other windows now.
    Windows,
    /// Another window may be in front, or it may have another size.
    Front,
}

pub const EVENT_OBJECT_CREATE: u32 = 0x8000;

pub const EVENT_OBJECT_DESTROY: u32 = 0x8001;

pub const EVENT_OBJECT_SHOW: u32 = 0x8002;

pub const EVENT_OBJECT_HIDE: u32 = 0x8003;

pub const EVENT_OBJECT_LOCATIONCHANGE: u32 = 0x800B;

pub const EVENT_OBJECT_CLOAKED: u32 = 0x8017;

pub const EVENT_OBJECT_UNCLOAKED: u32 = 0x8018;

/// What an application is known by: its path in lower case, without white space or quote
/// marks around it.
pub open spec fn app_key(path: Seq<char>) -> Seq<char> {
    text::lower(text::stripped(text::trimmed(path), '"'))
}

/// What a window is grouped by: its application, or else itself.
pub open spec fn window_key(w: WindowView) -> Seq<char> {
    match w.exe_path {
        Some(p) => app_key(p),
        None => "hwnd:"@ + numbers::signed_decimal(w.hwnd as int),
    }
}

/// `s` as a title: dashes, underscores and dots are blanks, and the first letter of each
/// word is a capital.
pub open spec fn titled(s: Seq<char>, new_word: bool) -> Seq<char>
    decreases s.len(),
{
    if s.len() == 0 {
        seq![]
    } else if s[0] == '-' || s[0] == '_' || s[0] == '.' {
        seq![' '] + titled(s.skip(1), true)
    } else if new_word {
        casing::uppercased(s[0]) + titled(s.skip(1), false)
    } else {
        seq![s[0]] + titled(s.skip(1), false)
    }
}

/// What an application is called, by its path.
pub open spec fn app_label(path: Seq<char>) -> Seq<char> {
    let stem = match paths::stem_of(path) {
        Some(s) => s,
        None => "App"@,
    };
    let w = text::lower(stem);
    if w == "msedge"@ {
        "Edge"@
    } else if w == "chrome"@ {
        "Chrome"@
    } else if w == "code"@ {
        "VS Code"@
    } else if w == "explorer"@ {
        "Explorer"@
    } else {
        titled(stem, true)
    }
}

/// The index of the first group with this key, or the number of groups.
pub open spec fn group_at(gs: Seq<GroupView>, key: Seq<char>) -> int
    decreases gs.len(),
{
    if gs.len() == 0 || gs[0].key == key {
        0
    } else {
        1 + group_at(gs.skip(1), key)
    }
}

/// The groups after one more window: it joins the group of its application, or opens it.
pub open spec fn with_window(gs: Seq<GroupView>, w: WindowView) -> Seq<GroupView> {
    let at = group_at(gs, window_key(w));
    if at < gs.len() {
        gs.update(at, GroupView { windows: gs[at].windows.push(w), ..gs[at] })
    } else {
        gs.push(
            GroupView {
                key: window_key(w),
                label: match w.exe_path {
                    Some(p) => app_label(p),
                    None => w.title,
                },
                icon_path: w.exe_path,
                windows: seq![w],
            },
        )
    }
}

pub open spec fn collected(ws: Seq<WindowView>) -> Seq<GroupView>
    decreases ws.len(),
{
    if ws.len() == 0 {
        seq![]
    } else {
        with_window(collected(ws.drop_last()), ws.last())
    }
}

/// The lower handle first.
pub open spec fn by_handle() -> spec_fn(WindowView, WindowView) -> bool {
    |a: WindowView, b: WindowView| a.hwnd < b.hwnd
}

/// The handle that a group is placed by: that of its first window.
pub open spec fn first_handle(g: GroupView) -> int {
    if g.windows.len() > 0 {
        g.windows[0].hwnd as int
    } else {
        0
    }
}

/// The lower first handle first.
pub open spec fn by_first_handle() -> spec_fn(GroupView, GroupView) -> bool {
    |a: GroupView, b: GroupView| first_handle(a) < first_handle(b)
}

/// A group with its windows in order.
pub open spec fn tidied(g: GroupView) -> GroupView {
    GroupView { windows: order::arranged(g.windows, by_handle()), ..g }
}

/// The groups of these windows: windows in the order of their handles, groups in the
/// order of their first windows.
pub open spec fn grouped(ws: Seq<WindowView>) -> Seq<GroupView> {
    order::arranged(collected(ws).map_values(|g: GroupView| tidied(g)), by_first_handle())
}

/// A window of the shell or of the dock itself.
pub open spec fn is_shell(class: Seq<char>) -> bool {
    class == "Progman"@ || class == "WorkerW"@ || class == "Shell_TrayWnd"@ || class
        == "Shell_SecondaryTrayWnd"@ || class == "FeatherDockWindow"@ || class
        == "Windows.UI.Core.CoreWindow"@
}

/// A window that belongs on the dock: visible, with a title, on the screen, not of the
/// shell; and without an owner and no tool, unless it asks for a place.
pub open spec fn belongs(f: WindowFacts) -> bool {
    &&& f.visible
    &&& f.app_window || (!f.has_owner && !f.tool_window)
    &&& f.title_len != 0
    &&& !is_shell(f.class@)
    &&& !f.cloaked
}

/// The windows that belong on the dock and have a title.
pub open spec fn belonging(found: Seq<FoundWindow>) -> Seq<WindowView>
    decreases found.len(),
{
    if found.len() == 0 {
        seq![]
    } else {
        let front = belonging(found.drop_last());
        let f = found.last();
        if belongs(f.facts) && f.window.title@.len() > 0 {
            front.push(f.window@)
        } else {
            front
        }
    }
}

/// `inner` reaches every edge of `outer`.
pub open spec fn covers(inner: ScreenRect, outer: ScreenRect) -> bool {
    inner.left <= outer.left && inner.top <= outer.top && inner.right >= outer.right && inner.bottom
        >= outer.bottom
}

fn copy_window(w: &RunningWindow) -> (r: RunningWindow)
    ensures
        r@ == w@,
{
    RunningWindow {
        hwnd: w.hwnd,
        title: text::copy_text(w.title.as_str()),
        exe_path: text::copy_opt(&w.exe_path),
    }
}

/// What an application is known by.
pub fn normalize_app_key(path: &str) -> (r: String)
    ensures
        r@ == app_key(path@),
{
    let p = text::chars_of(path);
    let t = text::trim_of(text::trim(&p), '"');
    let w = text::lower_chars(t);
    text::string_of(&w)
}

/// A name as a title.
pub fn title_case_identifier(value: &str) -> (r: String)
    ensures
        r@ == titled(value@, true),
{
    let v = text::chars_of(value);
    let mut out: Vec<char> = Vec::new();
    let mut new_word: bool = true;
    let mut i: usize = 0;
    assert(v@.skip(0) =~= v@);
    assert(out@ + titled(v@.skip(0), true) =~= titled(v@, true));
    while i < v.len()
        invariant
            i <= v@.len(),
            out@ + titled(v@.skip(i as int), new_word) == titled(v@, true),
        decreases v@.len() - i,
    {
        let c = v[i];
        let ghost was = out@;
        let ghost rest = v@.skip(i as int);
        let ghost flag = new_word;
        if c == '-' || c == '_' || c == '.' {
            out.push(' ');
            new_word = true;
        } else if new_word {
            let up = casing::to_uppercase(c);
            text::add_chars(&mut out, &up);
            new_word = false;
        } else {
            out.push(c);
        }
        proof {
            assert(rest.skip(1) =~= v@.skip(i as int + 1));
            let added = if c == '-' || c == '_' || c == '.' {
                seq![' ']
            } else if flag {
                casing::uppercased(c)
            } else {
                seq![c]
            };
            assert(out@ =~= was + added);
            assert(out@ + titled(rest.skip(1), new_word) =~= was + (added + titled(
                rest.skip(1),
                new_word,
            )));
        }
        i += 1;
    }
    assert(v@.skip(i as int) =~= Seq::<char>::empty());
    assert(out@ + Seq::<char>::empty() =~= out@);
    text::string_of(&out)
}

/// What an application is called, by its path.
pub fn app_label_from_path(path: &str) -> (r: String)
    ensures
        r@ == app_label(path@),
{
    let stem = match paths::file_stem(path) {
        Some(s) => s,
        None => text::copy_text("App"),
    };
    let v = text::chars_of(stem.as_str());
    let w = text::lower_chars(&v);
    if text::spells(&w, "msedge") {
        text::copy_text("Edge")
    } else if text::spells(&w, "chrome") {
        text::copy_text("Chrome")
    } else if text::spells(&w, "code") {
        text::copy_text("VS Code")
    } else if text::spells(&w, "explorer") {
        text::copy_text("Explorer")
    } else {
        title_case_identifier(stem.as_str())
    }
}

fn key_for(w: &RunningWindow) -> (r: String)
    ensures
        r@ == window_key(w@),
{
    match &w.exe_path {
        Some(p) => normalize_app_key(p.as_str()),
        None => {
            let mut out = text::chars_of("hwnd:");
            numbers::add_signed(&mut out, w.hwnd);
            text::string_of(&out)
        },
    }
}

pub proof fn lemma_group_at(gs: Seq<GroupView>, key: Seq<char>)
    ensures
        0 <= group_at(gs, key) <= gs.len(),
        group_at(gs, key) < gs.len() ==> gs[group_at(gs, key)].key == key,
        forall|i: int| 0 <= i < group_at(gs, key) ==> (#[trigger] gs[i]).key != key,
    decreases gs.len(),
{
    if gs.len() > 0 && gs[0].key != key {
        lemma_group_at(gs.skip(1), key);
        assert forall|i: int| 0 <= i < group_at(gs, key) implies (#[trigger] gs[i]).key != key by {
            if i > 0 {
                assert(gs.skip(1)[i - 1] == gs[i]);
            }
        }
    }
}

fn find_group(gs: &Vec<RunningGroup>, key: &str) -> (r: usize)
    ensures
        r == group_at(group_views(gs@), key@),
        r <= gs@.len(),
{
    let ghost all = group_views(gs@);
    let mut i: usize = 0;
    while i < gs.len() && !text::same(gs[i].key.as_str(), key)
        invariant
            i <= gs@.len(),
            all == group_views(gs@),
            forall|j: int| 0 <= j < i ==> (#[trigger] all[j]).key != key@,
        decreases gs@.len() - i,
    {
        i += 1;
    }
    proof {
        lemma_group_at(all, key@);
        if i < gs@.len() {
            assert(all[i as int].key == key@);
        }
    }
    i
}

fn add_to_groups(gs: &mut Vec<RunningGroup>, w: &RunningWindow)
    ensures
        group_views(final(gs)@) == with_window(group_views(old(gs)@), w@),
{
    let ghost was = group_views(gs@);
    let key = key_for(w);
    let at: usize = find_group(gs, key.as_str());
    if at < gs.len() {
        let ghost windows = gs@[at as int].windows@;
        let copy = copy_window(w);
        gs[at].windows.push(copy);
        proof {
            assert(window_views(gs@[at as int].windows@) =~= window_views(windows).push(w@));
            assert(group_views(gs@) =~= with_window(was, w@));
        }
    } else {
        let label = match &w.exe_path {
            Some(p) => app_label_from_path(p.as_str()),
            None => text::copy_text(w.title.as_str()),
        };
        let mut windows: Vec<RunningWindow> = Vec::new();
        windows.push(copy_window(w));
        let g = RunningGroup { key, label, icon_path: text::copy_opt(&w.exe_path), windows };
        gs.push(g);
        proof {
            assert(window_views(g.windows@) =~= seq![w@]);
            assert(group_views(gs@) =~= with_window(was, w@));
        }
    }
}

fn handle_before(a: &RunningWindow, b: &RunningWindow) -> (r: bool)
    ensures
        r == (a@.hwnd < b@.hwnd),
{
    a.hwnd < b.hwnd
}

/// These windows in the order of their handles.
pub fn sort_windows(windows: Vec<RunningWindow>) -> (r: Vec<RunningWindow>)
    ensures
        window_views(r@) == order::arranged(window_views(windows@), by_handle()),
{
    let ghost lt = |a: RunningWindow, b: RunningWindow| a@.hwnd < b@.hwnd;
    let ghost all = windows@;
    let r = order::stable_sort(windows, handle_before, Ghost(lt));
    proof {
        order::lemma_arranged_map(all, lt, |w: RunningWindow| w@, by_handle());
    }
    r
}

fn first_of(g: &RunningGroup) -> (r: isize)
    ensures
        r == first_handle(g@),
{
    if g.windows.len() > 0 {
        assert(g@.windows[0] == g.windows@[0]@);
        g.windows[0].hwnd
    } else {
        0
    }
}

fn group_before(a: &RunningGroup, b: &RunningGroup) -> (r: bool)
    ensures
        r == (first_handle(a@) < first_handle(b@)),
{
    first_of(a) < first_of(b)
}

/// The open windows by application: windows in the order of their handles, groups in the
/// order of their first windows.
pub fn group_by_application(running: &Vec<RunningWindow>) -> (r: Vec<RunningGroup>)
    ensures
        group_views(r@) == grouped(window_views(running@)),
{
    let ghost ws = window_views(running@);
    let mut groups: Vec<RunningGroup> = Vec::new();
    let mut i: usize = 0;
    assert(group_views(groups@) =~= collected(ws.take(0)));
    while i < running.len()
        invariant
            i <= running@.len(),
            ws == window_views(running@),
            group_views(groups@) == collected(ws.take(i as int)),
        decreases running@.len() - i,
    {
        add_to_groups(&mut groups, &running[i]);
        proof {
            assert(ws.take(i as int + 1).drop_last() =~= ws.take(i as int));
            assert(ws.take(i as int + 1).last() == running@[i as int]@);
        }
        i += 1;
    }
    assert(ws.take(i as int) =~= ws);
    let ghost all = group_views(groups@);
    let mut j: usize = 0;
    while j < groups.len()
        invariant
            j <= groups@.len(),
            groups@.len() == all.len(),
            forall|k: int| 0 <= k < j ==> #[trigger] groups@[k]@ == tidied(all[k]),
            forall|k: int| j <= k < all.len() ==> #[trigger] groups@[k]@ == all[k],
        decreases all.len() - j,
    {
        let ghost was = groups@;
        assert(was[j as int]@ == all[j as int]);
        let mut windows: Vec<RunningWindow> = Vec::new();
        std::mem::swap(&mut windows, &mut groups[j].windows);
        let sorted = sort_windows(windows);
        groups[j].windows = sorted;
        proof {
            assert(groups@[j as int]@ =~= tidied(all[j as int]));
            assert forall|k: int| 0 <= k < all.len() && k != j implies #[trigger] groups@[k]@
                == was[k]@ by {}
        }
        j += 1;
    }
    let ghost tidy = all.map_values(|g: GroupView| tidied(g));
    assert(group_views(groups@) =~= tidy);
    let ghost lt = |a: RunningGroup, b: RunningGroup| first_handle(a@) < first_handle(b@);
    let ghost unsorted = groups@;
    let r = order::stable_sort(groups, group_before, Ghost(lt));
    proof {
        order::lemma_arranged_map(unsorted, lt, |g: RunningGroup| g@, by_first_handle());
    }
    r
}

/// Whether a window is of the shell or of the dock itself.
pub fn is_shell_class(class: &str) -> (r: bool)
    ensures
        r == is_shell(class@),
{
    text::same(class, "Progman") || text::same(class, "WorkerW") || text::same(
        class,
        "Shell_TrayWnd",
    ) || text::same(class, "Shell_SecondaryTrayWnd") || text::same(class, "FeatherDockWindow")
        || text::same(class, "Windows.UI.Core.CoreWindow")
}

/// Whether a window belongs on the dock.
pub fn is_alt_tab_window(f: &WindowFacts) -> (r: bool)
    ensures
        r == belongs(*f),
{
    if !f.visible {
        return false;
    }
    if !f.app_window && f.has_owner {
        return false;
    }
    if f.tool_window && !f.app_window {
        return false;
    }
    if f.title_len == 0 {
        return false;
    }
    if is_shell_class(f.class.as_str()) {
        return false;
    }
    !f.cloaked
}

/// The windows that belong on the dock, in the order of their handles.
pub fn enumerate_sorted(found: &Vec<FoundWindow>) -> (r: Vec<RunningWindow>)
    ensures
        window_views(r@) == order::arranged(belonging(found@), by_handle()),
{
    let mut out: Vec<RunningWindow> = Vec::new();
    let mut i: usize = 0;
    assert(window_views(out@) =~= belonging(found@.take(0)));
    while i < found.len()
        invariant
            i <= found@.len(),
            window_views(out@) == belonging(found@.take(i as int)),
        decreases found@.len() - i,
    {
        assert(found@.take(i as int + 1).drop_last() =~= found@.take(i as int));
        if is_alt_tab_window(&found[i].facts) && !found[i].window.title.as_str().is_empty() {
            let ghost was = out@;
            let w = copy_window(&found[i].window);
            out.push(w);
            assert(window_views(out@) =~= window_views(was).push(w@));
        }
        i += 1;
    }
    assert(found@.take(i as int) =~= found@);
    sort_windows(out)
}

/// Whether a window in front retracts the dock as a full-screen one: it fills the
/// monitor and has no caption.
pub fn fullscreen_should_retract_dock(covers_monitor: bool, has_caption: bool) -> (r: bool)
    ensures
        r <==> covers_monitor && !has_caption,
{
    covers_monitor && !has_caption
}

/// Whether a maximized window in front retracts the dock: it has a caption.
pub fn maximized_should_retract_dock(has_caption: bool) -> (r: bool)
    ensures
        r == has_caption,
{
    has_caption
}

/// Whether a window reaches every edge of a monitor.
pub fn covers_monitor(window: ScreenRect, monitor: ScreenRect) -> (r: bool)
    ensures
        r == covers(window, monitor),
{
    window.left <= monitor.left && window.top <= monitor.top && window.right >= monitor.right
        && window.bottom >= monitor.bottom
}

/// Whether a full-screen application is in front on the dock's monitor. Nothing is known
/// of the rectangles where the system does not tell them.
pub fn is_fullscreen_present(
    valid: bool,
    class: &str,
    same_monitor: bool,
    window: Option<ScreenRect>,
    monitor: Option<ScreenRect>,
    has_caption: bool,
) -> (r: bool)
    ensures
        r <==> valid && !is_shell(class@) && same_monitor && window is Some && monitor is Some
            && covers(window->0, monitor->0) && !has_caption,
{
    if !valid || is_shell_class(class) || !same_monitor {
        return false;
    }
    match (window, monitor) {
        (Some(w), Some(m)) => fullscreen_should_retract_dock(covers_monitor(w, m), has_caption),
        _ => false,
    }
}

/// Whether a maximized window is in front on the dock's monitor.
pub fn is_maximized_present(
    valid: bool,
    class: &str,
    same_monitor: bool,
    zoomed: bool,
    has_caption: bool,
) -> (r: bool)
    ensures
        r <==> valid && !is_shell(class@) && same_monitor && zoomed && has_caption,
{
    if !valid || is_shell_class(class) || !same_monitor || !zoomed {
        return false;
    }
    maximized_should_retract_dock(has_caption)
}

/// What a click on a window's icon does: a minimized window is restored and comes to the
/// front, one in front is minimized, any other comes to the front.
pub fn activate(minimized: bool, in_front: bool) -> (r: Vec<WindowStep>)
    ensures
        r@ == (if minimized {
            seq![WindowStep::Restore, WindowStep::Foreground]
        } else if in_front {
            seq![WindowStep::Minimize]
        } else {
            seq![WindowStep::Foreground]
        }),
        r@.contains(WindowStep::Minimize) <==> in_front && !minimized,
        r@.contains(WindowStep::Restore) <==> minimized,
        minimized || !in_front <==> r@.last() == WindowStep::Foreground,
{
    let mut out: Vec<WindowStep> = Vec::new();
    if minimized {
        out.push(WindowStep::Restore);
        out.push(WindowStep::Foreground);
        assert(out@ =~= seq![WindowStep::Restore, WindowStep::Foreground]);
    } else if in_front {
        out.push(WindowStep::Minimize);
        assert(out@ =~= seq![WindowStep::Minimize]);
    } else {
        out.push(WindowStep::Foreground);
        assert(out@ =~= seq![WindowStep::Foreground]);
    }
    out
}

/// What toggles a window between its own size and that of the screen.
pub fn toggle_maximize(zoomed: bool) -> (r: WindowStep)
    ensures
        r == (if zoomed {
            WindowStep::Restore
        } else {
            WindowStep::Maximize
        }),
{
    if zoomed {
        WindowStep::Restore
    } else {
        WindowStep::Maximize
    }
}

/// Windows come, go, or change between there and not there.
pub open spec fn changes_windows(event: u32) -> bool {
    event == EVENT_OBJECT_CREATE || event == EVENT_OBJECT_DESTROY || event == EVENT_OBJECT_SHOW
        || event == EVENT_OBJECT_HIDE || event == EVENT_OBJECT_CLOAKED || event
        == EVENT_OBJECT_UNCLOAKED
}

/// What an event means for the dock. Events of anything but a whole window mean nothing,
/// nor does a move of a window that is not in front.
pub fn classify_event(
    event: u32,
    id_object: i32,
    id_child: i32,
    valid: bool,
    in_front: bool,
) -> (r: Option<Change>)
    ensures
        r == (if id_object != 0 || id_child != 0 || !valid {
            None
        } else if changes_windows(event) {
            Some(Change::Windows)
        } else if event == EVENT_OBJECT_LOCATIONCHANGE && !in_front {
            None
        } else {
            Some(Change::Front)
        }),
{
    if id_object != 0 || id_child != 0 || !valid {
        return None;
    }
    if event == EVENT_OBJECT_CREATE || event == EVENT_OBJECT_DESTROY || event == EVENT_OBJECT_SHOW
        || event == EVENT_OBJECT_HIDE || event == EVENT_OBJECT_CLOAKED || event
        == EVENT_OBJECT_UNCLOAKED {
        return Some(Change::Windows);
    }
    if event == EVENT_OBJECT_LOCATIONCHANGE && !in_front {
        return None;
    }
    Some(Change::Front)
}

/// All windows of these groups.
pub open spec fn pool(gs: Seq<GroupView>) -> Multiset<WindowView>
    decreases gs.len(),
{
    if gs.len() == 0 {
        Multiset::empty()
    } else {
        pool(gs.drop_last()).add(gs.last().windows.to_multiset())
    }
}

/// Every group holds windows of its own key alone, and one at least.
pub open spec fn pure(gs: Seq<GroupView>) -> bool {
    forall|i: int|
        0 <= i < gs.len() ==> (#[trigger] gs[i]).windows.len() > 0 && forall|k: int|
            0 <= k < gs[i].windows.len() ==> window_key(#[trigger] gs[i].windows[k]) == gs[i].key
}

/// No two groups have the same key.
pub open spec fn apart(gs: Seq<GroupView>) -> bool {
    forall|i: int, j: int|
        0 <= i < j < gs.len() ==> (#[trigger] gs[i]).key != (#[trigger] gs[j]).key
}

proof fn lemma_pool_update(gs: Seq<GroupView>, at: int, w: WindowView)
    requires
        0 <= at < gs.len(),
    ensures
        pool(gs.update(at, GroupView { windows: gs[at].windows.push(w), ..gs[at] })) == pool(
            gs,
        ).insert(w),
    decreases gs.len(),
{
    broadcast use vstd::seq_lib::group_to_multiset_ensures;

    let g = GroupView { windows: gs[at].windows.push(w), ..gs[at] };
    let r = gs.update(at, g);
    if at == gs.len() - 1 {
        assert(r.drop_last() =~= gs.drop_last());
        assert(g.windows.to_multiset() =~= gs[at].windows.to_multiset().insert(w));
    } else {
        lemma_pool_update(gs.drop_last(), at, w);
        assert(r.drop_last() =~= gs.drop_last().update(at, g));
        assert(r.last() == gs.last());
    }
    assert(pool(r) =~= pool(gs).insert(w));
}

proof fn lemma_collected(ws: Seq<WindowView>)
    ensures
        pure(collected(ws)),
        apart(collected(ws)),
        pool(collected(ws)) == ws.to_multiset(),
    decreases ws.len(),
{
    broadcast use vstd::seq_lib::group_to_multiset_ensures;

    if ws.len() == 0 {
        assert(pool(collected(ws)) =~= ws.to_multiset());
    } else {
        let f = ws.drop_last();
        let w = ws.last();
        lemma_collected(f);
        let gs = collected(f);
        let r = collected(ws);
        let at = group_at(gs, window_key(w));
        lemma_group_at(gs, window_key(w));
        assert(ws =~= f.push(w));
        assert(ws.to_multiset() =~= f.to_multiset().insert(w));
        if at < gs.len() {
            lemma_pool_update(gs, at, w);
            assert(pure(r)) by {
                assert forall|i: int| 0 <= i < r.len() implies (#[trigger] r[i]).windows.len() > 0
                    && forall|k: int|
                    0 <= k < r[i].windows.len() ==> window_key(#[trigger] r[i].windows[k])
                        == r[i].key by {
                    assert(gs[i].windows.len() > 0);
                    assert forall|k: int| 0 <= k < r[i].windows.len() implies window_key(
                        #[trigger] r[i].windows[k],
                    ) == r[i].key by {
                        if i == at && k == gs[at].windows.len() {
                        } else {
                            assert(r[i].windows[k] == gs[i].windows[k]);
                        }
                    }
                }
            }
            assert(apart(r)) by {
                assert forall|i: int, j: int| 0 <= i < j < r.len() implies (#[trigger] r[i]).key
                    != (#[trigger] r[j]).key by {
                    assert(gs[i].key != gs[j].key);
                }
            }
        } else {
            assert(r.drop_last() =~= gs);
            assert(seq![w].to_multiset() =~= Multiset::<WindowView>::empty().insert(w)) by {
                assert(seq![w] =~= Seq::<WindowView>::empty().push(w));
            }
            assert(pool(r) =~= pool(gs).insert(w));
            assert(pure(r)) by {
                assert forall|i: int| 0 <= i < r.len() implies (#[trigger] r[i]).windows.len() > 0
                    && forall|k: int|
                    0 <= k < r[i].windows.len() ==> window_key(#[trigger] r[i].windows[k])
                        == r[i].key by {
                    if i < gs.len() {
                        assert(r[i] == gs[i]);
                    }
                }
            }
            assert(apart(r)) by {
                assert forall|i: int, j: int| 0 <= i < j < r.len() implies (#[trigger] r[i]).key
                    != (#[trigger] r[j]).key by {
                    assert(r[i] == gs[i]);
                    if j < gs.len() {
                        assert(r[j] == gs[j]);
                    }
                }
            }
        }
    }
}

proof fn lemma_pool_placed(gs: Seq<GroupView>, g: GroupView)
    ensures
        pool(order::placed(gs, g, by_first_handle())) == pool(gs).add(g.windows.to_multiset()),
    decreases gs.len(),
{
    let lt = by_first_handle();
    if gs.len() == 0 || !lt(g, gs.last()) {
        assert(gs.push(g).drop_last() =~= gs);
    } else {
        lemma_pool_placed(gs.drop_last(), g);
        let p = order::placed(gs.drop_last(), g, lt);
        assert(p.push(gs.last()).drop_last() =~= p);
        assert(pool(order::placed(gs, g, lt)) =~= pool(gs).add(g.windows.to_multiset()));
    }
}

proof fn lemma_pool_arranged(gs: Seq<GroupView>)
    ensures
        pool(order::arranged(gs, by_first_handle())) == pool(gs),
    decreases gs.len(),
{
    if gs.len() > 0 {
        lemma_pool_arranged(gs.drop_last());
        lemma_pool_placed(order::arranged(gs.drop_last(), by_first_handle()), gs.last());
    }
}

proof fn lemma_pool_tidied(gs: Seq<GroupView>)
    ensures
        pool(gs.map_values(|g: GroupView| tidied(g))) == pool(gs),
    decreases gs.len(),
{
    let t = gs.map_values(|g: GroupView| tidied(g));
    if gs.len() > 0 {
        lemma_pool_tidied(gs.drop_last());
        assert(t.drop_last() =~= gs.drop_last().map_values(|g: GroupView| tidied(g)));
        order::lemma_arranged_multiset(gs.last().windows, by_handle());
    }
}

/// Grouping loses no window and doubles none.
pub proof fn law_groups_hold_all(ws: Seq<WindowView>)
    ensures
        pool(grouped(ws)) == ws.to_multiset(),
{
    lemma_collected(ws);
    lemma_pool_tidied(collected(ws));
    lemma_pool_arranged(collected(ws).map_values(|g: GroupView| tidied(g)));
}

/// A group holds the windows of its own application alone, in the order of their
/// handles.
pub proof fn law_groups_are_pure(ws: Seq<WindowView>, i: int)
    requires
        0 <= i < grouped(ws).len(),
    ensures
        grouped(ws)[i].windows.len() > 0,
        forall|k: int|
            0 <= k < grouped(ws)[i].windows.len() ==> window_key(
                #[trigger] grouped(ws)[i].windows[k],
            ) == grouped(ws)[i].key,
        order::in_order(grouped(ws)[i].windows, by_handle()),
{
    lemma_collected(ws);
    let c = collected(ws);
    let t = c.map_values(|g: GroupView| tidied(g));
    let g = grouped(ws)[i];
    order::lemma_arranged_contains(t, by_first_handle(), g);
    assert(grouped(ws).contains(g));
    let m = choose|m: int| 0 <= m < t.len() && t[m] == g;
    assert(g == tidied(c[m]));
    assert(c[m].windows.len() > 0);
    order::lemma_arranged_len(c[m].windows, by_handle());
    assert(order::strict_weak(by_handle()));
    order::lemma_arranged_in_order(c[m].windows, by_handle());
    assert forall|k: int| 0 <= k < g.windows.len() implies window_key(#[trigger] g.windows[k])
        == g.key by {
        let w = g.windows[k];
        assert(g.windows.contains(w));
        order::lemma_arranged_contains(c[m].windows, by_handle(), w);
        let q = choose|q: int| 0 <= q < c[m].windows.len() && c[m].windows[q] == w;
        assert(window_key(c[m].windows[q]) == c[m].key);
    }
}

/// Groups stand in the order of their first windows.
pub proof fn law_groups_in_order(ws: Seq<WindowView>)
    ensures
        order::in_order(grouped(ws), by_first_handle()),
{
    assert(order::strict_weak(by_first_handle()));
    order::lemma_arranged_in_order(
        collected(ws).map_values(|g: GroupView| tidied(g)),
        by_first_handle(),
    );
}

proof fn lemma_apart_placed(gs: Seq<GroupView>, g: GroupView)
    requires
        apart(gs),
        forall|i: int| 0 <= i < gs.len() ==> (#[trigger] gs[i]).key != g.key,
    ensures
        apart(order::placed(gs, g, by_first_handle())),
        forall|i: int|
            0 <= i < order::placed(gs, g, by_first_handle()).len() ==> (
            #[trigger] order::placed(gs, g, by_first_handle())[i]) == g || gs.contains(
                order::placed(gs, g, by_first_handle())[i],
            ),
    decreases gs.len(),
{
    let lt = by_first_handle();
    let r = order::placed(gs, g, lt);
    if gs.len() == 0 || !lt(g, gs.last()) {
        assert forall|i: int| 0 <= i < r.len() implies (#[trigger] r[i]) == g || gs.contains(
            r[i],
        ) by {
            if i < gs.len() {
                assert(gs[i] == r[i]);
            }
        }
        assert forall|i: int, j: int| 0 <= i < j < r.len() implies (#[trigger] r[i]).key != (
        #[trigger] r[j]).key by {
            assert(r[i] == gs[i]);
            if j < gs.len() {
                assert(r[j] == gs[j]);
            }
        }
    } else {
        let f = gs.drop_last();
        assert(apart(f)) by {
            assert forall|i: int, j: int| 0 <= i < j < f.len() implies (#[trigger] f[i]).key != (
            #[trigger] f[j]).key by {
                assert(gs[i].key != gs[j].key);
            }
        }
        assert forall|i: int| 0 <= i < f.len() implies (#[trigger] f[i]).key != g.key by {
            assert(gs[i].key != g.key);
        }
        lemma_apart_placed(f, g);
        let p = order::placed(f, g, lt);
        assert forall|i: int| 0 <= i < r.len() implies (#[trigger] r[i]) == g || gs.contains(
            r[i],
        ) by {
            if i < p.len() {
                assert(p[i] == r[i]);
                if p[i] != g {
                    let k = choose|k: int| 0 <= k < f.len() && f[k] == p[i];
                    assert(gs[k] == r[i]);
                }
            } else {
                assert(r[i] == gs[gs.len() - 1]);
            }
        }
        assert forall|i: int, j: int| 0 <= i < j < r.len() implies (#[trigger] r[i]).key != (
        #[trigger] r[j]).key by {
            assert(r[i] == p[i]);
            if j < p.len() {
                assert(r[j] == p[j]);
            } else if p[i] == g {
                assert(gs[gs.len() - 1].key != g.key);
            } else {
                let k = choose|k: int| 0 <= k < f.len() && f[k] == p[i];
                assert(gs[k].key != gs[gs.len() - 1].key);
            }
        }
    }
}

proof fn lemma_apart_arranged(gs: Seq<GroupView>)
    requires
        apart(gs),
    ensures
        apart(order::arranged(gs, by_first_handle())),
    decreases gs.len(),
{
    if gs.len() > 0 {
        let f = gs.drop_last();
        assert(apart(f)) by {
            assert forall|i: int, j: int| 0 <= i < j < f.len() implies (#[trigger] f[i]).key != (
            #[trigger] f[j]).key by {
                assert(gs[i].key != gs[j].key);
            }
        }
        lemma_apart_arranged(f);
        let a = order::arranged(f, by_first_handle());
        assert forall|i: int| 0 <= i < a.len() implies (#[trigger] a[i]).key != gs.last().key by {
            assert(a.contains(a[i]));
            order::lemma_arranged_contains(f, by_first_handle(), a[i]);
            let k = choose|k: int| 0 <= k < f.len() && f[k] == a[i];
            assert(gs[k].key != gs[gs.len() - 1].key);
        }
        lemma_apart_placed(a, gs.last());
    }
}

/// An application has one group.
pub proof fn law_groups_are_apart(ws: Seq<WindowView>)
    ensures
        apart(grouped(ws)),
{
    lemma_collected(ws);
    let c = collected(ws);
    let t = c.map_values(|g: GroupView| tidied(g));
    assert(apart(t)) by {
        assert forall|i: int, j: int| 0 <= i < j < t.len() implies (#[trigger] t[i]).key != (
        #[trigger] t[j]).key by {
            assert(c[i].key != c[j].key);
        }
    }
    lemma_apart_arranged(t);
}

} // verus!
