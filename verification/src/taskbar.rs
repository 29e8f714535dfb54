//! What the dock does to the system's own taskbar, and how it is put back. "Hidden" is
//! auto-hide, which frees the row that the taskbar takes, with the bar made invisible
//! and open to clicks, so that it does not show when the pointer reaches the edge.

use vstd::prelude::*;
use crate::settings::TaskbarMode;
use crate::text;

verus! {

/// A window that is drawn with an opacity of its own.
pub const EX_LAYERED: u32 = 0x0008_0000;

/// A window that clicks fall through.
pub const EX_TRANSPARENT: u32 = 0x20;

/// The style of a taskbar that is out of sight.
pub const EX_INVISIBLE: u32 = 0x0008_0020;

/// One thing done to the taskbar.
#[derive(Clone, Copy, Debug, PartialEq, Eq, Structural)]
pub enum Step {
    /// Remember that the dock has changed the taskbar.
    Touch,
    /// Record on disk the auto-hide preference to go back to.
    MarkGuard(bool),
    /// Remove that record.
    ClearGuard,
    /// Make the bar invisible and open to clicks.
    Transparent,
    /// Undo that.
    Opaque,
    /// Set the bar to hide itself, or to stay on top.
    SetAutohide(bool),
    /// Show the windows of the bar.
    Show,
}

/// What the steps have to do with.
#[verifier::ext_equal]
pub struct Bar {
    pub autohide: bool,
    pub invisible: bool,
    pub shown: bool,
    pub guard: Option<bool>,
    pub touched: bool,
}

/// The bar after one step.
pub open spec fn after(b: Bar, s: Step) -> Bar {
    match s {
        Step::Touch => Bar { touched: true, ..b },
        Step::MarkGuard(original) => Bar { guard: Some(original), ..b },
        Step::ClearGuard => Bar { guard: None, ..b },
        Step::Transparent => Bar { invisible: true, ..b },
        Step::Opaque => Bar { invisible: false, ..b },
        Step::SetAutohide(hide) => Bar { autohide: hide, ..b },
        Step::Show => Bar { shown: true, ..b },
    }
}

pub open spec fn after_all(b: Bar, steps: Seq<Step>) -> Bar
    decreases steps.len(),
{
    if steps.len() == 0 {
        b
    } else {
        after(after_all(b, steps.drop_last()), steps.last())
    }
}

/// Whether the bar hides itself in a mode.
pub open spec fn hides_itself(mode: TaskbarMode, original: bool) -> bool {
    mode != TaskbarMode::Show || original
}

/// How the bar is put back to be visible, with this auto-hide preference.
pub open spec fn put_back(original: bool) -> Seq<Step> {
    seq![Step::Opaque, Step::SetAutohide(original), Step::Show]
}

/// How a mode is entered.
pub open spec fn entering(mode: TaskbarMode, original: bool) -> Seq<Step> {
    match mode {
        TaskbarMode::Show => put_back(original).push(Step::ClearGuard),
        TaskbarMode::AutoHide => seq![
            Step::Touch,
            Step::MarkGuard(original),
            Step::Opaque,
            Step::SetAutohide(true),
            Step::Show,
        ],
        TaskbarMode::Hidden => seq![
            Step::Touch,
            Step::MarkGuard(original),
            Step::Transparent,
            Step::SetAutohide(true),
        ],
    }
}

/// A record on disk says that the bar hid itself.
pub open spec fn guard_says(s: Seq<char>) -> bool {
    let t = text::trimmed(s);
    t.len() > 0 && t[0] == '1'
}

pub open spec fn guard_of(original: bool) -> Seq<char> {
    if original {
        "1"@
    } else {
        "0"@
    }
}

/// A window of the taskbar.
pub open spec fn is_bar_class(class: Seq<char>) -> bool {
    class == "Shell_TrayWnd"@ || class == "Shell_SecondaryTrayWnd"@ || class == "TrayNotifyWnd"@
        || class == "TrayClockWClass"@ || class == "MSTaskSwWClass"@ || class == "MSTaskListWClass"@
        || class == "ReBarWindow32"@ || class
        == "Windows.UI.Composition.DesktopWindowContentBridge"@
}

/// A window of the shell, of the desktop or of the dock.
pub open spec fn is_own_class(class: Seq<char>) -> bool {
    is_bar_class(class) || class == "Progman"@ || class == "WorkerW"@ || class
        == "FeatherDockWindow"@ || class == "Windows.UI.Core.CoreWindow"@
}

/// One of the first eight windows, from the one under the pointer outward, is of the
/// taskbar.
pub open spec fn over_bar(classes: Seq<Seq<char>>) -> bool {
    exists|i: int| 0 <= i < 8 && i < classes.len() && is_bar_class(#[trigger] classes[i])
}

/// Whether the bar hides itself in a mode.
pub fn autohide_for_mode(mode: TaskbarMode, original_autohide: bool) -> (r: bool)
    ensures
        r == hides_itself(mode, original_autohide),
{
    match mode {
        TaskbarMode::Show => original_autohide,
        TaskbarMode::AutoHide => true,
        TaskbarMode::Hidden => true,
    }
}

/// How the bar is put back.
pub fn restore_to(original_autohide: bool) -> (r: Vec<Step>)
    ensures
        r@ == put_back(original_autohide),
{
    let mut out: Vec<Step> = Vec::new();
    out.push(Step::Opaque);
    out.push(Step::SetAutohide(original_autohide));
    out.push(Step::Show);
    assert(out@ =~= put_back(original_autohide));
    out
}

/// How a mode is entered.
pub fn apply(mode: TaskbarMode, original_autohide: bool) -> (r: Vec<Step>)
    ensures
        r@ == entering(mode, original_autohide),
{
    let autohide: bool = autohide_for_mode(mode, original_autohide);
    match mode {
        TaskbarMode::Show => {
            let mut out = restore_to(autohide);
            out.push(Step::ClearGuard);
            out
        },
        TaskbarMode::AutoHide => {
            let mut out: Vec<Step> = Vec::new();
            out.push(Step::Touch);
            out.push(Step::MarkGuard(original_autohide));
            out.push(Step::Opaque);
            out.push(Step::SetAutohide(autohide));
            out.push(Step::Show);
            assert(out@ =~= entering(mode, original_autohide));
            out
        },
        TaskbarMode::Hidden => {
            let mut out: Vec<Step> = Vec::new();
            out.push(Step::Touch);
            out.push(Step::MarkGuard(original_autohide));
            out.push(Step::Transparent);
            out.push(Step::SetAutohide(autohide));
            assert(out@ =~= entering(mode, original_autohide));
            out
        },
    }
}

/// How the bar is left behind: as it was, where the dock has changed it.
pub fn restore(touched: bool, original_autohide: bool) -> (r: Vec<Step>)
    ensures
        r@ == (if touched {
            entering(TaskbarMode::Show, original_autohide)
        } else {
            seq![]
        }),
{
    if !touched {
        let none: Vec<Step> = Vec::new();
        assert(none@ =~= seq![]);
        return none;
    }
    apply(TaskbarMode::Show, original_autohide)
}

/// How a bar that an earlier run left behind is put back, given the record on disk.
pub fn recover_if_stranded(guard: Option<&str>) -> (r: Vec<Step>)
    ensures
        r@ == (match guard {
            Some(s) => put_back(guard_says(s@)).push(Step::ClearGuard),
            None => seq![],
        }),
{
    match guard {
        Some(s) => {
            let mut out = restore_to(guarded_original(s));
            out.push(Step::ClearGuard);
            out
        },
        None => {
            let none: Vec<Step> = Vec::new();
            assert(none@ =~= seq![]);
            none
        },
    }
}

/// How the hidden state is asserted again.
pub fn reassert_hidden(current_autohide: bool) -> (r: Vec<Step>)
    ensures
        r@ == (if current_autohide {
            seq![Step::Transparent]
        } else {
            seq![Step::SetAutohide(true), Step::Transparent]
        }),
{
    let mut out: Vec<Step> = Vec::new();
    if !current_autohide {
        out.push(Step::SetAutohide(true));
    }
    out.push(Step::Transparent);
    assert(out@ =~= (if current_autohide {
        seq![Step::Transparent]
    } else {
        seq![Step::SetAutohide(true), Step::Transparent]
    }));
    out
}

/// Whether a press of the Start button brings the bar back.
pub fn should_reveal_for_start_invocation(mode: TaskbarMode) -> (r: bool)
    ensures
        r == (mode == TaskbarMode::Hidden),
{
    mode == TaskbarMode::Hidden
}

/// Whether a press of the Start button opens the Start menu.
pub fn should_open_start_menu_for_start_invocation(mode: TaskbarMode) -> (r: bool)
    ensures
        r == (mode != TaskbarMode::Hidden),
{
    mode != TaskbarMode::Hidden
}

/// Whether a bar that was brought back is hidden again.
pub fn should_rehide_after_start_invocation(
    mode: TaskbarMode,
    grace_elapsed: bool,
    pointer_over_taskbar: bool,
) -> (r: bool)
    ensures
        r <==> mode == TaskbarMode::Hidden && grace_elapsed && !pointer_over_taskbar,
{
    mode == TaskbarMode::Hidden && grace_elapsed && !pointer_over_taskbar
}

/// How the bar is brought back by a press of the Start button; nothing where it is not
/// hidden.
pub fn reveal_for_start_invocation(mode: TaskbarMode) -> (r: Option<Vec<Step>>)
    ensures
        r is Some <==> mode == TaskbarMode::Hidden,
        r matches Some(steps) ==> steps@ == put_back(false),
{
    if !should_reveal_for_start_invocation(mode) {
        return None;
    }
    Some(restore_to(false))
}

/// How the bar is hidden again.
pub fn rehide_after_start_invocation(mode: TaskbarMode, original_autohide: bool) -> (r: Vec<Step>)
    ensures
        r@ == (if mode == TaskbarMode::Hidden {
            entering(TaskbarMode::Hidden, original_autohide)
        } else {
            seq![]
        }),
{
    if mode != TaskbarMode::Hidden {
        let none: Vec<Step> = Vec::new();
        assert(none@ =~= seq![]);
        return none;
    }
    apply(TaskbarMode::Hidden, original_autohide)
}

/// The record on disk for an auto-hide preference.
pub fn guard_text(original_autohide: bool) -> (r: &'static str)
    ensures
        r@ == guard_of(original_autohide),
{
    if original_autohide {
        "1"
    } else {
        "0"
    }
}

/// The auto-hide preference in a record on disk.
pub fn guarded_original(text: &str) -> (r: bool)
    ensures
        r == guard_says(text@),
{
    let v = text::chars_of(text);
    let t = text::trim(&v);
    t.len() > 0 && t[0] == '1'
}

/// The style that makes a window invisible, where it is not so yet.
pub fn invisible_style(ex: u32) -> (r: Option<u32>)
    ensures
        r == (if ex & EX_INVISIBLE == EX_INVISIBLE {
            None
        } else {
            Some(ex | EX_INVISIBLE)
        }),
{
    if ex & EX_INVISIBLE != EX_INVISIBLE {
        Some(ex | EX_INVISIBLE)
    } else {
        None
    }
}

/// The style that makes a window visible, where it is not so yet.
pub fn visible_style(ex: u32) -> (r: Option<u32>)
    ensures
        r == (if ex & EX_INVISIBLE == 0 {
            None
        } else {
            Some(ex & !EX_INVISIBLE)
        }),
{
    if ex & EX_INVISIBLE != 0 {
        Some(ex & !EX_INVISIBLE)
    } else {
        None
    }
}

/// Whether a window is of the taskbar.
pub fn is_taskbar_window_class(class: &str) -> (r: bool)
    ensures
        r == is_bar_class(class@),
{
    text::same(class, "Shell_TrayWnd") || text::same(class, "Shell_SecondaryTrayWnd")
        || text::same(class, "TrayNotifyWnd") || text::same(class, "TrayClockWClass")
        || text::same(class, "MSTaskSwWClass") || text::same(class, "MSTaskListWClass")
        || text::same(class, "ReBarWindow32") || text::same(
        class,
        "Windows.UI.Composition.DesktopWindowContentBridge",
    )
}

/// Whether a window is of the shell, of the desktop or of the dock.
pub fn is_shell_or_dock_window_class(class: &str) -> (r: bool)
    ensures
        r == is_own_class(class@),
{
    is_taskbar_window_class(class) || text::same(class, "Progman") || text::same(class, "WorkerW")
        || text::same(class, "FeatherDockWindow") || text::same(class, "Windows.UI.Core.CoreWindow")
}

/// Whether the pointer is over the taskbar, given the classes of the windows from the one
/// under the pointer outward.
pub fn pointer_over_taskbar(classes: &Vec<String>) -> (r: bool)
    ensures
        r == over_bar(text::texts(classes@)),
{
    let ghost all = text::texts(classes@);
    let mut i: usize = 0;
    while i < 8
        invariant
            i <= 8,
            i <= classes@.len(),
            all == text::texts(classes@),
            forall|j: int| 0 <= j < i ==> !is_bar_class(#[trigger] all[j]),
        decreases 8 - i,
    {
        if i >= classes.len() {
            return false;
        }
        if is_taskbar_window_class(classes[i].as_str()) {
            assert(is_bar_class(all[i as int]));
            return true;
        }
        i += 1;
    }
    false
}

/// Whether a window is maximized anew once the row of the taskbar is free.
pub fn reflows(visible: bool, maximized: bool, class: &str) -> (r: bool)
    ensures
        r <==> visible && maximized && !is_own_class(class@),
{
    visible && maximized && !is_shell_or_dock_window_class(class)
}

/// The bar takes no row in auto-hide and hidden mode, in hidden mode it is out of sight
/// as well, and in both the way back is on record; in show mode it is as it was.
pub proof fn law_entered(b: Bar, mode: TaskbarMode, original: bool)
    ensures
        ({
            let r = after_all(b, entering(mode, original));
            &&& r.autohide == hides_itself(mode, original)
            &&& r.invisible == (mode == TaskbarMode::Hidden)
            &&& r.guard == (if mode == TaskbarMode::Show {
                None
            } else {
                Some(original)
            })
            &&& mode != TaskbarMode::Show ==> r.touched
            &&& mode != TaskbarMode::Hidden ==> r.shown
        }),
{
    reveal_with_fuel(after_all, 6);
    let s = entering(mode, original);
    match mode {
        TaskbarMode::Show => {
            assert(s.drop_last().drop_last().drop_last().drop_last() =~= seq![]);
        },
        TaskbarMode::AutoHide => {
            assert(s.drop_last().drop_last().drop_last().drop_last().drop_last() =~= seq![]);
        },
        TaskbarMode::Hidden => {
            assert(s.drop_last().drop_last().drop_last().drop_last() =~= seq![]);
        },
    }
}

/// Whatever state a run that ended abnormally left the bar in, the record on disk brings
/// it back to sight with the user's own preference, and is gone then.
pub proof fn law_recovered(b: Bar, original: bool)
    requires
        b.guard == Some(original),
    ensures
        guard_says(guard_of(original)) == original,
        ({
            let r = after_all(b, put_back(guard_says(guard_of(original))).push(Step::ClearGuard));
            r.autohide == original && !r.invisible && r.shown && r.guard is None
        }),
{
    reveal_strlit("1");
    reveal_strlit("0");
    let g = guard_of(original);
    assert(text::trimmed(g) == g);
    assert(guard_says(g) == original);
    law_entered(b, TaskbarMode::Show, original);
}

/// Making a window visible undoes making it invisible, but for the style bits that do
/// so.
pub proof fn law_styles(ex: u32)
    ensures
        (ex | EX_INVISIBLE) & EX_INVISIBLE == EX_INVISIBLE,
        (ex | EX_INVISIBLE) & !EX_INVISIBLE == ex & !EX_INVISIBLE,
        ex & EX_INVISIBLE == 0 ==> (ex | EX_INVISIBLE) & !EX_INVISIBLE == ex,
        EX_INVISIBLE == EX_LAYERED | EX_TRANSPARENT,
{
    assert((ex | 0x0008_0020u32) & 0x0008_0020u32 == 0x0008_0020u32) by (bit_vector);
    assert((ex | 0x0008_0020u32) & !0x0008_0020u32 == ex & !0x0008_0020u32) by (bit_vector);
    assert(ex & 0x0008_0020u32 == 0 ==> (ex | 0x0008_0020u32) & !0x0008_0020u32 == ex)
        by (bit_vector);
    assert(0x0008_0020u32 == 0x0008_0000u32 | 0x20u32) by (bit_vector);
}

} // verus!
