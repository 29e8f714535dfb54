//! What is promised of the system that the dock changes: the way back is on record before
//! anything is changed and until all is put back, and the helper restores what it is armed
//! for.

use vstd::prelude::*;
use crate::autostart;
use crate::desktop_icons;
use crate::settings::TaskbarMode;
use crate::taskbar;
use crate::taskbar::{Bar, Step};
use crate::text;
use crate::watchdog;
use crate::watchdog::{Restore, WatchdogArgs};
use crate::error_log;
use crate::numbers;

verus! {

/// A mode of the taskbar is entered: in show mode the bar is as the user had it, in sight
/// and off the record; in auto-hide mode it hides itself and is in sight where the pointer
/// reaches it; in hidden mode it hides itself and cannot be seen.
pub proof fn law_modes(b: Bar, original: bool)
    ensures
        ({
            let show = taskbar::after_all(b, taskbar::entering(TaskbarMode::Show, original));
            let auto = taskbar::after_all(b, taskbar::entering(TaskbarMode::AutoHide, original));
            let hidden = taskbar::after_all(b, taskbar::entering(TaskbarMode::Hidden, original));
            &&& show.autohide == original && !show.invisible && show.shown && show.guard is None
            &&& auto.autohide && !auto.invisible && auto.shown && auto.guard == Some(original)
            &&& hidden.autohide && hidden.invisible && hidden.guard == Some(original)
            &&& auto.touched && hidden.touched
        }),
{
    taskbar::law_entered(b, TaskbarMode::Show, original);
    taskbar::law_entered(b, TaskbarMode::AutoHide, original);
    taskbar::law_entered(b, TaskbarMode::Hidden, original);
}

/// The bar hides itself by the user's own wish in show mode, and in any case in the others.
pub proof fn law_hides_itself(original: bool)
    ensures
        taskbar::hides_itself(TaskbarMode::Show, original) == original,
        taskbar::hides_itself(TaskbarMode::AutoHide, original),
        taskbar::hides_itself(TaskbarMode::Hidden, original),
{
}

/// The dock may fail between any two steps: by then the way back is on record if anything
/// of the bar has been changed, and it stays on record until the bar is as the user had it.
pub proof fn law_way_back_is_on_record(b: Bar, mode: TaskbarMode, original: bool, n: int)
    requires
        0 <= n <= taskbar::entering(mode, original).len(),
        mode == TaskbarMode::Show ==> b.guard is Some,
    ensures
        ({
            let t = taskbar::after_all(b, taskbar::entering(mode, original).take(n));
            &&& mode != TaskbarMode::Show ==> (t.autohide == b.autohide && t.invisible
                == b.invisible) || (t.guard == Some(original) && t.touched)
            &&& mode == TaskbarMode::Show ==> t.guard is Some || (t.autohide == original
                && !t.invisible && t.shown)
        }),
{
    let s = taskbar::entering(mode, original);
    reveal_with_fuel(taskbar::after_all, 6);
    let t = s.take(n);
    if n == 0 {
        assert(t =~= Seq::empty());
    } else if n == 1 {
        assert(t.drop_last() =~= Seq::empty());
    } else if n == 2 {
        assert(t.drop_last().drop_last() =~= Seq::empty());
    } else if n == 3 {
        assert(t.drop_last().drop_last().drop_last() =~= Seq::empty());
    } else if n == 4 {
        assert(t.drop_last().drop_last().drop_last().drop_last() =~= Seq::empty());
    } else {
        assert(t.drop_last().drop_last().drop_last().drop_last().drop_last() =~= Seq::empty());
    }
}

/// Putting the bar back brings it into sight and to the user's own preference, whatever was
/// done to it.
pub proof fn law_put_back(b: Bar, original: bool)
    ensures
        ({
            let t = taskbar::after_all(b, taskbar::put_back(original));
            t.autohide == original && !t.invisible && t.shown && t.guard == b.guard
        }),
{
    reveal_with_fuel(taskbar::after_all, 4);
    assert(taskbar::put_back(original).drop_last().drop_last().drop_last() =~= Seq::empty());
}

/// A record says that the bar hid itself where it starts with a one, white space aside.
pub proof fn law_guard(original: bool)
    ensures
        taskbar::guard_says(taskbar::guard_of(original)) == original,
        !taskbar::guard_says(seq![]),
{
    reveal_strlit("1");
    reveal_strlit("0");
    let g = taskbar::guard_of(original);
    assert(text::trimmed(g) == g);
    assert(text::trimmed(Seq::<char>::empty()) == Seq::<char>::empty());
}

/// The bar's windows are the shell's own, so that none of them is maximized anew, nor is
/// the desktop or the dock.
pub proof fn law_classes(class: Seq<char>)
    ensures
        taskbar::is_bar_class(class) ==> taskbar::is_own_class(class),
        taskbar::is_bar_class("Shell_TrayWnd"@) && taskbar::is_bar_class("Shell_SecondaryTrayWnd"@),
        taskbar::is_own_class("Progman"@) && taskbar::is_own_class("WorkerW"@)
            && taskbar::is_own_class("FeatherDockWindow"@) && taskbar::is_own_class(
            "Windows.UI.Core.CoreWindow"@,
        ),
{
}

/// The helper puts back all that it is armed for, and nothing else: the taskbar with the
/// user's own preference, the record after it, and the icons of the desktop.
pub proof fn law_helper_restores(a: WatchdogArgs)
    ensures
        ({
            let r = watchdog::restores(a);
            &&& r.contains(Restore::Taskbar(a.original_autohide)) <==> a.restore_taskbar
            &&& !r.contains(Restore::Taskbar(!a.original_autohide))
            &&& r.contains(Restore::ClearGuard) <==> a.restore_taskbar
            &&& r.contains(Restore::DesktopIcons) <==> a.restore_desktop_icons
            &&& a.restore_taskbar ==> r[0] == Restore::Taskbar(a.original_autohide) && r[1]
                == Restore::ClearGuard
        }),
{
    let r = watchdog::restores(a);
    if a.restore_taskbar {
        assert(r[0] == Restore::Taskbar(a.original_autohide) && r[1] == Restore::ClearGuard);
    }
    if a.restore_desktop_icons {
        assert(r[r.len() - 1] == Restore::DesktopIcons);
    }
}

/// The helper starts for its own first argument alone, and a flag that is missing is off.
pub proof fn law_helper_arguments(args: Seq<Seq<char>>)
    ensures
        args.len() == 0 || args[0] != "--watchdog"@ ==> watchdog::parsed(args) is None,
        args.len() < 2 ==> watchdog::parsed(args) is None,
        watchdog::parsed(args) matches Some(a) ==> {
            &&& a.original_autohide <==> args.len() > 2 && args[2] == "1"@
            &&& a.restore_taskbar <==> args.len() > 3 && args[3] == "1"@
            &&& a.restore_desktop_icons <==> args.len() > 4 && args[4] == "1"@
            &&& crate::numbers::number(args[1], 0xFFFF_FFFF) == Some(a.parent_pid as nat)
        },
{
}

/// A program that starts with the session is told from every other: what was stored for one
/// starts another only where the two differ in the case of letters alone.
pub proof fn law_starts_itself(stored: Seq<char>, exe: Seq<char>)
    requires
        stored.len() > 0,
        stored[0] != '"',
        stored.last() != '"',
    ensures
        autostart::starts(autostart::run_line(stored), exe) <==> text::lower(stored) == text::lower(
            exe,
        ),
        autostart::run_line(stored) == seq!['"'] + stored + seq!['"'],
{
    let s = autostart::run_line(stored);
    assert(s[0] == '"' && s.last() == '"');
    assert(text::trim_front(s) == s);
    assert(text::trim_back(s) == s);
    reveal_with_fuel(text::strip_front, 2);
    reveal_with_fuel(text::strip_back, 2);
    assert(s.skip(1)[0] == stored[0]);
    assert(text::strip_front(s, '"') =~= s.skip(1));
    assert(s.skip(1).last() == '"');
    assert(s.skip(1).drop_last() =~= stored);
    assert(text::stripped(s, '"') =~= stored);
}

/// The first view that is there is one of them and none before it is; there is none only
/// where none is.
pub proof fn law_first_there(views: Seq<Option<isize>>)
    ensures
        match desktop_icons::first_there(views) {
            Some(v) => exists|i: int|
                0 <= i < views.len() && #[trigger] views[i] == Some(v) && forall|j: int|
                    0 <= j < i ==> #[trigger] views[j] is None,
            None => forall|i: int| 0 <= i < views.len() ==> #[trigger] views[i] is None,
        },
    decreases views.len(),
{
    if views.len() > 0 {
        if views[0] is Some {
            assert(views[0] == desktop_icons::first_there(views));
        } else {
            let rest = views.skip(1);
            law_first_there(rest);
            match desktop_icons::first_there(views) {
                Some(v) => {
                    let i = choose|i: int|
                        0 <= i < rest.len() && #[trigger] rest[i] == Some(v) && forall|j: int|
                            0 <= j < i ==> #[trigger] rest[j] is None;
                    assert(views[i + 1] == Some(v));
                    assert forall|j: int| 0 <= j < i + 1 implies #[trigger] views[j] is None by {
                        if j > 0 {
                            assert(rest[j - 1] is None);
                        }
                    }
                },
                None => {
                    assert forall|i: int| 0 <= i < views.len() implies #[trigger] views[i] is None by {
                        if i > 0 {
                            assert(rest[i - 1] is None);
                        }
                    }
                },
            }
        }
    }
}

/// The pointer is over the bar where one of the eight windows from it outward is, and no
/// window farther out counts.
pub proof fn law_over_bar(classes: Seq<Seq<char>>)
    ensures
        taskbar::over_bar(classes) <==> exists|i: int|
            0 <= i < 8 && i < classes.len() && taskbar::is_bar_class(#[trigger] classes[i]),
        taskbar::over_bar(classes) <==> taskbar::over_bar(
            if classes.len() > 8 {
                classes.take(8)
            } else {
                classes
            },
        ),
{
    let near = if classes.len() > 8 {
        classes.take(8)
    } else {
        classes
    };
    if taskbar::over_bar(classes) {
        let i = choose|i: int|
            0 <= i < 8 && i < classes.len() && taskbar::is_bar_class(#[trigger] classes[i]);
        assert(near[i] == classes[i]);
    }
    if taskbar::over_bar(near) {
        let i = choose|i: int|
            0 <= i < 8 && i < near.len() && taskbar::is_bar_class(#[trigger] near[i]);
        assert(near[i] == classes[i]);
    }
}

/// A line of the log begins with the time, ends with the error and takes one line of its
/// own; what was being done stands between them.
pub proof fn law_log_line(seconds: nat, context: Seq<char>, error: Seq<char>)
    ensures
        ({
            let r = error_log::line_of(seconds, context, error);
            let time = numbers::decimal(seconds);
            let n = time.len() as int;
            let end = r.len() - 1 - error.len();
            &&& r[0] == '[' && r.last() == '\n'
            &&& r.subrange(1, 1 + n) == time
            &&& r[1 + n] == ']'
            &&& r.subrange(end, r.len() - 1) == error
            &&& r.subrange(3 + n, 3 + n + context.len()) == context
            &&& r.len() == time.len() + context.len() + error.len() + 6
        }),
{
    reveal_strlit("] ");
    reveal_strlit(": ");
    let r = error_log::line_of(seconds, context, error);
    let time = numbers::decimal(seconds);
    let n = time.len() as int;
    let end = r.len() - 1 - error.len();
    assert(r.subrange(1, 1 + n) =~= time);
    assert(r.subrange(end, r.len() - 1) =~= error);
    assert(r.subrange(3 + n, 3 + n + context.len()) =~= context);
}

} // verus!
