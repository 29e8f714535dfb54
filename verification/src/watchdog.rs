//! The helper process that puts the system back when the dock ends abnormally: what its
//! command line says, and what it restores.

use vstd::prelude::*;
use crate::numbers;
use crate::text;

verus! {

/// What the command line of the helper says.
#[derive(Clone, Copy, Debug, PartialEq, Eq, Structural)]
pub struct WatchdogArgs {
    pub parent_pid: u32,
    pub original_autohide: bool,
    pub restore_taskbar: bool,
    pub restore_desktop_icons: bool,
}

/// One thing that the helper does once the dock is gone.
#[derive(Clone, Copy, Debug, PartialEq, Eq, Structural)]
pub enum Restore {
    /// Set the taskbar to hide itself or not.
    Taskbar(bool),
    /// Forget that the taskbar is in the dock's hands.
    ClearGuard,
    /// Show the icons of the desktop.
    DesktopIcons,
}

/// The argument at `i` is "1".
pub open spec fn is_one(args: Seq<Seq<char>>, i: int) -> bool {
    i < args.len() && args[i] == "1"@
}

/// What these arguments say, the program's name left out; nothing where they are not
/// those of the helper.
pub open spec fn parsed(args: Seq<Seq<char>>) -> Option<WatchdogArgs> {
    if args.len() >= 2 && args[0] == "--watchdog"@ {
        match numbers::number(args[1], u32::MAX as nat) {
            Some(pid) => Some(
                WatchdogArgs {
                    parent_pid: pid as u32,
                    original_autohide: is_one(args, 2),
                    restore_taskbar: is_one(args, 3),
                    restore_desktop_icons: is_one(args, 4),
                },
            ),
            None => None,
        }
    } else {
        None
    }
}

pub open spec fn bit(b: bool) -> Seq<char> {
    if b {
        "1"@
    } else {
        "0"@
    }
}

/// The arguments that start the helper.
pub open spec fn written(a: WatchdogArgs) -> Seq<Seq<char>> {
    seq![
        "--watchdog"@,
        numbers::decimal(a.parent_pid as nat),
        bit(a.original_autohide),
        bit(a.restore_taskbar),
        bit(a.restore_desktop_icons),
    ]
}

/// What the helper restores, in order: no more than it was armed for.
pub open spec fn restores(a: WatchdogArgs) -> Seq<Restore> {
    (if a.restore_taskbar {
        seq![Restore::Taskbar(a.original_autohide), Restore::ClearGuard]
    } else {
        seq![]
    }) + (if a.restore_desktop_icons {
        seq![Restore::DesktopIcons]
    } else {
        seq![]
    })
}

fn flag_at(args: &Vec<String>, i: usize) -> (r: bool)
    ensures
        r == is_one(text::texts(args@), i as int),
{
    i < args.len() && text::same(args[i].as_str(), "1")
}

/// What these arguments say, the program's name left out.
pub fn parse_from(args: &Vec<String>) -> (r: Option<WatchdogArgs>)
    ensures
        r == parsed(text::texts(args@)),
{
    if args.len() < 2 || !text::same(args[0].as_str(), "--watchdog") {
        return None;
    }
    let pid_text = text::chars_of(args[1].as_str());
    let pid: u32 = match numbers::read_u32(&pid_text) {
        Some(pid) => pid,
        None => {
            return None;
        },
    };
    Some(
        WatchdogArgs {
            parent_pid: pid,
            original_autohide: flag_at(args, 2),
            restore_taskbar: flag_at(args, 3),
            restore_desktop_icons: flag_at(args, 4),
        },
    )
}

fn bit_text(b: bool) -> (r: String)
    ensures
        r@ == bit(b),
{
    if b {
        text::copy_text("1")
    } else {
        text::copy_text("0")
    }
}

/// The arguments that start the helper.
pub fn arguments(a: WatchdogArgs) -> (r: Vec<String>)
    ensures
        text::texts(r@) == written(a),
{
    let mut pid: Vec<char> = Vec::new();
    numbers::add_decimal(&mut pid, a.parent_pid as u64);
    assert(pid@ =~= numbers::decimal(a.parent_pid as nat));
    let mut out: Vec<String> = Vec::new();
    out.push(text::copy_text("--watchdog"));
    out.push(text::string_of(&pid));
    out.push(bit_text(a.original_autohide));
    out.push(bit_text(a.restore_taskbar));
    out.push(bit_text(a.restore_desktop_icons));
    assert(text::texts(out@) =~= written(a));
    out
}

/// What the helper restores, in order.
pub fn restore_steps(a: WatchdogArgs) -> (r: Vec<Restore>)
    ensures
        r@ == restores(a),
{
    let mut out: Vec<Restore> = Vec::new();
    if a.restore_taskbar {
        out.push(Restore::Taskbar(a.original_autohide));
        out.push(Restore::ClearGuard);
    }
    if a.restore_desktop_icons {
        out.push(Restore::DesktopIcons);
    }
    assert(out@ =~= restores(a));
    out
}

/// The helper understands the arguments that it is started with.
pub proof fn law_written_parses(a: WatchdogArgs)
    ensures
        parsed(written(a)) == Some(a),
{
    numbers::law_number_of_decimal(a.parent_pid as nat, u32::MAX as nat);
    reveal_strlit("1");
    reveal_strlit("0");
    assert("1"@[0] != "0"@[0]);
}

/// A helper that was not armed for the taskbar leaves it alone, and so with the icons.
pub proof fn law_restores_no_more(a: WatchdogArgs, r: Restore)
    requires
        restores(a).contains(r),
    ensures
        r is DesktopIcons ==> a.restore_desktop_icons,
        r is ClearGuard ==> a.restore_taskbar,
        r matches Restore::Taskbar(hide) ==> a.restore_taskbar && hide == a.original_autohide,
{
}

} // verus!
