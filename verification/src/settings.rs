//! The settings of the dock: a file of `key = value` lines.

use vstd::prelude::*;
use crate::facts;
use crate::text;
use crate::theme;
use crate::theme::ThemePreset;

verus! {

/// How the dock occupies the bottom of the screen.
#[derive(Clone, Copy, Debug, PartialEq, Eq, Structural)]
pub enum DockMode {
    /// There all the time, but for full-screen applications.
    Always,
    /// Out of sight until the pointer is at the bottom edge.
    AutoHide,
}

/// What becomes of the system's own taskbar while the dock runs.
#[derive(Clone, Copy, Debug, PartialEq, Eq, Structural)]
pub enum TaskbarMode {
    /// It stays.
    Show,
    /// It hides itself, as the system does it.
    AutoHide,
    /// It is hidden, and comes back when the dock exits.
    Hidden,
}

#[derive(Clone, Copy, Debug, PartialEq, Eq, Structural)]
pub struct Settings {
    pub dock_mode: DockMode,
    /// Whether the dock is hidden behind a full-screen application.
    pub hide_on_fullscreen: bool,
    /// Whether the dock retracts for a maximized window.
    pub hide_on_maximized: bool,
    pub taskbar_mode: TaskbarMode,
    /// Whether the dock has a button for the app drawer.
    pub drawer_enabled: bool,
    /// Whether the icons of the desktop are hidden.
    pub hide_desktop_icons: bool,
    pub theme: ThemePreset,
}

pub open spec fn dock_mode_name(m: DockMode) -> Seq<char> {
    match m {
        DockMode::Always => "always"@,
        DockMode::AutoHide => "autohide"@,
    }
}

pub open spec fn taskbar_mode_name(m: TaskbarMode) -> Seq<char> {
    match m {
        TaskbarMode::Show => "show"@,
        TaskbarMode::AutoHide => "autohide"@,
        TaskbarMode::Hidden => "hidden"@,
    }
}

/// The dock mode that a text names.
pub open spec fn dock_mode_named(value: Seq<char>) -> Option<DockMode> {
    let w = text::lower(text::trimmed(value));
    if w == "always"@ {
        Some(DockMode::Always)
    } else if w == "autohide"@ || w == "auto-hide"@ || w == "auto_hide"@ {
        Some(DockMode::AutoHide)
    } else {
        None
    }
}

/// The taskbar mode that a text names.
pub open spec fn taskbar_mode_named(value: Seq<char>) -> Option<TaskbarMode> {
    let w = text::lower(text::trimmed(value));
    if w == "show"@ || w == "none"@ {
        Some(TaskbarMode::Show)
    } else if w == "autohide"@ || w == "auto-hide"@ || w == "auto_hide"@ {
        Some(TaskbarMode::AutoHide)
    } else if w == "hidden"@ || w == "hide"@ {
        Some(TaskbarMode::Hidden)
    } else {
        None
    }
}

/// A text says yes if it is "true" in any letter case.
pub open spec fn is_true(value: Seq<char>) -> bool {
    text::lower(value) == "true"@
}

pub open spec fn flag_name(b: bool) -> Seq<char> {
    if b {
        "true"@
    } else {
        "false"@
    }
}

pub open spec fn defaults() -> Settings {
    Settings {
        dock_mode: DockMode::Always,
        hide_on_fullscreen: true,
        hide_on_maximized: true,
        taskbar_mode: TaskbarMode::Show,
        drawer_enabled: true,
        hide_desktop_icons: false,
        theme: ThemePreset::Glass,
    }
}

/// The settings after one pair; a value that names nothing changes nothing.
pub open spec fn with_pair(s: Settings, key: Seq<char>, value: Seq<char>) -> Settings {
    if key == "dock_mode"@ {
        match dock_mode_named(value) {
            Some(m) => Settings { dock_mode: m, ..s },
            None => s,
        }
    } else if key == "hide_on_fullscreen"@ {
        Settings { hide_on_fullscreen: is_true(value), ..s }
    } else if key == "hide_on_maximized"@ {
        Settings { hide_on_maximized: is_true(value), ..s }
    } else if key == "taskbar_mode"@ {
        match taskbar_mode_named(value) {
            Some(m) => Settings { taskbar_mode: m, ..s },
            None => s,
        }
    } else if key == "drawer_enabled"@ {
        Settings { drawer_enabled: is_true(value), ..s }
    } else if key == "hide_desktop_icons"@ {
        Settings { hide_desktop_icons: is_true(value), ..s }
    } else if key == "theme"@ {
        match theme::named(value) {
            Some(t) => Settings { theme: t, ..s },
            None => s,
        }
    } else {
        s
    }
}

/// The settings after one line. Quote marks around the value come off.
pub open spec fn after_line(s: Settings, raw: Seq<char>) -> Settings {
    let line = text::trimmed(raw);
    if line.len() == 0 || line[0] == '#' {
        s
    } else {
        match text::cut(line, '=') {
            Some((k, v)) => with_pair(
                s,
                text::trimmed(k),
                text::stripped(text::trimmed(v), '"'),
            ),
            None => s,
        }
    }
}

pub open spec fn after_lines(s: Settings, ls: Seq<Seq<char>>) -> Settings
    decreases ls.len(),
{
    if ls.len() == 0 {
        s
    } else {
        after_line(after_lines(s, ls.drop_last()), ls.last())
    }
}

/// The settings in a text; what it does not mention keeps its default.
pub open spec fn parsed(s: Seq<char>) -> Settings {
    after_lines(defaults(), text::lines(s))
}

/// The comment that a written file starts with.
pub open spec fn header_lines() -> Seq<Seq<char>> {
    seq![
        "# FeatherDock settings."@,
        "# dock_mode = \"always\"  -> resident at the bottom (retracts for fullscreen/maximized)"@,
        "# dock_mode = \"autohide\" -> classic auto-hide (reveal by hitting the bottom edge)"@,
        "# hide_on_fullscreen = true | false  (fullscreen game: fully hidden, no hover-reveal)"@,
        "# hide_on_maximized  = true | false  (maximized window: retract to strip, hover reveals)"@,
        "# taskbar_mode = \"show\" | \"autohide\" | \"hidden\""@,
        "# drawer_enabled = true | false  (show the app-drawer button on the dock)"@,
        "# hide_desktop_icons = true | false  (hide the Windows desktop icons while running)"@,
        "# theme = \"glass\" | \"compact\" | \"solid\" | \"macos\" | \"contrast\""@,
    ]
}

/// The lines that say what the settings are.
pub open spec fn value_lines(s: Settings) -> Seq<Seq<char>> {
    seq![
        Seq::empty(),
        facts::word_line("dock_mode"@, facts::in_quotes(dock_mode_name(s.dock_mode))),
        facts::word_line("hide_on_fullscreen"@, flag_name(s.hide_on_fullscreen)),
        facts::word_line("hide_on_maximized"@, flag_name(s.hide_on_maximized)),
        facts::word_line("taskbar_mode"@, facts::in_quotes(taskbar_mode_name(s.taskbar_mode))),
        facts::word_line("drawer_enabled"@, flag_name(s.drawer_enabled)),
        facts::word_line("hide_desktop_icons"@, flag_name(s.hide_desktop_icons)),
        facts::word_line("theme"@, facts::in_quotes(theme::name_of(s.theme))),
    ]
}

/// The text of a file with these settings.
pub open spec fn rendered(s: Settings) -> Seq<char> {
    text::unlines(header_lines() + value_lines(s))
}

impl DockMode {
    /// The mode's name in the settings file.
    pub fn as_str(self) -> (r: &'static str)
        ensures
            r@ == dock_mode_name(self),
    {
        match self {
            DockMode::Always => "always",
            DockMode::AutoHide => "autohide",
        }
    }

    /// The mode that a text names.
    pub fn parse(value: &str) -> (r: Option<DockMode>)
        ensures
            r == dock_mode_named(value@),
    {
        let v = text::chars_of(value);
        let w = text::lower_chars(text::trim(&v));
        if text::spells(&w, "always") {
            Some(DockMode::Always)
        } else if text::spells(&w, "autohide") || text::spells(&w, "auto-hide") || text::spells(
            &w,
            "auto_hide",
        ) {
            Some(DockMode::AutoHide)
        } else {
            None
        }
    }
}

impl TaskbarMode {
    /// The mode's name in the settings file.
    pub fn as_str(self) -> (r: &'static str)
        ensures
            r@ == taskbar_mode_name(self),
    {
        match self {
            TaskbarMode::Show => "show",
            TaskbarMode::AutoHide => "autohide",
            TaskbarMode::Hidden => "hidden",
        }
    }

    /// The mode that a text names.
    pub fn parse(value: &str) -> (r: Option<TaskbarMode>)
        ensures
            r == taskbar_mode_named(value@),
    {
        let v = text::chars_of(value);
        let w = text::lower_chars(text::trim(&v));
        if text::spells(&w, "show") || text::spells(&w, "none") {
            Some(TaskbarMode::Show)
        } else if text::spells(&w, "autohide") || text::spells(&w, "auto-hide") || text::spells(
            &w,
            "auto_hide",
        ) {
            Some(TaskbarMode::AutoHide)
        } else if text::spells(&w, "hidden") || text::spells(&w, "hide") {
            Some(TaskbarMode::Hidden)
        } else {
            None
        }
    }
}

impl Default for Settings {
    fn default() -> (r: Settings)
        ensures
            r == defaults(),
    {
        Settings {
            dock_mode: DockMode::Always,
            hide_on_fullscreen: true,
            hide_on_maximized: true,
            taskbar_mode: TaskbarMode::Show,
            drawer_enabled: true,
            hide_desktop_icons: false,
            theme: ThemePreset::Glass,
        }
    }
}

fn says_true(value: &[char]) -> (r: bool)
    ensures
        r == is_true(value@),
{
    let w = text::lower_chars(value);
    text::spells(&w, "true")
}

/// Takes one line of the settings file into account.
pub fn parse_line_into(settings: &mut Settings, line: &str)
    ensures
        *final(settings) == after_line(*old(settings), line@),
{
    let raw = text::chars_of(line);
    read_line(settings, &raw);
}

fn read_line(settings: &mut Settings, raw: &[char])
    ensures
        *final(settings) == after_line(*old(settings), raw@),
{
    let line = text::trim(raw);
    if line.len() == 0 || line[0] == '#' {
        return;
    }
    let (k, v) = match text::split_once(line, '=') {
        Some(pair) => pair,
        None => {
            return;
        },
    };
    let value = text::trim_of(text::trim(v), '"');
    let key = text::trim(k);
    let word = text::string_of(value);
    if text::spells(key, "dock_mode") {
        if let Some(mode) = DockMode::parse(word.as_str()) {
            settings.dock_mode = mode;
        }
    } else if text::spells(key, "hide_on_fullscreen") {
        settings.hide_on_fullscreen = says_true(value);
    } else if text::spells(key, "hide_on_maximized") {
        settings.hide_on_maximized = says_true(value);
    } else if text::spells(key, "taskbar_mode") {
        if let Some(mode) = TaskbarMode::parse(word.as_str()) {
            settings.taskbar_mode = mode;
        }
    } else if text::spells(key, "drawer_enabled") {
        settings.drawer_enabled = says_true(value);
    } else if text::spells(key, "hide_desktop_icons") {
        settings.hide_desktop_icons = says_true(value);
    } else if text::spells(key, "theme") {
        if let Some(theme) = ThemePreset::parse(word.as_str()) {
            settings.theme = theme;
        }
    }
}

/// The settings in a text.
pub fn parse(text: &str) -> (r: Settings)
    ensures
        r == parsed(text@),
{
    let chars = text::chars_of(text);
    let ls = text::split_lines(&chars);
    let ghost all = text::lines(text@);
    let mut s: Settings = Settings::default();
    let mut i: usize = 0;
    while i < ls.len()
        invariant
            i <= ls@.len(),
            text::rows(ls@) == all,
            s == after_lines(defaults(), all.take(i as int)),
        decreases ls@.len() - i,
    {
        read_line(&mut s, &ls[i]);
        proof {
            assert(all.take(i as int + 1).drop_last() =~= all.take(i as int));
            assert(all.take(i as int + 1).last() == ls@[i as int]@);
        }
        i += 1;
    }
    assert(all.take(i as int) =~= all);
    s
}

fn add_word(out: &mut Vec<char>, key: &str, value: &str, quoted: bool)
    ensures
        final(out)@ == old(out)@ + facts::word_line(
            key@,
            if quoted {
                facts::in_quotes(value@)
            } else {
                value@
            },
        ).push('\n'),
{
    let ghost start = out@;
    text::add_text(out, key);
    out.push(' ');
    out.push('=');
    out.push(' ');
    if quoted {
        out.push('"');
    }
    text::add_text(out, value);
    if quoted {
        out.push('"');
    }
    out.push('\n');
    proof {
        let v = if quoted {
            facts::in_quotes(value@)
        } else {
            value@
        };
        assert(out@ =~= start + facts::word_line(key@, v).push('\n'));
    }
}

fn flag_str(b: bool) -> (r: &'static str)
    ensures
        r@ == flag_name(b),
{
    if b {
        "true"
    } else {
        "false"
    }
}

fn add_header(out: &mut Vec<char>)
    requires
        old(out)@ == Seq::<char>::empty(),
    ensures
        final(out)@ == text::unlines(header_lines()),
{
    text::add_line(out, "# FeatherDock settings.");
    text::add_line(
        out,
        "# dock_mode = \"always\"  -> resident at the bottom (retracts for fullscreen/maximized)",
    );
    text::add_line(
        out,
        "# dock_mode = \"autohide\" -> classic auto-hide (reveal by hitting the bottom edge)",
    );
    text::add_line(
        out,
        "# hide_on_fullscreen = true | false  (fullscreen game: fully hidden, no hover-reveal)",
    );
    text::add_line(
        out,
        "# hide_on_maximized  = true | false  (maximized window: retract to strip, hover reveals)",
    );
    text::add_line(out, "# taskbar_mode = \"show\" | \"autohide\" | \"hidden\"");
    text::add_line(
        out,
        "# drawer_enabled = true | false  (show the app-drawer button on the dock)",
    );
    text::add_line(
        out,
        "# hide_desktop_icons = true | false  (hide the Windows desktop icons while running)",
    );
    text::add_line(
        out,
        "# theme = \"glass\" | \"compact\" | \"solid\" | \"macos\" | \"contrast\"",
    );
    proof {
        let h = header_lines();
        let l0 = Seq::<Seq<char>>::empty();
        let l1 = l0.push(h[0]);
        let l2 = l1.push(h[1]);
        let l3 = l2.push(h[2]);
        let l4 = l3.push(h[3]);
        let l5 = l4.push(h[4]);
        let l6 = l5.push(h[5]);
        let l7 = l6.push(h[6]);
        let l8 = l7.push(h[7]);
        text::lemma_unlines_push(l0, h[0]);
        text::lemma_unlines_push(l1, h[1]);
        text::lemma_unlines_push(l2, h[2]);
        text::lemma_unlines_push(l3, h[3]);
        text::lemma_unlines_push(l4, h[4]);
        text::lemma_unlines_push(l5, h[5]);
        text::lemma_unlines_push(l6, h[6]);
        text::lemma_unlines_push(l7, h[7]);
        text::lemma_unlines_push(l8, h[8]);
        assert(h =~= l8.push(h[8]));
        assert(out@ =~= text::unlines(h));
    }
}

/// The text of a file with these settings.
pub fn save(settings: &Settings) -> (r: String)
    ensures
        r@ == rendered(*settings),
{
    let mut out: Vec<char> = Vec::new();
    assert(out@ =~= Seq::<char>::empty());
    add_header(&mut out);
    let ghost base = out@;
    out.push('\n');
    add_word(&mut out, "dock_mode", settings.dock_mode.as_str(), true);
    add_word(&mut out, "hide_on_fullscreen", flag_str(settings.hide_on_fullscreen), false);
    add_word(&mut out, "hide_on_maximized", flag_str(settings.hide_on_maximized), false);
    add_word(&mut out, "taskbar_mode", settings.taskbar_mode.as_str(), true);
    add_word(&mut out, "drawer_enabled", flag_str(settings.drawer_enabled), false);
    add_word(&mut out, "hide_desktop_icons", flag_str(settings.hide_desktop_icons), false);
    add_word(&mut out, "theme", settings.theme.as_str(), true);
    proof {
        let h = value_lines(*settings);
        let l0 = Seq::<Seq<char>>::empty();
        let l1 = l0.push(h[0]);
        let l2 = l1.push(h[1]);
        let l3 = l2.push(h[2]);
        let l4 = l3.push(h[3]);
        let l5 = l4.push(h[4]);
        let l6 = l5.push(h[5]);
        let l7 = l6.push(h[6]);
        text::lemma_unlines_push(l0, h[0]);
        text::lemma_unlines_push(l1, h[1]);
        text::lemma_unlines_push(l2, h[2]);
        text::lemma_unlines_push(l3, h[3]);
        text::lemma_unlines_push(l4, h[4]);
        text::lemma_unlines_push(l5, h[5]);
        text::lemma_unlines_push(l6, h[6]);
        text::lemma_unlines_push(l7, h[7]);
        assert(h =~= l7.push(h[7]));
        assert(out@ =~= base + text::unlines(h));
        facts::lemma_unlines_concat(header_lines(), h);
    }
    text::string_of(&out)
}

} // verus!
