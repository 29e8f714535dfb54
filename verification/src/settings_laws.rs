//! What the settings file promises: what is saved reads back, and each mode is found
//! under its own name.

use vstd::prelude::*;
use crate::facts;
use crate::settings;
use crate::settings::{DockMode, Settings, TaskbarMode};
use crate::text;
use crate::theme;

verus! {

/// A dock mode is found under its own name, which is a word.
pub proof fn law_dock_mode_by_own_name(m: DockMode)
    ensures
        settings::dock_mode_named(settings::dock_mode_name(m)) == Some(m),
        settings::dock_mode_name(m).len() > 0,
        facts::word_upto(settings::dock_mode_name(m), settings::dock_mode_name(m).len()),
{
    let w = settings::dock_mode_name(m);
    reveal_with_fuel(facts::word_upto, 10);
    reveal_strlit("always");
    reveal_strlit("autohide");
    facts::lemma_word(w, w.len());
}

/// A taskbar mode is found under its own name, which is a word.
pub proof fn law_taskbar_mode_by_own_name(m: TaskbarMode)
    ensures
        settings::taskbar_mode_named(settings::taskbar_mode_name(m)) == Some(m),
        settings::taskbar_mode_name(m).len() > 0,
        facts::word_upto(settings::taskbar_mode_name(m), settings::taskbar_mode_name(m).len()),
{
    let w = settings::taskbar_mode_name(m);
    reveal_with_fuel(facts::word_upto, 10);
    reveal_strlit("show");
    reveal_strlit("none");
    reveal_strlit("autohide");
    reveal_strlit("auto-hide");
    reveal_strlit("auto_hide");
    reveal_strlit("hidden");
    facts::lemma_word(w, w.len());
    assert("hidden"@[0] == 'h' && "show"@[0] == 's' && "none"@[0] == 'n' && "autohide"@[0] == 'a');
    assert("auto-hide"@[0] == 'a' && "auto_hide"@[0] == 'a');
}

proof fn lemma_flag(b: bool)
    ensures
        settings::is_true(settings::flag_name(b)) == b,
        facts::snug(settings::flag_name(b)),
        facts::lacks(settings::flag_name(b), '\n'),
        text::stripped(settings::flag_name(b), '"') == settings::flag_name(b),
{
    let w = settings::flag_name(b);
    reveal_with_fuel(facts::word_upto, 10);
    reveal_strlit("true");
    reveal_strlit("false");
    facts::lemma_word(w, w.len());
    assert("true"@[0] == 't' && "false"@[0] == 'f');
}

proof fn lemma_keys()
    ensures
        facts::word_upto("dock_mode"@, "dock_mode"@.len()) && "dock_mode"@.len() == 9,
        facts::word_upto("hide_on_fullscreen"@, "hide_on_fullscreen"@.len())
            && "hide_on_fullscreen"@.len() == 18 && "hide_on_fullscreen"@[5] == 'o',
        facts::word_upto("hide_on_maximized"@, "hide_on_maximized"@.len())
            && "hide_on_maximized"@.len() == 17,
        facts::word_upto("taskbar_mode"@, "taskbar_mode"@.len()) && "taskbar_mode"@.len() == 12,
        facts::word_upto("drawer_enabled"@, "drawer_enabled"@.len()) && "drawer_enabled"@.len()
            == 14,
        facts::word_upto("hide_desktop_icons"@, "hide_desktop_icons"@.len())
            && "hide_desktop_icons"@.len() == 18 && "hide_desktop_icons"@[5] == 'd',
        facts::word_upto("theme"@, "theme"@.len()) && "theme"@.len() == 5,
        "dock_mode"@[0] == 'd',
        "hide_on_fullscreen"@[0] == 'h',
        "hide_on_maximized"@[0] == 'h',
        "taskbar_mode"@[0] == 't',
        "drawer_enabled"@[0] == 'd',
        "hide_desktop_icons"@[0] == 'h',
        "theme"@[0] == 't',
{
    reveal_with_fuel(facts::word_upto, 20);
    reveal_strlit("dock_mode");
    reveal_strlit("hide_on_fullscreen");
    reveal_strlit("hide_on_maximized");
    reveal_strlit("taskbar_mode");
    reveal_strlit("drawer_enabled");
    reveal_strlit("hide_desktop_icons");
    reveal_strlit("theme");
}

/// What a line with a flag does.
proof fn lemma_flag_line(s: Settings, key: Seq<char>, b: bool)
    requires
        key.len() > 0,
        key[0] != '#',
        facts::word_upto(key, key.len()),
    ensures
        settings::after_line(s, facts::word_line(key, settings::flag_name(b)))
            == settings::with_pair(s, key, settings::flag_name(b)),
        facts::is_line(facts::word_line(key, settings::flag_name(b))),
{
    facts::lemma_word(key, key.len());
    lemma_flag(b);
    facts::lemma_word_line(key, settings::flag_name(b));
}

/// What a line with a word in quotes does.
proof fn lemma_quoted_line(s: Settings, key: Seq<char>, w: Seq<char>)
    requires
        key.len() > 0,
        key[0] != '#',
        facts::word_upto(key, key.len()),
        w.len() > 0,
        facts::word_upto(w, w.len()),
    ensures
        settings::after_line(s, facts::word_line(key, facts::in_quotes(w))) == settings::with_pair(
            s,
            key,
            w,
        ),
        facts::is_line(facts::word_line(key, facts::in_quotes(w))),
{
    facts::lemma_word(key, key.len());
    facts::lemma_word(w, w.len());
    facts::lemma_in_quotes(w);
    facts::lemma_word_line(key, facts::in_quotes(w));
}

proof fn lemma_comment(l: Seq<char>, s: Settings)
    requires
        l.len() > 0,
        l[0] == '#',
        !text::is_white(l.last()),
        facts::one_line_upto(l, l.len()),
    ensures
        settings::after_line(s, l) == s,
        facts::is_line(l),
{
    facts::lemma_one_line(l, l.len());
    facts::lemma_trim_snug(l);
}

proof fn lemma_header_0(s: Settings)
    ensures
        settings::after_line(s, "# FeatherDock settings."@) == s,
        facts::is_line("# FeatherDock settings."@),
{
    reveal_strlit("# FeatherDock settings.");
    reveal_with_fuel(facts::one_line_upto, 100);
    lemma_comment("# FeatherDock settings."@, s);
}

proof fn lemma_header_1(s: Settings)
    ensures
        settings::after_line(s, "# dock_mode = \"always\"  -> resident at the bottom (retracts for fullscreen/maximized)"@) == s,
        facts::is_line("# dock_mode = \"always\"  -> resident at the bottom (retracts for fullscreen/maximized)"@),
{
    reveal_strlit("# dock_mode = \"always\"  -> resident at the bottom (retracts for fullscreen/maximized)");
    reveal_with_fuel(facts::one_line_upto, 100);
    lemma_comment("# dock_mode = \"always\"  -> resident at the bottom (retracts for fullscreen/maximized)"@, s);
}

proof fn lemma_header_2(s: Settings)
    ensures
        settings::after_line(s, "# dock_mode = \"autohide\" -> classic auto-hide (reveal by hitting the bottom edge)"@) == s,
        facts::is_line("# dock_mode = \"autohide\" -> classic auto-hide (reveal by hitting the bottom edge)"@),
{
    reveal_strlit("# dock_mode = \"autohide\" -> classic auto-hide (reveal by hitting the bottom edge)");
    reveal_with_fuel(facts::one_line_upto, 100);
    lemma_comment("# dock_mode = \"autohide\" -> classic auto-hide (reveal by hitting the bottom edge)"@, s);
}

proof fn lemma_header_3(s: Settings)
    ensures
        settings::after_line(s, "# hide_on_fullscreen = true | false  (fullscreen game: fully hidden, no hover-reveal)"@) == s,
        facts::is_line("# hide_on_fullscreen = true | false  (fullscreen game: fully hidden, no hover-reveal)"@),
{
    reveal_strlit("# hide_on_fullscreen = true | false  (fullscreen game: fully hidden, no hover-reveal)");
    reveal_with_fuel(facts::one_line_upto, 100);
    lemma_comment("# hide_on_fullscreen = true | false  (fullscreen game: fully hidden, no hover-reveal)"@, s);
}

proof fn lemma_header_4(s: Settings)
    ensures
        settings::after_line(s, "# hide_on_maximized  = true | false  (maximized window: retract to strip, hover reveals)"@) == s,
        facts::is_line("# hide_on_maximized  = true | false  (maximized window: retract to strip, hover reveals)"@),
{
    reveal_strlit("# hide_on_maximized  = true | false  (maximized window: retract to strip, hover reveals)");
    reveal_with_fuel(facts::one_line_upto, 100);
    lemma_comment("# hide_on_maximized  = true | false  (maximized window: retract to strip, hover reveals)"@, s);
}

proof fn lemma_header_5(s: Settings)
    ensures
        settings::after_line(s, "# taskbar_mode = \"show\" | \"autohide\" | \"hidden\""@) == s,
        facts::is_line("# taskbar_mode = \"show\" | \"autohide\" | \"hidden\""@),
{
    reveal_strlit("# taskbar_mode = \"show\" | \"autohide\" | \"hidden\"");
    reveal_with_fuel(facts::one_line_upto, 100);
    lemma_comment("# taskbar_mode = \"show\" | \"autohide\" | \"hidden\""@, s);
}

proof fn lemma_header_6(s: Settings)
    ensures
        settings::after_line(s, "# drawer_enabled = true | false  (show the app-drawer button on the dock)"@) == s,
        facts::is_line("# drawer_enabled = true | false  (show the app-drawer button on the dock)"@),
{
    reveal_strlit("# drawer_enabled = true | false  (show the app-drawer button on the dock)");
    reveal_with_fuel(facts::one_line_upto, 100);
    lemma_comment("# drawer_enabled = true | false  (show the app-drawer button on the dock)"@, s);
}

proof fn lemma_header_7(s: Settings)
    ensures
        settings::after_line(s, "# hide_desktop_icons = true | false  (hide the Windows desktop icons while running)"@) == s,
        facts::is_line("# hide_desktop_icons = true | false  (hide the Windows desktop icons while running)"@),
{
    reveal_strlit("# hide_desktop_icons = true | false  (hide the Windows desktop icons while running)");
    reveal_with_fuel(facts::one_line_upto, 100);
    lemma_comment("# hide_desktop_icons = true | false  (hide the Windows desktop icons while running)"@, s);
}

proof fn lemma_header_8(s: Settings)
    ensures
        settings::after_line(s, "# theme = \"glass\" | \"compact\" | \"solid\" | \"macos\" | \"contrast\""@) == s,
        facts::is_line("# theme = \"glass\" | \"compact\" | \"solid\" | \"macos\" | \"contrast\""@),
{
    reveal_strlit("# theme = \"glass\" | \"compact\" | \"solid\" | \"macos\" | \"contrast\"");
    reveal_with_fuel(facts::one_line_upto, 100);
    lemma_comment("# theme = \"glass\" | \"compact\" | \"solid\" | \"macos\" | \"contrast\""@, s);
}

proof fn lemma_concat(s: Settings, a: Seq<Seq<char>>, b: Seq<Seq<char>>)
    ensures
        settings::after_lines(s, a + b) == settings::after_lines(settings::after_lines(s, a), b),
    decreases b.len(),
{
    if b.len() == 0 {
        assert(a + b =~= a);
    } else {
        lemma_concat(s, a, b.drop_last());
        assert((a + b).drop_last() =~= a + b.drop_last());
    }
}

proof fn lemma_step(s: Settings, ls: Seq<Seq<char>>, n: int)
    requires
        0 <= n < ls.len(),
    ensures
        settings::after_lines(s, ls.take(n + 1)) == settings::after_line(
            settings::after_lines(s, ls.take(n)),
            ls[n],
        ),
{
    assert(ls.take(n + 1).drop_last() =~= ls.take(n));
}

proof fn lemma_header(s: Settings)
    ensures
        settings::after_lines(s, settings::header_lines()) == s,
        facts::are_lines(settings::header_lines()),
{
    let h = settings::header_lines();
    lemma_header_0(s);
    lemma_header_1(s);
    lemma_header_2(s);
    lemma_header_3(s);
    lemma_header_4(s);
    lemma_header_5(s);
    lemma_header_6(s);
    lemma_header_7(s);
    lemma_header_8(s);
    assert(h.take(0) =~= Seq::empty());
    lemma_step(s, h, 0);
    lemma_step(s, h, 1);
    lemma_step(s, h, 2);
    lemma_step(s, h, 3);
    lemma_step(s, h, 4);
    lemma_step(s, h, 5);
    lemma_step(s, h, 6);
    lemma_step(s, h, 7);
    lemma_step(s, h, 8);
    assert(h.take(9) =~= h);
}

/// The lines with the values set every setting, whatever it was.
proof fn lemma_values(start: Settings, s: Settings)
    ensures
        settings::after_lines(start, settings::value_lines(s)) == s,
        facts::are_lines(settings::value_lines(s)),
{
    let v = settings::value_lines(s);
    lemma_keys();
    law_dock_mode_by_own_name(s.dock_mode);
    law_taskbar_mode_by_own_name(s.taskbar_mode);
    theme::law_named_by_own_name(s.theme);
    let e = Seq::<char>::empty();
    assert(text::trimmed(e) =~= e);
    assert(v.take(0) =~= Seq::empty());
    lemma_step(start, v, 0);
    lemma_step(start, v, 1);
    lemma_quoted_line(start, "dock_mode"@, settings::dock_mode_name(s.dock_mode));
    let s1 = Settings { dock_mode: s.dock_mode, ..start };
    assert(settings::after_lines(start, v.take(2)) == s1);
    lemma_step(start, v, 2);
    lemma_flag_line(s1, "hide_on_fullscreen"@, s.hide_on_fullscreen);
    lemma_flag(s.hide_on_fullscreen);
    let s2 = Settings { hide_on_fullscreen: s.hide_on_fullscreen, ..s1 };
    assert(settings::after_lines(start, v.take(3)) == s2);
    lemma_step(start, v, 3);
    lemma_flag_line(s2, "hide_on_maximized"@, s.hide_on_maximized);
    lemma_flag(s.hide_on_maximized);
    let s3 = Settings { hide_on_maximized: s.hide_on_maximized, ..s2 };
    assert(settings::after_lines(start, v.take(4)) == s3);
    lemma_step(start, v, 4);
    lemma_quoted_line(s3, "taskbar_mode"@, settings::taskbar_mode_name(s.taskbar_mode));
    let s4 = Settings { taskbar_mode: s.taskbar_mode, ..s3 };
    assert(settings::after_lines(start, v.take(5)) == s4);
    lemma_step(start, v, 5);
    lemma_flag_line(s4, "drawer_enabled"@, s.drawer_enabled);
    lemma_flag(s.drawer_enabled);
    let s5 = Settings { drawer_enabled: s.drawer_enabled, ..s4 };
    assert(settings::after_lines(start, v.take(6)) == s5);
    lemma_step(start, v, 6);
    lemma_flag_line(s5, "hide_desktop_icons"@, s.hide_desktop_icons);
    lemma_flag(s.hide_desktop_icons);
    let s6 = Settings { hide_desktop_icons: s.hide_desktop_icons, ..s5 };
    assert("hide_desktop_icons"@ != "hide_on_fullscreen"@);
    assert(settings::after_lines(start, v.take(7)) == s6);
    lemma_step(start, v, 7);
    lemma_quoted_line(s6, "theme"@, theme::name_of(s.theme));
    assert(settings::after_lines(start, v.take(8)) == s);
    assert(v.take(8) =~= v);
}

/// What is saved reads back, whatever the settings are.
pub proof fn law_rendered_parses(s: Settings)
    ensures
        settings::parsed(settings::rendered(s)) == s,
{
    let h = settings::header_lines();
    let v = settings::value_lines(s);
    lemma_header(settings::defaults());
    lemma_values(settings::defaults(), s);
    lemma_concat(settings::defaults(), h, v);
    assert forall|i: int| 0 <= i < (h + v).len() implies facts::is_line(#[trigger] (h + v)[i]) by {
        if i < h.len() {
            assert((h + v)[i] == h[i]);
        } else {
            assert((h + v)[i] == v[i - h.len()]);
        }
    }
    facts::lemma_lines_of_unlines(h + v);
}

/// A line changes no more than the setting that its key names: a comment, an empty line
/// and a line without an equals sign change nothing.
pub proof fn law_other_lines_change_nothing(s: Settings, raw: Seq<char>)
    requires
        ({
            let line = text::trimmed(raw);
            line.len() == 0 || line[0] == '#' || text::cut(line, '=') is None
        }),
    ensures
        settings::after_line(s, raw) == s,
{
}

} // verus!
