//! The visual presets of the dock. Shares of colour and opacity are whole hundredths.

use vstd::prelude::*;
use crate::facts;
use crate::text;

verus! {

#[derive(Clone, Copy, Debug, PartialEq, Eq, Structural)]
pub enum ThemePreset {
    Glass,
    Compact,
    Solid,
    Macos,
    Contrast,
}

/// The paint of the dock, in hundredths.
#[derive(Clone, Copy, Debug, PartialEq, Eq)]
pub struct VisualTheme {
    pub pill_rgb: (u8, u8, u8),
    pub pill_alpha: u8,
    pub border_alpha: u8,
    pub divider_alpha: u8,
    pub dot_rgb: (u8, u8, u8),
    pub dot_alpha: u8,
}

/// The preset's name in the settings file.
pub open spec fn name_of(t: ThemePreset) -> Seq<char> {
    match t {
        ThemePreset::Glass => "glass"@,
        ThemePreset::Compact => "compact"@,
        ThemePreset::Solid => "solid"@,
        ThemePreset::Macos => "macos"@,
        ThemePreset::Contrast => "contrast"@,
    }
}

/// The preset's name in the settings window.
pub open spec fn label_of(t: ThemePreset) -> Seq<char> {
    match t {
        ThemePreset::Glass => "玻璃"@,
        ThemePreset::Compact => "紧凑"@,
        ThemePreset::Solid => "纯色"@,
        ThemePreset::Macos => "macOS"@,
        ThemePreset::Contrast => "高对比"@,
    }
}

/// The preset that a text names; white space around it and letter case do not matter.
pub open spec fn named(value: Seq<char>) -> Option<ThemePreset> {
    let w = text::lower(text::trimmed(value));
    if w == "glass"@ || w == "default"@ {
        Some(ThemePreset::Glass)
    } else if w == "compact"@ {
        Some(ThemePreset::Compact)
    } else if w == "solid"@ {
        Some(ThemePreset::Solid)
    } else if w == "macos"@ || w == "mac"@ {
        Some(ThemePreset::Macos)
    } else if w == "contrast"@ || w == "high-contrast"@ || w == "high_contrast"@ {
        Some(ThemePreset::Contrast)
    } else {
        None
    }
}

/// The paint of a preset.
pub open spec fn paint_of(t: ThemePreset) -> VisualTheme {
    match t {
        ThemePreset::Glass => VisualTheme {
            pill_rgb: (10, 12, 18),
            pill_alpha: 54,
            border_alpha: 18,
            divider_alpha: 22,
            dot_rgb: (74, 86, 100),
            dot_alpha: 82,
        },
        ThemePreset::Compact => VisualTheme {
            pill_rgb: (2, 2, 3),
            pill_alpha: 90,
            border_alpha: 8,
            divider_alpha: 12,
            dot_rgb: (58, 96, 72),
            dot_alpha: 92,
        },
        ThemePreset::Solid => VisualTheme {
            pill_rgb: (18, 18, 17),
            pill_alpha: 100,
            border_alpha: 16,
            divider_alpha: 22,
            dot_rgb: (98, 72, 44),
            dot_alpha: 95,
        },
        ThemePreset::Macos => VisualTheme {
            pill_rgb: (72, 74, 78),
            pill_alpha: 70,
            border_alpha: 46,
            divider_alpha: 30,
            dot_rgb: (4, 5, 7),
            dot_alpha: 78,
        },
        ThemePreset::Contrast => VisualTheme {
            pill_rgb: (0, 0, 0),
            pill_alpha: 100,
            border_alpha: 70,
            divider_alpha: 58,
            dot_rgb: (100, 86, 18),
            dot_alpha: 100,
        },
    }
}

/// How far apart two shares are.
pub open spec fn gap(a: u8, b: u8) -> int {
    if a <= b {
        b - a
    } else {
        a - b
    }
}

/// Two pills that the eye tells apart.
pub open spec fn told_apart(a: VisualTheme, b: VisualTheme) -> bool {
    gap(a.pill_rgb.0, b.pill_rgb.0) + gap(a.pill_rgb.1, b.pill_rgb.1) + gap(
        a.pill_rgb.2,
        b.pill_rgb.2,
    ) >= 18 || gap(a.pill_alpha, b.pill_alpha) >= 25
}

/// All presets in the order of the settings window.
pub open spec fn presets() -> Seq<ThemePreset> {
    seq![
        ThemePreset::Glass,
        ThemePreset::Compact,
        ThemePreset::Solid,
        ThemePreset::Macos,
        ThemePreset::Contrast,
    ]
}

impl Default for ThemePreset {
    fn default() -> (r: ThemePreset)
        ensures
            r == ThemePreset::Glass,
    {
        ThemePreset::Glass
    }
}

impl ThemePreset {
    pub const ALL: [ThemePreset; 5] = [
        ThemePreset::Glass,
        ThemePreset::Compact,
        ThemePreset::Solid,
        ThemePreset::Macos,
        ThemePreset::Contrast,
    ];

    /// The preset's name in the settings file.
    pub fn as_str(self) -> (r: &'static str)
        ensures
            r@ == name_of(self),
    {
        match self {
            ThemePreset::Glass => "glass",
            ThemePreset::Compact => "compact",
            ThemePreset::Solid => "solid",
            ThemePreset::Macos => "macos",
            ThemePreset::Contrast => "contrast",
        }
    }

    /// The preset's name in the settings window.
    pub fn label(self) -> (r: &'static str)
        ensures
            r@ == label_of(self),
    {
        match self {
            ThemePreset::Glass => "玻璃",
            ThemePreset::Compact => "紧凑",
            ThemePreset::Solid => "纯色",
            ThemePreset::Macos => "macOS",
            ThemePreset::Contrast => "高对比",
        }
    }

    /// The preset that a text names.
    pub fn parse(value: &str) -> (r: Option<ThemePreset>)
        ensures
            r == named(value@),
    {
        let v = text::chars_of(value);
        let w = text::lower_chars(text::trim(&v));
        if text::spells(&w, "glass") || text::spells(&w, "default") {
            Some(ThemePreset::Glass)
        } else if text::spells(&w, "compact") {
            Some(ThemePreset::Compact)
        } else if text::spells(&w, "solid") {
            Some(ThemePreset::Solid)
        } else if text::spells(&w, "macos") || text::spells(&w, "mac") {
            Some(ThemePreset::Macos)
        } else if text::spells(&w, "contrast") || text::spells(&w, "high-contrast")
            || text::spells(&w, "high_contrast") {
            Some(ThemePreset::Contrast)
        } else {
            None
        }
    }

    /// The paint of the preset.
    pub fn visual(self) -> (r: VisualTheme)
        ensures
            r == paint_of(self),
    {
        match self {
            ThemePreset::Glass => VisualTheme {
                pill_rgb: (10, 12, 18),
                pill_alpha: 54,
                border_alpha: 18,
                divider_alpha: 22,
                dot_rgb: (74, 86, 100),
                dot_alpha: 82,
            },
            ThemePreset::Compact => VisualTheme {
                pill_rgb: (2, 2, 3),
                pill_alpha: 90,
                border_alpha: 8,
                divider_alpha: 12,
                dot_rgb: (58, 96, 72),
                dot_alpha: 92,
            },
            ThemePreset::Solid => VisualTheme {
                pill_rgb: (18, 18, 17),
                pill_alpha: 100,
                border_alpha: 16,
                divider_alpha: 22,
                dot_rgb: (98, 72, 44),
                dot_alpha: 95,
            },
            ThemePreset::Macos => VisualTheme {
                pill_rgb: (72, 74, 78),
                pill_alpha: 70,
                border_alpha: 46,
                divider_alpha: 30,
                dot_rgb: (4, 5, 7),
                dot_alpha: 78,
            },
            ThemePreset::Contrast => VisualTheme {
                pill_rgb: (0, 0, 0),
                pill_alpha: 100,
                border_alpha: 70,
                divider_alpha: 58,
                dot_rgb: (100, 86, 18),
                dot_alpha: 100,
            },
        }
    }

    /// The preset at an index of the settings window.
    pub fn at(index: usize) -> (r: Option<ThemePreset>)
        ensures
            r == (if index < presets().len() {
                Some(presets()[index as int])
            } else {
                None
            }),
    {
        match index {
            0 => Some(ThemePreset::Glass),
            1 => Some(ThemePreset::Compact),
            2 => Some(ThemePreset::Solid),
            3 => Some(ThemePreset::Macos),
            4 => Some(ThemePreset::Contrast),
            _ => None,
        }
    }

    /// The preset's index in the settings window.
    pub fn position(self) -> (r: usize)
        ensures
            r < presets().len(),
            presets()[r as int] == self,
    {
        match self {
            ThemePreset::Glass => 0,
            ThemePreset::Compact => 1,
            ThemePreset::Solid => 2,
            ThemePreset::Macos => 3,
            ThemePreset::Contrast => 4,
        }
    }
}

/// A preset is found under its own name, which is a word.
pub proof fn law_named_by_own_name(t: ThemePreset)
    ensures
        named(name_of(t)) == Some(t),
        name_of(t).len() > 0,
        facts::word_upto(name_of(t), name_of(t).len()),
{
    reveal_with_fuel(facts::word_upto, 10);
    reveal_strlit("glass");
    reveal_strlit("default");
    reveal_strlit("compact");
    reveal_strlit("solid");
    reveal_strlit("macos");
    reveal_strlit("mac");
    reveal_strlit("contrast");
    reveal_strlit("high-contrast");
    reveal_strlit("high_contrast");
    facts::lemma_word(name_of(t), name_of(t).len());
    assert("compact"@[0] == 'c');
    assert("solid"@[0] == 's');
    assert("macos"@[0] == 'm' && "macos"@.len() == 5);
    assert("contrast"@[2] == 'n' && "compact"@[2] == 'm');
}

/// Presets that stand next to each other are told apart by the eye.
pub proof fn law_neighbours_told_apart(i: int)
    requires
        0 <= i < presets().len() - 1,
    ensures
        told_apart(paint_of(presets()[i]), paint_of(presets()[i + 1])),
{
}

/// The compact preset is at least as opaque as the glass one, with no stronger border.
pub proof fn law_compact_is_denser()
    ensures
        paint_of(ThemePreset::Compact).pill_alpha >= paint_of(ThemePreset::Glass).pill_alpha,
        paint_of(ThemePreset::Compact).border_alpha <= paint_of(ThemePreset::Glass).border_alpha,
{
}

} // verus!
