//! Theming system: the three built-in colour palettes and their themes.
use vstd::prelude::*;

use crate::framebuffer::Pixel;
use crate::text::{chars_of, lit, seq_eq};

verus! {

broadcast use vstd::string::group_string_axioms;

#[derive(Clone, Copy, Debug, PartialEq, Eq, Structural)]
pub enum ColorPalette {
    KamelotDark,
    GraphiteMinimal,
    LightClean,
}

impl ColorPalette {
    pub open spec fn spec_cycle(self) -> ColorPalette {
        match self {
            ColorPalette::KamelotDark => ColorPalette::GraphiteMinimal,
            ColorPalette::GraphiteMinimal => ColorPalette::LightClean,
            ColorPalette::LightClean => ColorPalette::KamelotDark,
        }
    }

    pub open spec fn spec_name(self) -> Seq<char> {
        match self {
            ColorPalette::KamelotDark => "kamelot-dark"@,
            ColorPalette::GraphiteMinimal => "graphite-minimal"@,
            ColorPalette::LightClean => "light-clean"@,
        }
    }

    /// The next palette in the theme rotation.
    pub fn cycle(&self) -> (p: Self)
        ensures
            p == self.spec_cycle(),
    {
        match self {
            Self::KamelotDark => Self::GraphiteMinimal,
            Self::GraphiteMinimal => Self::LightClean,
            Self::LightClean => Self::KamelotDark,
        }
    }

    /// The palette's persisted name.
    pub fn as_str(&self) -> (s: &'static str)
        ensures
            s@ == self.spec_name(),
    {
        match self {
            Self::KamelotDark => "kamelot-dark",
            Self::GraphiteMinimal => "graphite-minimal",
            Self::LightClean => "light-clean",
        }
    }

    /// The palette with this persisted name, if any.
    pub fn from_str(s: &str) -> (p: Option<Self>)
        ensures
            p == palette_named(s@),
    {
        let v = chars_of(s);
        if seq_eq(&v, &lit("kamelot-dark")) {
            Some(Self::KamelotDark)
        } else if seq_eq(&v, &lit("graphite-minimal")) {
            Some(Self::GraphiteMinimal)
        } else if seq_eq(&v, &lit("light-clean")) {
            Some(Self::LightClean)
        } else {
            None
        }
    }
}

/// The palette a persisted name stands for.
pub open spec fn palette_named(s: Seq<char>) -> Option<ColorPalette> {
    if s == "kamelot-dark"@ {
        Some(ColorPalette::KamelotDark)
    } else if s == "graphite-minimal"@ {
        Some(ColorPalette::GraphiteMinimal)
    } else if s == "light-clean"@ {
        Some(ColorPalette::LightClean)
    } else {
        None
    }
}

/// A palette's persisted name reads back as that palette.
pub proof fn law_palette_name_roundtrip(p: ColorPalette)
    ensures
        palette_named(p.spec_name()) == Some(p),
{
    reveal_strlit("kamelot-dark");
    reveal_strlit("graphite-minimal");
    reveal_strlit("light-clean");
    assert("kamelot-dark"@.len() == 12);
    assert("graphite-minimal"@.len() == 16);
    assert("light-clean"@.len() == 11);
}

/// Cycling through the palettes returns to the start after three steps.
pub proof fn law_cycle_period_three(p: ColorPalette)
    ensures
        p.spec_cycle().spec_cycle().spec_cycle() == p,
        p.spec_cycle() != p,
{
}

#[derive(Clone, Copy, Debug)]
pub struct Theme {
    // Core
    pub bg: Pixel,               // Content area background
    pub fg: Pixel,               // Primary text
    pub fg_secondary: Pixel,     // Secondary / dimmed text
    pub border: Pixel,           // Subtle borders
    pub surface: Pixel,          // Chrome bar background (address bar row)
    pub placeholder: Pixel,      // Placeholder text

    // Tab system
    pub tab_bar_bg: Pixel,       // Tab strip row background (slightly darker)
    pub tab_bg: Pixel,           // Inactive tab background
    pub tab_fg: Pixel,           // Inactive tab text
    pub tab_active_bg: Pixel,    // Active tab bg (matches surface for connected look)
    pub tab_active_fg: Pixel,    // Active tab text
    pub tab_hover_bg: Pixel,     // Hovered tab background
    pub tab_close_hover: Pixel,  // Close button hover background

    // Address bar
    pub address_bar_bg: Pixel,
    pub address_bar_bg_focused: Pixel,
    pub address_bar_fg: Pixel,
    pub address_bar_border: Pixel,
    pub address_bar_border_focused: Pixel,

    // Controls
    pub icon_fg: Pixel,
    pub control_hover_bg: Pixel,

    // New tab page
    pub new_tab_card_bg: Pixel,
    pub new_tab_card_hover_bg: Pixel,

    // Accents
    pub accent: Pixel,
    pub accent_fg: Pixel,
    pub security_ok: Pixel,
    pub security_err: Pixel,
}

/// The theme each palette selects.
pub open spec fn spec_theme(palette: ColorPalette) -> Theme {
    match palette {
        ColorPalette::KamelotDark => Theme {
            bg: Pixel { r: 13, g: 15, b: 19 },
            fg: Pixel { r: 238, g: 241, b: 245 },
            fg_secondary: Pixel { r: 132, g: 140, b: 150 },
            border: Pixel { r: 42, g: 48, b: 58 },
            surface: Pixel { r: 22, g: 25, b: 31 },
            placeholder: Pixel { r: 104, g: 112, b: 124 },
            tab_bar_bg: Pixel { r: 16, g: 18, b: 23 },
            tab_bg: Pixel { r: 24, g: 27, b: 34 },
            tab_fg: Pixel { r: 146, g: 154, b: 164 },
            tab_active_bg: Pixel { r: 22, g: 25, b: 31 },
            tab_active_fg: Pixel { r: 238, g: 238, b: 238 },
            tab_hover_bg: Pixel { r: 34, g: 39, b: 48 },
            tab_close_hover: Pixel { r: 58, g: 65, b: 78 },
            address_bar_bg: Pixel { r: 30, g: 34, b: 42 },
            address_bar_bg_focused: Pixel { r: 35, g: 40, b: 49 },
            address_bar_fg: Pixel { r: 238, g: 238, b: 238 },
            address_bar_border: Pixel { r: 50, g: 57, b: 69 },
            address_bar_border_focused: Pixel { r: 223, g: 132, b: 83 },
            icon_fg: Pixel { r: 168, g: 176, b: 188 },
            control_hover_bg: Pixel { r: 39, g: 45, b: 55 },
            new_tab_card_bg: Pixel { r: 24, g: 28, b: 35 },
            new_tab_card_hover_bg: Pixel { r: 36, g: 42, b: 52 },
            accent: Pixel { r: 200, g: 107, b: 60 },
            accent_fg: Pixel { r: 255, g: 255, b: 255 },
            security_ok: Pixel { r: 52, g: 168, b: 83 },
            security_err: Pixel { r: 220, g: 53, b: 69 },
        },
        ColorPalette::GraphiteMinimal => Theme {
            bg: Pixel { r: 16, g: 16, b: 16 },
            fg: Pixel { r: 190, g: 190, b: 190 },
            fg_secondary: Pixel { r: 90, g: 90, b: 90 },
            border: Pixel { r: 34, g: 34, b: 34 },
            surface: Pixel { r: 22, g: 22, b: 22 },
            placeholder: Pixel { r: 75, g: 75, b: 75 },
            tab_bar_bg: Pixel { r: 14, g: 14, b: 14 },
            tab_bg: Pixel { r: 24, g: 24, b: 24 },
            tab_fg: Pixel { r: 100, g: 100, b: 100 },
            tab_active_bg: Pixel { r: 22, g: 22, b: 22 },
            tab_active_fg: Pixel { r: 190, g: 190, b: 190 },
            tab_hover_bg: Pixel { r: 35, g: 35, b: 35 },
            tab_close_hover: Pixel { r: 50, g: 50, b: 50 },
            address_bar_bg: Pixel { r: 28, g: 28, b: 28 },
            address_bar_bg_focused: Pixel { r: 24, g: 24, b: 24 },
            address_bar_fg: Pixel { r: 175, g: 175, b: 175 },
            address_bar_border: Pixel { r: 40, g: 40, b: 40 },
            address_bar_border_focused: Pixel { r: 120, g: 120, b: 120 },
            icon_fg: Pixel { r: 120, g: 120, b: 120 },
            control_hover_bg: Pixel { r: 35, g: 35, b: 35 },
            new_tab_card_bg: Pixel { r: 24, g: 24, b: 24 },
            new_tab_card_hover_bg: Pixel { r: 36, g: 36, b: 36 },
            accent: Pixel { r: 110, g: 110, b: 110 },
            accent_fg: Pixel { r: 220, g: 220, b: 220 },
            security_ok: Pixel { r: 80, g: 140, b: 80 },
            security_err: Pixel { r: 150, g: 70, b: 70 },
        },
        ColorPalette::LightClean => Theme {
            bg: Pixel { r: 248, g: 248, b: 248 },
            fg: Pixel { r: 16, g: 16, b: 16 },
            fg_secondary: Pixel { r: 140, g: 140, b: 140 },
            border: Pixel { r: 216, g: 216, b: 216 },
            surface: Pixel { r: 255, g: 255, b: 255 },
            placeholder: Pixel { r: 160, g: 160, b: 160 },
            tab_bar_bg: Pixel { r: 234, g: 234, b: 236 },
            tab_bg: Pixel { r: 218, g: 218, b: 220 },
            tab_fg: Pixel { r: 100, g: 100, b: 100 },
            tab_active_bg: Pixel { r: 255, g: 255, b: 255 },
            tab_active_fg: Pixel { r: 16, g: 16, b: 16 },
            tab_hover_bg: Pixel { r: 228, g: 228, b: 230 },
            tab_close_hover: Pixel { r: 200, g: 200, b: 202 },
            address_bar_bg: Pixel { r: 240, g: 240, b: 242 },
            address_bar_bg_focused: Pixel { r: 255, g: 255, b: 255 },
            address_bar_fg: Pixel { r: 16, g: 16, b: 16 },
            address_bar_border: Pixel { r: 210, g: 210, b: 212 },
            address_bar_border_focused: Pixel { r: 0, g: 122, b: 255 },
            icon_fg: Pixel { r: 120, g: 120, b: 122 },
            control_hover_bg: Pixel { r: 220, g: 220, b: 222 },
            new_tab_card_bg: Pixel { r: 242, g: 242, b: 244 },
            new_tab_card_hover_bg: Pixel { r: 228, g: 228, b: 230 },
            accent: Pixel { r: 0, g: 122, b: 255 },
            accent_fg: Pixel { r: 255, g: 255, b: 255 },
            security_ok: Pixel { r: 46, g: 204, b: 113 },
            security_err: Pixel { r: 231, g: 76, b: 60 },
        },
    }
}

/// The theme for a palette.
pub fn get_theme(palette: ColorPalette) -> (t: Theme)
    ensures
        t == spec_theme(palette),
{
    match palette {
        ColorPalette::KamelotDark => Theme {
            bg: Pixel { r: 13, g: 15, b: 19 },
            fg: Pixel { r: 238, g: 241, b: 245 },
            fg_secondary: Pixel { r: 132, g: 140, b: 150 },
            border: Pixel { r: 42, g: 48, b: 58 },
            surface: Pixel { r: 22, g: 25, b: 31 },
            placeholder: Pixel { r: 104, g: 112, b: 124 },
            tab_bar_bg: Pixel { r: 16, g: 18, b: 23 },
            tab_bg: Pixel { r: 24, g: 27, b: 34 },
            tab_fg: Pixel { r: 146, g: 154, b: 164 },
            tab_active_bg: Pixel { r: 22, g: 25, b: 31 },
            tab_active_fg: Pixel { r: 238, g: 238, b: 238 },
            tab_hover_bg: Pixel { r: 34, g: 39, b: 48 },
            tab_close_hover: Pixel { r: 58, g: 65, b: 78 },
            address_bar_bg: Pixel { r: 30, g: 34, b: 42 },
            address_bar_bg_focused: Pixel { r: 35, g: 40, b: 49 },
            address_bar_fg: Pixel { r: 238, g: 238, b: 238 },
            address_bar_border: Pixel { r: 50, g: 57, b: 69 },
            address_bar_border_focused: Pixel { r: 223, g: 132, b: 83 },
            icon_fg: Pixel { r: 168, g: 176, b: 188 },
            control_hover_bg: Pixel { r: 39, g: 45, b: 55 },
            new_tab_card_bg: Pixel { r: 24, g: 28, b: 35 },
            new_tab_card_hover_bg: Pixel { r: 36, g: 42, b: 52 },
            accent: Pixel { r: 200, g: 107, b: 60 },
            accent_fg: Pixel { r: 255, g: 255, b: 255 },
            security_ok: Pixel { r: 52, g: 168, b: 83 },
            security_err: Pixel { r: 220, g: 53, b: 69 },
        },
        ColorPalette::GraphiteMinimal => Theme {
            bg: Pixel { r: 16, g: 16, b: 16 },
            fg: Pixel { r: 190, g: 190, b: 190 },
            fg_secondary: Pixel { r: 90, g: 90, b: 90 },
            border: Pixel { r: 34, g: 34, b: 34 },
            surface: Pixel { r: 22, g: 22, b: 22 },
            placeholder: Pixel { r: 75, g: 75, b: 75 },
            tab_bar_bg: Pixel { r: 14, g: 14, b: 14 },
            tab_bg: Pixel { r: 24, g: 24, b: 24 },
            tab_fg: Pixel { r: 100, g: 100, b: 100 },
            tab_active_bg: Pixel { r: 22, g: 22, b: 22 },
            tab_active_fg: Pixel { r: 190, g: 190, b: 190 },
            tab_hover_bg: Pixel { r: 35, g: 35, b: 35 },
            tab_close_hover: Pixel { r: 50, g: 50, b: 50 },
            address_bar_bg: Pixel { r: 28, g: 28, b: 28 },
            address_bar_bg_focused: Pixel { r: 24, g: 24, b: 24 },
            address_bar_fg: Pixel { r: 175, g: 175, b: 175 },
            address_bar_border: Pixel { r: 40, g: 40, b: 40 },
            address_bar_border_focused: Pixel { r: 120, g: 120, b: 120 },
            icon_fg: Pixel { r: 120, g: 120, b: 120 },
            control_hover_bg: Pixel { r: 35, g: 35, b: 35 },
            new_tab_card_bg: Pixel { r: 24, g: 24, b: 24 },
            new_tab_card_hover_bg: Pixel { r: 36, g: 36, b: 36 },
            accent: Pixel { r: 110, g: 110, b: 110 },
            accent_fg: Pixel { r: 220, g: 220, b: 220 },
            security_ok: Pixel { r: 80, g: 140, b: 80 },
            security_err: Pixel { r: 150, g: 70, b: 70 },
        },
        ColorPalette::LightClean => Theme {
            bg: Pixel { r: 248, g: 248, b: 248 },
            fg: Pixel { r: 16, g: 16, b: 16 },
            fg_secondary: Pixel { r: 140, g: 140, b: 140 },
            border: Pixel { r: 216, g: 216, b: 216 },
            surface: Pixel { r: 255, g: 255, b: 255 },
            placeholder: Pixel { r: 160, g: 160, b: 160 },
            tab_bar_bg: Pixel { r: 234, g: 234, b: 236 },
            tab_bg: Pixel { r: 218, g: 218, b: 220 },
            tab_fg: Pixel { r: 100, g: 100, b: 100 },
            tab_active_bg: Pixel { r: 255, g: 255, b: 255 },
            tab_active_fg: Pixel { r: 16, g: 16, b: 16 },
            tab_hover_bg: Pixel { r: 228, g: 228, b: 230 },
            tab_close_hover: Pixel { r: 200, g: 200, b: 202 },
            address_bar_bg: Pixel { r: 240, g: 240, b: 242 },
            address_bar_bg_focused: Pixel { r: 255, g: 255, b: 255 },
            address_bar_fg: Pixel { r: 16, g: 16, b: 16 },
            address_bar_border: Pixel { r: 210, g: 210, b: 212 },
            address_bar_border_focused: Pixel { r: 0, g: 122, b: 255 },
            icon_fg: Pixel { r: 120, g: 120, b: 122 },
            control_hover_bg: Pixel { r: 220, g: 220, b: 222 },
            new_tab_card_bg: Pixel { r: 242, g: 242, b: 244 },
            new_tab_card_hover_bg: Pixel { r: 228, g: 228, b: 230 },
            accent: Pixel { r: 0, g: 122, b: 255 },
            accent_fg: Pixel { r: 255, g: 255, b: 255 },
            security_ok: Pixel { r: 46, g: 204, b: 113 },
            security_err: Pixel { r: 231, g: 76, b: 60 },
        },
    }
}

} // verus!
