//! The four visual themes and their colours.
use vstd::prelude::*;

use crate::text::str_eq;

verus! {

/// A colour: red, green, blue and (premultiplied) alpha.
#[derive(Debug, Clone, Copy, PartialEq, Eq, Structural)]
pub struct Rgba {
    pub r: u8,
    pub g: u8,
    pub b: u8,
    pub a: u8,
}

/// An opaque colour.
pub open spec fn rgb(r: u8, g: u8, b: u8) -> Rgba {
    Rgba { r, g, b, a: 255 }
}

/// A visual theme palette.
#[derive(Debug, Clone, Copy)]
pub struct ThemePalette {
    pub name: &'static str,
    // Backgrounds
    pub bg: Rgba,
    pub sidebar: Rgba,
    /// Terminal background.
    pub panel: Rgba,
    pub surface: Rgba,
    pub hover: Rgba,
    pub tab_bg: Rgba,
    pub tab_active: Rgba,
    // Accents
    pub cyan: Rgba,
    /// Very translucent cyan.
    pub cyan_dim: Rgba,
    pub green: Rgba,
    pub pink: Rgba,
    pub danger: Rgba,
    pub yellow: Rgba,
    // Text
    pub text: Rgba,
    pub muted: Rgba,
    pub muted2: Rgba,
    // Borders
    pub border: Rgba,
    pub border_lit: Rgba,
}

impl ThemePalette {
    /// The palette's colours in field order, from `bg` to `border_lit`.
    pub open spec fn colors(self) -> Seq<Rgba> {
        seq![
            self.bg,
            self.sidebar,
            self.panel,
            self.surface,
            self.hover,
            self.tab_bg,
            self.tab_active,
            self.cyan,
            self.cyan_dim,
            self.green,
            self.pink,
            self.danger,
            self.yellow,
            self.text,
            self.muted,
            self.muted2,
            self.border,
            self.border_lit,
        ]
    }

    /// The colours of the cyberpunk theme, in field order.
    pub open spec fn cyberpunk_colors() -> Seq<Rgba> {
        seq![
            Rgba { r: 8, g: 12, b: 18, a: 255 },
            Rgba { r: 10, g: 14, b: 22, a: 255 },
            Rgba { r: 6, g: 9, b: 15, a: 255 },
            Rgba { r: 14, g: 20, b: 32, a: 255 },
            Rgba { r: 14, g: 28, b: 46, a: 255 },
            Rgba { r: 8, g: 13, b: 22, a: 255 },
            Rgba { r: 12, g: 30, b: 50, a: 255 },
            Rgba { r: 0, g: 255, b: 220, a: 255 },
            Rgba { r: 0, g: 38, b: 33, a: 38 },
            Rgba { r: 0, g: 255, b: 128, a: 255 },
            Rgba { r: 255, g: 60, b: 180, a: 255 },
            Rgba { r: 255, g: 60, b: 60, a: 255 },
            Rgba { r: 255, g: 220, b: 0, a: 255 },
            Rgba { r: 210, g: 230, b: 240, a: 255 },
            Rgba { r: 70, g: 100, b: 130, a: 255 },
            Rgba { r: 40, g: 60, b: 85, a: 255 },
            Rgba { r: 20, g: 35, b: 55, a: 255 },
            Rgba { r: 0, g: 180, b: 160, a: 255 },
        ]
    }

    /// Whether the palette is the cyberpunk theme.
    pub open spec fn is_cyberpunk(self) -> bool {
        self.name@ == "cyberpunk"@ && self.colors() == Self::cyberpunk_colors()
    }

    /// The colours of the dark theme, in field order.
    pub open spec fn dark_colors() -> Seq<Rgba> {
        seq![
            Rgba { r: 13, g: 17, b: 23, a: 255 },
            Rgba { r: 22, g: 27, b: 34, a: 255 },
            Rgba { r: 9, g: 12, b: 17, a: 255 },
            Rgba { r: 33, g: 38, b: 45, a: 255 },
            Rgba { r: 30, g: 37, b: 48, a: 255 },
            Rgba { r: 13, g: 17, b: 23, a: 255 },
            Rgba { r: 33, g: 38, b: 45, a: 255 },
            Rgba { r: 88, g: 166, b: 255, a: 255 },
            Rgba { r: 10, g: 25, b: 50, a: 25 },
            Rgba { r: 63, g: 185, b: 80, a: 255 },
            Rgba { r: 210, g: 106, b: 175, a: 255 },
            Rgba { r: 248, g: 81, b: 73, a: 255 },
            Rgba { r: 230, g: 167, b: 0, a: 255 },
            Rgba { r: 230, g: 237, b: 243, a: 255 },
            Rgba { r: 110, g: 130, b: 155, a: 255 },
            Rgba { r: 60, g: 75, b: 95, a: 255 },
            Rgba { r: 48, g: 54, b: 61, a: 255 },
            Rgba { r: 88, g: 166, b: 255, a: 255 },
        ]
    }

    /// Whether the palette is the dark theme.
    pub open spec fn is_dark(self) -> bool {
        self.name@ == "dark"@ && self.colors() == Self::dark_colors()
    }

    /// The colours of the dracula theme, in field order.
    pub open spec fn dracula_colors() -> Seq<Rgba> {
        seq![
            Rgba { r: 40, g: 42, b: 54, a: 255 },
            Rgba { r: 33, g: 34, b: 44, a: 255 },
            Rgba { r: 30, g: 31, b: 41, a: 255 },
            Rgba { r: 68, g: 71, b: 90, a: 255 },
            Rgba { r: 55, g: 58, b: 72, a: 255 },
            Rgba { r: 40, g: 42, b: 54, a: 255 },
            Rgba { r: 68, g: 71, b: 90, a: 255 },
            Rgba { r: 139, g: 233, b: 253, a: 255 },
            Rgba { r: 20, g: 55, b: 65, a: 40 },
            Rgba { r: 80, g: 250, b: 123, a: 255 },
            Rgba { r: 255, g: 121, b: 198, a: 255 },
            Rgba { r: 255, g: 85, b: 85, a: 255 },
            Rgba { r: 241, g: 250, b: 140, a: 255 },
            Rgba { r: 248, g: 248, b: 242, a: 255 },
            Rgba { r: 180, g: 180, b: 200, a: 255 },
            Rgba { r: 100, g: 100, b: 130, a: 255 },
            Rgba { r: 98, g: 101, b: 120, a: 255 },
            Rgba { r: 139, g: 233, b: 253, a: 255 },
        ]
    }

    /// Whether the palette is the dracula theme.
    pub open spec fn is_dracula(self) -> bool {
        self.name@ == "dracula"@ && self.colors() == Self::dracula_colors()
    }

    /// The colours of the light theme, in field order.
    pub open spec fn light_colors() -> Seq<Rgba> {
        seq![
            Rgba { r: 248, g: 249, b: 250, a: 255 },
            Rgba { r: 241, g: 243, b: 245, a: 255 },
            Rgba { r: 255, g: 255, b: 255, a: 255 },
            Rgba { r: 233, g: 236, b: 239, a: 255 },
            Rgba { r: 222, g: 226, b: 230, a: 255 },
            Rgba { r: 241, g: 243, b: 245, a: 255 },
            Rgba { r: 255, g: 255, b: 255, a: 255 },
            Rgba { r: 12, g: 133, b: 153, a: 255 },
            Rgba { r: 12, g: 133, b: 153, a: 20 },
            Rgba { r: 25, g: 135, b: 84, a: 255 },
            Rgba { r: 214, g: 51, b: 132, a: 255 },
            Rgba { r: 220, g: 53, b: 69, a: 255 },
            Rgba { r: 255, g: 153, b: 0, a: 255 },
            Rgba { r: 33, g: 37, b: 41, a: 255 },
            Rgba { r: 108, g: 117, b: 125, a: 255 },
            Rgba { r: 173, g: 181, b: 189, a: 255 },
            Rgba { r: 206, g: 212, b: 218, a: 255 },
            Rgba { r: 12, g: 133, b: 153, a: 255 },
        ]
    }

    /// Whether the palette is the light theme.
    pub open spec fn is_light(self) -> bool {
        self.name@ == "light"@ && self.colors() == Self::light_colors()
    }

    /// The cyberpunk theme.
    pub fn cyberpunk() -> (r: Self)
        ensures
            r.is_cyberpunk(),
    {
        let p = ThemePalette {
            name: "cyberpunk",
            bg: Rgba { r: 8, g: 12, b: 18, a: 255 },
            sidebar: Rgba { r: 10, g: 14, b: 22, a: 255 },
            panel: Rgba { r: 6, g: 9, b: 15, a: 255 },
            surface: Rgba { r: 14, g: 20, b: 32, a: 255 },
            hover: Rgba { r: 14, g: 28, b: 46, a: 255 },
            tab_bg: Rgba { r: 8, g: 13, b: 22, a: 255 },
            tab_active: Rgba { r: 12, g: 30, b: 50, a: 255 },
            cyan: Rgba { r: 0, g: 255, b: 220, a: 255 },
            cyan_dim: Rgba { r: 0, g: 38, b: 33, a: 38 },
            green: Rgba { r: 0, g: 255, b: 128, a: 255 },
            pink: Rgba { r: 255, g: 60, b: 180, a: 255 },
            danger: Rgba { r: 255, g: 60, b: 60, a: 255 },
            yellow: Rgba { r: 255, g: 220, b: 0, a: 255 },
            text: Rgba { r: 210, g: 230, b: 240, a: 255 },
            muted: Rgba { r: 70, g: 100, b: 130, a: 255 },
            muted2: Rgba { r: 40, g: 60, b: 85, a: 255 },
            border: Rgba { r: 20, g: 35, b: 55, a: 255 },
            border_lit: Rgba { r: 0, g: 180, b: 160, a: 255 },
        };
        assert(p.colors() =~= Self::cyberpunk_colors());
        p
    }

    /// The dark theme.
    pub fn dark() -> (r: Self)
        ensures
            r.is_dark(),
    {
        let p = ThemePalette {
            name: "dark",
            bg: Rgba { r: 13, g: 17, b: 23, a: 255 },
            sidebar: Rgba { r: 22, g: 27, b: 34, a: 255 },
            panel: Rgba { r: 9, g: 12, b: 17, a: 255 },
            surface: Rgba { r: 33, g: 38, b: 45, a: 255 },
            hover: Rgba { r: 30, g: 37, b: 48, a: 255 },
            tab_bg: Rgba { r: 13, g: 17, b: 23, a: 255 },
            tab_active: Rgba { r: 33, g: 38, b: 45, a: 255 },
            cyan: Rgba { r: 88, g: 166, b: 255, a: 255 },
            cyan_dim: Rgba { r: 10, g: 25, b: 50, a: 25 },
            green: Rgba { r: 63, g: 185, b: 80, a: 255 },
            pink: Rgba { r: 210, g: 106, b: 175, a: 255 },
            danger: Rgba { r: 248, g: 81, b: 73, a: 255 },
            yellow: Rgba { r: 230, g: 167, b: 0, a: 255 },
            text: Rgba { r: 230, g: 237, b: 243, a: 255 },
            muted: Rgba { r: 110, g: 130, b: 155, a: 255 },
            muted2: Rgba { r: 60, g: 75, b: 95, a: 255 },
            border: Rgba { r: 48, g: 54, b: 61, a: 255 },
            border_lit: Rgba { r: 88, g: 166, b: 255, a: 255 },
        };
        assert(p.colors() =~= Self::dark_colors());
        p
    }

    /// The dracula theme.
    pub fn dracula() -> (r: Self)
        ensures
            r.is_dracula(),
    {
        let p = ThemePalette {
            name: "dracula",
            bg: Rgba { r: 40, g: 42, b: 54, a: 255 },
            sidebar: Rgba { r: 33, g: 34, b: 44, a: 255 },
            panel: Rgba { r: 30, g: 31, b: 41, a: 255 },
            surface: Rgba { r: 68, g: 71, b: 90, a: 255 },
            hover: Rgba { r: 55, g: 58, b: 72, a: 255 },
            tab_bg: Rgba { r: 40, g: 42, b: 54, a: 255 },
            tab_active: Rgba { r: 68, g: 71, b: 90, a: 255 },
            cyan: Rgba { r: 139, g: 233, b: 253, a: 255 },
            cyan_dim: Rgba { r: 20, g: 55, b: 65, a: 40 },
            green: Rgba { r: 80, g: 250, b: 123, a: 255 },
            pink: Rgba { r: 255, g: 121, b: 198, a: 255 },
            danger: Rgba { r: 255, g: 85, b: 85, a: 255 },
            yellow: Rgba { r: 241, g: 250, b: 140, a: 255 },
            text: Rgba { r: 248, g: 248, b: 242, a: 255 },
            muted: Rgba { r: 180, g: 180, b: 200, a: 255 },
            muted2: Rgba { r: 100, g: 100, b: 130, a: 255 },
            border: Rgba { r: 98, g: 101, b: 120, a: 255 },
            border_lit: Rgba { r: 139, g: 233, b: 253, a: 255 },
        };
        assert(p.colors() =~= Self::dracula_colors());
        p
    }

    /// The light theme.
    pub fn light() -> (r: Self)
        ensures
            r.is_light(),
    {
        let p = ThemePalette {
            name: "light",
            bg: Rgba { r: 248, g: 249, b: 250, a: 255 },
            sidebar: Rgba { r: 241, g: 243, b: 245, a: 255 },
            panel: Rgba { r: 255, g: 255, b: 255, a: 255 },
            surface: Rgba { r: 233, g: 236, b: 239, a: 255 },
            hover: Rgba { r: 222, g: 226, b: 230, a: 255 },
            tab_bg: Rgba { r: 241, g: 243, b: 245, a: 255 },
            tab_active: Rgba { r: 255, g: 255, b: 255, a: 255 },
            cyan: Rgba { r: 12, g: 133, b: 153, a: 255 },
            cyan_dim: Rgba { r: 12, g: 133, b: 153, a: 20 },
            green: Rgba { r: 25, g: 135, b: 84, a: 255 },
            pink: Rgba { r: 214, g: 51, b: 132, a: 255 },
            danger: Rgba { r: 220, g: 53, b: 69, a: 255 },
            yellow: Rgba { r: 255, g: 153, b: 0, a: 255 },
            text: Rgba { r: 33, g: 37, b: 41, a: 255 },
            muted: Rgba { r: 108, g: 117, b: 125, a: 255 },
            muted2: Rgba { r: 173, g: 181, b: 189, a: 255 },
            border: Rgba { r: 206, g: 212, b: 218, a: 255 },
            border_lit: Rgba { r: 12, g: 133, b: 153, a: 255 },
        };
        assert(p.colors() =~= Self::light_colors());
        p
    }

    /// Whether the palette is the theme that `from_name` picks for `name`:
    /// dark, dracula or light by name, cyberpunk for any other name.
    pub open spec fn is_named(self, name: Seq<char>) -> bool {
        if name == "dark"@ {
            self.is_dark()
        } else if name == "dracula"@ {
            self.is_dracula()
        } else if name == "light"@ {
            self.is_light()
        } else {
            self.is_cyberpunk()
        }
    }

    /// The theme called `name`; cyberpunk for an unknown name.
    pub fn from_name(name: &str) -> (r: Self)
        ensures
            r.is_named(name@),
    {
        if str_eq(name, "dark") {
            Self::dark()
        } else if str_eq(name, "dracula") {
            Self::dracula()
        } else if str_eq(name, "light") {
            Self::light()
        } else {
            Self::cyberpunk()
        }
    }

    /// All themes, in the order the settings show them.
    pub fn all() -> (r: [ThemePalette; 4])
        ensures
            r@[0].is_cyberpunk(),
            r@[1].is_dark(),
            r@[2].is_dracula(),
            r@[3].is_light(),
    {
        [Self::cyberpunk(), Self::dark(), Self::dracula(), Self::light()]
    }
}

/// Looking a theme up by its own name gives that theme back.
pub proof fn lemma_from_name_own_name(p: ThemePalette)
    requires
        p.is_cyberpunk() || p.is_dark() || p.is_dracula() || p.is_light(),
    ensures
        p.is_named(p.name@),
{
    reveal_strlit("cyberpunk");
    reveal_strlit("dark");
    reveal_strlit("dracula");
    reveal_strlit("light");
    assert("cyberpunk"@[0] != "dark"@[0]);
    assert("cyberpunk"@[0] != "light"@[0]);
    assert("dark"@[1] != "dracula"@[1]);
    assert("cyberpunk"@.len() != "dracula"@.len());
    assert("dark"@[0] != "light"@[0]);
    assert("dracula"@[0] != "light"@[0]);
}

/// The name shown on a theme's card.
pub open spec fn theme_label_of(name: Seq<char>) -> Seq<char> {
    if name == "dark"@ {
        "◑  Dark"@
    } else if name == "dracula"@ {
        "◈  Dracula"@
    } else if name == "light"@ {
        "☀  Light"@
    } else {
        "⚡  Cyberpunk"@
    }
}

/// The description shown on a theme's card.
pub open spec fn theme_description_of(name: Seq<char>) -> Seq<char> {
    if name == "dark"@ {
        "GitHub-style dark"@
    } else if name == "dracula"@ {
        "Purple & soft tones"@
    } else if name == "light"@ {
        "Clean light mode"@
    } else {
        "Electric neon on void"@
    }
}

/// The name shown on a theme's card.
pub fn theme_label(name: &str) -> (r: &'static str)
    ensures
        r@ == theme_label_of(name@),
{
    if str_eq(name, "dark") {
        "◑  Dark"
    } else if str_eq(name, "dracula") {
        "◈  Dracula"
    } else if str_eq(name, "light") {
        "☀  Light"
    } else {
        "⚡  Cyberpunk"
    }
}

/// The description shown on a theme's card.
pub fn theme_description(name: &str) -> (r: &'static str)
    ensures
        r@ == theme_description_of(name@),
{
    if str_eq(name, "dark") {
        "GitHub-style dark"
    } else if str_eq(name, "dracula") {
        "Purple & soft tones"
    } else if str_eq(name, "light") {
        "Clean light mode"
    } else {
        "Electric neon on void"
    }
}

} // verus!
