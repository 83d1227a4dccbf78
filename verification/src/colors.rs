//! Terminal colours: the default colours, the 16-colour palette, the 6×6×6
//! colour cube and the greyscale ramp of the 256-colour set.
use vstd::prelude::*;

verus! {

/// A terminal cell colour as the emulator reports it.
#[derive(Debug, Clone, Copy, PartialEq, Eq, Structural)]
pub enum TermColor {
    /// The terminal's default foreground or background.
    Default,
    /// An entry of the 256-colour palette.
    Idx(u8),
    /// A direct 24-bit colour.
    Rgb(u8, u8, u8),
}

/// The eight normal colours.
pub open spec fn normal_rgb(i: u8) -> (u8, u8, u8) {
    if i == 0 {
        (0, 0, 0)
    } else if i == 1 {
        (170, 0, 0)
    } else if i == 2 {
        (0, 170, 0)
    } else if i == 3 {
        (170, 85, 0)
    } else if i == 4 {
        (0, 0, 170)
    } else if i == 5 {
        (170, 0, 170)
    } else if i == 6 {
        (0, 170, 170)
    } else {
        (170, 170, 170)
    }
}

/// The eight bright colours.
pub open spec fn bright_rgb(i: u8) -> (u8, u8, u8) {
    if i == 0 {
        (85, 85, 85)
    } else if i == 1 {
        (255, 85, 85)
    } else if i == 2 {
        (85, 255, 85)
    } else if i == 3 {
        (255, 255, 85)
    } else if i == 4 {
        (85, 85, 255)
    } else if i == 5 {
        (255, 85, 255)
    } else if i == 6 {
        (85, 255, 255)
    } else {
        (255, 255, 255)
    }
}

/// The intensity of level `v` (0 to 5) of the colour cube.
pub open spec fn cube_level(v: int) -> int {
    if v == 0 {
        0
    } else {
        55 + v * 40
    }
}

/// The colour of palette entry `idx`; `bold` brightens entries 0 to 7.
pub open spec fn indexed_rgb(idx: u8, bold: bool) -> (u8, u8, u8) {
    if idx < 8 {
        if bold {
            bright_rgb(idx)
        } else {
            normal_rgb(idx)
        }
    } else if idx < 16 {
        bright_rgb((idx - 8) as u8)
    } else if idx < 232 {
        let i = idx - 16;
        (
            cube_level(i / 36) as u8,
            cube_level((i / 6) % 6) as u8,
            cube_level(i % 6) as u8,
        )
    } else {
        let v = 8 + (idx - 232) * 10;
        (v as u8, v as u8, v as u8)
    }
}

/// The colour a cell colour is drawn in.
pub open spec fn term_rgb_of(c: TermColor, is_fg: bool, bold: bool) -> (u8, u8, u8) {
    match c {
        TermColor::Default => if is_fg {
            (204, 204, 204)
        } else {
            (18, 18, 18)
        },
        TermColor::Idx(i) => indexed_rgb(i, bold),
        TermColor::Rgb(r, g, b) => (r, g, b),
    }
}

fn normal(i: u8) -> (r: (u8, u8, u8))
    ensures
        r == normal_rgb(i),
{
    if i == 0 {
        (0, 0, 0)
    } else if i == 1 {
        (170, 0, 0)
    } else if i == 2 {
        (0, 170, 0)
    } else if i == 3 {
        (170, 85, 0)
    } else if i == 4 {
        (0, 0, 170)
    } else if i == 5 {
        (170, 0, 170)
    } else if i == 6 {
        (0, 170, 170)
    } else {
        (170, 170, 170)
    }
}

fn bright(i: u8) -> (r: (u8, u8, u8))
    ensures
        r == bright_rgb(i),
{
    if i == 0 {
        (85, 85, 85)
    } else if i == 1 {
        (255, 85, 85)
    } else if i == 2 {
        (85, 255, 85)
    } else if i == 3 {
        (255, 255, 85)
    } else if i == 4 {
        (85, 85, 255)
    } else if i == 5 {
        (255, 85, 255)
    } else if i == 6 {
        (85, 255, 255)
    } else {
        (255, 255, 255)
    }
}

fn cube(v: u8) -> (r: u8)
    requires
        v < 6,
    ensures
        r == cube_level(v as int),
{
    if v == 0 {
        0
    } else {
        55 + v * 40
    }
}

/// The colour of palette entry `idx`; `bold` brightens entries 0 to 7.
pub fn indexed(idx: u8, bold: bool) -> (r: (u8, u8, u8))
    ensures
        r == indexed_rgb(idx, bold),
{
    if idx < 8 {
        if bold {
            bright(idx)
        } else {
            normal(idx)
        }
    } else if idx < 16 {
        bright(idx - 8)
    } else if idx < 232 {
        let i = idx - 16;
        (cube(i / 36), cube((i / 6) % 6), cube(i % 6))
    } else {
        let v = 8 + (idx - 232) * 10;
        (v, v, v)
    }
}

/// The colour a cell colour is drawn in: light grey text and near-black
/// background by default, palette entries by `indexed`, direct colours as
/// they are.
pub fn term_rgb(c: TermColor, is_fg: bool, bold: bool) -> (r: (u8, u8, u8))
    ensures
        r == term_rgb_of(c, is_fg, bold),
{
    match c {
        TermColor::Default => if is_fg {
            (204, 204, 204)
        } else {
            (18, 18, 18)
        },
        TermColor::Idx(i) => indexed(i, bold),
        TermColor::Rgb(r, g, b) => (r, g, b),
    }
}

/// Bold text in one of the eight normal colours is drawn in the matching
/// bright colour, the same as palette entries 8 to 15; boldness changes no
/// other palette entry.
pub proof fn lemma_bold_brightens(i: u8, bold: bool)
    ensures
        i < 8 ==> indexed_rgb(i, true) == indexed_rgb((i + 8) as u8, bold),
        i >= 8 ==> indexed_rgb(i, true) == indexed_rgb(i, false),
{
}

/// The last 24 palette entries are greys, growing lighter in steps of ten.
pub proof fn lemma_greyscale_ramp(idx: u8)
    requires
        idx >= 232,
    ensures
        indexed_rgb(idx, false).0 == indexed_rgb(idx, false).1 == indexed_rgb(idx, false).2,
        indexed_rgb(idx, false).0 == 8 + (idx - 232) * 10,
{
}

} // verus!
