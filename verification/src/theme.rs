//! Color themes.
//!
//! A theme carries a foreground, a background and the 16 ANSI colors. The
//! 256-color cube (16..=231) and the gray ramp (232..=255) are computed.

use vstd::prelude::*;

use crate::cell::{Attrs, Cell, Color};

verus! {

/// An sRGB color.
#[derive(Debug, Clone, Copy, PartialEq, Eq, Structural)]
pub struct Rgb {
    pub r: u8,
    pub g: u8,
    pub b: u8,
}

/// A complete color scheme.
#[derive(Debug, Clone, Copy)]
pub struct Theme {
    pub foreground: Rgb,
    pub background: Rgb,
    /// ANSI colors: 0..=7 are normal, 8..=15 are bright.
    pub palette: [Rgb; 16],
}

fn rgb(r: u8, g: u8, b: u8) -> (c: Rgb)
    ensures
        c == (Rgb { r, g, b }),
{
    Rgb { r, g, b }
}

/// A color from its bytes.
pub open spec fn color(r: u8, g: u8, b: u8) -> Rgb {
    Rgb { r, g, b }
}

/// The ANSI colors of the dark theme.
pub open spec fn dark_palette() -> Seq<Rgb> {
    seq![
        color(0, 0, 0),
        color(205, 49, 49),
        color(13, 188, 121),
        color(229, 229, 16),
        color(36, 114, 200),
        color(188, 63, 188),
        color(17, 168, 205),
        color(229, 229, 229),
        color(102, 102, 102),
        color(241, 76, 76),
        color(35, 209, 139),
        color(245, 245, 67),
        color(59, 142, 234),
        color(214, 112, 214),
        color(41, 184, 219),
        color(229, 229, 229),
    ]
}

/// The ANSI colors of the light theme.
pub open spec fn light_palette() -> Seq<Rgb> {
    seq![
        color(7, 54, 66),
        color(220, 50, 47),
        color(133, 153, 0),
        color(181, 137, 0),
        color(38, 139, 210),
        color(211, 54, 130),
        color(42, 161, 152),
        color(238, 232, 213),
        color(0, 43, 54),
        color(203, 75, 22),
        color(88, 110, 117),
        color(101, 123, 131),
        color(131, 148, 150),
        color(108, 113, 196),
        color(147, 161, 161),
        color(253, 246, 227),
    ]
}

/// One level of the 6x6x6 color cube.
pub open spec fn cube_level(n: int) -> int {
    if n == 0 {
        0
    } else {
        55 + n * 40
    }
}

impl Theme {
    /// Whether this is the dark theme.
    pub open spec fn is_dark(self) -> bool {
        &&& self.foreground == color(204, 204, 204)
        &&& self.background == color(30, 30, 30)
        &&& self.palette@ == dark_palette()
    }

    /// Whether this is the light theme.
    pub open spec fn is_light(self) -> bool {
        &&& self.foreground == color(40, 40, 40)
        &&& self.background == color(253, 246, 227)
        &&& self.palette@ == light_palette()
    }

    /// VS Code Dark+.
    pub fn dark() -> (t: Self)
        ensures
            t.is_dark(),
    {
        let palette: [Rgb; 16] = [
            rgb(0, 0, 0),
            rgb(205, 49, 49),
            rgb(13, 188, 121),
            rgb(229, 229, 16),
            rgb(36, 114, 200),
            rgb(188, 63, 188),
            rgb(17, 168, 205),
            rgb(229, 229, 229),
            rgb(102, 102, 102),
            rgb(241, 76, 76),
            rgb(35, 209, 139),
            rgb(245, 245, 67),
            rgb(59, 142, 234),
            rgb(214, 112, 214),
            rgb(41, 184, 219),
            rgb(229, 229, 229),
        ];
        assert(palette@ =~= dark_palette());
        Theme { foreground: rgb(204, 204, 204), background: rgb(30, 30, 30), palette }
    }

    /// Solarized-like light theme.
    pub fn light() -> (t: Self)
        ensures
            t.is_light(),
    {
        let palette: [Rgb; 16] = [
            rgb(7, 54, 66),
            rgb(220, 50, 47),
            rgb(133, 153, 0),
            rgb(181, 137, 0),
            rgb(38, 139, 210),
            rgb(211, 54, 130),
            rgb(42, 161, 152),
            rgb(238, 232, 213),
            rgb(0, 43, 54),
            rgb(203, 75, 22),
            rgb(88, 110, 117),
            rgb(101, 123, 131),
            rgb(131, 148, 150),
            rgb(108, 113, 196),
            rgb(147, 161, 161),
            rgb(253, 246, 227),
        ];
        assert(palette@ =~= light_palette());
        Theme { foreground: rgb(40, 40, 40), background: rgb(253, 246, 227), palette }
    }

    /// A color of the 256-color table.
    pub open spec fn indexed(self, i: u8) -> Rgb {
        if i < 16 {
            self.palette@[i as int]
        } else if i <= 231 {
            let n = i - 16;
            color(
                cube_level(n / 36) as u8,
                cube_level((n % 36) / 6) as u8,
                cube_level(n % 6) as u8,
            )
        } else {
            let gray = (8 + (i - 232) * 10) as u8;
            color(gray, gray, gray)
        }
    }

    /// The color that a cell's color stands for.
    pub open spec fn resolved(self, c: Color, default: Rgb) -> Rgb {
        match c {
            Color::Default => default,
            Color::Indexed(i) => self.indexed(i),
            Color::Rgb(r, g, b) => color(r, g, b),
        }
    }

    /// Foreground and background of a cell. `None` stands for the surface. A
    /// reversed cell has its colors swapped.
    pub open spec fn colors(self, cell: Cell) -> (Rgb, Option<Rgb>) {
        let fg = self.resolved(cell.fg, self.foreground);
        let bg = match cell.bg {
            Color::Default => None,
            other => Some(self.resolved(other, self.foreground)),
        };
        if cell.attrs.has(Attrs::REVERSE) {
            (
                match bg {
                    Some(c) => c,
                    None => self.background,
                },
                Some(fg),
            )
        } else {
            (fg, bg)
        }
    }

    /// Looks a color of the 256-color table up.
    pub fn indexed_color(&self, i: u8) -> (c: Rgb)
        ensures
            c == self.indexed(i),
    {
        if i < 16 {
            self.palette[i as usize]
        } else if i <= 231 {
            let n: u8 = i - 16;
            rgb(level(n / 36), level((n % 36) / 6), level(n % 6))
        } else {
            let gray: u8 = 8 + (i - 232) * 10;
            rgb(gray, gray, gray)
        }
    }

    /// Looks the color that a cell's color stands for up.
    pub fn resolve_color(&self, c: Color, default: Rgb) -> (r: Rgb)
        ensures
            r == self.resolved(c, default),
    {
        match c {
            Color::Default => default,
            Color::Indexed(i) => self.indexed_color(i),
            Color::Rgb(r, g, b) => rgb(r, g, b),
        }
    }

    /// Foreground and background of a cell.
    pub fn cell_colors(&self, cell: &Cell) -> (r: (Rgb, Option<Rgb>))
        ensures
            r == self.colors(*cell),
    {
        let fg = self.resolve_color(cell.fg, self.foreground);
        let bg = match cell.bg {
            Color::Default => None,
            other => Some(self.resolve_color(other, self.foreground)),
        };
        if cell.attrs.contains(Attrs::REVERSE) {
            let front = match bg {
                Some(c) => c,
                None => self.background,
            };
            (front, Some(fg))
        } else {
            (fg, bg)
        }
    }
}

fn level(n: u8) -> (r: u8)
    requires
        n <= 5,
    ensures
        r == cube_level(n as int),
{
    if n == 0 {
        0
    } else {
        55 + n * 40
    }
}

impl Default for Theme {
    fn default() -> (t: Self)
        ensures
            t.is_dark(),
    {
        Theme::dark()
    }
}

/// A cell with a background of its own, shown reversed and then reversed again,
/// looks as before: reversing swaps the two colors.
pub proof fn reverse_swaps(theme: Theme, cell: Cell, reversed: Cell)
    requires
        reversed == (Cell { attrs: reversed.attrs, ..cell }),
        reversed.attrs.has(Attrs::REVERSE),
        !cell.attrs.has(Attrs::REVERSE),
        theme.colors(cell).1 is Some,
    ensures
        theme.colors(reversed) == (theme.colors(cell).1->0, Some(theme.colors(cell).0)),
{
}

/// The colors from 16 to 231 are a cube: red, green and blue go through six levels
/// each, blue fastest, from 0 over 95 to 255 in steps of 40. Those from 232 on are
/// grays from 8 in steps of 10.
pub proof fn table_is_a_cube_and_a_ramp(theme: Theme, r: int, g: int, b: int, k: int)
    requires
        0 <= r < 6,
        0 <= g < 6,
        0 <= b < 6,
        0 <= k < 24,
    ensures
        ({
            let c = theme.indexed((16 + 36 * r + 6 * g + b) as u8);
            let gray = theme.indexed((232 + k) as u8);
            &&& c.r == if r == 0 {
                0
            } else {
                95 + 40 * (r - 1)
            }
            &&& c.g == if g == 0 {
                0
            } else {
                95 + 40 * (g - 1)
            }
            &&& c.b == if b == 0 {
                0
            } else {
                95 + 40 * (b - 1)
            }
            &&& gray.r == 8 + 10 * k
            &&& gray.g == gray.r
            &&& gray.b == gray.r
        }),
{
    let n = 36 * r + 6 * g + b;
    assert(n / 36 == r && n % 36 == 6 * g + b);
    assert((6 * g + b) / 6 == g && n % 6 == b);
}

/// A color of its own is shown as it is, one of the first sixteen by the palette, and
/// the default by the theme's foreground, or by the surface where it is the
/// background. A reversed cell has the two swapped, the surface's color being the
/// theme's background.
pub proof fn cells_are_shown_in_their_colors(theme: Theme, cell: Cell)
    ensures
        ({
            let (fg, bg) = theme.colors(cell);
            let front = if cell.attrs.has(Attrs::REVERSE) {
                cell.bg
            } else {
                cell.fg
            };
            let back = if cell.attrs.has(Attrs::REVERSE) {
                cell.fg
            } else {
                cell.bg
            };
            &&& match front {
                Color::Rgb(r, g, b) => fg.r == r && fg.g == g && fg.b == b,
                Color::Indexed(i) => fg == theme.indexed(i) && (i < 16 ==> fg
                    == theme.palette@[i as int]),
                Color::Default => fg == if cell.attrs.has(Attrs::REVERSE) {
                    theme.background
                } else {
                    theme.foreground
                },
            }
            &&& match back {
                Color::Rgb(r, g, b) => bg matches Some(c) && c.r == r && c.g == g && c.b == b,
                Color::Indexed(i) => bg == Some(theme.indexed(i)) && (i < 16 ==> bg == Some(
                    theme.palette@[i as int],
                )),
                Color::Default => bg == if cell.attrs.has(Attrs::REVERSE) {
                    Some(theme.foreground)
                } else {
                    None
                },
            }
        }),
{
}

/// That the first eight colors are what they are called: black, red, green, yellow,
/// blue, magenta, cyan and white.
pub open spec fn colors_are_as_called(p: Seq<Rgb>) -> bool {
    &&& p[1].r > p[1].g && p[1].r > p[1].b
    &&& p[2].g > p[2].r && p[2].g > p[2].b
    &&& p[3].r > p[3].b && p[3].g > p[3].b
    &&& p[4].b > p[4].r && p[4].b > p[4].g
    &&& p[5].r > p[5].g && p[5].b > p[5].g
    &&& p[6].g > p[6].r && p[6].b > p[6].r
    &&& p[0].r < p[7].r && p[0].g < p[7].g && p[0].b < p[7].b
}

/// In both themes the colors are what they are called, and the text stands out: light
/// on dark in the dark theme, dark on light in the light one.
pub proof fn themes_are_as_called(theme: Theme)
    ensures
        theme.is_dark() ==> colors_are_as_called(theme.palette@) && colors_are_as_called(
            theme.palette@.skip(8),
        ) && theme.foreground.r > theme.background.r && theme.foreground.g > theme.background.g
            && theme.foreground.b > theme.background.b,
        theme.is_light() ==> colors_are_as_called(theme.palette@) && theme.foreground.r
            < theme.background.r && theme.foreground.g < theme.background.g && theme.foreground.b
            < theme.background.b,
{
}

/// A color as one number, red first: the way it is written in style sheets.
pub open spec fn as_number(c: Rgb) -> int {
    c.r * 65536 + c.g * 256 + c.b
}

/// The colors of the dark theme as they are written in style sheets.
pub open spec fn dark_numbers() -> Seq<int> {
    seq![
        0x000000int,
        0xcd3131int,
        0x0dbc79int,
        0xe5e510int,
        0x2472c8int,
        0xbc3fbcint,
        0x11a8cdint,
        0xe5e5e5int,
        0x666666int,
        0xf14c4cint,
        0x23d18bint,
        0xf5f543int,
        0x3b8eeaint,
        0xd670d6int,
        0x29b8dbint,
        0xe5e5e5int,
    ]
}

/// The colors of the light theme as they are written in style sheets.
pub open spec fn light_numbers() -> Seq<int> {
    seq![
        0x073642int,
        0xdc322fint,
        0x859900int,
        0xb58900int,
        0x268bd2int,
        0xd33682int,
        0x2aa198int,
        0xeee8d5int,
        0x002b36int,
        0xcb4b16int,
        0x586e75int,
        0x657b83int,
        0x839496int,
        0x6c71c4int,
        0x93a1a1int,
        0xfdf6e3int,
    ]
}

/// The built-in themes have the colors that they are known by.
pub proof fn themes_have_their_colors(theme: Theme, i: int)
    requires
        0 <= i < 16,
    ensures
        theme.is_dark() ==> as_number(theme.palette@[i]) == dark_numbers()[i] && as_number(
            theme.foreground,
        ) == 0xcccccc && as_number(theme.background) == 0x1e1e1e,
        theme.is_light() ==> as_number(theme.palette@[i]) == light_numbers()[i] && as_number(
            theme.foreground,
        ) == 0x282828 && as_number(theme.background) == 0xfdf6e3,
{
}

} // verus!
