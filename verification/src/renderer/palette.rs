//! Quantization of arbitrary colours to the sixteen-colour terminal
//! palette.

use vstd::prelude::*;
use crate::renderer::colours::Colour;

verus! {

/// One of the sixteen palette colours a limited terminal offers.
#[derive(Clone, Copy, Debug, PartialEq, Eq, Structural)]
pub enum PaletteColour {
    Black,
    DarkRed,
    DarkGreen,
    DarkYellow,
    DarkBlue,
    DarkMagenta,
    DarkCyan,
    Grey,
    DarkGrey,
    Red,
    Green,
    Yellow,
    Blue,
    Magenta,
    Cyan,
    White,
}

/// The palette: each entry's reference colour and its palette name, in the
/// order ties are broken in.
pub open spec fn palette() -> Seq<(Colour, PaletteColour)> {
    seq![
        (Colour { r: 0x2e, g: 0x34, b: 0x36, a: 0xFF }, PaletteColour::Black),
        (Colour { r: 0xcc, g: 0x00, b: 0x00, a: 0xFF }, PaletteColour::DarkRed),
        (Colour { r: 0x4e, g: 0x9a, b: 0x06, a: 0xFF }, PaletteColour::DarkGreen),
        (Colour { r: 0xc4, g: 0xa0, b: 0x00, a: 0xFF }, PaletteColour::DarkYellow),
        (Colour { r: 0x34, g: 0x65, b: 0xa4, a: 0xFF }, PaletteColour::DarkBlue),
        (Colour { r: 0x75, g: 0x50, b: 0x7b, a: 0xFF }, PaletteColour::DarkMagenta),
        (Colour { r: 0x06, g: 0x98, b: 0x9a, a: 0xFF }, PaletteColour::DarkCyan),
        (Colour { r: 0xd3, g: 0xd7, b: 0xcf, a: 0xFF }, PaletteColour::Grey),
        (Colour { r: 0x55, g: 0x57, b: 0x53, a: 0xFF }, PaletteColour::DarkGrey),
        (Colour { r: 0xef, g: 0x29, b: 0x29, a: 0xFF }, PaletteColour::Red),
        (Colour { r: 0x8a, g: 0xe2, b: 0x34, a: 0xFF }, PaletteColour::Green),
        (Colour { r: 0xfc, g: 0xe9, b: 0x4f, a: 0xFF }, PaletteColour::Yellow),
        (Colour { r: 0x72, g: 0x9f, b: 0xcf, a: 0xFF }, PaletteColour::Blue),
        (Colour { r: 0xad, g: 0x7f, b: 0xa8, a: 0xFF }, PaletteColour::Magenta),
        (Colour { r: 0x34, g: 0xe2, b: 0xe2, a: 0xFF }, PaletteColour::Cyan),
        (Colour { r: 0xee, g: 0xee, b: 0xec, a: 0xFF }, PaletteColour::White),
    ]
}

/// The squared distance between two colours over the red, green and blue
/// channels; alpha plays no part.
pub open spec fn colour_distance(a: Colour, b: Colour) -> int {
    (a.r - b.r) * (a.r - b.r) + (a.g - b.g) * (a.g - b.g) + (a.b - b.b) * (a.b - b.b)
}

/// The squared distance between two colours, on machine integers.
fn colour_distance_exec(a: &Colour, b: &Colour) -> (r: u32)
    ensures
        r == colour_distance(*a, *b),
{
    let dr: u32 = if a.r >= b.r {
        (a.r - b.r) as u32
    } else {
        (b.r - a.r) as u32
    };
    let dg: u32 = if a.g >= b.g {
        (a.g - b.g) as u32
    } else {
        (b.g - a.g) as u32
    };
    let db: u32 = if a.b >= b.b {
        (a.b - b.b) as u32
    } else {
        (b.b - a.b) as u32
    };
    proof {
        assert(dr * dr <= 65025 && (a.r - b.r) * (a.r - b.r) == (dr as int) * (dr as int))
            by (nonlinear_arith)
            requires
                dr <= 255,
                dr == (if a.r as int >= b.r as int {
                    a.r as int - b.r as int
                } else {
                    b.r as int - a.r as int
                }),
        ;
        assert(dg * dg <= 65025 && (a.g - b.g) * (a.g - b.g) == (dg as int) * (dg as int))
            by (nonlinear_arith)
            requires
                dg <= 255,
                dg == (if a.g as int >= b.g as int {
                    a.g as int - b.g as int
                } else {
                    b.g as int - a.g as int
                }),
        ;
        assert(db * db <= 65025 && (a.b - b.b) * (a.b - b.b) == (db as int) * (db as int))
            by (nonlinear_arith)
            requires
                db <= 255,
                db == (if a.b as int >= b.b as int {
                    a.b as int - b.b as int
                } else {
                    b.b as int - a.b as int
                }),
        ;
    }
    dr * dr + dg * dg + db * db
}

/// Map an arbitrary colour to the nearest of the sixteen palette colours by
/// squared channel distance; a tie goes to the entry that comes first in the
/// palette order.
pub fn map_to_limited_colours(original: &Colour) -> (r: PaletteColour)
    ensures
        exists|i: int|
            0 <= i < palette().len() && r == palette()[i].1 && (forall|j: int|
                0 <= j < palette().len() ==> colour_distance(*original, #[trigger] palette()[j].0)
                    >= colour_distance(*original, palette()[i].0)) && (forall|j: int|
                0 <= j < i ==> colour_distance(*original, #[trigger] palette()[j].0)
                    > colour_distance(*original, palette()[i].0)),
{
    let mut entries: Vec<(Colour, PaletteColour)> = Vec::new();
    entries.push((Colour::black(), PaletteColour::Black));
    entries.push((Colour::dark_red(), PaletteColour::DarkRed));
    entries.push((Colour::dark_green(), PaletteColour::DarkGreen));
    entries.push((Colour::dark_yellow(), PaletteColour::DarkYellow));
    entries.push((Colour::dark_blue(), PaletteColour::DarkBlue));
    entries.push((Colour::dark_purple(), PaletteColour::DarkMagenta));
    entries.push((Colour::dark_cyan(), PaletteColour::DarkCyan));
    entries.push((Colour::gray(), PaletteColour::Grey));
    entries.push((Colour::dark_gray(), PaletteColour::DarkGrey));
    entries.push((Colour::red(), PaletteColour::Red));
    entries.push((Colour::green(), PaletteColour::Green));
    entries.push((Colour::yellow(), PaletteColour::Yellow));
    entries.push((Colour::blue(), PaletteColour::Blue));
    entries.push((Colour::purple(), PaletteColour::Magenta));
    entries.push((Colour::cyan(), PaletteColour::Cyan));
    entries.push((Colour::white(), PaletteColour::White));
    proof {
        assert(entries@ =~= palette());
    }
    let mut best_index: usize = 0;
    let mut smallest_distance: u32 = colour_distance_exec(original, &entries[0].0);
    let mut i: usize = 1;
    while i < entries.len()
        invariant
            entries@ == palette(),
            1 <= i <= entries@.len(),
            best_index < i,
            smallest_distance == colour_distance(*original, palette()[best_index as int].0),
            forall|j: int|
                0 <= j < i ==> colour_distance(*original, #[trigger] palette()[j].0)
                    >= smallest_distance,
            forall|j: int|
                0 <= j < best_index ==> colour_distance(*original, #[trigger] palette()[j].0)
                    > smallest_distance,
        decreases entries@.len() - i,
    {
        let d = colour_distance_exec(original, &entries[i].0);
        if d < smallest_distance {
            smallest_distance = d;
            best_index = i;
        }
        i = i + 1;
    }
    entries[best_index].1
}

} // verus!
