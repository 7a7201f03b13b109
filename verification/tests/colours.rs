use termpipe::renderer::colours::Colour;
use termpipe::renderer::palette::{map_to_limited_colours, PaletteColour};

#[test]
fn rgb_is_opaque() {
    let c = Colour::rgb(10, 20, 30);
    assert_eq!((c.r, c.g, c.b, c.a), (10, 20, 30, 0xFF));
}

#[test]
fn rgba_keeps_alpha() {
    let c = Colour::rgba(10, 20, 30, 40);
    assert_eq!((c.r, c.g, c.b, c.a), (10, 20, 30, 40));
}

#[test]
fn hex_parses_three_channels() {
    let c = Colour::hex("ff8000");
    assert_eq!((c.r, c.g, c.b, c.a), (0xff, 0x80, 0x00, 0xFF));
    let upper = Colour::hex("FF8000");
    assert_eq!((upper.r, upper.g, upper.b), (0xff, 0x80, 0x00));
}

#[test]
fn hex_rejects_short_or_malformed_text() {
    assert_eq!(Colour::hex("ff80"), Colour::black());
    assert_eq!(Colour::hex("zz8000"), Colour::black());
    assert_eq!(Colour::hex(""), Colour::black());
}

#[test]
fn hex_alpha_parses_four_channels() {
    let c = Colour::hex_alpha("ff800040");
    assert_eq!((c.r, c.g, c.b, c.a), (0xff, 0x80, 0x00, 0x40));
    assert_eq!(Colour::hex_alpha("ff8000"), Colour::black());
    assert_eq!(Colour::hex_alpha("ff8000zz"), Colour::black());
}

#[test]
fn named_colours_hold_their_values() {
    assert_eq!(Colour::black(), Colour::rgb(0x2e, 0x34, 0x36));
    assert_eq!(Colour::red(), Colour::rgb(0xef, 0x29, 0x29));
    assert_eq!(Colour::dark_purple(), Colour::rgb(0x75, 0x50, 0x7b));
    assert_eq!(Colour::white(), Colour::rgb(0xee, 0xee, 0xec));
}

#[test]
fn palette_maps_exact_colours_to_themselves() {
    assert_eq!(map_to_limited_colours(&Colour::black()), PaletteColour::Black);
    assert_eq!(map_to_limited_colours(&Colour::dark_red()), PaletteColour::DarkRed);
    assert_eq!(map_to_limited_colours(&Colour::cyan()), PaletteColour::Cyan);
    assert_eq!(map_to_limited_colours(&Colour::white()), PaletteColour::White);
}

#[test]
fn palette_maps_to_nearest_colour() {
    // Pitch black is nearest the palette's black entry.
    assert_eq!(map_to_limited_colours(&Colour::rgb(0, 0, 0)), PaletteColour::Black);
    // A saturated pure red sits nearest the bright red entry.
    assert_eq!(map_to_limited_colours(&Colour::rgb(0xff, 0x20, 0x20)), PaletteColour::Red);
    // A light grey lands on the grey entry.
    assert_eq!(map_to_limited_colours(&Colour::rgb(0xd0, 0xd0, 0xd0)), PaletteColour::Grey);
}
