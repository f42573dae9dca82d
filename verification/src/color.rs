//! Sand colours and the palette that new sand is drawn from.

use vstd::prelude::*;

verus! {

/// A colour with eight bits per channel.
#[derive(Clone, Copy, Debug, PartialEq, Eq, Structural)]
pub struct Color {
    pub r: u8,
    pub g: u8,
    pub b: u8,
    pub a: u8,
}

/// Whether `c` is one of the characters `0-9`, `a-f`, `A-F`.
pub open spec fn is_hex_digit(c: char) -> bool {
    ||| '0' <= c <= '9'
    ||| 'a' <= c <= 'f'
    ||| 'A' <= c <= 'F'
}

/// The number that the hexadecimal digit `c` stands for.
pub open spec fn hex_digit_value(c: char) -> int
    recommends
        is_hex_digit(c),
{
    if '0' <= c <= '9' {
        c as int - '0' as int
    } else if 'a' <= c <= 'f' {
        c as int - 'a' as int + 10
    } else {
        c as int - 'A' as int + 10
    }
}

/// The byte written by the two hexadecimal digits `hi` and `lo`.
pub open spec fn hex_byte(hi: char, lo: char) -> u8
    recommends
        is_hex_digit(hi),
        is_hex_digit(lo),
{
    (16 * hex_digit_value(hi) + hex_digit_value(lo)) as u8
}

/// Whether `s` is a `#` followed by exactly six hexadecimal digits.
pub open spec fn is_hex6(s: Seq<char>) -> bool {
    &&& s.len() == 7
    &&& s[0] == '#'
    &&& forall|i: int| 1 <= i < 7 ==> is_hex_digit(#[trigger] s[i])
}

/// The opaque colour that the six-digit form `#rrggbb` denotes.
pub open spec fn hex6_color(s: Seq<char>) -> Color
    recommends
        is_hex6(s),
{
    Color { r: hex_byte(s[1], s[2]), g: hex_byte(s[3], s[4]), b: hex_byte(s[5], s[6]), a: 255 }
}

/// Calls `egui::Color32::from_hex` and hands back the four channels of the
/// colour it parsed.
///
/// Trusted: on a `#` followed by six hexadecimal digits the call succeeds, the
/// three digit pairs are the red, green and blue channels, and alpha is 255.
/// Nothing is claimed of any other input, which `requires` leaves out.
#[verifier::external_body]
fn parse_hex6(hex: &str) -> (c: Option<Color>)
    requires
        is_hex6(hex@),
    ensures
        c == Some(hex6_color(hex@)),
{
    egui::Color32::from_hex(hex).ok().map(|c| Color { r: c.r(), g: c.g(), b: c.b(), a: c.a() })
}

impl Color {
    /// Opaque white.
    pub open spec fn spec_white() -> Color {
        Color { r: 255, g: 255, b: 255, a: 255 }
    }

    /// Opaque black.
    pub open spec fn spec_black() -> Color {
        Color { r: 0, g: 0, b: 0, a: 255 }
    }

    /// Opaque white.
    #[verifier::when_used_as_spec(spec_white)]
    pub fn white() -> (c: Color)
        ensures
            c == Color::spec_white(),
    {
        Color { r: 255, g: 255, b: 255, a: 255 }
    }

    /// Opaque black.
    #[verifier::when_used_as_spec(spec_black)]
    pub fn black() -> (c: Color)
        ensures
            c == Color::spec_black(),
    {
        Color { r: 0, g: 0, b: 0, a: 255 }
    }
}

/// The five shades of the sand palette, as a sequence.
pub open spec fn palette() -> Seq<Color> {
    seq![
        Color { r: 0xff, g: 0xe0, b: 0xab, a: 255 },
        Color { r: 0xf3, g: 0xce, b: 0x93, a: 255 },
        Color { r: 0xd6, g: 0xb5, b: 0x88, a: 255 },
        Color { r: 0xff, g: 0xe0, b: 0xab, a: 255 },
        Color { r: 0xda, g: 0xb9, b: 0x84, a: 255 },
    ]
}

/// Parses one palette entry.
fn shade(hex: &str) -> (c: Color)
    requires
        is_hex6(hex@),
    ensures
        c == hex6_color(hex@),
{
    match parse_hex6(hex) {
        Some(c) => c,
        None => Color::black(),
    }
}

/// The sand palette.
pub fn sand_colors() -> (v: Vec<Color>)
    ensures
        v@ == palette(),
{
    proof {
        reveal_strlit("#ffe0ab");
        reveal_strlit("#f3ce93");
        reveal_strlit("#d6b588");
        reveal_strlit("#dab984");
    }
    let mut v: Vec<Color> = Vec::new();
    v.push(shade("#ffe0ab"));
    v.push(shade("#f3ce93"));
    v.push(shade("#d6b588"));
    v.push(shade("#ffe0ab"));
    v.push(shade("#dab984"));
    assert(v@ =~= palette());
    v
}

/// Calls `rand::random::<usize>()`.
///
/// Trusted: nothing. Any number may come back.
#[verifier::external_body]
fn random_number() -> usize {
    rand::random::<usize>()
}

/// A colour of `colors`, picked at random.
pub fn random_color(colors: &Vec<Color>) -> (c: Color)
    requires
        colors.len() > 0,
    ensures
        colors@.contains(c),
{
    pick_color(colors, random_number())
}

/// The palette entry that the number `r` selects: the entry at `r` modulo the
/// palette's length.
pub fn pick_color(colors: &Vec<Color>, r: usize) -> (c: Color)
    requires
        colors.len() > 0,
    ensures
        c == colors@[r as int % colors.len() as int],
{
    colors[r % colors.len()]
}

} // verus!
