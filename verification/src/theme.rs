//! The colours of the list, and how a configuration names them.

use crate::tree::BaseEntry;
use vstd::prelude::*;
use vstd::string::*;

verus! {

/// A colour by its red, green and blue parts.
#[derive(Clone, Copy, Debug, PartialEq, Eq, Structural)]
pub struct RGBColor {
    pub r: u8,
    pub g: u8,
    pub b: u8,
}

/// The number that a hexadecimal digit stands for.
pub open spec fn hex_digit(c: char) -> Option<u8> {
    if '0' <= c <= '9' {
        Some((c as u32 - '0' as u32) as u8)
    } else if 'a' <= c <= 'f' {
        Some((c as u32 - 'a' as u32 + 10) as u8)
    } else if 'A' <= c <= 'F' {
        Some((c as u32 - 'A' as u32 + 10) as u8)
    } else {
        None
    }
}

/// The number that two characters stand for: two hexadecimal digits, or a
/// plus sign and one hexadecimal digit.
pub open spec fn hex_pair(high: char, low: char) -> Option<u8> {
    match (hex_digit(high), hex_digit(low)) {
        (Some(h), Some(l)) => Some((16 * h + l) as u8),
        (None, Some(l)) => if high == '+' {
            Some(l)
        } else {
            None
        },
        _ => None,
    }
}

/// The colour that `text` names: `#` and three pairs for red, green and blue.
pub open spec fn parse_color(text: Seq<char>) -> Option<RGBColor> {
    if text.len() == 7 && text[0] == '#' {
        match (hex_pair(text[1], text[2]), hex_pair(text[3], text[4]), hex_pair(text[5], text[6])) {
            (Some(r), Some(g), Some(b)) => Some(RGBColor { r, g, b }),
            _ => None,
        }
    } else {
        None
    }
}

/// The number that the hexadecimal digit `c` stands for.
pub fn digit_value(c: char) -> (value: Option<u8>)
    ensures
        value == hex_digit(c),
        value matches Some(v) ==> v < 16,
{
    let n = c as u32;
    if 48 <= n && n <= 57 {
        Some((n - 48) as u8)
    } else if 97 <= n && n <= 102 {
        Some((n - 87) as u8)
    } else if 65 <= n && n <= 70 {
        Some((n - 55) as u8)
    } else {
        None
    }
}

/// The number that the two characters `high` and `low` stand for.
pub fn pair_value(high: char, low: char) -> (value: Option<u8>)
    ensures
        value == hex_pair(high, low),
{
    match digit_value(low) {
        None => None,
        Some(l) => match digit_value(high) {
            Some(h) => Some(16 * h + l),
            None => if high == '+' {
                Some(l)
            } else {
                None
            },
        },
    }
}

impl RGBColor {
    /// The colour that `text` names, if it names one.
    pub fn parse(text: &str) -> (color: Option<RGBColor>)
        ensures
            color == parse_color(text@),
    {
        if text.unicode_len() != 7 || text.get_char(0) != '#' {
            return None;
        }
        let r = pair_value(text.get_char(1), text.get_char(2));
        let g = pair_value(text.get_char(3), text.get_char(4));
        let b = pair_value(text.get_char(5), text.get_char(6));
        match (r, g, b) {
            (Some(r), Some(g), Some(b)) => Some(RGBColor { r, g, b }),
            _ => None,
        }
    }
}

/// The colours of the list.
#[derive(Clone, Copy, Debug, PartialEq, Eq, Structural)]
pub struct UiStyle {
    pub background: RGBColor,
    pub foreground: RGBColor,
    pub highlight_accent: RGBColor,
    pub highlight: RGBColor,
    pub accent: RGBColor,
    pub faded: RGBColor,
}

/// The colour that a configuration asks for in the place of `base`: `base`
/// where it names none, and no colour where the name is no colour.
pub open spec fn chosen_color(base: RGBColor, text: Option<Seq<char>>) -> Option<RGBColor> {
    match text {
        None => Some(base),
        Some(t) => parse_color(t),
    }
}

impl UiStyle {
    /// The colours of a configuration that names none.
    pub open spec fn standard() -> UiStyle {
        UiStyle {
            background: RGBColor { r: 0x12, g: 0x12, b: 0x12 },
            foreground: RGBColor { r: 0xce, g: 0xc0, b: 0xaf },
            highlight_accent: RGBColor { r: 0xbf, g: 0x66, b: 0x01 },
            highlight: RGBColor { r: 0x19, g: 0x15, b: 0x11 },
            accent: RGBColor { r: 0x66, g: 0x37, b: 0x02 },
            faded: RGBColor { r: 0x22, g: 0x22, b: 0x22 },
        }
    }

    /// The standard colours with those that a configuration names in their
    /// place; nothing where one of the names is no colour.
    pub open spec fn themed_spec(
        background: Option<Seq<char>>,
        foreground: Option<Seq<char>>,
        highlight_accent: Option<Seq<char>>,
        highlight: Option<Seq<char>>,
        accent: Option<Seq<char>>,
        faded: Option<Seq<char>>,
    ) -> Option<UiStyle> {
        let base = UiStyle::standard();
        match (
            chosen_color(base.background, background),
            chosen_color(base.foreground, foreground),
            chosen_color(base.highlight_accent, highlight_accent),
            chosen_color(base.highlight, highlight),
            chosen_color(base.accent, accent),
            chosen_color(base.faded, faded),
        ) {
            (Some(bg), Some(fg), Some(ha), Some(hl), Some(ac), Some(fa)) => Some(
                UiStyle {
                    background: bg,
                    foreground: fg,
                    highlight_accent: ha,
                    highlight: hl,
                    accent: ac,
                    faded: fa,
                },
            ),
            _ => None,
        }
    }

    /// The colours of the configuration with the global section `global`.
    pub fn themed(global: &BaseEntry) -> (style: Option<UiStyle>)
        ensures
            style == UiStyle::themed_spec(
                global.background.deep_view(),
                global.foreground.deep_view(),
                global.highlight_accent.deep_view(),
                global.highlight.deep_view(),
                global.accent.deep_view(),
                global.faded.deep_view(),
            ),
    {
        let base = UiStyle::default();
        let background = choose_color(base.background, &global.background);
        let foreground = choose_color(base.foreground, &global.foreground);
        let highlight_accent = choose_color(base.highlight_accent, &global.highlight_accent);
        let highlight = choose_color(base.highlight, &global.highlight);
        let accent = choose_color(base.accent, &global.accent);
        let faded = choose_color(base.faded, &global.faded);
        match (background, foreground, highlight_accent, highlight, accent, faded) {
            (Some(bg), Some(fg), Some(ha), Some(hl), Some(ac), Some(fa)) => Some(
                UiStyle {
                    background: bg,
                    foreground: fg,
                    highlight_accent: ha,
                    highlight: hl,
                    accent: ac,
                    faded: fa,
                },
            ),
            _ => None,
        }
    }
}

/// The colour that a configuration asks for in the place of `base`.
pub fn choose_color(base: RGBColor, text: &Option<String>) -> (color: Option<RGBColor>)
    ensures
        color == chosen_color(base, text.deep_view()),
{
    match text {
        None => Some(base),
        Some(t) => RGBColor::parse(t.as_str()),
    }
}

impl Default for UiStyle {
    fn default() -> (style: UiStyle)
        ensures
            style == UiStyle::standard(),
    {
        UiStyle {
            background: RGBColor { r: 0x12, g: 0x12, b: 0x12 },
            foreground: RGBColor { r: 0xce, g: 0xc0, b: 0xaf },
            highlight_accent: RGBColor { r: 0xbf, g: 0x66, b: 0x01 },
            highlight: RGBColor { r: 0x19, g: 0x15, b: 0x11 },
            accent: RGBColor { r: 0x66, g: 0x37, b: 0x02 },
            faded: RGBColor { r: 0x22, g: 0x22, b: 0x22 },
        }
    }
}

} // verus!
