//! Terminal colours, the single-letter colour masks of the art, and random
//! colouring of numbered mask placeholders.
use vstd::prelude::*;
use crate::chance::random_below;
use crate::text::{chars_of, same_chars, string_from_chars};

verus! {

/// Terminal colors matching the classic single-letter mask codes,
/// plus an RGB variant for truecolor terminals.
#[derive(Clone, Copy, Debug, PartialEq, Eq, Structural)]
pub enum Color {
    Black,
    Red,
    BrightRed,
    Green,
    BrightGreen,
    Yellow,
    BrightYellow,
    Blue,
    BrightBlue,
    Cyan,
    BrightCyan,
    Magenta,
    BrightMagenta,
    White,
    /// 24-bit RGB color for truecolor-capable terminals.
    Rgb(u8, u8, u8),
}

/// Selects the color depth for image-to-ASCII conversion.
#[derive(Clone, Copy, Debug, PartialEq, Eq, Structural)]
pub enum ColorMode {
    /// Quantize to the 14-color terminal palette.
    Palette,
    /// Use full 24-bit RGB colors (requires truecolor terminal).
    TrueColor,
}

/// The colours a terminal backend is asked to show: the dark and light
/// variants of the eight basic colours, and exact RGB.
#[derive(Clone, Copy, Debug, PartialEq, Eq, Structural)]
pub enum TermColor {
    DarkGrey,
    DarkRed,
    Red,
    DarkGreen,
    Green,
    DarkYellow,
    Yellow,
    DarkBlue,
    Blue,
    DarkCyan,
    Cyan,
    DarkMagenta,
    Magenta,
    White,
    Rgb { r: u8, g: u8, b: u8 },
}

/// The colour that a mask letter stands for, if any.
pub open spec fn mask_color(c: char) -> Option<Color> {
    match c {
        'k' => Some(Color::Black),
        'r' => Some(Color::Red),
        'R' => Some(Color::BrightRed),
        'g' => Some(Color::Green),
        'G' => Some(Color::BrightGreen),
        'y' => Some(Color::Yellow),
        'Y' => Some(Color::BrightYellow),
        'b' => Some(Color::Blue),
        'B' => Some(Color::BrightBlue),
        'c' => Some(Color::Cyan),
        'C' => Some(Color::BrightCyan),
        'm' => Some(Color::Magenta),
        'M' => Some(Color::BrightMagenta),
        'W' => Some(Color::White),
        _ => None,
    }
}

/// How a colour is shown on the terminal: black as dark grey, each plain
/// colour as its dark variant, each bright colour as the light one.
pub open spec fn term_color_of(c: Color) -> TermColor {
    match c {
        Color::Black => TermColor::DarkGrey,
        Color::Red => TermColor::DarkRed,
        Color::BrightRed => TermColor::Red,
        Color::Green => TermColor::DarkGreen,
        Color::BrightGreen => TermColor::Green,
        Color::Yellow => TermColor::DarkYellow,
        Color::BrightYellow => TermColor::Yellow,
        Color::Blue => TermColor::DarkBlue,
        Color::BrightBlue => TermColor::Blue,
        Color::Cyan => TermColor::DarkCyan,
        Color::BrightCyan => TermColor::Cyan,
        Color::Magenta => TermColor::DarkMagenta,
        Color::BrightMagenta => TermColor::Magenta,
        Color::White => TermColor::White,
        Color::Rgb(r, g, b) => TermColor::Rgb { r, g, b },
    }
}

impl Color {
    pub fn from_mask_char(c: char) -> (r: Option<Color>)
        ensures
            r == mask_color(c),
    {
        match c {
            'k' => Some(Color::Black),
            'r' => Some(Color::Red),
            'R' => Some(Color::BrightRed),
            'g' => Some(Color::Green),
            'G' => Some(Color::BrightGreen),
            'y' => Some(Color::Yellow),
            'Y' => Some(Color::BrightYellow),
            'b' => Some(Color::Blue),
            'B' => Some(Color::BrightBlue),
            'c' => Some(Color::Cyan),
            'C' => Some(Color::BrightCyan),
            'm' => Some(Color::Magenta),
            'M' => Some(Color::BrightMagenta),
            'W' => Some(Color::White),
            _ => None,
        }
    }

    /// The terminal colour this colour is drawn with.
    pub fn terminal_color(self) -> (t: TermColor)
        ensures
            t == term_color_of(self),
    {
        match self {
            Color::Black => TermColor::DarkGrey,
            Color::Red => TermColor::DarkRed,
            Color::BrightRed => TermColor::Red,
            Color::Green => TermColor::DarkGreen,
            Color::BrightGreen => TermColor::Green,
            Color::Yellow => TermColor::DarkYellow,
            Color::BrightYellow => TermColor::Yellow,
            Color::Blue => TermColor::DarkBlue,
            Color::BrightBlue => TermColor::Blue,
            Color::Cyan => TermColor::DarkCyan,
            Color::BrightCyan => TermColor::Cyan,
            Color::Magenta => TermColor::DarkMagenta,
            Color::BrightMagenta => TermColor::Magenta,
            Color::White => TermColor::White,
            Color::Rgb(r, g, b) => TermColor::Rgb { r, g, b },
        }
    }
}

/// The letter that writes a named colour in a colour mask: the colour's
/// initial (`k` for black), lower case for the plain colour and upper case
/// for the bright one, and `W` for white. RGB colours have no letter.
pub open spec fn mask_letter(c: Color) -> Option<char> {
    match c {
        Color::Black => Some('k'),
        Color::Red => Some('r'),
        Color::BrightRed => Some('R'),
        Color::Green => Some('g'),
        Color::BrightGreen => Some('G'),
        Color::Yellow => Some('y'),
        Color::BrightYellow => Some('Y'),
        Color::Blue => Some('b'),
        Color::BrightBlue => Some('B'),
        Color::Cyan => Some('c'),
        Color::BrightCyan => Some('C'),
        Color::Magenta => Some('m'),
        Color::BrightMagenta => Some('M'),
        Color::White => Some('W'),
        Color::Rgb(_, _, _) => None,
    }
}

/// Each mask letter stands for its own colour: a letter gives a colour
/// exactly when it is that colour's letter, and every named colour is given
/// by its letter; every other character gives no colour.
pub proof fn law_mask_letters_name_their_colours(ch: char, col: Color)
    ensures
        mask_color(ch) == Some(col) <==> mask_letter(col) == Some(ch),
        mask_color(ch) is None <==> (forall|d: Color| #[trigger] mask_letter(d) != Some(ch)),
{
    if mask_color(ch) is None {
        assert forall|d: Color| #[trigger] mask_letter(d) != Some(ch) by {
            match d {
                Color::Rgb(_, _, _) => {},
                _ => {},
            }
        }
    } else {
        let c = mask_color(ch)->0;
        assert(mask_letter(c) == Some(ch));
    }
}

/// The hue of a colour: 0 black, 1 red, 2 green, 3 yellow, 4 blue, 5 cyan,
/// 6 magenta, 7 white, and 8 for an RGB colour.
pub open spec fn color_hue(c: Color) -> int {
    match c {
        Color::Black => 0,
        Color::Red | Color::BrightRed => 1,
        Color::Green | Color::BrightGreen => 2,
        Color::Yellow | Color::BrightYellow => 3,
        Color::Blue | Color::BrightBlue => 4,
        Color::Cyan | Color::BrightCyan => 5,
        Color::Magenta | Color::BrightMagenta => 6,
        Color::White => 7,
        Color::Rgb(_, _, _) => 8,
    }
}

/// Whether a colour is one of the bright variants.
pub open spec fn color_is_bright(c: Color) -> bool {
    match c {
        Color::BrightRed | Color::BrightGreen | Color::BrightYellow | Color::BrightBlue
        | Color::BrightCyan | Color::BrightMagenta => true,
        _ => false,
    }
}

/// The hue of a terminal colour, numbered as `color_hue` numbers them (dark
/// grey counts as black).
pub open spec fn term_hue(t: TermColor) -> int {
    match t {
        TermColor::DarkGrey => 0,
        TermColor::DarkRed | TermColor::Red => 1,
        TermColor::DarkGreen | TermColor::Green => 2,
        TermColor::DarkYellow | TermColor::Yellow => 3,
        TermColor::DarkBlue | TermColor::Blue => 4,
        TermColor::DarkCyan | TermColor::Cyan => 5,
        TermColor::DarkMagenta | TermColor::Magenta => 6,
        TermColor::White => 7,
        TermColor::Rgb { .. } => 8,
    }
}

/// Whether a terminal colour is a dark variant.
pub open spec fn term_is_dark(t: TermColor) -> bool {
    match t {
        TermColor::DarkRed | TermColor::DarkGreen | TermColor::DarkYellow | TermColor::DarkBlue
        | TermColor::DarkCyan | TermColor::DarkMagenta => true,
        _ => false,
    }
}

/// A colour is shown in its own hue: each plain colour as the dark variant
/// of that hue, each bright colour as the light variant, black as dark grey,
/// white as white, and an RGB colour as the same RGB value.
pub proof fn law_colours_keep_their_hue(c: Color)
    ensures
        term_hue(term_color_of(c)) == color_hue(c),
        1 <= color_hue(c) <= 6 ==> (term_is_dark(term_color_of(c)) <==> !color_is_bright(c)),
        c == Color::Black ==> term_color_of(c) == TermColor::DarkGrey,
        c == Color::White ==> term_color_of(c) == TermColor::White,
        forall|r: u8, g: u8, b: u8|
            c == Color::Rgb(r, g, b) ==> term_color_of(c) == (TermColor::Rgb { r, g, b }),
{
}

/// The mask letters that random colouring chooses from.
pub const PALETTE: [char; 12] = ['c', 'C', 'r', 'R', 'y', 'Y', 'b', 'B', 'g', 'G', 'm', 'M'];

/// Whether a character is one of the palette's mask letters.
pub open spec fn in_palette(c: char) -> bool {
    exists|i: int| 0 <= i < 12 && #[trigger] PALETTE@[i] == c
}

/// The colour depth a terminal offers, read from its `COLORTERM` setting:
/// truecolour when the setting is `truecolor` or `24bit`, the palette
/// otherwise, and when it is not set.
pub open spec fn mode_for_colorterm(value: Option<Seq<char>>) -> ColorMode {
    match value {
        Some(v) => if v == seq!['t', 'r', 'u', 'e', 'c', 'o', 'l', 'o', 'r'] || v == seq![
            '2',
            '4',
            'b',
            'i',
            't',
        ] {
            ColorMode::TrueColor
        } else {
            ColorMode::Palette
        },
        None => ColorMode::Palette,
    }
}

/// The colour depth for a terminal whose `COLORTERM` setting has the given
/// value, if it has one.
pub fn color_mode_for(colorterm: Option<&str>) -> (m: ColorMode)
    ensures
        m == mode_for_colorterm(
            (match colorterm {
                Some(v) => Some(v@),
                None => None,
            }),
        ),
{
    match colorterm {
        Some(v) => {
            let chars = chars_of(v);
            let truecolor = vec!['t', 'r', 'u', 'e', 'c', 'o', 'l', 'o', 'r'];
            let bits = vec!['2', '4', 'b', 'i', 't'];
            if same_chars(&chars, &truecolor) || same_chars(&chars, &bits) {
                ColorMode::TrueColor
            } else {
                ColorMode::Palette
            }
        },
        None => ColorMode::Palette,
    }
}

/// Whether a mask character is a numbered colour placeholder (`'1'..='9'`).
pub open spec fn is_color_slot(c: char) -> bool {
    '1' <= c && c <= '9'
}

/// The digit a placeholder stands for.
pub open spec fn slot_digit(c: char) -> int {
    (c as u32 - '0' as u32) as int
}

/// Palette choices for the digits: `picks[d]` is the index into the palette
/// of the colour that placeholder `d` becomes.
pub open spec fn valid_picks(picks: Seq<usize>) -> bool {
    &&& picks.len() == 10
    &&& forall|d: int| 0 <= d < 10 ==> #[trigger] picks[d] < 12
}

/// A mask character after colouring: `'4'` becomes white (`'W'`), any other
/// placeholder `d` becomes palette letter `picks[d]`, everything else stays.
pub open spec fn colored_mask_char(c: char, picks: Seq<usize>) -> char {
    if c == '4' {
        'W'
    } else if is_color_slot(c) {
        PALETTE@[picks[slot_digit(c)] as int]
    } else {
        c
    }
}

/// Colours the numbered placeholders of a mask with the given palette
/// choices, character by character.
pub fn color_mask_with(mask: &str, picks: &Vec<usize>) -> (out: String)
    requires
        valid_picks(picks@),
    ensures
        out@ == Seq::new(mask@.len(), |i: int| colored_mask_char(mask@[i], picks@)),
{
    let chars = chars_of(mask);
    let mut out: Vec<char> = Vec::new();
    let n = chars.len();
    let mut i: usize = 0;
    while i < n
        invariant
            n == chars@.len(),
            chars@ == mask@,
            valid_picks(picks@),
            i <= n,
            out@.len() == i,
            forall|j: int| 0 <= j < i ==> out@[j] == colored_mask_char(chars@[j], picks@),
        decreases n - i,
    {
        let c = chars[i];
        if c == '4' {
            out.push('W');
        } else if '1' <= c && c <= '9' {
            let d = (c as u32 - '0' as u32) as usize;
            out.push(PALETTE[picks[d]]);
        } else {
            out.push(c);
        }
        i = i + 1;
    }
    assert(out@ =~= Seq::new(mask@.len(), |i: int| colored_mask_char(mask@[i], picks@)));
    string_from_chars(&out)
}

/// Randomize numbered placeholders (1-9) in a color mask string.
/// Each number gets a random color from the palette, applied consistently
/// throughout the mask. '4' always maps to White (for eyes).
///
/// A colour is drawn for each placeholder digit (other than `'4'`) at its
/// first occurrence, then the mask is coloured with those choices.
pub fn rand_color(mask: &str) -> (out: String)
    ensures
        exists|picks: Seq<usize>|
            valid_picks(picks) && out@ == Seq::new(
                mask@.len(),
                |i: int| colored_mask_char(mask@[i], picks),
            ),
        out@.len() == mask@.len(),
        forall|i: int| 0 <= i < mask@.len() && !is_color_slot(mask@[i]) ==> out@[i] == mask@[i],
        forall|i: int| 0 <= i < mask@.len() && mask@[i] == '4' ==> out@[i] == 'W',
        forall|i: int|
            0 <= i < mask@.len() && is_color_slot(mask@[i]) && mask@[i] != '4' ==> in_palette(
                out@[i],
            ),
        forall|i: int, j: int|
            0 <= i < mask@.len() && 0 <= j < mask@.len() && is_color_slot(mask@[i]) && mask@[i]
                == mask@[j] ==> out@[i] == out@[j],
{
    let chars = chars_of(mask);
    let mut picks: Vec<usize> = Vec::new();
    let mut drawn: Vec<bool> = Vec::new();
    let mut k: usize = 0;
    while k < 10
        invariant
            k <= 10,
            picks@.len() == k,
            drawn@.len() == k,
            forall|d: int| 0 <= d < k ==> #[trigger] picks@[d] < 12,
        decreases 10 - k,
    {
        picks.push(0);
        drawn.push(false);
        k = k + 1;
    }
    let n = chars.len();
    let mut i: usize = 0;
    while i < n
        invariant
            n == chars@.len(),
            i <= n,
            valid_picks(picks@),
            drawn@.len() == 10,
        decreases n - i,
    {
        let c = chars[i];
        if c != '4' && '1' <= c && c <= '9' {
            let d = (c as u32 - '0' as u32) as usize;
            if !drawn[d] {
                let p = random_below(12);
                picks.set(d, p);
                drawn.set(d, true);
            }
        }
        i = i + 1;
    }
    let out = color_mask_with(mask, &picks);
    proof {
        let ps = picks@;
        assert forall|a: int|
            0 <= a < mask@.len() && is_color_slot(mask@[a]) && mask@[a] != '4' implies in_palette(
            out@[a],
        ) by {
            let idx = ps[slot_digit(mask@[a])] as int;
            assert(PALETTE@[idx] == out@[a]);
        }
    }
    out
}

} // verus!
