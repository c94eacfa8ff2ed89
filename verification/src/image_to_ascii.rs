//! Turning pictures into frames: the colour of a pixel block, the nearest
//! palette colour, and the parsing of the ANSI text that `chafa` prints.
use vstd::prelude::*;
use image::{DynamicImage, GenericImageView, Rgba};
use crate::color::{Color, ColorMode};
use crate::shape::{Frame, FrameSpec, Shape};
use crate::text::{
    chars_of, copy_range, find_char, char_pos, lines_of, rows_view, split_lines, parse_unsigned,
    parse_unsigned_chars,
};

verus! {

/// Characters ordered by visual density (light to heavy).
/// Space is not included — transparent pixels become None in the Frame.
pub const DENSITY_CHARS: [char; 31] = [
    '.', '\'', '`', ',', ':', ';', '!', '|', '/', '\\', '~', '-', '_', '+', '*', '<', '>',
    '=', '?', '^', '"', '(', ')', '{', '}', '[', ']', '#', '%', '&', '@',
];

/// The density character for a brightness step, the heaviest one for
/// steps past the end.
pub fn density_char(idx: usize) -> (c: char)
    ensures
        c == DENSITY_CHARS@[if idx < 30 { idx as int } else { 30 }],
{
    let i = if idx < 30 {
        idx
    } else {
        30
    };
    DENSITY_CHARS[i]
}

/// Configuration for image-to-ASCII conversion.
pub struct ConvertConfig {
    /// Maximum width in terminal columns. If None, uses image width.
    pub max_width: Option<u16>,
    /// Maximum height in terminal rows. If None, uses image height / 2.
    pub max_height: Option<u16>,
    /// Character to use for transparent/alpha pixels. None = transparent in entity.
    pub transparent_threshold: u8,
    /// Whether to use color (if false, everything uses default_color).
    pub color: bool,
    /// Color depth for the conversion output.
    pub color_mode: ColorMode,
}

impl Default for ConvertConfig {
    fn default() -> (c: Self)
        ensures
            c.max_width == Some(40u16),
            c.max_height == Some(20u16),
            c.transparent_threshold == 128,
            c.color,
            c.color_mode == ColorMode::TrueColor,
    {
        ConvertConfig {
            max_width: Some(40),
            max_height: Some(20),
            transparent_threshold: 128,
            color: true,
            color_mode: ColorMode::TrueColor,
        }
    }
}

impl ConvertConfig {
    /// The settings for pictures named on the command line: the defaults,
    /// the terminal's colour depth, and the requested size where one was
    /// given (40 by 20 otherwise).
    pub fn for_images(color_mode: ColorMode, image_size: Option<(u16, u16)>) -> (c: Self)
        ensures
            c.max_width == Some(
                match image_size {
                    Some(wh) => wh.0,
                    None => 40u16,
                },
            ),
            c.max_height == Some(
                match image_size {
                    Some(wh) => wh.1,
                    None => 20u16,
                },
            ),
            c.transparent_threshold == 128,
            c.color,
            c.color_mode == color_mode,
    {
        let base = ConvertConfig::default();
        let (w, h) = match image_size {
            Some(wh) => wh,
            None => (40, 20),
        };
        ConvertConfig { max_width: Some(w), max_height: Some(h), color_mode, ..base }
    }
}

// ---------------------------------------------------------------------------
// Nearest palette colour
// ---------------------------------------------------------------------------

/// The terminal palette with approximate RGB values, in the order in which
/// it is searched.
pub open spec fn term_palette(i: int) -> (Color, int, int, int) {
    if i == 0 {
        (Color::Black, 0, 0, 0)
    } else if i == 1 {
        (Color::Red, 170, 0, 0)
    } else if i == 2 {
        (Color::BrightRed, 255, 85, 85)
    } else if i == 3 {
        (Color::Green, 0, 170, 0)
    } else if i == 4 {
        (Color::BrightGreen, 85, 255, 85)
    } else if i == 5 {
        (Color::Yellow, 170, 170, 0)
    } else if i == 6 {
        (Color::BrightYellow, 255, 255, 85)
    } else if i == 7 {
        (Color::Blue, 0, 0, 170)
    } else if i == 8 {
        (Color::BrightBlue, 85, 85, 255)
    } else if i == 9 {
        (Color::Cyan, 0, 170, 170)
    } else if i == 10 {
        (Color::BrightCyan, 85, 255, 255)
    } else if i == 11 {
        (Color::Magenta, 170, 0, 170)
    } else if i == 12 {
        (Color::BrightMagenta, 255, 85, 255)
    } else {
        (Color::White, 255, 255, 255)
    }
}

/// Squared distance to palette entry `i`, the green channel weighted twice.
pub open spec fn palette_distance(r: u8, g: u8, b: u8, i: int) -> int {
    let e = term_palette(i);
    (r - e.1) * (r - e.1) + 2 * ((g - e.2) * (g - e.2)) + (b - e.3) * (b - e.3)
}

fn palette_entry(i: usize) -> (e: (Color, u8, u8, u8))
    requires
        i < 14,
    ensures
        e.0 == term_palette(i as int).0,
        e.1 == term_palette(i as int).1,
        e.2 == term_palette(i as int).2,
        e.3 == term_palette(i as int).3,
{
    if i == 0 {
        (Color::Black, 0, 0, 0)
    } else if i == 1 {
        (Color::Red, 170, 0, 0)
    } else if i == 2 {
        (Color::BrightRed, 255, 85, 85)
    } else if i == 3 {
        (Color::Green, 0, 170, 0)
    } else if i == 4 {
        (Color::BrightGreen, 85, 255, 85)
    } else if i == 5 {
        (Color::Yellow, 170, 170, 0)
    } else if i == 6 {
        (Color::BrightYellow, 255, 255, 85)
    } else if i == 7 {
        (Color::Blue, 0, 0, 170)
    } else if i == 8 {
        (Color::BrightBlue, 85, 85, 255)
    } else if i == 9 {
        (Color::Cyan, 0, 170, 170)
    } else if i == 10 {
        (Color::BrightCyan, 85, 255, 255)
    } else if i == 11 {
        (Color::Magenta, 170, 0, 170)
    } else if i == 12 {
        (Color::BrightMagenta, 255, 85, 255)
    } else {
        (Color::White, 255, 255, 255)
    }
}

fn square_diff(a: u8, b: u8) -> (s: u64)
    ensures
        s == (a - b) * (a - b),
        s <= 65025,
{
    let d: i32 = a as i32 - b as i32;
    assert(0 <= d * d <= 65025) by (nonlinear_arith)
        requires
            -255 <= d <= 255,
    ;
    (d * d) as u64
}

/// Whether palette entry `k` is the first of the entries nearest to an RGB
/// value.
pub open spec fn first_nearest(r: u8, g: u8, b: u8, k: int) -> bool {
    &&& 0 <= k < 14
    &&& forall|j: int|
        0 <= j < 14 ==> palette_distance(r, g, b, k) <= #[trigger] palette_distance(r, g, b, j)
    &&& forall|j: int| 0 <= j < k ==> palette_distance(r, g, b, k) < #[trigger] palette_distance(r, g, b, j)
}

/// Map an RGB color to the closest terminal color from our 14-color palette.
/// The first of the nearest entries is chosen.
pub fn rgb_to_terminal_color(r: u8, g: u8, b: u8) -> (c: Color)
    ensures
        exists|k: int| first_nearest(r, g, b, k) && c == term_palette(k).0,
        !(c is Rgb),
        forall|d: Color|
            !(d is Rgb) ==> weighted_distance(r, g, b, reference_rgb(c)) <= #[trigger] weighted_distance(
                r,
                g,
                b,
                reference_rgb(d),
            ),
{
    let mut best_color = Color::White;
    let mut best_dist = u64::MAX;
    let mut best_k: Ghost<int> = Ghost(0);
    let mut i: usize = 0;
    while i < 14
        invariant
            i <= 14,
            i == 0 ==> best_dist == u64::MAX,
            i > 0 ==> 0 <= best_k@ < i && best_color == term_palette(best_k@).0 && best_dist
                == palette_distance(r, g, b, best_k@),
            forall|j: int| 0 <= j < i ==> best_dist <= #[trigger] palette_distance(r, g, b, j),
            i > 0 ==> forall|j: int|
                0 <= j < best_k@ ==> best_dist < #[trigger] palette_distance(r, g, b, j),
        decreases 14 - i,
    {
        let (color, pr, pg, pb) = palette_entry(i);
        let dr = square_diff(r, pr);
        let dg = square_diff(g, pg);
        let db = square_diff(b, pb);
        let dist = dr + 2 * dg + db;
        assert(dist == palette_distance(r, g, b, i as int));
        if dist < best_dist {
            best_dist = dist;
            best_color = color;
            best_k = Ghost(i as int);
        }
        i = i + 1;
    }
    assert(first_nearest(r, g, b, best_k@));
    proof {
        law_palette_colour_is_nearest(r, g, b, best_color);
    }
    best_color
}

/// The reference RGB value of each named colour; an RGB colour is its own
/// reference.
pub open spec fn reference_rgb(c: Color) -> (int, int, int) {
    match c {
        Color::Black => (0, 0, 0),
        Color::Red => (170, 0, 0),
        Color::BrightRed => (255, 85, 85),
        Color::Green => (0, 170, 0),
        Color::BrightGreen => (85, 255, 85),
        Color::Yellow => (170, 170, 0),
        Color::BrightYellow => (255, 255, 85),
        Color::Blue => (0, 0, 170),
        Color::BrightBlue => (85, 85, 255),
        Color::Cyan => (0, 170, 170),
        Color::BrightCyan => (85, 255, 255),
        Color::Magenta => (170, 0, 170),
        Color::BrightMagenta => (255, 85, 255),
        Color::White => (255, 255, 255),
        Color::Rgb(r, g, b) => (r as int, g as int, b as int),
    }
}

/// Squared distance from an RGB value to a reference, green weighted twice.
pub open spec fn weighted_distance(r: u8, g: u8, b: u8, e: (int, int, int)) -> int {
    (r - e.0) * (r - e.0) + 2 * ((g - e.1) * (g - e.1)) + (b - e.2) * (b - e.2)
}

/// Where a named colour stands in the searched palette.
spec fn palette_index(c: Color) -> int {
    match c {
        Color::Black => 0,
        Color::Red => 1,
        Color::BrightRed => 2,
        Color::Green => 3,
        Color::BrightGreen => 4,
        Color::Yellow => 5,
        Color::BrightYellow => 6,
        Color::Blue => 7,
        Color::BrightBlue => 8,
        Color::Cyan => 9,
        Color::BrightCyan => 10,
        Color::Magenta => 11,
        Color::BrightMagenta => 12,
        _ => 13,
    }
}

proof fn lemma_palette_is_the_references()
    ensures
        forall|k: int|
            0 <= k < 14 ==> !(#[trigger] term_palette(k).0 is Rgb) && reference_rgb(
                term_palette(k).0,
            ) == (term_palette(k).1, term_palette(k).2, term_palette(k).3),
        forall|d: Color|
            !(d is Rgb) ==> 0 <= #[trigger] palette_index(d) < 14 && term_palette(palette_index(d)).0
                == d,
{
    assert forall|d: Color| !(d is Rgb) implies 0 <= #[trigger] palette_index(d) < 14
        && term_palette(palette_index(d)).0 == d by {
        match d {
            Color::Rgb(_, _, _) => {},
            _ => {},
        }
    }
}

/// The palette colour picked for an RGB value is a named colour whose
/// reference value is nearest to it: no named colour's reference is nearer.
pub proof fn law_palette_colour_is_nearest(r: u8, g: u8, b: u8, c: Color)
    requires
        exists|k: int| first_nearest(r, g, b, k) && c == term_palette(k).0,
    ensures
        !(c is Rgb),
        forall|d: Color|
            !(d is Rgb) ==> weighted_distance(r, g, b, reference_rgb(c)) <= #[trigger] weighted_distance(
                r,
                g,
                b,
                reference_rgb(d),
            ),
{
    lemma_palette_is_the_references();
    let k = choose|k: int| first_nearest(r, g, b, k) && c == term_palette(k).0;
    assert(weighted_distance(r, g, b, reference_rgb(c)) == palette_distance(r, g, b, k));
    assert forall|d: Color| !(d is Rgb) implies weighted_distance(r, g, b, reference_rgb(c))
        <= #[trigger] weighted_distance(r, g, b, reference_rgb(d)) by {
        let j = palette_index(d);
        assert(term_palette(j).0 == d);
        assert(weighted_distance(r, g, b, reference_rgb(d)) == palette_distance(r, g, b, j));
    }
}

/// Each named colour's reference RGB value maps back to that colour.
pub proof fn law_reference_colours_map_back(col: Color, c: Color)
    requires
        !(col is Rgb),
        exists|k: int|
            first_nearest(
                reference_rgb(col).0 as u8,
                reference_rgb(col).1 as u8,
                reference_rgb(col).2 as u8,
                k,
            ) && c == term_palette(k).0,
    ensures
        c == col,
{
    let e = reference_rgb(col);
    assert(0 <= e.0 <= 255 && 0 <= e.1 <= 255 && 0 <= e.2 <= 255) by {
        match col {
            Color::Rgb(_, _, _) => {},
            _ => {},
        }
    }
    let (r, g, b) = (e.0 as u8, e.1 as u8, e.2 as u8);
    law_palette_colour_is_nearest(r, g, b, c);
    assert(weighted_distance(r, g, b, reference_rgb(col)) == 0);
    let f = reference_rgb(c);
    assert(weighted_distance(r, g, b, f) <= 0);
    let dr = r - f.0;
    let dg = g - f.1;
    let db = b - f.2;
    assert(dr * dr >= 0 && dg * dg >= 0 && db * db >= 0) by (nonlinear_arith);
    assert(dr == 0 && dg == 0 && db == 0) by (nonlinear_arith)
        requires
            dr * dr + 2 * (dg * dg) + db * db <= 0,
            dr * dr >= 0,
            dg * dg >= 0,
            db * db >= 0,
    ;
    assert(reference_rgb(c) == reference_rgb(col));
    match c {
        Color::Rgb(_, _, _) => {},
        _ => {},
    }
}

/// Each palette colour's own RGB value maps back to that colour: the
/// palette entry is the only one at distance zero.
pub proof fn law_palette_colors_map_to_themselves(k: int, c: Color)
    requires
        0 <= k < 14,
        exists|j: int|
            first_nearest(
                term_palette(k).1 as u8,
                term_palette(k).2 as u8,
                term_palette(k).3 as u8,
                j,
            ) && c == term_palette(j).0,
    ensures
        c == term_palette(k).0,
{
    let (r, g, b) = (term_palette(k).1 as u8, term_palette(k).2 as u8, term_palette(k).3 as u8);
    let j = choose|j: int| first_nearest(r, g, b, j) && c == term_palette(j).0;
    let ek = term_palette(k);
    assert(0 <= ek.1 <= 255 && 0 <= ek.2 <= 255 && 0 <= ek.3 <= 255);
    assert(r == ek.1 && g == ek.2 && b == ek.3);
    assert(palette_distance(r, g, b, k) == 0);
    assert(palette_distance(r, g, b, j) <= 0);
    let e = term_palette(j);
    let dr = r - e.1;
    let dg = g - e.2;
    let db = b - e.3;
    assert(dr * dr >= 0 && dg * dg >= 0 && db * db >= 0) by (nonlinear_arith);
    assert(dr * dr == 0 && dg * dg == 0 && db * db == 0);
    assert(dr == 0 && dg == 0 && db == 0) by (nonlinear_arith)
        requires
            dr * dr == 0,
            dg * dg == 0,
            db * db == 0,
    ;
}

// ---------------------------------------------------------------------------
// Pixel blocks
// ---------------------------------------------------------------------------

#[verifier::external_type_specification]
#[verifier::external_body]
pub struct ExDynamicImage(DynamicImage);

/// The RGBA value of every pixel of an image, keyed by `(x, y)`.
pub uninterp spec fn image_pixels(img: DynamicImage) -> Map<(u32, u32), (u8, u8, u8, u8)>;

/// The width and height of an image.
pub uninterp spec fn image_size(img: DynamicImage) -> (u32, u32);

/// `GenericImageView::dimensions` of a `DynamicImage`: its width and height,
/// as named by `image_size`.
#[verifier::external_body]
fn image_dimensions(img: &DynamicImage) -> (d: (u32, u32))
    ensures
        d == image_size(*img),
{
    img.dimensions()
}

/// `GenericImageView::get_pixel` of a `DynamicImage`: the pixel at `(x, y)`
/// converted to RGBA, as named by `image_pixels`. It panics outside the
/// image, so the point must lie inside.
#[verifier::external_body]
fn image_pixel(img: &DynamicImage, x: u32, y: u32) -> (p: (u8, u8, u8, u8))
    requires
        x < image_size(*img).0,
        y < image_size(*img).1,
    ensures
        p == image_pixels(*img)[(x, y)],
{
    let Rgba([r, g, b, a]) = img.get_pixel(x, y);
    (r, g, b, a)
}

/// One channel of an RGBA value.
pub open spec fn channel(p: (u8, u8, u8, u8), k: int) -> nat {
    if k == 0 {
        p.0 as nat
    } else if k == 1 {
        p.1 as nat
    } else if k == 2 {
        p.2 as nat
    } else {
        p.3 as nat
    }
}

/// A coordinate clamped to the last pixel of its axis.
pub open spec fn clamp_to(v: int, size: int) -> int {
    if v < size - 1 {
        v
    } else {
        size - 1
    }
}

/// The sampled pixel `dx` columns right of `x` on row `yy`, clamped to the image.
pub open spec fn sampled(img: DynamicImage, x: int, yy: int, dx: int) -> (u8, u8, u8, u8) {
    let (w, h) = image_size(img);
    image_pixels(img)[(clamp_to(x + dx, w as int) as u32, clamp_to(yy, h as int) as u32)]
}

/// Sum of channel `k` over the first `n` sampled pixels of row `yy`.
pub open spec fn row_sum(img: DynamicImage, x: int, yy: int, n: int, k: int) -> nat
    decreases n,
{
    if n <= 0 {
        0
    } else {
        row_sum(img, x, yy, n - 1, k) + channel(sampled(img, x, yy, n - 1), k)
    }
}

/// Sum of channel `k` over the first `n` rows of a `w`-wide block.
pub open spec fn block_sum(img: DynamicImage, x: int, y: int, w: int, n: int, k: int) -> nat
    decreases n,
{
    if n <= 0 {
        0
    } else {
        block_sum(img, x, y, w, n - 1, k) + row_sum(img, x, y + n - 1, w, k)
    }
}

/// The average of channel `k` over a `w` by `h` block, the block clamped to
/// the image (zero for an empty block).
pub open spec fn block_average(img: DynamicImage, x: int, y: int, w: int, h: int, k: int) -> int {
    if w * h == 0 {
        0
    } else {
        block_sum(img, x, y, w, h, k) as int / (w * h)
    }
}

/// The inputs on which sampling a block does not fail: a non-empty block
/// needs a non-empty image, coordinates that do not overflow, and totals
/// that fit in 64 bits.
pub open spec fn block_in_range(img: DynamicImage, x: u32, y: u32, w: u32, h: u32) -> bool {
    w > 0 && h > 0 ==> {
        &&& image_size(img).0 > 0
        &&& image_size(img).1 > 0
        &&& x + w - 1 <= u32::MAX
        &&& y + h - 1 <= u32::MAX
        &&& w * h * 255 <= u64::MAX
    }
}

proof fn lemma_row_sum_bound(img: DynamicImage, x: int, yy: int, n: int, k: int)
    requires
        n >= 0,
    ensures
        row_sum(img, x, yy, n, k) <= 255 * n,
    decreases n,
{
    if n > 0 {
        lemma_row_sum_bound(img, x, yy, n - 1, k);
    }
}

proof fn lemma_block_sum_bound(img: DynamicImage, x: int, y: int, w: int, n: int, k: int)
    requires
        n >= 0,
        w >= 0,
    ensures
        block_sum(img, x, y, w, n, k) <= 255 * (w * n),
    decreases n,
{
    if n > 0 {
        lemma_block_sum_bound(img, x, y, w, n - 1, k);
        lemma_row_sum_bound(img, x, y + n - 1, w, k);
        assert(255 * (w * (n - 1)) + 255 * w == 255 * (w * n)) by (nonlinear_arith);
    }
}

proof fn lemma_uniform_row_sum(
    img: DynamicImage,
    x: int,
    yy: int,
    n: int,
    k: int,
    p: (u8, u8, u8, u8),
)
    requires
        n >= 0,
        forall|dx: int| 0 <= dx < n ==> #[trigger] sampled(img, x, yy, dx) == p,
    ensures
        row_sum(img, x, yy, n, k) == n * channel(p, k),
    decreases n,
{
    if n > 0 {
        lemma_uniform_row_sum(img, x, yy, n - 1, k, p);
        assert(sampled(img, x, yy, n - 1) == p);
        assert((n - 1) * channel(p, k) + channel(p, k) == n * channel(p, k)) by (nonlinear_arith);
    } else {
        assert(n * channel(p, k) == 0) by (nonlinear_arith)
            requires
                n == 0,
        ;
    }
}

proof fn lemma_uniform_block_sum(
    img: DynamicImage,
    x: int,
    y: int,
    w: int,
    n: int,
    k: int,
    p: (u8, u8, u8, u8),
)
    requires
        n >= 0,
        w >= 0,
        forall|yy: int, dx: int|
            y <= yy < y + n && 0 <= dx < w ==> #[trigger] sampled(img, x, yy, dx) == p,
    ensures
        block_sum(img, x, y, w, n, k) == n * (w * channel(p, k)),
    decreases n,
{
    if n > 0 {
        lemma_uniform_block_sum(img, x, y, w, n - 1, k, p);
        assert forall|dx: int| 0 <= dx < w implies #[trigger] sampled(img, x, y + n - 1, dx) == p by {
            assert(y <= y + n - 1 < y + n);
        }
        lemma_uniform_row_sum(img, x, y + n - 1, w, k, p);
        assert((n - 1) * (w * channel(p, k)) + w * channel(p, k) == n * (w * channel(p, k)))
            by (nonlinear_arith);
    } else {
        assert(n * (w * channel(p, k)) == 0) by (nonlinear_arith)
            requires
                n == 0,
        ;
    }
}

/// A block whose sampled pixels all equal `p` averages to `p`, channel by
/// channel: a solid picture keeps its colour and its transparency.
pub proof fn law_uniform_block_keeps_its_colour(
    img: DynamicImage,
    x: int,
    y: int,
    w: int,
    h: int,
    p: (u8, u8, u8, u8),
    k: int,
)
    requires
        w > 0,
        h > 0,
        forall|yy: int, dx: int|
            y <= yy < y + h && 0 <= dx < w ==> #[trigger] sampled(img, x, yy, dx) == p,
    ensures
        block_average(img, x, y, w, h, k) == channel(p, k),
{
    lemma_uniform_block_sum(img, x, y, w, h, k, p);
    let c = channel(p, k) as int;
    assert(h * (w * c) == (w * h) * c) by (nonlinear_arith);
    assert(w * h > 0) by (nonlinear_arith)
        requires
            w > 0,
            h > 0,
    ;
    assert(((w * h) * c) / (w * h) == c) by (nonlinear_arith)
        requires
            w * h > 0,
    ;
}

/// Sample a block of pixels and return the average RGBA values.
pub fn sample_block(img: &DynamicImage, x: u32, y: u32, w: u32, h: u32) -> (avg: (u8, u8, u8, u8))
    requires
        block_in_range(*img, x, y, w, h),
    ensures
        avg.0 == block_average(*img, x as int, y as int, w as int, h as int, 0),
        avg.1 == block_average(*img, x as int, y as int, w as int, h as int, 1),
        avg.2 == block_average(*img, x as int, y as int, w as int, h as int, 2),
        avg.3 == block_average(*img, x as int, y as int, w as int, h as int, 3),
{
    let (img_w, img_h) = image_dimensions(img);
    let ghost g = *img;
    let mut total_r: u64 = 0;
    let mut total_g: u64 = 0;
    let mut total_b: u64 = 0;
    let mut total_a: u64 = 0;
    let mut count: u64 = 0;
    let mut dy: u32 = 0;
    while dy < h
        invariant
            g == *img,
            (img_w, img_h) == image_size(g),
            block_in_range(g, x, y, w, h),
            dy <= h,
            w > 0 ==> count == w * dy,
            w == 0 ==> count == 0,
            total_r == block_sum(g, x as int, y as int, w as int, dy as int, 0),
            total_g == block_sum(g, x as int, y as int, w as int, dy as int, 1),
            total_b == block_sum(g, x as int, y as int, w as int, dy as int, 2),
            total_a == block_sum(g, x as int, y as int, w as int, dy as int, 3),
        decreases h - dy,
    {
        proof {
            assert(w * dy + w <= w * h) by (nonlinear_arith)
                requires
                    dy < h,
            ;
        }
        let mut dx: u32 = 0;
        while dx < w
            invariant
                g == *img,
                (img_w, img_h) == image_size(g),
                block_in_range(g, x, y, w, h),
                dy < h,
                dx <= w,
                count == w * dy + dx,
                w * dy + w <= w * h,
                total_r == block_sum(g, x as int, y as int, w as int, dy as int, 0) + row_sum(
                    g,
                    x as int,
                    y + dy,
                    dx as int,
                    0,
                ),
                total_g == block_sum(g, x as int, y as int, w as int, dy as int, 1) + row_sum(
                    g,
                    x as int,
                    y + dy,
                    dx as int,
                    1,
                ),
                total_b == block_sum(g, x as int, y as int, w as int, dy as int, 2) + row_sum(
                    g,
                    x as int,
                    y + dy,
                    dx as int,
                    2,
                ),
                total_a == block_sum(g, x as int, y as int, w as int, dy as int, 3) + row_sum(
                    g,
                    x as int,
                    y + dy,
                    dx as int,
                    3,
                ),
            decreases w - dx,
        {
            proof {
                assert(w * h * 255 <= u64::MAX);
                assert((w * dy + dx + 1) * 255 <= w * h * 255) by (nonlinear_arith)
                    requires
                        w * dy + w <= w * h,
                        dx < w,
                ;
                assert forall|k: int| 0 <= k < 4 implies block_sum(
                    g,
                    x as int,
                    y as int,
                    w as int,
                    dy as int,
                    k,
                ) + row_sum(g, x as int, y + dy, dx as int, k) <= 255 * (w * dy + dx) by {
                    lemma_block_sum_bound(g, x as int, y as int, w as int, dy as int, k);
                    lemma_row_sum_bound(g, x as int, y + dy, dx as int, k);
                    assert(255 * (w * dy) + 255 * dx == 255 * (w * dy + dx)) by (nonlinear_arith);
                }
            }
            let cx = x + dx;
            let cy = y + dy;
            let px = if cx < img_w - 1 {
                cx
            } else {
                img_w - 1
            };
            let py = if cy < img_h - 1 {
                cy
            } else {
                img_h - 1
            };
            let (r, gg, b, a) = image_pixel(img, px, py);
            assert((r, gg, b, a) == sampled(g, x as int, y + dy, dx as int));
            total_r = total_r + r as u64;
            total_g = total_g + gg as u64;
            total_b = total_b + b as u64;
            total_a = total_a + a as u64;
            count = count + 1;
            dx = dx + 1;
        }
        dy = dy + 1;
        proof {
            assert(w * (dy - 1) + w == w * dy) by (nonlinear_arith);
        }
    }
    if count == 0 {
        assert(w * h == 0) by (nonlinear_arith)
            requires
                (w > 0 ==> count == w * h),
                (w == 0 ==> count == 0),
                count == 0,
        ;
        return (0, 0, 0, 0);
    }
    proof {
        assert(count == w * h);
        assert forall|k: int| 0 <= k < 4 implies block_sum(
            g,
            x as int,
            y as int,
            w as int,
            h as int,
            k,
        ) as int / (w * h) <= 255 by {
            lemma_block_sum_bound(g, x as int, y as int, w as int, h as int, k);
            let s = block_sum(g, x as int, y as int, w as int, h as int, k) as int;
            let c = w * h;
            assert(s / c <= 255) by (nonlinear_arith)
                requires
                    s <= 255 * c,
                    c > 0,
                    s >= 0,
            ;
        }
    }
    ((total_r / count) as u8, (total_g / count) as u8, (total_b / count) as u8, (total_a
        / count) as u8)
}

/// Samples a block when that cannot fail: `None` where the block needs
/// pixels of an empty image, its coordinates overflow, or its totals would
/// not fit in 64 bits; otherwise the block's average, as `sample_block`
/// gives it.
pub fn sample_block_checked(img: &DynamicImage, x: u32, y: u32, w: u32, h: u32) -> (r: Option<
    (u8, u8, u8, u8),
>)
    ensures
        r is Some <==> block_in_range(*img, x, y, w, h),
        r matches Some(avg) ==> {
            &&& avg.0 == block_average(*img, x as int, y as int, w as int, h as int, 0)
            &&& avg.1 == block_average(*img, x as int, y as int, w as int, h as int, 1)
            &&& avg.2 == block_average(*img, x as int, y as int, w as int, h as int, 2)
            &&& avg.3 == block_average(*img, x as int, y as int, w as int, h as int, 3)
        },
{
    let (img_w, img_h) = image_dimensions(img);
    if w > 0 && h > 0 {
        let ww = w as u128;
        let hh = h as u128;
        assert(ww * hh * 255 <= 0xffff_ffff * 0xffff_ffff * 255) by (nonlinear_arith)
            requires
                ww <= 0xffff_ffff,
                hh <= 0xffff_ffff,
        ;
        let total = ww * hh * 255;
        let fits = img_w > 0 && img_h > 0 && (x as u64) + (w as u64) - 1 <= u32::MAX as u64
            && (y as u64) + (h as u64) - 1 <= u32::MAX as u64 && total <= u64::MAX as u128;
        if !fits {
            return None;
        }
    }
    Some(sample_block(img, x, y, w, h))
}

// ---------------------------------------------------------------------------
// chafa output
// ---------------------------------------------------------------------------

/// Whether a character is an ASCII letter.
pub open spec fn is_ascii_letter(c: char) -> bool {
    ('a' <= c && c <= 'z') || ('A' <= c && c <= 'Z')
}

/// The index of the final byte (the first ASCII letter) of an escape
/// sequence whose parameters start at `j`, or the text's length.
pub open spec fn csi_end(s: Seq<char>, j: int) -> int
    decreases s.len() - j,
{
    if j >= s.len() || j < 0 {
        s.len() as int
    } else if is_ascii_letter(s[j]) {
        j
    } else {
        csi_end(s, j + 1)
    }
}

pub proof fn lemma_csi_end_bounds(s: Seq<char>, j: int)
    requires
        0 <= j <= s.len(),
    ensures
        j <= csi_end(s, j) <= s.len(),
        csi_end(s, j) < s.len() ==> is_ascii_letter(s[csi_end(s, j)]),
    decreases s.len() - j,
{
    if j < s.len() && !is_ascii_letter(s[j]) {
        lemma_csi_end_bounds(s, j + 1);
    }
}

/// The colour that the parameters `R;G;B` (after `38;2;`) give: the text up
/// to the next two `;` and the rest, each an integer that fits in a byte.
pub open spec fn rgb_params(rest: Seq<char>) -> Option<Color> {
    let k1 = char_pos(rest, ';');
    if k1 >= rest.len() {
        None
    } else {
        let after = rest.skip(k1 + 1 as int);
        let k2 = char_pos(after, ';');
        if k2 >= after.len() {
            None
        } else {
            match (
                parse_unsigned(rest.take(k1 as int), 255),
                parse_unsigned(after.take(k2 as int), 255),
                parse_unsigned(after.skip(k2 + 1 as int), 255),
            ) {
                (Some(r), Some(g), Some(b)) => Some(Color::Rgb(r as u8, g as u8, b as u8)),
                _ => None,
            }
        }
    }
}

/// The prefix of the truecolour foreground parameters.
pub open spec fn truecolor_prefix() -> Seq<char> {
    seq!['3', '8', ';', '2', ';']
}

/// The colour in force after an SGR sequence with the given parameters:
/// `0` or nothing resets it; `38;2;R;G;B` sets it when well-formed;
/// anything else leaves it.
pub open spec fn sgr_color(params: Seq<char>, cur: Option<Color>) -> Option<Color> {
    if params.len() == 0 || params == seq!['0'] {
        None
    } else if params.len() >= 5 && params.take(5) == truecolor_prefix() {
        match rgb_params(params.skip(5)) {
            Some(c) => Some(c),
            None => cur,
        }
    } else {
        cur
    }
}

/// Cells and colours of a line of chafa output from position `i` on, with
/// colour `cur` in force: escape sequences are consumed (SGR ones update the
/// colour), spaces are transparent, other characters take the colour.
pub open spec fn chafa_parse(s: Seq<char>, i: int, cur: Option<Color>) -> (
    Seq<Option<char>>,
    Seq<Option<Color>>,
)
    decreases s.len() - i,
{
    if i < 0 || i >= s.len() {
        (Seq::empty(), Seq::empty())
    } else if s[i] == '\x1b' && i + 1 < s.len() && s[i + 1] == '[' {
        let end = csi_end(s, i + 2);
        if end < s.len() {
            proof {
                lemma_csi_end_bounds(s, i + 2);
            }
            let next = if s[end] == 'm' {
                sgr_color(s.subrange(i + 2, end), cur)
            } else {
                cur
            };
            chafa_parse(s, end + 1, next)
        } else {
            chafa_parse(s, i + 1, cur)
        }
    } else if s[i] == ' ' {
        let rest = chafa_parse(s, i + 1, cur);
        (seq![None] + rest.0, seq![None] + rest.1)
    } else {
        let rest = chafa_parse(s, i + 1, cur);
        (seq![Some(s[i])] + rest.0, seq![cur] + rest.1)
    }
}

fn rgb_params_of(rest: &[char]) -> (c: Option<Color>)
    ensures
        c == rgb_params(rest@),
{
    let k1 = find_char(rest, ';');
    if k1 >= rest.len() {
        return None;
    }
    let after = copy_range(rest, k1 + 1, rest.len());
    assert(after@ == rest@.skip(k1 + 1));
    let k2 = find_char(after.as_slice(), ';');
    if k2 >= after.len() {
        return None;
    }
    let a = copy_range(rest, 0, k1);
    let b = copy_range(after.as_slice(), 0, k2);
    let c = copy_range(after.as_slice(), k2 + 1, after.len());
    assert(a@ == rest@.take(k1 as int));
    assert(b@ == after@.take(k2 as int));
    assert(c@ == after@.skip(k2 + 1));
    let pr = parse_unsigned_chars(a.as_slice(), 255);
    let pg = parse_unsigned_chars(b.as_slice(), 255);
    let pb = parse_unsigned_chars(c.as_slice(), 255);
    match (pr, pg, pb) {
        (Some(r), Some(g), Some(b)) => Some(Color::Rgb(r as u8, g as u8, b as u8)),
        _ => None,
    }
}

fn sgr_color_of(params: &Vec<char>, cur: Option<Color>) -> (c: Option<Color>)
    ensures
        c == sgr_color(params@, cur),
{
    let n = params.len();
    if n == 0 || (n == 1 && params[0] == '0') {
        assert(n == 1 ==> params@ == seq!['0']);
        return None;
    }
    assert(params@ != seq!['0']);
    if n >= 5 && params[0] == '3' && params[1] == '8' && params[2] == ';' && params[3] == '2'
        && params[4] == ';' {
        assert(params@.take(5) == truecolor_prefix());
        let rest = copy_range(params.as_slice(), 5, n);
        assert(rest@ == params@.skip(5));
        match rgb_params_of(rest.as_slice()) {
            Some(c) => Some(c),
            None => cur,
        }
    } else {
        assert(n >= 5 ==> params@.take(5) != truecolor_prefix()) by {
            if n >= 5 && params@.take(5) == truecolor_prefix() {
                assert(params@[0] == params@.take(5)[0]);
                assert(params@[1] == params@.take(5)[1]);
                assert(params@[2] == params@.take(5)[2]);
                assert(params@[3] == params@.take(5)[3]);
                assert(params@[4] == params@.take(5)[4]);
            }
        }
        cur
    }
}

/// Parses one line of chafa output given as characters.
pub fn parse_chafa_chars(chars: &Vec<char>) -> (res: (Vec<Option<char>>, Vec<Option<Color>>))
    ensures
        res.0@ == chafa_parse(chars@, 0, None).0,
        res.1@ == chafa_parse(chars@, 0, None).1,
{
    let ghost s = chars@;
    let mut cell_row: Vec<Option<char>> = Vec::new();
    let mut color_row: Vec<Option<Color>> = Vec::new();
    let mut current_color: Option<Color> = None;
    let len = chars.len();
    let mut i: usize = 0;
    while i < len
        invariant
            s == chars@,
            len == s.len(),
            i <= len,
            cell_row@ + chafa_parse(s, i as int, current_color).0 == chafa_parse(s, 0, None).0,
            color_row@ + chafa_parse(s, i as int, current_color).1 == chafa_parse(s, 0, None).1,
        decreases len - i,
    {
        if chars[i] == '\x1b' && i + 1 < len && chars[i + 1] == '[' {
            let start = i + 2;
            let mut end = start;
            proof {
                lemma_csi_end_bounds(s, start as int);
            }
            while end < len && !(('a' <= chars[end] && chars[end] <= 'z') || ('A' <= chars[end]
                && chars[end] <= 'Z'))
                invariant
                    s == chars@,
                    len == s.len(),
                    start <= end <= len,
                    csi_end(s, end as int) == csi_end(s, start as int),
                decreases len - end,
            {
                end = end + 1;
            }
            assert(csi_end(s, end as int) == end);
            if end < len {
                let params = copy_range(chars.as_slice(), start, end);
                if chars[end] == 'm' {
                    current_color = sgr_color_of(&params, current_color);
                }
                i = end + 1;
            } else {
                i = i + 1;
            }
        } else {
            let ch = chars[i];
            let ghost rest = chafa_parse(s, i + 1, current_color);
            if ch == ' ' {
                cell_row.push(None);
                color_row.push(None);
                assert(chafa_parse(s, i as int, current_color).0 == seq![None] + rest.0);
            } else {
                cell_row.push(Some(ch));
                color_row.push(current_color);
                assert(chafa_parse(s, i as int, current_color).0 == seq![Some(ch)] + rest.0);
            }
            i = i + 1;
        }
    }
    (cell_row, color_row)
}

/// Parse a single line of chafa ANSI output into cells and colors.
///
/// Handles escape sequences:
/// - `\x1b[38;2;R;G;Bm` — set foreground to RGB
/// - `\x1b[0m` — reset color
/// - `\x1b[...m` — other SGR sequences (ignored but consumed)
pub fn parse_chafa_line(line: &str) -> (res: (Vec<Option<char>>, Vec<Option<Color>>))
    ensures
        res.0@ == chafa_parse(line@, 0, None).0,
        res.1@ == chafa_parse(line@, 0, None).1,
{
    let chars = chars_of(line);
    parse_chafa_chars(&chars)
}

/// Cells and colours of each line, as chafa_parse gives them.
pub open spec fn chafa_rows(lines: Seq<Seq<char>>) -> Seq<Seq<Option<char>>> {
    Seq::new(lines.len(), |r: int| chafa_parse(lines[r], 0, None).0)
}

/// The longest of some rows.
pub open spec fn max_row_len<T>(rows: Seq<Seq<T>>) -> nat
    decreases rows.len(),
{
    if rows.len() == 0 {
        0
    } else {
        let rest = max_row_len(rows.drop_last());
        if rows.last().len() > rest {
            rows.last().len()
        } else {
            rest
        }
    }
}

/// A row padded with transparent cells to width `w`.
pub open spec fn pad_row<T>(row: Seq<Option<T>>, w: nat) -> Seq<Option<T>> {
    Seq::new(w, |c: int| if c < row.len() { row[c] } else { None })
}

/// The frame of a chafa picture: one row per line, every row padded to the
/// widest line.
pub open spec fn chafa_frame(text: Seq<char>) -> FrameSpec {
    let lines = lines_of(text);
    let w = max_row_len(chafa_rows(lines));
    FrameSpec {
        cells: Seq::new(lines.len(), |r: int| pad_row(chafa_parse(lines[r], 0, None).0, w)),
        colors: Seq::new(lines.len(), |r: int| pad_row(chafa_parse(lines[r], 0, None).1, w)),
        width: w as u16,
        height: lines.len() as u16,
    }
}

proof fn lemma_chafa_lens(s: Seq<char>, i: int, cur: Option<Color>)
    ensures
        chafa_parse(s, i, cur).0.len() == chafa_parse(s, i, cur).1.len(),
        chafa_parse(s, i, cur).0.len() <= s.len(),
    decreases s.len() - i,
{
    if 0 <= i < s.len() {
        if s[i] == '\x1b' && i + 1 < s.len() && s[i + 1] == '[' {
            let end = csi_end(s, i + 2);
            lemma_csi_end_bounds(s, i + 2);
            if end < s.len() {
                let next = if s[end] == 'm' {
                    sgr_color(s.subrange(i + 2, end), cur)
                } else {
                    cur
                };
                lemma_chafa_lens(s, end + 1, next);
            } else {
                lemma_chafa_lens(s, i + 1, cur);
            }
        } else {
            lemma_chafa_lens(s, i + 1, cur);
            lemma_chafa_tail_len(s, i + 1, cur);
        }
    }
}

proof fn lemma_chafa_tail_len(s: Seq<char>, i: int, cur: Option<Color>)
    requires
        i >= 1,
    ensures
        chafa_parse(s, i, cur).0.len() <= s.len() - i || i > s.len(),
    decreases s.len() - i,
{
    if 0 <= i < s.len() {
        if s[i] == '\x1b' && i + 1 < s.len() && s[i + 1] == '[' {
            let end = csi_end(s, i + 2);
            lemma_csi_end_bounds(s, i + 2);
            if end < s.len() {
                let next = if s[end] == 'm' {
                    sgr_color(s.subrange(i + 2, end), cur)
                } else {
                    cur
                };
                lemma_chafa_tail_len(s, end + 1, next);
            } else {
                lemma_chafa_tail_len(s, i + 1, cur);
            }
        } else {
            lemma_chafa_tail_len(s, i + 1, cur);
        }
    }
}

fn pad_cells(row: &mut Vec<Option<char>>, w: usize)
    requires
        old(row)@.len() <= w,
    ensures
        final(row)@ == pad_row(old(row)@, w as nat),
{
    let ghost orig = old(row)@;
    while row.len() < w
        invariant
            orig.len() <= row@.len() <= w,
            forall|c: int| 0 <= c < row@.len() ==> row@[c] == if c < orig.len() {
                orig[c]
            } else {
                None
            },
        decreases w - row.len(),
    {
        row.push(None);
    }
    assert(row@ =~= pad_row(orig, w as nat));
}

fn pad_colors(row: &mut Vec<Option<Color>>, w: usize)
    requires
        old(row)@.len() <= w,
    ensures
        final(row)@ == pad_row(old(row)@, w as nat),
{
    let ghost orig = old(row)@;
    while row.len() < w
        invariant
            orig.len() <= row@.len() <= w,
            forall|c: int| 0 <= c < row@.len() ==> row@[c] == if c < orig.len() {
                orig[c]
            } else {
                None
            },
        decreases w - row.len(),
    {
        row.push(None);
    }
    assert(row@ =~= pad_row(orig, w as nat));
}

proof fn lemma_max_row_len_step<T>(rows: Seq<Seq<T>>, i: int)
    requires
        0 <= i < rows.len(),
    ensures
        max_row_len(rows.take(i + 1)) == if rows[i].len() > max_row_len(rows.take(i)) {
            rows[i].len()
        } else {
            max_row_len(rows.take(i))
        },
{
    assert(rows.take(i + 1).drop_last() == rows.take(i));
}

proof fn lemma_max_row_len_ge<T>(rows: Seq<Seq<T>>, i: int)
    requires
        0 <= i < rows.len(),
    ensures
        rows[i].len() <= max_row_len(rows),
    decreases rows.len(),
{
    if i < rows.len() - 1 {
        lemma_max_row_len_ge(rows.drop_last(), i);
    }
}

proof fn lemma_chafa_cells(s: Seq<char>, i: int, cur: Option<Color>)
    ensures
        forall|k: int|
            0 <= k < chafa_parse(s, i, cur).0.len() ==> #[trigger] chafa_parse(s, i, cur).0[k]
                != Some(' ') && (chafa_parse(s, i, cur).0[k] is None ==> chafa_parse(
                s,
                i,
                cur,
            ).1[k] is None),
    decreases s.len() - i,
{
    if 0 <= i < s.len() {
        if s[i] == '\x1b' && i + 1 < s.len() && s[i + 1] == '[' {
            let end = csi_end(s, i + 2);
            lemma_csi_end_bounds(s, i + 2);
            if end < s.len() {
                let next = if s[end] == 'm' {
                    sgr_color(s.subrange(i + 2, end), cur)
                } else {
                    cur
                };
                lemma_chafa_cells(s, end + 1, next);
            } else {
                lemma_chafa_cells(s, i + 1, cur);
            }
        } else {
            lemma_chafa_cells(s, i + 1, cur);
            lemma_chafa_lens(s, i + 1, cur);
            let rest = chafa_parse(s, i + 1, cur);
            let here = chafa_parse(s, i, cur);
            assert forall|k: int| 0 <= k < here.0.len() implies #[trigger] here.0[k] != Some(' ')
                && (here.0[k] is None ==> here.1[k] is None) by {
                if k > 0 {
                    assert(here.0[k] == rest.0[k - 1]);
                    assert(here.1[k] == rest.1[k - 1]);
                }
            }
        }
    }
}

/// A chafa picture whose size fits in `u16` is a grid with colours only on
/// visible characters, and none of its visible characters is a space:
/// spaces, and the padding of short lines, are transparent.
pub proof fn law_chafa_spaces_are_transparent(text: Seq<char>)
    requires
        lines_of(text).len() <= u16::MAX,
        max_row_len(chafa_rows(lines_of(text))) <= u16::MAX,
    ensures
        chafa_frame(text).is_grid(),
        forall|r: int, c: int|
            0 <= r < chafa_frame(text).height && 0 <= c < chafa_frame(text).width
                ==> #[trigger] chafa_frame(text).cells[r][c] != Some(' '),
{
    let lines = lines_of(text);
    let rows = chafa_rows(lines);
    let w = max_row_len(rows);
    let f = chafa_frame(text);
    assert forall|r: int, c: int|
        0 <= r < f.height && 0 <= c < f.width implies #[trigger] f.cells[r][c] != Some(' ') && (
        f.colors[r][c] is Some ==> f.cells[r][c] is Some) by {
        lemma_chafa_lens(lines[r], 0, None);
        lemma_chafa_cells(lines[r], 0, None);
        let p = chafa_parse(lines[r], 0, None);
        if c < p.0.len() {
            assert(f.cells[r][c] == p.0[c]);
            assert(f.colors[r][c] == p.1[c]);
        }
    }
}

/// Parse chafa's ANSI output into a Shape.
///
/// Chafa emits truecolor foreground sequences of the form `\x1b[38;2;R;G;Bm`
/// followed by characters. Space characters are treated as transparent (None).
/// A reset sequence `\x1b[0m` clears the current color.
pub fn parse_chafa_output(ansi_text: &str) -> (s: Shape)
    ensures
        s@ == seq![chafa_frame(ansi_text@)],
{
    let text = chars_of(ansi_text);
    let lines = split_lines(&text);
    let ghost ls = lines_of(ansi_text@);
    let ghost rows = chafa_rows(ls);
    let mut cells: Vec<Vec<Option<char>>> = Vec::new();
    let mut colors: Vec<Vec<Option<Color>>> = Vec::new();
    let mut max_width: usize = 0;
    let mut i: usize = 0;
    while i < lines.len()
        invariant
            rows_view(lines@) == ls,
            rows == chafa_rows(ls),
            i <= lines@.len(),
            cells@.len() == i,
            colors@.len() == i,
            max_width == max_row_len(rows.take(i as int)),
            forall|r: int| 0 <= r < i ==> (#[trigger] cells@[r])@ == chafa_parse(ls[r], 0, None).0,
            forall|r: int| 0 <= r < i ==> (#[trigger] colors@[r])@ == chafa_parse(ls[r], 0, None).1,
        decreases lines.len() - i,
    {
        assert(lines@[i as int]@ == ls[i as int]);
        let (cell_row, color_row) = parse_chafa_chars(&lines[i]);
        proof {
            lemma_max_row_len_step(rows, i as int);
        }
        if cell_row.len() > max_width {
            max_width = cell_row.len();
        }
        cells.push(cell_row);
        colors.push(color_row);
        i = i + 1;
    }
    assert(rows.take(lines.len() as int) == rows);
    let n = cells.len();
    let mut padded_cells: Vec<Vec<Option<char>>> = Vec::new();
    let mut padded_colors: Vec<Vec<Option<Color>>> = Vec::new();
    let mut r: usize = 0;
    while r < n
        invariant
            n == cells@.len(),
            n == colors@.len(),
            n == ls.len(),
            rows == chafa_rows(ls),
            max_width == max_row_len(rows),
            forall|k: int| 0 <= k < n ==> (#[trigger] cells@[k])@ == chafa_parse(ls[k], 0, None).0,
            forall|k: int| 0 <= k < n ==> (#[trigger] colors@[k])@ == chafa_parse(ls[k], 0, None).1,
            r <= n,
            padded_cells@.len() == r,
            padded_colors@.len() == r,
            forall|k: int|
                0 <= k < r ==> (#[trigger] padded_cells@[k])@ == pad_row(
                    chafa_parse(ls[k], 0, None).0,
                    max_width as nat,
                ),
            forall|k: int|
                0 <= k < r ==> (#[trigger] padded_colors@[k])@ == pad_row(
                    chafa_parse(ls[k], 0, None).1,
                    max_width as nat,
                ),
        decreases n - r,
    {
        proof {
            lemma_max_row_len_ge(rows, r as int);
            lemma_chafa_lens(ls[r as int], 0, None);
            assert(rows[r as int] == chafa_parse(ls[r as int], 0, None).0);
        }
        let mut row = cells[r].clone();
        pad_cells(&mut row, max_width);
        let mut crow = colors[r].clone();
        pad_colors(&mut crow, max_width);
        padded_cells.push(row);
        padded_colors.push(crow);
        r = r + 1;
    }
    let frame = Frame {
        cells: padded_cells,
        colors: padded_colors,
        width: max_width as u16,
        height: n as u16,
    };
    let mut frames: Vec<Frame> = Vec::new();
    frames.push(frame);
    let s = Shape { frames };
    assert(s@[0].cells =~= chafa_frame(ansi_text@).cells);
    assert(s@[0].colors =~= chafa_frame(ansi_text@).colors);
    assert(s@ =~= seq![chafa_frame(ansi_text@)]);
    s
}

} // verus!
