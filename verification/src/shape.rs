//! Frames of ASCII art with per-character colours, parsed from an art string
//! and an optional colour mask, and shapes made of one or more frames.
use vstd::prelude::*;
use crate::color::{Color, mask_color};
use crate::text::{byte_width, chars_of, lines_of, rows_view, split_lines, utf8_len_of};

verus! {

/// A single frame of ASCII art with per-character color information.
#[derive(Clone, Debug)]
pub struct Frame {
    /// Each cell is Some(char) for visible, None for transparent.
    pub cells: Vec<Vec<Option<char>>>,
    /// Per-cell color, same dimensions as cells. None = use entity default_color.
    pub colors: Vec<Vec<Option<Color>>>,
    pub width: u16,
    pub height: u16,
}

/// The mathematical content of a frame.
pub ghost struct FrameSpec {
    pub cells: Seq<Seq<Option<char>>>,
    pub colors: Seq<Seq<Option<Color>>>,
    pub width: u16,
    pub height: u16,
}

impl View for Frame {
    type V = FrameSpec;

    open spec fn view(&self) -> FrameSpec {
        FrameSpec {
            cells: Seq::new(self.cells@.len(), |r: int| self.cells@[r]@),
            colors: Seq::new(self.colors@.len(), |r: int| self.colors@[r]@),
            width: self.width,
            height: self.height,
        }
    }
}

impl Frame {
    /// The frame is a grid of `height` rows of `width` cells, and its colour
    /// grid has the same shape.
    pub open spec fn wf(&self) -> bool {
        &&& self.cells@.len() == self.height
        &&& self.colors@.len() == self.height
        &&& forall|r: int|
            0 <= r < self.height ==> (#[trigger] self.cells@[r])@.len() == self.width
                && self.colors@[r]@.len() == self.width
    }
}

impl FrameSpec {
    /// `height` rows of `width` cells, a colour grid of the same shape, and
    /// a colour only where a character is visible.
    pub open spec fn is_grid(self) -> bool {
        &&& self.cells.len() == self.height
        &&& self.colors.len() == self.height
        &&& forall|r: int|
            0 <= r < self.height ==> (#[trigger] self.cells[r]).len() == self.width
                && self.colors[r].len() == self.width
        &&& forall|r: int, c: int|
            0 <= r < self.height && 0 <= c < self.width && (#[trigger] self.colors[r][c]) is Some
                ==> self.cells[r][c] is Some
    }
}

/// The widest line, counted in UTF-8 bytes as `str::len` counts.
pub open spec fn max_utf8_len(lines: Seq<Seq<char>>) -> nat
    decreases lines.len(),
{
    if lines.len() == 0 {
        0
    } else {
        let rest = max_utf8_len(lines.drop_last());
        let w = byte_width(lines.last());
        if w > rest {
            w
        } else {
            rest
        }
    }
}

/// The cell at column `col` of an art line: its character, unless the
/// column lies past the line's end or holds the transparency character.
pub open spec fn art_cell(line: Seq<char>, col: int, trans: Option<char>) -> Option<char> {
    if 0 <= col < line.len() && trans != Some(line[col]) {
        Some(line[col])
    } else {
        None
    }
}

/// The mask colour given for a position, if the mask reaches it.
pub open spec fn mask_cell(mask_lines: Seq<Seq<char>>, row: int, col: int) -> Option<Color> {
    if 0 <= row < mask_lines.len() && 0 <= col < mask_lines[row].len() {
        mask_color(mask_lines[row][col])
    } else {
        None
    }
}

/// The lines of an optional mask (none when there is no mask).
pub open spec fn mask_lines_of(mask: Option<Seq<char>>) -> Seq<Seq<char>> {
    match mask {
        Some(m) => lines_of(m),
        None => Seq::empty(),
    }
}

/// The frame that an art string and an optional colour mask describe:
/// one row per art line, as many columns as the widest line has bytes,
/// each visible cell coloured by the mask letter at the same place.
pub open spec fn parsed_frame(art: Seq<char>, mask: Option<Seq<char>>, trans: Option<char>) -> FrameSpec {
    let lines = lines_of(art);
    let mlines = mask_lines_of(mask);
    let w = max_utf8_len(lines);
    FrameSpec {
        cells: Seq::new(lines.len(), |r: int| Seq::new(w, |c: int| art_cell(lines[r], c, trans))),
        colors: Seq::new(
            lines.len(),
            |r: int|
                Seq::new(
                    w,
                    |c: int|
                        if art_cell(lines[r], c, trans) is Some {
                            mask_cell(mlines, r, c)
                        } else {
                            None
                        },
                ),
        ),
        width: w as u16,
        height: lines.len() as u16,
    }
}

/// The view of an optional string slice.
pub open spec fn opt_view(s: Option<&str>) -> Option<Seq<char>> {
    match s {
        Some(t) => Some(t@),
        None => None,
    }
}

proof fn lemma_max_utf8_len_step(lines: Seq<Seq<char>>, i: int)
    requires
        0 <= i < lines.len(),
    ensures
        max_utf8_len(lines.take(i + 1)) == if byte_width(lines[i]) > max_utf8_len(lines.take(i)) {
            byte_width(lines[i])
        } else {
            max_utf8_len(lines.take(i))
        },
{
    assert(lines.take(i + 1).drop_last() == lines.take(i));
}

/// The widest of some lines, in UTF-8 bytes.
fn widest_line(lines: &Vec<Vec<char>>) -> (w: usize)
    ensures
        w == max_utf8_len(rows_view(lines@)),
{
    let ghost rows = rows_view(lines@);
    let mut w: usize = 0;
    let mut i: usize = 0;
    while i < lines.len()
        invariant
            i <= lines@.len(),
            rows == rows_view(lines@),
            w == max_utf8_len(rows.take(i as int)),
        decreases lines.len() - i,
    {
        proof {
            lemma_max_utf8_len_step(rows, i as int);
        }
        let l = utf8_len_of(&lines[i]);
        if l > w {
            w = l;
        }
        i = i + 1;
    }
    assert(rows.take(lines.len() as int) == rows);
    w
}

impl Frame {
    /// Parse ASCII art string and optional color mask string into a Frame.
    /// `auto_trans` specifies characters to treat as transparent (typically '?' or ' ').
    pub fn parse(art: &str, mask: Option<&str>, auto_trans: Option<char>) -> (f: Frame)
        ensures
            f@ == parsed_frame(art@, opt_view(mask), auto_trans),
    {
        let art_chars = chars_of(art);
        let art_lines = split_lines(&art_chars);
        let mask_lines: Vec<Vec<char>> = match mask {
            Some(m) => {
                let mc = chars_of(m);
                split_lines(&mc)
            },
            None => Vec::new(),
        };
        let ghost lines = lines_of(art@);
        let ghost mlines = mask_lines_of(opt_view(mask));
        let width = widest_line(&art_lines);
        let height = art_lines.len();
        assert(rows_view(art_lines@) == lines);
        assert(rows_view(mask_lines@) == mlines);

        let mut cells: Vec<Vec<Option<char>>> = Vec::new();
        let mut colors: Vec<Vec<Option<Color>>> = Vec::new();
        let mut row: usize = 0;
        while row < height
            invariant
                height == art_lines@.len(),
                height == lines.len(),
                rows_view(art_lines@) == lines,
                rows_view(mask_lines@) == mlines,
                width == max_utf8_len(lines),
                row <= height,
                cells@.len() == row,
                colors@.len() == row,
                forall|r: int|
                    0 <= r < row ==> (#[trigger] cells@[r])@ == Seq::new(
                        width as nat,
                        |c: int| art_cell(lines[r], c, auto_trans),
                    ),
                forall|r: int|
                    0 <= r < row ==> (#[trigger] colors@[r])@ == Seq::new(
                        width as nat,
                        |c: int|
                            if art_cell(lines[r], c, auto_trans) is Some {
                                mask_cell(mlines, r, c)
                            } else {
                                None
                            },
                    ),
            decreases height - row,
        {
            let line = &art_lines[row];
            assert(line@ == lines[row as int]);
            let mut cell_row: Vec<Option<char>> = Vec::new();
            let mut color_row: Vec<Option<Color>> = Vec::new();
            let mut col: usize = 0;
            while col < width
                invariant
                    line@ == lines[row as int],
                    rows_view(mask_lines@) == mlines,
                    row < mask_lines@.len() ==> mask_lines@[row as int]@ == mlines[row as int],
                    col <= width,
                    cell_row@.len() == col,
                    color_row@.len() == col,
                    forall|c: int|
                        0 <= c < col ==> cell_row@[c] == art_cell(lines[row as int], c, auto_trans),
                    forall|c: int|
                        0 <= c < col ==> color_row@[c] == if art_cell(
                            lines[row as int],
                            c,
                            auto_trans,
                        ) is Some {
                            mask_cell(mlines, row as int, c)
                        } else {
                            None
                        },
                decreases width - col,
            {
                let ch: Option<char> = if col < line.len() {
                    Some(line[col])
                } else {
                    None
                };
                let transparent = match ch {
                    None => true,
                    Some(c) => match auto_trans {
                        Some(t) => c == t,
                        None => false,
                    },
                };
                if transparent {
                    cell_row.push(None);
                    color_row.push(None);
                } else {
                    cell_row.push(ch);
                    let color = if row < mask_lines.len() && col < mask_lines[row].len() {
                        Color::from_mask_char(mask_lines[row][col])
                    } else {
                        None
                    };
                    color_row.push(color);
                }
                col = col + 1;
            }
            assert(cell_row@ == Seq::new(
                width as nat,
                |c: int| art_cell(lines[row as int], c, auto_trans),
            ));
            cells.push(cell_row);
            colors.push(color_row);
            row = row + 1;
        }
        let f = Frame { cells, colors, width: width as u16, height: height as u16 };
        assert(f@.cells =~= parsed_frame(art@, opt_view(mask), auto_trans).cells);
        assert(f@.colors =~= parsed_frame(art@, opt_view(mask), auto_trans).colors);
        f
    }
}

/// A frame parsed from art whose line count and widest line fit in `u16`
/// is a grid: every row as wide as the widest art line, the colour grid of
/// the same shape, and colours only on visible characters.
pub proof fn law_parsed_frame_is_grid(art: Seq<char>, mask: Option<Seq<char>>, trans: Option<char>)
    requires
        lines_of(art).len() <= u16::MAX,
        max_utf8_len(lines_of(art)) <= u16::MAX,
    ensures
        parsed_frame(art, mask, trans).is_grid(),
        parsed_frame(art, mask, trans).width == max_utf8_len(lines_of(art)),
        parsed_frame(art, mask, trans).height == lines_of(art).len(),
{
}

/// A shape is one or more frames for animation.
#[derive(Clone, Debug)]
pub struct Shape {
    pub frames: Vec<Frame>,
}

impl View for Shape {
    type V = Seq<FrameSpec>;

    open spec fn view(&self) -> Seq<FrameSpec> {
        Seq::new(self.frames@.len(), |i: int| self.frames@[i]@)
    }
}

impl Shape {
    pub fn single(art: &str, mask: Option<&str>, auto_trans: Option<char>) -> (s: Shape)
        ensures
            s@ == seq![parsed_frame(art@, opt_view(mask), auto_trans)],
    {
        let f = Frame::parse(art, mask, auto_trans);
        let mut frames = Vec::new();
        frames.push(f);
        let s = Shape { frames };
        assert(s@ =~= seq![parsed_frame(art@, opt_view(mask), auto_trans)]);
        s
    }

    pub fn multi(frames: Vec<(&str, Option<&str>)>, auto_trans: Option<char>) -> (s: Shape)
        ensures
            s@.len() == frames@.len(),
            forall|i: int|
                0 <= i < frames@.len() ==> #[trigger] s@[i] == parsed_frame(
                    frames@[i].0@,
                    opt_view(frames@[i].1),
                    auto_trans,
                ),
    {
        let mut out: Vec<Frame> = Vec::new();
        let mut i: usize = 0;
        while i < frames.len()
            invariant
                i <= frames@.len(),
                out@.len() == i,
                forall|j: int|
                    0 <= j < i ==> #[trigger] out@[j]@ == parsed_frame(
                        frames@[j].0@,
                        opt_view(frames@[j].1),
                        auto_trans,
                    ),
            decreases frames.len() - i,
        {
            let (art, mask) = frames[i];
            out.push(Frame::parse(art, mask, auto_trans));
            i = i + 1;
        }
        Shape { frames: out }
    }
}

} // verus!
