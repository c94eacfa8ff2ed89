//! Scenery: the water lines, the castle and the seaweed.
use vstd::prelude::*;
use crate::shape::{Frame, Shape, parsed_frame};
use crate::text::{
    chars_of, lemma_lines_single, lemma_lines_step, lines_of, rows_view, split_lines,
    string_from_chars,
};

verus! {

// ---------------------------------------------------------------------------
// Water lines
// ---------------------------------------------------------------------------

pub const WATER_LINE_ART: &'static str = "\
~~~~~~~~~~~~~~~~~~~~~~~~~~~~~~~~~
^^^^ ^^^  ^^^   ^^^    ^^^^
^^^^      ^^^^     ^^^    ^^
^^      ^^^^      ^^^    ^^^^^^  ";

pub const CASTLE_ART_1: &'static str = "\
   >~]#[                  ]#[~~>
      ||                   ||
     /^^\\                 /^^\\                 /^^\\
     |  |                / ** \\                |  |
     |  |               / *{}* \\               |  |
     |  |             / * <||> * \\             |  |
 _   _   _   _   _ / *            * \\  _   _   _   _   _
[ ]_[ ]_[ ]_[ ]_[ ]_| *   <**>   * |  _[ ]_[ ]_[ ]_[ ]_[]
|_=-_=_-_=|=-_=_=-| *               * |=-_=_-=|_=-_=_=-_|
| _- =    | =_=_=-|  * *    **    * * |-_=_=  | _- =    |
|= -{ }   | -=_=-_|   * *  **  * *    |-=_=-  | -={ }   |
| =_      | =- =-_|  * *  <||>  * *   |=- -=  | =_      |
|= -{ }   | _=_=-_|   * *  **  * *    |-=_=-  | _={ }   |
| =_      | =- =-_|  *               *|=- -=  | =_      |
|= -{ }   | _=_=-_| -    /^^^^\\    -  |-=_=-  | -={ }   |
| =_      | =- =-_|  = * |####| * =   |=- -=  | =_      |
| = -     | _=_=-_|  = * |#  #| * =   |-=_=-  | =-      |
|- =_     | =- =-_|  =   |#  #|   =   |=- -=  |- =_     |
|_________|_______| _____|    |_______|_______|_________|";

pub const CASTLE_MASK_1: &'static str = "\
   RRRYR                  YRYRRR
      RR                   RR
     CccC                 CccC                 CccC
     c  c                C MM C                c  c
     c  c               C MYYM C               c  c
     c  c             C M YRRY M C             c  c
 c   c   c   c   c C M            M C  c   c   c   c   c
CcCcCcCcCcCcCcCcCcCcC M   RMMR   M C  cCcCcCcCcCcCcCcCcCC
cc c c c cc     c  C M               M C  c    cc c c c cc
c         c      cC  M M    MM    M M C       c         c
c   YY    c      cC   M M  MM  M M    C       c   YY    c
c         c      cC  M M  YRRY  M M   C       c         c
c   YY    c      cC   M M  MM  M M    C       c   YY    c
c         c      cC  M               MC       c         c
c   YY    c      cC       CccccC      C       c   YY    c
c         c      cC    Y yrrry Y      C       c         c
c         c      cC    Y yr  ry Y     C       c         c
c         c      cC      yr  ry       C       c         c
ccccccccccccccccccCcccccY    Yccccccc Ccccccccccccccccccc";

pub const CASTLE_ART_2: &'static str = "\
    >]#[                  ]#[~>
      ||                   ||
     /^^\\                 /^^\\                 /^^\\
     |  |                / ** \\                |  |
     |  |               / *{}* \\               |  |
     |  |             / * <||> * \\             |  |
 _   _   _   _   _ / *            * \\  _   _   _   _   _
[ ]_[ ]_[ ]_[ ]_[ ]_| *   <**>   * |  _[ ]_[ ]_[ ]_[ ]_[]
|_=-_=_-_=|=-_=_=-| *               * |=-_=_-=|_=-_=_=-_|
| _- =    | =_=_=-|  * *    **    * * |-_=_=  | _- =    |
|= -{ }   | -=_=-_|   * *  **  * *    |-=_=-  | -={ }   |
| =_      | =- =-_|  * *  <||>  * *   |=- -=  | =_      |
|= -{ }   | _=_=-_|   * *  **  * *    |-=_=-  | _={ }   |
| =_      | =- =-_|  *               *|=- -=  | =_      |
|= -{ }   | _=_=-_| -    /^^^^\\    -  |-=_=-  | -={ }   |
| =_      | =- =-_|  = * |####| * =   |=- -=  | =_      |
| = -     | _=_=-_|  = * |#  #| * =   |-=_=-  | =-      |
|- =_     | =- =-_|  =   |#  #|   =   |=- -=  |- =_     |
|_________|_______| _____|    |_______|_______|_________|";

pub const CASTLE_MASK_2: &'static str = "\
    RRYR                  YRYRR
      RR                   RR
     CccC                 CccC                 CccC
     c  c                C mm C                c  c
     c  c               C mYYm C               c  c
     c  c             C m YRRY m C             c  c
 c   c   c   c   c C m            m C  c   c   c   c   c
CcCcCcCcCcCcCcCcCcCcC m   RmmR   m C  cCcCcCcCcCcCcCcCcCC
cc c c c cc     c  C m               m C  c    cc c c c cc
c         c      cC  m m    mm    m m C       c         c
c   yy    c      cC   m m  mm  m m    C       c   yy    c
c         c      cC  m m  YRRY  m m   C       c         c
c   yy    c      cC   m m  mm  m m    C       c   yy    c
c         c      cC  m               mC       c         c
c   yy    c      cC       CccccC      C       c   yy    c
c         c      cC    Y yrrry Y      C       c         c
c         c      cC    Y yr  ry Y     C       c         c
c         c      cC      yr  ry       C       c         c
ccccccccccccccccccCcccccY    Yccccccc Ccccccccccccccccccc";

/// The four lines of the water art.
pub open spec fn water_art_lines() -> Seq<Seq<char>> {
    seq![
        seq!['~', '~', '~', '~', '~', '~', '~', '~', '~', '~', '~', '~', '~', '~', '~', '~', '~', '~', '~', '~', '~', '~', '~', '~', '~', '~', '~', '~', '~', '~', '~', '~', '~'],
        seq!['^', '^', '^', '^', ' ', '^', '^', '^', ' ', ' ', '^', '^', '^', ' ', ' ', ' ', '^', '^', '^', ' ', ' ', ' ', ' ', '^', '^', '^', '^'],
        seq!['^', '^', '^', '^', ' ', ' ', ' ', ' ', ' ', ' ', '^', '^', '^', '^', ' ', ' ', ' ', ' ', ' ', '^', '^', '^', ' ', ' ', ' ', ' ', '^', '^'],
        seq!['^', '^', ' ', ' ', ' ', ' ', ' ', ' ', '^', '^', '^', '^', ' ', ' ', ' ', ' ', ' ', ' ', '^', '^', '^', ' ', ' ', ' ', ' ', '^', '^', '^', '^', '^', '^', ' ', ' '],
    ]
}

/// The water art consists of its four lines.
pub proof fn lemma_water_art_lines()
    ensures
        lines_of(WATER_LINE_ART@) == water_art_lines(),
{
    reveal_strlit("\
~~~~~~~~~~~~~~~~~~~~~~~~~~~~~~~~~
^^^^ ^^^  ^^^   ^^^    ^^^^
^^^^      ^^^^     ^^^    ^^
^^      ^^^^      ^^^    ^^^^^^  ");
    let ls = water_art_lines();
    let nl = seq!['\n'];
    assert(WATER_LINE_ART@ =~= ls[0] + nl + (ls[1] + nl + (ls[2] + nl + ls[3])));
    lemma_lines_single(ls[3]);
    lemma_lines_step(ls[2], ls[3]);
    lemma_lines_step(ls[1], ls[2] + nl + ls[3]);
    lemma_lines_step(ls[0], ls[1] + nl + (ls[2] + nl + ls[3]));
    assert(seq![ls[0]] + (seq![ls[1]] + (seq![ls[2]] + seq![ls[3]])) =~= ls);
}

/// A line repeated across `width` columns, cut at the last column.
pub open spec fn tiled_to(line: Seq<char>, width: nat) -> Seq<char> {
    Seq::new(width, |i: int| line[i % (line.len() as int)])
}

/// The water lines for a screen `width` columns wide: each of the four
/// lines of the water art repeated across the full width.
pub fn water_lines(width: u16) -> (v: Vec<String>)
    ensures
        v@.len() == 4,
        forall|r: int|
            0 <= r < 4 ==> (#[trigger] v@[r])@ == tiled_to(water_art_lines()[r], width as nat),
        forall|r: int| 0 <= r < 4 ==> (#[trigger] v@[r])@.len() == width,
{
    let art = chars_of(WATER_LINE_ART);
    let lines = split_lines(&art);
    proof {
        lemma_water_art_lines();
    }
    let ghost ls = water_art_lines();
    assert(rows_view(lines@) == ls);
    assert(lines@.len() == rows_view(lines@).len());
    assert(ls.len() == 4);
    let mut out: Vec<String> = Vec::new();
    let mut r: usize = 0;
    while r < 4
        invariant
            rows_view(lines@) == ls,
            ls == water_art_lines(),
            lines@.len() == 4,
            r <= 4,
            out@.len() == r,
            forall|j: int| 0 <= j < r ==> #[trigger] out@[j]@ == tiled_to(ls[j], width as nat),
        decreases 4 - r,
    {
        let line = &lines[r];
        assert(line@ == rows_view(lines@)[r as int]);
        assert(line@ == ls[r as int]);
        let len = line.len();
        assert(ls[0].len() == 33 && ls[1].len() == 27 && ls[2].len() == 28 && ls[3].len() == 33);
        assert(len > 0);
        let mut tile: Vec<char> = Vec::new();
        let mut i: usize = 0;
        while i < width as usize
            invariant
                line@ == ls[r as int],
                len == line@.len(),
                len > 0,
                i <= width,
                tile@.len() == i,
                forall|j: int| 0 <= j < i ==> tile@[j] == line@[j % (len as int)],
            decreases width - i,
        {
            tile.push(line[i % len]);
            i = i + 1;
        }
        let s = string_from_chars(&tile);
        assert(s@ =~= tiled_to(ls[r as int], width as nat));
        out.push(s);
        r = r + 1;
    }
    out
}

// ---------------------------------------------------------------------------
// Castle
// ---------------------------------------------------------------------------

/// The castle's two frames: the flag streams and flutters, the glass and
/// windows change colour.
pub fn castle_shape() -> (s: Shape)
    ensures
        s@ == seq![
            parsed_frame(CASTLE_ART_1@, Some(CASTLE_MASK_1@), None),
            parsed_frame(CASTLE_ART_2@, Some(CASTLE_MASK_2@), None),
        ],
{
    let mut frames: Vec<(&str, Option<&str>)> = Vec::new();
    frames.push((CASTLE_ART_1, Some(CASTLE_MASK_1)));
    frames.push((CASTLE_ART_2, Some(CASTLE_MASK_2)));
    let s = Shape::multi(frames, None);
    assert(s@ =~= seq![
        parsed_frame(CASTLE_ART_1@, Some(CASTLE_MASK_1@), None),
        parsed_frame(CASTLE_ART_2@, Some(CASTLE_MASK_2@), None),
    ]);
    s
}

// ---------------------------------------------------------------------------
// Seaweed
// ---------------------------------------------------------------------------

/// One row of a seaweed frame: `(` and ` )` alternate from row to row, the
/// second frame starting with the other one.
pub open spec fn seaweed_piece(row: int, phase: int) -> Seq<char> {
    if (row + phase) % 2 == 0 {
        seq!['(']
    } else {
        seq![' ', ')']
    }
}

/// The art of a seaweed frame with `n` rows: its rows joined by line breaks.
pub open spec fn seaweed_art(n: int, phase: int) -> Seq<char>
    decreases n,
{
    if n <= 0 {
        Seq::empty()
    } else if n == 1 {
        seaweed_piece(0, phase)
    } else {
        seaweed_art(n - 1, phase) + seq!['\n'] + seaweed_piece(n - 1, phase)
    }
}

/// A seaweed of the given height, swaying between two frames.
pub fn build_seaweed_shape(height: usize) -> (s: Shape)
    ensures
        s@ == seq![
            parsed_frame(seaweed_art(height as int, 0), None, None),
            parsed_frame(seaweed_art(height as int, 1), None, None),
        ],
{
    let mut frame1: Vec<char> = Vec::new();
    let mut frame2: Vec<char> = Vec::new();
    let mut row: usize = 0;
    while row < height
        invariant
            row <= height,
            row < height ==> frame1@ == seaweed_art(row as int, 0) + (if row > 0 { seq!['\n'] } else { Seq::empty() }),
            row < height ==> frame2@ == seaweed_art(row as int, 1) + (if row > 0 { seq!['\n'] } else { Seq::empty() }),
            row == height ==> frame1@ == seaweed_art(row as int, 0),
            row == height ==> frame2@ == seaweed_art(row as int, 1),
        decreases height - row,
    {
        if row % 2 == 0 {
            frame1.push('(');
            frame2.push(' ');
            frame2.push(')');
        } else {
            frame1.push(' ');
            frame1.push(')');
            frame2.push('(');
        }
        assert(frame1@ == seaweed_art(row + 1, 0));
        assert(frame2@ == seaweed_art(row + 1, 1));
        if row < height - 1 {
            frame1.push('\n');
            frame2.push('\n');
        }
        row = row + 1;
    }
    let a1 = string_from_chars(&frame1);
    let a2 = string_from_chars(&frame2);
    let f1 = Frame::parse(a1.as_str(), None, None);
    let f2 = Frame::parse(a2.as_str(), None, None);
    let mut frames: Vec<Frame> = Vec::new();
    frames.push(f1);
    frames.push(f2);
    let s = Shape { frames };
    assert(s@ =~= seq![
        parsed_frame(seaweed_art(height as int, 0), None, None),
        parsed_frame(seaweed_art(height as int, 1), None, None),
    ]);
    s
}

} // verus!
