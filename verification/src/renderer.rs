//! The frame buffer that a scene is drawn into, and the planning of the
//! terminal output that brings the screen from one frame to the next.
use vstd::prelude::*;
use crate::color::Color;

verus! {

/// A cell in the frame buffer.
#[derive(Clone, Copy, Debug, PartialEq, Eq, Structural)]
pub struct Cell {
    pub ch: char,
    pub color: Color,
}

/// 2D grid of rendered cells.
pub struct FrameBuffer {
    pub width: u16,
    pub height: u16,
    pub cells: Vec<Vec<Option<Cell>>>,
}

/// The rows of a grid of cells, as sequences.
pub open spec fn grid_view(g: Seq<Vec<Option<Cell>>>) -> Seq<Seq<Option<Cell>>> {
    Seq::new(g.len(), |r: int| g[r]@)
}

/// A grid of `h` rows of `w` cells.
pub open spec fn grid_shaped(g: Seq<Seq<Option<Cell>>>, w: nat, h: nat) -> bool {
    &&& g.len() == h
    &&& forall|r: int| 0 <= r < h ==> (#[trigger] g[r]).len() == w
}

/// Whether `FrameBuffer::set` writes a cell for the point `(x, y)`: both
/// coordinates are non-negative and, taken as `u16`, inside the buffer.
pub open spec fn lands(x: i32, y: i32, w: u16, h: u16) -> bool {
    x >= 0 && y >= 0 && (x as u16) < w && (y as u16) < h
}

/// A point that `set` can take without indexing past the buffer: if it
/// lands, it lies inside the buffer as it is.
pub open spec fn set_safe(x: i32, y: i32, w: u16, h: u16) -> bool {
    lands(x, y, w, h) ==> (x < w && y < h)
}

impl FrameBuffer {
    pub open spec fn grid(&self) -> Seq<Seq<Option<Cell>>> {
        grid_view(self.cells@)
    }

    pub open spec fn wf(&self) -> bool {
        grid_shaped(self.grid(), self.width as nat, self.height as nat)
    }

    pub fn new(width: u16, height: u16) -> (fb: FrameBuffer)
        ensures
            fb.wf(),
            fb.width == width,
            fb.height == height,
            forall|r: int, c: int| 0 <= r < height && 0 <= c < width ==> fb.grid()[r][c] is None,
    {
        let mut cells: Vec<Vec<Option<Cell>>> = Vec::new();
        let mut r: u16 = 0;
        while r < height
            invariant
                r <= height,
                cells@.len() == r,
                forall|i: int| 0 <= i < r ==> (#[trigger] cells@[i])@.len() == width,
                forall|i: int, c: int| 0 <= i < r && 0 <= c < width ==> cells@[i]@[c] is None,
            decreases height - r,
        {
            let mut row: Vec<Option<Cell>> = Vec::new();
            let mut c: u16 = 0;
            while c < width
                invariant
                    c <= width,
                    row@.len() == c,
                    forall|j: int| 0 <= j < c ==> row@[j] is None,
                decreases width - c,
            {
                row.push(None);
                c = c + 1;
            }
            cells.push(row);
            r = r + 1;
        }
        FrameBuffer { width, height, cells }
    }

    pub fn set(&mut self, x: i32, y: i32, ch: char, color: Color)
        requires
            old(self).wf(),
            set_safe(x, y, old(self).width, old(self).height),
        ensures
            final(self).wf(),
            final(self).width == old(self).width,
            final(self).height == old(self).height,
            final(self).grid() == if lands(x, y, old(self).width, old(self).height) {
                old(self).grid().update(
                    y as int,
                    old(self).grid()[y as int].update(x as int, Some(Cell { ch, color })),
                )
            } else {
                old(self).grid()
            },
    {
        if x >= 0 && y >= 0 && (#[verifier::truncate] (x as u16)) < self.width && (
        #[verifier::truncate] (y as u16)) < self.height {
            assert(x < self.width && y < self.height);
            let xi = x as usize;
            let yi = y as usize;
            let mut row: Vec<Option<Cell>> = Vec::new();
            std::mem::swap(&mut row, &mut self.cells[yi]);
            assert(row@ == old(self).grid()[y as int]);
            assert(row@.len() == self.width);
            row.set(xi, Some(Cell { ch, color }));
            self.cells.set(yi, row);
            assert(self.grid() =~= old(self).grid().update(
                y as int,
                old(self).grid()[y as int].update(x as int, Some(Cell { ch, color })),
            ));
        }
    }
}

/// One step of terminal output.
#[derive(Clone, Copy, Debug, PartialEq, Eq, Structural)]
pub enum DrawOp {
    /// Move the cursor to column `x`, row `y`.
    MoveTo(u16, u16),
    /// Set the foreground colour.
    SetColor(Color),
    /// Print one character at the cursor.
    Print(char),
}

/// The cell shown at `(x, y)` before, if a previous frame is known and
/// reaches that far.
pub open spec fn prev_cell(prev: Option<Seq<Seq<Option<Cell>>>>, y: int, x: int) -> Option<Cell> {
    match prev {
        Some(p) => if 0 <= y < p.len() && 0 <= x < p[y].len() {
            p[y][x]
        } else {
            None
        },
        None => None,
    }
}

/// The output for one changed cell after the cursor was moved there, and
/// the colour in force afterwards: the colour is set only when it differs
/// from the one in force; an empty cell prints a space.
pub open spec fn cell_ops(cell: Option<Cell>, last: Option<Color>) -> (Seq<DrawOp>, Option<Color>) {
    match cell {
        Some(c) => if last != Some(c.color) {
            (seq![DrawOp::SetColor(c.color), DrawOp::Print(c.ch)], Some(c.color))
        } else {
            (seq![DrawOp::Print(c.ch)], last)
        },
        None => (seq![DrawOp::Print(' ')], last),
    }
}

/// The output that redraws a frame from row `y`, column `x` on, row by row:
/// each cell that differs from the previous frame gets a cursor move and
/// its own output; equal cells get none.
pub open spec fn draw_ops(
    cells: Seq<Seq<Option<Cell>>>,
    prev: Option<Seq<Seq<Option<Cell>>>>,
    w: int,
    h: int,
    y: int,
    x: int,
    last: Option<Color>,
) -> Seq<DrawOp>
    decreases h - y, w - x,
{
    if y >= h || x < 0 {
        Seq::empty()
    } else if x >= w {
        draw_ops(cells, prev, w, h, y + 1, 0, last)
    } else if cells[y][x] == prev_cell(prev, y, x) {
        draw_ops(cells, prev, w, h, y, x + 1, last)
    } else {
        let step = cell_ops(cells[y][x], last);
        seq![DrawOp::MoveTo(x as u16, y as u16)] + step.0 + draw_ops(
            cells,
            prev,
            w,
            h,
            y,
            x + 1,
            step.1,
        )
    }
}

fn same_cell(a: Option<Cell>, b: Option<Cell>) -> (r: bool)
    ensures
        r == (a == b),
{
    match (a, b) {
        (Some(p), Some(q)) => p.ch == q.ch && p.color == q.color,
        (None, None) => true,
        _ => false,
    }
}

fn copy_grid(g: &Vec<Vec<Option<Cell>>>) -> (out: Vec<Vec<Option<Cell>>>)
    ensures
        grid_view(out@) == grid_view(g@),
{
    let mut out: Vec<Vec<Option<Cell>>> = Vec::new();
    let mut r: usize = 0;
    while r < g.len()
        invariant
            r <= g@.len(),
            out@.len() == r,
            forall|i: int| 0 <= i < r ==> (#[trigger] out@[i])@ == g@[i]@,
        decreases g.len() - r,
    {
        let src = &g[r];
        let mut row: Vec<Option<Cell>> = Vec::new();
        let mut c: usize = 0;
        while c < src.len()
            invariant
                c <= src@.len(),
                row@ == src@.take(c as int),
            decreases src.len() - c,
        {
            row.push(src[c]);
            c = c + 1;
        }
        assert(src@.take(src@.len() as int) == src@);
        out.push(row);
        r = r + 1;
    }
    assert(grid_view(out@) =~= grid_view(g@));
    out
}

/// Remembers what the screen shows, so that drawing a frame only emits
/// the cells that changed.
pub struct Renderer {
    prev_frame: Option<Vec<Vec<Option<Cell>>>>,
}

impl Renderer {
    /// What the renderer believes the screen shows, if anything.
    pub closed spec fn shown(&self) -> Option<Seq<Seq<Option<Cell>>>> {
        match self.prev_frame {
            Some(g) => Some(grid_view(g@)),
            None => None,
        }
    }

    pub fn new() -> (r: Renderer)
        ensures
            r.shown() is None,
    {
        Renderer { prev_frame: None }
    }

    /// Forget what the screen shows (after it was cleared).
    pub fn clear(&mut self)
        ensures
            final(self).shown() is None,
    {
        self.prev_frame = None;
    }

    /// The terminal output that brings the screen to `frame`; afterwards the
    /// renderer remembers `frame` as shown.
    pub fn draw(&mut self, frame: &FrameBuffer) -> (ops: Vec<DrawOp>)
        requires
            frame.wf(),
        ensures
            ops@ == draw_ops(
                frame.grid(),
                old(self).shown(),
                frame.width as int,
                frame.height as int,
                0,
                0,
                None,
            ),
            final(self).shown() == Some(frame.grid()),
    {
        let ghost cells = frame.grid();
        let ghost prev = self.shown();
        let ghost w = frame.width as int;
        let ghost h = frame.height as int;
        let mut ops: Vec<DrawOp> = Vec::new();
        let mut last: Option<Color> = None;
        let mut y: u16 = 0;
        while y < frame.height
            invariant
                frame.wf(),
                cells == frame.grid(),
                prev == self.shown(),
                w == frame.width,
                h == frame.height,
                y <= frame.height,
                ops@ + draw_ops(cells, prev, w, h, y as int, 0, last) == draw_ops(
                    cells,
                    prev,
                    w,
                    h,
                    0,
                    0,
                    None,
                ),
            decreases frame.height - y,
        {
            let mut x: u16 = 0;
            while x < frame.width
                invariant
                    frame.wf(),
                    cells == frame.grid(),
                    prev == self.shown(),
                    w == frame.width,
                    h == frame.height,
                    y < frame.height,
                    x <= frame.width,
                    ops@ + draw_ops(cells, prev, w, h, y as int, x as int, last) == draw_ops(
                        cells,
                        prev,
                        w,
                        h,
                        0,
                        0,
                        None,
                    ),
                decreases frame.width - x,
            {
                let cell = frame.cells[y as usize][x as usize];
                let prev_here: Option<Cell> = match &self.prev_frame {
                    Some(pf) => if (y as usize) < pf.len() && (x as usize) < pf[y as usize].len() {
                        pf[y as usize][x as usize]
                    } else {
                        None
                    },
                    None => None,
                };
                assert(prev_here == prev_cell(prev, y as int, x as int));
                assert(cell == cells[y as int][x as int]);
                if !same_cell(cell, prev_here) {
                    let ghost before = ops@;
                    let ghost step = cell_ops(cell, last);
                    ops.push(DrawOp::MoveTo(x, y));
                    match cell {
                        Some(c) => {
                            let differs = match last {
                                Some(l) => l != c.color,
                                None => true,
                            };
                            if differs {
                                ops.push(DrawOp::SetColor(c.color));
                                last = Some(c.color);
                            }
                            ops.push(DrawOp::Print(c.ch));
                        },
                        None => {
                            ops.push(DrawOp::Print(' '));
                        },
                    }
                    assert(ops@ == before + seq![DrawOp::MoveTo(x, y)] + step.0);
                    assert(last == step.1);
                }
                x = x + 1;
            }
            y = y + 1;
        }
        self.prev_frame = Some(copy_grid(&frame.cells));
        ops
    }
}

proof fn lemma_same_frame_no_ops(
    cells: Seq<Seq<Option<Cell>>>,
    w: int,
    h: int,
    y: int,
    x: int,
    last: Option<Color>,
)
    requires
        w >= 0,
        grid_shaped(cells, w as nat, h as nat),
        0 <= y,
        0 <= x,
    ensures
        draw_ops(cells, Some(cells), w, h, y, x, last).len() == 0,
    decreases h - y, w - x,
{
    if y >= h {
    } else if x >= w {
        lemma_same_frame_no_ops(cells, w, h, y + 1, 0, last);
    } else {
        assert(prev_cell(Some(cells), y, x) == cells[y][x]);
        lemma_same_frame_no_ops(cells, w, h, y, x + 1, last);
    }
}

/// Drawing a frame that the screen already shows produces no output: after
/// `draw(frame)`, a second `draw(frame)` returns nothing.
pub proof fn law_unchanged_frame_draws_nothing(frame: FrameBuffer)
    requires
        frame.wf(),
    ensures
        draw_ops(
            frame.grid(),
            Some(frame.grid()),
            frame.width as int,
            frame.height as int,
            0,
            0,
            None,
        ) == Seq::<DrawOp>::empty(),
{
    lemma_same_frame_no_ops(frame.grid(), frame.width as int, frame.height as int, 0, 0, None);
}


/// A terminal as the drawing output sees it: the cursor's column and row,
/// the foreground colour in force (`None` while unknown), and the
/// character and colour shown at each column and row.
pub struct TermState {
    pub cursor: (int, int),
    pub color: Option<Color>,
    pub glyphs: Map<(int, int), (char, Option<Color>)>,
}

/// The terminal after one step of output: a cursor move, a colour change,
/// or a character printed at the cursor in the colour in force, after
/// which the cursor stands one column further right.
pub open spec fn apply_op(t: TermState, op: DrawOp) -> TermState {
    match op {
        DrawOp::MoveTo(x, y) => TermState { cursor: (x as int, y as int), color: t.color, glyphs: t.glyphs },
        DrawOp::SetColor(c) => TermState { cursor: t.cursor, color: Some(c), glyphs: t.glyphs },
        DrawOp::Print(ch) => TermState {
            cursor: (t.cursor.0 + 1, t.cursor.1),
            color: t.color,
            glyphs: t.glyphs.insert(t.cursor, (ch, t.color)),
        },
    }
}

/// The terminal after a whole sequence of output steps, in order.
pub open spec fn run_ops(t: TermState, ops: Seq<DrawOp>) -> TermState
    decreases ops.len(),
{
    if ops.len() == 0 {
        t
    } else {
        run_ops(apply_op(t, ops[0]), ops.skip(1))
    }
}

/// Whether the terminal shows `cell` at column `x`, row `y`: its character
/// in its colour, or a blank where the cell is empty.
pub open spec fn shows(t: TermState, x: int, y: int, cell: Option<Cell>) -> bool {
    match cell {
        Some(c) => t.glyphs[(x, y)] == (c.ch, Some(c.color)),
        None => t.glyphs[(x, y)].0 == ' ',
    }
}

proof fn lemma_run_ops_append(t: TermState, a: Seq<DrawOp>, b: Seq<DrawOp>)
    ensures
        run_ops(t, a + b) == run_ops(run_ops(t, a), b),
    decreases a.len(),
{
    if a.len() == 0 {
        assert(a + b =~= b);
    } else {
        assert((a + b)[0] == a[0]);
        assert((a + b).skip(1) =~= a.skip(1) + b);
        lemma_run_ops_append(apply_op(t, a[0]), a.skip(1), b);
    }
}

proof fn lemma_run_ops_single(t: TermState, op: DrawOp)
    ensures
        run_ops(t, seq![op]) == apply_op(t, op),
{
    assert(seq![op].skip(1) =~= Seq::<DrawOp>::empty());
    assert(run_ops(apply_op(t, op), Seq::<DrawOp>::empty()) == apply_op(t, op));
}

proof fn lemma_draw_ops_paint(
    cells: Seq<Seq<Option<Cell>>>,
    prev: Option<Seq<Seq<Option<Cell>>>>,
    w: int,
    h: int,
    y: int,
    x: int,
    last: Option<Color>,
    t: TermState,
)
    requires
        0 <= w <= u16::MAX,
        0 <= h <= u16::MAX,
        grid_shaped(cells, w as nat, h as nat),
        0 <= y,
        0 <= x <= w,
        last is Some ==> t.color == last,
        forall|r: int, c: int|
            0 <= r < h && 0 <= c < w && (r < y || (r == y && c < x)) ==> #[trigger] shows(
                t,
                c,
                r,
                cells[r][c],
            ),
        forall|r: int, c: int|
            0 <= r < h && 0 <= c < w && !(r < y || (r == y && c < x)) ==> #[trigger] shows(
                t,
                c,
                r,
                prev_cell(prev, r, c),
            ),
    ensures
        forall|r: int, c: int|
            0 <= r < h && 0 <= c < w ==> #[trigger] shows(
                run_ops(t, draw_ops(cells, prev, w, h, y, x, last)),
                c,
                r,
                cells[r][c],
            ),
    decreases h - y, w - x,
{
    if y >= h {
        assert(draw_ops(cells, prev, w, h, y, x, last) =~= Seq::<DrawOp>::empty());
        assert(run_ops(t, Seq::<DrawOp>::empty()) == t);
        assert forall|r: int, c: int| 0 <= r < h && 0 <= c < w implies #[trigger] shows(
            run_ops(t, draw_ops(cells, prev, w, h, y, x, last)),
            c,
            r,
            cells[r][c],
        ) by {
            assert(shows(t, c, r, cells[r][c]));
        }
    } else if x >= w {
        assert forall|r: int, c: int|
            0 <= r < h && 0 <= c < w && (r < y + 1 || (r == y + 1 && c < 0)) implies #[trigger] shows(
            t,
            c,
            r,
            cells[r][c],
        ) by {
            assert(r < y || (r == y && c < x));
        }
        assert forall|r: int, c: int|
            0 <= r < h && 0 <= c < w && !(r < y + 1 || (r == y + 1 && c < 0)) implies #[trigger] shows(
            t,
            c,
            r,
            prev_cell(prev, r, c),
        ) by {
            assert(!(r < y || (r == y && c < x)));
        }
        lemma_draw_ops_paint(cells, prev, w, h, y + 1, 0, last, t);
    } else if cells[y][x] == prev_cell(prev, y, x) {
        assert forall|r: int, c: int|
            0 <= r < h && 0 <= c < w && (r < y || (r == y && c < x + 1)) implies #[trigger] shows(
            t,
            c,
            r,
            cells[r][c],
        ) by {
            if r == y && c == x {
                assert(shows(t, c, r, prev_cell(prev, r, c)));
            } else {
                assert(r < y || (r == y && c < x));
            }
        }
        assert forall|r: int, c: int|
            0 <= r < h && 0 <= c < w && !(r < y || (r == y && c < x + 1)) implies #[trigger] shows(
            t,
            c,
            r,
            prev_cell(prev, r, c),
        ) by {
            assert(!(r < y || (r == y && c < x)));
        }
        lemma_draw_ops_paint(cells, prev, w, h, y, x + 1, last, t);
    } else {
        let cell = cells[y][x];
        let step = cell_ops(cell, last);
        let mv = DrawOp::MoveTo(x as u16, y as u16);
        let head = seq![mv] + step.0;
        let rest = draw_ops(cells, prev, w, h, y, x + 1, step.1);
        assert(draw_ops(cells, prev, w, h, y, x, last) == head + rest);
        lemma_run_ops_append(t, head, rest);
        lemma_run_ops_append(t, seq![mv], step.0);
        lemma_run_ops_single(t, mv);
        let t0 = apply_op(t, mv);
        assert(t0.cursor == (x, y));
        assert(t0.color == t.color);
        assert(t0.glyphs == t.glyphs);
        let t1 = run_ops(t0, step.0);
        match cell {
            Some(cc) => {
                if last != Some(cc.color) {
                    assert(step.0 =~= seq![DrawOp::SetColor(cc.color)] + seq![DrawOp::Print(cc.ch)]);
                    lemma_run_ops_append(t0, seq![DrawOp::SetColor(cc.color)], seq![DrawOp::Print(cc.ch)]);
                    lemma_run_ops_single(t0, DrawOp::SetColor(cc.color));
                    lemma_run_ops_single(apply_op(t0, DrawOp::SetColor(cc.color)), DrawOp::Print(cc.ch));
                } else {
                    lemma_run_ops_single(t0, DrawOp::Print(cc.ch));
                }
                assert(t1.glyphs == t.glyphs.insert((x, y), (cc.ch, Some(cc.color))));
                assert(t1.color == Some(cc.color));
            },
            None => {
                lemma_run_ops_single(t0, DrawOp::Print(' '));
                assert(t1.glyphs == t.glyphs.insert((x, y), (' ', t.color)));
                assert(t1.color == t.color);
            },
        }
        assert forall|r: int, c: int|
            0 <= r < h && 0 <= c < w && (r < y || (r == y && c < x + 1)) implies #[trigger] shows(
            t1,
            c,
            r,
            cells[r][c],
        ) by {
            if r == y && c == x {
            } else {
                assert(t1.glyphs[(c, r)] == t.glyphs[(c, r)]);
                assert(shows(t, c, r, cells[r][c]));
            }
        }
        assert forall|r: int, c: int|
            0 <= r < h && 0 <= c < w && !(r < y || (r == y && c < x + 1)) implies #[trigger] shows(
            t1,
            c,
            r,
            prev_cell(prev, r, c),
        ) by {
            assert(t1.glyphs[(c, r)] == t.glyphs[(c, r)]);
            assert(shows(t, c, r, prev_cell(prev, r, c)));
        }
        lemma_draw_ops_paint(cells, prev, w, h, y, x + 1, step.1, t1);
    }
}

/// Drawing brings the screen to the frame: if the terminal shows what the
/// renderer remembers (blank cells where it remembers nothing, as after a
/// clear), then once the output of `draw(frame)` has run, the
/// terminal shows every cell of `frame`, character and colour, and a blank
/// for every empty cell.
pub proof fn law_draw_shows_frame(renderer: Renderer, frame: FrameBuffer, t: TermState)
    requires
        frame.wf(),
        forall|y: int, x: int|
            0 <= y < frame.height && 0 <= x < frame.width ==> #[trigger] shows(
                t,
                x,
                y,
                prev_cell(renderer.shown(), y, x),
            ),
    ensures
        forall|y: int, x: int|
            0 <= y < frame.height && 0 <= x < frame.width ==> #[trigger] shows(
                run_ops(
                    t,
                    draw_ops(
                        frame.grid(),
                        renderer.shown(),
                        frame.width as int,
                        frame.height as int,
                        0,
                        0,
                        None,
                    ),
                ),
                x,
                y,
                frame.grid()[y][x],
            ),
{
    lemma_draw_ops_paint(
        frame.grid(),
        renderer.shown(),
        frame.width as int,
        frame.height as int,
        0,
        0,
        None,
        t,
    );
}

} // verus!
