//! Scene rules: how many creatures a screen holds, which collisions kill
//! whom, and how the entities' frames combine into one picture.
use vstd::prelude::*;
use crate::color::Color;
use crate::entity::{EntityId, EntityType};
use crate::renderer::{Cell, FrameBuffer, lands, set_safe};
use crate::shape::Frame;

verus! {

// ---------------------------------------------------------------------------
// Population
// ---------------------------------------------------------------------------

/// The integer square root: the largest `r` with `r * r <= n`.
pub open spec fn is_isqrt(n: int, r: int) -> bool {
    0 <= r && r * r <= n < (r + 1) * (r + 1)
}

/// The integer square root of `n` (what `(n as f64).sqrt() as u16` gives
/// for every `u16`).
pub fn isqrt(n: u16) -> (r: u16)
    ensures
        is_isqrt(n as int, r as int),
        r <= 255,
{
    let mut r: u32 = 0;
    loop
        invariant
            r * r <= n,
            r <= 255,
        ensures
            r * r <= n < (r + 1) * (r + 1),
            r <= 255,
        decreases 256 - r,
    {
        assert((r + 1) * (r + 1) <= 65536) by (nonlinear_arith)
            requires
                r <= 255,
        ;
        if (r + 1) * (r + 1) > n as u32 {
            break;
        }
        assert(r + 1 <= 255) by (nonlinear_arith)
            requires
                (r + 1) * (r + 1) <= n,
                n <= 65535,
        ;
        r = r + 1;
    }
    r as u16
}

/// Whether `n` is the seaweed count for a screen `width` columns wide: one
/// per 20 columns but at least two on narrow screens, one per 15 columns up
/// to 200 columns, and past 200 columns 13 plus the square root of the
/// extra width.
pub open spec fn is_seaweed_count(width: u16, n: int) -> bool {
    if width < 60 {
        n == if width / 20 > 2 {
            (width / 20) as int
        } else {
            2
        }
    } else if width > 200 {
        is_isqrt(width - 200, n - 13)
    } else {
        n == width / 15
    }
}

/// How many seaweed plants a scene of the given width gets.
pub fn seaweed_count(width: u16) -> (n: usize)
    ensures
        is_seaweed_count(width, n as int),
{
    if width < 60 {
        let k = width / 20;
        if k > 2 {
            k as usize
        } else {
            2
        }
    } else if width > 200 {
        let base: u16 = 200 / 15;
        let extra = isqrt(width - 200);
        (base + extra) as usize
    } else {
        (width / 15) as usize
    }
}

/// Fish for a `width` by `height` screen, counted on the water area below
/// row 9: one per 350 cells, at least three on screens under 80 columns,
/// and beyond the first 200 columns only one per 600 cells.
pub open spec fn fish_count_for(width: u16, height: u16) -> int {
    let water_rows: int = if height > 9 {
        height - 9
    } else {
        0
    };
    let area = water_rows * width;
    if width < 80 {
        if area / 350 > 3 {
            area / 350
        } else {
            3
        }
    } else if width > 200 {
        let base_area = water_rows * 200;
        let extra_area = if area > base_area {
            area - base_area
        } else {
            0
        };
        base_area / 350 + extra_area / 600
    } else {
        area / 350
    }
}

/// How many fish a scene of the given size gets.
pub fn fish_count(width: u16, height: u16) -> (n: usize)
    ensures
        n == fish_count_for(width, height),
{
    let water_rows = height.saturating_sub(9) as u32;
    assert(water_rows * width <= 65535 * 65535) by (nonlinear_arith)
        requires
            water_rows <= 65535,
            width <= 65535,
    ;
    let screen_area = water_rows * (width as u32);
    if width < 80 {
        let k = screen_area / 350;
        if k > 3 {
            k as usize
        } else {
            3
        }
    } else if width > 200 {
        let base_area = water_rows * 200;
        let extra_area = screen_area.saturating_sub(base_area);
        let base_count = base_area / 350;
        let extra_count = extra_area / 600;
        (base_count + extra_count) as usize
    } else {
        (screen_area / 350) as usize
    }
}

/// The fish count from the water area (the rows below row 9 times the
/// width): under 80 columns the larger of area/350 and 3; up to 200 columns
/// area/350; past 200 columns one fish per 350 cells of the first 200
/// columns and one per 600 cells of the rest.
pub proof fn law_fish_count_follows_the_water_area(width: u16, height: u16)
    ensures
        ({
            let rows: int = if height > 9 {
                height - 9
            } else {
                0
            };
            let area = rows * width;
            let n = fish_count_for(width, height);
            &&& width < 80 ==> n >= 3 && n >= area / 350 && (n == 3 || n == area / 350)
            &&& 80 <= width <= 200 ==> n == area / 350
            &&& width > 200 ==> n == (rows * 200) / 350 + (area - rows * 200) / 600
        }),
{
    let rows: int = if height > 9 {
        height - 9
    } else {
        0
    };
    assert(rows * width >= rows * 200 || width <= 200) by (nonlinear_arith)
        requires
            rows >= 0,
    ;
}

/// Every scene gets at least two seaweed plants, and past 200 columns the
/// count grows with the square root of the extra width, so that it never
/// exceeds 13 plus that extra width.
pub proof fn law_seaweed_population(width: u16, n: int)
    requires
        is_seaweed_count(width, n),
    ensures
        n >= 2,
        width > 200 ==> 13 <= n <= 13 + (width - 200),
{
    if width > 200 {
        let r = n - 13;
        assert(r <= r * r) by (nonlinear_arith)
            requires
                r >= 0,
        ;
    }
}

/// Narrow screens still get three fish, and past 200 columns the fish are
/// sparser than one per 350 cells of water.
pub proof fn law_fish_density(width: u16, height: u16)
    ensures
        width < 80 ==> fish_count_for(width, height) >= 3,
        width > 200 ==> fish_count_for(width, height) <= ((if height > 9 {
            height - 9
        } else {
            0
        }) * width) / 350,
{
    if width > 200 {
        let rows: int = if height > 9 {
            height - 9
        } else {
            0
        };
        let base = rows * 200;
        let area = rows * width;
        assert(area >= base) by (nonlinear_arith)
            requires
                rows >= 0,
                width > 200,
                area == rows * width,
                base == rows * 200,
        ;
        let extra = area - base;
        assert(base / 350 + extra / 600 <= (base + extra) / 350) by (nonlinear_arith)
            requires
                base >= 0,
                extra >= 0,
        ;
    }
}

/// How many custom pictures to bring back when `current` of the `target`
/// registered ones are swimming: the missing ones, if any.
pub fn respawn_count(current: usize, target: usize) -> (n: usize)
    ensures
        n == if current < target {
            target - current
        } else {
            0
        },
{
    if current < target {
        target - current
    } else {
        0
    }
}

/// Compute the castle's left x boundary so seaweed can avoid it.
pub fn castle_left_x(screen_w: u16) -> (x: u16)
    ensures
        x == if screen_w >= 65 {
            screen_w - 60
        } else {
            5
        },
{
    let castle_w = 57u16;
    let left = screen_w.saturating_sub(castle_w + 3);
    if left > 5 {
        left
    } else {
        5
    }
}

// ---------------------------------------------------------------------------
// Collisions
// ---------------------------------------------------------------------------

/// A physical entity as collision detection sees it: its identity and
/// kind, the integer position of its top-left corner, the size of its
/// current frame, and its depth.
#[derive(Clone, Copy, Debug, PartialEq, Eq, Structural)]
pub struct Body {
    pub id: EntityId,
    pub kind: EntityType,
    pub x: i32,
    pub y: i32,
    pub w: u16,
    pub h: u16,
    pub z: i32,
}

/// Whether two bodies' boxes overlap.
pub open spec fn overlap(a: Body, b: Body) -> bool {
    a.x < b.x + b.w && a.x + a.w > b.x && a.y < b.y + b.h && a.y + a.h > b.y
}

/// The ids a collision between `a` and `b` kills: a fish at most five rows
/// tall that touches teeth, or a bubble that touches a water line.
pub open spec fn pair_kills(a: Body, b: Body) -> Seq<EntityId> {
    if !overlap(a, b) {
        Seq::empty()
    } else {
        match (a.kind, b.kind) {
            (EntityType::Fish, EntityType::Teeth) => if a.h <= 5 {
                seq![a.id]
            } else {
                Seq::empty()
            },
            (EntityType::Teeth, EntityType::Fish) => if b.h <= 5 {
                seq![b.id]
            } else {
                Seq::empty()
            },
            (EntityType::Bubble, EntityType::Waterline) => seq![a.id],
            (EntityType::Waterline, EntityType::Bubble) => seq![b.id],
            _ => Seq::empty(),
        }
    }
}

/// The splats a collision between `a` and `b` leaves: at the teeth's
/// position and depth when a fish is eaten.
pub open spec fn pair_splats(a: Body, b: Body) -> Seq<(i32, i32, i32)> {
    if !overlap(a, b) {
        Seq::empty()
    } else {
        match (a.kind, b.kind) {
            (EntityType::Fish, EntityType::Teeth) => if a.h <= 5 {
                seq![(b.x, b.y, b.z)]
            } else {
                Seq::empty()
            },
            (EntityType::Teeth, EntityType::Fish) => if b.h <= 5 {
                seq![(a.x, a.y, a.z)]
            } else {
                Seq::empty()
            },
            _ => Seq::empty(),
        }
    }
}

/// The kills of all pairs `(i, j)` with `i < j`, in order, from `(i, j)` on.
pub open spec fn kills_from(bodies: Seq<Body>, i: int, j: int) -> Seq<EntityId>
    decreases bodies.len() - i, bodies.len() - j,
{
    if i < 0 || i >= bodies.len() {
        Seq::empty()
    } else if j >= bodies.len() || j <= i {
        kills_from(bodies, i + 1, i + 2)
    } else {
        pair_kills(bodies[i], bodies[j]) + kills_from(bodies, i, j + 1)
    }
}

/// The splats of all pairs `(i, j)` with `i < j`, in order, from `(i, j)` on.
pub open spec fn splats_from(bodies: Seq<Body>, i: int, j: int) -> Seq<(i32, i32, i32)>
    decreases bodies.len() - i, bodies.len() - j,
{
    if i < 0 || i >= bodies.len() {
        Seq::empty()
    } else if j >= bodies.len() || j <= i {
        splats_from(bodies, i + 1, i + 2)
    } else {
        pair_splats(bodies[i], bodies[j]) + splats_from(bodies, i, j + 1)
    }
}

/// Bodies whose far edges can be computed without overflow.
pub open spec fn bodies_in_range(bodies: Seq<Body>) -> bool {
    forall|k: int|
        0 <= k < bodies.len() ==> (#[trigger] bodies[k]).x + bodies[k].w <= i32::MAX && bodies[k].y
            + bodies[k].h <= i32::MAX
}

/// What the collisions of a set of bodies cause.
pub struct Collisions {
    /// Entities that die, in the order found.
    pub kills: Vec<EntityId>,
    /// Splats to spawn, as `(x, y, z)`.
    pub splats: Vec<(i32, i32, i32)>,
}

fn kills_of_pair(a: Body, b: Body, kills: &mut Vec<EntityId>, splats: &mut Vec<(i32, i32, i32)>)
    requires
        a.x + a.w <= i32::MAX,
        a.y + a.h <= i32::MAX,
        b.x + b.w <= i32::MAX,
        b.y + b.h <= i32::MAX,
    ensures
        final(kills)@ == old(kills)@ + pair_kills(a, b),
        final(splats)@ == old(splats)@ + pair_splats(a, b),
{
    let ax2 = a.x + a.w as i32;
    let ay2 = a.y + a.h as i32;
    let bx2 = b.x + b.w as i32;
    let by2 = b.y + b.h as i32;
    if a.x < bx2 && ax2 > b.x && a.y < by2 && ay2 > b.y {
        match (a.kind, b.kind) {
            (EntityType::Fish, EntityType::Teeth) => {
                if a.h <= 5 {
                    kills.push(a.id);
                    splats.push((b.x, b.y, b.z));
                }
            },
            (EntityType::Teeth, EntityType::Fish) => {
                if b.h <= 5 {
                    kills.push(b.id);
                    splats.push((a.x, a.y, a.z));
                }
            },
            (EntityType::Bubble, EntityType::Waterline) => {
                kills.push(a.id);
            },
            (EntityType::Waterline, EntityType::Bubble) => {
                kills.push(b.id);
            },
            _ => {},
        }
    }
    assert(kills@ =~= old(kills)@ + pair_kills(a, b));
    assert(splats@ =~= old(splats)@ + pair_splats(a, b));
}

/// Check for collisions between physical entities (fish vs teeth, bubble
/// vs waterline): every pair is checked once, in order.
pub fn find_collisions(bodies: &Vec<Body>) -> (c: Collisions)
    requires
        bodies_in_range(bodies@),
    ensures
        c.kills@ == kills_from(bodies@, 0, 1),
        c.splats@ == splats_from(bodies@, 0, 1),
{
    let ghost bs = bodies@;
    let n = bodies.len();
    let mut kills: Vec<EntityId> = Vec::new();
    let mut splats: Vec<(i32, i32, i32)> = Vec::new();
    let mut i: usize = 0;
    while i < n
        invariant
            bs == bodies@,
            n == bs.len(),
            bodies_in_range(bs),
            i <= n,
            kills@ + kills_from(bs, i as int, i + 1) == kills_from(bs, 0, 1),
            splats@ + splats_from(bs, i as int, i + 1) == splats_from(bs, 0, 1),
        decreases n - i,
    {
        let mut j: usize = i + 1;
        while j < n
            invariant
                bs == bodies@,
                n == bs.len(),
                bodies_in_range(bs),
                i < n,
                i < j <= n,
                kills@ + kills_from(bs, i as int, j as int) == kills_from(bs, 0, 1),
                splats@ + splats_from(bs, i as int, j as int) == splats_from(bs, 0, 1),
            decreases n - j,
        {
            let a = bodies[i];
            let b = bodies[j];
            assert(bs[i as int] == a && bs[j as int] == b);
            let ghost k0 = kills@;
            let ghost s0 = splats@;
            kills_of_pair(a, b, &mut kills, &mut splats);
            assert(kills@ + kills_from(bs, i as int, j + 1) == k0 + kills_from(bs, i as int, j as int));
            assert(splats@ + splats_from(bs, i as int, j + 1) == s0 + splats_from(
                bs,
                i as int,
                j as int,
            ));
            j = j + 1;
        }
        assert(kills_from(bs, i as int, n as int) == kills_from(bs, i + 1, i + 2));
        assert(splats_from(bs, i as int, n as int) == splats_from(bs, i + 1, i + 2));
        i = i + 1;
    }
    assert(kills_from(bs, n as int, n + 1) == Seq::<EntityId>::empty());
    assert(splats_from(bs, n as int, n + 1) == Seq::<(i32, i32, i32)>::empty());
    assert(kills@ == kills_from(bs, 0, 1));
    Collisions { kills, splats }
}

/// Whether some overlapping pair of the bodies makes `id` die: it names a
/// fish at most five rows tall that touches teeth, or a bubble that touches
/// a water line.
pub open spec fn justly_killed(bodies: Seq<Body>, id: EntityId) -> bool {
    exists|a: int, b: int|
        0 <= a < bodies.len() && 0 <= b < bodies.len() && overlap(#[trigger] bodies[a], #[trigger] bodies[b])
            && bodies[a].id == id && ((bodies[a].kind == EntityType::Fish && bodies[b].kind
            == EntityType::Teeth && bodies[a].h <= 5) || (bodies[a].kind == EntityType::Bubble
            && bodies[b].kind == EntityType::Waterline))
}

proof fn lemma_pair_kills_justified(bodies: Seq<Body>, i: int, j: int)
    requires
        0 <= i < bodies.len(),
        0 <= j < bodies.len(),
    ensures
        forall|k: int|
            0 <= k < pair_kills(bodies[i], bodies[j]).len() ==> justly_killed(
                bodies,
                #[trigger] pair_kills(bodies[i], bodies[j])[k],
            ),
{
    let a = bodies[i];
    let b = bodies[j];
    assert forall|k: int|
        0 <= k < pair_kills(a, b).len() implies justly_killed(
        bodies,
        #[trigger] pair_kills(a, b)[k],
    ) by {
        if a.kind == EntityType::Fish || a.kind == EntityType::Bubble {
            assert(overlap(bodies[i], bodies[j]));
        } else {
            assert(overlap(bodies[j], bodies[i]));
        }
    }
}

proof fn lemma_kills_from_justified(bodies: Seq<Body>, i: int, j: int)
    ensures
        forall|k: int|
            0 <= k < kills_from(bodies, i, j).len() ==> justly_killed(
                bodies,
                #[trigger] kills_from(bodies, i, j)[k],
            ),
    decreases bodies.len() - i, bodies.len() - j,
{
    if i < 0 || i >= bodies.len() {
        assert(kills_from(bodies, i, j).len() == 0);
    } else if j >= bodies.len() || j <= i {
        lemma_kills_from_justified(bodies, i + 1, i + 2);
        assert(kills_from(bodies, i, j) == kills_from(bodies, i + 1, i + 2));
    } else {
        lemma_kills_from_justified(bodies, i, j + 1);
        lemma_pair_kills_justified(bodies, i, j);
        let p = pair_kills(bodies[i], bodies[j]);
        let rest = kills_from(bodies, i, j + 1);
        assert forall|k: int|
            0 <= k < kills_from(bodies, i, j).len() implies justly_killed(
            bodies,
            #[trigger] kills_from(bodies, i, j)[k],
        ) by {
            if k < p.len() {
                assert(kills_from(bodies, i, j)[k] == p[k]);
            } else {
                assert(kills_from(bodies, i, j)[k] == rest[k - p.len()]);
            }
        }
    }
}

/// Only collisions kill: every entity that collision detection kills is a
/// small fish touching teeth or a bubble touching a water line.
pub proof fn law_collision_kills_are_justified(bodies: Seq<Body>)
    ensures
        forall|k: int|
            0 <= k < kills_from(bodies, 0, 1).len() ==> justly_killed(
                bodies,
                #[trigger] kills_from(bodies, 0, 1)[k],
            ),
{
    lemma_kills_from_justified(bodies, 0, 1);
}

proof fn lemma_pair_in_kills_from(bodies: Seq<Body>, i0: int, j0: int, i: int, j: int)
    requires
        0 <= i < j < bodies.len(),
        0 <= i0,
        i0 < i || (i0 == i && i0 < j0 <= j),
    ensures
        forall|k: int|
            0 <= k < pair_kills(bodies[i], bodies[j]).len() ==> kills_from(bodies, i0, j0).contains(
                #[trigger] pair_kills(bodies[i], bodies[j])[k],
            ),
        forall|k: int|
            0 <= k < pair_splats(bodies[i], bodies[j]).len() ==> splats_from(
                bodies,
                i0,
                j0,
            ).contains(#[trigger] pair_splats(bodies[i], bodies[j])[k]),
    decreases bodies.len() - i0, bodies.len() - j0,
{
    let pk = pair_kills(bodies[i], bodies[j]);
    let ps = pair_splats(bodies[i], bodies[j]);
    if j0 >= bodies.len() || j0 <= i0 {
        lemma_pair_in_kills_from(bodies, i0 + 1, i0 + 2, i, j);
        assert(kills_from(bodies, i0, j0) == kills_from(bodies, i0 + 1, i0 + 2));
        assert(splats_from(bodies, i0, j0) == splats_from(bodies, i0 + 1, i0 + 2));
    } else {
        let hk = pair_kills(bodies[i0], bodies[j0]);
        let hs = pair_splats(bodies[i0], bodies[j0]);
        let rk = kills_from(bodies, i0, j0 + 1);
        let rs = splats_from(bodies, i0, j0 + 1);
        assert(kills_from(bodies, i0, j0) == hk + rk);
        assert(splats_from(bodies, i0, j0) == hs + rs);
        if i0 == i && j0 == j {
            assert forall|k: int| 0 <= k < pk.len() implies (hk + rk).contains(#[trigger] pk[k]) by {
                assert((hk + rk)[k] == pk[k]);
            }
            assert forall|k: int| 0 <= k < ps.len() implies (hs + rs).contains(#[trigger] ps[k]) by {
                assert((hs + rs)[k] == ps[k]);
            }
        } else {
            lemma_pair_in_kills_from(bodies, i0, j0 + 1, i, j);
            assert forall|k: int| 0 <= k < pk.len() implies (hk + rk).contains(#[trigger] pk[k]) by {
                let m = choose|m: int| 0 <= m < rk.len() && rk[m] == pk[k];
                assert((hk + rk)[hk.len() + m] == pk[k]);
            }
            assert forall|k: int| 0 <= k < ps.len() implies (hs + rs).contains(#[trigger] ps[k]) by {
                let m = choose|m: int| 0 <= m < rs.len() && rs[m] == ps[k];
                assert((hs + rs)[hs.len() + m] == ps[k]);
            }
        }
    }
}

/// Every touching pair is found: a fish at most five rows tall that
/// touches teeth is eaten, leaving a splat where the teeth are, and a
/// bubble that touches a water line pops.
pub proof fn law_touching_prey_dies(bodies: Seq<Body>, a: int, b: int)
    requires
        0 <= a < bodies.len(),
        0 <= b < bodies.len(),
        overlap(bodies[a], bodies[b]),
        (bodies[a].kind == EntityType::Fish && bodies[b].kind == EntityType::Teeth && bodies[a].h
            <= 5) || (bodies[a].kind == EntityType::Bubble && bodies[b].kind
            == EntityType::Waterline),
    ensures
        kills_from(bodies, 0, 1).contains(bodies[a].id),
        bodies[a].kind == EntityType::Fish ==> splats_from(bodies, 0, 1).contains(
            (bodies[b].x, bodies[b].y, bodies[b].z),
        ),
{
    let (i, j) = if a < b {
        (a, b)
    } else {
        (b, a)
    };
    assert(overlap(bodies[i], bodies[j]));
    lemma_pair_in_kills_from(bodies, 0, 1, i, j);
    let pk = pair_kills(bodies[i], bodies[j]);
    let ps = pair_splats(bodies[i], bodies[j]);
    assert(pk[0] == bodies[a].id);
    if bodies[a].kind == EntityType::Fish {
        assert(ps[0] == (bodies[b].x, bodies[b].y, bodies[b].z));
    }
}

// ---------------------------------------------------------------------------
// Composition
// ---------------------------------------------------------------------------

/// An entity's current frame placed on the screen: the integer position of
/// its top-left corner, its depth (lower is nearer), and the colour of cells
/// that the frame leaves uncoloured.
pub struct Layer<'a> {
    pub frame: &'a Frame,
    pub x: i32,
    pub y: i32,
    pub z: i32,
    pub default_color: Color,
}

/// Rows of a frame that drawing visits: as many as both grids have.
pub open spec fn rows_of(l: Layer) -> int {
    let f = l.frame@;
    if f.cells.len() < f.colors.len() {
        f.cells.len() as int
    } else {
        f.colors.len() as int
    }
}

/// Columns of a frame row that drawing visits: as many as both rows have.
pub open spec fn cols_of(l: Layer, row: int) -> int {
    let f = l.frame@;
    if f.cells[row].len() < f.colors[row].len() {
        f.cells[row].len() as int
    } else {
        f.colors[row].len() as int
    }
}

/// Whether the frame shows a character at `(row, col)` of its own grid.
pub open spec fn visible_at(l: Layer, row: int, col: int) -> bool {
    0 <= row < rows_of(l) && 0 <= col < cols_of(l, row) && l.frame@.cells[row][col] is Some
}

/// Whether the layer shows a character on screen cell `(r, c)`.
pub open spec fn covers(l: Layer, r: int, c: int) -> bool {
    visible_at(l, r - l.y, c - l.x)
}

/// The cell that the layer puts on screen cell `(r, c)`: its character, in
/// the mask colour or else the layer's default colour.
pub open spec fn layer_cell(l: Layer, r: int, c: int) -> Cell {
    let f = l.frame@;
    Cell {
        ch: f.cells[r - l.y][c - l.x]->0,
        color: match f.colors[r - l.y][c - l.x] {
            Some(k) => k,
            None => l.default_color,
        },
    }
}

/// Which of the first `k` layers shows on screen cell `(r, c)`: among those
/// that cover it, the nearest (lowest z), and of equally near ones the last.
/// This is the layer drawn last when layers are drawn from the farthest to
/// the nearest, equal depths in their given order.
pub open spec fn winner(layers: Seq<Layer>, k: int, r: int, c: int) -> Option<int>
    decreases k,
{
    if k <= 0 {
        None
    } else {
        let p = winner(layers, k - 1, r, c);
        if covers(layers[k - 1], r, c) && (p is None || layers[k - 1].z <= layers[p->0].z) {
            Some(k - 1)
        } else {
            p
        }
    }
}

/// The screen cell that a winner gives.
pub open spec fn shown_by(layers: Seq<Layer>, w: Option<int>, r: int, c: int) -> Option<Cell> {
    match w {
        Some(j) => Some(layer_cell(layers[j], r, c)),
        None => None,
    }
}

/// What screen cell `(r, c)` shows once all layers are drawn.
pub open spec fn composed_cell(layers: Seq<Layer>, r: int, c: int) -> Option<Cell> {
    shown_by(layers, winner(layers, layers.len() as int, r, c), r, c)
}

/// A layer whose visible cells can be placed without overflow and that
/// `FrameBuffer::set` can take on a `w` by `h` screen.
pub open spec fn layer_safe(l: Layer, w: u16, h: u16) -> bool {
    forall|row: int, col: int|
        #![trigger visible_at(l, row, col)]
        visible_at(l, row, col) ==> {
            &&& row <= i32::MAX
            &&& col <= i32::MAX
            &&& l.x + col <= i32::MAX
            &&& l.y + row <= i32::MAX
            &&& set_safe((l.x + col) as i32, (l.y + row) as i32, w, h)
        }
}

/// Whether drawing of layer `l` has reached frame position `(row, col)`
/// beyond the position that lands on screen cell `(r, c)`.
pub open spec fn drawn(l: Layer, r: int, c: int, row: int, col: int) -> bool {
    let lr = r - l.y;
    let lc = c - l.x;
    lr < row || (lr == row && lc < col)
}

/// The winner while layer `k` is drawn up to frame position `(row, col)`.
pub open spec fn winner_during(
    layers: Seq<Layer>,
    k: int,
    r: int,
    c: int,
    row: int,
    col: int,
) -> Option<int> {
    let p = winner(layers, k, r, c);
    if covers(layers[k], r, c) && drawn(layers[k], r, c, row, col) && (p is None || layers[k].z
        <= layers[p->0].z) {
        Some(k)
    } else {
        p
    }
}

/// The state of the drawing after the first `k` layers and, of layer `k`,
/// the frame positions before `(row, col)`: each screen cell shows its
/// current winner, and the depth grid holds that winner's depth.
pub open spec fn drawing_state(
    layers: Seq<Layer>,
    fb: Seq<Seq<Option<Cell>>>,
    depth: Seq<Seq<i32>>,
    w: int,
    h: int,
    k: int,
    row: int,
    col: int,
) -> bool {
    forall|r: int, c: int|
        #![trigger fb[r][c]]
        0 <= r < h && 0 <= c < w ==> {
            let win = if k < layers.len() {
                winner_during(layers, k, r, c, row, col)
            } else {
                winner(layers, k, r, c)
            };
            &&& fb[r][c] == shown_by(layers, win, r, c)
            &&& win is Some ==> depth[r][c] == layers[win->0].z
        }
}

/// Whether a layer can be drawn on a `w` by `h` screen without failing.
pub fn layer_is_safe(l: &Layer, w: u16, h: u16) -> (ok: bool)
    ensures
        ok == layer_safe(*l, w, h),
{
    let f = l.frame;
    let nrows = if f.cells.len() < f.colors.len() {
        f.cells.len()
    } else {
        f.colors.len()
    };
    let mut row: usize = 0;
    while row < nrows
        invariant
            f == l.frame,
            nrows == rows_of(*l),
            nrows <= f.cells@.len(),
            nrows <= f.colors@.len(),
            row <= nrows,
            forall|rr: int, cc: int|
                #![trigger visible_at(*l, rr, cc)]
                0 <= rr < row && visible_at(*l, rr, cc) ==> {
                    &&& rr <= i32::MAX
                    &&& cc <= i32::MAX
                    &&& l.x + cc <= i32::MAX
                    &&& l.y + rr <= i32::MAX
                    &&& set_safe((l.x + cc) as i32, (l.y + rr) as i32, w, h)
                },
        decreases nrows - row,
    {
        let ncols = if f.cells[row].len() < f.colors[row].len() {
            f.cells[row].len()
        } else {
            f.colors[row].len()
        };
        assert(ncols == cols_of(*l, row as int));
        let mut col: usize = 0;
        while col < ncols
            invariant
                f == l.frame,
                nrows == rows_of(*l),
                nrows <= f.cells@.len(),
                nrows <= f.colors@.len(),
                row < nrows,
                ncols == cols_of(*l, row as int),
                ncols <= f.cells@[row as int]@.len(),
                ncols <= f.colors@[row as int]@.len(),
                col <= ncols,
                forall|rr: int, cc: int|
                    #![trigger visible_at(*l, rr, cc)]
                    (0 <= rr < row || (rr == row && 0 <= cc < col)) && visible_at(*l, rr, cc) ==> {
                        &&& rr <= i32::MAX
                        &&& cc <= i32::MAX
                        &&& l.x + cc <= i32::MAX
                        &&& l.y + rr <= i32::MAX
                        &&& set_safe((l.x + cc) as i32, (l.y + rr) as i32, w, h)
                    },
            decreases ncols - col,
        {
            if f.cells[row][col].is_some() {
                assert(visible_at(*l, row as int, col as int));
                if row > 2147483647 || col > 2147483647 {
                    return false;
                }
                let ri = row as i32;
                let ci = col as i32;
                if l.x > 2147483647 - ci || l.y > 2147483647 - ri {
                    return false;
                }
                let sx = l.x + ci;
                let sy = l.y + ri;
                let land = sx >= 0 && sy >= 0 && (#[verifier::truncate] (sx as u16)) < w && (
                #[verifier::truncate] (sy as u16)) < h;
                if land && !((sx as i64) < (w as i64) && (sy as i64) < (h as i64)) {
                    return false;
                }
            }
            col = col + 1;
        }
        row = row + 1;
    }
    true
}

proof fn lemma_winner_during_start(layers: Seq<Layer>, k: int, r: int, c: int)
    requires
        0 <= k < layers.len(),
    ensures
        winner_during(layers, k, r, c, 0, 0) == winner(layers, k, r, c),
{
}

proof fn lemma_winner_during_end(layers: Seq<Layer>, k: int, r: int, c: int)
    requires
        0 <= k < layers.len(),
    ensures
        winner_during(layers, k, r, c, rows_of(layers[k]), 0) == winner(layers, k + 1, r, c),
{
}

proof fn lemma_winner_during_next_row(layers: Seq<Layer>, k: int, r: int, c: int, row: int)
    requires
        0 <= k < layers.len(),
        0 <= row < rows_of(layers[k]),
    ensures
        winner_during(layers, k, r, c, row, cols_of(layers[k], row)) == winner_during(
            layers,
            k,
            r,
            c,
            row + 1,
            0,
        ),
{
}

/// Draws the layers onto an empty `width` by `height` buffer, the farthest
/// first, so that each screen cell shows its nearest covering layer (of
/// equally near ones, the last given).
pub fn compose(width: u16, height: u16, layers: &Vec<Layer>) -> (fb: FrameBuffer)
    requires
        forall|k: int| 0 <= k < layers@.len() ==> layer_safe(#[trigger] layers@[k], width, height),
    ensures
        fb.wf(),
        fb.width == width,
        fb.height == height,
        forall|r: int, c: int|
            0 <= r < height && 0 <= c < width ==> #[trigger] fb.grid()[r][c] == composed_cell(
                layers@,
                r,
                c,
            ),
{
    let ghost ls = layers@;
    let ghost w = width as int;
    let ghost h = height as int;
    let mut fb = FrameBuffer::new(width, height);
    let mut depth: Vec<Vec<i32>> = Vec::new();
    let mut ri: u16 = 0;
    while ri < height
        invariant
            ri <= height,
            depth@.len() == ri,
            forall|i: int| 0 <= i < ri ==> (#[trigger] depth@[i])@.len() == width,
        decreases height - ri,
    {
        let mut drow: Vec<i32> = Vec::new();
        let mut ci: u16 = 0;
        while ci < width
            invariant
                ci <= width,
                drow@.len() == ci,
            decreases width - ci,
        {
            drow.push(0);
            ci = ci + 1;
        }
        depth.push(drow);
        ri = ri + 1;
    }
    let n = layers.len();
    let mut k: usize = 0;
    while k < n
        invariant
            ls == layers@,
            n == ls.len(),
            w == width,
            h == height,
            k <= n,
            forall|j: int| 0 <= j < ls.len() ==> layer_safe(#[trigger] ls[j], width, height),
            fb.wf(),
            fb.width == width,
            fb.height == height,
            depth@.len() == height,
            forall|i: int| 0 <= i < height ==> (#[trigger] depth@[i])@.len() == width,
            drawing_state(
                ls,
                fb.grid(),
                Seq::new(depth@.len(), |i: int| depth@[i]@),
                w,
                h,
                k as int,
                0,
                0,
            ),
        decreases n - k,
    {
        let layer = &layers[k];
        let f = layer.frame;
        let nrows = if f.cells.len() < f.colors.len() {
            f.cells.len()
        } else {
            f.colors.len()
        };
        let mut row: usize = 0;
        while row < nrows
            invariant
                ls == layers@,
                n == ls.len(),
                w == width,
                h == height,
                k < n,
                *layer == ls[k as int],
                f == layer.frame,
                nrows == rows_of(*layer),
                nrows <= f.cells@.len(),
                nrows <= f.colors@.len(),
                row <= nrows,
                layer_safe(*layer, width, height),
                fb.wf(),
                fb.width == width,
                fb.height == height,
                depth@.len() == height,
                forall|i: int| 0 <= i < height ==> (#[trigger] depth@[i])@.len() == width,
                drawing_state(
                    ls,
                    fb.grid(),
                    Seq::new(depth@.len(), |i: int| depth@[i]@),
                    w,
                    h,
                    k as int,
                    row as int,
                    0,
                ),
            decreases nrows - row,
        {
            let ncols = if f.cells[row].len() < f.colors[row].len() {
                f.cells[row].len()
            } else {
                f.colors[row].len()
            };
            let mut col: usize = 0;
            while col < ncols
                invariant
                    ls == layers@,
                    n == ls.len(),
                    w == width,
                    h == height,
                    k < n,
                    *layer == ls[k as int],
                    f == layer.frame,
                    nrows == rows_of(*layer),
                    nrows <= f.cells@.len(),
                    nrows <= f.colors@.len(),
                    row < nrows,
                    ncols == cols_of(*layer, row as int),
                    ncols <= f.cells@[row as int]@.len(),
                    ncols <= f.colors@[row as int]@.len(),
                    col <= ncols,
                    layer_safe(*layer, width, height),
                    fb.wf(),
                    fb.width == width,
                    fb.height == height,
                    depth@.len() == height,
                    forall|i: int| 0 <= i < height ==> (#[trigger] depth@[i])@.len() == width,
                    drawing_state(
                        ls,
                        fb.grid(),
                        Seq::new(depth@.len(), |i: int| depth@[i]@),
                        w,
                        h,
                        k as int,
                        row as int,
                        col as int,
                    ),
                decreases ncols - col,
            {
                let ghost g0 = fb.grid();
                let ghost d0 = Seq::new(depth@.len(), |i: int| depth@[i]@);
                if let Some(ch) = f.cells[row][col] {
                    assert(visible_at(*layer, row as int, col as int));
                    let sx = layer.x + col as i32;
                    let sy = layer.y + row as i32;
                    if sx >= 0 && sy >= 0 && (#[verifier::truncate] (sx as u16)) < width && (
                    #[verifier::truncate] (sy as u16)) < height {
                        assert(sx < width && sy < height);
                        let rr = sy as usize;
                        let cc = sx as usize;
                        assert(fb.cells@[rr as int]@ == g0[rr as int]);
                        assert(depth@[rr as int]@ == d0[rr as int]);
                        let ghost p = winner(ls, k as int, sy as int, sx as int);
                        assert(!drawn(*layer, sy as int, sx as int, row as int, col as int));
                        assert(winner_during(ls, k as int, sy as int, sx as int, row as int, col as int) == p);
                        assert(g0[sy as int][sx as int] == shown_by(ls, p, sy as int, sx as int));
                        assert(covers(*layer, sy as int, sx as int));
                        let take = match fb.cells[rr][cc] {
                            None => true,
                            Some(_) => layer.z <= depth[rr][cc],
                        };
                        assert(take == (p is None || layer.z <= ls[p->0].z));
                        if take {
                            let color = match f.colors[row][col] {
                                Some(cl) => cl,
                                None => layer.default_color,
                            };
                            assert(Cell { ch, color } == layer_cell(*layer, sy as int, sx as int));
                            fb.set(sx, sy, ch, color);
                            let mut drow: Vec<i32> = Vec::new();
                            std::mem::swap(&mut drow, &mut depth[rr]);
                            drow.set(cc, layer.z);
                            depth.set(rr, drow);
                            assert(fb.grid() == g0.update(
                                sy as int,
                                g0[sy as int].update(sx as int, Some(Cell { ch, color })),
                            ));
                        }
                        proof {
                            let d1 = Seq::new(depth@.len(), |i: int| depth@[i]@);
                            if take {
                                assert(d1 =~= d0.update(
                                    sy as int,
                                    d0[sy as int].update(sx as int, layer.z),
                                ));
                            } else {
                                assert(d1 =~= d0);
                            }
                            assert forall|r: int, c: int|
                                #![trigger fb.grid()[r][c]]
                                0 <= r < h && 0 <= c < w implies {
                                let win = winner_during(ls, k as int, r, c, row as int, col + 1);
                                &&& fb.grid()[r][c] == shown_by(ls, win, r, c)
                                &&& win is Some ==> d1[r][c] == ls[win->0].z
                            } by {
                                assert(g0[r][c] == g0[r][c]);
                                if r == sy && c == sx {
                                } else {
                                    assert(winner_during(ls, k as int, r, c, row as int, col + 1)
                                        == winner_during(ls, k as int, r, c, row as int, col as int));
                                    assert(fb.grid()[r][c] == g0[r][c]);
                                    assert(d1[r][c] == d0[r][c]);
                                }
                            }
                        }
                    } else {
                        proof {
                            assert forall|r: int, c: int|
                                #![trigger fb.grid()[r][c]]
                                0 <= r < h && 0 <= c < w implies winner_during(
                                ls,
                                k as int,
                                r,
                                c,
                                row as int,
                                col + 1,
                            ) == winner_during(ls, k as int, r, c, row as int, col as int) by {
                                assert(g0[r][c] == g0[r][c]);
                            }
                        }
                    }
                } else {
                    proof {
                        assert forall|r: int, c: int|
                            #![trigger fb.grid()[r][c]]
                            0 <= r < h && 0 <= c < w implies winner_during(
                            ls,
                            k as int,
                            r,
                            c,
                            row as int,
                            col + 1,
                        ) == winner_during(ls, k as int, r, c, row as int, col as int) by {
                            assert(g0[r][c] == g0[r][c]);
                        }
                    }
                }
                col = col + 1;
            }
            proof {
                assert forall|r: int, c: int|
                    #![trigger fb.grid()[r][c]]
                    0 <= r < h && 0 <= c < w implies winner_during(
                    ls,
                    k as int,
                    r,
                    c,
                    row as int,
                    ncols as int,
                ) == winner_during(ls, k as int, r, c, row + 1, 0) by {
                    lemma_winner_during_next_row(ls, k as int, r, c, row as int);
                }
            }
            row = row + 1;
        }
        proof {
            assert forall|r: int, c: int|
                #![trigger fb.grid()[r][c]]
                0 <= r < h && 0 <= c < w implies winner_during(
                ls,
                k as int,
                r,
                c,
                nrows as int,
                0,
            ) == (if k + 1 < n {
                winner_during(ls, k + 1, r, c, 0, 0)
            } else {
                winner(ls, k + 1, r, c)
            }) by {
                lemma_winner_during_end(ls, k as int, r, c);
                if k + 1 < n {
                    lemma_winner_during_start(ls, k + 1, r, c);
                }
            }
        }
        k = k + 1;
    }
    fb
}

/// The winner among the first `k` layers covers the cell, is at least as
/// near as every other covering layer, and comes after every equally near
/// one; with no covering layer there is none.
proof fn lemma_winner_is_nearest(layers: Seq<Layer>, k: int, r: int, c: int)
    requires
        0 <= k <= layers.len(),
    ensures
        winner(layers, k, r, c) is None <==> (forall|i: int|
            0 <= i < k ==> !covers(#[trigger] layers[i], r, c)),
        winner(layers, k, r, c) matches Some(j) ==> {
            &&& 0 <= j < k
            &&& covers(layers[j], r, c)
            &&& forall|i: int|
                0 <= i < k && covers(#[trigger] layers[i], r, c) ==> layers[j].z < layers[i].z || (
                layers[j].z == layers[i].z && i <= j)
        },
    decreases k,
{
    if k > 0 {
        lemma_winner_is_nearest(layers, k - 1, r, c);
    }
}

/// What a screen cell shows after composition: nothing if no layer covers
/// it; otherwise the cell of a covering layer that is nearest (lowest z),
/// the last of the equally near ones.
pub proof fn law_nearest_layer_shows(layers: Seq<Layer>, r: int, c: int)
    ensures
        composed_cell(layers, r, c) is None <==> (forall|i: int|
            0 <= i < layers.len() ==> !covers(#[trigger] layers[i], r, c)),
        composed_cell(layers, r, c) is Some ==> exists|j: int|
            0 <= j < layers.len() && covers(layers[j], r, c) && composed_cell(layers, r, c)
                == Some(layer_cell(layers[j], r, c)) && (forall|i: int|
                0 <= i < layers.len() && covers(#[trigger] layers[i], r, c) ==> layers[j].z
                    < layers[i].z || (layers[j].z == layers[i].z && i <= j)),
{
    lemma_winner_is_nearest(layers, layers.len() as int, r, c);
}

} // verus!
