//! The levels a game starts from.
use vstd::prelude::*;

use crate::bot::{BotData, BuildingKind, FrameKind, Subsystem, Subsystems};
use crate::game::{BotEntry, CellState, ServerGrid};
use crate::gridworld::{is_path, GridWorld, PassableCell};
use crate::known_map::{ClientCellState, KnownMap};
use crate::rng::{random_range, thread_rng};
use crate::types::{CellKind, Energy, Item, Pos, Team};
use crate::text::{push_str, str_eq};
use crate::world::World;
use rand::rngs::ThreadRng;

verus! {

/// `(x, y)` lies on the edge of a `width` by `height` grid.
pub open spec fn on_border(x: int, y: int, width: int, height: int) -> bool {
    x == 0 || y == 0 || x == width - 1 || y == height - 1
}

/// A cell something new can be put on.
pub open spec fn free(c: CellState) -> bool {
    c.kind == CellKind::Empty && c.pawn is None && c.partially_built_bot is None && c.item is None
}

/// Every cell of the grid is empty or blocked and holds no bot under construction; the edge is
/// blocked.
pub open spec fn walled(grid: ServerGrid) -> bool {
    &&& forall|x: int, y: int|
        #![trigger grid.spec_cell(x, y)]
        grid.spec_in_bounds(x, y) ==> (grid.spec_cell(x, y).kind == CellKind::Empty || grid.spec_cell(
            x,
            y,
        ).kind == CellKind::Blocked) && grid.spec_cell(x, y).partially_built_bot is None
    &&& forall|x: int, y: int|
        #![trigger grid.spec_cell(x, y)]
        grid.spec_in_bounds(x, y) && on_border(
            x,
            y,
            grid.spec_width() as int,
            grid.spec_height() as int,
        ) ==> grid.spec_cell(x, y).kind == CellKind::Blocked
}

pub open spec fn empty_cell() -> CellState {
    CellState { kind: CellKind::Empty, partially_built_bot: None, pawn: None, item: None }
}

pub open spec fn blocked_cell() -> CellState {
    CellState { kind: CellKind::Blocked, partially_built_bot: None, pawn: None, item: None }
}

fn block(grid: &mut ServerGrid, x: usize, y: usize)
    requires
        old(grid).spec_in_bounds(x as int, y as int),
    ensures
        final(grid).spec_updated(old(grid), x as int, y as int, blocked_cell()),
{
    grid.set_tuple(x, y, CellState::blocked());
}

/// A free interior cell: tries random ones, then looks through them in order; `None` when there
/// is none.
fn find_empty_cell(grid: &ServerGrid, rng: &mut ThreadRng) -> (r: Option<(usize, usize)>)
    requires
        grid.spec_width() >= 3,
        grid.spec_height() >= 3,
    ensures
        r matches Some((x, y)) ==> 1 <= x < grid.spec_width() - 1 && 1 <= y < grid.spec_height()
            - 1 && free(grid.spec_cell(x as int, y as int)),
        r is None ==> forall|x: int, y: int|
            1 <= x < grid.spec_width() - 1 && 1 <= y < grid.spec_height() - 1 ==> !free(
                #[trigger] grid.spec_cell(x, y),
            ),
{
    let w = grid.width();
    let h = grid.height();
    let mut tries: usize = 0;
    while tries < 10000
        invariant
            w == grid.spec_width(),
            h == grid.spec_height(),
            w >= 3,
            h >= 3,
        decreases 10000 - tries,
    {
        let x = random_range(rng, 1, w - 1);
        let y = random_range(rng, 1, h - 1);
        let cell = grid.get_tuple(x, y);
        if cell.can_enter() && cell.pawn.is_none() && cell.item.is_none() {
            return Some((x, y));
        }
        tries = tries + 1;
    }
    let mut x: usize = 1;
    while x < w - 1
        invariant
            1 <= x <= w - 1,
            w == grid.spec_width(),
            h == grid.spec_height(),
            w >= 3,
            h >= 3,
            forall|a: int, b: int|
                1 <= a < x && 1 <= b < h - 1 ==> !free(#[trigger] grid.spec_cell(a, b)),
        decreases w - x,
    {
        let mut y: usize = 1;
        while y < h - 1
            invariant
                1 <= x < w - 1,
                1 <= y <= h - 1,
                w == grid.spec_width(),
                h == grid.spec_height(),
                forall|a: int, b: int|
                    1 <= a < x && 1 <= b < h - 1 ==> !free(#[trigger] grid.spec_cell(a, b)),
                forall|b: int| 1 <= b < y ==> !free(#[trigger] grid.spec_cell(x as int, b)),
            decreases h - y,
        {
            let cell = grid.get_tuple(x, y);
            if cell.can_enter() && cell.pawn.is_none() && cell.item.is_none() {
                return Some((x, y));
            }
            y = y + 1;
        }
        x = x + 1;
    }
    None
}


/// Every cell is empty or blocked, with nothing on it.
pub open spec fn plain(grid: ServerGrid) -> bool {
    forall|x: int, y: int|
        #![trigger grid.spec_cell(x, y)]
        grid.spec_in_bounds(x, y) ==> (grid.spec_cell(x, y) == empty_cell()
            || grid.spec_cell(x, y) == blocked_cell())
}

/// Blocks the edge of the grid.
fn add_border(grid: &mut ServerGrid)
    requires
        plain(*old(grid)),
        old(grid).spec_width() >= 1,
        old(grid).spec_height() >= 1,
    ensures
        plain(*final(grid)),
        final(grid).spec_width() == old(grid).spec_width(),
        final(grid).spec_height() == old(grid).spec_height(),
        forall|x: int, y: int|
            #![trigger final(grid).spec_cell(x, y)]
            final(grid).spec_in_bounds(x, y) && on_border(
                x,
                y,
                final(grid).spec_width() as int,
                final(grid).spec_height() as int,
            ) ==> final(grid).spec_cell(x, y) == blocked_cell(),
        forall|x: int, y: int|
            #![trigger final(grid).spec_cell(x, y)]
            final(grid).spec_in_bounds(x, y) && !on_border(
                x,
                y,
                final(grid).spec_width() as int,
                final(grid).spec_height() as int,
            ) ==> final(grid).spec_cell(x, y) == old(grid).spec_cell(x, y),
{
    let ghost g0 = *grid;
    let width = grid.width();
    let height = grid.height();
    let mut x: usize = 0;
    while x < width
        invariant
            x <= width,
            width == grid.spec_width(),
            height == grid.spec_height(),
            height >= 1,
            plain(*grid),
            width == g0.spec_width(),
            height == g0.spec_height(),
            forall|a: int, b: int|
                #![trigger grid.spec_cell(a, b)]
                grid.spec_in_bounds(a, b) && !on_border(a, b, width as int, height as int)
                    ==> grid.spec_cell(a, b) == g0.spec_cell(a, b),
            forall|a: int, b: int|
                #![trigger grid.spec_cell(a, b)]
                0 <= a < x && (b == 0 || b == height - 1) ==> grid.spec_cell(a, b) == blocked_cell(),
        decreases width - x,
    {
        block(grid, x, 0);
        block(grid, x, height - 1);
        x = x + 1;
    }
    let mut y: usize = 0;
    while y < height
        invariant
            y <= height,
            width == grid.spec_width(),
            height == grid.spec_height(),
            width >= 1,
            plain(*grid),
            width == g0.spec_width(),
            height == g0.spec_height(),
            forall|a: int, b: int|
                #![trigger grid.spec_cell(a, b)]
                grid.spec_in_bounds(a, b) && !on_border(a, b, width as int, height as int)
                    ==> grid.spec_cell(a, b) == g0.spec_cell(a, b),
            forall|a: int, b: int|
                #![trigger grid.spec_cell(a, b)]
                0 <= a < width && (b == 0 || b == height - 1) ==> grid.spec_cell(a, b)
                    == blocked_cell(),
            forall|a: int, b: int|
                #![trigger grid.spec_cell(a, b)]
                0 <= b < y && (a == 0 || a == width - 1) ==> grid.spec_cell(a, b) == blocked_cell(),
        decreases height - y,
    {
        block(grid, 0, y);
        block(grid, width - 1, y);
        y = y + 1;
    }
}

/// Cell `i` of a wall segment from `(sx, sy)` in direction `dir` (right, down, left, up);
/// going left or up it stops at the edge of the coordinates.
pub open spec fn seg_cell(sx: int, sy: int, dir: int, i: int) -> (int, int) {
    if dir == 0 {
        (sx + i, sy)
    } else if dir == 1 {
        (sx, sy + i)
    } else if dir == 2 {
        (if i <= sx {
            sx - i
        } else {
            0
        }, sy)
    } else {
        (sx, if i <= sy {
            sy - i
        } else {
            0
        })
    }
}

/// Some segment of `segs`, each a length, a start and a direction, has `(x, y)` among its cells.
pub open spec fn covered(segs: Seq<(int, int, int, int)>, x: int, y: int) -> bool {
    exists|k: int, i: int|
        0 <= k < segs.len() && 0 <= i < segs[k].0 && #[trigger] seg_cell(
            segs[k].1,
            segs[k].2,
            segs[k].3,
            i,
        ) == (x, y)
}

/// A cell off the edge of a `width` by `height` grid.
pub open spec fn interior(x: int, y: int, width: int, height: int) -> bool {
    1 <= x < width - 1 && 1 <= y < height - 1
}

/// A segment that the level may draw: 5 to 20 cells long, starting two cells or more from the
/// edge, in one of four directions.
pub open spec fn wall_segment(s: (int, int, int, int), width: int, height: int) -> bool {
    &&& 5 <= s.0 <= 20
    &&& 2 <= s.1 < width - 2
    &&& 2 <= s.2 < height - 2
    &&& 0 <= s.3 < 4
}

/// `g1` is `g0` with the interior cells of the segments `segs` blocked.
pub open spec fn walls_drawn(g1: ServerGrid, g0: ServerGrid, segs: Seq<(int, int, int, int)>) -> bool {
    forall|x: int, y: int|
        #![trigger g1.spec_cell(x, y)]
        g1.spec_in_bounds(x, y) ==> g1.spec_cell(x, y) == if interior(
            x,
            y,
            g1.spec_width() as int,
            g1.spec_height() as int,
        ) && covered(segs, x, y) {
            blocked_cell()
        } else {
            g0.spec_cell(x, y)
        }
}

proof fn lemma_cover_empty(segs: Seq<(int, int, int, int)>, sx: int, sy: int, dir: int, x: int, y: int)
    ensures
        covered(segs.push((0, sx, sy, dir)), x, y) == covered(segs, x, y),
{
    let t = segs.push((0, sx, sy, dir));
    if covered(t, x, y) {
        let (k, i) = choose|k: int, i: int|
            0 <= k < t.len() && 0 <= i < t[k].0 && #[trigger] seg_cell(t[k].1, t[k].2, t[k].3, i) == (x, y);
        assert(k < segs.len());
        assert(t[k] == segs[k]);
    }
    if covered(segs, x, y) {
        let (k, i) = choose|k: int, i: int|
            0 <= k < segs.len() && 0 <= i < segs[k].0 && #[trigger] seg_cell(
                segs[k].1,
                segs[k].2,
                segs[k].3,
                i,
            ) == (x, y);
        assert(t[k] == segs[k]);
    }
}

proof fn lemma_cover_step(
    segs: Seq<(int, int, int, int)>,
    sx: int,
    sy: int,
    dir: int,
    n: int,
    x: int,
    y: int,
)
    requires
        n >= 0,
    ensures
        covered(segs.push((n + 1, sx, sy, dir)), x, y) == (covered(segs.push((n, sx, sy, dir)), x, y)
            || seg_cell(sx, sy, dir, n) == (x, y)),
{
    let a = segs.push((n, sx, sy, dir));
    let b = segs.push((n + 1, sx, sy, dir));
    if covered(b, x, y) {
        let (k, i) = choose|k: int, i: int|
            0 <= k < b.len() && 0 <= i < b[k].0 && #[trigger] seg_cell(b[k].1, b[k].2, b[k].3, i) == (x, y);
        if k < segs.len() {
            assert(a[k] == b[k]);
            assert(seg_cell(a[k].1, a[k].2, a[k].3, i) == (x, y));
        } else {
            assert(b[k] == (n + 1, sx, sy, dir));
            assert(a[k] == (n, sx, sy, dir));
            if i < n {
                assert(seg_cell(a[k].1, a[k].2, a[k].3, i) == (x, y));
            } else {
                assert(seg_cell(sx, sy, dir, n) == (x, y));
            }
        }
    }
    if covered(a, x, y) {
        let (k, i) = choose|k: int, i: int|
            0 <= k < a.len() && 0 <= i < a[k].0 && #[trigger] seg_cell(a[k].1, a[k].2, a[k].3, i) == (x, y);
        if k < segs.len() {
            assert(a[k] == b[k]);
        } else {
            assert(b[k] == (n + 1, sx, sy, dir));
            assert(a[k] == (n, sx, sy, dir));
        }
        assert(seg_cell(b[k].1, b[k].2, b[k].3, i) == (x, y));
    }
    if seg_cell(sx, sy, dir, n) == (x, y) {
        assert(b[segs.len() as int] == (n + 1, sx, sy, dir));
        assert(seg_cell(b[segs.len() as int].1, b[segs.len() as int].2, b[segs.len() as int].3, n) == (x, y));
    }
}

/// Five straight wall segments of random length, start and direction, kept off the edge.
fn add_walls(grid: &mut ServerGrid, rng: &mut ThreadRng)
    requires
        plain(*old(grid)),
        old(grid).spec_width() >= 5,
        old(grid).spec_height() >= 5,
        old(grid).spec_width() * old(grid).spec_height() <= usize::MAX,
    ensures
        plain(*final(grid)),
        final(grid).spec_width() == old(grid).spec_width(),
        final(grid).spec_height() == old(grid).spec_height(),
        forall|x: int, y: int|
            #![trigger final(grid).spec_cell(x, y)]
            final(grid).spec_in_bounds(x, y) && on_border(
                x,
                y,
                final(grid).spec_width() as int,
                final(grid).spec_height() as int,
            ) ==> final(grid).spec_cell(x, y) == old(grid).spec_cell(x, y),
        exists|segs: Seq<(int, int, int, int)>|
            #![trigger walls_drawn(*final(grid), *old(grid), segs)]
            segs.len() == 5 && (forall|k: int|
                0 <= k < 5 ==> wall_segment(
                    #[trigger] segs[k],
                    old(grid).spec_width() as int,
                    old(grid).spec_height() as int,
                )) && walls_drawn(*final(grid), *old(grid), segs),
{
    let width = grid.width();
    let height = grid.height();
    assert(width <= usize::MAX / 5) by (nonlinear_arith)
        requires
            width * height <= usize::MAX,
            height >= 5,
    ;
    assert(height <= usize::MAX / 5) by (nonlinear_arith)
        requires
            width * height <= usize::MAX,
            width >= 5,
    ;
    let ghost g0 = *grid;
    let ghost mut segs: Seq<(int, int, int, int)> = Seq::empty();
    let mut n: usize = 0;
    while n < 5
        invariant
            segs.len() == n,
            n <= 5,
            forall|k: int| 0 <= k < n ==> wall_segment(#[trigger] segs[k], width as int, height as int),
            walls_drawn(*grid, g0, segs),
            width == grid.spec_width(),
            height == grid.spec_height(),
            width == g0.spec_width(),
            height == g0.spec_height(),
            5 <= width <= usize::MAX / 5,
            5 <= height <= usize::MAX / 5,
            plain(*grid),
            forall|x: int, y: int|
                #![trigger grid.spec_cell(x, y)]
                grid.spec_in_bounds(x, y) && on_border(x, y, width as int, height as int)
                    ==> grid.spec_cell(x, y) == g0.spec_cell(x, y),
        decreases 5 - n,
    {
        let segment_length = random_range(rng, 5, 21);
        let start_x = random_range(rng, 2, width - 2);
        let start_y = random_range(rng, 2, height - 2);
        let direction = random_range(rng, 0, 4);
        let ghost sx = start_x as int;
        let ghost sy = start_y as int;
        let ghost dir = direction as int;
        proof {
            assert forall|x: int, y: int|
                #![trigger grid.spec_cell(x, y)]
                grid.spec_in_bounds(x, y) implies grid.spec_cell(x, y) == if interior(
                x,
                y,
                grid.spec_width() as int,
                grid.spec_height() as int,
            ) && covered(segs.push((0, sx, sy, dir)), x, y) {
                blocked_cell()
            } else {
                g0.spec_cell(x, y)
            } by {
                lemma_cover_empty(segs, sx, sy, dir, x, y);
            }
        }
        let mut i: usize = 0;
        while i < segment_length
            invariant
                segs.len() == n,
                n < 5,
                forall|k: int| 0 <= k < n ==> wall_segment(#[trigger] segs[k], width as int, height as int),
                walls_drawn(*grid, g0, segs.push((i as int, sx, sy, dir))),
                sx == start_x,
                sy == start_y,
                dir == direction,
                direction < 4,
                i <= segment_length,
                width == grid.spec_width(),
                height == grid.spec_height(),
                width == g0.spec_width(),
                height == g0.spec_height(),
                5 <= width <= usize::MAX / 5,
                5 <= height <= usize::MAX / 5,
                start_x < width,
                start_y < height,
                segment_length <= 21,
                plain(*grid),
                forall|x: int, y: int|
                    #![trigger grid.spec_cell(x, y)]
                    grid.spec_in_bounds(x, y) && on_border(x, y, width as int, height as int)
                        ==> grid.spec_cell(x, y) == g0.spec_cell(x, y),
            decreases segment_length - i,
        {
            let (wall_x, wall_y) = if direction == 0 {
                (start_x + i, start_y)
            } else if direction == 1 {
                (start_x, start_y + i)
            } else if direction == 2 {
                (start_x.saturating_sub(i), start_y)
            } else {
                (start_x, start_y.saturating_sub(i))
            };
            assert((wall_x as int, wall_y as int) == seg_cell(sx, sy, dir, i as int));
            let ghost before = *grid;
            if wall_x >= 1 && wall_x < width - 1 && wall_y >= 1 && wall_y < height - 1 {
                block(grid, wall_x, wall_y);
            }
            proof {
                assert forall|x: int, y: int|
                    #![trigger grid.spec_cell(x, y)]
                    grid.spec_in_bounds(x, y) implies grid.spec_cell(x, y) == if interior(
                    x,
                    y,
                    grid.spec_width() as int,
                    grid.spec_height() as int,
                ) && covered(segs.push((i + 1, sx, sy, dir)), x, y) {
                    blocked_cell()
                } else {
                    g0.spec_cell(x, y)
                } by {
                    lemma_cover_step(segs, sx, sy, dir, i as int, x, y);
                    assert(before.spec_in_bounds(x, y));
                    if !(x == wall_x && y == wall_y) {
                        assert(grid.spec_cell(x, y) == before.spec_cell(x, y));
                    }
                }
            }
            i = i + 1;
        }
        proof {
            segs = segs.push((segment_length as int, sx, sy, dir));
        }
        n = n + 1;
    }
    assert(walls_drawn(*grid, g0, segs));
}

/// The level's base: a small building of the player's team with an assembler, three cargo
/// bays and two power cells, full of energy and holding six metal.
pub open spec fn econ_base(d: BotData, pos: Pos, width: usize, height: usize) -> bool {
    &&& d.frame == FrameKind::Building(BuildingKind::Small)
    &&& d.subsystems@ == Subsystems::spec_from_list(
        seq![(Subsystem::Assembler, 1u8), (Subsystem::CargoBay, 3u8), (Subsystem::PowerCell, 2u8)],
    )
    &&& d.pos == pos
    &&& d.team == Team::Player
    &&& d.energy.0 == crate::bot::spec_max_energy(d.frame, d.subsystems@)
    &&& d.inventory.count(Item::Metal) == 6
    &&& d.inventory.count(Item::Crumb) == 0
    &&& d.inventory.count(Item::Fent) == 0
    &&& d.inventory.count(Item::Truffle) == 0
    &&& d.known_map.map.spec_width() == width
    &&& d.known_map.map.spec_height() == height
    &&& forall|x: int, y: int|
        d.known_map.map.spec_in_bounds(x, y) ==> #[trigger] d.known_map.map.spec_cell(x, y)
            == ClientCellState { kind: CellKind::Unknown, pawn: None, item: None, last_observed: 0 }
    &&& d.known_bots@.len() == 0
}

/// What the economy level holds on its grid: walls, metal on open cells and the base's pawn,
/// nothing else.
pub open spec fn econ_grid(grid: ServerGrid, bots: Seq<BotEntry>) -> bool {
    &&& walled(grid)
    &&& forall|x: int, y: int|
        #![trigger grid.spec_cell(x, y)]
        grid.spec_in_bounds(x, y) ==> (grid.spec_cell(x, y).item is None || (grid.spec_cell(
            x,
            y,
        ).item == Some(Item::Metal) && grid.spec_cell(x, y).kind == CellKind::Empty))
    &&& forall|x: int, y: int|
        #![trigger grid.spec_cell(x, y)]
        grid.spec_in_bounds(x, y) && grid.spec_cell(x, y).pawn is Some ==> bots.len() == 1
            && grid.spec_cell(x, y).pawn == Some(0u64) && bots[0].data.pos == Pos(
            (x as usize, y as usize),
        ) && grid.spec_cell(x, y).item is None
}

/// How many cells of a `width` by `height` economy level get metal: one in twenty, at most 20.
pub open spec fn econ_metal_count(width: int, height: int) -> int {
    if 20 < width * height / 20 {
        20
    } else {
        width * height / 20
    }
}

/// `s` lists, once each, exactly the cells of `g` that hold metal.
pub open spec fn metal_list(g: ServerGrid, s: Seq<(int, int)>) -> bool {
    &&& s.no_duplicates()
    &&& forall|i: int|
        0 <= i < s.len() ==> g.spec_in_bounds(#[trigger] s[i].0, s[i].1) && g.spec_cell(s[i].0, s[i].1).item
            == Some(Item::Metal)
    &&& forall|x: int, y: int|
        #![trigger g.spec_cell(x, y)]
        g.spec_in_bounds(x, y) && g.spec_cell(x, y).item == Some(Item::Metal) ==> s.contains((x, y))
}

/// No cell off the edge of `g` is free.
pub open spec fn no_free_inner(g: ServerGrid) -> bool {
    forall|x: int, y: int|
        1 <= x < g.spec_width() - 1 && 1 <= y < g.spec_height() - 1 ==> !free(#[trigger] g.spec_cell(x, y))
}

/// The walls off the edge of `g` are exactly the cells of the five segments `segs`.
pub open spec fn econ_walls(g: ServerGrid, segs: Seq<(int, int, int, int)>) -> bool {
    &&& segs.len() == 5
    &&& forall|k: int|
        0 <= k < 5 ==> wall_segment(#[trigger] segs[k], g.spec_width() as int, g.spec_height() as int)
    &&& forall|x: int, y: int|
        #![trigger g.spec_cell(x, y)]
        g.spec_in_bounds(x, y) && interior(x, y, g.spec_width() as int, g.spec_height() as int) ==> (
        g.spec_cell(x, y).kind == CellKind::Blocked <==> covered(segs, x, y))
}

/// No wall segment reaches cell `(1, 1)`: segments start two cells from the edge, and one that
/// runs back to the first row or column does so in a row or column of its own start.
proof fn lemma_corner_open(segs: Seq<(int, int, int, int)>, width: int, height: int)
    requires
        forall|k: int| 0 <= k < segs.len() ==> wall_segment(#[trigger] segs[k], width, height),
    ensures
        !covered(segs, 1, 1),
{
    if covered(segs, 1, 1) {
        let (k, i) = choose|k: int, i: int|
            0 <= k < segs.len() && 0 <= i < segs[k].0 && #[trigger] seg_cell(
                segs[k].1,
                segs[k].2,
                segs[k].3,
                i,
            ) == (1int, 1int);
        assert(wall_segment(segs[k], width, height));
    }
}

/// The economy level: a walled `width` by `height` map with five random wall segments, a base
/// of the player's team on a free inner cell, and metal on one cell in twenty (at most twenty)
/// of the free inner cells, or on all of them when there are fewer.
pub fn init_econ_loop(width: usize, height: usize) -> (w: World)
    requires
        5 <= width < isize::MAX,
        5 <= height < isize::MAX,
        width * height <= usize::MAX,
    ensures
        w.tick == 0,
        w.grid.spec_width() == width,
        w.grid.spec_height() == height,
        econ_grid(w.grid, w.bots@),
        w.partially_built@.len() == 0,
        w.bots@.len() == 1,
        exists|segs: Seq<(int, int, int, int)>| #[trigger] econ_walls(w.grid, segs),
        exists|placed: Seq<(int, int)>|
            #[trigger] metal_list(w.grid, placed) && (placed.len() == econ_metal_count(
                width as int,
                height as int,
            ) || (placed.len() < econ_metal_count(width as int, height as int) && no_free_inner(w.grid))),
        ({
            let b = w.bots@[0];
            &&& b.entity == 0
            &&& b.bot_id == 0
            &&& b.current_action is None
            &&& b.past_actions@.len() == 0
            &&& econ_base(b.data, b.data.pos, width, height)
            &&& 1 <= b.data.pos.0.0 < width - 1
            &&& 1 <= b.data.pos.0.1 < height - 1
            &&& w.grid.spec_at(b.data.pos).kind == CellKind::Empty
            &&& w.grid.spec_at(b.data.pos).pawn == Some(0u64)
        }),
        w.next_entity == w.bots@.len(),
        w.next_bot_id == w.bots@.len(),
{
    let mut grid = GridWorld::new(width, height, CellState::empty());
    let mut rng = thread_rng();
    add_border(&mut grid);
    let ghost g_b = grid;
    add_walls(&mut grid, &mut rng);
    let ghost g_w = grid;
    let ghost segs = choose|segs: Seq<(int, int, int, int)>|
        #![trigger walls_drawn(g_w, g_b, segs)]
        segs.len() == 5 && (forall|k: int|
            0 <= k < 5 ==> wall_segment(#[trigger] segs[k], width as int, height as int)) && walls_drawn(
            g_w,
            g_b,
            segs,
        );
    proof {
        lemma_corner_open(segs, width as int, height as int);
        assert(g_b.spec_cell(1, 1) == empty_cell());
        assert(g_w.spec_cell(1, 1) == empty_cell());
        assert(econ_walls(g_w, segs)) by {
            assert forall|x: int, y: int|
                #![trigger g_w.spec_cell(x, y)]
                g_w.spec_in_bounds(x, y) && interior(x, y, width as int, height as int) implies (
            g_w.spec_cell(x, y).kind == CellKind::Blocked <==> covered(segs, x, y)) by {
                assert(g_b.spec_cell(x, y) == empty_cell());
            }
        }
    }
    let mut bots: Vec<BotEntry> = Vec::new();
    match find_empty_cell(&grid, &mut rng) {
        Some((bx, by)) => {
            let list: [(Subsystem, u8); 3] = [
                (Subsystem::Assembler, 1),
                (Subsystem::CargoBay, 3),
                (Subsystem::PowerCell, 2),
            ];
            proof {
                reveal_with_fuel(Subsystems::spec_from_list, 4);
                reveal_with_fuel(Subsystems::list_fits, 4);
                assert(list@ == seq![(Subsystem::Assembler, 1u8), (Subsystem::CargoBay, 3u8), (Subsystem::PowerCell, 2u8)]);
                assert(list@.drop_last() =~= list@.take(2));
                assert(list@.take(2).drop_last() =~= list@.take(1));
            }
            let subsystems = Subsystems::new(&list);
            let mut bot_data = BotData::new(
                FrameKind::Building(BuildingKind::Small),
                subsystems,
                Pos((bx, by)),
                Team::Player,
                Energy(100),
                KnownMap::new(width, height, ClientCellState::default()),
                Vec::new(),
            );
            let ghost inv0 = bot_data.inventory;
            bot_data.inventory.add(Item::Metal, 6);
            bot_data.energy = bot_data.max_energy();
            proof {
                inv0.lemma_len();
                assert(inv0.count(Item::Crumb) == 0);
                assert(inv0.count(Item::Fent) == 0);
                assert(inv0.count(Item::Truffle) == 0);
                assert(inv0.count(Item::Metal) == 0);
                assert(bot_data.inventory.count(Item::Metal) == 6);
                assert(bot_data.inventory.count(Item::Crumb) == 0);
                assert(econ_base(bot_data, Pos((bx, by)), width, height));
            }
            bots.push(
                BotEntry {
                    entity: 0,
                    bot_id: 0,
                    data: bot_data,
                    current_action: None,
                    past_actions: Vec::new(),
                },
            );
            grid.set_tuple(bx, by, CellState::new_with_pawn(0));
        },
        None => {
            proof {
                assert(!free(grid.spec_cell(1, 1)));
            }
        },
    }
    proof {
        assert forall|x: int, y: int|
            #![trigger grid.spec_cell(x, y)]
            grid.spec_in_bounds(x, y) implies grid.spec_cell(x, y).kind == g_w.spec_cell(x, y).kind
                && grid.spec_cell(x, y).item is None by {
            assert(g_w.spec_in_bounds(x, y));
        }
    }
    let ghost mut placed: Seq<(int, int)> = Seq::empty();
    let count = if 20 < width * height / 20 {
        20
    } else {
        width * height / 20
    };
    let mut k: usize = 0;
    while k < count
        invariant
            grid.spec_width() == width,
            grid.spec_height() == height,
            width >= 5,
            height >= 5,
            k <= count,
            count == econ_metal_count(width as int, height as int),
            g_w.spec_width() == width,
            g_w.spec_height() == height,
            econ_walls(g_w, segs),
            forall|x: int, y: int|
                #![trigger grid.spec_cell(x, y)]
                grid.spec_in_bounds(x, y) ==> grid.spec_cell(x, y).kind == g_w.spec_cell(x, y).kind,
            metal_list(grid, placed),
            placed.len() <= k,
            placed.len() == k || no_free_inner(grid),
            bots@.len() == 1,
            econ_grid(grid, bots@),
            bots@.len() == 1 ==> {
                let b = bots@[0];
                &&& b.entity == 0
                &&& b.bot_id == 0
                &&& b.current_action is None
                &&& b.past_actions@.len() == 0
                &&& econ_base(b.data, b.data.pos, width, height)
                &&& 1 <= b.data.pos.0.0 < width - 1
                &&& 1 <= b.data.pos.0.1 < height - 1
                &&& grid.spec_at(b.data.pos).kind == CellKind::Empty
                &&& grid.spec_at(b.data.pos).pawn == Some(0u64)
            },
        decreases count - k,
    {
        let ghost before = grid;
        if let Some((x, y)) = find_empty_cell(&grid, &mut rng) {
            let cell = *grid.get_tuple(x, y);
            grid.set_tuple(x, y, CellState { item: Some(Item::Metal), ..cell });
            proof {
                let xy = (x as int, y as int);
                assert(!placed.contains(xy)) by {
                    if placed.contains(xy) {
                        let i = choose|i: int| 0 <= i < placed.len() && placed[i] == xy;
                        assert(before.spec_cell(placed[i].0, placed[i].1).item == Some(Item::Metal));
                    }
                }
                let p2 = placed.push(xy);
                assert forall|i: int| 0 <= i < p2.len() implies grid.spec_in_bounds(#[trigger] p2[i].0, p2[i].1)
                    && grid.spec_cell(p2[i].0, p2[i].1).item == Some(Item::Metal) by {
                    if i < placed.len() {
                        assert(p2[i] == placed[i]);
                        assert(before.spec_cell(placed[i].0, placed[i].1).item == Some(Item::Metal));
                    }
                }
                assert forall|a: int, b: int|
                    #![trigger grid.spec_cell(a, b)]
                    grid.spec_in_bounds(a, b) && grid.spec_cell(a, b).item == Some(Item::Metal) implies p2.contains(
                    (a, b),
                ) by {
                    if !(a == x && b == y) {
                        assert(before.spec_cell(a, b) == grid.spec_cell(a, b));
                        assert(placed.contains((a, b)));
                        let i = choose|i: int| 0 <= i < placed.len() && placed[i] == (a, b);
                        assert(p2[i] == (a, b));
                    } else {
                        assert(p2[placed.len() as int] == (a, b));
                    }
                }
                assert forall|i: int, j: int| 0 <= i < j < p2.len() implies p2[i] != p2[j] by {
                    if j == placed.len() {
                        assert(p2[i] == placed[i]);
                    } else {
                        assert(p2[i] == placed[i] && p2[j] == placed[j]);
                    }
                }
                placed = p2;
            }
        }
        k = k + 1;
    }
    proof {
        assert(econ_walls(grid, segs)) by {
            assert forall|x: int, y: int|
                #![trigger grid.spec_cell(x, y)]
                grid.spec_in_bounds(x, y) && interior(x, y, width as int, height as int) implies (
            grid.spec_cell(x, y).kind == CellKind::Blocked <==> covered(segs, x, y)) by {
                assert(g_w.spec_cell(x, y).kind == grid.spec_cell(x, y).kind);
            }
        }
        assert(metal_list(grid, placed));
    }
    let n = bots.len() as u64;
    World {
        tick: 0,
        grid,
        bots,
        partially_built: Vec::new(),
        next_entity: n,
        next_bot_id: n as u32,
    }
}

/// The small level's grid before its items: a wall at `x == 10` for `1 <= y <= 9` and the
/// player's pawn at `(2, 2)`.
pub open spec fn small_base(x: int, y: int) -> CellState {
    if x == 10 && 1 <= y <= 9 {
        blocked_cell()
    } else if x == 2 && y == 2 {
        CellState { pawn: Some(0u64), ..empty_cell() }
    } else {
        empty_cell()
    }
}

/// `trail` is a shortest walk of single steps over the small level's 20 by 20 grid from
/// `(5, 3)` to `(8, 13)`, entering no cell it could not enter: its 13 steps are the Manhattan
/// distance between them.
pub open spec fn crumb_trail(trail: Seq<Pos>) -> bool {
    &&& trail.len() == 14
    &&& trail[0] == Pos((5, 3))
    &&& trail.last() == Pos((8, 13))
    &&& forall|i: int|
        0 <= i < trail.len() ==> (#[trigger] trail[i]).0.0 < 20 && trail[i].0.1 < 20
    &&& forall|i: int|
        1 <= i < trail.len() ==> crate::game::spec_can_enter(
            small_base((#[trigger] trail[i]).0.0 as int, trail[i].0.1 as int),
        )
    &&& forall|i: int|
        0 <= i < trail.len() - 1 ==> crate::types::pos_dist(#[trigger] trail[i], trail[i + 1]) == 1
}

/// A cell of the small level inside its border: fent at `(8, 14)`, truffles at `(2, 8)` and
/// `(12, 2)`, crumbs along `trail`, over the base grid.
pub open spec fn small_inner(trail: Seq<Pos>, x: int, y: int) -> CellState {
    if x == 8 && y == 14 {
        CellState { item: Some(Item::Fent), ..small_base(x, y) }
    } else if (x == 2 && y == 8) || (x == 12 && y == 2) {
        CellState { item: Some(Item::Truffle), ..small_base(x, y) }
    } else if trail.contains(Pos((x as usize, y as usize))) {
        CellState { item: Some(Item::Crumb), ..small_base(x, y) }
    } else {
        small_base(x, y)
    }
}

/// A cell of the small level: blocked on the border, else as `small_inner`.
pub open spec fn small_cell(trail: Seq<Pos>, x: int, y: int) -> CellState {
    if on_border(x, y, 20, 20) {
        blocked_cell()
    } else {
        small_inner(trail, x, y)
    }
}

/// The walk up from `(5, 3)` to `(5, 13)` and right to `(8, 13)`.
pub open spec fn witness_trail() -> Seq<Pos> {
    Seq::new(
        14,
        |i: int|
            if i <= 10 {
                Pos((5usize, (3 + i) as usize))
            } else {
                Pos(((i - 5) as usize, 13usize))
            },
    )
}

proof fn lemma_witness_trail(grid: ServerGrid)
    requires
        grid.spec_width() == 20,
        grid.spec_height() == 20,
        forall|x: int, y: int|
            grid.spec_in_bounds(x, y) ==> #[trigger] grid.spec_cell(x, y) == small_base(x, y),
    ensures
        is_path(&grid, witness_trail()),
        witness_trail()[0] == Pos((5, 3)),
        witness_trail().last() == Pos((8, 13)),
{
    let t = witness_trail();
    assert forall|i: int| 1 <= i < t.len() implies !(#[trigger] grid.spec_at(t[i])).spec_is_blocked() by {
        assert(grid.spec_cell(t[i].0.0 as int, t[i].0.1 as int) == small_base(
            t[i].0.0 as int,
            t[i].0.1 as int,
        ));
    }
    assert forall|i: int| 0 <= i < t.len() - 1 implies crate::types::pos_dist(#[trigger] t[i], t[i + 1]) == 1 by {
        if i < 10 {
            assert(t[i] == Pos((5usize, (3 + i) as usize)));
            assert(t[i + 1] == Pos((5usize, (4 + i) as usize)));
        } else {
            assert(t[i + 1] == Pos(((i - 4) as usize, 13usize)));
        }
    }
}

/// The small level's grid before its items.
fn small_base_grid() -> (grid: ServerGrid)
    ensures
        grid.spec_width() == 20,
        grid.spec_height() == 20,
        forall|x: int, y: int|
            grid.spec_in_bounds(x, y) ==> #[trigger] grid.spec_cell(x, y) == small_base(x, y),
{
    let mut grid = GridWorld::new(20, 20, CellState::empty());
    grid.set_tuple(2, 2, CellState::new_with_pawn(0));
    let mut y: usize = 1;
    while y < 10
        invariant
            1 <= y <= 10,
            grid.spec_width() == 20,
            grid.spec_height() == 20,
            forall|a: int, b: int|
                grid.spec_in_bounds(a, b) ==> #[trigger] grid.spec_cell(a, b) == (if a == 10 && y
                    <= b <= 9 {
                    empty_cell()
                } else {
                    small_base(a, b)
                }),
        decreases 10 - y,
    {
        grid.set_tuple(10, y, CellState::blocked());
        y = y + 1;
    }
    grid
}

/// A walk over the base grid from `(5, 3)` to `(8, 13)`, found by path finding.
#[verifier::spinoff_prover]
#[verifier::rlimit(40)]
fn small_trail(grid: &ServerGrid) -> (trail: Vec<Pos>)
    requires
        grid.spec_width() == 20,
        grid.spec_height() == 20,
        forall|x: int, y: int|
            grid.spec_in_bounds(x, y) ==> #[trigger] grid.spec_cell(x, y) == small_base(x, y),
    ensures
        crumb_trail(trail@),
{
    proof {
        lemma_witness_trail(*grid);
    }
    let trail = match grid.find_path(Pos((5, 3)), Pos((8, 13))) {
        Some(p) => {
            proof {
                lemma_trail_len(*grid, p@);
            }
            p
        },
        None => {
            proof {
                assert(witness_trail().last() != Pos((8, 13)));
            }
            Vec::new()
        },
    };
    proof {
        assert forall|i: int| 1 <= i < trail@.len() implies crate::game::spec_can_enter(
            small_base((#[trigger] trail@[i]).0.0 as int, trail@[i].0.1 as int),
        ) by {
            assert(!grid.spec_at(trail@[i]).spec_is_blocked());
        }
    }
    trail
}

/// A walk over the small level's grid from `(5, 3)` to `(8, 13)` that no such walk beats
/// takes 13 steps, their Manhattan distance.
proof fn lemma_trail_len(grid: ServerGrid, t: Seq<Pos>)
    requires
        grid.spec_width() == 20,
        grid.spec_height() == 20,
        forall|x: int, y: int|
            grid.spec_in_bounds(x, y) ==> #[trigger] grid.spec_cell(x, y) == small_base(x, y),
        is_path(&grid, t),
        t[0] == Pos((5, 3)),
        t.last() == Pos((8, 13)),
        forall|q: Seq<Pos>|
            #[trigger] is_path(&grid, q) && q[0] == Pos((5, 3)) && q.last() == Pos((8, 13)) ==> t.len()
                <= q.len(),
    ensures
        t.len() == 14,
{
    lemma_witness_trail(grid);
    assert(is_path(&grid, witness_trail()));
    crate::gridworld::lemma_walk_dist(grid, t, 0, t.len() - 1);
}

/// Puts a crumb on every cell of the trail.
fn lay_trail(grid: &mut ServerGrid, trail: &Vec<Pos>)
    requires
        old(grid).spec_width() == 20,
        old(grid).spec_height() == 20,
        forall|x: int, y: int|
            old(grid).spec_in_bounds(x, y) ==> #[trigger] old(grid).spec_cell(x, y) == small_base(
                x,
                y,
            ),
        crumb_trail(trail@),
    ensures
        final(grid).spec_width() == 20,
        final(grid).spec_height() == 20,
        forall|a: int, b: int|
            final(grid).spec_in_bounds(a, b) ==> #[trigger] final(grid).spec_cell(a, b) == (if trail@.contains(
                Pos((a as usize, b as usize)),
            ) {
                CellState { item: Some(Item::Crumb), ..small_base(a, b) }
            } else {
                small_base(a, b)
            }),
{
    let mut k: usize = 0;
    while k < trail.len()
        invariant
            k <= trail@.len(),
            crumb_trail(trail@),
            grid.spec_width() == 20,
            grid.spec_height() == 20,
            forall|a: int, b: int|
                grid.spec_in_bounds(a, b) ==> #[trigger] grid.spec_cell(a, b) == (if trail@.take(
                    k as int,
                ).contains(Pos((a as usize, b as usize))) {
                    CellState { item: Some(Item::Crumb), ..small_base(a, b) }
                } else {
                    small_base(a, b)
                }),
        decreases trail@.len() - k,
    {
        let c = trail[k];
        let (cx, cy) = c.0;
        let cell = *grid.get_tuple(cx, cy);
        grid.set_tuple(cx, cy, CellState { item: Some(Item::Crumb), ..cell });
        proof {
            assert(trail@.take(k as int + 1) =~= trail@.take(k as int).push(c));
            assert forall|a: int, b: int| grid.spec_in_bounds(a, b) implies #[trigger] grid.spec_cell(
                a,
                b,
            ) == (if trail@.take(k as int + 1).contains(Pos((a as usize, b as usize))) {
                CellState { item: Some(Item::Crumb), ..small_base(a, b) }
            } else {
                small_base(a, b)
            }) by {
                let p = Pos((a as usize, b as usize));
                if a == cx && b == cy {
                    assert(trail@.take(k as int + 1)[k as int] == p);
                } else {
                    assert(p != c);
                    if trail@.take(k as int + 1).contains(p) {
                        let j = choose|j: int|
                            0 <= j < k + 1 && #[trigger] trail@.take(k as int + 1)[j] == p;
                        assert(trail@.take(k as int)[j] == p);
                    }
                    if trail@.take(k as int).contains(p) {
                        let j = choose|j: int| 0 <= j < k && #[trigger] trail@.take(k as int)[j] == p;
                        assert(trail@.take(k as int + 1)[j] == p);
                    }
                }
            }
        }
        k = k + 1;
    }
    proof {
        assert(trail@.take(trail@.len() as int) =~= trail@);
    }
}

/// Puts the fent and the truffles down and blocks the border.
fn finish_small_grid(grid: &mut ServerGrid, trail: Ghost<Seq<Pos>>)
    requires
        old(grid).spec_width() == 20,
        old(grid).spec_height() == 20,
        forall|a: int, b: int|
            old(grid).spec_in_bounds(a, b) ==> #[trigger] old(grid).spec_cell(a, b) == (if trail@.contains(
                Pos((a as usize, b as usize)),
            ) {
                CellState { item: Some(Item::Crumb), ..small_base(a, b) }
            } else {
                small_base(a, b)
            }),
    ensures
        final(grid).spec_width() == 20,
        final(grid).spec_height() == 20,
        forall|a: int, b: int|
            final(grid).spec_in_bounds(a, b) ==> #[trigger] final(grid).spec_cell(a, b)
                == small_cell(trail@, a, b),
{
    let fent_cell = *grid.get_tuple(8, 14);
    grid.set_tuple(8, 14, CellState { item: Some(Item::Fent), ..fent_cell });
    let t1 = *grid.get_tuple(2, 8);
    grid.set_tuple(2, 8, CellState { item: Some(Item::Truffle), ..t1 });
    let t2 = *grid.get_tuple(12, 2);
    grid.set_tuple(12, 2, CellState { item: Some(Item::Truffle), ..t2 });
    let mut x: usize = 0;
    while x < 20
        invariant
            x <= 20,
            grid.spec_width() == 20,
            grid.spec_height() == 20,
            forall|a: int, b: int|
                grid.spec_in_bounds(a, b) ==> #[trigger] grid.spec_cell(a, b) == (if a < x && (b
                    == 0 || b == 19) {
                    blocked_cell()
                } else {
                    small_inner(trail@, a, b)
                }),
        decreases 20 - x,
    {
        grid.set_tuple(x, 0, CellState::blocked());
        grid.set_tuple(x, 19, CellState::blocked());
        x = x + 1;
    }
    let mut y: usize = 0;
    while y < 20
        invariant
            y <= 20,
            grid.spec_width() == 20,
            grid.spec_height() == 20,
            forall|a: int, b: int|
                grid.spec_in_bounds(a, b) ==> #[trigger] grid.spec_cell(a, b) == (if (b == 0 || b
                    == 19) || (b < y && (a == 0 || a == 19)) {
                    blocked_cell()
                } else {
                    small_inner(trail@, a, b)
                }),
        decreases 20 - y,
    {
        grid.set_tuple(0, y, CellState::blocked());
        grid.set_tuple(19, y, CellState::blocked());
        y = y + 1;
    }
}

/// The small level: a 20 by 20 map with a wall, a trail of crumbs from `(5, 3)` to `(8, 13)`
/// found by path finding, fent at its end, two truffles and a blocked border, and one bot of the
/// player's team at `(2, 2)` with 100 energy.
#[verifier::spinoff_prover]
pub fn init_small_crumbs_and_truffles() -> (w: World)
    ensures
        w.tick == 0,
        w.grid.spec_width() == 20,
        w.grid.spec_height() == 20,
        exists|trail: Seq<Pos>|
            #![trigger crumb_trail(trail)]
            crumb_trail(trail) && forall|x: int, y: int|
                w.grid.spec_in_bounds(x, y) ==> #[trigger] w.grid.spec_cell(x, y) == small_cell(
                    trail,
                    x,
                    y,
                ),
        w.bots@.len() == 1,
        w.bots@[0].entity == 0,
        w.bots@[0].bot_id == 0,
        w.bots@[0].current_action is None,
        w.bots@[0].past_actions@.len() == 0,
        w.bots@[0].data.frame == FrameKind::Flea,
        w.bots@[0].data.pos == Pos((2, 2)),
        w.bots@[0].data.team == Team::Player,
        w.bots@[0].data.energy == Energy(100),
        w.partially_built@.len() == 0,
        w.next_entity == 1,
        w.next_bot_id == 1,
{
    let mut grid = small_base_grid();
    let trail = small_trail(&grid);
    lay_trail(&mut grid, &trail);
    finish_small_grid(&mut grid, Ghost(trail@));
    proof {
        assert(crumb_trail(trail@));
    }
    let none: [(Subsystem, u8); 0] = [];
    let data = BotData::new(
        FrameKind::Flea,
        Subsystems::new(&none),
        Pos((2, 2)),
        Team::Player,
        Energy(100),
        KnownMap::new(20, 20, ClientCellState::default()),
        Vec::new(),
    );
    let mut bots: Vec<BotEntry> = Vec::new();
    bots.push(BotEntry { entity: 0, bot_id: 0, data, current_action: None, past_actions: Vec::new() });
    World { tick: 0, grid, bots, partially_built: Vec::new(), next_entity: 1, next_bot_id: 1 }
}

/// The kinds of level there are.
#[derive(Debug, Clone, Copy, PartialEq, Eq, Structural)]
pub enum LevelsDiscriminants {
    SmallCrumbsAndTruffles,
    RandomCrumbsAndTruffles,
    EconLoop,
}

/// The level a command-line name stands for.
pub open spec fn level_named(value: Seq<char>) -> Option<LevelsDiscriminants> {
    if value == "small-crumbs-and-truffles"@ {
        Some(LevelsDiscriminants::SmallCrumbsAndTruffles)
    } else if value == "random-crumbs-and-truffles"@ {
        Some(LevelsDiscriminants::RandomCrumbsAndTruffles)
    } else if value == "econ-loop"@ {
        Some(LevelsDiscriminants::EconLoop)
    } else {
        None
    }
}

impl LevelsDiscriminants {
    /// The level named `value` on the command line; an unknown name is refused with a message
    /// that quotes it.
    pub fn from_arg_value(value: &str) -> (r: Result<LevelsDiscriminants, String>)
        ensures
            match level_named(value@) {
                Some(l) => r == Ok::<LevelsDiscriminants, String>(l),
                None => r matches Err(m) && m@ == "Invalid level: "@ + value@,
            },
    {
        if str_eq(value, "small-crumbs-and-truffles") {
            Ok(LevelsDiscriminants::SmallCrumbsAndTruffles)
        } else if str_eq(value, "random-crumbs-and-truffles") {
            Ok(LevelsDiscriminants::RandomCrumbsAndTruffles)
        } else if str_eq(value, "econ-loop") {
            Ok(LevelsDiscriminants::EconLoop)
        } else {
            let mut m = String::new();
            push_str(&mut m, "Invalid level: ");
            push_str(&mut m, value);
            Err(m)
        }
    }
}

} // verus!
