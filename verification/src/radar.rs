//! What a bot's radar reports: the cells around it and the bots standing on them.
use vstd::prelude::*;

use crate::bot_logger::{pos_text, push_pos, team_name, team_str};
use crate::text::{decimal, push_char, push_i64, push_repeat, push_str, push_u64, repeat, signed_decimal};
use crate::types::{pos_fits, spec_step, CellKind, Dir, Item, Pos, Team};

verus! {

/// A bot the radar sees.
#[derive(Debug, Clone, Copy)]
pub struct RadarBotData {
    pub bot_id: u32,
    pub team: Team,
    pub pos: Pos,
}

/// A cell the radar sees; `pawn` is an index into the radar's bots.
#[derive(Debug, Clone, Copy)]
pub struct CellStateRadar {
    pub kind: CellKind,
    pub pawn: Option<usize>,
    pub item: Option<Item>,
    pub pos: Pos,
}

/// One radar reading around the bot at `center_world_pos`.
#[derive(Debug, Clone)]
pub struct RadarData {
    pub center_world_pos: Pos,
    pub pawns: Vec<RadarBotData>,
    pub cells: Vec<CellStateRadar>,
}


/// The smallest x of `cells` (at least one).
pub open spec fn min_x(cells: Seq<CellStateRadar>) -> int
    decreases cells.len(),
{
    if cells.len() <= 1 {
        cells[0].pos.0.0 as int
    } else {
        let m = min_x(cells.drop_last());
        let v = cells.last().pos.0.0 as int;
        if v < m {
            v
        } else {
            m
        }
    }
}

pub open spec fn min_y(cells: Seq<CellStateRadar>) -> int
    decreases cells.len(),
{
    if cells.len() <= 1 {
        cells[0].pos.0.1 as int
    } else {
        let m = min_y(cells.drop_last());
        let v = cells.last().pos.0.1 as int;
        if v < m {
            v
        } else {
            m
        }
    }
}

pub open spec fn max_x(cells: Seq<CellStateRadar>) -> int
    decreases cells.len(),
{
    if cells.len() <= 1 {
        cells[0].pos.0.0 as int
    } else {
        let m = max_x(cells.drop_last());
        let v = cells.last().pos.0.0 as int;
        if v > m {
            v
        } else {
            m
        }
    }
}

pub open spec fn max_y(cells: Seq<CellStateRadar>) -> int
    decreases cells.len(),
{
    if cells.len() <= 1 {
        cells[0].pos.0.1 as int
    } else {
        let m = max_y(cells.drop_last());
        let v = cells.last().pos.0.1 as int;
        if v > m {
            v
        } else {
            m
        }
    }
}

/// The area shown, `(min_x, max_x, min_y, max_y)`: the cells' bounding box, or five by five
/// around the center when there are no cells.
pub open spec fn radar_bounds(r: RadarData) -> (int, int, int, int) {
    if r.cells@.len() > 0 {
        (min_x(r.cells@), max_x(r.cells@), min_y(r.cells@), max_y(r.cells@))
    } else {
        let cx = r.center_world_pos.0.0 as int;
        let cy = r.center_world_pos.0.1 as int;
        (cx - 2, cx + 2, cy - 2, cy + 2)
    }
}

/// How a cell is drawn: two characters.
pub open spec fn cell_repr(pawns: Seq<RadarBotData>, c: CellStateRadar) -> (char, char) {
    match c.kind {
        CellKind::Unknown => ('.', ' '),
        CellKind::Empty => match c.pawn {
            Some(i) => match pawns[i as int].team {
                Team::Player => ('P', ' '),
                Team::Enemy => ('E', ' '),
            },
            None => match c.item {
                Some(Item::Crumb) => ('C', ' '),
                Some(Item::Fent) => ('F', ' '),
                Some(Item::Truffle) => ('T', ' '),
                Some(Item::Metal) => ('M', ' '),
                None => (' ', ' '),
            },
        },
        CellKind::Blocked => ('[', ']'),
    }
}

/// What is drawn at column `gx`, row `gy` once `cells` are drawn in order: the last of them
/// there, or a dot.
pub open spec fn painted(
    cells: Seq<CellStateRadar>,
    pawns: Seq<RadarBotData>,
    min_x: int,
    max_y: int,
    gx: int,
    gy: int,
) -> (char, char)
    decreases cells.len(),
{
    if cells.len() == 0 {
        ('.', ' ')
    } else if cells.last().pos.0.0 - min_x == gx && max_y - cells.last().pos.0.1 == gy {
        cell_repr(pawns, cells.last())
    } else {
        painted(cells.drop_last(), pawns, min_x, max_y, gx, gy)
    }
}

/// What is drawn at column `gx`, row `gy`: the bot itself, marked `@`, or the cells.
pub open spec fn shown(r: RadarData, gx: int, gy: int) -> (char, char) {
    let (min_x, max_x, min_y, max_y) = radar_bounds(r);
    if gx == r.center_world_pos.0.0 - min_x && gy == max_y - r.center_world_pos.0.1 {
        ('@', ' ')
    } else {
        painted(r.cells@, r.pawns@, min_x, max_y, gx, gy)
    }
}

/// Columns `0..w` of row `gy`.
pub open spec fn row_chars(r: RadarData, gy: int, w: nat) -> Seq<char>
    decreases w,
{
    if w == 0 {
        seq![]
    } else {
        let c = shown(r, w - 1, gy);
        row_chars(r, gy, (w - 1) as nat) + seq![c.0, c.1]
    }
}

/// Rows `0..h`, each `w` columns wide, between borders.
pub open spec fn rows_text(r: RadarData, w: nat, h: nat) -> Seq<char>
    decreases h,
{
    if h == 0 {
        seq![]
    } else {
        rows_text(r, w, (h - 1) as nat) + "│"@ + row_chars(r, h - 1, w) + "│\n"@
    }
}

/// The lines listing the bots the radar sees, from `0` to `n`.
pub open spec fn bot_lines(pawns: Seq<RadarBotData>, n: nat) -> Seq<char>
    decreases n,
{
    if n == 0 {
        seq![]
    } else {
        let b = pawns[n - 1];
        bot_lines(pawns, (n - 1) as nat) + "  "@ + decimal((n - 1) as nat) + ": "@ + team_name(
            b.team,
        ) + " at "@ + pos_text(b.pos) + "\n"@
    }
}

/// The text of a radar reading: the grid in a box, its world coordinates, and the bots seen.
pub open spec fn radar_text(r: RadarData) -> Seq<char> {
    let (min_x, max_x, min_y, max_y) = radar_bounds(r);
    let w = (max_x - min_x + 1) as nat;
    let h = (max_y - min_y + 1) as nat;
    "┌"@ + repeat("─"@, 2 * w) + "┐\n"@ + rows_text(r, w, h) + "└"@ + repeat("─"@, 2 * w) + "┘\n"@
        + "World coordinates: ("@ + signed_decimal(min_x) + ", "@ + signed_decimal(min_y)
        + ") to ("@ + signed_decimal(max_x) + ", "@ + signed_decimal(max_y) + ")\n"@ + (if r.pawns@.len()
        == 0 {
        seq![]
    } else {
        "\nBots detected:\n"@ + bot_lines(r.pawns@, r.pawns@.len())
    })
}

/// The radar reading can be drawn: every bot an empty cell points to is listed, coordinates
/// leave room around them, and the drawn area fits in memory.
pub open spec fn radar_drawable(r: RadarData) -> bool {
    let (min_x, max_x, min_y, max_y) = radar_bounds(r);
    &&& forall|j: int|
        0 <= j < r.cells@.len() ==> ((#[trigger] r.cells@[j]).kind == CellKind::Empty && r.cells@[j].pawn
            is Some ==> r.cells@[j].pawn->0 < r.pawns@.len())
    &&& forall|j: int|
        0 <= j < r.cells@.len() ==> (#[trigger] r.cells@[j]).pos.0.0 <= isize::MAX - 2
            && r.cells@[j].pos.0.1 <= isize::MAX - 2
    &&& r.center_world_pos.0.0 <= isize::MAX - 2
    &&& r.center_world_pos.0.1 <= isize::MAX - 2
    &&& (max_x - min_x + 1) * (max_y - min_y + 1) <= usize::MAX
}

proof fn lemma_bounds(cells: Seq<CellStateRadar>)
    requires
        cells.len() >= 1,
        forall|j: int|
            0 <= j < cells.len() ==> (#[trigger] cells[j]).pos.0.0 <= isize::MAX - 2
                && cells[j].pos.0.1 <= isize::MAX - 2,
    ensures
        forall|j: int|
            0 <= j < cells.len() ==> min_x(cells) <= (#[trigger] cells[j]).pos.0.0 <= max_x(cells)
                && min_y(cells) <= cells[j].pos.0.1 <= max_y(cells),
        0 <= min_x(cells) <= max_x(cells) <= isize::MAX - 2,
        0 <= min_y(cells) <= max_y(cells) <= isize::MAX - 2,
    decreases cells.len(),
{
    if cells.len() > 1 {
        let d = cells.drop_last();
        assert forall|j: int| 0 <= j < cells.len() - 1 implies cells[j] == d[j] by {}
        assert forall|j: int| 0 <= j < d.len() implies (#[trigger] d[j]).pos.0.0 <= isize::MAX - 2
            && d[j].pos.0.1 <= isize::MAX - 2 by {
            assert(cells[j] == d[j]);
        }
        lemma_bounds(d);
        assert(cells[cells.len() - 1] == cells.last());
    } else {
        assert(cells[0] == cells[0]);
    }
}

fn repr_of(pawns: &Vec<RadarBotData>, c: &CellStateRadar) -> (r: (char, char))
    requires
        c.kind == CellKind::Empty && c.pawn is Some ==> c.pawn->0 < pawns@.len(),
    ensures
        r == cell_repr(pawns@, *c),
{
    match c.kind {
        CellKind::Unknown => ('.', ' '),
        CellKind::Empty => {
            if let Some(pawn_idx) = c.pawn {
                match pawns[pawn_idx].team {
                    Team::Player => ('P', ' '),
                    Team::Enemy => ('E', ' '),
                }
            } else {
                match c.item {
                    Some(Item::Crumb) => ('C', ' '),
                    Some(Item::Fent) => ('F', ' '),
                    Some(Item::Truffle) => ('T', ' '),
                    Some(Item::Metal) => ('M', ' '),
                    None => (' ', ' '),
                }
            }
        },
        CellKind::Blocked => ('[', ']'),
    }
}

proof fn lemma_index(gx: int, gy: int, w: int, h: int)
    requires
        0 <= gx < w,
        0 <= gy < h,
    ensures
        0 <= gy * w + gx < w * h,
{
    assert(gy * w + gx < w * h) by (nonlinear_arith)
        requires
            0 <= gx < w,
            0 <= gy < h,
    ;
    assert(0 <= gy * w) by (nonlinear_arith)
        requires
            0 <= gy,
            0 <= w,
    ;
}

proof fn lemma_index_inj(ax: int, ay: int, gx: int, gy: int, w: int, h: int)
    requires
        0 <= gx < w,
        0 <= gy < h,
        0 <= ax < w,
        0 <= ay < h,
        ay * w + ax == gy * w + gx,
    ensures
        ax == gx && ay == gy,
{
    if ay < gy {
        assert(ay * w + ax < gy * w + gx) by (nonlinear_arith)
            requires
                0 <= ax < w,
                ay < gy,
                0 <= gx,
        ;
    } else if ay > gy {
        assert(ay * w + ax > gy * w + gx) by (nonlinear_arith)
            requires
                0 <= gx < w,
                ay > gy,
                0 <= ax,
        ;
    }
}

/// Formats radar data as a string instead of printing directly
pub fn format_radar(radar: &RadarData) -> (r: String)
    requires
        radar_drawable(*radar),
    ensures
        r@ == radar_text(*radar),
{
    let n = radar.cells.len();
    let ghost cells = radar.cells@;
    let (min_x, max_x, min_y, max_y): (isize, isize, isize, isize) = if n > 0 {
        proof {
            lemma_bounds(cells);
        }
        let (x0, y0) = radar.cells[0].pos.as_isize();
        let mut mnx = x0;
        let mut mxx = x0;
        let mut mny = y0;
        let mut mxy = y0;
        let mut k: usize = 1;
        proof {
            assert(cells.take(1).len() == 1);
            assert(cells.take(1)[0] == cells[0]);
        }
        while k < n
            invariant
                1 <= k <= n,
                n == cells.len(),
                cells == radar.cells@,
                radar_drawable(*radar),
                mnx == min_x(cells.take(k as int)),
                mxx == max_x(cells.take(k as int)),
                mny == min_y(cells.take(k as int)),
                mxy == max_y(cells.take(k as int)),
            decreases n - k,
        {
            proof {
                assert(cells.take(k as int + 1).drop_last() =~= cells.take(k as int));
                assert(cells.take(k as int + 1).last() == cells[k as int]);
            }
            let (x, y) = radar.cells[k].pos.as_isize();
            if x < mnx {
                mnx = x;
            }
            if x > mxx {
                mxx = x;
            }
            if y < mny {
                mny = y;
            }
            if y > mxy {
                mxy = y;
            }
            k = k + 1;
        }
        proof {
            assert(cells.take(n as int) =~= cells);
        }
        (mnx, mxx, mny, mxy)
    } else {
        let (cx, cy) = radar.center_world_pos.as_isize();
        (cx - 2, cx + 2, cy - 2, cy + 2)
    };
    assert((min_x as int, max_x as int, min_y as int, max_y as int) == radar_bounds(*radar));
    proof {
        if n > 0 {
            lemma_bounds(cells);
        }
    }
    let width = (max_x - min_x + 1) as usize;
    let height = (max_y - min_y + 1) as usize;
    let total = width * height;
    let mut grid: Vec<(char, char)> = Vec::new();
    let mut t: usize = 0;
    while t < total
        invariant
            t <= total,
            grid@.len() == t,
            forall|i: int| 0 <= i < t ==> #[trigger] grid@[i] == ('.', ' '),
        decreases total - t,
    {
        grid.push(('.', ' '));
        t = t + 1;
    }
    let mut k: usize = 0;
    proof {
        assert(cells.take(0) =~= Seq::<CellStateRadar>::empty());
        assert forall|gx: int, gy: int|
            0 <= gx < width && 0 <= gy < height implies #[trigger] grid@[gy * width + gx]
            == painted(cells.take(0), radar.pawns@, min_x as int, max_y as int, gx, gy) by {
            lemma_index(gx, gy, width as int, height as int);
        }
    }
    while k < n
        invariant
            k <= n,
            n == cells.len(),
            cells == radar.cells@,
            radar_drawable(*radar),
            n > 0 ==> forall|j: int|
                0 <= j < cells.len() ==> min_x <= (#[trigger] cells[j]).pos.0.0 <= max_x && min_y
                    <= cells[j].pos.0.1 <= max_y,
            n > 0 ==> 0 <= min_x <= max_x <= isize::MAX - 2 && 0 <= min_y <= max_y <= isize::MAX - 2,
            width == max_x - min_x + 1,
            height == max_y - min_y + 1,
            total == width * height,
            grid@.len() == total,
            forall|gx: int, gy: int|
                0 <= gx < width && 0 <= gy < height ==> #[trigger] grid@[gy * width + gx]
                    == painted(cells.take(k as int), radar.pawns@, min_x as int, max_y as int, gx, gy),
        decreases n - k,
    {
        let cell = &radar.cells[k];
        assert(min_x <= cells[k as int].pos.0.0 <= max_x);
        assert(min_y <= cells[k as int].pos.0.1 <= max_y);
        let (world_x, world_y) = cell.pos.as_isize();
        let grid_x = (world_x - min_x) as usize;
        let grid_y = (max_y - world_y) as usize;
        let repr = repr_of(&radar.pawns, cell);
        proof {
            assert(cells.take(k as int + 1).drop_last() =~= cells.take(k as int));
            assert(cells.take(k as int + 1).last() == cells[k as int]);
            lemma_index(grid_x as int, grid_y as int, width as int, height as int);
        }
        if grid_y < height && grid_x < width {
            grid.set(grid_y * width + grid_x, repr);
        }
        proof {
            assert forall|gx: int, gy: int|
                0 <= gx < width && 0 <= gy < height implies #[trigger] grid@[gy * width + gx]
                == painted(cells.take(k as int + 1), radar.pawns@, min_x as int, max_y as int, gx, gy) by {
                lemma_index(gx, gy, width as int, height as int);
                if gy * width + gx == grid_y * width + grid_x {
                    lemma_index_inj(gx, gy, grid_x as int, grid_y as int, width as int, height as int);
                }
            }
        }
        k = k + 1;
    }
    proof {
        assert(cells.take(n as int) =~= cells);
    }
    let (center_x, center_y) = radar.center_world_pos.as_isize();
    let gcx = center_x - min_x;
    let gcy = max_y - center_y;
    if gcx >= 0 && gcy >= 0 && (gcx as usize) < width && (gcy as usize) < height {
        proof {
            lemma_index(gcx as int, gcy as int, width as int, height as int);
        }
        grid.set((gcy as usize) * width + (gcx as usize), ('@', ' '));
    }
    proof {
        assert forall|gx: int, gy: int|
            0 <= gx < width && 0 <= gy < height implies #[trigger] grid@[gy * width + gx] == shown(
            *radar,
            gx,
            gy,
        ) by {
            lemma_index(gx, gy, width as int, height as int);
            if gcx >= 0 && gcy >= 0 && gcx < width && gcy < height && gy * width + gx == gcy * width + gcx {
                lemma_index_inj(gx, gy, gcx as int, gcy as int, width as int, height as int);
            }
        }
    }
    let mut output = String::new();
    push_str(&mut output, "┌");
    push_repeat(&mut output, "─", width * 2);
    push_str(&mut output, "┐\n");
    let ghost head = output@;
    let mut y: usize = 0;
    proof {
        assert(head + rows_text(*radar, width as nat, 0) =~= head);
    }
    while y < height
        invariant
            y <= height,
            width == max_x - min_x + 1,
            height == max_y - min_y + 1,
            total == width * height,
            grid@.len() == total,
            forall|gx: int, gy: int|
                0 <= gx < width && 0 <= gy < height ==> #[trigger] grid@[gy * width + gx] == shown(
                    *radar,
                    gx,
                    gy,
                ),
            output@ == head + rows_text(*radar, width as nat, y as nat),
        decreases height - y,
    {
        push_str(&mut output, "│");
        let ghost row_start = output@;
        let mut x: usize = 0;
        proof {
            assert(row_start + row_chars(*radar, y as int, 0) =~= row_start);
        }
        while x < width
            invariant
                x <= width,
                y < height,
                width == max_x - min_x + 1,
                height == max_y - min_y + 1,
                total == width * height,
                grid@.len() == total,
                forall|gx: int, gy: int|
                    0 <= gx < width && 0 <= gy < height ==> #[trigger] grid@[gy * width + gx]
                        == shown(*radar, gx, gy),
                output@ == row_start + row_chars(*radar, y as int, x as nat),
            decreases width - x,
        {
            proof {
                lemma_index(x as int, y as int, width as int, height as int);
            }
            let c = grid[y * width + x];
            push_char(&mut output, c.0);
            push_char(&mut output, c.1);
            proof {
                assert(output@ =~= row_start + row_chars(*radar, y as int, x as nat + 1));
            }
            x = x + 1;
        }
        push_str(&mut output, "│\n");
        proof {
            assert(output@ =~= head + rows_text(*radar, width as nat, y as nat + 1));
        }
        y = y + 1;
    }
    push_str(&mut output, "└");
    push_repeat(&mut output, "─", width * 2);
    push_str(&mut output, "┘\n");
    push_str(&mut output, "World coordinates: (");
    push_i64(&mut output, min_x as i64);
    push_str(&mut output, ", ");
    push_i64(&mut output, min_y as i64);
    push_str(&mut output, ") to (");
    push_i64(&mut output, max_x as i64);
    push_str(&mut output, ", ");
    push_i64(&mut output, max_y as i64);
    push_str(&mut output, ")\n");
    let ghost before_bots = output@;
    if radar.pawns.len() > 0 {
        push_str(&mut output, "\nBots detected:\n");
        let ghost list_start = output@;
        let mut i: usize = 0;
        proof {
            assert(list_start + bot_lines(radar.pawns@, 0) =~= list_start);
        }
        while i < radar.pawns.len()
            invariant
                i <= radar.pawns@.len(),
                output@ == list_start + bot_lines(radar.pawns@, i as nat),
            decreases radar.pawns@.len() - i,
        {
            let bot = radar.pawns[i];
            push_str(&mut output, "  ");
            push_u64(&mut output, i as u64);
            push_str(&mut output, ": ");
            push_str(&mut output, team_str(bot.team));
            push_str(&mut output, " at ");
            push_pos(&mut output, bot.pos);
            push_str(&mut output, "\n");
            proof {
                assert(output@ =~= list_start + bot_lines(radar.pawns@, i as nat + 1));
            }
            i = i + 1;
        }
    }
    proof {
        assert(output@ =~= radar_text(*radar));
    }
    output
}


impl CellStateRadar {
    /// Whether the cell holds `item`.
    pub fn has_item(&self, item: Item) -> (r: bool)
        ensures
            r == (self.item == Some(item)),
    {
        match self.item {
            Some(i) => i == item,
            None => false,
        }
    }
}

/// The index of the first cell of `cells` at `p`.
pub open spec fn cell_at(cells: Seq<CellStateRadar>, p: Pos) -> Option<int> {
    if exists|i: int| 0 <= i < cells.len() && #[trigger] cells[i].pos == p {
        Some(choose|i: int| first_at(cells, p, i))
    } else {
        None
    }
}

/// `i` is the first index of `cells` at `p`.
pub open spec fn first_at(cells: Seq<CellStateRadar>, p: Pos, i: int) -> bool {
    &&& 0 <= i < cells.len()
    &&& cells[i].pos == p
    &&& forall|j: int| 0 <= j < i ==> #[trigger] cells[j].pos != p
}

/// The cell the radar shows one step from its center in `dir`, if any.
pub open spec fn cell_in_dir(r: RadarData, dir: Dir) -> Option<CellStateRadar> {
    match spec_step(r.center_world_pos, dir) {
        Some(p) => match cell_at(r.cells@, p) {
            Some(i) => Some(r.cells@[i]),
            None => None,
        },
        None => None,
    }
}

/// The direction of the first neighbouring cell (up, down, left, right) that holds `item`.
pub open spec fn item_dir(r: RadarData, item: Item) -> Option<Dir> {
    let has = |d: Dir| cell_in_dir(r, d) matches Some(c) && c.item == Some(item);
    if has(Dir::Up) {
        Some(Dir::Up)
    } else if has(Dir::Down) {
        Some(Dir::Down)
    } else if has(Dir::Left) {
        Some(Dir::Left)
    } else if has(Dir::Right) {
        Some(Dir::Right)
    } else {
        None
    }
}

/// `i` is the first index of `cells` holding `item`.
pub open spec fn first_with_item(cells: Seq<CellStateRadar>, item: Item, i: int) -> bool {
    &&& 0 <= i < cells.len()
    &&& cells[i].item == Some(item)
    &&& forall|j: int| 0 <= j < i ==> #[trigger] cells[j].item != Some(item)
}

proof fn lemma_first_at_unique(cells: Seq<CellStateRadar>, p: Pos, i: int)
    requires
        first_at(cells, p, i),
    ensures
        cell_at(cells, p) == Some(i),
{
    assert(exists|k: int| 0 <= k < cells.len() && #[trigger] cells[k].pos == p) by {
        assert(cells[i].pos == p);
    }
    let k = choose|k: int| first_at(cells, p, k);
    assert(first_at(cells, p, k));
    if k < i {
        assert(cells[k].pos != p);
    } else if i < k {
        assert(cells[i].pos != p);
    }
}

impl RadarData {
    /// The first cell of the reading at `p`.
    fn cell_index_at(&self, p: Pos) -> (r: Option<usize>)
        ensures
            r matches Some(i) ==> cell_at(self.cells@, p) == Some(i as int) && i < self.cells@.len(),
            r is None ==> cell_at(self.cells@, p) is None,
    {
        let mut i: usize = 0;
        while i < self.cells.len()
            invariant
                i <= self.cells@.len(),
                forall|j: int| 0 <= j < i ==> #[trigger] self.cells@[j].pos != p,
            decreases self.cells@.len() - i,
        {
            if self.cells[i].pos == p {
                proof {
                    lemma_first_at_unique(self.cells@, p, i as int);
                }
                return Some(i);
            }
            i = i + 1;
        }
        None
    }

    /// The cell one step from the center in `dir`, if the reading shows it.
    pub fn get_dir(&self, dir: Dir) -> (r: Option<CellStateRadar>)
        requires
            pos_fits(self.center_world_pos),
        ensures
            r == cell_in_dir(*self, dir),
    {
        match self.center_world_pos.add_dir(dir) {
            Some(p) => match self.cell_index_at(p) {
                Some(i) => Some(self.cells[i]),
                None => None,
            },
            None => None,
        }
    }

    /// The first neighbouring cell, trying up, down, left and right in turn, that holds
    /// `item`, with its direction.
    pub fn find_dirs(&self, item: Item) -> (r: Option<(Dir, CellStateRadar)>)
        requires
            pos_fits(self.center_world_pos),
        ensures
            r matches Some((d, c)) ==> item_dir(*self, item) == Some(d) && cell_in_dir(*self, d)
                == Some(c),
            r is None ==> item_dir(*self, item) is None,
    {
        let dirs = Dir::all();
        let mut k: usize = 0;
        while k < 4
            invariant
                k <= 4,
                pos_fits(self.center_world_pos),
                dirs@ == seq![Dir::Up, Dir::Down, Dir::Left, Dir::Right],
                forall|j: int|
                    0 <= j < k ==> !(cell_in_dir(*self, #[trigger] dirs@[j]) matches Some(c)
                        && c.item == Some(item)),
            decreases 4 - k,
        {
            let d = dirs[k];
            if let Some(c) = self.get_dir(d) {
                if c.has_item(item) {
                    proof {
                        if k >= 1 {
                            assert(!(cell_in_dir(*self, dirs@[0]) matches Some(c) && c.item == Some(item)));
                        }
                        if k >= 2 {
                            assert(!(cell_in_dir(*self, dirs@[1]) matches Some(c) && c.item == Some(item)));
                        }
                        if k >= 3 {
                            assert(!(cell_in_dir(*self, dirs@[2]) matches Some(c) && c.item == Some(item)));
                        }
                    }
                    return Some((d, c));
                }
            }
            k = k + 1;
        }
        proof {
            assert(!(cell_in_dir(*self, dirs@[0]) matches Some(c) && c.item == Some(item)));
            assert(!(cell_in_dir(*self, dirs@[1]) matches Some(c) && c.item == Some(item)));
            assert(!(cell_in_dir(*self, dirs@[2]) matches Some(c) && c.item == Some(item)));
            assert(!(cell_in_dir(*self, dirs@[3]) matches Some(c) && c.item == Some(item)));
        }
        None
    }

    /// The first cell of the reading that holds `item`, with its index.
    pub fn find(&self, item: Item) -> (r: Option<(usize, CellStateRadar)>)
        ensures
            r matches Some((i, c)) ==> first_with_item(self.cells@, item, i as int) && c
                == self.cells@[i as int],
            r is None ==> forall|j: int|
                0 <= j < self.cells@.len() ==> #[trigger] self.cells@[j].item != Some(item),
    {
        let mut i: usize = 0;
        while i < self.cells.len()
            invariant
                i <= self.cells@.len(),
                forall|j: int| 0 <= j < i ==> #[trigger] self.cells@[j].item != Some(item),
            decreases self.cells@.len() - i,
        {
            if self.cells[i].has_item(item) {
                return Some((i, self.cells[i]));
            }
            i = i + 1;
        }
        None
    }
}

} // verus!
