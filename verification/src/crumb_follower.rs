//! A bot that heads for fent it has seen, harvests truffles next to it, walks to truffles it
//! remembers, follows crumbs, explores, and otherwise wanders.
use vstd::prelude::*;

use rand::rngs::SmallRng;

use crate::bot::{Action, ActionWithId};
use crate::bot_logger::{entry_is, pos_text, push_pos, BotLogger, LogEntry, LogLevel};
use crate::gridworld::{coord_pos, is_path, GridWorld};
use crate::known_map::ClientCellState;
use crate::radar::{cell_in_dir, first_with_item, item_dir, CellStateRadar, RadarData};
use crate::rng::{random_index, random_ratio, random_u8_inclusive, seeded_small_rng};
use crate::simple_bot::{bots_in, radar_cells, radar_in, track, update_known_map, ClientBotData};
use crate::text::{decimal, push_str, push_u64};
use crate::types::{pos_fits, spec_dir_from_repr, CellKind, Dir, Item, Pos};

verus! {

pub struct CrumbFollower {
    pub ctx: BotLogger,
    pub rng: SmallRng,
    pub default_dir: Dir,
    pub action_counter: u32,
    pub grid: GridWorld<ClientCellState>,
    pub seen_bots: Vec<ClientBotData>,
}

/// `(a, b)` comes before `(x, y)` when the map is walked column by column.
pub open spec fn walked_before(a: int, b: int, x: int, y: int) -> bool {
    a < x || (a == x && b < y)
}

/// `(x, y)` is the first cell of the map, walking column by column, that holds `item`.
pub open spec fn first_holding_at(grid: GridWorld<ClientCellState>, item: Item, x: int, y: int) -> bool {
    &&& grid.spec_in_bounds(x, y)
    &&& grid.spec_cell(x, y).item == Some(item)
    &&& forall|a: int, b: int|
        grid.spec_in_bounds(a, b) && walked_before(a, b, x, y) ==> #[trigger] grid.spec_cell(
            a,
            b,
        ).item != Some(item)
}

/// The first cell of the map, walking column by column, that holds `item`.
pub open spec fn first_holding(grid: GridWorld<ClientCellState>, item: Item) -> Option<(int, int)> {
    if exists|p: (int, int)| first_holding_at(grid, item, p.0, p.1) {
        Some(choose|p: (int, int)| first_holding_at(grid, item, p.0, p.1))
    } else {
        None
    }
}

/// The index of the first radar cell that holds `item`.
pub open spec fn first_radar_cell(cells: Seq<CellStateRadar>, item: Item) -> Option<int> {
    if exists|i: int| first_with_item(cells, item, i) {
        Some(choose|i: int| first_with_item(cells, item, i))
    } else {
        None
    }
}

/// `s` lists the unknown cells of the map, each once, column by column.
pub open spec fn lists_unknown(grid: GridWorld<ClientCellState>, s: Seq<(usize, usize)>) -> bool {
    &&& forall|i: int|
        0 <= i < s.len() ==> grid.spec_in_bounds(#[trigger] s[i].0 as int, s[i].1 as int)
            && grid.spec_cell(s[i].0 as int, s[i].1 as int).kind == CellKind::Unknown
    &&& forall|i: int, j: int|
        0 <= i < j < s.len() ==> walked_before(
            #[trigger] s[i].0 as int,
            s[i].1 as int,
            #[trigger] s[j].0 as int,
            s[j].1 as int,
        )
    &&& forall|x: int, y: int|
        grid.spec_in_bounds(x, y) && #[trigger] grid.spec_cell(x, y).kind == CellKind::Unknown
            ==> s.contains((x as usize, y as usize))
}

/// `p` is a walk over `g` from `a` to `b`.
pub open spec fn walk(g: GridWorld<ClientCellState>, p: Seq<Pos>, a: Pos, b: Pos) -> bool {
    is_path(&g, p) && p[0] == a && p.last() == b
}

/// Some walk over `g` leads from `a` to `b`.
pub open spec fn reachable(g: GridWorld<ClientCellState>, a: Pos, b: Pos) -> bool {
    exists|p: Seq<Pos>| #[trigger] walk(g, p, a, b)
}

/// `a` is a move along a walk from `from` to `to`.
pub open spec fn moves_to(g: GridWorld<ClientCellState>, from: Pos, to: Pos, a: Action) -> bool {
    a matches Action::MoveTo(p) && walk(g, p@, from, to)
}

/// The map, the position and the reading let the crumb follower decide: it stands on the map,
/// the radar's cells lie on it, the radar's center has room around it, and the map is small
/// enough for path finding.
pub open spec fn crumb_ready(g: GridWorld<ClientCellState>, curr: Pos, r: RadarData) -> bool {
    &&& g.spec_contains(curr)
    &&& forall|j: int| 0 <= j < r.cells@.len() ==> g.spec_contains(#[trigger] r.cells@[j].pos)
    &&& pos_fits(r.center_world_pos)
    &&& g.spec_width() * g.spec_height() + 2 * g.spec_width() + 2 * g.spec_height() <= i32::MAX
}

/// The map has no unknown cell, or one that no walk from `curr` reaches.
pub open spec fn no_unknown_in_reach(g: GridWorld<ClientCellState>, curr: Pos) -> bool {
    ||| forall|x: int, y: int|
        g.spec_in_bounds(x, y) ==> #[trigger] g.spec_cell(x, y).kind != CellKind::Unknown
    ||| exists|x: int, y: int|
        g.spec_in_bounds(x, y) && #[trigger] g.spec_cell(x, y).kind == CellKind::Unknown
            && !reachable(g, curr, coord_pos(x, y))
}

/// What the crumb follower at `curr`, with map `g` and reading `r`, does: `a` is its action,
/// `d0` and `d1` its default direction before and after. In order: walk to the first fent on
/// the map; harvest a truffle next to it; walk to the cell right of the first truffle on the
/// map; walk to the first crumb of the reading; each only where a walk exists. Otherwise it
/// walks to an unknown cell, or, when there is none or the one it tried cannot be reached,
/// moves in its default direction, which first turns to a drawn direction when a coin says so
/// or the reading shows no open cell ahead (see `spec_next_default_dir`).
pub open spec fn crumb_action(
    g: GridWorld<ClientCellState>,
    curr: Pos,
    r: RadarData,
    a: Action,
    d0: Dir,
    d1: Dir,
) -> bool {
    let fent = first_holding(g, Item::Fent);
    let truffle = first_holding(g, Item::Truffle);
    let crumb = first_radar_cell(r.cells@, Item::Crumb);
    let near = item_dir(r, Item::Truffle);
    let fent_at = coord_pos(fent.unwrap().0, fent.unwrap().1);
    let truffle_side = coord_pos(truffle.unwrap().0 + 1, truffle.unwrap().1);
    let crumb_at = r.cells@[crumb.unwrap()].pos;
    if fent is Some && reachable(g, curr, fent_at) {
        moves_to(g, curr, fent_at, a) && d1 == d0
    } else if near is Some {
        a == Action::Harvest(near.unwrap()) && d1 == d0
    } else if truffle is Some && reachable(g, curr, truffle_side) {
        moves_to(g, curr, truffle_side, a) && d1 == d0
    } else if crumb is Some && reachable(g, curr, crumb_at) {
        moves_to(g, curr, crumb_at, a) && d1 == d0
    } else {
        ||| (exists|x: int, y: int|
            g.spec_in_bounds(x, y) && #[trigger] g.spec_cell(x, y).kind == CellKind::Unknown
                && moves_to(g, curr, coord_pos(x, y), a)) && d1 == d0
        ||| a == Action::MoveDir(d1) && no_unknown_in_reach(g, curr) && exists|coin: bool, roll: u8|
            roll <= 3 && d1 == #[trigger] spec_next_default_dir(d0, coin, cell_in_dir(r, d0), roll)
    }
}

proof fn lemma_first_holding(grid: GridWorld<ClientCellState>, item: Item, x: int, y: int)
    requires
        first_holding_at(grid, item, x, y),
    ensures
        first_holding(grid, item) == Some((x, y)),
{
    assert(first_holding_at(grid, item, (x, y).0, (x, y).1));
    let p = choose|p: (int, int)| first_holding_at(grid, item, p.0, p.1);
    assert(first_holding_at(grid, item, p.0, p.1));
    if walked_before(p.0, p.1, x, y) {
        assert(grid.spec_cell(p.0, p.1).item != Some(item));
    } else if walked_before(x, y, p.0, p.1) {
        assert(grid.spec_cell(x, y).item != Some(item));
    }
}

proof fn lemma_first_radar_cell(cells: Seq<CellStateRadar>, item: Item, i: int)
    requires
        first_with_item(cells, item, i),
    ensures
        first_radar_cell(cells, item) == Some(i),
{
    let k = choose|k: int| first_with_item(cells, item, k);
    assert(first_with_item(cells, item, k));
    if k < i {
        assert(cells[k].item != Some(item));
    } else if i < k {
        assert(cells[i].item != Some(item));
    }
}

/// The first cell of the map, walking column by column, that holds `item`.
pub fn find_item(grid: &GridWorld<ClientCellState>, item: Item) -> (r: Option<(usize, usize)>)
    ensures
        r matches Some((x, y)) ==> first_holding(*grid, item) == Some((x as int, y as int)),
        r is None ==> first_holding(*grid, item) is None,
{
    let w = grid.width();
    let h = grid.height();
    let mut x: usize = 0;
    while x < w
        invariant
            x <= w,
            w == grid.spec_width(),
            h == grid.spec_height(),
            forall|a: int, b: int|
                0 <= a < x && 0 <= b < h ==> #[trigger] grid.spec_cell(a, b).item != Some(item),
        decreases w - x,
    {
        let mut y: usize = 0;
        while y < h
            invariant
                x < w,
                y <= h,
                w == grid.spec_width(),
                h == grid.spec_height(),
                forall|a: int, b: int|
                    (0 <= a < x && 0 <= b < h) || (a == x && 0 <= b < y) ==> #[trigger] grid.spec_cell(
                        a,
                        b,
                    ).item != Some(item),
            decreases h - y,
        {
            let found = match grid.get_tuple(x, y).item {
                Some(i) => i == item,
                None => false,
            };
            if found {
                proof {
                    lemma_first_holding(*grid, item, x as int, y as int);
                }
                return Some((x, y));
            }
            y = y + 1;
        }
        x = x + 1;
    }
    proof {
        if exists|p: (int, int)| first_holding_at(*grid, item, p.0, p.1) {
            let p = choose|p: (int, int)| first_holding_at(*grid, item, p.0, p.1);
            assert(grid.spec_cell(p.0, p.1).item == Some(item));
        }
    }
    None
}

/// The unknown cells of the map, column by column.
pub fn unknown_cells(grid: &GridWorld<ClientCellState>) -> (r: Vec<(usize, usize)>)
    ensures
        lists_unknown(*grid, r@),
{
    let w = grid.width();
    let h = grid.height();
    let mut r: Vec<(usize, usize)> = Vec::new();
    let mut x: usize = 0;
    while x < w
        invariant
            x <= w,
            w == grid.spec_width(),
            h == grid.spec_height(),
            forall|i: int|
                0 <= i < r@.len() ==> grid.spec_in_bounds(#[trigger] r@[i].0 as int, r@[i].1 as int)
                    && grid.spec_cell(r@[i].0 as int, r@[i].1 as int).kind == CellKind::Unknown
                    && (r@[i].0 as int) < x,
            forall|i: int, j: int|
                0 <= i < j < r@.len() ==> walked_before(
                    #[trigger] r@[i].0 as int,
                    r@[i].1 as int,
                    #[trigger] r@[j].0 as int,
                    r@[j].1 as int,
                ),
            forall|a: int, b: int|
                0 <= a < x && 0 <= b < h && #[trigger] grid.spec_cell(a, b).kind
                    == CellKind::Unknown ==> r@.contains((a as usize, b as usize)),
        decreases w - x,
    {
        let mut y: usize = 0;
        while y < h
            invariant
                x < w,
                y <= h,
                w == grid.spec_width(),
                h == grid.spec_height(),
                forall|i: int|
                    0 <= i < r@.len() ==> grid.spec_in_bounds(
                        #[trigger] r@[i].0 as int,
                        r@[i].1 as int,
                    ) && grid.spec_cell(r@[i].0 as int, r@[i].1 as int).kind == CellKind::Unknown
                        && walked_before(r@[i].0 as int, r@[i].1 as int, x as int, y as int),
                forall|i: int, j: int|
                    0 <= i < j < r@.len() ==> walked_before(
                        #[trigger] r@[i].0 as int,
                        r@[i].1 as int,
                        #[trigger] r@[j].0 as int,
                        r@[j].1 as int,
                    ),
                forall|a: int, b: int|
                    ((0 <= a < x && 0 <= b < h) || (a == x && 0 <= b < y)) && #[trigger] grid.spec_cell(
                        a,
                        b,
                    ).kind == CellKind::Unknown ==> r@.contains((a as usize, b as usize)),
            decreases h - y,
        {
            if grid.get_tuple(x, y).kind == CellKind::Unknown {
                let ghost before = r@;
                r.push((x, y));
                proof {
                    assert(r@[before.len() as int] == (x, y));
                    assert forall|a: int, b: int|
                        ((0 <= a < x && 0 <= b < h) || (a == x && 0 <= b < y + 1))
                            && #[trigger] grid.spec_cell(a, b).kind
                            == CellKind::Unknown implies r@.contains((a as usize, b as usize)) by {
                        if a == x && b == y {
                            assert(r@[before.len() as int] == (a as usize, b as usize));
                        } else {
                            assert(before.contains((a as usize, b as usize)));
                            let k = choose|k: int|
                                0 <= k < before.len() && before[k] == (a as usize, b as usize);
                            assert(r@[k] == (a as usize, b as usize));
                        }
                    }
                }
            }
            y = y + 1;
        }
        x = x + 1;
    }
    r
}

/// Whether the default direction must change: by chance, or because the reading shows no open
/// cell ahead.
pub open spec fn spec_turn_needed(coin: bool, ahead: Option<CellStateRadar>) -> bool {
    coin || !(ahead matches Some(c) && c.kind != CellKind::Blocked)
}

/// The default direction after `d0`, with the coin `coin`, the cell `ahead` and the roll
/// `roll`: the direction of the roll when a turn is needed, else `d0`.
pub open spec fn spec_next_default_dir(d0: Dir, coin: bool, ahead: Option<CellStateRadar>, roll: u8) -> Dir {
    if spec_turn_needed(coin, ahead) {
        spec_dir_from_repr(roll)->0
    } else {
        d0
    }
}

/// See `spec_turn_needed`.
pub fn turn_needed(coin: bool, ahead: Option<CellStateRadar>) -> (r: bool)
    ensures
        r == spec_turn_needed(coin, ahead),
{
    let kind = match ahead {
        Some(c) => c.kind,
        None => CellKind::Blocked,
    };
    coin || kind == CellKind::Blocked
}

/// See `spec_next_default_dir`.
pub fn next_default_dir(d0: Dir, coin: bool, ahead: Option<CellStateRadar>, roll: u8) -> (r: Dir)
    requires
        roll <= 3,
    ensures
        r == spec_next_default_dir(d0, coin, ahead, roll),
{
    if turn_needed(coin, ahead) {
        dir_of_roll(roll)
    } else {
        d0
    }
}

/// The `k`-th of the listed cells `cells`.
pub fn listed_cell(cells: &Vec<(usize, usize)>, k: usize) -> (r: Pos)
    requires
        k < cells@.len(),
    ensures
        r == Pos(cells@[k as int]),
{
    Pos(cells[k])
}

/// The direction with discriminant `roll`.
pub fn dir_of_roll(roll: u8) -> (r: Dir)
    requires
        roll <= 3,
    ensures
        spec_dir_from_repr(roll) == Some(r),
{
    match Dir::from_repr(roll) {
        Some(d) => d,
        None => Dir::Up,
    }
}

/// The ticks from `last` to `tick` on a clock of `u32` that wraps round.
pub open spec fn ticks_since(tick: u32, last: u32) -> nat {
    if tick >= last {
        (tick - last) as nat
    } else {
        (tick + 0x1_0000_0000 - last) as nat
    }
}

/// The debug line about heading for `what` at `pos`, last seen in `cell`, from `curr`.
pub open spec fn going_to_text(what: Seq<char>, pos: Pos, cell: ClientCellState, tick: u32, curr: Pos) -> Seq<char> {
    "Going to "@ + what + " at position: "@ + pos_text(pos) + ". Last observed "@ + decimal(
        cell.last_observed as nat,
    ) + ", "@ + decimal(ticks_since(tick, cell.last_observed)) + " ticks ago, current pos: "@
        + pos_text(curr)
}

fn debug_going_to(ctx: &mut BotLogger, what: &str, pos: Pos, cell: ClientCellState, tick: u32, curr: Pos)
    ensures
        final(ctx).bot_id == old(ctx).bot_id,
        final(ctx).current_tick == old(ctx).current_tick,
        final(ctx).buffered() == old(ctx).buffered().push(final(ctx).buffered().last()),
        entry_is(
            final(ctx).buffered().last(),
            old(ctx).bot_id,
            old(ctx).current_tick,
            LogLevel::Debug,
            going_to_text(what@, pos, cell, tick, curr),
        ),
{
    let mut m = String::new();
    push_str(&mut m, "Going to ");
    push_str(&mut m, what);
    push_str(&mut m, " at position: ");
    push_pos(&mut m, pos);
    push_str(&mut m, ". Last observed ");
    push_u64(&mut m, cell.last_observed as u64);
    push_str(&mut m, ", ");
    let since = tick.wrapping_sub(cell.last_observed);
    assert(since as nat == ticks_since(tick, cell.last_observed));
    push_u64(&mut m, since as u64);
    push_str(&mut m, " ticks ago, current pos: ");
    push_pos(&mut m, curr);
    assert(m@ =~= going_to_text(what@, pos, cell, tick, curr));
    ctx.debug(m);
}

fn debug_str(ctx: &mut BotLogger, msg: &str)
    ensures
        final(ctx).bot_id == old(ctx).bot_id,
        final(ctx).current_tick == old(ctx).current_tick,
        final(ctx).buffered() == old(ctx).buffered().push(final(ctx).buffered().last()),
        entry_is(final(ctx).buffered().last(), old(ctx).bot_id, old(ctx).current_tick, LogLevel::Debug, msg@),
{
    let mut m = String::new();
    push_str(&mut m, msg);
    assert(m@ =~= msg@);
    ctx.debug(m);
}

pub(crate) proof fn lemma_unreachable(g: GridWorld<ClientCellState>, a: Pos, b: Pos)
    requires
        forall|path: Seq<Pos>| is_path(&g, path) && path[0] == a ==> #[trigger] path.last() != b,
    ensures
        !reachable(g, a, b),
{
    if reachable(g, a, b) {
        let p = choose|p: Seq<Pos>| #[trigger] walk(g, p, a, b);
        assert(p.last() != b);
    }
}

impl CrumbFollower {
    /// A crumb follower for a `width` by `height` map, seeded from its bot id, heading up.
    pub fn new(ctx: BotLogger, width: usize, height: usize) -> (r: Self)
        requires
            width < isize::MAX,
            height < isize::MAX,
            width * height <= usize::MAX,
        ensures
            r.ctx == ctx,
            r.default_dir == Dir::Up,
            r.action_counter == 0,
            r.grid.spec_width() == width,
            r.grid.spec_height() == height,
            forall|x: int, y: int|
                r.grid.spec_in_bounds(x, y) ==> #[trigger] r.grid.spec_cell(x, y) == (ClientCellState {
                    kind: CellKind::Unknown,
                    pawn: None,
                    item: None,
                    last_observed: 0,
                }),
            r.seen_bots@.len() == 0,
    {
        let rng = seeded_small_rng(ctx.bot_id as u64);
        CrumbFollower {
            grid: GridWorld::new(width, height, ClientCellState::default()),
            rng,
            ctx,
            default_dir: Dir::Up,
            action_counter: 0,
            seen_bots: Vec::new(),
        }
    }

    /// The next action, decided in turn: fent on the map, a truffle next to the bot, a truffle
    /// on the map, a crumb in the reading, a random unknown cell, and finally the default
    /// direction, which changes by chance (one in five) or when the reading shows no open cell
    /// ahead.
    pub fn determine_next_action(&mut self, curr_pos: Pos, radar: &RadarData, tick: u32) -> (a: Action)
        requires
            crumb_ready(old(self).grid, curr_pos, *radar),
        ensures
            final(self).grid == old(self).grid,
            final(self).seen_bots@ == old(self).seen_bots@,
            final(self).action_counter == old(self).action_counter,
            final(self).ctx.bot_id == old(self).ctx.bot_id,
            final(self).ctx.current_tick == old(self).ctx.current_tick,
            crumb_action(
                old(self).grid,
                curr_pos,
                *radar,
                a,
                old(self).default_dir,
                final(self).default_dir,
            ),
    {
        let ghost g = self.grid;
        let ghost d0 = self.default_dir;
        // Go to known fent.
        let fent = find_item(&self.grid, Item::Fent);
        if let Some((fx, fy)) = fent {
            let pos = Pos((fx, fy));
            match self.grid.find_path(curr_pos, pos) {
                Some(path) => {
                    let cell = *self.grid.get_tuple(fx, fy);
                    debug_going_to(&mut self.ctx, "Fent", pos, cell, tick, curr_pos);
                    proof {
                        assert(walk(g, path@, curr_pos, coord_pos(fx as int, fy as int)));
                    }
                    return Action::MoveTo(path);
                },
                None => {
                    proof {
                        lemma_unreachable(g, curr_pos, coord_pos(fx as int, fy as int));
                    }
                    debug_str(&mut self.ctx, "No path to Fent");
                },
            }
        }
        // Harvest a truffle next to the bot.
        if let Some((dir, _)) = radar.find_dirs(Item::Truffle) {
            let mut m = String::new();
            push_str(&mut m, "Harvesting Truffle ");
            push_str(&mut m, dir_name(dir));
            self.ctx.debug(m);
            return Action::Harvest(dir);
        }
        // Go to a known truffle.
        let truffle = find_item(&self.grid, Item::Truffle);
        if let Some((tx, ty)) = truffle {
            let pos = Pos((tx + 1, ty));
            let cell = *self.grid.get_tuple(tx, ty);
            debug_going_to(&mut self.ctx, "truffle", pos, cell, tick, curr_pos);
            match self.grid.find_path(curr_pos, pos) {
                Some(path) => {
                    proof {
                        assert(walk(g, path@, curr_pos, coord_pos(tx as int + 1, ty as int)));
                    }
                    return Action::MoveTo(path);
                },
                None => {
                    proof {
                        lemma_unreachable(g, curr_pos, coord_pos(tx as int + 1, ty as int));
                    }
                    debug_str(&mut self.ctx, "No path to truffle");
                },
            }
        }
        // Follow a crumb.
        if let Some((ci, cell)) = radar.find(Item::Crumb) {
            proof {
                lemma_first_radar_cell(radar.cells@, Item::Crumb, ci as int);
            }
            let mut m = String::new();
            push_str(&mut m, "Found Crumb at world position: ");
            push_pos(&mut m, cell.pos);
            self.ctx.debug(m);
            proof {
                assert(g.spec_contains(radar.cells@[ci as int].pos));
            }
            match self.grid.find_path(curr_pos, cell.pos) {
                Some(path) => {
                    proof {
                        assert(walk(g, path@, curr_pos, radar.cells@[ci as int].pos));
                    }
                    return Action::MoveTo(path);
                },
                None => {
                    proof {
                        lemma_unreachable(g, curr_pos, cell.pos);
                    }
                    debug_str(&mut self.ctx, "No path to crumb");
                },
            }
        } else {
            proof {
                if exists|i: int| first_with_item(radar.cells@, Item::Crumb, i) {
                    let i = choose|i: int| first_with_item(radar.cells@, Item::Crumb, i);
                    assert(radar.cells@[i].item == Some(Item::Crumb));
                }
            }
        }
        // Explore a random unknown cell.
        let unknown = unknown_cells(&self.grid);
        if unknown.len() > 0 {
            let k = random_index(&mut self.rng, 0, unknown.len());
            let pos = listed_cell(&unknown, k);
            let ux = pos.0.0;
            let uy = pos.0.1;
            proof {
                assert(unknown@[k as int] == (ux, uy));
                assert(g.spec_in_bounds(ux as int, uy as int));
            }
            let mut m = String::new();
            push_str(&mut m, "Found random unexplored cell at position: ");
            push_pos(&mut m, pos);
            self.ctx.debug(m);
            match self.grid.find_path(curr_pos, pos) {
                Some(path) => {
                    proof {
                        assert(unknown@[k as int] == (ux, uy));
                        assert(g.spec_cell(ux as int, uy as int).kind == CellKind::Unknown);
                        assert(moves_to(g, curr_pos, coord_pos(ux as int, uy as int), Action::MoveTo(path)));
                    }
                    return Action::MoveTo(path);
                },
                None => {
                    proof {
                        lemma_unreachable(g, curr_pos, pos);
                        assert(g.spec_cell(ux as int, uy as int).kind == CellKind::Unknown);
                        assert(coord_pos(ux as int, uy as int) == pos);
                    }
                    debug_str(&mut self.ctx, "No path to random unexplored cell");
                },
            }
        } else {
            proof {
                assert forall|x: int, y: int|
                    g.spec_in_bounds(x, y) implies #[trigger] g.spec_cell(x, y).kind != CellKind::Unknown by {
                    if g.spec_cell(x, y).kind == CellKind::Unknown {
                        assert(unknown@.contains((x as usize, y as usize)));
                    }
                }
            }
        }
        // Wander in the default direction.
        let coin = random_ratio(&mut self.rng, 1, 5);
        let ahead = radar.get_dir(self.default_dir);
        let roll = if turn_needed(coin, ahead) {
            debug_str(&mut self.ctx, "Changing default dir");
            random_u8_inclusive(&mut self.rng, 0, 3)
        } else {
            0
        };
        self.default_dir = next_default_dir(self.default_dir, coin, ahead, roll);
        assert(self.default_dir == spec_next_default_dir(d0, coin, cell_in_dir(*radar, d0), roll));
        debug_str(&mut self.ctx, "No unexplored cells found, moving to default dir");
        Action::MoveDir(self.default_dir)
    }

    /// One tick: record the reading in the map, then wait while an action is in progress, or
    /// decide the next action and number it. The logs are handed back with the action.
    pub fn update(
        &mut self,
        tick: u32,
        position: Pos,
        radar: &RadarData,
        in_progress_action: Option<ActionWithId>,
    ) -> (r: (Option<ActionWithId>, Vec<LogEntry>))
        requires
            radar_in(old(self).grid, *radar),
            bots_in(old(self).grid, old(self).seen_bots@),
            crumb_ready(old(self).grid, position, *radar),
            old(self).action_counter < u32::MAX,
        ensures
            final(self).ctx.bot_id == old(self).ctx.bot_id,
            final(self).ctx.current_tick == tick,
            final(self).grid.spec_width() == old(self).grid.spec_width(),
            final(self).grid.spec_height() == old(self).grid.spec_height(),
            ({
                let t = track(
                    radar_cells(old(self).grid, *radar, tick),
                    old(self).seen_bots@,
                    radar.pawns@,
                    tick,
                );
                &&& final(self).seen_bots@ == t.1
                &&& forall|x: int, y: int|
                    #![trigger final(self).grid.spec_cell(x, y)]
                    old(self).grid.spec_in_bounds(x, y) ==> final(self).grid.spec_cell(x, y) == (t.0)(
                        x,
                        y,
                    )
            }),
            in_progress_action is Some ==> r.0 is None && final(self).action_counter == old(
                self,
            ).action_counter && final(self).default_dir == old(self).default_dir,
            in_progress_action is None ==> final(self).action_counter == old(self).action_counter
                + 1 && final(self).ctx.buffered().len() == 0 && (r.0 matches Some(a) && a.id
                == final(self).action_counter && crumb_action(
                final(self).grid,
                position,
                *radar,
                a.action,
                old(self).default_dir,
                final(self).default_dir,
            )),
    {
        let _ = self.ctx.set_tick(tick);
        update_known_map(&mut self.grid, &mut self.seen_bots, radar, tick);
        if in_progress_action.is_some() {
            debug_str(&mut self.ctx, "Previous action still in progress, waiting...");
            return (None, Vec::new());
        }
        let action = self.determine_next_action(position, radar, tick);
        let (_, logs) = self.ctx.flush_buffer();
        self.action_counter = self.action_counter + 1;
        (Some(ActionWithId { id: self.action_counter, action, reason: "" }), logs)
    }
}

/// The name of a direction.
pub open spec fn dir_text(d: Dir) -> Seq<char> {
    match d {
        Dir::Up => "Up"@,
        Dir::Down => "Down"@,
        Dir::Left => "Left"@,
        Dir::Right => "Right"@,
    }
}

/// The name of a direction.
pub fn dir_name(d: Dir) -> (r: &'static str)
    ensures
        r@ == dir_text(d),
{
    match d {
        Dir::Up => "Up",
        Dir::Down => "Down",
        Dir::Left => "Left",
        Dir::Right => "Right",
    }
}

} // verus!
