//! A bot that drops what it is doing for fent or truffles: it heads for fent it knows of,
//! picks up a truffle next to it, heads for a truffle it knows of, and otherwise lets its
//! running action finish before it follows crumbs or explores.
use vstd::prelude::*;

use rand::rngs::SmallRng;

use crate::bot::{Action, ActionWithId, BotUpdate, DecisionResult};
use crate::bot_logger::{push_pos, BotLogger, LogEntry};
use crate::crumb_follower::{
    dir_of_roll, find_item, first_holding, lemma_unreachable, listed_cell, no_unknown_in_reach, reachable, unknown_cells, walk,
};
use crate::econ_bot::{existing_path_contains_pos, walks_through};
use crate::gridworld::{coord_pos, GridWorld};
use crate::known_map::{ClientBotData, ClientCellState, KnownMap};
use crate::rng::{random_index, random_ratio, random_u8_inclusive};
use crate::text::push_str;
use crate::types::{pos_fits, spec_dir_from_deltas, spec_dir_from_repr, spec_step, CellKind, Dir, Item, Pos};

verus! {

pub struct InterruptBot {
    pub ctx: BotLogger,
    pub rng: SmallRng,
    pub default_dir: Dir,
    pub action_counter: u32,
    pub seen_bots: Vec<ClientBotData>,
}

/// `i` is the first of the cells within `dist` of `pos` (in the order `nearby` lists them)
/// that holds `item`.
pub open spec fn near_first(g: GridWorld<ClientCellState>, pos: Pos, dist: usize, item: Item, i: int) -> bool {
    let coords = g.spec_nearby(pos, dist);
    &&& 0 <= i < coords.len()
    &&& g.spec_cell(coords[i].0, coords[i].1).item == Some(item)
    &&& forall|j: int| 0 <= j < i ==> #[trigger] g.spec_cell(coords[j].0, coords[j].1).item != Some(item)
}

/// The index of the first cell within `dist` of `pos`, nearest first, that holds `item`.
pub open spec fn first_near(g: GridWorld<ClientCellState>, pos: Pos, dist: usize, item: Item) -> Option<int> {
    if exists|i: int| near_first(g, pos, dist, item, i) {
        Some(choose|i: int| near_first(g, pos, dist, item, i))
    } else {
        None
    }
}

/// The direction to the first cell within one step of `pos` (itself first) that holds
/// `item`; none when that is `pos` itself.
pub open spec fn adj_dir(g: GridWorld<ClientCellState>, pos: Pos, item: Item) -> Option<Dir> {
    match first_near(g, pos, 1, item) {
        Some(i) => spec_dir_from_deltas(
            g.spec_nearby(pos, 1)[i].0 - pos.0.0,
            g.spec_nearby(pos, 1)[i].1 - pos.0.1,
        ),
        None => None,
    }
}

/// `r` is an action along a walk from `from` to `to`, with reason `why`.
pub open spec fn acts_to(g: GridWorld<ClientCellState>, from: Pos, to: Pos, r: DecisionResult, why: &'static str) -> bool {
    r matches DecisionResult::Act(Action::MoveTo(p), w) && walk(g, p@, from, to) && w == why
}

/// What the bot at `curr` with map `g` and running action `ip` decides (`r`), with its
/// default direction `d0` before and `d1` after. In order: fent on the map (waiting while the
/// running walk passes it, else walking there); a truffle next to it (picked up); a truffle
/// on the map (waiting while the running walk passes the cell to its right, else walking
/// there); waiting for a running action; the nearest crumb; a random unknown cell; and last
/// the default direction, which may change.
pub open spec fn interrupt_choice(
    g: GridWorld<ClientCellState>,
    curr: Pos,
    ip: Option<ActionWithId>,
    r: DecisionResult,
    d0: Dir,
    d1: Dir,
) -> bool {
    let fent = first_holding(g, Item::Fent);
    let fent_at = coord_pos(fent.unwrap().0, fent.unwrap().1);
    let truffle = first_holding(g, Item::Truffle);
    let truffle_side = coord_pos(truffle.unwrap().0 + 1, truffle.unwrap().1);
    let crumb = first_near(g, curr, 1000, Item::Crumb);
    let crumb_at = coord_pos(g.spec_nearby(curr, 1000)[crumb.unwrap()].0, g.spec_nearby(curr, 1000)[crumb.unwrap()].1);
    if fent is Some && walks_through(ip, fent_at) {
        r is Wait && d1 == d0
    } else if fent is Some && reachable(g, curr, fent_at) {
        acts_to(g, curr, fent_at, r, "Going to Fent") && d1 == d0
    } else if adj_dir(g, curr, Item::Truffle) is Some {
        r == DecisionResult::Act(
            Action::Pickup(Item::Truffle, Some(adj_dir(g, curr, Item::Truffle).unwrap())),
            "Picking up Truffle",
        ) && d1 == d0
    } else if truffle is Some && walks_through(ip, truffle_side) {
        r is Wait && d1 == d0
    } else if truffle is Some && reachable(g, curr, truffle_side) {
        acts_to(g, curr, truffle_side, r, "Going to truffle") && d1 == d0
    } else if ip is Some {
        r is Wait && d1 == d0
    } else if crumb is Some && reachable(g, curr, crumb_at) {
        acts_to(g, curr, crumb_at, r, "Following crumbs") && d1 == d0
    } else {
        ||| (exists|x: int, y: int|
            g.spec_in_bounds(x, y) && #[trigger] g.spec_cell(x, y).kind == CellKind::Unknown
                && acts_to(g, curr, coord_pos(x, y), r, "Exploring unknown cell")) && d1 == d0
        ||| r == DecisionResult::Act(Action::MoveDir(d1), "Exploring randomly")
    }
}

/// The map and position let the bot decide: it stands on the map, has room around it for
/// a search a thousand steps wide, and the map is small enough for path finding.
pub open spec fn interrupt_ready(g: GridWorld<ClientCellState>, curr: Pos) -> bool {
    &&& g.spec_contains(curr)
    &&& curr.0.0 + 1000 < isize::MAX
    &&& curr.0.1 + 1000 < isize::MAX
    &&& g.spec_width() * g.spec_height() + 2 * g.spec_width() + 2 * g.spec_height() <= i32::MAX
}

/// The map shows no open cell one step from `pos` in `d`: the step leaves the coordinates or
/// the map, or its cell is blocked.
pub open spec fn blocked_ahead(g: GridWorld<ClientCellState>, pos: Pos, d: Dir) -> bool {
    match spec_step(pos, d) {
        Some(p) => !g.spec_contains(p) || g.spec_at(p).kind == CellKind::Blocked,
        None => true,
    }
}

/// See `blocked_ahead`.
pub fn is_blocked_ahead(g: &GridWorld<ClientCellState>, pos: Pos, d: Dir) -> (r: bool)
    requires
        pos_fits(pos),
    ensures
        r == blocked_ahead(*g, pos, d),
{
    match pos.add_dir(d) {
        Some(p) => match g.try_get(p) {
            Some(c) => c.kind == CellKind::Blocked,
            None => true,
        },
        None => true,
    }
}

/// The exploring direction after `d0`: the direction of the roll `roll` when the coin says so
/// or the way ahead is blocked, else `d0`.
pub open spec fn spec_explore_dir(d0: Dir, coin: bool, blocked: bool, roll: u8) -> Dir {
    if coin || blocked {
        spec_dir_from_repr(roll)->0
    } else {
        d0
    }
}

/// See `spec_explore_dir`.
pub fn explore_dir(d0: Dir, coin: bool, blocked: bool, roll: u8) -> (r: Dir)
    requires
        roll <= 3,
    ensures
        r == spec_explore_dir(d0, coin, blocked, roll),
{
    if coin || blocked {
        dir_of_roll(roll)
    } else {
        d0
    }
}

proof fn lemma_near_first(g: GridWorld<ClientCellState>, pos: Pos, dist: usize, item: Item, i: int)
    requires
        near_first(g, pos, dist, item, i),
    ensures
        first_near(g, pos, dist, item) == Some(i),
{
    let k = choose|k: int| near_first(g, pos, dist, item, k);
    assert(near_first(g, pos, dist, item, k));
    let coords = g.spec_nearby(pos, dist);
    if k < i {
        assert(g.spec_cell(coords[k].0, coords[k].1).item != Some(item));
    } else if i < k {
        assert(g.spec_cell(coords[i].0, coords[i].1).item != Some(item));
    }
}

/// The first cell within `dist` of `pos`, nearest first, that holds `item`.
fn nearest_holding(g: &GridWorld<ClientCellState>, pos: Pos, dist: usize, item: Item) -> (r: Option<Pos>)
    requires
        pos.0.0 + dist < isize::MAX,
        pos.0.1 + dist < isize::MAX,
    ensures
        r matches Some(p) ==> (first_near(*g, pos, dist, item) matches Some(i) && p == coord_pos(
            g.spec_nearby(pos, dist)[i].0,
            g.spec_nearby(pos, dist)[i].1,
        )),
        r is None ==> first_near(*g, pos, dist, item) is None,
{
    let pred = |c: &ClientCellState| -> (b: bool)
        ensures
            b == (c.item == Some(item)),
        {
            match c.item {
                Some(i) => i == item,
                None => false,
            }
        };
    let ghost coords = g.spec_nearby(pos, dist);
    match g.find_nearby(pos, dist, pred) {
        Some((p, c)) => {
            proof {
                let i = choose|i: int| #[trigger] g.found_at(coords, pred, i, (p, c));
                assert(g.found_at(coords, pred, i, (p, c)));
                assert forall|j: int| 0 <= j < i implies #[trigger] g.spec_cell(coords[j].0, coords[j].1).item
                    != Some(item) by {
                    assert(pred.ensures((&g.spec_cell(coords[j].0, coords[j].1),), false));
                }
                assert(near_first(*g, pos, dist, item, i));
                lemma_near_first(*g, pos, dist, item, i);
                crate::gridworld::lemma_nearby_coords(
                    g.spec_width() as int,
                    g.spec_height() as int,
                    pos.0.0 as int,
                    pos.0.1 as int,
                    dist as nat,
                );
                assert(coords[i] == coords[i]);
            }
            Some(p)
        },
        None => {
            proof {
                if exists|i: int| near_first(*g, pos, dist, item, i) {
                    let i = choose|i: int| near_first(*g, pos, dist, item, i);
                    assert(pred.ensures((&g.spec_cell(coords[i].0, coords[i].1),), false));
                }
            }
            None
        },
    }
}

/// The direction to the first cell within one step of `pos` that holds `item`, unless that
/// is `pos` itself.
fn adjacent_holding(g: &GridWorld<ClientCellState>, pos: Pos, item: Item) -> (r: Option<Dir>)
    requires
        pos.0.0 + 1 < isize::MAX,
        pos.0.1 + 1 < isize::MAX,
    ensures
        r == adj_dir(*g, pos, item),
{
    let pred = |c: &ClientCellState| -> (b: bool)
        ensures
            b == (c.item == Some(item)),
        {
            match c.item {
                Some(i) => i == item,
                None => false,
            }
        };
    let ghost coords = g.spec_nearby(pos, 1);
    let r = g.find_adj(pos, pred);
    proof {
        if exists|i: int| #[trigger] g.first_match(coords, pred, i) && spec_dir_from_deltas(
            coords[i].0 - pos.0.0,
            coords[i].1 - pos.0.1,
        ) == r {
            let i = choose|i: int| #[trigger] g.first_match(coords, pred, i) && spec_dir_from_deltas(
                coords[i].0 - pos.0.0,
                coords[i].1 - pos.0.1,
            ) == r;
            assert forall|j: int| 0 <= j < i implies #[trigger] g.spec_cell(coords[j].0, coords[j].1).item
                != Some(item) by {
                assert(pred.ensures((&g.spec_cell(coords[j].0, coords[j].1),), false));
            }
            assert(near_first(*g, pos, 1, item, i));
            lemma_near_first(*g, pos, 1, item, i);
        } else {
            assert(r is None);
            if exists|i: int| near_first(*g, pos, 1, item, i) {
                let i = choose|i: int| near_first(*g, pos, 1, item, i);
                assert(pred.ensures((&g.spec_cell(coords[i].0, coords[i].1),), false));
            }
        }
    }
    r
}

impl InterruptBot {
    /// Heads for the first fent on the map: waits while the running walk passes it, walks
    /// there when a walk exists.
    pub fn go_to_fent_if_seen(
        &mut self,
        curr_pos: Pos,
        known_map: &KnownMap,
        in_progress_action: &Option<ActionWithId>,
    ) -> (r: DecisionResult)
        requires
            interrupt_ready(known_map.map, curr_pos),
        ensures
            final(self).ctx.bot_id == old(self).ctx.bot_id,
            final(self).ctx.current_tick == old(self).ctx.current_tick,
            final(self).default_dir == old(self).default_dir,
            final(self).action_counter == old(self).action_counter,
            ({
                let g = known_map.map;
                let fent = first_holding(g, Item::Fent);
                let fent_at = coord_pos(fent.unwrap().0, fent.unwrap().1);
                if fent is Some && walks_through(*in_progress_action, fent_at) {
                    r is Wait
                } else if fent is Some && reachable(g, curr_pos, fent_at) {
                    acts_to(g, curr_pos, fent_at, r, "Going to Fent")
                } else {
                    r is Continue
                }
            }),
    {
        let ghost g = known_map.map;
        if let Some((fx, fy)) = find_item(&known_map.map, Item::Fent) {
            let pos = Pos((fx, fy));
            if let DecisionResult::Wait = existing_path_contains_pos(in_progress_action, pos, &mut self.ctx) {
                return DecisionResult::Wait;
            }
            match known_map.map.find_path(curr_pos, pos) {
                Some(path) => {
                    let mut m = String::new();
                    push_str(&mut m, "Going to Fent at position: ");
                    push_pos(&mut m, pos);
                    self.ctx.debug(m);
                    proof {
                        assert(walk(g, path@, curr_pos, coord_pos(fx as int, fy as int)));
                    }
                    return DecisionResult::Act(Action::MoveTo(path), "Going to Fent");
                },
                None => {
                    proof {
                        if reachable(g, curr_pos, pos) {
                            let p = choose|p: Seq<Pos>| #[trigger] walk(g, p, curr_pos, pos);
                            assert(p.last() != pos);
                        }
                    }
                    self.ctx.debug(String::from_str("No path to Fent"));
                },
            }
        }
        DecisionResult::Continue
    }

    /// Picks up a truffle next to the bot, or heads for the first truffle on the map by the
    /// cell to its right: waits while the running walk passes that cell, walks there when a
    /// walk exists.
    pub fn seek_and_pickup_truffle(
        &mut self,
        curr_pos: Pos,
        in_progress_action: &Option<ActionWithId>,
        radar: &KnownMap,
    ) -> (r: DecisionResult)
        requires
            interrupt_ready(radar.map, curr_pos),
        ensures
            final(self).ctx.bot_id == old(self).ctx.bot_id,
            final(self).ctx.current_tick == old(self).ctx.current_tick,
            final(self).default_dir == old(self).default_dir,
            final(self).action_counter == old(self).action_counter,
            ({
                let g = radar.map;
                let truffle = first_holding(g, Item::Truffle);
                let side = coord_pos(truffle.unwrap().0 + 1, truffle.unwrap().1);
                if adj_dir(g, curr_pos, Item::Truffle) is Some {
                    r == DecisionResult::Act(
                        Action::Pickup(Item::Truffle, Some(adj_dir(g, curr_pos, Item::Truffle).unwrap())),
                        "Picking up Truffle",
                    )
                } else if truffle is Some && walks_through(*in_progress_action, side) {
                    r is Wait
                } else if truffle is Some && reachable(g, curr_pos, side) {
                    acts_to(g, curr_pos, side, r, "Going to truffle")
                } else {
                    r is Continue
                }
            }),
    {
        let ghost g = radar.map;
        if let Some(dir) = adjacent_holding(&radar.map, curr_pos, Item::Truffle) {
            let mut m = String::new();
            push_str(&mut m, "Picking up Truffle ");
            push_str(&mut m, crate::crumb_follower::dir_name(dir));
            self.ctx.debug(m);
            return DecisionResult::Act(Action::Pickup(Item::Truffle, Some(dir)), "Picking up Truffle");
        }
        if let Some((tx, ty)) = find_item(&radar.map, Item::Truffle) {
            let pos = Pos((tx + 1, ty));
            if let DecisionResult::Wait = existing_path_contains_pos(in_progress_action, pos, &mut self.ctx) {
                return DecisionResult::Wait;
            }
            let mut m = String::new();
            push_str(&mut m, "Going to truffle at position: ");
            push_pos(&mut m, pos);
            self.ctx.debug(m);
            match radar.map.find_path(curr_pos, pos) {
                Some(path) => {
                    proof {
                        assert(walk(g, path@, curr_pos, coord_pos(tx as int + 1, ty as int)));
                    }
                    return DecisionResult::Act(Action::MoveTo(path), "Going to truffle");
                },
                None => {
                    proof {
                        if reachable(g, curr_pos, pos) {
                            let p = choose|p: Seq<Pos>| #[trigger] walk(g, p, curr_pos, pos);
                            assert(p.last() != pos);
                        }
                    }
                    self.ctx.debug(String::from_str("No path to truffle"));
                },
            }
        }
        DecisionResult::Continue
    }

    /// Walks to the nearest crumb on the map within a thousand steps, when a walk exists.
    pub fn follow_crumbs(&mut self, curr_pos: Pos, known_map: &KnownMap) -> (r: DecisionResult)
        requires
            interrupt_ready(known_map.map, curr_pos),
        ensures
            final(self).ctx.bot_id == old(self).ctx.bot_id,
            final(self).ctx.current_tick == old(self).ctx.current_tick,
            final(self).default_dir == old(self).default_dir,
            final(self).action_counter == old(self).action_counter,
            ({
                let g = known_map.map;
                let crumb = first_near(g, curr_pos, 1000, Item::Crumb);
                let at = coord_pos(
                    g.spec_nearby(curr_pos, 1000)[crumb.unwrap()].0,
                    g.spec_nearby(curr_pos, 1000)[crumb.unwrap()].1,
                );
                if crumb is Some && reachable(g, curr_pos, at) {
                    acts_to(g, curr_pos, at, r, "Following crumbs")
                } else {
                    r is Continue
                }
            }),
    {
        let ghost g = known_map.map;
        proof {
            crate::gridworld::lemma_nearby_coords(
                g.spec_width() as int,
                g.spec_height() as int,
                curr_pos.0.0 as int,
                curr_pos.0.1 as int,
                1000,
            );
        }
        let Some(pos) = nearest_holding(&known_map.map, curr_pos, 1000, Item::Crumb) else {
            return DecisionResult::Continue;
        };
        proof {
            let i = first_near(g, curr_pos, 1000, Item::Crumb)->0;
            assert(g.spec_nearby(curr_pos, 1000)[i] == g.spec_nearby(curr_pos, 1000)[i]);
        }
        let mut m = String::new();
        push_str(&mut m, "Found Crumb at world position: ");
        push_pos(&mut m, pos);
        self.ctx.debug(m);
        match known_map.map.find_path(curr_pos, pos) {
            Some(path) => {
                return DecisionResult::Act(Action::MoveTo(path), "Following crumbs");
            },
            None => {
                proof {
                    if reachable(g, curr_pos, pos) {
                        let p = choose|p: Seq<Pos>| #[trigger] walk(g, p, curr_pos, pos);
                        assert(p.last() != pos);
                    }
                }
                self.ctx.debug(String::from_str("No path to crumb"));
            },
        }
        DecisionResult::Continue
    }

    /// Walks to a random unknown cell when a walk there exists; otherwise (no unknown cell, or
    /// the one drawn cannot be reached) moves in the default direction, which changes by chance (one in five) or when the map shows no open cell
    /// ahead.
    pub fn explore_unknown_cells(&mut self, curr_pos: Pos, radar: &KnownMap) -> (r: DecisionResult)
        requires
            interrupt_ready(radar.map, curr_pos),
        ensures
            final(self).ctx.bot_id == old(self).ctx.bot_id,
            final(self).ctx.current_tick == old(self).ctx.current_tick,
            final(self).action_counter == old(self).action_counter,
            ({
                let g = radar.map;
                ||| (exists|x: int, y: int|
                    g.spec_in_bounds(x, y) && #[trigger] g.spec_cell(x, y).kind == CellKind::Unknown
                        && acts_to(g, curr_pos, coord_pos(x, y), r, "Exploring unknown cell"))
                    && final(self).default_dir == old(self).default_dir
                ||| r == DecisionResult::Act(Action::MoveDir(final(self).default_dir), "Exploring randomly")
                    && no_unknown_in_reach(g, curr_pos) && exists|coin: bool, roll: u8|
                    roll <= 3 && final(self).default_dir == #[trigger] spec_explore_dir(
                        old(self).default_dir,
                        coin,
                        blocked_ahead(g, curr_pos, old(self).default_dir),
                        roll,
                    )
            }),
    {
        let ghost g = radar.map;
        let unknown = unknown_cells(&radar.map);
        if unknown.len() > 0 {
            let k = random_index(&mut self.rng, 0, unknown.len());
            let pos = listed_cell(&unknown, k);
            let ux = pos.0.0;
            let uy = pos.0.1;
            proof {
                assert(unknown@[k as int] == (ux, uy));
                assert(g.spec_in_bounds(ux as int, uy as int));
            }
            let mut m = String::new();
            push_str(&mut m, "Found random unexplored cell at position: ");
            push_pos(&mut m, pos);
            self.ctx.debug(m);
            match radar.map.find_path(curr_pos, pos) {
                Some(path) => {
                    proof {
                        assert(g.spec_cell(ux as int, uy as int).kind == CellKind::Unknown);
                        assert(acts_to(
                            g,
                            curr_pos,
                            coord_pos(ux as int, uy as int),
                            DecisionResult::Act(Action::MoveTo(path), "Exploring unknown cell"),
                            "Exploring unknown cell",
                        ));
                    }
                    return DecisionResult::Act(Action::MoveTo(path), "Exploring unknown cell");
                },
                None => {
                    proof {
                        lemma_unreachable(g, curr_pos, pos);
                        assert(g.spec_cell(ux as int, uy as int).kind == CellKind::Unknown);
                        assert(coord_pos(ux as int, uy as int) == pos);
                    }
                    self.ctx.debug(String::from_str("No path to random unexplored cell"));
                },
            }
        } else {
            proof {
                assert forall|x: int, y: int|
                    g.spec_in_bounds(x, y) implies #[trigger] g.spec_cell(x, y).kind != CellKind::Unknown by {
                    if g.spec_cell(x, y).kind == CellKind::Unknown {
                        assert(unknown@.contains((x as usize, y as usize)));
                    }
                }
            }
        }
        self.ctx.debug(String::from_str("No unexplored cells found, moving exploring randomly"));
        let ghost d0 = self.default_dir;
        let blocked = is_blocked_ahead(&radar.map, curr_pos, self.default_dir);
        let coin = random_ratio(&mut self.rng, 1, 5);
        let roll = if coin || blocked {
            self.ctx.debug(String::from_str("Changing default dir"));
            random_u8_inclusive(&mut self.rng, 0, 3)
        } else {
            0
        };
        self.default_dir = explore_dir(self.default_dir, coin, blocked, roll);
        assert(self.default_dir == spec_explore_dir(d0, coin, blocked_ahead(g, curr_pos, d0), roll));
        DecisionResult::Act(Action::MoveDir(self.default_dir), "Exploring randomly")
    }

    /// The decision of this tick (see `interrupt_choice`).
    pub fn determine_next_action(
        &mut self,
        curr_pos: Pos,
        known_map: &KnownMap,
        in_progress_action: Option<ActionWithId>,
    ) -> (r: DecisionResult)
        requires
            interrupt_ready(known_map.map, curr_pos),
        ensures
            final(self).ctx.bot_id == old(self).ctx.bot_id,
            final(self).ctx.current_tick == old(self).ctx.current_tick,
            final(self).action_counter == old(self).action_counter,
            interrupt_choice(
                known_map.map,
                curr_pos,
                in_progress_action,
                r,
                old(self).default_dir,
                final(self).default_dir,
            ),
    {
        let r = self.go_to_fent_if_seen(curr_pos, known_map, &in_progress_action);
        match r {
            DecisionResult::Continue => {},
            _ => {
                return r;
            },
        }
        let r = self.seek_and_pickup_truffle(curr_pos, &in_progress_action, known_map);
        match r {
            DecisionResult::Continue => {},
            _ => {
                return r;
            },
        }
        if in_progress_action.is_some() {
            self.ctx.debug(
                String::from_str(
                    "No higher priority action, waiting for in_progress_action to complete",
                ),
            );
            return DecisionResult::Wait;
        }
        let r = self.follow_crumbs(curr_pos, known_map);
        match r {
            DecisionResult::Continue => {},
            _ => {
                return r;
            },
        }
        self.explore_unknown_cells(curr_pos, known_map)
    }

    /// One tick: logs the update, decides, and numbers the decision (every tick counts,
    /// also one that waits); an action is handed back with its number and reason, with the
    /// logs of the tick.
    pub fn update(&mut self, update: BotUpdate) -> (r: (Option<ActionWithId>, Vec<LogEntry>))
        requires
            interrupt_ready(update.bot_data.known_map.map, update.bot_data.pos),
            old(self).action_counter < u32::MAX,
        ensures
            final(self).ctx.bot_id == old(self).ctx.bot_id,
            final(self).ctx.current_tick == update.tick,
            final(self).action_counter == old(self).action_counter + 1,
            final(self).ctx.buffered().len() == 0,
            exists|d: DecisionResult|
                interrupt_choice(
                    update.bot_data.known_map.map,
                    update.bot_data.pos,
                    update.in_progress_action,
                    d,
                    old(self).default_dir,
                    final(self).default_dir,
                ) && match d {
                    DecisionResult::Act(a, why) => r.0 == Some(
                        ActionWithId { id: final(self).action_counter, action: a, reason: why },
                    ),
                    _ => r.0 is None,
                },
    {
        let _ = self.ctx.set_tick(update.tick);
        self.ctx.log_debug_info(&update, 1);
        let d = self.determine_next_action(
            update.bot_data.pos,
            &update.bot_data.known_map,
            update.in_progress_action,
        );
        let (_, logs) = self.ctx.flush_buffer();
        self.action_counter = self.action_counter + 1;
        let ghost d0 = d;
        let r = match d {
            DecisionResult::Act(action, reason) => Some(
                ActionWithId { id: self.action_counter, action, reason },
            ),
            _ => None,
        };
        proof {
            assert(interrupt_choice(
                update.bot_data.known_map.map,
                update.bot_data.pos,
                update.in_progress_action,
                d0,
                old(self).default_dir,
                self.default_dir,
            ));
        }
        (r, logs)
    }
}

} // verus!
