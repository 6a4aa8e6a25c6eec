//! The server's game state and rules: which bot actions are valid and what they do.
use vstd::prelude::*;

use std::collections::HashMap;

use crate::bot::{
    spec_capable, spec_energy_per_tick, spec_frame_build_cost, spec_max_energy, Action,
    ActionId, ActionResult, ActionStatus, BotData, FrameKind, Subsystems, subsystem_index, Subsystem,
};
use crate::gridworld::{GridWorld, PassableCell};
use crate::known_map::ClientCellState;
use crate::types::{pos_fits, spec_step, CellKind, Dir, Energy, Item, Pos, Team};

verus! {

broadcast use vstd::std_specs::hash::group_hash_axioms;

/// Stands for an entity of the game world (a bot or a bot under construction).
pub type EntityId = u64;

#[derive(Debug, Clone, Copy, PartialEq, Eq, Structural)]
pub struct CellState {
    pub kind: CellKind,
    pub partially_built_bot: Option<EntityId>,
    pub pawn: Option<EntityId>,
    pub item: Option<Item>,
}

impl Default for CellState {
    fn default() -> (r: CellState)
        ensures
            r == (CellState {
                kind: CellKind::Unknown,
                partially_built_bot: None,
                pawn: None,
                item: None,
            }),
    {
        CellState { kind: CellKind::Unknown, partially_built_bot: None, pawn: None, item: None }
    }
}

pub open spec fn spec_can_enter(c: CellState) -> bool {
    c.kind == CellKind::Empty && c.pawn is None && c.partially_built_bot is None
}

/// The ids of the bots, with the entity each one is.
pub struct BotIdToEntity(pub HashMap<u32, EntityId>);

impl BotIdToEntity {
    /// The entity of a bot, whose id must be known.
    pub fn to_entity(&self, bot_id: u32) -> (r: EntityId)
        requires
            self.0@.contains_key(bot_id),
        ensures
            r == self.0@[bot_id],
    {
        *self.0.get(&bot_id).unwrap()
    }
}

impl CellState {
    pub fn empty() -> (r: CellState)
        ensures
            r == (CellState { kind: CellKind::Empty, partially_built_bot: None, pawn: None, item: None }),
    {
        CellState { kind: CellKind::Empty, partially_built_bot: None, pawn: None, item: None }
    }

    pub fn blocked() -> (r: CellState)
        ensures
            r == (CellState {
                kind: CellKind::Blocked,
                partially_built_bot: None,
                pawn: None,
                item: None,
            }),
    {
        CellState { kind: CellKind::Blocked, partially_built_bot: None, pawn: None, item: None }
    }

    pub fn new_with_pawn(pawn: EntityId) -> (r: CellState)
        ensures
            r == (CellState {
                kind: CellKind::Empty,
                partially_built_bot: None,
                pawn: Some(pawn),
                item: None,
            }),
    {
        CellState { kind: CellKind::Empty, partially_built_bot: None, pawn: Some(pawn), item: None }
    }

    pub fn can_enter(&self) -> (r: bool)
        ensures
            r == spec_can_enter(*self),
    {
        self.kind == CellKind::Empty && self.pawn.is_none() && self.partially_built_bot.is_none()
    }

    /// The server cell a bot's view of a cell stands for.
    pub fn from_client_state(state: &ClientCellState, bot_id_map: &BotIdToEntity) -> (r: CellState)
        requires
            state.pawn matches Some(id) ==> bot_id_map.0@.contains_key(id),
        ensures
            r.kind == state.kind,
            r.partially_built_bot is None,
            r.item == state.item,
            r.pawn == (match state.pawn {
                Some(id) => Some(bot_id_map.0@[id]),
                None => None,
            }),
    {
        CellState {
            kind: state.kind,
            partially_built_bot: None,
            pawn: match state.pawn {
                Some(id) => Some(bot_id_map.to_entity(id)),
                None => None,
            },
            item: state.item,
        }
    }
}

impl PassableCell for CellState {
    open spec fn spec_is_blocked(&self) -> bool {
        !spec_can_enter(*self)
    }

    fn is_blocked(&self) -> (r: bool) {
        !self.can_enter()
    }
}

pub type ServerGrid = GridWorld<CellState>;

/// A bot under construction.
#[derive(Clone, Copy, Debug)]
pub struct PartiallyBuiltBot {
    pub frame_kind: FrameKind,
    pub subsystems: Subsystems,
    pub pos: Pos,
    pub team: Team,
    pub ticks_required: u32,
    pub ticks_remaining: u32,
}

#[derive(Debug, Clone, Copy, PartialEq, Eq, Structural)]
pub enum ActionState {
    /// An action that needs no progress tracking.
    Simple,
    MoveTo { idx: usize },
}

/// The action a bot is carrying out.
#[derive(Clone, Debug)]
pub struct ActionContainer {
    pub kind: Action,
    pub id: ActionId,
    pub state: ActionState,
    pub reason: &'static str,
}

/// A bot in the world: its entity, id, state, current action and finished actions.
pub struct BotEntry {
    pub entity: EntityId,
    pub bot_id: u32,
    pub data: BotData,
    pub current_action: Option<ActionContainer>,
    pub past_actions: Vec<ActionResult>,
}

/// The index of the first bot that is entity `e`, if any.
pub open spec fn spec_find_bot(bots: Seq<BotEntry>, e: EntityId) -> Option<int>
    decreases bots.len(),
{
    if bots.len() == 0 {
        None
    } else {
        match spec_find_bot(bots.drop_last(), e) {
            Some(i) => Some(i),
            None => if bots.last().entity == e {
                Some(bots.len() - 1)
            } else {
                None
            },
        }
    }
}

pub proof fn lemma_find_bot(bots: Seq<BotEntry>, e: EntityId)
    ensures
        spec_find_bot(bots, e) matches Some(i) ==> 0 <= i < bots.len() && bots[i].entity == e
            && forall|j: int| 0 <= j < i ==> bots[j].entity != e,
        spec_find_bot(bots, e) is None ==> forall|j: int|
            0 <= j < bots.len() ==> bots[j].entity != e,
    decreases bots.len(),
{
    if bots.len() > 0 {
        lemma_find_bot(bots.drop_last(), e);
        assert forall|j: int| 0 <= j < bots.len() - 1 implies bots[j] == bots.drop_last()[j] by {}
    }
}

/// The index of the first bot that is entity `e`.
pub fn find_bot(bots: &Vec<BotEntry>, e: EntityId) -> (r: Option<usize>)
    ensures
        r matches Some(i) ==> spec_find_bot(bots@, e) == Some(i as int),
        r is None ==> spec_find_bot(bots@, e) is None,
{
    let mut i: usize = 0;
    proof {
        lemma_find_bot(bots@, e);
    }
    while i < bots.len()
        invariant
            i <= bots@.len(),
            forall|j: int| 0 <= j < i ==> bots@[j].entity != e,
            spec_find_bot(bots@, e) matches Some(k) ==> 0 <= k < bots@.len() && bots@[k].entity
                == e && forall|j: int| 0 <= j < k ==> bots@[j].entity != e,
            spec_find_bot(bots@, e) is None ==> forall|j: int|
                0 <= j < bots@.len() ==> bots@[j].entity != e,
        decreases bots@.len() - i,
    {
        if bots[i].entity == e {
            proof {
                if let Some(k) = spec_find_bot(bots@, e) {
                    if k < i {
                    } else if k > i {
                    }
                }
            }
            return Some(i);
        }
        i = i + 1;
    }
    None
}

/// The index of the partially built bot that is entity `e`, if any.
pub open spec fn spec_find_partial(partial: Seq<(EntityId, PartiallyBuiltBot)>, e: EntityId) -> Option<int>
    decreases partial.len(),
{
    if partial.len() == 0 {
        None
    } else {
        match spec_find_partial(partial.drop_last(), e) {
            Some(i) => Some(i),
            None => if partial.last().0 == e {
                Some(partial.len() - 1)
            } else {
                None
            },
        }
    }
}

pub proof fn lemma_find_partial(partial: Seq<(EntityId, PartiallyBuiltBot)>, e: EntityId)
    ensures
        spec_find_partial(partial, e) matches Some(i) ==> 0 <= i < partial.len() && partial[i].0
            == e && forall|j: int| 0 <= j < i ==> partial[j].0 != e,
        spec_find_partial(partial, e) is None ==> forall|j: int|
            0 <= j < partial.len() ==> partial[j].0 != e,
    decreases partial.len(),
{
    if partial.len() > 0 {
        lemma_find_partial(partial.drop_last(), e);
        assert forall|j: int| 0 <= j < partial.len() - 1 implies partial[j] == partial.drop_last()[j] by {}
    }
}

pub fn find_partial(partial: &Vec<(EntityId, PartiallyBuiltBot)>, e: EntityId) -> (r: Option<usize>)
    ensures
        r matches Some(i) ==> spec_find_partial(partial@, e) == Some(i as int),
        r is None ==> spec_find_partial(partial@, e) is None,
{
    let mut i: usize = 0;
    proof {
        lemma_find_partial(partial@, e);
    }
    while i < partial.len()
        invariant
            i <= partial@.len(),
            forall|j: int| 0 <= j < i ==> partial@[j].0 != e,
            spec_find_partial(partial@, e) matches Some(k) ==> 0 <= k < partial@.len()
                && partial@[k].0 == e && forall|j: int| 0 <= j < k ==> partial@[j].0 != e,
            spec_find_partial(partial@, e) is None ==> forall|j: int|
                0 <= j < partial@.len() ==> partial@[j].0 != e,
        decreases partial@.len() - i,
    {
        if partial[i].0 == e {
            return Some(i);
        }
        i = i + 1;
    }
    None
}

/// The target of a step from `pos` in `dir`, or the error for a step off the grid.
pub open spec fn spec_target(pos: Pos, dir: Dir, grid: ServerGrid) -> Result<Pos, Seq<char>> {
    match spec_step(pos, dir) {
        Some(t) => if grid.spec_contains(t) {
            Ok(t)
        } else {
            Err("Invalid Recharge: Out of bounds"@)
        },
        None => Err("Invalid Recharge: Out of bounds"@),
    }
}

pub open spec fn spec_target_opt(pos: Pos, dir: Option<Dir>, grid: ServerGrid) -> Result<Pos, Seq<char>> {
    match dir {
        Some(d) => spec_target(pos, d, grid),
        None => Ok(pos),
    }
}

pub fn validate_target_pos(pos: Pos, dir: Dir, grid_world: &ServerGrid) -> (r: Result<Pos, String>)
    requires
        pos_fits(pos),
    ensures
        r matches Ok(t) ==> spec_target(pos, dir, *grid_world) == Ok::<Pos, Seq<char>>(t),
        r matches Err(m) ==> spec_target(pos, dir, *grid_world) == Err::<Pos, Seq<char>>(m@),
{
    let Some(target_pos) = pos.add_dir(dir) else {
        return Err(String::from_str("Invalid Recharge: Out of bounds"));
    };
    if !grid_world.in_bounds(&target_pos) {
        return Err(String::from_str("Invalid Recharge: Out of bounds"));
    }
    Ok(target_pos)
}

pub fn validate_target_pos_opt_dir(pos: Pos, dir: Option<Dir>, grid_world: &ServerGrid) -> (r: Result<
    Pos,
    String,
>)
    requires
        pos_fits(pos),
    ensures
        r matches Ok(t) ==> spec_target_opt(pos, dir, *grid_world) == Ok::<Pos, Seq<char>>(t),
        r matches Err(m) ==> spec_target_opt(pos, dir, *grid_world) == Err::<Pos, Seq<char>>(m@),
{
    let Some(dir) = dir else {
        return Ok(pos);
    };
    validate_target_pos(pos, dir, grid_world)
}

/// Whether `new_pos` is one step from `pos` in some direction.
pub open spec fn spec_one_step(pos: Pos, new_pos: Pos) -> bool {
    exists|d: Dir| spec_step(pos, d) == Some(new_pos)
}

pub fn is_one_step(pos: Pos, new_pos: Pos) -> (r: bool)
    requires
        pos_fits(pos),
    ensures
        r == spec_one_step(pos, new_pos),
{
    let dirs = Dir::all();
    let mut i: usize = 0;
    while i < 4
        invariant
            i <= 4,
            pos_fits(pos),
            dirs@ == seq![Dir::Up, Dir::Down, Dir::Left, Dir::Right],
            forall|j: int| 0 <= j < i ==> spec_step(pos, #[trigger] dirs@[j]) != Some(new_pos),
        decreases 4 - i,
    {
        if let Some(adjacent_pos) = pos.add_dir(dirs[i]) {
            if adjacent_pos == new_pos {
                return true;
            }
        }
        i = i + 1;
    }
    proof {
        assert forall|d: Dir| spec_step(pos, d) != Some(new_pos) by {
            match d {
                Dir::Up => assert(dirs@[0] == d),
                Dir::Down => assert(dirs@[1] == d),
                Dir::Left => assert(dirs@[2] == d),
                Dir::Right => assert(dirs@[3] == d),
            }
        }
    }
    false
}


/// Every bot standing on the grid is one of `bots`.
pub open spec fn pawns_known(grid: ServerGrid, bots: Seq<BotEntry>) -> bool {
    forall|x: int, y: int|
        #![trigger grid.spec_cell(x, y)]
        grid.spec_in_bounds(x, y) ==> (grid.spec_cell(x, y).pawn matches Some(e) ==> spec_find_bot(
            bots,
            e,
        ) is Some)
}

/// The inputs on which an action can be checked: every bot and partial build it reads is there.
pub open spec fn spec_checkable(
    kind: Action,
    state: ActionState,
    grid: ServerGrid,
    bot: BotData,
    bots: Seq<BotEntry>,
) -> bool {
    &&& grid.spec_contains(bot.pos)
    &&& pawns_known(grid, bots)
    &&& (kind matches Action::MoveTo(path) ==> (state matches ActionState::MoveTo { idx } ==> idx
        < path@.len() || path@.len() == 0))
    &&& (kind is Harvest ==> bot.energy.0 < spec_energy_per_tick(kind) || !spec_capable(
        bot.frame,
        bot.subsystems@,
        kind,
    ))
}

/// Why an action cannot be carried out now, or `None` when it can.
pub open spec fn spec_action_error(
    kind: Action,
    state: ActionState,
    grid: ServerGrid,
    bot: BotData,
    bots: Seq<BotEntry>,
    partial: Seq<(EntityId, PartiallyBuiltBot)>,
) -> Option<Seq<char>> {
    if bot.energy.0 < spec_energy_per_tick(kind) {
        Some("Insufficient Energy"@)
    } else if !spec_capable(bot.frame, bot.subsystems@, kind) {
        Some("Insufficient Capabilities"@)
    } else {
        match kind {
            Action::Noop => None,
            Action::MoveDir(dir) => match spec_target(bot.pos, dir, grid) {
                Err(m) => Some(m),
                Ok(t) => if !spec_can_enter(grid.spec_at(t)) {
                    Some("Invalid Move: Cannot enter cell"@)
                } else {
                    None
                },
            },
            Action::MoveTo(path) => if path@.len() == 0 {
                Some("Invalid Move: Empty path"@)
            } else {
                match state {
                    ActionState::MoveTo { idx } => {
                        let new_pos = path@[idx as int];
                        if !grid.spec_contains(new_pos) {
                            Some("Invalid Move: New pos out of bounds"@)
                        } else if !spec_can_enter(grid.spec_at(new_pos)) {
                            Some("Invalid Move: Cannot enter new pos"@)
                        } else if !spec_one_step(bot.pos, new_pos) {
                            Some("Invalid Move: Next position must be adjacent"@)
                        } else {
                            None
                        }
                    },
                    _ => Some("Invalid Move: Not a move to action"@),
                }
            },
            Action::Harvest(_) => None,
            Action::Pickup(item, dir) => match spec_target_opt(bot.pos, dir, grid) {
                Err(m) => Some(m),
                Ok(l) => if grid.spec_at(l).item != Some(item) {
                    Some("Invalid Pickup: No item"@)
                } else {
                    None
                },
            },
            Action::Drop(item, dir) => match spec_target_opt(bot.pos, dir, grid) {
                Err(m) => Some(m),
                Ok(l) => if grid.spec_at(l).item is Some {
                    Some("Invalid Drop: Already has item"@)
                } else if bot.inventory.count(item) == 0 {
                    Some("Invalid Drop: No item"@)
                } else {
                    None
                },
            },
            Action::Transfer(item, dir) => match spec_target(bot.pos, dir, grid) {
                Err(m) => Some(m),
                Ok(l) => if grid.spec_at(l).pawn is None {
                    Some("Invalid Transfer: No pawn"@)
                } else if bot.inventory.count(item) == 0 {
                    Some("Invalid Transfer: No item"@)
                } else {
                    None
                },
            },
            Action::Build(dir, frame_kind, subsystems) => match spec_target(bot.pos, dir, grid) {
                Err(m) => Some(m),
                Ok(t) => {
                    let cell = grid.spec_at(t);
                    if cell.pawn is Some {
                        Some("Invalid Build: Pawn already exists"@)
                    } else {
                        match cell.partially_built_bot {
                            None => if bot.inventory.count(Item::Metal) < spec_frame_build_cost(
                                frame_kind,
                            ) {
                                Some("Invalid Build: Not enough metal"@)
                            } else {
                                None
                            },
                            Some(e) => match spec_find_partial(partial, e) {
                                Some(i) => {
                                    let p = partial[i].1;
                                    if p.frame_kind != frame_kind {
                                        Some(
                                            "Invalid Build: Pawn is already a partially built bot with a different frame kind"@,
                                        )
                                    } else if p.team != bot.team {
                                        Some(
                                            "Invalid Build: Pawn is a partially built bot but is on the wrong team"@,
                                        )
                                    } else if p.subsystems@ != subsystems@ {
                                        Some(
                                            "Invalid Build: Pawn is a partially built bot with a different subsystems"@,
                                        )
                                    } else if p.ticks_remaining == 0 && bot.energy.0 < 100
                                        + spec_energy_per_tick(kind) {
                                        Some(
                                            "Invalid Build: Not enough energy to finish construction. Requires 100 energy and build action energy cost"@,
                                        )
                                    } else {
                                        None
                                    }
                                },
                                None => Some(
                                    "Invalid Build: Pawn present but is not apartially built bot"@,
                                ),
                            },
                        }
                    }
                },
            },
            Action::Recharge(dir) => match spec_target(bot.pos, dir, grid) {
                Err(m) => Some(m),
                Ok(t) => match grid.spec_at(t).pawn {
                    None => Some("Invalid Recharge: No pawn"@),
                    Some(e) => {
                        let target = bots[spec_find_bot(bots, e)->0].data;
                        if target.energy.0 < 25 {
                            Some("Invalid Recharge: Target entity has insufficient energy"@)
                        } else if bot.energy.0 > spec_max_energy(bot.frame, bot.subsystems@) - 1 {
                            Some("Invalid Recharge: Bot has excess energy"@)
                        } else {
                            None
                        }
                    },
                },
            },
            Action::Attack(dir) => match spec_target(bot.pos, dir, grid) {
                Err(m) => Some(m),
                Ok(t) => match grid.spec_at(t).pawn {
                    None => Some("Invalid Attack: No pawn"@),
                    Some(e) => {
                        let target = bots[spec_find_bot(bots, e)->0].data;
                        if target.team == bot.team {
                            Some("Invalid Attack: Target is on same team"@)
                        } else {
                            None
                        }
                    },
                },
            },
        }
    }
}

fn err(msg: &str) -> (r: Result<(), String>)
    ensures
        r matches Err(m) && m@ == msg@,
{
    Err(String::from_str(msg))
}

/// Checks an action against the current state; `Err` carries the reason it cannot be done.
pub fn is_action_invalid(
    kind: &Action,
    state: &ActionState,
    grid_world: &ServerGrid,
    bot_data: &BotData,
    bots: &Vec<BotEntry>,
    partially_built_bots: &Vec<(EntityId, PartiallyBuiltBot)>,
) -> (r: Result<(), String>)
    requires
        spec_checkable(*kind, *state, *grid_world, *bot_data, bots@),
    ensures
        r is Ok <==> spec_action_error(
            *kind,
            *state,
            *grid_world,
            *bot_data,
            bots@,
            partially_built_bots@,
        ) is None,
        r matches Err(m) ==> spec_action_error(
            *kind,
            *state,
            *grid_world,
            *bot_data,
            bots@,
            partially_built_bots@,
        ) == Some(m@),
{
    let w = grid_world.width();
    let h = grid_world.height();
    assert(pos_fits(bot_data.pos));
    if bot_data.energy.less_than(&kind.energy_per_tick()) {
        return err("Insufficient Energy");
    }
    if !bot_data.is_capable_of(kind) {
        return err("Insufficient Capabilities");
    }
    match kind {
        Action::Noop => {},
        Action::MoveDir(dir) => {
            let new_pos = match validate_target_pos(bot_data.pos, *dir, grid_world) {
                Ok(p) => p,
                Err(m) => return Err(m),
            };
            let cell = grid_world.get(new_pos);
            if !cell.can_enter() {
                return err("Invalid Move: Cannot enter cell");
            }
        },
        Action::MoveTo(path) => {
            if path.len() == 0 {
                return err("Invalid Move: Empty path");
            }
            let idx = match state {
                ActionState::MoveTo { idx } => *idx,
                _ => {
                    return err("Invalid Move: Not a move to action");
                },
            };
            let new_pos = path[idx];
            if !grid_world.in_bounds(&new_pos) {
                return err("Invalid Move: New pos out of bounds");
            }
            let cell = grid_world.get(new_pos);
            if !cell.can_enter() {
                return err("Invalid Move: Cannot enter new pos");
            }
            if !is_one_step(bot_data.pos, new_pos) {
                return err("Invalid Move: Next position must be adjacent");
            }
        },
        Action::Harvest(_dir) => {},
        Action::Pickup(item, dir) => {
            let item_loc = match validate_target_pos_opt_dir(bot_data.pos, *dir, grid_world) {
                Ok(p) => p,
                Err(m) => return Err(m),
            };
            let cell = grid_world.get(item_loc);
            if cell.item != Some(*item) {
                return err("Invalid Pickup: No item");
            }
        },
        Action::Drop(item, dir) => {
            let item_loc = match validate_target_pos_opt_dir(bot_data.pos, *dir, grid_world) {
                Ok(p) => p,
                Err(m) => return Err(m),
            };
            let cell = grid_world.get(item_loc);
            if cell.item.is_some() {
                return err("Invalid Drop: Already has item");
            }
            if bot_data.inventory.get(*item) == 0 {
                return err("Invalid Drop: No item");
            }
        },
        Action::Transfer(item, dir) => {
            let item_loc = match validate_target_pos(bot_data.pos, *dir, grid_world) {
                Ok(p) => p,
                Err(m) => return Err(m),
            };
            let cell = grid_world.get(item_loc);
            if cell.pawn.is_none() {
                return err("Invalid Transfer: No pawn");
            }
            if bot_data.inventory.get(*item) == 0 {
                return err("Invalid Transfer: No item");
            }
        },
        Action::Build(dir, frame_kind, subsystems) => {
            let target_pos = match validate_target_pos(bot_data.pos, *dir, grid_world) {
                Ok(p) => p,
                Err(m) => return Err(m),
            };
            let cell = grid_world.get(target_pos);
            if cell.pawn.is_some() {
                return err("Invalid Build: Pawn already exists");
            }
            let Some(partial_e) = cell.partially_built_bot else {
                if bot_data.inventory.get(Item::Metal) < frame_kind.build_cost() as u32 {
                    return err("Invalid Build: Not enough metal");
                }
                return Ok(());
            };
            match find_partial(partially_built_bots, partial_e) {
                Some(i) => {
                    proof {
                        lemma_find_partial(partially_built_bots@, partial_e);
                    }
                    let partially_built_bot = &partially_built_bots[i].1;
                    if partially_built_bot.frame_kind != *frame_kind {
                        return err(
                            "Invalid Build: Pawn is already a partially built bot with a different frame kind",
                        );
                    }
                    if partially_built_bot.team != bot_data.team {
                        return err(
                            "Invalid Build: Pawn is a partially built bot but is on the wrong team",
                        );
                    }
                    if !partially_built_bot.subsystems.eq(subsystems) {
                        return err(
                            "Invalid Build: Pawn is a partially built bot with a different subsystems",
                        );
                    }
                    if partially_built_bot.ticks_remaining == 0 && bot_data.energy.0 < 100
                        + kind.energy_per_tick().0 {
                        return err(
                            "Invalid Build: Not enough energy to finish construction. Requires 100 energy and build action energy cost",
                        );
                    }
                },
                None => {
                    return err("Invalid Build: Pawn present but is not apartially built bot");
                },
            }
        },
        Action::Recharge(dir) => {
            let target_pos = match validate_target_pos(bot_data.pos, *dir, grid_world) {
                Ok(p) => p,
                Err(m) => return Err(m),
            };
            let Some(pawn) = grid_world.get(target_pos).pawn else {
                return err("Invalid Recharge: No pawn");
            };
            proof {
                assert(grid_world.spec_cell(target_pos.0.0 as int, target_pos.0.1 as int).pawn
                    == Some(pawn));
            }
            let i = find_bot(bots, pawn).unwrap();
            proof {
                lemma_find_bot(bots@, pawn);
            }
            let target_data = &bots[i].data;
            if target_data.energy.0 < 25 {
                return err("Invalid Recharge: Target entity has insufficient energy");
            }
            if bot_data.energy.0 > bot_data.max_energy().0 - 1 {
                return err("Invalid Recharge: Bot has excess energy");
            }
        },
        Action::Attack(dir) => {
            let target_pos = match validate_target_pos(bot_data.pos, *dir, grid_world) {
                Ok(p) => p,
                Err(m) => return Err(m),
            };
            let Some(pawn) = grid_world.get(target_pos).pawn else {
                return err("Invalid Attack: No pawn");
            };
            proof {
                assert(grid_world.spec_cell(target_pos.0.0 as int, target_pos.0.1 as int).pawn
                    == Some(pawn));
            }
            let i = find_bot(bots, pawn).unwrap();
            proof {
                lemma_find_bot(bots@, pawn);
            }
            let target_data = &bots[i].data;
            if target_data.team == bot_data.team {
                return err("Invalid Attack: Target is on same team");
            }
        },
    }
    Ok(())
}

/// Effects of this tick's actions that take hold once every bot has acted.
pub struct TickEffects {
    /// Items handed to other bots.
    pub transfers: Vec<(EntityId, Item)>,
    /// Energy drawn from other bots by recharging.
    pub recharge_subtractions: Vec<(EntityId, Energy)>,
    /// Bots under construction started this tick.
    pub spawned_partials: Vec<(EntityId, PartiallyBuiltBot)>,
    /// Bots under construction finished this tick, with the state they start with.
    pub completed_builds: Vec<(EntityId, BotData)>,
}

impl TickEffects {
    pub fn new() -> (r: TickEffects)
        ensures
            r.transfers@.len() == 0,
            r.recharge_subtractions@.len() == 0,
            r.spawned_partials@.len() == 0,
            r.completed_builds@.len() == 0,
    {
        TickEffects {
            transfers: Vec::new(),
            recharge_subtractions: Vec::new(),
            spawned_partials: Vec::new(),
            completed_builds: Vec::new(),
        }
    }
}

/// Where `Pickup` and `Drop` act: the step in `dir` if there is one, else the bot's own cell.
pub open spec fn spec_item_loc(pos: Pos, dir: Option<Dir>) -> Pos {
    match dir {
        Some(d) => match spec_step(pos, d) {
            Some(t) => t,
            None => pos,
        },
        None => pos,
    }
}

/// Whether the subsystems fit in the frame.
pub open spec fn spec_fits(frame: FrameKind, subsystems: Subsystems) -> bool {
    crate::bot::slots_taken(subsystems@) <= crate::bot::spec_frame_slots(frame)
}

/// The step target of `dir` from `pos` exists and is on the grid.
pub open spec fn spec_step_in(pos: Pos, dir: Dir, grid: ServerGrid) -> bool {
    spec_step(pos, dir) matches Some(t) && grid.spec_contains(t)
}

/// Whether the action can be carried out against the current state without failing midway.
pub open spec fn spec_applicable(
    kind: Action,
    state: ActionState,
    bot: BotData,
    grid: ServerGrid,
    partials: Seq<(EntityId, PartiallyBuiltBot)>,
) -> bool {
    &&& grid.spec_contains(bot.pos)
    &&& match kind {
        Action::Noop => true,
        Action::MoveDir(dir) => spec_step_in(bot.pos, dir, grid),
        Action::Harvest(dir) => spec_step_in(bot.pos, dir, grid),
        Action::MoveTo(path) => state matches ActionState::MoveTo { idx } ==> idx < path@.len()
            && grid.spec_contains(path@[idx as int]),
        Action::Pickup(_, dir) => grid.spec_contains(spec_item_loc(bot.pos, dir)),
        Action::Drop(_, dir) => grid.spec_contains(spec_item_loc(bot.pos, dir)),
        Action::Transfer(_, dir) => spec_step_in(bot.pos, dir, grid) && grid.spec_at(
            spec_step(bot.pos, dir)->0,
        ).pawn is Some,
        Action::Build(dir, frame, subsystems) => spec_step_in(bot.pos, dir, grid) && match grid.spec_at(
            spec_step(bot.pos, dir)->0,
        ).partially_built_bot {
            None => bot.inventory.count(Item::Metal) >= spec_frame_build_cost(frame)
                && crate::bot::spec_build_ticks(frame, subsystems@) <= u8::MAX,
            Some(e) => match spec_find_partial(partials, e) {
                Some(i) => partials[i].1.ticks_remaining == 0 ==> bot.energy.0 >= 100 && spec_fits(
                    partials[i].1.frame_kind,
                    partials[i].1.subsystems,
                ),
                None => true,
            },
        },
        Action::Recharge(dir) => spec_step_in(bot.pos, dir, grid),
        Action::Attack(_) => false,
    }
}

/// A building cannot move: whatever its subsystems, it is capable of no step and no walk.
pub proof fn lemma_buildings_cannot_move(frame: FrameKind, subsystems: Seq<u8>, d: Dir, path: Vec<Pos>)
    requires
        frame is Building,
    ensures
        !spec_capable(frame, subsystems, Action::MoveDir(d)),
        !spec_capable(frame, subsystems, Action::MoveTo(path)),
{
}

/// A move that passes validation goes one step onto a cell that can be entered: the bot is not
/// a building and can pay for the step, and the cell it steps to lies on the grid, next to the
/// bot, and is open ground with no bot and no bot under construction on it.
pub proof fn lemma_validated_move_enters(
    kind: Action,
    state: ActionState,
    grid: ServerGrid,
    bot: BotData,
    bots: Seq<BotEntry>,
    partial: Seq<(EntityId, PartiallyBuiltBot)>,
)
    requires
        spec_checkable(kind, state, grid, bot, bots),
        spec_action_error(kind, state, grid, bot, bots, partial) is None,
        kind is MoveDir || kind is MoveTo,
    ensures
        !(bot.frame is Building),
        bot.energy.0 >= 1,
        kind matches Action::MoveDir(d) ==> (spec_step(bot.pos, d) matches Some(t) && grid.spec_contains(t)
            && grid.spec_at(t).kind == CellKind::Empty && grid.spec_at(t).pawn is None && grid.spec_at(
            t,
        ).partially_built_bot is None),
        kind matches Action::MoveTo(path) ==> (state matches ActionState::MoveTo { idx } && idx
            < path@.len() && {
            let t = path@[idx as int];
            &&& grid.spec_contains(t)
            &&& grid.spec_at(t).kind == CellKind::Empty
            &&& grid.spec_at(t).pawn is None
            &&& grid.spec_at(t).partially_built_bot is None
            &&& crate::types::pos_dist(bot.pos, t) == 1
        }),
{
    if let Action::MoveTo(path) = kind {
        if let ActionState::MoveTo { idx } = state {
            assert(path@.len() > 0);
            assert(idx < path@.len());
            let t = path@[idx as int];
            assert(spec_one_step(bot.pos, t));
            let d = choose|d: Dir| spec_step(bot.pos, d) == Some(t);
            assert(spec_step(bot.pos, d) == Some(t));
            grid.lemma_dims();
            assert(bot.pos.0.0 < grid.spec_width() && bot.pos.0.1 < grid.spec_height());
            assert(crate::types::pos_dist(bot.pos, t) == 1);
        }
    }
}

/// An action that passes validation can be carried out against the same state once its cost is
/// paid (an attack aside, which the game does not carry out).
pub proof fn lemma_validated_is_applicable(
    kind: Action,
    state: ActionState,
    grid: ServerGrid,
    bot: BotData,
    bots: Seq<BotEntry>,
    partial: Seq<(EntityId, PartiallyBuiltBot)>,
)
    requires
        spec_checkable(kind, state, grid, bot, bots),
        spec_action_error(kind, state, grid, bot, bots, partial) is None,
        !(kind is Attack),
        !(kind is Build),
    ensures
        spec_applicable(
            kind,
            state,
            BotData { energy: Energy((bot.energy.0 - spec_energy_per_tick(kind)) as u32), ..bot },
            grid,
            partial,
        ),
{
}

/// A pickup or a drop whose place (the bot's cell, or the step in its direction) lies on the
/// grid can be carried out, whichever way it points.
pub proof fn lemma_item_actions_applicable(
    item: Item,
    dir: Option<Dir>,
    state: ActionState,
    grid: ServerGrid,
    bot: BotData,
    partial: Seq<(EntityId, PartiallyBuiltBot)>,
)
    requires
        grid.spec_contains(bot.pos),
        dir matches Some(d) ==> (spec_step(bot.pos, d) matches Some(t) && grid.spec_contains(t)),
    ensures
        spec_applicable(Action::Pickup(item, dir), state, bot, grid, partial),
        spec_applicable(Action::Drop(item, dir), state, bot, grid, partial),
{
}


/// What passing validation guarantees of an action's place and the bot: it can pay for the
/// action and its frame and subsystems allow it; a pickup's place lies on the grid and holds the
/// item; a drop's place lies on the grid and holds nothing and the bot has the item; a transfer
/// goes to a neighbouring bot and the bot has the item; a recharge draws from a neighbouring
/// bot with at least 25 energy while the bot is below its maximum.
pub proof fn lemma_validated_guarantees(
    kind: Action,
    state: ActionState,
    grid: ServerGrid,
    bot: BotData,
    bots: Seq<BotEntry>,
    partial: Seq<(EntityId, PartiallyBuiltBot)>,
)
    requires
        spec_action_error(kind, state, grid, bot, bots, partial) is None,
    ensures
        bot.energy.0 >= spec_energy_per_tick(kind),
        spec_capable(bot.frame, bot.subsystems@, kind),
        kind matches Action::Pickup(item, dir) ==> ({
            let l = spec_item_loc(bot.pos, dir);
            &&& (dir matches Some(d) ==> spec_step(bot.pos, d) == Some(l))
            &&& (dir is None ==> l == bot.pos)
            &&& (dir is Some ==> grid.spec_contains(l))
            &&& grid.spec_at(l).item == Some(item)
        }),
        kind matches Action::Drop(item, dir) ==> ({
            let l = spec_item_loc(bot.pos, dir);
            &&& (dir matches Some(d) ==> spec_step(bot.pos, d) == Some(l))
            &&& (dir is None ==> l == bot.pos)
            &&& (dir is Some ==> grid.spec_contains(l))
            &&& grid.spec_at(l).item is None
            &&& bot.inventory.count(item) > 0
        }),
        kind matches Action::Transfer(item, d) ==> (spec_step(bot.pos, d) matches Some(t)
            && grid.spec_contains(t) && grid.spec_at(t).pawn is Some && bot.inventory.count(item) > 0),
        kind matches Action::Recharge(d) ==> ({
            let t = spec_step(bot.pos, d)->0;
            &&& spec_step(bot.pos, d) is Some
            &&& grid.spec_contains(t)
            &&& grid.spec_at(t).pawn is Some
            &&& bots[spec_find_bot(bots, grid.spec_at(t).pawn->0)->0].data.energy.0 >= 25
            &&& bot.energy.0 < spec_max_energy(bot.frame, bot.subsystems@)
        }),
        kind matches Action::Build(d, frame, _) ==> (spec_step(bot.pos, d) matches Some(t)
            && grid.spec_contains(t) && grid.spec_at(t).pawn is None && (grid.spec_at(
            t,
        ).partially_built_bot is None ==> bot.inventory.count(Item::Metal) >= spec_frame_build_cost(
            frame,
        ))),
{
}

/// Capabilities: a step, a walk or a recharge needs no subsystem but steps and walks are not
/// for buildings; picking up, dropping and handing over items need a cargo bay; building needs
/// an assembler; harvesting a mining drill; attacking a plasma rifle.
pub proof fn lemma_capabilities(frame: FrameKind, subsystems: Seq<u8>, a: Action)
    ensures
        (a is MoveDir || a is MoveTo) ==> (spec_capable(frame, subsystems, a) <==> !(frame is Building)),
        (a is Noop || a is Recharge) ==> spec_capable(frame, subsystems, a),
        (a is Pickup || a is Drop || a is Transfer) ==> (spec_capable(frame, subsystems, a) <==> subsystems[
            subsystem_index(Subsystem::CargoBay)] > 0),
        a is Build ==> (spec_capable(frame, subsystems, a) <==> subsystems[subsystem_index(
            Subsystem::Assembler,
        )] > 0),
        a is Harvest ==> (spec_capable(frame, subsystems, a) <==> subsystems[subsystem_index(
            Subsystem::MiningDrill,
        )] > 0),
        a is Attack ==> (spec_capable(frame, subsystems, a) <==> subsystems[subsystem_index(
            Subsystem::PlasmaRifle,
        )] > 0),
{
}

pub fn can_apply(
    kind: &Action,
    state: &ActionState,
    bot: &BotData,
    grid: &ServerGrid,
    partials: &Vec<(EntityId, PartiallyBuiltBot)>,
) -> (r: bool)
    ensures
        r == spec_applicable(*kind, *state, *bot, *grid, partials@),
{
    if !grid.in_bounds(&bot.pos) {
        return false;
    }
    let w = grid.width();
    let h = grid.height();
    assert(pos_fits(bot.pos));
    match kind {
        Action::Noop => true,
        Action::MoveDir(dir) | Action::Harvest(dir) | Action::Recharge(dir) => match bot.pos.add_dir(
            *dir,
        ) {
            Some(t) => grid.in_bounds(&t),
            None => false,
        },
        Action::MoveTo(path) => match state {
            ActionState::MoveTo { idx } => *idx < path.len() && grid.in_bounds(&path[*idx]),
            _ => true,
        },
        Action::Pickup(_, dir) | Action::Drop(_, dir) => {
            let loc = match dir {
                Some(d) => match bot.pos.add_dir(*d) {
                    Some(t) => t,
                    None => bot.pos,
                },
                None => bot.pos,
            };
            grid.in_bounds(&loc)
        },
        Action::Transfer(_, dir) => match bot.pos.add_dir(*dir) {
            Some(t) => grid.in_bounds(&t) && grid.get(t).pawn.is_some(),
            None => false,
        },
        Action::Build(dir, frame, subsystems) => match bot.pos.add_dir(*dir) {
            Some(t) => {
                if !grid.in_bounds(&t) {
                    return false;
                }
                match grid.get(t).partially_built_bot {
                    None => bot.inventory.get(Item::Metal) >= frame.build_cost() as u32
                        && frame.build_cost() as u32 + subsystems.size() <= 255,
                    Some(e) => match find_partial(partials, e) {
                        Some(i) => {
                            proof {
                                lemma_find_partial(partials@, e);
                            }
                            let p = &partials[i].1;
                            p.ticks_remaining != 0 || (bot.energy.0 >= 100 && p.subsystems.size()
                                <= p.frame_kind.slots() as u32)
                        },
                        None => true,
                    },
                }
            },
            None => false,
        },
        Action::Attack(_) => false,
    }
}

/// `new` holds one more of... `n` more of `item` than `old` (stopping at `u32::MAX`), and
/// nothing else changed.
pub open spec fn inv_added(new: crate::bot::Inventory, old: crate::bot::Inventory, item: Item, n: u32) -> bool {
    &&& new.spec_capacity() == old.spec_capacity()
    &&& new@ == old@.update(
        crate::bot::item_index(item),
        (if old.count(item) + n <= u32::MAX {
            old.count(item) + n
        } else {
            u32::MAX as int
        }) as u32,
    )
}

/// `new` holds `n` fewer of `item` than `old` when `old` had that many, else the same.
pub open spec fn inv_removed(new: crate::bot::Inventory, old: crate::bot::Inventory, item: Item, n: u32) -> bool {
    &&& new.spec_capacity() == old.spec_capacity()
    &&& new@ == (if old.count(item) >= n {
        old@.update(crate::bot::item_index(item), (old.count(item) - n) as u32)
    } else {
        old@
    })
}

/// `new` is `old` with the pawn at `from` removed and entity `e` placed at `to`.
pub open spec fn moved_pawn(new: ServerGrid, old: ServerGrid, from: Pos, to: Pos, e: EntityId) -> bool {
    &&& new.spec_width() == old.spec_width()
    &&& new.spec_height() == old.spec_height()
    &&& forall|x: int, y: int|
        #![trigger new.spec_cell(x, y)]
        old.spec_in_bounds(x, y) ==> new.spec_cell(x, y) == (if x == to.0.0 && y == to.0.1 {
            CellState { pawn: Some(e), ..old.spec_cell(x, y) }
        } else if x == from.0.0 && y == from.0.1 {
            CellState { pawn: None, ..old.spec_cell(x, y) }
        } else {
            old.spec_cell(x, y)
        })
}

/// Moves the pawn `entity` from `from` to `to`.
fn move_pawn(grid: &mut ServerGrid, from: Pos, to: Pos, entity: EntityId)
    requires
        old(grid).spec_contains(from),
        old(grid).spec_contains(to),
    ensures
        moved_pawn(*final(grid), *old(grid), from, to, entity),
{
    let mut c = *grid.get(from);
    c.pawn = None;
    grid.set(from, c);
    let mut d = *grid.get(to);
    d.pawn = Some(entity);
    grid.set(to, d);
}

/// Changes only the cell at `p`, to `c`.
fn set_cell(grid: &mut ServerGrid, p: Pos, c: CellState)
    requires
        old(grid).spec_contains(p),
    ensures
        final(grid).spec_updated(old(grid), p.0.0 as int, p.0.1 as int, c),
{
    grid.set(p, c);
}

/// What one step of a bot's action does: `entity` is the bot's pawn; `s`, `b`, `g`, `p`,
/// `e` and `n` are its action state, its data, the grid, the bots under construction, this
/// tick's pending effects and the next free entity, before (`0`) and after (`1`); `r` is the
/// outcome (`None` while the action goes on).
pub open spec fn action_applied(
    entity: EntityId,
    kind: Action,
    s0: ActionState,
    s1: ActionState,
    b0: BotData,
    b1: BotData,
    g0: ServerGrid,
    g1: ServerGrid,
    p0: Seq<(EntityId, PartiallyBuiltBot)>,
    p1: Seq<(EntityId, PartiallyBuiltBot)>,
    e0: TickEffects,
    e1: TickEffects,
    n0: EntityId,
    n1: EntityId,
    r: Option<ActionStatus>,
) -> bool {
    &&& (g1.spec_width() == g0.spec_width())
    &&& (g1.spec_height() == g0.spec_height())
    &&& (e1.transfers@.len() >= e0.transfers@.len())
    &&& (e1.transfers@.subrange(0, e0.transfers@.len() as int) =~= e0.transfers@)
    &&& (e1.recharge_subtractions@.subrange(
            0,
            e0.recharge_subtractions@.len() as int,
        ) =~= e0.recharge_subtractions@)
    &&& (e1.recharge_subtractions@.len() >= e0.recharge_subtractions@.len())
    &&& (e1.spawned_partials@.len() >= e0.spawned_partials@.len())
    &&& (e1.spawned_partials@.subrange(0, e0.spawned_partials@.len() as int)
            =~= e0.spawned_partials@)
    &&& (e1.completed_builds@.len() >= e0.completed_builds@.len())
    &&& (e1.completed_builds@.subrange(0, e0.completed_builds@.len() as int)
            =~= e0.completed_builds@)
    &&& (p1.len() == p0.len())
    &&& (n1 >= n0)
    &&& (n1 <= n0 + 1)
    &&& (e1.completed_builds@.len() <= e0.completed_builds@.len() + 1)
    // Only building touches the bots under construction and the tick's builds.
    &&& (!(kind is Build) ==> p1 == p0 && e1.spawned_partials@ == e0.spawned_partials@
            && e1.completed_builds@ == e0.completed_builds@ && n1 == n0)
    // Only a transfer hands items on, only a successful recharge draws energy, and only a walk
    // that goes on moves its state forward.
    &&& (!(kind is Transfer) ==> e1.transfers@ == e0.transfers@)
    &&& (!(kind is Recharge && r == Some(ActionStatus::Success)) ==> e1.recharge_subtractions@
            == e0.recharge_subtractions@)
    &&& (!(kind is MoveTo && r is None) ==> s1 == s0)
    // Noop
    &&& (kind is Noop ==> r == Some(ActionStatus::Success) && b1 == b0
            && g1 == g0)
    // A step in a direction: the bot and its pawn move there.
    &&& (kind matches Action::MoveDir(dir) ==> r == Some(ActionStatus::Success) && b1 == (
        BotData { pos: spec_step(b0.pos, dir)->0, ..b0 }) && moved_pawn(
            g1,
            g0,
            b0.pos,
            spec_step(b0.pos, dir)->0,
            entity,
        ))
    // One step along a path; done at its last cell.
    &&& (kind matches Action::MoveTo(path) ==> match s0 {
            ActionState::MoveTo { idx } => {
                &&& b1 == (BotData { pos: path@[idx as int], ..b0 })
                &&& moved_pawn(
                    g1,
                    g0,
                    b0.pos,
                    path@[idx as int],
                    entity,
                )
                &&& if idx == path@.len() - 1 {
                    r == Some(ActionStatus::Success) && s1 == s0
                } else {
                    r is None && s1 == (ActionState::MoveTo { idx: (idx + 1) as usize })
                }
            },
            _ => r matches Some(ActionStatus::Failure(m)) && m@ == "Invalid Move: Not a move to action"@
                && b1 == b0 && g1 == g0,
        })
    // Harvesting takes the item in the target cell and gives the bot a truffle.
    &&& (kind matches Action::Harvest(dir) ==> {
            let t = spec_step(b0.pos, dir)->0;
            &&& r == Some(ActionStatus::Success)
            &&& g1.spec_updated(
                &g0,
                t.0.0 as int,
                t.0.1 as int,
                CellState { item: None, ..g0.spec_at(t) },
            )
            &&& inv_added(b1.inventory, b0.inventory, Item::Truffle, 1)
            &&& b1 == (BotData { inventory: b1.inventory, ..b0 })
        })
    &&& (kind matches Action::Pickup(item, dir) ==> {
            let l = spec_item_loc(b0.pos, dir);
            &&& r == Some(ActionStatus::Success)
            &&& g1.spec_updated(
                &g0,
                l.0.0 as int,
                l.0.1 as int,
                CellState { item: None, ..g0.spec_at(l) },
            )
            &&& inv_added(b1.inventory, b0.inventory, item, 1)
            &&& b1 == (BotData { inventory: b1.inventory, ..b0 })
        })
    &&& (kind matches Action::Drop(item, dir) ==> {
            let l = spec_item_loc(b0.pos, dir);
            &&& r == Some(ActionStatus::Success)
            &&& g1.spec_updated(
                &g0,
                l.0.0 as int,
                l.0.1 as int,
                CellState { item: Some(item), ..g0.spec_at(l) },
            )
            &&& inv_removed(b1.inventory, b0.inventory, item, 1)
            &&& b1 == (BotData { inventory: b1.inventory, ..b0 })
        })
    // A transfer hands one item to the bot in the target cell once everyone has acted.
    &&& (kind matches Action::Transfer(item, dir) ==> {
            let t = spec_step(b0.pos, dir)->0;
            &&& r == Some(ActionStatus::Success)
            &&& g1 == g0
            &&& inv_removed(b1.inventory, b0.inventory, item, 1)
            &&& b1 == (BotData { inventory: b1.inventory, ..b0 })
            &&& e1.transfers@ =~= e0.transfers@.push(
                (g0.spec_at(t).pawn->0, item),
            )
        })
    // Starts a new bot under construction, paid for in metal.
    // Finishes the bot; it takes 100 energy from the builder.
    // One more tick of construction.
    &&& (kind matches Action::Build(dir, frame, subsystems) ==> {
            let t = spec_step(b0.pos, dir)->0;
            let cell = g0.spec_at(t);
            match cell.partially_built_bot {
                None => {
                    &&& r is None
                    &&& e1.spawned_partials@ =~= e0.spawned_partials@.push(
                        (
                            n0,
                            PartiallyBuiltBot {
                                frame_kind: frame,
                                subsystems: subsystems,
                                pos: t,
                                team: b0.team,
                                ticks_required: crate::bot::spec_build_ticks(
                                    frame,
                                    subsystems@,
                                ) as u32,
                                ticks_remaining: crate::bot::spec_build_ticks(
                                    frame,
                                    subsystems@,
                                ) as u32,
                            },
                        ),
                    )
                    &&& n1 == n0 + 1
                    &&& g1.spec_updated(
                        &g0,
                        t.0.0 as int,
                        t.0.1 as int,
                        CellState { partially_built_bot: Some(n0), ..cell },
                    )
                    &&& inv_removed(
                        b1.inventory,
                        b0.inventory,
                        Item::Metal,
                        spec_frame_build_cost(frame) as u32,
                    )
                    &&& b1 == (BotData { inventory: b1.inventory, ..b0 })
                    &&& p1 =~= p0
                    &&& e1.completed_builds@ =~= e0.completed_builds@
                },
                Some(e) => match spec_find_partial(p0, e) {
                    Some(i) => {
                        let p = p0[i].1;
                        if p.ticks_remaining == 0 {
                            &&& r == Some(ActionStatus::Success)
                            &&& e1.completed_builds@.len() == e0.completed_builds@.len() + 1
                            &&& e1.completed_builds@.last().0 == e
                            &&& {
                                let d = e1.completed_builds@.last().1;
                                &&& d.frame == p.frame_kind
                                &&& d.subsystems@ == p.subsystems@
                                &&& d.pos == p.pos
                                &&& d.team == p.team
                                &&& d.energy == Energy(100)
                                &&& d.inventory.spec_size() == 0
                                &&& d.known_bots@ == b0.known_bots@
                                &&& crate::known_map::same_known_map(d.known_map, b0.known_map)
                            }
                            &&& g1.spec_updated(
                                &g0,
                                t.0.0 as int,
                                t.0.1 as int,
                                CellState { partially_built_bot: None, pawn: Some(e), ..cell },
                            )
                            &&& b1 == (BotData {
                                energy: Energy((b0.energy.0 - 100) as u32),
                                ..b0
                            })
                            &&& p1 =~= p0
                            &&& e1.spawned_partials@ =~= e0.spawned_partials@
                            &&& n1 == n0
                        } else {
                            &&& r is None
                            &&& p1 =~= p0.update(
                                i,
                                (e, PartiallyBuiltBot { ticks_remaining: (p.ticks_remaining - 1) as u32, ..p }),
                            )
                            &&& b1 == b0
                            &&& g1 == g0
                            &&& e1.spawned_partials@ =~= e0.spawned_partials@
                            &&& e1.completed_builds@ =~= e0.completed_builds@
                            &&& n1 == n0
                        }
                    },
                    None => r matches Some(ActionStatus::Failure(m)) && m@
                        == "Invalid Build: Pawn is not a partially built bot"@ && b1 == b0 && g1 == g0
                        && p1 =~= p0 && e1.spawned_partials@ =~= e0.spawned_partials@
                        && e1.completed_builds@ =~= e0.completed_builds@ && n1 == n0,
                },
            }
        })
    // Recharging draws up to 10 energy from the bot in the target cell.
    &&& (kind matches Action::Recharge(dir) ==> {
            let t = spec_step(b0.pos, dir)->0;
            let max = spec_max_energy(b0.frame, b0.subsystems@);
            &&& g1 == g0
            &&& match g0.spec_at(t).pawn {
                None => r matches Some(ActionStatus::Failure(m)) && m@
                    == "Invalid Recharge: No pawn at target position"@ && b1 == b0,
                Some(p) => if b0.energy.0 >= max {
                    r matches Some(ActionStatus::Failure(m)) && m@
                        == "Invalid Recharge: Bot already at max energy"@ && b1 == b0
                } else {
                    let add = if max - b0.energy.0 <= 10 {
                        max - b0.energy.0
                    } else {
                        10
                    };
                    &&& r == Some(ActionStatus::Success)
                    &&& b1 == (BotData {
                        energy: Energy((b0.energy.0 + add) as u32),
                        ..b0
                    })
                    &&& e1.recharge_subtractions@ =~= e0.recharge_subtractions@.push((p, Energy(add as u32)))
                },
            }
        })
}

/// Carries out one step of a bot's action. `None` means the action goes on next tick.
#[verifier::spinoff_prover]
pub fn apply_action_inner(
    entity: EntityId,
    kind: &Action,
    state: &mut ActionState,
    bot: &mut BotData,
    grid_world: &mut ServerGrid,
    partials: &mut Vec<(EntityId, PartiallyBuiltBot)>,
    effects: &mut TickEffects,
    next_entity: &mut EntityId,
) -> (r: Option<ActionStatus>)
    requires
        spec_applicable(*kind, *old(state), *old(bot), *old(grid_world), old(partials)@),
        *old(next_entity) < u64::MAX,
    ensures
        action_applied(
            entity,
            *kind,
            *old(state),
            *final(state),
            *old(bot),
            *final(bot),
            *old(grid_world),
            *final(grid_world),
            old(partials)@,
            final(partials)@,
            *old(effects),
            *final(effects),
            *old(next_entity),
            *final(next_entity),
            r,
        ),
{
    let w = grid_world.width();
    let h = grid_world.height();
    assert(pos_fits(bot.pos));
    match kind {
        Action::Noop => Some(ActionStatus::Success),
        Action::MoveDir(dir) => {
            let new_pos = bot.pos.add_dir(*dir).unwrap();
            move_pawn(grid_world, bot.pos, new_pos, entity);
            bot.pos = new_pos;
            Some(ActionStatus::Success)
        },
        Action::Harvest(dir) => {
            let target_pos = bot.pos.add_dir(*dir).unwrap();
            let mut c = *grid_world.get(target_pos);
            c.item = None;
            set_cell(grid_world, target_pos, c);
            bot.inventory.add(Item::Truffle, 1);
            Some(ActionStatus::Success)
        },
        Action::MoveTo(path) => {
            if let ActionState::MoveTo { idx } = *state {
                let new_pos = path[idx];
                move_pawn(grid_world, bot.pos, new_pos, entity);
                bot.pos = new_pos;
                if idx == path.len() - 1 {
                    Some(ActionStatus::Success)
                } else {
                    *state = ActionState::MoveTo { idx: idx + 1 };
                    None
                }
            } else {
                Some(ActionStatus::Failure(String::from_str("Invalid Move: Not a move to action")))
            }
        },
        Action::Pickup(item, dir) => {
            let item_loc = match dir {
                Some(d) => match bot.pos.add_dir(*d) {
                    Some(t) => t,
                    None => bot.pos,
                },
                None => bot.pos,
            };
            let mut c = *grid_world.get(item_loc);
            c.item = None;
            set_cell(grid_world, item_loc, c);
            bot.inventory.add(*item, 1);
            Some(ActionStatus::Success)
        },
        Action::Drop(item, dir) => {
            let item_loc = match dir {
                Some(d) => match bot.pos.add_dir(*d) {
                    Some(t) => t,
                    None => bot.pos,
                },
                None => bot.pos,
            };
            let mut c = *grid_world.get(item_loc);
            c.item = Some(*item);
            set_cell(grid_world, item_loc, c);
            let _ = bot.inventory.remove(*item, 1);
            Some(ActionStatus::Success)
        },
        Action::Transfer(item, dir) => {
            let item_loc = bot.pos.add_dir(*dir).unwrap();
            let pawn = grid_world.get(item_loc).pawn.unwrap();
            let _ = bot.inventory.remove(*item, 1);
            effects.transfers.push((pawn, *item));
            Some(ActionStatus::Success)
        },
        Action::Build(dir, frame_kind, subsystems) => {
            let target_pos = bot.pos.add_dir(*dir).unwrap();
            let target_cell = *grid_world.get(target_pos);
            match target_cell.partially_built_bot {
                None => {
                    let ticks = kind.ticks_to_complete().unwrap();
                    let partially_built_e = *next_entity;
                    *next_entity = *next_entity + 1;
                    effects.spawned_partials.push(
                        (
                            partially_built_e,
                            PartiallyBuiltBot {
                                frame_kind: *frame_kind,
                                subsystems: *subsystems,
                                pos: target_pos,
                                team: bot.team,
                                ticks_remaining: ticks,
                                ticks_required: ticks,
                            },
                        ),
                    );
                    let mut c = target_cell;
                    c.partially_built_bot = Some(partially_built_e);
                    set_cell(grid_world, target_pos, c);
                    let removed = bot.inventory.remove(Item::Metal, frame_kind.build_cost() as u32);
                    assert(removed is Some);
                    None
                },
                Some(e) => match find_partial(partials, e) {
                    Some(i) => {
                        proof {
                            lemma_find_partial(partials@, e);
                        }
                        let p = partials[i].1;
                        if p.ticks_remaining == 0 {
                            let new_bot = BotData::new(
                                p.frame_kind,
                                p.subsystems,
                                p.pos,
                                p.team,
                                Energy(100),
                                bot.known_map.copy(),
                                crate::known_map::copy_known_bots(&bot.known_bots),
                            );
                            effects.completed_builds.push((e, new_bot));
                            let mut c = target_cell;
                            c.partially_built_bot = None;
                            c.pawn = Some(e);
                            set_cell(grid_world, target_pos, c);
                            bot.energy = Energy(bot.energy.0 - 100);
                            Some(ActionStatus::Success)
                        } else {
                            let mut q = p;
                            q.ticks_remaining = p.ticks_remaining - 1;
                            partials.set(i, (e, q));
                            None
                        }
                    },
                    None => Some(
                        ActionStatus::Failure(
                            String::from_str("Invalid Build: Pawn is not a partially built bot"),
                        ),
                    ),
                },
            }
        },
        Action::Recharge(dir) => {
            let target_pos = bot.pos.add_dir(*dir).unwrap();
            let target_cell = grid_world.get(target_pos);
            let Some(target_pawn_entity) = target_cell.pawn else {
                return Some(
                    ActionStatus::Failure(
                        String::from_str("Invalid Recharge: No pawn at target position"),
                    ),
                );
            };
            let max = bot.max_energy();
            if bot.energy.0 >= max.0 {
                return Some(
                    ActionStatus::Failure(
                        String::from_str("Invalid Recharge: Bot already at max energy"),
                    ),
                );
            }
            let gap = max.0 - bot.energy.0;
            let energy_to_add = if gap <= 10 {
                gap
            } else {
                10
            };
            bot.energy = Energy(bot.energy.0 + energy_to_add);
            effects.recharge_subtractions.push((target_pawn_entity, Energy(energy_to_add)));
            Some(ActionStatus::Success)
        },
        Action::Attack(_dir) => {
            // not applicable
            None
        },
    }
}
} // verus!
