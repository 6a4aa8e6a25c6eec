//! A bot of an economy: a base that builds bots, gatherers that bring it metal, explorers.
use vstd::prelude::*;

use crate::bot::{
    spec_max_energy, subsystems_with, Action, ActionWithId, BotData, BotUpdate, BuildingKind,
    DecisionResult, FrameKind, Subsystem, Subsystems,
};
use crate::bot_logger::{BotLogger, LogEntry};
use crate::gridworld::{accepts, coord_pos, is_path, lemma_nearby_coords, nearby_coords, GridWorld};
use crate::known_map::{ClientBotData, ClientCellState};
use crate::text::{push_str, push_u64};
use crate::types::{pos_dist, spec_dir_from_deltas, spec_step, CellKind, Dir, Item, Pos};
use rand::rngs::SmallRng;

verus! {

/// What a bot does in the economy.
#[derive(Debug, Clone, Copy, PartialEq, Eq)]
pub enum EconBotRole {
    /// Not decided yet.
    Unassigned,
    Base,
    Gatherer(GathererState),
    Explorer(ExplorerState),
}

impl Default for EconBotRole {
    fn default() -> (r: EconBotRole)
        ensures
            r is Unassigned,
    {
        EconBotRole::Unassigned
    }
}

#[derive(Debug, Clone, Copy, PartialEq, Eq)]
pub enum GathererState {
    Idle,
    Gathering { base: Pos },
}

#[derive(Debug, Clone, Copy, PartialEq, Eq)]
pub enum ExplorerState {
    Idle,
    Exploring { base: Pos },
}

/// A kind of bot looked for.
#[derive(Debug, Clone, Copy, PartialEq, Eq)]
pub enum BotFilter {
    /// A bot with a generator.
    HasGenerator,
    /// A small building.
    SmallBuilding,
}

pub open spec fn filter_ok(f: BotFilter, b: ClientBotData) -> bool {
    match f {
        BotFilter::HasGenerator => b.subsystems.count(Subsystem::Generator) > 0,
        BotFilter::SmallBuilding => b.frame == FrameKind::Building(BuildingKind::Small),
    }
}

fn filter_matches(f: BotFilter, b: &ClientBotData) -> (r: bool)
    ensures
        r == filter_ok(f, *b),
{
    match f {
        BotFilter::HasGenerator => b.subsystems.has(Subsystem::Generator),
        BotFilter::SmallBuilding => match b.frame {
            FrameKind::Building(BuildingKind::Small) => true,
            _ => false,
        },
    }
}

/// A kind of cell looked for.
#[derive(Debug, Clone, Copy, PartialEq, Eq)]
pub enum CellQuery {
    /// A cell with a known bot of this kind on it.
    Bot(BotFilter),
    /// A cell with metal on it.
    Metal,
    /// A cell not seen yet.
    Unknown,
}

/// The index of the first known bot with id `id`.
pub open spec fn known_index(bots: Seq<ClientBotData>, id: u32) -> Option<int>
    decreases bots.len(),
{
    if bots.len() == 0 {
        None
    } else {
        match known_index(bots.drop_last(), id) {
            Some(i) => Some(i),
            None => if bots.last().bot_id == id {
                Some(bots.len() - 1)
            } else {
                None
            },
        }
    }
}

pub proof fn lemma_known_index(bots: Seq<ClientBotData>, id: u32)
    ensures
        known_index(bots, id) matches Some(i) ==> 0 <= i < bots.len() && bots[i].bot_id == id
            && forall|j: int| 0 <= j < i ==> bots[j].bot_id != id,
        known_index(bots, id) is None ==> forall|j: int| 0 <= j < bots.len() ==> bots[j].bot_id != id,
    decreases bots.len(),
{
    if bots.len() > 0 {
        lemma_known_index(bots.drop_last(), id);
        assert forall|j: int| 0 <= j < bots.len() - 1 implies bots[j] == bots.drop_last()[j] by {}
    }
}

pub fn find_known(bots: &Vec<ClientBotData>, id: u32) -> (r: Option<usize>)
    ensures
        r matches Some(i) ==> known_index(bots@, id) == Some(i as int),
        r is None ==> known_index(bots@, id) is None,
{
    proof {
        lemma_known_index(bots@, id);
    }
    let mut i: usize = 0;
    while i < bots.len()
        invariant
            i <= bots@.len(),
            forall|j: int| 0 <= j < i ==> bots@[j].bot_id != id,
            known_index(bots@, id) matches Some(k) ==> 0 <= k < bots@.len() && bots@[k].bot_id
                == id && forall|j: int| 0 <= j < k ==> bots@[j].bot_id != id,
            known_index(bots@, id) is None ==> forall|j: int|
                0 <= j < bots@.len() ==> bots@[j].bot_id != id,
        decreases bots@.len() - i,
    {
        if bots[i].bot_id == id {
            proof {
                if let Some(k) = known_index(bots@, id) {
                    if k < i {
                    } else if k > i {
                    }
                }
            }
            return Some(i);
        }
        i = i + 1;
    }
    None
}

/// Whether cell `c` is what `q` looks for, by the known bots `bots`.
pub open spec fn query_holds(q: CellQuery, bots: Seq<ClientBotData>, c: ClientCellState) -> bool {
    match q {
        CellQuery::Bot(f) => match c.pawn {
            Some(id) => match known_index(bots, id) {
                Some(i) => filter_ok(f, bots[i]),
                None => false,
            },
            None => false,
        },
        CellQuery::Metal => c.item == Some(Item::Metal),
        CellQuery::Unknown => c.kind == CellKind::Unknown,
    }
}

fn query_matches(q: CellQuery, bots: &Vec<ClientBotData>, c: &ClientCellState) -> (r: bool)
    ensures
        r == query_holds(q, bots@, *c),
{
    match q {
        CellQuery::Bot(f) => match c.pawn {
            Some(id) => match find_known(bots, id) {
                Some(i) => {
                    proof {
                        lemma_known_index(bots@, id);
                    }
                    filter_matches(f, &bots[i])
                },
                None => false,
            },
            None => false,
        },
        CellQuery::Metal => c.item == Some(Item::Metal),
        CellQuery::Unknown => c.kind == CellKind::Unknown,
    }
}

/// The index of the first of `coords`, from `i` on, whose cell `q` looks for.
pub open spec fn first_from(
    grid: GridWorld<ClientCellState>,
    coords: Seq<(int, int)>,
    q: CellQuery,
    bots: Seq<ClientBotData>,
    i: int,
) -> Option<int>
    decreases coords.len() - i,
{
    if i < 0 || i >= coords.len() {
        None
    } else if query_holds(q, bots, grid.spec_cell(coords[i].0, coords[i].1)) {
        Some(i)
    } else {
        first_from(grid, coords, q, bots, i + 1)
    }
}

proof fn lemma_first_found(
    grid: GridWorld<ClientCellState>,
    coords: Seq<(int, int)>,
    q: CellQuery,
    bots: Seq<ClientBotData>,
    k: int,
    i: int,
)
    requires
        0 <= k <= i < coords.len(),
        query_holds(q, bots, grid.spec_cell(coords[i].0, coords[i].1)),
        forall|j: int|
            k <= j < i ==> !query_holds(q, bots, #[trigger] grid.spec_cell(coords[j].0, coords[j].1)),
    ensures
        first_from(grid, coords, q, bots, k) == Some(i),
    decreases i - k,
{
    if k < i {
        lemma_first_found(grid, coords, q, bots, k + 1, i);
    }
}

proof fn lemma_first_none(
    grid: GridWorld<ClientCellState>,
    coords: Seq<(int, int)>,
    q: CellQuery,
    bots: Seq<ClientBotData>,
    k: int,
)
    requires
        0 <= k <= coords.len(),
        forall|j: int|
            k <= j < coords.len() ==> !query_holds(
                q,
                bots,
                #[trigger] grid.spec_cell(coords[j].0, coords[j].1),
            ),
    ensures
        first_from(grid, coords, q, bots, k) is None,
    decreases coords.len() - k,
{
    if k < coords.len() {
        lemma_first_none(grid, coords, q, bots, k + 1);
    }
}

/// The cells within `dist` of the bot, nearest first.
pub open spec fn coords_near(bot: BotData, dist: usize) -> Seq<(int, int)> {
    nearby_coords(
        bot.known_map.map.spec_width() as int,
        bot.known_map.map.spec_height() as int,
        bot.pos.0.0 as int,
        bot.pos.0.1 as int,
        dist as nat,
    )
}

/// The nearest cell within `dist` of the bot, on its known map, that `q` looks for.
pub open spec fn nearest(bot: BotData, dist: usize, q: CellQuery) -> Option<Pos> {
    let coords = coords_near(bot, dist);
    match first_from(bot.known_map.map, coords, q, bot.known_bots@, 0) {
        Some(i) => Some(coord_pos(coords[i].0, coords[i].1)),
        None => None,
    }
}

/// The bot's map is small enough for its searches, and it stands on it.
pub open spec fn econ_ok(bot: BotData) -> bool {
    let w = bot.known_map.map.spec_width();
    let h = bot.known_map.map.spec_height();
    &&& bot.known_map.map.spec_contains(bot.pos)
    &&& w * h + 2 * w + 2 * h <= i32::MAX
}

fn find_nearest(bot: &BotData, dist: usize, q: CellQuery) -> (r: Option<Pos>)
    requires
        econ_ok(*bot),
        dist <= 1000,
    ensures
        r == nearest(*bot, dist, q),
        r matches Some(p) ==> bot.known_map.map.spec_contains(p) && pos_dist(bot.pos, p) <= dist,
{
    let map = &bot.known_map.map;
    let w = map.width();
    let h = map.height();
    let bots = &bot.known_bots;
    let pred = |c: &ClientCellState| -> (r: bool)
        ensures
            r == query_holds(q, bots@, *c),
        { query_matches(q, bots, c) };
    let ghost coords = map.spec_nearby(bot.pos, dist);
    assert(coords == coords_near(*bot, dist));
    proof {
        lemma_nearby_coords(w as int, h as int, bot.pos.0.0 as int, bot.pos.0.1 as int, dist as nat);
    }
    match map.find_nearby(bot.pos, dist, pred) {
        Some((p, _)) => {
            proof {
                let i = choose|i: int| #[trigger] map.found_at(coords, pred, i, (p, map.spec_cell(
                    coords[i].0,
                    coords[i].1,
                )));
                assert(map.found_at(coords, pred, i, (p, map.spec_cell(coords[i].0, coords[i].1))));
                assert forall|j: int|
                    0 <= j < i implies !query_holds(
                    q,
                    bots@,
                    #[trigger] map.spec_cell(coords[j].0, coords[j].1),
                ) by {
                    assert(pred.ensures((&map.spec_cell(coords[j].0, coords[j].1),), false));
                }
                lemma_first_found(*map, coords, q, bots@, 0, i);
                assert(coords[i] == (p.0.0 as int, p.0.1 as int));
            }
            Some(p)
        },
        None => {
            proof {
                assert forall|j: int|
                    0 <= j < coords.len() implies !query_holds(
                    q,
                    bots@,
                    #[trigger] map.spec_cell(coords[j].0, coords[j].1),
                ) by {
                    assert(pred.ensures((&map.spec_cell(coords[j].0, coords[j].1),), false));
                }
                lemma_first_none(*map, coords, q, bots@, 0);
            }
            None
        },
    }
}


/// What a behaviour decides, a walk standing for any walk along a path to its goal.
pub enum Choice {
    Continue,
    Wait,
    /// This action, for this reason.
    Act(Action, &'static str),
    /// A walk to the position (or, when the flag is set, to a cell next to it), for this reason.
    Walk(Pos, bool, &'static str),
}

/// A walk on the bot's known map from where it stands that ends at `goal` (or next to it
/// when `adjacent` is set).
pub open spec fn walk_to(bot: BotData, goal: Pos, adjacent: bool, path: Seq<Pos>) -> bool {
    &&& is_path(&bot.known_map.map, path)
    &&& path[0] == bot.pos
    &&& accepts(goal, adjacent, path.last())
}

/// There is such a walk.
pub open spec fn reachable(bot: BotData, goal: Pos, adjacent: bool) -> bool {
    exists|path: Seq<Pos>| #[trigger] walk_to(bot, goal, adjacent, path)
}

/// `r` carries out choice `c`.
pub open spec fn realizes(bot: BotData, c: Choice, r: DecisionResult) -> bool {
    match c {
        Choice::Continue => r is Continue,
        Choice::Wait => r is Wait,
        Choice::Act(a, reason) => r matches DecisionResult::Act(b, re) && crate::bot::same_action(b, a)
            && re@ == reason@,
        Choice::Walk(goal, adjacent, reason) => r matches DecisionResult::Act(
            Action::MoveTo(path),
            re,
        ) && re@ == reason@ && walk_to(bot, goal, adjacent, path@),
    }
}

/// What is done next to a target.
#[derive(Debug, Clone, Copy, PartialEq, Eq)]
pub enum TargetAction {
    PickupMetal,
    Recharge,
}

pub open spec fn target_action(k: TargetAction, d: Dir) -> Action {
    match k {
        TargetAction::PickupMetal => Action::Pickup(Item::Metal, Some(d)),
        TargetAction::Recharge => Action::Recharge(d),
    }
}

/// Act on `target` when it is next to the bot, else walk next to it.
pub open spec fn move_and_act_choice(
    bot: BotData,
    target: Pos,
    k: TargetAction,
    reason: &'static str,
) -> Choice {
    match spec_dir_from_deltas(target.0.0 - bot.pos.0.0, target.0.1 - bot.pos.0.1) {
        Some(d) => Choice::Act(target_action(k, d), reason),
        None => if reachable(bot, target, true) {
            Choice::Walk(target, true, reason)
        } else {
            Choice::Continue
        },
    }
}

/// Walk to the nearest unseen cell within `dist`.
pub open spec fn explore_choice(bot: BotData, dist: usize) -> Choice {
    match nearest(bot, dist, CellQuery::Unknown) {
        Some(t) => if reachable(bot, t, false) {
            Choice::Walk(t, false, "Exploring")
        } else {
            Choice::Continue
        },
        None => Choice::Continue,
    }
}

/// Where the bot recharges: the nearest bot with a generator, else the nearest small building.
pub open spec fn energy_base(bot: BotData) -> Option<Pos> {
    match nearest(bot, 1000, CellQuery::Bot(BotFilter::HasGenerator)) {
        Some(p) => Some(p),
        None => nearest(bot, 1000, CellQuery::Bot(BotFilter::SmallBuilding)),
    }
}

/// Recharge when next to the base with room for it, return to the base when energy runs low.
pub open spec fn ensure_energy_choice(bot: BotData) -> Choice {
    match energy_base(bot) {
        None => Choice::Continue,
        Some(base) => {
            let e = bot.energy.0 as int;
            let max = spec_max_energy(bot.frame, bot.subsystems@);
            if e < max {
                match spec_dir_from_deltas(base.0.0 - bot.pos.0.0, base.0.1 - bot.pos.0.1) {
                    Some(d) if max - 10 >= e => Choice::Act(Action::Recharge(d), "Recharging"),
                    _ => if e < 50 || pos_dist(bot.pos, base) + 10 > e {
                        move_and_act_choice(
                            bot,
                            base,
                            TargetAction::Recharge,
                            "Returning to base to recharge",
                        )
                    } else {
                        Choice::Continue
                    },
                }
            } else {
                Choice::Continue
            }
        },
    }
}

/// Hand metal to the base, bring a full load home, fetch metal, look around, or bring what
/// was gathered home.
pub open spec fn gather_choice(bot: BotData, base: Pos) -> Choice {
    let has_metal = bot.inventory.count(Item::Metal) > 0;
    if has_metal && pos_dist(bot.pos, base) == 1 {
        Choice::Act(
            Action::Transfer(
                Item::Metal,
                spec_dir_from_deltas(base.0.0 - bot.pos.0.0, base.0.1 - bot.pos.0.1)->0,
            ),
            "Transferring metal",
        )
    } else if bot.inventory.spec_size() == bot.inventory.spec_capacity() && reachable(
        bot,
        base,
        true,
    ) {
        Choice::Walk(base, true, "Moving to base")
    } else {
        match nearest(bot, 50, CellQuery::Metal) {
            Some(t) => move_and_act_choice(bot, t, TargetAction::PickupMetal, "Picking up metal"),
            None => {
                let ex = explore_choice(bot, 10);
                if !(ex is Continue) {
                    ex
                } else if has_metal && reachable(bot, base, true) {
                    Choice::Walk(base, true, "Delivering metal to base")
                } else {
                    Choice::Continue
                }
            },
        }
    }
}

/// A gatherer with a base: keep energy up, let a running action finish, gather, explore.
pub open spec fn gathering_choice(bot: BotData, base: Pos, busy: bool) -> Choice {
    let e = ensure_energy_choice(bot);
    if !(e is Continue) {
        e
    } else if busy {
        Choice::Wait
    } else {
        let g = gather_choice(bot, base);
        if !(g is Continue) {
            g
        } else {
            explore_choice(bot, 1000)
        }
    }
}

/// The state a gatherer moves to: an idle one takes the nearest small building as its base.
pub open spec fn gatherer_next(state: GathererState, bot: BotData) -> GathererState {
    match state {
        GathererState::Idle => match nearest(bot, 1000, CellQuery::Bot(BotFilter::SmallBuilding)) {
            Some(t) => GathererState::Gathering { base: t },
            None => GathererState::Idle,
        },
        _ => state,
    }
}

pub open spec fn gatherer_choice(state: GathererState, bot: BotData, busy: bool) -> Choice {
    match gatherer_next(state, bot) {
        GathererState::Idle => Choice::Wait,
        GathererState::Gathering { base } => gathering_choice(bot, base, busy),
    }
}

/// An explorer with a base: keep energy up, let a running action finish, explore, and come
/// back when far from the base.
pub open spec fn explorer_choice(state: ExplorerState, bot: BotData, busy: bool) -> Choice {
    match state {
        ExplorerState::Idle => Choice::Wait,
        ExplorerState::Exploring { base } => {
            let e = ensure_energy_choice(bot);
            let x = explore_choice(bot, 1000);
            if !(e is Continue) {
                e
            } else if busy {
                Choice::Wait
            } else if !(x is Continue) {
                x
            } else if pos_dist(bot.pos, base) > 10 && reachable(bot, base, true) {
                Choice::Walk(base, true, "Nothing to explore, returning to base")
            } else {
                Choice::Wait
            }
        },
    }
}

/// How many of the known bots `f` accepts.
pub open spec fn count_known(bots: Seq<ClientBotData>, f: spec_fn(ClientBotData) -> bool) -> nat
    decreases bots.len(),
{
    if bots.len() == 0 {
        0
    } else {
        count_known(bots.drop_last(), f) + (if f(bots.last()) {
            1nat
        } else {
            0nat
        })
    }
}

/// The base builds a flea gatherer first, then a generator building, then tractors, each as
/// soon as it has the metal; a base low on energy without a generator recharges first from a
/// generator next to it.
pub open spec fn base_choice(bot: BotData, busy: bool) -> Choice {
    let metal = bot.inventory.count(Item::Metal);
    let fleas = count_known(bot.known_bots@, |b: ClientBotData| b.frame == FrameKind::Flea);
    let generators = count_known(
        bot.known_bots@,
        |b: ClientBotData| b.subsystems.count(Subsystem::Generator) > 0,
    );
    let low = bot.energy.0 < 10 && bot.subsystems.count(Subsystem::Generator) == 0;
    let gen = nearest(bot, 1, CellQuery::Bot(BotFilter::HasGenerator));
    if busy {
        Choice::Wait
    } else if low && gen is Some {
        let p = gen->0;
        Choice::Act(
            Action::Recharge(spec_dir_from_deltas(p.0.0 - bot.pos.0.0, p.0.1 - bot.pos.0.1)->0),
            "Recharging",
        )
    } else if fleas == 0 {
        if metal >= 2 {
            Choice::Act(
                Action::Build(
                    Dir::Up,
                    FrameKind::Flea,
                    subsystems_with(Subsystems::spec_from_list(seq![(Subsystem::CargoBay, 1u8)])),
                ),
                "Building Flea-Harvester",
            )
        } else {
            Choice::Wait
        }
    } else if generators == 0 {
        if metal >= 7 {
            Choice::Act(
                Action::Build(
                    Dir::Right,
                    FrameKind::Building(BuildingKind::Small),
                    subsystems_with(
                        Subsystems::spec_from_list(
                            seq![(Subsystem::Generator, 1u8), (Subsystem::PowerCell, 5u8)],
                        ),
                    ),
                ),
                "Building generator",
            )
        } else {
            Choice::Wait
        }
    } else if metal >= 5 {
        Choice::Act(
            Action::Build(
                Dir::Up,
                FrameKind::Tractor,
                subsystems_with(
                    Subsystems::spec_from_list(
                        seq![(Subsystem::CargoBay, 4u8), (Subsystem::PowerCell, 2u8)],
                    ),
                ),
            ),
            "Building Tractor-Harvester ",
        )
    } else {
        Choice::Wait
    }
}

/// The role a bot takes: a building is a base, a bot with a cargo bay gathers, any other
/// explores.
pub open spec fn spec_role(bot: BotData) -> EconBotRole {
    if bot.frame is Building {
        EconBotRole::Base
    } else if bot.subsystems.count(Subsystem::CargoBay) > 0 {
        EconBotRole::Gatherer(GathererState::Idle)
    } else {
        EconBotRole::Explorer(ExplorerState::Idle)
    }
}

pub fn determine_role(bot_data: &BotData) -> (r: EconBotRole)
    ensures
        r == spec_role(*bot_data),
{
    if let FrameKind::Building(_) = bot_data.frame {
        return EconBotRole::Base;
    }
    if bot_data.subsystems.has(Subsystem::CargoBay) {
        return EconBotRole::Gatherer(GathererState::Idle);
    }
    EconBotRole::Explorer(ExplorerState::Idle)
}

/// Whether `target` lies on the map, so that the bot's searches can aim at it.
pub open spec fn on_map(bot: BotData, target: Pos) -> bool {
    bot.known_map.map.spec_contains(target)
}

fn walk(bot: &BotData, goal: Pos, adjacent: bool) -> (r: Option<Vec<Pos>>)
    requires
        econ_ok(*bot),
        on_map(*bot, goal),
    ensures
        r matches Some(p) ==> walk_to(*bot, goal, adjacent, p@),
        r is None ==> !reachable(*bot, goal, adjacent),
{
    let map = &bot.known_map.map;
    let w = map.width();
    let h = map.height();
    assert(w * h + w + h + goal.0.0 + goal.0.1 <= i32::MAX) by (nonlinear_arith)
        requires
            w * h + 2 * w + 2 * h <= i32::MAX,
            goal.0.0 < w,
            goal.0.1 < h,
    ;
    let r = if adjacent {
        map.find_path_adj(bot.pos, goal)
    } else {
        map.find_path(bot.pos, goal)
    };
    proof {
        if r is None {
            if reachable(*bot, goal, adjacent) {
                let p = choose|p: Seq<Pos>| #[trigger] walk_to(*bot, goal, adjacent, p);
                assert(walk_to(*bot, goal, adjacent, p));
                assert(accepts(goal, adjacent, p.last()));
            }
        }
    }
    r
}

/// Act on `target` when it is next to the bot, else walk next to it.
fn move_and_act(bot: &BotData, target: Pos, k: TargetAction, reason: &'static str) -> (r:
    DecisionResult)
    requires
        econ_ok(*bot),
        on_map(*bot, target),
    ensures
        realizes(*bot, move_and_act_choice(*bot, target, k, reason), r),
{
    if let Some(dir) = bot.pos.dir_to(&target) {
        let a = match k {
            TargetAction::PickupMetal => Action::Pickup(Item::Metal, Some(dir)),
            TargetAction::Recharge => Action::Recharge(dir),
        };
        return DecisionResult::Act(a, reason);
    }
    match walk(bot, target, true) {
        Some(path) => DecisionResult::Act(Action::MoveTo(path), reason),
        None => DecisionResult::Continue,
    }
}

/// Walks to the nearest unseen cell within `max_distance`.
fn explore(bot: &BotData, max_distance: usize) -> (r: DecisionResult)
    requires
        econ_ok(*bot),
        max_distance <= 1000,
    ensures
        realizes(*bot, explore_choice(*bot, max_distance), r),
{
    match find_nearest(bot, max_distance, CellQuery::Unknown) {
        Some(target) => match walk(bot, target, false) {
            Some(path) => DecisionResult::Act(Action::MoveTo(path), "Exploring"),
            None => DecisionResult::Continue,
        },
        None => DecisionResult::Continue,
    }
}

/// The position of the nearest known bot within `max_distance` that `f` accepts, with that bot.
pub fn find_bot(bot: &BotData, max_distance: usize, f: BotFilter) -> (r: Option<(Pos, ClientBotData)>)
    requires
        econ_ok(*bot),
        max_distance <= 1000,
    ensures
        match nearest(*bot, max_distance, CellQuery::Bot(f)) {
            Some(p) => r matches Some((q, b)) && q == p && filter_ok(f, b),
            None => r is None,
        },
        r matches Some((q, _)) ==> on_map(*bot, q) && pos_dist(bot.pos, q) <= max_distance,
{
    match find_nearest(bot, max_distance, CellQuery::Bot(f)) {
        Some(p) => {
            let cell = bot.known_map.map.get(p);
            proof {
                let coords = coords_near(*bot, max_distance);
                let i = first_from(bot.known_map.map, coords, CellQuery::Bot(f), bot.known_bots@, 0)->0;
                lemma_first_index(bot.known_map.map, coords, CellQuery::Bot(f), bot.known_bots@, 0);
                lemma_nearby_coords(
                    bot.known_map.map.spec_width() as int,
                    bot.known_map.map.spec_height() as int,
                    bot.pos.0.0 as int,
                    bot.pos.0.1 as int,
                    max_distance as nat,
                );
                assert(coords[i] == (p.0.0 as int, p.0.1 as int));
                assert(query_holds(CellQuery::Bot(f), bot.known_bots@, *cell));
            }
            let id = cell.pawn.unwrap();
            let k = find_known(&bot.known_bots, id).unwrap();
            proof {
                lemma_known_index(bot.known_bots@, id);
            }
            Some((p, bot.known_bots[k]))
        },
        None => None,
    }
}

proof fn lemma_first_index(
    grid: GridWorld<ClientCellState>,
    coords: Seq<(int, int)>,
    q: CellQuery,
    bots: Seq<ClientBotData>,
    k: int,
)
    requires
        0 <= k,
    ensures
        first_from(grid, coords, q, bots, k) matches Some(i) ==> k <= i < coords.len()
            && query_holds(q, bots, grid.spec_cell(coords[i].0, coords[i].1)),
    decreases coords.len() - k,
{
    if k < coords.len() {
        lemma_first_index(grid, coords, q, bots, k + 1);
    }
}


/// Recharges next to the base, or heads back to it when energy runs low.
fn ensure_energy(bot: &BotData) -> (r: DecisionResult)
    requires
        econ_ok(*bot),
    ensures
        realizes(*bot, ensure_energy_choice(*bot), r),
{
    let base = match find_bot(bot, 1000, BotFilter::HasGenerator) {
        Some((base, _)) => base,
        None => match find_bot(bot, 1000, BotFilter::SmallBuilding) {
            Some((base, _)) => base,
            None => {
                return DecisionResult::Continue;
            },
        },
    };
    let energy_level = bot.energy.0;
    let max_energy = bot.max_energy().0;
    let w = bot.known_map.map.width();
    let h = bot.known_map.map.height();
    let distance_to_base = bot.pos.manhattan_distance(&base);
    if energy_level < max_energy {
        if let Some(dir) = bot.pos.dir_to(&base) {
            if max_energy - 10 >= energy_level {
                return DecisionResult::Act(Action::Recharge(dir), "Recharging");
            }
        }
        if energy_level < 50 || distance_to_base + 10 > energy_level as usize {
            return move_and_act(bot, base, TargetAction::Recharge, "Returning to base to recharge");
        }
    }
    DecisionResult::Continue
}

/// Hands metal to the base, brings loads home, fetches metal, looks around.
fn gather(bot: &BotData, base: Pos) -> (r: DecisionResult)
    requires
        econ_ok(*bot),
        on_map(*bot, base),
    ensures
        realizes(*bot, gather_choice(*bot, base), r),
{
    if bot.inventory.has(Item::Metal) && bot.pos.is_adjacent(&base) {
        let dir = bot.pos.dir_to(&base);
        proof {
            crate::types::lemma_dir_to_step(bot.pos, base);
        }
        return DecisionResult::Act(Action::Transfer(Item::Metal, dir.unwrap()), "Transferring metal");
    }
    if bot.inventory.size() == bot.inventory.capacity() as u64 {
        if let Some(path) = walk(bot, base, true) {
            return DecisionResult::Act(Action::MoveTo(path), "Moving to base");
        }
    }
    if let Some(target) = find_nearest(bot, 50, CellQuery::Metal) {
        return move_and_act(bot, target, TargetAction::PickupMetal, "Picking up metal");
    }
    let ex = explore(bot, 10);
    if !matches!(ex, DecisionResult::Continue) {
        return ex;
    }
    if bot.inventory.has(Item::Metal) {
        if let Some(path) = walk(bot, base, true) {
            return DecisionResult::Act(Action::MoveTo(path), "Delivering metal to base");
        }
    }
    DecisionResult::Continue
}

/// Waits while an action is still being carried out.
pub fn wait_for_in_progress_action(in_progress_action: &Option<ActionWithId>) -> (r: DecisionResult)
    ensures
        in_progress_action is Some ==> r is Wait,
        in_progress_action is None ==> r is Continue,
{
    match in_progress_action {
        Some(_) => DecisionResult::Wait,
        None => DecisionResult::Continue,
    }
}

fn gathering(bot: &BotData, base: Pos, in_progress_action: &Option<ActionWithId>) -> (r:
    DecisionResult)
    requires
        econ_ok(*bot),
        on_map(*bot, base),
    ensures
        realizes(*bot, gathering_choice(*bot, base, in_progress_action is Some), r),
{
    let e = ensure_energy(bot);
    if !matches!(e, DecisionResult::Continue) {
        return e;
    }
    let w = wait_for_in_progress_action(in_progress_action);
    if !matches!(w, DecisionResult::Continue) {
        return w;
    }
    let g = gather(bot, base);
    if !matches!(g, DecisionResult::Continue) {
        return g;
    }
    explore(bot, 1000)
}

/// The base's position lies on the bot's map.
pub open spec fn gatherer_state_ok(state: GathererState, bot: BotData) -> bool {
    state matches GathererState::Gathering { base } ==> on_map(bot, base)
}

pub open spec fn explorer_state_ok(state: ExplorerState, bot: BotData) -> bool {
    state matches ExplorerState::Exploring { base } ==> on_map(bot, base)
}

/// An idle gatherer looks for a base; one with a base gathers for it.
pub fn gatherer_behavior(state: &mut GathererState, update: &BotUpdate) -> (r: DecisionResult)
    requires
        econ_ok(update.bot_data),
        gatherer_state_ok(*old(state), update.bot_data),
    ensures
        *final(state) == gatherer_next(*old(state), update.bot_data),
        gatherer_state_ok(*final(state), update.bot_data),
        realizes(
            update.bot_data,
            gatherer_choice(*old(state), update.bot_data, update.in_progress_action is Some),
            r,
        ),
{
    let bot = &update.bot_data;
    if let GathererState::Idle = *state {
        match find_bot(bot, 1000, BotFilter::SmallBuilding) {
            Some((target, _)) => {
                *state = GathererState::Gathering { base: target };
            },
            None => {
                return DecisionResult::Wait;
            },
        }
    }
    match *state {
        GathererState::Gathering { base } => gathering(bot, base, &update.in_progress_action),
        GathererState::Idle => DecisionResult::Wait,
    }
}

/// An idle explorer waits; one with a base explores and comes back when far from it.
pub fn explorer_behavior(state: &mut ExplorerState, update: &BotUpdate) -> (r: DecisionResult)
    requires
        econ_ok(update.bot_data),
        explorer_state_ok(*old(state), update.bot_data),
    ensures
        *final(state) == *old(state),
        realizes(
            update.bot_data,
            explorer_choice(*old(state), update.bot_data, update.in_progress_action is Some),
            r,
        ),
{
    let bot = &update.bot_data;
    match *state {
        ExplorerState::Idle => DecisionResult::Wait,
        ExplorerState::Exploring { base } => {
            let e = ensure_energy(bot);
            if !matches!(e, DecisionResult::Continue) {
                return e;
            }
            let w = wait_for_in_progress_action(&update.in_progress_action);
            if !matches!(w, DecisionResult::Continue) {
                return w;
            }
            let x = explore(bot, 1000);
            if !matches!(x, DecisionResult::Continue) {
                return x;
            }
            let mw = bot.known_map.map.width();
            let mh = bot.known_map.map.height();
            let distance = bot.pos.manhattan_distance(&base);
            if distance > 10 {
                if let Some(path) = walk(bot, base, true) {
                    return DecisionResult::Act(
                        Action::MoveTo(path),
                        "Nothing to explore, returning to base",
                    );
                }
            }
            DecisionResult::Wait
        },
    }
}

fn count_frames(bots: &Vec<ClientBotData>, frame: FrameKind) -> (r: usize)
    ensures
        r == count_known(bots@, |b: ClientBotData| b.frame == frame),
{
    let mut n: usize = 0;
    let mut i: usize = 0;
    while i < bots.len()
        invariant
            i <= bots@.len(),
            n <= i,
            n == count_known(bots@.take(i as int), |b: ClientBotData| b.frame == frame),
        decreases bots@.len() - i,
    {
        proof {
            assert(bots@.take(i as int + 1).drop_last() =~= bots@.take(i as int));
        }
        if bots[i].frame == frame {
            n = n + 1;
        }
        i = i + 1;
    }
    proof {
        assert(bots@.take(bots@.len() as int) =~= bots@);
    }
    n
}

fn count_generators(bots: &Vec<ClientBotData>) -> (r: usize)
    ensures
        r == count_known(bots@, |b: ClientBotData| b.subsystems.count(Subsystem::Generator) > 0),
{
    let mut n: usize = 0;
    let mut i: usize = 0;
    while i < bots.len()
        invariant
            i <= bots@.len(),
            n <= i,
            n == count_known(
                bots@.take(i as int),
                |b: ClientBotData| b.subsystems.count(Subsystem::Generator) > 0,
            ),
        decreases bots@.len() - i,
    {
        proof {
            assert(bots@.take(i as int + 1).drop_last() =~= bots@.take(i as int));
        }
        if bots[i].subsystems.has(Subsystem::Generator) {
            n = n + 1;
        }
        i = i + 1;
    }
    proof {
        assert(bots@.take(bots@.len() as int) =~= bots@);
    }
    n
}

/// When the base is low on energy and has no generator, the nearest generator it finds is not
/// on its own cell, from which no direction leads to it.
pub open spec fn base_ok(bot: BotData) -> bool {
    bot.energy.0 < 10 && bot.subsystems.count(Subsystem::Generator) == 0 ==> nearest(
        bot,
        1,
        CellQuery::Bot(BotFilter::HasGenerator),
    ) != Some(bot.pos)
}


/// A search from index `k` finds an index at or after `k` whose cell matches.
proof fn lemma_first_from_found(
    grid: GridWorld<ClientCellState>,
    coords: Seq<(int, int)>,
    q: CellQuery,
    bots: Seq<ClientBotData>,
    k: int,
)
    requires
        0 <= k,
    ensures
        first_from(grid, coords, q, bots, k) matches Some(i) ==> k <= i < coords.len() && query_holds(
            q,
            bots,
            grid.spec_cell(coords[i].0, coords[i].1),
        ),
    decreases coords.len() - k,
{
    if k < coords.len() {
        lemma_first_from_found(grid, coords, q, bots, k + 1);
    }
}

/// When the base decides to recharge, it recharges from a generator next to it: the direction
/// of the recharge steps from the base's cell onto a cell of its map where it knows a bot with
/// a generator stands.
pub proof fn lemma_base_recharges_from_generator(bot: BotData, busy: bool, r: DecisionResult)
    requires
        econ_ok(bot),
        base_ok(bot),
        realizes(bot, base_choice(bot, busy), r),
    ensures
        r matches DecisionResult::Act(Action::Recharge(d), _) ==> (spec_step(bot.pos, d) matches Some(p)
            && bot.known_map.map.spec_contains(p) && (bot.known_map.map.spec_at(p).pawn matches Some(
            id,
        ) && known_index(bot.known_bots@, id) matches Some(i) && bot.known_bots@[i].subsystems.count(
            Subsystem::Generator,
        ) > 0)),
{
    let q = CellQuery::Bot(BotFilter::HasGenerator);
    let coords = coords_near(bot, 1);
    let map = bot.known_map.map;
    lemma_first_from_found(map, coords, q, bot.known_bots@, 0);
    lemma_nearby_coords(
        map.spec_width() as int,
        map.spec_height() as int,
        bot.pos.0.0 as int,
        bot.pos.0.1 as int,
        1,
    );
    if let Some(p) = nearest(bot, 1, q) {
        let i = first_from(map, coords, q, bot.known_bots@, 0)->0;
        let c = coords[i];
        assert(0 <= c.0 < map.spec_width() && 0 <= c.1 < map.spec_height());
        map.lemma_dims();
        assert(p == coord_pos(c.0, c.1));
        assert(p.0.0 == c.0 && p.0.1 == c.1);
        if bot.energy.0 < 10 && bot.subsystems.count(Subsystem::Generator) == 0 {
            assert(p != bot.pos);
            assert(pos_dist(bot.pos, p) == 1);
            crate::types::lemma_dir_to_step(bot.pos, p);
        }
    }
}

/// The base waits while an action is running, and starts building a bot only with the metal
/// its frame costs in hand.
pub proof fn lemma_base_builds_what_it_can_pay(bot: BotData, busy: bool, r: DecisionResult)
    requires
        realizes(bot, base_choice(bot, busy), r),
    ensures
        busy ==> r is Wait,
        r matches DecisionResult::Act(Action::Build(_, frame, _), _) ==> bot.inventory.count(Item::Metal)
            >= crate::bot::spec_frame_build_cost(frame),
{
}

/// The base: builds bots as metal comes in.
pub fn base_behavior(update: &BotUpdate) -> (r: DecisionResult)
    requires
        econ_ok(update.bot_data),
        base_ok(update.bot_data),
    ensures
        realizes(update.bot_data, base_choice(update.bot_data, update.in_progress_action is Some), r),
{
    let w = wait_for_in_progress_action(&update.in_progress_action);
    if !matches!(w, DecisionResult::Continue) {
        return w;
    }
    let bot = &update.bot_data;
    if bot.energy.0 < 10 && !bot.subsystems.has(Subsystem::Generator) {
        if let Some((pos, _)) = find_bot(bot, 1, BotFilter::HasGenerator) {
            proof {
                assert(nearest(*bot, 1, CellQuery::Bot(BotFilter::HasGenerator)) == Some(pos));
                crate::types::lemma_dir_to_step(bot.pos, pos);
            }
            let dir = bot.pos.dir_to(&pos).unwrap();
            return DecisionResult::Act(Action::Recharge(dir), "Recharging");
        }
    }
    let flea_count = count_frames(&bot.known_bots, FrameKind::Flea);
    let metal = bot.inventory.get(Item::Metal);
    if flea_count == 0 {
        if metal >= FrameKind::Flea.build_cost() as u32 {
            let list: [(Subsystem, u8); 1] = [(Subsystem::CargoBay, 1)];
            proof {
                reveal_with_fuel(Subsystems::spec_from_list, 2);
                reveal_with_fuel(Subsystems::list_fits, 2);
                assert(list@ == seq![(Subsystem::CargoBay, 1u8)]);
                assert(list@.drop_last() =~= list@.take(list@.len() - 1));
            }
            let s = Subsystems::new(&list);
            return DecisionResult::Act(
                Action::Build(Dir::Up, FrameKind::Flea, s),
                "Building Flea-Harvester",
            );
        } else {
            return DecisionResult::Wait;
        }
    }
    let generator_count = count_generators(&bot.known_bots);
    if generator_count == 0 {
        if metal >= FrameKind::Building(BuildingKind::Small).build_cost() as u32 {
            let list: [(Subsystem, u8); 2] = [(Subsystem::Generator, 1), (Subsystem::PowerCell, 5)];
            proof {
                reveal_with_fuel(Subsystems::spec_from_list, 3);
                reveal_with_fuel(Subsystems::list_fits, 3);
                assert(list@ == seq![(Subsystem::Generator, 1u8), (Subsystem::PowerCell, 5u8)]);
                assert(list@.drop_last() =~= list@.take(list@.len() - 1));
            }
            let s = Subsystems::new(&list);
            return DecisionResult::Act(
                Action::Build(Dir::Right, FrameKind::Building(BuildingKind::Small), s),
                "Building generator",
            );
        } else {
            return DecisionResult::Wait;
        }
    }
    if metal >= FrameKind::Tractor.build_cost() as u32 {
        let list: [(Subsystem, u8); 2] = [(Subsystem::CargoBay, 4), (Subsystem::PowerCell, 2)];
        proof {
            reveal_with_fuel(Subsystems::spec_from_list, 3);
            reveal_with_fuel(Subsystems::list_fits, 3);
            assert(list@ == seq![(Subsystem::CargoBay, 4u8), (Subsystem::PowerCell, 2u8)]);
            assert(list@.drop_last() =~= list@.take(list@.len() - 1));
        }
        let s = Subsystems::new(&list);
        return DecisionResult::Act(
            Action::Build(Dir::Up, FrameKind::Tractor, s),
            "Building Tractor-Harvester ",
        );
    }
    DecisionResult::Wait
}


/// A bot of the economy: its log, its generator, the number of actions it took and its role.
pub struct EconBot {
    pub ctx: BotLogger,
    pub rng: SmallRng,
    pub action_counter: u32,
    pub role: EconBotRole,
}

/// The role a bot acts in: the one it has, or the one it takes now.
pub open spec fn acting_role(role: EconBotRole, bot: BotData) -> EconBotRole {
    if role is Unassigned {
        spec_role(bot)
    } else {
        role
    }
}

/// Any base the role holds lies on the bot's map.
pub open spec fn role_ok(role: EconBotRole, bot: BotData) -> bool {
    match role {
        EconBotRole::Gatherer(s) => gatherer_state_ok(s, bot),
        EconBotRole::Explorer(s) => explorer_state_ok(s, bot),
        _ => true,
    }
}

/// What a bot acting in `role` decides.
pub open spec fn role_choice(role: EconBotRole, bot: BotData, busy: bool) -> Choice {
    match role {
        EconBotRole::Base => base_choice(bot, busy),
        EconBotRole::Gatherer(s) => gatherer_choice(s, bot, busy),
        EconBotRole::Explorer(s) => explorer_choice(s, bot, busy),
        EconBotRole::Unassigned => Choice::Continue,
    }
}

/// The role a bot acting in `role` has afterwards.
pub open spec fn role_next(role: EconBotRole, bot: BotData) -> EconBotRole {
    match role {
        EconBotRole::Gatherer(s) => EconBotRole::Gatherer(gatherer_next(s, bot)),
        _ => role,
    }
}

/// The name of `role` in the log.
pub open spec fn role_text(role: EconBotRole) -> Seq<char> {
    match role {
        EconBotRole::Unassigned => "Unassigned"@,
        EconBotRole::Base => "Base"@,
        EconBotRole::Gatherer(GathererState::Idle) => "Gatherer(Idle)"@,
        EconBotRole::Gatherer(GathererState::Gathering { .. }) => "Gatherer(Gathering)"@,
        EconBotRole::Explorer(ExplorerState::Idle) => "Explorer(Idle)"@,
        EconBotRole::Explorer(ExplorerState::Exploring { .. }) => "Explorer(Exploring)"@,
    }
}

fn push_role(s: &mut String, role: EconBotRole)
    ensures
        final(s)@ == old(s)@ + role_text(role),
{
    match role {
        EconBotRole::Unassigned => push_str(s, "Unassigned"),
        EconBotRole::Base => push_str(s, "Base"),
        EconBotRole::Gatherer(GathererState::Idle) => push_str(s, "Gatherer(Idle)"),
        EconBotRole::Gatherer(GathererState::Gathering { .. }) => push_str(s, "Gatherer(Gathering)"),
        EconBotRole::Explorer(ExplorerState::Idle) => push_str(s, "Explorer(Idle)"),
        EconBotRole::Explorer(ExplorerState::Exploring { .. }) => push_str(s, "Explorer(Exploring)"),
    }
}

impl EconBot {
    /// Whether this bot can take an update with `bot` as its state: its map holds it and is
    /// small enough for path finding, a powerless base does not see a generator where it stands,
    /// and any base its role holds lies on its map.
    pub fn update_ready(&self, bot: &BotData) -> (r: bool)
        ensures
            r == (econ_ok(*bot) && base_ok(*bot) && role_ok(acting_role(self.role, *bot), *bot)),
    {
        let map = &bot.known_map.map;
        if !map.in_bounds(&bot.pos) {
            return false;
        }
        let w = map.width() as u128;
        let h = map.height() as u128;
        if w > 0x7fff_ffff || h > 0x7fff_ffff {
            return false;
        }
        assert(w * h <= 0x7fff_ffff * 0x7fff_ffff) by (nonlinear_arith)
            requires
                w <= 0x7fff_ffff,
                h <= 0x7fff_ffff,
        ;
        if w * h + 2 * w + 2 * h > 0x7fff_ffff {
            return false;
        }
        if bot.energy.0 < 10 && bot.subsystems.get(Subsystem::Generator) == 0 {
            if let Some(p) = find_nearest(bot, 1, CellQuery::Bot(BotFilter::HasGenerator)) {
                if p == bot.pos {
                    return false;
                }
            }
        }
        let role = match self.role {
            EconBotRole::Unassigned => determine_role(bot),
            r => r,
        };
        match role {
            EconBotRole::Gatherer(GathererState::Gathering { base }) => map.in_bounds(&base),
            EconBotRole::Explorer(ExplorerState::Exploring { base }) => map.in_bounds(&base),
            _ => true,
        }
    }

    /// A bot with no role yet, its generator seeded from its id.
    pub fn new(ctx: BotLogger) -> (r: EconBot)
        ensures
            r.ctx == ctx,
            r.action_counter == 0,
            r.role is Unassigned,
    {
        let rng = crate::rng::seeded_small_rng(ctx.bot_id as u64);
        EconBot { role: EconBotRole::Unassigned, rng, ctx, action_counter: 0 }
    }

    /// One tick: takes a role if it has none, decides by its role, and numbers the action it
    /// takes; returns that action and the log entries of the tick.
    pub fn update(&mut self, update: BotUpdate) -> (r: (Option<ActionWithId>, Vec<LogEntry>))
        requires
            econ_ok(update.bot_data),
            base_ok(update.bot_data),
            role_ok(acting_role(old(self).role, update.bot_data), update.bot_data),
            old(self).action_counter < u32::MAX,
        ensures
            ({
                let role = acting_role(old(self).role, update.bot_data);
                let c = role_choice(role, update.bot_data, update.in_progress_action is Some);
                &&& final(self).role == role_next(role, update.bot_data)
                &&& match r.0 {
                    Some(a) => {
                        &&& final(self).action_counter == old(self).action_counter + 1
                        &&& a.id == final(self).action_counter
                        &&& realizes(update.bot_data, c, DecisionResult::Act(a.action, a.reason))
                    },
                    None => {
                        &&& final(self).action_counter == old(self).action_counter
                        &&& (c is Continue || c is Wait)
                    },
                }
            }),
            final(self).ctx.bot_id == old(self).ctx.bot_id,
            final(self).ctx.current_tick == update.tick,
            final(self).ctx.buffered().len() == 0,
    {
        let _ = self.ctx.set_tick(update.tick);
        self.ctx.log_debug_info(&update, 5);
        let role = if let EconBotRole::Unassigned = self.role {
            let r = determine_role(&update.bot_data);
            let mut m = String::new();
            push_str(&mut m, "Determined role: ");
            push_role(&mut m, r);
            self.ctx.info(m);
            r
        } else {
            self.role
        };
        let decision = match role {
            EconBotRole::Base => {
                self.role = EconBotRole::Base;
                base_behavior(&update)
            },
            EconBotRole::Gatherer(s) => {
                let mut st = s;
                let d = gatherer_behavior(&mut st, &update);
                self.role = EconBotRole::Gatherer(st);
                d
            },
            EconBotRole::Explorer(s) => {
                let mut st = s;
                let d = explorer_behavior(&mut st, &update);
                self.role = EconBotRole::Explorer(st);
                d
            },
            EconBotRole::Unassigned => DecisionResult::Continue,
        };
        let action = match decision {
            DecisionResult::Act(action, reason) => {
                self.action_counter = self.action_counter + 1;
                let mut m = String::new();
                push_str(&mut m, "Taking action with id: ");
                push_u64(&mut m, self.action_counter as u64);
                push_str(&mut m, ", reason: ");
                push_str(&mut m, reason);
                self.ctx.info(m);
                Some(ActionWithId { id: self.action_counter, action, reason })
            },
            _ => None,
        };
        let (_, logs) = self.ctx.flush_buffer();
        (action, logs)
    }
}

/// The running action is a walk whose path holds `pos`.
pub open spec fn walks_through(in_progress_action: Option<ActionWithId>, pos: Pos) -> bool {
    match in_progress_action {
        Some(a) => match a.action {
            Action::MoveTo(path) => path@.contains(pos),
            _ => false,
        },
        None => false,
    }
}

/// Waits while the running action is a walk through `pos`.
pub fn existing_path_contains_pos(
    in_progress_action: &Option<ActionWithId>,
    pos: Pos,
    ctx: &mut BotLogger,
) -> (r: DecisionResult)
    ensures
        walks_through(*in_progress_action, pos) ==> r is Wait,
        !walks_through(*in_progress_action, pos) ==> r is Continue,
        final(ctx).bot_id == old(ctx).bot_id,
        final(ctx).current_tick == old(ctx).current_tick,
{
    let Some(running) = in_progress_action else {
        ctx.debug(String::from_str("No in-progress action, continuing"));
        return DecisionResult::Continue;
    };
    let Action::MoveTo(path) = &running.action else {
        ctx.debug(String::from_str("In-progress action is not MoveTo, continuing"));
        return DecisionResult::Continue;
    };
    let mut i: usize = 0;
    while i < path.len()
        invariant
            i <= path@.len(),
            forall|j: int| 0 <= j < i ==> path@[j] != pos,
            ctx.bot_id == old(ctx).bot_id,
            ctx.current_tick == old(ctx).current_tick,
            *in_progress_action == Some(*running),
            running.action == Action::MoveTo(*path),
        decreases path@.len() - i,
    {
        if path[i] == pos {
            assert(path@[i as int] == pos);
            assert(path@.contains(pos));

            ctx.info(String::from_str("Waiting for in_progress_action to complete"));
            return DecisionResult::Wait;
        }
        i = i + 1;
    }
    let mut m = String::new();
    push_str(&mut m, "Target position ");
    crate::bot_logger::push_pos(&mut m, pos);
    push_str(&mut m, " is not in current path, continuing");
    ctx.debug(m);
    DecisionResult::Continue
}

pub fn test_fn() -> (r: String)
    ensures
        r@ == "Hello, world!"@,
{
    String::from_str("Hello, world!")
}

} // verus!
