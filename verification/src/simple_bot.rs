//! A bot's record of the map and of the other bots, kept up to date from radar readings.
use vstd::prelude::*;

use crate::gridworld::GridWorld;
use crate::radar::{CellStateRadar, RadarBotData, RadarData};
use rand::rngs::SmallRng;

use crate::bot::Action;
use crate::bot_logger::{entry_is, BotLogger, LogLevel};
use crate::crumb_follower::{dir_name, dir_text};
use crate::rng::{random_i32, seeded_small_rng};
use crate::text::push_str;
use crate::types::{spec_dir_from_repr, Dir, Pos, Team};

pub use crate::known_map::ClientCellState;

verus! {

/// A bot as this bot last saw it.
#[derive(Debug, Clone, Copy)]
pub struct ClientBotData {
    pub bot_id: u32,
    pub team: Team,
    pub last_observed: u32,
    /// World coordinates
    pub pos: Pos,
}

pub fn test_fn() -> (r: String)
    ensures
        r@ == "Hello, world!"@,
{
    String::from_str("Hello, world!")
}

/// The id of the bot the radar reports on cell `c`, if any.
pub open spec fn radar_pawn_id(pawns: Seq<RadarBotData>, c: CellStateRadar) -> Option<u32> {
    match c.pawn {
        Some(i) => if i < pawns.len() {
            Some(pawns[i as int].bot_id)
        } else {
            None
        },
        None => None,
    }
}

/// What the map records of radar cell `c` at `tick`.
pub open spec fn seen_cell(pawns: Seq<RadarBotData>, c: CellStateRadar, tick: u32) -> ClientCellState {
    ClientCellState { kind: c.kind, pawn: radar_pawn_id(pawns, c), item: c.item, last_observed: tick }
}

/// The map cell `(x, y)` once the radar cells `cells` are recorded in order over `old`: the
/// last of them at `(x, y)`, or `old` where there is none.
pub open spec fn after_cells(
    cells: Seq<CellStateRadar>,
    pawns: Seq<RadarBotData>,
    old: spec_fn(int, int) -> ClientCellState,
    tick: u32,
    x: int,
    y: int,
) -> ClientCellState
    decreases cells.len(),
{
    if cells.len() == 0 {
        old(x, y)
    } else if cells.last().pos.0.0 == x && cells.last().pos.0.1 == y {
        seen_cell(pawns, cells.last(), tick)
    } else {
        after_cells(cells.drop_last(), pawns, old, tick, x, y)
    }
}

/// The index of the first known bot with id `id`.
pub open spec fn find_known(bots: Seq<ClientBotData>, id: u32) -> Option<int>
    decreases bots.len(),
{
    if bots.len() == 0 {
        None
    } else {
        match find_known(bots.drop_last(), id) {
            Some(i) => Some(i),
            None => if bots.last().bot_id == id {
                Some(bots.len() - 1)
            } else {
                None
            },
        }
    }
}

proof fn lemma_find_known(bots: Seq<ClientBotData>, id: u32)
    ensures
        find_known(bots, id) matches Some(i) ==> 0 <= i < bots.len() && bots[i].bot_id == id
            && forall|j: int| 0 <= j < i ==> bots[j].bot_id != id,
        find_known(bots, id) is None ==> forall|j: int| 0 <= j < bots.len() ==> bots[j].bot_id != id,
    decreases bots.len(),
{
    if bots.len() > 0 {
        lemma_find_known(bots.drop_last(), id);
        assert forall|j: int| 0 <= j < bots.len() - 1 implies bots[j] == bots.drop_last()[j] by {}
    }
}

fn find_known_bot(bots: &Vec<ClientBotData>, id: u32) -> (r: Option<usize>)
    ensures
        r matches Some(i) ==> find_known(bots@, id) == Some(i as int),
        r is None ==> find_known(bots@, id) is None,
{
    proof {
        lemma_find_known(bots@, id);
    }
    let mut i: usize = 0;
    while i < bots.len()
        invariant
            i <= bots@.len(),
            forall|j: int| 0 <= j < i ==> bots@[j].bot_id != id,
            find_known(bots@, id) matches Some(k) ==> 0 <= k < bots@.len() && bots@[k].bot_id == id
                && forall|j: int| 0 <= j < k ==> bots@[j].bot_id != id,
            find_known(bots@, id) is None ==> forall|j: int|
                0 <= j < bots@.len() ==> bots@[j].bot_id != id,
        decreases bots@.len() - i,
    {
        if bots[i].bot_id == id {
            proof {
                if let Some(k) = find_known(bots@, id) {
                    if k < i {
                    } else if k > i {
                    }
                }
            }
            return Some(i);
        }
        i = i + 1;
    }
    None
}

/// The map and the known bots once the radar bots `pawns` are recorded in order over `cells`
/// and `bots`: a bot seen before gets its new position and the tick, and when it moved, its
/// old cell no longer shows it; a bot not seen before is added.
pub open spec fn track(
    cells: spec_fn(int, int) -> ClientCellState,
    bots: Seq<ClientBotData>,
    pawns: Seq<RadarBotData>,
    tick: u32,
) -> (spec_fn(int, int) -> ClientCellState, Seq<ClientBotData>)
    decreases pawns.len(),
{
    if pawns.len() == 0 {
        (cells, bots)
    } else {
        let prev = track(cells, bots, pawns.drop_last(), tick);
        let c = prev.0;
        let b = prev.1;
        let p = pawns.last();
        match find_known(b, p.bot_id) {
            Some(i) => {
                let old_pos = b[i].pos;
                let c2 = if old_pos != p.pos && c(old_pos.0.0 as int, old_pos.0.1 as int).pawn == Some(
                    p.bot_id,
                ) {
                    |x: int, y: int|
                        if x == old_pos.0.0 && y == old_pos.0.1 {
                            ClientCellState { pawn: None, ..c(x, y) }
                        } else {
                            c(x, y)
                        }
                } else {
                    c
                };
                (c2, b.update(i, ClientBotData { pos: p.pos, last_observed: tick, ..b[i] }))
            },
            None => (
                c,
                b.push(
                    ClientBotData { bot_id: p.bot_id, team: p.team, pos: p.pos, last_observed: tick },
                ),
            ),
        }
    }
}

/// Every known bot stands on the map.
pub open spec fn bots_in(map: GridWorld<ClientCellState>, bots: Seq<ClientBotData>) -> bool {
    forall|j: int| 0 <= j < bots.len() ==> map.spec_contains(#[trigger] bots[j].pos)
}

/// What the radar reports lies on the map.
pub open spec fn radar_in(map: GridWorld<ClientCellState>, radar: RadarData) -> bool {
    &&& forall|j: int| 0 <= j < radar.cells@.len() ==> map.spec_contains(#[trigger] radar.cells@[j].pos)
    &&& forall|j: int| 0 <= j < radar.pawns@.len() ==> map.spec_contains(#[trigger] radar.pawns@[j].pos)
}

/// The cells of `map` as a function.
pub open spec fn cells_of(map: GridWorld<ClientCellState>) -> spec_fn(int, int) -> ClientCellState {
    |x: int, y: int| map.spec_cell(x, y)
}

/// The map once the radar's cells are recorded.
pub open spec fn radar_cells(
    map: GridWorld<ClientCellState>,
    radar: RadarData,
    tick: u32,
) -> spec_fn(int, int) -> ClientCellState {
    |x: int, y: int| after_cells(radar.cells@, radar.pawns@, cells_of(map), tick, x, y)
}

proof fn lemma_track_in(
    map: GridWorld<ClientCellState>,
    cells: spec_fn(int, int) -> ClientCellState,
    bots: Seq<ClientBotData>,
    pawns: Seq<RadarBotData>,
    tick: u32,
)
    requires
        bots_in(map, bots),
        forall|j: int| 0 <= j < pawns.len() ==> map.spec_contains(#[trigger] pawns[j].pos),
    ensures
        bots_in(map, track(cells, bots, pawns, tick).1),
    decreases pawns.len(),
{
    if pawns.len() > 0 {
        lemma_track_in(map, cells, bots, pawns.drop_last(), tick);
        let b = track(cells, bots, pawns.drop_last(), tick).1;
        lemma_find_known(b, pawns.last().bot_id);
        assert(map.spec_contains(pawns[pawns.len() - 1].pos));
    }
}

/// Records a radar reading at `current_tick`: each cell it reports, then each bot it sees.
pub fn update_known_map(
    known_map: &mut GridWorld<ClientCellState>,
    known_bots: &mut Vec<ClientBotData>,
    radar: &RadarData,
    current_tick: u32,
)
    requires
        radar_in(*old(known_map), *radar),
        bots_in(*old(known_map), old(known_bots)@),
    ensures
        final(known_map).spec_width() == old(known_map).spec_width(),
        final(known_map).spec_height() == old(known_map).spec_height(),
        ({
            let t = track(
                radar_cells(*old(known_map), *radar, current_tick),
                old(known_bots)@,
                radar.pawns@,
                current_tick,
            );
            &&& final(known_bots)@ == t.1
            &&& forall|x: int, y: int|
                #![trigger final(known_map).spec_cell(x, y)]
                old(known_map).spec_in_bounds(x, y) ==> final(known_map).spec_cell(x, y) == (t.0)(
                    x,
                    y,
                )
        }),
{
    let ghost map0 = *known_map;
    let ghost old_cells = cells_of(map0);
    let n = radar.cells.len();
    let mut k: usize = 0;
    proof {
        assert(radar.cells@.take(0) =~= Seq::<CellStateRadar>::empty());
    }
    while k < n
        invariant
            k <= n,
            n == radar.cells@.len(),
            radar_in(map0, *radar),
            known_map.spec_width() == map0.spec_width(),
            known_map.spec_height() == map0.spec_height(),
            forall|x: int, y: int|
                #![trigger known_map.spec_cell(x, y)]
                map0.spec_in_bounds(x, y) ==> known_map.spec_cell(x, y) == after_cells(
                    radar.cells@.take(k as int),
                    radar.pawns@,
                    old_cells,
                    current_tick,
                    x,
                    y,
                ),
        decreases n - k,
    {
        let cell = radar.cells[k];
        let pawn_bot_id = match cell.pawn {
            Some(i) => if i < radar.pawns.len() {
                Some(radar.pawns[i].bot_id)
            } else {
                None
            },
            None => None,
        };
        assert(map0.spec_contains(radar.cells@[k as int].pos));
        known_map.set(
            cell.pos,
            ClientCellState {
                kind: cell.kind,
                pawn: pawn_bot_id,
                item: cell.item,
                last_observed: current_tick,
            },
        );
        proof {
            let cs = radar.cells@.take(k as int + 1);
            assert(cs.drop_last() =~= radar.cells@.take(k as int));
            assert(cs.last() == cell);
        }
        k = k + 1;
    }
    proof {
        assert(radar.cells@.take(n as int) =~= radar.cells@);
    }
    let ghost c0 = radar_cells(map0, *radar, current_tick);
    let ghost bots0 = known_bots@;
    let m = radar.pawns.len();
    let mut j: usize = 0;
    proof {
        assert(radar.pawns@.take(0) =~= Seq::<RadarBotData>::empty());
    }
    while j < m
        invariant
            j <= m,
            m == radar.pawns@.len(),
            radar_in(map0, *radar),
            bots_in(map0, bots0),
            known_map.spec_width() == map0.spec_width(),
            known_map.spec_height() == map0.spec_height(),
            known_bots@ == track(c0, bots0, radar.pawns@.take(j as int), current_tick).1,
            forall|x: int, y: int|
                #![trigger known_map.spec_cell(x, y)]
                map0.spec_in_bounds(x, y) ==> known_map.spec_cell(x, y) == (track(
                    c0,
                    bots0,
                    radar.pawns@.take(j as int),
                    current_tick,
                ).0)(x, y),
        decreases m - j,
    {
        let radar_bot = radar.pawns[j];
        let ghost prev = track(c0, bots0, radar.pawns@.take(j as int), current_tick);
        proof {
            let ps = radar.pawns@.take(j as int + 1);
            assert(ps.drop_last() =~= radar.pawns@.take(j as int));
            assert(ps.last() == radar_bot);
            lemma_track_in(map0, c0, bots0, radar.pawns@.take(j as int), current_tick);
            lemma_find_known(known_bots@, radar_bot.bot_id);
        }
        match find_known_bot(known_bots, radar_bot.bot_id) {
            Some(i) => {
                let known_bot = known_bots[i];
                assert(map0.spec_contains(known_bots@[i as int].pos));
                if known_bot.pos != radar_bot.pos {
                    let old_cell = *known_map.get(known_bot.pos);
                    if old_cell.pawn == Some(radar_bot.bot_id) {
                        known_map.set(known_bot.pos, ClientCellState { pawn: None, ..old_cell });
                    }
                }
                known_bots.set(
                    i,
                    ClientBotData { pos: radar_bot.pos, last_observed: current_tick, ..known_bot },
                );
            },
            None => {
                known_bots.push(
                    ClientBotData {
                        bot_id: radar_bot.bot_id,
                        team: radar_bot.team,
                        pos: radar_bot.pos,
                        last_observed: current_tick,
                    },
                );
            },
        }
        j = j + 1;
    }
    proof {
        assert(radar.pawns@.take(m as int) =~= radar.pawns@);
    }
}


/// Every bot a radar reading sees is known afterwards, as seen at that tick.
pub proof fn lemma_seen_bots_known(
    cells: spec_fn(int, int) -> ClientCellState,
    bots: Seq<ClientBotData>,
    pawns: Seq<RadarBotData>,
    tick: u32,
)
    ensures
        forall|k: int|
            0 <= k < pawns.len() ==> exists|j: int|
                0 <= j < track(cells, bots, pawns, tick).1.len() && (#[trigger] track(
                    cells,
                    bots,
                    pawns,
                    tick,
                ).1[j]).bot_id == (#[trigger] pawns[k]).bot_id && track(cells, bots, pawns, tick).1[j].last_observed
                    == tick,
    decreases pawns.len(),
{
    if pawns.len() > 0 {
        let d = pawns.drop_last();
        lemma_seen_bots_known(cells, bots, d, tick);
        let prev = track(cells, bots, d, tick).1;
        let now = track(cells, bots, pawns, tick).1;
        let p = pawns.last();
        lemma_find_known(prev, p.bot_id);
        assert forall|k: int| 0 <= k < pawns.len() implies exists|j: int|
            0 <= j < now.len() && (#[trigger] now[j]).bot_id == (#[trigger] pawns[k]).bot_id
                && now[j].last_observed == tick by {
            if k == pawns.len() - 1 {
                match find_known(prev, p.bot_id) {
                    Some(i) => {
                        assert(now[i].bot_id == p.bot_id);
                    },
                    None => {
                        assert(now[prev.len() as int].bot_id == p.bot_id);
                    },
                }
            } else {
                assert(pawns[k] == d[k]);
                let j = choose|j: int|
                    0 <= j < prev.len() && (#[trigger] prev[j]).bot_id == d[k].bot_id
                        && prev[j].last_observed == tick;
                assert(now[j].bot_id == pawns[k].bot_id);
            }
        }
    }
}

/// The step a random walker takes for the roll `roll`: 0 up, 1 down, 2 left, 3 right.
pub open spec fn walk_step(roll: int) -> Action {
    Action::MoveDir(spec_dir_from_repr(roll as u8)->0)
}

/// The step for the roll `roll` (see `walk_step`).
pub fn roll_step(roll: i32) -> (r: Action)
    requires
        0 <= roll < 4,
    ensures
        r == walk_step(roll as int),
{
    if roll == 0 {
        Action::MoveDir(Dir::Up)
    } else if roll == 1 {
        Action::MoveDir(Dir::Down)
    } else if roll == 2 {
        Action::MoveDir(Dir::Left)
    } else {
        Action::MoveDir(Dir::Right)
    }
}

/// A bot that moves in a random direction every tick.
pub struct RandomWalkBot {
    pub ctx: BotLogger,
    pub rng: SmallRng,
    pub grid: GridWorld<ClientCellState>,
    pub seen_bots: Vec<ClientBotData>,
}

impl RandomWalkBot {
    /// A random walker for a `width` by `height` map, seeded from its bot id.
    pub fn new(ctx: BotLogger, width: usize, height: usize) -> (r: Self)
        requires
            width < isize::MAX,
            height < isize::MAX,
            width * height <= usize::MAX,
        ensures
            r.ctx == ctx,
            r.grid.spec_width() == width,
            r.grid.spec_height() == height,
            r.seen_bots@.len() == 0,
    {
        let rng = seeded_small_rng(ctx.bot_id as u64);
        RandomWalkBot {
            rng,
            ctx,
            grid: GridWorld::new(width, height, ClientCellState::default()),
            seen_bots: Vec::new(),
        }
    }

    /// A move in a random direction: the step for a roll drawn from `0..4` (see `roll_step`),
    /// logged as "Moving" and the direction.
    pub fn update(&mut self) -> (r: Option<Action>)
        ensures
            exists|roll: int| 0 <= roll < 4 && r == Some(#[trigger] walk_step(roll)),
            r matches Some(Action::MoveDir(d)) && final(self).ctx.buffered() == old(
                self,
            ).ctx.buffered().push(final(self).ctx.buffered().last()) && entry_is(
                final(self).ctx.buffered().last(),
                old(self).ctx.bot_id,
                old(self).ctx.current_tick,
                LogLevel::Info,
                "Moving "@ + dir_text(d),
            ),
            final(self).grid == old(self).grid,
            final(self).seen_bots@ == old(self).seen_bots@,
            final(self).ctx.bot_id == old(self).ctx.bot_id,
            final(self).ctx.current_tick == old(self).ctx.current_tick,
    {
        let roll = random_i32(&mut self.rng, 0, 4);
        let step = roll_step(roll);
        let direction = match step {
            Action::MoveDir(d) => d,
            _ => Dir::Up,
        };
        let mut m = String::new();
        push_str(&mut m, "Moving ");
        push_str(&mut m, dir_name(direction));
        assert(m@ =~= "Moving "@ + dir_text(direction));
        self.ctx.info(m);
        Some(step)
    }
}

} // verus!
