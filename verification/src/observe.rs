//! What each bot sees around it every tick, recorded in its known map and known bots.
use vstd::prelude::*;

use crate::bot::{BotData, FrameKind, Subsystems};
use crate::econ_bot::{known_index, lemma_known_index};
use crate::game::{BotEntry, EntityId, ServerGrid};
use crate::gridworld::{lemma_nearby_coords, nearby_coords, GridWorld};
use crate::known_map::{ClientBotData, ClientCellState, KnownMap};
use crate::types::{CellKind, Item, Pos, Team};
use crate::world::World;

verus! {

/// How far a bot's radar reaches.
pub const RADAR_RANGE: usize = 5;

/// Something a bot noticed while updating its known map.
#[derive(Debug, Clone, Copy)]
pub enum RadarUpdate {
    NewBlocker { pos: Pos },
    NewItem { item: Item, pos: Pos },
    NewBot { bot_id: u32, pos: Pos },
    BotMoved { bot_id: u32, from: Pos, to: Pos },
    BotReseen { bot_id: u32, pos: Pos },
}

/// What a radar tells of a bot: its entity, id, position, team, frame and subsystems.
#[derive(Debug, Clone, Copy)]
pub struct Sighting {
    pub entity: EntityId,
    pub bot_id: u32,
    pub pos: Pos,
    pub team: Team,
    pub frame: FrameKind,
    pub subsystems: Subsystems,
}

pub open spec fn sighting_of(b: BotEntry) -> Sighting {
    Sighting {
        entity: b.entity,
        bot_id: b.bot_id,
        pos: b.data.pos,
        team: b.data.team,
        frame: b.data.frame,
        subsystems: b.data.subsystems,
    }
}

/// What a radar tells of each bot.
pub open spec fn census_of(bots: Seq<BotEntry>) -> Seq<Sighting> {
    bots.map_values(|b: BotEntry| sighting_of(b))
}

/// The index of the first bot that is entity `e`.
pub open spec fn find_sighting(s: Seq<Sighting>, e: EntityId) -> Option<int>
    decreases s.len(),
{
    if s.len() == 0 {
        None
    } else {
        match find_sighting(s.drop_last(), e) {
            Some(i) => Some(i),
            None => if s.last().entity == e {
                Some(s.len() - 1)
            } else {
                None
            },
        }
    }
}

pub proof fn lemma_find_sighting(s: Seq<Sighting>, e: EntityId)
    ensures
        find_sighting(s, e) matches Some(i) ==> 0 <= i < s.len() && s[i].entity == e && forall|j: int|
            0 <= j < i ==> s[j].entity != e,
        find_sighting(s, e) is None ==> forall|j: int| 0 <= j < s.len() ==> s[j].entity != e,
    decreases s.len(),
{
    if s.len() > 0 {
        lemma_find_sighting(s.drop_last(), e);
        assert forall|j: int| 0 <= j < s.len() - 1 implies s[j] == s.drop_last()[j] by {}
    }
}

fn find_sighting_index(s: &Vec<Sighting>, e: EntityId) -> (r: Option<usize>)
    ensures
        r matches Some(i) ==> find_sighting(s@, e) == Some(i as int),
        r is None ==> find_sighting(s@, e) is None,
{
    proof {
        lemma_find_sighting(s@, e);
    }
    let mut i: usize = 0;
    while i < s.len()
        invariant
            i <= s@.len(),
            forall|j: int| 0 <= j < i ==> s@[j].entity != e,
            find_sighting(s@, e) matches Some(k) ==> 0 <= k < s@.len() && s@[k].entity == e
                && forall|j: int| 0 <= j < k ==> s@[j].entity != e,
            find_sighting(s@, e) is None ==> forall|j: int| 0 <= j < s@.len() ==> s@[j].entity != e,
        decreases s@.len() - i,
    {
        if s[i].entity == e {
            proof {
                if let Some(k) = find_sighting(s@, e) {
                    if k < i {
                    } else if k > i {
                    }
                }
            }
            return Some(i);
        }
        i = i + 1;
    }
    None
}

/// The bot standing as pawn `e` (the first that is entity `e`).
pub open spec fn bot_of(bots: Seq<Sighting>, e: EntityId) -> Sighting {
    bots[find_sighting(bots, e)->0]
}

/// What a known cell becomes when the grid cell `g` is seen at `tick`: the grid's kind and
/// item, the id of the bot standing there if any, else the bot it showed before.
pub open spec fn observed(k: ClientCellState, g: crate::game::CellState, bots: Seq<Sighting>, tick: u32) -> ClientCellState {
    ClientCellState {
        kind: g.kind,
        item: g.item,
        last_observed: tick,
        pawn: match g.pawn {
            Some(e) => Some(bot_of(bots, e).bot_id),
            None => k.pawn,
        },
    }
}

/// What seeing a cell that was unknown reports: a blocker, an item.
pub open spec fn first_sight(g: crate::game::CellState, p: Pos) -> Seq<RadarUpdate> {
    (if g.kind == CellKind::Blocked {
        seq![RadarUpdate::NewBlocker { pos: p }]
    } else {
        seq![]
    }) + match g.item {
        Some(item) => seq![RadarUpdate::NewItem { item, pos: p }],
        None => seq![],
    }
}

/// The known cells, the reports and the pawns seen once the cells at `coords` are seen in order.
pub open spec fn observe_all(
    coords: Seq<(int, int)>,
    known: spec_fn(int, int) -> ClientCellState,
    grid: ServerGrid,
    bots: Seq<Sighting>,
    tick: u32,
) -> (spec_fn(int, int) -> ClientCellState, Seq<RadarUpdate>, Seq<EntityId>)
    decreases coords.len(),
{
    if coords.len() == 0 {
        (known, seq![], seq![])
    } else {
        let prev = observe_all(coords.drop_last(), known, grid, bots, tick);
        let (x, y) = coords.last();
        let k = (prev.0)(x, y);
        let g = grid.spec_cell(x, y);
        let p = Pos((x as usize, y as usize));
        let ups = if k.kind == CellKind::Unknown {
            prev.1 + first_sight(g, p)
        } else {
            prev.1
        };
        let ents = match g.pawn {
            Some(e) => prev.2.push(e),
            None => prev.2,
        };
        (
            |a: int, b: int|
                if a == x && b == y {
                    observed(k, g, bots, tick)
                } else {
                    (prev.0)(a, b)
                },
            ups,
            ents,
        )
    }
}

/// The known cells, known bots and reports once the pawns `ents` are recorded in order: a bot
/// known before gets its new position and the tick, its old cell no longer shows it when it
/// moved, and the move is reported (as a bot seen again when it was out of sight for more than
/// a tick); a bot not known before is added and reported.
pub open spec fn track(
    cells: spec_fn(int, int) -> ClientCellState,
    known: Seq<ClientBotData>,
    ups: Seq<RadarUpdate>,
    ents: Seq<EntityId>,
    bots: Seq<Sighting>,
    tick: u32,
) -> (spec_fn(int, int) -> ClientCellState, Seq<ClientBotData>, Seq<RadarUpdate>)
    decreases ents.len(),
{
    if ents.len() == 0 {
        (cells, known, ups)
    } else {
        let prev = track(cells, known, ups, ents.drop_last(), bots, tick);
        let c = prev.0;
        let kb = prev.1;
        let u = prev.2;
        let b = bot_of(bots, ents.last());
        let id = b.bot_id;
        let p = b.pos;
        match known_index(kb, id) {
            Some(i) => {
                let q = kb[i].pos;
                let kb2 = kb.update(i, ClientBotData { pos: p, last_observed: tick, ..kb[i] });
                if q != p {
                    let u2 = u.push(
                        if kb[i].last_observed + 1 < tick {
                            RadarUpdate::BotReseen { bot_id: id, pos: p }
                        } else {
                            RadarUpdate::BotMoved { bot_id: id, from: q, to: p }
                        },
                    );
                    let c2 = if c(q.0.0 as int, q.0.1 as int).pawn == Some(id) {
                        |x: int, y: int|
                            if x == q.0.0 && y == q.0.1 {
                                ClientCellState { pawn: None, ..c(x, y) }
                            } else {
                                c(x, y)
                            }
                    } else {
                        c
                    };
                    (c2, kb2, u2)
                } else {
                    (c, kb2, u)
                }
            },
            None => (
                c,
                kb.push(
                    ClientBotData {
                        bot_id: id,
                        team: b.team,
                        pos: p,
                        last_observed: tick,
                        frame: b.frame,
                        subsystems: b.subsystems,
                    },
                ),
                u.push(RadarUpdate::NewBot { bot_id: id, pos: p }),
            ),
        }
    }
}

/// Every pawn on the grid is a bot standing where the grid shows it, and no two bots share an id.
pub open spec fn pawns_placed(grid: ServerGrid, bots: Seq<Sighting>) -> bool {
    &&& forall|x: int, y: int|
        #![trigger grid.spec_cell(x, y)]
        grid.spec_in_bounds(x, y) ==> (grid.spec_cell(x, y).pawn matches Some(e) ==> find_sighting(
            bots,
            e,
        ) is Some && bot_of(bots, e).pos == Pos((x as usize, y as usize)))
    &&& forall|j: int, k: int|
        0 <= j < bots.len() && 0 <= k < bots.len() && j != k ==> #[trigger] bots[j].bot_id
            != #[trigger] bots[k].bot_id
}

/// A bot's known map and known bots can take a reading of `grid`: the map is as large as the
/// grid, the known bots stand on it and none was last seen at the last tick there is.
pub open spec fn record_ok(grid: ServerGrid, map: KnownMap, known: Seq<ClientBotData>) -> bool {
    &&& map.map.spec_width() == grid.spec_width()
    &&& map.map.spec_height() == grid.spec_height()
    &&& forall|j: int|
        0 <= j < known.len() ==> map.map.spec_contains(#[trigger] known[j].pos) && known[j].last_observed
            < u32::MAX
}

/// The cells of a known map as a function.
pub open spec fn known_cells(map: GridWorld<ClientCellState>) -> spec_fn(int, int) -> ClientCellState {
    |x: int, y: int| map.spec_cell(x, y)
}

/// The cells within radar range of `pos`, nearest first.
pub open spec fn radar_coords(grid: ServerGrid, pos: Pos) -> Seq<(int, int)> {
    nearby_coords(
        grid.spec_width() as int,
        grid.spec_height() as int,
        pos.0.0 as int,
        pos.0.1 as int,
        RADAR_RANGE as nat,
    )
}

/// The known cells, known bots and reports after a reading of `grid` around `pos` at `tick`.
pub open spec fn reading(
    map: GridWorld<ClientCellState>,
    known: Seq<ClientBotData>,
    pos: Pos,
    grid: ServerGrid,
    bots: Seq<Sighting>,
    tick: u32,
) -> (spec_fn(int, int) -> ClientCellState, Seq<ClientBotData>, Seq<RadarUpdate>) {
    let seen = observe_all(radar_coords(grid, pos), known_cells(map), grid, bots, tick);
    track(seen.0, known, seen.1, seen.2, bots, tick)
}


proof fn lemma_observe_all(
    coords: Seq<(int, int)>,
    known: spec_fn(int, int) -> ClientCellState,
    grid: ServerGrid,
    bots: Seq<Sighting>,
    tick: u32,
)
    requires
        forall|i: int| 0 <= i < coords.len() ==> grid.spec_in_bounds(#[trigger] coords[i].0, coords[i].1),
        pawns_placed(grid, bots),
    ensures
        ({
            let seen = observe_all(coords, known, grid, bots, tick);
            forall|i: int|
                0 <= i < seen.2.len() ==> {
                    let b = bot_of(bots, #[trigger] seen.2[i]);
                    &&& find_sighting(bots, seen.2[i]) is Some
                    &&& grid.spec_contains(b.pos)
                    &&& grid.spec_at(b.pos).pawn == Some(seen.2[i])
                    &&& (seen.0)(b.pos.0.0 as int, b.pos.0.1 as int).pawn == Some(b.bot_id)
                }
        }),
    decreases coords.len(),
{
    if coords.len() > 0 {
        let d = coords.drop_last();
        assert forall|i: int| 0 <= i < d.len() implies grid.spec_in_bounds(#[trigger] d[i].0, d[i].1) by {
            assert(d[i] == coords[i]);
        }
        lemma_observe_all(d, known, grid, bots, tick);
        let prev = observe_all(d, known, grid, bots, tick);
        let seen = observe_all(coords, known, grid, bots, tick);
        let (x, y) = coords.last();
        assert(grid.spec_in_bounds(coords[coords.len() - 1].0, coords[coords.len() - 1].1));
        let g = grid.spec_cell(x, y);
        assert forall|i: int| 0 <= i < seen.2.len() implies {
            let b = bot_of(bots, #[trigger] seen.2[i]);
            &&& find_sighting(bots, seen.2[i]) is Some
            &&& grid.spec_contains(b.pos)
            &&& grid.spec_at(b.pos).pawn == Some(seen.2[i])
            &&& (seen.0)(b.pos.0.0 as int, b.pos.0.1 as int).pawn == Some(b.bot_id)
        } by {
            let e = seen.2[i];
            let b = bot_of(bots, e);
            if i < prev.2.len() {
                assert(seen.2[i] == prev.2[i]);
                assert(find_sighting(bots, e) is Some);
                assert(grid.spec_contains(b.pos));
                assert((prev.0)(b.pos.0.0 as int, b.pos.0.1 as int).pawn == Some(b.bot_id));
                if b.pos.0.0 == x && b.pos.0.1 == y {
                    assert(g.pawn == Some(e));
                    assert((seen.0)(x, y) == observed((prev.0)(x, y), g, bots, tick));
                } else {
                    assert((seen.0)(b.pos.0.0 as int, b.pos.0.1 as int) == (prev.0)(
                        b.pos.0.0 as int,
                        b.pos.0.1 as int,
                    ));
                }
            } else {
                assert(g.pawn is Some);
                assert(seen.2 == prev.2.push(g.pawn->0));
                assert(e == g.pawn->0);
                assert(grid.spec_in_bounds(x, y));
                grid.lemma_dims();
                assert(find_sighting(bots, e) is Some);
                assert(b.pos == Pos((x as usize, y as usize)));
                assert(b.pos.0.0 == x && b.pos.0.1 == y);
                assert((seen.0)(x, y) == observed((prev.0)(x, y), g, bots, tick));
            }
        }
    }
}

/// Cell `(x, y)` shows what the grid shows there, seen at `tick`.
pub open spec fn fresh(c: ClientCellState, g: crate::game::CellState, tick: u32) -> bool {
    c.kind == g.kind && c.item == g.item && c.last_observed == tick
}

proof fn lemma_observe_fresh(
    coords: Seq<(int, int)>,
    known: spec_fn(int, int) -> ClientCellState,
    grid: ServerGrid,
    bots: Seq<Sighting>,
    tick: u32,
)
    ensures
        forall|i: int|
            0 <= i < coords.len() ==> fresh(
                (observe_all(coords, known, grid, bots, tick).0)(
                    (#[trigger] coords[i]).0,
                    coords[i].1,
                ),
                grid.spec_cell(coords[i].0, coords[i].1),
                tick,
            ),
    decreases coords.len(),
{
    if coords.len() > 0 {
        let d = coords.drop_last();
        lemma_observe_fresh(d, known, grid, bots, tick);
        assert forall|i: int| 0 <= i < coords.len() implies fresh(
            (observe_all(coords, known, grid, bots, tick).0)((#[trigger] coords[i]).0, coords[i].1),
            grid.spec_cell(coords[i].0, coords[i].1),
            tick,
        ) by {
            if i < d.len() {
                assert(coords[i] == d[i]);
            }
        }
    }
}

proof fn lemma_track_keeps(
    cells: spec_fn(int, int) -> ClientCellState,
    known: Seq<ClientBotData>,
    ups: Seq<RadarUpdate>,
    ents: Seq<EntityId>,
    bots: Seq<Sighting>,
    tick: u32,
    x: int,
    y: int,
)
    ensures
        ({
            let c = (track(cells, known, ups, ents, bots, tick).0)(x, y);
            c.kind == cells(x, y).kind && c.item == cells(x, y).item && c.last_observed == cells(
                x,
                y,
            ).last_observed
        }),
    decreases ents.len(),
{
    if ents.len() > 0 {
        lemma_track_keeps(cells, known, ups, ents.drop_last(), bots, tick, x, y);
    }
}

/// After a reading, every cell within radar range shows what the grid shows there, seen at
/// that tick.
pub proof fn lemma_reading_fresh(
    map: GridWorld<ClientCellState>,
    known: Seq<ClientBotData>,
    pos: Pos,
    grid: ServerGrid,
    bots: Seq<Sighting>,
    tick: u32,
)
    ensures
        forall|i: int|
            0 <= i < radar_coords(grid, pos).len() ==> fresh(
                (reading(map, known, pos, grid, bots, tick).0)(
                    (#[trigger] radar_coords(grid, pos)[i]).0,
                    radar_coords(grid, pos)[i].1,
                ),
                grid.spec_cell(radar_coords(grid, pos)[i].0, radar_coords(grid, pos)[i].1),
                tick,
            ),
{
    let coords = radar_coords(grid, pos);
    let seen = observe_all(coords, known_cells(map), grid, bots, tick);
    lemma_observe_fresh(coords, known_cells(map), grid, bots, tick);
    assert forall|i: int| 0 <= i < coords.len() implies fresh(
        (reading(map, known, pos, grid, bots, tick).0)((#[trigger] coords[i]).0, coords[i].1),
        grid.spec_cell(coords[i].0, coords[i].1),
        tick,
    ) by {
        lemma_track_keeps(seen.0, known, seen.1, seen.2, bots, tick, coords[i].0, coords[i].1);
    }
}

/// Records what the bot at `pos` sees of `grid_world` at `current_tick` in its known map and
/// known bots, and returns what it noticed.
pub fn update_known_map(
    known_bots: &mut Vec<ClientBotData>,
    known_map: &mut KnownMap,
    current_tick: u32,
    pos: &Pos,
    grid_world: &ServerGrid,
    bots: &Vec<Sighting>,
) -> (r: Vec<RadarUpdate>)
    requires
        pos.0.0 + RADAR_RANGE < isize::MAX,
        pos.0.1 + RADAR_RANGE < isize::MAX,
        current_tick < u32::MAX,
        pawns_placed(*grid_world, bots@),
        record_ok(*grid_world, *old(known_map), old(known_bots)@),
    ensures
        final(known_map).map.spec_width() == old(known_map).map.spec_width(),
        final(known_map).map.spec_height() == old(known_map).map.spec_height(),
        final(known_map).last_received_map_from == old(known_map).last_received_map_from,
        record_ok(*grid_world, *final(known_map), final(known_bots)@),
        ({
            let t = reading(
                old(known_map).map,
                old(known_bots)@,
                *pos,
                *grid_world,
                bots@,
                current_tick,
            );
            &&& final(known_bots)@ == t.1
            &&& r@ == t.2
            &&& forall|x: int, y: int|
                #![trigger final(known_map).map.spec_cell(x, y)]
                old(known_map).map.spec_in_bounds(x, y) ==> final(known_map).map.spec_cell(x, y)
                    == (t.0)(x, y)
        }),
{
    let ghost map0 = known_map.map;
    let ghost kb0 = known_bots@;
    let ghost coords = radar_coords(*grid_world, *pos);
    let gw = grid_world.width();
    let gh = grid_world.height();
    let cells = grid_world.nearby(*pos, RADAR_RANGE);
    proof {
        lemma_nearby_coords(gw as int, gh as int, pos.0.0 as int, pos.0.1 as int, RADAR_RANGE as nat);
        assert forall|i: int| 0 <= i < coords.len() implies grid_world.spec_in_bounds(
            #[trigger] coords[i].0,
            coords[i].1,
        ) by {
            assert(0 <= coords[i].0 < gw && 0 <= coords[i].1 < gh);
        }
        lemma_observe_all(coords, known_cells(map0), *grid_world, bots@, current_tick);
        assert(coords.take(0) =~= Seq::<(int, int)>::empty());
    }
    let ghost seen = observe_all(coords, known_cells(map0), *grid_world, bots@, current_tick);
    let mut ups: Vec<RadarUpdate> = Vec::new();
    let mut ents: Vec<EntityId> = Vec::new();
    let n = cells.len();
    let mut k: usize = 0;
    while k < n
        invariant
            k <= n,
            n == coords.len(),
            grid_world.lists(cells@, coords),
            forall|i: int| 0 <= i < coords.len() ==> grid_world.spec_in_bounds(#[trigger] coords[i].0, coords[i].1),
            pawns_placed(*grid_world, bots@),
            known_map.map.spec_width() == map0.spec_width(),
            known_map.map.spec_height() == map0.spec_height(),
            known_map.last_received_map_from == old(known_map).last_received_map_from,
            map0.spec_width() == grid_world.spec_width(),
            map0.spec_height() == grid_world.spec_height(),
            ({
                let part = observe_all(
                    coords.take(k as int),
                    known_cells(map0),
                    *grid_world,
                    bots@,
                    current_tick,
                );
                &&& ups@ == part.1
                &&& ents@ == part.2
                &&& forall|x: int, y: int|
                    #![trigger known_map.map.spec_cell(x, y)]
                    map0.spec_in_bounds(x, y) ==> known_map.map.spec_cell(x, y) == (part.0)(x, y)
            }),
        decreases n - k,
    {
        let (p, cell) = cells[k];
        proof {
            assert(coords.take(k as int + 1).drop_last() =~= coords.take(k as int));
            assert(coords.take(k as int + 1).last() == coords[k as int]);
            assert(cells@[k as int].0.0.0 == coords[k as int].0);
        }
        let kc = *known_map.map.get(p);
        if kc.kind == CellKind::Unknown {
            if cell.kind == CellKind::Blocked {
                ups.push(RadarUpdate::NewBlocker { pos: p });
            }
            if let Some(item) = cell.item {
                ups.push(RadarUpdate::NewItem { item, pos: p });
            }
        }
        let mut nk = kc;
        if let Some(e) = cell.pawn {
            ents.push(e);
            proof {
                lemma_find_sighting(bots@, e);
            }
            let j = find_sighting_index(bots, e).unwrap();
            nk.pawn = Some(bots[j].bot_id);
        }
        nk.kind = cell.kind;
        nk.item = cell.item;
        nk.last_observed = current_tick;
        known_map.map.set(p, nk);
        proof {
            let part = observe_all(
                coords.take(k as int + 1),
                known_cells(map0),
                *grid_world,
                bots@,
                current_tick,
            );
            assert(ups@ =~= part.1);
            assert(ents@ =~= part.2);
        }
        k = k + 1;
    }
    proof {
        assert(coords.take(n as int) =~= coords);
        assert(ents@ == seen.2);
        assert(seen.2.take(0) =~= Seq::<EntityId>::empty());
    }
    let m = ents.len();
    let mut k: usize = 0;
    while k < m
        invariant
            k <= m,
            m == seen.2.len(),
            ents@ == seen.2,
            current_tick < u32::MAX,
            pawns_placed(*grid_world, bots@),
            known_map.map.spec_width() == map0.spec_width(),
            known_map.map.spec_height() == map0.spec_height(),
            known_map.last_received_map_from == old(known_map).last_received_map_from,
            map0.spec_width() == grid_world.spec_width(),
            map0.spec_height() == grid_world.spec_height(),
            forall|i: int|
                0 <= i < seen.2.len() ==> {
                    let b = bot_of(bots@, #[trigger] seen.2[i]);
                    &&& find_sighting(bots@, seen.2[i]) is Some
                    &&& grid_world.spec_contains(b.pos)
                    &&& known_map.map.spec_cell(b.pos.0.0 as int, b.pos.0.1 as int).pawn
                        == Some(b.bot_id)
                },
            forall|j: int|
                0 <= j < known_bots@.len() ==> known_map.map.spec_contains(#[trigger] known_bots@[j].pos)
                    && known_bots@[j].last_observed < u32::MAX,
            ({
                let part = track(seen.0, kb0, seen.1, seen.2.take(k as int), bots@, current_tick);
                &&& known_bots@ == part.1
                &&& ups@ == part.2
                &&& forall|x: int, y: int|
                    #![trigger known_map.map.spec_cell(x, y)]
                    map0.spec_in_bounds(x, y) ==> known_map.map.spec_cell(x, y) == (part.0)(x, y)
            }),
        decreases m - k,
    {
        let e = ents[k];
        proof {
            assert(seen.2.take(k as int + 1).drop_last() =~= seen.2.take(k as int));
            assert(seen.2.take(k as int + 1).last() == e);
            lemma_find_sighting(bots@, e);
        }
        let j = find_sighting_index(bots, e).unwrap();
        let bot_id = bots[j].bot_id;
        let bot_pos = bots[j].pos;
        let ghost cells_before = known_map.map;
        proof {
            lemma_known_index(known_bots@, bot_id);
        }
        match crate::econ_bot::find_known(known_bots, bot_id) {
            Some(i) => {
                let known_bot = known_bots[i];
                if known_bot.pos != bot_pos {
                    let update = if known_bot.last_observed + 1 < current_tick {
                        RadarUpdate::BotReseen { bot_id, pos: bot_pos }
                    } else {
                        RadarUpdate::BotMoved { bot_id, from: known_bot.pos, to: bot_pos }
                    };
                    ups.push(update);
                    let old_cell = *known_map.map.get(known_bot.pos);
                    if old_cell.pawn == Some(bot_id) {
                        known_map.map.set(known_bot.pos, ClientCellState { pawn: None, ..old_cell });
                    }
                    proof {
                        assert forall|i2: int| 0 <= i2 < seen.2.len() implies {
                            let b = bot_of(bots@, #[trigger] seen.2[i2]);
                            known_map.map.spec_cell(b.pos.0.0 as int, b.pos.0.1 as int).pawn
                                == Some(b.bot_id)
                        } by {
                            let b = bot_of(bots@, seen.2[i2]);
                            let j2 = find_sighting(bots@, seen.2[i2])->0;
                            lemma_find_sighting(bots@, seen.2[i2]);
                            if b.pos == known_bot.pos {
                                if j2 != j as int {
                                    assert(bots@[j2].bot_id != bots@[j as int].bot_id);
                                }
                            }
                        }
                    }
                }
                known_bots.set(
                    i,
                    ClientBotData { pos: bot_pos, last_observed: current_tick, ..known_bot },
                );
            },
            None => {
                ups.push(RadarUpdate::NewBot { bot_id, pos: bot_pos });
                let b = &bots[j];
                known_bots.push(
                    ClientBotData {
                        bot_id,
                        team: b.team,
                        pos: bot_pos,
                        last_observed: current_tick,
                        frame: b.frame,
                        subsystems: b.subsystems,
                    },
                );
            },
        }
        proof {
            let part = track(seen.0, kb0, seen.1, seen.2.take(k as int + 1), bots@, current_tick);
            assert(ups@ =~= part.2);
            assert(known_bots@ =~= part.1);
        }
        k = k + 1;
    }
    proof {
        assert(seen.2.take(m as int) =~= seen.2);
    }
    ups
}

/// What a radar tells of each of `bots`.
pub fn census(bots: &Vec<BotEntry>) -> (r: Vec<Sighting>)
    ensures
        r@ == census_of(bots@),
{
    let mut r: Vec<Sighting> = Vec::new();
    let mut i: usize = 0;
    while i < bots.len()
        invariant
            i <= bots@.len(),
            r@ == census_of(bots@.take(i as int)),
        decreases bots@.len() - i,
    {
        let b = &bots[i];
        r.push(
            Sighting {
                entity: b.entity,
                bot_id: b.bot_id,
                pos: b.data.pos,
                team: b.data.team,
                frame: b.data.frame,
                subsystems: b.data.subsystems,
            },
        );
        proof {
            assert(census_of(bots@.take(i as int + 1)) =~= census_of(bots@.take(i as int)).push(
                sighting_of(bots@[i as int]),
            ));
        }
        i = i + 1;
    }
    proof {
        assert(bots@.take(bots@.len() as int) =~= bots@);
    }
    r
}

impl World {
    /// Every bot takes a radar reading: its known map and known bots record what it sees.
    pub fn update_known_maps(&mut self)
        requires
            old(self).tick < u32::MAX,
            pawns_placed(old(self).grid, census_of(old(self).bots@)),
            forall|i: int|
                0 <= i < old(self).bots@.len() ==> {
                    let d = (#[trigger] old(self).bots@[i]).data;
                    &&& d.pos.0.0 + RADAR_RANGE < isize::MAX
                    &&& d.pos.0.1 + RADAR_RANGE < isize::MAX
                    &&& record_ok(old(self).grid, d.known_map, d.known_bots@)
                },
        ensures
            final(self).tick == old(self).tick,
            final(self).grid == old(self).grid,
            final(self).partially_built == old(self).partially_built,
            final(self).next_entity == old(self).next_entity,
            final(self).next_bot_id == old(self).next_bot_id,
            final(self).bots@.len() == old(self).bots@.len(),
            forall|i: int|
                0 <= i < old(self).bots@.len() ==> {
                    let n = #[trigger] final(self).bots@[i];
                    let o = old(self).bots@[i];
                    let t = reading(
                        o.data.known_map.map,
                        o.data.known_bots@,
                        o.data.pos,
                        old(self).grid,
                        census_of(old(self).bots@),
                        old(self).tick,
                    );
                    &&& n.entity == o.entity
                    &&& n.bot_id == o.bot_id
                    &&& n.current_action == o.current_action
                    &&& n.past_actions == o.past_actions
                    &&& n.data == BotData {
                        known_map: n.data.known_map,
                        known_bots: n.data.known_bots,
                        ..o.data
                    }
                    &&& n.data.known_bots@ == t.1
                    &&& n.data.known_map.last_received_map_from
                        == o.data.known_map.last_received_map_from
                    &&& n.data.known_map.map.spec_width() == o.data.known_map.map.spec_width()
                    &&& n.data.known_map.map.spec_height() == o.data.known_map.map.spec_height()
                    &&& forall|x: int, y: int|
                        #![trigger n.data.known_map.map.spec_cell(x, y)]
                        o.data.known_map.map.spec_in_bounds(x, y)
                            ==> n.data.known_map.map.spec_cell(x, y) == (t.0)(x, y)
                },
    {
        let ghost b0 = self.bots@;
        let census = census(&self.bots);
        let n = self.bots.len();
        let mut i: usize = 0;
        while i < n
            invariant
                i <= n,
                n == b0.len(),
                self.bots@.len() == n,
                self.tick == old(self).tick,
                self.tick < u32::MAX,
                self.grid == old(self).grid,
                self.partially_built == old(self).partially_built,
                self.next_entity == old(self).next_entity,
                self.next_bot_id == old(self).next_bot_id,
                b0 == old(self).bots@,
                pawns_placed(self.grid, census_of(b0)),
                census@ == census_of(b0),
                forall|j: int|
                    0 <= j < n ==> {
                        let d = (#[trigger] b0[j]).data;
                        &&& d.pos.0.0 + RADAR_RANGE < isize::MAX
                        &&& d.pos.0.1 + RADAR_RANGE < isize::MAX
                        &&& record_ok(self.grid, d.known_map, d.known_bots@)
                    },
                forall|j: int| i <= j < n ==> #[trigger] self.bots@[j] == b0[j],
                forall|j: int|
                    0 <= j < i ==> {
                        let nn = #[trigger] self.bots@[j];
                        let o = b0[j];
                        let t = reading(
                            o.data.known_map.map,
                            o.data.known_bots@,
                            o.data.pos,
                            self.grid,
                            census_of(b0),
                            self.tick,
                        );
                        &&& nn.entity == o.entity
                        &&& nn.bot_id == o.bot_id
                        &&& nn.current_action == o.current_action
                        &&& nn.past_actions == o.past_actions
                        &&& nn.data == BotData {
                            known_map: nn.data.known_map,
                            known_bots: nn.data.known_bots,
                            ..o.data
                        }
                        &&& nn.data.known_bots@ == t.1
                        &&& nn.data.known_map.last_received_map_from
                            == o.data.known_map.last_received_map_from
                        &&& nn.data.known_map.map.spec_width() == o.data.known_map.map.spec_width()
                        &&& nn.data.known_map.map.spec_height() == o.data.known_map.map.spec_height()
                        &&& forall|x: int, y: int|
                            #![trigger nn.data.known_map.map.spec_cell(x, y)]
                            o.data.known_map.map.spec_in_bounds(x, y)
                                ==> nn.data.known_map.map.spec_cell(x, y) == (t.0)(x, y)
                    },
            decreases n - i,
        {
            assert(self.bots@[i as int] == b0[i as int]);
            let mut map = KnownMap::new(0, 0, ClientCellState::default());
            let mut known: Vec<ClientBotData> = Vec::new();
            std::mem::swap(&mut map, &mut self.bots[i].data.known_map);
            std::mem::swap(&mut known, &mut self.bots[i].data.known_bots);
            let pos = self.bots[i].data.pos;
            let tick = self.tick;
            let _radar_updates = update_known_map(&mut known, &mut map, tick, &pos, &self.grid, &census);
            std::mem::swap(&mut map, &mut self.bots[i].data.known_map);
            std::mem::swap(&mut known, &mut self.bots[i].data.known_bots);
            i = i + 1;
        }
    }
}

} // verus!
