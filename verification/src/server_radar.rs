//! The radar readings the server hands out: the cells around a bot, nearest first, and the bots
//! standing on them.
use vstd::prelude::*;

use crate::game::ServerGrid;
use crate::gridworld::{coord_dist, lemma_nearby_coords, nearby_coords};
use crate::observe::{bot_of, find_sighting, lemma_find_sighting, pawns_placed, Sighting, RADAR_RANGE};
use crate::radar::{CellStateRadar, RadarBotData, RadarData};
use crate::types::{abs_int, CellKind, Pos};

verus! {

/// The cells and the bots a reading shows once the grid cells at `coords` are scanned in
/// order: each cell as the grid has it, and each pawn as the next bot of the reading.
pub open spec fn scan(coords: Seq<(int, int)>, grid: ServerGrid, bots: Seq<Sighting>) -> (
    Seq<CellStateRadar>,
    Seq<RadarBotData>,
)
    decreases coords.len(),
{
    if coords.len() == 0 {
        (seq![], seq![])
    } else {
        let prev = scan(coords.drop_last(), grid, bots);
        let (x, y) = coords.last();
        let g = grid.spec_cell(x, y);
        let p = Pos((x as usize, y as usize));
        let cell = CellStateRadar {
            kind: g.kind,
            pawn: if g.pawn is Some {
                Some(prev.1.len() as usize)
            } else {
                None
            },
            item: g.item,
            pos: p,
        };
        let pawns = match g.pawn {
            Some(e) => prev.1.push(
                RadarBotData { bot_id: bot_of(bots, e).bot_id, team: bot_of(bots, e).team, pos: p },
            ),
            None => prev.1,
        };
        (prev.0.push(cell), pawns)
    }
}

/// Where a cell comes in a reading around `center`: by Manhattan distance, then center, east,
/// west, north, south.
pub open spec fn radar_key(center: Pos, p: Pos) -> int {
    let dx = abs_int(p.0.0 - center.0.0);
    let dy = abs_int(p.0.1 - center.0.1);
    let dir = if dx == 0 && dy == 0 {
        0int
    } else if dx >= dy {
        if p.0.0 >= center.0.0 {
            1int
        } else {
            2int
        }
    } else {
        if p.0.1 >= center.0.1 {
            3int
        } else {
            4int
        }
    };
    (dx + dy) * 100 + dir
}

/// How many keys the cells of a reading can have.
pub open spec fn key_bound() -> int {
    (RADAR_RANGE as int + 1) * 100
}

/// Holds of the cells whose key is `k`.
pub open spec fn key_is(center: Pos, k: int) -> spec_fn(CellStateRadar) -> bool {
    |c: CellStateRadar| radar_key(center, c.pos) == k
}

/// Holds of the cells whose key is below `n`.
pub open spec fn key_below(center: Pos, n: int) -> spec_fn(CellStateRadar) -> bool {
    |c: CellStateRadar| radar_key(center, c.pos) < n
}

/// The cells whose key is below `n`, grouped by increasing key, each group in its order in
/// `cells`: what a stable sort by key gives.
pub open spec fn by_key(cells: Seq<CellStateRadar>, center: Pos, n: nat) -> Seq<CellStateRadar>
    decreases n,
{
    if n == 0 {
        seq![]
    } else {
        by_key(cells, center, (n - 1) as nat) + cells.filter(key_is(center, n - 1))
    }
}

proof fn lemma_filter_split(s: Seq<CellStateRadar>, center: Pos, k: int)
    ensures
        s.filter(key_below(center, k + 1)).to_multiset() =~= s.filter(key_below(center, k)).to_multiset().add(
            s.filter(key_is(center, k)).to_multiset(),
        ),
    decreases s.len(),
{
    broadcast use vstd::seq_lib::group_to_multiset_ensures;
    broadcast use vstd::multiset::group_multiset_axioms;

    if s.len() == 0 {
        assert(s.filter(key_below(center, k + 1)) =~= Seq::<CellStateRadar>::empty());
        assert(s.filter(key_below(center, k)) =~= Seq::<CellStateRadar>::empty());
        assert(s.filter(key_is(center, k)) =~= Seq::<CellStateRadar>::empty());
    } else {
        let t = s.drop_last();
        let x = s.last();
        assert(s =~= t.push(x));
        lemma_filter_split(t, center, k);
        t.lemma_filter_push(x, key_below(center, k + 1));
        t.lemma_filter_push(x, key_below(center, k));
        t.lemma_filter_push(x, key_is(center, k));
    }
}

proof fn lemma_filter_all(s: Seq<CellStateRadar>, p: spec_fn(CellStateRadar) -> bool)
    requires
        forall|i: int| 0 <= i < s.len() ==> p(#[trigger] s[i]),
    ensures
        s.filter(p) == s,
    decreases s.len(),
{
    if s.len() == 0 {
        assert(s.filter(p) =~= s);
    } else {
        let t = s.drop_last();
        assert(s =~= t.push(s.last()));
        assert forall|i: int| 0 <= i < t.len() implies p(#[trigger] t[i]) by {
            assert(t[i] == s[i]);
        }
        lemma_filter_all(t, p);
        t.lemma_filter_push(s.last(), p);
    }
}

proof fn lemma_by_key_parts(cells: Seq<CellStateRadar>, center: Pos, n: nat)
    ensures
        by_key(cells, center, n).to_multiset() =~= cells.filter(key_below(center, n as int)).to_multiset(),
        forall|i: int|
            0 <= i < by_key(cells, center, n).len() ==> radar_key(
                center,
                #[trigger] by_key(cells, center, n)[i].pos,
            ) < n,
        forall|i: int, j: int|
            0 <= i < j < by_key(cells, center, n).len() ==> radar_key(
                center,
                #[trigger] by_key(cells, center, n)[i].pos,
            ) <= radar_key(center, #[trigger] by_key(cells, center, n)[j].pos),
    decreases n,
{
    broadcast use vstd::seq_lib::group_to_multiset_ensures;

    if n == 0 {
        assert(cells.filter(key_below(center, 0)).len() == 0) by {
            if cells.filter(key_below(center, 0)).len() > 0 {
                cells.lemma_filter_pred(key_below(center, 0), 0);
            }
        }
        assert(cells.filter(key_below(center, 0)) =~= Seq::<CellStateRadar>::empty());
    } else {
        let m = (n - 1) as nat;
        lemma_by_key_parts(cells, center, m);
        let prev = by_key(cells, center, m);
        let f = cells.filter(key_is(center, m as int));
        vstd::seq_lib::lemma_multiset_commutative(prev, f);
        lemma_filter_split(cells, center, m as int);
        assert forall|i: int| 0 <= i < f.len() implies radar_key(center, #[trigger] f[i].pos) == m by {
            cells.lemma_filter_pred(key_is(center, m as int), i);
        }
        let r = by_key(cells, center, n);
        assert(r == prev + f);
        assert forall|i: int, j: int| 0 <= i < j < r.len() implies radar_key(center, #[trigger] r[i].pos)
            <= radar_key(center, #[trigger] r[j].pos) by {
            if j < prev.len() {
                assert(r[i] == prev[i] && r[j] == prev[j]);
            } else if i < prev.len() {
                assert(r[i] == prev[i] && r[j] == f[j - prev.len()]);
            } else {
                assert(r[i] == f[i - prev.len()] && r[j] == f[j - prev.len()]);
            }
        }
        assert forall|i: int| 0 <= i < r.len() implies radar_key(center, #[trigger] r[i].pos) < n by {
            if i < prev.len() {
                assert(r[i] == prev[i]);
            } else {
                assert(r[i] == f[i - prev.len()]);
            }
        }
    }
}

/// Ordering cells within radar range by key loses and adds none of them, and lists them in
/// order of their keys.
pub proof fn lemma_sorted_by_key(cells: Seq<CellStateRadar>, center: Pos)
    requires
        forall|i: int|
            0 <= i < cells.len() ==> abs_int(#[trigger] cells[i].pos.0.0 - center.0.0) + abs_int(
                cells[i].pos.0.1 - center.0.1,
            ) <= RADAR_RANGE,
    ensures
        by_key(cells, center, key_bound() as nat).to_multiset() == cells.to_multiset(),
        forall|i: int, j: int|
            0 <= i < j < by_key(cells, center, key_bound() as nat).len() ==> radar_key(
                center,
                #[trigger] by_key(cells, center, key_bound() as nat)[i].pos,
            ) <= radar_key(center, #[trigger] by_key(cells, center, key_bound() as nat)[j].pos),
{
    lemma_by_key_parts(cells, center, key_bound() as nat);
    assert forall|i: int| 0 <= i < cells.len() implies (#[trigger] key_below(center, key_bound())(cells[i])) by {
        assert(abs_int(cells[i].pos.0.0 - center.0.0) + abs_int(cells[i].pos.0.1 - center.0.1) <= 5);
    }
    lemma_filter_all(cells, key_below(center, key_bound()));
}

/// The key of a cell within radar range of `center`.
pub fn radar_key_of(center: Pos, p: Pos) -> (r: u32)
    requires
        abs_int(p.0.0 - center.0.0) + abs_int(p.0.1 - center.0.1) <= RADAR_RANGE,
    ensures
        r == radar_key(center, p),
{
    let dx: usize = if p.0.0 >= center.0.0 {
        p.0.0 - center.0.0
    } else {
        center.0.0 - p.0.0
    };
    let dy: usize = if p.0.1 >= center.0.1 {
        p.0.1 - center.0.1
    } else {
        center.0.1 - p.0.1
    };
    let dir: u32 = if dx == 0 && dy == 0 {
        0
    } else if dx >= dy {
        if p.0.0 >= center.0.0 {
            1
        } else {
            2
        }
    } else {
        if p.0.1 >= center.0.1 {
            3
        } else {
            4
        }
    };
    ((dx + dy) as u32) * 100 + dir
}

/// The cells in a stable order by key (see `radar_key`).
pub fn sort_by_key(cells: &Vec<CellStateRadar>, center: Pos) -> (r: Vec<CellStateRadar>)
    requires
        forall|i: int|
            0 <= i < cells@.len() ==> abs_int(#[trigger] cells@[i].pos.0.0 - center.0.0) + abs_int(
                cells@[i].pos.0.1 - center.0.1,
            ) <= RADAR_RANGE,
    ensures
        r@ == by_key(cells@, center, key_bound() as nat),
{
    let bound: u32 = ((RADAR_RANGE + 1) * 100) as u32;
    let mut r: Vec<CellStateRadar> = Vec::new();
    let mut k: u32 = 0;
    while k < bound
        invariant
            k <= bound,
            bound == key_bound(),
            r@ == by_key(cells@, center, k as nat),
            forall|i: int|
                0 <= i < cells@.len() ==> abs_int(#[trigger] cells@[i].pos.0.0 - center.0.0)
                    + abs_int(cells@[i].pos.0.1 - center.0.1) <= RADAR_RANGE,
        decreases bound - k,
    {
        let ghost pred = key_is(center, k as int);
        let ghost start = r@;
        let mut i: usize = 0;
        while i < cells.len()
            invariant
                i <= cells@.len(),
                k < bound,
                bound == key_bound(),
                start == by_key(cells@, center, k as nat),
                pred == key_is(center, k as int),
                r@ == start + cells@.take(i as int).filter(pred),
                forall|j: int|
                    0 <= j < cells@.len() ==> abs_int(#[trigger] cells@[j].pos.0.0 - center.0.0)
                        + abs_int(cells@[j].pos.0.1 - center.0.1) <= RADAR_RANGE,
            decreases cells@.len() - i,
        {
            let c = cells[i];
            proof {
                assert(cells@.take(i as int + 1).drop_last() =~= cells@.take(i as int));
                assert(cells@.take(i as int + 1).last() == c);
                assert(abs_int(cells@[i as int].pos.0.0 - center.0.0) + abs_int(
                    cells@[i as int].pos.0.1 - center.0.1,
                ) <= RADAR_RANGE);
            }
            if radar_key_of(center, c.pos) == k {
                r.push(c);
            }
            proof {
                assert(cells@.take(i as int + 1) =~= cells@.take(i as int).push(c));
                cells@.take(i as int).lemma_filter_push(c, pred);
                assert(r@ =~= start + cells@.take(i as int + 1).filter(pred));
            }
            i = i + 1;
        }
        proof {
            assert(cells@.take(cells@.len() as int) =~= cells@);
            assert(by_key(cells@, center, (k + 1) as nat) =~= start + cells@.filter(pred));
        }
        k = k + 1;
    }
    r
}

/// The reading the server hands the bot at `pos`: the grid cells within radar range, nearest
/// first, ties broken by direction, with the bots standing on them.
pub fn create_radar_data(pos: &Pos, grid_world: &ServerGrid, bots: &Vec<Sighting>) -> (r: RadarData)
    requires
        pos.0.0 + RADAR_RANGE < isize::MAX,
        pos.0.1 + RADAR_RANGE < isize::MAX,
        pawns_placed(*grid_world, bots@),
        forall|x: int, y: int|
            grid_world.spec_in_bounds(x, y) ==> #[trigger] grid_world.spec_cell(x, y).kind
                != CellKind::Unknown,
    ensures
        r.center_world_pos == *pos,
        ({
            let coords = nearby_coords(
                grid_world.spec_width() as int,
                grid_world.spec_height() as int,
                pos.0.0 as int,
                pos.0.1 as int,
                RADAR_RANGE as nat,
            );
            let s = scan(coords, *grid_world, bots@);
            &&& r.pawns@ == s.1
            &&& r.cells@ == by_key(s.0, *pos, key_bound() as nat)
        }),
{
    let ghost coords = nearby_coords(
        grid_world.spec_width() as int,
        grid_world.spec_height() as int,
        pos.0.0 as int,
        pos.0.1 as int,
        RADAR_RANGE as nat,
    );
    proof {
        lemma_nearby_coords(
            grid_world.spec_width() as int,
            grid_world.spec_height() as int,
            pos.0.0 as int,
            pos.0.1 as int,
            RADAR_RANGE as nat,
        );
    }
    let near = grid_world.nearby(*pos, RADAR_RANGE);
    let mut pawns: Vec<RadarBotData> = Vec::new();
    let mut cells: Vec<CellStateRadar> = Vec::new();
    let mut i: usize = 0;
    proof {
        assert(coords.take(0) =~= Seq::<(int, int)>::empty());
    }
    while i < near.len()
        invariant
            i <= near@.len(),
            grid_world.lists(near@, coords),
            pawns_placed(*grid_world, bots@),
            forall|j: int|
                0 <= j < coords.len() ==> {
                    let p = #[trigger] coords[j];
                    &&& 0 <= p.0 < grid_world.spec_width()
                    &&& 0 <= p.1 < grid_world.spec_height()
                    &&& coord_dist(pos.0.0 as int, pos.0.1 as int, p) <= RADAR_RANGE
                },
            (cells@, pawns@) == scan(coords.take(i as int), *grid_world, bots@),
            forall|j: int|
                0 <= j < cells@.len() ==> abs_int(#[trigger] cells@[j].pos.0.0 - pos.0.0)
                    + abs_int(cells@[j].pos.0.1 - pos.0.1) <= RADAR_RANGE,
        decreases near@.len() - i,
    {
        let (cell_pos, cell) = near[i];
        proof {
            assert(coords.take(i as int + 1).drop_last() =~= coords.take(i as int));
            assert(coords.take(i as int + 1).last() == coords[i as int]);
            let p = coords[i as int];
            assert(grid_world.spec_in_bounds(p.0, p.1));
        }
        let pawn = match cell.pawn {
            Some(e) => {
                proof {
                    lemma_find_sighting(bots@, e);
                    let p = coords[i as int];
                    assert(grid_world.spec_cell(p.0, p.1).pawn == Some(e));
                }
                let k = find_index(bots, e);
                pawns.push(RadarBotData { team: bots[k].team, pos: cell_pos, bot_id: bots[k].bot_id });
                Some(pawns.len() - 1)
            },
            None => None,
        };
        cells.push(CellStateRadar { kind: cell.kind, pawn, item: cell.item, pos: cell_pos });
        proof {
            assert((cells@, pawns@) == scan(coords.take(i as int + 1), *grid_world, bots@));
        }
        i = i + 1;
    }
    proof {
        assert(coords.take(near@.len() as int) =~= coords);
    }
    let sorted = sort_by_key(&cells, *pos);
    RadarData { center_world_pos: *pos, pawns, cells: sorted }
}

/// The first bot that is entity `e`, which is there.
fn find_index(bots: &Vec<Sighting>, e: u64) -> (r: usize)
    requires
        find_sighting(bots@, e) is Some,
    ensures
        find_sighting(bots@, e) == Some(r as int),
        r < bots@.len(),
{
    proof {
        lemma_find_sighting(bots@, e);
    }
    let mut i: usize = 0;
    while i < bots.len()
        invariant
            i <= bots@.len(),
            forall|j: int| 0 <= j < i ==> bots@[j].entity != e,
            find_sighting(bots@, e) matches Some(k) && 0 <= k < bots@.len() && bots@[k].entity == e
                && forall|j: int| 0 <= j < k ==> bots@[j].entity != e,
        decreases bots@.len() - i,
    {
        if bots[i].entity == e {
            proof {
                let k = find_sighting(bots@, e)->0;
                if k < i {
                } else if k > i {
                }
            }
            return i;
        }
        i = i + 1;
    }
    proof {
        let k = find_sighting(bots@, e)->0;
        assert(bots@[k].entity == e);
    }
    0
}

} // verus!
