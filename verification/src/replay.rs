//! Replays: the state of the game at each tick, and putting a recorded tick back into a world
//! whose entities differ from the recorded ones.
use vstd::prelude::*;

use std::collections::HashMap;

use crate::bot::{same_action, same_data, same_status, ActionResult, BotData};
use crate::game::{
    find_partial, lemma_find_partial, spec_find_partial, ActionContainer, BotEntry, CellState,
    EntityId, PartiallyBuiltBot, ServerGrid,
};
use crate::world::World;

verus! {

/// What is recorded of a bot.
pub struct BotComponents {
    pub bot_data: BotData,
    pub current_action: Option<ActionContainer>,
    pub past_actions: Vec<ActionResult>,
}

/// What is recorded of a tick: each bot by its id, the grid, and the bots under construction
/// by the entity they were recorded as.
pub struct TickData {
    pub tick: u32,
    pub bot_data: Vec<(u32, BotComponents)>,
    pub grid_world: ServerGrid,
    pub partially_built_bots: Vec<(EntityId, PartiallyBuiltBot)>,
}

/// `c` records bot `e`: the same state, running action and finished actions.
pub open spec fn records_bot(c: BotComponents, e: BotEntry) -> bool {
    &&& same_data(c.bot_data, e.data)
    &&& match (c.current_action, e.current_action) {
        (None, None) => true,
        (Some(a), Some(b)) => same_action(a.kind, b.kind) && a.id == b.id && a.state == b.state
            && a.reason == b.reason,
        _ => false,
    }
    &&& c.past_actions@.len() == e.past_actions@.len()
    &&& forall|i: int|
        0 <= i < c.past_actions@.len() ==> same_result(#[trigger] c.past_actions@[i], e.past_actions@[i])
}

/// Two finished actions that agree.
pub open spec fn same_result(a: ActionResult, b: ActionResult) -> bool {
    same_action(a.action, b.action) && a.id == b.id && same_status(a.status, b.status) && a.reason
        == b.reason && a.completed_tick == b.completed_tick
}

/// `t` records the world `w` as it is: its tick, each bot by its id in order, its grid and its
/// bots under construction.
pub open spec fn records(t: TickData, w: World) -> bool {
    &&& t.tick == w.tick
    &&& t.bot_data@.len() == w.bots@.len()
    &&& forall|i: int|
        0 <= i < t.bot_data@.len() ==> (#[trigger] t.bot_data@[i]).0 == w.bots@[i].bot_id
            && records_bot(t.bot_data@[i].1, w.bots@[i])
    &&& t.grid_world.spec_width() == w.grid.spec_width()
    &&& t.grid_world.spec_height() == w.grid.spec_height()
    &&& forall|x: int, y: int|
        w.grid.spec_in_bounds(x, y) ==> #[trigger] t.grid_world.spec_cell(x, y) == w.grid.spec_cell(x, y)
    &&& t.partially_built_bots@ == w.partially_built@
}

fn copy_results(v: &Vec<ActionResult>) -> (r: Vec<ActionResult>)
    ensures
        r@.len() == v@.len(),
        forall|i: int| 0 <= i < r@.len() ==> same_result(#[trigger] r@[i], v@[i]),
{
    let mut r: Vec<ActionResult> = Vec::new();
    let mut i: usize = 0;
    while i < v.len()
        invariant
            i <= v@.len(),
            r@.len() == i,
            forall|j: int| 0 <= j < i ==> same_result(#[trigger] r@[j], v@[j]),
        decreases v@.len() - i,
    {
        r.push(v[i].copy());
        i = i + 1;
    }
    r
}

fn copy_partials(v: &Vec<(EntityId, PartiallyBuiltBot)>) -> (r: Vec<(EntityId, PartiallyBuiltBot)>)
    ensures
        r@ == v@,
{
    let mut r: Vec<(EntityId, PartiallyBuiltBot)> = Vec::new();
    let mut i: usize = 0;
    while i < v.len()
        invariant
            i <= v@.len(),
            r@ == v@.take(i as int),
        decreases v@.len() - i,
    {
        r.push(v[i]);
        proof {
            assert(r@ =~= v@.take(i as int + 1));
        }
        i = i + 1;
    }
    proof {
        assert(v@.take(v@.len() as int) =~= v@);
    }
    r
}

/// Records the world as it is at this tick at the end of the replay.
pub fn extract_live_data(ticks: &mut Vec<TickData>, world: &World)
    ensures
        final(ticks)@.len() == old(ticks)@.len() + 1,
        final(ticks)@.drop_last() == old(ticks)@,
        records(final(ticks)@.last(), *world),
{
    let mut bot_data: Vec<(u32, BotComponents)> = Vec::new();
    let mut i: usize = 0;
    while i < world.bots.len()
        invariant
            i <= world.bots@.len(),
            bot_data@.len() == i,
            forall|j: int|
                0 <= j < i ==> (#[trigger] bot_data@[j]).0 == world.bots@[j].bot_id && records_bot(
                    bot_data@[j].1,
                    world.bots@[j],
                ),
        decreases world.bots@.len() - i,
    {
        let e = &world.bots[i];
        let current_action = match &e.current_action {
            Some(c) => Some(
                ActionContainer { kind: c.kind.copy(), id: c.id, state: c.state, reason: c.reason },
            ),
            None => None,
        };
        let comps = BotComponents {
            bot_data: e.data.copy(),
            current_action,
            past_actions: copy_results(&e.past_actions),
        };
        bot_data.push((e.bot_id, comps));
        i = i + 1;
    }
    let t = TickData {
        tick: world.tick,
        bot_data,
        grid_world: world.grid.copy(),
        partially_built_bots: copy_partials(&world.partially_built),
    };
    let ghost before = ticks@;
    ticks.push(t);
    proof {
        assert(ticks@.drop_last() =~= before);
    }
}

/// The bots of a world, its next entity and next bot id, and the live entity of each recorded
/// entity.
pub type Restored = (Seq<BotEntry>, EntityId, u32, Map<EntityId, EntityId>);

/// The index of the first bot with id `id`.
pub open spec fn find_bot_id(bots: Seq<BotEntry>, id: u32) -> Option<int>
    decreases bots.len(),
{
    if bots.len() == 0 {
        None
    } else {
        match find_bot_id(bots.drop_last(), id) {
            Some(i) => Some(i),
            None => if bots.last().bot_id == id {
                Some(bots.len() - 1)
            } else {
                None
            },
        }
    }
}

pub proof fn lemma_find_bot_id(bots: Seq<BotEntry>, id: u32)
    ensures
        find_bot_id(bots, id) matches Some(i) ==> 0 <= i < bots.len() && bots[i].bot_id == id
            && forall|j: int| 0 <= j < i ==> bots[j].bot_id != id,
        find_bot_id(bots, id) is None ==> forall|j: int| 0 <= j < bots.len() ==> bots[j].bot_id != id,
    decreases bots.len(),
{
    if bots.len() > 0 {
        lemma_find_bot_id(bots.drop_last(), id);
        assert forall|j: int| 0 <= j < bots.len() - 1 implies bots[j] == bots.drop_last()[j] by {}
    }
}

/// The entity a recorded bot was: the pawn on its cell of the recorded grid.
pub open spec fn recorded_entity(grid: ServerGrid, c: BotComponents) -> EntityId {
    grid.spec_at(c.bot_data.pos).pawn->0
}

/// Restoring one recorded bot: a bot with its id takes the recorded state; otherwise a new
/// bot, with the next entity and the next id, is made from it and its recorded entity maps to
/// the new entity.
pub open spec fn restore_bot(s: Restored, grid: ServerGrid, bot_id: u32, c: BotComponents) -> Restored {
    match find_bot_id(s.0, bot_id) {
        Some(i) => (
            s.0.update(
                i,
                BotEntry {
                    entity: s.0[i].entity,
                    bot_id: s.0[i].bot_id,
                    data: c.bot_data,
                    current_action: c.current_action,
                    past_actions: c.past_actions,
                },
            ),
            s.1,
            s.2,
            s.3,
        ),
        None => (
            s.0.push(
                BotEntry {
                    entity: s.1,
                    bot_id: s.2,
                    data: c.bot_data,
                    current_action: c.current_action,
                    past_actions: c.past_actions,
                },
            ),
            (s.1 + 1) as EntityId,
            (s.2 + 1) as u32,
            s.3.insert(recorded_entity(grid, c), s.1),
        ),
    }
}

/// One recorded bot can be restored: its cell is on the recorded grid and shows a pawn; a
/// live bot with its id is the entity its recorded entity maps to; a new entity and id are
/// left.
pub open spec fn bot_restorable(s: Restored, grid: ServerGrid, bot_id: u32, c: BotComponents) -> bool {
    &&& grid.spec_contains(c.bot_data.pos)
    &&& grid.spec_at(c.bot_data.pos).pawn is Some
    &&& match find_bot_id(s.0, bot_id) {
        Some(i) => s.3.contains_key(recorded_entity(grid, c)) && s.3[recorded_entity(grid, c)]
            == s.0[i].entity,
        None => s.1 < u64::MAX && s.2 < u32::MAX,
    }
}

/// The recorded bots restored in order.
pub open spec fn restore_bots(s: Restored, grid: ServerGrid, items: Seq<(u32, BotComponents)>) -> Restored
    decreases items.len(),
{
    if items.len() == 0 {
        s
    } else {
        let p = restore_bots(s, grid, items.drop_last());
        restore_bot(p, grid, items.last().0, items.last().1)
    }
}

/// Each recorded bot can be restored once the ones before it are.
pub open spec fn bots_restorable(s: Restored, grid: ServerGrid, items: Seq<(u32, BotComponents)>) -> bool
    decreases items.len(),
{
    items.len() == 0 || (bots_restorable(s, grid, items.drop_last()) && bot_restorable(
        restore_bots(s, grid, items.drop_last()),
        grid,
        items.last().0,
        items.last().1,
    ))
}

/// The bots under construction, the next entity and the entity map.
pub type RestoredPartials = (Seq<(EntityId, PartiallyBuiltBot)>, EntityId, Map<EntityId, EntityId>);

/// Restoring one recorded bot under construction: the live one its entity maps to takes the
/// recorded state; otherwise a new one is made with the next entity, which its recorded entity
/// then maps to.
pub open spec fn restore_partial(s: RestoredPartials, e: EntityId, p: PartiallyBuiltBot) -> RestoredPartials {
    if s.2.contains_key(e) {
        let live = s.2[e];
        (s.0.update(spec_find_partial(s.0, live)->0, (live, p)), s.1, s.2)
    } else {
        (s.0.push((s.1, p)), (s.1 + 1) as EntityId, s.2.insert(e, s.1))
    }
}

pub open spec fn partial_restorable(s: RestoredPartials, e: EntityId) -> bool {
    if s.2.contains_key(e) {
        spec_find_partial(s.0, s.2[e]) is Some
    } else {
        s.1 < u64::MAX
    }
}

pub open spec fn restore_partials(s: RestoredPartials, items: Seq<(EntityId, PartiallyBuiltBot)>) -> RestoredPartials
    decreases items.len(),
{
    if items.len() == 0 {
        s
    } else {
        let p = restore_partials(s, items.drop_last());
        restore_partial(p, items.last().0, items.last().1)
    }
}

pub open spec fn partials_restorable(s: RestoredPartials, items: Seq<(EntityId, PartiallyBuiltBot)>) -> bool
    decreases items.len(),
{
    items.len() == 0 || (partials_restorable(s, items.drop_last()) && partial_restorable(
        restore_partials(s, items.drop_last()),
        items.last().0,
    ))
}

/// A recorded cell with its entities replaced by the live ones.
pub open spec fn remapped(c: CellState, m: Map<EntityId, EntityId>) -> CellState {
    CellState {
        pawn: match c.pawn {
            Some(e) => Some(m[e]),
            None => None,
        },
        partially_built_bot: match c.partially_built_bot {
            Some(e) => Some(m[e]),
            None => None,
        },
        ..c
    }
}

/// Every entity on the recorded grid has a live one.
pub open spec fn grid_mapped(grid: ServerGrid, m: Map<EntityId, EntityId>) -> bool {
    forall|x: int, y: int|
        #![trigger grid.spec_cell(x, y)]
        grid.spec_in_bounds(x, y) ==> (grid.spec_cell(x, y).pawn matches Some(e) ==> m.contains_key(e))
            && (grid.spec_cell(x, y).partially_built_bot matches Some(e) ==> m.contains_key(e))
}

/// The state restored from `t` in `w` with entity map `m`: the bots, then the bots under
/// construction, then the grid.
pub open spec fn restored_world(w: World, t: TickData, m: Map<EntityId, EntityId>) -> (
    Restored,
    RestoredPartials,
) {
    let b = restore_bots((w.bots@, w.next_entity, w.next_bot_id, m), t.grid_world, t.bot_data@);
    let p = restore_partials((w.partially_built@, b.1, b.3), t.partially_built_bots@);
    (b, p)
}

/// The recorded tick can be put back without a failed lookup.
pub open spec fn restorable(w: World, t: TickData, m: Map<EntityId, EntityId>) -> bool {
    let b = restore_bots((w.bots@, w.next_entity, w.next_bot_id, m), t.grid_world, t.bot_data@);
    let p = restore_partials((w.partially_built@, b.1, b.3), t.partially_built_bots@);
    &&& bots_restorable((w.bots@, w.next_entity, w.next_bot_id, m), t.grid_world, t.bot_data@)
    &&& partials_restorable((w.partially_built@, b.1, b.3), t.partially_built_bots@)
    &&& grid_mapped(t.grid_world, p.2)
}

proof fn lemma_bots_restorable_prefix(s: Restored, grid: ServerGrid, items: Seq<(u32, BotComponents)>, k: int)
    requires
        bots_restorable(s, grid, items),
        0 <= k <= items.len(),
    ensures
        bots_restorable(s, grid, items.take(k)),
    decreases items.len(),
{
    if k < items.len() {
        assert(items.drop_last().take(k) =~= items.take(k));
        lemma_bots_restorable_prefix(s, grid, items.drop_last(), k);
    } else {
        assert(items.take(k) =~= items);
    }
}

proof fn lemma_partials_restorable_prefix(
    s: RestoredPartials,
    items: Seq<(EntityId, PartiallyBuiltBot)>,
    k: int,
)
    requires
        partials_restorable(s, items),
        0 <= k <= items.len(),
    ensures
        partials_restorable(s, items.take(k)),
    decreases items.len(),
{
    if k < items.len() {
        assert(items.drop_last().take(k) =~= items.take(k));
        lemma_partials_restorable_prefix(s, items.drop_last(), k);
    } else {
        assert(items.take(k) =~= items);
    }
}


/// The live bot with id `id` holds the recorded state `c`.
pub open spec fn restored_to(bots: Seq<BotEntry>, id: u32, c: BotComponents) -> bool {
    find_bot_id(bots, id) matches Some(j) && bots[j].data == c.bot_data && bots[j].current_action
        == c.current_action && bots[j].past_actions == c.past_actions
}

/// Which bot has a given id depends on the ids alone.
proof fn lemma_same_ids_find(a: Seq<BotEntry>, b: Seq<BotEntry>, id: u32)
    requires
        a.len() == b.len(),
        forall|i: int| 0 <= i < a.len() ==> #[trigger] a[i].bot_id == b[i].bot_id,
    ensures
        find_bot_id(a, id) == find_bot_id(b, id),
{
    lemma_find_bot_id(a, id);
    lemma_find_bot_id(b, id);
    if let Some(i) = find_bot_id(a, id) {
        assert(b[i].bot_id == id);
        if let Some(j) = find_bot_id(b, id) {
            assert(a[j].bot_id == id);
            if i < j {
                assert(b[i].bot_id != id);
            } else if j < i {
                assert(a[j].bot_id != id);
            }
        }
    } else if let Some(j) = find_bot_id(b, id) {
        assert(a[j].bot_id == id);
    }
}

/// Restoring recorded bots whose ids all belong to live bots updates those bots in place: each
/// ends up holding its recorded state, and no bot, entity or id is added.
proof fn lemma_restore_bots_present(s: Restored, grid: ServerGrid, items: Seq<(u32, BotComponents)>)
    requires
        forall|k: int| 0 <= k < items.len() ==> find_bot_id(s.0, (#[trigger] items[k]).0) is Some,
        forall|j: int, k: int|
            0 <= j < k < items.len() ==> (#[trigger] items[j]).0 != (#[trigger] items[k]).0,
    ensures
        ({
            let r = restore_bots(s, grid, items);
            &&& r.0.len() == s.0.len()
            &&& forall|i: int|
                0 <= i < s.0.len() ==> (#[trigger] r.0[i]).bot_id == s.0[i].bot_id && r.0[i].entity
                    == s.0[i].entity
            &&& r.1 == s.1
            &&& r.2 == s.2
            &&& r.3 == s.3
            &&& forall|k: int| 0 <= k < items.len() ==> restored_to(r.0, (#[trigger] items[k]).0, items[k].1)
        }),
    decreases items.len(),
{
    if items.len() > 0 {
        let pre = items.drop_last();
        assert forall|k: int| 0 <= k < pre.len() implies find_bot_id(s.0, (#[trigger] pre[k]).0) is Some by {
            assert(pre[k] == items[k]);
        }
        assert forall|j: int, k: int| 0 <= j < k < pre.len() implies (#[trigger] pre[j]).0 != (
        #[trigger] pre[k]).0 by {
            assert(pre[j] == items[j] && pre[k] == items[k]);
        }
        lemma_restore_bots_present(s, grid, pre);
        let p = restore_bots(s, grid, pre);
        let last = items.last();
        let n = items.len() - 1;
        assert(items[n] == last);
        lemma_same_ids_find(p.0, s.0, last.0);
        lemma_find_bot_id(p.0, last.0);
        let i = find_bot_id(p.0, last.0)->0;
        let r = restore_bots(s, grid, items);
        assert(r == restore_bot(p, grid, last.0, last.1));
        assert forall|k: int| 0 <= k < items.len() implies restored_to(r.0, (#[trigger] items[k]).0, items[k].1) by {
            if k < n {
                assert(pre[k] == items[k]);
                assert(restored_to(p.0, pre[k].0, pre[k].1));
                lemma_same_ids_find(r.0, p.0, items[k].0);
                lemma_find_bot_id(p.0, items[k].0);
                let jk = find_bot_id(p.0, items[k].0)->0;
                assert(items[k].0 != items[n].0);
                assert(jk != i);
                assert(r.0[jk] == p.0[jk]);
            } else {
                lemma_same_ids_find(r.0, p.0, last.0);
            }
        }
    }
}

/// Putting back a tick recorded from the world `s` (see `records`) restores every recorded bot
/// that the live world still has: the live bot with its id then holds what `s`'s bot held, its
/// state, running action and finished actions; and the grid restored is `s`'s grid with the
/// recorded entities replaced by the live ones.
pub proof fn lemma_replay_roundtrip(live: World, s: World, t: TickData, m: Map<EntityId, EntityId>)
    requires
        records(t, s),
        forall|j: int, k: int|
            0 <= j < k < s.bots@.len() ==> (#[trigger] s.bots@[j]).bot_id != (#[trigger] s.bots@[k]).bot_id,
        forall|k: int|
            0 <= k < s.bots@.len() ==> find_bot_id(live.bots@, (#[trigger] s.bots@[k]).bot_id) is Some,
    ensures
        ({
            let (b, p) = restored_world(live, t, m);
            &&& forall|k: int|
                0 <= k < s.bots@.len() ==> {
                    let e = #[trigger] s.bots@[k];
                    &&& find_bot_id(b.0, e.bot_id) is Some
                    &&& records_bot(
                        (BotComponents {
                            bot_data: b.0[find_bot_id(b.0, e.bot_id)->0].data,
                            current_action: b.0[find_bot_id(b.0, e.bot_id)->0].current_action,
                            past_actions: b.0[find_bot_id(b.0, e.bot_id)->0].past_actions,
                        }),
                        e,
                    )
                }
            &&& forall|x: int, y: int|
                #![trigger s.grid.spec_cell(x, y)]
                s.grid.spec_in_bounds(x, y) ==> remapped(t.grid_world.spec_cell(x, y), p.2) == remapped(
                    s.grid.spec_cell(x, y),
                    p.2,
                )
        }),
{
    let items = t.bot_data@;
    let s0 = (live.bots@, live.next_entity, live.next_bot_id, m);
    assert forall|k: int| 0 <= k < items.len() implies find_bot_id(s0.0, (#[trigger] items[k]).0) is Some by {
        assert(items[k].0 == s.bots@[k].bot_id);
    }
    assert forall|j: int, k: int| 0 <= j < k < items.len() implies (#[trigger] items[j]).0 != (
    #[trigger] items[k]).0 by {
        assert(items[j].0 == s.bots@[j].bot_id && items[k].0 == s.bots@[k].bot_id);
    }
    lemma_restore_bots_present(s0, t.grid_world, items);
    let b = restore_bots(s0, t.grid_world, items);
    assert forall|k: int| 0 <= k < s.bots@.len() implies {
        let e = #[trigger] s.bots@[k];
        &&& find_bot_id(b.0, e.bot_id) is Some
        &&& records_bot(
            (BotComponents {
                bot_data: b.0[find_bot_id(b.0, e.bot_id)->0].data,
                current_action: b.0[find_bot_id(b.0, e.bot_id)->0].current_action,
                past_actions: b.0[find_bot_id(b.0, e.bot_id)->0].past_actions,
            }),
            e,
        )
    } by {
        assert(items[k].0 == s.bots@[k].bot_id);
        assert(restored_to(b.0, items[k].0, items[k].1));
        assert(records_bot(items[k].1, s.bots@[k]));
    }
}


/// The live bot under construction that `e` maps to holds the recorded state `q`.
pub open spec fn partial_restored_to(
    ps: Seq<(EntityId, PartiallyBuiltBot)>,
    m: Map<EntityId, EntityId>,
    e: EntityId,
    q: PartiallyBuiltBot,
) -> bool {
    spec_find_partial(ps, m[e]) matches Some(j) && ps[j] == (m[e], q)
}

/// Restoring recorded bots under construction whose entities all map to distinct live ones
/// updates those in place: each ends up holding its recorded state, and nothing is added.
proof fn lemma_restore_partials_present(s: RestoredPartials, items: Seq<(EntityId, PartiallyBuiltBot)>)
    requires
        forall|k: int|
            0 <= k < items.len() ==> s.2.contains_key((#[trigger] items[k]).0) && spec_find_partial(
                s.0,
                s.2[items[k].0],
            ) is Some,
        forall|j: int, k: int|
            0 <= j < k < items.len() ==> s.2[(#[trigger] items[j]).0] != s.2[(#[trigger] items[k]).0],
    ensures
        ({
            let r = restore_partials(s, items);
            &&& r.0.len() == s.0.len()
            &&& forall|i: int| 0 <= i < s.0.len() ==> (#[trigger] r.0[i]).0 == s.0[i].0
            &&& r.1 == s.1
            &&& r.2 == s.2
            &&& forall|k: int|
                0 <= k < items.len() ==> partial_restored_to(r.0, s.2, (#[trigger] items[k]).0, items[k].1)
        }),
    decreases items.len(),
{
    if items.len() > 0 {
        let pre = items.drop_last();
        assert forall|k: int| 0 <= k < pre.len() implies s.2.contains_key((#[trigger] pre[k]).0)
            && spec_find_partial(s.0, s.2[pre[k].0]) is Some by {
            assert(pre[k] == items[k]);
        }
        assert forall|j: int, k: int| 0 <= j < k < pre.len() implies s.2[(#[trigger] pre[j]).0] != s.2[(
        #[trigger] pre[k]).0] by {
            assert(pre[j] == items[j] && pre[k] == items[k]);
        }
        lemma_restore_partials_present(s, pre);
        let p = restore_partials(s, pre);
        let n = items.len() - 1;
        let last = items[n];
        let live = s.2[last.0];
        lemma_same_entities_find(p.0, s.0, live);
        lemma_find_partial(p.0, live);
        let i = spec_find_partial(p.0, live)->0;
        let r = restore_partials(s, items);
        assert(r == restore_partial(p, last.0, last.1));
        assert forall|k: int| 0 <= k < items.len() implies partial_restored_to(
            r.0,
            s.2,
            (#[trigger] items[k]).0,
            items[k].1,
        ) by {
            if k < n {
                assert(pre[k] == items[k]);
                assert(partial_restored_to(p.0, s.2, pre[k].0, pre[k].1));
                let lk = s.2[items[k].0];
                lemma_same_entities_find(r.0, p.0, lk);
                lemma_find_partial(p.0, lk);
                let jk = spec_find_partial(p.0, lk)->0;
                assert(lk != live);
                assert(jk != i);
                assert(r.0[jk] == p.0[jk]);
            } else {
                lemma_same_entities_find(r.0, p.0, live);
            }
        }
    }
}

/// Which bot under construction has a given entity depends on the entities alone.
proof fn lemma_same_entities_find(
    a: Seq<(EntityId, PartiallyBuiltBot)>,
    b: Seq<(EntityId, PartiallyBuiltBot)>,
    e: EntityId,
)
    requires
        a.len() == b.len(),
        forall|i: int| 0 <= i < a.len() ==> #[trigger] a[i].0 == b[i].0,
    ensures
        spec_find_partial(a, e) == spec_find_partial(b, e),
{
    lemma_find_partial(a, e);
    lemma_find_partial(b, e);
    if let Some(i) = spec_find_partial(a, e) {
        assert(b[i].0 == e);
        if let Some(j) = spec_find_partial(b, e) {
            assert(a[j].0 == e);
            if i < j {
                assert(b[i].0 != e);
            } else if j < i {
                assert(a[j].0 != e);
            }
        }
    } else if let Some(j) = spec_find_partial(b, e) {
        assert(a[j].0 == e);
    }
}

/// Putting back a tick recorded from the world `s` also restores its bots under construction:
/// when every recorded bot is still live and the entity map sends the recorded bots under
/// construction to distinct live ones, each of those then holds what `s`'s held.
pub proof fn lemma_replay_partials_roundtrip(live: World, s: World, t: TickData, m: Map<EntityId, EntityId>)
    requires
        records(t, s),
        forall|j: int, k: int|
            0 <= j < k < s.bots@.len() ==> (#[trigger] s.bots@[j]).bot_id != (#[trigger] s.bots@[k]).bot_id,
        forall|k: int|
            0 <= k < s.bots@.len() ==> find_bot_id(live.bots@, (#[trigger] s.bots@[k]).bot_id) is Some,
        forall|k: int|
            0 <= k < s.partially_built@.len() ==> m.contains_key((#[trigger] s.partially_built@[k]).0)
                && spec_find_partial(live.partially_built@, m[s.partially_built@[k].0]) is Some,
        forall|j: int, k: int|
            0 <= j < k < s.partially_built@.len() ==> m[(#[trigger] s.partially_built@[j]).0] != m[(
            #[trigger] s.partially_built@[k]).0],
    ensures
        ({
            let (b, p) = restored_world(live, t, m);
            &&& p.2 == m
            &&& forall|k: int|
                0 <= k < s.partially_built@.len() ==> partial_restored_to(
                    p.0,
                    m,
                    (#[trigger] s.partially_built@[k]).0,
                    s.partially_built@[k].1,
                )
        }),
{
    let items = t.bot_data@;
    let s0 = (live.bots@, live.next_entity, live.next_bot_id, m);
    assert forall|k: int| 0 <= k < items.len() implies find_bot_id(s0.0, (#[trigger] items[k]).0) is Some by {
        assert(items[k].0 == s.bots@[k].bot_id);
    }
    assert forall|j: int, k: int| 0 <= j < k < items.len() implies (#[trigger] items[j]).0 != (
    #[trigger] items[k]).0 by {
        assert(items[j].0 == s.bots@[j].bot_id && items[k].0 == s.bots@[k].bot_id);
    }
    lemma_restore_bots_present(s0, t.grid_world, items);
    let b = restore_bots(s0, t.grid_world, items);
    let ps = t.partially_built_bots@;
    assert(ps == s.partially_built@);
    lemma_restore_partials_present((live.partially_built@, b.1, b.3), ps);
}


/// Bot `e` holds the recorded state `c`.
pub open spec fn holds(e: BotEntry, c: BotComponents) -> bool {
    e.data == c.bot_data && e.current_action == c.current_action && e.past_actions == c.past_actions
}

/// After restoring over the live bots `s0`, the recorded bot `c` with id `id` is in `r`: in
/// place of the live bot with its id, or among the bots added.
pub open spec fn placed_at(r: Seq<BotEntry>, s0: Seq<BotEntry>, id: u32, c: BotComponents) -> bool {
    match find_bot_id(s0, id) {
        Some(i) => holds(r[i], c),
        None => exists|j: int| s0.len() <= j < r.len() && #[trigger] holds(r[j], c),
    }
}

/// Finding a bot by id in `a` agrees with `b` when `a` starts with the ids of `b` and has no
/// other bot with that id.
proof fn lemma_find_same_on(a: Seq<BotEntry>, b: Seq<BotEntry>, id: u32)
    requires
        b.len() <= a.len(),
        forall|i: int| 0 <= i < b.len() ==> #[trigger] a[i].bot_id == b[i].bot_id,
        forall|i: int| b.len() <= i < a.len() ==> #[trigger] a[i].bot_id != id,
    ensures
        find_bot_id(a, id) == find_bot_id(b, id),
{
    lemma_find_bot_id(a, id);
    lemma_find_bot_id(b, id);
    if let Some(i) = find_bot_id(a, id) {
        assert(i < b.len());
        assert(b[i].bot_id == id);
        if let Some(j) = find_bot_id(b, id) {
            assert(a[j].bot_id == id);
            if i < j {
                assert(b[i].bot_id != id);
            } else if j < i {
                assert(a[j].bot_id != id);
            }
        }
    } else if let Some(j) = find_bot_id(b, id) {
        assert(a[j].bot_id == id);
    }
}

/// Restoring recorded bots with distinct ids below the next free id: every recorded bot ends
/// up in place of the live bot with its id, or as a new bot with a fresh id after the live
/// ones; live bots keep their ids.
proof fn lemma_restore_bots_all(s: Restored, grid: ServerGrid, items: Seq<(u32, BotComponents)>)
    requires
        forall|k: int| 0 <= k < items.len() ==> (#[trigger] items[k]).0 < s.2,
        forall|j: int, k: int|
            0 <= j < k < items.len() ==> (#[trigger] items[j]).0 != (#[trigger] items[k]).0,
        s.2 + items.len() <= u32::MAX,
        s.1 + items.len() <= u64::MAX,
    ensures
        ({
            let r = restore_bots(s, grid, items);
            &&& s.0.len() <= r.0.len() <= s.0.len() + items.len()
            &&& r.2 == s.2 + (r.0.len() - s.0.len())
            &&& r.1 == s.1 + (r.0.len() - s.0.len())
            &&& forall|i: int| 0 <= i < s.0.len() ==> (#[trigger] r.0[i]).bot_id == s.0[i].bot_id
            &&& forall|i: int|
                s.0.len() <= i < r.0.len() ==> (#[trigger] r.0[i]).bot_id == s.2 + (i - s.0.len())
            &&& forall|k: int| 0 <= k < items.len() ==> placed_at(r.0, s.0, (#[trigger] items[k]).0, items[k].1)
        }),
    decreases items.len(),
{
    if items.len() > 0 {
        let n = items.len() - 1;
        let pre = items.drop_last();
        assert forall|k: int| 0 <= k < pre.len() implies (#[trigger] pre[k]).0 < s.2 by {
            assert(pre[k] == items[k]);
        }
        assert forall|j: int, k: int| 0 <= j < k < pre.len() implies (#[trigger] pre[j]).0 != (
        #[trigger] pre[k]).0 by {
            assert(pre[j] == items[j] && pre[k] == items[k]);
        }
        lemma_restore_bots_all(s, grid, pre);
        let p = restore_bots(s, grid, pre);
        let last = items[n];
        assert(items.last() == last);
        assert(last.0 < s.2);
        assert forall|i: int| s.0.len() <= i < p.0.len() implies #[trigger] p.0[i].bot_id != last.0 by {
            assert(p.0[i].bot_id == s.2 + (i - s.0.len()));
        }
        lemma_find_same_on(p.0, s.0, last.0);
        lemma_find_bot_id(s.0, last.0);
        let r = restore_bots(s, grid, items);
        assert(r == restore_bot(p, grid, last.0, last.1));
        match find_bot_id(s.0, last.0) {
            Some(i) => {
                assert(r.0 == p.0.update(
                    i,
                    BotEntry {
                        entity: p.0[i].entity,
                        bot_id: p.0[i].bot_id,
                        data: last.1.bot_data,
                        current_action: last.1.current_action,
                        past_actions: last.1.past_actions,
                    },
                ));
                assert forall|k: int| 0 <= k < items.len() implies placed_at(
                    r.0,
                    s.0,
                    (#[trigger] items[k]).0,
                    items[k].1,
                ) by {
                    if k < n {
                        assert(pre[k] == items[k]);
                        assert(placed_at(p.0, s.0, pre[k].0, pre[k].1));
                        lemma_find_bot_id(s.0, items[k].0);
                        match find_bot_id(s.0, items[k].0) {
                            Some(ik) => {
                                assert(items[k].0 != last.0);
                                assert(ik != i);
                                assert(r.0[ik] == p.0[ik]);
                            },
                            None => {
                                let j = choose|j: int| s.0.len() <= j < p.0.len() && #[trigger] holds(p.0[j], pre[k].1);
                                assert(r.0[j] == p.0[j]);
                                assert(holds(r.0[j], items[k].1));
                            },
                        }
                    }
                }
            },
            None => {
                let fresh = BotEntry {
                    entity: p.1,
                    bot_id: p.2,
                    data: last.1.bot_data,
                    current_action: last.1.current_action,
                    past_actions: last.1.past_actions,
                };
                assert(r.0 == p.0.push(fresh));
                assert forall|k: int| 0 <= k < items.len() implies placed_at(
                    r.0,
                    s.0,
                    (#[trigger] items[k]).0,
                    items[k].1,
                ) by {
                    if k < n {
                        assert(pre[k] == items[k]);
                        assert(placed_at(p.0, s.0, pre[k].0, pre[k].1));
                        lemma_find_bot_id(s.0, items[k].0);
                        match find_bot_id(s.0, items[k].0) {
                            Some(ik) => {
                                assert(r.0[ik] == p.0[ik]);
                            },
                            None => {
                                let j = choose|j: int| s.0.len() <= j < p.0.len() && #[trigger] holds(p.0[j], pre[k].1);
                                assert(r.0[j] == p.0[j]);
                                assert(holds(r.0[j], items[k].1));
                            },
                        }
                    } else {
                        assert(holds(r.0[p.0.len() as int], last.1));
                    }
                }
            },
        }
    }
}

/// Putting back a tick recorded from the world `s` (see `records`) restores every recorded bot:
/// when `s`'s ids are distinct and below the live world's next id, each of `s`'s bots is
/// either the live bot with its id or a new bot added after the live ones, and holds what
/// `s`'s bot held: its state, running action and finished actions.
pub proof fn lemma_replay_restores_every_bot(live: World, s: World, t: TickData, m: Map<EntityId, EntityId>)
    requires
        records(t, s),
        forall|j: int, k: int|
            0 <= j < k < s.bots@.len() ==> (#[trigger] s.bots@[j]).bot_id != (#[trigger] s.bots@[k]).bot_id,
        forall|k: int| 0 <= k < s.bots@.len() ==> (#[trigger] s.bots@[k]).bot_id < live.next_bot_id,
        live.next_bot_id + s.bots@.len() <= u32::MAX,
        live.next_entity + s.bots@.len() <= u64::MAX,
    ensures
        ({
            let (b, p) = restored_world(live, t, m);
            forall|k: int|
                0 <= k < s.bots@.len() ==> {
                    let e = #[trigger] s.bots@[k];
                    match find_bot_id(live.bots@, e.bot_id) {
                        Some(i) => records_bot(
                            (BotComponents {
                                bot_data: b.0[i].data,
                                current_action: b.0[i].current_action,
                                past_actions: b.0[i].past_actions,
                            }),
                            e,
                        ),
                        None => exists|j: int|
                            live.bots@.len() <= j < b.0.len() && #[trigger] records_bot(
                                (BotComponents {
                                    bot_data: b.0[j].data,
                                    current_action: b.0[j].current_action,
                                    past_actions: b.0[j].past_actions,
                                }),
                                e,
                            ),
                    }
                }
        }),
{
    let items = t.bot_data@;
    let s0 = (live.bots@, live.next_entity, live.next_bot_id, m);
    assert forall|k: int| 0 <= k < items.len() implies (#[trigger] items[k]).0 < s0.2 by {
        assert(items[k].0 == s.bots@[k].bot_id);
    }
    assert forall|j: int, k: int| 0 <= j < k < items.len() implies (#[trigger] items[j]).0 != (
    #[trigger] items[k]).0 by {
        assert(items[j].0 == s.bots@[j].bot_id && items[k].0 == s.bots@[k].bot_id);
    }
    lemma_restore_bots_all(s0, t.grid_world, items);
    let b = restore_bots(s0, t.grid_world, items);
    assert forall|k: int| 0 <= k < s.bots@.len() implies {
        let e = #[trigger] s.bots@[k];
        match find_bot_id(live.bots@, e.bot_id) {
            Some(i) => records_bot(
                (BotComponents {
                    bot_data: b.0[i].data,
                    current_action: b.0[i].current_action,
                    past_actions: b.0[i].past_actions,
                }),
                e,
            ),
            None => exists|j: int|
                live.bots@.len() <= j < b.0.len() && #[trigger] records_bot(
                    (BotComponents {
                        bot_data: b.0[j].data,
                        current_action: b.0[j].current_action,
                        past_actions: b.0[j].past_actions,
                    }),
                    e,
                ),
        }
    } by {
        assert(items[k].0 == s.bots@[k].bot_id);
        assert(records_bot(items[k].1, s.bots@[k]));
        assert(placed_at(b.0, live.bots@, items[k].0, items[k].1));
        if find_bot_id(live.bots@, items[k].0) is None {
            let j = choose|j: int| live.bots@.len() <= j < b.0.len() && #[trigger] holds(b.0[j], items[k].1);
            assert(records_bot(
                BotComponents {
                    bot_data: b.0[j].data,
                    current_action: b.0[j].current_action,
                    past_actions: b.0[j].past_actions,
                },
                s.bots@[k],
            ));
        }
    }
}

/// The index of the first bot with id `id`.
fn find_bot_id_index(bots: &Vec<BotEntry>, id: u32) -> (r: Option<usize>)
    ensures
        r matches Some(i) ==> find_bot_id(bots@, id) == Some(i as int),
        r is None ==> find_bot_id(bots@, id) is None,
{
    proof {
        lemma_find_bot_id(bots@, id);
    }
    let mut i: usize = 0;
    while i < bots.len()
        invariant
            i <= bots@.len(),
            forall|j: int| 0 <= j < i ==> bots@[j].bot_id != id,
            find_bot_id(bots@, id) matches Some(k) ==> 0 <= k < bots@.len() && bots@[k].bot_id == id
                && forall|j: int| 0 <= j < k ==> bots@[j].bot_id != id,
            find_bot_id(bots@, id) is None ==> forall|j: int|
                0 <= j < bots@.len() ==> bots@[j].bot_id != id,
        decreases bots@.len() - i,
    {
        if bots[i].bot_id == id {
            proof {
                if let Some(k) = find_bot_id(bots@, id) {
                    if k < i {
                    } else if k > i {
                    }
                }
            }
            return Some(i);
        }
        i = i + 1;
    }
    None
}

/// Puts the recorded tick `tick_data` back into the world: each recorded bot updates the live
/// bot with its id or becomes a new bot, each recorded bot under construction updates the live
/// one its entity maps to or becomes a new one, and the grid becomes the recorded grid with
/// every recorded entity replaced by its live one. Without a recorded tick nothing changes.
pub fn restore_replay_at_tick(
    world: &mut World,
    tick_data: Option<TickData>,
    replay_entity_to_live_entity: &mut HashMap<EntityId, EntityId>,
)
    requires
        tick_data matches Some(t) ==> restorable(*old(world), t, old(replay_entity_to_live_entity)@),
    ensures
        match tick_data {
            None => *final(world) == *old(world) && final(replay_entity_to_live_entity)@ == old(
                replay_entity_to_live_entity,
            )@,
            Some(t) => {
                let (b, p) = restored_world(*old(world), t, old(replay_entity_to_live_entity)@);
                &&& final(world).tick == old(world).tick
                &&& final(world).bots@ == b.0
                &&& final(world).next_bot_id == b.2
                &&& final(world).partially_built@ == p.0
                &&& final(world).next_entity == p.1
                &&& final(replay_entity_to_live_entity)@ == p.2
                &&& final(world).grid.spec_width() == t.grid_world.spec_width()
                &&& final(world).grid.spec_height() == t.grid_world.spec_height()
                &&& forall|x: int, y: int|
                    #![trigger final(world).grid.spec_cell(x, y)]
                    t.grid_world.spec_in_bounds(x, y) ==> final(world).grid.spec_cell(x, y)
                        == remapped(t.grid_world.spec_cell(x, y), p.2)
            },
        },
{
    let tick = match tick_data {
        Some(t) => t,
        None => {
            return;
        },
    };
    let ghost w0 = *world;
    let ghost m0 = replay_entity_to_live_entity@;
    let ghost t0 = tick;
    let TickData { tick: _, bot_data, grid_world, partially_built_bots } = tick;
    let ghost items = bot_data@;
    let mut rest = bot_data;
    let total = rest.len();
    let mut k: usize = 0;
    let ghost s0: Restored = (w0.bots@, w0.next_entity, w0.next_bot_id, m0);
    proof {
        assert(items.take(0) =~= Seq::<(u32, BotComponents)>::empty());
    }
    while rest.len() > 0
        invariant
            k <= items.len(),
            items.len() == total,
            rest@ == items.subrange(k as int, items.len() as int),
            bots_restorable(s0, grid_world, items),
            world.tick == w0.tick,
            world.partially_built == w0.partially_built,
            (world.bots@, world.next_entity, world.next_bot_id, replay_entity_to_live_entity@)
                == restore_bots(s0, grid_world, items.take(k as int)),
        decreases rest@.len(),
    {
        let (bot_id, comps) = rest.remove(0);
        proof {
            assert(items[k as int] == (bot_id, comps));
            lemma_bots_restorable_prefix(s0, grid_world, items, k as int + 1);
            assert(items.take(k as int + 1).drop_last() =~= items.take(k as int));
            assert(items.take(k as int + 1).last() == (bot_id, comps));
            lemma_find_bot_id(world.bots@, bot_id);
        }
        let cell = grid_world.get(comps.bot_data.pos);
        let replay_entity = match cell.pawn {
            Some(e) => e,
            None => 0,
        };
        let BotComponents { bot_data: data, current_action, past_actions } = comps;
        match find_bot_id_index(&world.bots, bot_id) {
            Some(i) => {
                let entity = world.bots[i].entity;
                let id = world.bots[i].bot_id;
                world.bots.set(
                    i,
                    BotEntry { entity, bot_id: id, data, current_action, past_actions },
                );
            },
            None => {
                let entity = world.next_entity;
                let id = world.next_bot_id;
                world.bots.push(BotEntry { entity, bot_id: id, data, current_action, past_actions });
                world.next_entity = world.next_entity + 1;
                world.next_bot_id = world.next_bot_id + 1;
                replay_entity_to_live_entity.insert(replay_entity, entity);
            },
        }
        proof {
            assert(rest@ =~= items.subrange(k as int + 1, items.len() as int));
        }
        k = k + 1;
    }
    proof {
        assert(items.take(items.len() as int) =~= items);
    }
    let ghost b = restore_bots(s0, grid_world, items);
    let ghost pitems = partially_built_bots@;
    let ghost ps0: RestoredPartials = (w0.partially_built@, b.1, b.3);
    let mut prest = partially_built_bots;
    let ptotal = prest.len();
    let mut j: usize = 0;
    proof {
        assert(pitems.take(0) =~= Seq::<(EntityId, PartiallyBuiltBot)>::empty());
    }
    while prest.len() > 0
        invariant
            j <= pitems.len(),
            pitems.len() == ptotal,
            prest@ == pitems.subrange(j as int, pitems.len() as int),
            partials_restorable(ps0, pitems),
            world.tick == w0.tick,
            world.bots@ == b.0,
            world.next_bot_id == b.2,
            (world.partially_built@, world.next_entity, replay_entity_to_live_entity@)
                == restore_partials(ps0, pitems.take(j as int)),
        decreases prest@.len(),
    {
        let (replay_entity, partial) = prest.remove(0);
        proof {
            assert(pitems[j as int] == (replay_entity, partial));
            lemma_partials_restorable_prefix(ps0, pitems, j as int + 1);
            assert(pitems.take(j as int + 1).drop_last() =~= pitems.take(j as int));
            assert(pitems.take(j as int + 1).last() == (replay_entity, partial));
        }
        match replay_entity_to_live_entity.get(&replay_entity) {
            Some(live) => {
                let live = *live;
                let idx = match find_partial(&world.partially_built, live) {
                    Some(i) => i,
                    None => 0,
                };
                proof {
                    lemma_find_partial(world.partially_built@, live);
                }
                world.partially_built.set(idx, (live, partial));
            },
            None => {
                let entity = world.next_entity;
                world.partially_built.push((entity, partial));
                world.next_entity = world.next_entity + 1;
                replay_entity_to_live_entity.insert(replay_entity, entity);
            },
        }
        proof {
            assert(prest@ =~= pitems.subrange(j as int + 1, pitems.len() as int));
        }
        j = j + 1;
    }
    proof {
        assert(pitems.take(pitems.len() as int) =~= pitems);
    }
    let ghost m = replay_entity_to_live_entity@;
    let mut grid = grid_world;
    let ghost g0 = grid;
    let w = grid.width();
    let h = grid.height();
    let mut x: usize = 0;
    while x < w
        invariant
            x <= w,
            w == g0.spec_width(),
            h == g0.spec_height(),
            grid.spec_width() == w,
            grid.spec_height() == h,
            m == replay_entity_to_live_entity@,
            grid_mapped(g0, m),
            forall|a: int, b: int|
                #![trigger grid.spec_cell(a, b)]
                0 <= a < w && 0 <= b < h ==> grid.spec_cell(a, b) == (if a < x {
                    remapped(g0.spec_cell(a, b), m)
                } else {
                    g0.spec_cell(a, b)
                }),
        decreases w - x,
    {
        let mut y: usize = 0;
        while y < h
            invariant
                x < w,
                y <= h,
                w == g0.spec_width(),
                h == g0.spec_height(),
                grid.spec_width() == w,
                grid.spec_height() == h,
                m == replay_entity_to_live_entity@,
                grid_mapped(g0, m),
                forall|a: int, b: int|
                    #![trigger grid.spec_cell(a, b)]
                    0 <= a < w && 0 <= b < h ==> grid.spec_cell(a, b) == (if a < x || (a == x && b
                        < y) {
                        remapped(g0.spec_cell(a, b), m)
                    } else {
                        g0.spec_cell(a, b)
                    }),
            decreases h - y,
        {
            let c = *grid.get_tuple(x, y);
            proof {
                assert(c == g0.spec_cell(x as int, y as int));
            }
            let pawn = match c.pawn {
                Some(e) => match replay_entity_to_live_entity.get(&e) {
                    Some(l) => Some(*l),
                    None => None,
                },
                None => None,
            };
            let partial = match c.partially_built_bot {
                Some(e) => match replay_entity_to_live_entity.get(&e) {
                    Some(l) => Some(*l),
                    None => None,
                },
                None => None,
            };
            grid.set_tuple(x, y, CellState { pawn, partially_built_bot: partial, ..c });
            y = y + 1;
        }
        x = x + 1;
    }
    world.grid = grid;
}

} // verus!
