//! One tick of the server's simulation: checking and carrying out the bots' actions, the
//! world's own effects, and what each bot sees.
use vstd::prelude::*;

use crate::bot::{
    same_action, same_data, same_status, spec_energy_per_tick, spec_max_energy, Action,
    ActionResult, ActionStatus, ActionWithId, BotData, BotUpdate, Subsystem,
};
use crate::game::{
    action_applied, apply_action_inner, can_apply, find_bot, is_action_invalid, lemma_find_bot,
    lemma_find_partial, spec_action_error,
    spec_applicable, spec_checkable, ActionContainer, ActionState, BotEntry, EntityId,
    CellState, PartiallyBuiltBot, ServerGrid, TickEffects,
};
use crate::types::{spec_step, Energy, Item, Pos, Team};

verus! {

/// The whole server state.
pub struct World {
    pub tick: u32,
    pub grid: ServerGrid,
    pub bots: Vec<BotEntry>,
    /// Bots under construction, by entity.
    pub partially_built: Vec<(EntityId, PartiallyBuiltBot)>,
    /// The entity the next new thing in the world gets.
    pub next_entity: EntityId,
    /// The id the next new bot gets.
    pub next_bot_id: u32,
}

/// Why the pending action of `e` cannot be carried out, if it has one and it cannot.
pub open spec fn entry_error(
    e: BotEntry,
    grid: ServerGrid,
    bots: Seq<BotEntry>,
    partials: Seq<(EntityId, PartiallyBuiltBot)>,
) -> Option<Seq<char>> {
    match e.current_action {
        Some(c) => spec_action_error(c.kind, c.state, grid, e.data, bots, partials),
        None => None,
    }
}

/// The pending action of `e` can be checked: what the check reads is there.
pub open spec fn entry_checkable(e: BotEntry, grid: ServerGrid, bots: Seq<BotEntry>) -> bool {
    e.current_action matches Some(c) ==> spec_checkable(c.kind, c.state, grid, e.data, bots)
}

/// `new` is `old` with its pending action `c` finished with `status` at `tick`.
pub open spec fn finished_with(
    new: BotEntry,
    old: BotEntry,
    c: ActionContainer,
    tick: u32,
    status: spec_fn(ActionStatus) -> bool,
) -> bool {
    &&& new.current_action is None
    &&& new.past_actions@.len() == old.past_actions@.len() + 1
    &&& new.past_actions@.take(old.past_actions@.len() as int) == old.past_actions@
    &&& {
        let res = new.past_actions@.last();
        &&& res.action == c.kind
        &&& res.id == c.id
        &&& status(res.status)
        &&& res.reason@ == c.reason@
        &&& res.completed_tick == tick
    }
}

/// `new` is `old` after its pending action was checked: dropped as failed with the reason
/// when it cannot be carried out, else kept.
pub open spec fn validated(new: BotEntry, old: BotEntry, err: Option<Seq<char>>, tick: u32) -> bool {
    &&& new.entity == old.entity
    &&& new.bot_id == old.bot_id
    &&& new.data == old.data
    &&& match (old.current_action, err) {
        (Some(c), Some(m)) => finished_with(
            new,
            old,
            c,
            tick,
            |s: ActionStatus| s matches ActionStatus::Failure(f) && f@ == m,
        ),
        _ => new.current_action == old.current_action && new.past_actions == old.past_actions,
    }
}

fn status_failure(m: String) -> (r: ActionStatus)
    ensures
        r matches ActionStatus::Failure(f) && f@ == m@,
{
    ActionStatus::Failure(m)
}

/// Moves the pending action of `e` to its past actions with `status`.
fn finish_action(e: &mut BotEntry, status: ActionStatus, tick: u32)
    requires
        old(e).current_action is Some,
    ensures
        final(e).entity == old(e).entity,
        final(e).bot_id == old(e).bot_id,
        final(e).data == old(e).data,
        finished_with(*final(e), *old(e), old(e).current_action->0, tick, |s: ActionStatus| s == status),
{
    let c = e.current_action.take().unwrap();
    let ActionContainer { kind, id, reason, .. } = c;
    e.past_actions.push(ActionResult { action: kind, id, status, reason, completed_tick: tick });
    proof {
        assert(e.past_actions@.take(old(e).past_actions@.len() as int) =~= old(e).past_actions@);
    }
}

/// `x0` with the energy cost of its pending action `c` paid.
pub open spec fn paid_data(x0: BotEntry, c: ActionContainer) -> BotData {
    BotData { energy: Energy((x0.data.energy.0 - spec_energy_per_tick(c.kind)) as u32), ..x0.data }
}

/// One tick of the pending action of a bot, from entry `x0` to `x1`, with the grid `g`, the
/// bots under construction `p`, the tick's pending effects `e` and the next free entity `n`
/// before (`0`) and after (`1`). The cost is paid first; an action that the state no longer
/// allows fails.
pub open spec fn entry_stepped(
    x1: BotEntry,
    x0: BotEntry,
    g1: ServerGrid,
    g0: ServerGrid,
    p1: Seq<(EntityId, PartiallyBuiltBot)>,
    p0: Seq<(EntityId, PartiallyBuiltBot)>,
    e1: TickEffects,
    e0: TickEffects,
    n1: EntityId,
    n0: EntityId,
    tick: u32,
) -> bool {
    match x0.current_action {
        None => x1 == x0 && g1 == g0 && p1 == p0 && e1 == e0 && n1 == n0,
        Some(c) => {
            let paid = paid_data(x0, c);
            &&& x1.entity == x0.entity
            &&& x1.bot_id == x0.bot_id
            &&& if spec_applicable(c.kind, c.state, paid, g0, p0) {
                exists|s1: ActionState, r: Option<ActionStatus>|
                    #[trigger] action_applied(
                        x0.entity,
                        c.kind,
                        c.state,
                        s1,
                        paid,
                        x1.data,
                        g0,
                        g1,
                        p0,
                        p1,
                        e0,
                        e1,
                        n0,
                        n1,
                        r,
                    ) && match r {
                        None => x1.current_action == Some(ActionContainer { state: s1, ..c })
                            && x1.past_actions == x0.past_actions,
                        Some(st) => finished_with(x1, x0, c, tick, |s: ActionStatus| s == st),
                    }
            } else {
                &&& x1.data == paid
                &&& g1 == g0
                &&& p1 == p0
                &&& e1 == e0
                &&& n1 == n0
                &&& finished_with(
                    x1,
                    x0,
                    c,
                    tick,
                    |s: ActionStatus| s matches ActionStatus::Failure(m) && m@ == "Action could not be applied"@,
                )
            }
        },
    }
}


/// Carries out one tick of the pending action of `entry`, if it has one.
fn step_entry(
    entry: &mut BotEntry,
    grid: &mut ServerGrid,
    partials: &mut Vec<(EntityId, PartiallyBuiltBot)>,
    effects: &mut TickEffects,
    next_entity: &mut EntityId,
    tick: u32,
)
    requires
        old(entry).current_action matches Some(c) ==> old(entry).data.energy.0
            >= spec_energy_per_tick(c.kind),
        *old(next_entity) < u64::MAX,
    ensures
        entry_stepped(
            *final(entry),
            *old(entry),
            *final(grid),
            *old(grid),
            final(partials)@,
            old(partials)@,
            *final(effects),
            *old(effects),
            *final(next_entity),
            *old(next_entity),
            tick,
        ),
{
    let ghost x0 = *entry;
    let mut c = match entry.current_action.take() {
        Some(c) => c,
        None => {
            return ;
        },
    };
    let cost = c.kind.energy_per_tick();
    entry.data.energy = Energy(entry.data.energy.0 - cost.0);
    let ghost paid = entry.data;
    assert(paid == paid_data(x0, c));
    if can_apply(&c.kind, &c.state, &entry.data, grid, partials) {
        let ghost s0 = c.state;
        let status = apply_action_inner(
            entry.entity,
            &c.kind,
            &mut c.state,
            &mut entry.data,
            grid,
            partials,
            effects,
            next_entity,
        );
        match status {
            None => {
                entry.current_action = Some(c);
            },
            Some(st) => {
                let ghost st0 = st;
                entry.current_action = Some(c);
                finish_action(entry, st, tick);
                assert(finished_with(*entry, x0, x0.current_action->0, tick, |s: ActionStatus| s == st0));
            },
        }
    } else {
        entry.current_action = Some(c);
        finish_action(entry, status_failure(String::from_str("Action could not be applied")), tick);
    }
}

/// How many of the transfers `ts` hand `item` to entity `e`.
pub open spec fn transfers_in(ts: Seq<(EntityId, Item)>, e: EntityId, item: Item) -> nat
    decreases ts.len(),
{
    if ts.len() == 0 {
        0
    } else {
        transfers_in(ts.drop_last(), e, item) + (if ts.last() == (e, item) {
            1nat
        } else {
            0nat
        })
    }
}

/// The energy the recharges `rs` draw from entity `e`.
pub open spec fn drawn_from(rs: Seq<(EntityId, Energy)>, e: EntityId) -> nat
    decreases rs.len(),
{
    if rs.len() == 0 {
        0
    } else {
        drawn_from(rs.drop_last(), e) + (if rs.last().0 == e {
            rs.last().1.0 as nat
        } else {
            0nat
        })
    }
}

/// `v`, or `u32::MAX` when it is more.
pub open spec fn cap_u32(v: int) -> u32 {
    if v <= u32::MAX {
        v as u32
    } else {
        u32::MAX
    }
}

/// `v`, or zero when it is negative.
pub open spec fn floor_zero(v: int) -> u32 {
    if v >= 0 {
        v as u32
    } else {
        0
    }
}

/// No bot before `j` is the same entity as bot `j`.
pub open spec fn first_of(bots: Seq<BotEntry>, j: int) -> bool {
    forall|k: int| 0 <= k < j ==> #[trigger] bots[k].entity != bots[j].entity
}

/// The same bot, with only its data changed.
pub open spec fn same_bot(new: BotEntry, old: BotEntry) -> bool {
    &&& new.entity == old.entity
    &&& new.bot_id == old.bot_id
    &&& new.current_action == old.current_action
    &&& new.past_actions == old.past_actions
}

/// `new` is `old` after the transfers `ts` were handed out: the first bot of each entity
/// receives what is sent to that entity, each count stopping at `u32::MAX`.
pub open spec fn received(new: Seq<BotEntry>, old: Seq<BotEntry>, ts: Seq<(EntityId, Item)>) -> bool {
    &&& new.len() == old.len()
    &&& forall|j: int|
        0 <= j < old.len() ==> {
            let n = #[trigger] new[j];
            let o = old[j];
            &&& same_bot(n, o)
            &&& n.data == BotData { inventory: n.data.inventory, ..o.data }
            &&& n.data.inventory.spec_capacity() == o.data.inventory.spec_capacity()
            &&& forall|it: Item|
                #[trigger] n.data.inventory.count(it) == if first_of(old, j) {
                    cap_u32(o.data.inventory.count(it) + transfers_in(ts, o.entity, it))
                } else {
                    o.data.inventory.count(it)
                }
        }
}

/// `new` is `old` after the recharges `rs` drew energy: the first bot of each entity loses
/// what is drawn from that entity, down to zero.
pub open spec fn drained(new: Seq<BotEntry>, old: Seq<BotEntry>, rs: Seq<(EntityId, Energy)>) -> bool {
    &&& new.len() == old.len()
    &&& forall|j: int|
        0 <= j < old.len() ==> {
            let n = #[trigger] new[j];
            let o = old[j];
            &&& same_bot(n, o)
            &&& n.data == BotData {
                energy: if first_of(old, j) {
                    Energy(floor_zero(o.data.energy.0 - drawn_from(rs, o.entity)))
                } else {
                    o.data.energy
                },
                ..o.data
            }
        }
}

fn give_item(e: &mut BotEntry, item: Item)
    ensures
        same_bot(*final(e), *old(e)),
        final(e).data == (BotData { inventory: final(e).data.inventory, ..old(e).data }),
        final(e).data.inventory.spec_capacity() == old(e).data.inventory.spec_capacity(),
        forall|it: Item|
            #[trigger] final(e).data.inventory.count(it) == (if it == item {
                cap_u32(old(e).data.inventory.count(it) + 1)
            } else {
                old(e).data.inventory.count(it)
            }),
{
    let ghost inv0 = e.data.inventory;
    e.data.inventory.add(item, 1);
    proof {
        inv0.lemma_len();
        assert forall|it: Item|
            #[trigger] e.data.inventory.count(it) == (if it == item {
                cap_u32(inv0.count(it) + 1)
            } else {
                inv0.count(it)
            }) by {
            if it != item {
                assert(crate::bot::item_index(it) != crate::bot::item_index(item));
            }
        }
    }
}

fn draw_energy(e: &mut BotEntry, amount: Energy)
    ensures
        same_bot(*final(e), *old(e)),
        final(e).data == (BotData {
            energy: Energy(floor_zero(old(e).data.energy.0 - amount.0)),
            ..old(e).data
        }),
{
    e.data.energy = Energy(e.data.energy.0.saturating_sub(amount.0));
}

/// Hands each transfer's item to the first bot that is its target entity; a transfer to an
/// entity that is no bot is dropped.
fn hand_out(bots: &mut Vec<BotEntry>, ts: &Vec<(EntityId, Item)>)
    ensures
        received(final(bots)@, old(bots)@, ts@),
{
    let ghost b0 = bots@;
    let mut k: usize = 0;
    proof {
        assert(ts@.take(0) =~= Seq::<(EntityId, Item)>::empty());
    }
    while k < ts.len()
        invariant
            k <= ts@.len(),
            received(bots@, b0, ts@.take(k as int)),
        decreases ts@.len() - k,
    {
        let (target, item) = ts[k];
        let ghost bk = bots@;
        proof {
            assert(ts@.take(k as int + 1).drop_last() =~= ts@.take(k as int));
            assert(ts@.take(k as int + 1).last() == ts@[k as int]);
        }
        match find_bot(bots, target) {
            Some(j) => {
                proof {
                    lemma_find_bot(bots@, target);
                }
                give_item(&mut bots[j], item);
                proof {
                    assert forall|i: int| 0 <= i < b0.len() implies {
                        let n = #[trigger] bots@[i];
                        let o = b0[i];
                        &&& same_bot(n, o)
                        &&& n.data == BotData { inventory: n.data.inventory, ..o.data }
                        &&& n.data.inventory.spec_capacity() == o.data.inventory.spec_capacity()
                        &&& forall|it: Item|
                            #[trigger] n.data.inventory.count(it) == if first_of(b0, i) {
                                cap_u32(
                                    o.data.inventory.count(it) + transfers_in(
                                        ts@.take(k as int + 1),
                                        o.entity,
                                        it,
                                    ),
                                )
                            } else {
                                o.data.inventory.count(it)
                            }
                    } by {
                        if i == j as int {
                            assert(first_of(b0, i)) by {
                                assert forall|q: int| 0 <= q < i implies #[trigger] b0[q].entity
                                    != b0[i].entity by {
                                    assert(bk[q].entity == b0[q].entity);
                                }
                            }
                        } else {
                            assert(bots@[i] == bk[i]);
                            if first_of(b0, i) {
                                assert(b0[i].entity != target) by {
                                    if b0[i].entity == target {
                                        if i < j {
                                            assert(bk[i].entity == target);
                                        } else {
                                            assert(b0[j as int].entity == target);
                                        }
                                    }
                                }
                            }
                        }
                    }
                }
            },
            None => {
                proof {
                    lemma_find_bot(bots@, target);
                    assert forall|i: int| 0 <= i < b0.len() implies b0[i].entity != target by {
                        assert(bk[i].entity == b0[i].entity);
                    }
                }
            },
        }
        k = k + 1;
    }
    proof {
        assert(ts@.take(ts@.len() as int) =~= ts@);
    }
}

/// Draws each recharge's energy from the first bot that is its target entity, down to zero;
/// a draw from an entity that is no bot is dropped.
fn drain(bots: &mut Vec<BotEntry>, rs: &Vec<(EntityId, Energy)>)
    ensures
        drained(final(bots)@, old(bots)@, rs@),
{
    let ghost b0 = bots@;
    let mut k: usize = 0;
    proof {
        assert(rs@.take(0) =~= Seq::<(EntityId, Energy)>::empty());
    }
    while k < rs.len()
        invariant
            k <= rs@.len(),
            drained(bots@, b0, rs@.take(k as int)),
        decreases rs@.len() - k,
    {
        let (target, amount) = rs[k];
        let ghost bk = bots@;
        proof {
            assert(rs@.take(k as int + 1).drop_last() =~= rs@.take(k as int));
            assert(rs@.take(k as int + 1).last() == rs@[k as int]);
        }
        match find_bot(bots, target) {
            Some(j) => {
                proof {
                    lemma_find_bot(bots@, target);
                }
                draw_energy(&mut bots[j], amount);
                proof {
                    assert forall|i: int| 0 <= i < b0.len() implies {
                        let n = #[trigger] bots@[i];
                        let o = b0[i];
                        &&& same_bot(n, o)
                        &&& n.data == BotData {
                            energy: if first_of(b0, i) {
                                Energy(
                                    floor_zero(
                                        o.data.energy.0 - drawn_from(
                                            rs@.take(k as int + 1),
                                            o.entity,
                                        ),
                                    ),
                                )
                            } else {
                                o.data.energy
                            },
                            ..o.data
                        }
                    } by {
                        if i == j as int {
                            assert(first_of(b0, i)) by {
                                assert forall|q: int| 0 <= q < i implies #[trigger] b0[q].entity
                                    != b0[i].entity by {
                                    assert(bk[q].entity == b0[q].entity);
                                }
                            }
                        } else {
                            assert(bots@[i] == bk[i]);
                            if first_of(b0, i) {
                                assert(b0[i].entity != target) by {
                                    if b0[i].entity == target {
                                        if i < j {
                                            assert(bk[i].entity == target);
                                        } else {
                                            assert(b0[j as int].entity == target);
                                        }
                                    }
                                }
                            }
                        }
                    }
                }
            },
            None => {
                proof {
                    lemma_find_bot(bots@, target);
                    assert forall|i: int| 0 <= i < b0.len() implies b0[i].entity != target by {
                        assert(bk[i].entity == b0[i].entity);
                    }
                }
            },
        }
        k = k + 1;
    }
    proof {
        assert(rs@.take(rs@.len() as int) =~= rs@);
    }
}

/// The bots of `new` that are also in `old` got the transfers `ts` and lost the energy the
/// recharges `rs` drew (see `received` and `drained`).
pub open spec fn rewarded(
    new: Seq<BotEntry>,
    old: Seq<BotEntry>,
    ts: Seq<(EntityId, Item)>,
    rs: Seq<(EntityId, Energy)>,
) -> bool {
    forall|j: int|
        0 <= j < old.len() ==> {
            let n = #[trigger] new[j];
            let o = old[j];
            &&& same_bot(n, o)
            &&& n.data == BotData {
                inventory: n.data.inventory,
                energy: if first_of(old, j) {
                    Energy(floor_zero(o.data.energy.0 - drawn_from(rs, o.entity)))
                } else {
                    o.data.energy
                },
                ..o.data
            }
            &&& n.data.inventory.spec_capacity() == o.data.inventory.spec_capacity()
            &&& forall|it: Item|
                #[trigger] n.data.inventory.count(it) == if first_of(old, j) {
                    cap_u32(o.data.inventory.count(it) + transfers_in(ts, o.entity, it))
                } else {
                    o.data.inventory.count(it)
                }
        }
}

proof fn lemma_rewarded(
    new: Seq<BotEntry>,
    mid: Seq<BotEntry>,
    old: Seq<BotEntry>,
    ts: Seq<(EntityId, Item)>,
    rs: Seq<(EntityId, Energy)>,
)
    requires
        received(mid, old, ts),
        drained(new, mid, rs),
    ensures
        new.len() == old.len(),
        rewarded(new, old, ts, rs),
{
    assert forall|j: int| 0 <= j < old.len() implies first_of(mid, j) == first_of(old, j) by {
        if first_of(old, j) {
            assert forall|k: int| 0 <= k < j implies #[trigger] mid[k].entity != mid[j].entity by {
                assert(same_bot(mid[k], old[k]));
                assert(same_bot(mid[j], old[j]));
                assert(old[k].entity != old[j].entity);
            }
        }
        if first_of(mid, j) {
            assert forall|k: int| 0 <= k < j implies #[trigger] old[k].entity != old[j].entity by {
                assert(same_bot(mid[k], old[k]));
                assert(same_bot(mid[j], old[j]));
                assert(mid[k].entity != mid[j].entity);
            }
        }
    }
    assert forall|j: int| 0 <= j < old.len() implies {
        let n = #[trigger] new[j];
        let o = old[j];
        &&& same_bot(n, o)
        &&& n.data == BotData {
            inventory: n.data.inventory,
            energy: if first_of(old, j) {
                Energy(floor_zero(o.data.energy.0 - drawn_from(rs, o.entity)))
            } else {
                o.data.energy
            },
            ..o.data
        }
        &&& n.data.inventory.spec_capacity() == o.data.inventory.spec_capacity()
        &&& forall|it: Item|
            #[trigger] n.data.inventory.count(it) == if first_of(old, j) {
                cap_u32(o.data.inventory.count(it) + transfers_in(ts, o.entity, it))
            } else {
                o.data.inventory.count(it)
            }
    } by {
        assert(same_bot(mid[j], old[j]));
        assert(same_bot(new[j], mid[j]));
        assert(mid[j].data == BotData { inventory: mid[j].data.inventory, ..old[j].data });
    }
}

/// Whether entity `e` is one of the constructions `done` finished.
pub open spec fn finished(done: Seq<(EntityId, BotData)>, e: EntityId) -> bool {
    exists|k: int| 0 <= k < done.len() && (#[trigger] done[k]).0 == e
}

/// Keeps the bots under construction that `done` did not finish.
pub open spec fn unfinished(done: Seq<(EntityId, BotData)>) -> spec_fn(
    (EntityId, PartiallyBuiltBot),
) -> bool {
    |q: (EntityId, PartiallyBuiltBot)| !finished(done, q.0)
}

fn is_finished(done: &Vec<(EntityId, BotData)>, e: EntityId) -> (r: bool)
    ensures
        r == finished(done@, e),
{
    let mut k: usize = 0;
    while k < done.len()
        invariant
            k <= done@.len(),
            forall|q: int| 0 <= q < k ==> (#[trigger] done@[q]).0 != e,
        decreases done@.len() - k,
    {
        if done[k].0 == e {
            assert(done@[k as int].0 == e);
            return true;
        }
        k = k + 1;
    }
    false
}

/// Appends to `out` the entries of `src` that `done` did not finish, in order.
fn keep_unfinished(
    out: &mut Vec<(EntityId, PartiallyBuiltBot)>,
    src: &Vec<(EntityId, PartiallyBuiltBot)>,
    done: &Vec<(EntityId, BotData)>,
)
    ensures
        final(out)@ == old(out)@ + src@.filter(unfinished(done@)),
{
    let mut k: usize = 0;
    let ghost o = out@;
    proof {
        assert(src@.take(0) =~= Seq::<(EntityId, PartiallyBuiltBot)>::empty());
        reveal(Seq::filter);
        assert(o + src@.take(0).filter(unfinished(done@)) =~= o);
    }
    while k < src.len()
        invariant
            k <= src@.len(),
            out@ == o + src@.take(k as int).filter(unfinished(done@)),
        decreases src@.len() - k,
    {
        let q = src[k];
        proof {
            assert(src@.take(k as int + 1) =~= src@.take(k as int).push(q));
            src@.take(k as int).lemma_filter_push(q, unfinished(done@));
        }
        if !is_finished(done, q.0) {
            out.push(q);
        }
        proof {
            assert(out@ =~= o + src@.take(k as int + 1).filter(unfinished(done@)));
        }
        k = k + 1;
    }
    proof {
        assert(src@.take(src@.len() as int) =~= src@);
    }
}

/// `new` holds `old`'s bots followed by one new bot for each finished construction in `done`,
/// with ids counting up from `next_id`, no action, and no past actions.
pub open spec fn with_built(
    new: Seq<BotEntry>,
    old: Seq<BotEntry>,
    done: Seq<(EntityId, BotData)>,
    next_id: u32,
) -> bool {
    &&& new.len() == old.len() + done.len()
    &&& forall|j: int| 0 <= j < old.len() ==> #[trigger] new[j] == old[j]
    &&& forall|k: int|
        0 <= k < done.len() ==> {
            let b = #[trigger] new[old.len() + k];
            &&& b.entity == done[k].0
            &&& b.bot_id == next_id + k
            &&& b.data == done[k].1
            &&& b.current_action is None
            &&& b.past_actions@.len() == 0
        }
}

/// Adds a bot for each finished construction.
fn add_built(bots: &mut Vec<BotEntry>, done: Vec<(EntityId, BotData)>, next_id: &mut u32)
    requires
        *old(next_id) + done@.len() <= u32::MAX,
    ensures
        with_built(final(bots)@, old(bots)@, done@, *old(next_id)),
        *final(next_id) == *old(next_id) + done@.len(),
{
    let ghost d0 = done@;
    let ghost b0 = bots@;
    let ghost id0 = *next_id;
    let mut done = done;
    let mut k: usize = 0;
    while done.len() > 0
        invariant
            k <= d0.len(),
            done@ == d0.subrange(k as int, d0.len() as int),
            *next_id == id0 + k,
            id0 + d0.len() <= u32::MAX,
            bots@.len() == b0.len() + k,
            forall|j: int| 0 <= j < b0.len() ==> #[trigger] bots@[j] == b0[j],
            forall|q: int|
                0 <= q < k ==> {
                    let b = #[trigger] bots@[b0.len() + q];
                    &&& b.entity == d0[q].0
                    &&& b.bot_id == id0 + q
                    &&& b.data == d0[q].1
                    &&& b.current_action is None
                    &&& b.past_actions@.len() == 0
                },
        decreases done@.len(),
    {
        let (entity, data) = done.remove(0);
        bots.push(
            BotEntry {
                entity,
                bot_id: *next_id,
                data,
                current_action: None,
                past_actions: Vec::new(),
            },
        );
        *next_id = *next_id + 1;
        k = k + 1;
        proof {
            assert(done@ =~= d0.subrange(k as int, d0.len() as int));
        }
    }
}

/// The bots after the tick's effects settled, beyond the `base` ones there were: one for
/// each finished construction in `done`, with ids counting up from `next_id`.
pub open spec fn new_bots(
    bots: Seq<BotEntry>,
    base: int,
    done: Seq<(EntityId, BotData)>,
    next_id: u32,
) -> bool {
    forall|k: int|
        0 <= k < done.len() ==> {
            let b = #[trigger] bots[base + k];
            &&& b.entity == done[k].0
            &&& b.bot_id == next_id + k
            &&& b.data == done[k].1
            &&& b.current_action is None
            &&& b.past_actions@.len() == 0
        }
}

/// `w1` is `w0` once the tick's pending effects `e` took hold: the transfers and recharge
/// draws on the bots, the new bots under construction added and the finished ones turned
/// into bots.
pub open spec fn settled(w1: World, w0: World, e: TickEffects) -> bool {
    &&& w1.tick == w0.tick
    &&& w1.grid == w0.grid
    &&& w1.next_entity == w0.next_entity
    &&& w1.next_bot_id == w0.next_bot_id + e.completed_builds@.len()
    &&& w1.partially_built@ == (w0.partially_built@ + e.spawned_partials@).filter(
        unfinished(e.completed_builds@),
    )
    &&& w1.bots@.len() == w0.bots@.len() + e.completed_builds@.len()
    &&& rewarded(w1.bots@, w0.bots@, e.transfers@, e.recharge_subtractions@)
    &&& new_bots(w1.bots@, w0.bots@.len() as int, e.completed_builds@, w0.next_bot_id)
}

/// The pending action of `e` can pay its cost.
pub open spec fn can_pay(e: BotEntry) -> bool {
    e.current_action matches Some(c) ==> e.data.energy.0 >= spec_energy_per_tick(c.kind)
}

/// No effects yet.
pub open spec fn no_effects(e: TickEffects) -> bool {
    &&& e.transfers@.len() == 0
    &&& e.recharge_subtractions@.len() == 0
    &&& e.spawned_partials@.len() == 0
    &&& e.completed_builds@.len() == 0
}

/// From `w0`/`e0` to `w1`/`e1`, bot `k` took one tick of its pending action and nothing
/// else changed.
pub open spec fn bot_stepped(w1: World, e1: TickEffects, w0: World, e0: TickEffects, k: int) -> bool {
    &&& w1.tick == w0.tick
    &&& w1.next_bot_id == w0.next_bot_id
    &&& w1.bots@.len() == w0.bots@.len()
    &&& forall|j: int| 0 <= j < w0.bots@.len() && j != k ==> #[trigger] w1.bots@[j] == w0.bots@[j]
    &&& entry_stepped(
        w1.bots@[k],
        w0.bots@[k],
        w1.grid,
        w0.grid,
        w1.partially_built@,
        w0.partially_built@,
        e1,
        e0,
        w1.next_entity,
        w0.next_entity,
        w0.tick,
    )
}

/// `ws`/`es` are the states from `w0` with no effects through each bot's step, in order.
pub open spec fn tick_trace(ws: Seq<World>, es: Seq<TickEffects>, w0: World) -> bool {
    &&& ws.len() == w0.bots@.len() + 1
    &&& es.len() == ws.len()
    &&& ws[0] == w0
    &&& no_effects(es[0])
    &&& forall|k: int|
        0 <= k < w0.bots@.len() ==> #[trigger] bot_stepped(ws[k + 1], es[k + 1], ws[k], es[k], k)
}

/// `w1` is `w0` with every pending action checked against `w0` (see `validated`).
pub open spec fn world_validated(w1: World, w0: World) -> bool {
    &&& w1.tick == w0.tick
    &&& w1.grid == w0.grid
    &&& w1.partially_built == w0.partially_built
    &&& w1.next_entity == w0.next_entity
    &&& w1.next_bot_id == w0.next_bot_id
    &&& w1.bots@.len() == w0.bots@.len()
    &&& forall|i: int|
        0 <= i < w0.bots@.len() ==> validated(
            #[trigger] w1.bots@[i],
            w0.bots@[i],
            entry_error(w0.bots@[i], w0.grid, w0.bots@, w0.partially_built@),
            w0.tick,
        )
}

/// After validation every action still pending can be carried out against the state the tick
/// started with, and every dropped one is recorded as failed at that tick.
pub proof fn lemma_validation_leaves_valid(w1: World, w0: World)
    requires
        world_validated(w1, w0),
    ensures
        forall|i: int|
            0 <= i < w1.bots@.len() && (#[trigger] w1.bots@[i]).current_action is Some ==> entry_error(
                w0.bots@[i],
                w0.grid,
                w0.bots@,
                w0.partially_built@,
            ) is None && w1.bots@[i].current_action == w0.bots@[i].current_action,
        forall|i: int|
            0 <= i < w1.bots@.len() && (#[trigger] w1.bots@[i]).current_action is None
                && w0.bots@[i].current_action is Some ==> w1.bots@[i].past_actions@.last().status
                is Failure && w1.bots@[i].past_actions@.last().completed_tick == w0.tick,
{
    assert forall|i: int|
        0 <= i < w1.bots@.len() && (#[trigger] w1.bots@[i]).current_action is Some implies entry_error(
            w0.bots@[i],
            w0.grid,
            w0.bots@,
            w0.partially_built@,
        ) is None && w1.bots@[i].current_action == w0.bots@[i].current_action by {
        assert(validated(
            w1.bots@[i],
            w0.bots@[i],
            entry_error(w0.bots@[i], w0.grid, w0.bots@, w0.partially_built@),
            w0.tick,
        ));
    }
    assert forall|i: int|
        0 <= i < w1.bots@.len() && (#[trigger] w1.bots@[i]).current_action is None
            && w0.bots@[i].current_action is Some implies w1.bots@[i].past_actions@.last().status
        is Failure && w1.bots@[i].past_actions@.last().completed_tick == w0.tick by {
        assert(validated(
            w1.bots@[i],
            w0.bots@[i],
            entry_error(w0.bots@[i], w0.grid, w0.bots@, w0.partially_built@),
            w0.tick,
        ));
    }
}

/// A tick's step of a pending action either leaves it pending, or records how it ended at that
/// tick.
pub proof fn lemma_step_records(
    x1: BotEntry,
    x0: BotEntry,
    g1: ServerGrid,
    g0: ServerGrid,
    p1: Seq<(EntityId, PartiallyBuiltBot)>,
    p0: Seq<(EntityId, PartiallyBuiltBot)>,
    e1: TickEffects,
    e0: TickEffects,
    n1: EntityId,
    n0: EntityId,
    tick: u32,
)
    requires
        entry_stepped(x1, x0, g1, g0, p1, p0, e1, e0, n1, n0, tick),
        x0.current_action is Some,
    ensures
        (x1.current_action matches Some(c) && c.kind == x0.current_action->0.kind && c.id
            == x0.current_action->0.id && x1.past_actions == x0.past_actions) || (
        x1.current_action is None && x1.past_actions@.len() == x0.past_actions@.len() + 1
            && x1.past_actions@.last().completed_tick == tick && x1.past_actions@.last().id
            == x0.current_action->0.id),
{
    let c = x0.current_action->0;
    let paid = paid_data(x0, c);
    if spec_applicable(c.kind, c.state, paid, g0, p0) {
        let (s1, r) = choose|s1: ActionState, r: Option<ActionStatus>|
            #[trigger] action_applied(
                x0.entity,
                c.kind,
                c.state,
                s1,
                paid,
                x1.data,
                g0,
                g1,
                p0,
                p1,
                e0,
                e1,
                n0,
                n1,
                r,
            ) && match r {
                None => x1.current_action == Some(ActionContainer { state: s1, ..c })
                    && x1.past_actions == x0.past_actions,
                Some(st) => finished_with(x1, x0, c, tick, |s: ActionStatus| s == st),
            };
    }
}

/// A bot's generators never take its energy past its maximum, nor below what it had when it
/// was within its maximum.
pub proof fn lemma_generated_bounded(d: BotData)
    requires
        d.energy.0 <= spec_max_energy(d.frame, d.subsystems@),
    ensures
        generated(d).0 <= spec_max_energy(d.frame, d.subsystems@),
        generated(d).0 >= d.energy.0,
{
}

/// Every bot under construction of `ps` stands on `grid`.
pub open spec fn partials_on_grid(ps: Seq<(EntityId, PartiallyBuiltBot)>, grid: ServerGrid) -> bool {
    forall|i: int| 0 <= i < ps.len() ==> grid.spec_contains(#[trigger] ps[i].1.pos)
}

/// Every bot, and every bot under construction, of `w` stands on its grid.
pub open spec fn world_on_grid(w: World) -> bool {
    &&& bots_on_grid(w.bots@, w.grid)
    &&& partials_on_grid(w.partially_built@, w.grid)
}

/// The bots started and finished during a tick stand on `grid`.
pub open spec fn effects_on_grid(e: TickEffects, grid: ServerGrid) -> bool {
    &&& partials_on_grid(e.spawned_partials@, grid)
    &&& forall|k: int|
        0 <= k < e.completed_builds@.len() ==> grid.spec_contains(#[trigger] e.completed_builds@[k].1.pos)
}

/// One bot's step keeps the grid's size, the bot on it, and every bot under construction on it.
proof fn lemma_step_on_grid(
    x1: BotEntry,
    x0: BotEntry,
    g1: ServerGrid,
    g0: ServerGrid,
    p1: Seq<(EntityId, PartiallyBuiltBot)>,
    p0: Seq<(EntityId, PartiallyBuiltBot)>,
    e1: TickEffects,
    e0: TickEffects,
    n1: EntityId,
    n0: EntityId,
    tick: u32,
)
    requires
        entry_stepped(x1, x0, g1, g0, p1, p0, e1, e0, n1, n0, tick),
        g0.spec_contains(x0.data.pos),
        partials_on_grid(p0, g0),
        effects_on_grid(e0, g0),
    ensures
        g1.spec_width() == g0.spec_width(),
        g1.spec_height() == g0.spec_height(),
        g1.spec_contains(x1.data.pos),
        partials_on_grid(p1, g1),
        effects_on_grid(e1, g1),
{
    if let Some(c) = x0.current_action {
        let paid = paid_data(x0, c);
        if spec_applicable(c.kind, c.state, paid, g0, p0) {
            let (s1, r) = choose|s1: ActionState, r: Option<ActionStatus>|
                #[trigger] action_applied(
                    x0.entity,
                    c.kind,
                    c.state,
                    s1,
                    paid,
                    x1.data,
                    g0,
                    g1,
                    p0,
                    p1,
                    e0,
                    e1,
                    n0,
                    n1,
                    r,
                ) && match r {
                    None => x1.current_action == Some(ActionContainer { state: s1, ..c })
                        && x1.past_actions == x0.past_actions,
                    Some(st) => finished_with(x1, x0, c, tick, |s: ActionStatus| s == st),
                };
            let nb = e0.completed_builds@.len() as int;
            assert forall|k: int| 0 <= k < nb implies e1.completed_builds@[k] == e0.completed_builds@[k] by {
                assert(e1.completed_builds@.subrange(0, nb)[k] == e1.completed_builds@[k]);
            }
            let ns = e0.spawned_partials@.len() as int;
            assert forall|k: int| 0 <= k < ns implies e1.spawned_partials@[k] == e0.spawned_partials@[k] by {
                assert(e1.spawned_partials@.subrange(0, ns)[k] == e1.spawned_partials@[k]);
            }
            if let Action::Build(dir, frame, subsystems) = c.kind {
                let t = spec_step(paid.pos, dir)->0;
                if let Some(e) = g0.spec_at(t).partially_built_bot {
                    lemma_find_partial(p0, e);
                }
            }
        }
    }
}

/// Along the steps of a tick, the grid keeps its size and every bot, every bot under
/// construction and every bot started or finished stays on it.
proof fn lemma_trace_on_grid(ws: Seq<World>, es: Seq<TickEffects>, w0: World, k: int)
    requires
        tick_trace(ws, es, w0),
        world_on_grid(w0),
        0 <= k < ws.len(),
    ensures
        ws[k].grid.spec_width() == w0.grid.spec_width(),
        ws[k].grid.spec_height() == w0.grid.spec_height(),
        ws[k].bots@.len() == w0.bots@.len(),
        world_on_grid(ws[k]),
        effects_on_grid(es[k], ws[k].grid),
    decreases k,
{
    if k > 0 {
        lemma_trace_on_grid(ws, es, w0, k - 1);
        let i = k - 1;
        assert(bot_stepped(ws[i + 1], es[i + 1], ws[i], es[i], i));
        let a = ws[i];
        let b = ws[k];
        lemma_step_on_grid(
            b.bots@[k - 1],
            a.bots@[k - 1],
            b.grid,
            a.grid,
            b.partially_built@,
            a.partially_built@,
            es[k],
            es[k - 1],
            b.next_entity,
            a.next_entity,
            a.tick,
        );
        assert forall|j: int| 0 <= j < b.bots@.len() implies b.grid.spec_contains(#[trigger] b.bots@[j].data.pos) by {
            if j != k - 1 {
                assert(b.bots@[j] == a.bots@[j]);
            }
        }
    }
}

/// Letting a tick's effects take hold keeps every bot, and every bot under construction, on
/// the grid.
proof fn lemma_settled_on_grid(w1: World, w0: World, e: TickEffects)
    requires
        settled(w1, w0, e),
        world_on_grid(w0),
        effects_on_grid(e, w0.grid),
    ensures
        world_on_grid(w1),
{
    let n = w0.bots@.len() as int;
    assert forall|j: int| 0 <= j < w1.bots@.len() implies w1.grid.spec_contains(#[trigger] w1.bots@[j].data.pos) by {
        if j < n {
            assert(w1.bots@[j].data.pos == w0.bots@[j].data.pos);
        } else {
            assert(w1.bots@[n + (j - n)].data == e.completed_builds@[j - n].1);
        }
    }
    let all = w0.partially_built@ + e.spawned_partials@;
    let f = unfinished(e.completed_builds@);
    assert forall|i: int| 0 <= i < w1.partially_built@.len() implies w1.grid.spec_contains(
        #[trigger] w1.partially_built@[i].1.pos,
    ) by {
        let x = w1.partially_built@[i];
        assert(all.filter(f).contains(x));
        all.lemma_filter_contains_rev(f, x);
        let m = choose|m: int| 0 <= m < all.len() && all[m] == x;
        if m < w0.partially_built@.len() {
            assert(all[m] == w0.partially_built@[m]);
        } else {
            assert(all[m] == e.spawned_partials@[m - w0.partially_built@.len()]);
        }
    }
}

impl World {
    /// Lets the tick's effects take hold.
    fn settle(&mut self, effects: TickEffects)
        requires
            old(self).next_bot_id + effects.completed_builds@.len() <= u32::MAX,
        ensures
            settled(*final(self), *old(self), effects),
    {
        let ghost e0 = effects;
        let TickEffects { transfers, recharge_subtractions, spawned_partials, completed_builds } =
            effects;
        let ghost b0 = self.bots@;
        hand_out(&mut self.bots, &transfers);
        let ghost mid = self.bots@;
        drain(&mut self.bots, &recharge_subtractions);
        proof {
            lemma_rewarded(self.bots@, mid, b0, transfers@, recharge_subtractions@);
        }
        let ghost b1 = self.bots@;
        let mut remaining = Vec::new();
        keep_unfinished(&mut remaining, &self.partially_built, &completed_builds);
        keep_unfinished(&mut remaining, &spawned_partials, &completed_builds);
        proof {
            Seq::filter_distributes_over_add(
                old(self).partially_built@,
                spawned_partials@,
                unfinished(completed_builds@),
            );
            assert(remaining@ =~= Seq::<(EntityId, PartiallyBuiltBot)>::empty() + old(
                self,
            ).partially_built@.filter(unfinished(completed_builds@)) + spawned_partials@.filter(
                unfinished(completed_builds@),
            ));
        }
        self.partially_built = remaining;
        add_built(&mut self.bots, completed_builds, &mut self.next_bot_id);
        proof {
            assert forall|j: int| 0 <= j < b0.len() implies #[trigger] self.bots@[j] == b1[j] by {}
        }
    }

    /// One tick of the bots' actions: each bot in turn pays the cost of its pending action and
    /// carries out one step of it, then the tick's effects take hold (see `tick_trace` and
    /// `settled`).
    pub fn apply_actions(&mut self)
        requires
            forall|i: int| 0 <= i < old(self).bots@.len() ==> can_pay(#[trigger] old(self).bots@[i]),
            forall|i: int|
                0 <= i < old(self).bots@.len() ==> !((#[trigger] old(self).bots@[i]).current_action matches Some(
                    c,
                ) && c.kind is Attack),
            old(self).next_entity + old(self).bots@.len() < u64::MAX,
            old(self).next_bot_id + old(self).bots@.len() <= u32::MAX,
        ensures
            exists|ws: Seq<World>, es: Seq<TickEffects>|
                #[trigger] tick_trace(ws, es, *old(self)) && settled(*final(self), ws.last(), es.last()),
            world_on_grid(*old(self)) ==> world_on_grid(*final(self)),
    {
        let ghost w0 = *self;
        let mut effects = TickEffects::new();
        let ghost mut ws: Seq<World> = seq![w0];
        let ghost mut es: Seq<TickEffects> = seq![effects];
        let n = self.bots.len();
        let tick = self.tick;
        let mut i: usize = 0;
        while i < n
            invariant
                i <= n,
                n == w0.bots@.len(),
                tick == w0.tick,
                self.tick == w0.tick,
                self.next_bot_id == w0.next_bot_id,
                self.bots@.len() == n,
                self.next_entity <= w0.next_entity + i,
                w0.next_entity + n < u64::MAX,
                w0.next_bot_id + n <= u32::MAX,
                effects.completed_builds@.len() <= i,
                forall|j: int| i <= j < n ==> #[trigger] self.bots@[j] == w0.bots@[j],
                forall|j: int| 0 <= j < n ==> can_pay(#[trigger] w0.bots@[j]),
                ws.len() == i + 1,
                es.len() == i + 1,
                ws[0] == w0,
                no_effects(es[0]),
                ws.last() == *self,
                es.last() == effects,
                forall|k: int| 0 <= k < i ==> #[trigger] bot_stepped(ws[k + 1], es[k + 1], ws[k], es[k], k),
            decreases n - i,
        {
            let ghost before = *self;
            let ghost e_before = effects;
            assert(self.bots@[i as int] == w0.bots@[i as int]);
            step_entry(
                &mut self.bots[i],
                &mut self.grid,
                &mut self.partially_built,
                &mut effects,
                &mut self.next_entity,
                tick,
            );
            proof {
                assert(bot_stepped(*self, effects, before, e_before, i as int));
                ws = ws.push(*self);
                es = es.push(effects);
                assert(bot_stepped(ws[i + 1], es[i + 1], ws[i as int], es[i as int], i as int));
            }
            i = i + 1;
        }
        let ghost last_w = *self;
        let ghost last_e = effects;
        self.settle(effects);
        proof {
            assert(tick_trace(ws, es, w0));
            assert(settled(*self, ws.last(), es.last()));
            if world_on_grid(w0) {
                lemma_trace_on_grid(ws, es, w0, n as int);
                lemma_settled_on_grid(*self, ws.last(), es.last());
            }
        }
    }
    /// Checks every pending action against the state at the start of the tick, and drops
    /// each one that cannot be carried out, as failed with the reason.
    pub fn validate_actions(&mut self)
        requires
            forall|i: int|
                0 <= i < old(self).bots@.len() ==> entry_checkable(
                    #[trigger] old(self).bots@[i],
                    old(self).grid,
                    old(self).bots@,
                ),
        ensures
            world_validated(*final(self), *old(self)),
            world_on_grid(*old(self)) ==> world_on_grid(*final(self)),
    {
        let ghost bots0 = self.bots@;
        let mut errors: Vec<Option<String>> = Vec::new();
        let n = self.bots.len();
        let mut i: usize = 0;
        while i < n
            invariant
                i <= n,
                n == self.bots@.len(),
                self.bots@ == bots0,
                errors@.len() == i,
                forall|j: int|
                    0 <= j < n ==> entry_checkable(#[trigger] bots0[j], self.grid, bots0),
                forall|j: int|
                    0 <= j < i ==> (match #[trigger] errors@[j] {
                        Some(m) => entry_error(bots0[j], self.grid, bots0, self.partially_built@)
                            == Some(m@),
                        None => entry_error(bots0[j], self.grid, bots0, self.partially_built@)
                            is None,
                    }),
            decreases n - i,
        {
            let entry = &self.bots[i];
            let e = match &entry.current_action {
                Some(c) => {
                    assert(entry_checkable(bots0[i as int], self.grid, bots0));
                    match is_action_invalid(
                        &c.kind,
                        &c.state,
                        &self.grid,
                        &entry.data,
                        &self.bots,
                        &self.partially_built,
                    ) {
                        Ok(()) => None,
                        Err(m) => Some(m),
                    }
                },
                None => None,
            };
            errors.push(e);
            i = i + 1;
        }
        let mut k: usize = 0;
        while k < n
            invariant
                k <= n,
                n == bots0.len(),
                self.tick == old(self).tick,
                self.grid == old(self).grid,
                self.partially_built == old(self).partially_built,
                self.next_entity == old(self).next_entity,
                self.next_bot_id == old(self).next_bot_id,
                self.bots@.len() == n,
                errors@.len() == n,
                forall|j: int|
                    0 <= j < n ==> (match #[trigger] errors@[j] {
                        Some(m) => entry_error(bots0[j], self.grid, bots0, self.partially_built@)
                            == Some(m@),
                        None => entry_error(bots0[j], self.grid, bots0, self.partially_built@)
                            is None,
                    }),
                forall|j: int|
                    0 <= j < k ==> validated(
                        #[trigger] self.bots@[j],
                        bots0[j],
                        entry_error(bots0[j], self.grid, bots0, self.partially_built@),
                        self.tick,
                    ),
                forall|j: int| k <= j < n ==> #[trigger] self.bots@[j] == bots0[j],
            decreases n - k,
        {
            let err: Option<String> = match &errors[k] {
                Some(m) => Some(m.clone()),
                None => None,
            };
            if let Some(m) = err {
                if self.bots[k].current_action.is_some() {
                    let tick = self.tick;
                    let ghost before = self.bots@[k as int];
                    finish_action(&mut self.bots[k], status_failure(m), tick);
                    proof {
                        assert(errors@[k as int] is Some);
                    }
                } else {
                    assert(entry_error(bots0[k as int], self.grid, bots0, self.partially_built@)
                        is None);
                }
            }
            k = k + 1;
        }
    }
}


/// The state a newly received action starts in: a path is walked from its second position
/// (its first is where the bot stands), or from its only one.
pub open spec fn initial_state(a: Action) -> ActionState {
    match a {
        Action::MoveTo(path) => ActionState::MoveTo {
            idx: if path@.len() >= 2 {
                1
            } else {
                0
            },
        },
        _ => ActionState::Simple,
    }
}

/// Makes `action` the bot's pending action; an action still pending is cancelled.
pub fn receive_action(entry: &mut BotEntry, action: ActionWithId, tick: u32)
    ensures
        final(entry).entity == old(entry).entity,
        final(entry).bot_id == old(entry).bot_id,
        final(entry).data == old(entry).data,
        final(entry).current_action == Some(
            ActionContainer {
                kind: action.action,
                id: action.id,
                state: initial_state(action.action),
                reason: action.reason,
            },
        ),
        match old(entry).current_action {
            None => final(entry).past_actions == old(entry).past_actions,
            Some(c) => {
                &&& final(entry).past_actions@.len() == old(entry).past_actions@.len() + 1
                &&& final(entry).past_actions@.take(old(entry).past_actions@.len() as int)
                    == old(entry).past_actions@
                &&& final(entry).past_actions@.last() == (ActionResult {
                    action: c.kind,
                    id: c.id,
                    reason: c.reason,
                    status: ActionStatus::Cancelled,
                    completed_tick: tick,
                })
            },
        },
{
    let state = match &action.action {
        Action::MoveTo(path) => {
            let last = if path.len() >= 1 {
                path.len() - 1
            } else {
                0
            };
            ActionState::MoveTo {
                idx: if 1 <= last {
                    1
                } else {
                    last
                },
            }
        },
        _ => ActionState::Simple,
    };
    let container = ActionContainer {
        reason: action.reason,
        state,
        kind: action.action,
        id: action.id,
    };
    let previous = entry.current_action.take();
    entry.current_action = Some(container);
    if let Some(c) = previous {
        entry.past_actions.push(
            ActionResult {
                action: c.kind,
                id: c.id,
                reason: c.reason,
                status: ActionStatus::Cancelled,
                completed_tick: tick,
            },
        );
        proof {
            assert(entry.past_actions@.take(old(entry).past_actions@.len() as int)
                =~= old(entry).past_actions@);
        }
    }
}

/// `r` is what the server tells bot `entry` at `tick`: its state, the action it is still
/// carrying out, and the action that ended at this tick, if its last one did.
pub open spec fn describes(r: BotUpdate, entry: BotEntry, tick: u32) -> bool {
    &&& r.tick == tick
    &&& same_data(r.bot_data, entry.data)
    &&& match entry.current_action {
        None => r.in_progress_action is None,
        Some(c) => r.in_progress_action matches Some(a) && same_action(a.action, c.kind) && a.id
            == c.id && a.reason == c.reason,
    }
    &&& if entry.past_actions@.len() > 0 && entry.past_actions@.last().completed_tick == tick {
        let last = entry.past_actions@.last();
        r.completed_action matches Some(res) && same_action(res.action, last.action) && res.id
            == last.id && same_status(res.status, last.status) && res.reason == last.reason
            && res.completed_tick == tick
    } else {
        r.completed_action is None
    }
}

/// What the server tells bot `entry` at `tick` (see `describes`).
pub fn create_bot_update(entry: &BotEntry, tick: u32) -> (r: BotUpdate)
    ensures
        describes(r, *entry, tick),
{
    let in_progress_action = match &entry.current_action {
        Some(c) => Some(ActionWithId { action: c.kind.copy(), id: c.id, reason: c.reason }),
        None => None,
    };
    let n = entry.past_actions.len();
    let completed_action = if n > 0 && entry.past_actions[n - 1].completed_tick == tick {
        Some(entry.past_actions[n - 1].copy())
    } else {
        None
    };
    BotUpdate { tick, bot_data: entry.data.copy(), in_progress_action, completed_action }
}

/// The energy a bot has after a tick of its generators: one per generator, up to its maximum.
pub open spec fn generated(d: BotData) -> Energy {
    let g = d.subsystems.count(Subsystem::Generator);
    if g > 0 {
        let e = d.energy.0 + g;
        let max = spec_max_energy(d.frame, d.subsystems@);
        Energy((if e <= max {
            e
        } else {
            max
        }) as u32)
    } else {
        d.energy
    }
}

/// The first of the bots standing on the cell of bot `j` is bot `j`.
pub open spec fn first_at(bots: Seq<BotEntry>, j: int) -> bool {
    forall|k: int| 0 <= k < j ==> #[trigger] bots[k].data.pos != bots[j].data.pos
}

/// Bot `j` picks up the `item` lying on its cell: it is the first bot standing there.
pub open spec fn picks_up(bots: Seq<BotEntry>, grid: ServerGrid, j: int, item: Item) -> bool {
    grid.spec_at(bots[j].data.pos).item == Some(item) && first_at(bots, j)
}

/// Some bot of `bots` stands on cell `(x, y)`.
pub open spec fn occupied(bots: Seq<BotEntry>, x: int, y: int) -> bool {
    exists|j: int| 0 <= j < bots.len() && (#[trigger] bots[j].data.pos) == Pos((x as usize, y as usize))
}

/// All bots are on the grid.
pub open spec fn bots_on_grid(bots: Seq<BotEntry>, grid: ServerGrid) -> bool {
    forall|j: int| 0 <= j < bots.len() ==> grid.spec_contains(#[trigger] bots[j].data.pos)
}

impl World {
    /// Moves the clock on by one tick.
    pub fn update_tick(&mut self)
        requires
            old(self).tick < u32::MAX,
        ensures
            final(self).tick == old(self).tick + 1,
            final(self).grid == old(self).grid,
            final(self).bots == old(self).bots,
            final(self).partially_built == old(self).partially_built,
            final(self).next_entity == old(self).next_entity,
            final(self).next_bot_id == old(self).next_bot_id,
            world_on_grid(*old(self)) ==> world_on_grid(*final(self)),
    {
        self.tick = self.tick + 1;
    }

    /// Each bot's generators give it one energy each, up to its maximum.
    pub fn generate_energy(&mut self)
        requires
            forall|j: int|
                0 <= j < old(self).bots@.len() ==> (#[trigger] old(self).bots@[j]).data.energy.0
                    + old(self).bots@[j].data.subsystems.count(Subsystem::Generator) <= u32::MAX,
        ensures
            final(self).tick == old(self).tick,
            final(self).grid == old(self).grid,
            final(self).partially_built == old(self).partially_built,
            final(self).next_entity == old(self).next_entity,
            final(self).next_bot_id == old(self).next_bot_id,
            final(self).bots@.len() == old(self).bots@.len(),
            forall|j: int|
                0 <= j < old(self).bots@.len() ==> {
                    let n = #[trigger] final(self).bots@[j];
                    let o = old(self).bots@[j];
                    &&& same_bot(n, o)
                    &&& n.data == (BotData { energy: generated(o.data), ..o.data })
                },
            world_on_grid(*old(self)) ==> world_on_grid(*final(self)),
    {
        let ghost b0 = self.bots@;
        let n = self.bots.len();
        let mut i: usize = 0;
        while i < n
            invariant
                i <= n,
                n == b0.len(),
                self.bots@.len() == n,
                self.tick == old(self).tick,
                self.grid == old(self).grid,
                self.partially_built == old(self).partially_built,
                self.next_entity == old(self).next_entity,
                self.next_bot_id == old(self).next_bot_id,
                forall|j: int|
                    0 <= j < n ==> (#[trigger] b0[j]).data.energy.0 + b0[j].data.subsystems.count(
                        Subsystem::Generator,
                    ) <= u32::MAX,
                forall|j: int| i <= j < n ==> #[trigger] self.bots@[j] == b0[j],
                forall|j: int|
                    0 <= j < i ==> {
                        let n = #[trigger] self.bots@[j];
                        let o = b0[j];
                        &&& same_bot(n, o)
                        &&& n.data == (BotData { energy: generated(o.data), ..o.data })
                    },
            decreases n - i,
        {
            assert(self.bots@[i as int] == b0[i as int]);
            regenerate(&mut self.bots[i]);
            i = i + 1;
        }
    }

    /// Each bot standing on a cell with `item` picks it up: the item leaves the cell and the
    /// bot's inventory holds one more of it.
    fn pick_up(&mut self, item: Item)
        requires
            bots_on_grid(old(self).bots@, old(self).grid),
        ensures
            final(self).tick == old(self).tick,
            final(self).partially_built == old(self).partially_built,
            final(self).next_entity == old(self).next_entity,
            final(self).next_bot_id == old(self).next_bot_id,
            final(self).bots@.len() == old(self).bots@.len(),
            forall|j: int|
                0 <= j < old(self).bots@.len() ==> {
                    let n = #[trigger] final(self).bots@[j];
                    let o = old(self).bots@[j];
                    &&& same_bot(n, o)
                    &&& n.data == (BotData { inventory: n.data.inventory, ..o.data })
                    &&& n.data.inventory.spec_capacity() == o.data.inventory.spec_capacity()
                    &&& forall|it: Item|
                        #[trigger] n.data.inventory.count(it) == (if it == item && picks_up(
                            old(self).bots@,
                            old(self).grid,
                            j,
                            item,
                        ) {
                            cap_u32(o.data.inventory.count(it) + 1)
                        } else {
                            o.data.inventory.count(it)
                        })
                },
            final(self).grid.spec_width() == old(self).grid.spec_width(),
            final(self).grid.spec_height() == old(self).grid.spec_height(),
            forall|x: int, y: int|
                #![trigger final(self).grid.spec_cell(x, y)]
                old(self).grid.spec_in_bounds(x, y) ==> final(self).grid.spec_cell(x, y) == (if old(
                    self,
                ).grid.spec_cell(x, y).item == Some(item) && occupied(old(self).bots@, x, y) {
                    CellState { item: None, ..old(self).grid.spec_cell(x, y) }
                } else {
                    old(self).grid.spec_cell(x, y)
                }),
    {
        let ghost b0 = self.bots@;
        let ghost g0 = self.grid;
        let n = self.bots.len();
        let mut i: usize = 0;
        while i < n
            invariant
                i <= n,
                n == b0.len(),
                self.bots@.len() == n,
                self.tick == old(self).tick,
                self.partially_built == old(self).partially_built,
                self.next_entity == old(self).next_entity,
                self.next_bot_id == old(self).next_bot_id,
                bots_on_grid(b0, g0),
                self.grid.spec_width() == g0.spec_width(),
                self.grid.spec_height() == g0.spec_height(),
                forall|x: int, y: int|
                    #![trigger self.grid.spec_cell(x, y)]
                    g0.spec_in_bounds(x, y) ==> self.grid.spec_cell(x, y) == (if g0.spec_cell(
                        x,
                        y,
                    ).item == Some(item) && occupied(b0.take(i as int), x, y) {
                        CellState { item: None, ..g0.spec_cell(x, y) }
                    } else {
                        g0.spec_cell(x, y)
                    }),
                forall|j: int| i <= j < n ==> #[trigger] self.bots@[j] == b0[j],
                forall|j: int|
                    0 <= j < i ==> {
                        let n = #[trigger] self.bots@[j];
                        let o = b0[j];
                        &&& same_bot(n, o)
                        &&& n.data == (BotData { inventory: n.data.inventory, ..o.data })
                        &&& n.data.inventory.spec_capacity() == o.data.inventory.spec_capacity()
                        &&& forall|it: Item|
                            #[trigger] n.data.inventory.count(it) == (if it == item && picks_up(
                                b0,
                                g0,
                                j,
                                item,
                            ) {
                                cap_u32(o.data.inventory.count(it) + 1)
                            } else {
                                o.data.inventory.count(it)
                            })
                    },
            decreases n - i,
        {
            let pos = self.bots[i].data.pos;
            assert(self.bots@[i as int] == b0[i as int]);
            assert(g0.spec_contains(b0[i as int].data.pos));
            let x = pos.0.0;
            let y = pos.0.1;
            let ghost before = self.grid;
            let gw = self.grid.width();
            let gh = self.grid.height();
            proof {
                assert(b0.take(i as int + 1) =~= b0.take(i as int).push(b0[i as int]));
                assert(before.spec_cell(x as int, y as int) == (if g0.spec_cell(x as int, y as int).item
                    == Some(item) && occupied(b0.take(i as int), x as int, y as int) {
                    CellState { item: None, ..g0.spec_cell(x as int, y as int) }
                } else {
                    g0.spec_cell(x as int, y as int)
                }));
                if occupied(b0.take(i as int), x as int, y as int) {
                    let k = choose|k: int|
                        0 <= k < i && (#[trigger] b0.take(i as int)[k].data.pos) == Pos(
                            (x, y),
                        );
                    assert(b0[k].data.pos == b0[i as int].data.pos);
                    assert(!first_at(b0, i as int));
                } else {
                    assert forall|k: int| 0 <= k < i implies #[trigger] b0[k].data.pos
                        != b0[i as int].data.pos by {
                        if b0[k].data.pos == b0[i as int].data.pos {
                            assert(b0.take(i as int)[k].data.pos == Pos((x, y)));
                        }
                    }
                    assert(first_at(b0, i as int));
                }
            }
            let cell = *self.grid.get(pos);
            if cell.item == Some(item) {
                give_item(&mut self.bots[i], item);
                self.grid.set(pos, CellState { item: None, ..cell });
            }
            proof {
                assert forall|xx: int, yy: int|
                    #![trigger self.grid.spec_cell(xx, yy)]
                    g0.spec_in_bounds(xx, yy) implies self.grid.spec_cell(xx, yy) == (
                    if g0.spec_cell(xx, yy).item == Some(item) && occupied(
                        b0.take(i as int + 1),
                        xx,
                        yy,
                    ) {
                        CellState { item: None, ..g0.spec_cell(xx, yy) }
                    } else {
                        g0.spec_cell(xx, yy)
                    }) by {
                    if xx == x && yy == y {
                        assert(b0.take(i as int + 1)[i as int].data.pos == Pos(
                            (xx as usize, yy as usize),
                        ));
                    } else {
                        assert(before.spec_cell(xx, yy) == self.grid.spec_cell(xx, yy));
                        if occupied(b0.take(i as int + 1), xx, yy) {
                            let k = choose|k: int|
                                0 <= k < i + 1 && (#[trigger] b0.take(i as int + 1)[k].data.pos)
                                    == Pos((xx as usize, yy as usize));
                            assert(k != i);
                            assert(b0.take(i as int)[k].data.pos == Pos((xx as usize, yy as usize)));
                        }
                        if occupied(b0.take(i as int), xx, yy) {
                            let k = choose|k: int|
                                0 <= k < i && (#[trigger] b0.take(i as int)[k].data.pos) == Pos(
                                    (xx as usize, yy as usize),
                                );
                            assert(b0.take(i as int + 1)[k].data.pos == Pos((xx as usize, yy as usize)));
                        }
                    }
                }
            }
            i = i + 1;
        }
        proof {
            assert(b0.take(n as int) =~= b0);
        }
    }

    /// Bots pick up the crumbs lying where they stand.
    pub fn pickup_crumbs(&mut self)
        requires
            bots_on_grid(old(self).bots@, old(self).grid),
        ensures
            final(self).tick == old(self).tick,
            final(self).partially_built == old(self).partially_built,
            final(self).next_entity == old(self).next_entity,
            final(self).next_bot_id == old(self).next_bot_id,
            world_on_grid(*old(self)) ==> world_on_grid(*final(self)),
            final(self).bots@.len() == old(self).bots@.len(),
            final(self).grid.spec_width() == old(self).grid.spec_width(),
            final(self).grid.spec_height() == old(self).grid.spec_height(),
            forall|x: int, y: int|
                #![trigger final(self).grid.spec_cell(x, y)]
                old(self).grid.spec_in_bounds(x, y) ==> final(self).grid.spec_cell(x, y) == (if old(
                    self,
                ).grid.spec_cell(x, y).item == Some(Item::Crumb) && occupied(old(self).bots@, x, y) {
                    CellState { item: None, ..old(self).grid.spec_cell(x, y) }
                } else {
                    old(self).grid.spec_cell(x, y)
                }),
            forall|j: int|
                0 <= j < old(self).bots@.len() ==> {
                    let n = #[trigger] final(self).bots@[j];
                    let o = old(self).bots@[j];
                    &&& same_bot(n, o)
                    &&& n.data == (BotData { inventory: n.data.inventory, ..o.data })
                    &&& forall|it: Item|
                        #[trigger] n.data.inventory.count(it) == (if it == Item::Crumb && picks_up(
                            old(self).bots@,
                            old(self).grid,
                            j,
                            Item::Crumb,
                        ) {
                            cap_u32(o.data.inventory.count(it) + 1)
                        } else {
                            o.data.inventory.count(it)
                        })
                },
    {
        self.pick_up(Item::Crumb);
    }

    /// Bots pick up the fent lying where they stand.
    pub fn pickup_fent(&mut self)
        requires
            bots_on_grid(old(self).bots@, old(self).grid),
        ensures
            final(self).tick == old(self).tick,
            final(self).partially_built == old(self).partially_built,
            final(self).next_entity == old(self).next_entity,
            final(self).next_bot_id == old(self).next_bot_id,
            world_on_grid(*old(self)) ==> world_on_grid(*final(self)),
            final(self).bots@.len() == old(self).bots@.len(),
            final(self).grid.spec_width() == old(self).grid.spec_width(),
            final(self).grid.spec_height() == old(self).grid.spec_height(),
            forall|x: int, y: int|
                #![trigger final(self).grid.spec_cell(x, y)]
                old(self).grid.spec_in_bounds(x, y) ==> final(self).grid.spec_cell(x, y) == (if old(
                    self,
                ).grid.spec_cell(x, y).item == Some(Item::Fent) && occupied(old(self).bots@, x, y) {
                    CellState { item: None, ..old(self).grid.spec_cell(x, y) }
                } else {
                    old(self).grid.spec_cell(x, y)
                }),
            forall|j: int|
                0 <= j < old(self).bots@.len() ==> {
                    let n = #[trigger] final(self).bots@[j];
                    let o = old(self).bots@[j];
                    &&& same_bot(n, o)
                    &&& n.data == (BotData { inventory: n.data.inventory, ..o.data })
                    &&& forall|it: Item|
                        #[trigger] n.data.inventory.count(it) == (if it == Item::Fent && picks_up(
                            old(self).bots@,
                            old(self).grid,
                            j,
                            Item::Fent,
                        ) {
                            cap_u32(o.data.inventory.count(it) + 1)
                        } else {
                            o.data.inventory.count(it)
                        })
                },
    {
        self.pick_up(Item::Fent);
    }
}

/// The team that won: that of the last bot holding fent and at least two truffles.
pub open spec fn spec_winner(bots: Seq<BotEntry>) -> Option<Team>
    decreases bots.len(),
{
    if bots.len() == 0 {
        None
    } else {
        let d = bots.last().data;
        if d.inventory.count(Item::Fent) > 0 && d.inventory.count(Item::Truffle) >= 2 {
            Some(d.team)
        } else {
            spec_winner(bots.drop_last())
        }
    }
}

impl World {
    /// The winning team: `won` once a team has won, else the team that wins now, if any.
    pub fn check_win_condition(&self, won: Option<Team>) -> (r: Option<Team>)
        ensures
            r == (match won {
                Some(t) => Some(t),
                None => spec_winner(self.bots@),
            }),
    {
        if won.is_some() {
            return won;
        }
        let mut winner: Option<Team> = None;
        let mut i: usize = 0;
        while i < self.bots.len()
            invariant
                i <= self.bots@.len(),
                winner == spec_winner(self.bots@.take(i as int)),
            decreases self.bots@.len() - i,
        {
            proof {
                assert(self.bots@.take(i as int + 1).drop_last() =~= self.bots@.take(i as int));
            }
            let inv = &self.bots[i].data.inventory;
            if inv.get(Item::Fent) > 0 && inv.get(Item::Truffle) >= 2 {
                winner = Some(self.bots[i].data.team);
            }
            i = i + 1;
        }
        proof {
            assert(self.bots@.take(self.bots@.len() as int) =~= self.bots@);
        }
        winner
    }
}

fn regenerate(e: &mut BotEntry)
    requires
        old(e).data.energy.0 + old(e).data.subsystems.count(Subsystem::Generator) <= u32::MAX,
    ensures
        same_bot(*final(e), *old(e)),
        final(e).data == (BotData { energy: generated(old(e).data), ..old(e).data }),
{
    let generators = e.data.subsystems.get(Subsystem::Generator);
    if generators > 0 {
        e.data.energy = e.data.energy.add_i32(generators as i32).min(e.data.max_energy());
    }
}


/// A team wins exactly when one of its bots holds fent and at least two truffles; of several
/// such bots the last one's team is named.
pub proof fn lemma_winner(bots: Seq<BotEntry>)
    ensures
        spec_winner(bots) matches Some(t) ==> exists|j: int|
            0 <= j < bots.len() && (#[trigger] bots[j]).data.team == t
                && bots[j].data.inventory.count(Item::Fent) > 0
                && bots[j].data.inventory.count(Item::Truffle) >= 2,
        spec_winner(bots) is None ==> forall|j: int|
            0 <= j < bots.len() ==> !((#[trigger] bots[j]).data.inventory.count(Item::Fent) > 0
                && bots[j].data.inventory.count(Item::Truffle) >= 2),
    decreases bots.len(),
{
    if bots.len() > 0 {
        let d = bots.drop_last();
        lemma_winner(d);
        assert forall|j: int| 0 <= j < d.len() implies bots[j] == d[j] by {}
        if let Some(t) = spec_winner(d) {
            let j = choose|j: int|
                0 <= j < d.len() && (#[trigger] d[j]).data.team == t
                    && d[j].data.inventory.count(Item::Fent) > 0
                    && d[j].data.inventory.count(Item::Truffle) >= 2;
            assert(bots[j] == d[j]);
        }
        assert(bots[bots.len() - 1] == bots.last());
    }
}

/// The reason shown next to a bot: its current action's, else its last action's when that
/// ended this tick or the one before.
pub open spec fn shown_reason(tick: u32, e: BotEntry) -> Option<&'static str> {
    match e.current_action {
        Some(c) => Some(c.reason),
        None => if e.past_actions@.len() > 0 && e.past_actions@.last().completed_tick + 1 >= tick {
            Some(e.past_actions@.last().reason)
        } else {
            None
        },
    }
}

/// The reason shown next to a bot at `current_tick` (see `shown_reason`).
pub fn get_reason(current_tick: u32, entry: &BotEntry) -> (r: Option<&'static str>)
    ensures
        r == shown_reason(current_tick, *entry),
{
    if let Some(action) = &entry.current_action {
        Some(action.reason)
    } else if entry.past_actions.len() > 0 {
        let last = &entry.past_actions[entry.past_actions.len() - 1];
        if current_tick == 0 || last.completed_tick >= current_tick - 1 {
            Some(last.reason)
        } else {
            None
        }
    } else {
        None
    }
}

impl World {
    /// The update of every bot for this tick, with its id, in the order of the bots.
    pub fn create_server_updates(&self) -> (r: Vec<(u32, BotUpdate)>)
        ensures
            r@.len() == self.bots@.len(),
            forall|i: int|
                0 <= i < r@.len() ==> (#[trigger] r@[i]).0 == self.bots@[i].bot_id && describes(
                    r@[i].1,
                    self.bots@[i],
                    self.tick,
                ),
    {
        let mut r: Vec<(u32, BotUpdate)> = Vec::new();
        let mut i: usize = 0;
        while i < self.bots.len()
            invariant
                i <= self.bots@.len(),
                r@.len() == i,
                forall|j: int|
                    0 <= j < i ==> (#[trigger] r@[j]).0 == self.bots@[j].bot_id && describes(
                        r@[j].1,
                        self.bots@[j],
                        self.tick,
                    ),
            decreases self.bots@.len() - i,
        {
            let u = create_bot_update(&self.bots[i], self.tick);
            r.push((self.bots[i].bot_id, u));
            i = i + 1;
        }
        r
    }
}

} // verus!
