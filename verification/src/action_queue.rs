//! The first action system: each bot's orders wait in a queue; the one in progress is broken
//! into single steps, taken one per tick.
use vstd::prelude::*;

use std::collections::VecDeque;

use crate::game::{spec_can_enter, CellState, EntityId, ServerGrid};
use crate::gridworld::is_path;
use crate::types::{
    dir_dx, dir_dy, lemma_dir_from_deltas_inverse, pos_dist, spec_dir_from_deltas, Dir, Pos,
};

verus! {

/// An order of the first action system: a step in a direction, or a walk to a goal.
#[derive(Debug, Clone, Copy)]
pub enum QueuedAction {
    MoveDir(Dir),
    MoveTo(Pos),
}

/// An order with the id the bot gave it.
#[derive(Debug, Clone, Copy)]
pub struct ActionEnvelope {
    pub action: QueuedAction,
    pub id: u32,
}

#[derive(Debug, Clone, Copy, PartialEq, Eq, Structural)]
pub enum QueueStatus {
    InProgress,
    Success,
    Failure,
}

/// How an order is going.
#[derive(Debug, Clone, Copy)]
pub struct QueuedResult {
    pub action: QueuedAction,
    pub id: u32,
    pub status: QueueStatus,
}

#[derive(Debug, Clone, Copy, PartialEq, Eq, Structural)]
pub enum ComputedActionKind {
    MoveDir(Dir),
}

/// A single step of an order, with the order's id.
#[derive(Debug, Clone, Copy)]
pub struct ComputedAction {
    pub parent_id: u32,
    pub kind: ComputedActionKind,
}

/// The orders a bot sent that wait their turn.
pub struct ActionQueue(pub VecDeque<ActionEnvelope>);

/// The steps left of the order in progress.
pub struct ComputedActionQueue(pub VecDeque<ComputedAction>);

/// The order in progress, if any.
pub struct InProgressAction {
    pub opt: Option<QueuedResult>,
}

/// The steps of order `id` that walk along `path`.
pub open spec fn path_steps(path: Seq<Pos>, id: u32) -> Seq<ComputedAction> {
    Seq::new(
        (path.len() - 1) as nat,
        |i: int|
            ComputedAction {
                parent_id: id,
                kind: ComputedActionKind::MoveDir(
                    spec_dir_from_deltas(
                        path[i + 1].0.0 - path[i].0.0,
                        path[i + 1].0.1 - path[i].0.1,
                    )->0,
                ),
            },
    )
}

/// What taking the next order does at `pos` on `grid`: the queues and the order in progress
/// before (`q0`, `c0`, `p0`) and after (`q1`, `c1`, `p1`). An order in progress stays; else
/// the next order leaves the queue: a step becomes one step, a walk becomes the steps of a
/// shortest walk to its goal (none, and no order in progress, when the bot is at the goal or
/// no walk leads there), and the order is then in progress.
pub open spec fn took_next(
    pos: Pos,
    grid: ServerGrid,
    q0: Seq<ActionEnvelope>,
    c0: Seq<ComputedAction>,
    p0: Option<QueuedResult>,
    q1: Seq<ActionEnvelope>,
    c1: Seq<ComputedAction>,
    p1: Option<QueuedResult>,
) -> bool {
    if p0 matches Some(r) && r.status == QueueStatus::InProgress {
        q1 == q0 && c1 == c0 && p1 == p0
    } else if q0.len() == 0 {
        q1 == q0 && c1 == c0 && p1 is None
    } else {
        let e = q0[0];
        let started = Some(QueuedResult { action: e.action, id: e.id, status: QueueStatus::InProgress });
        &&& q1 == q0.drop_first()
        &&& match e.action {
            QueuedAction::MoveDir(d) => c1 == c0.push(
                ComputedAction { parent_id: e.id, kind: ComputedActionKind::MoveDir(d) },
            ) && p1 == started,
            QueuedAction::MoveTo(goal) => if goal == pos {
                c1 == c0 && p1 is None
            } else if !(exists|p: Seq<Pos>|
                is_path(&grid, p) && p[0] == pos && #[trigger] p.last() == goal) {
                c1 == c0 && p1 is None
            } else {
                (exists|p: Seq<Pos>|
                    is_path(&grid, p) && p[0] == pos && #[trigger] p.last() == goal && c1 == c0
                        + path_steps(p, e.id) && (forall|q: Seq<Pos>|
                        #[trigger] is_path(&grid, q) && q[0] == pos && q.last() == goal ==> p.len()
                            <= q.len())) && p1 == started
            },
        }
    }
}

/// Takes the bot's next order when none is in progress (see `took_next`).
pub fn handle_bot_actions(
    pos: Pos,
    incoming: &mut ActionQueue,
    in_progress: &mut InProgressAction,
    computed: &mut ComputedActionQueue,
    grid_world: &ServerGrid,
)
    requires
        grid_world.spec_contains(pos),
        grid_world.spec_width() * grid_world.spec_height() + 2 * grid_world.spec_width() + 2
            * grid_world.spec_height() <= i32::MAX,
    ensures
        took_next(
            pos,
            *grid_world,
            old(incoming).0@,
            old(computed).0@,
            old(in_progress).opt,
            final(incoming).0@,
            final(computed).0@,
            final(in_progress).opt,
        ),
{
    let taken = in_progress.opt;
    in_progress.opt = None;
    if let Some(result) = taken {
        if result.status == QueueStatus::InProgress {
            in_progress.opt = Some(result);
            return;
        }
    }
    let Some(envelope) = incoming.0.pop_front() else {
        return;
    };
    let ActionEnvelope { action, id } = envelope;
    match action {
        QueuedAction::MoveDir(dir) => {
            computed.0.push_back(
                ComputedAction { parent_id: id, kind: ComputedActionKind::MoveDir(dir) },
            );
        },
        QueuedAction::MoveTo(goal) => {
            if goal == pos {
                return;
            }
            proof {
                assert(old(incoming).0@[0].action == action);
            }
            if !grid_world.in_bounds(&goal) {
                proof {
                    assert forall|p: Seq<Pos>|
                        is_path(grid_world, p) && p[0] == pos implies #[trigger] p.last() != goal by {
                        assert(grid_world.spec_contains(p[p.len() - 1]));
                    }
                }
                return;
            }
            let Some(path) = grid_world.find_path(pos, goal) else {
                return;
            };
            let ghost c0 = computed.0@;
            let n = path.len();
            let mut i: usize = 0;
            while i + 1 < n
                invariant
                    i < path@.len(),
                    n == path@.len(),
                    is_path(grid_world, path@),
                    computed.0@ == c0 + path_steps(path@.take(i as int + 1), id),
                decreases path@.len() - i,
            {
                let current = path[i];
                let next = path[i + 1];
                proof {
                    assert(pos_dist(path@[i as int], path@[i as int + 1]) == 1);
                    lemma_dir_from_deltas_inverse(
                        next.0.0 - current.0.0,
                        next.0.1 - current.0.1,
                    );
                }
                let dir = step_dir(current, next);
                computed.0.push_back(
                    ComputedAction { parent_id: id, kind: ComputedActionKind::MoveDir(dir) },
                );
                proof {
                    let s = path@.take(i as int + 2);
                    assert(path_steps(s, id) =~= path_steps(path@.take(i as int + 1), id).push(
                        ComputedAction { parent_id: id, kind: ComputedActionKind::MoveDir(dir) },
                    ));
                }
                i = i + 1;
            }
            proof {
                assert(path@.take(i as int + 1) =~= path@);
            }
        },
    }
    in_progress.opt = Some(QueuedResult { action, id, status: QueueStatus::InProgress });
}

/// The direction of a single step from `a` to `b`.
fn step_dir(a: Pos, b: Pos) -> (r: Dir)
    requires
        pos_dist(a, b) == 1,
    ensures
        spec_dir_from_deltas(b.0.0 - a.0.0, b.0.1 - a.0.1) == Some(r),
{
    proof {
        lemma_dir_from_deltas_inverse(b.0.0 - a.0.0, b.0.1 - a.0.1);
    }
    if b.0.0 > a.0.0 {
        Dir::Right
    } else if b.0.0 < a.0.0 {
        Dir::Left
    } else if b.0.1 > a.0.1 {
        Dir::Up
    } else {
        Dir::Down
    }
}

/// What a step in direction `d` does for pawn `entity` at `pos`: it fails off the grid or
/// into a cell it cannot enter; else the pawn leaves its cell and stands on the next one.
pub open spec fn stepped(
    entity: EntityId,
    d: Dir,
    pos0: Pos,
    g0: ServerGrid,
    pos1: Pos,
    g1: ServerGrid,
    ok: bool,
) -> bool {
    let nx = pos0.0.0 + dir_dx(d);
    let ny = pos0.0.1 + dir_dy(d);
    let target = Pos((nx as usize, ny as usize));
    if !g0.spec_in_bounds(nx, ny) || !spec_can_enter(g0.spec_at(target)) {
        !ok && pos1 == pos0 && g1 == g0
    } else {
        &&& ok
        &&& pos1 == target
        &&& g1.spec_width() == g0.spec_width()
        &&& g1.spec_height() == g0.spec_height()
        &&& forall|x: int, y: int|
            #![trigger g1.spec_cell(x, y)]
            g0.spec_in_bounds(x, y) ==> g1.spec_cell(x, y) == (if x == nx && y == ny {
                CellState { pawn: Some(entity), ..g0.spec_cell(x, y) }
            } else if x == pos0.0.0 && y == pos0.0.1 {
                CellState { pawn: None, ..g0.spec_cell(x, y) }
            } else {
                g0.spec_cell(x, y)
            })
    }
}

/// Moves pawn `entity` one step in `dir` (see `stepped`); whether it moved.
pub fn handle_movement(entity: EntityId, dir: Dir, pos: &mut Pos, grid_world: &mut ServerGrid) -> (r: bool)
    requires
        old(grid_world).spec_contains(*old(pos)),
        old(pos).0.0 < isize::MAX,
        old(pos).0.1 < isize::MAX,
    ensures
        stepped(entity, dir, *old(pos), *old(grid_world), *final(pos), *final(grid_world), r),
{
    let (x, y) = pos.as_isize();
    let (dx, dy) = dir.to_deltas();
    let new_pos = (x + dx, y + dy);
    if !grid_world.in_bounds_i(new_pos) {
        return false;
    }
    let new_pos = Pos::from_isize(new_pos);
    if !grid_world.get(new_pos).can_enter() {
        return false;
    }
    let old_cell = *grid_world.get(*pos);
    grid_world.set(*pos, CellState { pawn: None, ..old_cell });
    let new_cell = *grid_world.get(new_pos);
    grid_world.set(new_pos, CellState { pawn: Some(entity), ..new_cell });
    *pos = new_pos;
    true
}

/// The direction of a step.
pub open spec fn step_of(c: ComputedAction) -> Dir {
    match c.kind {
        ComputedActionKind::MoveDir(d) => d,
    }
}

/// The order after a step: failed when the step failed, done when no step is left.
pub open spec fn step_result(r: QueuedResult, ok: bool, left: nat) -> QueuedResult {
    QueuedResult {
        status: if !ok {
            QueueStatus::Failure
        } else if left == 0 {
            QueueStatus::Success
        } else {
            r.status
        },
        ..r
    }
}

/// Takes the next step of the order in progress: a failed step fails the order, the last
/// step completes it. Nothing happens without an order in progress.
pub fn process_computed_action(
    entity: EntityId,
    pos: &mut Pos,
    in_progress: &mut InProgressAction,
    computed_queue: &mut ComputedActionQueue,
    grid_world: &mut ServerGrid,
)
    requires
        old(in_progress).opt is None ==> old(computed_queue).0@.len() == 0,
        old(in_progress).opt matches Some(r) ==> old(computed_queue).0@.len() > 0 && old(
            computed_queue,
        ).0@[0].parent_id == r.id,
        old(grid_world).spec_contains(*old(pos)),
        old(pos).0.0 < isize::MAX,
        old(pos).0.1 < isize::MAX,
    ensures
        old(in_progress).opt is None ==> *final(pos) == *old(pos) && *final(grid_world) == *old(
            grid_world,
        ) && final(in_progress).opt is None && final(computed_queue).0@ == old(computed_queue).0@,
        old(in_progress).opt matches Some(r) ==> exists|ok: bool|
            #[trigger] stepped(
                entity,
                step_of(old(computed_queue).0@[0]),
                *old(pos),
                *old(grid_world),
                *final(pos),
                *final(grid_world),
                ok,
            ) && final(computed_queue).0@ == old(computed_queue).0@.drop_first()
                && final(in_progress).opt == Some(step_result(r, ok, final(computed_queue).0@.len())),
{
    let Some(mut current) = in_progress.opt else {
        return;
    };
    let computed = match computed_queue.0.pop_front() {
        Some(c) => c,
        None => {
            return;
        },
    };
    let ComputedActionKind::MoveDir(dir) = computed.kind;
    let did_succeed = handle_movement(entity, dir, pos, grid_world);
    if !did_succeed {
        current.status = QueueStatus::Failure;
    } else if computed_queue.0.len() == 0 {
        current.status = QueueStatus::Success;
    }
    in_progress.opt = Some(current);
    proof {
        assert(stepped(entity, dir, *old(pos), *old(grid_world), *pos, *grid_world, did_succeed));
    }
}

} // verus!
