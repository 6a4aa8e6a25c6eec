//! The first, smaller set of bot actions, with their energy costs.
use vstd::prelude::*;

use crate::types::{Dir, Energy, Pos};

verus! {

pub type ActionId = u32;

#[derive(Debug, Clone)]
pub struct ActionWithId {
    pub id: ActionId,
    pub action: Action,
}

#[derive(Debug, Clone)]
pub enum Action {
    Noop,
    MoveDir(Dir),
    MoveTo(Vec<Pos>),
    Harvest(Dir),
}

/// The energy an action uses in all.
pub open spec fn spec_total_energy(a: Action) -> int {
    match a {
        Action::MoveDir(_) => 1,
        Action::MoveTo(path) => path@.len() as int,
        Action::Harvest(_) => 5,
        Action::Noop => 0,
    }
}

/// The energy an action uses per tick.
pub open spec fn spec_energy_per_tick(a: Action) -> int {
    match a {
        Action::MoveDir(_) => 1,
        Action::MoveTo(_) => 1,
        Action::Harvest(_) => 5,
        Action::Noop => 0,
    }
}

impl Action {
    /// Defined for paths of at most `u32::MAX` steps.
    pub fn total_energy(&self) -> (r: Energy)
        requires
            *self matches Action::MoveTo(path) ==> path@.len() <= u32::MAX,
        ensures
            r.0 == spec_total_energy(*self),
    {
        match self {
            Action::MoveDir(_) => Energy(1),
            Action::MoveTo(path) => Energy(path.len() as u32),
            Action::Harvest(_) => Energy(5),
            Action::Noop => Energy(0),
        }
    }

    pub fn energy_per_tick(&self) -> (r: Energy)
        ensures
            r.0 == spec_energy_per_tick(*self),
    {
        match self {
            Action::MoveDir(_) => Energy(1),
            Action::MoveTo(_) => Energy(1),
            Action::Harvest(_) => Energy(5),
            Action::Noop => Energy(0),
        }
    }
}

/// A move along a path costs one unit per tick, and as many units in all as the path has cells.
pub proof fn lemma_move_to_energy(path: Vec<Pos>)
    ensures
        spec_total_energy(Action::MoveTo(path)) == path@.len() * spec_energy_per_tick(
            Action::MoveTo(path),
        ),
{
}

#[derive(Debug, Clone)]
pub struct ActionResult {
    pub action: Action,
    pub id: ActionId,
    pub status: ActionStatus,
    pub completed_tick: u32,
}

#[derive(Debug, Clone, PartialEq, Eq)]
pub enum ActionStatus {
    Success,
    Failure(String),
    Cancelled,
}

impl ActionStatus {
    pub fn is_success(&self) -> (r: bool)
        ensures
            r == (*self is Success),
    {
        matches!(self, ActionStatus::Success)
    }

    pub fn is_failure(&self) -> (r: bool)
        ensures
            r == (*self is Failure),
    {
        matches!(self, ActionStatus::Failure(_))
    }

    pub fn is_cancelled(&self) -> (r: bool)
        ensures
            r == (*self is Cancelled),
    {
        matches!(self, ActionStatus::Cancelled)
    }
}

} // verus!
