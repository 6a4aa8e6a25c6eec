//! What a bot knows of the map and of the other bots.
use vstd::prelude::*;

use crate::bot::{FrameKind, Subsystems};
use crate::gridworld::{GridWorld, PassableCell};
use crate::types::{CellKind, Item, Pos, Team};

verus! {

/// A bot as another bot last saw it.
#[derive(Debug, Clone, Copy)]
pub struct ClientBotData {
    pub bot_id: u32,
    pub team: Team,
    pub last_observed: u32,
    /// World coordinates
    pub pos: Pos,
    pub frame: FrameKind,
    pub subsystems: Subsystems,
}

/// A cell as a bot last saw it.
#[derive(Debug, Clone, Copy, PartialEq, Eq, Structural)]
pub struct ClientCellState {
    pub kind: CellKind,
    /// The id of the bot standing there, if any.
    pub pawn: Option<u32>,
    pub item: Option<Item>,
    pub last_observed: u32,
}

impl Default for ClientCellState {
    fn default() -> (r: ClientCellState)
        ensures
            r == (ClientCellState {
                kind: CellKind::Unknown,
                pawn: None,
                item: None,
                last_observed: 0,
            }),
    {
        ClientCellState { kind: CellKind::Unknown, pawn: None, item: None, last_observed: 0 }
    }
}

impl PassableCell for ClientCellState {
    open spec fn spec_is_blocked(&self) -> bool {
        self.pawn is Some || self.kind == CellKind::Blocked
    }

    fn is_blocked(&self) -> (r: bool) {
        self.pawn.is_some() || self.kind == CellKind::Blocked
    }
}

impl ClientCellState {
    pub fn is_unknown(&self) -> (r: bool)
        ensures
            r == (self.kind == CellKind::Unknown),
    {
        self.kind == CellKind::Unknown
    }
}

/// A bot's map of the world, with the id of the bot whose map it last merged.
#[derive(Debug)]
pub struct KnownMap {
    pub map: GridWorld<ClientCellState>,
    pub last_received_map_from: Option<u32>,
}

/// The cell kept when merging `ours` with `theirs`: theirs if it was seen later.
pub open spec fn merged_cell(ours: ClientCellState, theirs: ClientCellState) -> ClientCellState {
    if theirs.last_observed > ours.last_observed {
        theirs
    } else {
        ours
    }
}

impl KnownMap {
    pub fn new(width: usize, height: usize, default: ClientCellState) -> (r: Self)
        requires
            width < isize::MAX,
            height < isize::MAX,
            width * height <= usize::MAX,
        ensures
            r.map.spec_width() == width,
            r.map.spec_height() == height,
            forall|x: int, y: int|
                r.map.spec_in_bounds(x, y) ==> #[trigger] r.map.spec_cell(x, y) == default,
            r.last_received_map_from is None,
    {
        KnownMap { map: GridWorld::new(width, height, default), last_received_map_from: None }
    }

    /// Takes from `other` every cell it saw more recently than this map did.
    pub fn update_from(&mut self, other: &Self, from: u32)
        requires
            other.map.spec_width() <= old(self).map.spec_width(),
            other.map.spec_height() <= old(self).map.spec_height(),
        ensures
            final(self).map.spec_width() == old(self).map.spec_width(),
            final(self).map.spec_height() == old(self).map.spec_height(),
            final(self).last_received_map_from == Some(from),
            forall|x: int, y: int|
                #![trigger final(self).map.spec_cell(x, y)]
                old(self).map.spec_in_bounds(x, y) ==> final(self).map.spec_cell(x, y) == (if other.map.spec_in_bounds(x, y) {
                    merged_cell(old(self).map.spec_cell(x, y), other.map.spec_cell(x, y))
                } else {
                    old(self).map.spec_cell(x, y)
                }),
    {
        let w = other.map.width();
        let h = other.map.height();
        let mut x: usize = 0;
        while x < w
            invariant
                x <= w,
                w == other.map.spec_width(),
                h == other.map.spec_height(),
                w <= old(self).map.spec_width(),
                h <= old(self).map.spec_height(),
                self.map.spec_width() == old(self).map.spec_width(),
                self.map.spec_height() == old(self).map.spec_height(),
                forall|a: int, b: int|
                    #![trigger self.map.spec_cell(a, b)]
                    old(self).map.spec_in_bounds(a, b) ==> self.map.spec_cell(a, b) == (if 0 <= a
                        < x && 0 <= b < h {
                        merged_cell(old(self).map.spec_cell(a, b), other.map.spec_cell(a, b))
                    } else {
                        old(self).map.spec_cell(a, b)
                    }),
            decreases w - x,
        {
            let mut y: usize = 0;
            while y < h
                invariant
                    x < w,
                    y <= h,
                    w == other.map.spec_width(),
                    h == other.map.spec_height(),
                    w <= old(self).map.spec_width(),
                    h <= old(self).map.spec_height(),
                    self.map.spec_width() == old(self).map.spec_width(),
                    self.map.spec_height() == old(self).map.spec_height(),
                    forall|a: int, b: int|
                        #![trigger self.map.spec_cell(a, b)]
                        old(self).map.spec_in_bounds(a, b) ==> self.map.spec_cell(a, b) == (if (0
                            <= a < x && 0 <= b < h) || (a == x && 0 <= b < y) {
                            merged_cell(old(self).map.spec_cell(a, b), other.map.spec_cell(a, b))
                        } else {
                            old(self).map.spec_cell(a, b)
                        }),
                decreases h - y,
            {
                let theirs = *other.map.get_tuple(x, y);
                let ours = *self.map.get_tuple(x, y);
                if theirs.last_observed > ours.last_observed {
                    self.map.set_tuple(x, y, theirs);
                }
                y = y + 1;
            }
            x = x + 1;
        }
        self.last_received_map_from = Some(from);
    }
}

/// `a` and `b` are the same map: the same size, the same cells and the same last sender.
pub open spec fn same_known_map(a: KnownMap, b: KnownMap) -> bool {
    &&& a.map.spec_width() == b.map.spec_width()
    &&& a.map.spec_height() == b.map.spec_height()
    &&& forall|x: int, y: int|
        b.map.spec_in_bounds(x, y) ==> #[trigger] a.map.spec_cell(x, y) == b.map.spec_cell(x, y)
    &&& a.last_received_map_from == b.last_received_map_from
}

impl KnownMap {
    /// A copy of this map.
    pub fn copy(&self) -> (r: KnownMap)
        ensures
            r.map.spec_width() == self.map.spec_width(),
            r.map.spec_height() == self.map.spec_height(),
            forall|x: int, y: int|
                self.map.spec_in_bounds(x, y) ==> #[trigger] r.map.spec_cell(x, y)
                    == self.map.spec_cell(x, y),
            r.last_received_map_from == self.last_received_map_from,
            same_known_map(r, *self),
    {
        KnownMap { map: self.map.copy(), last_received_map_from: self.last_received_map_from }
    }
}

/// A copy of a list of known bots.
pub fn copy_known_bots(v: &Vec<ClientBotData>) -> (r: Vec<ClientBotData>)
    ensures
        r@ == v@,
{
    let mut r: Vec<ClientBotData> = Vec::new();
    let mut i: usize = 0;
    while i < v.len()
        invariant
            i <= v@.len(),
            r@ == v@.take(i as int),
        decreases v@.len() - i,
    {
        r.push(v[i]);
        proof {
            assert(r@ =~= v@.take(i as int + 1));
        }
        i = i + 1;
    }
    assert(v@.take(v@.len() as int) =~= v@);
    r
}

/// Merging a map into itself changes no cell.
pub proof fn lemma_merge_self(c: ClientCellState)
    ensures
        merged_cell(c, c) == c,
{
}

/// Merging keeps the later observation of each cell, whichever map it came from.
pub proof fn lemma_merge_keeps_latest(ours: ClientCellState, theirs: ClientCellState)
    ensures
        merged_cell(ours, theirs).last_observed >= ours.last_observed,
        merged_cell(ours, theirs).last_observed >= theirs.last_observed,
        merged_cell(ours, theirs) == ours || merged_cell(ours, theirs) == theirs,
{
}

/// Merging the same map twice gives what merging it once gave.
pub proof fn lemma_merge_idempotent(ours: ClientCellState, theirs: ClientCellState)
    ensures
        merged_cell(merged_cell(ours, theirs), theirs) == merged_cell(ours, theirs),
{
}

} // verus!
