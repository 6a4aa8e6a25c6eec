//! Bot frames, subsystems, inventories, bot state and the actions a bot can take.
use vstd::prelude::*;

use crate::known_map::{ClientBotData, KnownMap};
use crate::types::{Dir, Energy, Item, Pos, Team};

verus! {

#[derive(Debug, Clone, Copy, PartialEq, Eq, Structural)]
pub enum BuildingKind {
    Small,
}

#[derive(Copy, Clone, Debug, PartialEq, Eq, Structural)]
pub enum FrameKind {
    Flea,
    Tractor,
    Building(BuildingKind),
}

impl Default for FrameKind {
    fn default() -> (r: FrameKind)
        ensures
            r == FrameKind::Flea,
    {
        FrameKind::Flea
    }
}

pub open spec fn spec_frame_build_cost(f: FrameKind) -> u8 {
    match f {
        FrameKind::Flea => 2,
        FrameKind::Tractor => 5,
        FrameKind::Building(BuildingKind::Small) => 7,
    }
}

pub open spec fn spec_frame_slots(f: FrameKind) -> u8 {
    match f {
        FrameKind::Flea => 1,
        FrameKind::Tractor => 6,
        FrameKind::Building(BuildingKind::Small) => 10,
    }
}

impl FrameKind {
    pub fn build_cost(&self) -> (r: u8)
        ensures
            r == spec_frame_build_cost(*self),
    {
        match self {
            FrameKind::Flea => 2,
            FrameKind::Tractor => 5,
            FrameKind::Building(BuildingKind::Small) => 7,
        }
    }

    pub fn slots(&self) -> (r: u8)
        ensures
            r == spec_frame_slots(*self),
    {
        match self {
            FrameKind::Flea => 1,
            FrameKind::Tractor => 6,
            FrameKind::Building(BuildingKind::Small) => 10,
        }
    }

    pub fn is_building(&self) -> (r: bool)
        ensures
            r == (*self is Building),
    {
        matches!(self, FrameKind::Building(_))
    }

    pub fn is_basic(&self) -> (r: bool)
        ensures
            r == (*self is Flea),
    {
        matches!(self, FrameKind::Flea)
    }
}

#[derive(Debug, Clone, Copy, PartialEq, Eq, Hash, Structural)]
pub enum Subsystem {
    PlasmaRifle,
    PowerCell,
    CargoBay,
    PrecisionOptics,
    OpticalTransciever,
    MiningDrill,
    Assembler,
    Generator,
}

/// The number of subsystem kinds.
pub const SUBSYSTEM_COUNT: usize = 8;

/// The discriminant of a subsystem kind.
pub open spec fn subsystem_index(s: Subsystem) -> int {
    match s {
        Subsystem::PlasmaRifle => 0,
        Subsystem::PowerCell => 1,
        Subsystem::CargoBay => 2,
        Subsystem::PrecisionOptics => 3,
        Subsystem::OpticalTransciever => 4,
        Subsystem::MiningDrill => 5,
        Subsystem::Assembler => 6,
        Subsystem::Generator => 7,
    }
}

/// The subsystem kind with the given discriminant.
pub open spec fn spec_subsystem_from_index(i: int) -> Subsystem {
    if i == 0 {
        Subsystem::PlasmaRifle
    } else if i == 1 {
        Subsystem::PowerCell
    } else if i == 2 {
        Subsystem::CargoBay
    } else if i == 3 {
        Subsystem::PrecisionOptics
    } else if i == 4 {
        Subsystem::OpticalTransciever
    } else if i == 5 {
        Subsystem::MiningDrill
    } else if i == 6 {
        Subsystem::Assembler
    } else {
        Subsystem::Generator
    }
}

pub open spec fn spec_slots_required(s: Subsystem) -> u8 {
    match s {
        Subsystem::PlasmaRifle => 1,
        Subsystem::PowerCell => 1,
        Subsystem::CargoBay => 1,
        Subsystem::PrecisionOptics => 2,
        Subsystem::OpticalTransciever => 2,
        Subsystem::MiningDrill => 3,
        Subsystem::Assembler => 5,
        Subsystem::Generator => 5,
    }
}

impl Subsystem {
    pub fn slots_required(&self) -> (r: u8)
        ensures
            r == spec_slots_required(*self),
    {
        match self {
            Subsystem::PlasmaRifle => 1,
            Subsystem::PowerCell => 1,
            Subsystem::CargoBay => 1,
            Subsystem::PrecisionOptics => 2,
            Subsystem::OpticalTransciever => 2,
            Subsystem::MiningDrill => 3,
            Subsystem::Assembler => 5,
            Subsystem::Generator => 5,
        }
    }

    /// Building a subsystem costs one tick per slot it takes.
    pub fn build_cost(&self) -> (r: u8)
        ensures
            r == spec_slots_required(*self),
    {
        self.slots_required()
    }

    pub fn as_u8(&self) -> (r: u8)
        ensures
            r == subsystem_index(*self),
    {
        match self {
            Subsystem::PlasmaRifle => 0,
            Subsystem::PowerCell => 1,
            Subsystem::CargoBay => 2,
            Subsystem::PrecisionOptics => 3,
            Subsystem::OpticalTransciever => 4,
            Subsystem::MiningDrill => 5,
            Subsystem::Assembler => 6,
            Subsystem::Generator => 7,
        }
    }

    /// The subsystem with the given discriminant, if there is one.
    pub fn from_repr(v: u8) -> (r: Option<Subsystem>)
        ensures
            r is Some <==> v < 8,
            r matches Some(s) ==> s == spec_subsystem_from_index(v as int) && subsystem_index(s)
                == v,
    {
        if v < 8 {
            Some(Self::from_u8(v))
        } else {
            None
        }
    }

    /// The subsystem with the given discriminant, which must name one.
    pub fn from_u8(v: u8) -> (r: Subsystem)
        requires
            v < 8,
        ensures
            r == spec_subsystem_from_index(v as int),
            subsystem_index(r) == v,
    {
        match v {
            0 => Subsystem::PlasmaRifle,
            1 => Subsystem::PowerCell,
            2 => Subsystem::CargoBay,
            3 => Subsystem::PrecisionOptics,
            4 => Subsystem::OpticalTransciever,
            5 => Subsystem::MiningDrill,
            6 => Subsystem::Assembler,
            _ => Subsystem::Generator,
        }
    }
}

/// A discriminant turned into a subsystem and back is unchanged, and the other way round.
pub proof fn lemma_subsystem_repr_roundtrip(s: Subsystem, i: int)
    ensures
        spec_subsystem_from_index(subsystem_index(s)) == s,
        0 <= i < 8 ==> subsystem_index(spec_subsystem_from_index(i)) == i,
{
}

/// How many of each subsystem kind a bot carries.
#[derive(Clone, Copy, Debug)]
pub struct Subsystems {
    counts: [u8; 8],
}

/// The slots taken by `counts[k]` subsystems of each kind `k`.
pub open spec fn slots_taken(counts: Seq<u8>) -> int {
    counts[0] * 1 + counts[1] * 1 + counts[2] * 1 + counts[3] * 2 + counts[4] * 2 + counts[5] * 3
        + counts[6] * 5 + counts[7] * 5
}

impl Subsystems {
    /// The number of subsystems of each kind, by discriminant.
    pub closed spec fn view(&self) -> Seq<u8> {
        self.counts@
    }

    pub open spec fn count(&self, s: Subsystem) -> u8 {
        self@[subsystem_index(s)]
    }

    pub proof fn lemma_len(&self)
        ensures
            self@.len() == 8,
    {
    }

    /// The counts of `list` added up per kind.
    pub open spec fn spec_from_list(list: Seq<(Subsystem, u8)>) -> Seq<u8>
        decreases list.len(),
    {
        if list.len() == 0 {
            seq![0u8, 0u8, 0u8, 0u8, 0u8, 0u8, 0u8, 0u8]
        } else {
            let prev = Self::spec_from_list(list.drop_last());
            let (s, n) = list.last();
            prev.update(subsystem_index(s), (prev[subsystem_index(s)] + n) as u8)
        }
    }

    pub open spec fn list_fits(list: Seq<(Subsystem, u8)>) -> bool
        decreases list.len(),
    {
        list.len() == 0 || (Self::list_fits(list.drop_last()) && Self::spec_from_list(
            list.drop_last(),
        )[subsystem_index(list.last().0)] + list.last().1 <= u8::MAX)
    }

    /// Subsystems with the counts in `list`; a kind listed twice gets both counts.
    pub fn new(list: &[(Subsystem, u8)]) -> (r: Subsystems)
        requires
            Self::list_fits(list@),
        ensures
            r@ == Self::spec_from_list(list@),
    {
        let mut counts: [u8; 8] = [0u8; 8];
        let mut i: usize = 0;
        proof {
            assert(counts@ =~= Self::spec_from_list(list@.take(0)));
        }
        while i < list.len()
            invariant
                i <= list@.len(),
                Self::list_fits(list@),
                counts@ == Self::spec_from_list(list@.take(i as int)),
            decreases list@.len() - i,
        {
            let (s, n) = list[i];
            proof {
                assert(list@.take(i as int + 1).drop_last() =~= list@.take(i as int));
                lemma_list_fits_prefix(list@, i as int + 1);
                lemma_from_list_len(list@.take(i as int));
            }
            let k = s.as_u8() as usize;
            counts[k] = counts[k] + n;
            proof {
                assert(counts@ =~= Self::spec_from_list(list@.take(i as int + 1)));
            }
            i = i + 1;
        }
        proof {
            assert(list@.take(list@.len() as int) =~= list@);
        }
        Subsystems { counts }
    }

    pub fn get(&self, s: Subsystem) -> (r: u8)
        ensures
            r == self.count(s),
    {
        self.counts[s.as_u8() as usize]
    }

    pub fn has(&self, s: Subsystem) -> (r: bool)
        ensures
            r == (self.count(s) > 0),
    {
        self.get(s) > 0
    }

    /// The slots these subsystems take in a frame.
    pub fn size(&self) -> (r: u32)
        ensures
            r == slots_taken(self@),
    {
        let c = &self.counts;
        c[0] as u32 * 1 + c[1] as u32 * 1 + c[2] as u32 * 1 + c[3] as u32 * 2 + c[4] as u32 * 2
            + c[5] as u32 * 3 + c[6] as u32 * 5 + c[7] as u32 * 5
    }

    /// Each kind with its count, in declaration order.
    pub fn iter(&self) -> (r: Vec<(Subsystem, u8)>)
        ensures
            r@.len() == 8,
            forall|i: int|
                0 <= i < 8 ==> #[trigger] r@[i] == (spec_subsystem_from_index(i), self@[i]),
    {
        let mut r: Vec<(Subsystem, u8)> = Vec::new();
        let mut i: u8 = 0;
        while i < 8
            invariant
                i <= 8,
                self@.len() == 8,
                r@.len() == i,
                forall|j: int|
                    0 <= j < i ==> #[trigger] r@[j] == (spec_subsystem_from_index(j), self@[j]),
            decreases 8 - i,
        {
            r.push((Subsystem::from_u8(i), self.counts[i as usize]));
            i = i + 1;
        }
        r
    }

    pub fn eq(&self, other: &Subsystems) -> (r: bool)
        ensures
            r == (self@ == other@),
    {
        let mut i: usize = 0;
        while i < 8
            invariant
                i <= 8,
                self@.len() == 8,
                other@.len() == 8,
                forall|j: int| 0 <= j < i ==> self@[j] == other@[j],
            decreases 8 - i,
        {
            if self.counts[i] != other.counts[i] {
                return false;
            }
            i = i + 1;
        }
        assert(self@ =~= other@);
        true
    }
}

proof fn lemma_from_list_len(list: Seq<(Subsystem, u8)>)
    ensures
        Subsystems::spec_from_list(list).len() == 8,
    decreases list.len(),
{
    if list.len() > 0 {
        lemma_from_list_len(list.drop_last());
    }
}

proof fn lemma_list_fits_prefix(list: Seq<(Subsystem, u8)>, n: int)
    requires
        Subsystems::list_fits(list),
        0 <= n <= list.len(),
    ensures
        Subsystems::list_fits(list.take(n)),
    decreases list.len() - n,
{
    if n < list.len() {
        lemma_list_fits_prefix(list, n + 1);
        assert(list.take(n + 1).drop_last() =~= list.take(n));
    } else {
        assert(list.take(n) =~= list);
    }
}

/// The discriminant of an item.
pub open spec fn item_index(i: Item) -> int {
    match i {
        Item::Crumb => 0,
        Item::Fent => 1,
        Item::Truffle => 2,
        Item::Metal => 3,
    }
}

pub open spec fn spec_item_from_index(i: int) -> Item {
    if i == 0 {
        Item::Crumb
    } else if i == 1 {
        Item::Fent
    } else if i == 2 {
        Item::Truffle
    } else {
        Item::Metal
    }
}

pub fn item_as_usize(i: Item) -> (r: usize)
    ensures
        r == item_index(i),
{
    match i {
        Item::Crumb => 0,
        Item::Fent => 1,
        Item::Truffle => 2,
        Item::Metal => 3,
    }
}

fn item_from_index(i: usize) -> (r: Item)
    requires
        i < 4,
    ensures
        r == spec_item_from_index(i as int),
        item_index(r) == i,
{
    match i {
        0 => Item::Crumb,
        1 => Item::Fent,
        2 => Item::Truffle,
        _ => Item::Metal,
    }
}

/// Items a bot carries, with the capacity its cargo bays give it.
#[derive(Clone, Copy, Debug)]
pub struct Inventory {
    capacity: u32,
    counts: [u32; 4],
}

impl Inventory {
    /// The number of items of each kind, by discriminant.
    pub closed spec fn view(&self) -> Seq<u32> {
        self.counts@
    }

    pub open spec fn count(&self, i: Item) -> u32 {
        self@[item_index(i)]
    }

    pub closed spec fn spec_capacity(&self) -> u32 {
        self.capacity
    }

    /// How many items the cargo bays hold.
    pub fn capacity(&self) -> (r: u32)
        ensures
            r == self.spec_capacity(),
    {
        self.capacity
    }

    pub open spec fn spec_size(&self) -> int {
        self@[0] + self@[1] + self@[2] + self@[3]
    }

    pub proof fn lemma_len(&self)
        ensures
            self@.len() == 4,
    {
    }

    /// The count `items` gives `it`: the last one listed for it, or zero.
    pub open spec fn spec_list_count(items: Seq<(Item, u32)>, it: Item) -> u32
        decreases items.len(),
    {
        if items.len() == 0 {
            0
        } else if items.last().0 == it {
            items.last().1
        } else {
            Self::spec_list_count(items.drop_last(), it)
        }
    }

    /// An inventory with the given capacity holding `items`; an item listed twice gets the
    /// later count.
    pub fn new(capacity: u32, items: &[(Item, u32)]) -> (r: Inventory)
        ensures
            r.spec_capacity() == capacity,
            r@.len() == 4,
            forall|it: Item| #[trigger] r.count(it) == Self::spec_list_count(items@, it),
    {
        let mut counts: [u32; 4] = [0u32; 4];
        let mut i: usize = 0;
        while i < items.len()
            invariant
                i <= items@.len(),
                counts@.len() == 4,
                forall|it: Item|
                    #[trigger] counts@[item_index(it)] == Self::spec_list_count(
                        items@.take(i as int),
                        it,
                    ),
            decreases items@.len() - i,
        {
            let (it, n) = items[i];
            let k = item_as_usize(it);
            counts[k] = n;
            proof {
                assert(items@.take(i as int + 1).drop_last() =~= items@.take(i as int));
                assert forall|it2: Item|
                    #[trigger] counts@[item_index(it2)] == Self::spec_list_count(
                        items@.take(i as int + 1),
                        it2,
                    ) by {
                    if it2 != it {
                        assert(item_index(it2) != item_index(it));
                    }
                }
            }
            i = i + 1;
        }
        proof {
            assert(items@.take(items@.len() as int) =~= items@);
        }
        Inventory { capacity, counts }
    }

    pub fn get(&self, item: Item) -> (r: u32)
        ensures
            r == self.count(item),
    {
        self.counts[item_as_usize(item)]
    }

    pub fn has(&self, item: Item) -> (r: bool)
        ensures
            r == (self.count(item) > 0),
    {
        self.get(item) > 0
    }

    /// Adds `n` of `item`; the count stops at `u32::MAX`.
    pub fn add(&mut self, item: Item, n: u32)
        ensures
            final(self).spec_capacity() == old(self).spec_capacity(),
            final(self)@ == old(self)@.update(
                item_index(item),
                (if old(self).count(item) + n <= u32::MAX {
                    old(self).count(item) + n
                } else {
                    u32::MAX as int
                }) as u32,
            ),
    {
        let k = item_as_usize(item);
        self.counts[k] = self.counts[k].saturating_add(n);
    }

    /// Takes `n` of `item` away; `None`, and nothing taken, when there are fewer.
    pub fn remove(&mut self, item: Item, n: u32) -> (r: Option<()>)
        ensures
            final(self).spec_capacity() == old(self).spec_capacity(),
            r is Some <==> old(self).count(item) >= n,
            r is Some ==> final(self)@ == old(self)@.update(
                item_index(item),
                (old(self).count(item) - n) as u32,
            ),
            r is None ==> final(self)@ == old(self)@,
    {
        let k = item_as_usize(item);
        if self.counts[k] >= n {
            self.counts[k] = self.counts[k] - n;
            Some(())
        } else {
            None
        }
    }

    /// The number of items carried.
    pub fn size(&self) -> (r: u64)
        ensures
            r == self.spec_size(),
    {
        self.counts[0] as u64 + self.counts[1] as u64 + self.counts[2] as u64
            + self.counts[3] as u64
    }

    pub fn is_empty(&self) -> (r: bool)
        ensures
            r == (self.spec_size() == 0),
    {
        self.size() == 0
    }

    /// Each item kind carried, with its count, in declaration order.
    pub open spec fn spec_items(&self) -> Seq<(Item, u32)> {
        Seq::new(4, |i: int| (spec_item_from_index(i), self@[i])).filter(|e: (Item, u32)| e.1 > 0)
    }

    /// Each item kind carried, with its count, in declaration order.
    pub fn iter(&self) -> (r: Vec<(Item, u32)>)
        ensures
            r@ == self.spec_items(),
    {
        let mut r: Vec<(Item, u32)> = Vec::new();
        let ghost all = Seq::new(4, |i: int| (spec_item_from_index(i), self@[i]));
        let ghost keep = |e: (Item, u32)| e.1 > 0;
        let mut i: usize = 0;
        proof {
            assert(all.take(0) =~= Seq::<(Item, u32)>::empty());
            reveal(Seq::filter);
        }
        while i < 4
            invariant
                i <= 4,
                self@.len() == 4,
                all == Seq::new(4, |i: int| (spec_item_from_index(i), self@[i])),
                keep == (|e: (Item, u32)| e.1 > 0),
                r@ == all.take(i as int).filter(keep),
            decreases 4 - i,
        {
            let c = self.counts[i];
            proof {
                assert(all.take(i as int + 1) =~= all.take(i as int).push(all[i as int]));
                all.take(i as int).lemma_filter_push(all[i as int], keep);
            }
            if c > 0 {
                r.push((item_from_index(i), c));
            }
            i = i + 1;
        }
        proof {
            assert(all.take(4) =~= all);
        }
        r
    }
}

/// Taking away what was just added gives back the counts there were, when the adding did not
/// reach `u32::MAX`.
pub proof fn lemma_add_then_remove(counts: Seq<u32>, item: Item, n: u32)
    requires
        counts.len() == 4,
        counts[item_index(item)] + n <= u32::MAX,
    ensures
        ({
            let added = counts.update(item_index(item), (counts[item_index(item)] + n) as u32);
            &&& added[item_index(item)] >= n
            &&& added.update(item_index(item), (added[item_index(item)] - n) as u32) == counts
        }),
{
    let added = counts.update(item_index(item), (counts[item_index(item)] + n) as u32);
    assert(added.update(item_index(item), (added[item_index(item)] - n) as u32) =~= counts);
}

/// An action a bot asks for.
#[derive(Debug, Clone)]
pub enum Action {
    Noop,
    MoveDir(Dir),
    MoveTo(Vec<Pos>),
    Harvest(Dir),
    Pickup(Item, Option<Dir>),
    Drop(Item, Option<Dir>),
    Transfer(Item, Dir),
    Build(Dir, FrameKind, Subsystems),
    Recharge(Dir),
    Attack(Dir),
}

pub type ActionId = u32;

/// An action with the id the bot gave it and the bot's reason for it.
#[derive(Debug, Clone)]
pub struct ActionWithId {
    pub id: ActionId,
    pub action: Action,
    pub reason: &'static str,
}

#[derive(Debug, Clone, PartialEq, Eq)]
pub enum ActionStatus {
    Success,
    Failure(String),
    Cancelled,
}

impl ActionStatus {
    pub fn is_success(&self) -> (r: bool)
        ensures
            r == (*self is Success),
    {
        matches!(self, ActionStatus::Success)
    }

    pub fn is_failure(&self) -> (r: bool)
        ensures
            r == (*self is Failure),
    {
        matches!(self, ActionStatus::Failure(_))
    }

    pub fn is_cancelled(&self) -> (r: bool)
        ensures
            r == (*self is Cancelled),
    {
        matches!(self, ActionStatus::Cancelled)
    }
}

/// How an action ended.
#[derive(Debug, Clone)]
pub struct ActionResult {
    pub action: Action,
    pub id: ActionId,
    pub status: ActionStatus,
    pub reason: &'static str,
    pub completed_tick: u32,
}

/// The ticks a build takes: the frame's cost and each subsystem's cost per unit.
pub open spec fn spec_build_ticks(frame: FrameKind, subsystems: Seq<u8>) -> int {
    spec_frame_build_cost(frame) + slots_taken(subsystems)
}

/// The ticks an action takes, if it has a fixed length.
pub open spec fn spec_ticks_to_complete(a: Action) -> Option<int> {
    match a {
        Action::MoveDir(_) => Some(1),
        Action::MoveTo(path) => Some(path@.len() - 1),
        Action::Harvest(_) => Some(1),
        Action::Noop => Some(1),
        Action::Pickup(..) => Some(1),
        Action::Drop(..) => Some(1),
        Action::Transfer(..) => Some(1),
        Action::Build(_, frame, subsystems) => Some(spec_build_ticks(frame, subsystems@)),
        Action::Recharge(_) => None,
        Action::Attack(_) => Some(1),
    }
}

/// The energy an action uses per tick.
pub open spec fn spec_energy_per_tick(a: Action) -> u32 {
    match a {
        Action::MoveDir(_) => 1,
        Action::MoveTo(_) => 1,
        Action::Harvest(_) => 5,
        Action::Noop => 0,
        Action::Pickup(..) => 2,
        Action::Drop(..) => 1,
        Action::Transfer(..) => 2,
        Action::Build(_, _, _) => 2,
        Action::Recharge(_) => 0,
        Action::Attack(_) => 4,
    }
}

impl Action {
    /// Defined for a non-empty path and a build costing at most `u8::MAX`.
    pub fn ticks_to_complete(&self) -> (r: Option<u32>)
        requires
            *self matches Action::MoveTo(path) ==> path@.len() >= 1 && path@.len() - 1 <= u32::MAX,
            *self matches Action::Build(_, frame, subsystems) ==> spec_build_ticks(
                frame,
                subsystems@,
            ) <= u8::MAX,
        ensures
            r matches Some(t) ==> spec_ticks_to_complete(*self) == Some(t as int),
            r is None ==> spec_ticks_to_complete(*self) is None,
    {
        match self {
            Action::MoveDir(_) => Some(1),
            Action::MoveTo(path) => Some((path.len() - 1) as u32),
            Action::Harvest(_) => Some(1),
            Action::Noop => Some(1),
            Action::Pickup(..) => Some(1),
            Action::Drop(..) => Some(1),
            Action::Transfer(..) => Some(1),
            Action::Build(_dir, frame_kind, subsystems) => {
                let frame_kind_cost = frame_kind.build_cost() as u32;
                let subsystems_cost = subsystems.size();
                Some(frame_kind_cost + subsystems_cost)
            },
            Action::Recharge(_dir) => None,
            Action::Attack(_) => Some(1),
        }
    }

    pub fn energy_per_tick(&self) -> (r: Energy)
        ensures
            r.0 == spec_energy_per_tick(*self),
    {
        match self {
            Action::MoveDir(_) => Energy(1),
            Action::MoveTo(_) => Energy(1),
            Action::Harvest(_) => Energy(5),
            Action::Noop => Energy(0),
            Action::Pickup(..) => Energy(2),
            Action::Drop(..) => Energy(1),
            Action::Transfer(..) => Energy(2),
            Action::Build(_dir, _frame_kind, _subsystems) => Energy(2),
            Action::Recharge(_dir) => Energy(0),
            Action::Attack(_) => Energy(4),
        }
    }
}

/// A bot's state as the server keeps it.
#[derive(Debug)]
pub struct BotData {
    pub frame: FrameKind,
    pub subsystems: Subsystems,
    pub energy: Energy,
    pub inventory: Inventory,
    pub pos: Pos,
    pub team: Team,
    pub known_map: KnownMap,
    pub known_bots: Vec<ClientBotData>,
}

/// The most energy a bot with this frame and these subsystems can hold.
pub open spec fn spec_max_energy(frame: FrameKind, subsystems: Seq<u8>) -> int {
    (match frame {
        FrameKind::Flea => 100int,
        FrameKind::Tractor => 100int,
        FrameKind::Building(BuildingKind::Small) => 500int,
    }) + subsystems[subsystem_index(Subsystem::PowerCell)] * 100
}

/// Whether a bot with this frame and these subsystems can take the action at all.
pub open spec fn spec_capable(frame: FrameKind, subsystems: Seq<u8>, a: Action) -> bool {
    match a {
        Action::Noop => true,
        Action::MoveDir(_) => !(frame is Building),
        Action::MoveTo(_) => !(frame is Building),
        Action::Harvest(_) => subsystems[subsystem_index(Subsystem::MiningDrill)] > 0,
        Action::Pickup(..) => subsystems[subsystem_index(Subsystem::CargoBay)] > 0,
        Action::Drop(..) => subsystems[subsystem_index(Subsystem::CargoBay)] > 0,
        Action::Transfer(..) => subsystems[subsystem_index(Subsystem::CargoBay)] > 0,
        Action::Build(_, _, _) => subsystems[subsystem_index(Subsystem::Assembler)] > 0,
        Action::Recharge(_) => true,
        Action::Attack(_) => subsystems[subsystem_index(Subsystem::PlasmaRifle)] > 0,
    }
}

impl BotData {
    /// A bot whose inventory capacity is its number of cargo bays; its subsystems must fit in
    /// the frame's slots.
    pub fn new(
        frame_kind: FrameKind,
        subsystems: Subsystems,
        pos: Pos,
        team: Team,
        energy: Energy,
        known_map: KnownMap,
        known_bots: Vec<ClientBotData>,
    ) -> (r: Self)
        requires
            slots_taken(subsystems@) <= spec_frame_slots(frame_kind),
        ensures
            r.frame == frame_kind,
            r.subsystems@ == subsystems@,
            r.pos == pos,
            r.team == team,
            r.energy == energy,
            r.inventory.spec_capacity() == subsystems.count(Subsystem::CargoBay),
            r.inventory.spec_size() == 0,
            r.known_map == known_map,
            r.known_bots == known_bots,
    {
        let cargo = subsystems.get(Subsystem::CargoBay) as u32;
        let inventory = Inventory::new(cargo, &[]);
        proof {
            inventory.lemma_len();
            assert(inventory.count(Item::Crumb) == 0);
            assert(inventory.count(Item::Fent) == 0);
            assert(inventory.count(Item::Truffle) == 0);
            assert(inventory.count(Item::Metal) == 0);
        }
        BotData {
            frame: frame_kind,
            energy,
            inventory,
            subsystems,
            pos,
            team,
            known_map,
            known_bots,
        }
    }

    pub fn max_energy(&self) -> (r: Energy)
        ensures
            r.0 == spec_max_energy(self.frame, self.subsystems@),
    {
        let base: u32 = match self.frame {
            FrameKind::Flea => 100,
            FrameKind::Tractor => 100,
            FrameKind::Building(BuildingKind::Small) => 500,
        };
        let power_cell_count = self.subsystems.get(Subsystem::PowerCell) as u32;
        Energy(base + power_cell_count * 100)
    }

    pub fn is_capable_of(&self, action: &Action) -> (r: bool)
        ensures
            r == spec_capable(self.frame, self.subsystems@, *action),
    {
        match action {
            Action::Noop => true,
            Action::MoveDir(_) | Action::MoveTo(_) => match self.frame {
                FrameKind::Flea => true,
                FrameKind::Tractor => true,
                FrameKind::Building(_building_kind) => false,
            },
            Action::Harvest(_dir) => self.subsystems.has(Subsystem::MiningDrill),
            Action::Pickup(..) => self.subsystems.has(Subsystem::CargoBay),
            Action::Drop(..) => self.subsystems.has(Subsystem::CargoBay),
            Action::Transfer(..) => self.subsystems.has(Subsystem::CargoBay),
            Action::Build(_dir, _frame_kind, _subsystems) => self.subsystems.has(
                Subsystem::Assembler,
            ),
            Action::Recharge(_dir) => true,
            Action::Attack(_dir) => self.subsystems.has(Subsystem::PlasmaRifle),
        }
    }
}

/// What the server tells a bot each tick.
pub struct BotUpdate {
    pub tick: u32,
    pub bot_data: BotData,
    /// The action the bot is still carrying out.
    pub in_progress_action: Option<ActionWithId>,
    /// The action that ended this tick.
    pub completed_action: Option<ActionResult>,
}

/// `a` and `b` are the same action, a path compared by its positions and subsystems by
/// their counts.
pub open spec fn same_action(a: Action, b: Action) -> bool {
    match (a, b) {
        (Action::MoveTo(p), Action::MoveTo(q)) => p@ == q@,
        (Action::Build(d, f, s), Action::Build(e, g, t)) => d == e && f == g && s@ == t@,
        _ => a == b,
    }
}

/// Subsystems with the counts `v`.
pub open spec fn subsystems_with(v: Seq<u8>) -> Subsystems {
    choose|s: Subsystems| s@ == v
}

/// Every eight counts are the counts of some subsystems.
pub proof fn lemma_subsystems_with(v: Seq<u8>)
    requires
        v.len() == 8,
    ensures
        subsystems_with(v)@ == v,
{
    let s = Subsystems { counts: [v[0], v[1], v[2], v[3], v[4], v[5], v[6], v[7]] };
    assert(s@ =~= v);
}

/// `a` and `b` are the same status, a failure compared by its message.
pub open spec fn same_status(a: ActionStatus, b: ActionStatus) -> bool {
    match (a, b) {
        (ActionStatus::Failure(m), ActionStatus::Failure(n)) => m@ == n@,
        _ => a == b,
    }
}

/// A copy of a path.
pub fn copy_path(v: &Vec<Pos>) -> (r: Vec<Pos>)
    ensures
        r@ == v@,
{
    let mut r: Vec<Pos> = Vec::new();
    let mut i: usize = 0;
    while i < v.len()
        invariant
            i <= v@.len(),
            r@ == v@.take(i as int),
        decreases v@.len() - i,
    {
        r.push(v[i]);
        proof {
            assert(r@ =~= v@.take(i as int + 1));
        }
        i = i + 1;
    }
    assert(v@.take(v@.len() as int) =~= v@);
    r
}

impl Action {
    /// A copy of this action.
    pub fn copy(&self) -> (r: Action)
        ensures
            same_action(r, *self),
    {
        match self {
            Action::Noop => Action::Noop,
            Action::MoveDir(d) => Action::MoveDir(*d),
            Action::MoveTo(path) => Action::MoveTo(copy_path(path)),
            Action::Harvest(d) => Action::Harvest(*d),
            Action::Pickup(i, d) => Action::Pickup(*i, *d),
            Action::Drop(i, d) => Action::Drop(*i, *d),
            Action::Transfer(i, d) => Action::Transfer(*i, *d),
            Action::Build(d, f, s) => Action::Build(*d, *f, *s),
            Action::Recharge(d) => Action::Recharge(*d),
            Action::Attack(d) => Action::Attack(*d),
        }
    }
}

impl ActionStatus {
    /// A copy of this status.
    pub fn copy(&self) -> (r: ActionStatus)
        ensures
            same_status(r, *self),
    {
        match self {
            ActionStatus::Success => ActionStatus::Success,
            ActionStatus::Failure(m) => ActionStatus::Failure(m.clone()),
            ActionStatus::Cancelled => ActionStatus::Cancelled,
        }
    }
}

impl ActionResult {
    /// A copy of this result.
    pub fn copy(&self) -> (r: ActionResult)
        ensures
            same_action(r.action, self.action),
            r.id == self.id,
            same_status(r.status, self.status),
            r.reason == self.reason,
            r.completed_tick == self.completed_tick,
    {
        ActionResult {
            action: self.action.copy(),
            id: self.id,
            status: self.status.copy(),
            reason: self.reason,
            completed_tick: self.completed_tick,
        }
    }
}

/// `r` holds what `s` holds: the same fields, the same known bots and known map cells.
pub open spec fn same_data(r: BotData, s: BotData) -> bool {
    &&& r.frame == s.frame
    &&& r.subsystems == s.subsystems
    &&& r.energy == s.energy
    &&& r.inventory == s.inventory
    &&& r.pos == s.pos
    &&& r.team == s.team
    &&& r.known_bots@ == s.known_bots@
    &&& r.known_map.last_received_map_from == s.known_map.last_received_map_from
    &&& r.known_map.map.spec_width() == s.known_map.map.spec_width()
    &&& r.known_map.map.spec_height() == s.known_map.map.spec_height()
    &&& forall|x: int, y: int|
        s.known_map.map.spec_in_bounds(x, y) ==> #[trigger] r.known_map.map.spec_cell(x, y)
            == s.known_map.map.spec_cell(x, y)
}

impl BotData {
    /// A copy of this bot's state.
    pub fn copy(&self) -> (r: BotData)
        ensures
            same_data(r, *self),
    {
        BotData {
            frame: self.frame,
            subsystems: self.subsystems,
            energy: self.energy,
            inventory: self.inventory,
            pos: self.pos,
            team: self.team,
            known_map: self.known_map.copy(),
            known_bots: crate::known_map::copy_known_bots(&self.known_bots),
        }
    }
}

/// What a bot's behaviour decided.
pub enum DecisionResult {
    /// No decision made, continue to next behavior
    Continue,
    /// Wait for current action to complete
    Wait,
    /// Perform a new action
    Act(Action, &'static str),
}

impl DecisionResult {
    /// This decision, or when it is `Continue`, whatever `next` decides.
    pub fn or_continue<F: FnOnce() -> DecisionResult>(self, next: F) -> (r: DecisionResult)
        requires
            self is Continue ==> next.requires(()),
        ensures
            self is Continue ==> next.ensures((), r),
            !(self is Continue) ==> r == self,
    {
        match self {
            DecisionResult::Continue => next(),
            _ => self,
        }
    }
}

} // verus!
