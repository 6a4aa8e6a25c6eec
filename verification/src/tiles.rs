//! Which tile shows a cell on the map: terrain, fog and item layers.
use vstd::prelude::*;

use crate::known_map::ClientCellState;
use crate::types::{CellKind, Item};

verus! {

/// How much fog covers a cell a bot last saw some ticks ago.
#[derive(Debug, Clone, Copy, PartialEq, Eq, Structural)]
pub enum FogOfWarLevel {
    Full,
    TwoThirds,
    OneThird,
    Clear,
}

/// The fog over a cell of a bot's map at `tick`: full where it is unknown, none where it was
/// seen this tick, a third for fewer than ten ticks, else two thirds.
pub open spec fn spec_fog_level(tick: u32, cell: ClientCellState) -> FogOfWarLevel {
    if cell.kind == CellKind::Unknown {
        FogOfWarLevel::Full
    } else if tick - cell.last_observed == 0 {
        FogOfWarLevel::Clear
    } else if tick - cell.last_observed < 10 {
        FogOfWarLevel::OneThird
    } else {
        FogOfWarLevel::TwoThirds
    }
}

/// The fog over `cell` at `tick` (see `spec_fog_level`).
pub fn fog_level(tick: u32, cell: &ClientCellState) -> (r: FogOfWarLevel)
    requires
        cell.last_observed <= tick,
    ensures
        r == spec_fog_level(tick, *cell),
{
    let since = tick - cell.last_observed;
    if cell.kind == CellKind::Unknown {
        FogOfWarLevel::Full
    } else if since == 0 {
        FogOfWarLevel::Clear
    } else if since < 10 {
        FogOfWarLevel::OneThird
    } else {
        FogOfWarLevel::TwoThirds
    }
}

/// The tile of the fog layer for `level`.
pub fn fog_tile(level: FogOfWarLevel) -> (r: u32)
    ensures
        r == match level {
            FogOfWarLevel::Full => 0u32,
            FogOfWarLevel::TwoThirds => 1u32,
            FogOfWarLevel::OneThird => 2u32,
            FogOfWarLevel::Clear => 3u32,
        },
{
    match level {
        FogOfWarLevel::Full => 0,
        FogOfWarLevel::TwoThirds => 1,
        FogOfWarLevel::OneThird => 2,
        FogOfWarLevel::Clear => 3,
    }
}

/// The tile of the terrain layer for a cell of `kind`.
pub fn terrain_tile(kind: CellKind) -> (r: u32)
    ensures
        r == match kind {
            CellKind::Empty => 0u32,
            CellKind::Unknown => 1u32,
            CellKind::Blocked => 2u32,
        },
{
    match kind {
        CellKind::Empty => 0,
        CellKind::Blocked => 2,
        CellKind::Unknown => 1,
    }
}

/// The tile of the item layer: metal shows, anything else is blank.
pub fn item_tile(item: Option<Item>) -> (r: u32)
    ensures
        r == (if item == Some(Item::Metal) {
            0u32
        } else {
            5u32
        }),
{
    match item {
        Some(Item::Metal) => 0,
        _ => 5,
    }
}

} // verus!
