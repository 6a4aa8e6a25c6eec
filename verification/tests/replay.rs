use std::collections::HashMap;

use swarm_lib::bot::{BotData, FrameKind, Subsystems};
use swarm_lib::game::{BotEntry, CellState, PartiallyBuiltBot, ServerGrid};
use swarm_lib::gridworld::GridWorld;
use swarm_lib::known_map::{ClientCellState, KnownMap};
use swarm_lib::replay::{extract_live_data, restore_replay_at_tick, BotComponents, TickData};
use swarm_lib::types::{Energy, Pos, Team};
use swarm_lib::world::World;

fn data(pos: Pos, energy: u32) -> BotData {
    BotData::new(
        FrameKind::Flea,
        Subsystems::new(&[]),
        pos,
        Team::Player,
        Energy(energy),
        KnownMap::new(4, 4, ClientCellState::default()),
        Vec::new(),
    )
}

fn live_world() -> World {
    let mut grid: ServerGrid = GridWorld::new(4, 4, CellState::empty());
    grid.set(Pos((0, 0)), CellState::new_with_pawn(10));
    let bots = vec![BotEntry { entity: 10, bot_id: 1, data: data(Pos((0, 0)), 50), current_action: None, past_actions: Vec::new() }];
    World { tick: 0, grid, bots, partially_built: Vec::new(), next_entity: 11, next_bot_id: 2 }
}

fn partial(ticks: u32) -> PartiallyBuiltBot {
    PartiallyBuiltBot {
        frame_kind: FrameKind::Flea,
        subsystems: Subsystems::new(&[]),
        pos: Pos((3, 3)),
        team: Team::Player,
        ticks_required: 5,
        ticks_remaining: ticks,
    }
}

fn recorded() -> TickData {
    let mut grid: ServerGrid = GridWorld::new(4, 4, CellState::empty());
    grid.set(Pos((1, 0)), CellState::new_with_pawn(100));
    grid.set(Pos((2, 2)), CellState::new_with_pawn(200));
    let mut building = CellState::empty();
    building.partially_built_bot = Some(300);
    grid.set(Pos((3, 3)), building);
    TickData {
        tick: 0,
        bot_data: vec![
            (1, BotComponents { bot_data: data(Pos((1, 0)), 40), current_action: None, past_actions: Vec::new() }),
            (7, BotComponents { bot_data: data(Pos((2, 2)), 30), current_action: None, past_actions: Vec::new() }),
        ],
        grid_world: grid,
        partially_built_bots: vec![(300, partial(4))],
    }
}

#[test]
fn a_recorded_tick_is_put_back_with_live_entities() {
    let mut w = live_world();
    let mut map: HashMap<u64, u64> = HashMap::new();
    map.insert(100, 10);
    restore_replay_at_tick(&mut w, Some(recorded()), &mut map);
    assert_eq!(w.bots.len(), 2);
    assert_eq!(w.bots[0].entity, 10);
    assert_eq!(w.bots[0].data.pos, Pos((1, 0)));
    assert_eq!(w.bots[0].data.energy, Energy(40));
    assert_eq!(w.bots[1].entity, 11);
    assert_eq!(w.bots[1].bot_id, 2);
    assert_eq!(w.bots[1].data.energy, Energy(30));
    assert_eq!(w.partially_built.len(), 1);
    assert_eq!(w.partially_built[0].0, 12);
    assert_eq!(w.next_entity, 13);
    assert_eq!(w.next_bot_id, 3);
    assert_eq!(map.get(&200), Some(&11));
    assert_eq!(map.get(&300), Some(&12));
    assert_eq!(w.grid.get(Pos((1, 0))).pawn, Some(10));
    assert_eq!(w.grid.get(Pos((2, 2))).pawn, Some(11));
    assert_eq!(w.grid.get(Pos((3, 3))).partially_built_bot, Some(12));
    assert_eq!(w.grid.get(Pos((0, 0))).pawn, None);

    restore_replay_at_tick(&mut w, Some(recorded()), &mut map);
    assert_eq!(w.bots.len(), 3);
    assert_eq!(w.partially_built.len(), 1);
    assert_eq!(w.partially_built[0].1.ticks_remaining, 4);
}

#[test]
fn without_a_recorded_tick_nothing_changes() {
    let mut w = live_world();
    let mut map: HashMap<u64, u64> = HashMap::new();
    restore_replay_at_tick(&mut w, None, &mut map);
    assert_eq!(w.bots.len(), 1);
    assert_eq!(w.next_entity, 11);
    assert!(map.is_empty());
}

#[test]
fn a_recorded_tick_restores_the_same_world() {
    let w = live_world();
    let mut ticks = Vec::new();
    extract_live_data(&mut ticks, &w);
    assert_eq!(ticks.len(), 1);
    assert_eq!(ticks[0].tick, 0);
    assert_eq!(ticks[0].bot_data.len(), 1);
    assert_eq!(ticks[0].bot_data[0].0, 1);
    assert_eq!(ticks[0].grid_world.get(Pos((0, 0))).pawn, Some(10));

    let mut later = live_world();
    later.bots[0].data.energy = Energy(7);
    let mut map: HashMap<u64, u64> = HashMap::new();
    map.insert(10, 10);
    restore_replay_at_tick(&mut later, ticks.pop(), &mut map);
    assert_eq!(later.bots.len(), 1);
    assert_eq!(later.bots[0].data.energy, Energy(50));
    assert_eq!(later.grid.get(Pos((0, 0))).pawn, Some(10));
    assert_eq!(later.next_entity, 11);
}
