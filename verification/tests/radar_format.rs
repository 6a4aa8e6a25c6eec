use swarm_lib::radar::{format_radar, CellStateRadar, RadarBotData, RadarData};
use swarm_lib::types::{CellKind, Item, Pos, Team};

#[test]
fn radar_is_drawn_in_a_box_with_the_bot_in_the_middle() {
    let radar = RadarData {
        center_world_pos: Pos((2, 2)),
        pawns: vec![RadarBotData { bot_id: 7, team: Team::Player, pos: Pos((2, 2)) }],
        cells: vec![
            CellStateRadar { kind: CellKind::Blocked, pawn: None, item: None, pos: Pos((1, 1)) },
            CellStateRadar { kind: CellKind::Empty, pawn: Some(0), item: None, pos: Pos((2, 2)) },
            CellStateRadar { kind: CellKind::Empty, pawn: None, item: Some(Item::Metal), pos: Pos((3, 3)) },
        ],
    };
    assert_eq!(
        format_radar(&radar),
        "┌──────┐\n│. . M │\n│. @ . │\n│[]. . │\n└──────┘\nWorld coordinates: (1, 1) to (3, 3)\n\nBots detected:\n  0: Player at Pos(2, 2)\n"
    );
}

#[test]
fn empty_radar_shows_the_area_around_the_center() {
    let radar = RadarData { center_world_pos: Pos((1, 1)), pawns: vec![], cells: vec![] };
    let text = format_radar(&radar);
    assert!(text.starts_with("┌──────────┐\n│. . . . . │\n"));
    assert!(text.contains("│. . @ . . │\n"));
    assert!(text.ends_with("World coordinates: (-1, -1) to (3, 3)\n"));
}

#[test]
fn other_bots_and_items_have_their_letters() {
    let radar = RadarData {
        center_world_pos: Pos((0, 0)),
        pawns: vec![RadarBotData { bot_id: 1, team: Team::Enemy, pos: Pos((1, 0)) }],
        cells: vec![
            CellStateRadar { kind: CellKind::Empty, pawn: Some(0), item: None, pos: Pos((1, 0)) },
            CellStateRadar { kind: CellKind::Empty, pawn: None, item: Some(Item::Crumb), pos: Pos((2, 0)) },
            CellStateRadar { kind: CellKind::Empty, pawn: None, item: Some(Item::Fent), pos: Pos((3, 0)) },
            CellStateRadar { kind: CellKind::Empty, pawn: None, item: Some(Item::Truffle), pos: Pos((4, 0)) },
            CellStateRadar { kind: CellKind::Unknown, pawn: None, item: None, pos: Pos((5, 0)) },
            CellStateRadar { kind: CellKind::Empty, pawn: None, item: None, pos: Pos((6, 0)) },
        ],
    };
    let text = format_radar(&radar);
    assert!(text.contains("│E C F T .   │\n"));
    assert!(text.contains("  0: Enemy at Pos(1, 0)\n"));
}
