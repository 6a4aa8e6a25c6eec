use swarm_lib::radar::{CellStateRadar, RadarData};
use swarm_lib::types::{CellKind, Dir, Item, Pos};

fn cell(item: Option<Item>, x: usize, y: usize) -> CellStateRadar {
    CellStateRadar { kind: CellKind::Empty, pawn: None, item, pos: Pos((x, y)) }
}

#[test]
fn neighbours_are_looked_up_by_direction() {
    let r = RadarData {
        center_world_pos: Pos((1, 1)),
        pawns: vec![],
        cells: vec![cell(None, 1, 2), cell(Some(Item::Crumb), 2, 1), cell(Some(Item::Fent), 2, 1)],
    };
    assert_eq!(r.get_dir(Dir::Up).unwrap().pos, Pos((1, 2)));
    assert_eq!(r.get_dir(Dir::Right).unwrap().item, Some(Item::Crumb));
    assert!(r.get_dir(Dir::Down).is_none());
    assert_eq!(r.find_dirs(Item::Crumb).map(|(d, _)| d), Some(Dir::Right));
    assert!(r.find_dirs(Item::Fent).is_none());
    assert_eq!(r.find(Item::Fent).map(|(i, _)| i), Some(2));
    assert!(r.find(Item::Truffle).is_none());
    assert!(cell(Some(Item::Metal), 0, 0).has_item(Item::Metal));
}

#[test]
fn no_neighbour_lies_beyond_the_origin() {
    let r = RadarData { center_world_pos: Pos((0, 0)), pawns: vec![], cells: vec![cell(Some(Item::Truffle), 0, 0)] };
    assert!(r.get_dir(Dir::Left).is_none());
    assert!(r.get_dir(Dir::Down).is_none());
    assert!(r.find_dirs(Item::Truffle).is_none());
}
