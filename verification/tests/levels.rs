use swarm_lib::bot::{BuildingKind, FrameKind, Subsystem};
use swarm_lib::levels::{init_econ_loop, init_small_crumbs_and_truffles, LevelsDiscriminants};
use swarm_lib::types::{CellKind, Item, Pos, Team};

#[test]
fn econ_level_is_walled_and_holds_one_base() {
    let w = init_econ_loop(20, 20);
    assert_eq!(w.tick, 0);
    assert_eq!(w.grid.width(), 20);
    assert_eq!(w.grid.height(), 20);
    for i in 0..20 {
        assert_eq!(w.grid.get(Pos((i, 0))).kind, CellKind::Blocked);
        assert_eq!(w.grid.get(Pos((i, 19))).kind, CellKind::Blocked);
        assert_eq!(w.grid.get(Pos((0, i))).kind, CellKind::Blocked);
        assert_eq!(w.grid.get(Pos((19, i))).kind, CellKind::Blocked);
    }
    assert_eq!(w.bots.len(), 1);
    let base = &w.bots[0];
    assert_eq!(base.entity, 0);
    assert_eq!(base.data.frame, FrameKind::Building(BuildingKind::Small));
    assert_eq!(base.data.team, Team::Player);
    assert_eq!(base.data.subsystems.get(Subsystem::Assembler), 1);
    assert_eq!(base.data.subsystems.get(Subsystem::CargoBay), 3);
    assert_eq!(base.data.subsystems.get(Subsystem::PowerCell), 2);
    assert_eq!(base.data.energy, base.data.max_energy());
    assert_eq!(base.data.inventory.get(Item::Metal), 6);
    let p = base.data.pos;
    assert!(p.x() >= 1 && p.x() < 19 && p.y() >= 1 && p.y() < 19);
    assert_eq!(w.grid.get(p).pawn, Some(0));
    assert_eq!(w.grid.get(p).kind, CellKind::Empty);
    assert_eq!(w.next_entity, 1);
}

#[test]
fn econ_level_scatters_at_most_twenty_metal() {
    let w = init_econ_loop(20, 20);
    let mut metal = 0;
    let mut pawns = 0;
    for y in 0..20 {
        for x in 0..20 {
            let c = w.grid.get(Pos((x, y)));
            if c.item == Some(Item::Metal) {
                metal += 1;
                assert_eq!(c.kind, CellKind::Empty);
            }
            if c.pawn.is_some() {
                pawns += 1;
            }
        }
    }
    assert!(metal <= 20);
    assert_eq!(pawns, 1);
}

#[test]
fn small_econ_level_scatters_at_most_one_metal_per_twenty_cells() {
    let w = init_econ_loop(5, 5);
    let mut metal = 0;
    for y in 0..5 {
        for x in 0..5 {
            if w.grid.get(Pos((x, y))).item == Some(Item::Metal) {
                metal += 1;
            }
        }
    }
    assert!(metal <= 1);
}

#[test]
fn small_level_has_its_trail_fent_and_truffles() {
    let w = init_small_crumbs_and_truffles();
    assert_eq!(w.grid.width(), 20);
    assert_eq!(w.grid.get(Pos((8, 14))).item, Some(Item::Fent));
    assert_eq!(w.grid.get(Pos((2, 8))).item, Some(Item::Truffle));
    assert_eq!(w.grid.get(Pos((12, 2))).item, Some(Item::Truffle));
    assert_eq!(w.grid.get(Pos((5, 3))).item, Some(Item::Crumb));
    assert_eq!(w.grid.get(Pos((8, 13))).item, Some(Item::Crumb));
    for y in 1..10 {
        assert_eq!(w.grid.get(Pos((10, y))).kind, CellKind::Blocked);
    }
    assert_eq!(w.grid.get(Pos((0, 7))).kind, CellKind::Blocked);
    assert_eq!(w.grid.get(Pos((2, 2))).pawn, Some(0));
    assert_eq!(w.bots.len(), 1);
    assert_eq!(w.bots[0].data.pos, Pos((2, 2)));
    assert_eq!(w.bots[0].data.energy.0, 100);
    let crumbs = (0..20)
        .flat_map(|x| (0..20).map(move |y| (x, y)))
        .filter(|&(x, y)| w.grid.get(Pos((x, y))).item == Some(Item::Crumb))
        .count();
    assert!(crumbs >= 14);
}

#[test]
fn level_names_are_parsed() {
    assert_eq!(LevelsDiscriminants::from_arg_value("econ-loop"), Ok(LevelsDiscriminants::EconLoop));
    assert_eq!(
        LevelsDiscriminants::from_arg_value("small-crumbs-and-truffles"),
        Ok(LevelsDiscriminants::SmallCrumbsAndTruffles)
    );
    assert_eq!(
        LevelsDiscriminants::from_arg_value("random-crumbs-and-truffles"),
        Ok(LevelsDiscriminants::RandomCrumbsAndTruffles)
    );
    assert_eq!(LevelsDiscriminants::from_arg_value("econ"), Err("Invalid level: econ".to_string()));
    assert_eq!(LevelsDiscriminants::from_arg_value(""), Err("Invalid level: ".to_string()));
}

#[test]
fn econ_level_places_one_metal_per_twenty_cells_up_to_twenty() {
    for (w, h, expected) in [(20usize, 20usize, 20usize), (5, 5, 1), (10, 8, 4)] {
        let world = init_econ_loop(w, h);
        let mut metal = 0;
        for y in 0..h {
            for x in 0..w {
                if world.grid.get(Pos((x, y))).item == Some(Item::Metal) {
                    metal += 1;
                }
            }
        }
        assert_eq!(metal, expected);
        assert_eq!(world.bots.len(), 1);
    }
}

#[test]
fn small_level_trail_is_a_shortest_walk() {
    let w = init_small_crumbs_and_truffles();
    let mut crumbs = 0;
    for y in 0..20 {
        for x in 0..20 {
            if w.grid.get(Pos((x, y))).item == Some(Item::Crumb) {
                crumbs += 1;
            }
        }
    }
    assert_eq!(crumbs, 14);
}
