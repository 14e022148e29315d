use starless_tactics::board::Traverse;
use starless_tactics::entity::{Space, Team, Unit, UnitKind, get_next_team};
use starless_tactics::position::Position;

#[test]
fn compatibility_matrix_is_total_and_exact() {
    assert!(Space::Ground.can_traverse(Traverse::Ground));
    assert!(!Space::Ground.can_traverse(Traverse::Water));
    assert!(!Space::Ground.can_traverse(Traverse::Wall));
    assert!(!Space::Water.can_traverse(Traverse::Ground));
    assert!(Space::Water.can_traverse(Traverse::Water));
    assert!(!Space::Water.can_traverse(Traverse::Wall));
    assert!(Space::Air.can_traverse(Traverse::Ground));
    assert!(Space::Air.can_traverse(Traverse::Water));
    assert!(!Space::Air.can_traverse(Traverse::Wall));
}

#[test]
fn team_cycle_wraps_through_all_eight() {
    let mut t = Team::Red;
    let order = [
        Team::Blue, Team::Green, Team::Yellow, Team::Cyan,
        Team::Orange, Team::Magenta, Team::White, Team::Red,
    ];
    for expected in order {
        t = get_next_team(t);
        assert_eq!(t, expected);
    }
}

#[test]
fn unit_base_stats_per_kind() {
    let p = Position::new(2, 2);
    let tank = Unit::new(UnitKind::Tank, Team::Red, p);
    assert_eq!(tank.health, 4);
    assert_eq!(tank.health_max, 4);
    assert_eq!(tank.damage, 2);
    assert_eq!(tank.range, 3);
    assert_eq!(tank.actions, 2);
    assert_eq!(tank.actions_max, 2);
    assert_eq!(tank.space, Space::Ground);
    assert_eq!(tank.position, p);
    assert_eq!(tank.team, Team::Red);

    let infantry = Unit::new(UnitKind::Infantry, Team::Blue, p);
    assert_eq!(infantry.health, 2);
    assert_eq!(infantry.damage, 1);
    assert_eq!(infantry.range, 1);
    assert_eq!(infantry.actions, 2);

    let missile = Unit::new(UnitKind::Missile, Team::Green, p);
    assert_eq!(missile.health, 3);
    assert_eq!(missile.damage, 10);
    assert_eq!(missile.range, 3);
    assert_eq!(missile.actions, 3);
    assert_eq!(missile.space, Space::Air);

    let engineer = Unit::new(UnitKind::Engineer, Team::Red, p);
    assert_eq!(engineer.health, 1);
    assert_eq!(engineer.actions, 2);

    let humvee = Unit::new(UnitKind::Humvee, Team::Red, p);
    assert_eq!(humvee.health, 3);
    assert_eq!(humvee.actions, 3);

    let flag = Unit::new(UnitKind::Flag, Team::Red, p);
    assert_eq!(flag.damage, 0);
    assert_eq!(flag.range, 0);
}

#[test]
fn display_names_follow_kind() {
    let p = Position::new(1, 1);
    assert_eq!(Unit::new(UnitKind::Tank, Team::Red, p).display_name(), "Tank");
    assert_eq!(Unit::new(UnitKind::Engineer, Team::Red, p).display_name(), "Engineer");
}
