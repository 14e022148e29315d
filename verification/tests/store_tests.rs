use starless_tactics::entity::{Team, Unit, UnitKind};
use starless_tactics::position::Position;
use starless_tactics::store::{EntityIndex, EntityStore};

fn some_unit(team: Team, x: i32, y: i32) -> Unit {
    Unit::new(UnitKind::Infantry, team, Position::new(x, y))
}

#[test]
fn insert_then_get_round_trip() {
    let mut store = EntityStore::new();
    let u = some_unit(Team::Red, 1, 1);
    let h = store.insert(u);
    assert!(store.contains(h));
    assert_eq!(store.get(h).unwrap(), u);
}

#[test]
fn remove_invalidates_only_that_handle() {
    let mut store = EntityStore::new();
    let a = store.insert(some_unit(Team::Red, 1, 1));
    let b = store.insert(some_unit(Team::Blue, 2, 2));
    let removed = store.remove(a);
    assert_eq!(removed.unwrap().team, Team::Red);
    assert!(!store.contains(a));
    assert!(store.contains(b));
    assert_eq!(store.get(b).unwrap().team, Team::Blue);
    assert!(store.remove(a).is_none());
}

#[test]
fn reused_slot_does_not_alias_stale_handle() {
    let mut store = EntityStore::new();
    let a = store.insert(some_unit(Team::Red, 1, 1));
    store.remove(a);
    let c = store.insert(some_unit(Team::Green, 3, 3));
    // The slot comes back, but under a fresh generation.
    assert_ne!(a, c);
    assert!(store.get(a).is_none());
    assert_eq!(store.get(c).unwrap().team, Team::Green);
}

#[test]
fn get2_rejects_equal_handles() {
    let mut store = EntityStore::new();
    let a = store.insert(some_unit(Team::Red, 1, 1));
    let (x, y) = store.get2(a, a);
    assert!(x.is_none());
    assert!(y.is_none());
}

#[test]
fn get2_returns_both_distinct_units() {
    let mut store = EntityStore::new();
    let a = store.insert(some_unit(Team::Red, 1, 1));
    let b = store.insert(some_unit(Team::Blue, 2, 2));
    let (x, y) = store.get2(a, b);
    assert_eq!(x.unwrap().team, Team::Red);
    assert_eq!(y.unwrap().team, Team::Blue);
}

#[test]
fn never_issued_handle_fails_cleanly() {
    let store = EntityStore::new();
    let bogus = EntityIndex { slot: 17, generation: 0 };
    assert!(!store.contains(bogus));
    assert!(store.get(bogus).is_none());
}

#[test]
fn team_has_units_tracks_live_units() {
    let mut store = EntityStore::new();
    assert!(!store.team_has_units(Team::Red));
    let a = store.insert(some_unit(Team::Red, 1, 1));
    assert!(store.team_has_units(Team::Red));
    assert!(!store.team_has_units(Team::Blue));
    store.remove(a);
    assert!(!store.team_has_units(Team::Red));
}

#[test]
fn reset_actions_touches_only_the_team() {
    let mut store = EntityStore::new();
    let mut red = some_unit(Team::Red, 1, 1);
    red.actions = 0;
    let mut blue = some_unit(Team::Blue, 2, 2);
    blue.actions = 0;
    let hr = store.insert(red);
    let hb = store.insert(blue);
    store.reset_actions_for_team(Team::Red);
    assert_eq!(store.get(hr).unwrap().actions, store.get(hr).unwrap().actions_max);
    assert_eq!(store.get(hb).unwrap().actions, 0);
}

#[test]
fn update_unit_replaces_value() {
    let mut store = EntityStore::new();
    let h = store.insert(some_unit(Team::Red, 1, 1));
    let mut u = store.get(h).unwrap();
    u.health = 1;
    u.position = Position::new(5, 5);
    store.update_unit(h, u);
    assert_eq!(store.get(h).unwrap().health, 1);
    assert_eq!(store.get(h).unwrap().position, Position::new(5, 5));
}

#[test]
fn live_units_lists_exactly_the_live_ones() {
    let mut store = EntityStore::new();
    let a = store.insert(some_unit(Team::Red, 1, 1));
    let b = store.insert(some_unit(Team::Blue, 2, 2));
    store.remove(a);
    let live = store.live_units();
    assert_eq!(live.len(), 1);
    assert_eq!(live[0].0, b);
    assert_eq!(live[0].1.team, Team::Blue);
}
