use starless_tactics::board::{Board, Dimension, Tile, TileKind};
use starless_tactics::circle::ActionCircle;
use starless_tactics::entity::Space;
use starless_tactics::position::Position;

#[test]
fn open_ground_costs_equal_manhattan_distance() {
    let board = Board::new(Dimension::new(10, 10));
    let origin = Position::new(4, 4);
    let circle = ActionCircle::new(origin, 2, Some(Space::Ground), &board);
    assert!(!circle.contains(origin));
    assert_eq!(circle.cost_to(Position::new(4, 5)), Some(1));
    assert_eq!(circle.cost_to(Position::new(4, 6)), Some(2));
    assert_eq!(circle.cost_to(Position::new(5, 5)), Some(2));
    assert_eq!(circle.cost_to(Position::new(4, 7)), None);
    assert_eq!(circle.cost_to(Position::new(7, 7)), None);
    // Perimeter walls are never reachable.
    assert!(!circle.contains(Position::new(4, 0)));
}

#[test]
fn walls_force_detours_beyond_manhattan_distance() {
    let mut board = Board::new(Dimension::new(10, 10));
    // A vertical wall segment between (1,1) and (3,1).
    board.set_tile(Position::new(2, 1), Tile::new(TileKind::Wall));
    board.set_tile(Position::new(2, 2), Tile::new(TileKind::Wall));
    board.set_tile(Position::new(2, 3), Tile::new(TileKind::Wall));
    let origin = Position::new(1, 1);
    let target = Position::new(3, 1);
    // Manhattan distance 2, but the true path must go around the wall.
    let near = ActionCircle::new(origin, 2, Some(Space::Ground), &board);
    assert!(!near.contains(target));
    let far = ActionCircle::new(origin, 8, Some(Space::Ground), &board);
    assert_eq!(far.cost_to(target), Some(8));
}

#[test]
fn space_filter_shapes_the_circle() {
    let mut board = Board::new(Dimension::new(10, 10));
    board.set_tile(Position::new(5, 4), Tile::new(TileKind::Ocean));
    let origin = Position::new(4, 4);
    let ground = ActionCircle::new(origin, 1, Some(Space::Ground), &board);
    assert!(!ground.contains(Position::new(5, 4)));
    let air = ActionCircle::new(origin, 1, Some(Space::Air), &board);
    assert!(air.contains(Position::new(5, 4)));
    // With no filter, only walls block.
    let any = ActionCircle::new(origin, 1, None, &board);
    assert!(any.contains(Position::new(5, 4)));
}

#[test]
fn water_units_stay_on_water() {
    let mut board = Board::new(Dimension::new(10, 10));
    board.set_tile(Position::new(4, 4), Tile::new(TileKind::Ocean));
    board.set_tile(Position::new(4, 5), Tile::new(TileKind::Ocean));
    let circle = ActionCircle::new(Position::new(4, 4), 2, Some(Space::Water), &board);
    assert!(circle.contains(Position::new(4, 5)));
    assert!(!circle.contains(Position::new(4, 3)));
    assert!(!circle.contains(Position::new(5, 4)));
}

#[test]
fn cells_lists_each_reachable_cell_once_with_its_cost() {
    let board = Board::new(Dimension::new(10, 10));
    let origin = Position::new(4, 4);
    let circle = ActionCircle::new(origin, 2, Some(Space::Ground), &board);
    let cells = circle.cells();
    // Within budget 2 on open ground: the 12-cell diamond, origin excluded.
    assert_eq!(cells.len(), 12);
    for i in 0..cells.len() {
        let (p, c) = cells[i];
        assert_eq!(circle.cost_to(p), Some(c));
        for j in (i + 1)..cells.len() {
            assert_ne!(cells[j].0, p);
        }
    }
}

#[test]
fn in_range_includes_the_origin_itself() {
    let board = Board::new(Dimension::new(10, 10));
    let origin = Position::new(4, 4);
    assert!(board.in_range(origin, origin, 0, Some(Space::Ground)));
    assert!(board.in_range(origin, Position::new(4, 6), 2, Some(Space::Ground)));
    assert!(!board.in_range(origin, Position::new(4, 6), 1, Some(Space::Ground)));
    assert!(!board.in_range(origin, Position::new(0, 0), 30, Some(Space::Ground)));
}
