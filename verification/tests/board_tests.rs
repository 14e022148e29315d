use starless_tactics::board::{Board, Dimension, Tile, TileKind, Traverse};
use starless_tactics::entity::Space;
use starless_tactics::position::Position;

#[test]
fn in_bounds_is_exactly_the_rectangle() {
    let board = Board::new(Dimension::new(10, 8));
    assert!(board.in_bounds(Position::new(0, 0)));
    assert!(board.in_bounds(Position::new(9, 7)));
    assert!(!board.in_bounds(Position::new(10, 0)));
    assert!(!board.in_bounds(Position::new(0, 8)));
    assert!(!board.in_bounds(Position::new(-1, 3)));
    assert!(!board.in_bounds(Position::new(3, -1)));
}

#[test]
fn dimension_area() {
    assert_eq!(Dimension::new(10, 8).area(), 80);
    assert_eq!(Dimension::new(1, 1).area(), 1);
}

#[test]
fn fresh_board_has_walled_perimeter_and_floor_inside() {
    let board = Board::new(Dimension::new(10, 10));
    for x in 0..10 {
        assert_eq!(board.tile_at(Position::new(x, 0)).unwrap().traverse(), Traverse::Wall);
        assert_eq!(board.tile_at(Position::new(x, 9)).unwrap().traverse(), Traverse::Wall);
        assert_eq!(board.tile_at(Position::new(0, x)).unwrap().traverse(), Traverse::Wall);
        assert_eq!(board.tile_at(Position::new(9, x)).unwrap().traverse(), Traverse::Wall);
    }
    for x in 1..9 {
        for y in 1..9 {
            assert_eq!(
                board.tile_at(Position::new(x, y)).unwrap().traverse(),
                Traverse::Ground
            );
        }
    }
}

#[test]
fn tile_at_out_of_bounds_is_none() {
    let board = Board::new(Dimension::new(5, 5));
    assert!(board.tile_at(Position::new(5, 0)).is_none());
    assert!(board.tile_at(Position::new(-1, 2)).is_none());
}

#[test]
fn to_index_is_row_major() {
    let board = Board::new(Dimension::new(10, 10));
    assert_eq!(board.to_index(Position::new(0, 0)), Some(0));
    assert_eq!(board.to_index(Position::new(3, 2)), Some(23));
    assert_eq!(board.to_index(Position::new(-1, 2)), None);
    assert_eq!(board.to_index_unchecked(Position::new(9, 9)), 99);
}

#[test]
fn set_tile_overrides_terrain() {
    let mut board = Board::new(Dimension::new(10, 10));
    board.set_tile(Position::new(4, 4), Tile::new(TileKind::Ocean));
    assert_eq!(board.tile_at(Position::new(4, 4)).unwrap().traverse(), Traverse::Water);
    assert!(board.tile_at(Position::new(4, 4)).unwrap().is_water());
}

#[test]
fn entity_at_is_initially_empty() {
    let board = Board::new(Dimension::new(6, 6));
    for x in 0..6 {
        for y in 0..6 {
            assert!(board.entity_at(Position::new(x, y)).is_none());
        }
    }
    assert!(board.entity_at(Position::new(99, 99)).is_none());
}

#[test]
fn tile_kind_properties() {
    assert!(Tile::new(TileKind::Floor).is_ground());
    assert!(!Tile::new(TileKind::Floor).is_wall());
    assert!(Tile::new(TileKind::Wall).is_wall());
    assert!(Tile::new(TileKind::Ocean).is_water());
    assert_eq!(Tile::new(TileKind::Floor).glyph(), '.');
    assert_eq!(Tile::new(TileKind::Ocean).glyph(), '~');
}

#[test]
fn navigation_map_matches_space_filter() {
    let mut board = Board::new(Dimension::new(5, 5));
    board.set_tile(Position::new(2, 2), Tile::new(TileKind::Ocean));
    let ground = board.navigation_map(Some(Space::Ground));
    let air = board.navigation_map(None);
    let idx_water = board.to_index_unchecked(Position::new(2, 2));
    let idx_floor = board.to_index_unchecked(Position::new(1, 1));
    let idx_wall = board.to_index_unchecked(Position::new(0, 0));
    assert!(!ground.cells[idx_water]);
    assert!(ground.cells[idx_floor]);
    assert!(!ground.cells[idx_wall]);
    assert!(air.cells[idx_water]);
    assert!(air.cells[idx_floor]);
    assert!(!air.cells[idx_wall]);
}
