use starless_tactics::board::Dimension;
use starless_tactics::position::Position;

#[test]
fn position_new_holds_coordinates() {
    let p = Position::new(3, -7);
    assert_eq!(p.x, 3);
    assert_eq!(p.y, -7);
}

#[test]
fn manhatten_distance_exact_values() {
    let a = Position::new(4, 4);
    let b = Position::new(4, 6);
    assert_eq!(a.manhatten_distance(&b), 2);
    assert_eq!(b.manhatten_distance(&a), 2);
    assert_eq!(a.manhatten_distance(&a), 0);
    let c = Position::new(-3, 5);
    let d = Position::new(2, -1);
    assert_eq!(c.manhatten_distance(&d), 11);
}

#[test]
fn vector_arithmetic() {
    let a = Position::new(2, 3);
    let b = Position::new(-1, 4);
    let s = a.plus(b);
    assert_eq!(s, Position::new(1, 7));
    let d = a.minus(b);
    assert_eq!(d, Position::new(3, -1));
    let m = a.scaled(3);
    assert_eq!(m, Position::new(6, 9));
}

#[test]
fn clamp_inside_clamps_both_axes() {
    let p = Position::new(-5, 20);
    assert_eq!(p.clamp_inside(0, 0, 9, 9), Position::new(0, 9));
    let q = Position::new(4, 4);
    assert_eq!(q.clamp_inside(0, 0, 9, 9), Position::new(4, 4));
}

#[test]
fn radius_one_is_the_four_neighbours() {
    let p = Position::new(5, 5);
    let r = p.radius(1);
    assert_eq!(r.len(), 4);
    assert!(r.contains(&Position::new(5, 4)));
    assert!(r.contains(&Position::new(5, 6)));
    assert!(r.contains(&Position::new(4, 5)));
    assert!(r.contains(&Position::new(6, 5)));
    assert!(!r.contains(&Position::new(5, 5)));
}

#[test]
fn radius_two_has_twelve_cells_and_no_duplicates() {
    let p = Position::new(0, 0);
    let r = p.radius(2);
    assert_eq!(r.len(), 12);
    for i in 0..r.len() {
        for j in (i + 1)..r.len() {
            assert_ne!(r[i], r[j]);
        }
        let d = (r[i].x).abs() + (r[i].y).abs();
        assert!(d >= 1 && d <= 2);
    }
}

#[test]
fn radius_zero_and_negative_are_empty() {
    let p = Position::new(2, 2);
    assert_eq!(p.radius(0).len(), 0);
    assert_eq!(p.radius(-3).len(), 0);
}

#[test]
fn into_world_pos_shifts_and_clamps() {
    let size = Dimension::new(10, 10);
    let offset = Position::new(7, 5);
    assert_eq!(Position::new(11, 9).into_world_pos(size, offset), Position::new(4, 4));
    assert_eq!(Position::new(0, 0).into_world_pos(size, offset), Position::new(0, 0));
    assert_eq!(Position::new(100, 100).into_world_pos(size, offset), Position::new(9, 9));
}

#[test]
fn clamp_with_negative_extent_caps_at_the_upper_corner() {
    // The lift-then-cap chain is defined for degenerate rectangles too:
    // the upper corner wins.
    let p = Position::new(5, 5);
    assert_eq!(p.clamp_inside(0, 0, -3, -3), Position::new(-3, -3));
}
