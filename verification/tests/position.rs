use game_prove::position::Vec2;

#[test]
fn positions_are_equal_by_their_coordinates() {
    let p = Vec2::xy(3, -4);
    assert_eq!(p.x, 3);
    assert_eq!(p.y, -4);
    assert_eq!(p, Vec2::xy(3, -4));
    assert_ne!(p, Vec2::xy(-4, 3));
    assert_ne!(p, Vec2::xy(3, 4));
}

#[test]
fn touching_is_the_same_row_within_one_column() {
    let ship = Vec2::xy(30, 20);
    for x in [29, 30, 31] {
        assert!(ship.is_touching(&Vec2::xy(x, 20)));
    }
    for other in [Vec2::xy(28, 20), Vec2::xy(32, 20), Vec2::xy(30, 19), Vec2::xy(30, 21)] {
        assert!(!ship.is_touching(&other));
    }
}

#[test]
fn touching_is_decided_at_the_ends_of_the_range() {
    let low = Vec2::xy(i32::MIN, 0);
    let high = Vec2::xy(i32::MAX, 0);
    assert!(low.is_touching(&Vec2::xy(i32::MIN + 1, 0)));
    assert!(high.is_touching(&Vec2::xy(i32::MAX - 1, 0)));
    assert!(!low.is_touching(&high));
    assert!(!high.is_touching(&low));
    assert!(!high.is_touching(&Vec2::xy(i32::MAX - 2, 0)));
}
