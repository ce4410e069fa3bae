use hexrail::tilemap::{Direction, Joint, Tile};

const ALL: [Direction; 6] = [
    Direction::East,
    Direction::NorthEast,
    Direction::NorthWest,
    Direction::West,
    Direction::SouthWest,
    Direction::SouthEast,
];

#[test]
fn opposite_twice_is_identity() {
    for d in ALL {
        assert_eq!(d.opposite().opposite(), d);
        assert_ne!(d.opposite(), d);
    }
}

#[test]
fn six_curves_are_a_full_turn() {
    for d in ALL {
        let mut l = d;
        let mut r = d;
        for _ in 0..6 {
            l = l.curve_left();
            r = r.curve_right();
        }
        assert_eq!(l, d);
        assert_eq!(r, d);
        assert_ne!(d.curve_left(), d);
        assert_ne!(d.curve_right(), d);
    }
}

#[test]
fn turns_count_sixths() {
    assert_eq!(Direction::East.opposite(), Direction::West);
    assert_eq!(Direction::East.curve_left(), Direction::SouthWest);
    assert_eq!(Direction::East.curve_right(), Direction::NorthWest);
    assert_eq!(Direction::NorthEast.sixth_turns(), 1);
    assert_eq!(Direction::SouthEast.sixth_turns(), 5);
}

#[test]
fn from_sixth_turns_wraps_both_ways() {
    assert_eq!(Direction::from_sixth_turns(0), Direction::East);
    assert_eq!(Direction::from_sixth_turns(7), Direction::NorthEast);
    assert_eq!(Direction::from_sixth_turns(-1), Direction::SouthEast);
    assert_eq!(Direction::from_sixth_turns(-6), Direction::East);
    assert_eq!(Direction::from_sixth_turns(-128), Direction::SouthWest);
    assert_eq!(Direction::from_sixth_turns(127), Direction::NorthEast);
}

#[test]
fn neighbors_of_origin() {
    let o = Tile(0, 0);
    assert_eq!(o.neighbor_to(Direction::East), Tile(1, 0));
    assert_eq!(o.neighbor_to(Direction::West), Tile(-1, 0));
    assert_eq!(o.neighbor_to(Direction::NorthEast), Tile(0, 1));
    assert_eq!(o.neighbor_to(Direction::NorthWest), Tile(-1, 1));
    assert_eq!(o.neighbor_to(Direction::SouthEast), Tile(1, -1));
    assert_eq!(o.neighbor_to(Direction::SouthWest), Tile(0, -1));
}

#[test]
fn neighbor_wraps_at_coordinate_limit() {
    assert_eq!(Tile(i32::MAX, 0).neighbor_to(Direction::East), Tile(i32::MIN, 0));
    assert_eq!(Tile(i32::MIN, 0).neighbor_to(Direction::West), Tile(i32::MAX, 0));
}

#[test]
fn joint_opposite_twice_is_identity() {
    for d in ALL {
        let j = Joint { tile: Tile(3, -2), side: d };
        assert_eq!(j.opposite().opposite(), j);
    }
    let j = Joint { tile: Tile(0, 0), side: Direction::East };
    assert_eq!(j.opposite(), Joint { tile: Tile(1, 0), side: Direction::West });
}

#[test]
fn next_joints_from_east_edge() {
    let j = Joint { tile: Tile(0, 0), side: Direction::East };
    assert_eq!(j.next_straight(), Joint { tile: Tile(-1, 0), side: Direction::East });
    assert_eq!(j.next_left(), Joint { tile: Tile(0, -1), side: Direction::NorthEast });
    assert_eq!(j.next_right(), Joint { tile: Tile(-1, 1), side: Direction::SouthEast });
}
