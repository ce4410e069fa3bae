use hexrail::railroad::{RailGraph, Track, TrackType};
use hexrail::tilemap::{Direction, Joint, Tile};

fn joint(q: i32, r: i32, side: Direction) -> Joint {
    Joint { tile: Tile(q, r), side }
}

const KINDS: [TrackType; 3] = [TrackType::Straight, TrackType::CurvedLeft, TrackType::CurvedRight];

#[test]
fn add_double_track_twice_adds_two_edges() {
    for kind in KINDS {
        let mut g = RailGraph::new();
        let t = Track { joint: joint(2, 5, Direction::NorthWest), heading: kind };
        assert!(g.add_double_track(t));
        assert_eq!(g.edges().len(), 2);
        assert!(!g.add_double_track(t));
        assert_eq!(g.edges().len(), 2);
        let end = t.end_joint();
        assert!(g.contains_edge(t.joint, end));
        assert!(g.contains_edge(end.opposite(), t.joint.opposite()));
    }
}

#[test]
fn three_straight_tracks_give_six_edges() {
    let mut g = RailGraph::new();
    let mut j = joint(0, 0, Direction::East);
    for _ in 0..3 {
        assert!(g.add_double_track(Track { joint: j, heading: TrackType::Straight }));
        j = j.next_straight();
    }
    let edges = g.edges();
    assert_eq!(edges.len(), 6);
    assert!(g.contains_edge(joint(0, 0, Direction::East), joint(-1, 0, Direction::East)));
    assert!(g.contains_edge(joint(-2, 0, Direction::East), joint(-3, 0, Direction::East)));
    assert!(g.contains_edge(joint(-2, 0, Direction::West), joint(-1, 0, Direction::West)));
}

#[test]
fn every_edge_has_its_reverse() {
    let mut g = RailGraph::new();
    let start = joint(1, 1, Direction::SouthWest);
    g.add_double_track(Track { joint: start, heading: TrackType::CurvedLeft });
    g.add_double_track(Track { joint: start, heading: TrackType::CurvedRight });
    g.add_double_track(Track { joint: start.next_straight(), heading: TrackType::Straight });
    let edges = g.edges();
    assert_eq!(edges.len(), 6);
    for (u, v) in edges {
        assert!(g.contains_edge(v.opposite(), u.opposite()));
        assert!(Track::from_joints(u, v).is_some());
    }
}

#[test]
fn from_joints_finds_the_kind() {
    let j = joint(0, 0, Direction::East);
    assert_eq!(Track::from_joints(j, j.next_left()).map(|t| t.heading), Some(TrackType::CurvedLeft));
    assert_eq!(Track::from_joints(j, j.next_right()).map(|t| t.heading), Some(TrackType::CurvedRight));
    assert_eq!(Track::from_joints(j, j.next_straight()).map(|t| t.heading), Some(TrackType::Straight));
    assert!(Track::from_joints(j, j).is_none());
    assert!(Track::from_joints(j, j.opposite()).is_none());
}

#[test]
fn track_between_reports_the_kind() {
    let mut g = RailGraph::new();
    let j = joint(4, 4, Direction::NorthEast);
    g.add_double_track(Track { joint: j, heading: TrackType::CurvedRight });
    assert_eq!(g.track_between(j, j.next_right()), Some(TrackType::CurvedRight));
    assert_eq!(g.track_between(j.next_right().opposite(), j.opposite()), Some(TrackType::CurvedLeft));
    assert_eq!(g.track_between(j, j.next_left()), None);
}

#[test]
fn exactly_one_direction_is_canonical() {
    for side in [
        Direction::East,
        Direction::NorthEast,
        Direction::NorthWest,
        Direction::West,
        Direction::SouthWest,
        Direction::SouthEast,
    ] {
        for kind in KINDS {
            let t = Track { joint: joint(0, 0, side), heading: kind };
            let end = t.end_joint();
            let back = Track::from_joints(end.opposite(), t.joint.opposite()).unwrap();
            assert_ne!(t.is_canonical_orientation(), back.is_canonical_orientation());
        }
    }
}

#[test]
fn canonical_tracks_list_each_track_once() {
    let mut g = RailGraph::new();
    let j = joint(0, 0, Direction::West);
    g.add_double_track(Track { joint: j, heading: TrackType::Straight });
    g.add_double_track(Track { joint: j, heading: TrackType::CurvedRight });
    g.add_double_track(Track { joint: j, heading: TrackType::CurvedLeft });
    let tracks = g.canonical_tracks();
    assert_eq!(tracks.len(), 3);
    for t in tracks {
        assert!(t.is_canonical_orientation());
        assert!(g.contains_edge(t.joint, t.end_joint()));
    }
}

#[test]
fn neighbors_in_fixed_order() {
    let mut g = RailGraph::new();
    let j = joint(0, 0, Direction::East);
    assert!(g.neighbors_outgoing(j).is_empty());
    g.add_double_track(Track { joint: j, heading: TrackType::CurvedRight });
    g.add_double_track(Track { joint: j, heading: TrackType::Straight });
    assert_eq!(g.neighbors_outgoing(j), vec![j.next_straight(), j.next_right()]);
}

#[test]
fn next_joint_prefers_the_asked_kind() {
    let mut g = RailGraph::new();
    let j = joint(0, 0, Direction::East);
    assert_eq!(g.next_joint(j, None), None);
    g.add_double_track(Track { joint: j, heading: TrackType::CurvedLeft });
    g.add_double_track(Track { joint: j, heading: TrackType::CurvedRight });
    assert_eq!(g.next_joint(j, None), Some(j.next_left()));
    assert_eq!(g.next_joint(j, Some(TrackType::CurvedRight)), Some(j.next_right()));
    assert_eq!(g.next_joint(j, Some(TrackType::Straight)), Some(j.next_left()));
}
