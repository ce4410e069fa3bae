use hexrail::railroad::{RailGraph, Track, TrackType};
use hexrail::savegame::{
    CURRENT_SAVEGAME_VERSION, LoadError, SaveGame, SaveTrain, SaveWagon, World, load_game, load_or_new,
};
use hexrail::tilemap::{Direction, Joint, Tile};
use hexrail::trainbuilder::create_new_train;
use hexrail::trains::{Trail, VehicleStats, VehicleType, Velocity};

fn j(q: i32, r: i32, side: Direction) -> Joint {
    Joint { tile: Tile(q, r), side }
}

#[test]
fn empty_world_round_trip() {
    let saved = SaveGame::from_world(&World::new());
    assert_eq!(saved.version, CURRENT_SAVEGAME_VERSION);
    assert!(saved.network.is_empty() && saved.trains.is_empty());
    let world = load_game(&saved).ok().unwrap();
    assert!(world.graph.edges().is_empty());
    assert!(world.trains.is_empty());
    let again = SaveGame::from_world(&world);
    assert_eq!(again.version, saved.version);
}

#[test]
fn new_game_document() {
    let d = SaveGame::default();
    assert_eq!(d.version, 6);
    assert!(d.network.is_empty() && d.trains.is_empty());
}

#[test]
fn world_round_trip_keeps_tracks_and_trains() {
    let mut graph = RailGraph::new();
    let start = j(0, 0, Direction::East);
    graph.add_double_track(Track { joint: start, heading: TrackType::Straight });
    graph.add_double_track(Track { joint: start.next_straight(), heading: TrackType::CurvedLeft });
    let train = create_new_train(start, &graph, VehicleType::Locomotive).unwrap();
    let world = World { graph, trains: vec![train] };
    let saved = SaveGame::from_world(&world);
    assert_eq!(saved.network.len(), 4);
    assert_eq!(saved.trains[0].wagons, vec![SaveWagon {
        wagon_type: VehicleType::Locomotive,
        stats: VehicleStats::default_for_type(VehicleType::Locomotive),
    }]);
    let back = load_game(&saved).ok().unwrap();
    assert_eq!(back.graph.edges().len(), 4);
    for (u, v) in world.graph.edges() {
        assert!(back.graph.contains_edge(u, v));
    }
    assert_eq!(back.trains.len(), 1);
    assert_eq!(back.trains[0].path.path, world.trains[0].path.path);
    assert_eq!(back.trains[0].path.path_progress, 1000);
    assert_eq!(back.trains[0].vehicles, world.trains[0].vehicles);
}

#[test]
fn other_version_is_refused() {
    let mut d = SaveGame::default();
    d.version = 5;
    assert!(matches!(load_game(&d), Err(LoadError::VersionMismatch)));
    let w = load_or_new(Some(d));
    assert!(w.graph.edges().is_empty() && w.trains.is_empty());
}

#[test]
fn broken_edge_is_refused() {
    let mut d = SaveGame::default();
    d.network.push((j(0, 0, Direction::East), j(4, 4, Direction::West)));
    assert!(matches!(load_game(&d), Err(LoadError::BrokenGraph)));
}

#[test]
fn one_sided_edge_is_completed() {
    let mut d = SaveGame::default();
    let a = j(0, 0, Direction::East);
    d.network.push((a, a.next_straight()));
    let w = load_or_new(Some(d));
    assert_eq!(w.graph.edges().len(), 2);
    assert!(w.graph.contains_edge(a.next_straight().opposite(), a.opposite()));
}

#[test]
fn broken_trains_are_skipped() {
    let a = j(0, 0, Direction::East);
    let good = SaveTrain {
        train: Trail { path: vec![a, a.next_straight()], path_progress: 1000, length: 1 },
        velocity: Velocity { velocity: 0, max_velocity: 55000 },
        wagons: vec![SaveWagon { wagon_type: VehicleType::Wagon, stats: VehicleStats::default_for_type(VehicleType::Wagon) }],
    };
    let bad_trail = SaveTrain {
        train: Trail { path: vec![a], path_progress: 1000, length: 1 },
        velocity: Velocity { velocity: 0, max_velocity: 55000 },
        wagons: vec![SaveWagon { wagon_type: VehicleType::Wagon, stats: VehicleStats::default_for_type(VehicleType::Wagon) }],
    };
    let bad_count = SaveTrain {
        train: Trail { path: vec![a, a.next_straight()], path_progress: 1000, length: 1 },
        velocity: Velocity { velocity: 0, max_velocity: 55000 },
        wagons: vec![],
    };
    let mut d = SaveGame::default();
    d.trains = vec![bad_trail, good, bad_count];
    let w = load_game(&d).ok().unwrap();
    assert_eq!(w.trains.len(), 1);
    assert_eq!(w.trains[0].vehicles[0].index.position, 0);
}

#[test]
fn missing_document_gives_empty_world() {
    let w = load_or_new(None);
    assert!(w.graph.edges().is_empty());
    assert!(w.trains.is_empty());
}
