use hexrail::driving::auto_extend_train_path;
use hexrail::railroad::{RailGraph, Track, TrackType};
use hexrail::tilemap::{Direction, Joint, Tile};
use hexrail::savegame::World;
use hexrail::trainbuilder::{
    BumperContact, CouplingPlan, Reversal, append_vehicle, couple_trains, coupling_plan,
    coupling_request, create_new_train, reindex_train, uncouple,
};
use hexrail::trains::{
    BumperNode, Trail, TrainBundle, TrainIndex, VehicleBundle, VehicleStats, VehicleType,
};

fn j(q: i32, r: i32, side: Direction) -> Joint {
    Joint { tile: Tile(q, r), side }
}

/// Three straight tracks westwards from the east edge of the origin.
fn line() -> RailGraph {
    let mut g = RailGraph::new();
    let mut at = j(0, 0, Direction::East);
    for _ in 0..3 {
        g.add_double_track(Track { joint: at, heading: TrackType::Straight });
        at = at.next_straight();
    }
    g
}

/// One physical grid edge, whichever side it is seen from.
fn edge_key(x: Joint) -> (i32, i32, u8) {
    let a = (x.tile.0, x.tile.1, x.side.sixth_turns());
    let o = x.opposite();
    let b = (o.tile.0, o.tile.1, o.side.sixth_turns());
    if a < b { a } else { b }
}

/// The grid edges between the back and the front bumper of a train.
fn occupied(t: &Trail) -> Vec<(i32, i32, u8)> {
    let back = ((t.path_progress - t.length as u64 * 1000) / 1000) as usize;
    let front = ((t.path_progress + 999) / 1000) as usize;
    t.path[back..=front].iter().map(|x| edge_key(*x)).collect()
}

/// Two one-vehicle trains whose fronts touch: one running west, one east.
fn facing_pair(g: &RailGraph) -> (TrainBundle, TrainBundle) {
    let mut a = create_new_train(j(0, 0, Direction::East), g, VehicleType::Wagon).unwrap();
    auto_extend_train_path(&mut a.path, g, None);
    a.path.path_progress = 2000;
    let b = create_new_train(j(-3, 0, Direction::East).opposite(), g, VehicleType::Locomotive).unwrap();
    (a, b)
}

#[test]
fn coupling_plan_for_each_contact() {
    assert_eq!(
        coupling_plan(BumperNode::Front, BumperNode::Back),
        CouplingPlan { first_is_front: false, reverse: Reversal::Neither }
    );
    assert_eq!(
        coupling_plan(BumperNode::Back, BumperNode::Front),
        CouplingPlan { first_is_front: true, reverse: Reversal::Neither }
    );
    assert_eq!(
        coupling_plan(BumperNode::Front, BumperNode::Front),
        CouplingPlan { first_is_front: true, reverse: Reversal::Front }
    );
    assert_eq!(
        coupling_plan(BumperNode::Back, BumperNode::Back),
        CouplingPlan { first_is_front: true, reverse: Reversal::Back }
    );
}

#[test]
fn new_train_needs_a_track() {
    let g = line();
    assert!(create_new_train(j(-3, 0, Direction::East), &g, VehicleType::Wagon).is_none());
    let t = create_new_train(j(0, 0, Direction::East), &g, VehicleType::Locomotive).unwrap();
    assert_eq!(t.path.path, vec![j(0, 0, Direction::East), j(-1, 0, Direction::East)]);
    assert_eq!(t.path.path_progress, 1000);
    assert_eq!(t.path.length, 1);
    assert_eq!(t.vehicles.len(), 1);
    assert_eq!(t.vehicles[0].tyype, VehicleType::Locomotive);
    assert_eq!(t.velocity.max_velocity, 55000);
}

#[test]
fn front_to_front_trains_couple() {
    let g = line();
    let (a, b) = facing_pair(&g);
    let c = couple_trains(&a, BumperNode::Front, &b, BumperNode::Front).unwrap();
    assert_eq!(c.path.length, 2);
    assert!(c.path.check_invariant());
    assert_eq!(c.vehicles.len(), 2);
    assert_eq!(c.vehicles[0].index.position, 0);
    assert_eq!(c.vehicles[0].tyype, VehicleType::Wagon);
    assert_eq!(c.vehicles[1].index.position, 1);
    assert_eq!(c.vehicles[1].tyype, VehicleType::Locomotive);
    assert_eq!(
        c.path.path,
        vec![
            j(-2, 0, Direction::West),
            j(-1, 0, Direction::West),
            j(0, 0, Direction::West),
            j(1, 0, Direction::West)
        ]
    );
    assert_eq!(c.path.path_progress, 2000);
    let mut ra = Trail { path: a.path.path.clone(), path_progress: a.path.path_progress, length: 1 };
    ra.reverse();
    assert_eq!(c.path.point_on_trail(0), ra.point_on_trail(0));
    assert_eq!(
        c.path.point_on_trail(0),
        Ok((j(0, 0, Direction::West), j(1, 0, Direction::West), 0))
    );
}

#[test]
fn uncoupling_restores_two_trains() {
    let g = line();
    let (a, b) = facing_pair(&g);
    let mut before = occupied(&a.path);
    before.extend(occupied(&b.path));
    before.sort();
    before.dedup();
    let mut c = couple_trains(&a, BumperNode::Front, &b, BumperNode::Front).unwrap();
    let back = uncouple(&mut c, 1).unwrap();
    assert_eq!(c.path.length, 1);
    assert_eq!(back.path.length, 1);
    assert_eq!(c.vehicles.len(), 1);
    assert_eq!(back.vehicles.len(), 1);
    assert_eq!(back.vehicles[0].index.position, 0);
    assert_eq!(back.vehicles[0].tyype, VehicleType::Locomotive);
    assert!(c.path.check_invariant() && back.path.check_invariant());
    let mut after = occupied(&c.path);
    after.extend(occupied(&back.path));
    after.sort();
    after.dedup();
    assert_eq!(after, before);
}

#[test]
fn uncouple_at_an_end_does_nothing() {
    let g = line();
    let (a, b) = facing_pair(&g);
    let mut c = couple_trains(&a, BumperNode::Front, &b, BumperNode::Front).unwrap();
    assert!(uncouple(&mut c, 0).is_none());
    assert!(uncouple(&mut c, 2).is_none());
    assert_eq!(c.path.length, 2);
    assert_eq!(c.vehicles.len(), 2);
}

#[test]
fn trains_apart_do_not_couple() {
    let g = line();
    let a = create_new_train(j(0, 0, Direction::East), &g, VehicleType::Wagon).unwrap();
    let b = create_new_train(j(-3, 0, Direction::East).opposite(), &g, VehicleType::Wagon).unwrap();
    assert!(couple_trains(&a, BumperNode::Front, &b, BumperNode::Front).is_none());
}

#[test]
fn append_needs_the_back_bumper_and_room() {
    let g = line();
    let mut t = create_new_train(j(0, 0, Direction::East), &g, VehicleType::Locomotive).unwrap();
    assert!(!append_vehicle(&mut t, 1, VehicleType::Wagon));
    auto_extend_train_path(&mut t.path, &g, None);
    t.path.path_progress = 2000;
    assert!(!append_vehicle(&mut t, 0, VehicleType::Wagon));
    assert!(append_vehicle(&mut t, 1, VehicleType::Wagon));
    assert_eq!(t.path.length, 2);
    assert_eq!(t.vehicles[1].index.position, 1);
    assert_eq!(t.vehicles[1].stats, VehicleStats::default_for_type(VehicleType::Wagon));
}

#[test]
fn reindex_holds_positions_in_range() {
    let mut v = vec![
        VehicleBundle {
            index: TrainIndex { position: 0 },
            tyype: VehicleType::Wagon,
            stats: VehicleStats::additive_identiy(),
        },
        VehicleBundle {
            index: TrainIndex { position: 3 },
            tyype: VehicleType::Wagon,
            stats: VehicleStats::additive_identiy(),
        },
    ];
    reindex_train(&mut v, -2);
    assert_eq!(v[0].index.position, 0);
    assert_eq!(v[1].index.position, 1);
    reindex_train(&mut v, 70000);
    assert_eq!(v[0].index.position, u16::MAX);
}

#[test]
fn gap_and_index_on_a_trail() {
    let g = line();
    let (a, b) = facing_pair(&g);
    let mut ra = Trail { path: a.path.path.clone(), path_progress: a.path.path_progress, length: 1 };
    ra.reverse();
    assert_eq!(ra.gap_to(&b.path), Some(0));
    let mut path = a.path.path.clone();
    path.push(j(-3, 0, Direction::East));
    let long = Trail { path, path_progress: 2500, length: 1 };
    assert_eq!(long.index_for_tile(j(-1, 0, Direction::East)), Some(1));
    assert_eq!(long.index_for_tile(j(0, 0, Direction::East)), None);
    assert_eq!(long.index_for_tile(j(5, 5, Direction::East)), None);
}

#[test]
fn coupling_request_needs_one_contact_with_another_train() {
    let c = BumperContact { train1: 1, bumper1: BumperNode::Front, train2: 2, bumper2: BumperNode::Back };
    let own = BumperContact { train1: 1, bumper1: BumperNode::Front, train2: 1, bumper2: BumperNode::Back };
    assert_eq!(coupling_request(0, 3, &vec![c]), Some(c));
    assert_eq!(coupling_request(3, 3, &vec![c]), Some(c));
    assert_eq!(coupling_request(1, 3, &vec![c]), None);
    assert_eq!(coupling_request(0, 3, &vec![]), None);
    assert_eq!(coupling_request(0, 3, &vec![c, c]), None);
    assert_eq!(coupling_request(0, 3, &vec![own]), None);
}

#[test]
fn world_couple_then_uncouple() {
    let g = line();
    let (a, b) = facing_pair(&g);
    let mut w = World { graph: g, trains: vec![a, b] };
    assert!(w.couple(0, BumperNode::Front, 1, BumperNode::Front));
    assert_eq!(w.trains.len(), 1);
    assert_eq!(w.trains[0].path.length, 2);
    assert_eq!(w.trains[0].vehicles.len(), 2);
    assert!(!w.uncouple(0, 2));
    assert!(w.uncouple(0, 1));
    assert_eq!(w.trains.len(), 2);
    assert_eq!(w.trains[0].path.length, 1);
    assert_eq!(w.trains[1].path.length, 1);
    assert_eq!(w.trains[1].vehicles[0].tyype, VehicleType::Locomotive);
}

#[test]
fn world_couple_rejects_trains_apart() {
    let g = line();
    let a = create_new_train(j(0, 0, Direction::East), &g, VehicleType::Wagon).unwrap();
    let b = create_new_train(j(-3, 0, Direction::East).opposite(), &g, VehicleType::Wagon).unwrap();
    let mut w = World { graph: g, trains: vec![a, b] };
    assert!(!w.couple(0, BumperNode::Front, 1, BumperNode::Front));
    assert_eq!(w.trains.len(), 2);
}
