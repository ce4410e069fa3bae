use hexrail::tilemap::{Direction, Joint, Tile};
use hexrail::trains::{
    Controller, PROGRESS_UNIT, Trail, TrainBundle, TrainIndex, VehicleBundle, VehicleStats,
    VehicleType, Velocity, progress_delta, reverse_train, tick_trains, tick_velocity,
};

fn straight_path(n: usize) -> Vec<Joint> {
    let mut j = Joint { tile: Tile(0, 0), side: Direction::East };
    let mut path = Vec::new();
    for _ in 0..n {
        path.push(j);
        j = j.next_straight();
    }
    path
}

fn wagon(position: u16, tyype: VehicleType) -> VehicleBundle {
    VehicleBundle { index: TrainIndex { position }, tyype, stats: VehicleStats::default_for_type(tyype) }
}

#[test]
fn check_invariant_bounds() {
    let t = Trail { path: straight_path(4), path_progress: 2500, length: 2 };
    assert!(t.check_invariant());
    let low = Trail { path: straight_path(4), path_progress: 1999, length: 2 };
    assert!(!low.check_invariant());
    let high = Trail { path: straight_path(4), path_progress: 3001, length: 2 };
    assert!(!high.check_invariant());
    let short = Trail { path: straight_path(2), path_progress: 1000, length: 2 };
    assert!(!short.check_invariant());
}

#[test]
fn point_on_trail_covers_the_train() {
    let path = straight_path(5);
    let t = Trail { path: path.clone(), path_progress: 3250, length: 2 };
    for index in [0u64, 250, 1000, 1999, 2000] {
        let (a, b, f) = t.point_on_trail(index).unwrap();
        assert!(path.contains(&a) && path.contains(&b));
        assert!(f <= PROGRESS_UNIT);
    }
    assert_eq!(t.point_on_trail(0), Ok((path[3], path[4], 250)));
    assert_eq!(t.point_on_trail(1250), Ok((path[2], path[3], 0)));
    assert_eq!(t.point_on_trail(2000), Ok((path[1], path[2], 250)));
    assert_eq!(t.point_on_trail(3251), Err(()));
}

#[test]
fn point_on_trail_at_end_of_path() {
    let path = straight_path(3);
    let t = Trail { path: path.clone(), path_progress: 2000, length: 1 };
    assert_eq!(t.point_on_trail(0), Ok((path[1], path[2], PROGRESS_UNIT)));
    let broken = Trail { path: path.clone(), path_progress: 500, length: 1 };
    assert_eq!(broken.point_on_trail(0), Err(()));
}

#[test]
fn trim_front_keeps_one_joint_ahead() {
    let path = straight_path(8);
    let mut t = Trail { path: path.clone(), path_progress: 2500, length: 1 };
    t.trim_front();
    assert_eq!(t.path, path[..4].to_vec());
    assert_eq!(t.path_progress, 2500);
    assert!(t.check_invariant());
}

#[test]
fn trim_back_drops_joints_behind() {
    let path = straight_path(8);
    let mut t = Trail { path: path.clone(), path_progress: 4500, length: 1 };
    t.trim_back();
    assert_eq!(t.path, path[3..].to_vec());
    assert_eq!(t.path_progress, 1500);
    assert!(t.check_invariant());
}

#[test]
fn reverse_maps_progress_and_joints() {
    let path = straight_path(5);
    let mut t = Trail { path: path.clone(), path_progress: 3250, length: 2 };
    t.reverse();
    assert_eq!(t.path_progress, 6000 - 3250);
    assert_eq!(t.path[0], path[4].opposite());
    assert_eq!(t.path[4], path[0].opposite());
    assert!(t.check_invariant());
    t.reverse();
    assert_eq!(t.path, path);
    assert_eq!(t.path_progress, 3250);
}

#[test]
fn reverse_train_twice_restores_vehicles() {
    let trail = Trail { path: straight_path(5), path_progress: 3000, length: 3 };
    let vehicles = vec![wagon(0, VehicleType::Locomotive), wagon(1, VehicleType::Wagon), wagon(2, VehicleType::Wagon)];
    let mut train = TrainBundle::new(trail, vehicles.clone(), 1000);
    reverse_train(&mut train);
    assert_eq!(train.vehicles[2].tyype, VehicleType::Locomotive);
    assert_eq!(train.vehicles[2].index.position, 2);
    assert_eq!(train.vehicles[0].index.position, 0);
    reverse_train(&mut train);
    assert_eq!(train.vehicles, vehicles);
    assert_eq!(train.path.path, straight_path(5));
    assert_eq!(train.path.path_progress, 3000);
}

#[test]
fn stats_add_and_saturate() {
    let loco = VehicleStats::default_for_type(VehicleType::Locomotive);
    let wag = VehicleStats::default_for_type(VehicleType::Wagon);
    let sum = VehicleStats::additive_identiy().add(&loco).add(&wag);
    assert_eq!(sum, VehicleStats { weight: 134000, acceleration_force: 300000, braking_force: 240000 });
    let big = VehicleStats { weight: u32::MAX, acceleration_force: 1, braking_force: 0 };
    assert_eq!(big.add(&loco).weight, u32::MAX);
}

#[test]
fn full_throttle_tick_speeds_up() {
    let loco = VehicleStats::default_for_type(VehicleType::Locomotive);
    let mut v = Velocity { velocity: 0, max_velocity: 55000 };
    tick_velocity(&mut v, &Controller { throttle: 1000, brake: 0 }, &loco, 15625);
    assert_eq!(v.velocity, 55);
}

#[test]
fn braking_stops_at_zero_and_speed_stays_under_max() {
    let loco = VehicleStats::default_for_type(VehicleType::Locomotive);
    let mut v = Velocity { velocity: 10, max_velocity: 55000 };
    tick_velocity(&mut v, &Controller { throttle: 0, brake: 1000 }, &loco, 1000000);
    assert_eq!(v.velocity, 0);
    let mut fast = Velocity { velocity: 54990, max_velocity: 55000 };
    tick_velocity(&mut fast, &Controller { throttle: 1000, brake: 0 }, &loco, 1000000);
    assert_eq!(fast.velocity, 55000);
    let massless = VehicleStats::additive_identiy();
    let mut same = Velocity { velocity: 700, max_velocity: 55000 };
    tick_velocity(&mut same, &Controller { throttle: 1000, brake: 0 }, &massless, 1000000);
    assert_eq!(same.velocity, 700);
}

#[test]
fn progress_delta_rounds_down() {
    assert_eq!(progress_delta(55000, 15625), 85);
    assert_eq!(progress_delta(10000, 1000000), 1000);
    assert_eq!(progress_delta(0, 1000000), 0);
}

#[test]
fn tick_never_runs_past_the_path() {
    let mut t = Trail { path: straight_path(2), path_progress: 1000, length: 1 };
    tick_trains(&mut t, &Velocity { velocity: 55000, max_velocity: 55000 }, 1000000);
    assert_eq!(t.path_progress, 1000);
    let mut u = Trail { path: straight_path(4), path_progress: 1000, length: 1 };
    tick_trains(&mut u, &Velocity { velocity: 10000, max_velocity: 55000 }, 500000);
    assert_eq!(u.path_progress, 1500);
}
