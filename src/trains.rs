//! Trains and their trails.
//!
//! A train's position is a fractional index into its path, kept as a whole
//! number of [`PROGRESS_UNIT`]ths of a track.

use vstd::prelude::*;
use crate::tilemap::{Joint, lemma_joint_opposite_involution};

verus! {

/// Progress steps per track: a trail's progress counts in thousandths of a
/// track.
pub const PROGRESS_UNIT: u64 = 1000;

/// The path, position and size of one train.
pub struct Trail {
    /// From the oldest joint at index 0 to the newest.
    pub path: Vec<Joint>,
    /// Where the front of the train is, as an index into `path` in steps of
    /// `1 / PROGRESS_UNIT`.
    pub path_progress: u64,
    /// Number of vehicles; each one takes one track of the path.
    pub length: u16,
}

/// The path read backwards, each joint seen from the other side.
pub open spec fn reversed_path(path: Seq<Joint>) -> Seq<Joint> {
    Seq::new(path.len(), |i: int| path[path.len() - 1 - i].spec_opposite())
}

/// Progress of the front of a reversed trail: its old back end, counted
/// from the other end of the path.
pub open spec fn reversed_progress(path_len: int, length: int, progress: int) -> int {
    (path_len - 1 + length) * PROGRESS_UNIT - progress
}

/// A trail as plain values: path, progress and number of vehicles.
pub type TrailModel = (Seq<Joint>, int, int);

/// The invariant of [`Trail`] over its model.
pub open spec fn model_wf(m: TrailModel) -> bool {
    &&& m.0.len() >= m.2 + 1
    &&& m.2 * PROGRESS_UNIT <= m.1
    &&& m.1 <= (m.0.len() - 1) * PROGRESS_UNIT
    &&& (m.0.len() - 1) * PROGRESS_UNIT <= u64::MAX
    &&& 0 <= m.2 <= u16::MAX
}

/// The model of a trail turned around.
pub open spec fn reversed_model(m: TrailModel) -> TrailModel {
    (reversed_path(m.0), reversed_progress(m.0.len() as int, m.2, m.1), m.2)
}

/// Where `index` steps behind the front of a trail lies: the two joints
/// around it, back one first, and how far past the first it is, in steps.
/// At the very end of the path the last track is used, at its far end.
pub open spec fn model_point(m: TrailModel, index: int) -> Result<(Joint, Joint, u64), ()> {
    if !model_wf(m) || index < 0 || index > m.1 {
        Err(())
    } else {
        let p = m.1 - index;
        let seg = p / (PROGRESS_UNIT as int);
        let frac = p % (PROGRESS_UNIT as int);
        if seg + 1 < m.0.len() {
            Ok((m.0[seg], m.0[seg + 1], frac as u64))
        } else if seg + 1 == m.0.len() && frac == 0 && seg >= 1 {
            Ok((m.0[seg - 1], m.0[seg], PROGRESS_UNIT))
        } else {
            Err(())
        }
    }
}

impl Trail {
    /// The trail as plain values.
    pub open spec fn model(&self) -> TrailModel {
        (self.path@, self.path_progress as int, self.length as int)
    }

    /// The path holds every vehicle, the front lies between the back of the
    /// last vehicle and the end of the path, and every position on the path
    /// fits the progress type.
    pub open spec fn wf(&self) -> bool {
        &&& self.path.len() >= self.length + 1
        &&& self.length * PROGRESS_UNIT <= self.path_progress
        &&& self.path_progress <= (self.path.len() - 1) * PROGRESS_UNIT
        &&& (self.path.len() - 1) * PROGRESS_UNIT <= u64::MAX
    }

    /// Where `index` steps behind the front lies; see [`model_point`].
    pub open spec fn spec_point_on_trail(&self, index: int) -> Result<(Joint, Joint, u64), ()> {
        model_point(self.model(), index)
    }

    /// Whether the invariant holds.
    pub fn check_invariant(&self) -> (r: bool)
        ensures
            r == self.wf(),
    {
        let len = self.path.len();
        if len < self.length as usize + 1 {
            return false;
        }
        let top: u128 = (len - 1) as u128 * PROGRESS_UNIT as u128;
        top <= u64::MAX as u128 && self.length as u128 * PROGRESS_UNIT as u128
            <= self.path_progress as u128 && self.path_progress as u128 <= top
    }

    /// The point `index` steps behind the front: `0` is the front bumper,
    /// `length * PROGRESS_UNIT` the back bumper. Gives the joint behind the
    /// point, the joint ahead of it, and how far past the first the point is,
    /// from `0` to `PROGRESS_UNIT`. Fails where the trail is broken or the
    /// point lies outside the path.
    pub fn point_on_trail(&self, index: u64) -> (r: Result<(Joint, Joint, u64), ()>)
        ensures
            r == self.spec_point_on_trail(index as int),
    {
        if !self.check_invariant() || index > self.path_progress {
            return Err(());
        }
        let p = self.path_progress - index;
        let seg = p / PROGRESS_UNIT;
        let frac = p % PROGRESS_UNIT;
        if seg < (self.path.len() - 1) as u64 {
            let s = seg as usize;
            Ok((self.path[s], self.path[s + 1], frac))
        } else if seg == (self.path.len() - 1) as u64 && frac == 0 && seg >= 1 {
            let s = seg as usize;
            Ok((self.path[s - 1], self.path[s], PROGRESS_UNIT))
        } else {
            Err(())
        }
    }

    /// Drops the joints more than one track ahead of the front.
    pub fn trim_front(&mut self)
        requires
            old(self).wf(),
        ensures
            final(self).wf(),
            final(self).path@ == old(self).path@.take(
                vstd::math::min(
                    old(self).path.len() as int,
                    old(self).path_progress as int / (PROGRESS_UNIT as int) + 2,
                ),
            ),
            final(self).path_progress == old(self).path_progress,
            final(self).length == old(self).length,
    {
        let keep: u64 = self.path_progress / PROGRESS_UNIT + 2;
        if keep < self.path.len() as u64 {
            self.path.truncate(keep as usize);
        }
        proof {
            assert(self.path@ =~= old(self).path@.take(
                vstd::math::min(
                    old(self).path.len() as int,
                    old(self).path_progress as int / (PROGRESS_UNIT as int) + 2,
                ),
            ));
        }
    }

    /// Drops the joints behind the track that holds the back bumper.
    pub fn trim_back(&mut self)
        requires
            old(self).wf(),
        ensures
            final(self).wf(),
            final(self).path@ == old(self).path@.skip(old(self).back_drop()),
            final(self).path_progress == old(self).path_progress - old(self).back_drop()
                * PROGRESS_UNIT,
            final(self).length == old(self).length,
    {
        let drop: u64 = (self.path_progress - self.length as u64 * PROGRESS_UNIT) / PROGRESS_UNIT;
        let tail = self.path.split_off(drop as usize);
        self.path = tail;
        self.path_progress = self.path_progress - drop * PROGRESS_UNIT;
    }

    /// How many whole tracks of the path lie behind the back bumper.
    pub open spec fn back_drop(&self) -> int {
        (self.path_progress - self.length * PROGRESS_UNIT) / (PROGRESS_UNIT as int)
    }

    /// Turns the trail around: the path runs the other way, each joint seen
    /// from the other side, and the front is where the back bumper was.
    /// Vehicle positions are left to the caller.
    pub fn reverse(&mut self)
        requires
            old(self).wf(),
        ensures
            final(self).wf(),
            final(self).path@ == reversed_path(old(self).path@),
            final(self).path_progress == reversed_progress(
                old(self).path.len() as int,
                old(self).length as int,
                old(self).path_progress as int,
            ),
            final(self).length == old(self).length,
    {
        let n = self.path.len();
        let mut path: Vec<Joint> = Vec::with_capacity(n);
        let mut i: usize = 0;
        while i < n
            invariant
                n == self.path.len(),
                i <= n,
                path@ =~= reversed_path(self.path@).take(i as int),
            decreases n - i,
        {
            path.push(self.path[n - 1 - i].opposite());
            i += 1;
        }
        let top: u64 = (n - 1) as u64 * PROGRESS_UNIT;
        let back: u64 = self.path_progress - self.length as u64 * PROGRESS_UNIT;
        self.path = path;
        self.path_progress = top - back;
        proof {
            assert(self.path@ =~= reversed_path(old(self).path@));
        }
    }
}

/// A trail turned around twice is the same trail.
pub proof fn lemma_reverse_twice(path: Seq<Joint>, length: int, progress: int)
    ensures
        reversed_path(reversed_path(path)) == path,
        reversed_progress(
            path.len() as int,
            length,
            reversed_progress(path.len() as int, length, progress),
        ) == progress,
{
    let twice = reversed_path(reversed_path(path));
    assert forall|i: int| 0 <= i < path.len() implies twice[i] == path[i] by {
        lemma_joint_opposite_involution(path[i]);
    }
    assert(twice =~= path);
}

/// On a sound trail of at least one vehicle, every point from the front
/// bumper to the back bumper lies on the path, between two of its joints.
pub proof fn lemma_point_on_trail_in_range(t: Trail, index: int)
    requires
        t.wf(),
        t.length >= 1,
        0 <= index <= t.length * PROGRESS_UNIT,
    ensures
        t.spec_point_on_trail(index) is Ok,
        t.path@.contains(t.spec_point_on_trail(index)->Ok_0.0),
        t.path@.contains(t.spec_point_on_trail(index)->Ok_0.1),
{
    let p = t.path_progress - index;
    let seg = p / (PROGRESS_UNIT as int);
    if seg + 1 < t.path.len() {
        assert(t.path@[seg] == t.path@[seg]);
        assert(t.path@.contains(t.path@[seg]));
        assert(t.path@.contains(t.path@[seg + 1]));
    } else {
        assert(t.path@.contains(t.path@[seg - 1]));
        assert(t.path@.contains(t.path@[seg]));
    }
}

/// Millimetres of track between two joints.
pub const MILLIMETERS_PER_TRACK: u64 = 10000;

/// The kind of a vehicle.
#[derive(Clone, Copy, Debug, PartialEq, Eq, Structural, Hash)]
pub enum VehicleType {
    Locomotive,
    Wagon,
}

/// What a vehicle adds to the motion of its train.
#[derive(Clone, Copy, Debug, PartialEq, Eq, Structural)]
pub struct VehicleStats {
    /// Mass in kilograms.
    pub weight: u32,
    /// Pulling force at full throttle, in newtons.
    pub acceleration_force: u32,
    /// Braking force at full brake, in newtons.
    pub braking_force: u32,
}

/// A vehicle's place in its train, counted from the front from `0`.
#[derive(Clone, Copy, Debug, PartialEq, Eq, Structural)]
pub struct TrainIndex {
    pub position: u16,
}

/// One vehicle of a train.
#[derive(Clone, Copy, Debug, PartialEq, Eq, Structural)]
pub struct VehicleBundle {
    pub index: TrainIndex,
    pub tyype: VehicleType,
    pub stats: VehicleStats,
}

/// Speed of a train in millimetres per second.
#[derive(Clone, Copy, Debug, PartialEq, Eq, Structural)]
pub struct Velocity {
    pub velocity: u32,
    /// `velocity` never goes above this.
    pub max_velocity: u32,
}

/// Throttle and brake, each in thousandths of full power.
#[derive(Clone, Copy, Debug, PartialEq, Eq, Structural, Default)]
pub struct Controller {
    pub throttle: u16,
    pub brake: u16,
}

/// One of the two contact points of a vehicle.
#[derive(Clone, Copy, Debug, PartialEq, Eq, Structural)]
pub enum BumperNode {
    Front,
    Back,
}

/// A train: its trail, motion and vehicles, front first.
pub struct TrainBundle {
    pub path: Trail,
    pub velocity: Velocity,
    pub controller: Controller,
    /// The vehicles in the order of their positions.
    pub vehicles: Vec<VehicleBundle>,
    /// Set once the train has run into something.
    pub crashed: bool,
}

/// `x`, held at `u32::MAX`.
pub open spec fn sat_u32(x: int) -> u32 {
    if x > u32::MAX { u32::MAX } else { x as u32 }
}

/// `v` at position `p`, everything else kept.
pub open spec fn at_position(v: VehicleBundle, p: int) -> VehicleBundle {
    VehicleBundle { index: TrainIndex { position: p as u16 }, ..v }
}

/// The vehicles of a train, front first, each at its own position.
pub open spec fn vehicles_in_order(vehicles: Seq<VehicleBundle>, length: int) -> bool {
    &&& vehicles.len() == length
    &&& forall|i: int| 0 <= i < vehicles.len() ==> #[trigger] vehicles[i].index.position == i
}

/// The vehicles of a turned train: back first, positions counted anew.
pub open spec fn reversed_vehicles(vehicles: Seq<VehicleBundle>) -> Seq<VehicleBundle> {
    Seq::new(
        vehicles.len(),
        |i: int| at_position(vehicles[vehicles.len() - 1 - i], i),
    )
}

impl VehicleStats {
    pub open spec fn spec_default_for_type(wagon_type: VehicleType) -> VehicleStats {
        match wagon_type {
            VehicleType::Locomotive => VehicleStats {
                weight: 84000,
                acceleration_force: 300000,
                braking_force: 200000,
            },
            VehicleType::Wagon => VehicleStats {
                weight: 50000,
                acceleration_force: 0,
                braking_force: 40000,
            },
        }
    }

    /// The stats a new vehicle of kind `wagon_type` gets.
    pub fn default_for_type(wagon_type: VehicleType) -> (r: VehicleStats)
        ensures
            r == VehicleStats::spec_default_for_type(wagon_type),
    {
        match wagon_type {
            VehicleType::Locomotive => VehicleStats {
                weight: 84000,
                acceleration_force: 300000,
                braking_force: 200000,
            },
            VehicleType::Wagon => VehicleStats {
                weight: 50000,
                acceleration_force: 0,
                braking_force: 40000,
            },
        }
    }

    /// All zero: adding it changes nothing.
    pub fn additive_identiy() -> (r: VehicleStats)
        ensures
            r == (VehicleStats { weight: 0, acceleration_force: 0, braking_force: 0 }),
    {
        VehicleStats { weight: 0, acceleration_force: 0, braking_force: 0 }
    }

    /// The stats of two vehicles together, each sum held at `u32::MAX`.
    pub fn add(self, rhs: &VehicleStats) -> (r: VehicleStats)
        ensures
            r.weight == sat_u32(self.weight + rhs.weight),
            r.acceleration_force == sat_u32(self.acceleration_force + rhs.acceleration_force),
            r.braking_force == sat_u32(self.braking_force + rhs.braking_force),
    {
        VehicleStats {
            weight: self.weight.saturating_add(rhs.weight),
            acceleration_force: self.acceleration_force.saturating_add(rhs.acceleration_force),
            braking_force: self.braking_force.saturating_add(rhs.braking_force),
        }
    }
}

/// The speed after `dt_micros` microseconds of constant throttle and brake
/// force on a train of the given stats, held between `0` and `max_velocity`.
/// A train without mass keeps its speed.
pub open spec fn spec_next_velocity(
    velocity: Velocity,
    controller: Controller,
    stats: VehicleStats,
    dt_micros: u32,
) -> u32 {
    let gain = controller.throttle * stats.acceleration_force;
    let loss = controller.brake * stats.braking_force;
    let scale = stats.weight * 1000000;
    let v = if stats.weight == 0 {
        velocity.velocity as int
    } else if gain >= loss {
        velocity.velocity + (gain - loss) * dt_micros / scale
    } else {
        velocity.velocity - (loss - gain) * dt_micros / scale
    };
    if v < 0 {
        0
    } else if v > velocity.max_velocity {
        velocity.max_velocity
    } else {
        v as u32
    }
}

/// Applies throttle and brake for one tick of `dt_micros` microseconds.
pub fn tick_velocity(
    velocity: &mut Velocity,
    controller: &Controller,
    stats: &VehicleStats,
    dt_micros: u32,
)
    ensures
        final(velocity).velocity == spec_next_velocity(*old(velocity), *controller, *stats, dt_micros),
        final(velocity).max_velocity == old(velocity).max_velocity,
{
    proof {
        assert(controller.throttle * stats.acceleration_force <= 0xffff * 0xffff_ffff) by (nonlinear_arith)
            requires controller.throttle <= 0xffff, stats.acceleration_force <= 0xffff_ffff;
        assert(controller.brake * stats.braking_force <= 0xffff * 0xffff_ffff) by (nonlinear_arith)
            requires controller.brake <= 0xffff, stats.braking_force <= 0xffff_ffff;
    }
    let gain: u128 = controller.throttle as u128 * stats.acceleration_force as u128;
    let loss: u128 = controller.brake as u128 * stats.braking_force as u128;
    let v: u128 = velocity.velocity as u128;
    let max: u128 = velocity.max_velocity as u128;
    let next: u128 = if stats.weight == 0 {
        if v > max { max } else { v }
    } else {
        let scale: u128 = stats.weight as u128 * 1000000;
        if gain >= loss {
            let d: u128 = gain - loss;
            proof {
                assert(d * dt_micros <= 0xffff * 0xffff_ffff * 0xffff_ffff) by (nonlinear_arith)
                    requires d <= 0xffff * 0xffff_ffff, dt_micros <= 0xffff_ffff;
            }
            let up: u128 = d * dt_micros as u128 / scale;
            if up >= max || v >= max - up { max } else { v + up }
        } else {
            let d: u128 = loss - gain;
            proof {
                assert(d * dt_micros <= 0xffff * 0xffff_ffff * 0xffff_ffff) by (nonlinear_arith)
                    requires d <= 0xffff * 0xffff_ffff, dt_micros <= 0xffff_ffff;
            }
            let down: u128 = d * dt_micros as u128 / scale;
            let w: u128 = if down >= v { 0 } else { v - down };
            if w > max { max } else { w }
        }
    };
    velocity.velocity = next as u32;
}

/// Progress steps covered in `dt_micros` microseconds at `velocity`
/// millimetres per second, rounded down.
pub fn progress_delta(velocity: u32, dt_micros: u32) -> (r: u64)
    ensures
        r == (velocity as int * dt_micros as int * PROGRESS_UNIT as int) / (1000000 * MILLIMETERS_PER_TRACK as int),
{
    proof {
        assert(velocity as int * dt_micros as int <= 0xffff_ffff * 0xffff_ffff) by (nonlinear_arith);
    }
    let m: u128 = velocity as u128 * dt_micros as u128 * PROGRESS_UNIT as u128;
    (m / (1000000 * MILLIMETERS_PER_TRACK as u128)) as u64
}

impl Trail {
    /// Moves the front `delta` steps ahead, but never past the end of the
    /// path.
    pub fn advance(&mut self, delta: u64)
        requires
            old(self).wf(),
        ensures
            final(self).wf(),
            final(self).path@ == old(self).path@,
            final(self).length == old(self).length,
            final(self).path_progress == vstd::math::min(
                old(self).path_progress + delta,
                (old(self).path.len() - 1) * PROGRESS_UNIT,
            ),
    {
        let top: u64 = (self.path.len() - 1) as u64 * PROGRESS_UNIT;
        if delta >= top - self.path_progress {
            self.path_progress = top;
        } else {
            self.path_progress = self.path_progress + delta;
        }
    }
}

/// One fixed tick of `dt_micros` microseconds: the front runs on as far as
/// the speed carries it, never past the end of the path.
pub fn tick_trains(trail: &mut Trail, velocity: &Velocity, dt_micros: u32)
    requires
        old(trail).wf(),
    ensures
        final(trail).wf(),
        final(trail).path@ == old(trail).path@,
        final(trail).length == old(trail).length,
        final(trail).path_progress == vstd::math::min(
            old(trail).path_progress + (velocity.velocity as int * dt_micros as int
                * PROGRESS_UNIT as int) / (1000000 * MILLIMETERS_PER_TRACK as int),
            (old(trail).path.len() - 1) * PROGRESS_UNIT,
        ),
{
    let delta = progress_delta(velocity.velocity, dt_micros);
    trail.advance(delta);
}

impl TrainBundle {
    /// Trail and vehicles agree.
    pub open spec fn wf(&self) -> bool {
        &&& self.path.wf()
        &&& vehicles_in_order(self.vehicles@, self.path.length as int)
    }

    /// A standing train with the given trail and vehicles.
    pub fn new(trail: Trail, vehicles: Vec<VehicleBundle>, max_velocity: u32) -> (r: TrainBundle)
        ensures
            r.path == trail,
            r.vehicles == vehicles,
            r.velocity == (Velocity { velocity: 0, max_velocity }),
            r.controller == (Controller { throttle: 0, brake: 0 }),
            !r.crashed,
    {
        TrainBundle {
            path: trail,
            velocity: Velocity { velocity: 0, max_velocity },
            controller: Controller { throttle: 0, brake: 0 },
            vehicles,
            crashed: false,
        }
    }
}

/// Turns a whole train around: its trail, and its vehicles, whose positions
/// become `length - position - 1`.
pub fn reverse_train(train: &mut TrainBundle)
    requires
        old(train).wf(),
    ensures
        final(train).wf(),
        final(train).path.path@ == reversed_path(old(train).path.path@),
        final(train).path.path_progress == reversed_progress(
            old(train).path.path.len() as int,
            old(train).path.length as int,
            old(train).path.path_progress as int,
        ),
        final(train).path.length == old(train).path.length,
        final(train).vehicles@ == reversed_vehicles(old(train).vehicles@),
        final(train).velocity == old(train).velocity,
        final(train).controller == old(train).controller,
        final(train).crashed == old(train).crashed,
{
    train.path.reverse();
    let n = train.vehicles.len();
    let mut turned: Vec<VehicleBundle> = Vec::with_capacity(n);
    let mut i: usize = 0;
    while i < n
        invariant
            n == train.vehicles.len(),
            n == train.path.length,
            i <= n,
            turned@ =~= reversed_vehicles(train.vehicles@).take(i as int),
        decreases n - i,
    {
        let v = train.vehicles[n - 1 - i];
        turned.push(VehicleBundle { index: TrainIndex { position: i as u16 }, tyype: v.tyype, stats: v.stats });
        i += 1;
    }
    train.vehicles = turned;
    proof {
        assert(train.vehicles@ =~= reversed_vehicles(old(train).vehicles@));
    }
}

/// Turning a train around twice gives back its trail and every vehicle at
/// its old position.
pub proof fn lemma_reverse_train_twice(vehicles: Seq<VehicleBundle>, length: int)
    requires
        vehicles_in_order(vehicles, length),
    ensures
        reversed_vehicles(reversed_vehicles(vehicles)) == vehicles,
        vehicles_in_order(reversed_vehicles(vehicles), length),
{
    let twice = reversed_vehicles(reversed_vehicles(vehicles));
    if vehicles.len() > 0 {
        assert(vehicles[vehicles.len() - 1].index.position == vehicles.len() - 1);
    }
    assert forall|i: int| 0 <= i < vehicles.len() implies twice[i] == vehicles[i] by {
        assert(vehicles[i].index.position == i);
    }
    assert(twice =~= vehicles);
}

} // verus!
