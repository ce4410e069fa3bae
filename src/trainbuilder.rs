//! Building trains: placing new ones, appending vehicles, and coupling and
//! uncoupling trains. Every operation here takes effect as a whole or not at
//! all, so no train is ever seen half changed.

use vstd::prelude::*;
use crate::railroad::RailGraph;
use crate::tilemap::Joint;
use crate::trains::{
    BumperNode, PROGRESS_UNIT, Trail, TrailModel, model_point, TrainBundle, TrainIndex, VehicleBundle,
    VehicleStats, VehicleType, at_position, model_wf, reverse_train, reversed_model,
    reversed_vehicles, vehicles_in_order,
};

verus! {

/// Top speed of a newly placed train in millimetres per second, about
/// 200 km/h.
pub const NEW_TRAIN_MAX_VELOCITY: u32 = 55000;

/// `i` is the first index at which `x` stands in `s`.
pub open spec fn is_first_index(s: Seq<Joint>, x: Joint, i: int) -> bool {
    &&& 0 <= i < s.len()
    &&& s[i] == x
    &&& forall|j: int| 0 <= j < i ==> s[j] != x
}

proof fn lemma_first_index_unique(s: Seq<Joint>, x: Joint, i: int, j: int)
    requires
        is_first_index(s, x, i),
        is_first_index(s, x, j),
    ensures
        i == j,
{
}

fn position_of(v: &Vec<Joint>, x: Joint) -> (r: Option<usize>)
    ensures
        r is Some ==> is_first_index(v@, x, r->Some_0 as int),
        r is None ==> !v@.contains(x),
{
    let mut i: usize = 0;
    while i < v.len()
        invariant
            i <= v.len(),
            forall|j: int| 0 <= j < i ==> v@[j] != x,
        decreases v.len() - i,
    {
        if v[i] == x {
            return Some(i);
        }
        i += 1;
    }
    None
}

fn copy_path(v: &Vec<Joint>) -> (r: Vec<Joint>)
    ensures
        r@ == v@,
{
    let mut r: Vec<Joint> = Vec::with_capacity(v.len());
    let mut i: usize = 0;
    while i < v.len()
        invariant
            i <= v.len(),
            r@ =~= v@.take(i as int),
        decreases v.len() - i,
    {
        r.push(v[i]);
        i += 1;
    }
    proof {
        assert(r@ =~= v@);
    }
    r
}

fn copy_trail(t: &Trail) -> (r: Trail)
    ensures
        r.model() == t.model(),
{
    Trail { path: copy_path(&t.path), path_progress: t.path_progress, length: t.length }
}

/// The part of a trail from the track of its back bumper on.
pub open spec fn trimmed_back(m: TrailModel) -> TrailModel {
    let drop = (m.1 - m.2 * PROGRESS_UNIT) / (PROGRESS_UNIT as int);
    (m.0.skip(drop), m.1 - drop * PROGRESS_UNIT, m.2)
}

/// The part of a trail up to one joint past its front.
pub open spec fn trimmed_front(m: TrailModel) -> TrailModel {
    (m.0.take(vstd::math::min(m.0.len() as int, m.1 / (PROGRESS_UNIT as int) + 2)), m.1, m.2)
}

/// `back` joined behind `front`: the front part of `back`'s path up to its
/// last joint, then `front`'s path after the first place where that joint
/// stands in it. The front keeps its place on the ground. None where the
/// paths do not meet, where the front of `front` would fall into the joined
/// part, or where the result is no sound trail.
pub open spec fn spliced(front: TrailModel, back: TrailModel) -> Option<TrailModel> {
    let f = trimmed_back(front);
    let b = trimmed_front(back);
    let x = b.0.last();
    if b.0.len() >= 1 && exists|i: int| is_first_index(f.0, x, i) {
        let i = choose|i: int| is_first_index(f.0, x, i);
        let m = (b.0 + f.0.skip(i + 1), f.1 + (b.0.len() - 1 - i) * PROGRESS_UNIT, f.2 + b.2);
        if f.1 >= i * PROGRESS_UNIT && model_wf(m) {
            Some(m)
        } else {
            None
        }
    } else {
        None
    }
}

/// The signed distance, in progress steps, from the back bumper of `t` to
/// the front bumper of `other`, where the two lie on the same track or on
/// tracks that follow each other.
pub open spec fn spec_gap(t: Trail, other: Trail) -> Option<i64> {
    let head = other.spec_point_on_trail(0);
    let tail = t.spec_point_on_trail(t.length * PROGRESS_UNIT);
    if head is Err || tail is Err {
        None
    } else {
        let (h1, h2, hf) = head->Ok_0;
        let (t1, t2, tf) = tail->Ok_0;
        if h1 == t1 && h2 == t2 {
            Some((tf - hf) as i64)
        } else if h2 == t1 {
            Some((PROGRESS_UNIT - hf + tf) as i64)
        } else if h1 == t2 {
            Some((-(hf + (PROGRESS_UNIT - tf))) as i64)
        } else {
            None
        }
    }
}

/// Where `face` lies on the trail, as the position of the vehicle over it,
/// or `length` past the last vehicle; uses the first place where `face`
/// stands in the path.
pub open spec fn spec_index_for_tile(t: Trail, face: Joint) -> Option<u16> {
    if t.path_progress <= (t.length + 1) * PROGRESS_UNIT {
        None
    } else if exists|i: int| is_first_index(t.path@, face, i) {
        let i = choose|i: int| is_first_index(t.path@, face, i);
        let index = t.path_progress - i * PROGRESS_UNIT;
        if index < 0 || index >= (t.length + 1) * PROGRESS_UNIT {
            None
        } else {
            Some((index / (PROGRESS_UNIT as int)) as u16)
        }
    } else {
        None
    }
}

impl Trail {
    /// The vehicle position nearest to `face`, or `length` at the back; see
    /// [`spec_index_for_tile`]. None where there is no room behind the train
    /// or `face` lies outside it.
    pub fn index_for_tile(&self, face: Joint) -> (r: Option<u16>)
        requires
            self.wf(),
        ensures
            r == spec_index_for_tile(*self, face),
    {
        if self.path_progress <= (self.length as u64 + 1) * PROGRESS_UNIT {
            return None;
        }
        let i = match position_of(&self.path, face) {
            Some(i) => i,
            None => {
                proof {
                    if exists|i: int| is_first_index(self.path@, face, i) {
                        let i = choose|i: int| is_first_index(self.path@, face, i);
                        assert(self.path@.contains(self.path@[i]));
                    }
                }
                return None;
            },
        };
        proof {
            let c = choose|c: int| is_first_index(self.path@, face, c);
            lemma_first_index_unique(self.path@, face, c, i as int);
        }
        let at: u64 = i as u64 * PROGRESS_UNIT;
        if self.path_progress < at {
            return None;
        }
        let index = self.path_progress - at;
        if index >= (self.length as u64 + 1) * PROGRESS_UNIT {
            None
        } else {
            Some((index / PROGRESS_UNIT) as u16)
        }
    }

    /// The gap from the back of this trail to the front of `other`; see
    /// [`spec_gap`].
    pub fn gap_to(&self, other: &Trail) -> (r: Option<i64>)
        ensures
            r == spec_gap(*self, *other),
    {
        let head = other.point_on_trail(0);
        let tail = self.point_on_trail(self.length as u64 * PROGRESS_UNIT);
        match (head, tail) {
            (Ok((h1, h2, hf)), Ok((t1, t2, tf))) => {
                if h1 == t1 && h2 == t2 {
                    Some(tf as i64 - hf as i64)
                } else if h2 == t1 {
                    Some(PROGRESS_UNIT as i64 - hf as i64 + tf as i64)
                } else if h1 == t2 {
                    Some(-(hf as i64 + (PROGRESS_UNIT as i64 - tf as i64)))
                } else {
                    None
                }
            },
            _ => None,
        }
    }

    /// Joins `back` behind `front` into one trail; see [`spliced`].
    pub fn clone_from_parts(front: &Trail, back: &Trail) -> (r: Result<Trail, ()>)
        requires
            front.wf(),
            back.wf(),
        ensures
            r is Ok <==> spliced(front.model(), back.model()) is Some,
            r is Ok ==> r->Ok_0.model() == spliced(front.model(), back.model())->Some_0,
            r is Ok ==> r->Ok_0.wf(),
    {
        let mut front_part = copy_trail(front);
        front_part.trim_back();
        let mut back_part = copy_trail(back);
        back_part.trim_front();
        let ghost f = trimmed_back(front.model());
        let ghost b = trimmed_front(back.model());
        proof {
            assert(front_part.model() == f);
            assert(back_part.model() == b);
        }
        let last = back_part.path[back_part.path.len() - 1];
        let overlap = match position_of(&front_part.path, last) {
            Some(i) => i,
            None => {
                proof {
                    if exists|i: int| is_first_index(f.0, b.0.last(), i) {
                        let i = choose|i: int| is_first_index(f.0, b.0.last(), i);
                        assert(f.0.contains(f.0[i]));
                    }
                }
                return Err(());
            },
        };
        proof {
            let i = choose|i: int| is_first_index(f.0, b.0.last(), i);
            lemma_first_index_unique(f.0, b.0.last(), i, overlap as int);
        }
        if (front_part.path_progress as u128) < overlap as u128 * PROGRESS_UNIT as u128 {
            return Err(());
        }
        let ghost m = (
            b.0 + f.0.skip(overlap + 1),
            f.1 + (b.0.len() - 1 - overlap) * PROGRESS_UNIT,
            f.2 + b.2,
        );
        let sum_length: u32 = front.length as u32 + back.length as u32;
        let joint_at: usize = back_part.path.len() - 1;
        let progress: u128 = if overlap <= joint_at {
            front_part.path_progress as u128 + (joint_at - overlap) as u128 * PROGRESS_UNIT as u128
        } else {
            let behind: u128 = (overlap - joint_at) as u128 * PROGRESS_UNIT as u128;
            if (front_part.path_progress as u128) < behind {
                return Err(());
            }
            front_part.path_progress as u128 - behind
        };
        if sum_length > u16::MAX as u32 || progress > u64::MAX as u128 {
            return Err(());
        }
        let mut path = back_part.path;
        let mut k: usize = overlap + 1;
        while k < front_part.path.len()
            invariant
                overlap + 1 <= k <= front_part.path.len(),
                path@ =~= b.0 + f.0.subrange(overlap + 1, k as int),
                front_part.model() == f,
            decreases front_part.path.len() - k,
        {
            path.push(front_part.path[k]);
            k += 1;
        }
        let combined = Trail {
            path,
            path_progress: progress as u64,
            length: sum_length as u16,
        };
        proof {
            assert(combined.path@ =~= m.0);
        }
        if !combined.check_invariant() {
            return Err(());
        }
        Ok(combined)
    }
}

/// Two bumpers that touch: of which trains, and which bumper of each.
#[derive(Clone, Copy, Debug, PartialEq, Eq, Structural)]
pub struct BumperContact {
    pub train1: u64,
    pub bumper1: BumperNode,
    pub train2: u64,
    pub bumper2: BumperNode,
}

/// Whether a click at fence post `bumper_index` of a train of `length`
/// vehicles asks to couple, given the contacts of the clicked bumper: it
/// must be an end of the train, touch exactly one bumper, and that bumper
/// must belong to another train. Gives the contact to couple at.
pub fn coupling_request(bumper_index: u16, length: u16, contacts: &Vec<BumperContact>) -> (r: Option<BumperContact>)
    ensures
        r == (if (bumper_index == 0 || bumper_index == length) && contacts@.len() == 1
            && contacts@[0].train1 != contacts@[0].train2 {
            Some(contacts@[0])
        } else {
            None::<BumperContact>
        }),
{
    if !(bumper_index == 0 || bumper_index == length) {
        return None;
    }
    if contacts.len() != 1 {
        return None;
    }
    let c = contacts[0];
    if c.train1 == c.train2 {
        return None;
    }
    Some(c)
}

/// Joining a train behind another keeps the front bumper of the front one
/// where it was, wherever that bumper is not at the very end of its path.
pub proof fn lemma_splice_keeps_front(front: TrailModel, back: TrailModel)
    requires
        model_wf(front),
        model_wf(back),
        spliced(front, back) is Some,
        front.1 / (PROGRESS_UNIT as int) + 1 < front.0.len(),
    ensures
        model_point(spliced(front, back)->Some_0, 0) == model_point(front, 0),
{
    let u = PROGRESS_UNIT as int;
    let f = trimmed_back(front);
    let b = trimmed_front(back);
    let x = b.0.last();
    let o = choose|i: int| is_first_index(f.0, x, i);
    let c = spliced(front, back)->Some_0;
    let d = (front.1 - front.2 * u) / u;
    let s = front.1 / u;
    let r = front.1 % u;
    assert(f.1 == front.1 - d * u);
    assert(f.1 / u == s - d);
    assert(f.1 % u == r);
    let sf = s - d;
    assert(f.1 >= o * u);
    assert(sf >= o);
    assert(c.1 == f.1 + (b.0.len() - 1 - o) * u);
    assert(c.1 / u == sf + (b.0.len() - 1 - o));
    assert(c.1 % u == r);
    let seg = sf + (b.0.len() - 1 - o);
    assert(c.0.len() == b.0.len() + f.0.len() - o - 1);
    assert(c.0[seg] == front.0[s]);
    assert(c.0[seg + 1] == front.0[s + 1]);
}

/// Which of two touching trains has to turn around before they are joined.
#[derive(Clone, Copy, Debug, PartialEq, Eq, Structural)]
pub enum Reversal {
    Neither,
    Front,
    Back,
}

/// How two trains that touch at bumpers `d1` and `d2` are joined: whether
/// the first one becomes the front part, and which part turns around first.
#[derive(Clone, Copy, Debug, PartialEq, Eq, Structural)]
pub struct CouplingPlan {
    pub first_is_front: bool,
    pub reverse: Reversal,
}

/// See [`coupling_plan`].
pub open spec fn spec_coupling_plan(d1: BumperNode, d2: BumperNode) -> CouplingPlan {
    match (d1, d2) {
        (BumperNode::Front, BumperNode::Back) => CouplingPlan {
            first_is_front: false,
            reverse: Reversal::Neither,
        },
        (BumperNode::Back, BumperNode::Front) => CouplingPlan {
            first_is_front: true,
            reverse: Reversal::Neither,
        },
        (BumperNode::Front, BumperNode::Front) => CouplingPlan {
            first_is_front: true,
            reverse: Reversal::Front,
        },
        (BumperNode::Back, BumperNode::Back) => CouplingPlan {
            first_is_front: true,
            reverse: Reversal::Back,
        },
    }
}

/// Front against back needs no turn: the train whose back touches leads.
/// Front against front turns the first train, which then leads; back against
/// back turns the second, which then follows.
pub fn coupling_plan(d1: BumperNode, d2: BumperNode) -> (r: CouplingPlan)
    ensures
        r == spec_coupling_plan(d1, d2),
{
    match (d1, d2) {
        (BumperNode::Front, BumperNode::Back) => CouplingPlan {
            first_is_front: false,
            reverse: Reversal::Neither,
        },
        (BumperNode::Back, BumperNode::Front) => CouplingPlan {
            first_is_front: true,
            reverse: Reversal::Neither,
        },
        (BumperNode::Front, BumperNode::Front) => CouplingPlan {
            first_is_front: true,
            reverse: Reversal::Front,
        },
        (BumperNode::Back, BumperNode::Back) => CouplingPlan {
            first_is_front: true,
            reverse: Reversal::Back,
        },
    }
}

/// The vehicles `vs` moved `n` positions back.
pub open spec fn shifted(vs: Seq<VehicleBundle>, n: int) -> Seq<VehicleBundle> {
    Seq::new(vs.len(), |i: int| at_position(vs[i], vs[i].index.position + n))
}

/// `x`, held between `0` and `u16::MAX`.
pub open spec fn clamp_u16(x: int) -> u16 {
    if x < 0 {
        0
    } else if x > u16::MAX {
        u16::MAX
    } else {
        x as u16
    }
}

/// Moves every vehicle `diff` positions back (forward where `diff` is
/// negative), held between `0` and `u16::MAX`.
pub fn reindex_train(vehicles: &mut Vec<VehicleBundle>, diff: i32)
    ensures
        final(vehicles)@.len() == old(vehicles)@.len(),
        forall|i: int|
            0 <= i < old(vehicles)@.len() ==> #[trigger] final(vehicles)@[i] == at_position(
                old(vehicles)@[i],
                clamp_u16(old(vehicles)@[i].index.position + diff) as int,
            ),
{
    let n = vehicles.len();
    let mut i: usize = 0;
    while i < n
        invariant
            n == vehicles.len(),
            n == old(vehicles)@.len(),
            i <= n,
            forall|j: int|
                0 <= j < i ==> #[trigger] vehicles@[j] == at_position(
                    old(vehicles)@[j],
                    clamp_u16(old(vehicles)@[j].index.position + diff) as int,
                ),
            forall|j: int| i <= j < n ==> #[trigger] vehicles@[j] == old(vehicles)@[j],
        decreases n - i,
    {
        let v = vehicles[i];
        let moved: i64 = v.index.position as i64 + diff as i64;
        let position: u16 = if moved < 0 {
            0
        } else if moved > u16::MAX as i64 {
            u16::MAX
        } else {
            moved as u16
        };
        vehicles.set(i, VehicleBundle { index: TrainIndex { position }, tyype: v.tyype, stats: v.stats });
        i += 1;
    }
}

fn copy_vehicles(v: &Vec<VehicleBundle>) -> (r: Vec<VehicleBundle>)
    ensures
        r@ == v@,
{
    let mut r: Vec<VehicleBundle> = Vec::with_capacity(v.len());
    let mut i: usize = 0;
    while i < v.len()
        invariant
            i <= v.len(),
            r@ =~= v@.take(i as int),
        decreases v.len() - i,
    {
        r.push(v[i]);
        i += 1;
    }
    proof {
        assert(r@ =~= v@);
    }
    r
}

fn copy_train(t: &TrainBundle) -> (r: TrainBundle)
    ensures
        r.path.model() == t.path.model(),
        r.vehicles@ == t.vehicles@,
        r.velocity == t.velocity,
        r.controller == t.controller,
        r.crashed == t.crashed,
{
    TrainBundle {
        path: copy_trail(&t.path),
        velocity: t.velocity,
        controller: t.controller,
        vehicles: copy_vehicles(&t.vehicles),
        crashed: t.crashed,
    }
}

/// The trail and vehicles of a train after the turn that `plan` asks of the
/// part `part` of a coupling.
pub open spec fn turned(t: TrainBundle, plan: CouplingPlan, part: Reversal) -> (TrailModel, Seq<VehicleBundle>) {
    if plan.reverse == part {
        (reversed_model(t.path.model()), reversed_vehicles(t.vehicles@))
    } else {
        (t.path.model(), t.vehicles@)
    }
}

/// The result of coupling `t1` and `t2` at bumpers `d1` and `d2`: the joined
/// trail, and the front part's vehicles followed by the back part's, moved
/// back by the length of the front part. None where the trails do not join.
pub open spec fn spec_coupled(
    t1: TrainBundle,
    d1: BumperNode,
    t2: TrainBundle,
    d2: BumperNode,
) -> Option<(TrailModel, Seq<VehicleBundle>)> {
    let plan = spec_coupling_plan(d1, d2);
    let front = if plan.first_is_front { t1 } else { t2 };
    let back = if plan.first_is_front { t2 } else { t1 };
    let f = turned(front, plan, Reversal::Front);
    let b = turned(back, plan, Reversal::Back);
    match spliced(f.0, b.0) {
        Some(m) => Some((m, f.1 + shifted(b.1, f.0.2))),
        None => None,
    }
}

/// Joins two trains that touch at bumpers `d1` of `t1` and `d2` of `t2`
/// into one, which keeps the motion and state of the front part. Nothing
/// changes where their trails do not join.
pub fn couple_trains(t1: &TrainBundle, d1: BumperNode, t2: &TrainBundle, d2: BumperNode) -> (r: Option<TrainBundle>)
    requires
        t1.wf(),
        t2.wf(),
    ensures
        r is Some <==> spec_coupled(*t1, d1, *t2, d2) is Some,
        r is Some ==> {
            let c = spec_coupled(*t1, d1, *t2, d2)->Some_0;
            let front = if spec_coupling_plan(d1, d2).first_is_front { *t1 } else { *t2 };
            &&& r->Some_0.wf()
            &&& r->Some_0.path.model() == c.0
            &&& r->Some_0.vehicles@ == c.1
            &&& r->Some_0.velocity == front.velocity
            &&& r->Some_0.controller == front.controller
            &&& r->Some_0.crashed == front.crashed
        },
{
    let plan = coupling_plan(d1, d2);
    let (mut front, mut back) = if plan.first_is_front {
        (copy_train(t1), copy_train(t2))
    } else {
        (copy_train(t2), copy_train(t1))
    };
    match plan.reverse {
        Reversal::Front => reverse_train(&mut front),
        Reversal::Back => reverse_train(&mut back),
        Reversal::Neither => {},
    }
    let trail = match Trail::clone_from_parts(&front.path, &back.path) {
        Ok(t) => t,
        Err(()) => {
            return None;
        },
    };
    let front_length = front.path.length;
    let ghost fv = front.vehicles@;
    let ghost bv = back.vehicles@;
    reindex_train(&mut back.vehicles, front_length as i32);
    let mut vehicles = front.vehicles;
    let mut i: usize = 0;
    while i < back.vehicles.len()
        invariant
            i <= back.vehicles.len(),
            vehicles@ =~= fv + back.vehicles@.take(i as int),
        decreases back.vehicles.len() - i,
    {
        vehicles.push(back.vehicles[i]);
        i += 1;
    }
    proof {
        assert forall|k: int| 0 <= k < bv.len() implies back.vehicles@[k] == shifted(bv, front_length as int)[k] by {
            assert(bv[k].index.position == k);
        }
        assert(back.vehicles@ =~= shifted(bv, front_length as int));
        assert(vehicles@ =~= fv + shifted(bv, front_length as int));
        assert forall|k: int| 0 <= k < vehicles@.len() implies #[trigger] vehicles@[k].index.position == k by {
            if k >= fv.len() {
                assert(bv[k - fv.len()].index.position == k - fv.len());
            }
        }
    }
    Some(TrainBundle {
        path: trail,
        velocity: front.velocity,
        controller: front.controller,
        vehicles,
        crashed: front.crashed,
    })
}

/// Splits a train at fence post `bumper_index`, the boundary in front of
/// the vehicle at that position. The train keeps its first `bumper_index`
/// vehicles; the rest leave as a new standing train whose trail ends one
/// joint ahead of its new front. Nothing changes, and none comes back, where
/// the fence post is an end of the train.
pub fn uncouple(train: &mut TrainBundle, bumper_index: u16) -> (r: Option<TrainBundle>)
    requires
        old(train).wf(),
    ensures
        final(train).wf(),
        (bumper_index == 0 || bumper_index >= old(train).path.length) ==> r is None && *final(train)
            == *old(train),
        (0 < bumper_index < old(train).path.length) ==> {
            let k = bumper_index as int;
            let t = *old(train);
            &&& r is Some
            &&& r->Some_0.wf()
            &&& r->Some_0.path.model() == trimmed_front(
                (t.path.path@, t.path.path_progress - k * PROGRESS_UNIT, t.path.length - k),
            )
            &&& r->Some_0.vehicles@ == shifted(t.vehicles@.skip(k), -k)
            &&& r->Some_0.velocity.velocity == 0
            &&& r->Some_0.velocity.max_velocity == NEW_TRAIN_MAX_VELOCITY
            &&& !r->Some_0.crashed
            &&& final(train).path.model() == (t.path.path@, t.path.path_progress as int, k)
            &&& final(train).vehicles@ == t.vehicles@.take(k)
            &&& final(train).velocity == t.velocity
            &&& final(train).controller == t.controller
            &&& final(train).crashed == t.crashed
        },
{
    let length = train.path.length;
    if bumper_index == 0 || bumper_index >= length {
        return None;
    }
    let front_length = bumper_index;
    let back_length = length - bumper_index;
    let mut back_trail = Trail {
        path: copy_path(&train.path.path),
        path_progress: train.path.path_progress - front_length as u64 * PROGRESS_UNIT,
        length: back_length,
    };
    back_trail.trim_front();
    let ghost old_vehicles = train.vehicles@;
    let mut back_vehicles = train.vehicles.split_off(front_length as usize);
    let ghost taken = back_vehicles@;
    reindex_train(&mut back_vehicles, -(front_length as i32));
    train.path.length = front_length;
    proof {
        assert(taken =~= old_vehicles.skip(front_length as int));
        assert forall|i: int| 0 <= i < taken.len() implies back_vehicles@[i] == shifted(
            taken,
            -(front_length as int),
        )[i] by {
            assert(old_vehicles[i + front_length].index.position == i + front_length);
        }
        assert(back_vehicles@ =~= shifted(taken, -(front_length as int)));
        assert forall|i: int| 0 <= i < train.vehicles@.len() implies #[trigger] train.vehicles@[i].index.position
            == i by {
            assert(old_vehicles[i].index.position == i);
        }
    }
    let back = TrainBundle::new(back_trail, back_vehicles, NEW_TRAIN_MAX_VELOCITY);
    Some(back)
}

/// Adds a new vehicle of kind `wagon_type` behind the last one, when the
/// click was on the back bumper (`bumper_index == length`) and the trail
/// has a whole track free behind the train. Returns whether it was added.
pub fn append_vehicle(train: &mut TrainBundle, bumper_index: u16, wagon_type: VehicleType) -> (r: bool)
    requires
        old(train).wf(),
    ensures
        final(train).wf(),
        r == (bumper_index == old(train).path.length && old(train).path.length < u16::MAX && (
        old(train).path.length + 1) * PROGRESS_UNIT <= old(train).path.path_progress),
        !r ==> *final(train) == *old(train),
        r ==> {
            &&& final(train).path.model() == (
                old(train).path.path@,
                old(train).path.path_progress as int,
                old(train).path.length + 1,
            )
            &&& final(train).vehicles@ == old(train).vehicles@.push(
                VehicleBundle {
                    index: TrainIndex { position: bumper_index },
                    tyype: wagon_type,
                    stats: VehicleStats::spec_default_for_type(wagon_type),
                },
            )
            &&& final(train).velocity == old(train).velocity
            &&& final(train).controller == old(train).controller
            &&& final(train).crashed == old(train).crashed
        },
{
    let length = train.path.length;
    if bumper_index != length || length == u16::MAX {
        return false;
    }
    if (length as u64 + 1) * PROGRESS_UNIT > train.path.path_progress {
        return false;
    }
    let stats = VehicleStats::default_for_type(wagon_type);
    train.vehicles.push(VehicleBundle { index: TrainIndex { position: bumper_index }, tyype: wagon_type, stats });
    train.path.length = length + 1;
    true
}

/// A new train of one vehicle of kind `wagon_type`, standing on the track
/// that leads on from `face`: the straight one where there is one, else the
/// left, else the right curve. None where no track leads on from `face`.
pub fn create_new_train(face: Joint, rail_graph: &RailGraph, wagon_type: VehicleType) -> (r: Option<TrainBundle>)
    requires
        rail_graph.wf(),
    ensures
        r is None <==> crate::railroad::spec_next_joint(rail_graph@, face, None) is None,
        r is Some ==> {
            let t = r->Some_0;
            let next = crate::railroad::spec_next_joint(rail_graph@, face, None)->Some_0;
            &&& t.wf()
            &&& t.path.model() == (seq![face, next], PROGRESS_UNIT as int, 1int)
            &&& t.vehicles@ == seq![
                VehicleBundle {
                    index: TrainIndex { position: 0 },
                    tyype: wagon_type,
                    stats: VehicleStats::spec_default_for_type(wagon_type),
                },
            ]
            &&& t.velocity.velocity == 0
            &&& t.velocity.max_velocity == NEW_TRAIN_MAX_VELOCITY
            &&& !t.crashed
        },
{
    let next = match rail_graph.next_joint(face, None) {
        Some(j) => j,
        None => {
            return None;
        },
    };
    let stats = VehicleStats::default_for_type(wagon_type);
    let mut path: Vec<Joint> = Vec::new();
    path.push(face);
    path.push(next);
    let mut vehicles: Vec<VehicleBundle> = Vec::new();
    vehicles.push(VehicleBundle { index: TrainIndex { position: 0 }, tyype: wagon_type, stats });
    let trail = Trail { path, path_progress: PROGRESS_UNIT, length: 1 };
    proof {
        assert(trail.path@ =~= seq![face, next]);
        assert(vehicles@ =~= seq![VehicleBundle { index: TrainIndex { position: 0 }, tyype: wagon_type, stats }]);
    }
    Some(TrainBundle::new(trail, vehicles, NEW_TRAIN_MAX_VELOCITY))
}

} // verus!
