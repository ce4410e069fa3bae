//! Driving: extending a train's path as it runs, throttle and brake from
//! the player's input, and turning a standing train around.

use vstd::prelude::*;
use crate::railroad::{RailGraph, TrackType, spec_next_joint};
use crate::trains::{Controller, PROGRESS_UNIT, Trail, TrainBundle, reverse_train};

verus! {

/// Brake applied when neither pedal is pressed, in thousandths.
pub const IDLE_BRAKE: u16 = 100;

/// How many joints beyond its vehicles a trail keeps before the oldest one
/// is dropped.
pub const PATH_MARGIN: usize = 5;

/// Whether the front of the trail is within half a track of the end of its
/// path.
pub open spec fn near_path_end(m: crate::trains::TrailModel) -> bool {
    m.1 + PROGRESS_UNIT / 2 > (m.0.len() - 1) * PROGRESS_UNIT
}

/// The track kind a steering input asks for: right for a positive value,
/// left for a negative one, straight for none.
pub fn preferred_track(steer: i32) -> (r: TrackType)
    ensures
        steer > 0 ==> r == TrackType::CurvedRight,
        steer < 0 ==> r == TrackType::CurvedLeft,
        steer == 0 ==> r == TrackType::Straight,
{
    if steer > 0 {
        TrackType::CurvedRight
    } else if steer < 0 {
        TrackType::CurvedLeft
    } else {
        TrackType::Straight
    }
}

/// Lays the next joint in front of a train whose front is near the end of
/// its path: the end of a `preferred` track where the network has one, else
/// the first of straight, left, right. Once the path holds `PATH_MARGIN`
/// joints more than the train needs, the oldest one goes. Nothing changes
/// where no track leads on, or where a longer path would not fit the
/// progress type.
pub fn auto_extend_train_path(trail: &mut Trail, graph: &RailGraph, preferred: Option<TrackType>)
    requires
        old(trail).wf(),
        graph.wf(),
    ensures
        final(trail).wf(),
        ({
            let m = old(trail).model();
            let next = spec_next_joint(graph@, m.0.last(), preferred);
            if near_path_end(m) && next is Some && m.0.len() * PROGRESS_UNIT <= u64::MAX {
                let longer = m.0.push(next->Some_0);
                if longer.len() >= m.2 + PATH_MARGIN {
                    final(trail).model() == (longer.drop_first(), m.1 - PROGRESS_UNIT, m.2)
                } else {
                    final(trail).model() == (longer, m.1, m.2)
                }
            } else {
                final(trail).model() == m
            }
        }),
{
    let len = trail.path.len();
    let top: u64 = (len - 1) as u64 * PROGRESS_UNIT;
    if trail.path_progress as u128 + (PROGRESS_UNIT / 2) as u128 <= top as u128 {
        return;
    }
    if len as u128 * PROGRESS_UNIT as u128 > u64::MAX as u128 {
        return;
    }
    let last = trail.path[len - 1];
    let next = match graph.next_joint(last, preferred) {
        Some(j) => j,
        None => {
            return;
        },
    };
    trail.path.push(next);
    if trail.path.len() >= trail.length as usize + PATH_MARGIN {
        trail.path.remove(0);
        trail.path_progress = trail.path_progress - PROGRESS_UNIT;
        proof {
            assert(trail.path@ =~= old(trail).path@.push(next).drop_first());
        }
    }
}

/// Throttle and brake from the pedals, each in thousandths. With neither
/// pedal pressed the train brakes lightly, so that it can be driven with
/// one pedal.
pub fn controls_from_input(
    throttle: u16,
    brake: u16,
    throttle_pressed: bool,
    brake_pressed: bool,
) -> (r: Controller)
    ensures
        r.throttle == throttle,
        r.brake == (if !throttle_pressed && !brake_pressed { IDLE_BRAKE } else { brake }),
{
    if !throttle_pressed && !brake_pressed {
        Controller { throttle, brake: IDLE_BRAKE }
    } else {
        Controller { throttle, brake }
    }
}

/// Turns a train around if it stands still. Returns whether it did.
pub fn try_reverse_train(train: &mut TrainBundle) -> (r: bool)
    requires
        old(train).wf(),
    ensures
        final(train).wf(),
        r == (old(train).velocity.velocity == 0),
        !r ==> *final(train) == *old(train),
        r ==> final(train).path.model() == crate::trains::reversed_model(old(train).path.model()),
        r ==> final(train).vehicles@ == crate::trains::reversed_vehicles(old(train).vehicles@),
{
    if train.velocity.velocity != 0 {
        return false;
    }
    reverse_train(train);
    true
}

} // verus!
