//! What an overlap of two vehicles means for their trains.

use vstd::prelude::*;
use crate::trains::TrainBundle;

verus! {

/// The trains that a collision stops.
#[derive(Clone, Copy, Debug, PartialEq, Eq, Structural)]
pub enum CrashOutcome {
    /// Two neighbouring vehicles of one train touch, as they do on curves.
    Ignored,
    /// A train ran into itself.
    SelfCrash(u64),
    /// Two trains ran into each other.
    Both(u64, u64),
}

/// The outcome of a collision between the vehicle at `position1` of train
/// `train1` and the vehicle at `position2` of train `train2`.
pub fn crash_outcome(train1: u64, position1: u16, train2: u64, position2: u16) -> (r: CrashOutcome)
    ensures
        train1 != train2 ==> r == CrashOutcome::Both(train1, train2),
        train1 == train2 ==> r == (if position1 + 1 == position2 || position2 + 1 == position1 {
            CrashOutcome::Ignored
        } else {
            CrashOutcome::SelfCrash(train1)
        }),
{
    if train1 == train2 {
        if (position1 as u32 + 1 == position2 as u32) || (position2 as u32 + 1 == position1 as u32) {
            CrashOutcome::Ignored
        } else {
            CrashOutcome::SelfCrash(train1)
        }
    } else {
        CrashOutcome::Both(train1, train2)
    }
}

/// Marks a train as crashed and stops it at once.
pub fn crash(train: &mut TrainBundle)
    ensures
        final(train).crashed,
        final(train).velocity.velocity == 0,
        final(train).velocity.max_velocity == old(train).velocity.max_velocity,
        final(train).path == old(train).path,
        final(train).vehicles == old(train).vehicles,
        final(train).controller == old(train).controller,
{
    train.crashed = true;
    train.velocity.velocity = 0;
}

} // verus!
