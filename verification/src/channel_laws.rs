//! What holds of receiving controls as a whole.
use std::collections::VecDeque;

use tokio::sync::mpsc::UnboundedReceiver;
use vstd::prelude::*;

use crate::channel::{ControlBacklog, Intake};
use crate::types::{AttachControl, ControlView};

verus! {

/// A drain adds to the log of the receiver each control that it received, in order, then the one
/// attempt that found the channel dry, and nothing else.
pub proof fn drain_is_in_the_log(
    before: Seq<Option<ControlView>>,
    received: Seq<ControlView>,
    after: Seq<Option<ControlView>>,
)
    ensures
        crate::channel::drains(before, received, after) <==> {
            &&& after.len() == before.len() + received.len() + 1
            &&& after.take(before.len() as int) == before
            &&& forall|i: int|
                0 <= i < received.len() ==> after[before.len() + i] == Some(#[trigger] received[i])
            &&& after.last() is None
        },
{
    let whole = before + received.map_values(|control: ControlView| Some(control)) + seq![None];
    if crate::channel::drains(before, received, after) {
        assert(after.take(before.len() as int) =~= before);
        assert forall|i: int| 0 <= i < received.len() implies after[before.len() + i] == Some(
            #[trigger] received[i],
        ) by {}
    }
    if after.len() == before.len() + received.len() + 1 && after.take(before.len() as int)
        == before && after.last() is None && (forall|i: int|
        0 <= i < received.len() ==> after[before.len() + i] == Some(#[trigger] received[i])) {
        assert forall|i: int| 0 <= i < after.len() implies after[i] == whole[i] by {
            if i < before.len() {
                assert(after.take(before.len() as int)[i] == after[i]);
            } else if i < before.len() + received.len() {
                assert(after[before.len() + (i - before.len())] == Some(
                    received[i - before.len()],
                ));
            }
        }
        assert(after =~= whole);
    }
}

/// A release leaves one less than it found, and never goes below 0.
pub proof fn release_lowers_by_one(found: usize)
    ensures
        found > 0 ==> crate::channel::left_by_release(found) + 1 == found,
        found == 0 ==> crate::channel::left_by_release(found) == 0,
{
}

/// For each control received there is one release more, on the same counter, which lowers it by
/// one unless it stands at 0; the releases made before stay in the log.
pub proof fn each_control_is_released_once(
    before: Intake,
    received: Seq<ControlView>,
    after: Intake,
)
    requires
        crate::channel::receives(before, received, after),
    ensures
        crate::channel::drains(before.log, received, after.log),
        after.counter == before.counter,
        after.releases.len() == before.releases.len() + received.len(),
        forall|i: int|
            0 <= i < before.releases.len() ==> after.releases[i] == #[trigger] before.releases[i],
        forall|i: int|
            before.releases.len() <= i < after.releases.len() ==> {
                let (found, left) = #[trigger] after.releases[i];
                (found == 0 && left == 0) || (found > 0 && left + 1 == found)
            },
{
    assert forall|i: int| 0 <= i < before.releases.len() implies after.releases[i]
        == #[trigger] before.releases[i] by {
        assert(after.releases.take(before.releases.len() as int)[i] == after.releases[i]);
    }
}

/// The intake of a client is the log of its receiver, its queue, and the counter and the releases
/// of its hold.
pub proof fn intake_tells_everything(
    control_rx: UnboundedReceiver<AttachControl>,
    deferred_controls: VecDeque<AttachControl>,
    control_backlog: ControlBacklog<'_>,
)
    ensures
        ({
            let intake = crate::channel::intake(control_rx, deferred_controls, control_backlog);
            &&& intake.log == crate::channel::receive_log(control_rx)
            &&& intake.queue == crate::types::control_views(deferred_controls@)
            &&& intake.counter == crate::channel::held_counter(control_backlog)
            &&& intake.releases == crate::channel::backlog_log(control_backlog)
        }),
{
}

} // verus!
