//! Overlay states and the barriers that retire frames rendered for an older one.
//!
//! Every overlay state has a number, and numbers only grow. A barrier announces the current
//! number; what is still queued for an older one must no longer reach the screen.
use std::collections::VecDeque;

use tokio::sync::mpsc::UnboundedReceiver;
use vstd::prelude::*;

use crate::channel::{receive_pending_controls, ControlBacklog, Intake};
use crate::types::{
    AttachControl, AttachTarget, ControlView, OverlayFrame, OverlayView, QueuedAttachTarget,
    TargetView,
};

verus! {

/// Whether a target was rendered for an overlay state older than the current one.
pub open spec fn is_stale_target(current_state_id: Option<u64>, target: TargetView) -> bool {
    match (current_state_id, target.persistent_overlay_state_id) {
        (Some(current), Some(incoming)) => incoming < current,
        _ => false,
    }
}

/// Whether an overlay was rendered for an overlay state older than the current one.
pub open spec fn is_stale_overlay(current_state_id: Option<u64>, overlay: OverlayView) -> bool {
    match (current_state_id, overlay.persistent_state_id) {
        (Some(current), Some(incoming)) => incoming < current,
        _ => false,
    }
}

/// What the outer terminal is owed by a frame: its title bytes, unless there are none.
pub open spec fn owed_title(target: TargetView) -> Option<Seq<u8>> {
    match target.client_title {
        Some(bytes) => if bytes.len() > 0 {
            Some(bytes)
        } else {
            None
        },
        None => None,
    }
}

/// What stands in for the target of a discarded switch: a write of the bytes it owes.
pub open spec fn salvaged_control(target: Option<TargetView>) -> Option<ControlView> {
    match target {
        Some(target) => match owed_title(target) {
            Some(bytes) => Some(ControlView::Write(bytes)),
            None => None,
        },
        None => None,
    }
}

/// What a barrier leaves of one queued control: a stale overlay goes, a stale switch leaves only
/// what it owes the outer terminal, and anything else stays.
pub open spec fn survivor(control: ControlView, barrier: u64) -> Option<ControlView> {
    match control {
        ControlView::Switch(Some(target)) => if is_stale_target(Some(barrier), target) {
            salvaged_control(Some(target))
        } else {
            Some(control)
        },
        ControlView::Overlay(overlay) => if is_stale_overlay(Some(barrier), overlay) {
            None
        } else {
            Some(control)
        },
        _ => Some(control),
    }
}

/// What a barrier leaves of a queue: of each control in turn what is left of it, in its place.
pub open spec fn survivors(queue: Seq<ControlView>, barrier: u64) -> Seq<ControlView>
    decreases queue.len(),
{
    if queue.len() == 0 {
        Seq::empty()
    } else {
        match survivor(queue[0], barrier) {
            Some(control) => seq![control] + survivors(queue.drop_first(), barrier),
            None => survivors(queue.drop_first(), barrier),
        }
    }
}

/// Whether a target was rendered for an overlay state older than the current one.
pub fn is_stale_persistent_switch(
    current_state_id: Option<u64>,
    next_target: &AttachTarget,
) -> (stale: bool)
    ensures
        stale == is_stale_target(current_state_id, next_target@),
        stale == (current_state_id is Some && next_target.persistent_overlay_state_id is Some
            && next_target.persistent_overlay_state_id->0 < current_state_id->0),
{
    match (current_state_id, next_target.persistent_overlay_state_id) {
        (Some(current_state_id), Some(incoming_state_id)) => incoming_state_id < current_state_id,
        _ => false,
    }
}

/// The outer-terminal bytes a frame owes its client, whatever happens to the frame itself.
///
/// They describe the terminal rather than the drawn screen, and the next render leaves out what
/// it believes delivered: dropped together with a stale frame, they would leave the outer terminal
/// on the previous title with nothing left to correct it.
pub fn undelivered_client_title_bytes(target: &AttachTarget) -> (bytes: Option<&[u8]>)
    ensures
        crate::types::slice_bytes(bytes) == owed_title(target@),
        match target.client_title {
            Some(title) => if title.bytes@.len() > 0 {
                bytes is Some && bytes->0@ == title.bytes@
            } else {
                bytes is None
            },
            None => bytes is None,
        },
{
    match &target.client_title {
        Some(title) => {
            let bytes = title.bytes();
            if bytes.len() == 0 {
                None
            } else {
                Some(bytes)
            }
        },
        None => None,
    }
}

/// Replaces a discarded stale switch with a write carrying only what its outer terminal is still
/// owed; `None` where nothing is.
pub fn salvaged_client_title_control(next_target: &QueuedAttachTarget) -> (control: Option<
    AttachControl,
>)
    ensures
        match control {
            Some(control) => salvaged_control(next_target@) == Some(control@),
            None => salvaged_control(next_target@) is None,
        },
{
    match &next_target.target {
        Some(target) => match undelivered_client_title_bytes(target) {
            Some(bytes) => Some(AttachControl::Write(vstd::slice::slice_to_vec(bytes))),
            None => None,
        },
        None => None,
    }
}

/// What a barrier leaves of one control.
fn surviving_control(control: AttachControl, barrier_state_id: u64) -> (kept: Option<AttachControl>)
    ensures
        match kept {
            Some(kept) => survivor(control@, barrier_state_id) == Some(kept@),
            None => survivor(control@, barrier_state_id) is None,
        },
{
    match control {
        AttachControl::Switch(next_target) => {
            let stale = match &next_target.target {
                Some(target) => is_stale_persistent_switch(Some(barrier_state_id), target),
                None => false,
            };
            if stale {
                salvaged_client_title_control(&next_target)
            } else {
                Some(AttachControl::Switch(next_target))
            }
        },
        AttachControl::Overlay(overlay) => {
            let stale = match overlay.persistent_state_id {
                Some(state_id) => state_id < barrier_state_id,
                None => false,
            };
            if stale {
                None
            } else {
                Some(AttachControl::Overlay(overlay))
            }
        },
        other => Some(other),
    }
}

/// Clears a queue of what a barrier retires. Discarded switches leave their undelivered title
/// bytes in the same place.
pub fn discard_stale_controls(
    deferred_controls: &mut VecDeque<AttachControl>,
    barrier_state_id: u64,
)
    ensures
        crate::types::control_views(final(deferred_controls)@) == survivors(
            crate::types::control_views(old(deferred_controls)@),
            barrier_state_id,
        ),
{
    let mut retained_controls: VecDeque<AttachControl> = VecDeque::with_capacity(
        deferred_controls.len(),
    );
    let ghost all = crate::types::control_views(deferred_controls@);
    assert(crate::types::control_views(retained_controls@) == Seq::<ControlView>::empty());
    loop
        invariant_except_break
            survivors(all, barrier_state_id) == crate::types::control_views(retained_controls@)
                + survivors(crate::types::control_views(deferred_controls@), barrier_state_id),
        ensures
            survivors(all, barrier_state_id) == crate::types::control_views(retained_controls@),
        decreases deferred_controls@.len(),
    {
        let ghost queue = crate::types::control_views(deferred_controls@);
        let ghost retained = crate::types::control_views(retained_controls@);
        match deferred_controls.pop_front() {
            Some(control) => {
                assert(crate::types::control_views(deferred_controls@) == queue.drop_first());
                assert(queue[0] == control@);
                match surviving_control(control, barrier_state_id) {
                    Some(kept) => {
                        retained_controls.push_back(kept);
                        assert(crate::types::control_views(retained_controls@) == retained.push(
                            kept@,
                        ));
                    },
                    None => {},
                }
            },
            None => {
                break;
            },
        }
    }
    *deferred_controls = retained_controls;
}

/// Whether everything ready in the channel was taken in, and the queue then cleared of what
/// `barrier` retires.
pub open spec fn takes_in_and_discards(before: Intake, barrier: u64, after: Intake) -> bool {
    exists|received: Seq<ControlView>| #[trigger]
        crate::channel::receives(before, received, after) && after.queue == survivors(
            before.queue + received,
            barrier,
        )
}

/// Takes in everything that is ready in the channel, and clears the queue of what the barrier
/// retires.
pub fn discard_stale_persistent_overlays(
    attach_controls: Option<&mut UnboundedReceiver<AttachControl>>,
    deferred_controls: &mut VecDeque<AttachControl>,
    barrier_state_id: u64,
    control_backlog: &mut ControlBacklog<'_>,
)
    ensures
        match attach_controls {
            Some(control_rx) => takes_in_and_discards(
                crate::channel::intake(
                    *control_rx,
                    *old(deferred_controls),
                    *old(control_backlog),
                ),
                barrier_state_id,
                crate::channel::intake(
                    *final(control_rx),
                    *final(deferred_controls),
                    *final(control_backlog),
                ),
            ),
            None => {
                &&& crate::types::control_views(final(deferred_controls)@) == survivors(
                    crate::types::control_views(old(deferred_controls)@),
                    barrier_state_id,
                )
                &&& *final(control_backlog) == *old(control_backlog)
            },
        },
{
    match attach_controls {
        Some(control_rx) => {
            let ghost before = crate::channel::intake(
                *control_rx,
                *deferred_controls,
                *control_backlog,
            );
            receive_pending_controls(control_rx, deferred_controls, control_backlog);
            let ghost taken = crate::channel::intake(
                *control_rx,
                *deferred_controls,
                *control_backlog,
            );
            discard_stale_controls(deferred_controls, barrier_state_id);
            proof {
                let received = choose|received: Seq<ControlView>| #[trigger]
                    crate::channel::receives(before, received, taken) && taken.queue == before.queue
                        + received;
                let after = crate::channel::intake(
                    *control_rx,
                    *deferred_controls,
                    *control_backlog,
                );
                assert(crate::channel::receives(before, received, after));
            }
        },
        None => {
            discard_stale_controls(deferred_controls, barrier_state_id);
        },
    }
}

/// Whether a barrier moves the current state forward, or confirms it. State 0 is where a client
/// begins: a barrier at 0 announces nothing.
pub open spec fn barrier_advances(current_state_id: Option<u64>, barrier: u64) -> bool {
    &&& barrier != 0
    &&& match current_state_id {
        Some(current) => current <= barrier,
        None => true,
    }
}

/// The overlay state once a barrier has been announced.
pub open spec fn state_after_barrier(current_state_id: Option<u64>, barrier: u64) -> Option<u64> {
    if barrier_advances(current_state_id, barrier) {
        Some(barrier)
    } else {
        current_state_id
    }
}

/// Moves the current overlay state forward to a barrier and clears the queue of what it retires. A
/// barrier at 0, or one behind the current state, is ignored, and nothing is received.
pub fn advance_persistent_overlay_state(
    current_state_id: &mut Option<u64>,
    attach_controls: Option<&mut UnboundedReceiver<AttachControl>>,
    deferred_controls: &mut VecDeque<AttachControl>,
    barrier_state_id: u64,
    control_backlog: &mut ControlBacklog<'_>,
)
    ensures
        *final(current_state_id) == state_after_barrier(*old(current_state_id), barrier_state_id),
        barrier_advances(*old(current_state_id), barrier_state_id) ==> match attach_controls {
            Some(control_rx) => takes_in_and_discards(
                crate::channel::intake(
                    *control_rx,
                    *old(deferred_controls),
                    *old(control_backlog),
                ),
                barrier_state_id,
                crate::channel::intake(
                    *final(control_rx),
                    *final(deferred_controls),
                    *final(control_backlog),
                ),
            ),
            None => {
                &&& crate::types::control_views(final(deferred_controls)@) == survivors(
                    crate::types::control_views(old(deferred_controls)@),
                    barrier_state_id,
                )
                &&& *final(control_backlog) == *old(control_backlog)
            },
        },
        !barrier_advances(*old(current_state_id), barrier_state_id) ==> {
            &&& *final(deferred_controls) == *old(deferred_controls)
            &&& *final(control_backlog) == *old(control_backlog)
            &&& match attach_controls {
                Some(control_rx) => *final(control_rx) == *control_rx,
                None => true,
            }
        },
{
    if barrier_state_id == 0 {
        return ;
    }
    let behind = match *current_state_id {
        Some(current) => barrier_state_id < current,
        None => false,
    };
    if behind {
        return ;
    }
    *current_state_id = Some(barrier_state_id);
    discard_stale_persistent_overlays(
        attach_controls,
        deferred_controls,
        barrier_state_id,
        control_backlog,
    );
}

/// The later of two barriers, where there are any.
pub open spec fn later_barrier(left: Option<u64>, right: Option<u64>) -> Option<u64> {
    match (left, right) {
        (Some(left), Some(right)) => Some(
            if left < right {
                right
            } else {
                left
            },
        ),
        (Some(left), None) => Some(left),
        (None, right) => right,
    }
}

/// The barrier that a control announces.
pub open spec fn announced_barrier(control: ControlView) -> Option<u64> {
    match control {
        ControlView::AdvancePersistentOverlayState(state_id) => Some(state_id),
        _ => None,
    }
}

/// The latest barrier announced in a queue, wherever it stands in it.
pub open spec fn latest_barrier(queue: Seq<ControlView>) -> Option<u64>
    decreases queue.len(),
{
    if queue.len() == 0 {
        None
    } else {
        later_barrier(announced_barrier(queue[0]), latest_barrier(queue.drop_first()))
    }
}

/// A queue without the barriers in it.
pub open spec fn without_barriers(queue: Seq<ControlView>) -> Seq<ControlView>
    decreases queue.len(),
{
    if queue.len() == 0 {
        Seq::empty()
    } else if announced_barrier(queue[0]) is Some {
        without_barriers(queue.drop_first())
    } else {
        seq![queue[0]] + without_barriers(queue.drop_first())
    }
}

/// Takes the barriers out of a queue and tells the latest of them.
pub fn take_overlay_barriers(deferred_controls: &mut VecDeque<AttachControl>) -> (latest: Option<
    u64,
>)
    ensures
        latest == latest_barrier(crate::types::control_views(old(deferred_controls)@)),
        crate::types::control_views(final(deferred_controls)@) == without_barriers(
            crate::types::control_views(old(deferred_controls)@),
        ),
{
    let mut latest: Option<u64> = None;
    let mut retained_controls: VecDeque<AttachControl> = VecDeque::with_capacity(
        deferred_controls.len(),
    );
    let ghost all = crate::types::control_views(deferred_controls@);
    assert(crate::types::control_views(retained_controls@) == Seq::<ControlView>::empty());
    loop
        invariant_except_break
            latest_barrier(all) == later_barrier(
                latest,
                latest_barrier(crate::types::control_views(deferred_controls@)),
            ),
            without_barriers(all) == crate::types::control_views(retained_controls@)
                + without_barriers(crate::types::control_views(deferred_controls@)),
        ensures
            latest_barrier(all) == latest,
            without_barriers(all) == crate::types::control_views(retained_controls@),
        decreases deferred_controls@.len(),
    {
        let ghost queue = crate::types::control_views(deferred_controls@);
        let ghost retained = crate::types::control_views(retained_controls@);
        match deferred_controls.pop_front() {
            Some(control) => {
                assert(crate::types::control_views(deferred_controls@) == queue.drop_first());
                assert(queue[0] == control@);
                match control {
                    AttachControl::AdvancePersistentOverlayState(state_id) => {
                        latest = match latest {
                            Some(current) => if current < state_id {
                                Some(state_id)
                            } else {
                                Some(current)
                            },
                            None => Some(state_id),
                        };
                    },
                    other => {
                        retained_controls.push_back(other);
                        assert(crate::types::control_views(retained_controls@) == retained.push(
                            other@,
                        ));
                    },
                }
            },
            None => {
                break;
            },
        }
    }
    *deferred_controls = retained_controls;
    latest
}

/// Whether `first` was taken in and the barriers then in the queue taken out of it, which gave
/// `taken`, and the latest of them applied: `current` and `later` are the overlay state before and
/// after.
pub open spec fn primes(
    before: Intake,
    first: Seq<ControlView>,
    taken: Intake,
    current: Option<u64>,
    after: Intake,
    later: Option<u64>,
) -> bool {
    let queue = before.queue + first;
    &&& crate::channel::receives(before, first, taken)
    &&& taken.queue == without_barriers(queue)
    &&& match latest_barrier(queue) {
        Some(barrier) => if barrier_advances(current, barrier) {
            later == Some(barrier) && takes_in_and_discards(taken, barrier, after)
        } else {
            later == current && after == taken
        },
        None => later == current && after == taken,
    }
}

/// Takes in everything that is ready in the channel and applies the latest of the barriers that
/// are queued then, wherever it stands: what it retires is discarded even if it was queued before
/// the barrier. Without a channel nothing happens.
pub fn prime_persistent_overlay_barriers(
    current_state_id: &mut Option<u64>,
    attach_controls: Option<&mut UnboundedReceiver<AttachControl>>,
    deferred_controls: &mut VecDeque<AttachControl>,
    control_backlog: &mut ControlBacklog<'_>,
)
    ensures
        match attach_controls {
            Some(control_rx) => exists|first: Seq<ControlView>, taken: Intake| #[trigger]
                primes(
                    crate::channel::intake(
                        *control_rx,
                        *old(deferred_controls),
                        *old(control_backlog),
                    ),
                    first,
                    taken,
                    *old(current_state_id),
                    crate::channel::intake(
                        *final(control_rx),
                        *final(deferred_controls),
                        *final(control_backlog),
                    ),
                    *final(current_state_id),
                ),
            None => {
                &&& *final(current_state_id) == *old(current_state_id)
                &&& *final(deferred_controls) == *old(deferred_controls)
                &&& *final(control_backlog) == *old(control_backlog)
            },
        },
{
    let control_rx = match attach_controls {
        Some(control_rx) => control_rx,
        None => {
            return ;
        },
    };
    let ghost before = crate::channel::intake(*control_rx, *deferred_controls, *control_backlog);
    let ghost current = *current_state_id;
    receive_pending_controls(control_rx, deferred_controls, control_backlog);
    let ghost received = crate::channel::intake(*control_rx, *deferred_controls, *control_backlog);
    let latest = take_overlay_barriers(deferred_controls);
    let ghost taken = crate::channel::intake(*control_rx, *deferred_controls, *control_backlog);
    let ghost first = choose|first: Seq<ControlView>| #[trigger]
        crate::channel::receives(before, first, received) && received.queue == before.queue + first;
    if let Some(barrier_state_id) = latest {
        advance_persistent_overlay_state(
            current_state_id,
            Some(&mut *control_rx),
            deferred_controls,
            barrier_state_id,
            control_backlog,
        );
    }
    proof {
        let after = crate::channel::intake(*control_rx, *deferred_controls, *control_backlog);
        assert(crate::channel::receives(before, first, taken));
        assert(primes(before, first, taken, current, after, *current_state_id));
    }
}

/// The overlay state once an overlay has come in: its own, if it has one and is not refused.
pub open spec fn state_after_overlay(
    current_state_id: Option<u64>,
    overlay: OverlayView,
) -> Option<u64> {
    if is_stale_overlay(current_state_id, overlay) || overlay.persistent_state_id is None {
        current_state_id
    } else {
        overlay.persistent_state_id
    }
}

/// Decides whether an overlay may be drawn, and moves the current overlay state forward to it. An
/// overlay for an older state is refused; one that belongs to no state is always accepted.
pub fn accept_persistent_overlay_state(
    current_state_id: &mut Option<u64>,
    overlay: &OverlayFrame,
) -> (accepted: bool)
    ensures
        accepted == !is_stale_overlay(*old(current_state_id), overlay@),
        *final(current_state_id) == state_after_overlay(*old(current_state_id), overlay@),
        accepted && overlay.persistent_state_id is Some ==> *final(current_state_id)
            == overlay.persistent_state_id,
        !accepted || overlay.persistent_state_id is None ==> *final(current_state_id) == *old(
            current_state_id,
        ),
        accepted == (overlay.persistent_state_id is None || *old(current_state_id) is None || (*old(
            current_state_id,
        ))->0 <= overlay.persistent_state_id->0),
{
    let incoming_state_id = match overlay.persistent_state_id {
        Some(incoming_state_id) => incoming_state_id,
        None => {
            return true;
        },
    };
    let behind = match *current_state_id {
        Some(current) => incoming_state_id < current,
        None => false,
    };
    if behind {
        return false;
    }
    *current_state_id = Some(incoming_state_id);
    true
}

} // verus!
