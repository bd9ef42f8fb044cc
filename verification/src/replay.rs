//! What a client's outer terminal receives of everything that is queued for it.
use std::collections::VecDeque;
use std::sync::atomic::AtomicUsize;

use tokio::sync::mpsc::UnboundedReceiver;
use vstd::prelude::*;

use crate::barrier::{
    is_stale_persistent_switch, prime_persistent_overlay_barriers, undelivered_client_title_bytes,
};
use crate::channel::{ControlBacklog, Intake};
use crate::types::{AttachControl, ControlView};

verus! {

/// The bytes that one control puts on the outer terminal: a switch its frame or, if it is stale,
/// only what it owes; a write its bytes.
pub open spec fn visible_payload(current_state_id: Option<u64>, control: ControlView) -> Option<
    Seq<u8>,
> {
    match control {
        ControlView::Switch(Some(target)) => if crate::barrier::is_stale_target(
            current_state_id,
            target,
        ) {
            crate::barrier::owed_title(target)
        } else {
            Some(target.render_frame)
        },
        ControlView::Write(bytes) => Some(bytes),
        _ => None,
    }
}

/// The bytes that a queue puts on the outer terminal, control by control, oldest first.
pub open spec fn visible_payloads(
    current_state_id: Option<u64>,
    queue: Seq<ControlView>,
) -> Seq<Seq<u8>>
    decreases queue.len(),
{
    if queue.len() == 0 {
        Seq::empty()
    } else {
        match visible_payload(current_state_id, queue[0]) {
            Some(bytes) => seq![bytes] + visible_payloads(current_state_id, queue.drop_first()),
            None => visible_payloads(current_state_id, queue.drop_first()),
        }
    }
}

/// The mathematical value of a list of payloads.
pub open spec fn payload_views(payloads: Seq<Vec<u8>>) -> Seq<Seq<u8>> {
    Seq::new(payloads.len(), |i: int| payloads[i]@)
}

/// The bytes that one control puts on the outer terminal.
fn control_payload(current_state_id: Option<u64>, control: AttachControl) -> (payload: Option<
    Vec<u8>,
>)
    ensures
        crate::types::buffer_bytes(payload) == visible_payload(current_state_id, control@),
{
    match control {
        AttachControl::Switch(next_target) => match next_target.target {
            Some(target) => if is_stale_persistent_switch(current_state_id, &target) {
                match undelivered_client_title_bytes(&target) {
                    Some(bytes) => Some(vstd::slice::slice_to_vec(bytes)),
                    None => None,
                }
            } else {
                Some(target.render_frame)
            },
            None => None,
        },
        AttachControl::Write(bytes) => Some(bytes),
        _ => None,
    }
}

/// The bytes that a queue puts on the outer terminal, oldest first.
pub fn client_visible_payloads(
    current_state_id: Option<u64>,
    controls: VecDeque<AttachControl>,
) -> (payloads: Vec<Vec<u8>>)
    ensures
        payload_views(payloads@) == visible_payloads(
            current_state_id,
            crate::types::control_views(controls@),
        ),
{
    let ghost all = crate::types::control_views(controls@);
    let mut controls = controls;
    let mut payloads: Vec<Vec<u8>> = Vec::new();
    assert(payload_views(payloads@) == Seq::<Seq<u8>>::empty());
    loop
        invariant_except_break
            visible_payloads(current_state_id, all) == payload_views(payloads@) + visible_payloads(
                current_state_id,
                crate::types::control_views(controls@),
            ),
        ensures
            visible_payloads(current_state_id, all) == payload_views(payloads@),
        decreases controls@.len(),
    {
        let ghost queue = crate::types::control_views(controls@);
        let ghost shown = payload_views(payloads@);
        match controls.pop_front() {
            Some(control) => {
                assert(crate::types::control_views(controls@) == queue.drop_first());
                assert(queue[0] == control@);
                match control_payload(current_state_id, control) {
                    Some(bytes) => {
                        payloads.push(bytes);
                        assert(payload_views(payloads@) == shown.push(bytes@));
                    },
                    None => {},
                }
            },
            None => {
                break;
            },
        }
    }
    payloads
}

/// Whether a client with nothing deferred and no overlay state yet, which takes in its channel,
/// primes the barriers in it and draws what is left, shows `payloads`. The log of its receiver
/// goes from `before` to `after`.
pub open spec fn replays(
    before: Seq<Option<ControlView>>,
    after: Seq<Option<ControlView>>,
    payloads: Seq<Seq<u8>>,
) -> bool {
    exists|
        start: Intake,
        first: Seq<ControlView>,
        taken: Intake,
        end: Intake,
        current: Option<u64>,
    | #[trigger]
        crate::barrier::primes(start, first, taken, None, end, current) && start.log == before
            && start.queue.len() == 0 && end.log == after && payloads == visible_payloads(
            current,
            end.queue,
        )
}

/// Replays the overlay-barrier rules over everything a client still has queued, and returns the
/// byte payloads its outer terminal would actually receive, oldest first.
///
/// This runs the drain of [`prime_persistent_overlay_barriers`] and the staleness rule that is
/// applied before a switch is drawn, so a frame reported as delivered is one the client draws, and
/// one left out is discarded.
pub fn replay_client_visible_payloads(
    control_rx: &mut UnboundedReceiver<AttachControl>,
) -> (payloads: Vec<Vec<u8>>)
    ensures
        replays(
            crate::channel::receive_log(*old(control_rx)),
            crate::channel::receive_log(*final(control_rx)),
            payload_views(payloads@),
        ),
{
    let counter = AtomicUsize::new(0);
    let mut control_backlog = ControlBacklog::new(&counter);
    let mut current_state_id: Option<u64> = None;
    let mut deferred_controls: VecDeque<AttachControl> = VecDeque::new();
    let ghost start = crate::channel::intake(*control_rx, deferred_controls, control_backlog);
    prime_persistent_overlay_barriers(
        &mut current_state_id,
        Some(&mut *control_rx),
        &mut deferred_controls,
        &mut control_backlog,
    );
    proof {
        let end = crate::channel::intake(*control_rx, deferred_controls, control_backlog);
        let (first, taken) = choose|first: Seq<ControlView>, taken: Intake| #[trigger]
            crate::barrier::primes(start, first, taken, None, end, current_state_id);
        assert(crate::barrier::primes(start, first, taken, None, end, current_state_id));
    }
    client_visible_payloads(current_state_id, deferred_controls)
}

} // verus!
