//! Receiving controls from a client's channel, and the count of controls still in it.
use std::collections::VecDeque;
use std::sync::atomic::AtomicUsize;

use tokio::sync::mpsc::error::TryRecvError;
use tokio::sync::mpsc::UnboundedReceiver;
use vstd::prelude::*;

use crate::types::{AttachControl, ControlView};

verus! {

/// `tokio::sync::mpsc::UnboundedReceiver`: the client's end of its control channel.
#[verifier::external_type_specification]
#[verifier::external_body]
#[verifier::reject_recursive_types(T)]
pub struct ExUnboundedReceiver<T>(tokio::sync::mpsc::UnboundedReceiver<T>);

/// `tokio::sync::mpsc::error::TryRecvError`: why nothing could be received.
#[verifier::external_type_specification]
#[verifier::external_body]
pub struct ExTryRecvError(tokio::sync::mpsc::error::TryRecvError);

/// What a receiver has answered so far, one entry for each attempt to receive: the control that
/// came out, or `None` where the channel had nothing to hand out.
pub uninterp spec fn receive_log(control_rx: UnboundedReceiver<AttachControl>) -> Seq<
    Option<ControlView>,
>;

/// A client's hold on the counter of controls that were sent to it and not yet received. The
/// counter is shared with the senders, who raise it at any moment.
///
/// A hold cannot be copied, and nothing but a release goes through it.
#[verifier::external_body]
pub struct ControlBacklog<'a> {
    counter: &'a AtomicUsize,
}

/// The counter that a hold is on.
pub uninterp spec fn held_counter(control_backlog: ControlBacklog<'_>) -> AtomicUsize;

/// What each release through a hold found in the counter and what it left there, oldest first.
pub uninterp spec fn backlog_log(control_backlog: ControlBacklog<'_>) -> Seq<(usize, usize)>;

/// The number that a release leaves in a counter: one less than it found, or 0 where it found 0.
pub open spec fn left_by_release(found: usize) -> usize {
    if found == 0 {
        0
    } else {
        (found - 1) as usize
    }
}

/// Calls `tokio::sync::mpsc::UnboundedReceiver::try_recv`.
///
/// The claim is that the call adds exactly its own answer to the log of the receiver. Which
/// controls come out, and when the channel runs dry, is up to the senders, who may send at any
/// moment: nothing is claimed of it.
#[verifier::external_body]
fn try_recv(control_rx: &mut UnboundedReceiver<AttachControl>) -> (answer: Result<
    AttachControl,
    TryRecvError,
>)
    ensures
        receive_log(*final(control_rx)) == receive_log(*old(control_rx)).push(
            match answer {
                Ok(control) => Some(control@),
                Err(_) => None,
            },
        ),
{
    control_rx.try_recv()
}

/// The number in a backlog counter once one control was released from it; `None` where the
/// counter stands at 0 already and stays there.
pub fn backlog_after_release(backlog: usize) -> (remaining: Option<usize>)
    ensures
        remaining == (if backlog == 0 {
            None
        } else {
            Some(left_by_release(backlog))
        }),
{
    if backlog == 0 {
        None
    } else {
        Some(backlog - 1)
    }
}

/// Keeps a reference to a `std::sync::atomic::AtomicUsize` for the releases to come.
///
/// The claim is that the hold is on this counter, and that nothing was released through it yet.
/// The counter itself is not touched.
#[verifier::external_body]
fn hold_counter<'a>(counter: &'a AtomicUsize) -> (control_backlog: ControlBacklog<'a>)
    ensures
        held_counter(control_backlog) == *counter,
        backlog_log(control_backlog) == Seq::<(usize, usize)>::empty(),
{
    ControlBacklog { counter }
}

/// Calls `std::sync::atomic::AtomicUsize::fetch_update` with [`backlog_after_release`].
///
/// The claim is that the call makes one release through the hold, on the same counter, and hands
/// back what it found there: `Ok` and a number above 0, in whose place it left one less, or `Err`
/// and 0, which it left as it was. Which number is found is up to the senders, and so is what
/// becomes of the one that was left: nothing is claimed of either.
#[verifier::external_body]
fn release_control(control_backlog: &mut ControlBacklog<'_>) -> (found: Result<usize, usize>)
    ensures
        held_counter(*final(control_backlog)) == held_counter(*old(control_backlog)),
        match found {
            Ok(backlog) => {
                &&& backlog > 0
                &&& backlog_log(*final(control_backlog)) == backlog_log(*old(control_backlog)).push(
                    (backlog, left_by_release(backlog)),
                )
            },
            Err(backlog) => {
                &&& backlog == 0
                &&& backlog_log(*final(control_backlog)) == backlog_log(*old(control_backlog)).push(
                    (backlog, left_by_release(backlog)),
                )
            },
        },
{
    control_backlog.counter.fetch_update(
        std::sync::atomic::Ordering::AcqRel,
        std::sync::atomic::Ordering::Acquire,
        |backlog| backlog_after_release(backlog),
    )
}

impl<'a> ControlBacklog<'a> {
    /// A hold on a counter through which nothing was released yet.
    pub fn new(counter: &'a AtomicUsize) -> (control_backlog: ControlBacklog<'a>)
        ensures
            held_counter(control_backlog) == *counter,
            backlog_log(control_backlog) == Seq::<(usize, usize)>::empty(),
    {
        hold_counter(counter)
    }
}

/// Whether `after` is the log `before`, continued by attempts that received exactly `received`
/// and then found the channel dry.
pub open spec fn drains(
    before: Seq<Option<ControlView>>,
    received: Seq<ControlView>,
    after: Seq<Option<ControlView>>,
) -> bool {
    after == before + received.map_values(|control: ControlView| Some(control)) + seq![None]
}

/// Receives one control if one is ready, and releases it from the backlog. Where nothing comes,
/// nothing is released.
pub fn try_recv_attach_control(
    control_rx: &mut UnboundedReceiver<AttachControl>,
    control_backlog: &mut ControlBacklog<'_>,
) -> (answer: Result<AttachControl, TryRecvError>)
    ensures
        match answer {
            Ok(control) => {
                &&& receive_log(*final(control_rx)) == receive_log(*old(control_rx)).push(
                    Some(control@),
                )
                &&& held_counter(*final(control_backlog)) == held_counter(*old(control_backlog))
                &&& backlog_log(*final(control_backlog)).len() == backlog_log(
                    *old(control_backlog),
                ).len() + 1
                &&& backlog_log(*final(control_backlog)).drop_last() == backlog_log(
                    *old(control_backlog),
                )
                &&& backlog_log(*final(control_backlog)).last().1 == left_by_release(
                    backlog_log(*final(control_backlog)).last().0,
                )
            },
            Err(_) => {
                &&& receive_log(*final(control_rx)) == receive_log(*old(control_rx)).push(None)
                &&& *final(control_backlog) == *old(control_backlog)
            },
        },
{
    match try_recv(control_rx) {
        Ok(control) => {
            let _ = release_control(control_backlog);
            assert(backlog_log(*control_backlog).drop_last() == backlog_log(*old(control_backlog)));
            Ok(control)
        },
        Err(error) => Err(error),
    }
}

/// What the reception of controls works on: the log of the receiver, the queue that the controls
/// are appended to, the counter that the backlog is held on, and the log of releases from it.
#[verifier::ext_equal]
pub struct Intake {
    pub log: Seq<Option<ControlView>>,
    pub queue: Seq<ControlView>,
    pub counter: AtomicUsize,
    pub releases: Seq<(usize, usize)>,
}

/// The intake of a client.
pub open spec fn intake(
    control_rx: UnboundedReceiver<AttachControl>,
    deferred_controls: VecDeque<AttachControl>,
    control_backlog: ControlBacklog<'_>,
) -> Intake {
    Intake {
        log: receive_log(control_rx),
        queue: crate::types::control_views(deferred_controls@),
        counter: held_counter(control_backlog),
        releases: backlog_log(control_backlog),
    }
}

/// Whether, between two intakes, exactly `received` was received until the channel was dry, and
/// the backlog released once for each control of it and not otherwise, by one each time as long as
/// the counter was above 0.
pub open spec fn receives(before: Intake, received: Seq<ControlView>, after: Intake) -> bool {
    &&& drains(before.log, received, after.log)
    &&& after.counter == before.counter
    &&& after.releases.len() == before.releases.len() + received.len()
    &&& after.releases.take(before.releases.len() as int) == before.releases
    &&& forall|i: int|
        before.releases.len() <= i < after.releases.len() ==> (#[trigger] after.releases[i]).1
            == left_by_release(after.releases[i].0)
}

/// Receives everything that is ready in the channel, until it is dry, and appends it to the queue
/// in the order in which it came. Each control received is released from the backlog.
pub fn receive_pending_controls(
    control_rx: &mut UnboundedReceiver<AttachControl>,
    deferred_controls: &mut VecDeque<AttachControl>,
    control_backlog: &mut ControlBacklog<'_>,
)
    ensures
        ({
            let before = intake(*old(control_rx), *old(deferred_controls), *old(control_backlog));
            let after = intake(
                *final(control_rx),
                *final(deferred_controls),
                *final(control_backlog),
            );
            exists|received: Seq<ControlView>| #[trigger]
                receives(before, received, after) && after.queue == before.queue + received
        }),
{
    let ghost before = intake(*control_rx, *deferred_controls, *control_backlog);
    let ghost mut received: Seq<ControlView> = Seq::empty();
    assert(received.map_values(|control: ControlView| Some(control)) == Seq::<
        Option<ControlView>,
    >::empty());
    loop
        invariant_except_break
            receive_log(*control_rx) == before.log + received.map_values(
                |control: ControlView| Some(control),
            ),
        invariant
            crate::types::control_views(deferred_controls@) == before.queue + received,
            held_counter(*control_backlog) == before.counter,
            backlog_log(*control_backlog).len() == before.releases.len() + received.len(),
            backlog_log(*control_backlog).take(before.releases.len() as int) == before.releases,
            forall|i: int|
                before.releases.len() <= i < backlog_log(*control_backlog).len() ==> (
                #[trigger] backlog_log(*control_backlog)[i]).1 == left_by_release(
                    backlog_log(*control_backlog)[i].0,
                ),
        ensures
            drains(before.log, received, receive_log(*control_rx)),
        decreases usize::MAX - deferred_controls.len(),
    {
        let ghost shown = received.map_values(|control: ControlView| Some(control));
        let ghost released = backlog_log(*control_backlog);
        let ghost views = crate::types::control_views(deferred_controls@);
        match try_recv_attach_control(control_rx, control_backlog) {
            Ok(control) => {
                let ghost more = received.push(control@);
                deferred_controls.push_back(control);
                proof {
                    assert(more.map_values(|control: ControlView| Some(control)) == shown.push(
                        Some(control@),
                    ));
                    assert(crate::types::control_views(deferred_controls@) == views.push(control@));
                    assert(backlog_log(*control_backlog).take(before.releases.len() as int)
                        == released.take(before.releases.len() as int)) by {
                        assert(backlog_log(*control_backlog).drop_last() == released);
                    }
                    assert forall|i: int|
                        before.releases.len() <= i < backlog_log(*control_backlog).len() implies (
                    #[trigger] backlog_log(*control_backlog)[i]).1 == left_by_release(
                        backlog_log(*control_backlog)[i].0,
                    ) by {
                        if i < released.len() {
                            assert(backlog_log(*control_backlog).drop_last()[i] == released[i]);
                        }
                    }
                    received = more;
                }
            },
            Err(_) => {
                assert(receive_log(*control_rx) == before.log + shown + seq![None]);
                break;
            },
        }
    }
    assert(receives(
        before,
        received,
        intake(*control_rx, *deferred_controls, *control_backlog),
    ));
}

} // verus!
