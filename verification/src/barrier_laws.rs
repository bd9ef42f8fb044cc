//! What holds of overlay states, barriers and the control queue as a whole.
use vstd::prelude::*;

use crate::channel::Intake;
use crate::types::{ControlView, OverlayView, TargetView};

verus! {

/// Whether an overlay state is the same as, or later than, another.
pub open spec fn is_not_behind(later: Option<u64>, earlier: Option<u64>) -> bool {
    match earlier {
        Some(earlier) => later is Some && earlier <= later->0,
        None => true,
    }
}

/// The overlay state never goes back, neither by a barrier nor by an overlay.
pub proof fn state_never_goes_back(current: Option<u64>, barrier: u64, overlay: OverlayView)
    ensures
        is_not_behind(crate::barrier::state_after_barrier(current, barrier), current),
        is_not_behind(crate::barrier::state_after_overlay(current, overlay), current),
{
}

/// Priming moves the overlay state as the latest of the queued barriers does, so it never goes
/// back either.
pub proof fn priming_never_goes_back(
    before: Intake,
    first: Seq<ControlView>,
    taken: Intake,
    current: Option<u64>,
    after: Intake,
    later: Option<u64>,
)
    requires
        crate::barrier::primes(before, first, taken, current, after, later),
    ensures
        later == (match crate::barrier::latest_barrier(before.queue + first) {
            Some(barrier) => crate::barrier::state_after_barrier(current, barrier),
            None => current,
        }),
        is_not_behind(later, current),
{
}

/// What is stale stays stale, however the overlay state moves on.
pub proof fn stale_stays_stale(
    current: Option<u64>,
    later: Option<u64>,
    target: TargetView,
    overlay: OverlayView,
)
    requires
        is_not_behind(later, current),
    ensures
        crate::barrier::is_stale_target(current, target) ==> crate::barrier::is_stale_target(
            later,
            target,
        ),
        crate::barrier::is_stale_overlay(current, overlay) ==> crate::barrier::is_stale_overlay(
            later,
            overlay,
        ),
{
}

/// A barrier at 0 is where a client begins: whatever the state, it changes nothing.
pub proof fn barrier_at_zero_is_ignored(current: Option<u64>)
    ensures
        crate::barrier::state_after_barrier(current, 0) == current,
        !crate::barrier::barrier_advances(current, 0),
{
}

/// An overlay that was accepted is not stale afterwards, and neither is one taken for the state
/// that the client moved to.
pub proof fn accepted_overlay_is_current(
    current: Option<u64>,
    overlay: OverlayView,
    expected: u64,
    render_generation: u64,
    overlay_generation: u64,
)
    ensures
        !crate::barrier::is_stale_overlay(current, overlay) ==> !crate::barrier::is_stale_overlay(
            crate::barrier::state_after_overlay(current, overlay),
            overlay,
        ),
        crate::composition::matches_switch(
            overlay,
            expected,
            render_generation,
            overlay_generation,
        ) ==> !crate::barrier::is_stale_overlay(Some(expected), overlay),
{
}

/// A barrier acts on each control by itself and in its place: what is left of two queues joined is
/// what is left of the one, then what is left of the other.
pub proof fn discarding_acts_in_place(left: Seq<ControlView>, right: Seq<ControlView>, barrier: u64)
    ensures
        crate::barrier::survivors(left + right, barrier) == crate::barrier::survivors(left, barrier)
            + crate::barrier::survivors(right, barrier),
    decreases left.len(),
{
    if left.len() == 0 {
        assert(left + right == right);
    } else {
        discarding_acts_in_place(left.drop_first(), right, barrier);
        assert((left + right).drop_first() == left.drop_first() + right);
    }
}

/// What a barrier leaves of a queue is what it leaves of one control of it, between what it leaves
/// of the controls in front and of those behind.
proof fn lemma_survivors_around(
    left: Seq<ControlView>,
    control: ControlView,
    right: Seq<ControlView>,
    barrier: u64,
)
    ensures
        crate::barrier::survivors(left + seq![control] + right, barrier)
            == crate::barrier::survivors(left, barrier) + (match crate::barrier::survivor(
            control,
            barrier,
        ) {
            Some(kept) => seq![kept],
            None => Seq::empty(),
        }) + crate::barrier::survivors(right, barrier),
{
    let only = seq![control];
    discarding_acts_in_place(left + only, right, barrier);
    discarding_acts_in_place(left, only, barrier);
    reveal_with_fuel(crate::barrier::survivors, 2);
    assert(only.drop_first() == Seq::<ControlView>::empty());
    assert(crate::barrier::survivors(only, barrier) == (match crate::barrier::survivor(
        control,
        barrier,
    ) {
        Some(kept) => seq![kept],
        None => Seq::<ControlView>::empty(),
    }));
}

/// A stale switch is replaced, in the same place of the queue, by a write of the title bytes that
/// it owes; if it owes none, it leaves nothing.
pub proof fn stale_switch_leaves_its_title_in_place(
    left: Seq<ControlView>,
    target: TargetView,
    right: Seq<ControlView>,
    barrier: u64,
)
    requires
        crate::barrier::is_stale_target(Some(barrier), target),
    ensures
        crate::barrier::survivors(
            left + seq![ControlView::Switch(Some(target))] + right,
            barrier,
        ) == crate::barrier::survivors(left, barrier) + (match crate::barrier::owed_title(target) {
            Some(bytes) => seq![ControlView::Write(bytes)],
            None => Seq::empty(),
        }) + crate::barrier::survivors(right, barrier),
{
    let switch = seq![ControlView::Switch(Some(target))];
    discarding_acts_in_place(left + switch, right, barrier);
    discarding_acts_in_place(left, switch, barrier);
    reveal_with_fuel(crate::barrier::survivors, 2);
    assert(switch.drop_first() == Seq::<ControlView>::empty());
    assert(crate::barrier::survivors(switch, barrier) == (match crate::barrier::owed_title(target) {
        Some(bytes) => seq![ControlView::Write(bytes)],
        None => Seq::<ControlView>::empty(),
    }));
}

/// A switch rendered for a state before the barrier is replaced, in the same place of the queue, by
/// a write of all the title bytes that its target holds.
pub proof fn stale_switch_leaves_all_its_title_bytes(
    left: Seq<ControlView>,
    target: TargetView,
    bytes: Seq<u8>,
    right: Seq<ControlView>,
    barrier: u64,
)
    requires
        target.persistent_overlay_state_id is Some,
        target.persistent_overlay_state_id->0 < barrier,
        target.client_title == Some(bytes),
        bytes.len() > 0,
    ensures
        crate::barrier::survivors(left + seq![ControlView::Switch(Some(target))] + right, barrier)
            == crate::barrier::survivors(left, barrier) + seq![ControlView::Write(bytes)]
            + crate::barrier::survivors(right, barrier),
{
    lemma_survivors_around(left, ControlView::Switch(Some(target)), right, barrier);
}

/// A switch rendered for a state before the barrier, whose target holds no title bytes, leaves
/// nothing.
pub proof fn stale_switch_without_title_leaves_nothing(
    left: Seq<ControlView>,
    target: TargetView,
    right: Seq<ControlView>,
    barrier: u64,
)
    requires
        target.persistent_overlay_state_id is Some,
        target.persistent_overlay_state_id->0 < barrier,
        target.client_title is None || target.client_title->0.len() == 0,
    ensures
        crate::barrier::survivors(left + seq![ControlView::Switch(Some(target))] + right, barrier)
            == crate::barrier::survivors(left, barrier) + crate::barrier::survivors(right, barrier),
{
    lemma_survivors_around(left, ControlView::Switch(Some(target)), right, barrier);
}

/// An overlay rendered for a state before the barrier leaves nothing, whatever else it is.
pub proof fn stale_overlay_leaves_nothing(
    left: Seq<ControlView>,
    overlay: OverlayView,
    right: Seq<ControlView>,
    barrier: u64,
)
    requires
        overlay.persistent_state_id is Some,
        overlay.persistent_state_id->0 < barrier,
    ensures
        crate::barrier::survivors(left + seq![ControlView::Overlay(overlay)] + right, barrier)
            == crate::barrier::survivors(left, barrier) + crate::barrier::survivors(right, barrier),
{
    lemma_survivors_around(left, ControlView::Overlay(overlay), right, barrier);
}

/// Every other control stays in its place, as it is: a switch or an overlay for no state, for the
/// state of the barrier or for a later one, an empty place, a write, a barrier, and any other.
pub proof fn other_controls_stay_in_place(
    left: Seq<ControlView>,
    control: ControlView,
    right: Seq<ControlView>,
    barrier: u64,
)
    requires
        match control {
            ControlView::Switch(Some(target)) => target.persistent_overlay_state_id is None
                || target.persistent_overlay_state_id->0 >= barrier,
            ControlView::Overlay(overlay) => overlay.persistent_state_id is None
                || overlay.persistent_state_id->0 >= barrier,
            _ => true,
        },
    ensures
        crate::barrier::survivors(left + seq![control] + right, barrier)
            == crate::barrier::survivors(left, barrier) + seq![control]
            + crate::barrier::survivors(right, barrier),
        crate::barrier::survivors(Seq::empty(), barrier) == Seq::<ControlView>::empty(),
{
    lemma_survivors_around(left, control, right, barrier);
}

/// A frame owes the outer terminal all title bytes that its target holds, and nothing if there are
/// none; a discarded switch hands over exactly those.
pub proof fn all_title_bytes_are_owed(target: TargetView, bytes: Seq<u8>)
    ensures
        target.client_title == Some(bytes) && bytes.len() > 0 ==> {
            &&& crate::barrier::owed_title(target) == Some(bytes)
            &&& crate::barrier::salvaged_control(Some(target)) == Some(ControlView::Write(bytes))
        },
        target.client_title is None || target.client_title->0.len() == 0 ==> {
            &&& crate::barrier::owed_title(target) is None
            &&& crate::barrier::salvaged_control(Some(target)) is None
        },
        crate::barrier::salvaged_control(None) is None,
{
}

/// Staleness goes by the two state numbers alone: without one of them nothing is stale, and
/// otherwise exactly what is older is. Targets and overlays of one state are stale together.
pub proof fn staleness_goes_by_state_numbers(
    current: Option<u64>,
    target: TargetView,
    overlay: OverlayView,
)
    ensures
        current is None ==> !crate::barrier::is_stale_target(current, target)
            && !crate::barrier::is_stale_overlay(current, overlay),
        target.persistent_overlay_state_id is None ==> !crate::barrier::is_stale_target(
            current,
            target,
        ),
        overlay.persistent_state_id is None ==> !crate::barrier::is_stale_overlay(current, overlay),
        current is Some && target.persistent_overlay_state_id is Some ==> (
        crate::barrier::is_stale_target(current, target) <==> target.persistent_overlay_state_id->0
            < current->0),
        current is Some && overlay.persistent_state_id is Some ==> (
        crate::barrier::is_stale_overlay(current, overlay) <==> overlay.persistent_state_id->0
            < current->0),
{
}

/// A barrier takes the state to the later of the two; it counts, and clears the queue, exactly if
/// it is not 0 and the client ends up in its state.
pub proof fn barrier_takes_the_state_to_the_later(current: Option<u64>, barrier: u64)
    ensures
        current is Some && current->0 <= barrier ==> crate::barrier::state_after_barrier(
            current,
            barrier,
        ) == Some(barrier),
        current is Some && current->0 > barrier ==> crate::barrier::state_after_barrier(
            current,
            barrier,
        ) == current,
        current is None && barrier > 0 ==> crate::barrier::state_after_barrier(current, barrier)
            == Some(barrier),
        current is None && barrier == 0 ==> crate::barrier::state_after_barrier(current, barrier)
            is None,
        crate::barrier::barrier_advances(current, barrier) <==> barrier > 0
            && crate::barrier::state_after_barrier(current, barrier) == Some(barrier),
{
}

/// An overlay for a state that is not older than the current one takes the client to exactly that
/// state, whether it draws something or takes the overlay down, and whatever else it is. From then
/// on every frame for an earlier state is refused. An older overlay, or one for no state, leaves
/// the state alone.
pub proof fn accepted_overlay_takes_the_client_to_its_state(
    current: Option<u64>,
    overlay: OverlayView,
    late_overlay: OverlayView,
    late_target: TargetView,
)
    ensures
        overlay.persistent_state_id is Some && (current is None || current->0
            <= overlay.persistent_state_id->0) ==> {
            let later = crate::barrier::state_after_overlay(current, overlay);
            &&& !crate::barrier::is_stale_overlay(current, overlay)
            &&& later == overlay.persistent_state_id
            &&& late_overlay.persistent_state_id is Some && late_overlay.persistent_state_id->0
                < overlay.persistent_state_id->0 ==> crate::barrier::is_stale_overlay(
                later,
                late_overlay,
            )
            &&& late_target.persistent_overlay_state_id is Some
                && late_target.persistent_overlay_state_id->0 < overlay.persistent_state_id->0
                ==> crate::barrier::is_stale_target(later, late_target)
        },
        overlay.persistent_state_id is Some && current is Some && current->0
            > overlay.persistent_state_id->0 ==> {
            &&& crate::barrier::is_stale_overlay(current, overlay)
            &&& crate::barrier::state_after_overlay(current, overlay) == current
        },
        overlay.persistent_state_id is None ==> {
            &&& !crate::barrier::is_stale_overlay(current, overlay)
            &&& crate::barrier::state_after_overlay(current, overlay) == current
        },
{
}

/// Whether a barrier leaves a control as it is.
pub open spec fn is_fresh(control: ControlView, barrier: u64) -> bool {
    match control {
        ControlView::Switch(Some(target)) => !crate::barrier::is_stale_target(
            Some(barrier),
            target,
        ),
        ControlView::Overlay(overlay) => !crate::barrier::is_stale_overlay(Some(barrier), overlay),
        _ => true,
    }
}

/// What a barrier leaves in a queue is not stale.
pub proof fn nothing_stale_survives(queue: Seq<ControlView>, barrier: u64)
    ensures
        forall|i: int|
            0 <= i < crate::barrier::survivors(queue, barrier).len() ==> is_fresh(
                #[trigger] crate::barrier::survivors(queue, barrier)[i],
                barrier,
            ),
    decreases queue.len(),
{
    if queue.len() > 0 {
        let others = crate::barrier::survivors(queue.drop_first(), barrier);
        let left = crate::barrier::survivors(queue, barrier);
        nothing_stale_survives(queue.drop_first(), barrier);
        assert forall|i: int| 0 <= i < left.len() implies is_fresh(#[trigger] left[i], barrier) by {
            if crate::barrier::survivor(queue[0], barrier) is Some && i > 0 {
                assert(left[i] == others[i - 1]);
            } else if crate::barrier::survivor(queue[0], barrier) is None {
                assert(left[i] == others[i]);
            }
        }
    }
}

/// A barrier keeps every control that is not stale, and leaves a queue without stale controls as
/// it is.
pub proof fn everything_fresh_survives(queue: Seq<ControlView>, barrier: u64)
    ensures
        forall|i: int|
            0 <= i < queue.len() && is_fresh(#[trigger] queue[i], barrier)
                ==> crate::barrier::survivors(queue, barrier).contains(queue[i]),
        (forall|i: int| 0 <= i < queue.len() ==> is_fresh(#[trigger] queue[i], barrier))
            ==> crate::barrier::survivors(queue, barrier) == queue,
    decreases queue.len(),
{
    if queue.len() > 0 {
        let tail = queue.drop_first();
        let others = crate::barrier::survivors(tail, barrier);
        let left = crate::barrier::survivors(queue, barrier);
        everything_fresh_survives(tail, barrier);
        assert forall|i: int|
            0 <= i < queue.len() && is_fresh(#[trigger] queue[i], barrier) implies left.contains(
            queue[i],
        ) by {
            if i == 0 {
                assert(left[0] == queue[0]);
            } else {
                assert(tail[i - 1] == queue[i]);
                assert(others.contains(queue[i]));
                let k = choose|k: int| 0 <= k < others.len() && others[k] == queue[i];
                if crate::barrier::survivor(queue[0], barrier) is Some {
                    assert(left[k + 1] == queue[i]);
                } else {
                    assert(left[k] == queue[i]);
                }
            }
        }
        if forall|i: int| 0 <= i < queue.len() ==> is_fresh(#[trigger] queue[i], barrier) {
            assert(is_fresh(queue[0], barrier));
            assert forall|i: int| 0 <= i < tail.len() implies is_fresh(
                #[trigger] tail[i],
                barrier,
            ) by {
                assert(is_fresh(queue[i + 1], barrier));
            }
            assert(left == seq![queue[0]] + tail);
            assert(left == queue);
        }
    }
}

/// Two barriers in turn leave what the later of them alone leaves, in whichever order they come;
/// in particular a barrier announced twice does nothing the second time.
pub proof fn only_the_later_barrier_counts(queue: Seq<ControlView>, one: u64, other: u64)
    ensures
        crate::barrier::survivors(crate::barrier::survivors(queue, one), other)
            == crate::barrier::survivors(
            queue,
            if one < other {
                other
            } else {
                one
            },
        ),
    decreases queue.len(),
{
    if queue.len() > 0 {
        let later = if one < other {
            other
        } else {
            one
        };
        let tail = queue.drop_first();
        let others = crate::barrier::survivors(tail, one);
        only_the_later_barrier_counts(tail, one, other);
        match crate::barrier::survivor(queue[0], one) {
            Some(control) => {
                assert((seq![control] + others).drop_first() == others);
                assert(crate::barrier::survivor(control, other) == crate::barrier::survivor(
                    queue[0],
                    later,
                ));
            },
            None => {
                assert(crate::barrier::survivor(queue[0], later) is None);
            },
        }
    }
}

/// What the outer terminal is owed by a control, besides any frame: the title bytes of a switch,
/// or the bytes of a write.
pub open spec fn owed_by(control: ControlView) -> Option<Seq<u8>> {
    match control {
        ControlView::Switch(Some(target)) => crate::barrier::owed_title(target),
        ControlView::Write(bytes) => Some(bytes),
        _ => None,
    }
}

/// What the outer terminal is owed by a queue, in order.
pub open spec fn owed_by_queue(queue: Seq<ControlView>) -> Seq<Seq<u8>>
    decreases queue.len(),
{
    if queue.len() == 0 {
        Seq::empty()
    } else {
        match owed_by(queue[0]) {
            Some(bytes) => seq![bytes] + owed_by_queue(queue.drop_first()),
            None => owed_by_queue(queue.drop_first()),
        }
    }
}

/// Discarding frames loses nothing that the outer terminal is owed, and keeps it in order.
pub proof fn owed_bytes_are_never_lost(queue: Seq<ControlView>, barrier: u64)
    ensures
        owed_by_queue(crate::barrier::survivors(queue, barrier)) == owed_by_queue(queue),
    decreases queue.len(),
{
    if queue.len() > 0 {
        let others = crate::barrier::survivors(queue.drop_first(), barrier);
        owed_bytes_are_never_lost(queue.drop_first(), barrier);
        match crate::barrier::survivor(queue[0], barrier) {
            Some(control) => {
                assert((seq![control] + others).drop_first() == others);
            },
            None => {},
        }
    }
}

/// A client that has moved on to a state puts the same bytes on its outer terminal whether stale
/// frames are discarded from its queue beforehand or dropped one by one as their turn comes.
pub proof fn discarding_beforehand_shows_the_same(queue: Seq<ControlView>, barrier: u64)
    ensures
        crate::replay::visible_payloads(Some(barrier), crate::barrier::survivors(queue, barrier))
            == crate::replay::visible_payloads(Some(barrier), queue),
    decreases queue.len(),
{
    if queue.len() > 0 {
        let others = crate::barrier::survivors(queue.drop_first(), barrier);
        discarding_beforehand_shows_the_same(queue.drop_first(), barrier);
        match crate::barrier::survivor(queue[0], barrier) {
            Some(control) => {
                assert((seq![control] + others).drop_first() == others);
            },
            None => {},
        }
    }
}

/// The latest barrier of a queue is announced in it, and no other in it is later.
pub proof fn latest_barrier_is_the_greatest(queue: Seq<ControlView>)
    ensures
        forall|i: int|
            0 <= i < queue.len() && crate::barrier::announced_barrier(#[trigger] queue[i]) is Some
                ==> crate::barrier::latest_barrier(queue) is Some
                && crate::barrier::announced_barrier(queue[i])->0 <= crate::barrier::latest_barrier(
                queue,
            )->0,
        crate::barrier::latest_barrier(queue) is Some ==> exists|i: int|
            0 <= i < queue.len() && crate::barrier::announced_barrier(#[trigger] queue[i])
                == crate::barrier::latest_barrier(queue),
    decreases queue.len(),
{
    if queue.len() > 0 {
        let tail = queue.drop_first();
        latest_barrier_is_the_greatest(tail);
        assert forall|i: int|
            0 <= i < queue.len() && crate::barrier::announced_barrier(
                #[trigger] queue[i],
            ) is Some implies crate::barrier::latest_barrier(queue) is Some
            && crate::barrier::announced_barrier(queue[i])->0 <= crate::barrier::latest_barrier(
            queue,
        )->0 by {
            if i > 0 {
                assert(tail[i - 1] == queue[i]);
            }
        }
        let latest = crate::barrier::latest_barrier(queue);
        if latest is Some && crate::barrier::announced_barrier(queue[0]) != latest {
            let i = choose|i: int|
                0 <= i < tail.len() && crate::barrier::announced_barrier(#[trigger] tail[i])
                    == crate::barrier::latest_barrier(tail);
            assert(queue[i + 1] == tail[i]);
        }
    }
}

/// The latest barrier of a queue is one of the controls in it that announce a state, and none of
/// them announces a later one.
pub proof fn latest_barrier_is_an_announcement(queue: Seq<ControlView>)
    ensures
        forall|i: int|
            0 <= i < queue.len() && (#[trigger] queue[i]) is AdvancePersistentOverlayState
                ==> crate::barrier::latest_barrier(queue) is Some
                && queue[i]->AdvancePersistentOverlayState_0 <= crate::barrier::latest_barrier(
                queue,
            )->0,
        crate::barrier::latest_barrier(queue) is Some ==> exists|i: int|
            0 <= i < queue.len() && #[trigger] queue[i]
                == ControlView::AdvancePersistentOverlayState(
                crate::barrier::latest_barrier(queue)->0,
            ),
    decreases queue.len(),
{
    if queue.len() > 0 {
        let tail = queue.drop_first();
        let latest = crate::barrier::latest_barrier(queue);
        latest_barrier_is_an_announcement(tail);
        assert forall|i: int|
            0 <= i < queue.len() && (#[trigger] queue[i]) is AdvancePersistentOverlayState implies
            latest is Some && queue[i]->AdvancePersistentOverlayState_0 <= latest->0 by {
            if i > 0 {
                assert(tail[i - 1] == queue[i]);
            }
        }
        if latest is Some && crate::barrier::announced_barrier(queue[0]) != latest {
            let i = choose|i: int|
                0 <= i < tail.len() && #[trigger] tail[i]
                    == ControlView::AdvancePersistentOverlayState(
                    crate::barrier::latest_barrier(tail)->0,
                );
            assert(queue[i + 1] == tail[i]);
        } else if latest is Some {
            assert(queue[0] == ControlView::AdvancePersistentOverlayState(latest->0));
        }
    }
}

/// Taking the barriers out of a queue takes out the announcements and nothing else, each other
/// control staying in its place.
pub proof fn only_barriers_are_taken_out(
    left: Seq<ControlView>,
    control: ControlView,
    right: Seq<ControlView>,
)
    ensures
        crate::barrier::without_barriers(Seq::empty()) == Seq::<ControlView>::empty(),
        control is AdvancePersistentOverlayState ==> crate::barrier::without_barriers(
            left + seq![control] + right,
        ) == crate::barrier::without_barriers(left) + crate::barrier::without_barriers(right),
        control !is AdvancePersistentOverlayState ==> crate::barrier::without_barriers(
            left + seq![control] + right,
        ) == crate::barrier::without_barriers(left) + seq![control]
            + crate::barrier::without_barriers(right),
{
    let only = seq![control];
    barriers_count_wherever_they_stand(left + only, right);
    barriers_count_wherever_they_stand(left, only);
    reveal_with_fuel(crate::barrier::without_barriers, 2);
    assert(only.drop_first() == Seq::<ControlView>::empty());
    assert(control !is AdvancePersistentOverlayState ==> crate::barrier::without_barriers(only)
        == only);
    assert(control is AdvancePersistentOverlayState ==> crate::barrier::without_barriers(only)
        == Seq::<ControlView>::empty());
}

/// It does not matter where in a queue a barrier stands: the latest barrier of two queues joined
/// is the later of theirs, and taking the barriers out of them joined is taking them out of each.
pub proof fn barriers_count_wherever_they_stand(left: Seq<ControlView>, right: Seq<ControlView>)
    ensures
        crate::barrier::latest_barrier(left + right) == crate::barrier::later_barrier(
            crate::barrier::latest_barrier(left),
            crate::barrier::latest_barrier(right),
        ),
        crate::barrier::without_barriers(left + right) == crate::barrier::without_barriers(left)
            + crate::barrier::without_barriers(right),
    decreases left.len(),
{
    if left.len() == 0 {
        assert(left + right == right);
    } else {
        barriers_count_wherever_they_stand(left.drop_first(), right);
        assert((left + right).drop_first() == left.drop_first() + right);
    }
}

/// Taking the barriers out of a queue leaves none in it, and every other control.
pub proof fn taking_barriers_keeps_the_rest(queue: Seq<ControlView>)
    ensures
        crate::barrier::latest_barrier(crate::barrier::without_barriers(queue)) is None,
        forall|i: int|
            0 <= i < queue.len() && crate::barrier::announced_barrier(#[trigger] queue[i]) is None
                ==> crate::barrier::without_barriers(queue).contains(queue[i]),
        crate::barrier::latest_barrier(queue) is None ==> crate::barrier::without_barriers(queue)
            == queue,
    decreases queue.len(),
{
    if queue.len() > 0 {
        let tail = queue.drop_first();
        let others = crate::barrier::without_barriers(tail);
        let left = crate::barrier::without_barriers(queue);
        taking_barriers_keeps_the_rest(tail);
        if crate::barrier::announced_barrier(queue[0]) is None {
            assert(left.drop_first() == others);
            assert(seq![queue[0]] + tail == queue);
        }
        assert forall|i: int|
            0 <= i < queue.len() && crate::barrier::announced_barrier(
                #[trigger] queue[i],
            ) is None implies left.contains(queue[i]) by {
            if i == 0 {
                assert(left[0] == queue[0]);
            } else {
                assert(tail[i - 1] == queue[i]);
                assert(others.contains(queue[i]));
                let k = choose|k: int| 0 <= k < others.len() && others[k] == queue[i];
                if crate::barrier::announced_barrier(queue[0]) is None {
                    assert(left[k + 1] == queue[i]);
                } else {
                    assert(left[k] == queue[i]);
                }
            }
        }
    }
}

/// Clearing a queue for a barrier goes over what was deferred, then over what the log tells was
/// received: up to the one attempt that found the channel dry, with one release for each control.
pub proof fn discarding_covers_what_the_log_tells(before: Intake, barrier: u64, after: Intake)
    requires
        crate::barrier::takes_in_and_discards(before, barrier, after),
    ensures
        after.log.len() > before.log.len(),
        after.log.take(before.log.len() as int) == before.log,
        after.log.last() is None,
        forall|i: int|
            before.log.len() <= i < after.log.len() - 1 ==> (#[trigger] after.log[i]) is Some,
        after.queue == crate::barrier::survivors(
            before.queue + Seq::new(
                (after.log.len() - before.log.len() - 1) as nat,
                |i: int| after.log[before.log.len() + i]->0,
            ),
            barrier,
        ),
        after.counter == before.counter,
        after.releases.len() - before.releases.len() == after.log.len() - before.log.len() - 1,
{
    let received = choose|received: Seq<ControlView>| #[trigger]
        crate::channel::receives(before, received, after) && after.queue
            == crate::barrier::survivors(before.queue + received, barrier);
    crate::channel_laws::drain_is_in_the_log(before.log, received, after.log);
    assert(received == Seq::new(
        (after.log.len() - before.log.len() - 1) as nat,
        |i: int| after.log[before.log.len() + i]->0,
    ));
}

/// Priming takes in the channel and takes all barriers out of the queue. If the latest of them is
/// above 0 and not behind the client, the client moves to it, takes in the channel again and
/// clears the queue for it; otherwise nothing more happens.
pub proof fn priming_applies_the_latest_barrier(
    before: Intake,
    first: Seq<ControlView>,
    taken: Intake,
    current: Option<u64>,
    after: Intake,
    later: Option<u64>,
)
    requires
        crate::barrier::primes(before, first, taken, current, after, later),
    ensures
        crate::channel::receives(before, first, taken),
        taken.queue == crate::barrier::without_barriers(before.queue + first),
        ({
            let latest = crate::barrier::latest_barrier(before.queue + first);
            if latest is Some && latest->0 > 0 && (current is None || current->0 <= latest->0) {
                later == latest && crate::barrier::takes_in_and_discards(taken, latest->0, after)
            } else {
                later == current && after == taken
            }
        }),
{
}

/// Once a client has primed its barriers from the start, every frame that is still queued is drawn
/// and none of the overlays in the queue is refused: the rest has been discarded.
pub proof fn primed_queue_is_drawn_in_full(
    before: Intake,
    first: Seq<ControlView>,
    taken: Intake,
    after: Intake,
    current: Option<u64>,
)
    requires
        crate::barrier::primes(before, first, taken, None, after, current),
    ensures
        forall|i: int|
            0 <= i < after.queue.len() ==> match #[trigger] after.queue[i] {
                ControlView::Switch(Some(target)) => crate::replay::visible_payload(
                    current,
                    after.queue[i],
                ) == Some(target.render_frame),
                ControlView::Overlay(overlay) => !crate::barrier::is_stale_overlay(
                    current,
                    overlay,
                ),
                _ => true,
            },
{
    let queue = before.queue + first;
    if crate::barrier::latest_barrier(queue) is Some && crate::barrier::barrier_advances(
        None,
        crate::barrier::latest_barrier(queue)->0,
    ) {
        let barrier = crate::barrier::latest_barrier(queue)->0;
        let received = choose|received: Seq<ControlView>| #[trigger]
            crate::channel::receives(taken, received, after) && after.queue
                == crate::barrier::survivors(taken.queue + received, barrier);
        nothing_stale_survives(taken.queue + received, barrier);
        assert forall|i: int| 0 <= i < after.queue.len() implies is_fresh(
            #[trigger] after.queue[i],
            barrier,
        ) by {}
    }
}

/// An overlay for a retired state can no longer be taken for a switch.
pub proof fn retired_overlay_is_never_taken(
    queue: Seq<ControlView>,
    barrier: u64,
    expected: u64,
    render_generation: u64,
    overlay_generation: u64,
    taken: Option<OverlayView>,
    rest: Seq<ControlView>,
)
    requires
        expected < barrier,
        crate::composition::takes_first_match(
            crate::barrier::survivors(queue, barrier),
            expected,
            render_generation,
            overlay_generation,
            taken,
            rest,
        ),
    ensures
        taken is None,
        rest == crate::barrier::survivors(queue, barrier),
{
    nothing_stale_survives(queue, barrier);
}

/// Taking the overlay for a switch takes at most that one control, and keeps the others in order.
pub proof fn taking_an_overlay_keeps_the_rest(
    queue: Seq<ControlView>,
    expected: u64,
    render_generation: u64,
    overlay_generation: u64,
    taken: Option<OverlayView>,
    rest: Seq<ControlView>,
)
    requires
        crate::composition::takes_first_match(
            queue,
            expected,
            render_generation,
            overlay_generation,
            taken,
            rest,
        ),
    ensures
        taken is None ==> rest == queue,
        taken is Some ==> exists|left: Seq<ControlView>, right: Seq<ControlView>|
            queue == #[trigger] (left + seq![ControlView::Overlay(taken->0)] + right)
                && rest == left + right,
{
    if taken is Some {
        let i = choose|i: int|
            0 <= i < queue.len() && #[trigger] queue[i] == ControlView::Overlay(taken->0) && rest
                == queue.remove(i);
        let left = queue.take(i);
        let right = queue.skip(i + 1);
        assert(queue == left + seq![ControlView::Overlay(taken->0)] + right);
        assert(rest == left + right);
    }
}

/// The log of a receiver tells what was received in a drain.
pub proof fn drain_is_told_by_the_log(
    before: Seq<Option<ControlView>>,
    after: Seq<Option<ControlView>>,
    one: Seq<ControlView>,
    other: Seq<ControlView>,
)
    requires
        crate::channel::drains(before, one, after),
        crate::channel::drains(before, other, after),
    ensures
        one == other,
{
    assert(after.len() == before.len() + one.len() + 1);
    assert(after.len() == before.len() + other.len() + 1);
    assert forall|i: int| 0 <= i < one.len() implies one[i] == other[i] by {
        assert(after[before.len() + i] == Some(one[i]));
        assert(after[before.len() + i] == Some(other[i]));
    }
    assert(one =~= other);
}

} // verus!
