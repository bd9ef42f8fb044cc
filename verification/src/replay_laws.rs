//! What holds of the bytes that a client's outer terminal receives as a whole.
use vstd::prelude::*;

use crate::channel::Intake;
use crate::types::{ControlView, TargetView};

verus! {

/// What two queues in turn put on the outer terminal is what the one does, then what the other
/// does.
pub proof fn payloads_come_in_order(
    current: Option<u64>,
    left: Seq<ControlView>,
    right: Seq<ControlView>,
)
    ensures
        crate::replay::visible_payloads(current, left + right) == crate::replay::visible_payloads(
            current,
            left,
        ) + crate::replay::visible_payloads(current, right),
        crate::replay::visible_payloads(current, Seq::empty()) == Seq::<Seq<u8>>::empty(),
    decreases left.len(),
{
    if left.len() == 0 {
        assert(left + right == right);
    } else {
        payloads_come_in_order(current, left.drop_first(), right);
        assert((left + right).drop_first() == left.drop_first() + right);
    }
}

/// What a queue of one control puts on the outer terminal.
proof fn lemma_one_payload(current: Option<u64>, control: ControlView)
    ensures
        crate::replay::visible_payloads(current, seq![control]) == (
        match crate::replay::visible_payload(current, control) {
            Some(bytes) => seq![bytes],
            None => Seq::empty(),
        }),
{
    reveal_with_fuel(crate::replay::visible_payloads, 2);
    assert(seq![control].drop_first() == Seq::<ControlView>::empty());
}

/// A switch whose target is not older than the client puts its whole frame on the outer terminal,
/// and nothing else.
pub proof fn current_switch_shows_its_frame(current: Option<u64>, target: TargetView)
    requires
        current is None || target.persistent_overlay_state_id is None
            || target.persistent_overlay_state_id->0 >= current->0,
    ensures
        crate::replay::visible_payloads(current, seq![ControlView::Switch(Some(target))])
            == seq![target.render_frame],
{
    lemma_one_payload(current, ControlView::Switch(Some(target)));
}

/// A switch whose target is older than the client puts all the title bytes that its target holds
/// on the outer terminal, and no frame.
pub proof fn stale_switch_shows_its_title_only(current: Option<u64>, target: TargetView)
    requires
        current is Some,
        target.persistent_overlay_state_id is Some,
        target.persistent_overlay_state_id->0 < current->0,
    ensures
        target.client_title is Some && target.client_title->0.len() > 0
            ==> crate::replay::visible_payloads(current, seq![ControlView::Switch(Some(target))])
            == seq![target.client_title->0],
        target.client_title is None || target.client_title->0.len() == 0
            ==> crate::replay::visible_payloads(current, seq![ControlView::Switch(Some(target))])
            == Seq::<Seq<u8>>::empty(),
{
    lemma_one_payload(current, ControlView::Switch(Some(target)));
}

/// A write puts its bytes on the outer terminal; an empty place, an overlay, a barrier and any
/// other control put nothing there.
pub proof fn write_shows_its_bytes(current: Option<u64>, bytes: Seq<u8>, control: ControlView)
    requires
        control is Overlay || control is AdvancePersistentOverlayState || control is Other
            || control == ControlView::Switch(None),
    ensures
        crate::replay::visible_payloads(current, seq![ControlView::Write(bytes)]) == seq![bytes],
        crate::replay::visible_payloads(current, seq![control]) == Seq::<Seq<u8>>::empty(),
{
    lemma_one_payload(current, ControlView::Write(bytes));
    lemma_one_payload(current, control);
}

/// The payloads are told by the log of the receiver. If what came first announces no state above
/// 0, they are those of all that came, to a client without a state. Otherwise they are those of
/// all that came first and all that came in a second drain, to a client in the latest state
/// announced: stale frames count for their title bytes only.
pub proof fn replay_is_told_by_the_log(
    before: Seq<Option<ControlView>>,
    after: Seq<Option<ControlView>>,
    payloads: Seq<Seq<u8>>,
)
    requires
        crate::replay::replays(before, after, payloads),
    ensures
        exists|first: Seq<ControlView>, mid: Seq<Option<ControlView>>|
            {
                let latest = crate::barrier::latest_barrier(first);
                &&& #[trigger] crate::channel::drains(before, first, mid)
                &&& latest is None || latest->0 == 0 ==> after == mid && payloads
                    == crate::replay::visible_payloads(None, first)
                &&& latest is Some && latest->0 > 0 ==> exists|second: Seq<ControlView>|
                    {
                        &&& #[trigger] crate::channel::drains(mid, second, after)
                        &&& payloads == crate::replay::visible_payloads(latest, first + second)
                    }
            },
{
    let (start, first, taken, end, current) = choose|
        start: Intake,
        first: Seq<ControlView>,
        taken: Intake,
        end: Intake,
        current: Option<u64>,
    | #[trigger]
        crate::barrier::primes(start, first, taken, None, end, current) && start.log == before
            && start.queue.len() == 0 && end.log == after && payloads
            == crate::replay::visible_payloads(current, end.queue);
    assert(start.queue + first == first);
    let latest = crate::barrier::latest_barrier(first);
    let mid = taken.log;
    assert(crate::channel::drains(before, first, mid));
    lemma_barriers_show_nothing(current, first);
    if latest is Some && latest->0 > 0 {
        let barrier = latest->0;
        let second = choose|second: Seq<ControlView>| #[trigger]
            crate::channel::receives(taken, second, end) && end.queue == crate::barrier::survivors(
                taken.queue + second,
                barrier,
            );
        crate::barrier_laws::discarding_beforehand_shows_the_same(taken.queue + second, barrier);
        payloads_come_in_order(current, taken.queue, second);
        payloads_come_in_order(current, first, second);
        assert(crate::channel::drains(mid, second, after));
        assert(payloads == crate::replay::visible_payloads(latest, first + second));
    }
}

/// Taking the barriers out of a queue changes nothing of what it puts on the outer terminal.
proof fn lemma_barriers_show_nothing(current: Option<u64>, queue: Seq<ControlView>)
    ensures
        crate::replay::visible_payloads(current, crate::barrier::without_barriers(queue))
            == crate::replay::visible_payloads(current, queue),
    decreases queue.len(),
{
    if queue.len() > 0 {
        let tail = queue.drop_first();
        let others = crate::barrier::without_barriers(tail);
        lemma_barriers_show_nothing(current, tail);
        assert((seq![queue[0]] + others).drop_first() == others);
    }
}

} // verus!
