//! What holds of the overlay kept for restoring, and of refreshing it, as a whole.
use vstd::prelude::*;

use crate::channel::Intake;
use crate::types::{ControlView, OverlayView, TargetView};

verus! {

/// An overlay is on screen exactly if its frame is kept, and an empty frame never is, whatever is
/// drawn in turn.
pub proof fn cache_and_visibility_agree(
    cache: Option<Seq<u8>>,
    visible: bool,
    overlay: OverlayView,
)
    requires
        visible == cache is Some,
    ensures
        crate::composition::cache_after(cache, visible, overlay).1
            == crate::composition::cache_after(cache, visible, overlay).0 is Some,
        cache != Some(Seq::<u8>::empty()) ==> crate::composition::cache_after(
            cache,
            visible,
            overlay,
        ).0 != Some(Seq::<u8>::empty()),
{
}

/// Whatever was on screen before a persistent overlay was drawn, and whether or not it could be
/// reduced to its changed rows, a switch within the overlay state restores its whole frame.
pub proof fn restoring_redraws_the_whole_frame(
    cache: Option<Seq<u8>>,
    visible: bool,
    overlay: OverlayView,
    target: TargetView,
)
    requires
        overlay.persistent,
        overlay.frame.len() > 0,
        target.persistent_overlay_state_id is Some,
    ensures
        ({
            let (kept, shown) = crate::composition::cache_after(cache, visible, overlay);
            crate::composition::restored_frame(kept, shown, target) == Some(overlay.frame)
        }),
{
}

/// Once a persistent overlay was taken down, nothing is restored.
pub proof fn nothing_is_restored_after_a_clear(
    cache: Option<Seq<u8>>,
    visible: bool,
    overlay: OverlayView,
    target: TargetView,
)
    requires
        overlay.persistent,
        overlay.frame.len() == 0,
    ensures
        ({
            let (kept, shown) = crate::composition::cache_after(cache, visible, overlay);
            crate::composition::restored_frame(kept, shown, target) is None
        }),
{
}

/// An overlay that does not persist, such as a message, leaves what is kept alone.
pub proof fn transient_overlay_leaves_the_cache_alone(
    cache: Option<Seq<u8>>,
    visible: bool,
    overlay: OverlayView,
)
    requires
        !overlay.persistent,
    ensures
        crate::composition::cache_after(cache, visible, overlay) == (cache, visible),
{
}

/// The screen after a popup that shows `cache` was refreshed with each of `overlays` in turn, each
/// time by a delta against what is kept of the one before.
pub open spec fn refreshed<S>(
    terminal: spec_fn(S, Seq<u8>) -> S,
    screen: S,
    cache: Option<Seq<u8>>,
    visible: bool,
    overlays: Seq<OverlayView>,
) -> S
    decreases overlays.len(),
{
    if overlays.len() == 0 {
        screen
    } else {
        let (kept, shown) = crate::composition::cache_after(cache, visible, overlays[0]);
        refreshed(
            terminal,
            terminal(screen, crate::popup::frame_delta(cache, visible, overlays[0])->0),
            kept,
            shown,
            overlays.drop_first(),
        )
    }
}

/// Whether each of `overlays` in turn can be reduced against what is kept of the one before, on a
/// terminal whose rows do not disturb each other and cover what was in their place.
pub open spec fn reduce_in_turn<S>(
    terminal: spec_fn(S, Seq<u8>) -> S,
    cache: Option<Seq<u8>>,
    visible: bool,
    overlays: Seq<OverlayView>,
) -> bool
    decreases overlays.len(),
{
    overlays.len() > 0 ==> {
        let overlay = overlays[0];
        let (kept, shown) = crate::composition::cache_after(cache, visible, overlay);
        &&& crate::popup::frame_delta(cache, visible, overlay) is Some
        &&& crate::popup_laws::rows_draw_apart(
            terminal,
            crate::popup::popup_layout(cache->0)->0,
            crate::popup::popup_layout(overlay.frame)->0,
        )
        &&& crate::popup_laws::rows_draw_over(
            terminal,
            crate::popup::popup_layout(cache->0)->0,
            crate::popup::popup_layout(overlay.frame)->0,
        )
        &&& reduce_in_turn(terminal, kept, shown, overlays.drop_first())
    }
}

/// However many deltas are drawn in turn, the screen is the one that the last whole frame alone
/// would have drawn, whatever the frames in between.
pub proof fn chain_of_deltas_shows_the_last_frame<S>(
    terminal: spec_fn(S, Seq<u8>) -> S,
    screen: S,
    cache: Seq<u8>,
    visible: bool,
    overlays: Seq<OverlayView>,
)
    requires
        crate::popup_laws::reads_a_stream(terminal),
        overlays.len() > 0,
        reduce_in_turn(terminal, Some(cache), visible, overlays),
    ensures
        refreshed(terminal, terminal(screen, cache), Some(cache), visible, overlays) == terminal(
            screen,
            overlays.last().frame,
        ),
    decreases overlays.len(),
{
    let overlay = overlays[0];
    let others = overlays.drop_first();
    crate::popup_laws::delta_shows_the_new_frame(terminal, screen, cache, visible, overlay);
    crate::popup_laws::rows_make_up_the_frame(overlay.frame);
    let rows = crate::popup::popup_layout(overlay.frame)->0;
    assert(crate::popup::is_popup_row(rows[0]));
    assert(overlay.frame.len() > 0);
    if others.len() > 0 {
        chain_of_deltas_shows_the_last_frame(terminal, screen, overlay.frame, true, others);
        assert(others.last() == overlays.last());
    } else {
        reveal_with_fuel(refreshed, 2);
        assert(overlays.last() == overlay);
    }
}

/// Discarding what a barrier retires never makes it look as if a replacement were queued.
pub proof fn discarding_brings_no_replacement(
    queue: Seq<ControlView>,
    barrier: u64,
    current: Option<u64>,
)
    requires
        crate::composition::replacement_pending(
            crate::barrier::survivors(queue, barrier),
            current,
        ),
    ensures
        crate::composition::replacement_pending(queue, current),
    decreases queue.len(),
{
    let left = crate::barrier::survivors(queue, barrier);
    let state = current->0;
    let i = choose|i: int|
        0 <= i < left.len() && crate::composition::replaces_overlay(#[trigger] left[i], state);
    if queue.len() > 0 {
        let tail = queue.drop_first();
        let others = crate::barrier::survivors(tail, barrier);
        let kept = crate::barrier::survivor(queue[0], barrier);
        if kept is Some && i == 0 {
            assert(kept == Some(queue[0]) || kept->0 is Write);
            assert(crate::composition::replaces_overlay(queue[0], state));
        } else {
            let j = if kept is Some {
                i - 1
            } else {
                i
            };
            assert(others[j] == left[i]);
            assert(crate::composition::replacement_pending(others, current));
            discarding_brings_no_replacement(tail, barrier, current);
            let k = choose|k: int|
                0 <= k < tail.len() && crate::composition::replaces_overlay(
                    #[trigger] tail[k],
                    state,
                );
            assert(queue[k + 1] == tail[k]);
        }
    }
}

/// An overlay goes with a switch exactly if it persists, draws something, was rendered for the
/// state and for the render generation of the switch, and its own generation is not before the
/// current one.
pub proof fn overlay_goes_with_a_switch_by_its_fields(
    overlay: OverlayView,
    expected: u64,
    render_generation: u64,
    overlay_generation: u64,
)
    ensures
        crate::composition::matches_switch(
            overlay,
            expected,
            render_generation,
            overlay_generation,
        ) <==> {
            &&& overlay.persistent
            &&& overlay.frame.len() > 0
            &&& overlay.persistent_state_id == Some(expected)
            &&& overlay.render_generation == render_generation
            &&& overlay.overlay_generation >= overlay_generation
        },
{
}

/// What is taken for a switch persists, draws something, and has exactly its state and its render
/// generation. It is the first such overlay in the queue, and the only control that leaves it;
/// nothing is taken only where there is none.
pub proof fn taken_overlay_is_the_first_that_fits(
    queue: Seq<ControlView>,
    expected: u64,
    render_generation: u64,
    overlay_generation: u64,
    taken: Option<OverlayView>,
    rest: Seq<ControlView>,
)
    requires
        crate::composition::takes_first_match(
            queue,
            expected,
            render_generation,
            overlay_generation,
            taken,
            rest,
        ),
    ensures
        taken is Some ==> {
            &&& taken->0.persistent
            &&& taken->0.frame.len() > 0
            &&& taken->0.persistent_state_id == Some(expected)
            &&& taken->0.render_generation == render_generation
            &&& taken->0.overlay_generation >= overlay_generation
        },
        taken is Some ==> exists|left: Seq<ControlView>, right: Seq<ControlView>|
            {
                &&& queue == #[trigger] (left + seq![ControlView::Overlay(taken->0)] + right)
                &&& rest == left + right
                &&& forall|j: int|
                    0 <= j < left.len() && (#[trigger] left[j]) is Overlay ==> {
                        let other = left[j]->Overlay_0;
                        ||| !other.persistent
                        ||| other.frame.len() == 0
                        ||| other.persistent_state_id != Some(expected)
                        ||| other.render_generation != render_generation
                        ||| other.overlay_generation < overlay_generation
                    }
            },
        taken is None ==> {
            &&& rest == queue
            &&& forall|j: int|
                0 <= j < queue.len() && (#[trigger] queue[j]) is Overlay ==> {
                    let other = queue[j]->Overlay_0;
                    ||| !other.persistent
                    ||| other.frame.len() == 0
                    ||| other.persistent_state_id != Some(expected)
                    ||| other.render_generation != render_generation
                    ||| other.overlay_generation < overlay_generation
                }
        },
{
    if taken is Some {
        let i = choose|i: int|
            {
                &&& 0 <= i < queue.len()
                &&& #[trigger] queue[i] == ControlView::Overlay(taken->0)
                &&& forall|j: int|
                    0 <= j < i ==> !crate::composition::control_matches_switch(
                        #[trigger] queue[j],
                        expected,
                        render_generation,
                        overlay_generation,
                    )
                &&& rest == queue.remove(i)
            };
        let left = queue.take(i);
        let right = queue.skip(i + 1);
        assert(queue == left + seq![ControlView::Overlay(taken->0)] + right);
        assert(rest == left + right);
        assert forall|j: int| 0 <= j < left.len() && (#[trigger] left[j]) is Overlay implies ({
            let other = left[j]->Overlay_0;
            ||| !other.persistent
            ||| other.frame.len() == 0
            ||| other.persistent_state_id != Some(expected)
            ||| other.render_generation != render_generation
            ||| other.overlay_generation < overlay_generation
        }) by {
            assert(left[j] == queue[j]);
        }
    }
}

/// The overlay for a switch is looked for in what was deferred, then in what the log tells was
/// received: up to the one attempt that found the channel dry, with one release for each control.
pub proof fn taking_covers_what_the_log_tells(
    before: Intake,
    expected: u64,
    render_generation: u64,
    overlay_generation: u64,
    taken: Option<OverlayView>,
    after: Intake,
)
    requires
        crate::composition::takes_in_and_takes_match(
            before,
            expected,
            render_generation,
            overlay_generation,
            taken,
            after,
        ),
    ensures
        after.log.len() > before.log.len(),
        after.log.take(before.log.len() as int) == before.log,
        after.log.last() is None,
        forall|i: int|
            before.log.len() <= i < after.log.len() - 1 ==> (#[trigger] after.log[i]) is Some,
        crate::composition::takes_first_match(
            before.queue + Seq::new(
                (after.log.len() - before.log.len() - 1) as nat,
                |i: int| after.log[before.log.len() + i]->0,
            ),
            expected,
            render_generation,
            overlay_generation,
            taken,
            after.queue,
        ),
        after.counter == before.counter,
        after.releases.len() - before.releases.len() == after.log.len() - before.log.len() - 1,
{
    let received = choose|received: Seq<ControlView>| #[trigger]
        crate::channel::receives(before, received, after)
            && crate::composition::takes_first_match(
            before.queue + received,
            expected,
            render_generation,
            overlay_generation,
            taken,
            after.queue,
        );
    crate::channel_laws::drain_is_in_the_log(before.log, received, after.log);
    assert(received == Seq::new(
        (after.log.len() - before.log.len() - 1) as nat,
        |i: int| after.log[before.log.len() + i]->0,
    ));
}

/// A persistent overlay that draws something is kept in full and on screen, one that draws nothing
/// takes everything away, and neither depends on what was there before.
pub proof fn persistent_overlay_decides_what_is_kept(
    cache: Option<Seq<u8>>,
    visible: bool,
    overlay: OverlayView,
)
    requires
        overlay.persistent,
    ensures
        overlay.frame.len() > 0 ==> crate::composition::cache_after(cache, visible, overlay) == (
            Some(overlay.frame),
            true,
        ),
        overlay.frame.len() == 0 ==> crate::composition::cache_after(cache, visible, overlay) == (
            None::<Seq<u8>>,
            false,
        ),
{
}

/// What is kept is drawn again exactly on a target with an overlay state, while the overlay is on
/// screen; whichever state, title or frame the target has.
pub proof fn kept_frame_is_restored_within_overlay_states(
    cache: Option<Seq<u8>>,
    visible: bool,
    target: TargetView,
)
    ensures
        visible && target.persistent_overlay_state_id is Some
            ==> crate::composition::restored_frame(cache, visible, target) == cache,
        !visible || target.persistent_overlay_state_id is None
            ==> crate::composition::restored_frame(cache, visible, target) is None,
{
}

/// A switch clears the screen if an overlay is on it, if one is kept, if the state of the overlay
/// on it is not the state of the target on it, and if it leaves the overlay state. A switch of
/// which none of this holds never does.
pub proof fn screen_is_cleared_of_overlays_only(
    visible: bool,
    cached: bool,
    on_screen: Option<u64>,
    target: Option<u64>,
    next: Option<u64>,
)
    ensures
        crate::composition::needs_screen_clear(true, cached, on_screen, target, next),
        crate::composition::needs_screen_clear(visible, true, on_screen, target, next),
        on_screen != target ==> crate::composition::needs_screen_clear(
            visible,
            cached,
            on_screen,
            target,
            next,
        ),
        target is Some ==> crate::composition::needs_screen_clear(
            visible,
            cached,
            on_screen,
            target,
            None,
        ),
        !crate::composition::needs_screen_clear(false, false, None, None, next),
        target is Some && next is Some ==> !crate::composition::needs_screen_clear(
            false,
            false,
            target,
            target,
            next,
        ),
{
}

/// Drawing a base frame anew resets the attributes, moves to the top left, erases the screen, and
/// then draws the whole frame; whatever is in it, and also if it is empty.
pub proof fn drawing_anew_clears_then_draws(base: Seq<u8>)
    ensures
        crate::composition::clear_screen() == seq![0x1bu8, 0x5b, 0x30, 0x6d] + seq![
            0x1bu8,
            0x5b,
            0x48,
        ] + seq![0x1bu8, 0x5b, 0x32, 0x4a],
        crate::composition::drawn_anew(base) == seq![0x1bu8, 0x5b, 0x30, 0x6d] + seq![
            0x1bu8,
            0x5b,
            0x48,
        ] + seq![0x1bu8, 0x5b, 0x32, 0x4a] + base,
{
    assert(crate::composition::clear_screen() == seq![0x1bu8, 0x5b, 0x30, 0x6d] + seq![
        0x1bu8,
        0x5b,
        0x48,
    ] + seq![0x1bu8, 0x5b, 0x32, 0x4a]);
}

/// A queued switch makes a replacement pending, wherever it stands and whatever its target; so does
/// a queued persistent overlay that draws something, for no state, for the current one or for any
/// later one.
pub proof fn queued_replacement_is_pending(
    left: Seq<ControlView>,
    control: ControlView,
    right: Seq<ControlView>,
    current: u64,
)
    requires
        control is Switch || {
            &&& control is Overlay
            &&& control->Overlay_0.persistent
            &&& control->Overlay_0.frame.len() > 0
            &&& control->Overlay_0.persistent_state_id is None
                || control->Overlay_0.persistent_state_id->0 >= current
        },
    ensures
        crate::composition::replacement_pending(left + seq![control] + right, Some(current)),
{
    let queue = left + seq![control] + right;
    assert(queue[left.len() as int] == control);
    assert(crate::composition::replaces_overlay(queue[left.len() as int], current));
}

/// A replacement is pending only if there is a current state and one is queued: a switch, or a
/// persistent overlay that draws something and is not for an earlier state.
pub proof fn pending_replacement_is_queued(queue: Seq<ControlView>, current: Option<u64>)
    requires
        crate::composition::replacement_pending(queue, current),
    ensures
        current is Some,
        exists|i: int|
            0 <= i < queue.len() && ((#[trigger] queue[i]) is Switch || {
                &&& queue[i] is Overlay
                &&& queue[i]->Overlay_0.persistent
                &&& queue[i]->Overlay_0.frame.len() > 0
                &&& queue[i]->Overlay_0.persistent_state_id is None
                    || queue[i]->Overlay_0.persistent_state_id->0 >= current->0
            }),
{
    let i = choose|i: int|
        0 <= i < queue.len() && crate::composition::replaces_overlay(
            #[trigger] queue[i],
            current->0,
        );
    assert(queue[i] is Switch || queue[i] is Overlay);
}

/// Taking down an overlay waits for a replacement that is queued, and only for one; what is not to
/// be taken down waits for nothing.
pub proof fn clear_waits_for_a_queued_replacement(
    left: Seq<ControlView>,
    control: ControlView,
    right: Seq<ControlView>,
    current: u64,
    queue: Seq<ControlView>,
    state: Option<u64>,
)
    ensures
        control is Switch || (control is Overlay && control->Overlay_0.persistent
            && control->Overlay_0.frame.len() > 0 && (control->Overlay_0.persistent_state_id is None
            || control->Overlay_0.persistent_state_id->0 >= current))
            ==> crate::composition::defers_clear(
            true,
            left + seq![control] + right,
            Some(current),
        ),
        !crate::composition::defers_clear(false, queue, state),
        !crate::composition::defers_clear(true, queue, None),
        (forall|i: int|
            0 <= i < queue.len() ==> match #[trigger] queue[i] {
                ControlView::Switch(_) => false,
                ControlView::Overlay(overlay) => !overlay.persistent || overlay.frame.len() == 0
                    || (overlay.persistent_state_id is Some && overlay.persistent_state_id->0
                    < current),
                _ => true,
            }) ==> !crate::composition::defers_clear(true, queue, Some(current)),
{
    if control is Switch || (control is Overlay && control->Overlay_0.persistent
        && control->Overlay_0.frame.len() > 0 && (control->Overlay_0.persistent_state_id is None
        || control->Overlay_0.persistent_state_id->0 >= current)) {
        queued_replacement_is_pending(left, control, right, current);
    }
    if crate::composition::defers_clear(true, queue, Some(current)) {
        pending_replacement_is_queued(queue, Some(current));
        let i = choose|i: int|
            0 <= i < queue.len() && ((#[trigger] queue[i]) is Switch || {
                &&& queue[i] is Overlay
                &&& queue[i]->Overlay_0.persistent
                &&& queue[i]->Overlay_0.frame.len() > 0
                &&& queue[i]->Overlay_0.persistent_state_id is None
                    || queue[i]->Overlay_0.persistent_state_id->0 >= current
            });
        assert(queue[i] is Switch || queue[i] is Overlay);
    }
}

} // verus!
