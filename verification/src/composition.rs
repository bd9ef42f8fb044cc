//! Composing an overlay with the screen below it: which overlay goes with a switch, what is kept
//! to restore it, and when the screen has to be cleared.
use std::collections::VecDeque;

use tokio::sync::mpsc::UnboundedReceiver;
use vstd::prelude::*;

use crate::channel::{receive_pending_controls, ControlBacklog, Intake};
use crate::types::{
    AttachControl, AttachTarget, ControlView, OpenAttachTarget, OverlayFrame, OverlayView,
    TargetView,
};

verus! {

/// Whether an overlay is the one to draw together with a switch to the state
/// `expected_state_id`: persistent, not empty, rendered for that state and that generation, and
/// not older than the overlay on screen.
pub open spec fn matches_switch(
    overlay: OverlayView,
    expected_state_id: u64,
    render_generation: u64,
    current_overlay_generation: u64,
) -> bool {
    &&& overlay.persistent
    &&& overlay.frame.len() > 0
    &&& overlay.persistent_state_id == Some(expected_state_id)
    &&& overlay.render_generation == render_generation
    &&& overlay.overlay_generation >= current_overlay_generation
}

/// Whether a control is the overlay to draw together with a switch.
pub open spec fn control_matches_switch(
    control: ControlView,
    expected_state_id: u64,
    render_generation: u64,
    current_overlay_generation: u64,
) -> bool {
    match control {
        ControlView::Overlay(overlay) => matches_switch(
            overlay,
            expected_state_id,
            render_generation,
            current_overlay_generation,
        ),
        _ => false,
    }
}

/// Whether the first matching overlay was taken out of `queue`, which left `rest`; nothing is
/// taken where none matches.
pub open spec fn takes_first_match(
    queue: Seq<ControlView>,
    expected_state_id: u64,
    render_generation: u64,
    current_overlay_generation: u64,
    taken: Option<OverlayView>,
    rest: Seq<ControlView>,
) -> bool {
    match taken {
        Some(overlay) => exists|i: int|
            {
                &&& 0 <= i < queue.len()
                &&& #[trigger] queue[i] == ControlView::Overlay(overlay)
                &&& matches_switch(
                    overlay,
                    expected_state_id,
                    render_generation,
                    current_overlay_generation,
                )
                &&& forall|j: int|
                    0 <= j < i ==> !control_matches_switch(
                        #[trigger] queue[j],
                        expected_state_id,
                        render_generation,
                        current_overlay_generation,
                    )
                &&& rest == queue.remove(i)
            },
        None => {
            &&& forall|j: int|
                0 <= j < queue.len() ==> !control_matches_switch(
                    #[trigger] queue[j],
                    expected_state_id,
                    render_generation,
                    current_overlay_generation,
                )
            &&& rest == queue
        },
    }
}

/// The mathematical value of an overlay that may be missing.
pub open spec fn overlay_view(overlay: Option<OverlayFrame>) -> Option<OverlayView> {
    match overlay {
        Some(overlay) => Some(overlay@),
        None => None,
    }
}

/// Whether an overlay is the one to draw together with a switch.
pub fn overlay_matches_switch(
    overlay: &OverlayFrame,
    expected_state_id: u64,
    render_generation: u64,
    current_overlay_generation: u64,
) -> (matching: bool)
    ensures
        matching == matches_switch(
            overlay@,
            expected_state_id,
            render_generation,
            current_overlay_generation,
        ),
        matching == (overlay.persistent && overlay.frame@.len() > 0 && overlay.persistent_state_id
            == Some(expected_state_id) && overlay.render_generation == render_generation
            && overlay.overlay_generation >= current_overlay_generation),
{
    let state_matches = match overlay.persistent_state_id {
        Some(state_id) => state_id == expected_state_id,
        None => false,
    };
    overlay.persistent && overlay.frame.len() > 0 && state_matches && overlay.render_generation
        == render_generation && overlay.overlay_generation >= current_overlay_generation
}

/// Takes the first overlay that goes with a switch out of a queue, and leaves everything else in
/// its order.
pub fn take_matching_overlay(
    deferred_controls: &mut VecDeque<AttachControl>,
    expected_state_id: u64,
    render_generation: u64,
    current_overlay_generation: u64,
) -> (taken: Option<OverlayFrame>)
    ensures
        takes_first_match(
            crate::types::control_views(old(deferred_controls)@),
            expected_state_id,
            render_generation,
            current_overlay_generation,
            overlay_view(taken),
            crate::types::control_views(final(deferred_controls)@),
        ),
        taken is Some ==> {
            &&& taken->0.persistent
            &&& taken->0.frame@.len() > 0
            &&& taken->0.persistent_state_id == Some(expected_state_id)
            &&& taken->0.render_generation == render_generation
            &&& taken->0.overlay_generation >= current_overlay_generation
        },
{
    let ghost queue = crate::types::control_views(deferred_controls@);
    let mut i: usize = 0;
    while i < deferred_controls.len()
        invariant
            i <= deferred_controls@.len(),
            queue == crate::types::control_views(deferred_controls@),
            *deferred_controls == *old(deferred_controls),
            forall|j: int|
                0 <= j < i ==> !control_matches_switch(
                    #[trigger] queue[j],
                    expected_state_id,
                    render_generation,
                    current_overlay_generation,
                ),
        decreases deferred_controls.len() - i,
    {
        assert(queue[i as int] == deferred_controls@[i as int]@);
        let matching = match &deferred_controls[i] {
            AttachControl::Overlay(overlay) => overlay_matches_switch(
                overlay,
                expected_state_id,
                render_generation,
                current_overlay_generation,
            ),
            _ => false,
        };
        if matching {
            let taken = deferred_controls.remove(i);
            assert(crate::types::control_views(deferred_controls@) == queue.remove(i as int));
            if let Some(AttachControl::Overlay(overlay)) = taken {
                assert(queue[i as int] == ControlView::Overlay(overlay@));
                return Some(overlay);
            }
            assert(false);
        }
        i += 1;
    }
    None
}

/// Whether everything ready in the channel was taken in, and the first overlay that goes with a
/// switch then taken out of the queue.
pub open spec fn takes_in_and_takes_match(
    before: Intake,
    expected_state_id: u64,
    render_generation: u64,
    current_overlay_generation: u64,
    taken: Option<OverlayView>,
    after: Intake,
) -> bool {
    exists|received: Seq<ControlView>| #[trigger]
        crate::channel::receives(before, received, after) && takes_first_match(
            before.queue + received,
            expected_state_id,
            render_generation,
            current_overlay_generation,
            taken,
            after.queue,
        )
}

/// Takes in everything that is ready in the channel and hands out the overlay that is to be drawn
/// together with a switch to the state `expected_state_id`, if one is queued. A switch to no
/// overlay state goes with none, and leaves the channel and the queue alone.
pub fn take_pending_persistent_overlay_for_state(
    attach_controls: Option<&mut UnboundedReceiver<AttachControl>>,
    deferred_controls: &mut VecDeque<AttachControl>,
    expected_state_id: Option<u64>,
    render_generation: u64,
    current_overlay_generation: u64,
    control_backlog: &mut ControlBacklog<'_>,
) -> (taken: Option<OverlayFrame>)
    ensures
        match expected_state_id {
            Some(expected_state_id) => match attach_controls {
                Some(control_rx) => takes_in_and_takes_match(
                    crate::channel::intake(
                        *control_rx,
                        *old(deferred_controls),
                        *old(control_backlog),
                    ),
                    expected_state_id,
                    render_generation,
                    current_overlay_generation,
                    overlay_view(taken),
                    crate::channel::intake(
                        *final(control_rx),
                        *final(deferred_controls),
                        *final(control_backlog),
                    ),
                ),
                None => {
                    &&& takes_first_match(
                        crate::types::control_views(old(deferred_controls)@),
                        expected_state_id,
                        render_generation,
                        current_overlay_generation,
                        overlay_view(taken),
                        crate::types::control_views(final(deferred_controls)@),
                    )
                    &&& *final(control_backlog) == *old(control_backlog)
                },
            },
            None => {
                &&& taken is None
                &&& *final(deferred_controls) == *old(deferred_controls)
                &&& *final(control_backlog) == *old(control_backlog)
                &&& match attach_controls {
                    Some(control_rx) => *final(control_rx) == *control_rx,
                    None => true,
                }
            },
        },
        taken is Some ==> {
            &&& taken->0.persistent
            &&& taken->0.frame@.len() > 0
            &&& taken->0.persistent_state_id == expected_state_id
            &&& taken->0.render_generation == render_generation
            &&& taken->0.overlay_generation >= current_overlay_generation
        },
{
    let expected_state_id = match expected_state_id {
        Some(expected_state_id) => expected_state_id,
        None => {
            return None;
        },
    };
    match attach_controls {
        Some(control_rx) => {
            let ghost before = crate::channel::intake(
                *control_rx,
                *deferred_controls,
                *control_backlog,
            );
            receive_pending_controls(control_rx, deferred_controls, control_backlog);
            let ghost received = crate::channel::intake(
                *control_rx,
                *deferred_controls,
                *control_backlog,
            );
            let taken = take_matching_overlay(
                deferred_controls,
                expected_state_id,
                render_generation,
                current_overlay_generation,
            );
            proof {
                let first = choose|first: Seq<ControlView>| #[trigger]
                    crate::channel::receives(before, first, received) && received.queue
                        == before.queue + first;
                let after = crate::channel::intake(
                    *control_rx,
                    *deferred_controls,
                    *control_backlog,
                );
                assert(crate::channel::receives(before, first, after));
            }
            taken
        },
        None => take_matching_overlay(
            deferred_controls,
            expected_state_id,
            render_generation,
            current_overlay_generation,
        ),
    }
}

/// What is kept of the overlay on screen, and whether it is on screen, once `overlay` was drawn. A
/// persistent overlay is kept in full, and an empty one takes it down; an overlay that does not
/// persist changes nothing.
pub open spec fn cache_after(
    cache: Option<Seq<u8>>,
    visible: bool,
    overlay: OverlayView,
) -> (Option<Seq<u8>>, bool) {
    if !overlay.persistent {
        (cache, visible)
    } else if overlay.frame.len() == 0 {
        (None, false)
    } else {
        (Some(overlay.frame), true)
    }
}

/// Copies a frame.
fn copy_frame(frame: &Vec<u8>) -> (copy: Vec<u8>)
    ensures
        copy@ == frame@,
{
    vstd::slice::slice_to_vec(frame.as_slice())
}

/// Keeps the full frame of a persistent overlay that was drawn, so that it can be restored.
pub fn update_persistent_overlay_cache(
    cache: &mut Option<Vec<u8>>,
    visible: &mut bool,
    overlay: &OverlayFrame,
)
    ensures
        (crate::types::buffer_bytes(*final(cache)), *final(visible)) == cache_after(
            crate::types::buffer_bytes(*old(cache)),
            *old(visible),
            overlay@,
        ),
{
    if !overlay.persistent {
        return ;
    }
    if overlay.frame.len() == 0 {
        *cache = None;
        *visible = false;
    } else {
        *cache = Some(copy_frame(&overlay.frame));
        *visible = true;
    }
}

/// Whether a switch has to clear the screen first: an overlay is or was on it, what is on it
/// belongs to another overlay state than the target, or the switch leaves the overlay state.
pub open spec fn needs_screen_clear(
    visible: bool,
    cached: bool,
    overlay_state_id: Option<u64>,
    target_state_id: Option<u64>,
    next_state_id: Option<u64>,
) -> bool {
    ||| visible
    ||| cached
    ||| overlay_state_id != target_state_id
    ||| target_state_id is Some && next_state_id is None
}

/// Whether a switch has to clear the screen first: an overlay is or was on it, what is on it
/// belongs to another overlay state than the target, or the switch leaves the overlay state.
pub fn switch_requires_screen_clear(
    persistent_overlay_visible: bool,
    persistent_overlay_cached: bool,
    current_overlay_state_id: Option<u64>,
    current_target_state_id: Option<u64>,
    next_target_state_id: Option<u64>,
) -> (clear: bool)
    ensures
        clear == needs_screen_clear(
            persistent_overlay_visible,
            persistent_overlay_cached,
            current_overlay_state_id,
            current_target_state_id,
            next_target_state_id,
        ),
        clear == (persistent_overlay_visible || persistent_overlay_cached
            || current_overlay_state_id != current_target_state_id || (current_target_state_id
            is Some && next_target_state_id is None)),
{
    let had_persistent_overlay = persistent_overlay_visible || persistent_overlay_cached;
    let stale_persistent_overlay_on_screen = match (
        current_overlay_state_id,
        current_target_state_id,
    ) {
        (Some(overlay_state_id), Some(target_state_id)) => overlay_state_id != target_state_id,
        (None, None) => false,
        _ => true,
    };
    let leaving_persistent_overlay = current_target_state_id.is_some()
        && next_target_state_id.is_none();
    had_persistent_overlay || stale_persistent_overlay_on_screen || leaving_persistent_overlay
}

/// Reset the attributes, move to the top left and erase the screen:
/// `ESC [ 0 m ESC [ H ESC [ 2 J`.
pub open spec fn clear_screen() -> Seq<u8> {
    seq![0x1bu8, 0x5b, 0x30, 0x6d, 0x1b, 0x5b, 0x48, 0x1b, 0x5b, 0x32, 0x4a]
}

/// The bytes that clear the screen and draw a base frame on it.
pub open spec fn drawn_anew(base: Seq<u8>) -> Seq<u8> {
    clear_screen() + base
}

/// The bytes that clear the screen and draw the current target on it.
pub fn clear_then_base_frame(current_target: &OpenAttachTarget) -> (frame: Vec<u8>)
    ensures
        frame@ == drawn_anew(current_target.render_frame@),
        frame@ == clear_screen() + current_target.render_frame@,
{
    let mut frame: Vec<u8> = Vec::new();
    frame.extend_from_slice(
        &[0x1b, 0x5b, 0x30, 0x6d, 0x1b, 0x5b, 0x48, 0x1b, 0x5b, 0x32, 0x4a],
    );
    frame.extend_from_slice(current_target.render_frame.as_slice());
    assert(frame@ == clear_screen() + current_target.render_frame@);
    frame
}

/// The overlay frame to draw again on top of a target: what was kept, if the overlay is on screen
/// and the target has an overlay state.
pub open spec fn restored_frame(
    cache: Option<Seq<u8>>,
    visible: bool,
    target: TargetView,
) -> Option<Seq<u8>> {
    if visible && target.persistent_overlay_state_id is Some {
        cache
    } else {
        None
    }
}

/// The overlay frame to draw again on top of a target: what was kept, if the overlay is on screen
/// and the target has an overlay state.
pub fn replacement_persistent_overlay_frame(
    cache: &Option<Vec<u8>>,
    visible: bool,
    next_target: &AttachTarget,
) -> (frame: Option<Vec<u8>>)
    ensures
        crate::types::buffer_bytes(frame) == restored_frame(
            crate::types::buffer_bytes(*cache),
            visible,
            next_target@,
        ),
{
    if !visible || next_target.persistent_overlay_state_id.is_none() {
        return None;
    }
    match cache {
        Some(cache) => Some(copy_frame(cache)),
        None => None,
    }
}

/// Whether a control is going to replace the overlay on screen: any switch, and a persistent
/// overlay that draws something and is not older than the current state.
pub open spec fn replaces_overlay(control: ControlView, current_state_id: u64) -> bool {
    match control {
        ControlView::Switch(_) => true,
        ControlView::Overlay(overlay) => overlay.persistent && overlay.frame.len() > 0
            && !crate::barrier::is_stale_overlay(Some(current_state_id), overlay),
        _ => false,
    }
}

/// Whether something that is going to replace the overlay on screen is queued.
pub open spec fn replacement_pending(
    queue: Seq<ControlView>,
    current_state_id: Option<u64>,
) -> bool {
    match current_state_id {
        Some(current_state_id) => exists|i: int|
            0 <= i < queue.len() && replaces_overlay(#[trigger] queue[i], current_state_id),
        None => false,
    }
}

/// Whether something that is going to replace the overlay on screen is queued. Without an overlay
/// state there is nothing to replace.
pub fn persistent_overlay_replacement_pending(
    controls: &VecDeque<AttachControl>,
    current_state_id: Option<u64>,
) -> (pending: bool)
    ensures
        pending == replacement_pending(
            crate::types::control_views(controls@),
            current_state_id,
        ),
{
    let current = match current_state_id {
        Some(current) => current,
        None => {
            return false;
        },
    };
    let ghost queue = crate::types::control_views(controls@);
    let mut i: usize = 0;
    while i < controls.len()
        invariant
            i <= controls@.len(),
            queue == crate::types::control_views(controls@),
            current_state_id == Some(current),
            forall|j: int| 0 <= j < i ==> !replaces_overlay(#[trigger] queue[j], current),
        decreases controls.len() - i,
    {
        assert(queue[i as int] == controls@[i as int]@);
        let replaces = match &controls[i] {
            AttachControl::Switch(_) => true,
            AttachControl::Overlay(overlay) => {
                let not_stale = match overlay.persistent_state_id {
                    Some(state_id) => state_id >= current,
                    None => true,
                };
                overlay.persistent && overlay.frame.len() > 0 && not_stale
            },
            _ => false,
        };
        if replaces {
            assert(replaces_overlay(queue[i as int], current));
            return true;
        }
        i += 1;
    }
    false
}

/// Whether taking down an overlay can wait, because its replacement is already queued.
pub open spec fn defers_clear(
    persistent_clear: bool,
    queue: Seq<ControlView>,
    current_state_id: Option<u64>,
) -> bool {
    persistent_clear && replacement_pending(queue, current_state_id)
}

/// Whether taking down an overlay can wait, because its replacement is already queued.
pub fn defer_persistent_clear(
    persistent_clear: bool,
    controls: &VecDeque<AttachControl>,
    current_state_id: Option<u64>,
) -> (deferred: bool)
    ensures
        deferred == defers_clear(
            persistent_clear,
            crate::types::control_views(controls@),
            current_state_id,
        ),
        deferred == (persistent_clear && replacement_pending(
            crate::types::control_views(controls@),
            current_state_id,
        )),
{
    persistent_clear && persistent_overlay_replacement_pending(controls, current_state_id)
}

} // verus!
