//! The mathematical values tell everything that the values hold.
use vstd::prelude::*;

use crate::types::{AttachControl, AttachTarget, OverlayFrame, QueuedAttachTarget};

verus! {

/// The value of a target tells its state, its title bytes and its frame.
pub proof fn target_view_tells_everything(target: AttachTarget)
    ensures
        target@.persistent_overlay_state_id == target.persistent_overlay_state_id,
        target@.render_frame == target.render_frame@,
        target.client_title is Some ==> target@.client_title == Some(target.client_title->0.bytes@),
        target.client_title is None ==> target@.client_title is None,
{
}

/// The value of a place in the queue tells the target in it.
pub proof fn queued_target_view_tells_everything(queued: QueuedAttachTarget)
    ensures
        queued.target is Some ==> queued@ == Some(queued.target->0@),
        queued.target is None ==> queued@ is None,
{
}

/// The value of an overlay tells its frame and all of its fields.
pub proof fn overlay_view_tells_everything(overlay: OverlayFrame)
    ensures
        overlay@.frame == overlay.frame@,
        overlay@.persistent == overlay.persistent,
        overlay@.persistent_state_id == overlay.persistent_state_id,
        overlay@.render_generation == overlay.render_generation,
        overlay@.overlay_generation == overlay.overlay_generation,
        overlay@.row_diff == overlay.row_diff,
        crate::composition::overlay_view(Some(overlay)) == Some(overlay@),
        crate::composition::overlay_view(None) is None,
{
}

/// The value of a control tells which one it is and what it carries: two controls with the same
/// value are of one kind and carry the same.
pub proof fn control_view_tells_everything(left: AttachControl, right: AttachControl)
    requires
        left@ == right@,
    ensures
        left is Switch <==> right is Switch,
        left is Overlay <==> right is Overlay,
        left is Write <==> right is Write,
        left is AdvancePersistentOverlayState <==> right is AdvancePersistentOverlayState,
        left is Other <==> right is Other,
        left is Switch ==> left->Switch_0@ == right->Switch_0@,
        left is Overlay ==> left->Overlay_0@ == right->Overlay_0@,
        left is Write ==> left->Write_0@ == right->Write_0@,
        left is AdvancePersistentOverlayState ==> left == right,
        left is Other ==> left == right,
        left is Switch ==> left@ == crate::types::ControlView::Switch(left->Switch_0@),
        left is Overlay ==> left@ == crate::types::ControlView::Overlay(left->Overlay_0@),
        left is Write ==> left@ == crate::types::ControlView::Write(left->Write_0@),
        left is AdvancePersistentOverlayState ==> left@
            == crate::types::ControlView::AdvancePersistentOverlayState(
            left->AdvancePersistentOverlayState_0,
        ),
        left is Other ==> left@ == crate::types::ControlView::Other(left->Other_0),
{
}

/// The value of a queue tells each control in its place, and so does that of a list of payloads.
pub proof fn queue_view_tells_everything(
    controls: Seq<AttachControl>,
    payloads: Seq<Vec<u8>>,
    i: int,
)
    ensures
        crate::types::control_views(controls).len() == controls.len(),
        0 <= i < controls.len() ==> crate::types::control_views(controls)[i] == controls[i]@,
        crate::replay::payload_views(payloads).len() == payloads.len(),
        0 <= i < payloads.len() ==> crate::replay::payload_views(payloads)[i] == payloads[i]@,
{
}

/// The value of optional bytes tells whether there are any, and which.
pub proof fn optional_bytes_view_tells_everything(slice: &[u8], buffer: Vec<u8>)
    ensures
        crate::types::slice_bytes(Some(slice)) == Some(slice@),
        crate::types::slice_bytes(None) is None,
        crate::types::buffer_bytes(Some(buffer)) == Some(buffer@),
        crate::types::buffer_bytes(None) is None,
{
}

/// The view of a list of payloads is the list of all their bytes, one by one, and that of an
/// overlay that may be missing is the view of the overlay.
pub proof fn payload_view_tells_everything(payloads: Seq<Vec<u8>>, overlay: OverlayFrame)
    ensures
        crate::replay::payload_views(payloads).len() == payloads.len(),
        forall|i: int|
            0 <= i < payloads.len() ==> #[trigger] crate::replay::payload_views(payloads)[i]
                == payloads[i]@,
        crate::composition::overlay_view(Some(overlay)) == Some(overlay@),
        crate::composition::overlay_view(None) is None,
{
}

} // verus!
