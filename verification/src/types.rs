//! The values that travel through an attached client's control queue, and the mathematical
//! values that contracts speak of.
use vstd::prelude::*;

verus! {

/// The outer-terminal bytes (window title and working directory) rendered for one client.
#[derive(Debug, PartialEq, Eq)]
pub struct RenderedClientTitle {
    pub bytes: Vec<u8>,
}

impl RenderedClientTitle {
    /// The rendered escape sequences; empty when the outer terminal is already up to date.
    pub fn bytes(&self) -> (bytes: &[u8])
        ensures
            bytes@ == self.bytes@,
    {
        self.bytes.as_slice()
    }
}

/// A rendered target that a client is asked to switch to.
#[derive(Debug, PartialEq, Eq)]
pub struct AttachTarget {
    /// The overlay state the frame was rendered for, if an overlay covers it.
    pub persistent_overlay_state_id: Option<u64>,
    /// What the outer terminal is owed together with this frame.
    pub client_title: Option<RenderedClientTitle>,
    /// The bytes that draw the base screen.
    pub render_frame: Vec<u8>,
}

/// The mathematical value of an [`AttachTarget`].
#[verifier::ext_equal]
pub struct TargetView {
    pub persistent_overlay_state_id: Option<u64>,
    pub client_title: Option<Seq<u8>>,
    pub render_frame: Seq<u8>,
}

impl View for AttachTarget {
    type V = TargetView;

    open spec fn view(&self) -> TargetView {
        TargetView {
            persistent_overlay_state_id: self.persistent_overlay_state_id,
            client_title: match self.client_title {
                Some(title) => Some(title.bytes@),
                None => None,
            },
            render_frame: self.render_frame@,
        }
    }
}

/// A place in the control queue for a target; empty once the target has been taken out of it.
#[derive(Debug, PartialEq, Eq)]
pub struct QueuedAttachTarget {
    pub target: Option<AttachTarget>,
}

impl View for QueuedAttachTarget {
    type V = Option<TargetView>;

    open spec fn view(&self) -> Option<TargetView> {
        match self.target {
            Some(target) => Some(target@),
            None => None,
        }
    }
}

/// The target that a client currently shows.
#[derive(Debug, PartialEq, Eq)]
pub struct OpenAttachTarget {
    pub render_frame: Vec<u8>,
}

/// A frame drawn on top of the base screen: a popup, a menu or a transient message.
#[derive(Debug, PartialEq, Eq)]
pub struct OverlayFrame {
    /// The bytes that draw the overlay; empty to take it down.
    pub frame: Vec<u8>,
    /// Whether the overlay stays up across redraws of the base screen.
    pub persistent: bool,
    /// The overlay state that the frame belongs to, if it was rendered for one.
    pub persistent_state_id: Option<u64>,
    pub render_generation: u64,
    pub overlay_generation: u64,
    /// Whether the frame may be reduced to the rows that differ from the frame on screen.
    pub row_diff: bool,
}

/// The mathematical value of an [`OverlayFrame`].
#[verifier::ext_equal]
pub struct OverlayView {
    pub frame: Seq<u8>,
    pub persistent: bool,
    pub persistent_state_id: Option<u64>,
    pub render_generation: u64,
    pub overlay_generation: u64,
    pub row_diff: bool,
}

impl View for OverlayFrame {
    type V = OverlayView;

    open spec fn view(&self) -> OverlayView {
        OverlayView {
            frame: self.frame@,
            persistent: self.persistent,
            persistent_state_id: self.persistent_state_id,
            render_generation: self.render_generation,
            overlay_generation: self.overlay_generation,
            row_diff: self.row_diff,
        }
    }
}

impl OverlayFrame {
    /// A persistent overlay that belongs to no particular overlay state.
    pub fn persistent(frame: Vec<u8>, render_generation: u64, overlay_generation: u64) -> (overlay:
        OverlayFrame)
        ensures
            overlay@ == (OverlayView {
                frame: frame@,
                persistent: true,
                persistent_state_id: None,
                render_generation,
                overlay_generation,
                row_diff: false,
            }),
    {
        OverlayFrame {
            frame,
            persistent: true,
            persistent_state_id: None,
            render_generation,
            overlay_generation,
            row_diff: false,
        }
    }

    /// A persistent overlay rendered for the overlay state `state_id`.
    pub fn persistent_with_state(
        frame: Vec<u8>,
        render_generation: u64,
        overlay_generation: u64,
        state_id: u64,
    ) -> (overlay: OverlayFrame)
        ensures
            overlay@ == (OverlayView {
                frame: frame@,
                persistent: true,
                persistent_state_id: Some(state_id),
                render_generation,
                overlay_generation,
                row_diff: false,
            }),
    {
        OverlayFrame {
            frame,
            persistent: true,
            persistent_state_id: Some(state_id),
            render_generation,
            overlay_generation,
            row_diff: false,
        }
    }

    /// Marks the frame as one that may be reduced to its changed rows.
    pub fn with_row_diff(self) -> (overlay: OverlayFrame)
        ensures
            overlay@ == (OverlayView { row_diff: true, ..self@ }),
    {
        let mut overlay = self;
        overlay.row_diff = true;
        overlay
    }
}

/// One message to an attached client.
#[derive(Debug, PartialEq, Eq)]
pub enum AttachControl {
    /// Draw another target.
    Switch(QueuedAttachTarget),
    /// Draw, replace or take down an overlay.
    Overlay(OverlayFrame),
    /// Write bytes to the outer terminal as they are.
    Write(Vec<u8>),
    /// Retire every frame rendered for an older overlay state.
    AdvancePersistentOverlayState(u64),
    /// Any other message, known by its number; it passes through the queue untouched.
    Other(u64),
}

/// The mathematical value of an [`AttachControl`].
#[verifier::ext_equal]
pub enum ControlView {
    Switch(Option<TargetView>),
    Overlay(OverlayView),
    Write(Seq<u8>),
    AdvancePersistentOverlayState(u64),
    Other(u64),
}

impl View for AttachControl {
    type V = ControlView;

    open spec fn view(&self) -> ControlView {
        match *self {
            AttachControl::Switch(next_target) => ControlView::Switch(next_target@),
            AttachControl::Overlay(overlay) => ControlView::Overlay(overlay@),
            AttachControl::Write(bytes) => ControlView::Write(bytes@),
            AttachControl::AdvancePersistentOverlayState(state_id) =>
                ControlView::AdvancePersistentOverlayState(state_id),
            AttachControl::Other(number) => ControlView::Other(number),
        }
    }
}

/// The mathematical value of a queue of controls, oldest first.
pub open spec fn control_views(controls: Seq<AttachControl>) -> Seq<ControlView> {
    Seq::new(controls.len(), |i: int| controls[i]@)
}

/// The mathematical value of an optional byte string.
pub open spec fn slice_bytes(bytes: Option<&[u8]>) -> Option<Seq<u8>> {
    match bytes {
        Some(bytes) => Some(bytes@),
        None => None,
    }
}

/// The mathematical value of an optional buffer.
pub open spec fn buffer_bytes(bytes: Option<Vec<u8>>) -> Option<Seq<u8>> {
    match bytes {
        Some(bytes) => Some(bytes@),
        None => None,
    }
}

} // verus!
