//! Persistent overlays (popups and menus) of an attached terminal client.
//!
//! A client is driven by a queue of controls: draw another target, draw an overlay, write bytes,
//! or retire everything rendered for an older overlay state. The crate decides what of that queue
//! still reaches the screen, which overlay is drawn together with which target, what is kept to
//! restore an overlay later, and how little of a popup has to be drawn again.
//!
//! - [`types`]: the controls, frames and targets, and their mathematical values.
//! - [`channel`]: receiving controls, and the count of controls not yet received.
//! - [`barrier`]: overlay states, barriers, and discarding what they retire.
//! - [`replay`]: the bytes that a queue puts on the outer terminal.
//! - [`composition`]: overlays and the screen below them.
//! - [`popup`]: the rows of a popup frame, and the delta between two frames.
//! - [`bytes`]: searching and reading byte strings.
//! - [`barrier_laws`], [`bytes_laws`], [`channel_laws`], [`composition_laws`], [`popup_laws`],
//!   [`replay_laws`]: what holds of all inputs, and across functions.
//! - [`view_laws`]: that the mathematical values leave nothing out.
pub mod barrier;
pub mod barrier_laws;
pub mod bytes;
pub mod bytes_laws;
pub mod channel;
pub mod channel_laws;
pub mod composition;
pub mod composition_laws;
pub mod popup;
pub mod popup_laws;
pub mod replay;
pub mod replay_laws;
pub mod types;
pub mod view_laws;

pub use barrier::{
    accept_persistent_overlay_state, advance_persistent_overlay_state, discard_stale_controls,
    discard_stale_persistent_overlays, is_stale_persistent_switch,
    prime_persistent_overlay_barriers, salvaged_client_title_control, take_overlay_barriers,
    undelivered_client_title_bytes,
};
pub use channel::{
    backlog_after_release, receive_pending_controls, try_recv_attach_control, ControlBacklog,
};
pub use composition::{
    clear_then_base_frame, defer_persistent_clear, overlay_matches_switch,
    persistent_overlay_replacement_pending, replacement_persistent_overlay_frame,
    switch_requires_screen_clear, take_matching_overlay,
    take_pending_persistent_overlay_for_state, update_persistent_overlay_cache,
};
pub use popup::{popup_frame_delta, popup_rows};
pub use replay::{client_visible_payloads, replay_client_visible_payloads};
pub use types::{
    AttachControl, AttachTarget, OpenAttachTarget, OverlayFrame, QueuedAttachTarget,
    RenderedClientTitle,
};
