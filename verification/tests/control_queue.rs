use std::collections::VecDeque;
use std::sync::atomic::{AtomicUsize, Ordering};

use persistent_overlay::{
    accept_persistent_overlay_state, advance_persistent_overlay_state, backlog_after_release,
    clear_then_base_frame, client_visible_payloads, defer_persistent_clear, discard_stale_controls,
    discard_stale_persistent_overlays, is_stale_persistent_switch, overlay_matches_switch,
    persistent_overlay_replacement_pending, prime_persistent_overlay_barriers,
    receive_pending_controls, replacement_persistent_overlay_frame, replay_client_visible_payloads,
    salvaged_client_title_control, switch_requires_screen_clear, take_matching_overlay,
    take_overlay_barriers, take_pending_persistent_overlay_for_state, try_recv_attach_control,
    undelivered_client_title_bytes, update_persistent_overlay_cache, AttachControl, AttachTarget,
    ControlBacklog, OpenAttachTarget, OverlayFrame, QueuedAttachTarget, RenderedClientTitle,
};
use tokio::sync::mpsc;
use tokio::sync::mpsc::error::TryRecvError;

fn target(state_id: Option<u64>, title: Option<&[u8]>, frame: &[u8]) -> AttachTarget {
    AttachTarget {
        persistent_overlay_state_id: state_id,
        client_title: title.map(|bytes| RenderedClientTitle {
            bytes: bytes.to_vec(),
        }),
        render_frame: frame.to_vec(),
    }
}

fn switch(state_id: Option<u64>, title: Option<&[u8]>, frame: &[u8]) -> AttachControl {
    AttachControl::Switch(QueuedAttachTarget {
        target: Some(target(state_id, title, frame)),
    })
}

fn overlay(state_id: Option<u64>, frame: &[u8]) -> AttachControl {
    AttachControl::Overlay(overlay_frame(state_id, frame))
}

fn overlay_frame(state_id: Option<u64>, frame: &[u8]) -> OverlayFrame {
    match state_id {
        Some(state_id) => OverlayFrame::persistent_with_state(frame.to_vec(), 2, 4, state_id),
        None => OverlayFrame::persistent(frame.to_vec(), 2, 4),
    }
}

fn write(bytes: &[u8]) -> AttachControl {
    AttachControl::Write(bytes.to_vec())
}

#[test]
fn pending_overlay_for_state_is_removed_for_frame_composition() {
    let mut controls = VecDeque::from([
        AttachControl::Write(b"before".to_vec()),
        AttachControl::Overlay(OverlayFrame::persistent_with_state(
            b"MENU".to_vec(),
            2,
            4,
            9,
        )),
        AttachControl::Write(b"after".to_vec()),
    ]);

    let control_backlog = AtomicUsize::new(0);
    let overlay = take_pending_persistent_overlay_for_state(
        None,
        &mut controls,
        Some(9),
        2,
        0,
        &mut ControlBacklog::new(&control_backlog),
    )
    .expect("matching overlay");

    assert_eq!(overlay.frame, b"MENU");
    assert_eq!(controls.len(), 2);
    assert!(matches!(
        controls.pop_front(),
        Some(AttachControl::Write(_))
    ));
    assert!(matches!(
        controls.pop_front(),
        Some(AttachControl::Write(_))
    ));
}

#[test]
fn pending_overlay_for_state_keeps_nonmatching_controls() {
    let mut controls = VecDeque::from([AttachControl::Overlay(
        OverlayFrame::persistent_with_state(b"OLD".to_vec(), 1, 4, 8),
    )]);

    let control_backlog = AtomicUsize::new(0);
    let overlay = take_pending_persistent_overlay_for_state(
        None,
        &mut controls,
        Some(9),
        2,
        0,
        &mut ControlBacklog::new(&control_backlog),
    );

    assert!(overlay.is_none());
    assert_eq!(controls.len(), 1);
}

#[test]
fn plain_refresh_without_overlay_does_not_clear_the_screen() {
    assert!(!switch_requires_screen_clear(
        false, false, None, None, None,
    ));
}

#[test]
fn zero_overlay_barrier_is_ignored_as_initial_sentinel() {
    let mut current_state_id = None;
    let mut controls = VecDeque::new();

    let control_backlog = AtomicUsize::new(0);
    advance_persistent_overlay_state(
        &mut current_state_id,
        None,
        &mut controls,
        0,
        &mut ControlBacklog::new(&control_backlog),
    );

    assert_eq!(current_state_id, None);
}

#[test]
fn priming_overlay_barriers_decrements_received_control_backlog() {
    let (tx, mut rx) = mpsc::unbounded_channel();
    tx.send(AttachControl::AdvancePersistentOverlayState(7))
        .expect("control send succeeds");
    let control_backlog = AtomicUsize::new(1);
    let mut current_state_id = None;
    let mut controls = VecDeque::new();

    prime_persistent_overlay_barriers(
        &mut current_state_id,
        Some(&mut rx),
        &mut controls,
        &mut ControlBacklog::new(&control_backlog),
    );

    assert_eq!(current_state_id, Some(7));
    assert_eq!(control_backlog.load(Ordering::Acquire), 0);
}

#[test]
fn leaving_or_replacing_persistent_overlay_clears_the_screen() {
    assert!(switch_requires_screen_clear(
        true,
        false,
        Some(7),
        Some(7),
        None,
    ));
    assert!(switch_requires_screen_clear(
        false,
        true,
        Some(7),
        Some(7),
        Some(8),
    ));
}

#[test]
fn stale_persistent_overlay_state_clears_the_screen() {
    assert!(switch_requires_screen_clear(
        false,
        false,
        Some(8),
        Some(7),
        Some(8),
    ));
}

#[test]
fn switching_within_or_out_of_a_state_decides_on_the_clear() {
    assert!(!switch_requires_screen_clear(
        false,
        false,
        Some(7),
        Some(7),
        Some(8),
    ));
    assert!(switch_requires_screen_clear(
        false,
        false,
        Some(7),
        Some(7),
        None,
    ));
    assert!(switch_requires_screen_clear(
        false,
        false,
        None,
        Some(7),
        Some(7),
    ));
    assert!(!switch_requires_screen_clear(
        false,
        false,
        None,
        None,
        Some(7),
    ));
}

#[test]
fn receiving_takes_a_control_off_the_backlog() {
    let (tx, mut rx) = mpsc::unbounded_channel();
    tx.send(write(b"one")).unwrap();
    let control_backlog = AtomicUsize::new(5);
    assert_eq!(
        try_recv_attach_control(&mut rx, &mut ControlBacklog::new(&control_backlog)),
        Ok(write(b"one"))
    );
    assert_eq!(control_backlog.load(Ordering::Acquire), 4);
    assert_eq!(
        try_recv_attach_control(&mut rx, &mut ControlBacklog::new(&control_backlog)),
        Err(TryRecvError::Empty)
    );
    drop(tx);
    assert_eq!(
        try_recv_attach_control(&mut rx, &mut ControlBacklog::new(&control_backlog)),
        Err(TryRecvError::Disconnected)
    );
    assert_eq!(control_backlog.load(Ordering::Acquire), 4);
}

#[test]
fn receiving_appends_in_order_and_never_wraps_the_backlog() {
    let (tx, mut rx) = mpsc::unbounded_channel();
    tx.send(write(b"two")).unwrap();
    tx.send(AttachControl::Other(3)).unwrap();
    let control_backlog = AtomicUsize::new(1);
    let mut controls = VecDeque::from([write(b"one")]);
    receive_pending_controls(&mut rx, &mut controls, &mut ControlBacklog::new(&control_backlog));
    assert_eq!(
        controls,
        [write(b"one"), write(b"two"), AttachControl::Other(3)]
    );
    assert_eq!(control_backlog.load(Ordering::Acquire), 0);
    assert_eq!(backlog_after_release(0), None);
    assert_eq!(backlog_after_release(5), Some(4));
}

#[test]
fn staleness_compares_known_states_only() {
    assert!(is_stale_persistent_switch(
        Some(5),
        &target(Some(4), None, b"")
    ));
    assert!(!is_stale_persistent_switch(
        Some(5),
        &target(Some(5), None, b"")
    ));
    assert!(!is_stale_persistent_switch(None, &target(Some(4), None, b"")));
    assert!(!is_stale_persistent_switch(Some(5), &target(None, None, b"")));
}

#[test]
fn title_bytes_are_owed_unless_empty() {
    assert_eq!(
        undelivered_client_title_bytes(&target(None, Some(b"title"), b"")),
        Some(&b"title"[..])
    );
    assert_eq!(
        undelivered_client_title_bytes(&target(None, Some(b""), b"")),
        None
    );
    assert_eq!(undelivered_client_title_bytes(&target(None, None, b"")), None);
    assert_eq!(
        salvaged_client_title_control(&QueuedAttachTarget {
            target: Some(target(None, Some(b"title"), b"frame"))
        }),
        Some(write(b"title"))
    );
    assert_eq!(
        salvaged_client_title_control(&QueuedAttachTarget { target: None }),
        None
    );
}

#[test]
fn discarding_keeps_owed_titles_in_their_place() {
    let mut controls = VecDeque::from([
        write(b"first"),
        switch(Some(4), Some(b"title"), b"stale"),
        overlay(Some(4), b"stale"),
        switch(Some(3), Some(b""), b"stale"),
        switch(Some(5), Some(b"kept"), b"fresh"),
        overlay(Some(5), b"fresh"),
        overlay(None, b"stateless"),
        switch(None, None, b"stateless"),
        AttachControl::Switch(QueuedAttachTarget { target: None }),
        AttachControl::AdvancePersistentOverlayState(2),
        AttachControl::Other(1),
    ]);
    discard_stale_controls(&mut controls, 5);
    let expected = [
        write(b"first"),
        write(b"title"),
        switch(Some(5), Some(b"kept"), b"fresh"),
        overlay(Some(5), b"fresh"),
        overlay(None, b"stateless"),
        switch(None, None, b"stateless"),
        AttachControl::Switch(QueuedAttachTarget { target: None }),
        AttachControl::AdvancePersistentOverlayState(2),
        AttachControl::Other(1),
    ];
    assert_eq!(controls, expected);
    discard_stale_controls(&mut controls, 5);
    discard_stale_controls(&mut controls, 4);
    assert_eq!(controls, expected);
}

#[test]
fn earlier_barrier_makes_no_difference_to_a_later_one() {
    let queue = || {
        VecDeque::from([
            switch(Some(2), Some(b"two"), b"2"),
            switch(Some(4), Some(b"four"), b"4"),
            switch(Some(6), Some(b"six"), b"6"),
            overlay(Some(3), b"3"),
        ])
    };
    let mut in_turn = queue();
    discard_stale_controls(&mut in_turn, 3);
    discard_stale_controls(&mut in_turn, 5);
    let mut at_once = queue();
    discard_stale_controls(&mut at_once, 5);
    assert_eq!(in_turn, at_once);
    assert_eq!(
        at_once,
        [
            write(b"two"),
            write(b"four"),
            switch(Some(6), Some(b"six"), b"6")
        ]
    );
}

#[test]
fn discarding_covers_what_is_still_in_the_channel() {
    let (tx, mut rx) = mpsc::unbounded_channel();
    tx.send(overlay(Some(1), b"stale")).unwrap();
    tx.send(switch(Some(1), Some(b"owed"), b"stale")).unwrap();
    tx.send(overlay(Some(2), b"fresh")).unwrap();
    let control_backlog = AtomicUsize::new(4);
    let mut controls = VecDeque::from([overlay(Some(1), b"older"), write(b"kept")]);
    discard_stale_persistent_overlays(
        Some(&mut rx),
        &mut controls,
        2,
        &mut ControlBacklog::new(&control_backlog),
    );
    assert_eq!(
        controls,
        [write(b"kept"), write(b"owed"), overlay(Some(2), b"fresh")]
    );
    assert_eq!(control_backlog.load(Ordering::Acquire), 1);
}

#[test]
fn discarding_without_a_channel_covers_the_queue_only() {
    let control_backlog = AtomicUsize::new(4);
    let mut controls = VecDeque::from([overlay(Some(1), b"older"), write(b"kept")]);
    discard_stale_persistent_overlays(
        None,
        &mut controls,
        2,
        &mut ControlBacklog::new(&control_backlog),
    );
    assert_eq!(controls, [write(b"kept")]);
    assert_eq!(control_backlog.load(Ordering::Acquire), 4);
}

#[test]
fn barrier_behind_the_state_leaves_the_channel_alone() {
    let (tx, mut rx) = mpsc::unbounded_channel();
    tx.send(write(b"waiting")).unwrap();
    let control_backlog = AtomicUsize::new(1);
    let mut current_state_id = Some(6);
    let mut controls = VecDeque::from([overlay(Some(1), b"old")]);
    advance_persistent_overlay_state(
        &mut current_state_id,
        Some(&mut rx),
        &mut controls,
        5,
        &mut ControlBacklog::new(&control_backlog),
    );
    assert_eq!(current_state_id, Some(6));
    assert_eq!(controls, [overlay(Some(1), b"old")]);
    assert_eq!(control_backlog.load(Ordering::Acquire), 1);
    assert_eq!(rx.try_recv(), Ok(write(b"waiting")));
}

#[test]
fn barrier_moves_the_state_forward_and_discards() {
    let (tx, mut rx) = mpsc::unbounded_channel();
    tx.send(overlay(Some(6), b"stale")).unwrap();
    tx.send(overlay(Some(7), b"fresh")).unwrap();
    let control_backlog = AtomicUsize::new(2);
    let mut current_state_id = Some(6);
    let mut controls = VecDeque::from([overlay(Some(5), b"stale")]);
    advance_persistent_overlay_state(
        &mut current_state_id,
        Some(&mut rx),
        &mut controls,
        7,
        &mut ControlBacklog::new(&control_backlog),
    );
    assert_eq!(current_state_id, Some(7));
    assert_eq!(controls, [overlay(Some(7), b"fresh")]);
    assert_eq!(control_backlog.load(Ordering::Acquire), 0);
    // The same barrier again confirms the state.
    advance_persistent_overlay_state(
        &mut current_state_id,
        None,
        &mut controls,
        7,
        &mut ControlBacklog::new(&control_backlog),
    );
    assert_eq!(current_state_id, Some(7));
    assert_eq!(controls.len(), 1);
}

#[test]
fn barriers_are_taken_out_and_the_latest_is_told() {
    let mut controls = VecDeque::from([
        AttachControl::AdvancePersistentOverlayState(3),
        write(b"one"),
        AttachControl::AdvancePersistentOverlayState(9),
        write(b"two"),
        AttachControl::AdvancePersistentOverlayState(5),
    ]);
    assert_eq!(take_overlay_barriers(&mut controls), Some(9));
    assert_eq!(controls, [write(b"one"), write(b"two")]);
    assert_eq!(take_overlay_barriers(&mut controls), None);
    assert_eq!(controls, [write(b"one"), write(b"two")]);
}

#[test]
fn priming_applies_the_latest_barrier_to_what_came_before_it() {
    let (tx, mut rx) = mpsc::unbounded_channel();
    tx.send(switch(Some(6), Some(b"title"), b"stale")).unwrap();
    tx.send(AttachControl::AdvancePersistentOverlayState(8))
        .unwrap();
    tx.send(AttachControl::AdvancePersistentOverlayState(7))
        .unwrap();
    tx.send(overlay(Some(7), b"stale")).unwrap();
    tx.send(overlay(Some(8), b"fresh")).unwrap();
    let control_backlog = AtomicUsize::new(9);
    let mut current_state_id = Some(2);
    let mut controls = VecDeque::from([overlay(Some(3), b"stale")]);
    prime_persistent_overlay_barriers(
        &mut current_state_id,
        Some(&mut rx),
        &mut controls,
        &mut ControlBacklog::new(&control_backlog),
    );
    assert_eq!(current_state_id, Some(8));
    assert_eq!(controls, [write(b"title"), overlay(Some(8), b"fresh")]);
    assert_eq!(control_backlog.load(Ordering::Acquire), 4);
}

#[test]
fn priming_drops_barriers_behind_the_state() {
    let (tx, mut rx) = mpsc::unbounded_channel();
    tx.send(AttachControl::AdvancePersistentOverlayState(4))
        .unwrap();
    tx.send(overlay(Some(3), b"kept")).unwrap();
    let control_backlog = AtomicUsize::new(2);
    let mut current_state_id = Some(5);
    let mut controls = VecDeque::new();
    prime_persistent_overlay_barriers(
        &mut current_state_id,
        Some(&mut rx),
        &mut controls,
        &mut ControlBacklog::new(&control_backlog),
    );
    assert_eq!(current_state_id, Some(5));
    assert_eq!(controls, [overlay(Some(3), b"kept")]);
}

#[test]
fn priming_without_a_channel_does_nothing() {
    let control_backlog = AtomicUsize::new(2);
    let mut current_state_id = Some(5);
    let mut controls = VecDeque::from([AttachControl::AdvancePersistentOverlayState(9)]);
    prime_persistent_overlay_barriers(
        &mut current_state_id,
        None,
        &mut controls,
        &mut ControlBacklog::new(&control_backlog),
    );
    assert_eq!(current_state_id, Some(5));
    assert_eq!(
        controls,
        [AttachControl::AdvancePersistentOverlayState(9)]
    );
    assert_eq!(control_backlog.load(Ordering::Acquire), 2);
}

#[test]
fn overlays_are_accepted_unless_older_than_the_state() {
    let mut current_state_id = None;
    let accept = |current: &mut Option<u64>, state_id: Option<u64>| {
        accept_persistent_overlay_state(current, &overlay_frame(state_id, b"x"))
    };
    assert!(accept(&mut current_state_id, None));
    assert_eq!(current_state_id, None);
    assert!(accept(&mut current_state_id, Some(4)));
    assert_eq!(current_state_id, Some(4));
    assert!(!accept(&mut current_state_id, Some(3)));
    assert_eq!(current_state_id, Some(4));
    assert!(accept(&mut current_state_id, Some(4)));
    assert!(accept(&mut current_state_id, None));
    assert!(accept(&mut current_state_id, Some(6)));
    assert_eq!(current_state_id, Some(6));
}

#[test]
fn replay_shows_what_the_client_draws() {
    let (tx, mut rx) = mpsc::unbounded_channel();
    tx.send(switch(Some(1), Some(b"title"), b"stale")).unwrap();
    tx.send(switch(Some(1), None, b"stale")).unwrap();
    tx.send(overlay(Some(2), b"overlay")).unwrap();
    tx.send(AttachControl::AdvancePersistentOverlayState(2))
        .unwrap();
    tx.send(switch(Some(2), Some(b"ignored"), b"fresh"))
        .unwrap();
    tx.send(write(b"bytes")).unwrap();
    tx.send(AttachControl::Switch(QueuedAttachTarget { target: None }))
        .unwrap();
    assert_eq!(
        replay_client_visible_payloads(&mut rx),
        vec![b"title".to_vec(), b"fresh".to_vec(), b"bytes".to_vec()]
    );
    assert_eq!(rx.try_recv(), Err(TryRecvError::Empty));
    assert!(replay_client_visible_payloads(&mut rx).is_empty());
}

#[test]
fn discarding_beforehand_shows_the_same() {
    let queue = || {
        VecDeque::from([
            switch(Some(1), Some(b"title"), b"stale"),
            overlay(Some(1), b"overlay"),
            switch(Some(2), Some(b"other"), b"fresh"),
            switch(Some(0), None, b"stale"),
        ])
    };
    let mut cleared = queue();
    discard_stale_controls(&mut cleared, 2);
    let shown = client_visible_payloads(Some(2), cleared);
    assert_eq!(shown, vec![b"title".to_vec(), b"fresh".to_vec()]);
    assert_eq!(shown, client_visible_payloads(Some(2), queue()));
}

#[test]
fn overlay_goes_with_a_switch_only_if_everything_fits() {
    let fitting = overlay_frame(Some(9), b"MENU");
    assert!(overlay_matches_switch(&fitting, 9, 2, 4));
    assert!(overlay_matches_switch(&fitting, 9, 2, 0));
    assert!(!overlay_matches_switch(&fitting, 8, 2, 4));
    assert!(!overlay_matches_switch(&fitting, 9, 3, 4));
    assert!(!overlay_matches_switch(&fitting, 9, 2, 5));
    assert!(!overlay_matches_switch(&overlay_frame(Some(9), b""), 9, 2, 4));
    assert!(!overlay_matches_switch(&overlay_frame(None, b"MENU"), 9, 2, 4));
    let mut transient = overlay_frame(Some(9), b"MENU");
    transient.persistent = false;
    assert!(!overlay_matches_switch(&transient, 9, 2, 4));
}

#[test]
fn first_of_several_matching_overlays_is_taken() {
    let mut controls = VecDeque::from([
        overlay(Some(8), b"other"),
        overlay(Some(9), b"first"),
        write(b"between"),
        overlay(Some(9), b"second"),
    ]);
    let taken = take_matching_overlay(&mut controls, 9, 2, 0).unwrap();
    assert_eq!(taken.frame, b"first");
    assert_eq!(
        controls,
        [
            overlay(Some(8), b"other"),
            write(b"between"),
            overlay(Some(9), b"second")
        ]
    );
    discard_stale_controls(&mut controls, 10);
    assert_eq!(take_matching_overlay(&mut controls, 9, 2, 0), None);
    assert_eq!(controls, [write(b"between")]);
}

#[test]
fn overlay_for_a_switch_is_looked_for_in_the_channel_too() {
    let (tx, mut rx) = mpsc::unbounded_channel();
    tx.send(write(b"queued")).unwrap();
    tx.send(overlay(Some(9), b"MENU")).unwrap();
    let control_backlog = AtomicUsize::new(2);
    let mut controls = VecDeque::new();
    assert_eq!(
        take_pending_persistent_overlay_for_state(
            Some(&mut rx),
            &mut controls,
            None,
            2,
            0,
            &mut ControlBacklog::new(&control_backlog),
        ),
        None
    );
    assert!(controls.is_empty());
    assert_eq!(control_backlog.load(Ordering::Acquire), 2);
    let taken = take_pending_persistent_overlay_for_state(
        Some(&mut rx),
        &mut controls,
        Some(9),
        2,
        0,
        &mut ControlBacklog::new(&control_backlog),
    );
    assert_eq!(taken, Some(overlay_frame(Some(9), b"MENU")));
    assert_eq!(controls, [write(b"queued")]);
    assert_eq!(control_backlog.load(Ordering::Acquire), 0);
}

#[test]
fn cache_follows_persistent_overlays_only() {
    let mut cache = None;
    let mut visible = false;
    update_persistent_overlay_cache(&mut cache, &mut visible, &overlay_frame(None, b"popup"));
    assert_eq!((cache.as_deref(), visible), (Some(&b"popup"[..]), true));
    let mut message = overlay_frame(None, b"message");
    message.persistent = false;
    update_persistent_overlay_cache(&mut cache, &mut visible, &message);
    assert_eq!((cache.as_deref(), visible), (Some(&b"popup"[..]), true));
    assert_eq!(
        replacement_persistent_overlay_frame(&cache, visible, &target(Some(1), None, b"")),
        Some(b"popup".to_vec())
    );
    assert_eq!(
        replacement_persistent_overlay_frame(&cache, visible, &target(None, None, b"")),
        None
    );
    assert_eq!(
        replacement_persistent_overlay_frame(&cache, false, &target(Some(1), None, b"")),
        None
    );
    update_persistent_overlay_cache(&mut cache, &mut visible, &overlay_frame(None, b""));
    assert_eq!((cache.as_deref(), visible), (None, false));
    assert_eq!(
        replacement_persistent_overlay_frame(&cache, true, &target(Some(1), None, b"")),
        None
    );
}

#[test]
fn clearing_comes_before_the_base_frame() {
    let open = OpenAttachTarget {
        render_frame: b"base".to_vec(),
    };
    assert_eq!(clear_then_base_frame(&open), b"\x1b[0m\x1b[H\x1b[2Jbase");
}

#[test]
fn replacement_is_pending_for_switches_and_current_overlays() {
    let pending = |control: AttachControl, state_id: Option<u64>| {
        persistent_overlay_replacement_pending(
            &VecDeque::from([write(b"x"), control]),
            state_id,
        )
    };
    assert!(pending(switch(None, None, b""), Some(5)));
    assert!(pending(
        AttachControl::Switch(QueuedAttachTarget { target: None }),
        Some(5)
    ));
    assert!(pending(overlay(Some(5), b"x"), Some(5)));
    assert!(pending(overlay(None, b"x"), Some(5)));
    assert!(!pending(overlay(Some(4), b"x"), Some(5)));
    assert!(!pending(overlay(Some(5), b""), Some(5)));
    assert!(!pending(write(b"y"), Some(5)));
    assert!(!pending(
        AttachControl::AdvancePersistentOverlayState(9),
        Some(5)
    ));
    assert!(!pending(switch(None, None, b""), None));
    let mut message = overlay_frame(Some(5), b"x");
    message.persistent = false;
    assert!(!pending(AttachControl::Overlay(message), Some(5)));
}

#[test]
fn clear_waits_only_for_a_replacement() {
    let queued = VecDeque::from([overlay(Some(5), b"x")]);
    assert!(defer_persistent_clear(true, &queued, Some(5)));
    assert!(!defer_persistent_clear(false, &queued, Some(5)));
    assert!(!defer_persistent_clear(true, &queued, Some(6)));
    assert!(!defer_persistent_clear(true, &VecDeque::new(), Some(5)));
    let mut stale = VecDeque::from([switch(Some(1), None, b"x")]);
    assert!(defer_persistent_clear(true, &stale, Some(5)));
    discard_stale_controls(&mut stale, 5);
    assert!(!defer_persistent_clear(true, &stale, Some(5)));
}

#[test]
fn one_hold_serves_several_receptions() {
    let (tx, mut rx) = mpsc::unbounded_channel();
    let counter = AtomicUsize::new(2);
    let mut control_backlog = ControlBacklog::new(&counter);
    assert_eq!(counter.load(Ordering::Acquire), 2);
    for number in [1, 2, 3] {
        tx.send(AttachControl::Other(number)).unwrap();
        assert_eq!(
            try_recv_attach_control(&mut rx, &mut control_backlog),
            Ok(AttachControl::Other(number))
        );
    }
    assert_eq!(counter.load(Ordering::Acquire), 0);
    // A sender may raise the counter at any moment.
    counter.store(5, Ordering::Release);
    assert!(try_recv_attach_control(&mut rx, &mut control_backlog).is_err());
    assert_eq!(counter.load(Ordering::Acquire), 5);
}
