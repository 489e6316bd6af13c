use mumble_link::{
    CloseReason, Inner, LinkedMem, MapError, MumbleLink, OpenError, Position, SharedLink, Status,
    Step,
};

fn pose() -> Position {
    Position::default()
}

#[test]
fn context_truncates_to_256_bytes() {
    let mut local = LinkedMem::new("App", "Desc");
    let long = vec![7u8; 300];
    local.set_context(&long);
    assert_eq!(local.context_len, 256);
    assert_eq!(local.context, vec![7u8; 256]);

    local.set_context(&[1, 2, 3]);
    assert_eq!(local.context_len, 3);
    assert_eq!(&local.context[..3], [1, 2, 3]);
    assert_eq!(&local.context[3..], vec![7u8; 253].as_slice());
}

#[test]
fn identity_is_encoded_zero_terminated() {
    let mut local = LinkedMem::new("App", "Desc");
    local.set_identity("Player1");
    assert_eq!(&local.identity[..8], [80, 108, 97, 121, 101, 114, 49, 0]);
}

#[test]
fn tick_wraps_to_zero_at_max() {
    let mut local = LinkedMem::new("App", "Desc");
    local.ui_tick = u32::MAX;
    local.update(pose(), pose());
    assert_eq!(local.ui_tick, 0);

    let mut link = SharedLink::new("App", "Desc", Ok(LinkedMem::zeroed()));
    link.local.ui_tick = u32::MAX;
    let step = link.update(pose(), pose());
    assert_eq!(link.local.ui_tick, 0);
    assert_eq!(step, Step::Flush);
}

#[test]
fn exclusive_open_reports_occupant_on_conflict() {
    let mut occupant = LinkedMem::new("Occupant", "Something");
    occupant.update(pose(), pose());
    let r = MumbleLink::new("Me", "Mine", Ok(occupant));
    match r {
        Err(OpenError::Conflict { name, description }) => {
            assert_eq!(name, "Occupant");
            assert_eq!(description, "Something");
        },
        _ => panic!("expected a conflict"),
    }
}

#[test]
fn exclusive_open_succeeds_on_unowned_segment() {
    let r = MumbleLink::new("Me", "Mine", Ok(LinkedMem::zeroed()));
    let mut link = match r {
        Ok(link) => link,
        Err(_) => panic!("expected success"),
    };
    assert_eq!(link.local.ui_version, 2);
    assert_eq!(link.local.ui_tick, 0);
    link.update(pose(), pose());
    assert_eq!(link.local.ui_tick, 1);
}

#[test]
fn exclusive_tick_wraps_too() {
    let mut link = match MumbleLink::new("Me", "Mine", Ok(LinkedMem::zeroed())) {
        Ok(link) => link,
        Err(_) => panic!("expected success"),
    };
    link.local.ui_tick = u32::MAX;
    link.update(pose(), pose());
    assert_eq!(link.local.ui_tick, 0);
}

#[test]
fn exclusive_open_passes_map_errors_through() {
    let r = MumbleLink::new("Me", "Mine", Err(MapError::MapFailed));
    assert!(matches!(r, Err(OpenError::SegmentUnavailable(MapError::MapFailed))));
    let r = MumbleLink::new("Me", "Mine", Err(MapError::NotFound));
    assert!(matches!(r, Err(OpenError::SegmentUnavailable(MapError::NotFound))));
    let r = MumbleLink::new("Me", "Mine", Err(MapError::Permission));
    assert!(matches!(r, Err(OpenError::SegmentUnavailable(MapError::Permission))));
}

#[test]
fn closed_session_recovers_after_sampling_window() {
    let mut link = SharedLink::new("App", "Desc", Err(MapError::NotFound));
    assert!(matches!(
        link.status(None),
        Status::Closed(CloseReason::Unavailable(MapError::NotFound))
    ));
    for i in 1..100 {
        let step = link.update(pose(), pose());
        assert_eq!(step, Step::Idle, "frame {}", i);
    }
    let step = link.update(pose(), pose());
    assert_eq!(link.local.ui_tick, 100);
    assert_eq!(step, Step::Reopen);
    let step = link.resolve_open(Ok(LinkedMem::zeroed()));
    assert_eq!(step, Step::Flush);
    assert!(matches!(link.status(None), Status::Active));
}

#[test]
fn reopen_failure_stays_closed() {
    let mut link = SharedLink::new("App", "Desc", Err(MapError::NotFound));
    for _ in 0..100 {
        link.update(pose(), pose());
    }
    let step = link.resolve_open(Err(MapError::Permission));
    assert_eq!(step, Step::Idle);
    assert!(matches!(
        link.status(None),
        Status::Closed(CloseReason::Unavailable(MapError::Permission))
    ));
}

#[test]
fn stalled_occupant_is_claimed() {
    let mut occupant = LinkedMem::new("Occupant", "Theirs");
    occupant.ui_tick = 42;
    let mut link = SharedLink::new("App", "Desc", Ok(occupant));
    assert_eq!(link.inner, Inner::InUse(42));
    match link.status(Some(&LinkedMem::new("Occupant", "Theirs"))) {
        Status::InUse { name, description } => {
            assert_eq!(name, "Occupant");
            assert_eq!(description, "Theirs");
        },
        _ => panic!("expected in-use"),
    }
    for _ in 0..100 {
        link.update(pose(), pose());
    }
    let mut observed = LinkedMem::new("Occupant", "Theirs");
    observed.ui_tick = 42;
    let step = link.resolve_sample(&observed);
    assert_eq!(step, Step::Flush);
    assert!(matches!(link.status(None), Status::Active));
}

#[test]
fn live_occupant_keeps_the_segment() {
    let mut occupant = LinkedMem::new("Occupant", "Theirs");
    occupant.ui_tick = 42;
    let mut link = SharedLink::new("App", "Desc", Ok(occupant));
    for _ in 0..100 {
        link.update(pose(), pose());
    }
    let mut observed = LinkedMem::new("Occupant", "Theirs");
    observed.ui_tick = 43;
    let step = link.resolve_sample(&observed);
    assert_eq!(step, Step::Idle);
    assert_eq!(link.inner, Inner::InUse(43));
}

#[test]
fn released_segment_is_claimed_on_sample() {
    let mut occupant = LinkedMem::new("Occupant", "Theirs");
    occupant.ui_tick = 42;
    let mut link = SharedLink::new("App", "Desc", Ok(occupant));
    for _ in 0..100 {
        link.update(pose(), pose());
    }
    let step = link.resolve_sample(&LinkedMem::zeroed());
    assert_eq!(step, Step::Flush);
    assert!(matches!(link.status(None), Status::Active));
}

#[test]
fn deactivate_closes_and_frees_for_exclusive() {
    let mut link = SharedLink::new("App", "Desc", Ok(LinkedMem::zeroed()));
    assert!(matches!(link.status(None), Status::Active));
    let zero_segment = link.deactivate();
    assert!(zero_segment);
    assert!(matches!(link.status(None), Status::Closed(CloseReason::ManuallyClosed)));

    // The caller zeroes the segment; a later exclusive open then succeeds.
    let released = LinkedMem::zeroed();
    assert!(MumbleLink::new("Next", "Owner", Ok(released)).is_ok());

    // Idempotent on a session that is no longer active.
    let zero_again = link.deactivate();
    assert!(!zero_again);
    assert!(matches!(link.status(None), Status::Closed(CloseReason::ManuallyClosed)));
}

#[test]
fn shared_session_state_does_not_change_between_samples() {
    let mut link = SharedLink::new("App", "Desc", Err(MapError::NotFound));
    link.set_context(b"ctx");
    link.set_identity("Id");
    for i in 1..100 {
        let step = link.update(pose(), pose());
        assert_eq!(step, Step::Idle, "frame {}", i);
        assert!(matches!(
            link.status(None),
            Status::Closed(CloseReason::Unavailable(MapError::NotFound))
        ));
    }
    assert_eq!(link.local.context_len, 3);
    assert_eq!(&link.local.identity[..3], [73, 100, 0]);
}
