use bevy_tiled_display::{
    attachment, barrier_outcome, busy_barrier_step, unsynchronized_barrier, Attachment,
    BarrierError, LocalBarrier, MpiSync, PollAction, SyncBackends, TiledDisplayPlugin,
    FRAME_BARRIER_TIMEOUT_MS,
};

fn plugin(sync: SyncBackends) -> TiledDisplayPlugin {
    TiledDisplayPlugin { config: String::new(), identity: "me".to_string(), sync }
}

#[test]
fn poll_step_decisions() {
    assert_eq!(busy_barrier_step(true, 500, 200), PollAction::Complete);
    assert_eq!(busy_barrier_step(false, 201, 200), PollAction::CancelAndFail);
    assert_eq!(busy_barrier_step(false, 200, 200), PollAction::Retry);
    assert_eq!(busy_barrier_step(false, 0, FRAME_BARRIER_TIMEOUT_MS), PollAction::Retry);
    assert_eq!(barrier_outcome(PollAction::Complete), Some(Ok(())));
    assert_eq!(barrier_outcome(PollAction::CancelAndFail), Some(Err(BarrierError::Timeout)));
    assert_eq!(barrier_outcome(PollAction::Retry), None);
    assert_eq!(unsynchronized_barrier(), Ok(()));
}

#[test]
fn all_participants_arrive_then_all_released() {
    let mut b = LocalBarrier::new(3);
    let t0 = b.issue(2);
    assert!(!b.test(t0));
    let t1 = b.issue(0);
    assert!(!b.test(t0) && !b.test(t1));
    let t2 = b.issue(1);
    assert!(b.test(t0) && b.test(t1) && b.test(t2));
    assert_eq!(b.size(), 3);
}

#[test]
fn missing_participant_times_out_and_leaves_no_stale_state() {
    let mut b = LocalBarrier::new(3);
    let t0 = b.issue(0);
    let t1 = b.issue(1);
    let mut elapsed = 0;
    let outcome = loop {
        let action = busy_barrier_step(b.test(t0), elapsed, 200);
        if action == PollAction::CancelAndFail {
            b.cancel(0, t0);
        }
        if let Some(r) = barrier_outcome(action) {
            break r;
        }
        elapsed += 50;
    };
    assert_eq!(outcome, Err(BarrierError::Timeout));
    assert!(!b.test(t1));
    b.cancel(1, t1);
    // A new round needs all three again.
    let n0 = b.issue(0);
    let _ = b.issue(1);
    assert!(!b.test(n0));
    let _ = b.issue(2);
    assert!(b.test(n0));
}

#[test]
fn sync_selection() {
    assert_eq!(plugin(SyncBackends::Auto).select_sync(false), Ok(None));
    assert_eq!(plugin(SyncBackends::Auto).select_sync(true), Ok(Some(MpiSync)));
    assert_eq!(plugin(SyncBackends::Mpi).select_sync(true), Ok(Some(MpiSync)));
    assert_eq!(
        plugin(SyncBackends::Mpi).select_sync(false),
        Err(BarrierError::EnvironmentUnavailable)
    );
}

#[test]
fn already_initialized_environment_is_attached() {
    assert_eq!(attachment(true), Attachment::Owned);
    assert_eq!(attachment(false), Attachment::Attached);
}

#[test]
fn default_plugin_uses_auto_sync() {
    let p = TiledDisplayPlugin::default();
    assert_eq!(p.sync, SyncBackends::Auto);
    assert!(p.config.is_empty());
    let _ = TiledDisplayPlugin::hostname();
}

#[test]
fn identity_falls_back_to_empty() {
    assert_eq!(TiledDisplayPlugin::identity_or_empty(Some("keshiki07".to_string())), "keshiki07");
    assert_eq!(TiledDisplayPlugin::identity_or_empty(None), "");
}
