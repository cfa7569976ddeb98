use std::time::Instant;

use rpytest::pool::{
    acquire_verdict, error_results, ids_to_spawn, keep_on_release, AcquireVerdict, ProcessStatus,
    RecycleReason, WorkerLifecycle, WorkerState,
};
use rpytest::models::TestOutcome;
use rpytest::error::DaemonError;

#[test]
fn test_worker_state_machine_transitions() {
    // Spawning -> Ready (valid)
    assert!(WorkerState::Spawning.transition_to(WorkerState::Ready).is_ok());
    // Spawning -> Dead (valid)
    assert!(WorkerState::Spawning
        .transition_to(WorkerState::Dead { exit_code: Some(0) })
        .is_ok());

    let ready = WorkerState::Ready;
    // Ready -> Busy (valid)
    assert!(ready
        .clone()
        .transition_to(WorkerState::Busy { started_at: Instant::now() })
        .is_ok());
    // Ready -> Recycling (valid)
    assert!(ready
        .clone()
        .transition_to(WorkerState::Recycling { reason: RecycleReason::MaxRunsReached })
        .is_ok());
    // Ready -> Dead (valid)
    assert!(ready
        .clone()
        .transition_to(WorkerState::Dead { exit_code: Some(0) })
        .is_ok());

    let busy = WorkerState::Busy { started_at: Instant::now() };
    // Busy -> Ready (valid)
    assert!(busy.clone().transition_to(WorkerState::Ready).is_ok());
    // Busy -> Recycling (valid)
    assert!(busy
        .clone()
        .transition_to(WorkerState::Recycling { reason: RecycleReason::Unhealthy })
        .is_ok());
    // Busy -> Dead (valid)
    assert!(busy.transition_to(WorkerState::Dead { exit_code: Some(1) }).is_ok());

    let recycling = WorkerState::Recycling { reason: RecycleReason::MaxRunsReached };
    // Recycling -> Dead (valid)
    assert!(recycling
        .clone()
        .transition_to(WorkerState::Dead { exit_code: Some(0) })
        .is_ok());

    // Invalid transitions
    let dead = WorkerState::Dead { exit_code: Some(0) };
    // Dead -> anything (invalid)
    assert!(dead.transition_to(WorkerState::Ready).is_err());

    let ready2 = WorkerState::Ready;
    // Ready -> Spawning (invalid)
    assert!(ready2.clone().transition_to(WorkerState::Spawning).is_err());

    let recycling2 = WorkerState::Recycling { reason: RecycleReason::MaxRunsReached };
    // Recycling -> Ready (invalid)
    assert!(recycling2.transition_to(WorkerState::Ready).is_err());
}

#[test]
fn test_worker_state_helpers() {
    let ready = WorkerState::Ready;
    let busy = WorkerState::Busy { started_at: Instant::now() };
    let recycling = WorkerState::Recycling { reason: RecycleReason::MaxRunsReached };
    let dead = WorkerState::Dead { exit_code: Some(0) };

    assert!(ready.is_ready());
    assert!(!ready.is_busy());
    assert!(ready.is_alive());
    assert!(!ready.is_terminal());

    assert!(!busy.is_ready());
    assert!(busy.is_busy());
    assert!(busy.is_alive());
    assert!(!busy.is_terminal());

    assert!(!recycling.is_ready());
    assert!(!recycling.is_busy());
    assert!(!recycling.is_alive());
    assert!(recycling.is_terminal());

    assert!(!dead.is_ready());
    assert!(!dead.is_busy());
    assert!(!dead.is_alive());
    assert!(dead.is_terminal());
}

#[test]
fn lifecycle_runs_and_recycles() {
    let mut w = WorkerLifecycle::new(3);
    assert_eq!(w.id(), 3);
    assert_eq!(*w.state(), WorkerState::Spawning);
    // a worker that is not ready refuses to run
    assert!(w.begin_run(Instant::now()).is_err());
    w.mark_ready();
    for _ in 0..99 {
        assert!(w.begin_run(Instant::now()).is_ok());
        assert!(w.state().is_busy());
        w.finish_run(true);
        assert_eq!(*w.state(), WorkerState::Ready);
    }
    assert!(w.begin_run(Instant::now()).is_ok());
    w.finish_run(true);
    assert_eq!(w.run_count(), 100);
    assert!(w.needs_recycle());
    assert_eq!(*w.state(), WorkerState::Recycling { reason: RecycleReason::MaxRunsReached });
}

#[test]
fn lifecycle_failure_and_shutdown() {
    let mut w = WorkerLifecycle::new(0);
    w.mark_ready();
    w.begin_run(Instant::now()).unwrap();
    w.finish_run(false);
    assert_eq!(*w.state(), WorkerState::Recycling { reason: RecycleReason::Unhealthy });
    assert_eq!(w.run_count(), 0);
    // shutting down a worker that is already recycling is an error
    let e = w.begin_shutdown().unwrap_err();
    assert_eq!(
        e,
        DaemonError::Other("Worker 0 is already in terminal state Recycling { reason: Unhealthy }".to_string())
    );
    assert_eq!(*w.state(), WorkerState::Recycling { reason: RecycleReason::Unhealthy });

    let mut v = WorkerLifecycle::new(1);
    v.mark_ready();
    assert!(v.note_process(ProcessStatus::Running));
    assert!(v.begin_shutdown().is_ok());
    assert_eq!(*v.state(), WorkerState::Recycling { reason: RecycleReason::ExplicitShutdown });
    v.finish_shutdown();
    assert_eq!(*v.state(), WorkerState::Dead { exit_code: Some(0) });
    assert!(!v.note_process(ProcessStatus::Running));
    assert_eq!(
        v.begin_shutdown(),
        Err(DaemonError::Other("Worker 1 is already in terminal state Dead { exit_code: Some(0) }".to_string()))
    );

    let mut x = WorkerLifecycle::new(2);
    x.mark_ready();
    assert!(!x.note_process(ProcessStatus::Exited(Some(3))));
    assert_eq!(*x.state(), WorkerState::Dead { exit_code: Some(3) });
    let mut y = WorkerLifecycle::new(4);
    assert!(!y.note_process(ProcessStatus::Unknown));
    assert_eq!(*y.state(), WorkerState::Dead { exit_code: None });
}

#[test]
fn pool_decisions() {
    assert_eq!(acquire_verdict(true, false, true), AcquireVerdict::Use);
    assert_eq!(acquire_verdict(false, false, true), AcquireVerdict::Drop);
    assert_eq!(acquire_verdict(true, true, true), AcquireVerdict::Drop);
    assert_eq!(acquire_verdict(true, false, false), AcquireVerdict::Drop);
    assert!(keep_on_release(true, 1, 2));
    assert!(!keep_on_release(true, 2, 2));
    assert!(!keep_on_release(false, 0, 2));
    assert_eq!(ids_to_spawn(1, 4), vec![1, 2, 3]);
    assert!(ids_to_spawn(5, 4).is_empty());

    let tests = vec!["a::t1".to_string(), "a::t2".to_string()];
    let results = error_results(&tests, "Worker pool exhausted: no python");
    assert_eq!(results.len(), 2);
    assert_eq!(results[1].node_id, "a::t2");
    assert_eq!(results[0].outcome, TestOutcome::Error);
    assert_eq!(results[0].message.as_deref(), Some("Worker pool exhausted: no python"));
}

#[test]
fn refusal_messages_name_the_states() {
    let e = WorkerState::Dead { exit_code: Some(-2) }
        .transition_to(WorkerState::Recycling { reason: RecycleReason::ExplicitShutdown })
        .unwrap_err();
    assert_eq!(
        e,
        DaemonError::Other(
            "Invalid worker state transition: Dead { exit_code: Some(-2) } -> Recycling { reason: ExplicitShutdown }"
                .to_string()
        )
    );
    let e = WorkerState::Spawning.transition_to(WorkerState::Dead { exit_code: None }).unwrap();
    assert_eq!(e, WorkerState::Dead { exit_code: None });
    let e = WorkerState::Ready.transition_to(WorkerState::Spawning).unwrap_err();
    assert_eq!(e, DaemonError::Other("Invalid worker state transition: Ready -> Spawning".to_string()));

    let mut w = WorkerLifecycle::new(12);
    let e = w.begin_run(Instant::now()).unwrap_err();
    assert_eq!(e, DaemonError::Other("Worker 12 cannot run tests in state Spawning".to_string()));
    w.mark_ready();
    w.begin_run(Instant::now()).unwrap();
    let e = w.begin_run(Instant::now()).unwrap_err();
    match e {
        DaemonError::Other(m) => {
            assert!(m.starts_with("Worker 12 cannot run tests in state Busy { started_at: "));
            assert!(m.ends_with(" }"));
        }
        other => panic!("unexpected error {:?}", other),
    }
}
