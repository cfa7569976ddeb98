use rpytest::protocol::{answer, context_not_found_message, Action, LookupResult, RequestKind};

#[test]
fn init_context_reuses_or_creates() {
    assert_eq!(answer(RequestKind::InitContext, LookupResult::Found), Action::ReuseContext);
    assert_eq!(answer(RequestKind::InitContext, LookupResult::Missing), Action::CreateContext);
}

#[test]
fn requests_naming_a_context_need_it_open() {
    for kind in [
        RequestKind::Collect,
        RequestKind::Run,
        RequestKind::List,
        RequestKind::GetInventory,
        RequestKind::GetFlakinessReport,
    ] {
        assert_eq!(answer(kind, LookupResult::Found), Action::ServeWithContext);
        assert_eq!(answer(kind, LookupResult::Missing), Action::ContextNotFound);
    }
    assert_eq!(context_not_found_message("ctx-1"), "Context not found: ctx-1");
}

#[test]
fn other_requests_ignore_the_lookup() {
    for lookup in [LookupResult::Found, LookupResult::Missing] {
        assert_eq!(answer(RequestKind::Ping, lookup), Action::Pong);
        assert_eq!(answer(RequestKind::Shutdown, lookup), Action::CloseContexts);
        assert_eq!(answer(RequestKind::GetWorkerStatus, lookup), Action::IdleWorkerStatus);
        assert_eq!(answer(RequestKind::ConfigureWorkers, lookup), Action::NoWorkersConfigured);
        assert_eq!(answer(RequestKind::RunStream, lookup), Action::StreamingNotImplemented);
        assert_eq!(answer(RequestKind::GetRunProgress, lookup), Action::StreamingNotImplemented);
        assert_eq!(answer(RequestKind::Other, lookup), Action::NotImplemented);
    }
}
