//! Token quotas: the ledger and its backends.
use praxis_ai::token_rate_limit::backend::{
    connection_outcome, enqueue_outcome, enqueue_reconcile, reconcile_outcome, reserve_outcome, start_worker,
    worker_step, BackendError, BackendReserve, BackendSettlement, InMemoryTokenRateLimitBackend, Outcome,
    ReconcileRequest, ReserveRequest, StartAction, ValkeyBackendConfig, ValkeyTokenRateLimitBackend, WorkerStep,
    RECONCILE_SCRIPT, RESERVE_SCRIPT,
};
use praxis_ai::token_rate_limit::ledger::{Budget, Decision, Ledger, Settlement};

fn budgets(list: &[(u64, u64)]) -> Vec<Budget> {
    list.iter().map(|(window_ms, capacity)| Budget { window_ms: *window_ms, capacity: *capacity }).collect()
}

fn ledger(list: &[(u64, u64)]) -> Ledger {
    Ledger::new(budgets(list), 1_000, 2, 3)
}

fn admitted(decision: Decision) -> u64 {
    match decision {
        Decision::Admitted(held) => held.id,
        Decision::Denied { .. } => panic!("should have been admitted"),
    }
}

fn denied(decision: Decision) -> u64 {
    match decision {
        Decision::Admitted(_) => panic!("should have been denied"),
        Decision::Denied { retry_after_ms } => retry_after_ms,
    }
}

#[test]
fn quota_is_held_until_it_is_full() {
    let mut l = ledger(&[(10_000, 100)]);
    assert_eq!(admitted(l.reserve("a", 60, 0)), 1);
    assert_eq!(denied(l.reserve("a", 41, 1)), 10_000);
    assert_eq!(admitted(l.reserve("a", 40, 1)), 2);
    assert_eq!(denied(l.reserve("a", 1, 1)), 10_000);
    assert_eq!(admitted(l.reserve("b", 100, 1)), 3);
    assert_eq!(l.limit(), 100);
}

#[test]
fn settlement_gives_back_what_was_not_used() {
    let mut l = ledger(&[(10_000, 100)]);
    let id = admitted(l.reserve("a", 60, 0));
    assert!(matches!(
        l.reconcile(id, Some(20), 5),
        Settlement::Applied { actual: 20, refund: 40, overage: 0 }
    ));
    assert!(matches!(l.reconcile(id, Some(20), 6), Settlement::Noop));
    let id = admitted(l.reserve("a", 80, 7));
    assert!(matches!(
        l.reconcile(id, Some(95), 8),
        Settlement::Applied { actual: 95, refund: 0, overage: 15 }
    ));
    assert_eq!(denied(l.reserve("a", 1, 9)), 10_000);
    let id = admitted(l.reserve("a", 100, 10_009));
    assert!(matches!(
        l.reconcile(id, None, 10_010),
        Settlement::Applied { actual: 100, refund: 0, overage: 0 }
    ));
}

#[test]
fn overdue_reservations_stay_charged() {
    let mut l = ledger(&[(10_000, 100)]);
    let id = admitted(l.reserve("a", 60, 0));
    assert_eq!(denied(l.reserve("a", 50, 1_000)), 10_000);
    assert!(matches!(l.reconcile(id, Some(1), 1_001), Settlement::Noop));
    assert_eq!(denied(l.reserve("a", 50, 9_999)), 10_000);
    admitted(l.reserve("a", 50, 10_000));
}

#[test]
fn numbers_of_keys_and_reservations_are_limited() {
    let mut l = ledger(&[(10_000, 100)]);
    admitted(l.reserve("a", 1, 0));
    admitted(l.reserve("b", 1, 0));
    assert_eq!(denied(l.reserve("c", 1, 0)), 10_000);
    admitted(l.reserve("a", 1, 0));
    assert_eq!(denied(l.reserve("a", 1, 0)), 10_000);
    admitted(l.reserve("c", 1, 11_000));
}

#[test]
fn every_budget_counts() {
    let mut l = ledger(&[(1_000, 10), (60_000, 100)]);
    assert_eq!(l.limit(), 10);
    assert_eq!(denied(l.reserve("a", 11, 0)), 60_000);
    admitted(l.reserve("a", 10, 0));
    assert_eq!(Ledger::new(Vec::new(), 1, 1, 1).limit(), 0);
}

fn reserve_request(key: &str, estimate: u64, now_ms: u64) -> ReserveRequest {
    ReserveRequest { key: key.to_owned(), estimate, now_ms }
}

fn reconcile_request(reservation_id: u64, actual: Option<u64>, estimate: u64) -> ReconcileRequest {
    ReconcileRequest { key: "a".to_owned(), reservation_id, actual, estimate, now_ms: 10 }
}

#[test]
fn memory_backend_keeps_a_ledger() {
    let mut b = InMemoryTokenRateLimitBackend::new(ledger(&[(10_000, 100)]));
    assert_eq!(b.limit(), 100);
    assert!(matches!(
        b.reserve(reserve_request("a", 70, 0)),
        Ok(BackendReserve::Admitted { reservation_id: 1, estimate: 70 })
    ));
    assert!(matches!(
        b.reserve(reserve_request("a", 31, 0)),
        Ok(BackendReserve::Denied { retry_after_ms: 10_000 })
    ));
    assert_eq!(
        b.reconcile(reconcile_request(1, Some(30), 70)).unwrap(),
        BackendSettlement::Applied { actual: 30, refund: 40, overage: 0 }
    );
    assert_eq!(b.reconcile(reconcile_request(1, Some(30), 70)).unwrap(), BackendSettlement::Noop);
    assert!(matches!(
        b.reserve(reserve_request("a", 70, 11)),
        Ok(BackendReserve::Admitted { reservation_id: 2, estimate: 70 })
    ));
    assert!(b.enqueue_reconcile(reconcile_request(2, Some(0), 70)).is_ok());
    assert_eq!(b.reconcile(reconcile_request(2, Some(0), 70)).unwrap(), BackendSettlement::Noop);
    let (held, offset) = b.local_state().unwrap();
    assert_eq!((held.limit(), offset), (100, 0));
}

fn config(url: &str) -> ValkeyBackendConfig {
    ValkeyBackendConfig {
        url: url.to_owned(),
        namespace: "quota".to_owned(),
        rule: "r1".to_owned(),
        budgets: budgets(&[(1_000, 50), (60_000, 40)]),
        reservation_timeout_ms: 30_000,
        max_keys: 10,
        max_active_reservations: 20,
    }
}

fn args(command: &redis::Cmd) -> Vec<String> {
    command
        .args_iter()
        .map(|arg| match arg {
            redis::Arg::Simple(bytes) => String::from_utf8(bytes.to_vec()).unwrap(),
            _ => panic!("only plain arguments are expected"),
        })
        .collect()
}

#[test]
fn valkey_backend_needs_an_address() {
    let b = ValkeyTokenRateLimitBackend::new(config("redis://127.0.0.1:6379")).unwrap_or_else(|e| panic!("{}", e.message()));
    assert_eq!(b.limit(), 40);
    assert!(b.local_state().is_none());
    for address in ["not an address", "", "http://127.0.0.1:6379", "server:6379", ":6379"] {
        let e = ValkeyTokenRateLimitBackend::new(config(address)).err().unwrap();
        assert_eq!(
            e.message(),
            "shared quota backend unavailable: Redis URL did not parse - InvalidClientConfig",
            "{address}"
        );
    }
    let e = ValkeyTokenRateLimitBackend::with_client(config("unused"), Err("refused".to_owned())).err().unwrap();
    assert_eq!(e.message(), "shared quota backend unavailable: refused");
}

#[test]
fn valkey_keys_are_derived_from_the_digest() {
    let b = ValkeyTokenRateLimitBackend::new(config("valkey://127.0.0.1")).ok().unwrap();
    let keys = b.key_parts("tenant");
    let digest = praxis_ai::hash::hex(&<sha2::Sha256 as sha2::Digest>::digest(b"quota\0r1\0tenant"));
    assert_eq!(digest.len(), 64);
    assert_eq!(keys[0], format!("quota:v1:{digest}"));
    assert_eq!(keys[1], format!("quota:v1:{digest}:settled"));
    assert_eq!(keys[2], format!("quota:v1:{digest}:active"));
    assert_eq!(keys[3..], ["quota:keys", "quota:active-count", "quota:reservation-seq", "quota:active-index"]);
    assert_ne!(b.key_parts("other")[0], keys[0]);
    assert_eq!(b.key_parts("other")[3..], keys[3..]);
}

#[test]
fn valkey_commands_carry_script_keys_and_arguments() {
    let b = ValkeyTokenRateLimitBackend::new(config("redis://127.0.0.1")).ok().unwrap();
    let keys = b.key_parts("tenant");
    let sent = args(&b.reserve_command(&reserve_request("tenant", 12, 0)));
    assert_eq!(sent[..3], ["EVAL", RESERVE_SCRIPT, "7"]);
    assert_eq!(sent[3..10], keys);
    assert_eq!(sent[10..], ["30000", "10", "20", "12", "2", "1000", "50", "60000", "40"]);
    let mut request = reconcile_request(7, Some(9), 12);
    request.key = "tenant".to_owned();
    let sent = args(&b.reconcile_command(&request));
    assert_eq!(sent[..3], ["EVAL", RECONCILE_SCRIPT, "7"]);
    assert_eq!(sent[3..10], keys);
    assert_eq!(sent[10..], ["7", "9"]);
    request.actual = None;
    assert_eq!(args(&b.reconcile_command(&request))[10..], ["7", "12"]);
}

fn reason<T>(r: Result<T, BackendError>) -> String {
    match r {
        Ok(_) => String::new(),
        Err(e) => e.message(),
    }
}

#[test]
fn reservation_answers_are_read() {
    assert!(matches!(
        reserve_outcome(Outcome::Done(vec![1, 5, 9])),
        Ok(BackendReserve::Admitted { reservation_id: 5, estimate: 9 })
    ));
    assert!(matches!(
        reserve_outcome(Outcome::Done(vec![0, 60])),
        Ok(BackendReserve::Denied { retry_after_ms: 60 })
    ));
    let invalid = "shared quota backend returned an invalid response";
    for response in [vec![], vec![1, -1, 9], vec![1, 1, -9], vec![0, -1], vec![2, 1, 1], vec![1, 5], vec![0, 1, 1]] {
        assert_eq!(reason(reserve_outcome(Outcome::Done(response))), invalid);
    }
    assert_eq!(
        reason(reserve_outcome(Outcome::TimedOut)),
        "shared quota backend unavailable: Valkey reservation timed out"
    );
    assert_eq!(
        reason(reserve_outcome(Outcome::Failed("reset".to_owned()))),
        "shared quota backend unavailable: reset"
    );
}

#[test]
fn settlement_answers_are_read() {
    assert_eq!(reconcile_outcome(Outcome::Done(vec![0])).ok(), Some(BackendSettlement::Noop));
    assert_eq!(
        reconcile_outcome(Outcome::Done(vec![1, 5, 2, 0])).ok(),
        Some(BackendSettlement::Applied { actual: 5, refund: 2, overage: 0 })
    );
    let invalid = "shared quota backend returned an invalid response";
    for response in [vec![], vec![1], vec![0, 0], vec![1, -5, 2, 0], vec![1, 5, -2, 0], vec![1, 5, 2, -1]] {
        assert_eq!(reason(reconcile_outcome(Outcome::Done(response))), invalid);
    }
    assert_eq!(
        reason(reconcile_outcome(Outcome::TimedOut)),
        "shared quota backend unavailable: Valkey reconciliation timed out"
    );
    assert_eq!(
        reason(reconcile_outcome(Outcome::Failed("reset".to_owned()))),
        "shared quota backend unavailable: reset"
    );
}

#[test]
fn connections_and_queues_may_fail() {
    assert_eq!(connection_outcome(Outcome::Done(3)).ok(), Some(3));
    assert_eq!(
        reason(connection_outcome::<u8>(Outcome::TimedOut)),
        "shared quota backend unavailable: Valkey connection timed out"
    );
    assert_eq!(
        reason(connection_outcome::<u8>(Outcome::Failed("refused".to_owned()))),
        "shared quota backend unavailable: refused"
    );
    assert!(enqueue_outcome(Ok(())).is_ok());
    assert_eq!(
        reason(enqueue_outcome(Err("no available capacity".to_owned()))),
        "shared quota backend unavailable: reconciliation queue is full or stopped: no available capacity"
    );
}

#[test]
fn usage_counts_for_the_shortest_window() {
    let mut l = ledger(&[(100, 1_000), (10_000, 100)]);
    let id = admitted(l.reserve("a", 80, 0));
    assert!(matches!(l.reconcile(id, Some(80), 0), Settlement::Applied { actual: 80, .. }));
    assert!(matches!(l.reserve("a", 50, 99), Decision::Denied { retry_after_ms: 10_000 }));
    assert!(matches!(l.reserve("a", 50, 100), Decision::Admitted(_)));
}

#[test]
fn worker_is_started_once() {
    let mut started = false;
    let mut actions = Vec::new();
    for runtime in [false, true, false, true, true] {
        let (now_started, action) = start_worker(started, runtime);
        started = now_started;
        actions.push(action.map_err(|e| e.message()));
    }
    let refused = "shared quota backend unavailable: Valkey reconciliation requires a Tokio runtime".to_owned();
    assert_eq!(
        actions,
        [
            Err(refused.clone()),
            Ok(StartAction::Start),
            Err(refused),
            Ok(StartAction::Keep),
            Ok(StartAction::Keep)
        ]
    );
    assert!(started);
}

#[test]
fn nothing_is_queued_without_a_worker() {
    let (_, refused) = start_worker(false, false);
    let mut queued = 0;
    let answer = enqueue_reconcile(refused, || {
        queued += 1;
        Ok(())
    });
    assert_eq!(
        reason(answer),
        "shared quota backend unavailable: Valkey reconciliation requires a Tokio runtime"
    );
    assert_eq!(queued, 0);
    for started in [false, true] {
        let answer = enqueue_reconcile(start_worker(started, true).1, || {
            queued += 1;
            Ok(())
        });
        assert!(answer.is_ok());
    }
    assert_eq!(queued, 2);
    assert_eq!(
        reason(enqueue_reconcile(start_worker(true, true).1, || Err("channel closed".to_owned()))),
        "shared quota backend unavailable: reconciliation queue is full or stopped: channel closed"
    );
}

#[test]
fn abandoned_settlements_do_not_hold_up_the_next() {
    let results = [false, false, false, true, false, true, true];
    let (mut request, mut attempts) = (0, 0);
    let mut tried = Vec::new();
    for succeeded in results {
        tried.push(request);
        match worker_step(attempts, succeeded) {
            WorkerStep::Retry { attempts: failed, .. } => attempts = failed,
            WorkerStep::Completed | WorkerStep::Abandoned => {
                request += 1;
                attempts = 0;
            },
        }
    }
    assert_eq!(tried, [0, 0, 0, 1, 2, 2, 3]);
}

#[test]
fn settlements_are_retried_twice() {
    assert_eq!(worker_step(0, true), WorkerStep::Completed);
    assert_eq!(worker_step(0, false), WorkerStep::Retry { attempts: 1, delay_ms: 25 });
    assert_eq!(worker_step(1, false), WorkerStep::Retry { attempts: 2, delay_ms: 50 });
    assert_eq!(worker_step(2, false), WorkerStep::Abandoned);
    assert_eq!(worker_step(2, true), WorkerStep::Completed);
}
