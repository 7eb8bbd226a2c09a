use nice::server_pool::{reject_message, reply_delay_ms, FetchOutcome, ServerPool};
use nice::worker_registry::{WorkerRegistry, WORKERS_PER_ENDPOINT};

#[test]
fn idle_worker_is_reused() {
    let mut p = ServerPool::new(1, 8);
    assert_eq!(p.fetch_worker(true), FetchOutcome::Reuse);
    assert_eq!(p.num_workers(), 0);
}

#[test]
fn new_workers_get_fresh_numbers() {
    let mut p = ServerPool::new(1, 8);
    assert_eq!(p.fetch_worker(false), FetchOutcome::Create(0));
    assert_eq!(p.fetch_worker(true), FetchOutcome::Reuse);
    assert_eq!(p.fetch_worker(false), FetchOutcome::Create(1));
}

#[test]
fn new_worker_is_counted_twice() {
    let mut p = ServerPool::new(1, 8);
    p.fetch_worker(false);
    assert_eq!(p.num_workers(), 1);
    p.worker_started();
    assert_eq!(p.num_workers(), 2);
    p.worker_dropped();
    assert_eq!(p.num_workers(), 1);
}

#[test]
fn worker_start_and_drop_cancel_out() {
    let mut p = ServerPool::new(1, 8);
    p.worker_started();
    p.worker_dropped();
    assert_eq!(p.num_workers(), 0);
}

#[test]
fn full_pool_rejects() {
    let mut p = ServerPool::new(1, 3);
    assert_eq!(p.fetch_worker(false), FetchOutcome::Create(0));
    p.worker_started();
    assert_eq!(p.fetch_worker(false), FetchOutcome::Create(1));
    p.worker_started();
    assert_eq!(p.num_workers(), 4);
    assert_eq!(p.fetch_worker(false), FetchOutcome::Reject);
    assert_eq!(p.num_workers(), 4);
    assert_eq!(p.fetch_worker(true), FetchOutcome::Reuse);
}

#[test]
fn zero_maximum_rejects_at_once() {
    let mut p = ServerPool::new(0, 0);
    assert_eq!(p.fetch_worker(false), FetchOutcome::Reject);
}

#[test]
fn shrinks_only_above_minimum() {
    let mut p = ServerPool::new(1, 8);
    assert!(!p.should_remove());
    p.fetch_worker(false);
    assert!(!p.should_remove());
    p.worker_started();
    assert!(p.should_remove());
    p.worker_dropped();
    assert!(!p.should_remove());
}

#[test]
fn registry_count_settles_at_ten_per_key() {
    let mut r: WorkerRegistry<u32> = WorkerRegistry::new();
    r.start_workers("a".to_string(), 1);
    for _ in 0..WORKERS_PER_ENDPOINT {
        r.worker_started();
    }
    r.start_workers("b".to_string(), 2);
    for _ in 0..WORKERS_PER_ENDPOINT {
        r.worker_started();
    }
    // Replacing the handle of "a": ten new workers start, the old ten stop.
    r.start_workers("a".to_string(), 3);
    for _ in 0..WORKERS_PER_ENDPOINT {
        r.worker_started();
        r.worker_stopped();
    }
    r.remove_workers(&"b".to_string());
    for _ in 0..WORKERS_PER_ENDPOINT - 1 {
        r.worker_stopped();
    }
    assert!(r.poll_ready());
    r.worker_stopped();
    assert!(r.poll_ready());
    r.remove_workers(&"a".to_string());
    for _ in 0..WORKERS_PER_ENDPOINT {
        r.worker_stopped();
    }
    assert!(!r.poll_ready());
}

#[test]
fn rejection_text() {
    assert_eq!(reject_message(), "not enough workers!");
}

#[test]
fn fixed_pool_delay() {
    assert_eq!(reply_delay_ms(0), 0);
    assert_eq!(reply_delay_ms(7), 14);
}

#[test]
fn registry_starts_and_removes() {
    let mut r: WorkerRegistry<u32> = WorkerRegistry::new();
    assert_eq!(WORKERS_PER_ENDPOINT, 10);
    assert_eq!(r.start_workers("a".to_string(), 1), None);
    assert_eq!(r.start_workers("b".to_string(), 2), None);
    assert_eq!(r.remove_workers(&"a".to_string()), Some(1));
    assert_eq!(r.remove_workers(&"a".to_string()), None);
    assert_eq!(r.remove_workers(&"b".to_string()), Some(2));
}

#[test]
fn registry_replaces_handle_of_same_key() {
    let mut r: WorkerRegistry<u32> = WorkerRegistry::new();
    r.start_workers("a".to_string(), 1);
    assert_eq!(r.start_workers("a".to_string(), 5), Some(1));
    assert_eq!(r.remove_workers(&"a".to_string()), Some(5));
}

#[test]
fn registry_ready_when_workers_run() {
    let mut r: WorkerRegistry<()> = WorkerRegistry::new();
    assert!(!r.poll_ready());
    r.worker_started();
    assert!(r.poll_ready());
    r.worker_started();
    r.worker_stopped();
    assert!(r.poll_ready());
    r.worker_stopped();
    assert!(!r.poll_ready());
}
