use rumwebs_http::tcp_pool::{
    bind_address, keep_accepting, takes_new_message, AcceptOutcome, ConnectionState, ReadOutcome,
    TcpThreadPool, WriteOutcome,
};

#[test]
fn connection_reads_once_then_writes() {
    let mut c = ConnectionState::new(4);
    assert_eq!(c.write_buffer, vec![0, 0, 0, 0]);
    assert!(c.wants_read(true));
    assert!(!c.wants_write(true));
    let step = c.after_read(ReadOutcome::WouldBlock);
    assert!(!step.run_job && !step.delete);
    assert!(c.ready_to_read);
    let step = c.after_read(ReadOutcome::Bytes(10));
    assert!(step.run_job && step.delete);
    assert!(!c.ready_to_read && c.ready_to_write);
    assert!(!c.wants_read(true));
    assert!(c.wants_write(true));
    assert!(!c.after_write(WriteOutcome::Written(3)));
    assert_eq!(c.write_buffer, vec![0]);
    assert!(!c.after_write(WriteOutcome::WouldBlock));
    assert!(c.after_write(WriteOutcome::Written(1)));
    assert!(c.write_buffer.is_empty());
    assert!(!c.wants_write(true));
}

#[test]
fn failed_read_and_write_close() {
    let mut c = ConnectionState::new(1);
    let step = c.after_read(ReadOutcome::Failed);
    assert!(!step.run_job && step.delete);
    assert!(c.after_write(WriteOutcome::Failed));
    assert!(!c.after_write(WriteOutcome::Interrupted));
}

#[test]
fn tokens_jobs_and_workers() {
    let mut pool = TcpThreadPool::new(3, 10, 1024, 1024);
    assert!(pool.has_token_room());
    assert_eq!(pool.get_unique_poll_token(), 1);
    let t = pool.add_job();
    assert_eq!(t, 1);
    assert!(pool.has_job(1));
    assert_eq!(pool.get_unique_poll_token(), 2);
    let t2 = pool.add_job();
    assert_eq!(t2, 2);
    assert!(pool.has_job(1) && pool.has_job(2));
    pool.record_received(1, 3);
    pool.record_received(2, 4);
    assert_eq!(pool.get_unique_poll_token(), 5);
    let r = pool.route_event(4);
    assert!(!r.to_listener);
    assert_eq!(r.to_worker, Some(2));
    pool.record_deleted(3);
    assert_eq!(pool.get_unique_poll_token(), 3);
    let c = pool.add_connection();
    assert_eq!(c, 3);
    assert_eq!(pool.route_event(3).to_worker, Some(0));
    assert_eq!(pool.get_unique_poll_token(), 5);
    let ids = pool.assign_workers(1, 2);
    assert_eq!(ids, vec![1, 2]);
    let ids = pool.assign_workers(1, 5);
    assert_eq!(ids, vec![3]);
    assert_eq!(pool.worker_count, 3);
    assert_eq!(pool.jobs.get(&1), Some(&3));
    let r = pool.route_event(1);
    assert!(r.to_listener);
    assert_eq!(r.to_worker, None);
}

#[test]
fn small_decisions() {
    assert_eq!(bind_address("127.0.0.1", 8080), "127.0.0.1:8080");
    assert_eq!(bind_address("::1", 0), "::1:0");
    assert!(keep_accepting(AcceptOutcome::Accepted));
    assert!(keep_accepting(AcceptOutcome::Failed));
    assert!(!keep_accepting(AcceptOutcome::WouldBlock));
    assert!(takes_new_message(1, 2));
    assert!(!takes_new_message(2, 2));
}
