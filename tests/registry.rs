use tokio::sync::mpsc::{unbounded_channel, UnboundedReceiver, UnboundedSender};
use tterm::registry::{RegistryError, SessionManager};
use tterm::session::{OutputPoll, PtyRequest, PtySession};

struct Worker {
    requests: UnboundedReceiver<PtyRequest>,
    output: UnboundedSender<Vec<u8>>,
}

fn spawn_session(id: u128, now: u64) -> (PtySession, Worker) {
    let (in_tx, in_rx) = unbounded_channel();
    let (out_tx, out_rx) = unbounded_channel();
    let session = PtySession::new(id, "/bin/bash".to_string(), Some("/tmp".to_string()), now, in_tx, out_rx);
    (session, Worker { requests: in_rx, output: out_tx })
}

fn attached_of(m: &SessionManager, id: u128) -> Vec<u128> {
    m.list_sessions().into_iter().find(|s| s.id == id).unwrap().attached_clients
}

#[test]
fn create_with_reused_id_is_rejected() {
    let mut m = SessionManager::new();
    let (s1, _w1) = spawn_session(1, 0);
    let (s2, _w2) = spawn_session(1, 0);
    assert_eq!(m.create_session(s1), Ok(()));
    assert_eq!(m.create_session(s2), Err(RegistryError::AlreadyExists));
    assert_eq!(m.session_count(), 1);
}

#[test]
fn operations_on_missing_session_are_not_found() {
    let mut m = SessionManager::new();
    assert_eq!(m.attach_client_to_session(9, 1, 0), Err(RegistryError::NotFound));
    assert_eq!(m.detach_client_from_session(9, 1, 0), Err(RegistryError::NotFound));
    assert_eq!(m.send_input_to_session(9, b"x", 0), Err(RegistryError::NotFound));
    assert_eq!(m.resize_session(9, 80, 24), Err(RegistryError::NotFound));
    assert_eq!(m.terminate_session(9), Err(RegistryError::NotFound));
    assert!(m.read_output_from_session(9, 0).is_err());
}

#[test]
fn read_with_no_pending_output_is_empty() {
    let mut m = SessionManager::new();
    let (s, _w) = spawn_session(1, 0);
    m.create_session(s).unwrap();
    assert_eq!(m.read_output_from_session(1, 5), Ok(None));
}

#[test]
fn output_chunks_arrive_in_order_and_refresh_activity() {
    let mut m = SessionManager::new();
    let (s, w) = spawn_session(1, 0);
    m.create_session(s).unwrap();
    w.output.send(b"first".to_vec()).unwrap();
    w.output.send(b"second".to_vec()).unwrap();
    assert_eq!(m.read_output_from_session(1, 7), Ok(Some(b"first".to_vec())));
    assert_eq!(m.list_sessions()[0].last_activity, 7);
    assert_eq!(m.read_output_from_session(1, 8), Ok(Some(b"second".to_vec())));
    assert_eq!(m.read_output_from_session(1, 9), Ok(None));
    assert_eq!(m.list_sessions()[0].last_activity, 8);
}

#[test]
fn input_reaches_the_worker_in_order() {
    let mut m = SessionManager::new();
    let (s, mut w) = spawn_session(1, 0);
    m.create_session(s).unwrap();
    m.send_input_to_session(1, b"echo hello\n", 3).unwrap();
    m.send_input_to_session(1, b"pwd\n", 4).unwrap();
    match w.requests.try_recv().unwrap() {
        PtyRequest::Input(d) => assert_eq!(d, b"echo hello\n".to_vec()),
        _ => panic!("expected input"),
    }
    match w.requests.try_recv().unwrap() {
        PtyRequest::Input(d) => assert_eq!(d, b"pwd\n".to_vec()),
        _ => panic!("expected input"),
    }
    assert_eq!(m.list_sessions()[0].last_activity, 4);
}

#[test]
fn resize_is_handed_to_the_worker() {
    let mut m = SessionManager::new();
    let (s, mut w) = spawn_session(1, 0);
    m.create_session(s).unwrap();
    assert_eq!(m.resize_session(1, 132, 43), Ok(()));
    match w.requests.try_recv().unwrap() {
        PtyRequest::Resize { cols, rows } => assert_eq!((cols, rows), (132, 43)),
        _ => panic!("expected resize"),
    }
}

#[test]
fn input_to_a_stopped_worker_fails() {
    let mut m = SessionManager::new();
    let (s, w) = spawn_session(1, 0);
    m.create_session(s).unwrap();
    drop(w);
    assert_eq!(m.send_input_to_session(1, b"x", 3), Err(RegistryError::WorkerGone));
    assert_eq!(m.resize_session(1, 10, 10), Err(RegistryError::WorkerGone));
    assert_eq!(m.list_sessions()[0].last_activity, 0);
}

#[test]
fn attach_twice_is_attach_once() {
    let mut m = SessionManager::new();
    let (s, _w) = spawn_session(1, 0);
    m.create_session(s).unwrap();
    m.attach_client_to_session(1, 42, 1).unwrap();
    m.attach_client_to_session(1, 42, 2).unwrap();
    assert_eq!(attached_of(&m, 1), vec![42]);
    assert_eq!(m.list_sessions()[0].last_activity, 2);
}

#[test]
fn detach_of_unattached_client_is_an_error_without_change() {
    let mut m = SessionManager::new();
    let (s, _w) = spawn_session(1, 0);
    m.create_session(s).unwrap();
    m.attach_client_to_session(1, 42, 1).unwrap();
    assert_eq!(m.detach_client_from_session(1, 7, 5), Err(RegistryError::NotAttached));
    assert_eq!(attached_of(&m, 1), vec![42]);
    assert_eq!(m.list_sessions()[0].last_activity, 1);
    assert_eq!(m.detach_client_from_session(1, 42, 6), Ok(()));
    assert!(attached_of(&m, 1).is_empty());
    assert_eq!(m.list_sessions()[0].last_activity, 6);
}

#[test]
fn terminate_removes_the_session() {
    let mut m = SessionManager::new();
    let (s1, _w1) = spawn_session(1, 0);
    let (s2, _w2) = spawn_session(2, 0);
    m.create_session(s1).unwrap();
    m.create_session(s2).unwrap();
    assert_eq!(m.terminate_session(1), Ok(()));
    assert!(!m.has_session(1));
    assert!(m.has_session(2));
    assert_eq!(m.session_count(), 1);
}

#[test]
fn orphan_sweep_after_timeout() {
    let mut m = SessionManager::with_orphan_timeout(1);
    let (s, _w) = spawn_session(1, 100);
    m.create_session(s).unwrap();
    m.attach_client_to_session(1, 5, 100).unwrap();
    m.detach_client_from_session(1, 5, 100).unwrap();
    m.cleanup_orphaned_sessions(101);
    assert!(m.has_session(1));
    m.cleanup_orphaned_sessions(102);
    assert!(m.list_sessions().iter().all(|s| s.id != 1));
}

#[test]
fn attached_session_survives_sweep() {
    let mut m = SessionManager::with_orphan_timeout(1);
    let (s, _w) = spawn_session(1, 0);
    m.create_session(s).unwrap();
    m.attach_client_to_session(1, 5, 0).unwrap();
    m.cleanup_orphaned_sessions(1000);
    assert!(m.has_session(1));
}

#[test]
fn default_orphan_timeout() {
    let mut m = SessionManager::new();
    assert_eq!(m.orphan_timeout_seconds(), 300);
    let (s, _w) = spawn_session(1, 0);
    m.create_session(s).unwrap();
    m.cleanup_orphaned_sessions(300);
    assert!(m.has_session(1));
    m.cleanup_orphaned_sessions(301);
    assert!(!m.has_session(1));
}

#[test]
fn exited_shell_is_swept_after_output_is_drained() {
    let mut m = SessionManager::new();
    let (s, w) = spawn_session(1, 0);
    m.create_session(s).unwrap();
    m.attach_client_to_session(1, 5, 0).unwrap();
    w.output.send(b"bye".to_vec()).unwrap();
    drop(w);
    m.cleanup_orphaned_sessions(1);
    assert!(m.has_session(1));
    assert_eq!(m.read_output_from_session(1, 1), Ok(Some(b"bye".to_vec())));
    assert_eq!(m.read_output_from_session(1, 2), Ok(None));
    m.cleanup_orphaned_sessions(2);
    assert_eq!(m.read_output_from_session(1, 3), Err(RegistryError::NotFound));
}

#[test]
fn list_reports_session_metadata() {
    let mut m = SessionManager::new();
    let (s, _w) = spawn_session(77, 10);
    m.create_session(s).unwrap();
    let list = m.list_sessions();
    assert_eq!(list.len(), 1);
    assert_eq!(list[0].id, 77);
    assert_eq!(list[0].shell, "/bin/bash");
    assert_eq!(list[0].working_directory.as_deref(), Some("/tmp"));
    assert_eq!(list[0].created_at, 10);
    assert!(list[0].attached_clients.is_empty());
}

#[test]
fn activity_time_never_goes_back() {
    let mut m = SessionManager::new();
    let (s, _w) = spawn_session(1, 50);
    m.create_session(s).unwrap();
    m.attach_client_to_session(1, 5, 40).unwrap();
    assert_eq!(m.list_sessions()[0].last_activity, 50);
    m.detach_client_from_session(1, 5, 45).unwrap();
    assert_eq!(m.list_sessions()[0].last_activity, 50);
    m.attach_client_to_session(1, 5, 60).unwrap();
    assert_eq!(m.list_sessions()[0].last_activity, 60);
}

#[test]
fn applying_poll_outcomes() {
    let mut m = SessionManager::new();
    let (s, _w) = spawn_session(1, 0);
    m.create_session(s).unwrap();
    assert_eq!(m.apply_output_poll(1, OutputPoll::Empty, 5), Ok(None));
    assert_eq!(m.list_sessions()[0].last_activity, 0);
    assert_eq!(m.apply_output_poll(1, OutputPoll::Chunk(b"ab".to_vec()), 6), Ok(Some(b"ab".to_vec())));
    assert_eq!(m.list_sessions()[0].last_activity, 6);
    assert_eq!(m.apply_output_poll(1, OutputPoll::Closed, 7), Ok(None));
    m.cleanup_orphaned_sessions(7);
    assert!(!m.has_session(1));
    assert_eq!(m.apply_output_poll(1, OutputPoll::Empty, 8), Err(RegistryError::NotFound));
}
