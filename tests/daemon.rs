use tokio::sync::mpsc::{unbounded_channel, UnboundedReceiver, UnboundedSender};
use tterm::daemon::{Outcome, PtyDaemon};
use tterm::messages::{ClientMessage, DaemonMessage};
use tterm::session::{OutputPoll, PtyRequest, PtySession};

struct Worker {
    requests: UnboundedReceiver<PtyRequest>,
    output: UnboundedSender<Vec<u8>>,
}

/// Plays the connection's part for a create: spawn (here, channels only), then complete.
fn create(d: &mut PtyDaemon, client: u128, id: u128, now: u64) -> (DaemonMessage, Option<Worker>) {
    let msg = ClientMessage::RegisterAndCreateSession {
        session_id: id,
        shell: "/bin/bash".to_string(),
        working_directory: Some("/tmp".to_string()),
    };
    match d.handle_client_message(client, msg, now) {
        Outcome::Spawn { session_id, shell, working_directory } => {
            let (in_tx, in_rx) = unbounded_channel();
            let (out_tx, out_rx) = unbounded_channel();
            let s = PtySession::new(session_id, shell, working_directory, now, in_tx, out_rx);
            (d.complete_create(client, s, now), Some(Worker { requests: in_rx, output: out_tx }))
        }
        Outcome::Reply(m) => (m, None),
        Outcome::Silent => panic!("create is never silent"),
    }
}

fn error_text(o: Outcome) -> String {
    match o {
        Outcome::Reply(DaemonMessage::Error { message }) => message,
        _ => panic!("expected an error reply"),
    }
}

fn attached(d: &PtyDaemon, id: u128) -> Vec<u128> {
    let list = d.session_manager().list_sessions();
    list.into_iter().find(|s| s.id == id).unwrap().attached_clients
}

#[test]
fn hello_round_trip() {
    let mut d = PtyDaemon::new();
    let (reply, worker) = create(&mut d, 10, 1, 0);
    assert!(matches!(reply, DaemonMessage::SessionCreated { session_id: 1 }));
    let mut w = worker.unwrap();
    assert!(d.route_input(10, b"echo hello\n", 1));
    match w.requests.try_recv().unwrap() {
        PtyRequest::Input(data) => assert_eq!(data, b"echo hello\n".to_vec()),
        _ => panic!("expected input"),
    }
    w.output.send(b"hello\r\n".to_vec()).unwrap();
    assert_eq!(d.next_output(10, 2), Some(b"hello\r\n".to_vec()));
    assert_eq!(d.next_output(10, 3), None);
}

#[test]
fn creator_is_attached_and_bound() {
    let mut d = PtyDaemon::new();
    let (_reply, _w) = create(&mut d, 10, 1, 0);
    assert_eq!(d.binding_of(10), Some(1));
    assert_eq!(attached(&d, 1), vec![10]);
}

#[test]
fn create_with_taken_id_replies_error() {
    let mut d = PtyDaemon::new();
    let (_r, _w) = create(&mut d, 10, 1, 0);
    let (reply, worker) = create(&mut d, 11, 1, 0);
    assert!(worker.is_none());
    match reply {
        DaemonMessage::Error { message } => assert_eq!(message, "session already exists"),
        _ => panic!("expected an error"),
    }
    assert_eq!(d.binding_of(11), None);
}

#[test]
fn register_client_is_acknowledged() {
    let mut d = PtyDaemon::new();
    let o = d.handle_client_message(3, ClientMessage::RegisterClient { client_id: 3 }, 0);
    assert!(matches!(o, Outcome::Reply(DaemonMessage::ClientRegistered { client_id: 3 })));
}

#[test]
fn raw_input_without_binding_is_dropped() {
    let mut d = PtyDaemon::new();
    assert!(!d.route_input(10, b"ls\n", 0));
    assert_eq!(d.next_output(10, 0), None);
}

#[test]
fn detach_then_attach_from_another_client() {
    let mut d = PtyDaemon::new();
    let (_r, worker) = create(&mut d, 10, 1, 0);
    let mut w = worker.unwrap();
    let o = d.handle_client_message(10, ClientMessage::DetachFromSession { session_id: 1, client_id: 10 }, 1);
    assert!(matches!(o, Outcome::Silent));
    assert_eq!(d.binding_of(10), None);
    assert!(attached(&d, 1).is_empty());
    let o = d.handle_client_message(20, ClientMessage::AttachToSession { session_id: 1, client_id: 20 }, 2);
    assert!(matches!(o, Outcome::Silent));
    assert_eq!(d.binding_of(20), Some(1));
    assert!(d.route_input(20, b"pwd\ncat f.txt\n", 3));
    match w.requests.try_recv().unwrap() {
        PtyRequest::Input(data) => assert_eq!(data, b"pwd\ncat f.txt\n".to_vec()),
        _ => panic!("expected input"),
    }
}

#[test]
fn control_errors_keep_the_connection() {
    let mut d = PtyDaemon::new();
    let o = d.handle_client_message(1, ClientMessage::AttachToSession { session_id: 5, client_id: 1 }, 0);
    assert_eq!(error_text(o), "session not found");
    let o = d.handle_client_message(1, ClientMessage::ResizeSession { session_id: 5, cols: 80, rows: 24 }, 0);
    assert_eq!(error_text(o), "session not found");
    let (_r, _w) = create(&mut d, 10, 1, 0);
    let o = d.handle_client_message(1, ClientMessage::DetachFromSession { session_id: 1, client_id: 99 }, 0);
    assert_eq!(error_text(o), "client is not attached to the session");
}

#[test]
fn send_input_control_message_reaches_the_shell() {
    let mut d = PtyDaemon::new();
    let (_r, worker) = create(&mut d, 10, 1, 0);
    let mut w = worker.unwrap();
    let o = d.handle_client_message(10, ClientMessage::SendInput { session_id: 1, data: b"ls\n".to_vec() }, 1);
    assert!(matches!(o, Outcome::Silent));
    match w.requests.try_recv().unwrap() {
        PtyRequest::Input(data) => assert_eq!(data, b"ls\n".to_vec()),
        _ => panic!("expected input"),
    }
}

#[test]
fn resize_request_reaches_the_worker() {
    let mut d = PtyDaemon::new();
    let (_r, worker) = create(&mut d, 10, 1, 0);
    let mut w = worker.unwrap();
    let o = d.handle_client_message(10, ClientMessage::ResizeSession { session_id: 1, cols: 132, rows: 43 }, 1);
    assert!(matches!(o, Outcome::Silent));
    match w.requests.try_recv().unwrap() {
        PtyRequest::Resize { cols, rows } => assert_eq!((cols, rows), (132, 43)),
        _ => panic!("expected resize"),
    }
}

#[test]
fn read_output_message() {
    let mut d = PtyDaemon::new();
    let (_r, worker) = create(&mut d, 10, 1, 0);
    let w = worker.unwrap();
    let o = d.handle_client_message(10, ClientMessage::ReadOutput { session_id: 1 }, 1);
    assert!(matches!(o, Outcome::Silent));
    w.output.send(b"out".to_vec()).unwrap();
    match d.handle_client_message(10, ClientMessage::ReadOutput { session_id: 1 }, 2) {
        Outcome::Reply(DaemonMessage::SessionOutput { session_id, data }) => {
            assert_eq!(session_id, 1);
            assert_eq!(data, b"out".to_vec());
        }
        _ => panic!("expected output"),
    }
}

#[test]
fn list_and_terminate() {
    let mut d = PtyDaemon::new();
    let (_r1, _w1) = create(&mut d, 10, 1, 0);
    let (_r2, _w2) = create(&mut d, 11, 2, 0);
    match d.handle_client_message(10, ClientMessage::ListSessions, 1) {
        Outcome::Reply(DaemonMessage::SessionList { sessions }) => {
            let ids: Vec<u128> = sessions.iter().map(|s| s.id).collect();
            assert_eq!(ids, vec![1, 2]);
        }
        _ => panic!("expected a list"),
    }
    let o = d.handle_client_message(10, ClientMessage::TerminateSession { session_id: 1 }, 2);
    assert!(matches!(o, Outcome::Reply(DaemonMessage::SessionTerminated { session_id: 1 })));
    assert_eq!(d.binding_of(10), None);
    assert_eq!(d.binding_of(11), Some(2));
    let o = d.handle_client_message(10, ClientMessage::TerminateSession { session_id: 1 }, 3);
    assert_eq!(error_text(o), "session not found");
}

#[test]
fn disconnect_detaches_everywhere() {
    let mut d = PtyDaemon::new();
    let (_r1, _w1) = create(&mut d, 10, 1, 0);
    let (_r2, _w2) = create(&mut d, 10, 2, 0);
    assert_eq!(d.binding_of(10), Some(2));
    assert!(attached(&d, 1).is_empty());
    assert_eq!(attached(&d, 2), vec![10]);
    let o = d.handle_client_message(10, ClientMessage::Disconnect { client_id: 10 }, 5);
    assert!(matches!(o, Outcome::Silent));
    assert_eq!(d.binding_of(10), None);
    assert!(attached(&d, 1).is_empty());
    assert!(attached(&d, 2).is_empty());
}

#[test]
fn orphaned_session_swept_from_daemon() {
    let mut d = PtyDaemon::with_orphan_timeout(1);
    let (_r, _w) = create(&mut d, 10, 1, 100);
    d.handle_client_message(10, ClientMessage::DetachFromSession { session_id: 1, client_id: 10 }, 100);
    d.cleanup_orphaned_sessions(102);
    match d.handle_client_message(10, ClientMessage::ListSessions, 102) {
        Outcome::Reply(DaemonMessage::SessionList { sessions }) => assert!(sessions.iter().all(|s| s.id != 1)),
        _ => panic!("expected a list"),
    }
}

#[test]
fn exited_session_binding_is_dropped_by_sweep() {
    let mut d = PtyDaemon::new();
    let (_r, worker) = create(&mut d, 10, 1, 0);
    drop(worker);
    assert_eq!(d.next_output(10, 1), None);
    d.cleanup_orphaned_sessions(1);
    assert_eq!(d.binding_of(10), None);
    assert!(!d.session_manager().has_session(1));
}

#[test]
fn attach_twice_through_the_daemon_is_attach_once() {
    let mut d = PtyDaemon::new();
    let (_r, _w) = create(&mut d, 10, 1, 0);
    let a = ClientMessage::AttachToSession { session_id: 1, client_id: 20 };
    let b = ClientMessage::AttachToSession { session_id: 1, client_id: 20 };
    assert!(matches!(d.handle_client_message(20, a, 1), Outcome::Silent));
    assert!(matches!(d.handle_client_message(20, b, 1), Outcome::Silent));
    assert_eq!(attached(&d, 1), vec![10, 20]);
    assert_eq!(d.binding_of(20), Some(1));
}

#[test]
fn bound_clients_are_attached() {
    let mut d = PtyDaemon::new();
    let (_r1, _w1) = create(&mut d, 10, 1, 0);
    let (_r2, _w2) = create(&mut d, 11, 2, 0);
    d.handle_client_message(12, ClientMessage::AttachToSession { session_id: 1, client_id: 12 }, 1);
    for client in [10u128, 11, 12] {
        let session = d.binding_of(client).unwrap();
        assert!(attached(&d, session).contains(&client));
    }
    assert_eq!(attached(&d, 1).len(), 2);
    assert_eq!(attached(&d, 2).len(), 1);
}

#[test]
fn attach_binds_the_connection_not_the_id_in_the_message() {
    let mut d = PtyDaemon::new();
    let (_r, worker) = create(&mut d, 10, 1, 0);
    let mut w = worker.unwrap();
    d.handle_client_message(10, ClientMessage::DetachFromSession { session_id: 1, client_id: 10 }, 1);
    let o = d.handle_client_message(30, ClientMessage::AttachToSession { session_id: 1, client_id: 999 }, 2);
    assert!(matches!(o, Outcome::Silent));
    assert_eq!(d.binding_of(30), Some(1));
    assert_eq!(d.binding_of(999), None);
    assert_eq!(attached(&d, 1), vec![30]);
    assert!(d.route_input(30, b"pwd\n", 3));
    match w.requests.try_recv().unwrap() {
        PtyRequest::Input(data) => assert_eq!(data, b"pwd\n".to_vec()),
        _ => panic!("expected input"),
    }
    d.handle_client_message(30, ClientMessage::Disconnect { client_id: 999 }, 4);
    assert!(attached(&d, 1).is_empty());
    assert_eq!(d.binding_of(30), None);
}

#[test]
fn attaching_elsewhere_leaves_the_previous_session() {
    let mut d = PtyDaemon::new();
    let (_r1, _w1) = create(&mut d, 10, 1, 0);
    let (_r2, _w2) = create(&mut d, 11, 2, 0);
    let o = d.handle_client_message(10, ClientMessage::AttachToSession { session_id: 2, client_id: 10 }, 3);
    assert!(matches!(o, Outcome::Silent));
    assert!(attached(&d, 1).is_empty());
    assert_eq!(attached(&d, 2), vec![11, 10]);
    assert_eq!(d.binding_of(10), Some(2));
}

#[test]
fn applying_output_outcomes_for_a_connection() {
    let mut d = PtyDaemon::new();
    assert_eq!(d.apply_output(10, OutputPoll::Chunk(b"x".to_vec()), 0), None);
    let (_r, _w) = create(&mut d, 10, 1, 0);
    assert_eq!(d.apply_output(10, OutputPoll::Empty, 1), None);
    assert_eq!(d.apply_output(10, OutputPoll::Chunk(b"x".to_vec()), 2), Some(b"x".to_vec()));
    assert_eq!(d.apply_output(10, OutputPoll::Closed, 3), None);
    d.cleanup_orphaned_sessions(3);
    assert_eq!(d.binding_of(10), None);
}
