use futures::channel::mpsc::{unbounded, UnboundedReceiver};
use tokio::sync::oneshot;
use tokio_tungstenite::tungstenite::protocol::frame::coding::CloseCode;
use tokio_tungstenite::tungstenite::protocol::CloseFrame;
use tokio_tungstenite::tungstenite::Message;
use vlab_relay::channel::{frame_message, policy_close, Incoming, POLICY_VIOLATION};
use vlab_relay::hub::manager::{
    judge, ClientManager, ClientManagerError, Reaction, User, Verdict,
};
use vlab_relay::hub::peers::{Peer, PeerMap, REGISTRATION_GRACE_SECONDS};
use vlab_relay::hub::tasks::{Completion, TaskList};
use vlab_relay::model::{
    CommandResult, CommandSpec, Directory, Frame, Identity, TaskRequest, TaskResponse,
};

fn identity(handle: &str, credential: &str) -> Identity {
    Identity { handle: handle.to_string(), credential: credential.to_string() }
}

fn record(zid: &str, token: &str) -> Option<User> {
    Some(User { zid: zid.to_string(), token: token.to_string() })
}

fn init(handle: &str, credential: &str) -> Incoming {
    Incoming::Binary(Frame::Init(identity(handle, credential)).encode())
}

fn echo_hi() -> CommandSpec {
    CommandSpec {
        executable: "echo".to_string(),
        arguments: vec!["hi".to_string()],
        working_tree: Some(Directory { name: String::new(), files: vec![], subdirectories: vec![] }),
    }
}

fn response(id: &str, output: &str, code: i64) -> TaskResponse {
    TaskResponse {
        id: id.to_string(),
        response: Some(CommandResult { combined_output: output.to_string(), exit_code: code }),
    }
}

/// The messages queued for a peer so far.
fn drain(rx: &mut UnboundedReceiver<Message>) -> Vec<Message> {
    let mut out = Vec::new();
    while let Ok(Some(message)) = rx.try_next() {
        out.push(message);
    }
    out
}

fn is_policy_close(message: &Message) -> bool {
    match message {
        Message::Close(Some(frame)) => frame.code == CloseCode::Policy && frame.reason.is_empty(),
        _ => false,
    }
}

/// A manager with one peer under `address`, registered as `handle`.
fn manager_with(address: u64, handle: &str) -> (ClientManager, UnboundedReceiver<Message>) {
    let mut manager = ClientManager::new();
    let (tx, rx) = unbounded();
    manager.accept(address, tx);
    assert_eq!(
        manager.handle_registration(address, identity(handle, "secret1"), record(handle, "secret1")),
        Reaction::Registered
    );
    (manager, rx)
}

#[test]
fn grace_period_is_three_seconds() {
    assert_eq!(REGISTRATION_GRACE_SECONDS, 3);
}

#[test]
fn messages_are_told_apart_by_kind() {
    // binary: judged by its payload
    let (mut manager, _rx) = manager_with(1, "alice");
    let report = Frame::TaskResponse(response("none", "", 0)).encode();
    assert_eq!(
        manager.handle_message(Message::Binary(report), 1),
        Reaction::Completed(Completion::Stale)
    );
    // close: left alone
    assert_eq!(manager.handle_message(Message::Close(None), 1), Reaction::Ignored);
    // everything else: a violation
    for other in [Message::Text("hi".to_string()), Message::Ping(vec![1]), Message::Pong(vec![1])] {
        let (mut manager, _rx) = manager_with(1, "alice");
        assert_eq!(manager.handle_message(other, 1), Reaction::Closed);
    }
}

#[test]
fn a_new_peer_is_unregistered() {
    let (tx, _rx) = unbounded();
    let peer = Peer::new(tx);
    assert!(!peer.is_registered());
    assert!(!peer.runs_for("alice"));
    assert!(!peer.runs_for(""));
}

#[test]
fn an_identity_once_set_stays() {
    let (tx, _rx) = unbounded();
    let mut peer = Peer::new(tx);
    assert!(peer.register(identity("alice", "secret1")));
    assert!(peer.is_registered());
    assert!(peer.runs_for("alice"));
    assert!(!peer.register(identity("mallory", "x")));
    assert!(peer.runs_for("alice"));
    assert!(!peer.runs_for("mallory"));
}

#[test]
fn a_peer_sends_frames_as_binary_messages() {
    let (tx, mut rx) = unbounded();
    let peer = Peer::new(tx);
    let frame = Frame::TaskRequest(TaskRequest { id: "t1".to_string(), command: Some(echo_hi()) });
    assert!(peer.send_socket_frame(&frame));
    assert_eq!(drain(&mut rx), vec![Message::Binary(frame.encode())]);
}

#[test]
fn a_peer_closes_with_the_policy_code() {
    let (tx, mut rx) = unbounded();
    let peer = Peer::new(tx);
    assert!(peer.close_with_policy());
    let sent = drain(&mut rx);
    assert_eq!(sent.len(), 1);
    assert!(is_policy_close(&sent[0]));
}

#[test]
fn sending_to_a_peer_whose_connection_is_gone_fails() {
    let (tx, rx) = unbounded();
    let peer = Peer::new(tx);
    drop(rx);
    assert!(peer.send_message(Message::Binary(vec![1])).is_err());
    assert!(!peer.send_socket_frame(&Frame::Init(identity("a", "b"))));
    assert!(!peer.close_with_policy());
}

#[test]
fn peer_map_inserts_finds_and_removes() {
    let mut peers = PeerMap::new();
    assert_eq!(peers.len(), 0);
    assert!(peers.get(1).is_none());
    let (tx1, _rx1) = unbounded();
    let (tx2, _rx2) = unbounded();
    peers.insert(1, Peer::new(tx1));
    peers.insert(2, Peer::new(tx2));
    assert_eq!(peers.len(), 2);
    assert!(peers.get(1).is_some());
    assert!(peers.get(3).is_none());
    assert!(peers.register(2, identity("bob", "pw")));
    assert!(!peers.register(2, identity("bob", "pw")));
    assert!(!peers.register(3, identity("carol", "pw")));
    assert_eq!(peers.find_runner("bob"), Some(2));
    assert_eq!(peers.find_runner("alice"), None);
    assert!(peers.remove(2).is_some());
    assert!(peers.remove(2).is_none());
    assert_eq!(peers.find_runner("bob"), None);
    assert_eq!(peers.len(), 1);
}

#[test]
fn inserting_under_a_taken_address_replaces_the_peer() {
    let mut peers = PeerMap::new();
    let (tx1, _rx1) = unbounded();
    let (tx2, mut rx2) = unbounded();
    peers.insert(7, Peer::new(tx1));
    assert!(peers.register(7, identity("alice", "secret1")));
    peers.insert(7, Peer::new(tx2));
    assert_eq!(peers.len(), 1);
    assert!(!peers.get(7).unwrap().is_registered());
    assert!(peers.get(7).unwrap().close_with_policy());
    assert_eq!(drain(&mut rx2).len(), 1);
}

#[test]
fn a_matching_record_registers_the_agent() {
    let mut manager = ClientManager::new();
    let (tx, mut rx) = unbounded();
    manager.accept(1, tx);
    let asked = manager.handle_incoming(init("alice", "secret1"), 1);
    assert_eq!(asked, Reaction::Lookup(identity("alice", "secret1")));
    assert!(!manager.peers.get(1).unwrap().is_registered());
    let done = manager.handle_registration(1, identity("alice", "secret1"), record("alice", "secret1"));
    assert_eq!(done, Reaction::Registered);
    assert!(manager.peers.get(1).unwrap().runs_for("alice"));
    assert!(drain(&mut rx).is_empty());
}

#[test]
fn a_wrong_credential_closes_the_connection() {
    let mut manager = ClientManager::new();
    let (tx, mut rx) = unbounded();
    manager.accept(1, tx);
    let asked = manager.handle_incoming(init("alice", "wrong"), 1);
    assert_eq!(asked, Reaction::Lookup(identity("alice", "wrong")));
    let done = manager.handle_registration(1, identity("alice", "wrong"), record("alice", "secret1"));
    assert_eq!(done, Reaction::Closed);
    assert!(manager.peers.get(1).is_none());
    let sent = drain(&mut rx);
    assert_eq!(sent.len(), 1);
    assert!(is_policy_close(&sent[0]));
}

#[test]
fn registration_without_a_record_closes() {
    let mut manager = ClientManager::new();
    let (tx, mut rx) = unbounded();
    manager.accept(1, tx);
    assert_eq!(manager.handle_registration(1, identity("alice", "secret1"), None), Reaction::Closed);
    assert!(manager.peers.get(1).is_none());
    assert!(is_policy_close(&drain(&mut rx)[0]));
}

#[test]
fn registration_with_the_record_of_another_account_closes() {
    let mut manager = ClientManager::new();
    let (tx, _rx) = unbounded();
    manager.accept(1, tx);
    assert_eq!(
        manager.handle_registration(1, identity("alice", "secret1"), record("bob", "secret1")),
        Reaction::Closed
    );
    assert_eq!(manager.peers.len(), 0);
}

#[test]
fn registration_of_an_unknown_peer_changes_nothing() {
    let (mut manager, _rx) = manager_with(1, "alice");
    assert_eq!(
        manager.handle_registration(9, identity("bob", "pw"), record("bob", "pw")),
        Reaction::UnknownPeer
    );
    assert_eq!(manager.peers.len(), 1);
    assert_eq!(manager.peers.find_runner("bob"), None);
}

#[test]
fn an_unregistered_peer_that_sends_no_init_is_closed() {
    let offences = vec![
        Incoming::Other,
        Incoming::Binary(vec![]),
        Incoming::Binary(vec![0xff, 0xff]),
        Incoming::Binary(Frame::TaskResponse(response("t", "out", 0)).encode()),
        Incoming::Binary(
            Frame::TaskRequest(TaskRequest { id: "t".to_string(), command: None }).encode(),
        ),
    ];
    for offence in offences {
        let mut manager = ClientManager::new();
        let (tx, mut rx) = unbounded();
        manager.accept(4, tx);
        assert_eq!(manager.handle_incoming(offence, 4), Reaction::Closed);
        assert!(manager.peers.get(4).is_none());
        let sent = drain(&mut rx);
        assert_eq!(sent.len(), 1);
        assert!(is_policy_close(&sent[0]));
    }
}

#[test]
fn a_text_message_is_a_violation() {
    let (mut manager, mut rx) = manager_with(1, "alice");
    assert_eq!(manager.handle_message(Message::Text("hello".to_string()), 1), Reaction::Closed);
    assert!(manager.peers.get(1).is_none());
    assert!(is_policy_close(&drain(&mut rx)[0]));
}

#[test]
fn a_close_message_is_left_alone() {
    let mut manager = ClientManager::new();
    let (tx, mut rx) = unbounded();
    manager.accept(1, tx);
    assert_eq!(manager.handle_message(Message::Close(None), 1), Reaction::Ignored);
    assert!(manager.peers.get(1).is_some());
    assert!(drain(&mut rx).is_empty());
}

#[test]
fn a_registered_peer_that_sends_a_second_init_is_closed() {
    let (mut manager, mut rx) = manager_with(1, "alice");
    assert_eq!(manager.handle_incoming(init("alice", "secret1"), 1), Reaction::Closed);
    assert!(manager.peers.get(1).is_none());
    assert_eq!(manager.peers.find_runner("alice"), None);
    let sent = drain(&mut rx);
    assert_eq!(sent.len(), 1);
    assert!(is_policy_close(&sent[0]));
}

#[test]
fn a_registered_peer_that_sends_a_task_request_is_closed() {
    let (mut manager, mut rx) = manager_with(1, "alice");
    let request = Frame::TaskRequest(TaskRequest { id: "t".to_string(), command: Some(echo_hi()) });
    assert_eq!(manager.handle_incoming(Incoming::Binary(request.encode()), 1), Reaction::Closed);
    assert!(is_policy_close(&drain(&mut rx)[0]));
}

#[test]
fn a_registration_that_comes_twice_closes_the_peer() {
    let (mut manager, _rx) = manager_with(1, "alice");
    assert_eq!(
        manager.handle_registration(1, identity("alice", "secret1"), record("alice", "secret1")),
        Reaction::Closed
    );
    assert!(manager.peers.get(1).is_none());
}

#[test]
fn a_message_from_an_unknown_peer_changes_nothing() {
    let (mut manager, mut rx) = manager_with(1, "alice");
    assert_eq!(manager.handle_incoming(Incoming::Other, 2), Reaction::UnknownPeer);
    assert_eq!(manager.handle_message(Message::Binary(vec![]), 2), Reaction::UnknownPeer);
    assert_eq!(manager.peers.len(), 1);
    assert!(drain(&mut rx).is_empty());
}

#[test]
fn the_grace_period_closes_a_peer_that_has_not_registered() {
    let mut manager = ClientManager::new();
    let (tx, mut rx) = unbounded();
    manager.accept(1, tx);
    assert_eq!(manager.registration_expired(1), Reaction::Closed);
    assert!(manager.peers.get(1).is_none());
    assert!(is_policy_close(&drain(&mut rx)[0]));
}

#[test]
fn the_grace_period_spares_a_registered_peer() {
    let (mut manager, mut rx) = manager_with(1, "alice");
    assert_eq!(manager.registration_expired(1), Reaction::Ignored);
    assert!(manager.peers.get(1).unwrap().is_registered());
    assert!(drain(&mut rx).is_empty());
    assert_eq!(manager.registration_expired(5), Reaction::Ignored);
}

#[test]
fn a_disconnect_drops_the_peer_in_any_state() {
    let (mut manager, _rx) = manager_with(1, "alice");
    let (tx, _rx2) = unbounded();
    manager.accept(2, tx);
    assert!(manager.disconnected(1));
    assert!(manager.disconnected(2));
    assert!(!manager.disconnected(2));
    assert_eq!(manager.peers.len(), 0);
}

#[test]
fn judge_follows_the_rules() {
    assert_eq!(judge(false, Incoming::Close(None)), Verdict::Ignore);
    assert_eq!(judge(true, Incoming::Close(Some(1000))), Verdict::Ignore);
    assert_eq!(judge(false, Incoming::Other), Verdict::Close);
    assert_eq!(judge(true, Incoming::Other), Verdict::Close);
    assert_eq!(judge(false, init("a", "b")), Verdict::Lookup(identity("a", "b")));
    assert_eq!(judge(true, init("a", "b")), Verdict::Close);
    let report = Incoming::Binary(Frame::TaskResponse(response("t", "o", 3)).encode());
    assert_eq!(judge(true, report), Verdict::Complete(response("t", "o", 3)));
    let report = Incoming::Binary(Frame::TaskResponse(response("t", "o", 3)).encode());
    assert_eq!(judge(false, report), Verdict::Close);
}

#[test]
fn a_task_goes_to_the_runner_and_its_result_comes_back() {
    let (mut manager, mut rx) = manager_with(1, "alice");
    let mut ticket = manager.forward_task("alice", echo_hi()).unwrap();
    assert!(ticket.sent);
    assert!(manager.tasks.is_pending(&ticket.task_id));
    assert_eq!(manager.tasks.len(), 1);
    assert!(ticket.receiver.try_recv().is_err());

    // what the runner receives
    let sent = drain(&mut rx);
    assert_eq!(sent.len(), 1);
    let expected = Frame::TaskRequest(TaskRequest {
        id: ticket.task_id.clone(),
        command: Some(echo_hi()),
    });
    assert_eq!(sent[0], Message::Binary(expected.encode()));

    // what the runner reports
    let report = Frame::TaskResponse(response(&ticket.task_id, "hi\n", 0));
    let reaction = manager.handle_message(Message::Binary(report.encode()), 1);
    assert_eq!(reaction, Reaction::Completed(Completion::Delivered));
    assert!(!manager.tasks.is_pending(&ticket.task_id));
    assert_eq!(
        ticket.receiver.try_recv().unwrap(),
        Some(CommandResult { combined_output: "hi\n".to_string(), exit_code: 0 })
    );
}

#[test]
fn an_identity_without_agent_is_no_runner() {
    let (mut manager, mut rx) = manager_with(1, "alice");
    let refused = manager.forward_task("bob", echo_hi());
    assert_eq!(refused.err(), Some(ClientManagerError::NoRunner));
    assert_eq!(manager.tasks.len(), 0);
    assert!(drain(&mut rx).is_empty());
}

#[test]
fn an_unregistered_peer_is_no_runner() {
    let mut manager = ClientManager::new();
    let (tx, _rx) = unbounded();
    manager.accept(1, tx);
    assert_eq!(manager.forward_task("alice", echo_hi()).err(), Some(ClientManagerError::NoRunner));
    assert_eq!(manager.forward_task("", echo_hi()).err(), Some(ClientManagerError::NoRunner));
}

#[test]
fn a_runner_that_left_is_no_runner() {
    let (mut manager, _rx) = manager_with(1, "alice");
    assert!(manager.forward_task("alice", echo_hi()).is_ok());
    manager.disconnected(1);
    assert_eq!(manager.forward_task("alice", echo_hi()).err(), Some(ClientManagerError::NoRunner));
}

#[test]
fn task_ids_are_fresh() {
    let (mut manager, _rx) = manager_with(1, "alice");
    let first = manager.forward_task("alice", echo_hi()).unwrap();
    let second = manager.forward_task("alice", echo_hi()).unwrap();
    assert_ne!(first.task_id, second.task_id);
    assert_eq!(first.task_id.len(), 36);
    assert_eq!(manager.tasks.len(), 2);
}

#[test]
fn prepare_files_the_task_under_the_given_id() {
    let (mut manager, mut rx) = manager_with(3, "alice");
    let dispatch = manager.prepare("alice", echo_hi(), "task-1".to_string()).unwrap();
    assert_eq!(dispatch.runner, 3);
    assert_eq!(
        dispatch.frame,
        Frame::TaskRequest(TaskRequest { id: "task-1".to_string(), command: Some(echo_hi()) })
    );
    assert!(manager.tasks.is_pending("task-1"));
    // nothing is sent yet
    assert!(drain(&mut rx).is_empty());
}

#[test]
fn prepare_refuses_an_id_that_is_pending() {
    let (mut manager, _rx) = manager_with(3, "alice");
    assert!(manager.prepare("alice", echo_hi(), "task-1".to_string()).is_ok());
    let again = manager.prepare("alice", echo_hi(), "task-1".to_string());
    assert_eq!(again.err(), Some(ClientManagerError::DuplicateTask));
    assert_eq!(manager.tasks.len(), 1);
    // no runner comes before a duplicate id
    let nobody = manager.prepare("bob", echo_hi(), "task-1".to_string());
    assert_eq!(nobody.err(), Some(ClientManagerError::NoRunner));
}

#[test]
fn a_duplicate_response_is_dropped() {
    let (mut manager, _rx) = manager_with(1, "alice");
    let mut first = manager.forward_task("alice", echo_hi()).unwrap();
    let mut second = manager.forward_task("alice", echo_hi()).unwrap();

    let report = Frame::TaskResponse(response(&first.task_id, "one", 0)).encode();
    assert_eq!(
        manager.handle_incoming(Incoming::Binary(report.clone()), 1),
        Reaction::Completed(Completion::Delivered)
    );
    // the duplicate
    assert_eq!(
        manager.handle_incoming(Incoming::Binary(report), 1),
        Reaction::Completed(Completion::Stale)
    );
    // the peer stays, the other task is untouched
    assert!(manager.peers.get(1).is_some());
    assert!(manager.tasks.is_pending(&second.task_id));
    assert!(second.receiver.try_recv().is_err());
    assert_eq!(first.receiver.try_recv().unwrap().unwrap().combined_output, "one");

    let report = Frame::TaskResponse(response(&second.task_id, "two", 5)).encode();
    assert_eq!(
        manager.handle_incoming(Incoming::Binary(report), 1),
        Reaction::Completed(Completion::Delivered)
    );
    assert_eq!(
        second.receiver.try_recv().unwrap(),
        Some(CommandResult { combined_output: "two".to_string(), exit_code: 5 })
    );
}

#[test]
fn a_response_for_an_unknown_id_is_stale() {
    let (mut manager, _rx) = manager_with(1, "alice");
    let report = Frame::TaskResponse(response("never-issued", "x", 0)).encode();
    assert_eq!(
        manager.handle_incoming(Incoming::Binary(report), 1),
        Reaction::Completed(Completion::Stale)
    );
}

#[test]
fn completion_reaches_the_caller_of_that_id_only() {
    let mut tasks = TaskList::new();
    let (tx_a, mut rx_a) = oneshot::channel();
    let (tx_b, mut rx_b) = oneshot::channel();
    let (tx_c, mut rx_c) = oneshot::channel();
    tasks.add_task("a".to_string(), tx_a);
    tasks.add_task("b".to_string(), tx_b);
    tasks.add_task("c".to_string(), tx_c);
    assert_eq!(tasks.len(), 3);

    assert_eq!(tasks.complete_task(response("b", "for b", 2)), Completion::Delivered);
    assert!(rx_a.try_recv().is_err());
    assert!(rx_c.try_recv().is_err());
    assert_eq!(
        rx_b.try_recv().unwrap(),
        Some(CommandResult { combined_output: "for b".to_string(), exit_code: 2 })
    );
    assert!(tasks.is_pending("a"));
    assert!(!tasks.is_pending("b"));
    assert!(tasks.is_pending("c"));

    assert_eq!(tasks.complete_task(response("zzz", "stray", 0)), Completion::Stale);
    assert_eq!(tasks.len(), 2);

    assert_eq!(tasks.complete_task(response("c", "for c", 0)), Completion::Delivered);
    assert_eq!(tasks.complete_task(response("a", "for a", 0)), Completion::Delivered);
    assert_eq!(rx_a.try_recv().unwrap().unwrap().combined_output, "for a");
    assert_eq!(rx_c.try_recv().unwrap().unwrap().combined_output, "for c");
    assert_eq!(tasks.len(), 0);
}

#[test]
fn completion_for_a_caller_that_gave_up_is_abandoned() {
    let mut tasks = TaskList::new();
    let (tx, rx) = oneshot::channel();
    tasks.add_task("a".to_string(), tx);
    drop(rx);
    assert_eq!(tasks.complete_task(response("a", "late", 0)), Completion::Abandoned);
    assert!(!tasks.is_pending("a"));
}

#[test]
fn a_response_without_result_completes_with_none() {
    let mut tasks = TaskList::new();
    let (tx, mut rx) = oneshot::channel();
    tasks.add_task("a".to_string(), tx);
    let empty = TaskResponse { id: "a".to_string(), response: None };
    assert_eq!(tasks.complete_task(empty), Completion::Delivered);
    assert_eq!(rx.try_recv().unwrap(), None);
}

#[test]
fn take_hands_out_the_slot_once() {
    let mut tasks = TaskList::new();
    let (tx, mut rx) = oneshot::channel();
    tasks.add_task("a".to_string(), tx);
    let slot = tasks.take("a").unwrap();
    assert!(tasks.take("a").is_none());
    assert!(tasks.take("b").is_none());
    assert!(slot.send(None).is_ok());
    assert_eq!(rx.try_recv().unwrap(), None);
}

#[test]
fn a_task_whose_runner_is_gone_stays_pending() {
    let (mut manager, rx) = manager_with(1, "alice");
    drop(rx);
    let ticket = manager.forward_task("alice", echo_hi()).unwrap();
    assert!(!ticket.sent);
    assert!(manager.tasks.is_pending(&ticket.task_id));
}

#[test]
fn the_policy_close_carries_the_policy_code() {
    assert_eq!(POLICY_VIOLATION, 1008);
    let message = policy_close();
    assert!(is_policy_close(&message));
    match message {
        Message::Close(Some(frame)) => assert_eq!(u16::from(frame.code), 1008),
        _ => panic!("no close message"),
    }
}

#[test]
fn a_frame_travels_as_a_binary_message() {
    let frame = Frame::Init(identity("alice", "secret1"));
    assert_eq!(frame_message(&frame), Message::Binary(frame.encode()));
}

#[test]
fn a_close_message_with_any_code_is_left_alone() {
    for code in [1000u16, 1008, 1004, 3000, 4999, 0] {
        let (mut manager, mut rx) = manager_with(1, "alice");
        let close = Message::Close(Some(CloseFrame { code: CloseCode::from(code), reason: "".into() }));
        assert_eq!(manager.handle_message(close, 1), Reaction::Ignored);
        assert!(manager.peers.get(1).is_some());
        assert!(drain(&mut rx).is_empty());
    }
}
