//! Message passing.
use thumos::ipc::{
    has_messages, recv, send, validate_pid, Inbox, Inboxes, IpcSendError, Message, ESRCH,
    INBOX_SIZE, MAX_INBOX_PROCS, MSG_MAX_SIZE,
};

#[test]
fn send_reports_invalid_target_distinctly() {
    let msg = Message::new(1, b"x");
    let mut inboxes = Inboxes::new();
    assert_eq!(
        send(&mut inboxes, 0, MAX_INBOX_PROCS as u8, msg),
        Err(IpcSendError::InvalidTarget)
    );
}

#[test]
fn send_reports_inbox_full_distinctly_from_invalid_target() {
    let mut inboxes = Inboxes::new();
    for _ in 0..INBOX_SIZE {
        assert_eq!(send(&mut inboxes, 0, 1, Message::new(1, b"x")), Ok(()));
    }
    assert_eq!(
        send(&mut inboxes, 0, 1, Message::new(1, b"x")),
        Err(IpcSendError::InboxFull)
    );
}

#[test]
fn validate_pid_accepts_valid_pids() {
    for pid in 0..MAX_INBOX_PROCS as u8 {
        assert!(validate_pid(pid).is_ok(), "pid {pid} should be valid");
        assert_eq!(validate_pid(pid), Ok(pid as usize));
    }
}

#[test]
fn validate_pid_rejects_out_of_range() {
    assert_eq!(validate_pid(MAX_INBOX_PROCS as u8), Err(ESRCH));
    assert_eq!(validate_pid(u8::MAX), Err(ESRCH));
    assert_eq!(validate_pid(200), Err(ESRCH));
}

#[test]
fn validate_pid_never_routes_to_zero() {
    let result = validate_pid(MAX_INBOX_PROCS as u8);
    assert!(result.is_err(), "invalid PID must not succeed");
    assert_ne!(result, Ok(0), "invalid PID must never route to pid 0");
}

#[test]
fn inbox_push_pop_round_trips() {
    let mut inbox = Inbox::new();
    assert!(inbox.is_empty());

    let msg = Message::new(42, b"hello");
    assert!(inbox.push(msg));
    assert!(!inbox.is_empty());

    let popped = inbox.pop();
    assert!(popped.is_some());
    let popped = popped.as_ref();
    assert_eq!(popped.map(|m| m.tag), Some(42));
    assert_eq!(popped.map(|m| m.payload()), Some(b"hello".as_slice()));
    assert!(inbox.is_empty());
}

#[test]
fn inbox_rejects_when_full() {
    let mut inbox = Inbox::new();
    for i in 0..INBOX_SIZE {
        let msg = Message::new(i as u32, &[]);
        assert!(inbox.push(msg), "push {i} should succeed");
    }
    assert!(inbox.is_full());

    let msg = Message::new(999, &[]);
    assert!(!inbox.push(msg), "push to full inbox must return false");
}

#[test]
fn inbox_pop_empty_returns_none() {
    let mut inbox = Inbox::new();
    assert!(inbox.pop().is_none());
}

#[test]
fn message_new_truncates_oversized_payload_to_max_size() {
    let oversized = [0xABu8; MSG_MAX_SIZE + 64];
    let msg = Message::new(7, &oversized);
    assert_eq!(
        msg.len, MSG_MAX_SIZE,
        "payload must truncate to MSG_MAX_SIZE"
    );
    assert_eq!(msg.payload().len(), MSG_MAX_SIZE);
    assert!(msg.payload().iter().all(|&b| b == 0xAB));
}

#[test]
fn messages_arrive_in_order_under_the_senders_pid() {
    let mut inboxes = Inboxes::new();
    assert!(!has_messages(&inboxes, 3));
    assert_eq!(send(&mut inboxes, 5, 3, Message::new(1, b"one")), Ok(()));
    assert_eq!(send(&mut inboxes, 6, 3, Message::new(2, b"two")), Ok(()));
    assert!(has_messages(&inboxes, 3));
    assert!(!has_messages(&inboxes, 5), "no message reaches its sender");

    let first = recv(&mut inboxes, 3).expect("first");
    assert_eq!((first.from, first.tag, first.payload()), (5, 1, &b"one"[..]));
    let second = recv(&mut inboxes, 3).expect("second");
    assert_eq!((second.from, second.tag, second.payload()), (6, 2, &b"two"[..]));
    assert!(recv(&mut inboxes, 3).is_none());
}

#[test]
fn an_invalid_receiver_receives_nothing() {
    let mut inboxes = Inboxes::new();
    assert!(recv(&mut inboxes, 16).is_none());
    assert!(!has_messages(&inboxes, 255));
}

#[test]
fn the_ring_wraps_around() {
    let mut inbox = Inbox::new();
    for round in 0..5u32 {
        for i in 0..10u32 {
            assert!(inbox.push(Message::new(round * 100 + i, &[])));
        }
        for i in 0..10u32 {
            assert_eq!(inbox.pop().map(|m| m.tag), Some(round * 100 + i));
        }
    }
    assert!(inbox.is_empty());
    assert!(!inbox.is_full());
}
