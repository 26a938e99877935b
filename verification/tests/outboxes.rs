//! The per-client outbox on its own: bounded, ordered, closable.

use chat_relay::message::Message;
use chat_relay::outbox::Outbox;

fn msg(text: &[u8]) -> Message {
    Message { origin: None, text: text.to_vec() }
}

#[test]
fn new_outbox_is_empty_open_and_bounded() {
    let outbox = Outbox::new(3);
    assert_eq!(outbox.len(), 0);
    assert_eq!(outbox.capacity(), 3);
    assert!(!outbox.is_closed());
}

#[test]
fn deliver_accepts_up_to_capacity_then_drops() {
    let mut outbox = Outbox::new(2);
    assert!(outbox.deliver(&msg(b"one\n")));
    assert!(outbox.deliver(&msg(b"two\n")));
    assert!(!outbox.deliver(&msg(b"three\n")));
    assert_eq!(outbox.len(), 2);
}

#[test]
fn take_next_hands_messages_out_oldest_first() {
    let mut outbox = Outbox::new(4);
    outbox.deliver(&msg(b"a\n"));
    outbox.deliver(&msg(b"b\n"));
    assert_eq!(outbox.take_next().unwrap().text, b"a\n".to_vec());
    assert_eq!(outbox.take_next().unwrap().text, b"b\n".to_vec());
    assert!(outbox.take_next().is_none());
}

#[test]
fn closed_outbox_drops_new_messages_but_keeps_queued_ones() {
    let mut outbox = Outbox::new(4);
    outbox.deliver(&msg(b"kept\n"));
    outbox.close();
    assert!(outbox.is_closed());
    assert!(!outbox.deliver(&msg(b"dropped\n")));
    assert_eq!(outbox.len(), 1);
    assert_eq!(outbox.take_next().unwrap().text, b"kept\n".to_vec());
    assert!(outbox.take_next().is_none());
}

#[test]
fn zero_capacity_outbox_accepts_nothing() {
    let mut outbox = Outbox::new(0);
    assert!(!outbox.deliver(&msg(b"no room\n")));
    assert!(outbox.take_next().is_none());
}

#[test]
fn delivered_message_is_an_equal_independent_copy() {
    let mut outbox = Outbox::new(2);
    let source = Message { origin: Some(5), text: b"copy me\n".to_vec() };
    assert!(outbox.deliver(&source));
    let taken = outbox.take_next().unwrap();
    assert_eq!(taken.origin, Some(5));
    assert_eq!(taken.text, source.text);
}
