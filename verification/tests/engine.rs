//! Registry and broadcast fan-out behaviour on concrete runs.

use chat_relay::message::Message;
use chat_relay::message::RelayConfig;
use chat_relay::registry::Registry;
use chat_relay::broadcast::receive_messages;

fn cfg() -> RelayConfig {
    RelayConfig { echo_to_self: true, attribute_sender: false, max_line_len: 1024 }
}

fn msg(origin: Option<u64>, text: &[u8]) -> Message {
    Message { origin, text: text.to_vec() }
}

fn drain(registry: &mut Registry, id: u64) -> Vec<Vec<u8>> {
    let mut out = Vec::new();
    while let Some(m) = registry.take_next_for(id) {
        out.push(m.text);
    }
    out
}

#[test]
fn register_assigns_sequential_fresh_ids() {
    let mut registry = Registry::new();
    assert!(registry.ids_available());
    let a = registry.register(8);
    let b = registry.register(8);
    let c = registry.register(8);
    assert_eq!(a, 0);
    assert_eq!(b, 1);
    assert_eq!(c, 2);
    assert_eq!(registry.client_count(), 3);
    assert!(registry.is_registered(a));
    assert!(registry.is_registered(b));
    assert!(registry.is_registered(c));
    assert!(!registry.is_registered(99));
}

#[test]
fn snapshot_lists_members_in_registration_order() {
    let mut registry = Registry::new();
    let a = registry.register(4);
    let b = registry.register(4);
    let c = registry.register(4);
    assert_eq!(registry.snapshot(), vec![a, b, c]);
    registry.unregister(b);
    assert_eq!(registry.snapshot(), vec![a, c]);
}

#[test]
fn fan_out_reaches_every_registered_client_once() {
    let mut registry = Registry::new();
    let a = registry.register(8);
    let b = registry.register(8);
    let c = registry.register(8);
    let delivered = registry.broadcast(&msg(Some(a), b"hello\n"), &cfg());
    assert_eq!(delivered, 3);
    for id in [a, b, c] {
        let got = drain(&mut registry, id);
        assert_eq!(got, vec![b"hello\n".to_vec()]);
    }
}

#[test]
fn sender_receives_own_message_by_default() {
    let mut registry = Registry::new();
    let a = registry.register(8);
    registry.broadcast(&msg(Some(a), b"echo\n"), &cfg());
    assert_eq!(drain(&mut registry, a), vec![b"echo\n".to_vec()]);
}

#[test]
fn echo_to_self_can_be_suppressed() {
    let mut registry = Registry::new();
    let a = registry.register(8);
    let b = registry.register(8);
    let quiet = RelayConfig { echo_to_self: false, ..cfg() };
    let delivered = registry.broadcast(&msg(Some(a), b"hi\n"), &quiet);
    assert_eq!(delivered, 1);
    assert_eq!(drain(&mut registry, a), Vec::<Vec<u8>>::new());
    assert_eq!(drain(&mut registry, b), vec![b"hi\n".to_vec()]);
}

#[test]
fn full_outbox_drops_message_but_never_blocks_others() {
    let mut registry = Registry::new();
    let slow = registry.register(1);
    let fast = registry.register(8);
    let delivered_first = registry.broadcast(&msg(None, b"one\n"), &cfg());
    assert_eq!(delivered_first, 2);
    // `slow` never drains: its outbox now sits at capacity.
    let delivered_second = registry.broadcast(&msg(None, b"two\n"), &cfg());
    assert_eq!(delivered_second, 1);
    assert_eq!(drain(&mut registry, fast), vec![b"one\n".to_vec(), b"two\n".to_vec()]);
    assert_eq!(drain(&mut registry, slow), vec![b"one\n".to_vec()]);
}

#[test]
fn closed_outbox_is_skipped_softly() {
    let mut registry = Registry::new();
    let gone = registry.register(8);
    let live = registry.register(8);
    registry.close_outbox_for(gone);
    let delivered = registry.broadcast(&msg(None, b"still here\n"), &cfg());
    assert_eq!(delivered, 1);
    assert_eq!(drain(&mut registry, gone), Vec::<Vec<u8>>::new());
    assert_eq!(drain(&mut registry, live), vec![b"still here\n".to_vec()]);
}

#[test]
fn per_sender_order_is_kept_for_every_recipient() {
    let mut registry = Registry::new();
    let a = registry.register(8);
    let b = registry.register(8);
    let batch = vec![
        msg(Some(a), b"first\n"),
        msg(Some(b), b"noise\n"),
        msg(Some(a), b"second\n"),
    ];
    receive_messages(&mut registry, batch, &cfg());
    for id in [a, b] {
        let got = drain(&mut registry, id);
        let first = got.iter().position(|t| t == b"first\n").unwrap();
        let second = got.iter().position(|t| t == b"second\n").unwrap();
        assert!(first < second);
    }
}

#[test]
fn unregister_twice_is_a_harmless_no_op() {
    let mut registry = Registry::new();
    let a = registry.register(8);
    let b = registry.register(8);
    registry.unregister(a);
    registry.unregister(a);
    assert_eq!(registry.client_count(), 1);
    assert!(registry.is_registered(b));
    let delivered = registry.broadcast(&msg(None, b"after\n"), &cfg());
    assert_eq!(delivered, 1);
    assert_eq!(drain(&mut registry, b), vec![b"after\n".to_vec()]);
}

#[test]
fn unregister_of_unknown_id_changes_nothing() {
    let mut registry = Registry::new();
    let a = registry.register(8);
    registry.unregister(77);
    assert_eq!(registry.client_count(), 1);
    assert!(registry.is_registered(a));
}

#[test]
fn all_disconnected_leaves_empty_registry_and_zero_deliveries() {
    let mut registry = Registry::new();
    let mut ids = Vec::new();
    for _ in 0..5 {
        ids.push(registry.register(8));
    }
    for id in ids {
        registry.unregister(id);
    }
    assert_eq!(registry.client_count(), 0);
    assert_eq!(registry.snapshot(), Vec::<u64>::new());
    let delivered = registry.broadcast(&msg(None, b"anyone?\n"), &cfg());
    assert_eq!(delivered, 0);
}

#[test]
fn take_next_for_unknown_or_empty_is_none() {
    let mut registry = Registry::new();
    let a = registry.register(8);
    assert!(registry.take_next_for(a).is_none());
    assert!(registry.take_next_for(12).is_none());
}

#[test]
fn receive_messages_on_empty_batch_changes_nothing() {
    let mut registry = Registry::new();
    let a = registry.register(8);
    receive_messages(&mut registry, Vec::new(), &cfg());
    assert_eq!(registry.client_count(), 1);
    assert!(registry.take_next_for(a).is_none());
}

#[test]
fn message_copies_are_independent_per_recipient() {
    let mut registry = Registry::new();
    let a = registry.register(8);
    let b = registry.register(8);
    registry.broadcast(&msg(Some(a), b"shared\n"), &cfg());
    // Draining one recipient leaves the other's copy in place.
    assert_eq!(drain(&mut registry, a), vec![b"shared\n".to_vec()]);
    assert_eq!(drain(&mut registry, b), vec![b"shared\n".to_vec()]);
}
