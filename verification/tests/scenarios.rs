//! End-to-end scenarios driven through the library's public API, the
//! way the transport shell drives it: reader decisions feed the
//! broadcast loop, whose fan-out feeds each writer's outbox.

use chat_relay::message::Message;
use chat_relay::message::RelayConfig;
use chat_relay::registry::Registry;
use chat_relay::broadcast::receive_messages;
use chat_relay::session::ReadEvent;
use chat_relay::session::ReaderAction;
use chat_relay::session::SessionState;
use chat_relay::session::reader_step;

fn cfg() -> RelayConfig {
    RelayConfig { echo_to_self: true, attribute_sender: false, max_line_len: 1024 }
}

/// One client's blocking read produced `line`; run the reader
/// decision and, when it forwards, the broadcast loop's round.
fn relay_line(registry: &mut Registry, id: u64, line: &[u8]) -> SessionState {
    let (state, action) = reader_step(&cfg(), id, ReadEvent::Line(line.to_vec()));
    match action {
        ReaderAction::Forward(m) => {
            receive_messages(registry, vec![m], &cfg());
        }
        ReaderAction::Teardown => {
            registry.close_outbox_for(id);
            registry.unregister(id);
        }
    }
    state
}

fn drain(registry: &mut Registry, id: u64) -> Vec<Vec<u8>> {
    let mut out = Vec::new();
    while let Some(m) = registry.take_next_for(id) {
        out.push(m.text);
    }
    out
}

#[test]
fn late_joiner_gets_no_replay_of_history() {
    let mut registry = Registry::new();
    let a = registry.register(8);
    let state = relay_line(&mut registry, a, b"hello\n");
    assert_eq!(state, SessionState::Connected);
    // A's line was fully broadcast before B connected.
    assert_eq!(drain(&mut registry, a), vec![b"hello\n".to_vec()]);
    let b = registry.register(8);
    assert!(registry.take_next_for(b).is_none());
    // The next line reaches both connected clients.
    let state = relay_line(&mut registry, a, b"hi again\n");
    assert_eq!(state, SessionState::Connected);
    for id in [a, b] {
        let got = drain(&mut registry, id);
        assert_eq!(got.len(), 1);
        let text = String::from_utf8(got[0].clone()).unwrap();
        assert!(text.contains("hi again"));
    }
}

#[test]
fn empty_line_ends_only_that_session() {
    let mut registry = Registry::new();
    let a = registry.register(8);
    let c = registry.register(8);
    let state = relay_line(&mut registry, a, b"\n");
    assert_eq!(state, SessionState::Disconnected);
    assert!(!registry.is_registered(a));
    assert!(registry.is_registered(c));
    // The broadcast loop keeps serving the remaining client.
    let delivered = registry.broadcast(&Message { origin: None, text: b"next\n".to_vec() }, &cfg());
    assert_eq!(delivered, 1);
    assert_eq!(drain(&mut registry, c), vec![b"next\n".to_vec()]);
}

#[test]
fn teardown_after_writer_failure_races_harmlessly_with_reader() {
    let mut registry = Registry::new();
    let a = registry.register(8);
    let b = registry.register(8);
    // Writer task failed its write and unregisters; the reader task's
    // own teardown then finds nothing left to do.
    registry.unregister(a);
    registry.close_outbox_for(a);
    registry.unregister(a);
    assert_eq!(registry.client_count(), 1);
    let delivered = registry.broadcast(&Message { origin: Some(b), text: b"on we go\n".to_vec() }, &cfg());
    assert_eq!(delivered, 1);
    assert_eq!(drain(&mut registry, b), vec![b"on we go\n".to_vec()]);
}
