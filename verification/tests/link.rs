use commander::bus::{Bus, RecvOutcome};
use commander::link::{framed_text_command, link_closed_notice, LinkReader, LinkSupervisor};
use commander::state::AppState;

fn next_text(bus: &mut Bus, id: usize) -> String {
    match bus.recv(id) {
        RecvOutcome::Received(m) => m,
        _ => panic!("expected a message"),
    }
}

#[test]
fn two_chunk_stream_with_null_padding() {
    let mut bus = Bus::new(16);
    let id = bus.subscribe();
    let mut reader = LinkReader::new();

    reader.on_data(b"{\"a\":1}\x00\x00{\"b\":2", &mut bus);
    assert_eq!(next_text(&mut bus, id), "{\"a\":1}");
    assert!(matches!(bus.recv(id), RecvOutcome::Pending));

    reader.on_data(b"}", &mut bus);
    assert_eq!(next_text(&mut bus, id), "{\"b\":2}");
    assert!(matches!(bus.recv(id), RecvOutcome::Pending));
}

#[test]
fn leading_garbage_yields_single_publish() {
    let mut bus = Bus::new(16);
    let id = bus.subscribe();
    let mut reader = LinkReader::new();

    reader.on_data(b"garbage{\"c\":3}", &mut bus);
    assert_eq!(next_text(&mut bus, id), "{\"c\":3}");
    assert!(matches!(bus.recv(id), RecvOutcome::Pending));
}

#[test]
fn stream_end_always_leaves_close_notice() {
    let mut bus = Bus::new(16);
    let id = bus.subscribe();
    let mut reader = LinkReader::new();

    reader.on_data(b"{\"a\":1}{\"tr", &mut bus);
    assert_eq!(next_text(&mut bus, id), "{\"a\":1}");

    reader.on_stream_end(&mut bus);
    assert!(reader.finished);
    assert!(reader.buffer.is_empty());
    assert_eq!(next_text(&mut bus, id), "TCP_CONNECTION_CLOSED_OR_STREAM_ENDED");
    assert!(matches!(bus.recv(id), RecvOutcome::Pending));
}

#[test]
fn close_notice_text_is_the_sentinel() {
    assert_eq!(link_closed_notice(), "TCP_CONNECTION_CLOSED_OR_STREAM_ENDED");
}

#[test]
fn disconnect_when_disconnected_is_a_noop() {
    let mut sup = LinkSupervisor::new();
    assert!(!sup.is_connected());
    sup.disconnect();
    assert!(!sup.is_connected());
    sup.disconnect();
    assert!(!sup.is_connected());
    assert_eq!(sup.next_gen, 0);
}

#[test]
fn disconnect_drops_the_active_link() {
    let mut sup = LinkSupervisor::new();
    let had = sup.begin_connect();
    assert!(!had);
    sup.complete_connect();
    assert!(sup.is_connected());
    sup.disconnect();
    assert!(!sup.is_connected());
    assert!(sup.send_target().is_none());
}

#[test]
fn reconnect_tears_down_then_uses_fresh_link() {
    let mut sup = LinkSupervisor::new();
    assert!(!sup.begin_connect());
    let first = sup.complete_connect();
    assert_eq!(sup.send_target(), Some(first));

    let had = sup.begin_connect();
    assert!(had);
    assert!(!sup.is_connected());
    let second = sup.complete_connect();
    assert_ne!(second, first);
    assert_eq!(sup.send_target(), Some(second));
}

#[test]
fn failed_reconnect_leaves_no_link() {
    let mut sup = LinkSupervisor::new();
    sup.begin_connect();
    sup.complete_connect();
    let had = sup.begin_connect();
    assert!(had);
    assert!(sup.send_target().is_none());
}

#[test]
fn text_command_carries_carriage_return() {
    assert_eq!(framed_text_command("STATUS"), b"STATUS\r".to_vec());
    assert_eq!(framed_text_command(""), b"\r".to_vec());
}

#[test]
fn fresh_state_is_disconnected_and_empty() {
    let state = AppState::new();
    assert!(state.supervisor.active.is_none());
    assert_eq!(state.bus.capacity, 100);
    assert!(state.bus.subs.is_empty());
    assert!(!state.bus.closed);
    assert!(state.palettes.items.is_empty());
}
