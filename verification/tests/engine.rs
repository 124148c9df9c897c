//! The lifecycle controller and connection engine, driven as the
//! network shell drives it.

use dwebble_rws::connection::next_connection_id;
use dwebble_rws::protocol::{Frame, ReaderAction};
use dwebble_rws::server::{Server, ServerConfig, StartOutcome, TlsPaths};
use dwebble_rws::tls::TlsError;
use dwebble_rws::types::{DwebbleWSEventType, DwebbleWSResult};
use tokio_tungstenite::tungstenite::Message;

type Tx = tokio::sync::mpsc::UnboundedSender<Message>;
type Rx = tokio::sync::mpsc::UnboundedReceiver<Message>;

fn channel() -> (Tx, Rx) {
    tokio::sync::mpsc::unbounded_channel()
}

fn running_server() -> Server {
    let mut s = Server::new(ServerConfig::default());
    assert_eq!(s.start_finish(StartOutcome::Bound { port: 9100 }), DwebbleWSResult::Okay);
    s
}

fn connect(s: &mut Server) -> (u64, Rx) {
    let (tx, rx) = channel();
    let id = s
        .register_connection("127.0.0.1:5000".to_string(), None, tx)
        .expect("id space exhausted");
    (id, rx)
}

#[test]
fn new_server_is_idle() {
    let mut s = Server::new(ServerConfig::default());
    assert_eq!(s.get_actual_port(), 0);
    assert_eq!(s.get_connection_count(), 0);
    assert!(s.poll_event().is_none());
    assert_eq!(s.info(), "127.0.0.1:0");
}

#[test]
fn next_connection_id_counts_up() {
    let mut counter: u64 = 5;
    assert_eq!(next_connection_id(&mut counter), 5);
    assert_eq!(next_connection_id(&mut counter), 6);
    assert_eq!(counter, 7);
}

#[test]
fn poll_on_empty_queue_is_none() {
    let mut s = running_server();
    assert!(s.poll_event().is_none());
    assert!(s.poll_event().is_none());
}

#[test]
fn start_while_running_is_already_running() {
    let mut s = running_server();
    let (id, _rx) = connect(&mut s);
    assert_eq!(s.start_gate(), Some(DwebbleWSResult::AlreadyRunning));
    assert_eq!(s.start_finish(StartOutcome::Bound { port: 1 }), DwebbleWSResult::AlreadyRunning);
    // the existing connection is untouched
    assert_eq!(s.get_connection_count(), 1);
    assert_eq!(s.get_actual_port(), 9100);
    assert_eq!(s.send(id, b"still here"), DwebbleWSResult::Okay);
}

#[test]
fn start_failures_leave_state_unchanged() {
    let mut s = Server::new(ServerConfig::default());
    assert_eq!(s.start_finish(StartOutcome::RuntimeFailed), DwebbleWSResult::RuntimeError);
    assert_eq!(s.get_actual_port(), 0);
    let tls_err = TlsError::CertLoad("no such file".to_string());
    assert_eq!(s.start_finish(StartOutcome::TlsFailed(tls_err)), DwebbleWSResult::TlsError);
    assert_eq!(s.get_actual_port(), 0);
    assert_eq!(s.get_connection_count(), 0);
    assert_eq!(s.start_finish(StartOutcome::BindFailed), DwebbleWSResult::BindFailed);
    assert_eq!(s.get_actual_port(), 0);
    // after all those failures a start can still succeed
    assert_eq!(s.start_gate(), None);
    assert_eq!(s.start_finish(StartOutcome::Bound { port: 4242 }), DwebbleWSResult::Okay);
    assert_eq!(s.get_actual_port(), 4242);
}

#[test]
fn stop_then_start_with_new_port() {
    let mut s = running_server();
    assert_eq!(s.get_actual_port(), 9100);
    assert_eq!(s.stop(), DwebbleWSResult::Okay);
    assert_eq!(s.get_actual_port(), 0);
    assert_eq!(s.start_gate(), None);
    assert_eq!(s.start_finish(StartOutcome::Bound { port: 9200 }), DwebbleWSResult::Okay);
    assert_eq!(s.get_actual_port(), 9200);
}

#[test]
fn stop_is_a_no_op_when_not_running() {
    let mut s = Server::new(ServerConfig::default());
    assert_eq!(s.stop(), DwebbleWSResult::Okay);
    assert_eq!(s.get_actual_port(), 0);
}

#[test]
fn ids_strictly_increase_and_are_never_reused() {
    let mut s = running_server();
    let (a, _rx_a) = connect(&mut s);
    let (b, _rx_b) = connect(&mut s);
    assert!(a < b);
    assert_eq!(s.disconnect(a), DwebbleWSResult::Okay);
    s.connection_closed(a);
    s.connection_closed(b);
    let (c, _rx_c) = connect(&mut s);
    assert!(b < c);
}

#[test]
fn scenario_text_round_trip() {
    let mut s = running_server();
    let (id, mut rx) = connect(&mut s);

    let ev = s.poll_event().expect("connected event");
    assert_eq!(ev.event_type, DwebbleWSEventType::ClientConnected);
    assert_eq!(ev.connection_id, id);

    let act = s.on_frame(id, Frame::Text(b"ping".to_vec()));
    assert!(matches!(act, ReaderAction::Continue));
    let ev = s.poll_event().expect("message event");
    assert_eq!(ev.event_type, DwebbleWSEventType::MessageReceived);
    assert_eq!(ev.connection_id, id);
    assert_eq!(ev.data.as_deref(), Some(b"ping".as_slice()));

    assert_eq!(s.send_text(id, "pong"), DwebbleWSResult::Okay);
    match rx.try_recv().expect("queued frame") {
        Message::Text(t) => assert_eq!(t.as_str(), "pong"),
        other => panic!("expected a text frame, got {:?}", other),
    }

    s.connection_closed(id);
    let ev = s.poll_event().expect("disconnected event");
    assert_eq!(ev.event_type, DwebbleWSEventType::ClientDisconnected);
    assert_eq!(ev.connection_id, id);
    assert!(s.poll_event().is_none());
}

#[test]
fn absent_id_is_invalid_handle_without_side_effects() {
    let mut s = running_server();
    assert_eq!(s.send(77, b"x"), DwebbleWSResult::InvalidHandle);
    assert_eq!(s.send_text(77, "x"), DwebbleWSResult::InvalidHandle);
    assert_eq!(s.disconnect(77), DwebbleWSResult::InvalidHandle);
    assert_eq!(s.get_connection_count(), 0);
    assert!(s.poll_event().is_none());
}

#[test]
fn outbound_frames_keep_send_order() {
    let mut s = running_server();
    let (id, mut rx) = connect(&mut s);
    assert_eq!(s.send(id, b"first"), DwebbleWSResult::Okay);
    assert_eq!(s.send(id, b"second"), DwebbleWSResult::Okay);
    assert_eq!(s.send_text(id, "third"), DwebbleWSResult::Okay);
    match rx.try_recv().unwrap() {
        Message::Binary(b) => assert_eq!(b.as_ref(), b"first"),
        other => panic!("unexpected frame {:?}", other),
    }
    match rx.try_recv().unwrap() {
        Message::Binary(b) => assert_eq!(b.as_ref(), b"second"),
        other => panic!("unexpected frame {:?}", other),
    }
    match rx.try_recv().unwrap() {
        Message::Text(t) => assert_eq!(t.as_str(), "third"),
        other => panic!("unexpected frame {:?}", other),
    }
    assert!(rx.try_recv().is_err());
}

#[test]
fn send_fails_when_writer_is_gone() {
    let mut s = running_server();
    let (id, rx) = connect(&mut s);
    drop(rx);
    assert_eq!(s.send(id, b"x"), DwebbleWSResult::SendFailed);
    assert_eq!(s.send_text(id, "x"), DwebbleWSResult::SendFailed);
    // still registered: the reader has not torn it down yet
    assert_eq!(s.get_connection_count(), 1);
}

#[test]
fn disconnect_removes_and_closes() {
    let mut s = running_server();
    let (id, mut rx) = connect(&mut s);
    assert_eq!(s.disconnect(id), DwebbleWSResult::Okay);
    assert_eq!(s.get_connection_count(), 0);
    assert_eq!(s.send(id, b"x"), DwebbleWSResult::InvalidHandle);
    assert!(matches!(rx.try_recv().unwrap(), Message::Close(_)));
    // the reader observes the closed socket and tears down once
    s.connection_closed(id);
    let ev1 = s.poll_event().expect("connected");
    assert_eq!(ev1.event_type, DwebbleWSEventType::ClientConnected);
    let ev2 = s.poll_event().expect("disconnected");
    assert_eq!(ev2.event_type, DwebbleWSEventType::ClientDisconnected);
    // a second teardown emits nothing more
    s.connection_closed(id);
    assert!(s.poll_event().is_none());
}

#[test]
fn ping_asks_for_pong_and_stays_invisible() {
    let mut s = running_server();
    let (id, _rx) = connect(&mut s);
    let _ = s.poll_event().expect("connected");
    let act = s.on_frame(id, Frame::Ping(b"tick".to_vec()));
    match act {
        ReaderAction::SendPong(p) => assert_eq!(p, b"tick".to_vec()),
        other => panic!("expected a pong request, got {:?}", other),
    }
    assert!(s.poll_event().is_none());
}

#[test]
fn close_frame_stops_the_reader() {
    let mut s = running_server();
    let (id, _rx) = connect(&mut s);
    let _ = s.poll_event();
    assert!(matches!(s.on_frame(id, Frame::Close), ReaderAction::Stop));
    assert!(matches!(s.on_frame(id, Frame::Pong), ReaderAction::Continue));
    assert!(s.poll_event().is_none());
}

#[test]
fn read_error_is_reported_then_window_closes() {
    let mut s = running_server();
    let (id, _rx) = connect(&mut s);
    let _ = s.poll_event();
    s.on_read_error(id, "connection reset".to_string());
    s.connection_closed(id);
    let ev = s.poll_event().expect("error event");
    assert_eq!(ev.event_type, DwebbleWSEventType::Error);
    assert_eq!(ev.connection_id, id);
    assert_eq!(ev.error.as_deref(), Some("connection reset"));
    let ev = s.poll_event().expect("disconnected event");
    assert_eq!(ev.event_type, DwebbleWSEventType::ClientDisconnected);
    assert!(s.poll_event().is_none());
}

#[test]
fn frames_outside_the_window_are_dropped() {
    let mut s = running_server();
    let (id, _rx) = connect(&mut s);
    s.connection_closed(id);
    assert!(matches!(s.on_frame(id, Frame::Binary(b"late".to_vec())), ReaderAction::Continue));
    s.on_read_error(id, "late error".to_string());
    let ev = s.poll_event().expect("connected");
    assert_eq!(ev.event_type, DwebbleWSEventType::ClientConnected);
    let ev = s.poll_event().expect("disconnected");
    assert_eq!(ev.event_type, DwebbleWSEventType::ClientDisconnected);
    assert!(s.poll_event().is_none());
}

#[test]
fn stop_closes_every_registered_connection() {
    let mut s = running_server();
    let (_a, mut rx_a) = connect(&mut s);
    let (_b, mut rx_b) = connect(&mut s);
    assert_eq!(s.stop(), DwebbleWSResult::Okay);
    assert_eq!(s.get_connection_count(), 0);
    assert!(matches!(rx_a.try_recv().unwrap(), Message::Close(_)));
    assert!(matches!(rx_b.try_recv().unwrap(), Message::Close(_)));
    // queued events survive the stop
    assert_eq!(s.poll_event().unwrap().event_type, DwebbleWSEventType::ClientConnected);
    assert_eq!(s.poll_event().unwrap().event_type, DwebbleWSEventType::ClientConnected);
    assert!(s.poll_event().is_none());
}

#[test]
fn registered_subprotocol_is_kept() {
    let mut s = running_server();
    let (tx, _rx) = channel();
    let id = s
        .register_connection("127.0.0.1:6000".to_string(), Some("b".to_string()), tx)
        .unwrap();
    assert_eq!(s.connection_subprotocol(id), Some(Some("b".to_string())));
    assert_eq!(s.connection_subprotocol(id + 1), None);
}

#[test]
fn info_shows_bind_address_and_port() {
    let config = ServerConfig {
        port: 0,
        bind_address: "0.0.0.0".to_string(),
        subprotocols: vec!["b".to_string()],
        tls: Some(TlsPaths {
            cert_path: "cert.pem".to_string(),
            key_path: "key.pem".to_string(),
        }),
    };
    let mut s = Server::new(config);
    assert_eq!(s.info(), "0.0.0.0:0");
    assert_eq!(s.config_port(), 0);
    assert_eq!(s.config_bind_address().as_str(), "0.0.0.0");
    assert_eq!(s.config_subprotocols(), &vec!["b".to_string()]);
    assert!(s.config_tls().is_some());
    assert_eq!(s.start_finish(StartOutcome::Bound { port: 9001 }), DwebbleWSResult::Okay);
    assert_eq!(s.info(), "0.0.0.0:9001");
}

#[test]
fn decimal_rendering_is_exact() {
    assert_eq!(dwebble_rws::text::u16_to_string(0), "0");
    assert_eq!(dwebble_rws::text::u16_to_string(7), "7");
    assert_eq!(dwebble_rws::text::u16_to_string(8080), "8080");
    assert_eq!(dwebble_rws::text::u16_to_string(65535), "65535");
}

#[test]
fn per_connection_order_holds_across_interleaving() {
    let mut s = running_server();
    let (a, _rx_a) = connect(&mut s);
    let (b, _rx_b) = connect(&mut s);
    assert!(matches!(s.on_frame(a, Frame::Binary(b"a1".to_vec())), ReaderAction::Continue));
    assert!(matches!(s.on_frame(b, Frame::Binary(b"b1".to_vec())), ReaderAction::Continue));
    assert!(matches!(s.on_frame(a, Frame::Binary(b"a2".to_vec())), ReaderAction::Continue));
    s.connection_closed(a);
    assert!(matches!(s.on_frame(b, Frame::Binary(b"b2".to_vec())), ReaderAction::Continue));
    s.connection_closed(b);

    let mut seen_a: Vec<(DwebbleWSEventType, Option<Vec<u8>>)> = Vec::new();
    let mut seen_b: Vec<(DwebbleWSEventType, Option<Vec<u8>>)> = Vec::new();
    while let Some(ev) = s.poll_event() {
        if ev.connection_id == a {
            seen_a.push((ev.event_type, ev.data));
        } else {
            assert_eq!(ev.connection_id, b);
            seen_b.push((ev.event_type, ev.data));
        }
    }
    assert_eq!(seen_a, vec![
        (DwebbleWSEventType::ClientConnected, None),
        (DwebbleWSEventType::MessageReceived, Some(b"a1".to_vec())),
        (DwebbleWSEventType::MessageReceived, Some(b"a2".to_vec())),
        (DwebbleWSEventType::ClientDisconnected, None),
    ]);
    assert_eq!(seen_b, vec![
        (DwebbleWSEventType::ClientConnected, None),
        (DwebbleWSEventType::MessageReceived, Some(b"b1".to_vec())),
        (DwebbleWSEventType::MessageReceived, Some(b"b2".to_vec())),
        (DwebbleWSEventType::ClientDisconnected, None),
    ]);
}
