//! The handlers' decision cores.

use signalhub::client::Client;
use signalhub::common::ApiError;
use signalhub::common::ApiResponse;
use signalhub::handler::handle_post_core;
use signalhub::handler::on_ws_event;
use signalhub::handler::poll_attach;
use signalhub::handler::poll_finish;
use signalhub::handler::validate_peer_id;
use signalhub::handler::PollAttach;
use signalhub::handler::SearchParams;
use signalhub::handler::WsControl;
use signalhub::handler::WsEvent;
use signalhub::hub::Hub;
use signalhub::msg::SignalMsg;
use tokio::sync::mpsc;

fn params(id: &str, hello: bool) -> SearchParams {
    SearchParams {
        id: id.to_string(),
        token: None,
        hello: if hello { Some("1".to_string()) } else { None },
    }
}

#[test]
fn ids_shorter_than_six_bytes_are_invalid() {
    assert!(!validate_peer_id("alice"));
    assert!(validate_peer_id("alice1"));
}

#[test]
fn post_rejects_in_order() {
    let mut hub = Hub::new();
    assert!(matches!(
        handle_post_core(&mut hub, &params("short", false), "[]", true, true, 10, 0),
        Err(ApiError::Unauthorised)
    ));
    assert!(matches!(
        handle_post_core(&mut hub, &params("alice1", false), "[]", false, true, 10, 0),
        Err(ApiError::TokenInvalid)
    ));
    assert!(matches!(
        handle_post_core(&mut hub, &params("alice1", false), "[]", true, false, 10, 0),
        Err(ApiError::InternalServerError)
    ));
}

#[test]
fn post_conflicts_with_a_push_peer() {
    let mut hub = Hub::new();
    let (tx, _rx) = mpsc::unbounded_channel::<String>();
    hub.do_register(Client::new("alice1", tx, 0));
    assert!(matches!(
        handle_post_core(&mut hub, &params("alice1", false), "[]", true, true, 10, 0),
        Err(ApiError::CONFLICT)
    ));
}

#[test]
fn post_hello_answers_the_version() {
    let mut hub = Hub::new();
    match handle_post_core(&mut hub, &params("alice1", true), "", true, true, 23, 0) {
        Ok(ApiResponse::SignalVersion(v)) => assert_eq!(v, 23),
        _ => panic!("expected the version answer"),
    }
}

#[test]
fn post_routes_the_body_batch() {
    let mut hub = Hub::new();
    let (tx, mut rx) = mpsc::unbounded_channel::<String>();
    hub.do_register(Client::new("bobbyy", tx, 0));
    let body = "[{\"action\":\"signal\",\"to_peer_id\":\"bobbyy\",\"data\":{\"i\":1}}]";
    let r = handle_post_core(&mut hub, &params("alice1", false), body, true, true, 10, 0);
    assert!(matches!(r, Ok(ApiResponse::OK)));
    let text = rx.try_recv().unwrap();
    let m = signalhub::codec::parse_json(&text).unwrap();
    assert_eq!(m.from_peer_id, Some("alice1".to_string()));
}

#[test]
fn post_with_an_unreadable_body_still_answers_ok() {
    let mut hub = Hub::new();
    let r = handle_post_core(&mut hub, &params("alice1", false), "not json", true, true, 10, 0);
    assert!(matches!(r, Ok(ApiResponse::OK)));
}

#[test]
fn poll_attach_conflicts_with_a_push_peer() {
    let mut hub = Hub::new();
    let (tx, _rx) = mpsc::unbounded_channel::<String>();
    hub.do_register(Client::new("alice1", tx, 0));
    let (wtx, _wrx) = mpsc::channel::<()>(1);
    assert!(matches!(poll_attach(&mut hub, "alice1", wtx, 0), PollAttach::Conflict));
}

#[test]
fn poll_attach_registers_an_unknown_peer_and_waits() {
    let mut hub = Hub::new();
    let (wtx, _wrx) = mpsc::channel::<()>(1);
    assert!(matches!(poll_attach(&mut hub, "alice1", wtx, 5), PollAttach::Wait));
    let c = hub.get_client("alice1").unwrap();
    assert!(c.is_polling);
    assert_eq!(c.timestamp, 5);
}

#[test]
fn poll_attach_hands_over_a_non_empty_queue_at_once() {
    let mut hub = Hub::new();
    let (wtx, _wrx) = mpsc::channel::<()>(1);
    hub.do_register(Client::new_poll("alice1", wtx, 0));
    let m = SignalMsg { action: Some("signal".to_string()), to_peer_id: Some("alice1".to_string()), ..Default::default() };
    // a later POST batches into the registered pull client's queue
    hub.process_message(&m, "bobbyy", 1);
    let (wtx2, _wrx2) = mpsc::channel::<()>(1);
    match poll_attach(&mut hub, "alice1", wtx2, 2) {
        PollAttach::Batch(b) => assert_eq!(b.len(), 1),
        _ => panic!("expected the queued batch"),
    }
}

#[test]
fn poll_finish_clears_the_wake_and_keeps_the_peer() {
    let mut hub = Hub::new();
    let (wtx, _wrx) = mpsc::channel::<()>(1);
    hub.do_register(Client::new_poll("alice1", wtx, 0));
    let batch = poll_finish(&mut hub, "alice1", false);
    assert!(batch.is_empty());
    let c = hub.get_client("alice1").unwrap();
    assert!(c.http.is_none());
    assert!(hub.has_client("alice1"));
}

#[test]
fn socket_events_decide_the_reader_loop() {
    let mut hub = Hub::new();
    let (tx, _rx) = mpsc::unbounded_channel::<String>();
    hub.do_register(Client::new("alice1", tx, 0));

    assert!(matches!(on_ws_event(&mut hub, WsEvent::Close, "alice1", 1), WsControl::Stop));
    assert!(matches!(on_ws_event(&mut hub, WsEvent::Binary, "alice1", 1), WsControl::Stop));
    assert!(matches!(on_ws_event(&mut hub, WsEvent::Other, "alice1", 1), WsControl::Continue));
    assert!(matches!(
        on_ws_event(&mut hub, WsEvent::Text("not json".to_string()), "alice1", 1),
        WsControl::Stop
    ));
    assert!(matches!(
        on_ws_event(&mut hub, WsEvent::Text("{\"action\":\"x\"}".to_string()), "alice1", 1),
        WsControl::Continue
    ));
    assert!(matches!(on_ws_event(&mut hub, WsEvent::Ping, "alice1", 7), WsControl::Continue));
    assert_eq!(hub.get_client("alice1").unwrap().timestamp, 7);
}
