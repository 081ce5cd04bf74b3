//! End-to-end routing scenarios at the hub level.

use signalhub::client::Client;
use signalhub::codec::parse_json;
use signalhub::hub::Hub;
use signalhub::msg::SignalMsg;
use tokio::sync::mpsc;

fn push_peer(hub: &mut Hub, id: &str) -> mpsc::UnboundedReceiver<String> {
    let (tx, rx) = mpsc::unbounded_channel::<String>();
    hub.do_register(Client::new(id, tx, 0));
    rx
}

fn pull_peer(hub: &mut Hub, id: &str) -> mpsc::Receiver<()> {
    let (tx, rx) = mpsc::channel::<()>(1);
    hub.do_register(Client::new_poll(id, tx, 0));
    rx
}

fn signal_to(to: &str, data_text: &str) -> SignalMsg {
    SignalMsg {
        action: Some("signal".to_string()),
        to_peer_id: Some(to.to_string()),
        data: Some(serde_json::from_str(data_text).unwrap()),
        ..Default::default()
    }
}

#[test]
fn s1_push_to_push_signal() {
    let mut hub = Hub::new();
    let _alice_rx = push_peer(&mut hub, "alice");
    let mut bob_rx = push_peer(&mut hub, "bobbyy");

    hub.process_message(&signal_to("bobbyy", "{\"sdp\":\"x\"}"), "alice", 1);

    let text = bob_rx.try_recv().unwrap();
    let m = parse_json(&text).unwrap();
    assert_eq!(m.action, Some("signal".to_string()));
    assert_eq!(m.from_peer_id, Some("alice".to_string()));
    assert_eq!(m.data, Some(serde_json::from_str("{\"sdp\":\"x\"}").unwrap()));
    assert_eq!(m.to_peer_id, None);
    assert!(bob_rx.try_recv().is_err());
}

#[test]
fn s2_push_to_pull_signal_wakes_the_poll() {
    let mut hub = Hub::new();
    let _alice_rx = push_peer(&mut hub, "alice");
    let mut bob_wake = pull_peer(&mut hub, "bobbyy");

    hub.process_message(&signal_to("bobbyy", "{\"sdp\":\"x\"}"), "alice", 1);

    // the queued message woke the long-poll
    assert!(bob_wake.try_recv().is_ok());
    let batch = signalhub::handler::poll_finish(&mut hub, "bobbyy", true);
    assert_eq!(batch.len(), 1);
    assert_eq!(batch[0].action, Some("signal".to_string()));
    assert_eq!(batch[0].from_peer_id, Some("alice".to_string()));
    assert_eq!(batch[0].data, Some(serde_json::from_str("{\"sdp\":\"x\"}").unwrap()));
}

#[test]
fn s3_peer_not_found_is_notified_once() {
    let mut hub = Hub::new();
    let mut alice_rx = push_peer(&mut hub, "alice");

    let m = SignalMsg {
        action: Some("signal".to_string()),
        to_peer_id: Some("ghostx".to_string()),
        data: Some(serde_json::Value::Null),
        ..Default::default()
    };
    hub.process_message(&m, "alice", 1);

    let text = alice_rx.try_recv().unwrap();
    let notice = parse_json(&text).unwrap();
    assert_eq!(notice.action, Some("signal".to_string()));
    assert_eq!(notice.from_peer_id, Some("ghostx".to_string()));

    // the second attempt is suppressed by the filter
    hub.process_message(&m, "alice", 2);
    assert!(alice_rx.try_recv().is_err());
}

#[test]
fn s4_reject_suppresses_subsequent_signals() {
    let mut hub = Hub::new();
    let mut alice_rx = push_peer(&mut hub, "alice");
    let mut bob_rx = push_peer(&mut hub, "bobbyy");

    hub.process_message(&signal_to("bobbyy", "{\"sdp\":\"x\"}"), "alice", 1);
    assert!(bob_rx.try_recv().is_ok());

    let reject = SignalMsg {
        action: Some("reject".to_string()),
        to_peer_id: Some("alice".to_string()),
        reason: Some("busy".to_string()),
        ..Default::default()
    };
    hub.process_message(&reject, "bobbyy", 2);
    let text = alice_rx.try_recv().unwrap();
    let m = parse_json(&text).unwrap();
    assert_eq!(m.action, Some("reject".to_string()));
    assert_eq!(m.from_peer_id, Some("bobbyy".to_string()));
    // the reason is not propagated
    assert_eq!(m.reason, None);

    // the rejected direction is suppressed: alice's further signals
    // toward bobbyy deliver nothing
    hub.process_message(&signal_to("bobbyy", "{\"sdp\":\"y\"}"), "alice", 3);
    assert!(bob_rx.try_recv().is_err());
    assert!(alice_rx.try_recv().is_err());

    // only that direction: bobbyy can still signal alice
    hub.process_message(&signal_to("alice", "{\"sdp\":\"z\"}"), "bobbyy", 4);
    assert!(alice_rx.try_recv().is_ok());
}

#[test]
fn s5_signals_stop_on_first_failure() {
    let mut hub = Hub::new();
    let mut alice_rx = push_peer(&mut hub, "alice");

    let m = SignalMsg {
        action: Some("signals".to_string()),
        to_peer_id: Some("gonexx".to_string()),
        data: Some(serde_json::from_str("[{\"i\":1},{\"i\":2}]").unwrap()),
        ..Default::default()
    };
    hub.process_message(&m, "alice", 1);

    // exactly one peer-not-found notice, not two
    let text = alice_rx.try_recv().unwrap();
    let notice = parse_json(&text).unwrap();
    assert_eq!(notice.from_peer_id, Some("gonexx".to_string()));
    assert!(alice_rx.try_recv().is_err());
}

#[test]
fn signals_batch_is_delivered_element_by_element() {
    let mut hub = Hub::new();
    let _alice_rx = push_peer(&mut hub, "alice");
    let mut bob_rx = push_peer(&mut hub, "bobbyy");

    let m = SignalMsg {
        action: Some("signals".to_string()),
        to_peer_id: Some("bobbyy".to_string()),
        data: Some(serde_json::from_str("[{\"i\":1},{\"i\":2}]").unwrap()),
        ..Default::default()
    };
    hub.process_message(&m, "alice", 1);

    let first = parse_json(&bob_rx.try_recv().unwrap()).unwrap();
    assert_eq!(first.action, Some("signal".to_string()));
    assert_eq!(first.data, Some(serde_json::from_str("{\"i\":1}").unwrap()));
    let second = parse_json(&bob_rx.try_recv().unwrap()).unwrap();
    assert_eq!(second.data, Some(serde_json::from_str("{\"i\":2}").unwrap()));
    assert!(bob_rx.try_recv().is_err());
}

#[test]
fn s6_ping_updates_liveness_and_answers_pong() {
    let mut hub = Hub::new();
    let mut alice_rx = push_peer(&mut hub, "alice");

    let ping = SignalMsg { action: Some("ping".to_string()), ..Default::default() };
    hub.process_message(&ping, "alice", 42);

    let m = parse_json(&alice_rx.try_recv().unwrap()).unwrap();
    assert_eq!(m.action, Some("pong".to_string()));
    assert_eq!(hub.get_client("alice").unwrap().timestamp, 42);
}

#[test]
fn keepalive_touches_the_sender_only() {
    let mut hub = Hub::new();
    let _alice_rx = push_peer(&mut hub, "alice");
    let _bob_rx = push_peer(&mut hub, "bobbyy");

    hub.process_message(&SignalMsg::default(), "alice", 99);
    assert_eq!(hub.get_client("alice").unwrap().timestamp, 99);
    assert_eq!(hub.get_client("bobbyy").unwrap().timestamp, 0);
}

#[test]
fn register_replaces_and_unregister_removes() {
    let mut hub = Hub::new();
    let _rx1 = push_peer(&mut hub, "alice");
    assert_eq!(hub.num_client(), 1);
    let _rx2 = pull_peer(&mut hub, "alice");
    assert_eq!(hub.num_client(), 1);
    assert!(hub.get_client("alice").unwrap().is_polling);
    assert!(hub.do_unregister("alice"));
    assert!(!hub.do_unregister("alice"));
    assert_eq!(hub.num_client(), 0);
}

#[test]
fn sweep_removes_only_the_expired() {
    let mut hub = Hub::new();
    let _a = push_peer(&mut hub, "oldpush");
    let _b = pull_peer(&mut hub, "oldpull");
    let (tx, _rx) = mpsc::unbounded_channel::<String>();
    hub.do_register(Client::new("fresh1", tx, 600_000));

    // at 661_000 ms the push and pull peers from t=0 are both idle past
    // their limits; the fresh one is not
    let (ws_removed, http_removed, ws_kept, http_kept) = hub.sweep(661_000);
    assert_eq!((ws_removed, http_removed), (1, 1));
    assert_eq!((ws_kept, http_kept), (1, 0));
    assert!(!hub.has_client("oldpush"));
    assert!(!hub.has_client("oldpull"));
    assert!(hub.has_client("fresh1"));
}

#[test]
fn undeliverable_and_unknown_messages_change_nothing() {
    let mut hub = Hub::new();
    let mut alice_rx = push_peer(&mut hub, "alice");
    // no destination at all
    let no_dest = SignalMsg { action: Some("signal".to_string()), ..Default::default() };
    hub.process_message(&no_dest, "alice", 1);
    // unknown action
    let odd = SignalMsg {
        action: Some("mystery".to_string()),
        to_peer_id: Some("alice".to_string()),
        ..Default::default()
    };
    hub.process_message(&odd, "alice", 2);
    assert!(alice_rx.try_recv().is_err());
    assert_eq!(hub.get_client("alice").unwrap().timestamp, 0);
}
