//! The per-peer client: bounded queue, expiry, close.

use signalhub::client::Client;
use signalhub::msg::SignalMsg;
use tokio::sync::mpsc;

fn pull_client(id: &str) -> (Client, mpsc::Receiver<()>) {
    let (tx, rx) = mpsc::channel::<()>(1);
    (Client::new_poll(id, tx, 0), rx)
}

#[test]
fn the_thirty_first_message_is_dropped() {
    let (mut c, _rx) = pull_client("podium");
    let mut i: i32 = 0;
    while i < 31 {
        let m = SignalMsg { ver: Some(i), ..Default::default() };
        assert!(c.send_message(m));
        i += 1;
    }
    let msgs = c.get_queued_msgs();
    assert_eq!(msgs.len(), 30);
    // the first 30 are preserved in order; the 31st is gone
    for (k, m) in msgs.iter().enumerate() {
        assert_eq!(m.ver, Some(k as i32));
    }
}

#[test]
fn drain_empties_the_queue() {
    let (mut c, _rx) = pull_client("podium");
    assert!(c.send_message(SignalMsg::default()));
    assert_eq!(c.get_queued_msgs().len(), 1);
    assert_eq!(c.get_queued_msgs().len(), 0);
}

#[test]
fn send_wakes_a_waiting_poll_once() {
    let (mut c, mut rx) = pull_client("podium");
    assert!(c.send_message(SignalMsg::default()));
    assert!(c.send_message(SignalMsg::default()));
    // a capacity-1 wake channel holds a single pending signal
    assert!(rx.try_recv().is_ok());
    assert!(rx.try_recv().is_err());
}

#[test]
fn expiry_limits_by_mode() {
    let (c, _rx) = pull_client("podium");
    assert!(!c.is_expired(180_000));
    assert!(c.is_expired(180_001));

    let (tx, _rx2) = mpsc::unbounded_channel::<String>();
    let p = Client::new("pushy1", tx, 0);
    assert!(!p.is_expired(660_000));
    assert!(p.is_expired(660_001));
}

#[test]
fn expiry_is_monotone_in_time() {
    let (c, _rx) = pull_client("podium");
    let mut t: u64 = 180_001;
    while t < 180_101 {
        assert!(c.is_expired(t));
        t += 1;
    }
}

#[test]
fn close_twice_is_a_no_op() {
    let (mut c, _rx) = pull_client("podium");
    c.close();
    assert!(c.ws.is_none());
    assert!(c.http.is_none());
    let ts = c.timestamp;
    c.close();
    assert!(c.ws.is_none());
    assert!(c.http.is_none());
    assert_eq!(c.timestamp, ts);
}

#[test]
fn send_version_writes_the_hello() {
    let (tx, mut rx) = mpsc::unbounded_channel::<String>();
    let mut p = Client::new("pushy1", tx, 0);
    assert!(p.send_version(23));
    let text = rx.try_recv().unwrap();
    assert_eq!(text, "{\"action\":\"ver\",\"ver\":23}");
}

#[test]
fn transport_switch_keeps_the_queue() {
    let (mut c, _rx) = pull_client("podium");
    assert!(c.send_message(SignalMsg { ver: Some(7), ..Default::default() }));
    let (tx, _rx2) = mpsc::unbounded_channel::<String>();
    c.switch_to_ws(tx);
    assert!(!c.is_polling);
    assert!(c.http.is_none());
    assert_eq!(c.msg_queue.len(), 1);
}
