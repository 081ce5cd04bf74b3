//! Wire form: serialization with absent-field omission, parsing, and the
//! round trip.

use signalhub::codec::encode_msg;
use signalhub::codec::parse_json;
use signalhub::common::ParseError;
use signalhub::msg::SignalMsg;

fn msg(action: &str) -> SignalMsg {
    SignalMsg { action: Some(action.to_string()), ..Default::default() }
}

#[test]
fn encode_omits_absent_fields() {
    let m = msg("ping");
    assert_eq!(encode_msg(&m), "{\"action\":\"ping\"}");
}

#[test]
fn round_trip_with_some_fields_set() {
    let m = SignalMsg {
        action: Some("signal".to_string()),
        to_peer_id: Some("bobbyy".to_string()),
        data: Some(serde_json::from_str("{\"sdp\":\"x\"}").unwrap()),
        ..Default::default()
    };
    let text = encode_msg(&m);
    let back = parse_json(&text).unwrap();
    assert_eq!(back.action, m.action);
    assert_eq!(back.to_peer_id, m.to_peer_id);
    assert_eq!(back.to, None);
    assert_eq!(back.from_peer_id, None);
    assert_eq!(back.from, None);
    assert_eq!(back.reason, None);
    assert_eq!(back.data, m.data);
    assert_eq!(back.ver, None);
}

#[test]
fn round_trip_ver_message() {
    let m = SignalMsg { action: Some("ver".to_string()), ver: Some(23), ..Default::default() };
    let text = encode_msg(&m);
    assert_eq!(text, "{\"action\":\"ver\",\"ver\":23}");
    let back = parse_json(&text).unwrap();
    assert_eq!(back.ver, Some(23));
}

#[test]
fn parse_empty_text_is_its_own_error() {
    assert!(matches!(parse_json(""), Err(ParseError::TextEmpty)));
}

#[test]
fn parse_failure_carries_the_offending_text() {
    match parse_json("this is not json") {
        Err(ParseError::Parse(_, t)) => assert_eq!(t, "this is not json"),
        _ => panic!("expected a parse error"),
    }
}

#[test]
fn parse_reads_legacy_aliases() {
    let m = parse_json("{\"action\":\"signal\",\"to\":\"bobbyy\",\"from\":\"alice\"}").unwrap();
    assert_eq!(m.to, Some("bobbyy".to_string()));
    assert_eq!(m.from, Some("alice".to_string()));
    assert_eq!(m.to_peer_id, None);
    assert_eq!(m.to_peer_id().unwrap(), "bobbyy");
}

#[test]
fn parse_treats_null_fields_as_absent() {
    let m = parse_json("{\"action\":\"signal\",\"data\":null,\"reason\":null}").unwrap();
    assert_eq!(m.data, None);
    assert_eq!(m.reason, None);
}

#[test]
fn parse_rejects_wrongly_typed_members() {
    assert!(parse_json("{\"action\":7}").is_err());
    assert!(parse_json("{\"ver\":\"high\"}").is_err());
    assert!(parse_json("[1,2]").is_err());
}

#[test]
fn effective_destination_prefers_to_peer_id() {
    let m = parse_json("{\"to_peer_id\":\"first1\",\"to\":\"second\"}").unwrap();
    assert_eq!(m.to_peer_id().unwrap(), "first1");
    let none = parse_json("{\"action\":\"signal\"}").unwrap();
    assert!(none.to_peer_id().is_none());
}
