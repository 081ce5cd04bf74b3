//! The signaling protocol's message: a JSON-shaped value object with
//! optional routing fields and an opaque payload.

use vstd::prelude::*;
use crate::jsonval::clone_value;

verus! {

/// Mathematical model of a message: each field as an optional sequence of
/// characters (or integer / opaque payload value).
pub ghost struct MsgModel {
    pub action: Option<Seq<char>>,
    pub to_peer_id: Option<Seq<char>>,
    pub to: Option<Seq<char>>,
    pub from_peer_id: Option<Seq<char>>,
    pub from: Option<Seq<char>>,
    pub reason: Option<Seq<char>>,
    pub data: Option<serde_json::Value>,
    pub ver: Option<int>,
}

/// A relayed signaling message. All fields are optional; on the wire,
/// absent fields are omitted.
#[verifier::ext_equal]
pub struct SignalMsg {
    pub action: Option<String>,
    pub to_peer_id: Option<String>,
    pub to: Option<String>,
    pub from_peer_id: Option<String>,
    pub from: Option<String>,
    pub reason: Option<String>,
    pub data: Option<serde_json::Value>,
    pub ver: Option<i32>,
}

pub open spec fn view_opt_string(o: Option<String>) -> Option<Seq<char>> {
    match o {
        Some(s) => Some(s@),
        None => None,
    }
}

pub open spec fn view_opt_i32(o: Option<i32>) -> Option<int> {
    match o {
        Some(i) => Some(i as int),
        None => None,
    }
}

impl View for SignalMsg {
    type V = MsgModel;

    open spec fn view(&self) -> MsgModel {
        MsgModel {
            action: view_opt_string(self.action),
            to_peer_id: view_opt_string(self.to_peer_id),
            to: view_opt_string(self.to),
            from_peer_id: view_opt_string(self.from_peer_id),
            from: view_opt_string(self.from),
            reason: view_opt_string(self.reason),
            data: self.data,
            ver: view_opt_i32(self.ver),
        }
    }
}

/// The model of a message with every field absent.
pub open spec fn empty_model() -> MsgModel {
    MsgModel {
        action: None,
        to_peer_id: None,
        to: None,
        from_peer_id: None,
        from: None,
        reason: None,
        data: None,
        ver: None,
    }
}

impl Default for SignalMsg {
    /// A message with every field absent.
    fn default() -> (r: Self)
        ensures
            r@ == empty_model(),
    {
        SignalMsg {
            action: None,
            to_peer_id: None,
            to: None,
            from_peer_id: None,
            from: None,
            reason: None,
            data: None,
            ver: None,
        }
    }
}

/// The effective destination of a message: `to_peer_id` if present, else
/// the legacy `to`, else none.
pub open spec fn effective_dest(m: MsgModel) -> Option<Seq<char>> {
    match m.to_peer_id {
        Some(t) => Some(t),
        None => m.to,
    }
}

impl SignalMsg {
    /// The effective destination: `to_peer_id` if present, else the legacy
    /// `to` alias.
    pub fn to_peer_id(&self) -> (r: Option<&str>)
        ensures
            match r {
                Some(s) => effective_dest(self@) == Some(s@),
                None => effective_dest(self@) is None,
            },
    {
        if let Some(to) = self.to_peer_id.as_ref() {
            return Some(to.as_str());
        }
        if let Some(to) = self.to.as_ref() {
            return Some(to.as_str());
        }
        None
    }
}

/// The model of the server hello / version message.
pub open spec fn ver_model(ver: int) -> MsgModel {
    MsgModel { action: Some("ver"@), ver: Some(ver), ..empty_model() }
}

/// Builds the server hello `{action: "ver", ver: v}`.
pub fn ver_msg(ver: i32) -> (r: SignalMsg)
    ensures
        r@ == ver_model(ver as int),
{
    SignalMsg {
        action: Some("ver".to_owned()),
        ver: Some(ver),
        ..Default::default()
    }
}

/// The model of the keep-alive reply.
pub open spec fn pong_model() -> MsgModel {
    MsgModel { action: Some("pong"@), ..empty_model() }
}

/// Builds the keep-alive reply `{action: "pong"}`.
pub fn pong_msg() -> (r: SignalMsg)
    ensures
        r@ == pong_model(),
{
    SignalMsg { action: Some("pong".to_owned()), ..Default::default() }
}

/// The model of the peer-not-found notice: the unreachable peer's id is
/// placed in `from_peer_id`, telling the sender its target vanished.
pub open spec fn not_found_model(to: Seq<char>) -> MsgModel {
    MsgModel { action: Some("signal"@), from_peer_id: Some(to), ..empty_model() }
}

/// Builds the peer-not-found notice toward a sender.
pub fn not_found_msg(to: &str) -> (r: SignalMsg)
    ensures
        r@ == not_found_model(to@),
{
    SignalMsg {
        action: Some("signal".to_owned()),
        from_peer_id: Some(to.to_owned()),
        ..Default::default()
    }
}

/// The model of a forwarded message: the inbound action and payload, with
/// `from_peer_id` set to the authenticated sender and nothing else
/// propagated.
pub open spec fn forwarded_model(m: MsgModel, sender: Seq<char>) -> MsgModel {
    MsgModel {
        action: m.action,
        from_peer_id: Some(sender),
        data: m.data,
        ..empty_model()
    }
}

/// Builds the forwarded form of an inbound message. Whatever the inbound
/// message claimed, `from_peer_id` is the authenticated sender.
pub fn forwarded_msg(msg: &SignalMsg, sender: &str) -> (r: SignalMsg)
    ensures
        r@ == forwarded_model(msg@, sender@),
        r@.from_peer_id == Some(sender@),
{
    let data: Option<serde_json::Value> = match msg.data.as_ref() {
        Some(v) => Some(clone_value(v)),
        None => None,
    };
    SignalMsg {
        action: msg.action.clone(),
        from_peer_id: Some(sender.to_owned()),
        data,
        ..Default::default()
    }
}

/// The model of one element of a `signals` batch: a synthetic `signal`
/// carrying that element as payload, from the authenticated sender.
pub open spec fn elem_model(sender: Seq<char>, item: serde_json::Value) -> MsgModel {
    MsgModel {
        action: Some("signal"@),
        from_peer_id: Some(sender),
        data: Some(item),
        ..empty_model()
    }
}

/// Builds the synthetic `signal` for one element of a `signals` batch.
pub fn elem_msg(sender: &str, item: &serde_json::Value) -> (r: SignalMsg)
    ensures
        r@ == elem_model(sender@, *item),
        r@.from_peer_id == Some(sender@),
{
    SignalMsg {
        action: Some("signal".to_owned()),
        from_peer_id: Some(sender.to_owned()),
        data: Some(clone_value(item)),
        ..Default::default()
    }
}

} // verus!
