//! The decision cores of the connection handlers: what the ingest POST
//! answers, how a long-poll attaches and finishes, and how the socket
//! reader reacts to a frame. The I/O around them — sockets, waits,
//! deadlines — is the embedding program's business.

use vstd::prelude::*;
use vstd::string::StringSliceAdditionalSpecFns;
use crate::codec::decoded_model;
use crate::codec::msg_of_value;
use crate::codec::msg_shape_ok;
use crate::codec::parse_json;
use crate::common::ApiError;
use crate::common::ApiResponse;
use crate::hub::Hub;
use crate::hub::batch_routed;
use crate::hub::lemma_batch_routed_push;
use crate::hub::process_effect;
use crate::hub::spec_get;
use crate::jsonval::depth_ok;
use crate::jsonval::elems_of_value;
use crate::jsonval::json_of_value;
use crate::jsonval::parse_value;
use crate::jsonval::text_value;
use crate::jsonval::value_as_array;
use crate::msg::MsgModel;
use crate::msg::SignalMsg;
use crate::client::Client;
use crate::token::str_bytes;

verus! {

/// The query parameters of the signaling surface.
pub struct SearchParams {
    pub id: String,
    pub token: Option<String>,
    pub hello: Option<String>,
}

/// A peer id must be at least 6 bytes long.
pub fn validate_peer_id(id: &str) -> (r: bool)
    ensures
        r == (id.spec_bytes().len() >= 6),
{
    let b: &[u8] = id.as_bytes();
    b.len() >= 6
}

/// The views of a batch of messages, in order.
pub open spec fn batch_views(ms: Seq<SignalMsg>) -> Seq<MsgModel> {
    Seq::new(ms.len(), |j: int| ms[j]@)
}

/// The value is a JSON array whose every element reads as a message.
pub open spec fn batch_shape_ok(v: serde_json::Value) -> bool {
    elems_of_value(v) matches Some(es) && (forall|j: int|
        0 <= j < es.len() ==> msg_shape_ok(#[trigger] es[j]))
}

/// The messages a well-shaped array value reads as, in order.
pub open spec fn decoded_batch(v: serde_json::Value) -> Seq<MsgModel> {
    match elems_of_value(v) {
        Some(es) => Seq::new(es.len(), |j: int| decoded_model(es[j])),
        None => Seq::empty(),
    }
}

/// Reads a POST body as a batch of messages: a JSON array whose every
/// element reads as a message. Anything else yields no batch. A batch
/// read out of the wire form of some value is that value's decoded
/// batch, and the wire form of a well-shaped array the parser's nesting
/// limit admits always yields its batch.
#[verifier::loop_isolation(false)]
pub fn parse_msg_batch(body: &str) -> (r: Option<Vec<SignalMsg>>)
    ensures
        text_value(body@) is None ==> r is None,
        text_value(body@) matches Some(u) ==> ((r is Some <==> batch_shape_ok(u)) && (
        r matches Some(ms) ==> batch_views(ms@) == decoded_batch(u))),
        forall|v: serde_json::Value| body@ == json_of_value(v) ==> {
            &&& (r matches Some(ms) ==> batch_shape_ok(v) && batch_views(ms@) == decoded_batch(v))
            &&& (depth_ok(v) && batch_shape_ok(v) ==> r is Some)
        },
{
    let v = match parse_value(body) {
        Ok(v) => v,
        Err(_) => {
            return None;
        },
    };
    let items = match value_as_array(&v) {
        Some(a) => a,
        None => {
            proof {
                assert forall|v2: serde_json::Value|
                    body@ == json_of_value(v2) implies !batch_shape_ok(v2) by {
                    assert(v2 == v);
                }
            }
            return None;
        },
    };
    let ghost es = items@;
    let mut out: Vec<SignalMsg> = Vec::new();
    let n = items.len();
    let mut i: usize = 0;
    while i < n
        invariant
            0 <= i <= n,
            n == es.len(),
            es == items@,
            elems_of_value(v) == Some(es),
            out@.len() == i,
            forall|j: int| 0 <= j < i ==> msg_shape_ok(#[trigger] es[j]),
            forall|j: int| 0 <= j < i ==> (#[trigger] out@[j])@ == decoded_model(es[j]),
        decreases n - i,
    {
        match msg_of_value(&items[i]) {
            Some(m) => out.push(m),
            None => {
                proof {
                    assert(!msg_shape_ok(es[i as int]));
                    assert forall|v2: serde_json::Value|
                        body@ == json_of_value(v2) implies !batch_shape_ok(v2) by {
                        assert(v2 == v);
                        assert(elems_of_value(v2) == Some(es));
                        if batch_shape_ok(v2) {
                            let es2 = elems_of_value(v2)->Some_0;
                            assert(es2 == es);
                            assert(msg_shape_ok(es2[i as int]));
                            assert(false);
                        }
                    }
                }
                return None;
            },
        }
        i = i + 1;
    }
    proof {
        assert(batch_shape_ok(v));
        assert(batch_views(out@) =~= decoded_batch(v));
    }
    Some(out)
}

/// The outcome an ingest POST owes on its OK answer: the hub evolved by
/// routing exactly the body's decoded batch when the body reads as a
/// well-shaped array, and nothing otherwise.
pub open spec fn posted_outcome(
    pre: Hub,
    post: Hub,
    body: Seq<char>,
    sender: Seq<char>,
    now: int,
    parsed: Option<Seq<MsgModel>>,
) -> bool {
    &&& (match parsed {
        Some(batch) => batch_routed(pre, post, batch, sender, now),
        None => post.clients@ == pre.clients@ && post.filter == pre.filter,
    })
    &&& (text_value(body) is None ==> parsed is None)
    &&& (text_value(body) matches Some(u) ==> ((parsed is Some <==> batch_shape_ok(u)) && (
    parsed matches Some(batch) ==> batch == decoded_batch(u))))
    &&& (forall|v: serde_json::Value| body == json_of_value(v) ==> {
        &&& (parsed matches Some(batch) ==> batch_shape_ok(v) && batch == decoded_batch(v))
        &&& (depth_ok(v) && batch_shape_ok(v) ==> parsed is Some)
    })
}

/// What the ingest POST answers, given the outside checks' outcomes: a
/// short id is unauthorised; then a bad token, then an exhausted rate
/// limit fail; a push-mode peer may not POST; `hello` asks for the
/// server version; otherwise every message of the body batch is routed
/// as coming from the authenticated peer, and the answer is OK whatever
/// the deliveries did — a body that does not read as a batch routes
/// nothing.
#[verifier::loop_isolation(false)]
pub fn handle_post_core(
    hub: &mut Hub,
    params: &SearchParams,
    body: &str,
    token_ok: bool,
    rate_ok: bool,
    version_number: i32,
    now_ms: u64,
) -> (r: Result<ApiResponse, ApiError>)
    requires
        old(hub).wf(),
    ensures
        final(hub).wf(),
        str_bytes(params.id@).len() < 6 <==> r matches Err(ApiError::Unauthorised),
        str_bytes(params.id@).len() >= 6 && !token_ok <==> r matches Err(ApiError::TokenInvalid),
        (str_bytes(params.id@).len() >= 6 && token_ok && !rate_ok) <==> r matches Err(
            ApiError::InternalServerError,
        ),
        (str_bytes(params.id@).len() >= 6 && token_ok && rate_ok && (spec_get(
            old(hub).clients@,
            params.id@,
        ) matches Some(c) && !c.is_polling)) <==> r matches Err(ApiError::CONFLICT),
        r matches Ok(ApiResponse::SignalVersion(v)) ==> v == version_number
            && params.hello is Some,
        (str_bytes(params.id@).len() >= 6 && token_ok && rate_ok && !(spec_get(
            old(hub).clients@,
            params.id@,
        ) matches Some(c) && !c.is_polling)) ==> (if params.hello is Some {
            r matches Ok(ApiResponse::SignalVersion(v)) && v == version_number
        } else {
            r matches Ok(ApiResponse::OK)
        }),
        r is Err ==> final(hub).clients@ == old(hub).clients@ && final(hub).filter == old(hub).filter,
        r matches Ok(ApiResponse::SignalVersion(_)) ==> final(hub).clients@ == old(hub).clients@
            && final(hub).filter == old(hub).filter,
        r matches Ok(ApiResponse::OK) ==> exists|parsed: Option<Seq<MsgModel>>| #[trigger]
            posted_outcome(
                *old(hub),
                *final(hub),
                body@,
                params.id@,
                now_ms as int,
                parsed,
            ),
{
    if !validate_peer_id(params.id.as_str()) {
        return Err(ApiError::Unauthorised);
    }
    if !token_ok {
        return Err(ApiError::TokenInvalid);
    }
    if !rate_ok {
        return Err(ApiError::InternalServerError);
    }
    let id = params.id.as_str();
    match hub.get_client(id) {
        Some(c) => {
            if !c.is_polling {
                return Err(ApiError::CONFLICT);
            }
        },
        None => {},
    }
    if params.hello.is_some() {
        return Ok(ApiResponse::SignalVersion(version_number));
    }
    match parse_msg_batch(body) {
        Some(msgs) => {
            let ghost h0 = *hub;
            proof {
                assert(batch_views(msgs@).take(0) =~= Seq::<MsgModel>::empty());
            }
            let n = msgs.len();
            let mut i: usize = 0;
            while i < n
                invariant
                    0 <= i <= n,
                    n == msgs@.len(),
                    hub.wf(),
                    h0 == *old(hub),
                    batch_routed(
                        h0,
                        *hub,
                        batch_views(msgs@).take(i as int),
                        params.id@,
                        now_ms as int,
                    ),
                decreases n - i,
            {
                let ghost hprev = *hub;
                hub.process_message(&msgs[i], id, now_ms);
                proof {
                    lemma_batch_routed_push(
                        h0,
                        hprev,
                        *hub,
                        batch_views(msgs@).take(i as int),
                        msgs@[i as int]@,
                        params.id@,
                        now_ms as int,
                    );
                    assert(batch_views(msgs@).take(i + 1) =~= batch_views(msgs@).take(
                        i as int,
                    ).push(msgs@[i as int]@));
                }
                i = i + 1;
            }
            proof {
                assert(batch_views(msgs@).take(n as int) =~= batch_views(msgs@));
                assert(posted_outcome(
                    *old(hub),
                    *hub,
                    body@,
                    params.id@,
                    now_ms as int,
                    Some(batch_views(msgs@)),
                ));
            }
        },
        None => {
            proof {
                assert(posted_outcome(
                    *old(hub),
                    *hub,
                    body@,
                    params.id@,
                    now_ms as int,
                    None::<Seq<MsgModel>>,
                ));
            }
        },
    }
    Ok(ApiResponse::OK)
}

/// How a long-poll GET attaches.
pub enum PollAttach {
    /// The peer is attached in push mode: a long-poll may not take over.
    Conflict,
    /// The peer's queue was non-empty: it is handed over at once, with no
    /// wait.
    Batch(Vec<SignalMsg>),
    /// The caller should await the wake handle it passed in.
    Wait,
}

/// The attach step of a long-poll: an unknown peer is registered as a
/// fresh pull client and waits; a push peer conflicts; a pull peer with
/// queued messages gets them at once; a pull peer with an empty queue
/// has its wake handle replaced by the fresh one and waits.
pub fn poll_attach(
    hub: &mut Hub,
    id: &str,
    wake: tokio::sync::mpsc::Sender<()>,
    now_ms: u64,
) -> (r: PollAttach)
    requires
        old(hub).wf(),
    ensures
        final(hub).wf(),
        final(hub).filter == old(hub).filter,
        forall|id2: Seq<char>|
            id2 != id@ ==> #[trigger] spec_get(final(hub).clients@, id2) == spec_get(
                old(hub).clients@,
                id2,
            ),
        match spec_get(old(hub).clients@, id@) {
            Some(c1) => {
                if !c1.is_polling {
                    r is Conflict && final(hub).clients@ == old(hub).clients@
                } else if c1.msg_queue@.len() > 0 {
                    r matches PollAttach::Batch(b) && b@ == c1.msg_queue@ && (spec_get(
                        final(hub).clients@,
                        id@,
                    ) matches Some(c2) && c2.msg_queue@ == Seq::<SignalMsg>::empty() && c2.http
                        == c1.http && c2.ws == c1.ws && c2.is_polling == c1.is_polling
                        && c2.timestamp == c1.timestamp)
                } else {
                    r is Wait && (spec_get(final(hub).clients@, id@) matches Some(c2)
                        && c2.is_polling && c2.http == Some(wake) && c2.ws is None
                        && c2.msg_queue@ == Seq::<SignalMsg>::empty() && c2.timestamp
                        == c1.timestamp)
                }
            },
            None => r is Wait && (spec_get(final(hub).clients@, id@) matches Some(c2)
                && c2.is_polling && c2.http == Some(wake) && c2.ws is None && c2.msg_queue@
                == Seq::<SignalMsg>::empty() && c2.timestamp == now_ms),
        },
{
    let registered = hub.has_client(id);
    if !registered {
        let cli = Client::new_poll(id, wake, now_ms);
        hub.do_register(cli);
        return PollAttach::Wait;
    }
    let is_polling = match hub.get_client(id) {
        Some(c) => c.is_polling,
        None => false,
    };
    if !is_polling {
        return PollAttach::Conflict;
    }
    let queued = match hub.get_client(id) {
        Some(c) => c.msg_queue.len(),
        None => 0,
    };
    if queued > 0 {
        match hub.drain_queue(id) {
            Some(batch) => {
                return PollAttach::Batch(batch);
            },
            None => {
                return PollAttach::Conflict;
            },
        }
    }
    hub.attach_wake(id, wake);
    PollAttach::Wait
}

/// The finish step of a long-poll: when the wait was woken the queue is
/// drained and handed back, a timed-out wait hands back nothing; either
/// way the peer's wake handle is cleared, and the peer itself stays
/// registered until it expires or reconnects.
pub fn poll_finish(hub: &mut Hub, id: &str, woken: bool) -> (r: Vec<SignalMsg>)
    requires
        old(hub).wf(),
    ensures
        final(hub).wf(),
        final(hub).filter == old(hub).filter,
        forall|id2: Seq<char>|
            id2 != id@ ==> #[trigger] spec_get(final(hub).clients@, id2) == spec_get(
                old(hub).clients@,
                id2,
            ),
        match spec_get(old(hub).clients@, id@) {
            Some(c1) => {
                &&& (woken ==> r@ == c1.msg_queue@)
                &&& (!woken ==> r@ == Seq::<SignalMsg>::empty())
                &&& (spec_get(final(hub).clients@, id@) matches Some(c2) && c2.http is None
                    && c2.ws == c1.ws && c2.timestamp == c1.timestamp && (woken ==> c2.msg_queue@
                    == Seq::<SignalMsg>::empty()) && (!woken ==> c2.msg_queue@ == c1.msg_queue@))
            },
            None => r@ == Seq::<SignalMsg>::empty() && final(hub).clients@ == old(hub).clients@,
        },
{
    let batch: Vec<SignalMsg> = if woken {
        match hub.drain_queue(id) {
            Some(b) => b,
            None => Vec::new(),
        }
    } else {
        Vec::new()
    };
    hub.remove_polling(id);
    batch
}

/// One inbound socket event.
pub enum WsEvent {
    /// A close frame.
    Close,
    /// A protocol-level ping frame.
    Ping,
    /// A text frame's payload.
    Text(String),
    /// A binary frame, which the hub refuses.
    Binary,
    /// Any other frame, ignored.
    Other,
}

/// What the socket reader should do next.
pub enum WsControl {
    Continue,
    Stop,
}

/// The hub evolved by routing one message read out of a text frame: the
/// frame's decoded message whenever the frame is the wire form of some
/// value.
pub open spec fn text_routed(
    pre: Hub,
    post: Hub,
    t: Seq<char>,
    sender: Seq<char>,
    now: int,
    m: MsgModel,
) -> bool {
    &&& process_effect(pre, post, m, sender, now)
    &&& (text_value(t) matches Some(u) ==> msg_shape_ok(u) && m == decoded_model(u))
    &&& (forall|v: serde_json::Value|
        t == json_of_value(v) ==> msg_shape_ok(v) && m == decoded_model(v))
}

/// The reader loop's decision for one frame: close and binary frames end
/// the connection; a ping marks the peer alive; a text frame is parsed
/// and routed, and a frame that does not parse ends the connection.
pub fn on_ws_event(hub: &mut Hub, ev: WsEvent, peer_id: &str, now_ms: u64) -> (r: WsControl)
    requires
        old(hub).wf(),
    ensures
        final(hub).wf(),
        (ev is Close || ev is Binary) ==> r is Stop && final(hub).clients@ == old(hub).clients@
            && final(hub).filter == old(hub).filter,
        ev is Other ==> r is Continue && final(hub).clients@ == old(hub).clients@ && final(hub).filter == old(hub).filter,
        ev is Ping ==> r is Continue && final(hub).filter == old(hub).filter && (match spec_get(
            old(hub).clients@,
            peer_id@,
        ) {
            Some(c1) => spec_get(final(hub).clients@, peer_id@) == Some(
                crate::hub::touched(c1, now_ms as int),
            ),
            None => final(hub).clients@ == old(hub).clients@,
        }),
        (ev matches WsEvent::Text(t) && r is Stop) ==> final(hub).clients@ == old(hub).clients@
            && final(hub).filter == old(hub).filter,
        ev matches WsEvent::Text(t) ==> (r is Continue ==> exists|m: MsgModel| #[trigger]
            text_routed(*old(hub), *final(hub), t@, peer_id@, now_ms as int, m)),
        ev matches WsEvent::Text(t) ==> (r is Stop <==> !(t@.len() > 0 && (text_value(
            t@,
        ) matches Some(u) && msg_shape_ok(u)))),
    {
    match ev {
        WsEvent::Close => WsControl::Stop,
        WsEvent::Binary => WsControl::Stop,
        WsEvent::Other => WsControl::Continue,
        WsEvent::Ping => {
            let keepalive = SignalMsg::default();
            hub.process_message(&keepalive, peer_id, now_ms);
            WsControl::Continue
        },
        WsEvent::Text(t) => {
            match parse_json(t.as_str()) {
                Ok(m) => {
                    hub.process_message(&m, peer_id, now_ms);
                    proof {
                        assert(text_routed(
                            *old(hub),
                            *hub,
                            t@,
                            peer_id@,
                            now_ms as int,
                            m@,
                        ));
                    }
                    WsControl::Continue
                },
                Err(_) => WsControl::Stop,
            }
        },
    }
}

} // verus!
