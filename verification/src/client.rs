//! A per-peer handle: transport mode, outbound queue (pull mode), last
//! activity, and the send / drain / close operations.

use vstd::prelude::*;
use crate::channel::push_text;
use crate::channel::wake_waiter;
use crate::channel::WakeOutcome;
use crate::codec::encode_msg;
use crate::msg::SignalMsg;
use crate::msg::ver_model;
use crate::msg::ver_msg;

verus! {

/// A pull client's queue holds at most this many messages; beyond it,
/// sends are silently dropped.
pub const POLLING_QUEUE_SIZE: usize = 30;

/// A pull client is idle after 3 minutes without activity.
pub const POLLING_EXPIRE_LIMIT: u64 = 3 * 60 * 1000;

/// A push client is idle after 11 minutes without activity.
pub const WS_EXPIRE_LIMIT: u64 = 11 * 60 * 1000;

/// A connected peer's handle. In push mode, `ws` carries serialized
/// messages to the socket's writer task; in pull mode, messages queue in
/// `msg_queue` and `http` pokes a waiting long-poll.
pub struct Client {
    pub peer_id: String,
    pub is_polling: bool,
    /// Milliseconds on the caller's monotonic clock.
    pub timestamp: u64,
    pub msg_queue: Vec<SignalMsg>,
    pub ws: Option<tokio::sync::mpsc::UnboundedSender<String>>,
    pub http: Option<tokio::sync::mpsc::Sender<()>>,
}

/// The idle limit for a transport mode, in milliseconds.
pub open spec fn expire_limit(is_polling: bool) -> int {
    if is_polling {
        POLLING_EXPIRE_LIMIT as int
    } else {
        WS_EXPIRE_LIMIT as int
    }
}

/// A client is idle once the time since its last activity exceeds its
/// mode's limit.
pub open spec fn spec_expired(c: Client, now_ms: int) -> bool {
    now_ms - c.timestamp > expire_limit(c.is_polling)
}

impl Client {
    /// The queue is bounded and the transport handle matches the mode: a
    /// pull client holds no socket channel, a push client no wake channel.
    pub open spec fn wf(self) -> bool {
        &&& self.msg_queue@.len() <= POLLING_QUEUE_SIZE
        &&& (self.ws is Some ==> !self.is_polling)
        &&& (self.http is Some ==> self.is_polling)
    }

    /// A fresh push-mode client.
    pub fn new(peer_id: &str, sender: tokio::sync::mpsc::UnboundedSender<String>, now_ms: u64) -> (r:
        Client)
        ensures
            r.wf(),
            r.peer_id@ == peer_id@,
            !r.is_polling,
            r.timestamp == now_ms,
            r.msg_queue@ == Seq::<SignalMsg>::empty(),
            r.ws == Some(sender),
            r.http is None,
    {
        Client {
            peer_id: peer_id.to_owned(),
            is_polling: false,
            timestamp: now_ms,
            msg_queue: Vec::new(),
            ws: Some(sender),
            http: None,
        }
    }

    /// A fresh pull-mode client with an empty queue.
    pub fn new_poll(peer_id: &str, sender: tokio::sync::mpsc::Sender<()>, now_ms: u64) -> (r: Client)
        ensures
            r.wf(),
            r.peer_id@ == peer_id@,
            r.is_polling,
            r.timestamp == now_ms,
            r.msg_queue@ == Seq::<SignalMsg>::empty(),
            r.ws is None,
            r.http == Some(sender),
    {
        Client {
            peer_id: peer_id.to_owned(),
            is_polling: true,
            timestamp: now_ms,
            msg_queue: Vec::new(),
            ws: None,
            http: Some(sender),
        }
    }

    /// Empties the queue.
    pub fn clear_queue(&mut self)
        ensures
            final(self).msg_queue@ == Seq::<SignalMsg>::empty(),
            final(self).peer_id == old(self).peer_id,
            final(self).is_polling == old(self).is_polling,
            final(self).timestamp == old(self).timestamp,
            final(self).ws == old(self).ws,
            final(self).http == old(self).http,
    {
        self.msg_queue.clear();
    }

    /// Replaces the transport with a socket channel: the client becomes a
    /// push client and the wake handle is released. The queue is kept.
    pub fn switch_to_ws(&mut self, sender: tokio::sync::mpsc::UnboundedSender<String>)
        ensures
            final(self).ws == Some(sender),
            final(self).http is None,
            !final(self).is_polling,
            final(self).peer_id == old(self).peer_id,
            final(self).timestamp == old(self).timestamp,
            final(self).msg_queue@ == old(self).msg_queue@,
            old(self).wf() ==> final(self).wf(),
    {
        self.is_polling = false;
        self.ws = Some(sender);
        self.http = None;
    }

    /// Replaces the transport with a wake channel: the client becomes a
    /// pull client and the socket handle is released. The queue is kept.
    pub fn switch_to_http(&mut self, sender: tokio::sync::mpsc::Sender<()>)
        ensures
            final(self).http == Some(sender),
            final(self).ws is None,
            final(self).is_polling,
            final(self).peer_id == old(self).peer_id,
            final(self).timestamp == old(self).timestamp,
            final(self).msg_queue@ == old(self).msg_queue@,
            old(self).wf() ==> final(self).wf(),
    {
        self.is_polling = true;
        self.http = Some(sender);
        self.ws = None;
    }

    /// Sends the server hello `{action: "ver", ver}` to this client.
    pub fn send_version(&mut self, ver: i32) -> (r: bool)
        requires
            old(self).wf(),
        ensures
            final(self).wf(),
            final(self).peer_id == old(self).peer_id,
            final(self).is_polling == old(self).is_polling,
            final(self).timestamp == old(self).timestamp,
            final(self).ws == old(self).ws,
            final(self).http == old(self).http,
            !old(self).is_polling ==> final(self).msg_queue@ == old(self).msg_queue@,
            old(self).is_polling && old(self).msg_queue@.len() >= POLLING_QUEUE_SIZE as nat ==> (
            final(self).msg_queue@ == old(self).msg_queue@ && r),
            old(self).is_polling && old(self).msg_queue@.len() < POLLING_QUEUE_SIZE as nat ==> (
            final(self).msg_queue@.len() == old(self).msg_queue@.len() + 1 && final(self).msg_queue@.last()@ == ver_model(ver as int) && final(self).msg_queue@.take(
                old(self).msg_queue@.len() as int,
            ) == old(self).msg_queue@),
    {
        let msg = ver_msg(ver);
        let r = self.send_message(msg);
        proof {
            if old(self).is_polling && old(self).msg_queue@.len() < POLLING_QUEUE_SIZE as nat {
                assert(self.msg_queue@.take(old(self).msg_queue@.len() as int) =~= old(self).msg_queue@);
            }
        }
        r
    }

    /// Sends a message to this client. In push mode the message goes to
    /// the socket channel as wire text and the result reports whether the
    /// writer is still there. In pull mode a saturated queue silently
    /// drops the message (the client is alive but backlogged); otherwise
    /// the message is appended and a waiting long-poll is poked.
    pub fn send_message(&mut self, msg: SignalMsg) -> (r: bool)
        requires
            old(self).wf(),
        ensures
            final(self).wf(),
            final(self).peer_id == old(self).peer_id,
            final(self).is_polling == old(self).is_polling,
            final(self).timestamp == old(self).timestamp,
            final(self).ws == old(self).ws,
            final(self).http == old(self).http,
            !old(self).is_polling ==> final(self).msg_queue@ == old(self).msg_queue@,
            !old(self).is_polling && old(self).ws is None ==> r == false,
            old(self).is_polling && old(self).msg_queue@.len() >= POLLING_QUEUE_SIZE as nat ==> (
            final(self).msg_queue@ == old(self).msg_queue@ && r),
            old(self).is_polling && old(self).msg_queue@.len() < POLLING_QUEUE_SIZE as nat ==> final(self).msg_queue@ == old(self).msg_queue@.push(msg),
            old(self).is_polling && old(self).http is None ==> r,
    {
        if self.is_polling {
            self.send_data_polling(msg)
        } else {
            self.send_msg_to_ws(msg)
        }
    }

    /// The pull-mode send: append to the bounded queue and poke a waiting
    /// long-poll; a saturated queue drops the message and still reports
    /// success.
    fn send_data_polling(&mut self, msg: SignalMsg) -> (r: bool)
        requires
            old(self).wf(),
            old(self).is_polling,
        ensures
            final(self).wf(),
            final(self).peer_id == old(self).peer_id,
            final(self).is_polling == old(self).is_polling,
            final(self).timestamp == old(self).timestamp,
            final(self).ws == old(self).ws,
            final(self).http == old(self).http,
            old(self).msg_queue@.len() >= POLLING_QUEUE_SIZE as nat ==> (final(self).msg_queue@
                == old(self).msg_queue@ && r),
            old(self).msg_queue@.len() < POLLING_QUEUE_SIZE as nat ==> final(self).msg_queue@ == old(self).msg_queue@.push(msg),
            old(self).http is None ==> r,
    {
        if self.msg_queue.len() >= POLLING_QUEUE_SIZE {
            return true;
        }
        self.msg_queue.push(msg);
        match self.http.as_ref() {
            Some(http) => {
                match wake_waiter(http) {
                    WakeOutcome::Closed => false,
                    _ => true,
                }
            },
            None => true,
        }
    }

    /// The push-mode send: serialize and hand to the socket channel.
    fn send_msg_to_ws(&mut self, msg: SignalMsg) -> (r: bool)
        requires
            old(self).wf(),
            !old(self).is_polling,
        ensures
            *final(self) == *old(self),
            old(self).ws is None ==> r == false,
    {
        let text = encode_msg(&msg);
        match self.ws.as_ref() {
            Some(ws) => push_text(ws, text),
            None => false,
        }
    }

    /// Atomically takes the queued messages, leaving the queue empty.
    pub fn get_queued_msgs(&mut self) -> (r: Vec<SignalMsg>)
        ensures
            r@ == old(self).msg_queue@,
            final(self).msg_queue@ == Seq::<SignalMsg>::empty(),
            final(self).peer_id == old(self).peer_id,
            final(self).is_polling == old(self).is_polling,
            final(self).timestamp == old(self).timestamp,
            final(self).ws == old(self).ws,
            final(self).http == old(self).http,
    {
        let mut msgs: Vec<SignalMsg> = Vec::new();
        core::mem::swap(&mut self.msg_queue, &mut msgs);
        msgs
    }

    /// Marks activity now.
    pub fn update_ts(&mut self, now_ms: u64)
        ensures
            final(self).timestamp == now_ms,
            final(self).peer_id == old(self).peer_id,
            final(self).is_polling == old(self).is_polling,
            final(self).msg_queue == old(self).msg_queue,
            final(self).ws == old(self).ws,
            final(self).http == old(self).http,
    {
        self.timestamp = now_ms;
    }

    /// Whether the client has been idle past its mode's limit: 3 minutes
    /// for pull, 11 minutes for push.
    pub fn is_expired(&self, now_ms: u64) -> (r: bool)
        ensures
            r == spec_expired(*self, now_ms as int),
    {
        let limit: u64 = if self.is_polling {
            POLLING_EXPIRE_LIMIT
        } else {
            WS_EXPIRE_LIMIT
        };
        now_ms > self.timestamp && now_ms - self.timestamp > limit
    }

    /// Releases whichever transport handle is active. Idempotent: closing
    /// an already-closed client changes nothing.
    pub fn close(&mut self)
        ensures
            final(self).ws is None,
            final(self).http is None,
            final(self).peer_id == old(self).peer_id,
            final(self).is_polling == old(self).is_polling,
            final(self).timestamp == old(self).timestamp,
            final(self).msg_queue == old(self).msg_queue,
            old(self).ws is None && old(self).http is None ==> *final(self) == *old(self),
    {
        self.ws = None;
        self.http = None;
    }
}

/// Idleness is monotone: once a client is expired at some time, it stays
/// expired at every later time, until its activity mark changes.
pub proof fn lemma_expired_monotone(c: Client, t1: int, t2: int)
    requires
        spec_expired(c, t1),
        t1 <= t2,
    ensures
        spec_expired(c, t2),
{
}

} // verus!
