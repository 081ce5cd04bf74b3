//! Trusted boundary around the outbound transport handles: a push client's
//! unbounded text channel and a pull client's capacity-1 wake channel,
//! both from `tokio::sync::mpsc`.

use vstd::prelude::*;

verus! {

#[verifier::external_type_specification]
#[verifier::external_body]
#[verifier::reject_recursive_types(T)]
pub struct ExUnboundedSender<T>(tokio::sync::mpsc::UnboundedSender<T>);

#[verifier::external_type_specification]
#[verifier::external_body]
#[verifier::reject_recursive_types(T)]
pub struct ExSender<T>(tokio::sync::mpsc::Sender<T>);

/// Outcome of a non-blocking wake signal.
pub enum WakeOutcome {
    /// The signal was placed in the channel.
    Notified,
    /// The channel already held a pending signal; nothing was sent.
    Pending,
    /// The waiter is gone: the channel is closed.
    Closed,
}

/// Relies on `tokio::sync::mpsc::UnboundedSender::send`: the text is
/// queued for the writer task unless the receiving half is closed.
/// Whether the receiver is still there depends on the peer, so nothing is
/// promised of the result.
#[verifier::external_body]
pub fn push_text(s: &tokio::sync::mpsc::UnboundedSender<String>, text: String) -> (r: bool) {
    s.send(text).is_ok()
}

/// Relies on `tokio::sync::mpsc::Sender::try_send` on a capacity-1
/// channel: a non-blocking notify that is skipped when a signal is
/// already pending. The outcome depends on the waiter, so nothing is
/// promised of it.
#[verifier::external_body]
pub fn wake_waiter(s: &tokio::sync::mpsc::Sender<()>) -> (r: WakeOutcome) {
    match s.try_send(()) {
        Ok(()) => WakeOutcome::Notified,
        Err(tokio::sync::mpsc::error::TrySendError::Full(())) => WakeOutcome::Pending,
        Err(tokio::sync::mpsc::error::TrySendError::Closed(())) => WakeOutcome::Closed,
    }
}

} // verus!
