use vstd::prelude::*;

verus! {

/// The process signals the supervisory task listens for.
#[allow(non_camel_case_types)]
#[derive(Clone, Copy, Debug, PartialEq, Eq, Structural)]
pub enum Signal {
    SIGINT,
    SIGTERM,
    SIGHUP,
    SIGQUIT,
}

#[verifier::external_type_specification]
#[verifier::external_body]
#[verifier::reject_recursive_types(T)]
pub struct ExBroadcastSender<T>(tokio::sync::broadcast::Sender<T>);

#[verifier::external_type_specification]
#[verifier::external_body]
#[verifier::reject_recursive_types(T)]
pub struct ExBroadcastReceiver<T>(tokio::sync::broadcast::Receiver<T>);

/// What one poll of the latch's channel reported.
#[derive(Debug, Clone, Copy, PartialEq, Eq, Structural)]
pub enum LatchPoll {
    Message,
    Empty,
    Closed,
    Lagged,
}

/// Relies on tokio::sync::broadcast::channel: a fresh channel (capacity 1)
/// with one subscribed receiver.
#[verifier::external_body]
fn latch_channel() -> (r: (tokio::sync::broadcast::Sender<()>, tokio::sync::broadcast::Receiver<
    (),
>)) {
    tokio::sync::broadcast::channel(1)
}

/// Relies on tokio::sync::broadcast::Sender::send: delivers to the
/// currently subscribed receivers and errs only when none are subscribed.
#[verifier::external_body]
fn latch_send(tx: &tokio::sync::broadcast::Sender<()>) -> (ok: bool) {
    tx.send(()).is_ok()
}

/// Relies on tokio::sync::broadcast::Receiver::try_recv: reports a pending
/// message, an empty channel, a closed channel, or a cursor that lagged
/// behind overwritten messages.
#[verifier::external_body]
fn latch_try_recv(rx: &mut tokio::sync::broadcast::Receiver<()>) -> (r: LatchPoll) {
    match rx.try_recv() {
        Ok(()) => LatchPoll::Message,
        Err(tokio::sync::broadcast::error::TryRecvError::Empty) => LatchPoll::Empty,
        Err(tokio::sync::broadcast::error::TryRecvError::Closed) => LatchPoll::Closed,
        Err(tokio::sync::broadcast::error::TryRecvError::Lagged(_)) => LatchPoll::Lagged,
    }
}

/// Relies on tokio::sync::broadcast::Sender::subscribe: a receiver that
/// observes values sent after this call.
#[verifier::external_body]
fn latch_subscribe(tx: &tokio::sync::broadcast::Sender<()>) -> (rx:
    tokio::sync::broadcast::Receiver<()>) {
    tx.subscribe()
}

/// Relies on tokio::sync::broadcast::Sender::clone: another handle to the
/// same channel.
#[verifier::external_body]
fn latch_sender_clone(tx: &tokio::sync::broadcast::Sender<()>) -> (r:
    tokio::sync::broadcast::Sender<()>) {
    tx.clone()
}

/// The latch's poll policy, stated as a contract: a pending message is
/// the signal, and a lagged cursor proves an overwritten one — the only
/// message this channel ever carries is the shutdown signal. An empty or
/// closed channel proves nothing new, so the previous observation stands.
pub fn absorb_poll(prev: bool, poll: LatchPoll) -> (r: bool)
    ensures
        r == (prev || poll is Message || poll is Lagged),
{
    match poll {
        LatchPoll::Message => true,
        LatchPoll::Lagged => true,
        LatchPoll::Empty => prev,
        LatchPoll::Closed => prev,
    }
}

/// A handle on the process-wide shutdown latch. Signaling is idempotent;
/// each handle caches whether it has already observed the signal, so that
/// once a handle reports the signal it keeps reporting it.
#[derive(Debug)]
pub struct ShutdownReceiver {
    tx: tokio::sync::broadcast::Sender<()>,
    rx: tokio::sync::broadcast::Receiver<()>,
    received: bool,
}

impl ShutdownReceiver {
    /// Whether this handle has already observed the shutdown signal.
    pub closed spec fn observed(&self) -> bool {
        self.received
    }

    /// A fresh latch, not yet signaled and not yet observed by anyone.
    pub fn new() -> (r: ShutdownReceiver)
        ensures
            !r.observed(),
    {
        let (tx, rx) = latch_channel();
        ShutdownReceiver { tx, rx, received: false }
    }

    /// Fire the latch. Idempotent: a second call delivers nothing new, and
    /// neither call can panic. A delivery failure (no live receiver) is
    /// ignored: there is then nobody left to notify.
    pub fn set(&mut self)
        ensures
            final(self).observed() == old(self).observed(),
    {
        let _ = latch_send(&self.tx);
    }

    /// Poll the latch without waiting. Once this handle has observed the
    /// signal the cached answer is returned without touching the channel,
    /// and the answer never goes back from signaled to quiet. What a poll
    /// outcome means is fixed by `absorb_poll`'s contract, which every
    /// fresh observation goes through.
    pub fn is_recv(&mut self) -> (r: bool)
        ensures
            r == final(self).observed(),
            old(self).observed() ==> r,
    {
        if !self.received {
            let poll = latch_try_recv(&mut self.rx);
            self.received = absorb_poll(self.received, poll);
        }
        self.received
    }

    /// A new handle on the same latch. The channel is polled first, so a
    /// handle cloned after the signal fired starts out already signaled
    /// rather than snapshotting a stale quiet state.
    pub fn clone_handle(&mut self) -> (r: ShutdownReceiver)
        ensures
            r.observed() == final(self).observed(),
            old(self).observed() ==> final(self).observed(),
    {
        let _ = self.is_recv();
        ShutdownReceiver {
            tx: latch_sender_clone(&self.tx),
            rx: latch_subscribe(&self.tx),
            received: self.received,
        }
    }

    /// A raw receiver on the latch's channel, for a caller that wants to
    /// block on the signal; it observes only a signal fired after this
    /// call, so poll `is_recv` once after subscribing.
    pub fn subscribe_receiver(&self) -> (rx: tokio::sync::broadcast::Receiver<()>) {
        latch_subscribe(&self.tx)
    }
}

} // verus!
