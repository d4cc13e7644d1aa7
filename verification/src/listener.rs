//! One TCP listener's accept loop, as decisions.  The loop itself —
//! binding, awaiting a connection, sleeping before a retry — is the
//! surrounding program's; what the loop does with each event is fixed
//! here.

use vstd::prelude::*;
use crate::net::Addr;

verus! {

/// A connection handed from a listener to the accept queue.  The raw
/// stream is opaque to the model.
pub struct Accepted<T> {
    pub listen_addr: Addr,
    pub remote_addr: Addr,
    pub stream: T,
}

/// What one turn of a listener's accept loop saw.
pub enum AcceptEvent<T> {
    /// A connection arrived.
    Conn { remote_addr: Addr, stream: T },
    /// The accept failed; such a failure is never fatal.
    AcceptError,
    /// The queue's receiving side is gone.
    QueueClosed,
}

/// What one turn of a listener's accept loop does next.
pub enum LoopAction<T> {
    /// Push this connection onto the accept queue.
    Enqueue(Accepted<T>),
    /// Log, sleep one second, try again.
    RetryAfterDelay,
    /// Leave the loop; the listener is done.
    Stop,
}

/// The accept loop's whole decision: enqueue what arrived under this
/// listener's address, retry after a transient failure, stop when the
/// queue is gone.
pub fn listener_step<T>(listen_addr: Addr, event: AcceptEvent<T>) -> (r: LoopAction<T>)
    ensures
        match event {
            AcceptEvent::Conn { remote_addr, stream } => r matches LoopAction::Enqueue(a)
                && a.listen_addr == listen_addr && a.remote_addr == remote_addr
                && a.stream == stream,
            AcceptEvent::AcceptError => r is RetryAfterDelay,
            AcceptEvent::QueueClosed => r is Stop,
        },
{
    match event {
        AcceptEvent::Conn { remote_addr, stream } => LoopAction::Enqueue(
            Accepted { listen_addr, remote_addr, stream },
        ),
        AcceptEvent::AcceptError => LoopAction::RetryAfterDelay,
        AcceptEvent::QueueClosed => LoopAction::Stop,
    }
}

} // verus!
