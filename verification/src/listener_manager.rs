//! The listener table and the bounded accept queue that multiplexes
//! every listener onto one consumer.  Sockets and tasks are the
//! surrounding program's; the table's bookkeeping and the queue's
//! bound are kept here.

use vstd::prelude::*;
use crate::listener::Accepted;
use crate::net::Addr;

verus! {

/// How many accepted, not yet handled sockets may wait at once.
/// Beyond this the accept loops block: the sole backpressure knob.
pub const MAX_UNACCEPTED_SOCKETS: usize = 100;

/// A bounded FIFO queue.  Its length never exceeds its capacity.
pub struct AcceptQueue<T> {
    pub items: Vec<T>,
    pub capacity: usize,
}

impl<T> AcceptQueue<T> {
    /// The queue's bound holds.
    pub open spec fn wf(&self) -> bool {
        self.items@.len() <= self.capacity@
    }

    /// An empty queue with the given capacity.
    pub fn new(capacity: usize) -> (r: AcceptQueue<T>)
        ensures
            r.wf(),
            r.items@ =~= Seq::<T>::empty(),
            r.capacity == capacity,
    {
        AcceptQueue { items: Vec::new(), capacity }
    }

    /// How many items wait.
    pub fn len(&self) -> (r: usize)
        ensures
            r == self.items@.len(),
    {
        self.items.len()
    }

    /// Enqueues at the back.  A full queue gives the item back: the
    /// sender must wait and try again.
    pub fn push(&mut self, item: T) -> (r: Result<(), T>)
        requires
            old(self).wf(),
        ensures
            final(self).wf(),
            final(self).capacity == old(self).capacity,
            old(self).items@.len() < old(self).capacity@ ==> r is Ok && final(self).items@
                == old(self).items@.push(item),
            old(self).items@.len() >= old(self).capacity@ ==> (r matches Err(t) && t == item
                && final(self).items@ == old(self).items@),
    {
        if self.items.len() < self.capacity {
            self.items.push(item);
            Ok(())
        } else {
            Err(item)
        }
    }

    /// Dequeues at the front; the queue is FIFO.
    pub fn pop(&mut self) -> (r: Option<T>)
        requires
            old(self).wf(),
        ensures
            final(self).wf(),
            final(self).capacity == old(self).capacity,
            old(self).items@.len() == 0 ==> r is None && final(self).items@ == old(self).items@,
            old(self).items@.len() > 0 ==> (r matches Some(t) && t == old(self).items@[0]
                && final(self).items@ == old(self).items@.drop_first()),
    {
        if self.items.len() == 0 {
            None
        } else {
            let item = self.items.remove(0);
            proof {
                assert(final(self).items@ =~= old(self).items@.drop_first());
            }
            Some(item)
        }
    }
}

/// The listener addresses after asking to listen on `a`: a second ask
/// for a bound address changes nothing.
pub open spec fn started_rep(s: Seq<Addr>, a: Addr) -> Seq<Addr> {
    if s.contains(a) {
        s
    } else {
        s.push(a)
    }
}

/// The listener addresses after stopping `a`: its entry is gone; an
/// unknown address changes nothing.
pub open spec fn stopped_rep(s: Seq<Addr>, a: Addr) -> Seq<Addr>
    decreases s.len(),
{
    if s.len() == 0 {
        s
    } else if s[0] == a {
        s.drop_first()
    } else {
        seq![s[0]] + stopped_rep(s.drop_first(), a)
    }
}

/// Asking twice to listen on one address leaves what one ask left:
/// one listener, one bound socket.
pub proof fn lemma_start_idempotent(s: Seq<Addr>, a: Addr)
    ensures
        started_rep(started_rep(s, a), a) == started_rep(s, a),
{
    if !s.contains(a) {
        assert(s.push(a)[s.len() as int] == a);
        assert(s.push(a).contains(a));
    }
}

/// The set of live listeners keyed by address, and the one accept
/// queue they all feed.  The stream type is opaque to the model.
pub struct ListenerManager<T> {
    pub listeners: Vec<Addr>,
    pub queue: AcceptQueue<Accepted<T>>,
}

impl<T> ListenerManager<T> {
    /// No address is listed twice, and the queue's bound holds.
    pub open spec fn wf(&self) -> bool {
        &&& self.queue.wf()
        &&& forall|i: int, j: int|
            0 <= i < j < self.listeners@.len() ==> self.listeners@[i] != self.listeners@[j]
    }

    /// A manager with no listeners and an empty queue of the
    /// configured bound.
    pub fn new() -> (r: ListenerManager<T>)
        ensures
            r.wf(),
            r.listeners@ =~= Seq::<Addr>::empty(),
            r.queue.items@ =~= Seq::<Accepted<T>>::empty(),
            r.queue.capacity == MAX_UNACCEPTED_SOCKETS,
    {
        ListenerManager { listeners: Vec::new(), queue: AcceptQueue::new(MAX_UNACCEPTED_SOCKETS) }
    }

    /// Books a listener for `addr`.  Idempotent: the result says
    /// whether a socket must actually be bound, and a second ask for
    /// a booked address is a no-op.
    pub fn start_listening_on(&mut self, addr: Addr) -> (r: bool)
        requires
            old(self).wf(),
        ensures
            final(self).wf(),
            final(self).listeners@ == started_rep(old(self).listeners@, addr),
            r == !old(self).listeners@.contains(addr),
            final(self).queue == old(self).queue,
    {
        let n = self.listeners.len();
        let mut i: usize = 0;
        while i < n
            invariant
                n == self.listeners@.len(),
                self == old(self),
                old(self).wf(),
                0 <= i <= n,
                forall|j: int| 0 <= j < i ==> self.listeners@[j] != addr,
            decreases n - i,
        {
            if self.listeners[i] == addr {
                return false;
            }
            i += 1;
        }
        proof {
            assert(!old(self).listeners@.contains(addr));
        }
        self.listeners.push(addr);
        true
    }

    /// Unbooks the listener for `addr`, if one is booked; idempotent.
    /// The result says whether a listener was there to shut down.
    pub fn stop_listening_on(&mut self, addr: Addr) -> (r: bool)
        requires
            old(self).wf(),
        ensures
            final(self).wf(),
            final(self).listeners@ == stopped_rep(old(self).listeners@, addr),
            r == old(self).listeners@.contains(addr),
            final(self).queue == old(self).queue,
    {
        let ghost orig = self.listeners@;
        let n = self.listeners.len();
        let mut i: usize = 0;
        proof {
            assert(orig.skip(0) =~= orig);
            assert(orig.take(0) + stopped_rep(orig.skip(0), addr) =~= stopped_rep(orig, addr));
        }
        while i < n
            invariant
                n == self.listeners@.len(),
                orig == self.listeners@,
                orig == old(self).listeners@,
                self == old(self),
                old(self).wf(),
                0 <= i <= n,
                stopped_rep(orig, addr) == orig.take(i as int) + stopped_rep(
                    orig.skip(i as int),
                    addr,
                ),
                forall|j: int| 0 <= j < i ==> orig[j] != addr,
            decreases n - i,
        {
            proof {
                assert(orig.skip(i as int)[0] == orig[i as int]);
            }
            if self.listeners[i] == addr {
                self.listeners.remove(i);
                proof {
                    assert(orig.skip(i as int).drop_first() =~= orig.skip(i as int + 1));
                    assert(orig.contains(addr));
                    assert(self.listeners@ =~= orig.take(i as int) + orig.skip(i as int + 1));
                }
                return true;
            }
            proof {
                assert(orig.skip(i as int).drop_first() =~= orig.skip(i as int + 1));
                assert(orig.take(i as int) + (seq![orig[i as int]] + stopped_rep(
                    orig.skip(i as int + 1),
                    addr,
                )) =~= orig.take(i as int + 1) + stopped_rep(orig.skip(i as int + 1), addr));
            }
            i += 1;
        }
        proof {
            assert(orig.skip(n as int) =~= Seq::<Addr>::empty());
            assert(self.listeners@ =~= stopped_rep(orig, addr));
            assert forall|k: int| 0 <= k < orig.len() implies orig[k] != addr by {}
            assert(!orig.contains(addr));
        }
        false
    }

    /// Takes a connection off the shared queue, oldest first; `None`
    /// when nothing waits yet.
    pub fn accept(&mut self) -> (r: Option<Accepted<T>>)
        requires
            old(self).wf(),
        ensures
            final(self).wf(),
            final(self).listeners@ == old(self).listeners@,
            old(self).queue.items@.len() == 0 ==> r is None
                && final(self).queue.items@ == old(self).queue.items@,
            old(self).queue.items@.len() > 0 ==> (r matches Some(a)
                && a == old(self).queue.items@[0]
                && final(self).queue.items@ == old(self).queue.items@.drop_first()),
    {
        self.queue.pop()
    }

    /// Hands an accepted connection to the queue; a full queue gives
    /// it back, and the listener's loop must wait.
    pub fn enqueue(&mut self, accepted: Accepted<T>) -> (r: Result<(), Accepted<T>>)
        requires
            old(self).wf(),
        ensures
            final(self).wf(),
            final(self).listeners@ == old(self).listeners@,
            old(self).queue.items@.len() < old(self).queue.capacity@ ==> r is Ok
                && final(self).queue.items@ == old(self).queue.items@.push(accepted),
            old(self).queue.items@.len() >= old(self).queue.capacity@ ==> (r matches Err(t)
                && t == accepted && final(self).queue.items@ == old(self).queue.items@),
    {
        self.queue.push(accepted)
    }
}

} // verus!
