//! Spin-based rendezvous of a fixed number of parties.
//!
//! A round ends when as many arrivals as there are parties have been
//! counted. The last arrival of a round is its leader: it resets the arrival
//! counter and then advances the epoch. Every other arrival is a follower,
//! released as soon as it reads an epoch other than the one it read before
//! it arrived.
//!
//! Arriving never blocks. A follower that has to wait polls `released` in a
//! loop of its own; whether it gives up after a while is its caller's
//! decision. Every atomic operation is sequentially consistent.
//!
//! The module [`protocol`] describes how the operations of several parties
//! interleave, and shows what holds of every interleaving.
pub mod protocol;

use std::sync::atomic::AtomicUsize;
use std::sync::atomic::Ordering;
use vstd::prelude::*;

verus! {

/// What an arrival at a rendezvous came to.
#[derive(Clone, Copy, Debug, PartialEq, Eq, Structural)]
pub enum Arrival {
    /// The last arrival of its round, which has released the others.
    Leader,
    /// An earlier arrival, released once the epoch is no longer `epoch`.
    Follower { epoch: usize },
}

/// The arrival that found `index` earlier arrivals is the last of `parties`.
pub open spec fn is_last_arrival(index: usize, parties: usize) -> bool {
    index + 1 == parties
}

/// The role of the arrival that read `epoch`, then found `index` earlier
/// arrivals in its round.
pub open spec fn arrival_of(index: usize, parties: usize, epoch: usize) -> Arrival {
    if is_last_arrival(index, parties) {
        Arrival::Leader
    } else {
        Arrival::Follower { epoch }
    }
}

/// A follower that read `seen` before it arrived is released when the epoch
/// reads `current`.
pub open spec fn epoch_passed(seen: usize, current: usize) -> bool {
    seen != current
}

/// A round is under way when the arrival counter reads `count`.
pub open spec fn round_in_progress(count: usize) -> bool {
    count != 0
}

impl Arrival {
    pub fn is_leader(&self) -> (leader: bool)
        ensures
            leader == (*self == Arrival::Leader),
    {
        match self {
            Arrival::Leader => true,
            Arrival::Follower { .. } => false,
        }
    }
}

/// Decides the role of an arrival from the value that the arrival counter
/// held before it.
pub fn classify_arrival(index: usize, parties: usize, epoch: usize) -> (arrival: Arrival)
    ensures
        arrival == arrival_of(index, parties, epoch),
{
    if parties >= 1 && index == parties - 1 {
        Arrival::Leader
    } else {
        Arrival::Follower { epoch }
    }
}

/// Decides whether a follower may leave from the epoch that it has just read.
pub fn has_epoch_passed(seen: usize, current: usize) -> (passed: bool)
    ensures
        passed == epoch_passed(seen, current),
{
    seen != current
}

/// Decides whether to join from the value that the arrival counter holds.
pub fn is_round_in_progress(count: usize) -> (started: bool)
    ensures
        started == round_in_progress(count),
{
    count != 0
}

fn read(cell: &AtomicUsize) -> usize {
    cell.load(Ordering::SeqCst)
}

fn increment(cell: &AtomicUsize) -> usize {
    cell.fetch_add(1, Ordering::SeqCst)
}

fn clear(cell: &AtomicUsize) {
    cell.store(0, Ordering::SeqCst)
}

/// The two counters that a barrier and a signal are both made of.
struct Rendezvous {
    counter: AtomicUsize,
    epoch: AtomicUsize,
    num_thrs: usize,
}

impl Rendezvous {
    #[verifier::type_invariant]
    spec fn wf(&self) -> bool {
        self.num_thrs >= 1
    }

    fn new(num_thrs: usize) -> (r: Rendezvous)
        requires
            num_thrs >= 1,
        ensures
            r.num_thrs == num_thrs,
    {
        Rendezvous { counter: AtomicUsize::new(0), epoch: AtomicUsize::new(0), num_thrs }
    }

    fn arrive(&self) -> Arrival {
        let epoch: usize = read(&self.epoch);
        let index: usize = increment(&self.counter);
        let arrival = classify_arrival(index, self.num_thrs, epoch);
        if arrival.is_leader() {
            clear(&self.counter);
            increment(&self.epoch);
        }
        arrival
    }

    fn try_arrive(&self) -> Option<Arrival> {
        let count: usize = read(&self.counter);
        if is_round_in_progress(count) {
            Some(self.arrive())
        } else {
            None
        }
    }

    fn released(&self, epoch: usize) -> bool {
        let current: usize = read(&self.epoch);
        has_epoch_passed(epoch, current)
    }
}

/// A barrier for a fixed number of parties, reusable round after round.
pub struct SpinBarrier {
    inner: Rendezvous,
}

impl SpinBarrier {
    /// The number of arrivals that make a round.
    pub closed spec fn parties(&self) -> nat {
        self.inner.num_thrs as nat
    }

    /// A barrier for `num_thrs` parties, before its first round.
    pub fn new(num_thrs: usize) -> (barrier: SpinBarrier)
        requires
            num_thrs >= 1,
        ensures
            barrier.parties() == num_thrs,
    {
        SpinBarrier { inner: Rendezvous::new(num_thrs) }
    }

    /// Joins the round under way, without waiting for its end.
    ///
    /// Reads the epoch, then adds one to the arrival counter. The arrival
    /// that completes the round resets the counter, advances the epoch and
    /// comes back as the leader. Any other comes back as a follower with the
    /// epoch that it read, and is to poll [`SpinBarrier::released`] with it.
    pub fn arrive(&self) -> Arrival {
        self.inner.arrive()
    }

    /// Reads the epoch once and tells whether the round that a follower
    /// joined at `epoch` has ended.
    pub fn released(&self, epoch: usize) -> bool {
        self.inner.released(epoch)
    }
}

/// A barrier that a party may also join only if a round is under way.
pub struct SpinSignal {
    inner: Rendezvous,
}

impl SpinSignal {
    /// The number of arrivals that make a round.
    pub closed spec fn parties(&self) -> nat {
        self.inner.num_thrs as nat
    }

    /// A signal for rounds of `num_thrs` arrivals, before its first round.
    pub fn new(num_thrs: usize) -> (signal: SpinSignal)
        requires
            num_thrs >= 1,
        ensures
            signal.parties() == num_thrs,
    {
        SpinSignal { inner: Rendezvous::new(num_thrs) }
    }

    /// Joins the round under way as an arrival at a barrier does, without
    /// waiting for its end.
    pub fn arrive(&self) -> Arrival {
        self.inner.arrive()
    }

    /// Joins the round under way if the arrival counter shows that there is
    /// one, and otherwise touches nothing and gives `None`.
    ///
    /// The counter is read once, before joining: a round that begins or ends
    /// between that read and the arrival is not noticed.
    pub fn try_arrive(&self) -> Option<Arrival> {
        self.inner.try_arrive()
    }

    /// Reads the epoch once and tells whether the round that a follower
    /// joined at `epoch` has ended.
    pub fn released(&self, epoch: usize) -> bool {
        self.inner.released(epoch)
    }
}

} // verus!
