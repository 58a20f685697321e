//! The rendezvous protocol as a transition system.
//!
//! Each party passes the barrier again and again. To pass, it reads the
//! epoch, adds one to the arrival counter, and then either leads (clears the
//! counter and advances the epoch) or follows (polls the epoch until it has
//! changed). Every step of the system is one of these atomic operations,
//! performed by one party; between two operations of one party any number
//! of operations of the others may take place. Since every operation is sequentially consistent, the steps of a
//! run are the operations of the parties in one order that all of them see.
//!
//! The laws at the end of this module hold of every state that such a run
//! reaches: each round has exactly one leader, no party leaves a round
//! before all have joined it, the parties never all wait for each other, and
//! a round ends after a bounded number of operations.
//!
//! The executable barrier keeps its two counters in atomics of the standard
//! library, of whose values no contract speaks. What ties it to this model
//! is that it performs these operations in this order and takes its
//! decisions with the functions that the steps are defined by.
use super::arrival_of;
use super::epoch_passed;
use super::Arrival;
use vstd::prelude::*;
use vstd::set_lib::lemma_int_range;
use vstd::set_lib::lemma_len_subset;
use vstd::set_lib::lemma_subset_equality;
use vstd::set_lib::set_int_range;

verus! {

/// Where a party stands between two of its atomic operations.
pub enum Phase {
    /// Between two passes.
    Idle,
    /// Passing, having read `epoch`, about to add itself to the counter.
    Loaded { epoch: usize },
    /// The round's last arrival, about to clear the counter.
    Resetting,
    /// The round's last arrival, about to advance the epoch.
    Advancing,
    /// An earlier arrival, polling for an epoch other than `epoch`.
    Spinning { epoch: usize },
}

/// The two counters, each party's phase, and what has happened so far.
pub struct Rounds {
    pub counter: usize,
    pub epoch: usize,
    pub phases: Seq<Phase>,
    /// For each party, whether it led each of the rounds that it has passed,
    /// oldest first.
    pub led: Seq<Seq<bool>>,
    /// The party that led each finished round, oldest first.
    pub leaders: Seq<int>,
}

/// What `fetch_add(1)` leaves in a counter that held `value`.
pub open spec fn incremented(value: usize) -> usize {
    if value == usize::MAX {
        0
    } else {
        (value + 1) as usize
    }
}

impl Rounds {
    pub open spec fn parties(self) -> nat {
        self.phases.len()
    }

    /// `parties` idle parties before the first round.
    pub open spec fn init(parties: nat, epoch: usize) -> Rounds {
        Rounds {
            counter: 0,
            epoch,
            phases: Seq::new(parties, |i: int| Phase::Idle),
            led: Seq::new(parties, |i: int| Seq::empty()),
            leaders: Seq::empty(),
        }
    }

    /// The state after party `i` has performed its next atomic operation.
    pub open spec fn step(self, i: int) -> Rounds
        recommends
            0 <= i < self.parties(),
    {
        match self.phases[i] {
            Phase::Idle => Rounds {
                phases: self.phases.update(i, Phase::Loaded { epoch: self.epoch }),
                ..self
            },
            Phase::Loaded { epoch } => Rounds {
                counter: incremented(self.counter),
                phases: self.phases.update(
                    i,
                    match arrival_of(self.counter, self.parties() as usize, epoch) {
                        Arrival::Leader => Phase::Resetting,
                        Arrival::Follower { epoch } => Phase::Spinning { epoch },
                    },
                ),
                ..self
            },
            Phase::Resetting => Rounds {
                counter: 0,
                phases: self.phases.update(i, Phase::Advancing),
                ..self
            },
            Phase::Advancing => Rounds {
                epoch: incremented(self.epoch),
                phases: self.phases.update(i, Phase::Idle),
                led: self.led.update(i, self.led[i].push(true)),
                leaders: self.leaders.push(i),
                ..self
            },
            Phase::Spinning { epoch } => if epoch_passed(epoch, self.epoch) {
                Rounds {
                    phases: self.phases.update(i, Phase::Idle),
                    led: self.led.update(i, self.led[i].push(false)),
                    ..self
                }
            } else {
                self
            },
        }
    }

    /// The number of rounds that party `i` has passed.
    pub open spec fn passes(self, i: int) -> nat {
        self.led[i].len()
    }

    /// The number of times that party `i` has added itself to the counter.
    pub open spec fn arrivals(self, i: int) -> nat {
        match self.phases[i] {
            Phase::Idle | Phase::Loaded { .. } => self.passes(i),
            _ => self.passes(i) + 1,
        }
    }

    /// Party `i` polls and the epoch is still the one it read.
    pub open spec fn blocked(self, i: int) -> bool {
        self.phases[i] == (Phase::Spinning { epoch: self.epoch })
    }
}

impl Rounds {
    /// Party `i` has joined the round under way and polls for its end.
    pub open spec fn waiting(self, i: int) -> bool {
        &&& self.phases[i] == (Phase::Spinning { epoch: self.epoch })
        &&& self.passes(i) == self.leaders.len()
    }

    /// Party `i` is the last arrival of the round under way.
    pub open spec fn leading(self, i: int) -> bool {
        self.phases[i] == Phase::Resetting || self.phases[i] == Phase::Advancing
    }

    /// The parties that wait for the end of the round under way.
    pub open spec fn waiters(self) -> Set<int> {
        Set::new(|i: int| 0 <= i < self.parties() && self.waiting(i))
    }

    /// What party `i`'s phase says of the counters and of the rounds that it
    /// has passed.
    pub open spec fn party_inv(self, i: int) -> bool {
        let rounds: nat = self.leaders.len();
        match self.phases[i] {
            Phase::Idle => self.passes(i) == rounds,
            Phase::Loaded { epoch } => self.passes(i) == rounds && epoch == self.epoch,
            Phase::Resetting => self.passes(i) == rounds && self.counter == self.parties(),
            Phase::Advancing => self.passes(i) == rounds && self.counter == 0,
            Phase::Spinning { epoch } => {
                ||| self.passes(i) == rounds && epoch == self.epoch
                ||| {
                    &&& self.passes(i) + 1 == rounds
                    &&& incremented(epoch) == self.epoch
                    &&& self.leaders[rounds - 1] != i
                }
            },
        }
    }

    /// One record per party, and every finished round led by one of them.
    pub open spec fn records_inv(self) -> bool {
        &&& 1 <= self.parties() <= usize::MAX
        &&& self.led.len() == self.parties()
        &&& forall|k: int|
            0 <= k < self.leaders.len() ==> 0 <= #[trigger] self.leaders[k] < self.parties()
    }

    /// A party is recorded as the leader of a round that it has passed
    /// exactly when it led that round.
    pub open spec fn results_inv(self) -> bool {
        forall|i: int, k: int|
            0 <= i < self.parties() && 0 <= k < self.passes(i) ==> (#[trigger] self.led[i][k]
                <==> self.leaders[k] == i)
    }

    /// While one party leads, all the others wait.
    pub open spec fn leader_inv(self) -> bool {
        forall|i: int, j: int|
            0 <= i < self.parties() && 0 <= j < self.parties() && i != j
                && #[trigger] self.leading(i) ==> #[trigger] self.waiting(j)
    }

    /// While no party leads, the counter counts the waiting parties, and
    /// they are not all of them.
    pub open spec fn counter_inv(self) -> bool {
        (forall|i: int| 0 <= i < self.parties() ==> !#[trigger] self.leading(i)) ==> {
            &&& self.counter == self.waiters().len()
            &&& self.counter < self.parties()
        }
    }

    /// What holds of every state that the protocol reaches.
    pub open spec fn inv(self) -> bool {
        &&& self.records_inv()
        &&& forall|i: int| 0 <= i < self.parties() ==> #[trigger] self.party_inv(i)
        &&& self.results_inv()
        &&& self.leader_inv()
        &&& self.counter_inv()
    }
}

/// The waiting parties are finitely many, and fewer than all while one of
/// the parties does not wait.
proof fn lemma_waiters_bound(s: Rounds, i: int)
    requires
        0 <= i < s.parties(),
        !s.waiting(i),
    ensures
        s.waiters().finite(),
        s.waiters().len() < s.parties(),
        s.waiters().len() + 1 == s.parties() ==> forall|j: int|
            0 <= j < s.parties() && j != i ==> #[trigger] s.waiting(j),
{
    let n: int = s.parties() as int;
    let others = set_int_range(0, n).remove(i);
    lemma_int_range(0, n);
    lemma_len_subset(s.waiters(), others);
    if s.waiters().len() + 1 == n {
        lemma_subset_equality(s.waiters(), others);
        assert forall|j: int| 0 <= j < n && j != i implies #[trigger] s.waiting(j) by {
            assert(s.waiters().contains(j));
        }
    }
}

/// The protocol starts in a state of which the invariant holds.
pub proof fn lemma_init_inv(parties: nat, epoch: usize)
    requires
        1 <= parties <= usize::MAX,
    ensures
        Rounds::init(parties, epoch).inv(),
{
    let s = Rounds::init(parties, epoch);
    assert(s.waiters() =~= Set::empty());
}

/// While one of the parties neither leads nor waits, none leads.
proof fn lemma_nobody_leads(s: Rounds, i: int)
    requires
        s.leader_inv(),
        0 <= i < s.parties(),
        !s.waiting(i),
        !s.leading(i),
    ensures
        forall|l: int| 0 <= l < s.parties() ==> !#[trigger] s.leading(l),
{
    assert forall|l: int| 0 <= l < s.parties() implies !#[trigger] s.leading(l) by {
        if s.leading(l) {
            assert(s.waiting(i));
        }
    }
}

/// Whichever party moves next, the invariant holds afterwards.
pub proof fn lemma_step_inv(s: Rounds, i: int)
    requires
        s.inv(),
        0 <= i < s.parties(),
    ensures
        s.step(i).inv(),
{
    let t = s.step(i);
    let n: int = s.parties() as int;
    assert(s.party_inv(i));
    match s.phases[i] {
        Phase::Idle => {
            lemma_nobody_leads(s, i);
            assert forall|j: int| 0 <= j < n implies #[trigger] t.party_inv(j) by {
                assert(s.party_inv(j));
            }
            assert forall|l: int| 0 <= l < n implies !#[trigger] t.leading(l) by {
                assert(!s.leading(l));
            }
            assert(t.waiters() =~= s.waiters());
        },
        Phase::Loaded { epoch } => {
            lemma_nobody_leads(s, i);
            lemma_waiters_bound(s, i);
            assert forall|j: int| 0 <= j < n implies #[trigger] t.party_inv(j) by {
                assert(s.party_inv(j));
                assert(!s.leading(j));
            }
            if s.counter + 1 == n {
                assert(t.leading(i));
                assert forall|a: int, b: int|
                    0 <= a < n && 0 <= b < n && a != b && #[trigger] t.leading(a)
                    implies #[trigger] t.waiting(b) by {
                    assert(!s.leading(a));
                    assert(s.waiting(b));
                }
            } else {
                assert forall|l: int| 0 <= l < n implies !#[trigger] t.leading(l) by {
                    assert(!s.leading(l));
                }
                assert(t.waiters() =~= s.waiters().insert(i));
            }
        },
        Phase::Resetting => {
            assert(s.leading(i));
            assert forall|j: int| 0 <= j < n implies #[trigger] t.party_inv(j) by {
                if j != i {
                    assert(s.waiting(j));
                }
            }
            assert(t.leading(i));
            assert forall|a: int, b: int|
                0 <= a < n && 0 <= b < n && a != b && #[trigger] t.leading(a)
                implies #[trigger] t.waiting(b) by {
                assert(s.leading(a));
                assert(s.waiting(b));
            }
        },
        Phase::Advancing => {
            assert(s.leading(i));
            assert forall|j: int| 0 <= j < n && j != i implies !#[trigger] t.waiting(j) by {
                assert(s.waiting(j));
            }
            assert forall|j: int| 0 <= j < n implies #[trigger] t.party_inv(j) by {
                if j != i {
                    assert(s.waiting(j));
                }
            }
            assert forall|l: int| 0 <= l < n implies !#[trigger] t.leading(l) by {
                if l != i {
                    assert(s.waiting(l));
                }
            }
            assert forall|a: int, k: int| 0 <= a < n && 0 <= k < t.passes(a) implies (
            #[trigger] t.led[a][k] <==> t.leaders[k] == a) by {
                if a != i {
                    assert(s.waiting(a));
                }
            }
            assert(t.waiters() =~= Set::empty());
        },
        Phase::Spinning { epoch } => {
            if epoch_passed(epoch, s.epoch) {
                lemma_nobody_leads(s, i);
                assert forall|j: int| 0 <= j < n implies #[trigger] t.party_inv(j) by {
                    assert(s.party_inv(j));
                }
                assert forall|l: int| 0 <= l < n implies !#[trigger] t.leading(l) by {
                    assert(!s.leading(l));
                }
                assert(t.waiters() =~= s.waiters());
            }
        },
    }
}

/// Every finished round has one leader: that party has passed the round as
/// its leader, and every other party that has passed it did so as a
/// follower.
pub proof fn lemma_one_leader_per_round(s: Rounds, k: int)
    requires
        s.inv(),
        0 <= k < s.leaders.len(),
    ensures
        0 <= s.leaders[k] < s.parties(),
        k < s.passes(s.leaders[k]),
        s.led[s.leaders[k]][k],
        forall|i: int|
            0 <= i < s.parties() && i != s.leaders[k] && k < s.passes(i)
                ==> !#[trigger] s.led[i][k],
{
    let l: int = s.leaders[k];
    assert(s.party_inv(l));
}

/// No party leaves a round before every party has joined it, and no party
/// is a whole round ahead of another.
pub proof fn lemma_rendezvous(s: Rounds, i: int, j: int)
    requires
        s.inv(),
        0 <= i < s.parties(),
        0 <= j < s.parties(),
    ensures
        s.passes(i) <= s.arrivals(j),
        s.passes(i) <= s.passes(j) + 1,
{
    assert(s.party_inv(i));
    assert(s.party_inv(j));
}

/// The arrival counter never exceeds the number of parties, and reaches it
/// only while the leader is about to clear it.
pub proof fn lemma_counter_range(s: Rounds)
    requires
        s.inv(),
    ensures
        s.counter <= s.parties(),
        s.counter == s.parties() ==> exists|i: int|
            0 <= i < s.parties() && #[trigger] s.phases[i] == Phase::Resetting,
{
    if exists|i: int| 0 <= i < s.parties() && #[trigger] s.leading(i) {
        let l: int = choose|i: int| 0 <= i < s.parties() && #[trigger] s.leading(i);
        assert(s.party_inv(l));
    }
}

/// The parties never all wait for each other: one of them is not blocked,
/// and the next operation of a party that is not blocked changes the state.
pub proof fn lemma_progress(s: Rounds)
    requires
        s.inv(),
    ensures
        exists|i: int| 0 <= i < s.parties() && !#[trigger] s.blocked(i),
        forall|i: int| 0 <= i < s.parties() ==> (#[trigger] s.blocked(i) <==> s.step(i) == s),
{
    let n: int = s.parties() as int;
    if forall|i: int| 0 <= i < n ==> #[trigger] s.blocked(i) {
        assert forall|i: int| 0 <= i < n implies !#[trigger] s.leading(i) by {
            assert(s.blocked(i));
        }
        assert forall|i: int| 0 <= i < n implies #[trigger] s.waiting(i) by {
            assert(s.blocked(i));
            assert(s.party_inv(i));
        }
        assert(s.waiters() =~= set_int_range(0, n));
        lemma_int_range(0, n);
        assert(false);
    }
}

impl Rounds {
    /// Every entry of `schedule` names a party.
    pub open spec fn admits(self, schedule: Seq<int>) -> bool {
        forall|k: int| 0 <= k < schedule.len() ==> 0 <= #[trigger] schedule[k] < self.parties()
    }

    /// The state after the parties named in `schedule` have each performed
    /// their next atomic operation, one after the other.
    pub open spec fn run(self, schedule: Seq<int>) -> Rounds
        decreases schedule.len(),
    {
        if schedule.len() == 0 {
            self
        } else {
            self.run(schedule.drop_last()).step(schedule.last())
        }
    }

    /// The number of operations in a run of `schedule` that were not polls
    /// of a party that found the epoch unchanged.
    pub open spec fn moves(self, schedule: Seq<int>) -> nat
        decreases schedule.len(),
    {
        if schedule.len() == 0 {
            0
        } else {
            let before = self.run(schedule.drop_last());
            let idle_poll = before.blocked(schedule.last());
            self.moves(schedule.drop_last()) + if idle_poll {
                0nat
            } else {
                1nat
            }
        }
    }

    /// The most operations that party `i` can still perform before the
    /// round under way has to end.
    spec fn budget(self, i: int) -> nat {
        match self.phases[i] {
            Phase::Idle => 3,
            Phase::Loaded { .. } => 2,
            Phase::Resetting => 1,
            Phase::Advancing => 0,
            Phase::Spinning { .. } => if self.waiting(i) {
                1
            } else {
                5
            },
        }
    }

    /// The budgets of the parties before party `k`, added up.
    spec fn budgets(self, k: int) -> nat
        decreases k,
    {
        if k <= 0 {
            0
        } else {
            self.budgets(k - 1) + self.budget(k - 1)
        }
    }
}

/// No party's budget is above five.
proof fn lemma_budgets_bound(s: Rounds, k: int)
    requires
        0 <= k,
    ensures
        s.budgets(k) <= 5 * k,
    decreases k,
{
    if k > 0 {
        lemma_budgets_bound(s, k - 1);
    }
}

/// Where one party's budget has shrunk and no other has changed, the sum
/// has shrunk.
proof fn lemma_budgets_spent(s: Rounds, t: Rounds, i: int, k: int)
    requires
        0 <= i,
        0 <= k,
        forall|j: int| 0 <= j < k && j != i ==> #[trigger] t.budget(j) == s.budget(j),
        t.budget(i) < s.budget(i),
    ensures
        t.budgets(k) + (if i < k {
            1nat
        } else {
            0nat
        }) <= s.budgets(k),
    decreases k,
{
    if k > 0 {
        lemma_budgets_spent(s, t, i, k - 1);
    }
}

/// An operation that is not an idle poll either ends the round under way or
/// uses up some of the parties' budgets.
proof fn lemma_step_spends(s: Rounds, i: int)
    requires
        s.inv(),
        0 <= i < s.parties(),
        !s.blocked(i),
    ensures
        s.phases[i] == Phase::Advancing ==> s.step(i).leaders.len() == s.leaders.len() + 1,
        s.phases[i] != Phase::Advancing ==> {
            &&& s.step(i).leaders == s.leaders
            &&& s.step(i).budgets(s.parties() as int) + 1 <= s.budgets(s.parties() as int)
        },
{
    let t = s.step(i);
    let n: int = s.parties() as int;
    assert(s.party_inv(i));
    if s.phases[i] != Phase::Advancing {
        lemma_budgets_spent(s, t, i, n);
    }
}

/// Every state that a run reaches from a state of which the invariant holds
/// is such a state again.
pub proof fn lemma_run_inv(s: Rounds, schedule: Seq<int>)
    requires
        s.inv(),
        s.admits(schedule),
    ensures
        s.run(schedule).inv(),
        s.run(schedule).parties() == s.parties(),
    decreases schedule.len(),
{
    if schedule.len() > 0 {
        lemma_run_inv(s, schedule.drop_last());
        lemma_step_inv(s.run(schedule.drop_last()), schedule.last());
    }
}

/// A run that ends no round uses up one unit of budget for each operation
/// that is not an idle poll.
proof fn lemma_run_spends(s: Rounds, schedule: Seq<int>)
    requires
        s.inv(),
        s.admits(schedule),
    ensures
        s.run(schedule).leaders.len() >= s.leaders.len(),
        s.run(schedule).leaders.len() == s.leaders.len() ==> s.run(schedule).budgets(
            s.parties() as int,
        ) + s.moves(schedule) <= s.budgets(s.parties() as int),
    decreases schedule.len(),
{
    if schedule.len() > 0 {
        let before = s.run(schedule.drop_last());
        let i: int = schedule.last();
        lemma_run_inv(s, schedule.drop_last());
        lemma_run_spends(s, schedule.drop_last());
        if !before.blocked(i) {
            lemma_step_spends(before, i);
        }
    }
}

/// No run goes on for long without ending a round: of five operations for
/// each party that are not idle polls, one ends the round under way.
pub proof fn lemma_rounds_end(s: Rounds, schedule: Seq<int>)
    requires
        s.inv(),
        s.admits(schedule),
        s.moves(schedule) > 5 * s.parties(),
    ensures
        s.run(schedule).leaders.len() > s.leaders.len(),
{
    lemma_run_spends(s, schedule);
    lemma_budgets_bound(s, s.parties() as int);
}

} // verus!
