use vstd::multiset::*;
use vstd::prelude::*;
use vstd::seq_lib::group_to_multiset_ensures;

use crate::fork::{ForkActor, ForkMsg, ForkState, PhilosopherSend, ProtocolViolation};
use crate::philosopher::{ForkSend, PhilosopherAction, PhilosopherActor, PhilosopherMsg, PhilosopherState};

verus! {

broadcast use group_multiset_axioms;

/// A message in flight, with its recipient's id.
#[derive(Debug, Clone, Copy, PartialEq, Eq, Structural)]
pub enum Envelope {
    ToFork(usize, ForkMsg),
    ToPhilosopher(usize, PhilosopherMsg),
}

/// The whole table: every fork and philosopher by id, and the messages sent
/// and not yet delivered. Delivery may happen in any order.
pub struct World {
    pub forks: Map<usize, ForkActor>,
    pub phils: Map<usize, PhilosopherActor>,
    pub net: Multiset<Envelope>,
}

/// One thing that can happen at the table.
pub enum Event {
    /// The driver asks the philosopher with this id to eat.
    Ask(usize),
    /// A message in flight is handled by its recipient; the number is the
    /// eating time drawn, should a philosopher start eating.
    Deliver(Envelope, u64),
}

/// The message that a fork's reply stands for.
pub open spec fn fork_out(reply: Option<PhilosopherSend>) -> Multiset<Envelope> {
    match reply {
        Some((p, m)) => Multiset::singleton(Envelope::ToPhilosopher(p, m)),
        None => Multiset::empty(),
    }
}

/// The messages that a philosopher's action stands for: its sends to forks,
/// and the `StopEating` that its timer delivers to itself later.
pub open spec fn philosopher_out(ph: PhilosopherActor, action: PhilosopherAction) -> Multiset<Envelope> {
    let to_forks = ph.sends_of(action).map_values(|s: ForkSend| Envelope::ToFork(s.0, s.1)).to_multiset();
    match action {
        PhilosopherAction::StopAfter(_) => to_forks.insert(
            Envelope::ToPhilosopher(ph.id, PhilosopherMsg::StopEating),
        ),
        _ => to_forks,
    }
}

/// `philosopher_out`, written out for each action.
proof fn lemma_philosopher_out(ph: PhilosopherActor, action: PhilosopherAction)
    ensures
        philosopher_out(ph, action) == match action {
            PhilosopherAction::Nothing => Multiset::empty(),
            PhilosopherAction::TakeBoth => Multiset::empty().insert(
                Envelope::ToFork(ph.left_fork, ForkMsg::TryTake(ph.id)),
            ).insert(Envelope::ToFork(ph.right_fork, ForkMsg::TryTake(ph.id))),
            PhilosopherAction::Retake(f) => Multiset::empty().insert(
                Envelope::ToFork(f, ForkMsg::TryTake(ph.id)),
            ),
            PhilosopherAction::StopAfter(_) => Multiset::empty().insert(
                Envelope::ToPhilosopher(ph.id, PhilosopherMsg::StopEating),
            ),
            PhilosopherAction::ReleaseBoth => Multiset::empty().insert(
                Envelope::ToFork(ph.left_fork, ForkMsg::TakeOff),
            ).insert(Envelope::ToFork(ph.right_fork, ForkMsg::TakeOff)),
        },
{
    broadcast use group_to_multiset_ensures;

    let env = |s: ForkSend| Envelope::ToFork(s.0, s.1);
    let sends = ph.sends_of(action);
    let empty = Seq::<Envelope>::empty();
    assert(empty.to_multiset().len() == 0);
    assert(empty.to_multiset() =~= Multiset::empty());
    match action {
        PhilosopherAction::TakeBoth | PhilosopherAction::ReleaseBoth => {
            assert(sends.map_values(env) =~= empty.push(env(sends[0])).push(env(sends[1])));
        },
        PhilosopherAction::Retake(_) => {
            assert(sends.map_values(env) =~= empty.push(env(sends[0])));
        },
        _ => {
            assert(sends.map_values(env) =~= empty);
        },
    }
}

impl World {
    /// The table with fork `i` at index `i - 1` of `forks`, philosopher `i` at
    /// index `i - 1` of `phils`, and nothing in flight.
    pub open spec fn seated(forks: Seq<ForkActor>, phils: Seq<PhilosopherActor>) -> World {
        World {
            forks: Map::new(|f: usize| 1 <= f <= forks.len(), |f: usize| forks[f - 1]),
            phils: Map::new(|p: usize| 1 <= p <= phils.len(), |p: usize| phils[p - 1]),
            net: Multiset::empty(),
        }
    }

    /// Ids match keys, and each philosopher is well formed and has two
    /// distinct forks of the table.
    pub open spec fn table_ok(self) -> bool {
        &&& forall|f: usize| #[trigger] self.forks.contains_key(f) ==> self.forks[f].id == f
        &&& forall|p: usize| #[trigger]
            self.phils.contains_key(p) ==> {
                let ph = self.phils[p];
                &&& ph.id == p
                &&& ph.wf()
                &&& self.forks.contains_key(ph.left_fork)
                &&& self.forks.contains_key(ph.right_fork)
                &&& ph.left_fork != ph.right_fork
            }
    }

    /// The start: every fork free with no waiter, every philosopher not
    /// eating, nothing in flight.
    pub open spec fn init(self) -> bool {
        &&& self.table_ok()
        &&& forall|f: usize| #[trigger]
            self.forks.contains_key(f) ==> self.forks[f].state == ForkState::Free
                && self.forks[f].ph1 is None
        &&& forall|p: usize| #[trigger]
            self.phils.contains_key(p) ==> self.phils[p].state == PhilosopherState::NotEating
        &&& self.net == Multiset::<Envelope>::empty()
    }

    /// `self` becomes `w2` through `e`. A message that its recipient does
    /// not accept cannot be handled.
    pub open spec fn step(self, w2: World, e: Event) -> bool {
        match e {
            Event::Ask(p) => {
                &&& self.phils.contains_key(p)
                &&& w2 == World {
                    net: self.net.insert(Envelope::ToPhilosopher(p, PhilosopherMsg::StartEating)),
                    ..self
                }
            },
            Event::Deliver(env, d) => {
                &&& self.net.count(env) > 0
                &&& match env {
                    Envelope::ToFork(f, m) => {
                        &&& self.forks.contains_key(f)
                        &&& self.forks[f].next(m).1 is Ok
                        &&& w2 == World {
                            forks: self.forks.insert(f, self.forks[f].next(m).0),
                            net: self.net.remove(env).add(fork_out(self.forks[f].next(m).1->Ok_0)),
                            ..self
                        }
                    },
                    Envelope::ToPhilosopher(p, m) => {
                        &&& self.phils.contains_key(p)
                        &&& self.phils[p].eating_min <= d < self.phils[p].eating_max
                        &&& self.phils[p].next(m, d).1 is Ok
                        &&& w2 == World {
                            phils: self.phils.insert(p, self.phils[p].next(m, d).0),
                            net: self.net.remove(env).add(
                                philosopher_out(self.phils[p], self.phils[p].next(m, d).1->Ok_0),
                            ),
                            ..self
                        }
                    },
                }
            },
        }
    }

    /// Philosopher `p` still waits for fork `f`.
    pub open spec fn pending(self, p: usize, f: usize) -> bool {
        &&& self.phils.contains_key(p)
        &&& match self.phils[p].state {
            PhilosopherState::Waiting(l, r) => (l && f == self.phils[p].left_fork) || (r && f
                == self.phils[p].right_fork),
            _ => false,
        }
    }

    /// Philosopher `p` believes it holds fork `f`.
    pub open spec fn acquired(self, p: usize, f: usize) -> bool {
        &&& self.phils.contains_key(p)
        &&& match self.phils[p].state {
            PhilosopherState::Eating => f == self.phils[p].left_fork || f == self.phils[p].right_fork,
            PhilosopherState::Waiting(l, r) => (!l && f == self.phils[p].left_fork) || (!r && f
                == self.phils[p].right_fork),
            PhilosopherState::NotEating => false,
        }
    }

    /// 1 where fork `f` has `p` queued as its waiter, else 0.
    pub open spec fn queued(self, p: usize, f: usize) -> nat {
        if self.forks.contains_key(f) && self.forks[f].ph1 == Some(p) {
            1
        } else {
            0
        }
    }

    /// Where `p`'s request for `f` stands: sent, queued, told free, or granted.
    pub open spec fn requests(self, p: usize, f: usize) -> nat {
        self.net.count(Envelope::ToFork(f, ForkMsg::TryTake(p))) + self.queued(p, f) + self.net.count(
            Envelope::ToPhilosopher(p, PhilosopherMsg::ForkIsFree(f)),
        ) + self.net.count(Envelope::ToPhilosopher(p, PhilosopherMsg::SuccessfullyTaken(f)))
    }

    /// `f` has been granted to `p`: the grant is in flight or has arrived.
    pub open spec fn holds(self, p: usize, f: usize) -> bool {
        self.net.count(Envelope::ToPhilosopher(p, PhilosopherMsg::SuccessfullyTaken(f))) > 0
            || self.acquired(p, f)
    }

    /// How many `TakeOff` messages to `f` are in flight.
    pub open spec fn releases(self, f: usize) -> nat {
        self.net.count(Envelope::ToFork(f, ForkMsg::TakeOff))
    }

    /// Every message in flight goes to a unit of the table that accepts it.
    pub open spec fn all_deliverable(self) -> bool {
        forall|env: Envelope| #[trigger]
            self.net.count(env) > 0 ==> match env {
                Envelope::ToFork(f, m) => self.forks.contains_key(f) && self.forks[f].accepts(m),
                Envelope::ToPhilosopher(p, m) => self.phils.contains_key(p)
                    && self.phils[p].accepts(m),
            }
    }

    /// No two philosophers believe they hold the same fork.
    pub open spec fn mutual_exclusion(self) -> bool {
        forall|p: usize, q: usize, f: usize| #[trigger]
            self.acquired(p, f) && #[trigger] self.acquired(q, f) ==> p == q
    }

    /// An eating philosopher's two forks are held, by it alone.
    pub open spec fn no_phantom_eating(self) -> bool {
        forall|p: usize| #[trigger]
            self.phils.contains_key(p) && self.phils[p].state == PhilosopherState::Eating ==> {
                let ph = self.phils[p];
                &&& self.forks[ph.left_fork].state == ForkState::Held
                &&& self.forks[ph.right_fork].state == ForkState::Held
                &&& forall|q: usize| #[trigger]
                    self.acquired(q, ph.left_fork) || self.acquired(q, ph.right_fork) ==> q == p
            }
    }

    /// What holds of every state the table can reach.
    pub open spec fn inv(self) -> bool {
        &&& self.table_ok()
        &&& forall|f: usize| #[trigger] self.forks.contains_key(f) ==> self.forks[f].wf()
        &&& forall|p: usize, f: usize| #[trigger]
            self.requests(p, f) <= (if self.pending(p, f) {
                1nat
            } else {
                0nat
            })
        &&& forall|p: usize| #[trigger]
            self.net.count(Envelope::ToPhilosopher(p, PhilosopherMsg::StopEating)) == (if self.phils.contains_key(p)
                && self.phils[p].state == PhilosopherState::Eating {
                1nat
            } else {
                0nat
            })
        &&& forall|p: usize| #[trigger]
            self.net.count(Envelope::ToPhilosopher(p, PhilosopherMsg::StartEating)) > 0
                ==> self.phils.contains_key(p)
        &&& forall|p: usize, f: usize| #[trigger]
            self.holds(p, f) ==> self.forks.contains_key(f) && self.forks[f].state == ForkState::Held
                && self.releases(f) == 0
        &&& forall|p: usize, q: usize, f: usize| #[trigger]
            self.holds(p, f) && #[trigger] self.holds(q, f) ==> p == q
        &&& forall|f: usize| #[trigger]
            self.releases(f) > 0 ==> self.forks.contains_key(f) && self.forks[f].state
                == ForkState::Held && self.releases(f) == 1
    }
}

/// The invariant holds at the start.
pub proof fn lemma_init_inv(w: World)
    requires
        w.init(),
    ensures
        w.inv(),
{
    assert forall|p: usize, f: usize| #[trigger]
        w.requests(p, f) <= (if w.pending(p, f) {
            1nat
        } else {
            0nat
        }) by {
        if w.forks.contains_key(f) {
            assert(w.forks[f].ph1 is None);
        }
    }
    assert forall|p: usize, f: usize| #[trigger] w.holds(p, f) implies w.forks.contains_key(f)
        && w.forks[f].state == ForkState::Held && w.releases(f) == 0 by {
        if w.phils.contains_key(p) {
            assert(w.phils[p].state == PhilosopherState::NotEating);
        }
    }
    assert forall|p: usize, q: usize, f: usize| #[trigger]
        w.holds(p, f) && #[trigger] w.holds(q, f) implies p == q by {
        if w.phils.contains_key(p) {
            assert(w.phils[p].state == PhilosopherState::NotEating);
        }
    }
}

/// The invariant gives the table's safety properties.
pub proof fn lemma_inv_safe(w: World)
    requires
        w.inv(),
    ensures
        w.mutual_exclusion(),
        w.no_phantom_eating(),
        w.all_deliverable(),
{
    assert forall|p: usize, q: usize, f: usize| #[trigger]
        w.acquired(p, f) && #[trigger] w.acquired(q, f) implies p == q by {
        assert(w.holds(p, f) && w.holds(q, f));
    }
    assert forall|p: usize| #[trigger]
        w.phils.contains_key(p) && w.phils[p].state == PhilosopherState::Eating implies {
        let ph = w.phils[p];
        &&& w.forks[ph.left_fork].state == ForkState::Held
        &&& w.forks[ph.right_fork].state == ForkState::Held
        &&& forall|q: usize| #[trigger]
            w.acquired(q, ph.left_fork) || w.acquired(q, ph.right_fork) ==> q == p
    } by {
        let ph = w.phils[p];
        assert(w.holds(p, ph.left_fork));
        assert(w.holds(p, ph.right_fork));
        assert forall|q: usize| #[trigger]
            w.acquired(q, ph.left_fork) || w.acquired(q, ph.right_fork) implies q == p by {
            if w.acquired(q, ph.left_fork) {
                assert(w.holds(q, ph.left_fork));
            } else {
                assert(w.holds(q, ph.right_fork));
            }
        }
    }
    assert forall|env: Envelope| #[trigger] w.net.count(env) > 0 implies match env {
        Envelope::ToFork(f, m) => w.forks.contains_key(f) && w.forks[f].accepts(m),
        Envelope::ToPhilosopher(p, m) => w.phils.contains_key(p) && w.phils[p].accepts(m),
    } by {
        match env {
            Envelope::ToFork(f, m) => match m {
                ForkMsg::TryTake(p) => {
                    assert(w.requests(p, f) > 0);
                },
                ForkMsg::TakeOff => {
                    assert(w.releases(f) > 0);
                },
            },
            Envelope::ToPhilosopher(p, m) => match m {
                PhilosopherMsg::StartEating => {},
                PhilosopherMsg::StopEating => {},
                PhilosopherMsg::SuccessfullyTaken(f) => {
                    assert(w.requests(p, f) > 0);
                },
                PhilosopherMsg::ForkIsFree(f) => {
                    assert(w.requests(p, f) > 0);
                },
            },
        }
    }
}

/// The driver's request to eat keeps the invariant.
proof fn lemma_ask_inv(w: World, w2: World, p: usize)
    requires
        w.inv(),
        w.step(w2, Event::Ask(p)),
    ensures
        w2.inv(),
{
    assert forall|q: usize, f: usize| #[trigger]
        w2.requests(q, f) <= (if w2.pending(q, f) {
            1nat
        } else {
            0nat
        }) by {
        assert(w.requests(q, f) == w2.requests(q, f));
    }
    assert forall|q: usize, f: usize| #[trigger] w2.holds(q, f) implies w2.forks.contains_key(f)
        && w2.forks[f].state == ForkState::Held && w2.releases(f) == 0 by {
        assert(w.holds(q, f));
    }
    assert forall|a: usize, b: usize, f: usize| #[trigger]
        w2.holds(a, f) && #[trigger] w2.holds(b, f) implies a == b by {
        assert(w.holds(a, f) && w.holds(b, f));
    }
    assert forall|f: usize| #[trigger] w2.releases(f) > 0 implies w2.forks.contains_key(f)
        && w2.forks[f].state == ForkState::Held && w2.releases(f) == 1 by {
        assert(w.releases(f) > 0);
    }
    assert forall|q: usize| #[trigger]
        w2.net.count(Envelope::ToPhilosopher(q, PhilosopherMsg::StopEating)) == (if w2.phils.contains_key(q)
            && w2.phils[q].state == PhilosopherState::Eating {
            1nat
        } else {
            0nat
        }) by {
        assert(w.net.count(Envelope::ToPhilosopher(q, PhilosopherMsg::StopEating)) == w2.net.count(
            Envelope::ToPhilosopher(q, PhilosopherMsg::StopEating),
        ));
    }
    assert forall|q: usize| #[trigger]
        w2.net.count(Envelope::ToPhilosopher(q, PhilosopherMsg::StartEating)) > 0 implies w2.phils.contains_key(q) by {
        if q != p {
            assert(w.net.count(Envelope::ToPhilosopher(q, PhilosopherMsg::StartEating)) > 0);
        }
    }
}

/// A fork handling a message keeps the invariant.
proof fn lemma_fork_inv(w: World, w2: World, f: usize, m: ForkMsg, d: u64)
    requires
        w.inv(),
        w.step(w2, Event::Deliver(Envelope::ToFork(f, m), d)),
    ensures
        w2.inv(),
{
    let env = Envelope::ToFork(f, m);
    let fk = w.forks[f];
    assert(w2.phils == w.phils);
    assert forall|g: usize| #[trigger] w2.forks.contains_key(g) implies w2.forks[g].wf() by {
        if g == f {
            if let ForkMsg::TryTake(p) = m {
                if fk.state == ForkState::Free {
                    assert(w.forks.contains_key(f));
                }
            }
        }
    }
    assert(w2.table_ok());
    assert forall|q: usize, g: usize| #[trigger]
        w2.requests(q, g) <= (if w2.pending(q, g) {
            1nat
        } else {
            0nat
        }) by {
        assert(w.pending(q, g) == w2.pending(q, g));
        assert(w.requests(q, g) <= (if w.pending(q, g) {
            1nat
        } else {
            0nat
        }));
        if let ForkMsg::TryTake(p) = m {
            assert(w.requests(p, f) >= 1);
        }
        if let Some(x) = fk.ph1 {
            assert(w.requests(x, f) >= 1);
        }
    }
    assert forall|q: usize, g: usize| #[trigger] w2.holds(q, g) implies w2.forks.contains_key(g)
        && w2.forks[g].state == ForkState::Held && w2.releases(g) == 0 by {
        assert(w.acquired(q, g) == w2.acquired(q, g));
        if g != f || m is TakeOff || fk.state == ForkState::Held {
            assert(w.holds(q, g));
        } else if let ForkMsg::TryTake(p) = m {
            if w.releases(f) > 0 {
                assert(fk.state == ForkState::Held);
            }
            if q != p {
                assert(w.holds(q, g));
            }
        }
    }
    assert forall|a: usize, b: usize, g: usize| #[trigger]
        w2.holds(a, g) && #[trigger] w2.holds(b, g) implies a == b by {
        assert(w.acquired(a, g) == w2.acquired(a, g));
        assert(w.acquired(b, g) == w2.acquired(b, g));
        if g == f && m is TryTake && fk.state == ForkState::Free {
            assert(!w.holds(a, g));
            assert(!w.holds(b, g));
            assert(w.requests(a, g) <= 1);
            assert(w.requests(b, g) <= 1);
        } else {
            assert(w.holds(a, g) && w.holds(b, g));
        }
    }
    assert forall|g: usize| #[trigger] w2.releases(g) > 0 implies w2.forks.contains_key(g)
        && w2.forks[g].state == ForkState::Held && w2.releases(g) == 1 by {
        assert(w.releases(g) > 0);
    }
    assert forall|q: usize| #[trigger]
        w2.net.count(Envelope::ToPhilosopher(q, PhilosopherMsg::StopEating)) == (if w2.phils.contains_key(q)
            && w2.phils[q].state == PhilosopherState::Eating {
            1nat
        } else {
            0nat
        }) by {
        assert(w.net.count(Envelope::ToPhilosopher(q, PhilosopherMsg::StopEating)) == w2.net.count(
            Envelope::ToPhilosopher(q, PhilosopherMsg::StopEating),
        ));
    }
    assert forall|q: usize| #[trigger]
        w2.net.count(Envelope::ToPhilosopher(q, PhilosopherMsg::StartEating)) > 0 implies w2.phils.contains_key(q) by {
        assert(w.net.count(Envelope::ToPhilosopher(q, PhilosopherMsg::StartEating)) > 0);
    }
}

/// A philosopher handling a message keeps the invariant.
proof fn lemma_philosopher_inv(w: World, w2: World, p: usize, m: PhilosopherMsg, d: u64)
    requires
        w.inv(),
        w.step(w2, Event::Deliver(Envelope::ToPhilosopher(p, m), d)),
    ensures
        w2.inv(),
{
    let ph = w.phils[p];
    let l = ph.left_fork;
    let r = ph.right_fork;
    lemma_philosopher_out(ph, ph.next(m, d).1->Ok_0);
    assert(w2.forks == w.forks);
    assert(w.phils.contains_key(p));
    assert(w.requests(p, l) <= 1 && w.requests(p, r) <= 1);
    if let PhilosopherMsg::SuccessfullyTaken(f) = m {
        assert(w.requests(p, f) >= 1);
    }
    if let PhilosopherMsg::ForkIsFree(f) = m {
        assert(w.requests(p, f) >= 1);
    }
    assert(w2.table_ok());
    assert forall|q: usize, g: usize| #[trigger]
        w2.requests(q, g) <= (if w2.pending(q, g) {
            1nat
        } else {
            0nat
        }) by {
        assert(w.requests(q, g) <= (if w.pending(q, g) {
            1nat
        } else {
            0nat
        }));
    }
    assert forall|q: usize, g: usize| #[trigger] w2.holds(q, g) implies w2.forks.contains_key(g)
        && w2.forks[g].state == ForkState::Held && w2.releases(g) == 0 by {
        assert(w.requests(q, g) <= 1);
        assert(w.holds(q, g));
        if m is StopEating && (g == l || g == r) {
            assert(w.holds(p, g));
            assert(q != p);
        }
    }
    assert forall|a: usize, b: usize, g: usize| #[trigger]
        w2.holds(a, g) && #[trigger] w2.holds(b, g) implies a == b by {
        assert(w.requests(a, g) <= 1);
        assert(w.requests(b, g) <= 1);
        assert(w.holds(a, g) && w.holds(b, g));
    }
    assert forall|g: usize| #[trigger] w2.releases(g) > 0 implies w2.forks.contains_key(g)
        && w2.forks[g].state == ForkState::Held && w2.releases(g) == 1 by {
        if m is StopEating && (g == l || g == r) {
            assert(w.holds(p, g));
        } else {
            assert(w.releases(g) > 0);
        }
    }
    assert forall|q: usize| #[trigger]
        w2.net.count(Envelope::ToPhilosopher(q, PhilosopherMsg::StopEating)) == (if w2.phils.contains_key(q)
            && w2.phils[q].state == PhilosopherState::Eating {
            1nat
        } else {
            0nat
        }) by {
        assert(w.net.count(Envelope::ToPhilosopher(q, PhilosopherMsg::StopEating)) == (if w.phils.contains_key(q)
            && w.phils[q].state == PhilosopherState::Eating {
            1nat
        } else {
            0nat
        }));
    }
    assert forall|q: usize| #[trigger]
        w2.net.count(Envelope::ToPhilosopher(q, PhilosopherMsg::StartEating)) > 0 implies w2.phils.contains_key(q) by {
        assert(w.net.count(Envelope::ToPhilosopher(q, PhilosopherMsg::StartEating)) > 0);
    }
}

/// Every event keeps the invariant.
pub proof fn lemma_step_inv(w: World, w2: World, e: Event)
    requires
        w.inv(),
        w.step(w2, e),
    ensures
        w2.inv(),
{
    match e {
        Event::Ask(p) => lemma_ask_inv(w, w2, p),
        Event::Deliver(env, d) => match env {
            Envelope::ToFork(f, m) => lemma_fork_inv(w, w2, f, m, d),
            Envelope::ToPhilosopher(p, m) => lemma_philosopher_inv(w, w2, p, m, d),
        },
    }
}

/// `ws` is a run of the table: it starts well and each state follows from
/// the one before through the matching event of `es`.
pub open spec fn is_run(ws: Seq<World>, es: Seq<Event>) -> bool {
    &&& ws.len() == es.len() + 1
    &&& ws[0].init()
    &&& forall|i: int| 0 <= i < es.len() ==> #[trigger] ws[i].step(ws[i + 1], es[i])
}

/// The invariant holds at every state of a run.
pub proof fn lemma_run_inv(ws: Seq<World>, es: Seq<Event>, i: int)
    requires
        is_run(ws, es),
        0 <= i < ws.len(),
    ensures
        ws[i].inv(),
    decreases i,
{
    if i == 0 {
        lemma_init_inv(ws[0]);
    } else {
        lemma_run_inv(ws, es, i - 1);
        assert(ws[(i - 1) + 1] == ws[i]);
        assert(ws[i - 1].step(ws[(i - 1) + 1], es[i - 1]));
        lemma_step_inv(ws[i - 1], ws[i], es[i - 1]);
    }
}

/// Mutual exclusion: at no point of a run do two distinct philosophers
/// believe they hold the same fork.
pub proof fn lemma_mutual_exclusion(ws: Seq<World>, es: Seq<Event>)
    requires
        is_run(ws, es),
    ensures
        forall|i: int| 0 <= i < ws.len() ==> #[trigger] ws[i].mutual_exclusion(),
{
    assert forall|i: int| 0 <= i < ws.len() implies #[trigger] ws[i].mutual_exclusion() by {
        lemma_run_inv(ws, es, i);
        lemma_inv_safe(ws[i]);
    }
}

/// No phantom eating: at every point of a run, an eating philosopher's two
/// forks are held, and no other philosopher believes it holds either.
pub proof fn lemma_no_phantom_eating(ws: Seq<World>, es: Seq<Event>)
    requires
        is_run(ws, es),
    ensures
        forall|i: int| 0 <= i < ws.len() ==> #[trigger] ws[i].no_phantom_eating(),
{
    assert forall|i: int| 0 <= i < ws.len() implies #[trigger] ws[i].no_phantom_eating() by {
        lemma_run_inv(ws, es, i);
        lemma_inv_safe(ws[i]);
    }
}

/// No protocol violation is reachable: at every point of a run, each message
/// in flight is addressed to a fork or philosopher of the table whose handler
/// accepts it in its current state.
pub proof fn lemma_all_deliverable(ws: Seq<World>, es: Seq<Event>)
    requires
        is_run(ws, es),
    ensures
        forall|i: int| 0 <= i < ws.len() ==> #[trigger] ws[i].all_deliverable(),
{
    assert forall|i: int| 0 <= i < ws.len() implies #[trigger] ws[i].all_deliverable() by {
        lemma_run_inv(ws, es, i);
        lemma_inv_safe(ws[i]);
    }
}

/// Round trip: a philosopher that is not eating, whose two forks are free
/// with no waiter, asks to eat; both forks grant at once; the grants arrive
/// (left first or right first); it eats; its timer ends the meal and both
/// forks are put back. Every step is accepted, the philosopher ends as it
/// began, and both forks end free with no waiter and no one to notify.
pub proof fn lemma_round_trip(ph: PhilosopherActor, left: ForkActor, right: ForkActor, d: u64, left_first: bool)
    requires
        ph.state == PhilosopherState::NotEating,
        ph.left_fork != ph.right_fork,
        left == ForkActor::new_spec(ph.left_fork),
        right == ForkActor::new_spec(ph.right_fork),
    ensures
        ({
            let (p1, a1) = ph.next(PhilosopherMsg::StartEating, d);
            let (l1, gl) = left.next(ForkMsg::TryTake(ph.id));
            let (r1, gr) = right.next(ForkMsg::TryTake(ph.id));
            let first = if left_first {
                ph.left_fork
            } else {
                ph.right_fork
            };
            let second = if left_first {
                ph.right_fork
            } else {
                ph.left_fork
            };
            let (p2, a2) = p1.next(PhilosopherMsg::SuccessfullyTaken(first), d);
            let (p3, a3) = p2.next(PhilosopherMsg::SuccessfullyTaken(second), d);
            let (p4, a4) = p3.next(PhilosopherMsg::StopEating, d);
            let (l2, fl) = l1.next(ForkMsg::TakeOff);
            let (r2, fr) = r1.next(ForkMsg::TakeOff);
            &&& a1 == Ok::<PhilosopherAction, ProtocolViolation>(PhilosopherAction::TakeBoth)
            &&& gl == Ok::<Option<PhilosopherSend>, ProtocolViolation>(
                Some((ph.id, PhilosopherMsg::SuccessfullyTaken(ph.left_fork))),
            )
            &&& gr == Ok::<Option<PhilosopherSend>, ProtocolViolation>(
                Some((ph.id, PhilosopherMsg::SuccessfullyTaken(ph.right_fork))),
            )
            &&& l1.state == ForkState::Held && r1.state == ForkState::Held
            &&& a2 == Ok::<PhilosopherAction, ProtocolViolation>(PhilosopherAction::Nothing)
            &&& p3.state == PhilosopherState::Eating
            &&& a3 == Ok::<PhilosopherAction, ProtocolViolation>(PhilosopherAction::StopAfter(d))
            &&& a4 == Ok::<PhilosopherAction, ProtocolViolation>(PhilosopherAction::ReleaseBoth)
            &&& p4 == ph
            &&& l2 == left && r2 == right
            &&& fl == Ok::<Option<PhilosopherSend>, ProtocolViolation>(None)
            &&& fr == Ok::<Option<PhilosopherSend>, ProtocolViolation>(None)
        }),
{
}

/// Idempotence: asking a philosopher that is not eating to eat twice in a
/// row sends one request to each fork in all; the second ask changes nothing
/// and sends nothing.
pub proof fn lemma_start_eating_idempotent(ph: PhilosopherActor, d1: u64, d2: u64)
    requires
        ph.state == PhilosopherState::NotEating,
    ensures
        ({
            let (p1, a1) = ph.next(PhilosopherMsg::StartEating, d1);
            let (p2, a2) = p1.next(PhilosopherMsg::StartEating, d2);
            &&& a1 == Ok::<PhilosopherAction, ProtocolViolation>(PhilosopherAction::TakeBoth)
            &&& a2 == Ok::<PhilosopherAction, ProtocolViolation>(PhilosopherAction::Nothing)
            &&& p2 == p1
            &&& ph.sends_of(a1->Ok_0) + p1.sends_of(a2->Ok_0) == seq![
                (ph.left_fork, ForkMsg::TryTake(ph.id)),
                (ph.right_fork, ForkMsg::TryTake(ph.id)),
            ]
        }),
{
    let (p1, a1) = ph.next(PhilosopherMsg::StartEating, d1);
    assert(ph.sends_of(PhilosopherAction::TakeBoth) + p1.sends_of(PhilosopherAction::Nothing) =~= ph.sends_of(PhilosopherAction::TakeBoth));
}

} // verus!
