use vstd::prelude::*;
use crate::registry::{PeerAddr, Registry};

verus! {

/// What came of handing a message to one recipient's delivery channel.
#[derive(Debug, Clone, Copy, PartialEq, Eq, Structural)]
pub enum SendOutcome {
    /// The channel took the message.
    Delivered,
    /// The channel is closed: its delivery worker is gone.
    Closed,
}

/// How a broadcast dealt with one recipient of its snapshot.
#[derive(Debug, Clone, Copy, PartialEq, Eq, Structural)]
pub enum Visit {
    /// The message was enqueued on the recipient's channel.
    Delivered,
    /// The channel was closed, and the recipient's entry was removed.
    Dropped,
    /// The recipient had left the table before its turn came.
    Skipped,
}

/// One broadcast in progress: the recipients taken from the table when it
/// began, walked one at a time, each send awaited before the next begins.
pub struct Fanout {
    origin: PeerAddr,
    targets: Vec<PeerAddr>,
    next: usize,
    sending: bool,
    visits: Ghost<Seq<Visit>>,
}

impl Fanout {
    /// The address whose peer triggered the broadcast.
    pub closed spec fn origin(&self) -> PeerAddr {
        self.origin
    }

    /// The recipients, in the order in which they are served.
    pub closed spec fn targets(&self) -> Seq<PeerAddr> {
        self.targets@
    }

    /// What happened to each recipient served so far, aligned with `targets`.
    pub closed spec fn visits(&self) -> Seq<Visit> {
        self.visits@
    }

    /// A send to `targets()[visits().len()]` has been handed out and its
    /// outcome not yet recorded.
    pub closed spec fn sending(&self) -> bool {
        self.sending
    }

    pub closed spec fn wf(&self) -> bool {
        &&& self.next as int == self.visits@.len()
        &&& self.next <= self.targets@.len()
        &&& self.sending ==> self.next < self.targets@.len()
        &&& self.targets@.no_duplicates()
        &&& !self.targets@.contains(self.origin)
    }

    /// Every recipient has been served.
    pub open spec fn done(&self) -> bool {
        !self.sending() && self.visits().len() == self.targets().len()
    }

    /// The recipient whose send is in flight.
    pub open spec fn current(&self) -> PeerAddr {
        self.targets()[self.visits().len() as int]
    }

    pub proof fn lemma_wf(&self)
        requires
            self.wf(),
        ensures
            self.visits().len() <= self.targets().len(),
            self.sending() ==> self.visits().len() < self.targets().len(),
            self.targets().no_duplicates(),
            !self.targets().contains(self.origin()),
    {
    }

    /// Begins a broadcast from `origin`: every registered peer but the one at
    /// `origin` is a recipient, each once.
    pub fn start<S>(registry: &Registry<S>, origin: PeerAddr) -> (r: Fanout)
        requires
            registry.wf(),
        ensures
            r.wf(),
            r.origin() == origin,
            r.visits() == Seq::<Visit>::empty(),
            !r.sending(),
            forall|a: PeerAddr|
                r.targets().contains(a) <==> (registry@.contains_key(a) && a != origin),
    {
        let targets = registry.addresses_except(origin);
        let f = Fanout { origin, targets, next: 0, sending: false, visits: Ghost(Seq::empty()) };
        proof {
            assert forall|a: PeerAddr| f.targets().contains(a) <==> (registry@.contains_key(a) && a != origin) by {
                if registry@.contains_key(a) && a != origin {
                    assert(registry.addrs().contains(a));
                }
            }
        }
        f
    }

    /// Hands out the next recipient that is still registered, with its send
    /// handle; recipients that have left meanwhile are skipped. `None` once
    /// every recipient has been served.
    pub fn next_send<'a, S>(&mut self, registry: &'a Registry<S>) -> (r: Option<(PeerAddr, &'a S)>)
        requires
            old(self).wf(),
            !old(self).sending(),
            registry.wf(),
        ensures
            final(self).wf(),
            final(self).origin() == old(self).origin(),
            final(self).targets() == old(self).targets(),
            old(self).visits().len() <= final(self).visits().len(),
            final(self).visits().take(old(self).visits().len() as int) == old(self).visits(),
            forall|i: int|
                old(self).visits().len() <= i < final(self).visits().len() ==> {
                    &&& #[trigger] final(self).visits()[i] == Visit::Skipped
                    &&& !registry@.contains_key(final(self).targets()[i])
                },
            match r {
                Some((a, h)) => {
                    &&& final(self).sending()
                    &&& a == final(self).current()
                    &&& registry@.contains_key(a)
                    &&& *h == registry@[a]
                },
                None => final(self).done(),
            },
    {
        let ghost start = self.visits@;
        while self.next < self.targets.len()
            invariant
                self.wf(),
                !self.sending,
                self.origin == old(self).origin(),
                self.targets@ == old(self).targets(),
                start == old(self).visits(),
                start.len() <= self.visits@.len(),
                self.visits@.take(start.len() as int) == start,
                registry.wf(),
                forall|i: int|
                    start.len() <= i < self.visits@.len() ==> {
                        &&& #[trigger] self.visits@[i] == Visit::Skipped
                        &&& !registry@.contains_key(self.targets@[i])
                    },
            decreases self.targets@.len() - self.next,
        {
            let a = self.targets[self.next];
            match registry.handle(a) {
                Some(h) => {
                    self.sending = true;
                    return Some((a, h));
                },
                None => {
                    let ghost prev = self.visits@;
                    self.visits = Ghost(self.visits@.push(Visit::Skipped));
                    self.next = self.next + 1;
                    assert(self.visits@.take(start.len() as int) =~= prev.take(start.len() as int));
                },
            }
        }
        None
    }

    /// Records the outcome of the send in flight. A closed channel has its
    /// recipient's entry removed from the table; the broadcast goes on with
    /// the remaining recipients.
    pub fn record<S>(&mut self, registry: &mut Registry<S>, outcome: SendOutcome)
        requires
            old(self).wf(),
            old(self).sending(),
            old(registry).wf(),
        ensures
            final(self).wf(),
            !final(self).sending(),
            final(self).origin() == old(self).origin(),
            final(self).targets() == old(self).targets(),
            final(registry).wf(),
            outcome == SendOutcome::Delivered ==> {
                &&& final(self).visits() == old(self).visits().push(Visit::Delivered)
                &&& final(registry)@ == old(registry)@
            },
            outcome == SendOutcome::Closed ==> {
                &&& final(self).visits() == old(self).visits().push(Visit::Dropped)
                &&& final(registry)@ == old(registry)@.remove(old(self).current())
            },
    {
        proof { assert(self.next < self.targets@.len()); }
        let a = self.targets[self.next];
        let next = self.next;
        let len = self.targets.len();
        proof { assert(next < len); }
        match outcome {
            SendOutcome::Delivered => {
                self.visits = Ghost(self.visits@.push(Visit::Delivered));
            },
            SendOutcome::Closed => {
                registry.deregister(a);
                self.visits = Ghost(self.visits@.push(Visit::Dropped));
            },
        }
        self.next = next + 1;
        self.sending = false;
    }
}

/// No self-delivery: a broadcast never serves the peer at the address that
/// triggered it, so nothing is ever sent to the origin's own channel.
pub proof fn lemma_no_self_delivery(f: &Fanout)
    requires
        f.wf(),
    ensures
        forall|i: int| 0 <= i < f.targets().len() ==> #[trigger] f.targets()[i] != f.origin(),
        f.sending() ==> f.current() != f.origin(),
{
    f.lemma_wf();
    assert forall|i: int| 0 <= i < f.targets().len() implies #[trigger] f.targets()[i] != f.origin() by {
        if f.targets()[i] == f.origin() {
            assert(f.targets().contains(f.origin()));
        }
    }
}

/// Fan-out completeness: when a broadcast that began on `registry` has served
/// every recipient and each send was delivered, every peer registered then,
/// but the origin, was handed exactly one copy.
pub proof fn lemma_fan_out_complete<S>(registry: &Registry<S>, f: &Fanout)
    requires
        registry.wf(),
        f.wf(),
        forall|a: PeerAddr|
            f.targets().contains(a) <==> (registry@.contains_key(a) && a != f.origin()),
        f.done(),
        forall|i: int| 0 <= i < f.visits().len() ==> #[trigger] f.visits()[i] == Visit::Delivered,
    ensures
        forall|a: PeerAddr|
            #![trigger registry@.contains_key(a)]
            registry@.contains_key(a) && a != f.origin() ==> {
                &&& exists|i: int|
                    0 <= i < f.visits().len() && #[trigger] f.targets()[i] == a && f.visits()[i]
                        == Visit::Delivered
                &&& forall|i: int, j: int|
                    0 <= i < f.visits().len() && 0 <= j < f.visits().len() && #[trigger] f.targets()[i]
                        == a && #[trigger] f.targets()[j] == a ==> i == j
            },
{
    f.lemma_wf();
    assert forall|a: PeerAddr|
        #![trigger registry@.contains_key(a)]
        registry@.contains_key(a) && a != f.origin() implies {
            &&& exists|i: int|
                0 <= i < f.visits().len() && #[trigger] f.targets()[i] == a && f.visits()[i]
                    == Visit::Delivered
            &&& forall|i: int, j: int|
                0 <= i < f.visits().len() && 0 <= j < f.visits().len() && #[trigger] f.targets()[i]
                    == a && #[trigger] f.targets()[j] == a ==> i == j
        } by {
        assert(f.targets().contains(a));
        let i = choose|i: int| 0 <= i < f.targets().len() && f.targets()[i] == a;
        assert(f.visits()[i] == Visit::Delivered);
    }
}

} // verus!
