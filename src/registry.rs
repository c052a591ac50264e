use vstd::prelude::*;

verus! {

/// A connection's address as plain values: the IP address (an IPv4 address
/// in its low 32 bits when `v6` is false), the port, and for IPv6 the flow
/// label and scope id.
#[derive(Debug, Clone, Copy, PartialEq, Eq, Hash, Structural)]
pub struct PeerAddr {
    pub ip: u128,
    pub port: u16,
    pub v6: bool,
    pub flowinfo: u32,
    pub scope_id: u32,
}

/// The shared table of registered peers: at most one entry per address, each
/// holding the send side of that peer's delivery channel.
pub struct Registry<S> {
    entries: Vec<(PeerAddr, S)>,
}

impl<S> View for Registry<S> {
    type V = Map<PeerAddr, S>;

    open spec fn view(&self) -> Map<PeerAddr, S> {
        Map::new(
            |a: PeerAddr| self.addrs().contains(a),
            |a: PeerAddr| self.entries()[self.addrs().index_of(a)].1,
        )
    }
}

impl<S> Registry<S> {
    pub closed spec fn entries(&self) -> Seq<(PeerAddr, S)> {
        self.entries@
    }

    /// The registered addresses, in the table's own order.
    pub open spec fn addrs(&self) -> Seq<PeerAddr> {
        self.entries().map_values(|e: (PeerAddr, S)| e.0)
    }

    /// No address is registered twice.
    pub open spec fn wf(&self) -> bool {
        self.addrs().no_duplicates()
    }

    proof fn lemma_lookup(&self, i: int)
        requires
            self.wf(),
            0 <= i < self.entries().len(),
        ensures
            self@.contains_key(self.entries()[i].0),
            self@[self.entries()[i].0] == self.entries()[i].1,
    {
        let a = self.entries()[i].0;
        assert(self.addrs()[i] == a);
        assert(self.addrs().contains(a));
        let j = self.addrs().index_of(a);
        assert(self.addrs()[j] == a);
        assert(i == j);
    }

    /// An empty table.
    pub fn new() -> (r: Registry<S>)
        ensures
            r.wf(),
            r@ == Map::<PeerAddr, S>::empty(),
    {
        let r = Registry { entries: Vec::new() };
        assert(r@ =~= Map::<PeerAddr, S>::empty());
        r
    }

    /// The position of `addr` in the table, if it is registered.
    fn position(&self, addr: PeerAddr) -> (r: Option<usize>)
        requires
            self.wf(),
        ensures
            match r {
                Some(i) => i < self.entries().len() && self.entries()[i as int].0 == addr,
                None => !self@.contains_key(addr),
            },
    {
        let mut i: usize = 0;
        while i < self.entries.len()
            invariant
                i <= self.entries@.len(),
                forall|k: int| 0 <= k < i ==> self.entries@[k].0 != addr,
            decreases self.entries@.len() - i,
        {
            if self.entries[i].0 == addr {
                return Some(i);
            }
            i = i + 1;
        }
        proof {
            if self.addrs().contains(addr) {
                let j = choose|j: int| 0 <= j < self.addrs().len() && self.addrs()[j] == addr;
                assert(self.entries@[j].0 == addr);
            }
        }
        None
    }

    /// Whether `addr` is registered.
    pub fn contains(&self, addr: PeerAddr) -> (r: bool)
        requires
            self.wf(),
        ensures
            r == self@.contains_key(addr),
    {
        match self.position(addr) {
            Some(i) => {
                proof { self.lemma_lookup(i as int); }
                true
            },
            None => false,
        }
    }

    /// The send handle registered at `addr`, if any.
    pub fn handle(&self, addr: PeerAddr) -> (r: Option<&S>)
        requires
            self.wf(),
        ensures
            match r {
                Some(h) => self@.contains_key(addr) && *h == self@[addr],
                None => !self@.contains_key(addr),
            },
    {
        match self.position(addr) {
            Some(i) => {
                proof { self.lemma_lookup(i as int); }
                Some(&self.entries[i].1)
            },
            None => None,
        }
    }

    /// Removes the entry of `addr`; nothing happens when it is absent.
    pub fn deregister(&mut self, addr: PeerAddr)
        requires
            old(self).wf(),
        ensures
            final(self).wf(),
            final(self)@ == old(self)@.remove(addr),
    {
        match self.position(addr) {
            Some(i) => {
                let ghost before = self.entries@;
                let ghost pre = *self;
                self.entries.remove(i);
                proof {
                    let ab = before.map_values(|e: (PeerAddr, S)| e.0);
                    let an = self.addrs();
                    assert(ab[i as int] == addr);
                    assert(an =~= ab.remove(i as int));
                    assert forall|p: int, q: int| 0 <= p < q < an.len() implies an[p] != an[q] by {
                        let pp = if p < i { p } else { p + 1 };
                        let qq = if q < i { q } else { q + 1 };
                        assert(an[p] == ab[pp]);
                        assert(an[q] == ab[qq]);
                    }
                    assert forall|a: PeerAddr| #[trigger] self@.contains_key(a) <==> pre@.remove(addr).contains_key(a) by {
                        if an.contains(a) {
                            let k = choose|k: int| 0 <= k < an.len() && an[k] == a;
                            let kk = if k < i { k } else { k + 1 };
                            assert(ab[kk] == a);
                            assert(kk != i);
                            assert(ab.contains(a));
                        }
                        if pre@.remove(addr).contains_key(a) {
                            let k = ab.index_of(a);
                            assert(k != i);
                            let kk = if k < i { k } else { k - 1 };
                            assert(an[kk] == a);
                        }
                    }
                    assert forall|a: PeerAddr| #[trigger] self@.contains_key(a) implies self@[a] == pre@[a] by {
                        let k = an.index_of(a);
                        let kk = if k < i { k } else { k + 1 };
                        self.lemma_lookup(k);
                        pre.lemma_lookup(kk);
                    }
                    assert(self@ =~= pre@.remove(addr));
                }
            },
            None => {
                assert(self@ =~= old(self)@.remove(addr));
            },
        }
    }

    /// Registers `handle` at `addr`, replacing any entry that `addr` had.
    pub fn register(&mut self, addr: PeerAddr, handle: S)
        requires
            old(self).wf(),
        ensures
            final(self).wf(),
            final(self)@ == old(self)@.insert(addr, handle),
    {
        self.deregister(addr);
        let ghost pre = *self;
        self.entries.push((addr, handle));
        proof {
            let ab = pre.addrs();
            let an = self.addrs();
            assert(an =~= ab.push(addr));
            assert(!pre@.contains_key(addr));
            assert(!ab.contains(addr));
            assert forall|p: int, q: int| 0 <= p < q < an.len() implies an[p] != an[q] by {
                if q == ab.len() {
                    assert(ab.contains(an[p]));
                }
            }
            assert forall|a: PeerAddr| #[trigger] self@.contains_key(a) <==> pre@.insert(addr, handle).contains_key(a) by {
                if a != addr && an.contains(a) {
                    let k = choose|k: int| 0 <= k < an.len() && an[k] == a;
                    assert(ab[k] == a);
                }
                if ab.contains(a) {
                    let k = choose|k: int| 0 <= k < ab.len() && ab[k] == a;
                    assert(an[k] == a);
                }
                assert(an[ab.len() as int] == addr);
            }
            assert forall|a: PeerAddr| #[trigger] self@.contains_key(a) implies self@[a] == pre@.insert(addr, handle)[a] by {
                let k = an.index_of(a);
                self.lemma_lookup(k);
                if k < ab.len() {
                    pre.lemma_lookup(k);
                }
            }
            assert(self@ =~= pre@.insert(addr, handle));
        }
    }

    /// Every registered address but `origin`, each once.
    pub fn addresses_except(&self, origin: PeerAddr) -> (r: Vec<PeerAddr>)
        requires
            self.wf(),
        ensures
            r@.no_duplicates(),
            forall|a: PeerAddr| r@.contains(a) <==> (self.addrs().contains(a) && a != origin),
    {
        let mut r: Vec<PeerAddr> = Vec::new();
        let mut i: usize = 0;
        while i < self.entries.len()
            invariant
                self.wf(),
                i <= self.entries@.len(),
                r@.no_duplicates(),
                forall|a: PeerAddr|
                    r@.contains(a) <==> (exists|k: int| 0 <= k < i && self.addrs()[k] == a && a != origin),
            decreases self.entries@.len() - i,
        {
            let a = self.entries[i].0;
            proof { assert(self.addrs()[i as int] == a); }
            if a != origin {
                proof {
                    if r@.contains(a) {
                        let k = choose|k: int| 0 <= k < i && self.addrs()[k] == a && a != origin;
                        assert(false);
                    }
                }
                let ghost old_r = r@;
                r.push(a);
                proof {
                    assert(r@ == old_r.push(a));
                    assert forall|b: PeerAddr| r@.contains(b) <==> (exists|k: int| 0 <= k < i + 1 && self.addrs()[k] == b && b != origin) by {
                        if r@.contains(b) && b != a {
                            let j = choose|j: int| 0 <= j < r@.len() && r@[j] == b;
                            assert(j < old_r.len());
                            assert(old_r[j] == b);
                            assert(old_r.contains(b));
                        }
                        if exists|k: int| 0 <= k < i && self.addrs()[k] == b && b != origin {
                            assert(old_r.contains(b));
                            let j = choose|j: int| 0 <= j < old_r.len() && old_r[j] == b;
                            assert(r@[j] == b);
                        }
                        if exists|k: int| 0 <= k < i + 1 && self.addrs()[k] == b && b != origin {
                            let k = choose|k: int| 0 <= k < i + 1 && self.addrs()[k] == b && b != origin;
                            if k == i {
                                assert(r@[r@.len() - 1] == b);
                            }
                        }
                        assert(r@[r@.len() - 1] == a);
                    }
                }
            } else {
                proof {
                    assert forall|b: PeerAddr| r@.contains(b) <==> (exists|k: int| 0 <= k < i + 1 && self.addrs()[k] == b && b != origin) by {
                        if exists|k: int| 0 <= k < i + 1 && self.addrs()[k] == b && b != origin {
                            let k = choose|k: int| 0 <= k < i + 1 && self.addrs()[k] == b && b != origin;
                            assert(k < i);
                        }
                    }
                }
            }
            i = i + 1;
        }
        proof {
            assert forall|a: PeerAddr| r@.contains(a) <==> (self.addrs().contains(a) && a != origin) by {
                if self.addrs().contains(a) && a != origin {
                    let k = choose|k: int| 0 <= k < self.addrs().len() && self.addrs()[k] == a;
                    assert(0 <= k < i && self.addrs()[k] == a && a != origin);
                }
            }
        }
        r
    }
}

/// Registry uniqueness: a well-formed table, as every operation leaves it,
/// holds one entry per registered address and no more.
pub proof fn lemma_one_entry_per_address<S>(r: &Registry<S>)
    requires
        r.wf(),
    ensures
        r.entries().len() == r@.dom().len(),
        forall|i: int, j: int|
            0 <= i < r.entries().len() && 0 <= j < r.entries().len() && #[trigger] r.entries()[i].0
                == #[trigger] r.entries()[j].0 ==> i == j,
{
    r.addrs().unique_seq_to_set();
    assert(r@.dom() =~= r.addrs().to_set());
    assert forall|i: int, j: int|
        0 <= i < r.entries().len() && 0 <= j < r.entries().len() && #[trigger] r.entries()[i].0
            == #[trigger] r.entries()[j].0 implies i == j by {
        assert(r.addrs()[i] == r.entries()[i].0);
        assert(r.addrs()[j] == r.entries()[j].0);
    }
}

} // verus!
