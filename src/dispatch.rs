use vstd::prelude::*;

verus! {

/// The book of the dispatch queue: requests waiting, in order, and requests whose
/// stream was delivered. A request that was issued and is in neither is held by
/// the worker that took it.
pub struct Ledger {
    pub pending: Seq<u64>,
    pub delivered: Set<u64>,
    pub issued: nat,
}

/// No request waits twice, none waits after delivery, and all were issued.
pub open spec fn ledger_ok(l: Ledger) -> bool {
    &&& l.pending.no_duplicates()
    &&& forall|i: int| 0 <= i < l.pending.len() ==> !l.delivered.contains(#[trigger] l.pending[i])
    &&& forall|i: int| 0 <= i < l.pending.len() ==> (#[trigger] l.pending[i]) < l.issued
    &&& forall|x: u64| #[trigger] l.delivered.contains(x) ==> x < l.issued
}

/// Whether a worker holds request `id`: issued, neither waiting nor delivered.
pub open spec fn held(l: Ledger, id: u64) -> bool {
    id < l.issued && !l.pending.contains(id) && !l.delivered.contains(id)
}

/// A worker takes the oldest waiting request.
pub open spec fn take_spec(l: Ledger) -> Ledger {
    if l.pending.len() == 0 {
        l
    } else {
        Ledger { pending: l.pending.drop_first(), ..l }
    }
}

/// A worker reports on a request it holds: delivered when the stream opened,
/// else put back at the end of the queue.
pub open spec fn report_spec(l: Ledger, id: u64, opened: bool) -> Ledger {
    if opened {
        Ledger { delivered: l.delivered.insert(id), ..l }
    } else {
        Ledger { pending: l.pending.push(id), ..l }
    }
}

/// A healthy worker takes and opens every waiting request in turn.
pub open spec fn serve_all(l: Ledger) -> Ledger
    decreases l.pending.len(),
{
    if l.pending.len() == 0 {
        l
    } else {
        serve_all(report_spec(take_spec(l), l.pending[0], true))
    }
}

/// What a worker does with a request after trying to open its stream.
pub enum Outcome {
    /// Hand the stream to the waiting caller.
    Deliver,
    /// Put the request back on the queue for another worker.
    Requeue,
}

/// The dispatch queue's book, shared by the workers.
pub struct Dispatch {
    pending: Vec<u64>,
    next_id: u64,
    delivered: Ghost<Set<u64>>,
}

impl View for Dispatch {
    type V = Ledger;

    closed spec fn view(&self) -> Ledger {
        Ledger { pending: self.pending@, delivered: self.delivered@, issued: self.next_id as nat }
    }
}

impl Dispatch {
    pub closed spec fn wf(&self) -> bool {
        ledger_ok(self@)
    }

    pub fn new() -> (r: Dispatch)
        ensures
            r.wf(),
            r@.pending.len() == 0,
            r@.delivered.is_empty(),
            r@.issued == 0,
    {
        Dispatch { pending: Vec::new(), next_id: 0, delivered: Ghost(Set::empty()) }
    }

    /// Posts a new request at the end of the queue and returns its number;
    /// `None` once every number has been issued.
    pub fn submit(&mut self) -> (r: Option<u64>)
        requires
            old(self).wf(),
        ensures
            final(self).wf(),
            r is None <==> old(self)@.issued == u64::MAX,
            r is None ==> final(self)@ == old(self)@,
            r is Some ==> r->Some_0 == old(self)@.issued && final(self)@ == (Ledger {
                pending: old(self)@.pending.push(r->Some_0),
                delivered: old(self)@.delivered,
                issued: old(self)@.issued + 1,
            }),
    {
        if self.next_id == u64::MAX {
            return None;
        }
        let id = self.next_id;
        self.pending.push(id);
        self.next_id = id + 1;
        assert(self.pending@ =~= old(self).pending@.push(id));
        proof {
            let p = self.pending@;
            assert forall|i: int, j: int| 0 <= i < p.len() && 0 <= j < p.len() && i != j implies p[i] != p[j] by {
                if i == p.len() - 1 {
                    assert(p[j] < id || j == i);
                } else if j == p.len() - 1 {
                    assert(p[i] < id);
                }
            }
            assert forall|i: int| 0 <= i < p.len() implies !self.delivered@.contains(#[trigger] p[i]) && p[i] < self.next_id by {
                if i < p.len() - 1 {
                    assert(p[i] == old(self).pending@[i]);
                } else {
                    assert(ledger_ok(old(self)@));
                    if old(self)@.delivered.contains(id) {
                        assert(id < old(self)@.issued);
                    }
                }
            }
        }
        Some(id)
    }

    /// Takes the oldest waiting request, if any.
    pub fn take(&mut self) -> (r: Option<u64>)
        requires
            old(self).wf(),
        ensures
            final(self).wf(),
            final(self)@ == take_spec(old(self)@),
            r is None <==> old(self)@.pending.len() == 0,
            r is Some ==> r->Some_0 == old(self)@.pending[0] && held(final(self)@, r->Some_0),
    {
        if self.pending.len() == 0 {
            return None;
        }
        let id = self.pending.remove(0);
        assert(self.pending@ =~= old(self)@.pending.drop_first());
        assert(!self.pending@.contains(id)) by {
            if self.pending@.contains(id) {
                let k = choose|k: int| 0 <= k < self.pending@.len() && self.pending@[k] == id;
                assert(old(self)@.pending[k + 1] == old(self)@.pending[0]);
            }
        }
        assert(old(self)@.pending[0] == id);
        Some(id)
    }

    /// Records the outcome of opening a stream for a request that a worker holds.
    pub fn report(&mut self, id: u64, opened: bool) -> (r: Outcome)
        requires
            old(self).wf(),
            held(old(self)@, id),
        ensures
            final(self).wf(),
            final(self)@ == report_spec(old(self)@, id, opened),
            opened <==> r is Deliver,
    {
        if opened {
            self.delivered = Ghost(self.delivered@.insert(id));
            Outcome::Deliver
        } else {
            self.pending.push(id);
            assert(self.pending@ =~= old(self)@.pending.push(id));
            proof {
                let p = self.pending@;
                assert forall|i: int, j: int| 0 <= i < p.len() && 0 <= j < p.len() && i != j implies p[i] != p[j] by {
                    if i == p.len() - 1 {
                        assert(old(self)@.pending.contains(p[j]) || j == i);
                    } else if j == p.len() - 1 {
                        assert(old(self)@.pending.contains(p[i]));
                    }
                }
            }
            Outcome::Requeue
        }
    }
}

/// With every open succeeding, serving the queue delivers each waiting request
/// (each exactly once: a delivered request is never put back) and leaves none waiting.
pub proof fn lemma_serve_all_delivers(l: Ledger)
    requires
        ledger_ok(l),
    ensures
        serve_all(l).pending.len() == 0,
        serve_all(l).delivered == l.delivered.union(l.pending.to_set()),
        serve_all(l).issued == l.issued,
        forall|i: int| 0 <= i < l.pending.len() ==> !l.delivered.contains(#[trigger] l.pending[i]),
    decreases l.pending.len(),
{
    if l.pending.len() > 0 {
        let id = l.pending[0];
        let next = report_spec(take_spec(l), id, true);
        assert(next.pending =~= l.pending.drop_first());
        assert forall|i: int| 0 <= i < next.pending.len() implies !next.delivered.contains(#[trigger] next.pending[i]) by {
            assert(next.pending[i] == l.pending[i + 1]);
            assert(l.pending[i + 1] != l.pending[0]);
        }
        assert forall|i: int| 0 <= i < next.pending.len() implies (#[trigger] next.pending[i]) < next.issued by {
            assert(next.pending[i] == l.pending[i + 1]);
        }
        assert(ledger_ok(next));
        lemma_serve_all_delivers(next);
        assert(next.delivered.union(next.pending.to_set()) =~= l.delivered.union(l.pending.to_set())) by {
            assert forall|x: u64| l.pending.to_set().contains(x) implies next.delivered.union(next.pending.to_set()).contains(x) by {
                let k = choose|k: int| 0 <= k < l.pending.len() && l.pending[k] == x;
                if k > 0 {
                    assert(next.pending[k - 1] == x);
                }
            }
            assert forall|x: u64| next.pending.to_set().contains(x) implies l.pending.to_set().contains(x) by {
                let k = choose|k: int| 0 <= k < next.pending.len() && next.pending[k] == x;
                assert(l.pending[k + 1] == x);
            }
        }
    } else {
        assert(l.delivered.union(l.pending.to_set()) =~= l.delivered);
    }
}

/// Hot potato: a worker whose stream fails to open puts the request back, and a
/// healthy worker serving the queue then delivers every request, that one included.
pub proof fn lemma_requeued_request_is_served(l: Ledger)
    requires
        ledger_ok(l),
        l.pending.len() > 0,
    ensures
        ({
            let id = l.pending[0];
            let after_failure = report_spec(take_spec(l), id, false);
            &&& ledger_ok(after_failure)
            &&& serve_all(after_failure).pending.len() == 0
            &&& serve_all(after_failure).delivered == l.delivered.union(l.pending.to_set())
        }),
{
    let id = l.pending[0];
    let a = report_spec(take_spec(l), id, false);
    assert(a.pending =~= l.pending.drop_first().push(id));
    assert forall|i: int, j: int| 0 <= i < a.pending.len() && 0 <= j < a.pending.len() && i != j implies a.pending[i] != a.pending[j] by {
        if i < a.pending.len() - 1 {
            assert(a.pending[i] == l.pending[i + 1]);
        }
        if j < a.pending.len() - 1 {
            assert(a.pending[j] == l.pending[j + 1]);
        }
    }
    assert forall|i: int| 0 <= i < a.pending.len() implies !a.delivered.contains(#[trigger] a.pending[i]) && a.pending[i] < a.issued by {
        if i < a.pending.len() - 1 {
            assert(a.pending[i] == l.pending[i + 1]);
        }
    }
    assert(ledger_ok(a));
    lemma_serve_all_delivers(a);
    assert(a.pending.to_set() =~= l.pending.to_set()) by {
        assert forall|x: u64| l.pending.to_set().contains(x) implies a.pending.to_set().contains(x) by {
            let k = choose|k: int| 0 <= k < l.pending.len() && l.pending[k] == x;
            if k > 0 {
                assert(a.pending[k - 1] == x);
            } else {
                assert(a.pending[a.pending.len() - 1] == x);
            }
        }
        assert forall|x: u64| a.pending.to_set().contains(x) implies l.pending.to_set().contains(x) by {
            let k = choose|k: int| 0 <= k < a.pending.len() && a.pending[k] == x;
            if k < a.pending.len() - 1 {
                assert(l.pending[k + 1] == x);
            } else {
                assert(l.pending[0] == x);
            }
        }
    }
}

} // verus!
