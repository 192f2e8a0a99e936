//! Connection identifiers: one process-wide counter mints a fresh id
//! for every accepted connection. Ids are unique, strictly increasing
//! in acceptance order, and never reused.

use vstd::prelude::*;

verus! {

/// The connection-id counter. The runtime layer shares one instance
/// behind a lock or atomic; each connection task mints its own id
/// exactly once. The ghost log of issued ids carries the uniqueness
/// argument.
pub struct ConnectionCounter {
    next: u64,
    issued: Ghost<Seq<u64>>,
}

impl ConnectionCounter {
    /// All issued ids are below the next id, and they were issued in
    /// strictly increasing order.
    pub closed spec fn wf(self) -> bool {
        &&& forall|i: int| 0 <= i < self.issued@.len() ==> #[trigger] self.issued@[i] < self.next
        &&& forall|i: int, j: int|
            0 <= i < j < self.issued@.len() ==> #[trigger] self.issued@[i]
                < #[trigger] self.issued@[j]
    }

    /// The ids handed out so far, in order.
    pub closed spec fn issued_ids(self) -> Seq<u64> {
        self.issued@
    }

    /// The id the next accept will receive.
    pub closed spec fn next_id(self) -> u64 {
        self.next
    }

    /// A fresh counter; the first connection receives id 1.
    pub fn new() -> (c: ConnectionCounter)
        ensures
            c.wf(),
            c.issued_ids() == Seq::<u64>::empty(),
            c.next_id() == 1,
    {
        ConnectionCounter { next: 1, issued: Ghost(Seq::empty()) }
    }

    /// The id the next accept will receive; minting is possible while
    /// this has room to grow.
    pub fn peek_next_id(&self) -> (r: u64)
        ensures
            r == self.next_id(),
    {
        self.next
    }

    /// Mints the next connection id: returns the current value and
    /// advances the counter, so no two calls return the same id.
    pub fn next_conn_id(&mut self) -> (id: u64)
        requires
            old(self).wf(),
            old(self).next_id() < u64::MAX,
        ensures
            final(self).wf(),
            id == old(self).next_id(),
            final(self).next_id() == old(self).next_id() + 1,
            final(self).issued_ids() == old(self).issued_ids().push(id),
            forall|i: int|
                0 <= i < old(self).issued_ids().len() ==> #[trigger] old(self).issued_ids()[i]
                    < id,
    {
        let id = self.next;
        self.next = self.next + 1;
        proof {
            self.issued@ = self.issued@.push(id);
        }
        id
    }
}

/// Ids issued to any number of accepted connections are pairwise
/// distinct: the ids form a set as large as the number of connections.
pub proof fn lemma_conn_ids_unique(c: ConnectionCounter)
    requires
        c.wf(),
    ensures
        forall|i: int, j: int|
            0 <= i < j < c.issued_ids().len() ==> #[trigger] c.issued_ids()[i]
                != #[trigger] c.issued_ids()[j],
        c.issued_ids().to_multiset().len() == c.issued_ids().len(),
        forall|x: u64| c.issued_ids().to_multiset().contains(x) ==> c.issued_ids().to_multiset().count(x) == 1,
{
    broadcast use vstd::seq_lib::group_to_multiset_ensures;

    let ids = c.issued_ids();
    assert(forall|i: int, j: int|
        0 <= i < j < ids.len() ==> #[trigger] ids[i] != #[trigger] ids[j]);
    assert(ids.no_duplicates()) by {
        assert(forall|i: int, j: int|
            0 <= i < ids.len() && 0 <= j < ids.len() && i != j ==> #[trigger] ids[i]
                != #[trigger] ids[j]);
    }
    ids.lemma_multiset_has_no_duplicates();
}

} // verus!
