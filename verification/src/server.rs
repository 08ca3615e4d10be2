//! The broadcast server's client registry: an ordered collection of the
//! write-handles of connected clients, appended to on accept, pruned of any
//! client whose write failed, and cleared on forced disconnect. The actual
//! socket writes happen outside the library; the registry fixes which
//! clients a broadcast targets and which survive it.

use vstd::prelude::*;

verus! {

/// The handles that survive a broadcast: those whose write was delivered,
/// in their original order.
pub open spec fn keep_delivered(ids: Seq<u64>, delivered: Seq<bool>) -> Seq<u64>
    decreases ids.len(),
{
    if ids.len() == 0 {
        Seq::empty()
    } else {
        keep_delivered(ids.drop_last(), delivered.drop_last()) + if delivered.last() {
            seq![ids.last()]
        } else {
            Seq::empty()
        }
    }
}

/// The ordered collection of connected clients' write-handles, each named
/// by a registry-issued identifier. No two entries name the same handle.
pub struct ClientRegistry {
    ids: Vec<u64>,
    next_id: u64,
}

impl ClientRegistry {
    /// Handles are pairwise distinct, and every issued one is below the
    /// counter for the next.
    pub closed spec fn wf(self) -> bool {
        &&& forall|i: int, j: int|
            0 <= i < j < self.ids@.len() ==> self.ids@[i] != self.ids@[j]
        &&& forall|i: int| 0 <= i < self.ids@.len() ==> self.ids@[i] < self.next_id
    }

    /// The registered handles, in registration order.
    pub closed spec fn clients(self) -> Seq<u64> {
        self.ids@
    }

    /// The identifier the next registration will hand out.
    pub closed spec fn next_handle(self) -> u64 {
        self.next_id
    }

    pub fn new() -> (r: Self)
        ensures
            r.wf(),
            r.clients() == Seq::<u64>::empty(),
            r.next_handle() == 0,
    {
        ClientRegistry { ids: Vec::new(), next_id: 0 }
    }

    /// Connection accept: appends a fresh handle and returns it.
    pub fn register(&mut self) -> (id: u64)
        requires
            old(self).wf(),
            old(self).next_handle() < u64::MAX,
        ensures
            final(self).wf(),
            final(self).clients() == old(self).clients().push(id),
            !old(self).clients().contains(id),
            id == old(self).next_handle(),
            final(self).next_handle() == old(self).next_handle() + 1,
    {
        let id = self.next_id;
        self.next_id = self.next_id + 1;
        self.ids.push(id);
        proof {
            if old(self).clients().contains(id) {
                let k = choose|k: int|
                    0 <= k < old(self).clients().len() && old(self).clients()[k] == id;
                assert(old(self).clients()[k] < id);
            }
        }
        id
    }

    /// Whether another registration can still be issued a fresh handle.
    pub fn can_register(&self) -> (r: bool)
        ensures
            r == (self.next_handle() < u64::MAX),
    {
        self.next_id < u64::MAX
    }

    /// How many clients a broadcast will target.
    pub fn len(&self) -> (n: usize)
        ensures
            n == self.clients().len(),
    {
        self.ids.len()
    }

    /// The handle at a position, in registration order.
    pub fn id_at(&self, i: usize) -> (id: u64)
        requires
            i < self.clients().len(),
        ensures
            id == self.clients()[i as int],
    {
        self.ids[i]
    }

    /// Broadcast housekeeping: `delivered[i]` says whether the write of the
    /// record to client `i` succeeded. Keeps exactly the clients whose
    /// write did, in order; a failed client is removed and no error is
    /// surfaced.
    pub fn retain_delivered(&mut self, delivered: &Vec<bool>)
        requires
            old(self).wf(),
            delivered@.len() == old(self).clients().len(),
        ensures
            final(self).wf(),
            final(self).clients() == keep_delivered(old(self).clients(), delivered@),
            final(self).next_handle() == old(self).next_handle(),
    {
        let ghost old_ids = self.ids@;
        let mut kept: Vec<u64> = Vec::new();
        let n = self.ids.len();
        let mut i: usize = 0;
        while i < n
            invariant
                n == old_ids.len(),
                n == delivered@.len(),
                i <= n,
                self.ids@ == old_ids,
                kept@ == keep_delivered(old_ids.take(i as int), delivered@.take(i as int)),
            decreases n - i,
        {
            if delivered[i] {
                kept.push(self.ids[i]);
            }
            proof {
                assert(old_ids.take(i as int + 1).drop_last() =~= old_ids.take(i as int));
                assert(delivered@.take(i as int + 1).drop_last() =~= delivered@.take(i as int));
                if delivered@[i as int] {
                    assert(kept@ =~= keep_delivered(old_ids.take(i as int), delivered@.take(
                        i as int,
                    )) + seq![old_ids[i as int]]);
                }
            }
            i = i + 1;
        }
        proof {
            assert(old_ids.take(n as int) =~= old_ids);
            assert(delivered@.take(n as int) =~= delivered@);
        }
        self.ids = kept;
        proof {
            lemma_keep_delivered_sub(old_ids, delivered@);
            lemma_keep_delivered_distinct(old_ids, delivered@);
            assert forall|k: int| 0 <= k < self.ids@.len()
                implies self.ids@[k] < self.next_id by {
                assert(old_ids.contains(self.ids@[k]));
                let j = choose|j: int| 0 <= j < old_ids.len() && old_ids[j] == self.ids@[k];
                assert(old(self).clients()[j] < old(self).next_handle());
            }
        }
    }

    /// Forced disconnect: every client leaves the registry; later
    /// broadcasts target nobody until new clients register.
    pub fn clear(&mut self)
        requires
            old(self).wf(),
        ensures
            final(self).wf(),
            final(self).clients() == Seq::<u64>::empty(),
            final(self).next_handle() == old(self).next_handle(),
    {
        self.ids.clear();
    }
}

/// Everything `keep_delivered` keeps was registered: the survivors are a
/// subset of the original handles.
proof fn lemma_keep_delivered_sub(ids: Seq<u64>, delivered: Seq<bool>)
    requires
        ids.len() == delivered.len(),
    ensures
        forall|k: int| 0 <= k < keep_delivered(ids, delivered).len()
            ==> ids.contains(#[trigger] keep_delivered(ids, delivered)[k]),
    decreases ids.len(),
{
    if ids.len() > 0 {
        lemma_keep_delivered_sub(ids.drop_last(), delivered.drop_last());
        assert forall|k: int| 0 <= k < keep_delivered(ids, delivered).len()
            implies ids.contains(#[trigger] keep_delivered(ids, delivered)[k]) by {
            let kept = keep_delivered(ids, delivered);
            let front = keep_delivered(ids.drop_last(), delivered.drop_last());
            if k < front.len() {
                let j = choose|j: int|
                    0 <= j < ids.drop_last().len() && ids.drop_last()[j] == front[k];
                assert(ids[j] == front[k]);
            } else {
                assert(kept[k] == ids.last());
                assert(ids[ids.len() - 1] == ids.last());
            }
        }
    }
}

/// A broadcast never duplicates a client: pruning a registry of distinct
/// handles leaves distinct handles.
proof fn lemma_keep_delivered_distinct(ids: Seq<u64>, delivered: Seq<bool>)
    requires
        ids.len() == delivered.len(),
        forall|i: int, j: int| 0 <= i < j < ids.len() ==> ids[i] != ids[j],
    ensures
        forall|i: int, j: int| 0 <= i < j < keep_delivered(ids, delivered).len()
            ==> keep_delivered(ids, delivered)[i] != keep_delivered(ids, delivered)[j],
    decreases ids.len(),
{
    if ids.len() > 0 {
        let front_ids = ids.drop_last();
        let front_del = delivered.drop_last();
        lemma_keep_delivered_distinct(front_ids, front_del);
        lemma_keep_delivered_sub(front_ids, front_del);
        let kept = keep_delivered(ids, delivered);
        let front = keep_delivered(front_ids, front_del);
        assert forall|i: int, j: int| 0 <= i < j < kept.len()
            implies kept[i] != kept[j] by {
            if j < front.len() {
                assert(kept[i] == front[i] && kept[j] == front[j]);
            } else {
                assert(kept[j] == ids.last());
                assert(front_ids.contains(front[i]));
                let m = choose|m: int|
                    0 <= m < front_ids.len() && front_ids[m] == front[i];
                assert(ids[m] == front[i]);
                assert(ids[m] != ids[ids.len() - 1]);
                assert(ids[ids.len() - 1] == ids.last());
            }
        }
    }
}

/// Broadcast fan-out housekeeping: a client survives the broadcast exactly
/// when the write of the record to it succeeded; failures only ever remove
/// the failing client, never a sibling.
pub proof fn lemma_broadcast_retention(ids: Seq<u64>, delivered: Seq<bool>)
    requires
        ids.len() == delivered.len(),
        forall|i: int, j: int| 0 <= i < j < ids.len() ==> ids[i] != ids[j],
    ensures
        forall|i: int| 0 <= i < ids.len()
            ==> (keep_delivered(ids, delivered).contains(#[trigger] ids[i]) <==> delivered[i]),
    decreases ids.len(),
{
    if ids.len() > 0 {
        let front_ids = ids.drop_last();
        let front_del = delivered.drop_last();
        lemma_broadcast_retention(front_ids, front_del);
        lemma_keep_delivered_sub(front_ids, front_del);
        let kept = keep_delivered(ids, delivered);
        let front = keep_delivered(front_ids, front_del);
        assert forall|i: int| 0 <= i < ids.len()
            implies (kept.contains(#[trigger] ids[i]) <==> delivered[i]) by {
            if i < ids.len() - 1 {
                assert(front_ids[i] == ids[i]);
                if delivered[i] {
                    let k = choose|k: int| 0 <= k < front.len() && front[k] == ids[i];
                    assert(kept[k] == ids[i]);
                    assert(kept.contains(ids[i]));
                } else {
                    if kept.contains(ids[i]) {
                        let k = choose|k: int| 0 <= k < kept.len() && kept[k] == ids[i];
                        if k < front.len() {
                            assert(front.contains(ids[i]));
                        } else {
                            assert(delivered.last());
                            assert(kept[k] == ids.last());
                            assert(ids[ids.len() - 1] == ids[i]);
                        }
                    }
                }
            } else {
                if delivered[i] {
                    assert(kept[kept.len() - 1] == ids.last());
                    assert(kept.contains(ids[i]));
                } else {
                    if kept.contains(ids[i]) {
                        let k = choose|k: int| 0 <= k < kept.len() && kept[k] == ids[i];
                        assert(kept =~= front);
                        assert(front.contains(ids.last()));
                        let j = choose|j: int| 0 <= j < front_ids.len() && front_ids[j] == ids.last();
                        assert(ids[j] == ids.last());
                        assert(ids[j] == ids[ids.len() - 1]);
                    }
                }
            }
        }
    }
}

} // verus!
