//! The render queue: a deduplicated set of dirty context identities, split
//! into an immediate and a deferred set so that an identity marked while a
//! drain is under way is kept for the next pass instead of being lost.

use vstd::prelude::*;

verus! {

/// The mathematical value of the queue.
#[verifier::ext_equal]
pub struct QueueV {
    pub render: Seq<u128>,
    pub deferred: Seq<u128>,
    pub draining: bool,
}

impl QueueV {
    /// Each set holds an identity at most once.
    pub open spec fn wf(self) -> bool {
        self.render.no_duplicates() && self.deferred.no_duplicates()
    }
}

/// What enqueueing does: the identity is recorded once in the immediate set,
/// or in the deferred set while a drain is under way; an identity already
/// present leaves the queue exactly as it was.
pub open spec fn spec_enqueue(q: QueueV, id: u128) -> QueueV {
    if q.draining {
        if q.deferred.contains(id) {
            q
        } else {
            QueueV { deferred: q.deferred.push(id), ..q }
        }
    } else {
        if q.render.contains(id) {
            q
        } else {
            QueueV { render: q.render.push(id), ..q }
        }
    }
}

/// The identities one drain pass hands out: the immediate set first, then
/// whatever of the deferred set it did not already hold.
pub open spec fn spec_merge_ids(a: Seq<u128>, b: Seq<u128>) -> Seq<u128>
    decreases b.len(),
{
    if b.len() == 0 {
        a
    } else {
        let r = spec_merge_ids(a, b.drop_last());
        if r.contains(b.last()) {
            r
        } else {
            r.push(b.last())
        }
    }
}

/// Merging keeps distinctness and holds exactly the identities of both sets.
pub proof fn lemma_merge_ids(a: Seq<u128>, b: Seq<u128>)
    requires
        a.no_duplicates(),
    ensures
        spec_merge_ids(a, b).no_duplicates(),
        forall|x: u128|
            spec_merge_ids(a, b).contains(x) <==> (a.contains(x) || b.contains(x)),
    decreases b.len(),
{
    broadcast use vstd::seq_lib::group_seq_properties;

    if b.len() > 0 {
        lemma_merge_ids(a, b.drop_last());
        let r = spec_merge_ids(a, b.drop_last());
        assert(forall|x: u128| #[trigger] b.drop_last().contains(x) ==> b.contains(x));
        assert(b.contains(b.last()));
        assert forall|x: u128| b.contains(x) implies (x == b.last() || b.drop_last().contains(
            x,
        )) by {
            let i = choose|i: int| 0 <= i < b.len() && b[i] == x;
            if i < b.len() - 1 {
                assert(b.drop_last()[i] == x);
            }
        }
        if !r.contains(b.last()) {
            assert(r.push(b.last()).no_duplicates());
        }
    }
}

/// The deduplicated render queue.
pub struct RenderingQueue {
    render_queue: Vec<u128>,
    deferred_queue: Vec<u128>,
    draining: bool,
}

fn ids_contain(v: &Vec<u128>, id: u128) -> (r: bool)
    ensures
        r == v@.contains(id),
{
    let mut i: usize = 0;
    while i < v.len()
        invariant
            i <= v@.len(),
            forall|j: int| 0 <= j < i ==> v@[j] != id,
        decreases v@.len() - i,
    {
        if v[i] == id {
            return true;
        }
        i = i + 1;
    }
    false
}

impl RenderingQueue {
    /// The mathematical value of this queue.
    pub closed spec fn view(&self) -> QueueV {
        QueueV { render: self.render_queue@, deferred: self.deferred_queue@, draining: self.draining }
    }

    /// An empty queue.
    pub fn new() -> (r: RenderingQueue)
        ensures
            r@ =~= (QueueV { render: Seq::empty(), deferred: Seq::empty(), draining: false }),
            r@.wf(),
    {
        RenderingQueue { render_queue: Vec::new(), deferred_queue: Vec::new(), draining: false }
    }

    /// Records a dirty context identity; recording one already present is a
    /// no-op, and during a drain the mark goes to the deferred set.
    pub fn enqueue(&mut self, id: u128)
        ensures
            final(self)@ == spec_enqueue(old(self)@, id),
            old(self)@.wf() ==> final(self)@.wf(),
    {
        if self.draining {
            if !ids_contain(&self.deferred_queue, id) {
                self.deferred_queue.push(id);
            }
        } else {
            if !ids_contain(&self.render_queue, id) {
                self.render_queue.push(id);
            }
        }
        proof {
            assert(final(self)@ =~= spec_enqueue(old(self)@, id));
        }
    }

    /// Takes every recorded identity, immediate set first, each distinct
    /// identity exactly once, and marks the queue as draining: marks arriving
    /// while the pass runs wait in the deferred set.
    pub fn drain(&mut self) -> (r: Vec<u128>)
        ensures
            r@ == spec_merge_ids(
                spec_merge_ids(Seq::<u128>::empty(), old(self)@.render),
                old(self)@.deferred,
            ),
            r@.no_duplicates(),
            forall|x: u128|
                r@.contains(x) <==> (old(self)@.render.contains(x) || old(
                    self,
                )@.deferred.contains(x)),
            final(self)@ =~= (QueueV {
                render: Seq::empty(),
                deferred: Seq::empty(),
                draining: true,
            }),
            final(self)@.wf(),
    {
        let mut out: Vec<u128> = Vec::new();
        let mut i: usize = 0;
        while i < self.render_queue.len()
            invariant
                i <= self.render_queue@.len(),
                self.render_queue@ == old(self)@.render,
                out@ == spec_merge_ids(Seq::<u128>::empty(), old(self)@.render.take(i as int)),
            decreases self.render_queue@.len() - i,
        {
            proof {
                assert(old(self)@.render.take(i + 1).drop_last() =~= old(self)@.render.take(
                    i as int,
                ));
                assert(old(self)@.render.take(i + 1).last() == old(self)@.render[i as int]);
            }
            let d = self.render_queue[i];
            if !ids_contain(&out, d) {
                out.push(d);
            }
            i = i + 1;
        }
        proof {
            assert(old(self)@.render.take(old(self)@.render.len() as int) =~= old(self)@.render);
        }
        let ghost merged = spec_merge_ids(Seq::<u128>::empty(), old(self)@.render);
        let mut i: usize = 0;
        while i < self.deferred_queue.len()
            invariant
                i <= self.deferred_queue@.len(),
                self.deferred_queue@ == old(self)@.deferred,
                merged == spec_merge_ids(Seq::<u128>::empty(), old(self)@.render),
                out@ == spec_merge_ids(merged, old(self)@.deferred.take(i as int)),
            decreases self.deferred_queue@.len() - i,
        {
            proof {
                assert(old(self)@.deferred.take(i + 1).drop_last() =~= old(self)@.deferred.take(
                    i as int,
                ));
                assert(old(self)@.deferred.take(i + 1).last() == old(self)@.deferred[i as int]);
            }
            let d = self.deferred_queue[i];
            if !ids_contain(&out, d) {
                out.push(d);
            }
            i = i + 1;
        }
        proof {
            assert(old(self)@.deferred.take(old(self)@.deferred.len() as int) =~= old(
                self,
            )@.deferred);
            lemma_merge_ids(Seq::<u128>::empty(), old(self)@.render);
            lemma_merge_ids(merged, old(self)@.deferred);
            assert(forall|x: u128| !Seq::<u128>::empty().contains(x));
        }
        self.render_queue.clear();
        self.deferred_queue.clear();
        self.draining = true;
        out
    }

    /// Ends a drain pass: later marks go to the immediate set again.
    pub fn end_drain(&mut self)
        ensures
            final(self)@ =~= (QueueV { draining: false, ..old(self)@ }),
            old(self)@.wf() ==> final(self)@.wf(),
    {
        self.draining = false;
    }

    /// Empties both sets, as session teardown does.
    pub fn clear(&mut self)
        ensures
            final(self)@ =~= (QueueV {
                render: Seq::empty(),
                deferred: Seq::empty(),
                draining: old(self)@.draining,
            }),
            final(self)@.wf(),
    {
        self.render_queue.clear();
        self.deferred_queue.clear();
    }
}

/// Queue dedup: marking the same identity again changes nothing, so marking
/// it three times before a drain is the same as marking it once, and the
/// drained identities hold it exactly once.
pub proof fn lemma_queue_dedup(q: QueueV, id: u128)
    requires
        q.wf(),
    ensures
        spec_enqueue(spec_enqueue(spec_enqueue(q, id), id), id) == spec_enqueue(q, id),
        spec_merge_ids(
            spec_merge_ids(Seq::<u128>::empty(), spec_enqueue(q, id).render),
            spec_enqueue(q, id).deferred,
        ).contains(id),
        spec_merge_ids(
            spec_merge_ids(Seq::<u128>::empty(), spec_enqueue(q, id).render),
            spec_enqueue(q, id).deferred,
        ).no_duplicates(),
{
    broadcast use vstd::seq_lib::group_seq_properties;

    let q1 = spec_enqueue(q, id);
    assert(q1.render.no_duplicates() && q1.deferred.no_duplicates());
    assert(spec_enqueue(q1, id) == q1);
    assert(forall|x: u128| !Seq::<u128>::empty().contains(x));
    lemma_merge_ids(Seq::<u128>::empty(), q1.render);
    lemma_merge_ids(spec_merge_ids(Seq::<u128>::empty(), q1.render), q1.deferred);
    if q.draining {
        assert(q1.deferred.contains(id));
    } else {
        assert(q1.render.contains(id));
    }
}

} // verus!
