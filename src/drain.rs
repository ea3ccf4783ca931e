//! The ordered drain: outcomes arrive in any order and leave in job id order.
use vstd::prelude::*;
use crate::jobs::Outputs;

verus! {

/// The reader that hands out outcomes in ascending job id order, starting at
/// 0, until all inputs are known and each has been handed out.
pub struct Drain {
    next: usize,
    total: usize,
    finished: bool,
    emitted: Ghost<Seq<usize>>,
}

impl Drain {
    /// The ids handed out so far, in order.
    pub closed spec fn emitted(&self) -> Seq<usize> {
        self.emitted@
    }

    /// Whether the number of inputs is known.
    pub closed spec fn finished(&self) -> bool {
        self.finished
    }

    /// The number of inputs, once known.
    pub closed spec fn total(&self) -> nat {
        self.total as nat
    }

    /// The ids handed out are `0, 1, ...` in order, and no more than there
    /// are inputs once their number is known.
    pub closed spec fn wf(&self) -> bool {
        &&& self.emitted@.len() == self.next
        &&& forall|i: int| 0 <= i < self.emitted@.len() ==> self.emitted@[i] == i
        &&& self.finished ==> self.next <= self.total
    }

    /// A drain that has handed out nothing and does not know the number of
    /// inputs yet.
    pub fn new() -> (r: Drain)
        ensures
            r.wf(),
            r.emitted() == Seq::<usize>::empty(),
            !r.finished(),
    {
        Drain { next: 0, total: 0, finished: false, emitted: Ghost(Seq::empty()) }
    }

    /// The id of the next outcome to hand out.
    pub fn next_id(&self) -> (r: usize)
        requires
            self.wf(),
        ensures
            r == self.emitted().len(),
    {
        self.next
    }

    /// Records that there are `total` inputs in all.
    pub fn finish(&mut self, total: usize)
        requires
            old(self).wf(),
            !old(self).finished(),
            old(self).emitted().len() <= total,
        ensures
            final(self).wf(),
            final(self).finished(),
            final(self).total() == total,
            final(self).emitted() == old(self).emitted(),
    {
        self.total = total;
        self.finished = true;
    }

    /// Whether every input has been handed out.
    pub fn is_done(&self) -> (r: bool)
        requires
            self.wf(),
        ensures
            r == (self.finished() && self.emitted().len() == self.total()),
    {
        self.finished && self.next == self.total
    }

    /// Hands out the outcome of the next job if it has arrived: gives its id
    /// and outcome and moves on to the following id. Gives `None`, and
    /// changes nothing, when the drain is done or the outcome has not arrived
    /// (or the ids have run out: the next id is `usize::MAX`).
    pub fn poll<T>(&mut self, outcomes: &mut Outputs<T>) -> (r: Option<(usize, T)>)
        requires
            old(self).wf(),
            old(outcomes).wf(),
        ensures
            final(self).wf(),
            final(outcomes).wf(),
            final(self).finished() == old(self).finished(),
            final(self).total() == old(self).total(),
            final(outcomes).written() == old(outcomes).written(),
            match r {
                Some((id, v)) => {
                    &&& !(old(self).finished() && old(self).emitted().len() == old(self).total())
                    &&& id == old(self).emitted().len()
                    &&& old(outcomes).pending().contains_key(id)
                    &&& v == old(outcomes).pending()[id]
                    &&& final(outcomes).pending() == old(outcomes).pending().remove(id)
                    &&& final(self).emitted() == old(self).emitted().push(id)
                },
                None => {
                    &&& final(self).emitted() == old(self).emitted()
                    &&& final(outcomes).pending() == old(outcomes).pending()
                    &&& ((old(self).finished() && old(self).emitted().len() == old(self).total())
                        || !old(outcomes).pending().contains_key(old(self).emitted().len() as usize)
                        || old(self).emitted().len() == usize::MAX)
                },
            },
    {
        if self.finished && self.next == self.total {
            return None;
        }
        if self.next == usize::MAX {
            return None;
        }
        let id = self.next;
        match outcomes.remove(id) {
            Some(v) => {
                self.next = id + 1;
                self.emitted = Ghost(self.emitted@.push(id));
                Some((id, v))
            },
            None => {
                assert(outcomes.pending() =~= old(outcomes).pending());
                None
            },
        }
    }
}

/// The drain hands out the job ids `0` to `n - 1` in that order: after `n`
/// outcomes, whatever order they arrived in, the ids handed out are exactly
/// `0, 1, ..., n - 1`.
pub proof fn lemma_drain_order(d: Drain)
    requires
        d.wf(),
    ensures
        d.emitted() == Seq::new(d.emitted().len(), |i: int| i as usize),
{
    assert(d.emitted() =~= Seq::new(d.emitted().len(), |i: int| i as usize));
}

/// Once the number `n` of inputs is known, the drain is done exactly when it
/// has handed out `n` outcomes, never hands out more, and has then handed out
/// the ids `0` to `n - 1` in order.
pub proof fn lemma_drain_complete(d: Drain)
    requires
        d.wf(),
        d.finished(),
    ensures
        (d.finished() && d.emitted().len() == d.total()) <==> d.emitted().len() == d.total(),
        d.emitted().len() <= d.total(),
        d.emitted().len() == d.total() ==> d.emitted() == Seq::new(d.total(), |i: int| i as usize),
{
    lemma_drain_order(d);
}

} // verus!
