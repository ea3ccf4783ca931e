//! The shared input queue, the outcome map keyed by job id, and the retry
//! bookkeeping that hands failed inputs out again.
use vstd::prelude::*;
use std::collections::{BTreeMap, BTreeSet, VecDeque};


verus! {

broadcast use {vstd::std_specs::btree::group_btree_axioms, vstd::laws_cmp::group_laws_cmp};

/// Most attempts made on one input before it is declared failed.
pub const MAX_ATTEMPTS: u8 = 4;

/// Access to a queue of jobs, `(job id, input)`.
pub trait InsertJob {
    /// Takes the oldest job, if any.
    fn get_job(&mut self) -> Option<(usize, String)>;

    /// Adds a job at the back.
    fn insert_job(&mut self, id: usize, job: String);
}

/// A first-in first-out queue of jobs, `(job id, input)`.
pub struct Inputs {
    pub inputs: VecDeque<(usize, String)>,
}

impl View for Inputs {
    type V = Seq<(usize, Seq<char>)>;

    open spec fn view(&self) -> Seq<(usize, Seq<char>)> {
        self.inputs@.map_values(|j: (usize, String)| (j.0, j.1@))
    }
}

impl Inputs {
    /// An empty queue.
    pub fn new() -> (r: Inputs)
        ensures
            r@ == Seq::<(usize, Seq<char>)>::empty(),
    {
        let r = Inputs { inputs: VecDeque::new() };
        assert(r@ =~= Seq::<(usize, Seq<char>)>::empty());
        r
    }

    /// The number of queued jobs.
    pub fn len(&self) -> (r: usize)
        ensures
            r == self@.len(),
    {
        self.inputs.len()
    }

    /// Adds a job at the back.
    pub fn push(&mut self, id: usize, input: String)
        ensures
            final(self)@ == old(self)@.push((id, input@)),
    {
        self.inputs.push_back((id, input));
        assert(self@ =~= old(self)@.push((id, input@)));
    }

    /// Takes the oldest job, or gives `None` when the queue is empty.
    pub fn pop(&mut self) -> (r: Option<(usize, String)>)
        ensures
            old(self)@.len() == 0 ==> r is None && final(self)@ == old(self)@,
            old(self)@.len() > 0 ==> (r matches Some(j) && (j.0, j.1@) == old(self)@[0]
                && final(self)@ == old(self)@.drop_first()),
    {
        let r = self.inputs.pop_front();
        assert(self@ =~= if old(self)@.len() > 0 {
            old(self)@.drop_first()
        } else {
            old(self)@
        });
        r
    }
}

impl InsertJob for Inputs {
    fn get_job(&mut self) -> Option<(usize, String)> {
        self.pop()
    }

    fn insert_job(&mut self, id: usize, job: String) {
        self.push(id, job)
    }
}

/// Outcomes of jobs, keyed by job id. Each id is written at most once: the
/// ids ever written are kept, also after their outcome has been taken.
pub struct Outputs<T> {
    map: BTreeMap<usize, T>,
    written: BTreeSet<usize>,
}

impl<T> Outputs<T> {
    /// The outcomes waiting to be taken.
    pub closed spec fn pending(&self) -> Map<usize, T> {
        self.map@
    }

    /// The ids ever written.
    pub closed spec fn written(&self) -> Set<usize> {
        self.written@
    }

    /// Every waiting outcome has been written.
    pub closed spec fn wf(&self) -> bool {
        self.map@.dom().subset_of(self.written@)
    }

    /// A map with nothing written.
    pub fn new() -> (r: Outputs<T>)
        ensures
            r.wf(),
            r.pending() == Map::<usize, T>::empty(),
            r.written() == Set::<usize>::empty(),
    {
        let r = Outputs { map: BTreeMap::new(), written: BTreeSet::new() };
        assert(r.map@.dom() =~= Set::<usize>::empty());
        r
    }

    /// Stores the outcome of job `id`, unless an outcome for `id` was ever
    /// stored before; says whether it was stored.
    pub fn insert(&mut self, id: usize, outcome: T) -> (r: bool)
        requires
            old(self).wf(),
        ensures
            final(self).wf(),
            follows(*old(self), *final(self)),
            r == !old(self).written().contains(id),
            r ==> final(self).pending() == old(self).pending().insert(id, outcome)
                && final(self).written() == old(self).written().insert(id),
            !r ==> final(self).pending() == old(self).pending() && final(self).written()
                == old(self).written(),
    {
        if self.written.contains(&id) {
            return false;
        }
        self.written.insert(id);
        self.map.insert(id, outcome);
        true
    }

    /// Takes the outcome of job `id` out, if it is there.
    pub fn remove(&mut self, id: usize) -> (r: Option<T>)
        requires
            old(self).wf(),
        ensures
            final(self).wf(),
            final(self).written() == old(self).written(),
            final(self).pending() == old(self).pending().remove(id),
            old(self).pending().contains_key(id) ==> r == Some(old(self).pending()[id]),
            !old(self).pending().contains_key(id) ==> r is None,
    {
        let r = self.map.remove(&id);
        assert(self.map@.dom().subset_of(self.written@));
        r
    }
}

/// Whether `later` can follow `earlier`: every operation keeps the ids
/// written, so later states hold at least those of earlier ones.
pub open spec fn follows<T>(earlier: Outputs<T>, later: Outputs<T>) -> bool {
    earlier.written().subset_of(later.written())
}

/// Each job id gets at most one outcome, a success or a failure: once one
/// has been stored for `id`, `insert` refuses `id` in every state that
/// follows, whether or not the outcome has been taken since.
pub proof fn lemma_at_most_one_outcome<T>(earlier: Outputs<T>, later: Outputs<T>, id: usize)
    requires
        earlier.written().contains(id),
        follows(earlier, later),
    ensures
        later.written().contains(id),
{
}

/// A job handed out by the retry bookkeeping: id, input, and the number of
/// attempts already made on it.
pub type Attempt = (usize, String, u8);

/// The inputs to try again after a transport failure.
pub struct Retries {
    pub errors: VecDeque<Attempt>,
}

/// Each input is attempted at most `MAX_ATTEMPTS` times: an input waiting
/// for a retry has been attempted fewer than `MAX_ATTEMPTS` times, so the
/// attempt it is handed out for is at most the `MAX_ATTEMPTS`-th.
pub proof fn lemma_retry_bound(r: Retries, i: int)
    requires
        r.wf(),
        0 <= i < r.errors@.len(),
    ensures
        r.errors@[i].2 + 1 <= MAX_ATTEMPTS,
{
}

impl Retries {
    /// Every input waiting for another attempt has been tried at least once
    /// and fewer than `MAX_ATTEMPTS` times.
    pub open spec fn wf(&self) -> bool {
        forall|i: int|
            0 <= i < self.errors@.len() ==> 1 <= (#[trigger] self.errors@[i]).2 < MAX_ATTEMPTS
    }

    /// Nothing to retry, nothing failed.
    pub fn new() -> (r: Retries)
        ensures
            r.wf(),
            r.errors@.len() == 0,
    {
        Retries { errors: VecDeque::new() }
    }

    /// The next input to run: the oldest one waiting for a retry, else the
    /// oldest in `inputs`, with no attempt made yet.
    pub fn next_input(&mut self, inputs: &mut Inputs) -> (r: Option<Attempt>)
        requires
            old(self).wf(),
        ensures
            final(self).wf(),
            r matches Some(a) ==> a.2 < MAX_ATTEMPTS,
            old(self).errors@.len() > 0 ==> r == Some(old(self).errors@[0]) && final(self).errors@
                == old(self).errors@.drop_first() && final(inputs)@ == old(inputs)@,
            old(self).errors@.len() == 0 ==> final(self).errors@ == old(self).errors@ && ({
                ||| old(inputs)@.len() == 0 && r is None && final(inputs)@ == old(inputs)@
                ||| old(inputs)@.len() > 0 && (r matches Some(a) && (a.0, a.1@) == old(inputs)@[0]
                    && a.2 == 0 && final(inputs)@ == old(inputs)@.drop_first())
            }),
    {
        if self.errors.len() > 0 {
            let r = self.errors.pop_front();
            assert forall|i: int| 0 <= i < self.errors@.len() implies 1 <= (
            #[trigger] self.errors@[i]).2 < MAX_ATTEMPTS by {
                assert(self.errors@[i] == old(self).errors@[i + 1]);
            }
            return r;
        }
        match inputs.pop() {
            Some((id, input)) => Some((id, input, 0)),
            None => None,
        }
    }

    /// Records that an attempt on job `id` failed, `tries` attempts having
    /// been made before it. It is queued for another attempt if fewer than
    /// `MAX_ATTEMPTS` have now been made; otherwise it has failed for good,
    /// which the result says, and its outcome is a failure.
    pub fn record_failure(&mut self, id: usize, input: String, tries: u8) -> (r: bool)
        requires
            old(self).wf(),
            tries < MAX_ATTEMPTS,
        ensures
            final(self).wf(),
            r == (tries + 1 >= MAX_ATTEMPTS),
            !r ==> final(self).errors@ == old(self).errors@.push((id, input, (tries + 1) as u8)),
            r ==> final(self).errors@ == old(self).errors@,
    {
        if tries + 1 >= MAX_ATTEMPTS {
            true
        } else {
            self.errors.push_back((id, input, tries + 1));
            assert forall|i: int| 0 <= i < self.errors@.len() implies 1 <= (
            #[trigger] self.errors@[i]).2 < MAX_ATTEMPTS by {
                if i < old(self).errors@.len() {
                    assert(self.errors@[i] == old(self).errors@[i]);
                }
            }
            false
        }
    }
}

} // verus!
