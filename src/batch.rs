use vstd::prelude::*;
use crate::item::ItemOutcome;

verus! {

/// The number of items downloaded at the same time, unless told otherwise.
pub const CONCURRENCY: usize = 2;

/// Where one item of a batch stands.
#[derive(Debug, Clone, Copy, PartialEq, Eq, Structural)]
pub enum TaskState {
    /// Not started yet.
    Pending,
    /// Started and not finished.
    Running,
    /// Finished, this way.
    Finished(ItemOutcome),
}

/// Number of items that are running.
pub open spec fn count_running(s: Seq<TaskState>) -> nat
    decreases s.len(),
{
    if s.len() == 0 {
        0
    } else {
        count_running(s.drop_last()) + if s.last() is Running {
            1nat
        } else {
            0nat
        }
    }
}

/// Number of items that finished with `outcome`.
pub open spec fn count_finished(s: Seq<TaskState>, outcome: ItemOutcome) -> nat
    decreases s.len(),
{
    if s.len() == 0 {
        0
    } else {
        count_finished(s.drop_last(), outcome) + if s.last() == TaskState::Finished(outcome) {
            1nat
        } else {
            0nat
        }
    }
}

/// Every item has finished, whether it succeeded or failed.
pub open spec fn all_finished(s: Seq<TaskState>) -> bool {
    forall|i: int| 0 <= i < s.len() ==> #[trigger] s[i] is Finished
}

/// `i` is the first item that has not been started.
pub open spec fn is_first_pending(s: Seq<TaskState>, i: int) -> bool {
    &&& 0 <= i < s.len()
    &&& s[i] is Pending
    &&& forall|j: int| 0 <= j < i ==> !(#[trigger] s[j] is Pending)
}

proof fn lemma_count_running_update(s: Seq<TaskState>, i: int, x: TaskState)
    requires
        0 <= i < s.len(),
    ensures
        count_running(s.update(i, x)) + (if s[i] is Running { 1nat } else { 0nat })
            == count_running(s) + (if x is Running { 1nat } else { 0nat }),
    decreases s.len(),
{
    let t = s.update(i, x);
    if i == s.len() - 1 {
        assert(t.drop_last() == s.drop_last());
    } else {
        lemma_count_running_update(s.drop_last(), i, x);
        assert(t.drop_last() == s.drop_last().update(i, x));
    }
}

proof fn lemma_none_running(s: Seq<TaskState>)
    requires
        count_running(s) == 0,
    ensures
        forall|i: int| 0 <= i < s.len() ==> !(#[trigger] s[i] is Running),
    decreases s.len(),
{
    if s.len() > 0 {
        lemma_none_running(s.drop_last());
        assert forall|i: int| 0 <= i < s.len() implies !(#[trigger] s[i] is Running) by {
            if i < s.len() - 1 {
                assert(s[i] == s.drop_last()[i]);
            }
        }
    }
}

proof fn lemma_some_running(s: Seq<TaskState>, i: int)
    requires
        0 <= i < s.len(),
        s[i] is Running,
    ensures
        count_running(s) > 0,
    decreases s.len(),
{
    if i < s.len() - 1 {
        assert(s[i] == s.drop_last()[i]);
        lemma_some_running(s.drop_last(), i);
    }
}

/// Schedules the download tasks of an album's items: items are started in
/// album order, never more than `cap` at once, and each is started once. An
/// item that fails finishes like any other and holds up nothing.
pub struct Batch {
    cap: usize,
    next: usize,
    running: usize,
    states: Vec<TaskState>,
}

impl View for Batch {
    type V = Seq<TaskState>;

    closed spec fn view(&self) -> Seq<TaskState> {
        self.states@
    }
}

impl Batch {
    /// The most items that may run at once.
    pub closed spec fn spec_cap(&self) -> nat {
        self.cap as nat
    }

    /// Items are started in order, and the running ones are counted.
    pub closed spec fn wf(&self) -> bool {
        &&& self.cap >= 1
        &&& self.next <= self.states@.len()
        &&& forall|i: int| 0 <= i < self.next ==> !(#[trigger] self.states@[i] is Pending)
        &&& forall|i: int| self.next <= i < self.states@.len() ==> #[trigger] self.states@[i] is Pending
        &&& self.running == count_running(self.states@)
        &&& self.running <= self.cap
    }

    /// A batch of `count` items, none started, of which at most `cap` run at
    /// once.
    pub fn new(count: usize, cap: usize) -> (r: Batch)
        requires
            cap >= 1,
        ensures
            r.wf(),
            r.spec_cap() == cap,
            r@ == Seq::new(count as nat, |i: int| TaskState::Pending),
    {
        let mut states: Vec<TaskState> = Vec::new();
        let mut i: usize = 0;
        while i < count
            invariant
                i <= count,
                states@ == Seq::new(i as nat, |j: int| TaskState::Pending),
            decreases count - i,
        {
            states.push(TaskState::Pending);
            i = i + 1;
        }
        let r = Batch { cap, next: 0, running: 0, states };
        proof {
            lemma_none_running_pending(r.states@);
        }
        r
    }

    /// Number of items in the batch.
    pub fn len(&self) -> (r: usize)
        ensures
            r == self@.len(),
    {
        self.states.len()
    }

    /// Where item `index` stands.
    pub fn state(&self, index: usize) -> (r: TaskState)
        requires
            index < self@.len(),
        ensures
            r == self@[index as int],
    {
        self.states[index]
    }

    /// Starts the first item not started yet, if a slot is free, and returns
    /// its index; else changes nothing and returns `None`.
    pub fn start_next(&mut self) -> (r: Option<usize>)
        requires
            old(self).wf(),
        ensures
            final(self).wf(),
            final(self).spec_cap() == old(self).spec_cap(),
            r is Some <==> count_running(old(self)@) < old(self).spec_cap() && exists|i: int|
                is_first_pending(old(self)@, i),
            r matches Some(i) ==> is_first_pending(old(self)@, i as int) && final(self)@ == old(
                self,
            )@.update(i as int, TaskState::Running),
            r is None ==> final(self)@ == old(self)@,
    {
        if self.running < self.cap && self.next < self.states.len() {
            let i = self.next;
            assert(is_first_pending(self.states@, i as int));
            proof {
                lemma_count_running_update(self.states@, i as int, TaskState::Running);
            }
            self.states.set(i, TaskState::Running);
            self.next = i + 1;
            self.running = self.running + 1;
            Some(i)
        } else {
            proof {
                if self.next < self.states@.len() {
                } else {
                    assert forall|i: int| !is_first_pending(self.states@, i) by {
                        if 0 <= i < self.states@.len() {
                            assert(!(self.states@[i] is Pending));
                        }
                    }
                }
            }
            None
        }
    }

    /// Records that item `index` finished with `outcome`. Returns false, and
    /// changes nothing, when that item is not running.
    pub fn finish(&mut self, index: usize, outcome: ItemOutcome) -> (r: bool)
        requires
            old(self).wf(),
        ensures
            final(self).wf(),
            final(self).spec_cap() == old(self).spec_cap(),
            r == (index < old(self)@.len() && old(self)@[index as int] is Running),
            r ==> final(self)@ == old(self)@.update(index as int, TaskState::Finished(outcome)),
            !r ==> final(self)@ == old(self)@,
    {
        if index < self.states.len() && self.states[index] == TaskState::Running {
            proof {
                lemma_count_running_update(self.states@, index as int, TaskState::Finished(outcome));
                lemma_some_running(self.states@, index as int);
            }
            self.states.set(index, TaskState::Finished(outcome));
            self.running = self.running - 1;
            true
        } else {
            false
        }
    }

    /// Whether every item has finished.
    pub fn is_done(&self) -> (r: bool)
        requires
            self.wf(),
        ensures
            r == all_finished(self@),
    {
        proof {
            if self.running == 0 {
                lemma_none_running(self.states@);
            }
            if all_finished(self.states@) {
                if self.next < self.states@.len() {
                    assert(self.states@[self.next as int] is Finished);
                }
                if self.running > 0 {
                    lemma_running_witness(self.states@);
                }
            }
        }
        self.running == 0 && self.next == self.states.len()
    }

    /// Number of items that finished with `outcome`.
    pub fn count_outcome(&self, outcome: ItemOutcome) -> (r: usize)
        ensures
            r == count_finished(self@, outcome),
    {
        let mut n: usize = 0;
        let mut i: usize = 0;
        while i < self.states.len()
            invariant
                i <= self@.len(),
                n <= i,
                n == count_finished(self@.subrange(0, i as int), outcome),
            decreases self@.len() - i,
        {
            proof {
                let s = self@.subrange(0, i + 1);
                assert(s.drop_last() == self@.subrange(0, i as int));
                assert(s.last() == self@[i as int]);
            }
            if self.states[i] == TaskState::Finished(outcome) {
                n = n + 1;
            }
            i = i + 1;
        }
        assert(self@.subrange(0, i as int) == self@);
        n
    }

    /// At no time do more items run than the cap allows.
    pub proof fn lemma_running_within_cap(&self)
        requires
            self.wf(),
        ensures
            count_running(self@) <= self.spec_cap(),
            self.spec_cap() >= 1,
    {
    }
}

proof fn lemma_none_running_pending(s: Seq<TaskState>)
    requires
        forall|i: int| 0 <= i < s.len() ==> #[trigger] s[i] is Pending,
    ensures
        count_running(s) == 0,
    decreases s.len(),
{
    if s.len() > 0 {
        lemma_none_running_pending(s.drop_last());
    }
}

proof fn lemma_running_witness(s: Seq<TaskState>)
    requires
        count_running(s) > 0,
    ensures
        exists|i: int| 0 <= i < s.len() && #[trigger] s[i] is Running,
    decreases s.len(),
{
    if !(s.last() is Running) {
        lemma_running_witness(s.drop_last());
        let i = choose|i: int| 0 <= i < s.drop_last().len() && #[trigger] s.drop_last()[i] is Running;
        assert(s[i] is Running);
    } else {
        assert(s[s.len() - 1] is Running);
    }
}

} // verus!
