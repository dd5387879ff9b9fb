//! The schedule of a step-ordered pipeline: each worker carries one batch through `n_steps`
//! steps in turn, and a worker may run its next step only when no worker holding an earlier
//! batch is at the same step or behind it. Batches thus pass each step in batch order.
use vstd::prelude::*;

verus! {

/// One worker's position: the step it runs next (`n_steps` once it is finished) and the
/// number of the batch it carries.
#[derive(Debug, Clone, Copy, PartialEq, Eq, Structural)]
pub struct StepSlot {
    pub step: usize,
    pub batch: u64,
}

/// `a` holds an earlier batch at the same step as `b` or behind it.
pub open spec fn holds_back(a: StepSlot, b: StepSlot) -> bool {
    a.step <= b.step && a.batch < b.batch
}

pub open spec fn may_proceed(slots: Seq<StepSlot>, me: int) -> bool {
    forall|j: int| 0 <= j < slots.len() && j != me ==> !holds_back(#[trigger] slots[j], slots[me])
}

/// The position after a step: a step that produced something (or the last step) moves on,
/// wrapping to step 0 with a new batch; a step that produced nothing finishes the worker.
pub open spec fn advanced(slot: StepSlot, n_steps: usize, produced: bool, fresh: u64) -> StepSlot {
    let step = if slot.step + 1 == n_steps || produced {
        ((slot.step + 1) % (n_steps as int)) as usize
    } else {
        n_steps
    };
    StepSlot { step, batch: if step == 0 { fresh } else { slot.batch } }
}

/// The positions of all workers and the number the next batch will get.
pub struct StepSchedule {
    slots: Vec<StepSlot>,
    n_steps: usize,
    next_batch: u64,
}

impl StepSchedule {
    pub closed spec fn slots_spec(&self) -> Seq<StepSlot> {
        self.slots@
    }

    pub closed spec fn n_steps_spec(&self) -> usize {
        self.n_steps
    }

    pub closed spec fn next_batch_spec(&self) -> u64 {
        self.next_batch
    }

    /// Batch numbers are distinct and below the next one handed out; steps never pass the end.
    pub closed spec fn wf(&self) -> bool {
        &&& self.n_steps > 0
        &&& forall|j: int| 0 <= j < self.slots@.len() ==> (#[trigger] self.slots@[j]).batch < self.next_batch
        &&& forall|j: int| 0 <= j < self.slots@.len() ==> (#[trigger] self.slots@[j]).step <= self.n_steps
        &&& forall|i: int, j: int|
            0 <= i < self.slots@.len() && 0 <= j < self.slots@.len() && i != j ==> (#[trigger] self.slots@[i]).batch
                != (#[trigger] self.slots@[j]).batch
    }

    /// Worker `i` starts at step 0 with batch `i`.
    pub fn new(n_workers: usize, n_steps: usize) -> (s: Self)
        requires
            n_steps > 0,
        ensures
            s.wf(),
            s.slots_spec().len() == n_workers,
            s.n_steps_spec() == n_steps,
            s.next_batch_spec() == n_workers,
            forall|i: int| 0 <= i < n_workers ==> #[trigger] s.slots_spec()[i] == (StepSlot { step: 0, batch: i as u64 }),
    {
        let mut slots: Vec<StepSlot> = Vec::new();
        let mut i: usize = 0;
        while i < n_workers
            invariant
                i <= n_workers,
                slots@.len() == i,
                forall|j: int| 0 <= j < i ==> #[trigger] slots@[j] == (StepSlot { step: 0, batch: j as u64 }),
            decreases n_workers - i,
        {
            slots.push(StepSlot { step: 0, batch: i as u64 });
            i = i + 1;
        }
        StepSchedule { slots, n_steps, next_batch: n_workers as u64 }
    }

    pub fn slot(&self, me: usize) -> (r: StepSlot)
        requires
            me < self.slots_spec().len(),
        ensures
            r == self.slots_spec()[me as int],
    {
        self.slots[me]
    }

    /// The number the next batch will get.
    pub fn next_batch(&self) -> (r: u64)
        ensures
            r == self.next_batch_spec(),
    {
        self.next_batch
    }

    /// Whether worker `me`'s next step takes what its previous step produced. Step 0 starts a
    /// new batch from nothing; any later step continues the batch the worker carries, which
    /// `finish_step` moved on by exactly one step.
    pub fn takes_carried(&self, me: usize) -> (r: bool)
        requires
            me < self.slots_spec().len(),
        ensures
            r == (self.slots_spec()[me as int].step != 0),
    {
        self.slots[me].step != 0
    }

    /// Worker `me` may run its next step: no other worker holds an earlier batch at the same
    /// step or behind it.
    pub fn can_proceed(&self, me: usize) -> (r: bool)
        requires
            me < self.slots_spec().len(),
        ensures
            r == may_proceed(self.slots_spec(), me as int),
    {
        let mine = self.slots[me];
        let mut j: usize = 0;
        while j < self.slots.len()
            invariant
                me < self.slots@.len(),
                mine == self.slots@[me as int],
                j <= self.slots@.len(),
                forall|k: int| 0 <= k < j && k != me ==> !holds_back(#[trigger] self.slots@[k], mine),
            decreases self.slots@.len() - j,
        {
            let other = self.slots[j];
            if j != me && other.step <= mine.step && other.batch < mine.batch {
                return false;
            }
            j = j + 1;
        }
        true
    }

    /// Records that worker `me` ran its step, and whether that step produced something.
    /// Returns whether the worker is finished.
    pub fn finish_step(&mut self, me: usize, produced: bool) -> (finished: bool)
        requires
            old(self).wf(),
            me < old(self).slots_spec().len(),
            old(self).slots_spec()[me as int].step < old(self).n_steps_spec(),
            old(self).next_batch_spec() < u64::MAX,
        ensures
            final(self).wf(),
            final(self).n_steps_spec() == old(self).n_steps_spec(),
            final(self).slots_spec() == old(self).slots_spec().update(
                me as int,
                advanced(
                    old(self).slots_spec()[me as int],
                    old(self).n_steps_spec(),
                    produced,
                    old(self).next_batch_spec(),
                ),
            ),
            final(self).next_batch_spec() == old(self).next_batch_spec() + (if final(self).slots_spec()[me as int].step == 0 {
                1int
            } else {
                0int
            }),
            finished == (final(self).slots_spec()[me as int].step >= final(self).n_steps_spec()),
    {
        let slot = self.slots[me];
        let step = if slot.step + 1 == self.n_steps || produced {
            (slot.step + 1) % self.n_steps
        } else {
            self.n_steps
        };
        let batch = if step == 0 {
            let b = self.next_batch;
            self.next_batch = self.next_batch + 1;
            b
        } else {
            slot.batch
        };
        let ghost before = self.slots@;
        self.slots.set(me, StepSlot { step, batch });
        proof {
            assert forall|i: int, j: int|
                0 <= i < self.slots@.len() && 0 <= j < self.slots@.len() && i != j implies (#[trigger] self.slots@[i]).batch
                    != (#[trigger] self.slots@[j]).batch by {
                if i != me && j != me {
                    assert(self.slots@[i] == before[i]);
                    assert(self.slots@[j] == before[j]);
                } else if i == me {
                    assert(self.slots@[j] == before[j]);
                } else {
                    assert(self.slots@[i] == before[i]);
                }
            }
        }
        step >= self.n_steps
    }
}

/// The schedule never deadlocks: while some worker is unfinished, the unfinished worker with
/// the earliest batch may run its next step.
pub proof fn lemma_some_worker_may_proceed(s: &StepSchedule, w: int)
    requires
        s.wf(),
        0 <= w < s.slots_spec().len(),
        s.slots_spec()[w].step < s.n_steps_spec(),
    ensures
        exists|me: int|
            0 <= me < s.slots_spec().len() && s.slots_spec()[me].step < s.n_steps_spec()
                && #[trigger] may_proceed(s.slots_spec(), me),
    decreases s.slots_spec()[w].batch,
{
    let slots = s.slots_spec();
    if may_proceed(slots, w) {
        assert(may_proceed(slots, w));
    } else {
        let j = choose|j: int| 0 <= j < slots.len() && j != w && holds_back(#[trigger] slots[j], slots[w]);
        lemma_some_worker_may_proceed(s, j);
    }
}

} // verus!
