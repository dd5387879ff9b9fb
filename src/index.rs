//! The shared, read-only index: a reference-counted handle, the checks made on an index
//! source before it is built, and the counting discipline that destroys the index once.
use vstd::prelude::*;

use std::sync::Arc;

verus! {

/// Relies on `Arc::clone`: another pointer to the same allocation.
#[verifier::external_body]
fn arc_clone<R>(a: &Arc<R>) -> (r: Arc<R>)
    ensures
        r == *a,
{
    Arc::clone(a)
}

/// A handle to the index. Clones share one allocation; the index is dropped, exactly once,
/// when the last handle goes, whichever thread drops it.
pub struct IndexHandle<R> {
    shared: Arc<R>,
}

impl<R> View for IndexHandle<R> {
    type V = R;

    closed spec fn view(&self) -> R {
        *self.shared
    }
}

impl<R> IndexHandle<R> {
    /// Takes ownership of a built index.
    pub fn build(index: R) -> (h: Self)
        ensures
            h@ == index,
    {
        IndexHandle { shared: Arc::new(index) }
    }

    /// Checks `source`, then builds the index from it with `build_index`: a refused source
    /// fails before the builder is called, and the builder's own failure is passed on.
    pub fn from_source<B: FnOnce(&IndexSource) -> Result<R, BuildError>>(
        source: &IndexSource,
        build_index: B,
    ) -> (r: Result<Self, BuildError>)
        requires
            call_requires(build_index, (source,)),
        ensures
            source_check(*source) is Err ==> r is Err && r->Err_0 == source_check(*source)->Err_0,
            source_check(*source) is Ok ==> exists|built: Result<R, BuildError>|
                #[trigger] call_ensures(build_index, (source,), built) && (built is Ok <==> r is Ok)
                    && (built is Ok ==> r->Ok_0@ == built->Ok_0) && (built is Err ==> r->Err_0
                    == built->Err_0),
    {
        match check_index_source(source) {
            Err(e) => Err(e),
            Ok(()) => {
                let built = build_index(source);
                match built {
                    Ok(index) => Ok(IndexHandle::build(index)),
                    Err(e) => Err(e),
                }
            },
        }
    }

    /// Another handle to the same index: constant time, never fails.
    pub fn share(&self) -> (h: Self)
        ensures
            h@ == self@,
    {
        IndexHandle { shared: arc_clone(&self.shared) }
    }

    /// Read access to the index; it is never mutated once built.
    pub fn get(&self) -> (r: &R)
        ensures
            *r == self@,
    {
        &*self.shared
    }
}

/// Why an index source was refused before any index was built.
#[derive(Debug, Clone, Copy, PartialEq, Eq, Structural)]
pub enum BuildError {
    /// The path cannot be handed to the index reader (it holds a NUL byte).
    InvalidPath,
    /// No file exists at the path.
    Missing,
    /// The file exists but is empty.
    Empty,
    /// The path to save the index to cannot be handed to the index writer.
    InvalidOutput,
}

/// What is known about an index source before it is read.
pub struct IndexSource {
    pub path: Vec<u8>,
    pub exists: bool,
    pub byte_len: u64,
    pub output: Option<Vec<u8>>,
}

pub open spec fn holds_nul(s: Seq<u8>) -> bool {
    exists|i: int| 0 <= i < s.len() && s[i] == 0
}

fn find_nul(s: &Vec<u8>) -> (r: bool)
    ensures
        r == holds_nul(s@),
{
    let mut i: usize = 0;
    while i < s.len()
        invariant
            i <= s@.len(),
            forall|j: int| 0 <= j < i ==> s@[j] != 0,
        decreases s@.len() - i,
    {
        if s[i] == 0 {
            return true;
        }
        i = i + 1;
    }
    false
}

/// The checks made, in this order, before an index is built from `source`.
pub open spec fn source_check(source: IndexSource) -> Result<(), BuildError> {
    if holds_nul(source.path@) {
        Err(BuildError::InvalidPath)
    } else if !source.exists {
        Err(BuildError::Missing)
    } else if source.byte_len == 0 {
        Err(BuildError::Empty)
    } else if source.output is Some && holds_nul(source.output->0@) {
        Err(BuildError::InvalidOutput)
    } else {
        Ok(())
    }
}

/// Refuses a source whose path is unusable, missing or empty, or whose output path is
/// unusable; any other source goes on to be built.
pub fn check_index_source(source: &IndexSource) -> (r: Result<(), BuildError>)
    ensures
        r == source_check(*source),
{
    if find_nul(&source.path) {
        return Err(BuildError::InvalidPath);
    }
    if !source.exists {
        return Err(BuildError::Missing);
    }
    if source.byte_len == 0 {
        return Err(BuildError::Empty);
    }
    match &source.output {
        Some(out) => {
            if find_nul(out) {
                return Err(BuildError::InvalidOutput);
            }
        },
        None => {},
    }
    Ok(())
}

/// One operation on the count of live handles.
#[derive(Debug, Clone, Copy, PartialEq, Eq, Structural)]
pub enum HandleOp {
    /// A live handle is cloned.
    Acquire,
    /// A live handle is dropped.
    Release,
}

/// Live handles and destructions after one operation. A release is one atomic
/// decrement-and-test: the release that takes the count from one to zero destroys.
pub open spec fn handle_step(live: nat, destroyed: nat, op: HandleOp) -> (nat, nat) {
    match op {
        HandleOp::Acquire => (live + 1, destroyed),
        HandleOp::Release => if live == 1 {
            (0, destroyed + 1)
        } else {
            ((live - 1) as nat, destroyed)
        },
    }
}

/// Live handles and destructions after a sequence of operations.
pub open spec fn handle_run(live: nat, destroyed: nat, ops: Seq<HandleOp>) -> (nat, nat)
    decreases ops.len(),
{
    if ops.len() == 0 {
        (live, destroyed)
    } else {
        let (l, d) = handle_step(live, destroyed, ops[0]);
        handle_run(l, d, ops.drop_first())
    }
}

/// Every operation acts on a live handle: nothing is cloned or dropped once the count is zero.
pub open spec fn ops_valid(live: nat, ops: Seq<HandleOp>) -> bool
    decreases ops.len(),
{
    if ops.len() == 0 {
        true
    } else {
        live > 0 && ops_valid(handle_step(live, 0, ops[0]).0, ops.drop_first())
    }
}

pub open spec fn count_op(ops: Seq<HandleOp>, op: HandleOp) -> nat
    decreases ops.len(),
{
    if ops.len() == 0 {
        0
    } else {
        (if ops[0] == op {
            1nat
        } else {
            0nat
        }) + count_op(ops.drop_first(), op)
    }
}

proof fn lemma_handle_run(live: nat, destroyed: nat, ops: Seq<HandleOp>)
    requires
        live > 0,
        ops_valid(live, ops),
    ensures
        live + count_op(ops, HandleOp::Acquire) >= count_op(ops, HandleOp::Release),
        handle_run(live, destroyed, ops).0 == live + count_op(ops, HandleOp::Acquire) - count_op(
            ops,
            HandleOp::Release,
        ),
        handle_run(live, destroyed, ops).1 == destroyed + (if live + count_op(ops, HandleOp::Acquire)
            == count_op(ops, HandleOp::Release) {
            1nat
        } else {
            0nat
        }),
    decreases ops.len(),
{
    if ops.len() > 0 {
        let (l, d) = handle_step(live, destroyed, ops[0]);
        let rest = ops.drop_first();
        assert(handle_step(live, 0, ops[0]).0 == l);
        assert(ops_valid(l, rest));
        assert(handle_run(live, destroyed, ops) == handle_run(l, d, rest));
        assert(count_op(ops, HandleOp::Acquire) == (if ops[0] == HandleOp::Acquire {
            1nat
        } else {
            0nat
        }) + count_op(rest, HandleOp::Acquire));
        assert(count_op(ops, HandleOp::Release) == (if ops[0] == HandleOp::Release {
            1nat
        } else {
            0nat
        }) + count_op(rest, HandleOp::Release));
        if l > 0 {
            lemma_handle_run(l, d, rest);
        } else {
            assert(rest.len() == 0) by {
                if rest.len() > 0 {
                    assert(!ops_valid(l, rest));
                }
            }
            assert(count_op(rest, HandleOp::Acquire) == 0);
            assert(count_op(rest, HandleOp::Release) == 0);
            assert(handle_run(l, d, rest) == (l, d));
        }
    }
}

/// Building one index and cloning its handle `k` times, then dropping all `k + 1` handles, in
/// any order and interleaved with the clones in any way that only clones and drops live
/// handles, destroys the index exactly once, at the last drop.
pub proof fn lemma_destroyed_exactly_once(ops: Seq<HandleOp>)
    requires
        ops_valid(1, ops),
        count_op(ops, HandleOp::Release) == count_op(ops, HandleOp::Acquire) + 1,
    ensures
        handle_run(1, 0, ops) == (0nat, 1nat),
        forall|i: int| 0 <= i < ops.len() ==> #[trigger] handle_run(1, 0, ops.take(i)).1 == 0,
{
    lemma_handle_run(1, 0, ops);
    assert forall|i: int| 0 <= i < ops.len() implies #[trigger] handle_run(1, 0, ops.take(i)).1
        == 0 by {
        lemma_prefix_valid(1, ops, i);
        lemma_handle_run(1, 0, ops.take(i));
        lemma_prefix_counts(ops, i);
        lemma_live_before_end(ops, i);
    }
}

proof fn lemma_prefix_valid(live: nat, ops: Seq<HandleOp>, i: int)
    requires
        ops_valid(live, ops),
        0 <= i <= ops.len(),
    ensures
        ops_valid(live, ops.take(i)),
    decreases ops.len(),
{
    if i > 0 {
        let l = handle_step(live, 0, ops[0]).0;
        lemma_prefix_valid(l, ops.drop_first(), i - 1);
        assert(ops.take(i).drop_first() =~= ops.drop_first().take(i - 1));
    }
}

proof fn lemma_prefix_counts(ops: Seq<HandleOp>, i: int)
    requires
        0 <= i <= ops.len(),
    ensures
        count_op(ops, HandleOp::Acquire) == count_op(ops.take(i), HandleOp::Acquire) + count_op(
            ops.skip(i),
            HandleOp::Acquire,
        ),
        count_op(ops, HandleOp::Release) == count_op(ops.take(i), HandleOp::Release) + count_op(
            ops.skip(i),
            HandleOp::Release,
        ),
    decreases ops.len(),
{
    if i > 0 {
        lemma_prefix_counts(ops.drop_first(), i - 1);
        assert(ops.take(i).drop_first() =~= ops.drop_first().take(i - 1));
        assert(ops.skip(i) =~= ops.drop_first().skip(i - 1));
    } else {
        assert(ops.skip(0) =~= ops);
        assert(ops.take(0).len() == 0);
    }
}

/// Before the last operation of a valid run, some handle is still live.
proof fn lemma_live_before_end(ops: Seq<HandleOp>, i: int)
    requires
        ops_valid(1, ops),
        0 <= i < ops.len(),
    ensures
        1 + count_op(ops.take(i), HandleOp::Acquire) != count_op(ops.take(i), HandleOp::Release),
{
    lemma_split_valid(1, ops, i);
    lemma_prefix_valid(1, ops, i);
    lemma_handle_run(1, 0, ops.take(i));
}

proof fn lemma_split_valid(live: nat, ops: Seq<HandleOp>, i: int)
    requires
        ops_valid(live, ops),
        0 <= i < ops.len(),
    ensures
        handle_run(live, 0, ops.take(i)).0 > 0,
    decreases ops.len(),
{
    if i > 0 {
        let l = handle_step(live, 0, ops[0]).0;
        assert(ops.take(i).drop_first() =~= ops.drop_first().take(i - 1));
        if l == 0 {
            assert(!ops_valid(l, ops.drop_first()));
        }
        lemma_split_valid(l, ops.drop_first(), i - 1);
        lemma_run_destroyed_irrelevant(l, ops.drop_first().take(i - 1), handle_step(live, 0, ops[0]).1);
    }
}

proof fn lemma_run_destroyed_irrelevant(live: nat, ops: Seq<HandleOp>, d: nat)
    ensures
        handle_run(live, d, ops).0 == handle_run(live, 0, ops).0,
    decreases ops.len(),
{
    if ops.len() > 0 {
        let (l, d1) = handle_step(live, d, ops[0]);
        let (l0, d0) = handle_step(live, 0, ops[0]);
        lemma_run_destroyed_irrelevant(l, ops.drop_first(), d1);
        lemma_run_destroyed_irrelevant(l, ops.drop_first(), d0);
    }
}

/// The count of live handles to one index and how often it was destroyed.
pub struct ShareCount {
    live: u64,
    destroyed: u64,
}

impl ShareCount {
    pub closed spec fn live_spec(&self) -> nat {
        self.live as nat
    }

    pub closed spec fn destroyed_spec(&self) -> nat {
        self.destroyed as nat
    }

    /// One handle, just built.
    pub fn new() -> (c: Self)
        ensures
            c.live_spec() == 1,
            c.destroyed_spec() == 0,
    {
        ShareCount { live: 1, destroyed: 0 }
    }

    pub fn live(&self) -> (r: u64)
        ensures
            r == self.live_spec(),
    {
        self.live
    }

    pub fn destroyed(&self) -> (r: u64)
        ensures
            r == self.destroyed_spec(),
    {
        self.destroyed
    }

    /// A live handle is cloned.
    pub fn acquire(&mut self)
        requires
            old(self).live_spec() > 0,
            old(self).live_spec() < u64::MAX,
        ensures
            (final(self).live_spec(), final(self).destroyed_spec()) == handle_step(
                old(self).live_spec(),
                old(self).destroyed_spec(),
                HandleOp::Acquire,
            ),
    {
        self.live = self.live + 1;
    }

    /// A live handle is dropped; true when this drop destroyed the index.
    pub fn release(&mut self) -> (destroyed_now: bool)
        requires
            old(self).live_spec() > 0,
            old(self).destroyed_spec() < u64::MAX,
        ensures
            (final(self).live_spec(), final(self).destroyed_spec()) == handle_step(
                old(self).live_spec(),
                old(self).destroyed_spec(),
                HandleOp::Release,
            ),
            destroyed_now == (old(self).live_spec() == 1),
    {
        self.live = self.live - 1;
        if self.live == 0 {
            self.destroyed = self.destroyed + 1;
            true
        } else {
            false
        }
    }
}

} // verus!
