//! What is computed from collected results, and the single-threaded loop the pipeline can be
//! checked against.
use vstd::prelude::*;

use crate::index::IndexHandle;
use crate::pipeline::{
    answers_each_once, outcomes_from, submitted, AlignError, ResultItem, WorkItem,
};

verus! {

broadcast use vstd::multiset::group_multiset_axioms, vstd::seq_lib::group_to_multiset_ensures;

/// The number of mappings one result carries; a failed record carries none.
pub open spec fn mapping_count<M>(r: ResultItem<M>) -> nat {
    match r.outcome {
        Ok(v) => v@.len(),
        Err(_) => 0,
    }
}

/// The number of mappings over all results.
pub open spec fn total_mappings_spec<M>(rs: Seq<ResultItem<M>>) -> nat
    decreases rs.len(),
{
    if rs.len() == 0 {
        0
    } else {
        total_mappings_spec(rs.drop_last()) + mapping_count(rs.last())
    }
}

proof fn lemma_total_prefix<M>(rs: Seq<ResultItem<M>>, i: int)
    requires
        0 <= i < rs.len(),
    ensures
        total_mappings_spec(rs.take(i + 1)) == total_mappings_spec(rs.take(i)) + mapping_count(rs[i]),
        total_mappings_spec(rs.take(i + 1)) <= total_mappings_spec(rs),
    decreases rs.len(),
{
    assert(rs.take(i + 1).drop_last() =~= rs.take(i));
    if i + 1 < rs.len() {
        lemma_total_prefix(rs.drop_last(), i);
        assert(rs.drop_last().take(i + 1) =~= rs.take(i + 1));
    } else {
        assert(rs.take(i + 1) =~= rs);
    }
}

proof fn lemma_total_remove<M>(rs: Seq<ResultItem<M>>, j: int)
    requires
        0 <= j < rs.len(),
    ensures
        total_mappings_spec(rs) == total_mappings_spec(rs.remove(j)) + mapping_count(rs[j]),
    decreases rs.len(),
{
    if j == rs.len() - 1 {
        assert(rs.remove(j) =~= rs.drop_last());
    } else {
        lemma_total_remove(rs.drop_last(), j);
        assert(rs.remove(j).drop_last() =~= rs.drop_last().remove(j));
        assert(rs.remove(j).last() == rs.last());
    }
}

/// Aggregation does not depend on arrival order: results that arrive in any permutation of
/// one another give the same total number of mappings.
pub proof fn lemma_total_order_independent<M>(a: Seq<ResultItem<M>>, b: Seq<ResultItem<M>>)
    requires
        a.to_multiset() == b.to_multiset(),
    ensures
        total_mappings_spec(a) == total_mappings_spec(b),
    decreases a.len(),
{
    if a.len() == 0 {
        assert(b.to_multiset().len() == 0);
        assert(b.len() == 0);
    } else {
        let x = a.last();
        assert(a =~= a.drop_last().push(x));
        assert(a.to_multiset().count(x) > 0);
        assert(b.to_multiset().count(x) > 0);
        assert(b.contains(x));
        let j = choose|j: int| 0 <= j < b.len() && b[j] == x;
        assert(b.remove(j).to_multiset() == b.to_multiset().remove(x));
        assert(a.drop_last().to_multiset() =~= a.to_multiset().remove(x));
        lemma_total_order_independent(a.drop_last(), b.remove(j));
        lemma_total_remove(b, j);
    }
}

/// Picking the elements of `s` in an order that names each position once keeps the multiset.
proof fn lemma_rearranged_multiset<A>(s: Seq<A>, order: Seq<u64>)
    requires
        s.len() <= u64::MAX,
        order.to_multiset() =~= submitted(s.len()),
    ensures
        order.map_values(|t: u64| s[t as int]).to_multiset() =~= s.to_multiset(),
    decreases s.len(),
{
    let n = s.len();
    let picked = order.map_values(|t: u64| s[t as int]);
    if n == 0 {
        assert(order.len() == 0) by {
            assert(order.to_multiset().len() == 0);
        }
        assert(picked.len() == 0);
    } else {
        let last = (n - 1) as u64;
        assert(order.to_multiset().count(last) > 0);
        assert(order.contains(last));
        let j = choose|j: int| 0 <= j < order.len() && order[j] == last;
        let rest = order.remove(j);
        assert(rest.to_multiset() =~= submitted((n - 1) as nat));
        let shorter = s.drop_last();
        lemma_rearranged_multiset(shorter, rest);
        assert forall|k: int| 0 <= k < rest.len() implies (rest[k] as int) < n - 1 by {
            assert(rest.to_multiset().count(rest[k]) > 0);
            lemma_submitted_count_le((n - 1) as nat, rest[k]);
        }
        let picked_rest = rest.map_values(|t: u64| shorter[t as int]);
        assert(picked.remove(j) =~= picked_rest);
        assert(picked[j] == s[n - 1]);
        assert(s =~= shorter.push(s[n - 1]));
        assert(picked.remove(j).to_multiset() =~= picked.to_multiset().remove(s[n - 1]));
    }
}

proof fn lemma_submitted_count_le(k: nat, x: u64)
    requires
        submitted(k).count(x) > 0,
    ensures
        (x as nat) < k,
    decreases k,
{
    if k > 0 && x != (k - 1) as u64 {
        lemma_submitted_count_le((k - 1) as nat, x);
    }
}

proof fn lemma_total_pointwise<M>(a: Seq<ResultItem<M>>, b: Seq<ResultItem<M>>)
    requires
        a.len() == b.len(),
        forall|k: int| 0 <= k < a.len() ==> mapping_count(#[trigger] a[k]) == mapping_count(b[k]),
    ensures
        total_mappings_spec(a) == total_mappings_spec(b),
    decreases a.len(),
{
    if a.len() > 0 {
        lemma_total_pointwise(a.drop_last(), b.drop_last());
    }
}

/// With an alignment call that gives one outcome per record and index, the pipeline's results
/// hold as many mappings in total as a single-threaded loop over the same records.
pub proof fn lemma_same_total_as_sequential<R, M, F: Fn(&R, &WorkItem) -> Result<Vec<M>, AlignError>>(
    results: Seq<ResultItem<M>>,
    order: Seq<u64>,
    sequential: Seq<ResultItem<M>>,
    records: Seq<WorkItem>,
    aligner: F,
    index: R,
)
    requires
        answers_each_once(results, records, order),
        outcomes_from(results, records, order, aligner, index),
        sequential.len() == records.len(),
        forall|k: int|
            0 <= k < sequential.len() ==> call_ensures(aligner, (&index, &records[k]), #[trigger] sequential[k].outcome),
        forall|x: &R, w: &WorkItem, o1: Result<Vec<M>, AlignError>, o2: Result<Vec<M>, AlignError>|
            #[trigger] call_ensures(aligner, (x, w), o1) && #[trigger] call_ensures(aligner, (x, w), o2) ==> o1 == o2,
        records.len() <= u64::MAX,
    ensures
        total_mappings_spec(results) == total_mappings_spec(sequential),
{
    let picked = order.map_values(|t: u64| sequential[t as int]);
    lemma_rearranged_multiset(sequential, order);
    lemma_total_order_independent(picked, sequential);
    assert forall|k: int| 0 <= k < results.len() implies mapping_count(#[trigger] results[k])
        == mapping_count(picked[k]) by {
        let t = order[k] as int;
        assert(call_ensures(aligner, (&index, &records[t]), results[k].outcome));
        assert(call_ensures(aligner, (&index, &records[t]), sequential[t].outcome));
    }
    lemma_total_pointwise(results, picked);
}

/// The identifiers among the results are those of the records, each as often as it is
/// submitted: none is lost, none is duplicated, none is made up.
pub proof fn lemma_identifiers_preserved<M>(results: Seq<ResultItem<M>>, records: Seq<WorkItem>, order: Seq<u64>)
    requires
        answers_each_once(results, records, order),
        records.len() <= u64::MAX,
    ensures
        results.map_values(|r: ResultItem<M>| r.identifier@).to_multiset() =~= records.map_values(
            |w: WorkItem| w.identifier@,
        ).to_multiset(),
{
    let ids = records.map_values(|w: WorkItem| w.identifier@);
    lemma_rearranged_multiset(ids, order);
    assert(order.map_values(|t: u64| ids[t as int]) =~= results.map_values(
        |r: ResultItem<M>| r.identifier@,
    ));
}

/// The outcome an alignment call that gives one outcome per input returns for `w` on `index`.
pub open spec fn outcome_of<R, M, F: Fn(&R, &WorkItem) -> Result<Vec<M>, AlignError>>(
    aligner: F,
    index: R,
    w: WorkItem,
) -> Result<Vec<M>, AlignError> {
    choose|o: Result<Vec<M>, AlignError>| call_ensures(aligner, (&index, &w), o)
}

/// One result per record, in record order, each with the outcome of the alignment call.
pub open spec fn aligned_reference<R, M, F: Fn(&R, &WorkItem) -> Result<Vec<M>, AlignError>>(
    records: Seq<WorkItem>,
    aligner: F,
    index: R,
) -> Seq<ResultItem<M>> {
    records.map_values(
        |w: WorkItem| ResultItem { identifier: w.identifier, outcome: outcome_of(aligner, index, w) },
    )
}

/// The results of a run, for an alignment call that gives one outcome per input, hold as many
/// mappings as the calls on the records one by one: the total is the sum over the records of
/// their number of mappings, whatever order the results arrived in.
pub proof fn lemma_total_is_sum_over_records<R, M, F: Fn(&R, &WorkItem) -> Result<Vec<M>, AlignError>>(
    results: Seq<ResultItem<M>>,
    order: Seq<u64>,
    records: Seq<WorkItem>,
    aligner: F,
    index: R,
)
    requires
        answers_each_once(results, records, order),
        outcomes_from(results, records, order, aligner, index),
        forall|x: &R, w: &WorkItem, o1: Result<Vec<M>, AlignError>, o2: Result<Vec<M>, AlignError>|
            #[trigger] call_ensures(aligner, (x, w), o1) && #[trigger] call_ensures(aligner, (x, w), o2) ==> o1 == o2,
        records.len() <= u64::MAX,
    ensures
        total_mappings_spec(results) == total_mappings_spec(aligned_reference(records, aligner, index)),
{
    let reference = aligned_reference(records, aligner, index);
    assert forall|k: int| 0 <= k < reference.len() implies call_ensures(
        aligner,
        (&index, &records[k]),
        #[trigger] reference[k].outcome,
    ) by {
        let t = k as u64;
        lemma_submitted_count_positive(records.len(), t);
        assert(order.to_multiset().count(t) > 0);
        assert(order.contains(t));
        let j = choose|j: int| 0 <= j < order.len() && order[j] == t;
        assert(call_ensures(aligner, (&index, &records[order[j] as int]), results[j].outcome));
    }
    lemma_same_total_as_sequential(results, order, reference, records, aligner, index);
}

proof fn lemma_submitted_count_positive(k: nat, x: u64)
    requires
        (x as nat) < k,
    ensures
        submitted(k).count(x) > 0,
    decreases k,
{
    if x != (k - 1) as u64 {
        lemma_submitted_count_positive((k - 1) as nat, x);
    }
}

/// With an alignment call that gives one outcome per input, a run and the single-threaded loop
/// produce the same outcomes, hence the same mappings; only their order may differ.
pub proof fn lemma_same_outcomes_as_sequential<R, M, F: Fn(&R, &WorkItem) -> Result<Vec<M>, AlignError>>(
    results: Seq<ResultItem<M>>,
    order: Seq<u64>,
    sequential: Seq<ResultItem<M>>,
    records: Seq<WorkItem>,
    aligner: F,
    index: R,
)
    requires
        answers_each_once(results, records, order),
        outcomes_from(results, records, order, aligner, index),
        sequential.len() == records.len(),
        forall|k: int|
            0 <= k < sequential.len() ==> call_ensures(aligner, (&index, &records[k]), #[trigger] sequential[k].outcome),
        forall|x: &R, w: &WorkItem, o1: Result<Vec<M>, AlignError>, o2: Result<Vec<M>, AlignError>|
            #[trigger] call_ensures(aligner, (x, w), o1) && #[trigger] call_ensures(aligner, (x, w), o2) ==> o1 == o2,
        records.len() <= u64::MAX,
    ensures
        results.map_values(|r: ResultItem<M>| r.outcome).to_multiset() =~= sequential.map_values(
            |r: ResultItem<M>| r.outcome,
        ).to_multiset(),
{
    let outs = sequential.map_values(|r: ResultItem<M>| r.outcome);
    lemma_rearranged_multiset(outs, order);
    assert forall|k: int| 0 <= k < results.len() implies #[trigger] results[k].outcome
        == outs[order[k] as int] by {
        let t = order[k] as int;
        assert(call_ensures(aligner, (&index, &records[t]), results[k].outcome));
        assert(call_ensures(aligner, (&index, &records[t]), sequential[t].outcome));
    }
    assert(order.map_values(|t: u64| outs[t as int]) =~= results.map_values(
        |r: ResultItem<M>| r.outcome,
    ));
}

/// The total number of mappings over `results`.
pub fn total_mappings<M>(results: &Vec<ResultItem<M>>) -> (t: u64)
    requires
        total_mappings_spec(results@) <= u64::MAX,
    ensures
        t == total_mappings_spec(results@),
{
    let mut t: u64 = 0;
    let mut i: usize = 0;
    while i < results.len()
        invariant
            i <= results@.len(),
            t == total_mappings_spec(results@.take(i as int)),
            total_mappings_spec(results@) <= u64::MAX,
        decreases results@.len() - i,
    {
        proof {
            lemma_total_prefix(results@, i as int);
        }
        let n = match &results[i].outcome {
            Ok(v) => v.len() as u64,
            Err(_) => 0,
        };
        t = t + n;
        i = i + 1;
    }
    proof {
        assert(results@.take(i as int) =~= results@);
    }
    t
}

/// Aligns the records one after another on the calling thread, in order.
pub fn align_sequentially<R, M, F: Fn(&R, &WorkItem) -> Result<Vec<M>, AlignError>>(
    records: &Vec<WorkItem>,
    index: &IndexHandle<R>,
    aligner: F,
) -> (results: Vec<ResultItem<M>>)
    requires
        forall|x: &R, w: &WorkItem| call_requires(aligner, (x, w)),
    ensures
        results@.len() == records@.len(),
        forall|k: int|
            0 <= k < results@.len() ==> (#[trigger] results@[k]).identifier@ == records@[k].identifier@
                && call_ensures(aligner, (&index@, &records@[k]), results@[k].outcome),
{
    let mut results: Vec<ResultItem<M>> = Vec::new();
    let mut i: usize = 0;
    while i < records.len()
        invariant
            i <= records@.len(),
            results@.len() == i,
            forall|x: &R, w: &WorkItem| call_requires(aligner, (x, w)),
            forall|k: int|
                0 <= k < i ==> (#[trigger] results@[k]).identifier@ == records@[k].identifier@
                    && call_ensures(aligner, (&index@, &records@[k]), results@[k].outcome),
        decreases records@.len() - i,
    {
        let outcome = aligner(index.get(), &records[i]);
        let identifier = records[i].identifier.clone();
        proof {
            assert(identifier@ =~= records@[i as int].identifier@);
        }
        results.push(ResultItem { identifier, outcome });
        i = i + 1;
    }
    results
}

} // verus!
