//! What the updates of a checkpoint say about each object's fate.
use vstd::prelude::*;
use crate::diff::{
    diff, is_deleted, is_inserted, lists, record_ids, ProcessedObjInfo, ProcessedObjInfoView,
    UpdateView,
};
use crate::object::{ObjectId, ObjectSnapshot};
use crate::ordered_map::strictly_ascending;

verus! {

/// Whether exactly one of `records` is about the object `k`.
pub open spec fn one_record(records: Seq<ProcessedObjInfo>, k: ObjectId, at: int) -> bool {
    &&& 0 <= at < records.len()
    &&& records[at]@.object_id() == k
    &&& forall|j: int|
        0 <= j < records.len() && (#[trigger] records[j])@.object_id() == k ==> j == at
}

/// Whether none of `records` is about the object `k`.
pub open spec fn no_record(records: Seq<ProcessedObjInfo>, k: ObjectId) -> bool {
    forall|j: int| 0 <= j < records.len() ==> (#[trigger] records[j])@.object_id() != k
}

/// Two strictly ascending sequences with the same identifiers are equal.
pub proof fn lemma_ascending_same_elements(a: Seq<ObjectId>, b: Seq<ObjectId>)
    requires
        strictly_ascending(a),
        strictly_ascending(b),
        forall|k: ObjectId| a.contains(k) <==> b.contains(k),
    ensures
        a == b,
    decreases a.len(),
{
    if a.len() == 0 {
        if b.len() > 0 {
            assert(b.contains(b[0]));
            let i = a.index_of(b[0]);
        }
        assert(a =~= b);
    } else {
        let x = a.last();
        assert(a[a.len() - 1] == x);
        assert(b.contains(x));
        let i = b.index_of(x);
        let y = b.last();
        assert(b[b.len() - 1] == y);
        assert(a.contains(y));
        let j = a.index_of(y);
        if i < b.len() - 1 {
            assert(b[i].precedes(b[b.len() - 1]));
        }
        if j < a.len() - 1 {
            assert(a[j].precedes(a[a.len() - 1]));
        }
        assert(x == y);
        let a2 = a.drop_last();
        let b2 = b.drop_last();
        assert forall|k: ObjectId| a2.contains(k) <==> b2.contains(k) by {
            if a2.contains(k) {
                let p = a2.index_of(k);
                assert(a[p] == k);
                assert(a[p].precedes(a[a.len() - 1]));
                assert(b.contains(k));
                let q = b.index_of(k);
                assert(b2[q] == k);
            }
            if b2.contains(k) {
                let p = b2.index_of(k);
                assert(b[p] == k);
                assert(b[p].precedes(b[b.len() - 1]));
                assert(a.contains(k));
                let q = a.index_of(k);
                assert(a2[q] == k);
            }
        }
        assert forall|p: int, q: int| 0 <= p < q < a2.len() implies a2[p].precedes(a2[q]) by {
            assert(a[p].precedes(a[q]));
        }
        assert forall|p: int, q: int| 0 <= p < q < b2.len() implies b2[p].precedes(b2[q]) by {
            assert(b[p].precedes(b[q]));
        }
        lemma_ascending_same_elements(a2, b2);
        assert(a =~= a2.push(x));
        assert(b =~= b2.push(y));
    }
}

/// The updates of a checkpoint are determined by it: two lists of the same
/// updates have the same length and agree update by update.
pub proof fn lemma_updates_determined(
    first: Seq<ProcessedObjInfo>,
    second: Seq<ProcessedObjInfo>,
    m: Map<ObjectId, ProcessedObjInfoView>,
)
    requires
        lists(first, m),
        lists(second, m),
    ensures
        first.len() == second.len(),
        forall|i: int| 0 <= i < first.len() ==> (#[trigger] first[i])@ == second[i]@,
{
    let a = record_ids(first);
    let b = record_ids(second);
    assert forall|k: ObjectId| a.contains(k) <==> b.contains(k) by {
        if a.contains(k) {
            let i = a.index_of(k);
            assert(m.contains_key(first[i]@.object_id()));
        }
        if b.contains(k) {
            let i = b.index_of(k);
            assert(m.contains_key(second[i]@.object_id()));
        }
    }
    lemma_ascending_same_elements(a, b);
    assert forall|i: int| 0 <= i < first.len() implies (#[trigger] first[i])@ == second[i]@ by {
        assert(a[i] == first[i]@.object_id());
        assert(b[i] == second[i]@.object_id());
        assert(second[i]@ == m[second[i]@.object_id()]);
    }
}

/// The updates of a checkpoint hold at most one update per object.
pub proof fn lemma_at_most_one_record(
    records: Seq<ProcessedObjInfo>,
    ins: Map<ObjectId, ObjectSnapshot>,
    outs: Map<ObjectId, ObjectSnapshot>,
    cp: u64,
    i: int,
    j: int,
)
    requires
        lists(records, diff(ins, outs, cp)),
        0 <= i < records.len(),
        0 <= j < records.len(),
        records[i]@.object_id() == records[j]@.object_id(),
    ensures
        i == j,
{
    let ids = record_ids(records);
    if i < j {
        assert(ids[i].precedes(ids[j]));
    } else if j < i {
        assert(ids[j].precedes(ids[i]));
    }
}

/// An object with an update has exactly one, the one that the diff gives it.
proof fn lemma_record_of(
    records: Seq<ProcessedObjInfo>,
    ins: Map<ObjectId, ObjectSnapshot>,
    outs: Map<ObjectId, ObjectSnapshot>,
    cp: u64,
    k: ObjectId,
) -> (at: int)
    requires
        lists(records, diff(ins, outs, cp)),
        diff(ins, outs, cp).contains_key(k),
    ensures
        one_record(records, k, at),
        records[at]@ == diff(ins, outs, cp)[k],
{
    let ids = record_ids(records);
    assert(ids.contains(k));
    let at = ids.index_of(k);
    assert(records[at]@.object_id() == k);
    assert forall|j: int|
        0 <= j < records.len() && (#[trigger] records[j])@.object_id() == k implies j == at by {
        lemma_at_most_one_record(records, ins, outs, cp, j, at);
    }
    at
}

/// An object without an update in the diff has none among the updates.
proof fn lemma_no_record(
    records: Seq<ProcessedObjInfo>,
    ins: Map<ObjectId, ObjectSnapshot>,
    outs: Map<ObjectId, ObjectSnapshot>,
    cp: u64,
    k: ObjectId,
)
    requires
        lists(records, diff(ins, outs, cp)),
        !diff(ins, outs, cp).contains_key(k),
    ensures
        no_record(records, k),
{
}

/// An object that is neither an input of the checkpoint nor live after it, as
/// one that was created and deleted within the checkpoint, gets no update.
pub proof fn lemma_created_and_deleted(
    records: Seq<ProcessedObjInfo>,
    ins: Map<ObjectId, ObjectSnapshot>,
    outs: Map<ObjectId, ObjectSnapshot>,
    cp: u64,
    k: ObjectId,
)
    requires
        lists(records, diff(ins, outs, cp)),
        !ins.contains_key(k),
        !outs.contains_key(k),
    ensures
        no_record(records, k),
{
    lemma_no_record(records, ins, outs, cp, k);
}

/// An object that is live after the checkpoint and was no input of it, as one
/// that was created or unwrapped, gets exactly one update: an insert of the
/// live object under the checkpoint's sequence number.
pub proof fn lemma_created(
    records: Seq<ProcessedObjInfo>,
    ins: Map<ObjectId, ObjectSnapshot>,
    outs: Map<ObjectId, ObjectSnapshot>,
    cp: u64,
    k: ObjectId,
) -> (at: int)
    requires
        lists(records, diff(ins, outs, cp)),
        !ins.contains_key(k),
        outs.contains_key(k),
    ensures
        one_record(records, k, at),
        records[at]@.cp_sequence_number == cp,
        records[at]@.update == UpdateView::Insert(outs[k]@),
{
    assert(is_inserted(ins, outs, k));
    lemma_record_of(records, ins, outs, cp, k)
}

/// An object that is live before and after the checkpoint under the same
/// owner gets no update, whatever became of its contents.
pub proof fn lemma_mutated(
    records: Seq<ProcessedObjInfo>,
    ins: Map<ObjectId, ObjectSnapshot>,
    outs: Map<ObjectId, ObjectSnapshot>,
    cp: u64,
    k: ObjectId,
)
    requires
        lists(records, diff(ins, outs, cp)),
        ins.contains_key(k),
        outs.contains_key(k),
        ins[k].owner == outs[k].owner,
    ensures
        no_record(records, k),
{
    lemma_no_record(records, ins, outs, cp, k);
}

/// An object that is live before and after the checkpoint under different
/// owners gets exactly one update: an insert of the live object, which has
/// the new owner, under the checkpoint's sequence number.
pub proof fn lemma_transferred(
    records: Seq<ProcessedObjInfo>,
    ins: Map<ObjectId, ObjectSnapshot>,
    outs: Map<ObjectId, ObjectSnapshot>,
    cp: u64,
    k: ObjectId,
) -> (at: int)
    requires
        lists(records, diff(ins, outs, cp)),
        ins.contains_key(k),
        outs.contains_key(k),
        ins[k].owner != outs[k].owner,
    ensures
        one_record(records, k, at),
        records[at]@.cp_sequence_number == cp,
        records[at]@.update == UpdateView::Insert(outs[k]@),
        records[at]@.update->Insert_0.owner == outs[k].owner,
{
    assert(is_inserted(ins, outs, k));
    lemma_record_of(records, ins, outs, cp, k)
}

/// An object that was an input of the checkpoint and is not live after it, as
/// one that was deleted or wrapped, gets exactly one update: a tombstone
/// under the checkpoint's sequence number.
pub proof fn lemma_deleted_or_wrapped(
    records: Seq<ProcessedObjInfo>,
    ins: Map<ObjectId, ObjectSnapshot>,
    outs: Map<ObjectId, ObjectSnapshot>,
    cp: u64,
    k: ObjectId,
) -> (at: int)
    requires
        lists(records, diff(ins, outs, cp)),
        ins.contains_key(k),
        !outs.contains_key(k),
    ensures
        one_record(records, k, at),
        records[at]@.cp_sequence_number == cp,
        records[at]@.update == UpdateView::Delete(k),
{
    assert(is_deleted(ins, outs, k));
    lemma_record_of(records, ins, outs, cp, k)
}

/// An object that one checkpoint wraps and a later one unwraps gets exactly
/// one tombstone from the first and exactly one insert from the second.
pub proof fn lemma_wrapped_then_unwrapped(
    wrapping: Seq<ProcessedObjInfo>,
    ins: Map<ObjectId, ObjectSnapshot>,
    outs: Map<ObjectId, ObjectSnapshot>,
    cp: u64,
    unwrapping: Seq<ProcessedObjInfo>,
    later_ins: Map<ObjectId, ObjectSnapshot>,
    later_outs: Map<ObjectId, ObjectSnapshot>,
    later_cp: u64,
    k: ObjectId,
) -> (at: (int, int))
    requires
        lists(wrapping, diff(ins, outs, cp)),
        lists(unwrapping, diff(later_ins, later_outs, later_cp)),
        ins.contains_key(k),
        !outs.contains_key(k),
        !later_ins.contains_key(k),
        later_outs.contains_key(k),
    ensures
        one_record(wrapping, k, at.0),
        wrapping[at.0]@.update == UpdateView::Delete(k),
        one_record(unwrapping, k, at.1),
        unwrapping[at.1]@.update == UpdateView::Insert(later_outs[k]@),
{
    let first = lemma_deleted_or_wrapped(wrapping, ins, outs, cp, k);
    let second = lemma_created(unwrapping, later_ins, later_outs, later_cp, k);
    (first, second)
}

} // verus!
