//! The diff of one checkpoint's object state into index updates.
use vstd::prelude::*;
use crate::checkpoint::{indexes, lemma_snapshot_map_entries, CheckpointView};
use crate::object::{ObjectId, ObjectSnapshot, ObjectSnapshotView, TypeMetadata};
use crate::ordered_map::{lemma_ascending_index, strictly_ascending, OrderedMap};
use crate::rows::ConversionError;

verus! {

/// The handler that derives and stores object existence and ownership updates.
pub struct ObjInfo;

/// What happened to an object in a checkpoint, as far as the index cares.
#[derive(Clone, Debug, PartialEq, Eq)]
pub enum ProcessedObjInfoUpdate {
    /// The object is live with a new owner: it was created, unwrapped or
    /// handed over. Holds the object as it is after the checkpoint.
    Insert(ObjectSnapshot),
    /// The object is no longer live: it was deleted or wrapped.
    Delete(ObjectId),
}

/// The mathematical value of a [`ProcessedObjInfoUpdate`].
pub enum UpdateView {
    Insert(ObjectSnapshotView),
    Delete(ObjectId),
}

impl View for ProcessedObjInfoUpdate {
    type V = UpdateView;

    open spec fn view(&self) -> UpdateView {
        match self {
            ProcessedObjInfoUpdate::Insert(o) => UpdateView::Insert(o@),
            ProcessedObjInfoUpdate::Delete(id) => UpdateView::Delete(*id),
        }
    }
}

/// One update of the index: what happened to one object in the checkpoint
/// with the given sequence number.
#[derive(Clone, Debug, PartialEq, Eq)]
pub struct ProcessedObjInfo {
    pub cp_sequence_number: u64,
    pub update: ProcessedObjInfoUpdate,
}

/// The mathematical value of a [`ProcessedObjInfo`].
pub struct ProcessedObjInfoView {
    pub cp_sequence_number: u64,
    pub update: UpdateView,
}

impl ProcessedObjInfoView {
    /// The object that the update is about.
    pub open spec fn object_id(self) -> ObjectId {
        match self.update {
            UpdateView::Insert(o) => o.id,
            UpdateView::Delete(id) => id,
        }
    }

    /// Whether the update can be brought into stored form: a tombstone always
    /// can, an insert unless the object's type is malformed.
    pub open spec fn convertible(self) -> bool {
        match self.update {
            UpdateView::Insert(o) => !(o.type_ is Malformed),
            UpdateView::Delete(_) => true,
        }
    }
}

impl View for ProcessedObjInfo {
    type V = ProcessedObjInfoView;

    open spec fn view(&self) -> ProcessedObjInfoView {
        ProcessedObjInfoView { cp_sequence_number: self.cp_sequence_number, update: self.update@ }
    }
}

impl ProcessedObjInfo {
    /// The object that the update is about.
    pub fn object_id(&self) -> (id: ObjectId)
        ensures
            id == self@.object_id(),
    {
        match &self.update {
            ProcessedObjInfoUpdate::Insert(o) => o.id,
            ProcessedObjInfoUpdate::Delete(id) => *id,
        }
    }

    /// Whether the update can be brought into stored form.
    pub fn is_convertible(&self) -> (r: bool)
        ensures
            r == self@.convertible(),
    {
        match &self.update {
            ProcessedObjInfoUpdate::Insert(o) => match &o.type_ {
                TypeMetadata::Malformed => false,
                _ => true,
            },
            ProcessedObjInfoUpdate::Delete(_) => true,
        }
    }
}

/// Whether the object `k` was live before the checkpoint and is not after it.
pub open spec fn is_deleted(
    ins: Map<ObjectId, ObjectSnapshot>,
    outs: Map<ObjectId, ObjectSnapshot>,
    k: ObjectId,
) -> bool {
    ins.contains_key(k) && !outs.contains_key(k)
}

/// Whether the object `k` is live after the checkpoint and either was not an
/// input of it or had another owner then.
pub open spec fn is_inserted(
    ins: Map<ObjectId, ObjectSnapshot>,
    outs: Map<ObjectId, ObjectSnapshot>,
    k: ObjectId,
) -> bool {
    outs.contains_key(k) && (!ins.contains_key(k) || ins[k].owner != outs[k].owner)
}

/// The update for an object that has one: an insert of the live object, or a
/// tombstone where there is none.
pub open spec fn update_for(
    outs: Map<ObjectId, ObjectSnapshot>,
    cp: u64,
    k: ObjectId,
) -> ProcessedObjInfoView {
    ProcessedObjInfoView {
        cp_sequence_number: cp,
        update: if outs.contains_key(k) {
            UpdateView::Insert(outs[k]@)
        } else {
            UpdateView::Delete(k)
        },
    }
}

/// The updates of a checkpoint with sequence number `cp`, input objects `ins`
/// and live output objects `outs`, by object.
pub open spec fn diff(
    ins: Map<ObjectId, ObjectSnapshot>,
    outs: Map<ObjectId, ObjectSnapshot>,
    cp: u64,
) -> Map<ObjectId, ProcessedObjInfoView> {
    Map::new(
        |k: ObjectId| is_deleted(ins, outs, k) || is_inserted(ins, outs, k),
        |k: ObjectId| update_for(outs, cp, k),
    )
}

/// The objects that the updates are about, in the updates' order.
pub open spec fn record_ids(records: Seq<ProcessedObjInfo>) -> Seq<ObjectId> {
    records.map_values(|r: ProcessedObjInfo| r@.object_id())
}

/// Whether `records` lists the updates of `m`: each of them once, under its
/// own object, in strictly ascending order of the objects, and nothing else.
pub open spec fn lists(
    records: Seq<ProcessedObjInfo>,
    m: Map<ObjectId, ProcessedObjInfoView>,
) -> bool {
    &&& strictly_ascending(record_ids(records))
    &&& forall|i: int|
        0 <= i < records.len() ==> m.contains_key((#[trigger] records[i])@.object_id())
            && records[i]@ == m[records[i]@.object_id()]
    &&& forall|k: ObjectId| #[trigger] m.contains_key(k) ==> record_ids(records).contains(k)
}

/// Whether `k` is the least object whose update in `m` cannot be stored.
pub open spec fn first_unconvertible(m: Map<ObjectId, ProcessedObjInfoView>, k: ObjectId) -> bool {
    &&& m.contains_key(k)
    &&& !m[k].convertible()
    &&& forall|other: ObjectId|
        #[trigger] m.contains_key(other) && !m[other].convertible() ==> !other.precedes(k)
}

/// What is among the first `n + 1` identifiers is among the first `n` or is
/// the one after them.
proof fn lemma_take_contains(s: Seq<ObjectId>, n: int, k: ObjectId)
    requires
        0 <= n < s.len(),
    ensures
        s.take(n + 1).contains(k) <==> (s.take(n).contains(k) || s[n] == k),
{
    if s.take(n).contains(k) {
        let j = s.take(n).index_of(k);
        assert(s.take(n + 1)[j] == k);
    }
    if s[n] == k {
        assert(s.take(n + 1)[n] == k);
    }
    if s.take(n + 1).contains(k) {
        let j = s.take(n + 1).index_of(k);
        if j < n {
            assert(s.take(n)[j] == k);
        }
    }
}

impl ObjInfo {
    /// Derives the index updates of one checkpoint.
    ///
    /// An object that was an input and is no longer live gets a tombstone. An
    /// object that is live and was no input, or was one under another owner,
    /// gets an insert that holds it as it is after the checkpoint. No other
    /// object gets anything. The updates come in ascending order of their
    /// objects, one per object, each under the checkpoint's sequence number.
    ///
    /// Fails where an insert is due for an object whose type is malformed, and
    /// names the least such object.
    pub fn process(&self, checkpoint: &CheckpointView) -> (r: Result<
        Vec<ProcessedObjInfo>,
        ConversionError,
    >)
        ensures
            match r {
                Ok(records) => {
                    let m = diff(
                        checkpoint.inputs(),
                        checkpoint.live_outputs(),
                        checkpoint.sequence_number,
                    );
                    &&& lists(records@, m)
                    &&& forall|k: ObjectId| #[trigger] m.contains_key(k) ==> m[k].convertible()
                },
                Err(e) => match e {
                    ConversionError::MalformedType { object_id } => first_unconvertible(
                        diff(
                            checkpoint.inputs(),
                            checkpoint.live_outputs(),
                            checkpoint.sequence_number,
                        ),
                        object_id,
                    ),
                    _ => false,
                },
            },
    {
        let cp_sequence_number = checkpoint.sequence_number;
        let checkpoint_input_objects = checkpoint.checkpoint_input_objects();
        let latest_live_output_objects = checkpoint.latest_live_output_objects();
        let ghost ins = checkpoint.inputs();
        let ghost outs = checkpoint.live_outputs();
        let ghost in_keys = checkpoint_input_objects.keys@;
        let ghost out_keys = latest_live_output_objects.keys@;
        let ghost target = diff(ins, outs, cp_sequence_number);
        assert(forall|k: ObjectId| in_keys.contains(k) <==> checkpoint_input_objects@.contains_key(k));
        assert(forall|k: ObjectId|
            out_keys.contains(k) <==> latest_live_output_objects@.contains_key(k));
        assert(forall|k: ObjectId| in_keys.contains(k) <==> ins.contains_key(k));
        assert(forall|k: ObjectId| out_keys.contains(k) <==> outs.contains_key(k));

        let mut values: OrderedMap<ProcessedObjInfo> = OrderedMap::new();
        let mut i: usize = 0;
        while i < checkpoint_input_objects.keys.len()
            invariant
                i <= in_keys.len(),
                in_keys == checkpoint_input_objects.keys@,
                latest_live_output_objects.wf(),
                indexes(latest_live_output_objects@, outs),
                forall|k: ObjectId| in_keys.contains(k) <==> ins.contains_key(k),
                values.wf(),
                forall|k: ObjectId| #[trigger]
                    values@.contains_key(k) <==> (is_deleted(ins, outs, k) && in_keys.take(
                        i as int,
                    ).contains(k)),
                forall|k: ObjectId| #[trigger]
                    values@.contains_key(k) ==> values@[k]@ == update_for(
                        outs,
                        cp_sequence_number,
                        k,
                    ),
            decreases in_keys.len() - i,
        {
            let object_id: ObjectId = checkpoint_input_objects.keys[i];
            let ghost before = values@;
            proof {
                assert(in_keys[i as int] == object_id);
                assert(in_keys.contains(object_id));
                assert forall|k: ObjectId|
                    in_keys.take(i + 1).contains(k) <==> (in_keys.take(i as int).contains(k) || k
                        == object_id) by {
                    lemma_take_contains(in_keys, i as int, k);
                }
            }
            if !latest_live_output_objects.contains_key(&object_id) {
                // An input that is no longer live was deleted or wrapped: the
                // index gets a tombstone, so that readers stop seeing it.
                values.insert(
                    object_id,
                    ProcessedObjInfo {
                        cp_sequence_number,
                        update: ProcessedObjInfoUpdate::Delete(object_id),
                    },
                );
            }
            i += 1;
        }
        assert(in_keys.take(i as int) =~= in_keys);

        let mut j: usize = 0;
        while j < latest_live_output_objects.keys.len()
            invariant
                j <= out_keys.len(),
                out_keys == latest_live_output_objects.keys@,
                latest_live_output_objects.wf(),
                checkpoint_input_objects.wf(),
                indexes(latest_live_output_objects@, outs),
                indexes(checkpoint_input_objects@, ins),
                forall|k: ObjectId| out_keys.contains(k) <==> outs.contains_key(k),
                values.wf(),
                forall|k: ObjectId| #[trigger]
                    values@.contains_key(k) <==> (is_deleted(ins, outs, k) || (is_inserted(
                        ins,
                        outs,
                        k,
                    ) && out_keys.take(j as int).contains(k))),
                forall|k: ObjectId| #[trigger]
                    values@.contains_key(k) ==> values@[k]@ == update_for(
                        outs,
                        cp_sequence_number,
                        k,
                    ),
            decreases out_keys.len() - j,
        {
            let object_id: ObjectId = latest_live_output_objects.keys[j];
            let object: &ObjectSnapshot = latest_live_output_objects.vals[j];
            proof {
                lemma_ascending_index(out_keys, j as int);
                assert(outs.contains_key(object_id));
                assert(*object == outs[object_id]);
                assert forall|k: ObjectId|
                    out_keys.take(j + 1).contains(k) <==> (out_keys.take(j as int).contains(k) || k
                        == object_id) by {
                    lemma_take_contains(out_keys, j as int, k);
                }
            }
            // A live object that is new, was unwrapped, or changed its owner
            // gets an entry; one that only changed its contents does not.
            let should_insert = match checkpoint_input_objects.get(&object_id) {
                Some(input_object) => input_object.owner != object.owner,
                None => true,
            };
            assert(should_insert == is_inserted(ins, outs, object_id));
            if should_insert {
                values.insert(
                    object_id,
                    ProcessedObjInfo {
                        cp_sequence_number,
                        update: ProcessedObjInfoUpdate::Insert(object.duplicate()),
                    },
                );
            }
            j += 1;
        }
        assert(out_keys.take(j as int) =~= out_keys);
        assert(values@.dom() =~= target.dom());

        let ghost keys = values.keys@;
        assert forall|p: int| 0 <= p < keys.len() implies target.contains_key(keys[p])
            && (#[trigger] values.vals@[p])@ == target[keys[p]] && values.vals@[p]@.object_id()
            == keys[p] by {
            lemma_ascending_index(keys, p);
            assert(values@.contains_key(keys[p]));
            if outs.contains_key(keys[p]) {
                lemma_snapshot_map_entries(checkpoint.live_output_objects@, keys[p]);
            }
        }

        let mut n: usize = 0;
        while n < values.vals.len()
            invariant
                n <= values.vals@.len(),
                values.wf(),
                keys == values.keys@,
                target == diff(
                    checkpoint.inputs(),
                    checkpoint.live_outputs(),
                    checkpoint.sequence_number,
                ),
                values@.dom() == target.dom(),
                forall|p: int|
                    0 <= p < keys.len() ==> target.contains_key(keys[p]) && (
                    #[trigger] values.vals@[p])@ == target[keys[p]] && values.vals@[p]@.object_id()
                        == keys[p],
                forall|p: int| 0 <= p < n ==> (#[trigger] values.vals@[p])@.convertible(),
            decreases values.vals@.len() - n,
        {
            if !values.vals[n].is_convertible() {
                let object_id = values.keys[n];
                proof {
                    assert(values.vals@[n as int]@ == target[object_id]);
                    assert forall|other: ObjectId| #[trigger]
                        target.contains_key(other) && !target[other].convertible() implies !other.precedes(
                        object_id,
                    ) by {
                        assert(values@.contains_key(other));
                        let p = keys.index_of(other);
                        assert(values.vals@[p]@ == target[other]);
                        if p < n {
                            assert(values.vals@[p]@.convertible());
                        } else if p > n {
                            assert(keys[n as int].precedes(keys[p]));
                        }
                    }
                }
                return Err(ConversionError::MalformedType { object_id });
            }
            n += 1;
        }

        let records = values.into_values();
        proof {
            assert(record_ids(records@) =~= keys);
            assert forall|k: ObjectId| #[trigger] target.contains_key(k) implies record_ids(
                records@,
            ).contains(k) && target[k].convertible() by {
                assert(values@.contains_key(k));
                let p = keys.index_of(k);
                assert(records@[p]@.convertible());
            }
        }
        Ok(records)
    }
}

} // verus!
