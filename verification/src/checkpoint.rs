//! The object state that one checkpoint hands to the diff.
use vstd::prelude::*;
use crate::object::{ObjectId, ObjectSnapshot};
use crate::ordered_map::OrderedMap;

verus! {

/// The map that a list of snapshots stands for: each snapshot under its own
/// identifier, a later snapshot taking the place of an earlier one with the
/// same identifier.
pub open spec fn snapshot_map(s: Seq<ObjectSnapshot>) -> Map<ObjectId, ObjectSnapshot>
    decreases s.len(),
{
    if s.len() == 0 {
        Map::empty()
    } else {
        snapshot_map(s.drop_last()).insert(s.last().id, s.last())
    }
}

/// Every snapshot of the map stands under its own identifier, and came from
/// the list.
pub proof fn lemma_snapshot_map_entries(s: Seq<ObjectSnapshot>, k: ObjectId)
    requires
        snapshot_map(s).contains_key(k),
    ensures
        snapshot_map(s)[k].id == k,
        s.contains(snapshot_map(s)[k]),
    decreases s.len(),
{
    if s.len() > 0 {
        if s.last().id == k {
            assert(s[s.len() - 1] == s.last());
        } else {
            lemma_snapshot_map_entries(s.drop_last(), k);
            let i = s.drop_last().index_of(snapshot_map(s.drop_last())[k]);
            assert(s[i] == s.drop_last()[i]);
        }
    }
}

/// The map that a list of input snapshots stands for: each snapshot under its
/// own identifier, the first snapshot with an identifier counting, since that
/// is the object as it was before anything touched it.
pub open spec fn first_snapshot_map(s: Seq<ObjectSnapshot>) -> Map<ObjectId, ObjectSnapshot>
    decreases s.len(),
{
    if s.len() == 0 {
        Map::empty()
    } else {
        let earlier = first_snapshot_map(s.drop_last());
        if earlier.contains_key(s.last().id) {
            earlier
        } else {
            earlier.insert(s.last().id, s.last())
        }
    }
}

/// Every snapshot of the map of inputs stands under its own identifier, and
/// came from the list.
pub proof fn lemma_first_snapshot_map_entries(s: Seq<ObjectSnapshot>, k: ObjectId)
    requires
        first_snapshot_map(s).contains_key(k),
    ensures
        first_snapshot_map(s)[k].id == k,
        s.contains(first_snapshot_map(s)[k]),
    decreases s.len(),
{
    if s.len() > 0 {
        let earlier = first_snapshot_map(s.drop_last());
        if earlier.contains_key(k) {
            lemma_first_snapshot_map_entries(s.drop_last(), k);
            let i = s.drop_last().index_of(earlier[k]);
            assert(s[i] == s.drop_last()[i]);
        } else {
            assert(s[s.len() - 1] == s.last());
        }
    }
}

/// Among the inputs the first snapshot with an identifier counts.
pub proof fn lemma_first_counts(s: Seq<ObjectSnapshot>, i: int)
    requires
        0 <= i < s.len(),
        forall|j: int| 0 <= j < i ==> (#[trigger] s[j]).id != s[i].id,
    ensures
        first_snapshot_map(s).contains_key(s[i].id),
        first_snapshot_map(s)[s[i].id] == s[i],
    decreases s.len(),
{
    let init = s.drop_last();
    let earlier = first_snapshot_map(init);
    if i == s.len() - 1 {
        if earlier.contains_key(s[i].id) {
            lemma_first_snapshot_map_entries(init, s[i].id);
            let j = init.index_of(earlier[s[i].id]);
            assert(s[j] == init[j]);
        }
    } else {
        assert(init[i] == s[i]);
        assert forall|j: int| 0 <= j < i implies (#[trigger] init[j]).id != init[i].id by {
            assert(init[j] == s[j]);
        }
        lemma_first_counts(init, i);
    }
}

/// Among the live outputs the last snapshot with an identifier counts.
pub proof fn lemma_last_counts(s: Seq<ObjectSnapshot>, i: int)
    requires
        0 <= i < s.len(),
        forall|j: int| i < j < s.len() ==> (#[trigger] s[j]).id != s[i].id,
    ensures
        snapshot_map(s).contains_key(s[i].id),
        snapshot_map(s)[s[i].id] == s[i],
    decreases s.len(),
{
    if i < s.len() - 1 {
        let init = s.drop_last();
        assert(init[i] == s[i]);
        assert(s[s.len() - 1].id != s[i].id);
        assert forall|j: int| i < j < init.len() implies (#[trigger] init[j]).id != init[i].id by {
            assert(init[j] == s[j]);
        }
        lemma_last_counts(init, i);
    }
}

/// One checkpoint as the diff sees it: its sequence number, the objects that
/// its transactions took as inputs, each as it was before the checkpoint, and
/// the objects that are live once the checkpoint has been applied.
///
/// Both lists are read as maps keyed by identifier. Where an identifier occurs
/// more than once among the inputs, the first snapshot counts: the object as
/// it was before the checkpoint touched it. Among the live outputs the last
/// snapshot counts: the object as the checkpoint left it.
#[derive(Clone, Debug)]
pub struct CheckpointView {
    pub sequence_number: u64,
    pub input_objects: Vec<ObjectSnapshot>,
    pub live_output_objects: Vec<ObjectSnapshot>,
}

impl CheckpointView {
    /// The input objects, by identifier.
    pub open spec fn inputs(&self) -> Map<ObjectId, ObjectSnapshot> {
        first_snapshot_map(self.input_objects@)
    }

    /// The live output objects, by identifier.
    pub open spec fn live_outputs(&self) -> Map<ObjectId, ObjectSnapshot> {
        snapshot_map(self.live_output_objects@)
    }

    /// A checkpoint with the given sequence number and object lists.
    pub fn new(
        sequence_number: u64,
        input_objects: Vec<ObjectSnapshot>,
        live_output_objects: Vec<ObjectSnapshot>,
    ) -> (c: CheckpointView)
        ensures
            c.sequence_number == sequence_number,
            c.input_objects == input_objects,
            c.live_output_objects == live_output_objects,
    {
        CheckpointView { sequence_number, input_objects, live_output_objects }
    }

    /// The input objects as an ordered map.
    pub fn checkpoint_input_objects(&self) -> (m: OrderedMap<&ObjectSnapshot>)
        ensures
            m.wf(),
            indexes(m@, self.inputs()),
    {
        index_first_snapshots(&self.input_objects)
    }

    /// The live output objects as an ordered map.
    pub fn latest_live_output_objects(&self) -> (m: OrderedMap<&ObjectSnapshot>)
        ensures
            m.wf(),
            indexes(m@, self.live_outputs()),
    {
        index_snapshots(&self.live_output_objects)
    }
}

/// Whether `m` holds, under each identifier of `of` and under no other, a
/// reference to the snapshot that `of` holds there.
pub open spec fn indexes(
    m: Map<ObjectId, &ObjectSnapshot>,
    of: Map<ObjectId, ObjectSnapshot>,
) -> bool {
    &&& m.dom() == of.dom()
    &&& forall|k: ObjectId| #[trigger] of.contains_key(k) ==> *m[k] == of[k]
}

/// Collects the snapshots of `objects` into an ordered map by identifier, the
/// first snapshot with an identifier staying.
pub fn index_first_snapshots(objects: &Vec<ObjectSnapshot>) -> (m: OrderedMap<&ObjectSnapshot>)
    ensures
        m.wf(),
        indexes(m@, first_snapshot_map(objects@)),
{
    let mut m: OrderedMap<&ObjectSnapshot> = OrderedMap::new();
    let mut i: usize = 0;
    assert(objects@.take(0) =~= Seq::<ObjectSnapshot>::empty());
    assert(m@.dom() =~= first_snapshot_map(objects@.take(0)).dom());
    while i < objects.len()
        invariant
            i <= objects.len(),
            m.wf(),
            indexes(m@, first_snapshot_map(objects@.take(i as int))),
        decreases objects.len() - i,
    {
        let object = &objects[i];
        proof {
            let prefix = objects@.take(i as int);
            let next = objects@.take(i + 1);
            assert(next.drop_last() =~= prefix);
            assert(next.last() == objects@[i as int]);
        }
        if !m.contains_key(&object.id) {
            m.insert(object.id, object);
        }
        assert(m@.dom() =~= first_snapshot_map(objects@.take(i + 1)).dom());
        i += 1;
    }
    assert(objects@.take(i as int) =~= objects@);
    m
}

/// Collects the snapshots of `objects` into an ordered map by identifier, a
/// later snapshot taking the place of an earlier one with the same identifier.
pub fn index_snapshots(objects: &Vec<ObjectSnapshot>) -> (m: OrderedMap<&ObjectSnapshot>)
    ensures
        m.wf(),
        indexes(m@, snapshot_map(objects@)),
{
    let mut m: OrderedMap<&ObjectSnapshot> = OrderedMap::new();
    let mut i: usize = 0;
    assert(objects@.take(0) =~= Seq::<ObjectSnapshot>::empty());
    assert(m@.dom() =~= snapshot_map(objects@.take(0)).dom());
    while i < objects.len()
        invariant
            i <= objects.len(),
            m.wf(),
            indexes(m@, snapshot_map(objects@.take(i as int))),
        decreases objects.len() - i,
    {
        let object = &objects[i];
        let ghost before = m@;
        m.insert(object.id, object);
        proof {
            let prefix = objects@.take(i as int);
            let next = objects@.take(i + 1);
            assert(next.drop_last() =~= prefix);
            assert(next.last() == objects@[i as int]);
            assert(m@.dom() =~= snapshot_map(next).dom());
        }
        i += 1;
    }
    assert(objects@.take(i as int) =~= objects@);
    m
}

} // verus!
