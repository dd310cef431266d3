//! What a conflict-ignoring bulk insert does to the table of the index.
//!
//! The table holds at most one row under each pair of object and checkpoint.
//! A commit writes its rows in one batch; a row whose pair the table already
//! holds is dropped, and the row that was there stays.
use vstd::prelude::*;
use crate::diff::{lists, record_ids, ProcessedObjInfo, ProcessedObjInfoView};
use crate::object::ObjectId;
use crate::object::lemma_bytes_injective;
use crate::rows::{row_of, rows_of, StoredObjInfoView};

verus! {

/// The contents of the table: its rows by key.
pub type Table = Map<(Seq<u8>, i64), StoredObjInfoView>;

/// The key under which a row is stored: its object and its checkpoint.
pub open spec fn key_of(row: StoredObjInfoView) -> (Seq<u8>, i64) {
    (row.object_id, row.cp_sequence_number)
}

/// The table after an attempt to insert `row`: unchanged where it holds a row
/// under the same key.
pub open spec fn insert_or_ignore(table: Table, row: StoredObjInfoView) -> Table {
    if table.contains_key(key_of(row)) {
        table
    } else {
        table.insert(key_of(row), row)
    }
}

/// The table after an attempt to insert each of `rows`, in their order.
pub open spec fn insert_all(table: Table, rows: Seq<StoredObjInfoView>) -> Table
    decreases rows.len(),
{
    if rows.len() == 0 {
        table
    } else {
        insert_or_ignore(insert_all(table, rows.drop_last()), rows.last())
    }
}

/// How many of `rows` the attempt of [`insert_all`] writes.
pub open spec fn rows_written(table: Table, rows: Seq<StoredObjInfoView>) -> nat
    decreases rows.len(),
{
    if rows.len() == 0 {
        0
    } else {
        let written = rows_written(table, rows.drop_last());
        if insert_all(table, rows.drop_last()).contains_key(key_of(rows.last())) {
            written
        } else {
            written + 1
        }
    }
}

/// The rows of updates of different objects stand under different keys.
pub proof fn lemma_key_names_object(a: ProcessedObjInfoView, b: ProcessedObjInfoView)
    requires
        key_of(row_of(a)) == key_of(row_of(b)),
    ensures
        a.object_id() == b.object_id(),
{
    let x = a.object_id();
    let y = b.object_id();
    assert(row_of(a).object_id == x.bytes());
    assert(row_of(b).object_id == y.bytes());
    lemma_bytes_injective(x.hi, x.lo, y.hi, y.lo);
}

/// A batch never touches a row that the table holds already.
pub proof fn lemma_insert_all_keeps(table: Table, rows: Seq<StoredObjInfoView>, key: (Seq<u8>, i64))
    requires
        table.contains_key(key),
    ensures
        insert_all(table, rows).contains_key(key),
        insert_all(table, rows)[key] == table[key],
    decreases rows.len(),
{
    if rows.len() > 0 {
        lemma_insert_all_keeps(table, rows.drop_last(), key);
    }
}

/// After a batch the table holds a row under the key of each row of the batch.
pub proof fn lemma_insert_all_covers(table: Table, rows: Seq<StoredObjInfoView>, i: int)
    requires
        0 <= i < rows.len(),
    ensures
        insert_all(table, rows).contains_key(key_of(rows[i])),
    decreases rows.len(),
{
    if i < rows.len() - 1 {
        lemma_insert_all_covers(table, rows.drop_last(), i);
    }
}

/// A batch whose keys the table all holds writes nothing and changes nothing.
pub proof fn lemma_insert_all_present(table: Table, rows: Seq<StoredObjInfoView>)
    requires
        forall|i: int| 0 <= i < rows.len() ==> table.contains_key(key_of(#[trigger] rows[i])),
    ensures
        insert_all(table, rows) == table,
        rows_written(table, rows) == 0,
    decreases rows.len(),
{
    if rows.len() > 0 {
        let init = rows.drop_last();
        assert forall|i: int| 0 <= i < init.len() implies table.contains_key(
            key_of(#[trigger] init[i]),
        ) by {
            assert(init[i] == rows[i]);
        }
        lemma_insert_all_present(table, init);
        assert(rows.last() == rows[rows.len() - 1]);
    }
}

/// A batch puts rows under the keys of its own rows only.
pub proof fn lemma_insert_all_only_adds(
    table: Table,
    rows: Seq<StoredObjInfoView>,
    key: (Seq<u8>, i64),
)
    requires
        insert_all(table, rows).contains_key(key),
        !table.contains_key(key),
    ensures
        exists|i: int| 0 <= i < rows.len() && key_of(#[trigger] rows[i]) == key,
    decreases rows.len(),
{
    if rows.len() > 0 {
        let init = rows.drop_last();
        if insert_all(table, init).contains_key(key) {
            lemma_insert_all_only_adds(table, init, key);
            let i = choose|i: int| 0 <= i < init.len() && key_of(#[trigger] init[i]) == key;
            assert(key_of(rows[i]) == key);
        } else {
            assert(key_of(rows[rows.len() - 1]) == key);
        }
    }
}

/// Whether no two rows of the batch have the same key.
pub open spec fn distinct_keys(rows: Seq<StoredObjInfoView>) -> bool {
    forall|i: int, j: int|
        0 <= i < j < rows.len() ==> key_of(#[trigger] rows[i]) != key_of(#[trigger] rows[j])
}

/// A batch of rows with distinct keys, none of which the table holds, is
/// written whole: every row counts, and every row is in the table afterwards.
pub proof fn lemma_fresh_batch_is_written(table: Table, rows: Seq<StoredObjInfoView>)
    requires
        distinct_keys(rows),
        forall|i: int| 0 <= i < rows.len() ==> !table.contains_key(key_of(#[trigger] rows[i])),
    ensures
        rows_written(table, rows) == rows.len(),
        forall|i: int|
            0 <= i < rows.len() ==> insert_all(table, rows).contains_key(
                key_of(#[trigger] rows[i]),
            ) && insert_all(table, rows)[key_of(rows[i])] == rows[i],
    decreases rows.len(),
{
    if rows.len() > 0 {
        let init = rows.drop_last();
        let last = rows.last();
        assert(last == rows[rows.len() - 1]);
        assert forall|i: int| 0 <= i < init.len() implies init[i] == rows[i] by {}
        assert(distinct_keys(init)) by {
            assert forall|i: int, j: int| 0 <= i < j < init.len() implies key_of(
                #[trigger] init[i],
            ) != key_of(#[trigger] init[j]) by {
                assert(init[i] == rows[i] && init[j] == rows[j]);
            }
        }
        assert forall|i: int| 0 <= i < init.len() implies !table.contains_key(
            key_of(#[trigger] init[i]),
        ) by {
            assert(init[i] == rows[i]);
        }
        lemma_fresh_batch_is_written(table, init);
        let before = insert_all(table, init);
        if before.contains_key(key_of(last)) {
            lemma_insert_all_only_adds(table, init, key_of(last));
            let i = choose|i: int| 0 <= i < init.len() && key_of(#[trigger] init[i]) == key_of(last);
            assert(init[i] == rows[i]);
            assert(false);
        }
        assert forall|i: int| 0 <= i < rows.len() implies insert_all(table, rows).contains_key(
            key_of(#[trigger] rows[i]),
        ) && insert_all(table, rows)[key_of(rows[i])] == rows[i] by {
            if i < rows.len() - 1 {
                assert(init[i] == rows[i]);
                assert(before.contains_key(key_of(init[i])));
            }
        }
    }
}

/// The rows of one checkpoint's updates have distinct keys: within a batch
/// from one checkpoint no row is dropped in favour of another.
pub proof fn lemma_checkpoint_rows_distinct(
    records: Seq<ProcessedObjInfo>,
    m: Map<ObjectId, ProcessedObjInfoView>,
)
    requires
        lists(records, m),
    ensures
        distinct_keys(rows_of(records)),
{
    let rows = rows_of(records);
    assert forall|i: int, j: int| 0 <= i < j < rows.len() implies key_of(#[trigger] rows[i])
        != key_of(#[trigger] rows[j]) by {
        let ids = record_ids(records);
        assert(ids[i].precedes(ids[j]));
        if key_of(rows[i]) == key_of(rows[j]) {
            lemma_key_names_object(records[i]@, records[j]@);
        }
    }
}

/// Committing is idempotent: a batch that is written a second time writes no
/// row and leaves the table as the first write left it.
pub proof fn lemma_commit_idempotent(table: Table, rows: Seq<StoredObjInfoView>)
    ensures
        insert_all(insert_all(table, rows), rows) == insert_all(table, rows),
        rows_written(insert_all(table, rows), rows) == 0,
{
    let once = insert_all(table, rows);
    assert forall|i: int| 0 <= i < rows.len() implies once.contains_key(
        key_of(#[trigger] rows[i]),
    ) by {
        lemma_insert_all_covers(table, rows, i);
    }
    lemma_insert_all_present(once, rows);
}

} // verus!
