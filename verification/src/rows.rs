//! The stored form of index updates.
use vstd::prelude::*;
use crate::diff::{ObjInfo, ProcessedObjInfo, ProcessedObjInfoUpdate, ProcessedObjInfoView, UpdateView};
use crate::object::{
    copy_bytes, opt_bytes_view, Address, ObjectId, ObjectSnapshot, ObjectSnapshotView, Owner,
    TypeMetadata, TypeMetadataView,
};

verus! {

/// Why an update could not be brought into stored form.
#[derive(Clone, Copy, Debug, PartialEq, Eq, Structural)]
pub enum ConversionError {
    /// The type of the object is malformed.
    MalformedType { object_id: ObjectId },
    /// The checkpoint's sequence number is above the greatest number that the
    /// signed column of the index holds.
    SequenceNumberOutOfRange { object_id: ObjectId, cp_sequence_number: u64 },
}

/// Why a commit failed.
#[derive(Clone, Debug, PartialEq, Eq)]
pub enum CommitError<E> {
    /// An update of the batch could not be brought into stored form; nothing
    /// was handed to the store.
    Conversion(ConversionError),
    /// The store failed the write.
    Write(E),
}

/// The kind of an object's owner, as the index stores it.
#[derive(Clone, Copy, Debug, PartialEq, Eq, Structural)]
pub enum StoredOwnerKind {
    Immutable,
    Address,
    Object,
    Shared,
}

/// One row of the index: the state of one object as of one checkpoint. A
/// tombstone has nothing but the object and the checkpoint.
#[derive(Clone, Debug, PartialEq, Eq)]
pub struct StoredObjInfo {
    pub object_id: Vec<u8>,
    pub cp_sequence_number: i64,
    pub owner_kind: Option<StoredOwnerKind>,
    pub owner_id: Option<Vec<u8>>,
    pub package: Option<String>,
    pub module: Option<String>,
    pub name: Option<String>,
    pub instantiation: Option<Vec<u8>>,
}

/// The mathematical value of a [`StoredObjInfo`].
pub struct StoredObjInfoView {
    pub object_id: Seq<u8>,
    pub cp_sequence_number: i64,
    pub owner_kind: Option<StoredOwnerKind>,
    pub owner_id: Option<Seq<u8>>,
    pub package: Option<Seq<char>>,
    pub module: Option<Seq<char>>,
    pub name: Option<Seq<char>>,
    pub instantiation: Option<Seq<u8>>,
}

/// The mathematical value of an optional string.
pub open spec fn opt_string_view(s: Option<String>) -> Option<Seq<char>> {
    match s {
        Some(s) => Some(s@),
        None => None,
    }
}

impl View for StoredObjInfo {
    type V = StoredObjInfoView;

    open spec fn view(&self) -> StoredObjInfoView {
        StoredObjInfoView {
            object_id: self.object_id@,
            cp_sequence_number: self.cp_sequence_number,
            owner_kind: self.owner_kind,
            owner_id: opt_bytes_view(self.owner_id),
            package: opt_string_view(self.package),
            module: opt_string_view(self.module),
            name: opt_string_view(self.name),
            instantiation: opt_bytes_view(self.instantiation),
        }
    }
}

/// The stored kind of an owner. A consensus-versioned object under a single
/// owner is stored like an address-owned one.
pub open spec fn owner_kind_of(owner: Owner) -> StoredOwnerKind {
    match owner {
        Owner::AddressOwner(_) => StoredOwnerKind::Address,
        Owner::ObjectOwner(_) => StoredOwnerKind::Object,
        Owner::Shared { .. } => StoredOwnerKind::Shared,
        Owner::Immutable => StoredOwnerKind::Immutable,
        Owner::ConsensusV2 { .. } => StoredOwnerKind::Address,
    }
}

/// The address under which an owner can be found, if it has one.
pub open spec fn owner_id_of(owner: Owner) -> Option<Address> {
    match owner {
        Owner::AddressOwner(a) => Some(a),
        Owner::ObjectOwner(o) => Some(o),
        Owner::Shared { .. } => None,
        Owner::Immutable => None,
        Owner::ConsensusV2 { authenticator, .. } => Some(authenticator.single_owner()),
    }
}

/// Whether the index can hold the sequence number: its column is signed.
pub open spec fn fits_stored(cp: u64) -> bool {
    cp <= i64::MAX
}

/// The sequence number of a checkpoint as the index stores it: the same
/// number.
pub open spec fn stored_sequence_number(cp: u64) -> i64
    recommends
        fits_stored(cp),
{
    cp as i64
}

/// The sequence number of a checkpoint as the index stores it, if the index
/// can hold it.
pub fn to_stored_sequence_number(cp: u64) -> (stored: Option<i64>)
    ensures
        stored is Some == fits_stored(cp),
        stored is Some ==> stored->Some_0 == cp,
{
    if cp <= 0x7fff_ffff_ffff_ffff {
        Some(cp as i64)
    } else {
        None
    }
}

/// Whether the update can be stored: the index can hold its sequence number,
/// and the object's type, if it is an insert, is not malformed.
pub open spec fn storable(update: ProcessedObjInfoView) -> bool {
    fits_stored(update.cp_sequence_number) && update.convertible()
}

/// Why an update that cannot be stored cannot: its sequence number, where
/// that does not fit, else its object's type.
pub open spec fn conversion_error(update: ProcessedObjInfoView) -> ConversionError {
    if !fits_stored(update.cp_sequence_number) {
        ConversionError::SequenceNumberOutOfRange {
            object_id: update.object_id(),
            cp_sequence_number: update.cp_sequence_number,
        }
    } else {
        ConversionError::MalformedType { object_id: update.object_id() }
    }
}

/// The row that marks `object_id` as no longer live from the checkpoint on.
pub open spec fn tombstone(object_id: ObjectId, cp_sequence_number: i64) -> StoredObjInfoView {
    StoredObjInfoView {
        object_id: object_id.bytes(),
        cp_sequence_number,
        owner_kind: None,
        owner_id: None,
        package: None,
        module: None,
        name: None,
        instantiation: None,
    }
}

/// The row for a live object whose type is not malformed.
pub open spec fn row_of_object(
    object: ObjectSnapshotView,
    cp_sequence_number: i64,
) -> StoredObjInfoView {
    StoredObjInfoView {
        object_id: object.id.bytes(),
        cp_sequence_number,
        owner_kind: Some(owner_kind_of(object.owner)),
        owner_id: match owner_id_of(object.owner) {
            Some(a) => Some(a.bytes()),
            None => None,
        },
        package: match object.type_ {
            TypeMetadataView::Typed(t) => Some(t.package),
            _ => None,
        },
        module: match object.type_ {
            TypeMetadataView::Typed(t) => Some(t.module),
            _ => None,
        },
        name: match object.type_ {
            TypeMetadataView::Typed(t) => Some(t.name),
            _ => None,
        },
        instantiation: match object.type_ {
            TypeMetadataView::Typed(t) => t.instantiation,
            _ => None,
        },
    }
}

/// The row for an update that can be stored.
pub open spec fn row_of(update: ProcessedObjInfoView) -> StoredObjInfoView {
    match update.update {
        UpdateView::Insert(object) => row_of_object(
            object,
            stored_sequence_number(update.cp_sequence_number),
        ),
        UpdateView::Delete(object_id) => tombstone(
            object_id,
            stored_sequence_number(update.cp_sequence_number),
        ),
    }
}

/// The row of an update that can be stored carries the update's own object
/// and its own sequence number, and is a tombstone exactly for a delete.
pub proof fn lemma_row_carries_update(update: ProcessedObjInfoView)
    requires
        storable(update),
    ensures
        row_of(update).cp_sequence_number == update.cp_sequence_number,
        row_of(update).object_id == update.object_id().bytes(),
        row_of(update).owner_kind is None <==> update.update is Delete,
{
}

impl Owner {
    /// The stored kind of this owner.
    pub fn stored_kind(&self) -> (k: StoredOwnerKind)
        ensures
            k == owner_kind_of(*self),
    {
        match self {
            Owner::AddressOwner(_) => StoredOwnerKind::Address,
            Owner::ObjectOwner(_) => StoredOwnerKind::Object,
            Owner::Shared { .. } => StoredOwnerKind::Shared,
            Owner::Immutable => StoredOwnerKind::Immutable,
            Owner::ConsensusV2 { .. } => StoredOwnerKind::Address,
        }
    }

    /// The address under which this owner can be found, if it has one.
    pub fn stored_id(&self) -> (a: Option<Address>)
        ensures
            a == owner_id_of(*self),
    {
        match self {
            Owner::AddressOwner(a) => Some(*a),
            Owner::ObjectOwner(o) => Some(*o),
            Owner::Shared { .. } => None,
            Owner::Immutable => None,
            Owner::ConsensusV2 { authenticator, .. } => Some(authenticator.as_single_owner()),
        }
    }
}

impl StoredObjInfo {
    /// The number of columns of a row.
    pub const FIELD_COUNT: usize = 8;

    /// The row for a live object as of the given checkpoint: its owner's kind
    /// and address and, for a typed object, its type.
    ///
    /// Fails exactly where the object's type is malformed.
    pub fn from_object(object: &ObjectSnapshot, cp_sequence_number: i64) -> (r: Result<
        StoredObjInfo,
        ConversionError,
    >)
        ensures
            match r {
                Ok(row) => !(object@.type_ is Malformed) && row@ == row_of_object(
                    object@,
                    cp_sequence_number,
                ),
                Err(e) => object@.type_ is Malformed && e == (ConversionError::MalformedType {
                    object_id: object.id,
                }),
            },
    {
        let owner_kind = Some(object.owner.stored_kind());
        let owner_id = match object.owner.stored_id() {
            Some(a) => Some(a.to_vec()),
            None => None,
        };
        match &object.type_ {
            TypeMetadata::Malformed => Err(
                ConversionError::MalformedType { object_id: object.id },
            ),
            TypeMetadata::Untyped => Ok(
                StoredObjInfo {
                    object_id: object.id.to_vec(),
                    cp_sequence_number,
                    owner_kind,
                    owner_id,
                    package: None,
                    module: None,
                    name: None,
                    instantiation: None,
                },
            ),
            TypeMetadata::Typed(t) => {
                let instantiation = match &t.instantiation {
                    Some(b) => Some(copy_bytes(b)),
                    None => None,
                };
                Ok(
                    StoredObjInfo {
                        object_id: object.id.to_vec(),
                        cp_sequence_number,
                        owner_kind,
                        owner_id,
                        package: Some(t.package.clone()),
                        module: Some(t.module.clone()),
                        name: Some(t.name.clone()),
                        instantiation,
                    },
                )
            },
        }
    }
}

impl ProcessedObjInfo {
    /// The number of columns that one update fills when it is written.
    pub const FIELD_COUNT: usize = StoredObjInfo::FIELD_COUNT;

    /// The row that stores this update: the object's row for an insert, a
    /// tombstone for a delete.
    ///
    /// The row carries the update's own sequence number. Fails exactly where
    /// the index cannot hold that number, or the update is an insert of an
    /// object whose type is malformed.
    pub fn try_into(&self) -> (r: Result<StoredObjInfo, ConversionError>)
        ensures
            match r {
                Ok(row) => {
                    &&& storable(self@)
                    &&& row@ == row_of(self@)
                    &&& row.cp_sequence_number == self.cp_sequence_number
                },
                Err(e) => !storable(self@) && e == conversion_error(self@),
            },
    {
        let cp_sequence_number: i64 = match to_stored_sequence_number(self.cp_sequence_number) {
            Some(n) => n,
            None => {
                return Err(
                    ConversionError::SequenceNumberOutOfRange {
                        object_id: self.object_id(),
                        cp_sequence_number: self.cp_sequence_number,
                    },
                );
            },
        };
        match &self.update {
            ProcessedObjInfoUpdate::Insert(object) => StoredObjInfo::from_object(
                object,
                cp_sequence_number,
            ),
            ProcessedObjInfoUpdate::Delete(object_id) => Ok(
                StoredObjInfo {
                    object_id: object_id.to_vec(),
                    cp_sequence_number,
                    owner_kind: None,
                    owner_id: None,
                    package: None,
                    module: None,
                    name: None,
                    instantiation: None,
                },
            ),
        }
    }
}

/// The rows of a batch of updates, in the updates' order.
pub open spec fn rows_of(values: Seq<ProcessedObjInfo>) -> Seq<StoredObjInfoView> {
    values.map_values(|v: ProcessedObjInfo| row_of(v@))
}

/// The values of a batch of rows.
pub open spec fn row_views(rows: Seq<StoredObjInfo>) -> Seq<StoredObjInfoView> {
    rows.map_values(|r: StoredObjInfo| r@)
}

/// Whether `values[at]` is the first update of the batch that cannot be stored.
pub open spec fn first_failure(values: Seq<ProcessedObjInfo>, at: int) -> bool {
    &&& 0 <= at < values.len()
    &&& !storable(values[at]@)
    &&& forall|j: int| 0 <= j < at ==> storable((#[trigger] values[j])@)
}

impl ObjInfo {
    /// The rows that a commit of `values` writes, in one batch: one row per
    /// update, in the updates' order.
    ///
    /// Fails, with no rows at all, exactly where some update cannot be stored,
    /// with the reason for the first such update.
    pub fn stored_rows(values: &[ProcessedObjInfo]) -> (r: Result<
        Vec<StoredObjInfo>,
        ConversionError,
    >)
        ensures
            match r {
                Ok(rows) => {
                    &&& forall|i: int| 0 <= i < values.len() ==> storable((#[trigger] values[i])@)
                    &&& row_views(rows@) == rows_of(values@)
                },
                Err(e) => exists|at: int|
                    first_failure(values@, at) && e == conversion_error((#[trigger] values[at])@),
            },
    {
        let mut stored: Vec<StoredObjInfo> = Vec::new();
        let mut i: usize = 0;
        while i < values.len()
            invariant
                i <= values.len(),
                stored@.len() == i,
                forall|j: int| 0 <= j < i ==> storable((#[trigger] values[j])@),
                row_views(stored@) == rows_of(values@.take(i as int)),
            decreases values.len() - i,
        {
            match ProcessedObjInfo::try_into(&values[i]) {
                Ok(row) => {
                    let ghost before = stored@;
                    stored.push(row);
                    proof {
                        let so_far = rows_of(values@.take(i as int));
                        let next = rows_of(values@.take(i + 1));
                        assert(values@.take(i + 1).len() == i + 1);
                        assert(row_views(stored@).len() == next.len());
                        assert forall|k: int| 0 <= k < next.len() implies row_views(stored@)[k]
                            == next[k] by {
                            if k < i {
                                assert(row_views(before)[k] == so_far[k]);
                                assert(stored@[k] == before[k]);
                                assert(values@.take(i as int)[k] == values@.take(i + 1)[k]);
                            }
                        }
                        assert(row_views(stored@) =~= next);
                    }
                },
                Err(e) => {
                    assert(first_failure(values@, i as int));
                    return Err(e);
                },
            }
            i += 1;
        }
        assert(values@.take(i as int) =~= values@);
        Ok(stored)
    }

    /// What a commit returns once the store has answered the bulk write of
    /// its rows: the number of rows that the store reports as written, which
    /// may be less than the number handed to it, or the store's failure.
    pub fn commit_result<E>(answer: Result<usize, E>) -> (r: Result<usize, CommitError<E>>)
        ensures
            r == match answer {
                Ok(written) => Ok::<usize, CommitError<E>>(written),
                Err(e) => Err(CommitError::Write(e)),
            },
    {
        match answer {
            Ok(written) => Ok(written),
            Err(e) => Err(CommitError::Write(e)),
        }
    }
}

} // verus!
