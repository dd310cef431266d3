//! Diffing of per-checkpoint object state into updates of an index of object
//! existence and ownership, and the mapping of those updates onto stored rows.
//!
//! For one checkpoint, [`ObjInfo::process`] compares the objects that the
//! checkpoint's transactions consumed with the objects that are live once the
//! checkpoint has been applied, and yields at most one update per object: a
//! tombstone for an object that is no longer live, an insert for an object
//! that is new or whose owner changed. [`ObjInfo::stored_rows`] turns a batch
//! of updates into the rows that the caller writes in one conflict-ignoring
//! bulk insert, and [`ObjInfo::commit_result`] turns the store's answer into
//! the commit's; [`table`] states what that write does to the table.
pub mod object;
pub mod ordered_map;
pub mod checkpoint;
pub mod diff;
pub mod rows;
pub mod table;
pub mod laws;

pub use checkpoint::CheckpointView;
pub use diff::{ObjInfo, ProcessedObjInfo, ProcessedObjInfoUpdate};
pub use object::{
    Address, Authenticator, ObjectId, ObjectSnapshot, Owner, TypeDescriptor, TypeMetadata,
};
pub use rows::{CommitError, ConversionError, StoredObjInfo, StoredOwnerKind};
