use std::collections::{BTreeMap, BTreeSet};

use obj_info::{
    Address, Authenticator, CheckpointView, ConversionError, ObjInfo, ObjectId, ObjectSnapshot,
    Owner, ProcessedObjInfo, ProcessedObjInfoUpdate, TypeDescriptor, TypeMetadata,
};

fn dbg_addr(n: u8) -> Address {
    Address { hi: 0, lo: n as u128 }
}

fn object_id(n: u64) -> ObjectId {
    ObjectId::new(0, 0x1000 + n as u128)
}

fn gas_id(sender: u8) -> ObjectId {
    ObjectId::new(1, sender as u128)
}

fn coin_type() -> TypeMetadata {
    TypeMetadata::Typed(TypeDescriptor {
        package: String::from("0x2"),
        module: String::from("coin"),
        name: String::from("Coin"),
        instantiation: Some(vec![1, 7]),
    })
}

/// Plays transactions on a set of live objects and records, per checkpoint,
/// the objects that went in and the objects that are live afterwards.
struct TestCheckpointBuilder {
    next_sequence_number: u64,
    live: BTreeMap<ObjectId, ObjectSnapshot>,
    wrapped: BTreeMap<ObjectId, ObjectSnapshot>,
    inputs: BTreeMap<ObjectId, ObjectSnapshot>,
    outputs: BTreeMap<ObjectId, ObjectSnapshot>,
    touched: BTreeSet<ObjectId>,
    sender: u8,
    version: u64,
}

impl TestCheckpointBuilder {
    fn new(first_sequence_number: u64) -> Self {
        TestCheckpointBuilder {
            next_sequence_number: first_sequence_number,
            live: BTreeMap::new(),
            wrapped: BTreeMap::new(),
            inputs: BTreeMap::new(),
            outputs: BTreeMap::new(),
            touched: BTreeSet::new(),
            sender: 0,
            version: 1,
        }
    }

    fn read(&mut self, id: ObjectId) -> ObjectSnapshot {
        let object = self.live.get(&id).expect("the object is live").clone();
        if self.touched.insert(id) {
            self.inputs.insert(id, object.clone());
        }
        object
    }

    fn write(&mut self, object: ObjectSnapshot) {
        self.touched.insert(object.id);
        self.live.insert(object.id, object.clone());
        self.outputs.insert(object.id, object);
    }

    fn remove(&mut self, id: ObjectId) -> ObjectSnapshot {
        let object = self.read(id);
        self.live.remove(&id);
        self.outputs.remove(&id);
        object
    }

    fn start_transaction(mut self, sender: u8) -> Self {
        self.sender = sender;
        self.version += 1;
        let id = gas_id(sender);
        let gas = if self.live.contains_key(&id) {
            let mut gas = self.read(id);
            gas.version = self.version;
            gas.contents = self.version.to_be_bytes().to_vec();
            gas
        } else {
            // The gas coin exists before the first checkpoint.
            let gas = ObjectSnapshot {
                id,
                version: 1,
                owner: Owner::AddressOwner(dbg_addr(sender)),
                type_: coin_type(),
                contents: vec![0],
            };
            self.live.insert(id, gas.clone());
            let mut gas = self.read(id);
            gas.version = self.version;
            gas
        };
        self.write(gas);
        self
    }

    fn create(mut self, n: u64, owner: Owner) -> Self {
        let object = ObjectSnapshot {
            id: object_id(n),
            version: self.version,
            owner,
            type_: coin_type(),
            contents: vec![0],
        };
        self.write(object);
        self
    }

    fn create_owned_object(self, n: u64) -> Self {
        let owner = Owner::AddressOwner(dbg_addr(self.sender));
        self.create(n, owner)
    }

    fn create_shared_object(self, n: u64) -> Self {
        let owner = Owner::Shared { initial_shared_version: self.version };
        self.create(n, owner)
    }

    fn mutate_object(mut self, n: u64) -> Self {
        let mut object = self.read(object_id(n));
        object.version = self.version;
        object.contents.push(1);
        self.write(object);
        self
    }

    fn change_object_owner(mut self, n: u64, owner: Owner) -> Self {
        let mut object = self.read(object_id(n));
        object.version = self.version;
        object.owner = owner;
        self.write(object);
        self
    }

    fn transfer_object(self, n: u64, recipient: u8) -> Self {
        self.change_object_owner(n, Owner::AddressOwner(dbg_addr(recipient)))
    }

    fn delete_object(mut self, n: u64) -> Self {
        self.remove(object_id(n));
        self
    }

    fn wrap_object(mut self, n: u64) -> Self {
        let object = self.remove(object_id(n));
        self.wrapped.insert(object.id, object);
        self
    }

    fn unwrap_object(mut self, n: u64) -> Self {
        let mut object = self.wrapped.remove(&object_id(n)).expect("the object is wrapped");
        object.version = self.version;
        self.write(object);
        self
    }

    fn finish_transaction(self) -> Self {
        self
    }

    fn build_checkpoint(&mut self) -> CheckpointView {
        let sequence_number = self.next_sequence_number;
        self.next_sequence_number += 1;
        self.touched.clear();
        let inputs = std::mem::take(&mut self.inputs).into_values().collect();
        let outputs = std::mem::take(&mut self.outputs).into_values().collect();
        CheckpointView::new(sequence_number, inputs, outputs)
    }
}

#[test]
fn test_process_basics() {
    let mut builder = TestCheckpointBuilder::new(1);
    builder = builder
        .start_transaction(0)
        .create_owned_object(0)
        .finish_transaction();
    let checkpoint1 = builder.build_checkpoint();
    let result = ObjInfo.process(&checkpoint1).unwrap();
    assert_eq!(result.len(), 1);
    let processed = &result[0];
    assert_eq!(processed.cp_sequence_number, 1);
    assert!(matches!(
        processed.update,
        ProcessedObjInfoUpdate::Insert(_)
    ));

    builder = builder
        .start_transaction(0)
        .mutate_object(0)
        .finish_transaction();
    let checkpoint2 = builder.build_checkpoint();
    let result = ObjInfo.process(&checkpoint2).unwrap();
    assert!(result.is_empty());

    builder = builder
        .start_transaction(0)
        .transfer_object(0, 1)
        .finish_transaction();
    let checkpoint3 = builder.build_checkpoint();
    let result = ObjInfo.process(&checkpoint3).unwrap();
    assert_eq!(result.len(), 1);
    let processed = &result[0];
    assert_eq!(processed.cp_sequence_number, 3);
    assert!(matches!(
        processed.update,
        ProcessedObjInfoUpdate::Insert(_)
    ));

    builder = builder
        .start_transaction(0)
        .delete_object(0)
        .finish_transaction();
    let checkpoint4 = builder.build_checkpoint();
    let result = ObjInfo.process(&checkpoint4).unwrap();
    assert_eq!(result.len(), 1);
    let processed = &result[0];
    assert_eq!(processed.cp_sequence_number, 4);
    assert!(matches!(
        processed.update,
        ProcessedObjInfoUpdate::Delete(_)
    ));
}

#[test]
fn test_process_noop() {
    // An object is created and deleted in the same checkpoint: nothing is
    // written for it.
    let mut builder = TestCheckpointBuilder::new(1)
        .start_transaction(0)
        .create_owned_object(0)
        .finish_transaction()
        .start_transaction(0)
        .delete_object(0)
        .finish_transaction();
    let checkpoint = builder.build_checkpoint();
    let result = ObjInfo.process(&checkpoint).unwrap();
    assert!(result.is_empty());
}

#[test]
fn test_process_wrap() {
    let mut builder = TestCheckpointBuilder::new(1)
        .start_transaction(0)
        .create_owned_object(0)
        .finish_transaction();
    builder.build_checkpoint();

    builder = builder
        .start_transaction(0)
        .wrap_object(0)
        .finish_transaction();
    let checkpoint = builder.build_checkpoint();
    let result = ObjInfo.process(&checkpoint).unwrap();
    assert_eq!(result.len(), 1);
    let processed = &result[0];
    assert!(matches!(
        processed.update,
        ProcessedObjInfoUpdate::Delete(_)
    ));

    builder = builder
        .start_transaction(0)
        .unwrap_object(0)
        .finish_transaction();
    let checkpoint = builder.build_checkpoint();
    let result = ObjInfo.process(&checkpoint).unwrap();
    assert_eq!(result.len(), 1);
    let processed = &result[0];
    assert!(matches!(
        processed.update,
        ProcessedObjInfoUpdate::Insert(_)
    ));
}

#[test]
fn test_process_shared_object() {
    let mut builder = TestCheckpointBuilder::new(1)
        .start_transaction(0)
        .create_shared_object(0)
        .finish_transaction();
    let checkpoint = builder.build_checkpoint();
    let result = ObjInfo.process(&checkpoint).unwrap();
    assert_eq!(result.len(), 1);
    let processed = &result[0];
    assert!(matches!(
        processed.update,
        ProcessedObjInfoUpdate::Insert(_)
    ));
}

#[test]
fn test_process_immutable_object() {
    let mut builder = TestCheckpointBuilder::new(1)
        .start_transaction(0)
        .create_owned_object(0)
        .finish_transaction();
    builder.build_checkpoint();

    builder = builder
        .start_transaction(0)
        .change_object_owner(0, Owner::Immutable)
        .finish_transaction();
    let checkpoint = builder.build_checkpoint();
    let result = ObjInfo.process(&checkpoint).unwrap();
    assert_eq!(result.len(), 1);
    let processed = &result[0];
    assert!(matches!(
        processed.update,
        ProcessedObjInfoUpdate::Insert(_)
    ));
}

#[test]
fn test_process_object_owned_object() {
    let mut builder = TestCheckpointBuilder::new(1)
        .start_transaction(0)
        .create_owned_object(0)
        .finish_transaction();
    builder.build_checkpoint();

    builder = builder
        .start_transaction(0)
        .change_object_owner(0, Owner::ObjectOwner(dbg_addr(0)))
        .finish_transaction();
    let checkpoint = builder.build_checkpoint();
    let result = ObjInfo.process(&checkpoint).unwrap();
    assert_eq!(result.len(), 1);
    let processed = &result[0];
    assert!(matches!(
        processed.update,
        ProcessedObjInfoUpdate::Insert(_)
    ));
}

#[test]
fn test_process_consensus_v2_object() {
    let mut builder = TestCheckpointBuilder::new(1)
        .start_transaction(0)
        .create_owned_object(0)
        .finish_transaction();
    builder.build_checkpoint();

    builder = builder
        .start_transaction(0)
        .change_object_owner(
            0,
            Owner::ConsensusV2 {
                start_version: 1,
                authenticator: Authenticator::SingleOwner(dbg_addr(0)),
            },
        )
        .finish_transaction();
    let checkpoint = builder.build_checkpoint();
    let result = ObjInfo.process(&checkpoint).unwrap();
    assert_eq!(result.len(), 1);
    let processed = &result[0];
    assert!(matches!(
        processed.update,
        ProcessedObjInfoUpdate::Insert(_)
    ));
}

fn snapshot(n: u64, owner: Owner, contents: Vec<u8>) -> ObjectSnapshot {
    ObjectSnapshot { id: object_id(n), version: 1, owner, type_: coin_type(), contents }
}

fn insert_of(cp: u64, object: ObjectSnapshot) -> ProcessedObjInfo {
    ProcessedObjInfo { cp_sequence_number: cp, update: ProcessedObjInfoUpdate::Insert(object) }
}

fn delete_of(cp: u64, n: u64) -> ProcessedObjInfo {
    ProcessedObjInfo { cp_sequence_number: cp, update: ProcessedObjInfoUpdate::Delete(object_id(n)) }
}

#[test]
fn process_gives_exact_updates_in_ascending_order() {
    let a = Owner::AddressOwner(dbg_addr(1));
    let b = Owner::AddressOwner(dbg_addr(2));
    // 5 is deleted, 4 changes hands, 3 only changes its contents, 2 is new,
    // 1 is wrapped; identifiers are given out of order on purpose.
    let inputs = vec![
        snapshot(5, a, vec![5]),
        snapshot(3, a, vec![3]),
        snapshot(4, a, vec![4]),
        snapshot(1, Owner::Immutable, vec![1]),
    ];
    let outputs = vec![
        snapshot(4, b, vec![4]),
        snapshot(2, Owner::Shared { initial_shared_version: 9 }, vec![2]),
        snapshot(3, a, vec![3, 3]),
    ];
    let checkpoint = CheckpointView::new(7, inputs, outputs);
    let result = ObjInfo.process(&checkpoint).unwrap();
    assert_eq!(
        result,
        vec![
            delete_of(7, 1),
            insert_of(7, snapshot(2, Owner::Shared { initial_shared_version: 9 }, vec![2])),
            insert_of(7, snapshot(4, b, vec![4])),
            delete_of(7, 5),
        ]
    );
}

#[test]
fn process_orders_by_high_half_first() {
    let low = ObjectSnapshot {
        id: ObjectId::new(0, u128::MAX),
        version: 1,
        owner: Owner::Immutable,
        type_: TypeMetadata::Untyped,
        contents: vec![],
    };
    let high = ObjectSnapshot { id: ObjectId::new(1, 0), ..low.clone() };
    let checkpoint = CheckpointView::new(0, vec![], vec![high.clone(), low.clone()]);
    let result = ObjInfo.process(&checkpoint).unwrap();
    assert_eq!(result, vec![insert_of(0, low), insert_of(0, high)]);
    assert!(ObjectId::new(0, u128::MAX).less_than(&ObjectId::new(1, 0)));
    assert!(!ObjectId::new(1, 0).less_than(&ObjectId::new(0, u128::MAX)));
    assert!(!ObjectId::new(1, 0).less_than(&ObjectId::new(1, 0)));
}

#[test]
fn process_of_empty_checkpoint_is_empty() {
    let checkpoint = CheckpointView::new(3, vec![], vec![]);
    assert_eq!(ObjInfo.process(&checkpoint), Ok(vec![]));
}

#[test]
fn process_has_one_update_per_object() {
    let a = Owner::AddressOwner(dbg_addr(1));
    let b = Owner::AddressOwner(dbg_addr(2));
    // The same identifier several times over: among the inputs the first
    // snapshot counts, among the live outputs the last.
    let inputs = vec![snapshot(1, b, vec![1]), snapshot(1, a, vec![2]), snapshot(2, a, vec![])];
    let outputs = vec![snapshot(1, b, vec![3]), snapshot(1, a, vec![4]), snapshot(1, a, vec![5])];
    let checkpoint = CheckpointView::new(2, inputs, outputs);
    let result = ObjInfo.process(&checkpoint).unwrap();
    assert_eq!(result, vec![insert_of(2, snapshot(1, a, vec![5])), delete_of(2, 2)]);
    let ids: BTreeSet<(u128, u128)> =
        result.iter().map(|r| (r.object_id().hi, r.object_id().lo)).collect();
    assert_eq!(ids.len(), result.len());
}

#[test]
fn mutation_with_same_owner_gives_nothing() {
    let owner = Owner::ConsensusV2 {
        start_version: 4,
        authenticator: Authenticator::SingleOwner(dbg_addr(3)),
    };
    let checkpoint = CheckpointView::new(
        2,
        vec![snapshot(1, owner, vec![1])],
        vec![snapshot(1, owner, vec![2, 2])],
    );
    assert_eq!(ObjInfo.process(&checkpoint), Ok(vec![]));
}

#[test]
fn every_owner_change_counts() {
    let owners = [
        Owner::AddressOwner(dbg_addr(1)),
        Owner::AddressOwner(dbg_addr(2)),
        Owner::ObjectOwner(dbg_addr(1)),
        Owner::Shared { initial_shared_version: 1 },
        Owner::Shared { initial_shared_version: 2 },
        Owner::Immutable,
        Owner::ConsensusV2 { start_version: 1, authenticator: Authenticator::SingleOwner(dbg_addr(1)) },
        Owner::ConsensusV2 { start_version: 2, authenticator: Authenticator::SingleOwner(dbg_addr(1)) },
        Owner::ConsensusV2 { start_version: 1, authenticator: Authenticator::SingleOwner(dbg_addr(2)) },
    ];
    for (i, before) in owners.iter().enumerate() {
        for (j, after) in owners.iter().enumerate() {
            let checkpoint = CheckpointView::new(
                5,
                vec![snapshot(1, *before, vec![])],
                vec![snapshot(1, *after, vec![])],
            );
            let result = ObjInfo.process(&checkpoint).unwrap();
            if i == j {
                assert!(result.is_empty());
            } else {
                assert_eq!(result, vec![insert_of(5, snapshot(1, *after, vec![]))]);
            }
        }
    }
}

#[test]
fn process_fails_on_least_malformed_insert() {
    let a = Owner::AddressOwner(dbg_addr(1));
    let mut bad3 = snapshot(3, a, vec![]);
    bad3.type_ = TypeMetadata::Malformed;
    let mut bad2 = snapshot(2, a, vec![]);
    bad2.type_ = TypeMetadata::Malformed;
    let checkpoint =
        CheckpointView::new(1, vec![], vec![bad3.clone(), snapshot(1, a, vec![]), bad2.clone()]);
    assert_eq!(
        ObjInfo.process(&checkpoint),
        Err(ConversionError::MalformedType { object_id: object_id(2) })
    );
}

#[test]
fn process_ignores_malformed_objects_without_insert() {
    let a = Owner::AddressOwner(dbg_addr(1));
    let mut bad = snapshot(3, a, vec![]);
    bad.type_ = TypeMetadata::Malformed;
    // Unchanged owner: no update is due, so nothing has to be converted.
    let same = CheckpointView::new(1, vec![bad.clone()], vec![bad.clone()]);
    assert_eq!(ObjInfo.process(&same), Ok(vec![]));
    // Deleted: the tombstone does not need the type.
    let gone = CheckpointView::new(1, vec![bad], vec![]);
    assert_eq!(ObjInfo.process(&gone), Ok(vec![delete_of(1, 3)]));
}

#[test]
fn first_input_and_last_output_count() {
    let a = Owner::AddressOwner(dbg_addr(1));
    let b = Owner::AddressOwner(dbg_addr(2));
    // Before the checkpoint the object was owned by `a`; a first transaction
    // hands it to `b`, a second one hands it back.
    let inputs = vec![snapshot(1, a, vec![1]), snapshot(1, b, vec![2])];
    let outputs = vec![snapshot(1, b, vec![2]), snapshot(1, a, vec![3])];
    let back = CheckpointView::new(6, inputs.clone(), outputs);
    assert_eq!(ObjInfo.process(&back), Ok(vec![]));
    // Had the second transaction only changed the contents, the owner would
    // have changed over the checkpoint.
    let outputs = vec![snapshot(1, b, vec![2]), snapshot(1, b, vec![3])];
    let over = CheckpointView::new(6, inputs, outputs);
    assert_eq!(ObjInfo.process(&over), Ok(vec![insert_of(6, snapshot(1, b, vec![3]))]));
}
