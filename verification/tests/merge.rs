use prisma_crdt::merge::key::OperationId;
use prisma_crdt::merge::key::RecordKey;
use prisma_crdt::merge::replica::Outcome;
use prisma_crdt::merge::replica::Replica;
use prisma_crdt::merge::schema::ModelKind;
use prisma_crdt::merge::schema::Reference;
use prisma_crdt::merge::schema::Schema;
use prisma_crdt::owned::OwnedOperation;
use prisma_crdt::owned::OwnedOperationData;
use prisma_crdt::relation::RelationOperationData;
use prisma_crdt::shared::SharedOperationData;
use prisma_crdt::table::Table;
use prisma_crdt::value::FieldMap;
use prisma_crdt::value::SyncID;
use prisma_crdt::CRDTOperation;
use prisma_crdt::CRDTOperationType;

fn schema() -> Schema {
    let mut schema: Schema = Table::new();
    schema.push("Tag".to_string(), ModelKind::Shared);
    schema.push("File".to_string(), ModelKind::Shared);
    schema.push(
        "TagOnFile".to_string(),
        ModelKind::Relation { item: "Tag".to_string(), group: "File".to_string() },
    );
    schema.push(
        "Location".to_string(),
        ModelKind::Owned { id: vec!["id".to_string()], compound: false, references: vec![] },
    );
    schema.push(
        "FilePath".to_string(),
        ModelKind::Owned {
            id: vec!["id".to_string(), "location_id".to_string()],
            compound: true,
            references: vec![Reference { field: "location_id".to_string(), target: "Location".to_string() }],
        },
    );
    schema.push("Job".to_string(), ModelKind::Local);
    schema
}

fn fields(pairs: &[(&str, &[u8])]) -> FieldMap {
    let mut map: FieldMap = Table::new();
    for (name, value) in pairs {
        map.insert(name.to_string(), value.to_vec());
    }
    map
}

fn shared(node: u8, t: u64, model: &str, id: u8, data: SharedOperationData) -> CRDTOperation {
    CRDTOperation::new(vec![node], t, CRDTOperationType::shared(vec![id], model, data))
}

fn edge(node: u8, t: u64, item: u8, group: u8, data: RelationOperationData) -> CRDTOperation {
    CRDTOperation::new(
        vec![node],
        t,
        CRDTOperationType::relation("TagOnFile", SyncID::Single(vec![item]), SyncID::Single(vec![group]), data),
    )
}

fn owned(node: u8, t: u64, model: &str, data: Vec<OwnedOperationData>) -> CRDTOperation {
    CRDTOperation::new(vec![node], t, CRDTOperationType::Owned(OwnedOperation { model: model.to_string(), data }))
}

fn row(model: &str, id: u8) -> RecordKey {
    RecordKey::Row { model: model.to_string(), id: SyncID::Single(vec![id]) }
}

fn edge_key(item: u8, group: u8) -> RecordKey {
    RecordKey::Edge {
        relation: "TagOnFile".to_string(),
        item: SyncID::Single(vec![item]),
        group: SyncID::Single(vec![group]),
    }
}

fn value_of(replica: &Replica, key: &RecordKey, field: &str) -> Option<Vec<u8>> {
    replica.record(key).and_then(|r| r.value(&field.to_string()).cloned())
}

/// The state without the order of its tables.
fn canonical(replica: &Replica) -> (Vec<String>, Vec<String>, Vec<String>) {
    let mut seen: Vec<String> = replica.seen.entries.iter().map(|e| format!("{:?}", e.0)).collect();
    seen.sort();
    let mut records: Vec<String> = replica
        .records
        .entries
        .iter()
        .map(|(key, record)| {
            let mut cells: Vec<String> = record.fields.entries.iter().map(|c| format!("{:?}", c)).collect();
            cells.sort();
            format!("{:?} {:?} {:?} {:?}", key, record.created, record.tombstone, cells)
        })
        .collect();
    records.sort();
    let mut pending: Vec<String> = replica.pending.entries.iter().map(|e| format!("{:?}", e)).collect();
    pending.sort();
    (seen, records, pending)
}

fn run(ops: &[CRDTOperation], capacity: usize) -> Replica {
    let mut replica = Replica::new(schema(), capacity);
    for op in ops {
        replica.apply(op.clone());
    }
    replica
}

#[test]
fn create_then_update_in_order() {
    let mut replica = Replica::new(schema(), 8);
    let create = shared(1, 10, "Tag", 7, SharedOperationData::create_unique(fields(&[("f", &[1])])));
    let update = shared(2, 12, "Tag", 7, SharedOperationData::update("f".to_string(), vec![2]));
    assert_eq!(replica.apply(create), Outcome::Applied);
    assert_eq!(value_of(&replica, &row("Tag", 7), "f"), Some(vec![1]));
    assert_eq!(replica.apply(update), Outcome::Applied);
    assert_eq!(value_of(&replica, &row("Tag", 7), "f"), Some(vec![2]));
    assert_eq!(replica.pending.len(), 0);
}

#[test]
fn update_before_create_waits_and_is_applied() {
    let mut replica = Replica::new(schema(), 8);
    let create = shared(1, 10, "Tag", 7, SharedOperationData::create_unique(fields(&[("f", &[1])])));
    let update = shared(2, 12, "Tag", 7, SharedOperationData::update("f".to_string(), vec![2]));
    assert_eq!(replica.apply(update), Outcome::Parked);
    assert!(replica.record(&row("Tag", 7)).is_none());
    assert_eq!(replica.pending.len(), 1);
    assert_eq!(replica.apply(create), Outcome::Applied);
    assert_eq!(value_of(&replica, &row("Tag", 7), "f"), Some(vec![2]));
    assert_eq!(replica.pending.len(), 0);
    assert_eq!(replica.seen.len(), 2);
}

#[test]
fn relation_create_twice_makes_one_edge() {
    let mut replica = Replica::new(schema(), 8);
    replica.apply(shared(1, 1, "Tag", 1, SharedOperationData::create_atomic()));
    replica.apply(shared(1, 2, "File", 2, SharedOperationData::create_atomic()));
    let create = edge(1, 3, 1, 2, RelationOperationData::create());
    assert_eq!(replica.apply(create.clone()), Outcome::Applied);
    let once = canonical(&replica);
    assert_eq!(replica.apply(create), Outcome::Duplicate);
    assert_eq!(canonical(&replica), once);
    // the same edge, made by another node
    assert_eq!(replica.apply(edge(2, 4, 1, 2, RelationOperationData::create())), Outcome::Applied);
    let edges = replica.records.entries.iter().filter(|e| matches!(e.0, RecordKey::Edge { .. })).count();
    assert_eq!(edges, 1);
    assert!(replica.record(&edge_key(1, 2)).unwrap().is_live());
}

#[test]
fn owned_sequence_replayed_in_order() {
    let ops = vec![
        owned(1, 1, "Location", vec![OwnedOperationData::Create(fields(&[("id", &[0]), ("name", b"Location 0")]))]),
        owned(
            1,
            2,
            "FilePath",
            vec![OwnedOperationData::Create(fields(&[("id", &[5]), ("location_id", &[0]), ("name", b"File 0")]))],
        ),
        owned(
            1,
            3,
            "FilePath",
            vec![OwnedOperationData::Update(fields(&[("id", &[5]), ("location_id", &[0]), ("name", b"File 1")]))],
        ),
        owned(1, 4, "Location", vec![OwnedOperationData::Create(fields(&[("id", &[9]), ("name", b"gone")]))]),
        owned(1, 5, "Location", vec![OwnedOperationData::Delete(SyncID::Single(vec![9]))]),
    ];
    let origin = run(&ops, 8);
    let replay = run(&ops, 8);
    assert_eq!(canonical(&origin), canonical(&replay));
    assert_eq!(replay.records.len(), 2);
    assert_eq!(value_of(&replay, &row("Location", 0), "name"), Some(b"Location 0".to_vec()));
    let path = RecordKey::Row {
        model: "FilePath".to_string(),
        id: SyncID::Compound(fields(&[("id", &[5]), ("location_id", &[0])])),
    };
    assert_eq!(value_of(&replay, &path, "name"), Some(b"File 1".to_vec()));
    assert!(replay.record(&row("Location", 9)).is_none());
}

#[test]
fn owned_operation_waits_for_the_record_it_refers_to() {
    let mut replica = Replica::new(schema(), 8);
    let path = owned(
        1,
        2,
        "FilePath",
        vec![OwnedOperationData::Create(fields(&[("id", &[5]), ("location_id", &[0]), ("name", b"File 0")]))],
    );
    assert_eq!(replica.apply(path), Outcome::Parked);
    let location =
        owned(1, 1, "Location", vec![OwnedOperationData::Create(fields(&[("id", &[0]), ("name", b"L")]))]);
    assert_eq!(replica.apply(location), Outcome::Applied);
    assert_eq!(replica.records.len(), 2);
    assert_eq!(replica.pending.len(), 0);
}

#[test]
fn stale_update_after_delete_is_discarded() {
    let mut replica = Replica::new(schema(), 8);
    replica.apply(shared(1, 10, "Tag", 3, SharedOperationData::create_unique(fields(&[("f", &[1])]))));
    assert_eq!(replica.apply(shared(1, 20, "Tag", 3, SharedOperationData::delete())), Outcome::Applied);
    let deleted = canonical(&replica).1;
    assert_eq!(
        replica.apply(shared(2, 15, "Tag", 3, SharedOperationData::update("f".to_string(), vec![5]))),
        Outcome::Applied
    );
    assert_eq!(canonical(&replica).1, deleted);
    let record = replica.record(&row("Tag", 3)).unwrap();
    assert!(!record.is_live());
    assert_eq!(record.tombstone, Some(20));
    assert_eq!(record.value(&"f".to_string()), None);
}

#[test]
fn later_create_brings_a_deleted_record_back() {
    let mut replica = Replica::new(schema(), 8);
    replica.apply(shared(1, 10, "Tag", 3, SharedOperationData::create_unique(fields(&[("f", &[1])]))));
    replica.apply(shared(1, 20, "Tag", 3, SharedOperationData::delete()));
    replica.apply(shared(2, 30, "Tag", 3, SharedOperationData::create_unique(fields(&[("g", &[4])]))));
    let record = replica.record(&row("Tag", 3)).unwrap();
    assert!(record.is_live());
    assert_eq!(record.created, Some(30));
    assert_eq!(record.tombstone, Some(20));
    assert_eq!(record.value(&"f".to_string()), None);
    assert_eq!(record.value(&"g".to_string()), Some(&vec![4]));
}

#[test]
fn applying_twice_is_applying_once() {
    let ops = vec![
        shared(1, 10, "Tag", 7, SharedOperationData::create_unique(fields(&[("f", &[1])]))),
        shared(2, 12, "Tag", 8, SharedOperationData::update("f".to_string(), vec![2])),
        edge(1, 3, 7, 2, RelationOperationData::create()),
        owned(1, 1, "Location", vec![OwnedOperationData::Create(fields(&[("id", &[0])]))]),
        shared(1, 10, "Nothing", 7, SharedOperationData::delete()),
    ];
    for capacity in [0usize, 1, 8] {
        let mut replica = Replica::new(schema(), capacity);
        for op in &ops {
            replica.apply(op.clone());
            let once = canonical(&replica);
            replica.apply(op.clone());
            assert_eq!(canonical(&replica), once);
        }
    }
}

#[test]
fn updates_of_one_field_commute() {
    let create = shared(1, 10, "Tag", 7, SharedOperationData::create_atomic());
    let a = shared(1, 11, "Tag", 7, SharedOperationData::update("f".to_string(), vec![1]));
    let b = shared(2, 12, "Tag", 7, SharedOperationData::update("f".to_string(), vec![2]));
    let ab = run(&[create.clone(), a.clone(), b.clone()], 8);
    let ba = run(&[create, b.clone(), a.clone()], 8);
    assert_eq!(canonical(&ab), canonical(&ba));
    assert_eq!(value_of(&ab, &row("Tag", 7), "f"), Some(vec![2]));
    // both wait, in a replica where one operation may wait
    let ab = run(&[a.clone(), b.clone()], 1);
    let ba = run(&[b, a], 1);
    assert_eq!(canonical(&ab), canonical(&ba));
    assert_eq!(ab.pending.len(), 1);
    assert_eq!(ab.pending.entries[0].0, OperationId { node: vec![2], timestamp: 12 });
}

#[test]
fn equal_timestamps_keep_the_first_write() {
    let create = shared(1, 10, "Tag", 7, SharedOperationData::create_atomic());
    let a = shared(1, 11, "Tag", 7, SharedOperationData::update("f".to_string(), vec![1]));
    let b = shared(2, 11, "Tag", 7, SharedOperationData::update("f".to_string(), vec![2]));
    let ab = run(&[create.clone(), a.clone(), b.clone()], 8);
    let ba = run(&[create, b, a], 8);
    assert_eq!(value_of(&ab, &row("Tag", 7), "f"), Some(vec![1]));
    assert_eq!(value_of(&ba, &row("Tag", 7), "f"), Some(vec![2]));
}

#[test]
fn replicas_converge_in_any_order_and_with_duplicates() {
    let ops = vec![
        shared(1, 1, "Tag", 1, SharedOperationData::create_unique(fields(&[("name", b"a"), ("color", b"red")]))),
        shared(2, 2, "File", 2, SharedOperationData::create_atomic()),
        shared(2, 3, "File", 2, SharedOperationData::update("size".to_string(), vec![100])),
        edge(1, 4, 1, 2, RelationOperationData::create()),
        edge(2, 5, 1, 2, RelationOperationData::update("order".to_string(), vec![1])),
        shared(3, 6, "Tag", 1, SharedOperationData::update("name".to_string(), b"b".to_vec())),
        shared(1, 7, "Tag", 1, SharedOperationData::delete()),
        shared(3, 8, "Tag", 1, SharedOperationData::create_unique(fields(&[("name", b"c")]))),
        edge(3, 9, 1, 2, RelationOperationData::delete()),
        shared(4, 5, "Tag", 1, SharedOperationData::update("color".to_string(), b"blue".to_vec())),
        shared(4, 9, "Tag", 1, SharedOperationData::update("color".to_string(), b"green".to_vec())),
        edge(4, 10, 1, 2, RelationOperationData::update("order".to_string(), vec![2])),
        edge(1, 11, 1, 2, RelationOperationData::create()),
        shared(1, 12, "File", 2, SharedOperationData::update("size".to_string(), vec![7])),
        shared(3, 4, "File", 2, SharedOperationData::update("size".to_string(), vec![9])),
    ];
    let in_order = run(&ops, 16);
    let mut reversed: Vec<CRDTOperation> = ops.iter().rev().cloned().collect();
    assert_eq!(canonical(&run(&reversed, 16)), canonical(&in_order));
    reversed.extend(ops.iter().cloned());
    assert_eq!(canonical(&run(&reversed, 16)), canonical(&in_order));
    // from each starting point in steps of seven, every operation twice
    for start in 0..ops.len() {
        let mut order: Vec<CRDTOperation> = Vec::new();
        for k in 0..ops.len() {
            let op = ops[(start + 7 * k) % ops.len()].clone();
            order.push(op.clone());
            order.push(op);
        }
        assert_eq!(order.len(), 2 * ops.len());
        assert_eq!(canonical(&run(&order, 16)), canonical(&in_order));
    }
    assert_eq!(in_order.seen.len(), ops.len());
    assert_eq!(in_order.pending.len(), 0);
    let tag = in_order.record(&row("Tag", 1)).unwrap();
    assert_eq!(tag.created, Some(8));
    assert_eq!(tag.tombstone, Some(7));
    assert_eq!(tag.value(&"name".to_string()), Some(&b"c".to_vec()));
    assert_eq!(tag.value(&"color".to_string()), Some(&b"green".to_vec()));
    let file = in_order.record(&row("File", 2)).unwrap();
    assert_eq!(file.value(&"size".to_string()), Some(&vec![7]));
    let link = in_order.record(&edge_key(1, 2)).unwrap();
    assert!(link.is_live());
    assert_eq!(link.created, Some(11));
    assert_eq!(link.tombstone, Some(9));
    assert_eq!(link.value(&"order".to_string()), Some(&vec![2]));
}

#[test]
fn overflow_gives_up_the_oldest() {
    let mut replica = Replica::new(schema(), 2);
    let first = shared(1, 5, "Tag", 1, SharedOperationData::update("f".to_string(), vec![1]));
    let second = shared(1, 3, "Tag", 2, SharedOperationData::update("f".to_string(), vec![1]));
    let third = shared(1, 4, "Tag", 3, SharedOperationData::update("f".to_string(), vec![1]));
    assert_eq!(replica.apply(first), Outcome::Parked);
    assert_eq!(replica.apply(second), Outcome::Parked);
    assert_eq!(
        replica.apply(third),
        Outcome::Overflow { evicted: OperationId { node: vec![1], timestamp: 3 } }
    );
    assert_eq!(replica.pending.len(), 2);
    // the operation that was given up can be handed in again
    let again = shared(1, 3, "Tag", 2, SharedOperationData::update("f".to_string(), vec![1]));
    assert_eq!(
        replica.apply(again),
        Outcome::Overflow { evicted: OperationId { node: vec![1], timestamp: 3 } }
    );
    // same timestamp: the node decides
    let mut replica = Replica::new(schema(), 1);
    replica.apply(CRDTOperation::new(
        vec![2, 0],
        3,
        CRDTOperationType::shared(vec![1], "Tag", SharedOperationData::delete()),
    ));
    let outcome = replica.apply(CRDTOperation::new(
        vec![2],
        3,
        CRDTOperationType::shared(vec![1], "Tag", SharedOperationData::delete()),
    ));
    assert_eq!(outcome, Outcome::Overflow { evicted: OperationId { node: vec![2], timestamp: 3 } });
}

#[test]
fn unknown_model_is_rejected() {
    let mut replica = Replica::new(schema(), 2);
    let before = canonical(&replica);
    assert_eq!(replica.apply(shared(1, 5, "Nothing", 1, SharedOperationData::create_atomic())), Outcome::Rejected);
    assert_eq!(replica.apply(shared(1, 6, "Job", 1, SharedOperationData::create_atomic())), Outcome::Rejected);
    assert_eq!(replica.apply(shared(1, 7, "Location", 1, SharedOperationData::create_atomic())), Outcome::Rejected);
    assert_eq!(replica.apply(owned(1, 8, "Tag", vec![])), Outcome::Rejected);
    assert_eq!(canonical(&replica), before);
}

#[test]
fn concurrent_unique_creates_merge_by_field() {
    let a = shared(1, 10, "Tag", 7, SharedOperationData::create_unique(fields(&[("f", &[1]), ("g", &[1])])));
    let b = shared(2, 12, "Tag", 7, SharedOperationData::create_unique(fields(&[("f", &[2]), ("h", &[2])])));
    for order in [vec![a.clone(), b.clone()], vec![b, a]] {
        let replica = run(&order, 4);
        assert_eq!(value_of(&replica, &row("Tag", 7), "f"), Some(vec![2]));
        assert_eq!(value_of(&replica, &row("Tag", 7), "g"), Some(vec![1]));
        assert_eq!(value_of(&replica, &row("Tag", 7), "h"), Some(vec![2]));
        assert_eq!(replica.record(&row("Tag", 7)).unwrap().created, Some(12));
    }
}

#[test]
fn builders_keep_their_arguments() {
    let typ = CRDTOperationType::shared(vec![1, 2, 3], "Tag", SharedOperationData::delete());
    match typ {
        CRDTOperationType::Shared(op) => {
            assert_eq!(op.model, "Tag");
            assert_eq!(op.record_id, SyncID::Single(vec![1, 2, 3]));
            assert_eq!(op.data, SharedOperationData::Delete);
        }
        _ => panic!("expected a shared operation"),
    }
    assert_eq!(
        SharedOperationData::update("f".to_string(), vec![1]),
        SharedOperationData::Update { field: "f".to_string(), value: vec![1] }
    );
    assert_eq!(
        RelationOperationData::update("f".to_string(), vec![1]),
        RelationOperationData::Update { field: "f".to_string(), value: vec![1] }
    );
    assert_eq!(RelationOperationData::delete(), RelationOperationData::Delete);
}

#[test]
fn record_that_an_operation_waits_for() {
    let mut replica = Replica::new(schema(), 8);
    let update = shared(2, 12, "Tag", 7, SharedOperationData::update("f".to_string(), vec![2]));
    assert_eq!(replica.missing(&update), Some(row("Tag", 7)));
    let create = shared(1, 10, "Tag", 7, SharedOperationData::create_atomic());
    assert_eq!(replica.missing(&create), None);
    let link = edge(1, 3, 7, 2, RelationOperationData::update("f".to_string(), vec![1]));
    assert_eq!(replica.missing(&link), Some(row("Tag", 7)));
    replica.apply(create);
    assert_eq!(replica.missing(&update), None);
    assert_eq!(replica.missing(&link), Some(row("File", 2)));
    replica.apply(shared(1, 11, "File", 2, SharedOperationData::create_atomic()));
    assert_eq!(replica.missing(&link), Some(edge_key(7, 2)));
    assert_eq!(replica.missing(&edge(1, 3, 7, 2, RelationOperationData::create())), None);
    replica.apply(edge(1, 3, 7, 2, RelationOperationData::create()));
    assert_eq!(replica.missing(&link), None);
    let paths = owned(
        1,
        2,
        "FilePath",
        vec![
            OwnedOperationData::Create(fields(&[("id", &[5]), ("name", b"no location")])),
            OwnedOperationData::Create(fields(&[("id", &[5]), ("location_id", &[3])])),
            OwnedOperationData::Update(fields(&[("id", &[5]), ("location_id", &[3])])),
            OwnedOperationData::Create(fields(&[("id", &[5]), ("location_id", &[4])])),
        ],
    );
    assert_eq!(replica.missing(&paths), Some(row("Location", 3)));
    replica.apply(owned(1, 1, "Location", vec![OwnedOperationData::Create(fields(&[("id", &[3])]))]));
    assert_eq!(replica.missing(&paths), Some(row("Location", 4)));
    assert!(!replica.is_ready(&paths));
    // an update or a deletion waits for its own record
    let late = owned(1, 6, "Location", vec![OwnedOperationData::Update(fields(&[("id", &[8]), ("name", b"x")]))]);
    assert_eq!(replica.missing(&late), Some(row("Location", 8)));
    let gone = owned(1, 7, "Location", vec![OwnedOperationData::Delete(SyncID::Single(vec![8]))]);
    assert_eq!(replica.missing(&gone), Some(row("Location", 8)));
    assert!(!replica.is_ready(&gone));
    let path = owned(1, 8, "FilePath", vec![OwnedOperationData::Update(fields(&[("id", &[5]), ("location_id", &[3])]))]);
    assert_eq!(
        replica.missing(&path),
        Some(RecordKey::Row {
            model: "FilePath".to_string(),
            id: SyncID::Compound(fields(&[("id", &[5]), ("location_id", &[3])])),
        })
    );
    // unless the batch itself makes the record first
    let whole = owned(
        1,
        9,
        "Location",
        vec![
            OwnedOperationData::Create(fields(&[("id", &[8])])),
            OwnedOperationData::Update(fields(&[("id", &[8]), ("name", b"x")])),
            OwnedOperationData::Delete(SyncID::Single(vec![8])),
        ],
    );
    assert_eq!(replica.missing(&whole), None);
    assert!(replica.is_ready(&whole));
    let backwards = owned(
        1,
        10,
        "Location",
        vec![
            OwnedOperationData::Update(fields(&[("id", &[8]), ("name", b"x")])),
            OwnedOperationData::Create(fields(&[("id", &[8])])),
        ],
    );
    assert_eq!(replica.missing(&backwards), Some(row("Location", 8)));
    // an update that names no record writes to none and waits for none
    let nameless = owned(1, 11, "Location", vec![OwnedOperationData::Update(fields(&[("name", b"x")]))]);
    assert_eq!(replica.missing(&nameless), None);
}

#[test]
fn owned_update_waits_for_its_record() {
    let create = owned(1, 1, "Location", vec![OwnedOperationData::Create(fields(&[("id", &[0]), ("name", b"L")]))]);
    let update = owned(1, 4, "Location", vec![OwnedOperationData::Update(fields(&[("id", &[0]), ("name", b"M")]))]);
    let mut replica = Replica::new(schema(), 8);
    assert_eq!(replica.apply(update.clone()), Outcome::Parked);
    assert_eq!(replica.records.len(), 0);
    assert_eq!(replica.seen.len(), 0);
    assert_eq!(replica.pending.len(), 1);
    assert_eq!(replica.apply(update.clone()), Outcome::Duplicate);
    assert_eq!(replica.apply(create.clone()), Outcome::Applied);
    assert_eq!(replica.pending.len(), 0);
    assert_eq!(value_of(&replica, &row("Location", 0), "name"), Some(b"M".to_vec()));
    // the same as in the order in which the two were made
    assert_eq!(canonical(&replica), canonical(&run(&[create.clone(), update.clone()], 8)));
    assert_eq!(replica.apply(update), Outcome::Duplicate);
    assert_eq!(value_of(&replica, &row("Location", 0), "name"), Some(b"M".to_vec()));
}

#[test]
fn owned_deletion_waits_for_its_record() {
    let create = owned(1, 1, "Location", vec![OwnedOperationData::Create(fields(&[("id", &[0]), ("name", b"L")]))]);
    let delete = owned(1, 5, "Location", vec![OwnedOperationData::Delete(SyncID::Single(vec![0]))]);
    let mut replica = Replica::new(schema(), 8);
    assert_eq!(replica.apply(delete.clone()), Outcome::Parked);
    assert_eq!(replica.apply(create.clone()), Outcome::Applied);
    assert!(replica.record(&row("Location", 0)).is_none());
    assert_eq!(replica.pending.len(), 0);
    assert_eq!(canonical(&replica), canonical(&run(&[create, delete], 8)));
}

/// A sequence of numbers that looks random and is the same every time.
fn numbers(seed: u64) -> impl FnMut() -> u64 {
    let mut state = seed;
    move || {
        state = state.wrapping_mul(6364136223846793005).wrapping_add(1442695040888963407);
        state >> 33
    }
}

#[test]
fn replicas_converge_on_shuffled_operations() {
    let mut next = numbers(7);
    // operations on three tags, two files and the edges between them, each
    // with a timestamp of its own
    let mut ops: Vec<CRDTOperation> = Vec::new();
    for t in 1..=60u64 {
        let node = (next() % 3) as u8;
        let tag = (next() % 3) as u8;
        let file = 10 + (next() % 2) as u8;
        let field = ["f", "g"][(next() % 2) as usize].to_string();
        let value = vec![(next() % 250) as u8];
        let op = match next() % 9 {
            0 => shared(node, t, "Tag", tag, SharedOperationData::create_atomic()),
            1 => shared(
                node,
                t,
                "Tag",
                tag,
                SharedOperationData::create_unique(fields(&[("f", &[t as u8]), ("h", &[1])])),
            ),
            2 | 3 => shared(node, t, "Tag", tag, SharedOperationData::update(field, value)),
            4 => shared(node, t, "Tag", tag, SharedOperationData::delete()),
            5 => shared(node, t, "File", file, SharedOperationData::create_atomic()),
            6 => edge(node, t, tag, file, RelationOperationData::create()),
            7 => edge(node, t, tag, file, RelationOperationData::update(field, value)),
            _ => edge(node, t, tag, file, RelationOperationData::delete()),
        };
        ops.push(op);
    }
    let expected = canonical(&run(&ops, 64));
    for round in 0..150 {
        let mut order = ops.clone();
        for i in (1..order.len()).rev() {
            let j = (next() % (i as u64 + 1)) as usize;
            order.swap(i, j);
        }
        // some of them twice
        for _ in 0..(round % 7) {
            let again = order[(next() % 60) as usize].clone();
            let at = (next() % (order.len() as u64 + 1)) as usize;
            order.insert(at, again);
        }
        assert_eq!(canonical(&run(&order, 64)), expected, "round {}", round);
    }
}

#[test]
fn operations_handed_in_twice_change_nothing_in_any_state() {
    let mut next = numbers(11);
    for capacity in [0usize, 2, 64] {
        let mut replica = Replica::new(schema(), capacity);
        for t in 1..=80u64 {
            let node = (next() % 2) as u8;
            let tag = (next() % 3) as u8;
            let op = match next() % 6 {
                0 => shared(node, t % 20, "Tag", tag, SharedOperationData::create_atomic()),
                1 => shared(node, t % 20, "Tag", tag, SharedOperationData::update("f".to_string(), vec![t as u8])),
                2 => shared(node, t % 20, "Tag", tag, SharedOperationData::delete()),
                3 => edge(node, t % 20, tag, 1, RelationOperationData::create()),
                4 => shared(node, t % 20, "File", 1, SharedOperationData::create_atomic()),
                _ => owned(
                    node,
                    t % 20,
                    "FilePath",
                    vec![OwnedOperationData::Create(fields(&[("id", &[tag]), ("location_id", &[tag])]))],
                ),
            };
            replica.apply(op.clone());
            let once = canonical(&replica);
            assert_ne!(replica.apply(op), Outcome::Applied);
            assert_eq!(canonical(&replica), once);
            assert!(replica.pending.len() <= capacity);
        }
    }
}

#[test]
fn later_update_stays_in_either_order() {
    let create = shared(1, 10, "Tag", 7, SharedOperationData::create_unique(fields(&[("f", &[0])])));
    let a = shared(1, 11, "Tag", 7, SharedOperationData::update("f".to_string(), vec![1]));
    let b = shared(2, 12, "Tag", 7, SharedOperationData::update("f".to_string(), vec![2]));
    for order in [vec![create.clone(), a.clone(), b.clone()], vec![create.clone(), b.clone(), a.clone()]] {
        let replica = run(&order, 4);
        let record = replica.record(&row("Tag", 7)).unwrap();
        let cell = &record.fields.entries[record.fields.find(&"f".to_string()).unwrap()].1;
        assert_eq!((cell.timestamp, cell.value.clone()), (12, vec![2]));
    }
    // the earlier one is known already: the later one stays all the same
    for order in [vec![create.clone(), a.clone(), a.clone(), b.clone()], vec![create, a.clone(), b, a]] {
        assert_eq!(value_of(&run(&order, 4), &row("Tag", 7), "f"), Some(vec![2]));
    }
}

#[test]
fn repeats_add_nothing_whatever_the_kind() {
    let ops = vec![
        owned(1, 2, "FilePath", vec![OwnedOperationData::Create(fields(&[("id", &[5]), ("location_id", &[0])]))]),
        shared(2, 3, "Tag", 1, SharedOperationData::update("f".to_string(), vec![1])),
        owned(1, 1, "Location", vec![OwnedOperationData::Create(fields(&[("id", &[0]), ("name", b"L")]))]),
        owned(1, 4, "Location", vec![OwnedOperationData::Update(fields(&[("id", &[0]), ("name", b"M")]))]),
        shared(1, 1, "Tag", 1, SharedOperationData::create_atomic()),
        shared(1, 9, "Nothing", 1, SharedOperationData::create_atomic()),
        owned(1, 5, "Location", vec![OwnedOperationData::Delete(SyncID::Single(vec![0]))]),
    ];
    let once = canonical(&run(&ops, 8));
    let mut next = numbers(3);
    for _ in 0..100 {
        let mut repeated: Vec<CRDTOperation> = Vec::new();
        for (i, op) in ops.iter().enumerate() {
            repeated.push(op.clone());
            for _ in 0..(next() % 3) {
                repeated.push(ops[(next() % (i as u64 + 1)) as usize].clone());
            }
        }
        assert_eq!(canonical(&run(&repeated, 8)), once);
    }
}

#[test]
fn repeat_of_an_operation_that_was_given_up_comes_back() {
    // where a replica gave up an operation, handing it in again is no repeat
    let a = shared(1, 1, "Tag", 1, SharedOperationData::update("f".to_string(), vec![1]));
    let b = shared(1, 2, "Tag", 2, SharedOperationData::update("f".to_string(), vec![1]));
    let made = shared(1, 3, "Tag", 2, SharedOperationData::create_atomic());
    let without = run(&[a.clone(), b.clone(), made.clone()], 1);
    let with = run(&[a.clone(), b, made, a], 1);
    assert_eq!(without.pending.len(), 0);
    assert_eq!(with.pending.len(), 1);
}

#[test]
fn latest_write_wins_in_every_order() {
    let ops = vec![
        shared(1, 1, "Tag", 7, SharedOperationData::create_unique(fields(&[("f", b"made")]))),
        shared(1, 5, "Tag", 7, SharedOperationData::update("f".to_string(), b"a".to_vec())),
        shared(2, 9, "Tag", 7, SharedOperationData::update("f".to_string(), b"b".to_vec())),
        shared(3, 7, "Tag", 7, SharedOperationData::update("f".to_string(), b"c".to_vec())),
        shared(3, 8, "Tag", 7, SharedOperationData::delete()),
    ];
    let mut next = numbers(5);
    for _ in 0..200 {
        // a shuffle of the operations, some of them more than once
        let mut order: Vec<CRDTOperation> = ops.clone();
        for _ in 0..(next() % 4) {
            order.push(ops[(next() % ops.len() as u64) as usize].clone());
        }
        for i in (1..order.len()).rev() {
            order.swap(i, (next() % (i as u64 + 1)) as usize);
        }
        let replica = run(&order, 16);
        let record = replica.record(&row("Tag", 7)).unwrap();
        let cell = record.fields.entries.iter().find(|c| c.0 == "f").map(|c| c.1.clone()).unwrap();
        assert_eq!((cell.timestamp, cell.value), (9, b"b".to_vec()));
        assert_eq!(replica.pending.len(), 0);
    }
}

#[test]
fn batches_on_different_records_commute() {
    let base = owned(1, 1, "Location", vec![OwnedOperationData::Create(fields(&[("id", &[0]), ("name", b"L")]))]);
    let a = owned(
        1,
        2,
        "Location",
        vec![
            OwnedOperationData::Create(fields(&[("id", &[1]), ("name", b"one")])),
            OwnedOperationData::Update(fields(&[("id", &[1]), ("name", b"uno")])),
        ],
    );
    let b = owned(
        1,
        3,
        "Location",
        vec![
            OwnedOperationData::Update(fields(&[("id", &[0]), ("name", b"M")])),
            OwnedOperationData::Create(fields(&[("id", &[2]), ("name", b"two")])),
            OwnedOperationData::Delete(SyncID::Single(vec![2])),
        ],
    );
    let ab = run(&[base.clone(), a.clone(), b.clone()], 8);
    let ba = run(&[base.clone(), b.clone(), a.clone()], 8);
    assert_eq!(canonical(&ab), canonical(&ba));
    assert_eq!(ab.records.len(), 2);
    assert_eq!(value_of(&ab, &row("Location", 0), "name"), Some(b"M".to_vec()));
    assert_eq!(value_of(&ab, &row("Location", 1), "name"), Some(b"uno".to_vec()));
    // two batches that write to one record do not: the one that comes last stays
    let c = owned(1, 4, "Location", vec![OwnedOperationData::Update(fields(&[("id", &[0]), ("name", b"N")]))]);
    let bc = run(&[base.clone(), b.clone(), c.clone()], 8);
    let cb = run(&[base, c, b], 8);
    assert_eq!(value_of(&bc, &row("Location", 0), "name"), Some(b"N".to_vec()));
    assert_eq!(value_of(&cb, &row("Location", 0), "name"), Some(b"M".to_vec()));
}
