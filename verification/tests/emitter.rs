use prisma_crdt::clock::ClockError;
use prisma_crdt::datamodel::model::SharedCreateType;
use prisma_crdt::emitter::kept_data;
use prisma_crdt::emitter::kept_kind;
use prisma_crdt::emitter::owned_create;
use prisma_crdt::emitter::relation_create;
use prisma_crdt::emitter::shared_create;
use prisma_crdt::emitter::Emitter;
use prisma_crdt::emitter::OperationKind;
use prisma_crdt::owned::OwnedOperation;
use prisma_crdt::owned::OwnedOperationData;
use prisma_crdt::relation::RelationOperationData;
use prisma_crdt::shared::SharedOperationData;
use prisma_crdt::table::Table;
use prisma_crdt::value::FieldMap;
use prisma_crdt::value::SyncID;
use prisma_crdt::CRDTOperationType;

fn values() -> FieldMap {
    let mut map: FieldMap = Table::new();
    map.insert("name".to_string(), b"a".to_vec());
    map.insert("size".to_string(), vec![100]);
    map
}

#[test]
fn unique_create_is_one_operation() {
    let ops = shared_create(&"File".to_string(), &SyncID::Single(vec![0]), SharedCreateType::Unique, values());
    assert_eq!(
        ops,
        vec![CRDTOperationType::shared(vec![0], "File", SharedOperationData::create_unique(values()))]
    );
}

#[test]
fn atomic_create_is_an_empty_record_and_one_update_for_each_field() {
    let ops = shared_create(&"File".to_string(), &SyncID::Single(vec![0]), SharedCreateType::Atomic, values());
    assert_eq!(
        ops,
        vec![
            CRDTOperationType::shared(vec![0], "File", SharedOperationData::create_atomic()),
            CRDTOperationType::shared(vec![0], "File", SharedOperationData::update("name".to_string(), b"a".to_vec())),
            CRDTOperationType::shared(vec![0], "File", SharedOperationData::update("size".to_string(), vec![100])),
        ]
    );
    let none = shared_create(&"File".to_string(), &SyncID::Single(vec![0]), SharedCreateType::Atomic, Table::new());
    assert_eq!(none.len(), 1);
}

#[test]
fn owned_and_relation_creates() {
    assert_eq!(
        owned_create(&"Location".to_string(), values()),
        CRDTOperationType::Owned(OwnedOperation {
            model: "Location".to_string(),
            data: vec![OwnedOperationData::Create(values())],
        })
    );
    assert_eq!(
        relation_create(&"TagOnFile".to_string(), SyncID::Single(vec![1]), SyncID::Single(vec![2])),
        CRDTOperationType::relation(
            "TagOnFile",
            SyncID::Single(vec![1]),
            SyncID::Single(vec![2]),
            RelationOperationData::create()
        )
    );
}

#[test]
fn operations_of_a_node_have_increasing_timestamps() {
    let mut emitter = Emitter::new(vec![9], 1, 10);
    let types = shared_create(&"File".to_string(), &SyncID::Single(vec![0]), SharedCreateType::Atomic, values());
    let ops = emitter.stamp_all(types.clone(), 1000).unwrap();
    let stamps: Vec<u64> = ops.iter().map(|op| op.timestamp).collect();
    assert_eq!(stamps, vec![1000, 1001, 1002]);
    for (op, typ) in ops.iter().zip(types.iter()) {
        assert_eq!(op.node, vec![9]);
        assert_eq!(&op.typ, typ);
    }
    let next = emitter.stamp(relation_create(&"R".to_string(), SyncID::Single(vec![]), SyncID::Single(vec![])), 5);
    assert_eq!(next.unwrap().timestamp, 1003);
}

#[test]
fn exhausted_clock_stamps_nothing() {
    let mut emitter = Emitter::new(vec![9], 1, 0);
    emitter.clock.last = u64::MAX - 1;
    let types = shared_create(&"File".to_string(), &SyncID::Single(vec![0]), SharedCreateType::Atomic, values());
    assert_eq!(emitter.stamp_all(types, 5), Err(ClockError::Exhausted));
    assert_eq!(emitter.clock.last, u64::MAX);
}

#[test]
fn kinds_and_their_texts() {
    assert_eq!(OperationKind::of_shared(&SharedOperationData::create_atomic()).text(), "c");
    assert_eq!(OperationKind::of_shared(&SharedOperationData::update("name".to_string(), vec![])).text(), "uname");
    assert_eq!(OperationKind::of_shared(&SharedOperationData::delete()).text(), "d");
    assert_eq!(OperationKind::of_relation(&RelationOperationData::create()).text(), "c");
    assert_eq!(OperationKind::of_relation(&RelationOperationData::update("f".to_string(), vec![])).text(), "uf");
    assert_eq!(OperationKind::of_relation(&RelationOperationData::delete()).text(), "d");
    assert_eq!(OperationKind::parse("c"), Some(OperationKind::Create));
    assert_eq!(OperationKind::parse("d"), Some(OperationKind::Delete));
    assert_eq!(OperationKind::parse("u"), Some(OperationKind::Update { field: String::new() }));
    assert_eq!(OperationKind::parse("uña"), Some(OperationKind::Update { field: "ña".to_string() }));
    assert_eq!(OperationKind::parse(""), None);
    assert_eq!(OperationKind::parse("cc"), None);
    assert_eq!(OperationKind::parse("x"), None);
    for kind in [
        OperationKind::Create,
        OperationKind::Delete,
        OperationKind::Update { field: "color".to_string() },
    ] {
        assert_eq!(OperationKind::parse(&kind.text()), Some(kind));
    }
}

#[test]
fn what_is_kept_of_an_operation() {
    let payload = b"{\"u\":{}}".to_vec();
    let kept = |typ: &CRDTOperationType| (kept_kind(typ).map(|k| k.text()), kept_data(typ, payload.clone()));
    let id = SyncID::Single(vec![1]);
    assert_eq!(
        kept(&CRDTOperationType::shared(vec![1], "Tag", SharedOperationData::create_atomic())),
        (Some("c".to_string()), payload.clone())
    );
    assert_eq!(
        kept(&CRDTOperationType::shared(vec![1], "Tag", SharedOperationData::create_unique(values()))),
        (Some("c".to_string()), payload.clone())
    );
    assert_eq!(
        kept(&CRDTOperationType::shared(vec![1], "Tag", SharedOperationData::update("name".to_string(), vec![7, 8]))),
        (Some("uname".to_string()), vec![7, 8])
    );
    assert_eq!(
        kept(&CRDTOperationType::shared(vec![1], "Tag", SharedOperationData::delete())),
        (Some("d".to_string()), vec![])
    );
    assert_eq!(
        kept(&CRDTOperationType::relation("R", id.clone(), id.clone(), RelationOperationData::create())),
        (Some("c".to_string()), vec![])
    );
    assert_eq!(
        kept(&CRDTOperationType::relation(
            "R",
            id.clone(),
            id.clone(),
            RelationOperationData::update("f".to_string(), vec![9])
        )),
        (Some("uf".to_string()), vec![9])
    );
    assert_eq!(
        kept(&CRDTOperationType::relation("R", id.clone(), id.clone(), RelationOperationData::delete())),
        (Some("d".to_string()), vec![])
    );
    assert_eq!(kept(&owned_create(&"Location".to_string(), values())), (None, payload.clone()));
}
