use prisma_crdt::datamodel::field::FieldRef;
use prisma_crdt::datamodel::source::DatamodelSource;
use prisma_crdt::datamodel::source::FieldArity;
use prisma_crdt::datamodel::source::FieldKind;
use prisma_crdt::datamodel::source::FieldSource;
use prisma_crdt::datamodel::source::ModelSource;
use prisma_crdt::datamodel::source::RelationInfo;
use prisma_crdt::datamodel::Datamodel;
use prisma_crdt::generator::fields::CrdtType;
use prisma_crdt::generator::set_param::CRDTSetParam;
use prisma_crdt::generator::set_param::IntoStore;
use prisma_crdt::generator::set_param::SetParam;
use prisma_crdt::generator::sync_id::constructor;
use prisma_crdt::generator::sync_id::definition;
use prisma_crdt::generator::sync_id::Part;
use prisma_crdt::generator::sync_id::Source;
use prisma_crdt::resolver::Observation;
use prisma_crdt::resolver::Rows;
use prisma_crdt::resolver::Step;
use prisma_crdt::resolver::SyncIndex;
use prisma_crdt::table::Table;
use prisma_crdt::value::FieldMap;
use prisma_crdt::value::SyncID;

fn scalar(name: &str) -> FieldSource {
    FieldSource {
        name: name.to_string(),
        kind: FieldKind::Scalar,
        arity: FieldArity::Required,
        required_on_create: true,
    }
}

fn relation(name: &str, to: &str, field: &str, reference: &str) -> FieldSource {
    FieldSource {
        name: name.to_string(),
        kind: FieldKind::Relation(RelationInfo {
            to: to.to_string(),
            fields: vec![field.to_string()],
            references: vec![reference.to_string()],
        }),
        arity: FieldArity::Required,
        required_on_create: true,
    }
}

fn model(name: &str, doc: &str, key: &[&str], fields: Vec<FieldSource>) -> ModelSource {
    ModelSource {
        name: name.to_string(),
        documentation: Some(doc.to_string()),
        primary_key: Some(key.iter().map(|s| s.to_string()).collect()),
        fields,
    }
}

/// Locations identified by `id`; paths identified by their own `id` and the
/// identifier of their location; marks identified by the path they are on.
fn datamodel() -> Datamodel {
    Datamodel::try_from(&DatamodelSource {
        models: vec![
            model(
                "Location",
                "@shared(id: id)",
                &["local_id"],
                vec![scalar("local_id"), scalar("id"), scalar("name")],
            ),
            model(
                "FilePath",
                "@owned(owner: location)",
                &["location_id", "id"],
                vec![
                    scalar("id"),
                    scalar("location_id"),
                    relation("location", "Location", "location_id", "local_id"),
                ],
            ),
            model(
                "Mark",
                "@shared(id: path_id)",
                &["local_id"],
                vec![scalar("local_id"), scalar("path_id"), relation("path", "FilePath", "path_id", "id")],
            ),
            model(
                "Loop",
                "@shared(id: next_id)",
                &["local_id"],
                vec![scalar("local_id"), scalar("next_id"), relation("next", "Loop", "next_id", "local_id")],
            ),
            model(
                "Edge",
                "@relation(item: a, group: b)",
                &["a_id"],
                vec![scalar("a_id"), relation("a", "Location", "a_id", "local_id"), relation("b", "Location", "a_id", "local_id")],
            ),
        ],
    })
    .unwrap()
}

fn fields(pairs: &[(&str, &[u8])]) -> FieldMap {
    let mut map: FieldMap = Table::new();
    for (name, value) in pairs {
        map.insert(name.to_string(), value.to_vec());
    }
    map
}

fn rows() -> Rows {
    let mut rows: Rows = Table::new();
    rows.push(
        "Location".to_string(),
        vec![
            fields(&[("local_id", &[1]), ("id", b"loc-a"), ("name", b"A")]),
            fields(&[("local_id", &[2]), ("id", b"loc-b"), ("name", b"B")]),
        ],
    );
    rows.push(
        "FilePath".to_string(),
        vec![fields(&[("id", &[7]), ("location_id", &[2])]), fields(&[("id", &[8]), ("location_id", &[9])])],
    );
    rows.push(
        "Loop".to_string(),
        vec![fields(&[("local_id", &[1]), ("next_id", &[1])]), fields(&[("local_id", &[2]), ("next_id", &[3])])],
    );
    rows
}

#[test]
fn identifier_from_a_plain_field() {
    let dm = datamodel();
    let row = fields(&[("local_id", &[2]), ("id", b"loc-b"), ("name", b"B")]);
    assert_eq!(dm.resolve_sync_id(&rows(), 0, &row), Some(SyncID::Single(b"loc-b".to_vec())));
    assert_eq!(dm.resolve_sync_id(&rows(), 0, &fields(&[("local_id", &[2])])), None);
}

#[test]
fn identifier_through_a_foreign_key() {
    let dm = datamodel();
    let row = fields(&[("id", &[7]), ("location_id", &[2])]);
    assert_eq!(
        dm.resolve_sync_id(&rows(), 1, &row),
        Some(SyncID::Compound(fields(&[("location_id", b"loc-b"), ("id", &[7])])))
    );
    assert_eq!(dm.resolve_field(&rows(), 1, 1, &row, 1), Some(b"loc-b".to_vec()));
    assert_eq!(dm.resolve_field(&rows(), 1, 1, &row, 0), None);
    assert_eq!(dm.resolve_field(&rows(), 1, 0, &row, 0), Some(vec![7]));
}

#[test]
fn identifier_through_two_foreign_keys() {
    let dm = datamodel();
    // a mark on path 7: the path's own part of its identifier stands for it
    let mark = fields(&[("local_id", &[1]), ("path_id", &[7])]);
    assert_eq!(dm.resolve_sync_id(&rows(), 2, &mark), Some(SyncID::Single(vec![7])));
    assert_eq!(dm.field_count(), 15);
}

#[test]
fn record_that_is_referred_to_is_not_there() {
    let dm = datamodel();
    let row = fields(&[("id", &[8]), ("location_id", &[9])]);
    assert_eq!(dm.resolve_sync_id(&rows(), 1, &row), None);
    let mark = fields(&[("local_id", &[1]), ("path_id", &[5])]);
    assert_eq!(dm.resolve_sync_id(&rows(), 2, &mark), None);
}

#[test]
fn references_in_a_circle_do_not_resolve() {
    let dm = datamodel();
    let row = fields(&[("local_id", &[1]), ("next_id", &[1])]);
    assert_eq!(dm.resolve_sync_id(&rows(), 3, &row), None);
    assert_eq!(dm.resolve_sync_id(&rows(), 4, &fields(&[("a_id", &[1])])), None);
    assert_eq!(dm.resolve_sync_id(&rows(), 9, &row), None);
}

#[test]
fn from_a_key_to_its_identifier_and_back() {
    let dm = datamodel();
    let rows = rows();
    let mut index = SyncIndex::new();
    let row = fields(&[("id", &[7]), ("location_id", &[2])]);
    let id = match index.observe_record(&dm, &rows, 1, &row, vec![70]) {
        Observation::Indexed(id) => id,
        other => panic!("not indexed: {:?}", other),
    };
    assert_eq!(Some(id.clone()), dm.resolve_sync_id(&rows, 1, &row));
    assert_eq!(index.resolve_local(&"FilePath".to_string(), &id), Some(vec![70]));
    assert_eq!(index.local_key(&dm, &rows, 1, &row), Some(vec![70]));
    assert_eq!(index.local_key(&dm, &rows, 1, &fields(&[("id", &[9]), ("location_id", &[2])])), None);
    assert_eq!(index.local_key(&dm, &rows, 1, &fields(&[("id", &[7]), ("location_id", &[9])])), None);
    assert_eq!(index.resolve_syncid(&"FilePath".to_string(), &vec![70]), Some(id.clone()));
    assert_eq!(index.resolve_syncid(&"Location".to_string(), &vec![70]), None);
    assert_eq!(index.resolve_local(&"Location".to_string(), &id), None);
    // more records leave the first where it is
    let location = fields(&[("local_id", &[2]), ("id", b"loc-b"), ("name", b"B")]);
    assert_eq!(
        index.observe_record(&dm, &rows, 0, &location, vec![2]),
        Observation::Indexed(SyncID::Single(b"loc-b".to_vec()))
    );
    assert_eq!(index.resolve_local(&"FilePath".to_string(), &id), Some(vec![70]));
    assert_eq!(
        index.resolve_local(&"Location".to_string(), &SyncID::Single(b"loc-b".to_vec())),
        Some(vec![2])
    );
}

#[test]
fn observations_that_are_refused() {
    let dm = datamodel();
    let rows = rows();
    let mut index = SyncIndex::new();
    let location = fields(&[("local_id", &[2]), ("id", b"loc-b"), ("name", b"B")]);
    let id = SyncID::Single(b"loc-b".to_vec());
    assert_eq!(index.observe_record(&dm, &rows, 0, &location, vec![2]), Observation::Indexed(id.clone()));
    // again, the same
    assert_eq!(index.observe_record(&dm, &rows, 0, &location, vec![2]), Observation::Indexed(id.clone()));
    // the identifier under another key
    assert_eq!(index.observe_record(&dm, &rows, 0, &location, vec![3]), Observation::Conflict(id.clone()));
    // another identifier under the same key
    let other = fields(&[("local_id", &[1]), ("id", b"loc-a"), ("name", b"A")]);
    assert_eq!(
        index.observe_record(&dm, &rows, 0, &other, vec![2]),
        Observation::Conflict(SyncID::Single(b"loc-a".to_vec()))
    );
    // a record that refers to one that is not there
    let path = fields(&[("id", &[8]), ("location_id", &[9])]);
    assert_eq!(index.observe_record(&dm, &rows, 1, &path, vec![8]), Observation::Unresolved);
    assert_eq!(index.entries.len(), 1);
    assert!(index.observe("Location".to_string(), SyncID::Single(b"loc-a".to_vec()), vec![1]));
    assert!(!index.observe("Location".to_string(), SyncID::Single(b"loc-a".to_vec()), vec![5]));
    assert_eq!(index.entries.len(), 2);
}

#[test]
fn references_in_a_circle_are_found() {
    let dm = datamodel();
    assert!(!dm.is_acyclic());
    assert!(dm.chain_ends(0, 1, 0));
    assert!(!dm.chain_ends(1, 1, 0));
    assert!(dm.chain_ends(1, 1, 1));
    assert!(!dm.chain_ends(2, 1, 0));
    assert!(dm.chain_ends(2, 1, 1));
    assert!(!dm.chain_ends(3, 1, 15));
    assert!(dm.chain_ends(3, 0, 0));
    assert!(dm.chain_ends(9, 9, 0));
    let without = Datamodel::try_from(&DatamodelSource {
        models: vec![
            model("Location", "@shared(id: id)", &["local_id"], vec![scalar("local_id"), scalar("id")]),
            model(
                "FilePath",
                "@owned(owner: location)",
                &["location_id", "id"],
                vec![
                    scalar("id"),
                    scalar("location_id"),
                    relation("location", "Location", "location_id", "local_id"),
                ],
            ),
        ],
    })
    .unwrap();
    assert!(without.is_acyclic());
}

/// Libraries identified by `id`; shelves identified by the library they
/// stand in; books identified by the shelf they stand on.
fn shelves() -> Datamodel {
    Datamodel::try_from(&DatamodelSource {
        models: vec![
            model("Library", "@shared(id: id)", &["local_id"], vec![scalar("local_id"), scalar("id")]),
            model(
                "Shelf",
                "@owned(owner: library, id: library)",
                &["local_id"],
                vec![scalar("local_id"), scalar("library_id"), relation("library", "Library", "library_id", "local_id")],
            ),
            model(
                "Book",
                "@shared(id: shelf_id)",
                &["local_id"],
                vec![scalar("local_id"), scalar("shelf_id"), relation("shelf", "Shelf", "shelf_id", "local_id")],
            ),
        ],
    })
    .unwrap()
}

fn shelf_rows() -> Rows {
    let mut rows: Rows = Table::new();
    rows.push(
        "Library".to_string(),
        vec![fields(&[("local_id", &[1]), ("id", b"lib-a")]), fields(&[("local_id", &[2]), ("id", b"lib-b")])],
    );
    rows.push(
        "Shelf".to_string(),
        vec![fields(&[("local_id", &[5]), ("library_id", &[2])]), fields(&[("local_id", &[6]), ("library_id", &[3])])],
    );
    rows
}

fn two_steps() -> Vec<Step> {
    vec![
        Step { find: FieldRef { model: 1, field: 0 }, take: FieldRef { model: 1, field: 1 } },
        Step { find: FieldRef { model: 0, field: 0 }, take: FieldRef { model: 0, field: 1 } },
    ]
}

#[test]
fn steps_go_from_model_to_model_to_the_end() {
    let dm = shelves();
    assert!(dm.is_acyclic());
    assert_eq!(dm.steps(2, 1), two_steps());
    assert_eq!(dm.steps(1, 1), two_steps()[1..].to_vec());
    assert_eq!(dm.steps(0, 1), vec![]);
    assert_eq!(dm.steps(2, 0), vec![]);
    assert_eq!(dm.steps(7, 0), vec![]);
    assert_eq!(dm.step_at(2, 1), Some(two_steps()[0]));
    assert_eq!(dm.step_at(0, 1), None);
    assert_eq!(dm.models[2].fields[1].first_step(&dm), Some(two_steps()[0]));
    // the relation that identifies a shelf stands by the field that holds its key
    assert_eq!(dm.models[1].scalar(2), 1);
    assert_eq!(dm.models[1].scalar(1), 1);
    assert_eq!(dm.models[1].scalar(9), 9);
}

#[test]
fn identifier_at_the_end_of_two_steps() {
    let dm = shelves();
    let rows = shelf_rows();
    let book = fields(&[("local_id", &[1]), ("shelf_id", &[5])]);
    assert_eq!(dm.resolve_sync_id(&rows, 2, &book), Some(SyncID::Single(b"lib-b".to_vec())));
    assert_eq!(dm.follow(&rows, &two_steps(), &vec![5]), Some(b"lib-b".to_vec()));
    assert_eq!(dm.follow(&rows, &dm.steps(2, 1), &vec![5]), dm.resolve_field(&rows, 2, 1, &book, dm.field_count()));
    assert_eq!(dm.resolve_field(&rows, 2, 1, &book, 2), Some(b"lib-b".to_vec()));
    assert_eq!(dm.resolve_field(&rows, 2, 1, &book, 1), None);
    // never the key under which this node keeps the shelf or the library
    assert_ne!(dm.resolve_sync_id(&rows, 2, &book), Some(SyncID::Single(vec![5])));
    assert_ne!(dm.resolve_sync_id(&rows, 2, &book), Some(SyncID::Single(vec![2])));
    // a shelf is identified by its library
    let shelf = fields(&[("local_id", &[5]), ("library_id", &[2])]);
    assert_eq!(dm.resolve_sync_id(&rows, 1, &shelf), Some(SyncID::Single(b"lib-b".to_vec())));
    // the library of shelf 6 is not there
    assert_eq!(dm.follow(&rows, &two_steps(), &vec![6]), None);
    assert_eq!(dm.resolve_sync_id(&rows, 2, &fields(&[("local_id", &[2]), ("shelf_id", &[6])])), None);
    // nor is shelf 7
    assert_eq!(dm.follow(&rows, &two_steps(), &vec![7]), None);
    assert_eq!(dm.follow(&rows, &vec![], &vec![7]), Some(vec![7]));
}

#[test]
fn plans_go_to_the_end_of_the_steps() {
    let dm = shelves();
    assert_eq!(constructor(&dm, 2), vec![Part { field: 1, source: Source::Lookup { steps: two_steps() } }]);
    assert_eq!(
        constructor(&dm, 1),
        vec![Part { field: 1, source: Source::Lookup { steps: two_steps()[1..].to_vec() } }]
    );
    assert_eq!(constructor(&dm, 0), vec![Part { field: 1, source: Source::Given }]);
    let of_library = CrdtType::Of { field: FieldRef { model: 0, field: 1 }, arity: FieldArity::Required };
    assert_eq!(definition(&dm, 2), vec![(1, of_library)]);
    assert_eq!(dm.crdt_type(2, 1), of_library);
    assert_eq!(dm.crdt_type(1, 1), of_library);
    assert_eq!(dm.crdt_type(0, 1), CrdtType::Own);
    assert_eq!(SetParam::new(&dm, 2, 1).into_crdt, Source::Lookup { steps: two_steps() });
    assert_eq!(SetParam::new(&dm, 2, 0).into_crdt, Source::Given);
    let carried = CRDTSetParam::new(&dm, 2, 1);
    assert_eq!(carried.value, of_library);
    assert_eq!(carried.into_store, IntoStore::Link { relation: 2, steps: two_steps() });
    assert_eq!(Source::of(vec![]), Source::Given);
    assert_eq!(Source::of(two_steps()), Source::Lookup { steps: two_steps() });
}
