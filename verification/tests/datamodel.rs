use prisma_crdt::datamodel::error::DatamodelError;
use prisma_crdt::datamodel::error::Role;
use prisma_crdt::datamodel::field::FieldRef;
use prisma_crdt::datamodel::field::FieldType;
use prisma_crdt::datamodel::field::RelationFieldInfo;
use prisma_crdt::datamodel::model::Model;
use prisma_crdt::datamodel::model::ModelType;
use prisma_crdt::datamodel::model::SharedCreateType;
use prisma_crdt::datamodel::model::SyncIDMapping;
use prisma_crdt::datamodel::source::DatamodelSource;
use prisma_crdt::datamodel::source::FieldArity;
use prisma_crdt::datamodel::source::FieldKind;
use prisma_crdt::datamodel::source::FieldSource;
use prisma_crdt::datamodel::source::ModelSource;
use prisma_crdt::datamodel::source::RelationInfo;
use prisma_crdt::datamodel::Datamodel;
use prisma_crdt::generator::accessor;
use prisma_crdt::generator::create::generate;
use prisma_crdt::generator::create::CreateExec;
use prisma_crdt::generator::create::StoreArgument;
use prisma_crdt::generator::create_params::args;
use prisma_crdt::generator::create_params::shorthand_constructor;
use prisma_crdt::generator::create_params::Argument;
use prisma_crdt::generator::create_params::CreateParams;
use prisma_crdt::generator::fields::CrdtType;
use prisma_crdt::generator::relation::model_type_tokens;
use prisma_crdt::generator::relation::End;
use prisma_crdt::generator::relation::RelationKeyConstructor;
use prisma_crdt::generator::relation::RelationKeyDefinition;
use prisma_crdt::generator::set_param::CRDTSetParam;
use prisma_crdt::generator::set_param::IntoStore;
use prisma_crdt::generator::set_param::SetParam;
use prisma_crdt::generator::sync_id::constructor;
use prisma_crdt::generator::sync_id::definition;
use prisma_crdt::generator::sync_id::Part;
use prisma_crdt::generator::sync_id::Source;
use prisma_crdt::resolver::Step;
use prisma_crdt::generator::Accessor;
use prisma_crdt::generator::PrismaCRDTGenerator;
use prisma_crdt::merge::schema::ModelKind;
use prisma_crdt::merge::schema::Reference;
use prisma_crdt::prelude::pascal_ident;
use prisma_crdt::prelude::snake_ident;

fn scalar(name: &str) -> FieldSource {
    FieldSource {
        name: name.to_string(),
        kind: FieldKind::Scalar,
        arity: FieldArity::Required,
        required_on_create: true,
    }
}

fn optional(name: &str) -> FieldSource {
    FieldSource { arity: FieldArity::Optional, required_on_create: false, ..scalar(name) }
}

fn relation(name: &str, to: &str, fields: &[&str], references: &[&str]) -> FieldSource {
    FieldSource {
        name: name.to_string(),
        kind: FieldKind::Relation(RelationInfo {
            to: to.to_string(),
            fields: fields.iter().map(|s| s.to_string()).collect(),
            references: references.iter().map(|s| s.to_string()).collect(),
        }),
        arity: FieldArity::Required,
        required_on_create: true,
    }
}

fn model(name: &str, doc: &str, key: &[&str], fields: Vec<FieldSource>) -> ModelSource {
    ModelSource {
        name: name.to_string(),
        documentation: Some(doc.to_string()),
        primary_key: Some(key.iter().map(|s| s.to_string()).collect()),
        fields,
    }
}

fn source() -> DatamodelSource {
    DatamodelSource {
        models: vec![
            model("Node", "@shared(id: id)", &["local_id"], vec![scalar("local_id"), scalar("id"), scalar("name")]),
            model("SharedOperation", "not an attribute", &["id"], vec![scalar("id")]),
            model(
                "Location",
                "@owned(owner: node, id: id)",
                &["local_id"],
                vec![
                    scalar("local_id"),
                    scalar("id"),
                    scalar("name"),
                    scalar("node_id"),
                    relation("node", "Node", &["node_id"], &["local_id"]),
                ],
            ),
            model(
                "FilePath",
                "@owned(owner: location)",
                &["location_id", "id"],
                vec![
                    scalar("id"),
                    scalar("location_id"),
                    relation("location", "Location", &["location_id"], &["local_id"]),
                    scalar("name"),
                    optional("file_id"),
                ],
            ),
            model(
                "File",
                " @shared(id: cas_id, create: Atomic)",
                &["local_id"],
                vec![scalar("local_id"), scalar("cas_id"), optional("size_in_bytes")],
            ),
            model("Tag", "@shared(id: id)", &["local_id"], vec![scalar("local_id"), scalar("id"), optional("name")]),
            model(
                "TagOnFile",
                "@relation(item: tag, group: file)",
                &["tag_id", "file_id"],
                vec![
                    scalar("tag_id"),
                    relation("tag", "Tag", &["tag_id"], &["local_id"]),
                    scalar("file_id"),
                    relation("file", "File", &["file_id"], &["local_id"]),
                ],
            ),
            model("Job", "@local", &["id"], vec![scalar("id")]),
            model("OwnedOperation", "", &[], vec![]),
            model("RelationOperation", "", &[], vec![]),
        ],
    }
}

fn datamodel() -> Datamodel {
    Datamodel::try_from(&source()).unwrap()
}

fn error_of(change: impl FnOnce(&mut ModelSource)) -> DatamodelError {
    let mut one = model("Tag", "@shared(id: id)", &["local_id"], vec![scalar("local_id"), scalar("id")]);
    change(&mut one);
    Model::new(&one).unwrap_err()
}

#[test]
fn names_in_the_forms_of_generated_code() {
    assert_eq!(snake_ident("FilePath"), "file_path");
    assert_eq!(snake_ident("sizeInBytes"), "size_in_bytes");
    assert_eq!(pascal_ident("file_path"), "FilePath");
    assert_eq!(pascal_ident("tag on file"), "TagOnFile");
}

#[test]
fn models_that_hold_operations_are_left_out() {
    let names: Vec<String> = datamodel().models.iter().map(|m| m.name.clone()).collect();
    assert_eq!(names, vec!["Node", "Location", "FilePath", "File", "Tag", "TagOnFile", "Job"]);
}

#[test]
fn how_each_model_is_replicated() {
    let dm = datamodel();
    let types: Vec<ModelType> = dm.models.iter().map(|m| m.typ.clone()).collect();
    assert_eq!(
        types,
        vec![
            ModelType::Shared {
                id: SyncIDMapping::Single { primary_key: 0, sync_id: 1 },
                create: SharedCreateType::Unique
            },
            ModelType::Owned { owner: 4, id: SyncIDMapping::Single { primary_key: 0, sync_id: 1 } },
            ModelType::Owned { owner: 2, id: SyncIDMapping::Compound(vec![(1, 1), (0, 0)]) },
            ModelType::Shared {
                id: SyncIDMapping::Single { primary_key: 0, sync_id: 1 },
                create: SharedCreateType::Atomic
            },
            ModelType::Shared {
                id: SyncIDMapping::Single { primary_key: 0, sync_id: 1 },
                create: SharedCreateType::Unique
            },
            ModelType::Relation { item: 1, group: 3 },
            ModelType::Local { id: SyncIDMapping::Compound(vec![(0, 0)]) },
        ]
    );
    assert_eq!(dm.models[2].name_snake, "file_path");
    assert_eq!(dm.models[2].fields[1].name_snake, "location_id");
    assert_eq!(dm.models[2].fields[1].name_pascal, "LocationId");
}

#[test]
fn what_scalar_fields_refer_to() {
    let dm = datamodel();
    let location = &dm.models[1];
    assert_eq!(
        location.fields[3].typ,
        FieldType::Scalar {
            relation_field_info: Some(RelationFieldInfo::new(4, FieldRef { model: 0, field: 0 }))
        }
    );
    assert_eq!(location.fields[1].typ, FieldType::Scalar { relation_field_info: None });
    let path = &dm.models[2];
    assert_eq!(
        path.fields[1].resolve_relations(path, &dm),
        Some(RelationFieldInfo::new(2, FieldRef { model: 1, field: 0 }))
    );
    assert_eq!(path.fields[0].resolve_relations(path, &dm), None);
    assert_eq!(path.fields[2].resolve_relations(path, &dm), None);
    assert_eq!(
        dm.models[5].resolve_relations(&dm),
        vec![
            Some(RelationFieldInfo::new(1, FieldRef { model: 4, field: 0 })),
            None,
            Some(RelationFieldInfo::new(3, FieldRef { model: 3, field: 0 })),
            None,
        ]
    );
}

#[test]
fn relation_to_a_model_or_field_that_is_missing() {
    let mut src = source();
    src.models[2].fields[4] = relation("node", "Nowhere", &["node_id"], &["local_id"]);
    src.models[3].fields[2] = relation("location", "Location", &["location_id"], &["missing"]);
    src.models[6].fields[1] = relation("tag", "Tag", &["tag_id"], &[]);
    let dm = Datamodel::try_from(&src).unwrap();
    assert_eq!(dm.models[1].fields[3].typ, FieldType::Scalar { relation_field_info: None });
    assert_eq!(dm.models[2].fields[1].typ, FieldType::Scalar { relation_field_info: None });
    assert_eq!(dm.models[5].fields[0].typ, FieldType::Scalar { relation_field_info: None });
}

#[test]
fn field_that_stands_for_a_field_of_the_primary_key() {
    let dm = datamodel();
    assert_eq!(dm.models[1].get_sync_id(0), Some(1));
    assert_eq!(dm.models[1].get_sync_id(1), None);
    assert_eq!(dm.models[2].get_sync_id(0), Some(0));
    assert_eq!(dm.models[2].get_sync_id(1), Some(1));
    assert_eq!(dm.models[2].get_sync_id(3), None);
    assert_eq!(dm.models[5].get_sync_id(0), None);
    assert_eq!(SyncIDMapping::Compound(vec![(2, 5), (2, 6)]).get_sync_id(2), Some(5));
    assert_eq!(dm.model(&"File".to_string()), Some(3));
    assert_eq!(dm.model(&"Nothing".to_string()), None);
    assert_eq!(dm.models[3].field(&"cas_id".to_string()), Some(1));
}

#[test]
fn errors_of_a_model() {
    assert_eq!(
        error_of(|m| m.documentation = None),
        DatamodelError::MissingAttribute { model: "Tag".to_string() }
    );
    assert_eq!(
        error_of(|m| m.documentation = Some("shared".to_string())),
        DatamodelError::InvalidAttribute { model: "Tag".to_string() }
    );
    assert_eq!(
        error_of(|m| m.fields[1].kind = FieldKind::Other),
        DatamodelError::UnsupportedField { field: "id".to_string() }
    );
    assert_eq!(error_of(|m| m.primary_key = None), DatamodelError::NoPrimaryKey { model: "Tag".to_string() });
    assert_eq!(
        error_of(|m| m.primary_key = Some(vec!["local_id".to_string(), "id".to_string()])),
        DatamodelError::PrimaryKeyFields { model: "Tag".to_string(), count: 2 }
    );
    assert_eq!(
        error_of(|m| m.primary_key = Some(vec!["key".to_string()])),
        DatamodelError::PrimaryKeyFieldNotFound { field: "key".to_string() }
    );
    assert_eq!(
        error_of(|m| m.documentation = Some("@shared(id: uuid)".to_string())),
        DatamodelError::NoField { model: "Tag".to_string(), field: "uuid".to_string() }
    );
    assert_eq!(
        error_of(|m| {
            m.documentation = Some("@local".to_string());
            m.primary_key = Some(vec!["id".to_string(), "key".to_string()]);
        }),
        DatamodelError::NoField { model: "Tag".to_string(), field: "key".to_string() }
    );
    assert_eq!(
        error_of(|m| m.documentation = Some("@owned(id: id)".to_string())),
        DatamodelError::MissingRole { role: Role::Owner }
    );
    assert_eq!(
        error_of(|m| m.documentation = Some("@owned(id: id, owner: who)".to_string())),
        DatamodelError::UnknownRole { role: Role::Owner, field: "who".to_string() }
    );
    assert_eq!(
        error_of(|m| m.documentation = Some("@relation(group: id)".to_string())),
        DatamodelError::MissingRole { role: Role::Item }
    );
    assert_eq!(
        error_of(|m| m.documentation = Some("@relation(item: id)".to_string())),
        DatamodelError::MissingRole { role: Role::Group }
    );
    assert_eq!(
        error_of(|m| m.documentation = Some("@relation(item: id, group: g)".to_string())),
        DatamodelError::UnknownRole { role: Role::Group, field: "g".to_string() }
    );
    assert_eq!(
        error_of(|m| m.documentation = Some("@shared(id: id, create: Twice)".to_string())),
        DatamodelError::InvalidCreateType { value: "Twice".to_string() }
    );
    assert_eq!(
        error_of(|m| m.documentation = Some("@replicated(id: id)".to_string())),
        DatamodelError::InvalidAttributeType { name: "replicated".to_string() }
    );
    // the mapping is looked at before the owner
    assert_eq!(
        error_of(|m| {
            m.documentation = Some("@owned".to_string());
            m.primary_key = None
        }),
        DatamodelError::NoPrimaryKey { model: "Tag".to_string() }
    );
}

#[test]
fn first_model_that_cannot_be_read_gives_the_error() {
    let mut src = source();
    src.models[4].documentation = Some("@owned".to_string());
    src.models[7].documentation = None;
    assert_eq!(Datamodel::try_from(&src), Err(DatamodelError::MissingRole { role: Role::Owner }));
}

#[test]
fn create_type_of_a_text() {
    assert_eq!(SharedCreateType::from_str("Unique"), Ok(SharedCreateType::Unique));
    assert_eq!(SharedCreateType::from_str("Atomic"), Ok(SharedCreateType::Atomic));
    assert_eq!(
        SharedCreateType::from_str("atomic"),
        Err(DatamodelError::InvalidCreateType { value: "atomic".to_string() })
    );
}

#[test]
fn schema_for_the_merge_engine() {
    let schema = datamodel().schema();
    let kind = |name: &str| schema.find(&name.to_string()).map(|i| schema.entries[i].1.clone());
    assert_eq!(kind("Node"), Some(ModelKind::Shared));
    assert_eq!(kind("Job"), Some(ModelKind::Local));
    assert_eq!(
        kind("TagOnFile"),
        Some(ModelKind::Relation { item: "Tag".to_string(), group: "File".to_string() })
    );
    assert_eq!(
        kind("Location"),
        Some(ModelKind::Owned {
            id: vec!["id".to_string()],
            compound: false,
            references: vec![Reference { field: "node_id".to_string(), target: "Node".to_string() }],
        })
    );
    assert_eq!(
        kind("FilePath"),
        Some(ModelKind::Owned {
            id: vec!["location_id".to_string(), "id".to_string()],
            compound: true,
            references: vec![Reference { field: "location_id".to_string(), target: "Location".to_string() }],
        })
    );
    assert_eq!(kind("SharedOperation"), None);
    assert_eq!(schema.len(), 7);
}

#[test]
fn generator_names() {
    assert_eq!(PrismaCRDTGenerator::name(), "Prisma CRDT Generator");
    assert_eq!(PrismaCRDTGenerator::default_output(), "./prisma-crdt.rs");
    assert_eq!(PrismaCRDTGenerator::channel_capacity(), 64);
    let dm = datamodel();
    assert_eq!(accessor(&dm.models[6]), Accessor::Store);
    assert_eq!(accessor(&dm.models[0]), Accessor::Replicated);
}

#[test]
fn which_operations_stand_for_a_new_record() {
    let dm = datamodel();
    let execs: Vec<CreateExec> = dm.models.iter().map(generate).collect();
    assert_eq!(
        execs,
        vec![
            CreateExec::Shared(SharedCreateType::Unique),
            CreateExec::Owned,
            CreateExec::Owned,
            CreateExec::Shared(SharedCreateType::Atomic),
            CreateExec::Shared(SharedCreateType::Unique),
            CreateExec::Relation { item: 1, group: 3 },
            CreateExec::Owned,
        ]
    );
}

#[test]
fn fields_of_generated_code() {
    let dm = datamodel();
    let path = &dm.models[2];
    assert!(path.is_sync_id(0));
    assert!(path.is_sync_id(1));
    assert!(!path.is_sync_id(3));
    assert!(path.scalar_field_has_relation(1));
    assert!(!path.scalar_field_has_relation(0));
    assert!(!path.scalar_field_has_relation(9));
    assert_eq!(path.required_scalar_fields(), vec![0, 1, 3]);
    assert_eq!(path.scalar_sync_id_fields(), vec![0, 1]);
    assert_eq!(path.crdt_create_params(), vec![3]);
    assert_eq!(
        path.store_arguments(),
        vec![
            StoreArgument::Value { field: 0 },
            StoreArgument::Related { relation: 2 },
            StoreArgument::Value { field: 3 },
        ]
    );
    assert_eq!(path.named_fields(&vec!["name".to_string(), "none".to_string(), "id".to_string()]), vec![3, 0]);
    assert_eq!(dm.crdt_type(2, 0), CrdtType::Own);
    assert_eq!(
        dm.crdt_type(2, 1),
        CrdtType::Of { field: FieldRef { model: 1, field: 1 }, arity: FieldArity::Required }
    );
    // the key of a relation has no identifier to stand for it
    assert_eq!(dm.crdt_type(5, 0), CrdtType::Of { field: FieldRef { model: 4, field: 1 }, arity: FieldArity::Required });
    assert_eq!(dm.models[1].scalar_sync_id_fields(), vec![1]);
    assert_eq!(dm.models[1].crdt_create_params(), vec![0, 2, 3]);
}

#[test]
fn identifier_whose_part_is_a_relation() {
    let mut src = source();
    src.models[3].documentation = Some("@owned(owner: location, id: location)".to_string());
    src.models[3].primary_key = Some(vec!["id".to_string()]);
    let dm = Datamodel::try_from(&src).unwrap();
    assert_eq!(dm.models[2].scalar_sync_id_fields(), vec![1]);
    assert_eq!(
        constructor(&dm, 2),
        vec![Part {
            field: 1,
            source: Source::Lookup {
                steps: vec![Step { find: FieldRef { model: 1, field: 0 }, take: FieldRef { model: 1, field: 1 } }]
            }
        }]
    );
}

#[test]
fn parts_of_an_identifier() {
    let dm = datamodel();
    assert_eq!(
        constructor(&dm, 2),
        vec![
            Part { field: 0, source: Source::Given },
            Part {
                field: 1,
                source: Source::Lookup {
                    steps: vec![Step { find: FieldRef { model: 1, field: 0 }, take: FieldRef { model: 1, field: 1 } }]
                }
            },
        ]
    );
    assert_eq!(constructor(&dm, 1), vec![Part { field: 1, source: Source::Given }]);
    assert_eq!(constructor(&dm, 5), vec![]);
    assert_eq!(
        definition(&dm, 2),
        vec![
            (0, CrdtType::Own),
            (1, CrdtType::Of { field: FieldRef { model: 1, field: 1 }, arity: FieldArity::Required }),
        ]
    );
}

#[test]
fn parameters_that_set_a_field() {
    let dm = datamodel();
    let (set, crdt) = prisma_crdt::generator::set_param::generate(&dm, 2);
    assert_eq!(
        set,
        vec![
            SetParam { field: 0, variant: "SetId".to_string(), into_crdt: Source::Given },
            SetParam {
                field: 1,
                variant: "SetLocationId".to_string(),
                into_crdt: Source::Lookup {
                    steps: vec![Step { find: FieldRef { model: 1, field: 0 }, take: FieldRef { model: 1, field: 1 } }]
                }
            },
            SetParam { field: 3, variant: "SetName".to_string(), into_crdt: Source::Given },
            SetParam { field: 4, variant: "SetFileId".to_string(), into_crdt: Source::Given },
        ]
    );
    assert_eq!(
        crdt[1],
        CRDTSetParam {
            field: 1,
            variant: "SetLocationId".to_string(),
            value: CrdtType::Of { field: FieldRef { model: 1, field: 1 }, arity: FieldArity::Required },
            into_store: IntoStore::Link {
                relation: 2,
                steps: vec![Step { find: FieldRef { model: 1, field: 0 }, take: FieldRef { model: 1, field: 1 } }]
            },
        }
    );
    assert_eq!(
        crdt[2],
        CRDTSetParam {
            field: 3,
            variant: "SetName".to_string(),
            value: CrdtType::Own,
            into_store: IntoStore::Assign
        }
    );
    assert_eq!(SetParam::new(&dm, 2, 3).variant, "SetName");
    assert_eq!(CRDTSetParam::new(&dm, 2, 0).into_store, IntoStore::Assign);
}

#[test]
fn what_the_errors_say() {
    let said = |e: DatamodelError| e.message();
    assert_eq!(said(DatamodelError::NoPrimaryKey { model: "Tag".to_string() }), "Model Tag has no primary key");
    assert_eq!(
        said(DatamodelError::PrimaryKeyFields { model: "Tag".to_string(), count: 2 }),
        "Model Tag has a primary key with 2 fields"
    );
    assert_eq!(
        said(DatamodelError::PrimaryKeyFields { model: "T".to_string(), count: 1205 }),
        "Model T has a primary key with 1205 fields"
    );
    assert_eq!(
        said(DatamodelError::PrimaryKeyFields { model: "T".to_string(), count: 0 }),
        "Model T has a primary key with 0 fields"
    );
    assert_eq!(
        said(DatamodelError::PrimaryKeyFieldNotFound { field: "key".to_string() }),
        "Failed to find field key"
    );
    assert_eq!(
        said(DatamodelError::NoField { model: "Tag".to_string(), field: "uuid".to_string() }),
        "Model Tag has no field uuid"
    );
    assert_eq!(said(DatamodelError::MissingRole { role: Role::Owner }), "Missing owner field");
    assert_eq!(said(DatamodelError::MissingRole { role: Role::Item }), "Missing item field");
    assert_eq!(said(DatamodelError::MissingRole { role: Role::Group }), "Missing group field");
    assert_eq!(
        said(DatamodelError::UnknownRole { role: Role::Group, field: "g".to_string() }),
        "Unknown group field g"
    );
    assert_eq!(
        said(DatamodelError::InvalidCreateType { value: "Twice".to_string() }),
        "Invalid create type Twice"
    );
    assert_eq!(
        said(DatamodelError::InvalidAttributeType { name: "replicated".to_string() }),
        "Invalid attribute type replicated"
    );
    assert_eq!(said(DatamodelError::MissingAttribute { model: "Tag".to_string() }), "Model Tag has no attribute");
    assert_eq!(
        said(DatamodelError::InvalidAttribute { model: "Tag".to_string() }),
        "Model Tag has an invalid attribute"
    );
    assert_eq!(
        said(DatamodelError::UnsupportedField { field: "kind".to_string() }),
        "Unsupported field type: kind"
    );
}

#[test]
fn keys_of_the_ends_of_an_edge() {
    let dm = datamodel();
    let (item, group) = model_type_tokens(&dm, 5).unwrap();
    assert_eq!(
        item,
        RelationKeyDefinition {
            end: End::Item,
            fields: vec![(0, CrdtType::Of { field: FieldRef { model: 4, field: 1 }, arity: FieldArity::Required })],
        }
    );
    assert_eq!(
        group,
        RelationKeyDefinition {
            end: End::Group,
            fields: vec![(2, CrdtType::Of { field: FieldRef { model: 3, field: 1 }, arity: FieldArity::Required })],
        }
    );
    assert_eq!(model_type_tokens(&dm, 0), None);
    assert_eq!(
        RelationKeyConstructor::new(&dm, 5, 1, End::Item),
        RelationKeyConstructor {
            end: End::Item,
            parts: vec![Part {
                field: 0,
                source: Source::Lookup {
                    steps: vec![Step { find: FieldRef { model: 4, field: 0 }, take: FieldRef { model: 4, field: 1 } }]
                }
            }],
        }
    );
    // a scalar holds no key
    assert_eq!(dm.key_fields(5, 0), vec![]);
    assert_eq!(dm.key_fields(5, 9), vec![]);
    assert_eq!(dm.key_fields(2, 2), vec![1]);
}

#[test]
fn what_is_given_to_make_a_record() {
    let dm = datamodel();
    assert_eq!(
        prisma_crdt::generator::create_params::definition(&dm, 2),
        CreateParams { required: vec![0, 1, 3], carried: vec![(3, CrdtType::Own)] }
    );
    assert_eq!(
        prisma_crdt::generator::create_params::definition(&dm, 1),
        CreateParams {
            required: vec![0, 1, 2, 3],
            carried: vec![
                (0, CrdtType::Own),
                (2, CrdtType::Own),
                (3, CrdtType::Of { field: FieldRef { model: 0, field: 1 }, arity: FieldArity::Required }),
            ],
        }
    );
    assert_eq!(
        args(&dm.models[2]),
        vec![Argument::Field(0), Argument::Field(1), Argument::Field(3), Argument::Params]
    );
    assert_eq!(shorthand_constructor(&dm.models[2]), vec!["id", "location_id", "name", "_params"]);
    assert_eq!(args(&dm.models[5]), vec![Argument::Field(0), Argument::Field(2), Argument::Params]);
}

#[test]
fn all_that_is_generated_for_a_model() {
    let dm = datamodel();
    assert_eq!(prisma_crdt::generator::model::generate(&dm, 6), None);
    let plan = prisma_crdt::generator::model::generate(&dm, 5).unwrap();
    assert_eq!(plan.keys, model_type_tokens(&dm, 5));
    assert_eq!(plan.create, CreateExec::Relation { item: 1, group: 3 });
    assert_eq!(
        plan.key_constructors,
        Some((RelationKeyConstructor::new(&dm, 5, 1, End::Item), RelationKeyConstructor::new(&dm, 5, 3, End::Group)))
    );
    assert_eq!(plan.sync_id, vec![]);
    assert_eq!(plan.set_params.len(), 2);
    let plan = prisma_crdt::generator::model::generate(&dm, 2).unwrap();
    assert_eq!(plan.keys, None);
    assert_eq!(plan.key_constructors, None);
    assert_eq!(plan.store_arguments, dm.models[2].store_arguments());
    assert_eq!(plan.sync_id_parts, constructor(&dm, 2));
    assert_eq!(plan.sync_id, definition(&dm, 2));
    assert_eq!(plan.create_params, prisma_crdt::generator::create_params::definition(&dm, 2));
    assert_eq!((plan.set_params, plan.crdt_set_params), prisma_crdt::generator::set_param::generate(&dm, 2));
    assert_eq!(plan.create, CreateExec::Owned);
    assert_eq!(
        dm.models[2].fields[1].crdt_type_tokens(&dm),
        CrdtType::Of { field: FieldRef { model: 1, field: 1 }, arity: FieldArity::Required }
    );
    assert_eq!(dm.models[2].fields[4].crdt_type_tokens(&dm), CrdtType::Own);
}

#[test]
fn handles_on_models_and_fields() {
    let dm = datamodel();
    let handle = prisma_crdt::prelude::DatamodelRef(&dm);
    let models = handle.models();
    assert_eq!(models.len(), 7);
    assert_eq!(models[2].index, 2);
    assert_eq!(models[2].model().name, "FilePath");
    assert_eq!(models[2].fields().len(), 5);
    assert_eq!(models[2].fields()[3], FieldRef { model: 2, field: 3 });
    assert_eq!(models[2].field(&"name".to_string()), Some(FieldRef { model: 2, field: 3 }));
    assert_eq!(models[2].field(&"none".to_string()), None);
    assert_eq!(FieldRef::new(4, models[1]), FieldRef { model: 1, field: 4 });
    let again = prisma_crdt::prelude::ModelRef::new(6, handle);
    assert_eq!(again.model().name, "Job");
}
