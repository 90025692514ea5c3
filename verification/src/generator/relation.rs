//! The two ends of an edge of a relation, as generated code names them.

use vstd::prelude::*;
use crate::datamodel::field::FieldType;
use crate::datamodel::model::ModelType;
use crate::datamodel::Datamodel;
use crate::generator::fields::CrdtType;
use crate::generator::sync_id::are_parts;
use crate::generator::sync_id::are_typed;
use crate::generator::sync_id::Part;

verus! {

/// Which end of an edge a key stands for.
#[derive(Clone, Copy, Debug, PartialEq, Eq, Structural)]
pub enum End {
    Item,
    Group,
}

/// The type of the key of one end of an edge: the scalars of the relation's
/// model that hold the key, each with its type in an operation.
#[derive(Clone, Debug, PartialEq, Eq)]
pub struct RelationKeyDefinition {
    pub end: End,
    pub fields: Vec<(usize, CrdtType)>,
}

/// How the key of one end of an edge is put together: the scalars that hold
/// the key, and where the value of each comes from.
#[derive(Clone, Debug, PartialEq, Eq)]
pub struct RelationKeyConstructor {
    pub end: End,
    pub parts: Vec<Part>,
}

impl Datamodel {
    /// The scalars of model `m` that hold the key of the relation field
    /// `f`: none where `f` is no relation field.
    pub open spec fn key_fields_of(&self, m: int, f: int) -> Seq<usize> {
        if 0 <= m < self.models@.len() && 0 <= f < self.models@[m].fields@.len() {
            match self.models@[m].fields@[f].typ {
                FieldType::Relation { relation_info } => self.models@[m].named_upto(
                    relation_info.fields@,
                    relation_info.fields@.len() as int,
                ),
                _ => seq![],
            }
        } else {
            seq![]
        }
    }

    /// The scalars that hold the key of a relation field.
    pub fn key_fields(&self, m: usize, f: usize) -> (r: Vec<usize>)
        ensures
            r@ == self.key_fields_of(m as int, f as int),
    {
        if m < self.models.len() && f < self.models[m].fields.len() {
            match &self.models[m].fields[f].typ {
                FieldType::Relation { relation_info } => self.models[m].named_fields(&relation_info.fields),
                _ => Vec::new(),
            }
        } else {
            Vec::new()
        }
    }
}

impl RelationKeyDefinition {
    /// The type of the key that the relation field `f` of model `m` holds.
    pub fn new(datamodel: &Datamodel, m: usize, f: usize, end: End) -> (r: Self)
        ensures
            r.end == end,
            are_typed(datamodel, m as int, datamodel.key_fields_of(m as int, f as int), r.fields@),
    {
        let fields = datamodel.key_fields(m, f);
        RelationKeyDefinition { end, fields: datamodel.crdt_types(m, &fields) }
    }
}

impl RelationKeyConstructor {
    /// How the key that the relation field `f` of model `m` holds is put
    /// together.
    pub fn new(datamodel: &Datamodel, m: usize, f: usize, end: End) -> (r: Self)
        ensures
            r.end == end,
            are_parts(datamodel, m as int, datamodel.key_fields_of(m as int, f as int), r.parts@),
    {
        let fields = datamodel.key_fields(m, f);
        RelationKeyConstructor { end, parts: datamodel.parts(m, &fields) }
    }
}

/// Whether `keys` are the types of the keys of the two ends of an edge of
/// model `m`, the item's first; a model that is no relation has none.
pub open spec fn are_keys(
    datamodel: &Datamodel,
    m: int,
    keys: Option<(RelationKeyDefinition, RelationKeyDefinition)>,
) -> bool {
    match datamodel.models@[m].typ {
        ModelType::Relation { item, group } => keys matches Some((a, b)) && a.end == End::Item && b.end
            == End::Group && are_typed(datamodel, m, datamodel.key_fields_of(m, item as int), a.fields@)
            && are_typed(datamodel, m, datamodel.key_fields_of(m, group as int), b.fields@),
        _ => keys.is_none(),
    }
}

/// The types of the keys of the two ends of an edge of model `m`.
pub fn model_type_tokens(datamodel: &Datamodel, m: usize) -> (r: Option<(RelationKeyDefinition, RelationKeyDefinition)>)
    requires
        m < datamodel.models@.len(),
    ensures
        are_keys(datamodel, m as int, r),
{
    match &datamodel.models[m].typ {
        ModelType::Relation { item, group } => Some(
            (
                RelationKeyDefinition::new(datamodel, m, *item, End::Item),
                RelationKeyDefinition::new(datamodel, m, *group, End::Group),
            ),
        ),
        _ => None,
    }
}

/// Whether `keys` say how the keys of the two ends of an edge of model `m`
/// are put together, the item's first; a model that is no relation has
/// none.
pub open spec fn are_key_constructors(
    datamodel: &Datamodel,
    m: int,
    keys: Option<(RelationKeyConstructor, RelationKeyConstructor)>,
) -> bool {
    match datamodel.models@[m].typ {
        ModelType::Relation { item, group } => keys matches Some((a, b)) && a.end == End::Item && b.end
            == End::Group && are_parts(datamodel, m, datamodel.key_fields_of(m, item as int), a.parts@)
            && are_parts(datamodel, m, datamodel.key_fields_of(m, group as int), b.parts@),
        _ => keys.is_none(),
    }
}

/// How the keys of the two ends of an edge of model `m` are put together.
pub fn key_constructors(datamodel: &Datamodel, m: usize) -> (r: Option<
    (RelationKeyConstructor, RelationKeyConstructor),
>)
    requires
        m < datamodel.models@.len(),
    ensures
        are_key_constructors(datamodel, m as int, r),
{
    match &datamodel.models[m].typ {
        ModelType::Relation { item, group } => Some(
            (
                RelationKeyConstructor::new(datamodel, m, *item, End::Item),
                RelationKeyConstructor::new(datamodel, m, *group, End::Group),
            ),
        ),
        _ => None,
    }
}

} // verus!
