//! What a schema says of its models, before it is read for replication.

use vstd::prelude::*;

verus! {

#[derive(Clone, Copy, Debug, PartialEq, Eq, Structural)]
pub enum FieldArity {
    Required,
    Optional,
    List,
}

/// What a relation field says: the model it leads to, the scalar fields of
/// its own model that hold the key, and the fields of the other model that
/// those refer to, in the same order.
#[derive(Clone, Debug, PartialEq, Eq)]
pub struct RelationInfo {
    pub to: String,
    pub fields: Vec<String>,
    pub references: Vec<String>,
}

#[derive(Clone, Debug, PartialEq, Eq)]
pub enum FieldKind {
    Scalar,
    Relation(RelationInfo),
    /// An enumeration, a composite, or a type the store does not support.
    Other,
}

#[derive(Clone, Debug, PartialEq, Eq)]
pub struct FieldSource {
    pub name: String,
    pub kind: FieldKind,
    pub arity: FieldArity,
    /// Whether a value must be given when a record is made.
    pub required_on_create: bool,
}

#[derive(Clone, Debug, PartialEq, Eq)]
pub struct ModelSource {
    pub name: String,
    /// The comment above the model, which holds its attribute.
    pub documentation: Option<String>,
    /// The names of the fields of the primary key.
    pub primary_key: Option<Vec<String>>,
    pub fields: Vec<FieldSource>,
}

#[derive(Clone, Debug, PartialEq, Eq)]
pub struct DatamodelSource {
    pub models: Vec<ModelSource>,
}

} // verus!
