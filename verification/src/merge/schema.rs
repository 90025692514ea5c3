//! What the merge engine needs to know of each model: how it is replicated,
//! which fields identify an owned record, and which records an operation on
//! it refers to.

use vstd::prelude::*;
use crate::table::Table;

verus! {

/// A field of an owned model whose value identifies a record of `target`.
#[derive(Clone, Debug, PartialEq, Eq)]
pub struct Reference {
    pub field: String,
    pub target: String,
}

/// How a model is replicated.
#[derive(Clone, Debug, PartialEq, Eq)]
pub enum ModelKind {
    /// Not replicated.
    Local,
    /// Written by the node that made the record. `id` names the fields that
    /// identify a record; the identifier is compound where it gives the
    /// values of the fields by name, and else the value of the one field.
    Owned { id: Vec<String>, compound: bool, references: Vec<Reference> },
    /// Written by any node.
    Shared,
    /// A relation between records of the models `item` and `group`.
    Relation { item: String, group: String },
}

pub enum ModelKindView {
    Local,
    Owned { id: Seq<Seq<char>>, compound: bool, references: Seq<(Seq<char>, Seq<char>)> },
    Shared,
    Relation { item: Seq<char>, group: Seq<char> },
}

/// The names of a list of fields.
pub open spec fn names_view(names: Seq<String>) -> Seq<Seq<char>> {
    Seq::new(names.len(), |i: int| names[i]@)
}

pub open spec fn references_view(references: Seq<Reference>) -> Seq<(Seq<char>, Seq<char>)> {
    Seq::new(references.len(), |i: int| (references[i].field@, references[i].target@))
}

impl View for ModelKind {
    type V = ModelKindView;

    open spec fn view(&self) -> ModelKindView {
        match self {
            ModelKind::Local => ModelKindView::Local,
            ModelKind::Owned { id, compound, references } => ModelKindView::Owned {
                id: names_view(id@),
                compound: *compound,
                references: references_view(references@),
            },
            ModelKind::Shared => ModelKindView::Shared,
            ModelKind::Relation { item, group } => ModelKindView::Relation { item: item@, group: group@ },
        }
    }
}

/// The models that a replica knows, by name.
pub type Schema = Table<String, ModelKind>;

pub type SchemaView = Map<Seq<char>, ModelKindView>;

} // verus!
