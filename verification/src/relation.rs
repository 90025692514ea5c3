//! Operations on many-to-many relations: edges identified by the two
//! records they relate, not by an identifier of their own.

use vstd::prelude::*;
use crate::table::Key;
use crate::value::SerializedField;
use crate::value::SyncID;
use crate::value::SyncIdView;
use crate::value::Value;

verus! {

/// An operation on the edge of `relation` between the records
/// `relation_item` and `relation_group`.
///
/// Creating an edge sets no data, it only says that the edge exists: several
/// nodes that create the same edge create one edge. An update writes exactly
/// one field, as for shared records.
#[derive(Clone, Debug, PartialEq, Eq)]
pub struct RelationOperation {
    pub relation: String,
    pub relation_item: SyncID,
    pub relation_group: SyncID,
    pub data: RelationOperationData,
}

#[derive(Clone, Debug, PartialEq, Eq)]
pub enum RelationOperationData {
    Create,
    Update { field: String, value: Value },
    Delete,
}

pub enum RelationOperationDataView {
    Create,
    Update { field: Seq<char>, value: Seq<u8> },
    Delete,
}

pub struct RelationOperationView {
    pub relation: Seq<char>,
    pub relation_item: SyncIdView,
    pub relation_group: SyncIdView,
    pub data: RelationOperationDataView,
}

impl View for RelationOperationData {
    type V = RelationOperationDataView;

    open spec fn view(&self) -> RelationOperationDataView {
        match self {
            RelationOperationData::Create => RelationOperationDataView::Create,
            RelationOperationData::Update { field, value } => RelationOperationDataView::Update {
                field: field@,
                value: value@,
            },
            RelationOperationData::Delete => RelationOperationDataView::Delete,
        }
    }
}

impl View for RelationOperation {
    type V = RelationOperationView;

    open spec fn view(&self) -> RelationOperationView {
        RelationOperationView {
            relation: self.relation@,
            relation_item: self.relation_item@,
            relation_group: self.relation_group@,
            data: self.data@,
        }
    }
}

impl RelationOperation {
    pub open spec fn valid(&self) -> bool {
        self.relation_item.valid() && self.relation_group.valid()
    }

    /// Whether the operation is valid.
    pub fn check(&self) -> (b: bool)
        ensures
            b == self.valid(),
    {
        self.relation_item.check() && self.relation_group.check()
    }

    pub fn copy(&self) -> (c: Self)
        requires
            self.valid(),
        ensures
            c.valid(),
            c@ == self@,
    {
        RelationOperation {
            relation: self.relation.clone(),
            relation_item: self.relation_item.copy(),
            relation_group: self.relation_group.copy(),
            data: match &self.data {
                RelationOperationData::Create => RelationOperationData::Create,
                RelationOperationData::Update { field, value } => RelationOperationData::Update {
                    field: field.clone(),
                    value: value.copy(),
                },
                RelationOperationData::Delete => RelationOperationData::Delete,
            },
        }
    }

    pub fn new(
        relation: String,
        relation_item: SyncID,
        relation_group: SyncID,
        data: RelationOperationData,
    ) -> (r: Self)
        ensures
            r == (RelationOperation { relation, relation_item, relation_group, data }),
    {
        RelationOperation { relation_item, relation_group, relation, data }
    }
}

impl RelationOperationData {
    pub fn create() -> (r: Self)
        ensures
            r == RelationOperationData::Create,
    {
        RelationOperationData::Create
    }

    pub fn update(field: String, value: Value) -> (r: Self)
        ensures
            r == (RelationOperationData::Update { field, value }),
    {
        RelationOperationData::Update { field, value }
    }

    pub fn delete() -> (r: Self)
        ensures
            r == RelationOperationData::Delete,
    {
        RelationOperationData::Delete
    }
}

/// A relation whose operations are made from its two ends. The model of a
/// relation in generated code implements this.
pub trait RelationRecord {
    const RELATION_NAME: &'static str;

    fn create_operation(relation_item: SyncID, relation_group: SyncID) -> (op: RelationOperation)
        ensures
            op.relation@ == Self::RELATION_NAME@,
            op.relation_item == relation_item,
            op.relation_group == relation_group,
            op.data == RelationOperationData::Create,
    ;

    /// The operation that writes the value of `field` to the field that
    /// `field` names.
    fn update_operation(relation_item: SyncID, relation_group: SyncID, field: SerializedField) -> (op:
        RelationOperation)
        ensures
            op.relation@ == Self::RELATION_NAME@,
            op.relation_item == relation_item,
            op.relation_group == relation_group,
            op.data == (RelationOperationData::Update { field: field.0, value: field.1 }),
    ;

    fn delete_operation(relation_item: SyncID, relation_group: SyncID) -> (op: RelationOperation)
        ensures
            op.relation@ == Self::RELATION_NAME@,
            op.relation_item == relation_item,
            op.relation_group == relation_group,
            op.data == RelationOperationData::Delete,
    ;
}

} // verus!
