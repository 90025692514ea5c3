//! Operation model and merge engine for replicating a relational store
//! between intermittently connected nodes without a coordinator.

use vstd::prelude::*;

pub mod api;
pub mod attribute;
pub mod clock;
pub mod datamodel;
pub mod emitter;
pub mod generator;
pub mod job;
pub mod merge;
pub mod names;
pub mod node;
pub mod owned;
pub mod prelude;
pub mod relation;
pub mod resolver;
pub mod shared;
pub mod sync;
pub mod table;
pub mod value;

use crate::owned::OwnedOperation;
use crate::owned::OwnedOperationView;
use crate::relation::RelationOperation;
use crate::relation::RelationOperationData;
use crate::relation::RelationOperationView;
use crate::shared::SharedOperation;
use crate::shared::SharedOperationData;
use crate::shared::SharedOperationView;
use crate::table::Key;
use crate::value::SyncID;

verus! {

/// The identifier of a node, the same on every node.
pub type Id = Vec<u8>;

/// A reading of a hybrid logical clock.
pub type Timestamp = u64;

/// A change to a replicated record, as it travels between nodes. It records
/// the node that made it and that node's clock at the time; no two operations
/// carry the same pair.
///
/// The state of a record is the result of all operations on it, so an
/// operation can go by any transport to any node that holds that state.
#[derive(Clone, Debug, PartialEq, Eq)]
pub struct CRDTOperation {
    pub node: Id,
    pub timestamp: Timestamp,
    pub typ: CRDTOperationType,
}

#[derive(Clone, Debug, PartialEq, Eq)]
pub enum CRDTOperationType {
    Shared(SharedOperation),
    Relation(RelationOperation),
    Owned(OwnedOperation),
}

pub enum CRDTOperationTypeView {
    Shared(SharedOperationView),
    Relation(RelationOperationView),
    Owned(OwnedOperationView),
}

pub struct CRDTOperationView {
    pub node: Seq<u8>,
    pub timestamp: Timestamp,
    pub typ: CRDTOperationTypeView,
}

impl View for CRDTOperationType {
    type V = CRDTOperationTypeView;

    open spec fn view(&self) -> CRDTOperationTypeView {
        match self {
            CRDTOperationType::Shared(op) => CRDTOperationTypeView::Shared(op@),
            CRDTOperationType::Relation(op) => CRDTOperationTypeView::Relation(op@),
            CRDTOperationType::Owned(op) => CRDTOperationTypeView::Owned(op@),
        }
    }
}

impl View for CRDTOperation {
    type V = CRDTOperationView;

    open spec fn view(&self) -> CRDTOperationView {
        CRDTOperationView { node: self.node@, timestamp: self.timestamp, typ: self.typ@ }
    }
}

impl CRDTOperationView {
    /// The pair that tells this operation from every other.
    pub open spec fn id(self) -> (Seq<u8>, Timestamp) {
        (self.node, self.timestamp)
    }
}

impl CRDTOperation {
    pub open spec fn valid(&self) -> bool {
        self.typ.valid()
    }

    /// Whether the operation is valid.
    pub fn check(&self) -> (b: bool)
        ensures
            b == self.valid(),
    {
        self.typ.check()
    }

    pub fn copy(&self) -> (c: Self)
        requires
            self.valid(),
        ensures
            c.valid(),
            c@ == self@,
    {
        CRDTOperation { node: self.node.copy(), timestamp: self.timestamp, typ: self.typ.copy() }
    }

    pub fn new(node: Id, timestamp: Timestamp, typ: CRDTOperationType) -> (op: Self)
        ensures
            op == (CRDTOperation { node, timestamp, typ }),
    {
        CRDTOperation { node, timestamp, typ }
    }
}

impl CRDTOperationType {
    pub open spec fn valid(&self) -> bool {
        match self {
            CRDTOperationType::Shared(op) => op.valid(),
            CRDTOperationType::Relation(op) => op.valid(),
            CRDTOperationType::Owned(op) => op.valid(),
        }
    }

    /// Whether the operation is valid: its identifiers and its maps of
    /// fields name no field twice.
    pub fn check(&self) -> (b: bool)
        ensures
            b == self.valid(),
    {
        match self {
            CRDTOperationType::Shared(op) => op.check(),
            CRDTOperationType::Relation(op) => op.check(),
            CRDTOperationType::Owned(op) => op.check(),
        }
    }

    pub fn copy(&self) -> (c: Self)
        requires
            self.valid(),
        ensures
            c.valid(),
            c@ == self@,
    {
        match self {
            CRDTOperationType::Shared(op) => CRDTOperationType::Shared(op.copy()),
            CRDTOperationType::Relation(op) => CRDTOperationType::Relation(op.copy()),
            CRDTOperationType::Owned(op) => CRDTOperationType::Owned(op.copy()),
        }
    }

    /// An operation on the shared record of `model` whose identifier is the
    /// one value `record_id`.
    pub fn shared(record_id: Vec<u8>, model: &str, data: SharedOperationData) -> (r: Self)
        ensures
            r matches CRDTOperationType::Shared(op) && op.record_id == SyncID::Single(record_id)
                && op.model@ == model@ && op.data == data,
    {
        CRDTOperationType::Shared(
            SharedOperation { record_id: SyncID::Single(record_id), model: model.to_owned(), data },
        )
    }

    /// An operation on the edge of `relation` between two records.
    pub fn relation(
        relation: &str,
        relation_item: SyncID,
        relation_group: SyncID,
        data: RelationOperationData,
    ) -> (r: Self)
        ensures
            r matches CRDTOperationType::Relation(op) && op.relation@ == relation@
                && op.relation_item == relation_item && op.relation_group == relation_group
                && op.data == data,
    {
        CRDTOperationType::Relation(
            RelationOperation::new(relation.to_owned(), relation_item, relation_group, data),
        )
    }
}

/// A store of replicated records that keeps them in `database`.
pub struct CRDTStore<Database> {
    pub database: Database,
}

} // verus!
