//! What identifies an operation, and what identifies a record or an edge.

use vstd::prelude::*;
use crate::table::Key;
use crate::value::bytes_le;
use crate::value::bytes_le_exec;
use crate::value::lemma_bytes_le_antisymmetric;
use crate::value::lemma_bytes_le_total;
use crate::value::lemma_bytes_le_transitive;
use crate::value::SyncID;
use crate::value::SyncIdView;
use crate::Id;
use crate::Timestamp;

verus! {

/// The node and the timestamp of an operation.
#[derive(Clone, Debug, PartialEq, Eq)]
pub struct OperationId {
    pub node: Id,
    pub timestamp: Timestamp,
}

impl View for OperationId {
    type V = (Seq<u8>, Timestamp);

    open spec fn view(&self) -> (Seq<u8>, Timestamp) {
        (self.node@, self.timestamp)
    }
}

impl Key for OperationId {
    open spec fn valid(&self) -> bool {
        true
    }

    fn same(&self, other: &Self) -> (b: bool) {
        self.timestamp == other.timestamp && self.node.same(&other.node)
    }

    fn copy(&self) -> (c: Self) {
        OperationId { node: self.node.copy(), timestamp: self.timestamp }
    }

    fn check(&self) -> (b: bool) {
        true
    }
}

/// The order in which operations that wait are taken up again, and in which
/// they are given up: by timestamp, then by node.
pub open spec fn id_le(a: (Seq<u8>, Timestamp), b: (Seq<u8>, Timestamp)) -> bool {
    a.1 < b.1 || (a.1 == b.1 && bytes_le(a.0, b.0))
}

pub proof fn lemma_id_le_total(a: (Seq<u8>, Timestamp), b: (Seq<u8>, Timestamp))
    ensures
        id_le(a, b) || id_le(b, a),
{
    lemma_bytes_le_total(a.0, b.0);
}

pub proof fn lemma_id_le_antisymmetric(a: (Seq<u8>, Timestamp), b: (Seq<u8>, Timestamp))
    requires
        id_le(a, b),
        id_le(b, a),
    ensures
        a == b,
{
    lemma_bytes_le_antisymmetric(a.0, b.0);
}

pub proof fn lemma_id_le_transitive(
    a: (Seq<u8>, Timestamp),
    b: (Seq<u8>, Timestamp),
    c: (Seq<u8>, Timestamp),
)
    requires
        id_le(a, b),
        id_le(b, c),
    ensures
        id_le(a, c),
{
    if a.1 == b.1 && b.1 == c.1 {
        lemma_bytes_le_transitive(a.0, b.0, c.0);
    }
}

impl OperationId {
    pub fn le(&self, other: &Self) -> (b: bool)
        ensures
            b == id_le(self@, other@),
    {
        self.timestamp < other.timestamp || (self.timestamp == other.timestamp && bytes_le_exec(
            &self.node,
            &other.node,
        ))
    }
}

/// A record of a model, or an edge of a relation between two records.
#[derive(Clone, Debug, PartialEq, Eq)]
pub enum RecordKey {
    Row { model: String, id: SyncID },
    Edge { relation: String, item: SyncID, group: SyncID },
}

pub enum RecordKeyView {
    Row { model: Seq<char>, id: SyncIdView },
    Edge { relation: Seq<char>, item: SyncIdView, group: SyncIdView },
}

impl View for RecordKey {
    type V = RecordKeyView;

    open spec fn view(&self) -> RecordKeyView {
        match self {
            RecordKey::Row { model, id } => RecordKeyView::Row { model: model@, id: id@ },
            RecordKey::Edge { relation, item, group } => RecordKeyView::Edge {
                relation: relation@,
                item: item@,
                group: group@,
            },
        }
    }
}

impl Key for RecordKey {
    open spec fn valid(&self) -> bool {
        match self {
            RecordKey::Row { model, id } => id.valid(),
            RecordKey::Edge { relation, item, group } => item.valid() && group.valid(),
        }
    }

    fn same(&self, other: &Self) -> (b: bool) {
        match (self, other) {
            (RecordKey::Row { model: m1, id: i1 }, RecordKey::Row { model: m2, id: i2 }) => {
                m1.same(m2) && i1.same(i2)
            },
            (
                RecordKey::Edge { relation: r1, item: i1, group: g1 },
                RecordKey::Edge { relation: r2, item: i2, group: g2 },
            ) => r1.same(r2) && i1.same(i2) && g1.same(g2),
            _ => false,
        }
    }

    fn check(&self) -> (b: bool) {
        match self {
            RecordKey::Row { model, id } => id.check(),
            RecordKey::Edge { relation, item, group } => item.check() && group.check(),
        }
    }

    fn copy(&self) -> (c: Self) {
        match self {
            RecordKey::Row { model, id } => RecordKey::Row { model: model.copy(), id: id.copy() },
            RecordKey::Edge { relation, item, group } => RecordKey::Edge {
                relation: relation.copy(),
                item: item.copy(),
                group: group.copy(),
            },
        }
    }
}

} // verus!
