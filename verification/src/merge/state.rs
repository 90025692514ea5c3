//! The state of a replica as a mathematical value, and what applying an
//! operation does to it.
//!
//! Applying an operation is a function of the state and the operation alone.
//! Operations that wait for a record are held as a set: which of them is
//! taken up next, or given up when there are too many, depends on their
//! timestamps and nodes, never on the order in which they arrived.

use vstd::prelude::*;
use crate::merge::key::id_le;
use crate::merge::key::RecordKeyView;
use crate::merge::record::RecordView;
use crate::merge::replica::ChangeView;
use crate::merge::schema::ModelKindView;
use crate::merge::schema::SchemaView;
use crate::owned::OwnedOperationDataView;
use crate::relation::RelationOperationDataView;
use crate::shared::SharedOperationCreateDataView;
use crate::shared::SharedOperationDataView;
use crate::value::SyncIdView;
use crate::CRDTOperationTypeView;
use crate::CRDTOperationView;
use crate::Timestamp;

verus! {

pub type OpId = (Seq<u8>, Timestamp);

pub struct ReplicaView {
    pub schema: SchemaView,
    /// How many operations may wait at a time.
    pub capacity: nat,
    /// The operations that were applied.
    pub seen: Set<OpId>,
    pub records: Map<RecordKeyView, RecordView>,
    /// The operations that wait for a record they refer to.
    pub pending: Map<OpId, CRDTOperationView>,
}

/// What became of an operation that was handed to a replica.
pub enum OutcomeView {
    /// The replica's schema has no model of that name and kind.
    Rejected,
    /// The operation was applied or is waiting already.
    Duplicate,
    Applied,
    /// The operation waits for a record.
    Parked,
    /// The operation was to wait, there were too many, and the oldest of
    /// them, which may be the operation itself, was given up.
    Overflow { evicted: OpId },
}

/// The identifier of an owned record, read from the fields of an operation
/// on it: the value of the one identifying field, or, for a compound
/// identifier, the values of all of them by name. There is none where an
/// identifying field is missing.
pub open spec fn owned_id(id: Seq<Seq<char>>, compound: bool, values: Map<Seq<char>, Seq<u8>>) -> Option<
    SyncIdView,
> {
    if exists|i: int| 0 <= i < id.len() && !values.contains_key(id[i]) {
        None
    } else if !compound && id.len() == 1 {
        Some(SyncIdView::Single(values[id[0]]))
    } else {
        Some(SyncIdView::Compound(values.restrict(id.to_set())))
    }
}

/// The record that a change of a batch on owned records of `model` makes.
pub open spec fn owned_made(model: Seq<char>, id: Seq<Seq<char>>, compound: bool, change: OwnedOperationDataView) -> Option<
    RecordKeyView,
> {
    match change {
        OwnedOperationDataView::Create(values) => match owned_id(id, compound, values) {
            Some(id) => Some(RecordKeyView::Row { model, id }),
            None => None,
        },
        _ => None,
    }
}

/// The record that a change of a batch on owned records of `model` writes to
/// or removes.
pub open spec fn owned_target(model: Seq<char>, id: Seq<Seq<char>>, compound: bool, change: OwnedOperationDataView) -> Option<
    RecordKeyView,
> {
    match change {
        OwnedOperationDataView::Create(_) => None,
        OwnedOperationDataView::Update(values) => match owned_id(id, compound, values) {
            Some(id) => Some(RecordKeyView::Row { model, id }),
            None => None,
        },
        OwnedOperationDataView::Delete(id) => Some(RecordKeyView::Row { model, id }),
    }
}

/// Whether one of the first `n` changes of a batch makes the record.
pub open spec fn made_before(
    model: Seq<char>,
    id: Seq<Seq<char>>,
    compound: bool,
    changes: Seq<OwnedOperationDataView>,
    n: int,
    key: RecordKeyView,
) -> bool {
    exists|j: int| 0 <= j < n && j < changes.len() && #[trigger] owned_made(model, id, compound, changes[j]) == Some(key)
}

/// The records after one change of a batch on owned records of `model`.
pub open spec fn owned_step(
    records: Map<RecordKeyView, RecordView>,
    model: Seq<char>,
    id: Seq<Seq<char>>,
    compound: bool,
    change: OwnedOperationDataView,
    t: Timestamp,
) -> Map<RecordKeyView, RecordView> {
    match change {
        OwnedOperationDataView::Create(values) => match owned_id(id, compound, values) {
            Some(id) => records.insert(
                RecordKeyView::Row { model, id },
                RecordView::fresh().touch(t).put_all(values, t, true),
            ),
            None => records,
        },
        OwnedOperationDataView::Update(values) => match owned_id(id, compound, values) {
            Some(id) => {
                let key = RecordKeyView::Row { model, id };
                if records.contains_key(key) {
                    records.insert(key, records[key].put_all(values, t, true))
                } else {
                    records
                }
            },
            None => records,
        },
        OwnedOperationDataView::Delete(id) => records.remove(RecordKeyView::Row { model, id }),
    }
}

/// The records after the changes of a batch, made one after another.
pub open spec fn owned_fold(
    records: Map<RecordKeyView, RecordView>,
    model: Seq<char>,
    id: Seq<Seq<char>>,
    compound: bool,
    changes: Seq<OwnedOperationDataView>,
    t: Timestamp,
) -> Map<RecordKeyView, RecordView>
    decreases changes.len(),
{
    if changes.len() == 0 {
        records
    } else {
        owned_fold(owned_step(records, model, id, compound, changes[0], t), model, id, compound, changes.skip(1), t)
    }
}

/// Whether the operation is on a shared record or on an edge, the two kinds
/// whose operations are merged.
pub open spec fn merged(op: CRDTOperationView) -> bool {
    !(op.typ is Owned)
}

/// The record or edge that a merged operation is on.
pub open spec fn key_of(op: CRDTOperationView) -> RecordKeyView {
    match op.typ {
        CRDTOperationTypeView::Shared(s) => RecordKeyView::Row { model: s.model, id: s.record_id },
        CRDTOperationTypeView::Relation(r) => RecordKeyView::Edge {
            relation: r.relation,
            item: r.relation_item,
            group: r.relation_group,
        },
        CRDTOperationTypeView::Owned(o) => RecordKeyView::Row { model: o.model, id: SyncIdView::Single(Seq::empty()) },
    }
}

/// What a merged operation does to its record.
pub open spec fn change_of(op: CRDTOperationView) -> ChangeView {
    match op.typ {
        CRDTOperationTypeView::Shared(s) => match s.data {
            SharedOperationDataView::Create(SharedOperationCreateDataView::Unique(values)) => ChangeView::Create(values),
            SharedOperationDataView::Create(SharedOperationCreateDataView::Atomic) => ChangeView::Create(Map::empty()),
            SharedOperationDataView::Update { field, value } => ChangeView::Update { field, value },
            SharedOperationDataView::Delete => ChangeView::Delete,
        },
        CRDTOperationTypeView::Relation(r) => match r.data {
            RelationOperationDataView::Create => ChangeView::Create(Map::empty()),
            RelationOperationDataView::Update { field, value } => ChangeView::Update { field, value },
            RelationOperationDataView::Delete => ChangeView::Delete,
        },
        CRDTOperationTypeView::Owned(_) => ChangeView::Delete,
    }
}

pub open spec fn is_create(op: CRDTOperationView) -> bool {
    merged(op) && change_of(op) is Create
}

pub open spec fn is_delete(op: CRDTOperationView) -> bool {
    merged(op) && change_of(op) is Delete
}

/// Whether the operation writes `value` to `field`.
pub open spec fn writes(op: CRDTOperationView, field: Seq<char>, value: Seq<u8>) -> bool {
    merged(op) && match change_of(op) {
        ChangeView::Create(values) => values.contains_key(field) && values[field] == value,
        ChangeView::Update { field: f, value: v } => f == field && v == value,
        ChangeView::Delete => false,
    }
}

impl ReplicaView {
    pub open spec fn has_row(self, model: Seq<char>, id: SyncIdView) -> bool {
        self.records.contains_key(RecordKeyView::Row { model, id })
    }

    pub open spec fn record_or_fresh(self, key: RecordKeyView) -> RecordView {
        if self.records.contains_key(key) {
            self.records[key]
        } else {
            RecordView::fresh()
        }
    }

    /// Whether the schema has the model that the operation names, replicated
    /// in the way of the operation.
    pub open spec fn accepts(self, op: CRDTOperationView) -> bool {
        match op.typ {
            CRDTOperationTypeView::Shared(s) => self.schema.contains_key(s.model)
                && self.schema[s.model] is Shared,
            CRDTOperationTypeView::Relation(r) => self.schema.contains_key(r.relation)
                && self.schema[r.relation] is Relation,
            CRDTOperationTypeView::Owned(o) => self.schema.contains_key(o.model)
                && self.schema[o.model] is Owned,
        }
    }

    /// Whether the operation was applied or is waiting.
    pub open spec fn known(self, id: OpId) -> bool {
        self.seen.contains(id) || self.pending.contains_key(id)
    }

    /// Whether the records that one change of a batch refers to are there.
    pub open spec fn resolved(self, references: Seq<(Seq<char>, Seq<char>)>, change: OwnedOperationDataView) -> bool {
        match change {
            OwnedOperationDataView::Create(values) => self.all_there(references, values),
            OwnedOperationDataView::Update(values) => self.all_there(references, values),
            OwnedOperationDataView::Delete(_) => true,
        }
    }

    /// Whether the record that change `i` of a batch writes to or removes
    /// is there or is made by a change before it.
    pub open spec fn settled(
        self,
        model: Seq<char>,
        id: Seq<Seq<char>>,
        compound: bool,
        changes: Seq<OwnedOperationDataView>,
        i: int,
    ) -> bool {
        match owned_target(model, id, compound, changes[i]) {
            Some(key) => self.records.contains_key(key) || made_before(model, id, compound, changes, i, key),
            None => true,
        }
    }

    pub open spec fn all_there(self, references: Seq<(Seq<char>, Seq<char>)>, values: Map<Seq<char>, Seq<u8>>) -> bool {
        forall|j: int|
            0 <= j < references.len() && values.contains_key((#[trigger] references[j]).0) ==> self.has_row(
                references[j].1,
                SyncIdView::Single(values[references[j].0]),
            )
    }

    /// Whether every record that the operation needs is there: the record
    /// itself for an update or a deletion of a shared record; both ends of
    /// the edge for an operation on a relation, and the edge for an update or
    /// a deletion; for a batch on owned records the records that its fields
    /// refer to, and the record of each update and deletion unless a change
    /// before it in the batch makes it.
    pub open spec fn ready(self, op: CRDTOperationView) -> bool {
        match op.typ {
            CRDTOperationTypeView::Shared(s) => s.data is Create || self.has_row(s.model, s.record_id),
            CRDTOperationTypeView::Relation(r) => match self.schema[r.relation] {
                ModelKindView::Relation { item, group } => {
                    &&& self.has_row(item, r.relation_item)
                    &&& self.has_row(group, r.relation_group)
                    &&& (r.data is Create || self.records.contains_key(
                        RecordKeyView::Edge {
                            relation: r.relation,
                            item: r.relation_item,
                            group: r.relation_group,
                        },
                    ))
                },
                _ => false,
            },
            CRDTOperationTypeView::Owned(o) => match self.schema[o.model] {
                ModelKindView::Owned { id, compound, references } => forall|i: int|
                    0 <= i < o.data.len() ==> self.resolved(references, #[trigger] o.data[i]) && self.settled(
                        o.model,
                        id,
                        compound,
                        o.data,
                        i,
                    ),
                _ => false,
            },
        }
    }

    /// The first record from position `j` of `references` on that the
    /// values refer to and that is not there.
    pub open spec fn missing_reference(
        self,
        references: Seq<(Seq<char>, Seq<char>)>,
        values: Map<Seq<char>, Seq<u8>>,
        j: int,
    ) -> Option<RecordKeyView>
        decreases references.len() - j,
    {
        if j < 0 || j >= references.len() {
            None
        } else if values.contains_key(references[j].0) && !self.has_row(
            references[j].1,
            SyncIdView::Single(values[references[j].0]),
        ) {
            Some(RecordKeyView::Row { model: references[j].1, id: SyncIdView::Single(values[references[j].0]) })
        } else {
            self.missing_reference(references, values, j + 1)
        }
    }

    /// The first record that one change of a batch refers to and that is not
    /// there.
    pub open spec fn missing_in(self, references: Seq<(Seq<char>, Seq<char>)>, change: OwnedOperationDataView) -> Option<
        RecordKeyView,
    > {
        match change {
            OwnedOperationDataView::Create(values) => self.missing_reference(references, values, 0),
            OwnedOperationDataView::Update(values) => self.missing_reference(references, values, 0),
            OwnedOperationDataView::Delete(_) => None,
        }
    }

    /// The record that change `i` of a batch waits for: the first that it
    /// refers to and that is not there, or else the record that it writes
    /// to or removes, where that is neither there nor made before.
    pub open spec fn waits_for(
        self,
        model: Seq<char>,
        id: Seq<Seq<char>>,
        compound: bool,
        references: Seq<(Seq<char>, Seq<char>)>,
        changes: Seq<OwnedOperationDataView>,
        i: int,
    ) -> Option<RecordKeyView> {
        match self.missing_in(references, changes[i]) {
            Some(key) => Some(key),
            None => if self.settled(model, id, compound, changes, i) {
                None
            } else {
                owned_target(model, id, compound, changes[i])
            },
        }
    }

    /// The first record that a change from position `i` of a batch on waits
    /// for.
    pub open spec fn missing_from(
        self,
        model: Seq<char>,
        id: Seq<Seq<char>>,
        compound: bool,
        references: Seq<(Seq<char>, Seq<char>)>,
        changes: Seq<OwnedOperationDataView>,
        i: int,
    ) -> Option<RecordKeyView>
        decreases changes.len() - i,
    {
        if i < 0 || i >= changes.len() {
            None
        } else {
            match self.waits_for(model, id, compound, references, changes, i) {
                Some(key) => Some(key),
                None => self.missing_from(model, id, compound, references, changes, i + 1),
            }
        }
    }

    /// The record that the operation waits for: the first that it needs and
    /// that is not there. For an operation on a relation the item comes
    /// first, then the group, then the edge.
    pub open spec fn missing(self, op: CRDTOperationView) -> Option<RecordKeyView> {
        match op.typ {
            CRDTOperationTypeView::Shared(s) => if s.data is Create || self.has_row(s.model, s.record_id) {
                None
            } else {
                Some(RecordKeyView::Row { model: s.model, id: s.record_id })
            },
            CRDTOperationTypeView::Relation(r) => match self.schema[r.relation] {
                ModelKindView::Relation { item, group } => {
                    let edge = RecordKeyView::Edge {
                        relation: r.relation,
                        item: r.relation_item,
                        group: r.relation_group,
                    };
                    if !self.has_row(item, r.relation_item) {
                        Some(RecordKeyView::Row { model: item, id: r.relation_item })
                    } else if !self.has_row(group, r.relation_group) {
                        Some(RecordKeyView::Row { model: group, id: r.relation_group })
                    } else if !(r.data is Create) && !self.records.contains_key(edge) {
                        Some(edge)
                    } else {
                        None
                    }
                },
                _ => None,
            },
            CRDTOperationTypeView::Owned(o) => match self.schema[o.model] {
                ModelKindView::Owned { id, compound, references } => self.missing_from(
                    o.model,
                    id,
                    compound,
                    references,
                    o.data,
                    0,
                ),
                _ => None,
            },
        }
    }

    /// The state after the operation, which is ready, has done its work.
    pub open spec fn effect(self, op: CRDTOperationView) -> ReplicaView {
        let t = op.timestamp;
        let records = match op.typ {
            CRDTOperationTypeView::Shared(s) => {
                let key = RecordKeyView::Row { model: s.model, id: s.record_id };
                let record = self.record_or_fresh(key);
                self.records.insert(
                    key,
                    match s.data {
                        SharedOperationDataView::Create(SharedOperationCreateDataView::Unique(values)) => record.created_with(values, t),
                        SharedOperationDataView::Create(SharedOperationCreateDataView::Atomic) => record.created_with(Map::empty(), t),
                        SharedOperationDataView::Update { field, value } => record.updated(field, value, t),
                        SharedOperationDataView::Delete => record.deleted(t),
                    },
                )
            },
            CRDTOperationTypeView::Relation(r) => {
                let key = RecordKeyView::Edge {
                    relation: r.relation,
                    item: r.relation_item,
                    group: r.relation_group,
                };
                let record = self.record_or_fresh(key);
                self.records.insert(
                    key,
                    match r.data {
                        RelationOperationDataView::Create => record.created_with(Map::empty(), t),
                        RelationOperationDataView::Update { field, value } => record.updated(field, value, t),
                        RelationOperationDataView::Delete => record.deleted(t),
                    },
                )
            },
            CRDTOperationTypeView::Owned(o) => match self.schema[o.model] {
                ModelKindView::Owned { id, compound, references } => owned_fold(
                    self.records,
                    o.model,
                    id,
                    compound,
                    o.data,
                    t,
                ),
                _ => self.records,
            },
        };
        ReplicaView { seen: self.seen.insert(op.id()), records, ..self }
    }

    /// Whether `id` is the oldest of `ids`.
    pub open spec fn is_oldest(ids: Set<OpId>, id: OpId) -> bool {
        ids.contains(id) && forall|other: OpId| ids.contains(other) ==> id_le(id, other)
    }

    pub open spec fn oldest(ids: Set<OpId>) -> OpId {
        choose|id: OpId| Self::is_oldest(ids, id)
    }

    /// The state after the operation, which is not ready, was set aside:
    /// where that makes more waiting operations than may wait, the oldest of
    /// them is given up.
    pub open spec fn park(self, op: CRDTOperationView) -> ReplicaView {
        let pending = self.pending.insert(op.id(), op);
        if pending.dom().len() > self.capacity {
            ReplicaView { pending: pending.remove(Self::oldest(pending.dom())), ..self }
        } else {
            ReplicaView { pending, ..self }
        }
    }

    /// The waiting operations that are ready.
    pub open spec fn ripe(self) -> Set<OpId> {
        Set::new(|id: OpId| self.pending.contains_key(id) && self.ready(self.pending[id]))
    }

    /// The state after every waiting operation that is ready, or became so
    /// by this, has done its work, the oldest first.
    pub open spec fn drain(self) -> ReplicaView
        decreases self.pending.dom().len(),
        when self.pending.dom().finite()
        via Self::drain_decreases
    {
        if exists|id: OpId| Self::is_oldest(self.ripe(), id) {
            let id = Self::oldest(self.ripe());
            ReplicaView { pending: self.pending.remove(id), ..self }.effect(self.pending[id]).drain()
        } else {
            self
        }
    }

    #[via_fn]
    proof fn drain_decreases(self) {
        if exists|id: OpId| Self::is_oldest(self.ripe(), id) {
            let id = Self::oldest(self.ripe());
            assert(self.pending.dom().contains(id));
            assert(self.pending.remove(id).dom() =~= self.pending.dom().remove(id));
        }
    }

    /// The state after the operation was handed to the replica.
    pub open spec fn apply(self, op: CRDTOperationView) -> ReplicaView {
        if !self.accepts(op) || self.known(op.id()) {
            self
        } else if self.ready(op) {
            self.effect(op).drain()
        } else {
            self.park(op)
        }
    }

    pub open spec fn outcome(self, op: CRDTOperationView) -> OutcomeView {
        if !self.accepts(op) {
            OutcomeView::Rejected
        } else if self.known(op.id()) {
            OutcomeView::Duplicate
        } else if self.ready(op) {
            OutcomeView::Applied
        } else {
            let pending = self.pending.insert(op.id(), op);
            if pending.dom().len() > self.capacity {
                OutcomeView::Overflow { evicted: Self::oldest(pending.dom()) }
            } else {
                OutcomeView::Parked
            }
        }
    }

    /// Each waiting operation waits under its own identifier, is known to
    /// the schema and was not applied; no more wait than may.
    pub open spec fn tidy(self) -> bool {
        &&& self.pending.dom().finite()
        &&& self.pending.dom().len() <= self.capacity
        &&& forall|id: OpId| #[trigger] self.pending.contains_key(id) ==> {
            &&& self.pending[id].id() == id
            &&& self.accepts(self.pending[id])
            &&& !self.seen.contains(id)
        }
    }

    /// What holds of every state that a replica reaches: it is tidy, and no
    /// waiting operation is ready.
    pub open spec fn inv(self) -> bool {
        &&& self.tidy()
        &&& forall|id: OpId| #[trigger] self.pending.contains_key(id) ==> !self.ready(self.pending[id])
    }
}

/// A replica without records.
pub open spec fn fresh(schema: SchemaView, capacity: nat) -> ReplicaView {
    ReplicaView { schema, capacity, seen: Set::empty(), records: Map::empty(), pending: Map::empty() }
}

/// The state after the operations were handed to the replica one after
/// another.
pub open spec fn apply_all(s: ReplicaView, ops: Seq<CRDTOperationView>) -> ReplicaView
    decreases ops.len(),
{
    if ops.len() == 0 {
        s
    } else {
        apply_all(s, ops.drop_last()).apply(ops.last())
    }
}

/// Whether no waiting operation was given up while the operations were
/// handed to the replica.
pub open spec fn calm(s: ReplicaView, ops: Seq<CRDTOperationView>) -> bool
    decreases ops.len(),
{
    ops.len() == 0 || (calm(s, ops.drop_last()) && !(apply_all(s, ops.drop_last()).outcome(ops.last()) is Overflow))
}

} // verus!
