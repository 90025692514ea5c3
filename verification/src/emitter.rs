//! Turning a change that this node has made into operations: which
//! operations stand for it, under which timestamps, and in which form they
//! are kept.

use vstd::prelude::*;
use vstd::string::StrSliceExecFns;
use vstd::string::StringExecFns;
use crate::clock::next_stamp;
use crate::clock::Clock;
use crate::clock::ClockError;
use crate::datamodel::model::SharedCreateType;
use crate::owned::OwnedOperation;
use crate::owned::OwnedOperationData;
use crate::relation::RelationOperation;
use crate::relation::RelationOperationData;
use crate::shared::SharedOperation;
use crate::shared::SharedOperationData;
use crate::table::Key;
use crate::value::FieldMap;
use crate::value::SyncID;
use crate::CRDTOperation;
use crate::CRDTOperationType;
use crate::Id;
use crate::Timestamp;

verus! {

/// The node that makes the operations, with its clock.
#[derive(Clone, Debug, PartialEq, Eq)]
pub struct Emitter {
    /// The node's identifier, the same on every node.
    pub node_id: Id,
    /// The key under which this node keeps its own record.
    pub node_local_id: i32,
    pub clock: Clock,
}

/// The operations that stand for making a shared record: one operation with
/// the fields, or one that makes the empty record and one update for each
/// field, in the order of the fields.
pub open spec fn shared_create_of(
    model: Seq<char>,
    record_id: SyncID,
    create: SharedCreateType,
    values: FieldMap,
) -> Seq<crate::CRDTOperationTypeView> {
    match create {
        SharedCreateType::Unique => seq![
            crate::CRDTOperationTypeView::Shared(
                crate::shared::SharedOperationView {
                    record_id: record_id@,
                    model,
                    data: crate::shared::SharedOperationDataView::Create(
                        crate::shared::SharedOperationCreateDataView::Unique(values@),
                    ),
                },
            ),
        ],
        SharedCreateType::Atomic => Seq::new(
            values.entries@.len() + 1,
            |i: int|
                crate::CRDTOperationTypeView::Shared(
                    crate::shared::SharedOperationView {
                        record_id: record_id@,
                        model,
                        data: if i == 0 {
                            crate::shared::SharedOperationDataView::Create(
                                crate::shared::SharedOperationCreateDataView::Atomic,
                            )
                        } else {
                            crate::shared::SharedOperationDataView::Update {
                                field: values.entries@[i - 1].0@,
                                value: values.entries@[i - 1].1@,
                            }
                        },
                    },
                ),
        ),
    }
}

/// The views of a list of operations.
pub open spec fn types_view(types: Seq<CRDTOperationType>) -> Seq<crate::CRDTOperationTypeView> {
    Seq::new(types.len(), |i: int| types[i]@)
}

/// The operations that stand for making a shared record.
pub fn shared_create(model: &String, record_id: &SyncID, create: SharedCreateType, values: FieldMap) -> (ops: Vec<
    CRDTOperationType,
>)
    requires
        record_id.valid(),
        values.wf(),
        values.entries@.len() < usize::MAX,
    ensures
        types_view(ops@) == shared_create_of(model@, *record_id, create, values),
        forall|i: int| 0 <= i < ops@.len() ==> (#[trigger] ops@[i]).valid(),
{
    let mut ops: Vec<CRDTOperationType> = Vec::new();
    match create {
        SharedCreateType::Unique => {
            ops.push(
                CRDTOperationType::Shared(
                    SharedOperation {
                        record_id: record_id.copy(),
                        model: model.clone(),
                        data: SharedOperationData::create_unique(values),
                    },
                ),
            );
            assert(types_view(ops@) =~= shared_create_of(model@, *record_id, create, values));
        },
        SharedCreateType::Atomic => {
            ops.push(
                CRDTOperationType::Shared(
                    SharedOperation {
                        record_id: record_id.copy(),
                        model: model.clone(),
                        data: SharedOperationData::create_atomic(),
                    },
                ),
            );
            let mut i: usize = 0;
            while i < values.entries.len()
                invariant
                    i <= values.entries@.len(),
                    record_id.valid(),
                    ops@.len() == i + 1,
                    forall|k: int| 0 <= k < ops@.len() ==> (#[trigger] ops@[k]).valid(),
                    forall|k: int|
                        0 <= k < ops@.len() ==> (#[trigger] ops@[k])@ == shared_create_of(
                            model@,
                            *record_id,
                            create,
                            values,
                        )[k],
                    create == SharedCreateType::Atomic,
                    values.entries@.len() < usize::MAX,
                decreases values.entries@.len() - i,
            {
                ops.push(
                    CRDTOperationType::Shared(
                        SharedOperation {
                            record_id: record_id.copy(),
                            model: model.clone(),
                            data: SharedOperationData::update(
                                values.entries[i].0.clone(),
                                values.entries[i].1.copy(),
                            ),
                        },
                    ),
                );
                i += 1;
            }
            assert(types_view(ops@) =~= shared_create_of(model@, *record_id, create, values));
        },
    }
    ops
}

/// The operation that stands for making an owned record.
pub fn owned_create(model: &String, values: FieldMap) -> (op: CRDTOperationType)
    requires
        values.wf(),
    ensures
        op.valid(),
        op matches CRDTOperationType::Owned(batch) && batch.model@ == model@ && batch.data@.len() == 1
            && batch.data@[0] == OwnedOperationData::Create(values),
{
    let mut data: Vec<OwnedOperationData> = Vec::new();
    data.push(OwnedOperationData::Create(values));
    CRDTOperationType::Owned(OwnedOperation { model: model.clone(), data })
}

/// The operation that stands for making an edge of a relation.
pub fn relation_create(relation: &String, item: SyncID, group: SyncID) -> (op: CRDTOperationType)
    ensures
        op matches CRDTOperationType::Relation(r) && r.relation@ == relation@ && r.relation_item == item
            && r.relation_group == group && r.data == RelationOperationData::Create,
{
    CRDTOperationType::Relation(RelationOperation::new(relation.clone(), item, group, RelationOperationData::create()))
}

impl Emitter {
    pub fn new(node_id: Id, node_local_id: i32, max_skew: u64) -> (e: Self)
        ensures
            e.node_id == node_id,
            e.node_local_id == node_local_id,
            e.clock.last == 0,
            e.clock.max_skew == max_skew,
    {
        Emitter { node_id, node_local_id, clock: Clock::new(max_skew) }
    }

    /// The operation that carries `typ`, made by this node at physical time
    /// `physical`. Its timestamp is later than that of every operation this
    /// node has made or seen.
    pub fn stamp(&mut self, typ: CRDTOperationType, physical: Timestamp) -> (r: Result<CRDTOperation, ClockError>)
        ensures
            final(self).node_id == old(self).node_id,
            final(self).node_local_id == old(self).node_local_id,
            final(self).clock.max_skew == old(self).clock.max_skew,
            match r {
                Ok(op) => op.node@ == old(self).node_id@ && op.typ == typ && old(self).clock.last < u64::MAX
                    && op.timestamp == next_stamp(old(self).clock.last, physical) && final(self).clock.last
                    == op.timestamp,
                Err(e) => e is Exhausted && old(self).clock.last == u64::MAX && final(self).clock.last == u64::MAX,
            },
    {
        match self.clock.now(physical) {
            Ok(timestamp) => Ok(CRDTOperation::new(self.node_id.copy(), timestamp, typ)),
            Err(e) => Err(e),
        }
    }

    /// The operations that carry `types`, in their order, made by this node
    /// at physical time `physical`. The first has the timestamp that one
    /// operation would have, and each of the others the next timestamp after
    /// the one before it, so that no two operations of this node carry the
    /// same. Nothing is made where the timestamps run out.
    pub fn stamp_all(&mut self, types: Vec<CRDTOperationType>, physical: Timestamp) -> (r: Result<
        Vec<CRDTOperation>,
        ClockError,
    >)
        ensures
            final(self).node_id == old(self).node_id,
            final(self).node_local_id == old(self).node_local_id,
            final(self).clock.max_skew == old(self).clock.max_skew,
            final(self).clock.last >= old(self).clock.last,
            r.is_ok() <==> types@.len() == 0 || next_stamp(old(self).clock.last, physical) + types@.len() - 1
                <= u64::MAX,
            match r {
                Ok(ops) => {
                    &&& ops@.len() == types@.len()
                    &&& forall|i: int|
                        0 <= i < ops@.len() ==> (#[trigger] ops@[i]).typ == types@[i] && ops@[i].node@ == old(
                            self,
                        ).node_id@ && ops@[i].timestamp == next_stamp(old(self).clock.last, physical) + i
                    &&& ops@.len() > 0 ==> final(self).clock.last == ops@[ops@.len() - 1].timestamp
                    &&& ops@.len() == 0 ==> final(self).clock.last == old(self).clock.last
                },
                Err(e) => e is Exhausted && final(self).clock.last == u64::MAX,
            },
    {
        let ghost all = types@;
        let ghost first = next_stamp(self.clock.last, physical);
        let mut rest = types;
        let mut ops: Vec<CRDTOperation> = Vec::new();
        while rest.len() > 0
            invariant
                self.node_id == old(self).node_id,
                self.node_local_id == old(self).node_local_id,
                self.clock.max_skew == old(self).clock.max_skew,
                self.clock.last >= old(self).clock.last,
                first == next_stamp(old(self).clock.last, physical),
                all == types@,
                ops@.len() + rest@.len() == all.len(),
                rest@ == all.subrange(ops@.len() as int, all.len() as int),
                ops@.len() == 0 ==> self.clock.last == old(self).clock.last,
                ops@.len() > 0 ==> self.clock.last == first + ops@.len() - 1,
                forall|i: int|
                    0 <= i < ops@.len() ==> (#[trigger] ops@[i]).typ == all[i] && ops@[i].node@ == old(
                        self,
                    ).node_id@ && ops@[i].timestamp == first + i,
            decreases rest@.len(),
        {
            assert(all.len() > ops@.len());
            let typ = rest.remove(0);
            assert(rest@ =~= all.subrange(ops@.len() as int + 1, all.len() as int));
            match self.stamp(typ, physical) {
                Ok(op) => {
                    ops.push(op);
                },
                Err(e) => {
                    return Err(e);
                },
            }
        }
        Ok(ops)
    }
}

/// What an operation does to its record, as the kept form of the operation
/// says it.
#[derive(Clone, Debug, PartialEq, Eq)]
pub enum OperationKind {
    Create,
    Update { field: String },
    Delete,
}

pub enum OperationKindView {
    Create,
    Update { field: Seq<char> },
    Delete,
}

impl View for OperationKind {
    type V = OperationKindView;

    open spec fn view(&self) -> OperationKindView {
        match self {
            OperationKind::Create => OperationKindView::Create,
            OperationKind::Update { field } => OperationKindView::Update { field: field@ },
            OperationKind::Delete => OperationKindView::Delete,
        }
    }
}

/// The text that stands for a kind in the kept form of an operation: `c`,
/// `d`, or `u` followed by the name of the field.
pub open spec fn kind_text(kind: OperationKindView) -> Seq<char> {
    match kind {
        OperationKindView::Create => seq!['c'],
        OperationKindView::Update { field } => seq!['u'] + field,
        OperationKindView::Delete => seq!['d'],
    }
}

/// The kind that a text stands for, if it stands for one.
pub open spec fn kind_of_text(text: Seq<char>) -> Option<OperationKindView> {
    if text.len() == 0 {
        None
    } else if text[0] == 'u' {
        Some(OperationKindView::Update { field: text.subrange(1, text.len() as int) })
    } else if text == seq!['c'] {
        Some(OperationKindView::Create)
    } else if text == seq!['d'] {
        Some(OperationKindView::Delete)
    } else {
        None
    }
}

/// Reading the text of a kind gives the kind.
pub proof fn lemma_kind_round_trip(kind: OperationKindView)
    ensures
        kind_of_text(kind_text(kind)) == Some(kind),
{
    match kind {
        OperationKindView::Update { field } => {
            let text = seq!['u'] + field;
            assert(text.subrange(1, text.len() as int) =~= field);
        },
        _ => {},
    }
}

impl OperationKind {
    /// The kind of an operation on a shared record.
    pub fn of_shared(data: &SharedOperationData) -> (kind: OperationKind)
        ensures
            kind@ == (match data@ {
                crate::shared::SharedOperationDataView::Create(_) => OperationKindView::Create,
                crate::shared::SharedOperationDataView::Update { field, value } => OperationKindView::Update {
                    field,
                },
                crate::shared::SharedOperationDataView::Delete => OperationKindView::Delete,
            }),
    {
        match data {
            SharedOperationData::Create(_) => OperationKind::Create,
            SharedOperationData::Update { field, value } => OperationKind::Update { field: field.clone() },
            SharedOperationData::Delete => OperationKind::Delete,
        }
    }

    /// The kind of an operation on a relation.
    pub fn of_relation(data: &RelationOperationData) -> (kind: OperationKind)
        ensures
            kind@ == (match data@ {
                crate::relation::RelationOperationDataView::Create => OperationKindView::Create,
                crate::relation::RelationOperationDataView::Update { field, value } => OperationKindView::Update {
                    field,
                },
                crate::relation::RelationOperationDataView::Delete => OperationKindView::Delete,
            }),
    {
        match data {
            RelationOperationData::Create => OperationKind::Create,
            RelationOperationData::Update { field, value } => OperationKind::Update { field: field.clone() },
            RelationOperationData::Delete => OperationKind::Delete,
        }
    }

    /// The text that stands for the kind in the kept form of an operation.
    pub fn text(&self) -> (text: String)
        ensures
            text@ == kind_text(self@),
    {
        proof {
            reveal_strlit("c");
            reveal_strlit("u");
            reveal_strlit("d");
        }
        match self {
            OperationKind::Create => {
                let text = String::from_str("c");
                assert(text@ =~= seq!['c']);
                text
            },
            OperationKind::Update { field } => {
                let text = String::from_str("u").concat(field.as_str());
                assert(text@ =~= seq!['u'] + field@);
                text
            },
            OperationKind::Delete => {
                let text = String::from_str("d");
                assert(text@ =~= seq!['d']);
                text
            },
        }
    }

    /// The kind that a text stands for, if it stands for one.
    pub fn parse(text: &str) -> (kind: Option<OperationKind>)
        ensures
            match kind {
                Some(kind) => kind_of_text(text@) == Some(kind@),
                None => kind_of_text(text@).is_none(),
            },
    {
        let n = text.unicode_len();
        if n == 0 {
            return None;
        }
        let first = text.get_char(0);
        if first == 'u' {
            Some(OperationKind::Update { field: String::from_str(text.substring_char(1, n)) })
        } else if n == 1 && first == 'c' {
            assert(text@ =~= seq!['c']);
            Some(OperationKind::Create)
        } else if n == 1 && first == 'd' {
            assert(text@ =~= seq!['d']);
            Some(OperationKind::Delete)
        } else {
            proof {
                if text@ == seq!['c'] || text@ == seq!['d'] {
                    assert(text@.len() == 1);
                }
            }
            None
        }
    }
}

/// The data that is kept of an operation beside its kind: the value of an
/// update; nothing for a deletion and for the creation of an edge; and for
/// the creation of a shared record and for a batch on owned records the
/// payload, which is the written form of what was created or of the batch.
pub open spec fn kept_data_of(typ: crate::CRDTOperationTypeView, payload: Seq<u8>) -> Seq<u8> {
    match typ {
        crate::CRDTOperationTypeView::Shared(op) => match op.data {
            crate::shared::SharedOperationDataView::Create(_) => payload,
            crate::shared::SharedOperationDataView::Update { field, value } => value,
            crate::shared::SharedOperationDataView::Delete => Seq::empty(),
        },
        crate::CRDTOperationTypeView::Relation(op) => match op.data {
            crate::relation::RelationOperationDataView::Create => Seq::empty(),
            crate::relation::RelationOperationDataView::Update { field, value } => value,
            crate::relation::RelationOperationDataView::Delete => Seq::empty(),
        },
        crate::CRDTOperationTypeView::Owned(_) => payload,
    }
}

/// The kind that is kept of an operation: a batch on owned records has none.
pub open spec fn kept_kind_of(typ: crate::CRDTOperationTypeView) -> Option<OperationKindView> {
    match typ {
        crate::CRDTOperationTypeView::Shared(op) => Some(
            match op.data {
                crate::shared::SharedOperationDataView::Create(_) => OperationKindView::Create,
                crate::shared::SharedOperationDataView::Update { field, value } => OperationKindView::Update { field },
                crate::shared::SharedOperationDataView::Delete => OperationKindView::Delete,
            },
        ),
        crate::CRDTOperationTypeView::Relation(op) => Some(
            match op.data {
                crate::relation::RelationOperationDataView::Create => OperationKindView::Create,
                crate::relation::RelationOperationDataView::Update { field, value } => OperationKindView::Update {
                    field,
                },
                crate::relation::RelationOperationDataView::Delete => OperationKindView::Delete,
            },
        ),
        crate::CRDTOperationTypeView::Owned(_) => None,
    }
}

/// The kind that is kept of an operation.
pub fn kept_kind(typ: &CRDTOperationType) -> (kind: Option<OperationKind>)
    ensures
        match kind {
            Some(kind) => kept_kind_of(typ@) == Some(kind@),
            None => kept_kind_of(typ@).is_none(),
        },
{
    match typ {
        CRDTOperationType::Shared(op) => Some(OperationKind::of_shared(&op.data)),
        CRDTOperationType::Relation(op) => Some(OperationKind::of_relation(&op.data)),
        CRDTOperationType::Owned(_) => None,
    }
}

/// The data that is kept of an operation. `payload` is the written form of
/// what a creation creates or of a batch; it is left aside for the others.
pub fn kept_data(typ: &CRDTOperationType, payload: Vec<u8>) -> (data: Vec<u8>)
    ensures
        data@ == kept_data_of(typ@, payload@),
{
    match typ {
        CRDTOperationType::Shared(op) => match &op.data {
            SharedOperationData::Create(_) => payload,
            SharedOperationData::Update { field, value } => value.copy(),
            SharedOperationData::Delete => Vec::new(),
        },
        CRDTOperationType::Relation(op) => match &op.data {
            RelationOperationData::Create => Vec::new(),
            RelationOperationData::Update { field, value } => value.copy(),
            RelationOperationData::Delete => Vec::new(),
        },
        CRDTOperationType::Owned(_) => payload,
    }
}

} // verus!
