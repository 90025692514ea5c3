//! A replica: the records of one node, the operations it has applied, and
//! the operations that wait for a record.

use vstd::prelude::*;
use crate::merge::key::id_le;
use crate::merge::key::lemma_id_le_antisymmetric;
use crate::merge::key::lemma_id_le_total;
use crate::merge::key::lemma_id_le_transitive;
use crate::merge::key::OperationId;
use crate::merge::key::RecordKey;
use crate::merge::key::RecordKeyView;
use crate::merge::record::Record;
use crate::merge::record::RecordView;
use crate::merge::schema::names_view;
use crate::merge::schema::references_view;
use crate::merge::schema::ModelKind;
use crate::merge::schema::ModelKindView;
use crate::merge::schema::Reference;
use crate::merge::schema::Schema;
use crate::merge::state::apply_all;
use crate::merge::state::fresh;
use crate::merge::state::made_before;
use crate::merge::state::owned_fold;
use crate::merge::state::owned_id;
use crate::merge::state::owned_made;
use crate::merge::state::owned_step;
use crate::merge::state::owned_target;
use crate::merge::state::OpId;
use crate::merge::state::OutcomeView;
use crate::merge::state::ReplicaView;
use crate::owned::changes_view;
use crate::owned::OwnedOperation;
use crate::owned::OwnedOperationData;
use crate::relation::RelationOperation;
use crate::relation::RelationOperationData;
use crate::shared::SharedOperation;
use crate::shared::SharedOperationCreateData;
use crate::shared::SharedOperationData;
use crate::table::Key;
use crate::table::Table;
use crate::value::FieldMap;
use crate::value::SyncID;
use crate::value::SyncIdView;
use crate::value::Value;
use crate::CRDTOperation;
use crate::CRDTOperationType;
use crate::CRDTOperationTypeView;
use crate::Timestamp;

verus! {

#[derive(Clone, Debug, PartialEq, Eq)]
pub struct Replica {
    pub schema: Schema,
    pub capacity: usize,
    pub seen: Table<OperationId, ()>,
    pub records: Table<RecordKey, Record>,
    pub pending: Table<OperationId, CRDTOperation>,
}

impl View for Replica {
    type V = ReplicaView;

    open spec fn view(&self) -> ReplicaView {
        ReplicaView {
            schema: self.schema@,
            capacity: self.capacity as nat,
            seen: self.seen@.dom(),
            records: self.records@,
            pending: self.pending@,
        }
    }
}

/// What became of an operation that was handed to a replica.
#[derive(Clone, Debug, PartialEq, Eq)]
pub enum Outcome {
    Rejected,
    Duplicate,
    Applied,
    Parked,
    Overflow { evicted: OperationId },
}

impl View for Outcome {
    type V = OutcomeView;

    open spec fn view(&self) -> OutcomeView {
        match self {
            Outcome::Rejected => OutcomeView::Rejected,
            Outcome::Duplicate => OutcomeView::Duplicate,
            Outcome::Applied => OutcomeView::Applied,
            Outcome::Parked => OutcomeView::Parked,
            Outcome::Overflow { evicted } => OutcomeView::Overflow { evicted: evicted@ },
        }
    }
}

/// The key of the record of `model` that `id` identifies.
fn row_key(model: &String, id: &SyncID) -> (key: RecordKey)
    requires
        id.valid(),
    ensures
        key.valid(),
        key@ == (RecordKeyView::Row { model: model@, id: id@ }),
{
    RecordKey::Row { model: model.copy(), id: id.copy() }
}

/// A change to one shared record or edge.
#[derive(Clone, Debug, PartialEq, Eq)]
pub enum Change {
    Create(FieldMap),
    Update { field: String, value: Value },
    Delete,
}

pub enum ChangeView {
    Create(Map<Seq<char>, Seq<u8>>),
    Update { field: Seq<char>, value: Seq<u8> },
    Delete,
}

impl View for Change {
    type V = ChangeView;

    open spec fn view(&self) -> ChangeView {
        match self {
            Change::Create(values) => ChangeView::Create(values@),
            Change::Update { field, value } => ChangeView::Update { field: field@, value: value@ },
            Change::Delete => ChangeView::Delete,
        }
    }
}

impl Change {
    pub open spec fn valid(&self) -> bool {
        self matches Change::Create(values) ==> values.wf()
    }
}

impl RecordView {
    /// The record after a change at `t`.
    pub open spec fn changed(self, change: ChangeView, t: Timestamp) -> RecordView {
        match change {
            ChangeView::Create(values) => self.created_with(values, t),
            ChangeView::Update { field, value } => self.updated(field, value, t),
            ChangeView::Delete => self.deleted(t),
        }
    }
}

/// The table is well formed, and so is each record in it.
pub open spec fn records_wf(records: &Table<RecordKey, Record>) -> bool {
    &&& records.wf()
    &&& forall|i: int| 0 <= i < records.entries@.len() ==> (#[trigger] records.entries@[i]).1.wf()
}

/// Makes a change to the record under `key`, which begins as a record that
/// nothing was written to where the table has none.
pub fn change_record(records: &mut Table<RecordKey, Record>, key: RecordKey, change: Change, t: Timestamp)
    requires
        records_wf(old(records)),
        key.valid(),
        change.valid(),
    ensures
        records_wf(final(records)),
        final(records)@ == old(records)@.insert(
            key@,
            (if old(records)@.contains_key(key@) {
                old(records)@[key@]
            } else {
                RecordView::fresh()
            }).changed(change@, t),
        ),
{
    let mut record = match records.find(&key) {
        Some(i) => {
            let e = records.remove(i);
            assert(old(records).entries@.contains(e));
            e.1
        },
        None => Record::new(),
    };
    match change {
        Change::Create(values) => record.create_with(values, t),
        Change::Update { field, value } => record.update(field, value, t),
        Change::Delete => record.delete(t),
    }
    let ghost mid = *records;
    records.insert(key, record);
    proof {
        assert forall|i: int| 0 <= i < records.entries@.len() implies (#[trigger] records.entries@[i]).1.wf() by {
            if mid.entries@.contains(records.entries@[i]) {
                assert(old(records).entries@.contains(records.entries@[i]));
            }
        }
        assert(records@ =~= old(records)@.insert(
            key@,
            (if old(records)@.contains_key(key@) {
                old(records)@[key@]
            } else {
                RecordView::fresh()
            }).changed(change@, t),
        ));
    }
}

/// The identifier of an owned record, read from the fields of an operation
/// on it.
pub fn owned_key(id: &Vec<String>, compound: bool, values: &FieldMap) -> (r: Option<SyncID>)
    requires
        values.wf(),
    ensures
        match r {
            Some(key) => key.valid() && owned_id(names_view(id@), compound, values@) == Some(key@),
            None => owned_id(names_view(id@), compound, values@).is_none(),
        },
{
    let ghost names = names_view(id@);
    let mut i: usize = 0;
    while i < id.len()
        invariant
            values.wf(),
            names == names_view(id@),
            i <= id@.len(),
            forall|j: int| 0 <= j < i ==> values@.contains_key(#[trigger] names[j]),
        decreases id@.len() - i,
    {
        if values.find(&id[i]).is_none() {
            assert(!values@.contains_key(names[i as int]));
            return None;
        }
        i += 1;
    }
    if !compound && id.len() == 1 {
        match values.find(&id[0]) {
            Some(j) => {
                assert(values@.contains_key(names[0]));
                Some(SyncID::Single(values.entries[j].1.copy()))
            },
            None => None,
        }
    } else {
        let mut parts: FieldMap = Table::new();
        let mut i: usize = 0;
        while i < id.len()
            invariant
                values.wf(),
                parts.wf(),
                names == names_view(id@),
                i <= id@.len(),
                forall|j: int| 0 <= j < names.len() ==> values@.contains_key(#[trigger] names[j]),
                forall|f: Seq<char>| #[trigger]
                    parts@.contains_key(f) <==> exists|j: int| 0 <= j < i && names[j] == f,
                forall|f: Seq<char>| #[trigger] parts@.contains_key(f) ==> parts@[f] == values@[f],
            decreases id@.len() - i,
        {
            match values.find(&id[i]) {
                Some(j) => {
                    let ghost before = parts@;
                    parts.insert(id[i].copy(), values.entries[j].1.copy());
                    proof {
                        assert forall|f: Seq<char>| #[trigger]
                            parts@.contains_key(f) <==> exists|j: int| 0 <= j < i + 1 && names[j] == f by {
                            if before.contains_key(f) {
                                let j = choose|j: int| 0 <= j < i && names[j] == f;
                                assert(0 <= j < i + 1 && names[j] == f);
                            }
                            if f == names[i as int] {
                                assert(0 <= i < i + 1 && names[i as int] == f);
                            }
                            if exists|j: int| 0 <= j < i + 1 && names[j] == f {
                                let j = choose|j: int| 0 <= j < i + 1 && names[j] == f;
                                if j < i {
                                    assert(before.contains_key(f));
                                }
                            }
                        }
                    }
                },
                None => {
                    assert(values@.contains_key(names[i as int]));
                },
            }
            i += 1;
        }
        proof {
            assert forall|f: Seq<char>| parts@.contains_key(f) <==> values@.restrict(names.to_set()).contains_key(f) by {
                if parts@.contains_key(f) {
                    let j = choose|j: int| 0 <= j < names.len() && names[j] == f;
                    assert(names.contains(f));
                }
                if values@.contains_key(f) && names.to_set().contains(f) {
                    assert(names.contains(f));
                    let j = choose|j: int| 0 <= j < names.len() && names[j] == f;
                    assert(0 <= j < id@.len() && names[j] == f);
                }
            }
            assert(parts@ =~= values@.restrict(names.to_set()));
        }
        Some(SyncID::Compound(parts))
    }
}

/// Makes one change of a batch on owned records of `model`.
pub fn change_owned(
    records: &mut Table<RecordKey, Record>,
    model: &String,
    id: &Vec<String>,
    compound: bool,
    change: OwnedOperationData,
    t: Timestamp,
)
    requires
        records_wf(old(records)),
        change.valid(),
    ensures
        records_wf(final(records)),
        final(records)@ == owned_step(old(records)@, model@, names_view(id@), compound, change@, t),
{
    match change {
        OwnedOperationData::Create(values) => {
            match owned_key(id, compound, &values) {
                Some(sid) => {
                    let key = RecordKey::Row { model: model.copy(), id: sid };
                    let mut record = Record::new();
                    record.touch(t);
                    record.put_all(values, t, true);
                    records.insert(key, record);
                },
                None => {},
            }
        },
        OwnedOperationData::Update(values) => {
            match owned_key(id, compound, &values) {
                Some(sid) => {
                    let key = RecordKey::Row { model: model.copy(), id: sid };
                    match records.find(&key) {
                        Some(i) => {
                            let e = records.remove(i);
                            assert(old(records).entries@.contains(e));
                            let ghost mid = *records;
                            let mut record = e.1;
                            record.put_all(values, t, true);
                            records.insert(key, record);
                            proof {
                                assert forall|i: int| 0 <= i < records.entries@.len() implies (
                                #[trigger] records.entries@[i]).1.wf() by {
                                    if mid.entries@.contains(records.entries@[i]) {
                                        assert(old(records).entries@.contains(records.entries@[i]));
                                    }
                                }
                                assert(records@ =~= owned_step(
                                    old(records)@,
                                    model@,
                                    names_view(id@),
                                    compound,
                                    change@,
                                    t,
                                ));
                            }
                        },
                        None => {},
                    }
                },
                None => {},
            }
        },
        OwnedOperationData::Delete(sid) => {
            let key = RecordKey::Row { model: model.copy(), id: sid };
            match records.find(&key) {
                Some(i) => {
                    records.remove(i);
                },
                None => {
                    assert(records@ =~= records@.remove(key@));
                },
            }
        },
    }
}

impl Replica {
    /// The tables are well formed, and so is what they hold.
    pub open spec fn shape(&self) -> bool {
        &&& self.schema.wf()
        &&& self.seen.wf()
        &&& self.records.wf()
        &&& self.pending.wf()
        &&& forall|i: int| 0 <= i < self.records.entries@.len() ==> (#[trigger] self.records.entries@[i]).1.wf()
        &&& forall|i: int| 0 <= i < self.pending.entries@.len() ==> (#[trigger] self.pending.entries@[i]).1.valid()
    }

    pub open spec fn wf(&self) -> bool {
        self.shape() && self@.inv()
    }

    /// A replica without records, for the models of `schema`, in which at
    /// most `capacity` operations wait at a time.
    pub fn new(schema: Schema, capacity: usize) -> (r: Self)
        requires
            schema.wf(),
        ensures
            r.wf(),
            r@ == fresh(schema@, capacity as nat),
    {
        let r = Replica { schema, capacity, seen: Table::new(), records: Table::new(), pending: Table::new() };
        assert(r@.seen =~= Set::empty());
        r
    }

    /// The record or edge under `key`, if there is one.
    pub fn record(&self, key: &RecordKey) -> (r: Option<&Record>)
        requires
            self.shape(),
            key.valid(),
        ensures
            match r {
                Some(record) => self@.records.contains_key(key@) && self@.records[key@] == record@ && record.wf(),
                None => !self@.records.contains_key(key@),
            },
    {
        match self.records.find(key) {
            Some(i) => Some(&self.records.entries[i].1),
            None => None,
        }
    }

    pub fn has_row(&self, model: &String, id: &SyncID) -> (b: bool)
        requires
            self.records.wf(),
            id.valid(),
        ensures
            b == self@.has_row(model@, id@),
    {
        let key = row_key(model, id);
        self.records.find(&key).is_some()
    }

    pub fn accepts(&self, op: &CRDTOperation) -> (b: bool)
        requires
            self.schema.wf(),
        ensures
            b == self@.accepts(op@),
    {
        match &op.typ {
            CRDTOperationType::Shared(s) => match self.schema.find(&s.model) {
                Some(i) => matches!(self.schema.entries[i].1, ModelKind::Shared),
                None => false,
            },
            CRDTOperationType::Relation(r) => match self.schema.find(&r.relation) {
                Some(i) => matches!(self.schema.entries[i].1, ModelKind::Relation { .. }),
                None => false,
            },
            CRDTOperationType::Owned(o) => match self.schema.find(&o.model) {
                Some(i) => matches!(self.schema.entries[i].1, ModelKind::Owned { .. }),
                None => false,
            },
        }
    }

    pub fn is_known(&self, id: &OperationId) -> (b: bool)
        requires
            self.seen.wf(),
            self.pending.wf(),
        ensures
            b == self@.known(id@),
    {
        self.seen.find(id).is_some() || self.pending.find(id).is_some()
    }

    fn all_there(&self, references: &Vec<Reference>, values: &FieldMap) -> (b: bool)
        requires
            self.records.wf(),
            values.wf(),
        ensures
            b == self@.all_there(references_view(references@), values@),
    {
        let mut j: usize = 0;
        while j < references.len()
            invariant
                self.records.wf(),
                values.wf(),
                j <= references@.len(),
                forall|k: int|
                    0 <= k < j && values@.contains_key((#[trigger] references_view(references@)[k]).0)
                        ==> self@.has_row(
                        references_view(references@)[k].1,
                        SyncIdView::Single(values@[references_view(references@)[k].0]),
                    ),
            decreases references@.len() - j,
        {
            match values.find(&references[j].field) {
                Some(i) => {
                    let id = SyncID::Single(values.entries[i].1.copy());
                    if !self.has_row(&references[j].target, &id) {
                        assert(values@.contains_key(references_view(references@)[j as int].0));
                        return false;
                    }
                },
                None => {},
            }
            j += 1;
        }
        true
    }

    fn resolved(&self, references: &Vec<Reference>, change: &OwnedOperationData) -> (b: bool)
        requires
            self.records.wf(),
            change.valid(),
        ensures
            b == self@.resolved(references_view(references@), change@),
    {
        match change {
            OwnedOperationData::Create(values) => self.all_there(references, values),
            OwnedOperationData::Update(values) => self.all_there(references, values),
            OwnedOperationData::Delete(_) => true,
        }
    }

    /// Whether the record that change `i` of a batch writes to or removes
    /// is there or is made by a change before it.
    fn settled(&self, model: &String, id: &Vec<String>, compound: bool, changes: &Vec<OwnedOperationData>, i: usize) -> (b:
        bool)
        requires
            self.records.wf(),
            i < changes@.len(),
            forall|j: int| 0 <= j < changes@.len() ==> (#[trigger] changes@[j]).valid(),
        ensures
            b == self@.settled(model@, names_view(id@), compound, changes_view(changes@), i as int),
    {
        match target(model, id, compound, &changes[i]) {
            None => true,
            Some(key) => {
                if self.records.find(&key).is_some() {
                    return true;
                }
                let mut j: usize = 0;
                while j < i
                    invariant
                        j <= i,
                        i < changes@.len(),
                        key.valid(),
                        owned_target(model@, names_view(id@), compound, changes_view(changes@)[i as int]) == Some(key@),
                        !self@.records.contains_key(key@),
                        forall|j: int| 0 <= j < changes@.len() ==> (#[trigger] changes@[j]).valid(),
                        forall|k: int|
                            0 <= k < j ==> #[trigger] owned_made(
                                model@,
                                names_view(id@),
                                compound,
                                changes_view(changes@)[k],
                            ) != Some(key@),
                    decreases i - j,
                {
                    match made(model, id, compound, &changes[j]) {
                        Some(other) => {
                            if other.same(&key) {
                                assert(owned_made(model@, names_view(id@), compound, changes_view(changes@)[j as int])
                                    == Some(key@));
                                assert(made_before(
                                    model@,
                                    names_view(id@),
                                    compound,
                                    changes_view(changes@),
                                    i as int,
                                    key@,
                                ));
                                return true;
                            }
                        },
                        None => {},
                    }
                    j += 1;
                }
                false
            },
        }
    }

    /// Whether every record that the operation needs is there.
    pub fn is_ready(&self, op: &CRDTOperation) -> (b: bool)
        requires
            self.schema.wf(),
            self.records.wf(),
            op.valid(),
            self@.accepts(op@),
        ensures
            b == self@.ready(op@),
    {
        match &op.typ {
            CRDTOperationType::Shared(s) => {
                match &s.data {
                    SharedOperationData::Create(_) => true,
                    _ => self.has_row(&s.model, &s.record_id),
                }
            },
            CRDTOperationType::Relation(r) => {
                match self.schema.find(&r.relation) {
                    Some(i) => match &self.schema.entries[i].1 {
                        ModelKind::Relation { item, group } => {
                            if !self.has_row(item, &r.relation_item) {
                                return false;
                            }
                            if !self.has_row(group, &r.relation_group) {
                                return false;
                            }
                            match &r.data {
                                RelationOperationData::Create => true,
                                _ => {
                                    let key = RecordKey::Edge {
                                        relation: r.relation.copy(),
                                        item: r.relation_item.copy(),
                                        group: r.relation_group.copy(),
                                    };
                                    self.records.find(&key).is_some()
                                },
                            }
                        },
                        _ => false,
                    },
                    None => false,
                }
            },
            CRDTOperationType::Owned(o) => {
                match self.schema.find(&o.model) {
                    Some(i) => match &self.schema.entries[i].1 {
                        ModelKind::Owned { id, compound, references } => {
                            let mut k: usize = 0;
                            while k < o.data.len()
                                invariant
                                    self.records.wf(),
                                    o.valid(),
                                    op@.typ == CRDTOperationTypeView::Owned(o@),
                                    self@.schema[o.model@] == (ModelKindView::Owned {
                                        id: names_view(id@),
                                        compound: *compound,
                                        references: references_view(references@),
                                    }),
                                    k <= o.data@.len(),
                                    forall|j: int|
                                        0 <= j < k ==> self@.resolved(
                                            references_view(references@),
                                            #[trigger] o@.data[j],
                                        ) && self@.settled(o.model@, names_view(id@), *compound, o@.data, j),
                                decreases o.data@.len() - k,
                            {
                                if !self.resolved(references, &o.data[k]) {
                                    assert(!self@.resolved(references_view(references@), o@.data[k as int]));
                                    return false;
                                }
                                if !self.settled(&o.model, id, *compound, &o.data, k) {
                                    assert(!self@.settled(o.model@, names_view(id@), *compound, o@.data, k as int));
                                    return false;
                                }
                                k += 1;
                            }
                            true
                        },
                        _ => false,
                    },
                    None => false,
                }
            },
        }
    }
}

/// The record that a change of a batch on owned records makes.
pub fn made(model: &String, id: &Vec<String>, compound: bool, change: &OwnedOperationData) -> (r: Option<RecordKey>)
    requires
        change.valid(),
    ensures
        match r {
            Some(key) => key.valid() && owned_made(model@, names_view(id@), compound, change@) == Some(key@),
            None => owned_made(model@, names_view(id@), compound, change@).is_none(),
        },
{
    match change {
        OwnedOperationData::Create(values) => match owned_key(id, compound, values) {
            Some(row) => Some(row_key(model, &row)),
            None => None,
        },
        _ => None,
    }
}

/// The record that a change of a batch on owned records writes to or
/// removes.
pub fn target(model: &String, id: &Vec<String>, compound: bool, change: &OwnedOperationData) -> (r: Option<RecordKey>)
    requires
        change.valid(),
    ensures
        match r {
            Some(key) => key.valid() && owned_target(model@, names_view(id@), compound, change@) == Some(key@),
            None => owned_target(model@, names_view(id@), compound, change@).is_none(),
        },
{
    match change {
        OwnedOperationData::Create(_) => None,
        OwnedOperationData::Update(values) => match owned_key(id, compound, values) {
            Some(row) => Some(row_key(model, &row)),
            None => None,
        },
        OwnedOperationData::Delete(row) => Some(row_key(model, row)),
    }
}

/// Makes the changes of a batch on owned records, one after another.
pub fn change_all_owned(
    schema: &Schema,
    records: &mut Table<RecordKey, Record>,
    batch: OwnedOperation,
    t: Timestamp,
)
    requires
        schema.wf(),
        records_wf(old(records)),
        batch.valid(),
    ensures
        records_wf(final(records)),
        final(records)@ == (if schema@.contains_key(batch@.model) {
            match schema@[batch@.model] {
                ModelKindView::Owned { id, compound, references } => owned_fold(
                    old(records)@,
                    batch@.model,
                    id,
                    compound,
                    batch@.data,
                    t,
                ),
                _ => old(records)@,
            }
        } else {
            old(records)@
        }),
{
    let OwnedOperation { model, data } = batch;
    let mut rest = data;
    match schema.find(&model) {
        Some(i) => match &schema.entries[i].1 {
            ModelKind::Owned { id, compound, references } => {
                let ghost all = changes_view(data@);
                let ghost start = records@;
                while rest.len() > 0
                    invariant
                        records_wf(records),
                        forall|k: int| 0 <= k < rest@.len() ==> (#[trigger] rest@[k]).valid(),
                        owned_fold(start, model@, names_view(id@), *compound, all, t) == owned_fold(
                            records@,
                            model@,
                            names_view(id@),
                            *compound,
                            changes_view(rest@),
                            t,
                        ),
                    decreases rest@.len(),
                {
                    let ghost before = changes_view(rest@);
                    let change = rest.remove(0);
                    assert(changes_view(rest@) =~= before.skip(1));
                    assert(before[0] == change@);
                    change_owned(records, &model, id, *compound, change, t);
                }
            },
            _ => {},
        },
        None => {},
    }
}

impl Replica {
    /// Lets the operation, which is ready, do its work.
    pub fn effect(&mut self, op: CRDTOperation)
        requires
            old(self).shape(),
            op.valid(),
            old(self)@.accepts(op@),
        ensures
            final(self).shape(),
            final(self)@ == old(self)@.effect(op@),
            final(self).pending == old(self).pending,
            final(self).schema == old(self).schema,
            final(self).capacity == old(self).capacity,
    {
        let CRDTOperation { node, timestamp, typ } = op;
        let id = OperationId { node, timestamp };
        if self.seen.find(&id).is_none() {
            self.seen.push(id, ());
        }
        assert(self.seen@.dom() =~= old(self).seen@.dom().insert(op@.id()));
        match typ {
            CRDTOperationType::Shared(s) => {
                let SharedOperation { record_id, model, data } = s;
                let key = RecordKey::Row { model, id: record_id };
                let change = match data {
                    SharedOperationData::Create(SharedOperationCreateData::Unique(values)) => Change::Create(values),
                    SharedOperationData::Create(SharedOperationCreateData::Atomic) => Change::Create(Table::new()),
                    SharedOperationData::Update { field, value } => Change::Update { field, value },
                    SharedOperationData::Delete => Change::Delete,
                };
                change_record(&mut self.records, key, change, timestamp);
            },
            CRDTOperationType::Relation(r) => {
                let RelationOperation { relation, relation_item, relation_group, data } = r;
                let key = RecordKey::Edge { relation, item: relation_item, group: relation_group };
                let change = match data {
                    RelationOperationData::Create => Change::Create(Table::new()),
                    RelationOperationData::Update { field, value } => Change::Update { field, value },
                    RelationOperationData::Delete => Change::Delete,
                };
                change_record(&mut self.records, key, change, timestamp);
            },
            CRDTOperationType::Owned(o) => {
                change_all_owned(&self.schema, &mut self.records, o, timestamp);
            },
        }
    }
}

impl Replica {
    /// The position of the oldest waiting operation.
    fn oldest_pending(&self) -> (i: usize)
        requires
            self.pending.wf(),
            self.pending.entries@.len() > 0,
        ensures
            i < self.pending.entries@.len(),
            ReplicaView::is_oldest(self.pending@.dom(), self.pending.key_at(i as int)),
    {
        let mut best: usize = 0;
        let mut i: usize = 1;
        proof {
            lemma_id_le_total(self.pending.key_at(0), self.pending.key_at(0));
        }
        while i < self.pending.entries.len()
            invariant
                1 <= i <= self.pending.entries@.len(),
                best < i,
                forall|j: int| 0 <= j < i ==> id_le(self.pending.key_at(best as int), #[trigger] self.pending.key_at(j)),
            decreases self.pending.entries@.len() - i,
        {
            if !self.pending.entries[best].0.le(&self.pending.entries[i].0) {
                proof {
                    lemma_id_le_total(self.pending.key_at(best as int), self.pending.key_at(i as int));
                    assert forall|j: int| 0 <= j < i + 1 implies id_le(
                        self.pending.key_at(i as int),
                        #[trigger] self.pending.key_at(j),
                    ) by {
                        if j < i {
                            lemma_id_le_transitive(
                                self.pending.key_at(i as int),
                                self.pending.key_at(best as int),
                                self.pending.key_at(j),
                            );
                        } else {
                            lemma_id_le_total(self.pending.key_at(i as int), self.pending.key_at(i as int));
                        }
                    }
                }
                best = i;
            }
            i += 1;
        }
        proof {
            self.pending.lemma_entry(best as int);
            assert forall|other: OpId| self.pending@.dom().contains(other) implies id_le(
                self.pending.key_at(best as int),
                other,
            ) by {
                let j = self.pending.index_of(other);
                assert(self.pending.key_at(j) == other);
            }
        }
        best
    }

    /// Sets the operation, which is not ready, aside. Where that makes more
    /// waiting operations than may wait, the oldest is given up and returned.
    pub fn park(&mut self, op: CRDTOperation) -> (evicted: Option<OperationId>)
        requires
            old(self).shape(),
            op.valid(),
            !old(self)@.pending.contains_key(op@.id()),
            old(self)@.pending.dom().len() <= old(self).capacity,
        ensures
            final(self).shape(),
            final(self)@ == old(self)@.park(op@),
            final(self).pending@.dom().finite(),
            final(self).pending@.dom().len() <= old(self).pending@.dom().len() + 1,
            ({
                let waiting = old(self)@.pending.insert(op@.id(), op@).dom();
                match evicted {
                    Some(id) => waiting.len() > old(self).capacity && id@ == ReplicaView::oldest(waiting)
                        && ReplicaView::is_oldest(waiting, id@)
                        && final(self).pending@.dom().len() <= old(self).capacity,
                    None => waiting.len() <= old(self).capacity,
                }
            }),
    {
        let id = OperationId { node: op.node.copy(), timestamp: op.timestamp };
        proof {
            old(self).pending.lemma_domain();
        }
        self.pending.push(id, op);
        proof {
            self.pending.lemma_domain();
        }
        if self.pending.len() > self.capacity {
            let ghost full = self.pending;
            let i = self.oldest_pending();
            let e = self.pending.remove(i);
            proof {
                let waiting = full@.dom();
                let chosen = ReplicaView::oldest(waiting);
                assert(ReplicaView::is_oldest(waiting, e.0@));
                assert(ReplicaView::is_oldest(waiting, chosen));
                lemma_id_le_antisymmetric(e.0@, chosen);
                self.pending.lemma_domain();
            }
            Some(e.0)
        } else {
            None
        }
    }

    /// The position of the oldest waiting operation that is ready.
    fn next_ripe(&self) -> (r: Option<usize>)
        requires
            self.shape(),
            self@.tidy(),
        ensures
            match r {
                Some(i) => i < self.pending.entries@.len() && ReplicaView::is_oldest(
                    self@.ripe(),
                    self.pending.key_at(i as int),
                ),
                None => forall|id: OpId| #[trigger] self@.pending.contains_key(id) ==> !self@.ready(self@.pending[id]),
            },
    {
        let mut best: Option<usize> = None;
        let mut i: usize = 0;
        while i < self.pending.entries.len()
            invariant
                self.shape(),
                self@.tidy(),
                i <= self.pending.entries@.len(),
                match best {
                    Some(b) => b < i && self@.ready(self.pending.value_at(b as int)) && forall|j: int|
                        0 <= j < i && self@.ready(#[trigger] self.pending.value_at(j)) ==> id_le(
                            self.pending.key_at(b as int),
                            self.pending.key_at(j),
                        ),
                    None => forall|j: int| 0 <= j < i ==> !self@.ready(#[trigger] self.pending.value_at(j)),
                },
            decreases self.pending.entries@.len() - i,
        {
            proof {
                self.pending.lemma_entry(i as int);
                lemma_id_le_total(self.pending.key_at(i as int), self.pending.key_at(i as int));
            }
            if self.is_ready(&self.pending.entries[i].1) {
                match best {
                    Some(b) => {
                        if !self.pending.entries[b].0.le(&self.pending.entries[i].0) {
                            proof {
                                lemma_id_le_total(self.pending.key_at(b as int), self.pending.key_at(i as int));
                                assert forall|j: int|
                                    0 <= j < i + 1 && self@.ready(
                                        #[trigger] self.pending.value_at(j),
                                    ) implies id_le(self.pending.key_at(i as int), self.pending.key_at(j)) by {
                                    if j < i {
                                        lemma_id_le_transitive(
                                            self.pending.key_at(i as int),
                                            self.pending.key_at(b as int),
                                            self.pending.key_at(j),
                                        );
                                    }
                                }
                            }
                            best = Some(i);
                        }
                    },
                    None => {
                        best = Some(i);
                    },
                }
            }
            i += 1;
        }
        proof {
            match best {
                Some(b) => {
                    self.pending.lemma_entry(b as int);
                    assert forall|other: OpId| self@.ripe().contains(other) implies id_le(
                        self.pending.key_at(b as int),
                        other,
                    ) by {
                        let j = self.pending.index_of(other);
                        self.pending.lemma_entry(j);
                    }
                },
                None => {
                    assert forall|id: OpId| #[trigger] self@.pending.contains_key(id) implies !self@.ready(
                        self@.pending[id],
                    ) by {
                        let j = self.pending.index_of(id);
                        self.pending.lemma_entry(j);
                    }
                },
            }
        }
        best
    }

    /// Lets every waiting operation that is ready, or becomes so by this, do
    /// its work, the oldest first.
    pub fn drain(&mut self)
        requires
            old(self).shape(),
            old(self)@.tidy(),
        ensures
            final(self).shape(),
            final(self)@.inv(),
            final(self)@ == old(self)@.drain(),
    {
        loop
            invariant
                self.shape(),
                self@.tidy(),
                self@.drain() == old(self)@.drain(),
            decreases self.pending.entries@.len(),
        {
            match self.next_ripe() {
                Some(i) => {
                    let ghost before = *self;
                    proof {
                        self.pending.lemma_entry(i as int);
                        self.pending.lemma_domain();
                        let id = self.pending.key_at(i as int);
                        let chosen = ReplicaView::oldest(self@.ripe());
                        assert(ReplicaView::is_oldest(self@.ripe(), chosen));
                        lemma_id_le_antisymmetric(id, chosen);
                    }
                    let e = self.pending.remove(i);
                    assert(before.pending.entries@.contains(e));
                    proof {
                        self.pending.lemma_domain();
                        assert(self@ == (ReplicaView { pending: before@.pending.remove(e.0@), ..before@ }));
                    }
                    self.effect(e.1);
                },
                None => {
                    assert(!exists|id: OpId| ReplicaView::is_oldest(self@.ripe(), id));
                    proof {
                        self.pending.lemma_domain();
                    }
                    return ;
                },
            }
        }
    }

    /// Hands an operation to the replica: it is applied, together with the
    /// waiting operations that it makes ready; or set aside until the records
    /// that it needs are there; or, where it is known already or the schema
    /// has no such model, left out.
    pub fn apply(&mut self, op: CRDTOperation) -> (outcome: Outcome)
        requires
            old(self).wf(),
            op.valid(),
        ensures
            final(self).wf(),
            final(self)@ == old(self)@.apply(op@),
            outcome@ == old(self)@.outcome(op@),
    {
        if !self.accepts(&op) {
            return Outcome::Rejected;
        }
        let id = OperationId { node: op.node.copy(), timestamp: op.timestamp };
        if self.is_known(&id) {
            return Outcome::Duplicate;
        }
        if self.is_ready(&op) {
            self.effect(op);
            self.drain();
            Outcome::Applied
        } else {
            match self.park(op) {
                Some(evicted) => Outcome::Overflow { evicted },
                None => Outcome::Parked,
            }
        }
    }
}

impl Replica {
    fn missing_reference(&self, references: &Vec<Reference>, values: &FieldMap) -> (r: Option<RecordKey>)
        requires
            self.records.wf(),
            values.wf(),
        ensures
            match r {
                Some(key) => self@.missing_reference(references_view(references@), values@, 0) == Some(key@)
                    && key.valid(),
                None => self@.missing_reference(references_view(references@), values@, 0).is_none(),
            },
    {
        let mut j: usize = 0;
        while j < references.len()
            invariant
                self.records.wf(),
                values.wf(),
                j <= references@.len(),
                self@.missing_reference(references_view(references@), values@, 0) == self@.missing_reference(
                    references_view(references@),
                    values@,
                    j as int,
                ),
            decreases references@.len() - j,
        {
            match values.find(&references[j].field) {
                Some(i) => {
                    let id = SyncID::Single(values.entries[i].1.copy());
                    if !self.has_row(&references[j].target, &id) {
                        return Some(RecordKey::Row { model: references[j].target.copy(), id });
                    }
                },
                None => {},
            }
            j += 1;
        }
        None
    }

    /// The record that the operation waits for, if it waits for one.
    pub fn missing(&self, op: &CRDTOperation) -> (r: Option<RecordKey>)
        requires
            self.schema.wf(),
            self.records.wf(),
            op.valid(),
            self@.accepts(op@),
        ensures
            match r {
                Some(key) => self@.missing(op@) == Some(key@) && key.valid(),
                None => self@.missing(op@).is_none(),
            },
            r.is_none() == self@.ready(op@),
    {
        proof {
            crate::merge::laws::lemma_missing(self@, op@);
        }
        match &op.typ {
            CRDTOperationType::Shared(s) => {
                match &s.data {
                    SharedOperationData::Create(_) => None,
                    _ => if self.has_row(&s.model, &s.record_id) {
                        None
                    } else {
                        Some(row_key(&s.model, &s.record_id))
                    },
                }
            },
            CRDTOperationType::Relation(r) => {
                match self.schema.find(&r.relation) {
                    Some(i) => match &self.schema.entries[i].1 {
                        ModelKind::Relation { item, group } => {
                            if !self.has_row(item, &r.relation_item) {
                                return Some(row_key(item, &r.relation_item));
                            }
                            if !self.has_row(group, &r.relation_group) {
                                return Some(row_key(group, &r.relation_group));
                            }
                            match &r.data {
                                RelationOperationData::Create => None,
                                _ => {
                                    let key = RecordKey::Edge {
                                        relation: r.relation.copy(),
                                        item: r.relation_item.copy(),
                                        group: r.relation_group.copy(),
                                    };
                                    if self.records.find(&key).is_some() {
                                        None
                                    } else {
                                        Some(key)
                                    }
                                },
                            }
                        },
                        _ => None,
                    },
                    None => None,
                }
            },
            CRDTOperationType::Owned(o) => {
                match self.schema.find(&o.model) {
                    Some(i) => match &self.schema.entries[i].1 {
                        ModelKind::Owned { id, compound, references } => {
                            let mut k: usize = 0;
                            #[verifier::loop_isolation(false)]
                            while k < o.data.len()
                                invariant
                                    self.records.wf(),
                                    o.valid(),
                                    k <= o.data@.len(),
                                    self@.missing_from(
                                        o.model@,
                                        names_view(id@),
                                        *compound,
                                        references_view(references@),
                                        o@.data,
                                        0,
                                    ) == self@.missing_from(
                                        o.model@,
                                        names_view(id@),
                                        *compound,
                                        references_view(references@),
                                        o@.data,
                                        k as int,
                                    ),
                                decreases o.data@.len() - k,
                            {
                                let found = match &o.data[k] {
                                    OwnedOperationData::Create(values) => self.missing_reference(references, values),
                                    OwnedOperationData::Update(values) => self.missing_reference(references, values),
                                    OwnedOperationData::Delete(_) => None,
                                };
                                if found.is_some() {
                                    return found;
                                }
                                if !self.settled(&o.model, id, *compound, &o.data, k) {
                                    return target(&o.model, id, *compound, &o.data[k]);
                                }
                                k += 1;
                            }
                            None
                        },
                        _ => None,
                    },
                    None => None,
                }
            },
        }
    }
}

/// The views of a list of operations.
pub open spec fn ops_view(ops: Seq<CRDTOperation>) -> Seq<crate::CRDTOperationView> {
    Seq::new(ops.len(), |i: int| ops[i]@)
}

impl Replica {
    /// Hands the operations to the replica one after another, and returns
    /// what became of each.
    pub fn apply_all(&mut self, ops: Vec<CRDTOperation>) -> (outcomes: Vec<Outcome>)
        requires
            old(self).wf(),
            forall|i: int| 0 <= i < ops@.len() ==> (#[trigger] ops@[i]).valid(),
        ensures
            final(self).wf(),
            final(self)@ == apply_all(old(self)@, ops_view(ops@)),
            outcomes@.len() == ops@.len(),
            forall|i: int|
                0 <= i < ops@.len() ==> (#[trigger] outcomes@[i])@ == apply_all(
                    old(self)@,
                    ops_view(ops@).subrange(0, i),
                ).outcome(ops@[i]@),
    {
        let ghost all = ops_view(ops@);
        let mut rest = ops;
        let mut outcomes: Vec<Outcome> = Vec::new();
        assert(all.subrange(0, 0) =~= Seq::empty());
        while rest.len() > 0
            invariant
                self.wf(),
                all == ops_view(ops@),
                outcomes@.len() + rest@.len() == ops@.len(),
                rest@ == ops@.subrange(outcomes@.len() as int, ops@.len() as int),
                forall|i: int| 0 <= i < ops@.len() ==> (#[trigger] ops@[i]).valid(),
                self@ == apply_all(old(self)@, all.subrange(0, outcomes@.len() as int)),
                forall|i: int|
                    0 <= i < outcomes@.len() ==> (#[trigger] outcomes@[i])@ == apply_all(
                        old(self)@,
                        all.subrange(0, i),
                    ).outcome(ops@[i]@),
            decreases rest@.len(),
        {
            let ghost n = outcomes@.len() as int;
            let op = rest.remove(0);
            proof {
                assert(rest@ =~= ops@.subrange(n + 1, ops@.len() as int));
                assert(op == ops@[n]);
                assert(all.subrange(0, n + 1).drop_last() =~= all.subrange(0, n));
                assert(all.subrange(0, n + 1).last() == op@);
            }
            outcomes.push(self.apply(op));
        }
        assert(all.subrange(0, ops@.len() as int) =~= all);
        outcomes
    }
}

} // verus!
