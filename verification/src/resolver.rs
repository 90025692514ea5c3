//! Identifiers that are the same on every node: how a record's identifier is
//! found from the record, and how the record is found again from it.

use vstd::prelude::*;
use crate::datamodel::field::Field;
use crate::datamodel::field::FieldRef;
use crate::datamodel::field::FieldType;
use crate::datamodel::model::SyncIDMapping;
use crate::datamodel::Datamodel;
use crate::merge::key::RecordKey;
use crate::merge::key::RecordKeyView;
use crate::table::Key;
use crate::table::Table;
use crate::value::FieldMap;
use crate::value::SyncID;
use crate::value::SyncIdView;
use crate::value::Value;

verus! {

/// For each replicated record that this node holds, the key under which the
/// node keeps it, by model and identifier.
#[derive(Clone, Debug, PartialEq, Eq)]
pub struct SyncIndex {
    pub entries: Table<RecordKey, Value>,
}

impl View for SyncIndex {
    type V = Map<RecordKeyView, Seq<u8>>;

    open spec fn view(&self) -> Map<RecordKeyView, Seq<u8>> {
        self.entries@
    }
}

/// Whether the index holds `local` as the key of the record of `model` that
/// `id` identifies.
pub open spec fn binds(index: Map<RecordKeyView, Seq<u8>>, model: Seq<char>, id: SyncIdView, local: Seq<u8>) -> bool {
    index.contains_key(RecordKeyView::Row { model, id }) && index[RecordKeyView::Row { model, id }] == local
}

/// Whether some identifier of `model` stands for the key `local`.
pub open spec fn bound(index: Map<RecordKeyView, Seq<u8>>, model: Seq<char>, local: Seq<u8>) -> bool {
    exists|id: SyncIdView| binds(index, model, id, local)
}

/// No two identifiers of one model stand for the same key.
pub open spec fn one_to_one(index: Map<RecordKeyView, Seq<u8>>) -> bool {
    forall|model: Seq<char>, a: SyncIdView, b: SyncIdView, local: Seq<u8>|
        binds(index, model, a, local) && binds(index, model, b, local) ==> a == b
}

impl SyncIndex {
    pub open spec fn wf(&self) -> bool {
        &&& self.entries.wf()
        &&& one_to_one(self@)
        &&& forall|key: RecordKeyView| #[trigger] self@.contains_key(key) ==> key is Row
    }

    pub fn new() -> (r: Self)
        ensures
            r.wf(),
            r@ == Map::<RecordKeyView, Seq<u8>>::empty(),
    {
        SyncIndex { entries: Table::new() }
    }

    /// The key under which this node keeps the record of `model` that `id`
    /// identifies, if it holds that record.
    pub fn resolve_local(&self, model: &String, id: &SyncID) -> (r: Option<Value>)
        requires
            self.wf(),
            id.valid(),
        ensures
            match r {
                Some(local) => binds(self@, model@, id@, local@),
                None => !self@.contains_key(RecordKeyView::Row { model: model@, id: id@ }),
            },
    {
        let key = RecordKey::Row { model: model.copy(), id: id.copy() };
        match self.entries.find(&key) {
            Some(i) => Some(self.entries.entries[i].1.copy()),
            None => None,
        }
    }

    /// The identifier of the record of `model` that this node keeps under
    /// `local`, if it holds such a record.
    pub fn resolve_syncid(&self, model: &String, local: &Value) -> (r: Option<SyncID>)
        requires
            self.wf(),
        ensures
            match r {
                Some(id) => binds(self@, model@, id@, local@) && id.valid(),
                None => !bound(self@, model@, local@),
            },
    {
        let mut i: usize = 0;
        while i < self.entries.entries.len()
            invariant
                self.wf(),
                i <= self.entries.entries@.len(),
                forall|j: int|
                    0 <= j < i ==> !(self.entries.key_at(j) matches RecordKeyView::Row { model: m, id } && m
                        == model@ && #[trigger] self.entries.value_at(j) == local@),
            decreases self.entries.entries@.len() - i,
        {
            proof {
                self.entries.lemma_entry(i as int);
            }
            match &self.entries.entries[i].0 {
                RecordKey::Row { model: m, id } => {
                    if m.same(model) && self.entries.entries[i].1.same(local) {
                        return Some(id.copy());
                    }
                },
                _ => {},
            }
            i += 1;
        }
        proof {
            if bound(self@, model@, local@) {
                let id = choose|id: SyncIdView| binds(self@, model@, id, local@);
                let j = self.entries.index_of(RecordKeyView::Row { model: model@, id });
                self.entries.lemma_entry(j);
                assert(self.entries.value_at(j) == local@);
            }
        }
        None
    }

    /// Notes that this node keeps the record of `model` that `id` identifies
    /// under `local`. This is refused, and the index left as it is, where the
    /// identifier stands for another key already or another identifier of
    /// the model stands for the key.
    pub fn observe(&mut self, model: String, id: SyncID, local: Value) -> (accepted: bool)
        requires
            old(self).wf(),
            id.valid(),
        ensures
            final(self).wf(),
            accepted == (binds(old(self)@, model@, id@, local@) || (!old(self)@.contains_key(
                RecordKeyView::Row { model: model@, id: id@ },
            ) && !bound(old(self)@, model@, local@))),
            accepted ==> final(self)@ == old(self)@.insert(RecordKeyView::Row { model: model@, id: id@ }, local@),
            !accepted ==> final(self)@ == old(self)@,
    {
        let key = RecordKey::Row { model, id };
        match self.entries.find(&key) {
            Some(i) => {
                let same = self.entries.entries[i].1.same(&local);
                if same {
                    assert(self@ =~= self@.insert(key@, local@));
                }
                same
            },
            None => {
                let taken = match &key {
                    RecordKey::Row { model, id } => self.resolve_syncid(model, &local).is_some(),
                    _ => false,
                };
                if taken {
                    false
                } else {
                    let ghost before = self@;
                    self.entries.push(key, local);
                    proof {
                        assert forall|m: Seq<char>, a: SyncIdView, b: SyncIdView, l: Seq<u8>|
                            binds(self@, m, a, l) && binds(self@, m, b, l) implies a == b by {
                            let ka = RecordKeyView::Row { model: m, id: a };
                            let kb = RecordKeyView::Row { model: m, id: b };
                            if ka != key@ && kb != key@ {
                                assert(binds(before, m, a, l) && binds(before, m, b, l));
                            } else if ka == key@ && kb != key@ {
                                assert(binds(before, m, b, l));
                            } else if ka != key@ && kb == key@ {
                                assert(binds(before, m, a, l));
                            }
                        }
                    }
                    true
                }
            },
        }
    }
}

/// From a key to its identifier and back gives the key; from an identifier
/// to its key and back gives the identifier.
pub proof fn lemma_round_trip(index: &SyncIndex, model: Seq<char>, id: SyncIdView, local: Seq<u8>)
    requires
        index.wf(),
        binds(index@, model, id, local),
    ensures
        bound(index@, model, local),
        index@.contains_key(RecordKeyView::Row { model, id }),
        forall|other: SyncIdView| binds(index@, model, other, local) ==> other == id,
        forall|other: Seq<u8>| binds(index@, model, id, other) ==> other == local,
{
}

/// The records that this node holds, by model: each record gives the values
/// of its fields as the node keeps them.
pub type Rows = Table<String, Vec<FieldMap>>;

/// The table is well formed, and so is each record in it.
pub open spec fn rows_wf(rows: &Rows) -> bool {
    &&& rows.wf()
    &&& forall|i: int, j: int|
        0 <= i < rows.entries@.len() && 0 <= j < rows.entries@[i].1@.len() ==> (
        #[trigger] rows.entries@[i].1@[j]).wf()
}

/// Whether the records are well formed.
pub fn rows_check(rows: &Rows) -> (b: bool)
    ensures
        b == rows_wf(rows),
{
    if !rows.is_wf() {
        return false;
    }
    let mut i: usize = 0;
    while i < rows.entries.len()
        invariant
            rows.wf(),
            i <= rows.entries@.len(),
            forall|a: int, j: int|
                0 <= a < i && 0 <= j < rows.entries@[a].1@.len() ==> (#[trigger] rows.entries@[a].1@[j]).wf(),
        decreases rows.entries@.len() - i,
    {
        let mut j: usize = 0;
        while j < rows.entries[i].1.len()
            invariant
                i < rows.entries@.len(),
                j <= rows.entries@[i as int].1@.len(),
                forall|k: int| 0 <= k < j ==> (#[trigger] rows.entries@[i as int].1@[k]).wf(),
            decreases rows.entries@[i as int].1@.len() - j,
        {
            if !rows.entries[i].1[j].is_wf() {
                return false;
            }
            j += 1;
        }
        i += 1;
    }
    true
}

/// The records of a model.
pub open spec fn rows_of(rows: &Rows, model: Seq<char>) -> Seq<FieldMap> {
    if rows@.contains_key(model) {
        rows@[model]
    } else {
        seq![]
    }
}

/// The first record from position `k` on whose field `field` holds `value`.
pub open spec fn row_with(rows: Seq<FieldMap>, field: Seq<char>, value: Seq<u8>, k: int) -> Option<int>
    decreases rows.len() - k,
{
    if k < 0 || k >= rows.len() {
        None
    } else if rows[k]@.contains_key(field) && rows[k]@[field] == value {
        Some(k)
    } else {
        row_with(rows, field, value, k + 1)
    }
}

/// The number of fields of the models from position `k` on, or the greatest
/// number there is if that is less.
pub open spec fn count_from(datamodel: &Datamodel, k: int) -> nat
    decreases datamodel.models@.len() - k,
{
    if k < 0 || k >= datamodel.models@.len() {
        0
    } else {
        let rest = count_from(datamodel, k + 1);
        if datamodel.models@[k].fields@.len() + rest > usize::MAX {
            usize::MAX as nat
        } else {
            datamodel.models@[k].fields@.len() + rest
        }
    }
}

/// One step from a field that holds the key of a record of another model:
/// the record is found by its field `find`, which the key refers to, and
/// what is taken of it is its field `take`, which stands for that key in the
/// other model's identifiers, or the field of the key itself where none
/// stands for it. Where a relation stands for the key, `take` is the first
/// of the fields that hold the relation's key.
#[derive(Clone, Copy, Debug, PartialEq, Eq, Structural)]
pub struct Step {
    pub find: FieldRef,
    pub take: FieldRef,
}

impl Field {
    /// The step from this field, if it holds the key of a record of another
    /// model.
    pub open spec fn step(&self, datamodel: &Datamodel) -> Option<Step> {
        match self.typ {
            FieldType::Scalar { relation_field_info: Some(info) } => {
                let find = info.referenced_field;
                if find.model < datamodel.models@.len() && find.field
                    < datamodel.models@[find.model as int].fields@.len() {
                    Some(
                        Step {
                            find,
                            take: FieldRef {
                                model: find.model,
                                field: datamodel.models@[find.model as int].scalar_of(
                                    match datamodel.models@[find.model as int].sync_field(find.field) {
                                        Some(s) => s,
                                        None => find.field,
                                    },
                                ),
                            },
                        },
                    )
                } else {
                    None
                }
            },
            _ => None,
        }
    }

    /// The steps from this field to a field that holds no key: as many as
    /// the data model has fields at most.
    pub open spec fn steps(&self, datamodel: &Datamodel) -> Seq<Step> {
        steps_after(datamodel, self.step(datamodel), count_from(datamodel, 0))
    }

    /// The step from this field.
    pub fn first_step(&self, datamodel: &Datamodel) -> (r: Option<Step>)
        ensures
            r == self.step(datamodel),
    {
        match &self.typ {
            FieldType::Scalar { relation_field_info: Some(info) } => {
                let find = info.referenced_field;
                if find.model < datamodel.models.len() && find.field < datamodel.models[find.model].fields.len() {
                    Some(
                        Step {
                            find,
                            take: FieldRef {
                                model: find.model,
                                field: datamodel.models[find.model].scalar(
                                    match datamodel.models[find.model].get_sync_id(find.field) {
                                        Some(s) => s,
                                        None => find.field,
                                    },
                                ),
                            },
                        },
                    )
                } else {
                    None
                }
            },
            _ => None,
        }
    }
}

/// The step from the field `f` of model `m`.
pub open spec fn step_of(datamodel: &Datamodel, m: int, f: int) -> Option<Step> {
    if 0 <= m < datamodel.models@.len() && 0 <= f < datamodel.models@[m].fields@.len() {
        datamodel.models@[m].fields@[f].step(datamodel)
    } else {
        None
    }
}

/// The steps that begin with `first` and go on, each from what the one
/// before takes, until a field holds no key, `depth` steps at most.
pub open spec fn steps_after(datamodel: &Datamodel, first: Option<Step>, depth: nat) -> Seq<Step>
    decreases depth,
{
    match first {
        None => seq![],
        Some(step) => if depth == 0 {
            seq![]
        } else {
            seq![step] + steps_after(
                datamodel,
                step_of(datamodel, step.take.model as int, step.take.field as int),
                (depth - 1) as nat,
            )
        },
    }
}

/// The steps from the field `f` of model `m`.
pub open spec fn steps_of(datamodel: &Datamodel, m: int, f: int, depth: nat) -> Seq<Step> {
    steps_after(datamodel, step_of(datamodel, m, f), depth)
}

/// The field that stands, in the identifiers of another model, for what the
/// field `f` of model `m` refers to.
pub open spec fn next_field(datamodel: &Datamodel, m: int, f: int) -> Option<(int, int)> {
    match step_of(datamodel, m, f) {
        Some(step) => Some((step.take.model as int, step.take.field as int)),
        None => None,
    }
}

/// Whether going from the field `f` of model `m` to the field that stands
/// for what it refers to, and on from there, comes to a field that refers to
/// nothing within `depth` steps.
pub open spec fn chain_ends(datamodel: &Datamodel, m: int, f: int, depth: nat) -> bool
    decreases depth,
{
    match next_field(datamodel, m, f) {
        None => true,
        Some((tm, tf)) => depth > 0 && chain_ends(datamodel, tm, tf, (depth - 1) as nat),
    }
}

/// Whether no field refers, from model to model, back to itself: from every
/// field the way comes to an end within as many steps as there are fields.
pub open spec fn acyclic(datamodel: &Datamodel) -> bool {
    forall|m: int, f: int|
        0 <= m < datamodel.models@.len() && 0 <= f < datamodel.models@[m].fields@.len() ==> #[trigger] chain_ends(
            datamodel,
            m,
            f,
            count_from(datamodel, 0),
        )
}

/// What stands for the field `f` of model `m` in an identifier of the record
/// `row`: the value of the field; or, where the field holds the key of a
/// record of another model, what stands there for the field that the key
/// refers to, or for the field that stands for it in that model's
/// identifiers. There is nothing where the record lacks the field or this
/// node does not hold the record that a key refers to, or after `depth`
/// steps from record to record. A key that refers to no field of the data
/// model is taken as a plain value. Where a relation stands for a key in a
/// model's identifiers, the first of the fields that hold the relation's key
/// is taken in its place.
pub open spec fn field_value(
    datamodel: &Datamodel,
    rows: &Rows,
    m: int,
    f: int,
    row: Map<Seq<char>, Seq<u8>>,
    depth: nat,
) -> Option<Seq<u8>>
    decreases depth,
{
    if !(0 <= m < datamodel.models@.len() && 0 <= f < datamodel.models@[m].fields@.len()) {
        None
    } else {
        let name = datamodel.models@[m].fields@[f].name@;
        if !row.contains_key(name) {
            None
        } else {
            match datamodel.models@[m].fields@[f].typ {
                FieldType::Scalar { relation_field_info: Some(info) } => {
                    let tm = info.referenced_field.model as int;
                    let tf = info.referenced_field.field as int;
                    if !(tm < datamodel.models@.len() && tf < datamodel.models@[tm].fields@.len()) {
                        Some(row[name])
                    } else if depth == 0 {
                        None
                    } else {
                        let targets = rows_of(rows, datamodel.models@[tm].name@);
                        match row_with(targets, datamodel.models@[tm].fields@[tf].name@, row[name], 0) {
                            None => None,
                            Some(i) => {
                                let next = datamodel.models@[tm].scalar_of(
                                    match datamodel.models@[tm].sync_field(tf as usize) {
                                        Some(s) => s,
                                        None => tf as usize,
                                    },
                                ) as int;
                                field_value(datamodel, rows, tm, next, targets[i]@, (depth - 1) as nat)
                            },
                        }
                    }
                },
                _ => Some(row[name]),
            }
        }
    }
}

/// The parts of a compound identifier that the first `n` pairs of a mapping
/// give, by the names of the fields that stand for the fields of the key.
pub open spec fn parts_upto(
    datamodel: &Datamodel,
    rows: &Rows,
    m: int,
    pairs: Seq<(usize, usize)>,
    row: Map<Seq<char>, Seq<u8>>,
    n: int,
) -> Option<Map<Seq<char>, Seq<u8>>>
    decreases n,
{
    if n <= 0 || n > pairs.len() {
        Some(Map::empty())
    } else {
        match parts_upto(datamodel, rows, m, pairs, row, n - 1) {
            None => None,
            Some(parts) => {
                let f = datamodel.models@[m].scalar_of(pairs[n - 1].1) as int;
                match field_value(datamodel, rows, m, f, row, count_from(datamodel, 0)) {
                    None => None,
                    Some(value) => Some(parts.insert(datamodel.models@[m].fields@[f].name@, value)),
                }
            },
        }
    }
}

/// The identifier of the record `row` of model `m`: what stands for the one
/// field that identifies it, or for each of several by name. A field that
/// is a relation is taken by the first of the fields that hold its key. A
/// model that is a relation has no identifiers of its own.
pub open spec fn sync_id_of(datamodel: &Datamodel, rows: &Rows, m: int, row: Map<Seq<char>, Seq<u8>>) -> Option<
    SyncIdView,
> {
    if !(0 <= m < datamodel.models@.len()) {
        None
    } else {
        match datamodel.models@[m].mapping() {
            None => None,
            Some(SyncIDMapping::Single { primary_key, sync_id }) => match field_value(
                datamodel,
                rows,
                m,
                datamodel.models@[m].scalar_of(sync_id) as int,
                row,
                count_from(datamodel, 0),
            ) {
                Some(value) => Some(SyncIdView::Single(value)),
                None => None,
            },
            Some(SyncIDMapping::Compound(pairs)) => match parts_upto(
                datamodel,
                rows,
                m,
                pairs@,
                row,
                pairs@.len() as int,
            ) {
                Some(parts) => Some(SyncIdView::Compound(parts)),
                None => None,
            },
        }
    }
}

impl Datamodel {
    /// The number of fields of all models.
    pub fn field_count(&self) -> (n: usize)
        ensures
            n == count_from(self, 0),
    {
        let mut n: usize = 0;
        let mut k: usize = self.models.len();
        while k > 0
            invariant
                k <= self.models@.len(),
                n == count_from(self, k as int),
            decreases k,
        {
            k -= 1;
            let fields = self.models[k].fields.len();
            n = if fields > usize::MAX - n {
                usize::MAX
            } else {
                fields + n
            };
        }
        n
    }

    /// Finds what stands for a field in an identifier of a record.
    pub fn resolve_field(&self, rows: &Rows, m: usize, f: usize, row: &FieldMap, depth: usize) -> (r: Option<Value>)
        requires
            rows_wf(rows),
            row.wf(),
        ensures
            match r {
                Some(value) => field_value(self, rows, m as int, f as int, row@, depth as nat) == Some(value@),
                None => field_value(self, rows, m as int, f as int, row@, depth as nat).is_none(),
            },
        decreases depth,
    {
        if m >= self.models.len() || f >= self.models[m].fields.len() {
            return None;
        }
        let field = &self.models[m].fields[f];
        let here = match row.find(&field.name) {
            Some(i) => &row.entries[i].1,
            None => {
                return None;
            },
        };
        match &field.typ {
            FieldType::Scalar { relation_field_info: Some(info) } => {
                let tm = info.referenced_field.model;
                let tf = info.referenced_field.field;
                if tm >= self.models.len() || tf >= self.models[tm].fields.len() {
                    return Some(here.copy());
                }
                if depth == 0 {
                    return None;
                }
                let target = &self.models[tm];
                let targets = match rows.find(&target.name) {
                    Some(i) => {
                        proof {
                            rows.lemma_entry(i as int);
                        }
                        &rows.entries[i].1
                    },
                    None => {
                        return None;
                    },
                };
                let wanted = &target.fields[tf].name;
                let mut k: usize = 0;
                #[verifier::loop_isolation(false)]
                while k < targets.len()
                    invariant
                        k <= targets@.len(),
                        targets@ == rows_of(rows, target.name@),
                        forall|j: int| 0 <= j < targets@.len() ==> (#[trigger] targets@[j]).wf(),
                        row_with(targets@, wanted@, here@, 0) == row_with(targets@, wanted@, here@, k as int),
                    decreases targets@.len() - k,
                {
                    let found = match targets[k].find(wanted) {
                        Some(i) => targets[k].entries[i].1.same(here),
                        None => false,
                    };
                    if found {
                        let next = target.scalar(
                            match target.get_sync_id(tf) {
                                Some(s) => s,
                                None => tf,
                            },
                        );
                        return self.resolve_field(rows, tm, next, &targets[k], depth - 1);
                    }
                    k += 1;
                }
                None
            },
            _ => Some(here.copy()),
        }
    }

    /// Finds the identifier of a record of model `m`.
    pub fn resolve_sync_id(&self, rows: &Rows, m: usize, row: &FieldMap) -> (r: Option<SyncID>)
        requires
            rows_wf(rows),
            row.wf(),
        ensures
            match r {
                Some(id) => sync_id_of(self, rows, m as int, row@) == Some(id@) && id.valid(),
                None => sync_id_of(self, rows, m as int, row@).is_none(),
            },
    {
        if m >= self.models.len() {
            return None;
        }
        let depth = self.field_count();
        let mapping = match &self.models[m].typ {
            crate::datamodel::model::ModelType::Local { id } => id,
            crate::datamodel::model::ModelType::Owned { id, .. } => id,
            crate::datamodel::model::ModelType::Shared { id, .. } => id,
            crate::datamodel::model::ModelType::Relation { .. } => {
                return None;
            },
        };
        match mapping {
            SyncIDMapping::Single { primary_key, sync_id } => match self.resolve_field(
                rows,
                m,
                self.models[m].scalar(*sync_id),
                row,
                depth,
            ) {
                Some(value) => Some(SyncID::Single(value)),
                None => None,
            },
            SyncIDMapping::Compound(pairs) => {
                let mut parts: FieldMap = Table::new();
                let mut n: usize = 0;
                while n < pairs.len()
                    invariant
                        n <= pairs@.len(),
                        m < self.models@.len(),
                        rows_wf(rows),
                        row.wf(),
                        parts.wf(),
                        depth == count_from(self, 0),
                        self.models@[m as int].mapping() == Some(*mapping),
                        *mapping == SyncIDMapping::Compound(*pairs),
                        parts_upto(self, rows, m as int, pairs@, row@, n as int) == Some(parts@),
                    decreases pairs@.len() - n,
                {
                    let f = self.models[m].scalar(pairs[n].1);
                    match self.resolve_field(rows, m, f, row, depth) {
                        Some(value) => {
                            parts.insert(self.models[m].fields[f].name.copy(), value);
                        },
                        None => {
                            proof {
                                lemma_parts_none(self, rows, m as int, pairs@, row@, n + 1, pairs@.len() as int);
                            }
                            return None;
                        },
                    }
                    n += 1;
                }
                Some(SyncID::Compound(parts))
            },
        }
    }
}

/// Where the way from a field ends within `depth` steps, going further
/// finds nothing else: what stands for the field is the same for every
/// greater depth.
pub proof fn lemma_depth_suffices(
    datamodel: &Datamodel,
    rows: &Rows,
    m: int,
    f: int,
    row: Map<Seq<char>, Seq<u8>>,
    depth: nat,
    more: nat,
)
    requires
        chain_ends(datamodel, m, f, depth),
        depth <= more,
    ensures
        field_value(datamodel, rows, m, f, row, depth) == field_value(datamodel, rows, m, f, row, more),
    decreases depth,
{
    if 0 <= m < datamodel.models@.len() && 0 <= f < datamodel.models@[m].fields@.len() {
        let name = datamodel.models@[m].fields@[f].name@;
        match datamodel.models@[m].fields@[f].typ {
            FieldType::Scalar { relation_field_info: Some(info) } => {
                let tm = info.referenced_field.model as int;
                let tf = info.referenced_field.field as int;
                if row.contains_key(name) && tm < datamodel.models@.len() && tf < datamodel.models@[tm].fields@.len() {
                    let targets = rows_of(rows, datamodel.models@[tm].name@);
                    match row_with(targets, datamodel.models@[tm].fields@[tf].name@, row[name], 0) {
                        Some(i) => {
                            let next = datamodel.models@[tm].scalar_of(
                                match datamodel.models@[tm].sync_field(tf as usize) {
                                    Some(s) => s,
                                    None => tf as usize,
                                },
                            ) as int;
                            lemma_depth_suffices(
                                datamodel,
                                rows,
                                tm,
                                next,
                                targets[i]@,
                                (depth - 1) as nat,
                                (more - 1) as nat,
                            );
                        },
                        None => {},
                    }
                }
            },
            _ => {},
        }
    }
}

impl Datamodel {
    /// Whether the way from a field ends within `depth` steps.
    pub fn chain_ends(&self, m: usize, f: usize, depth: usize) -> (b: bool)
        ensures
            b == chain_ends(self, m as int, f as int, depth as nat),
        decreases depth,
    {
        if m >= self.models.len() || f >= self.models[m].fields.len() {
            return true;
        }
        match &self.models[m].fields[f].typ {
            FieldType::Scalar { relation_field_info: Some(info) } => {
                let tm = info.referenced_field.model;
                let tf = info.referenced_field.field;
                if tm < self.models.len() && tf < self.models[tm].fields.len() {
                    let next = self.models[tm].scalar(
                        match self.models[tm].get_sync_id(tf) {
                            Some(s) => s,
                            None => tf,
                        },
                    );
                    depth > 0 && self.chain_ends(tm, next, depth - 1)
                } else {
                    true
                }
            },
            _ => true,
        }
    }

    /// Whether no field refers, from model to model, back to itself.
    pub fn is_acyclic(&self) -> (b: bool)
        ensures
            b == acyclic(self),
    {
        let depth = self.field_count();
        let mut m: usize = 0;
        while m < self.models.len()
            invariant
                m <= self.models@.len(),
                depth == count_from(self, 0),
                forall|a: int, f: int|
                    0 <= a < m && 0 <= f < self.models@[a].fields@.len() ==> #[trigger] chain_ends(
                        self,
                        a,
                        f,
                        depth as nat,
                    ),
            decreases self.models@.len() - m,
        {
            let mut f: usize = 0;
            while f < self.models[m].fields.len()
                invariant
                    m < self.models@.len(),
                    f <= self.models@[m as int].fields@.len(),
                    depth == count_from(self, 0),
                    forall|g: int| 0 <= g < f ==> #[trigger] chain_ends(self, m as int, g, depth as nat),
                decreases self.models@[m as int].fields@.len() - f,
            {
                if !self.chain_ends(m, f, depth) {
                    return false;
                }
                f += 1;
            }
            m += 1;
        }
        true
    }
}

/// What going through the steps from the value of a field comes to: at each
/// step the record whose field `find` holds the value is found among the
/// records of this node, and the value of its field `take` is what the next
/// step starts from. There is nothing where a record is not there or lacks
/// the field.
pub open spec fn follow(datamodel: &Datamodel, rows: &Rows, steps: Seq<Step>, value: Seq<u8>) -> Option<Seq<u8>>
    decreases steps.len(),
{
    if steps.len() == 0 {
        Some(value)
    } else {
        let step = steps[0];
        if !(step.find.model < datamodel.models@.len() && step.find.field
            < datamodel.models@[step.find.model as int].fields@.len() && step.take.model
            < datamodel.models@.len() && step.take.field < datamodel.models@[step.take.model as int].fields@.len()) {
            None
        } else {
            let targets = rows_of(rows, datamodel.models@[step.find.model as int].name@);
            let found = datamodel.models@[step.find.model as int].fields@[step.find.field as int].name@;
            let taken = datamodel.models@[step.take.model as int].fields@[step.take.field as int].name@;
            match row_with(targets, found, value, 0) {
                None => None,
                Some(i) => if targets[i]@.contains_key(taken) {
                    follow(datamodel, rows, steps.skip(1), targets[i]@[taken])
                } else {
                    None
                },
            }
        }
    }
}

/// The field that the steps from the field `f` of model `m` end at: the
/// field itself where there are none.
pub open spec fn end_of(steps: Seq<Step>, m: int, f: int) -> (int, int) {
    if steps.len() == 0 {
        (m, f)
    } else {
        (steps.last().take.model as int, steps.last().take.field as int)
    }
}

/// Where the way from a field ends within `depth` steps, the steps go all
/// the way: the field that they end at holds no key of a further record.
pub proof fn lemma_steps_complete(datamodel: &Datamodel, m: int, f: int, depth: nat)
    requires
        chain_ends(datamodel, m, f, depth),
    ensures
        ({
            let end = end_of(steps_of(datamodel, m, f, depth), m, f);
            step_of(datamodel, end.0, end.1).is_none()
        }),
    decreases depth,
{
    match step_of(datamodel, m, f) {
        None => {},
        Some(step) => {
            let tm = step.take.model as int;
            let tf = step.take.field as int;
            lemma_steps_complete(datamodel, tm, tf, (depth - 1) as nat);
            let rest = steps_of(datamodel, tm, tf, (depth - 1) as nat);
            let all = steps_of(datamodel, m, f, depth);
            assert(all =~= seq![step] + rest);
            if rest.len() > 0 {
                assert(all.last() == rest.last());
            }
        },
    }
}

/// Going through the steps from a field of a record gives what stands for
/// the field in the record's identifier: the identifier of the record that
/// the field refers to, by way of as many records as it takes, and never a
/// key under which this node keeps a record on the way.
pub proof fn lemma_steps_resolve(
    datamodel: &Datamodel,
    rows: &Rows,
    m: int,
    f: int,
    row: Map<Seq<char>, Seq<u8>>,
    depth: nat,
)
    requires
        0 <= m < datamodel.models@.len(),
        0 <= f < datamodel.models@[m].fields@.len(),
        row.contains_key(datamodel.models@[m].fields@[f].name@),
        chain_ends(datamodel, m, f, depth),
    ensures
        field_value(datamodel, rows, m, f, row, depth) == follow(
            datamodel,
            rows,
            steps_of(datamodel, m, f, depth),
            row[datamodel.models@[m].fields@[f].name@],
        ),
    decreases depth,
{
    let name = datamodel.models@[m].fields@[f].name@;
    match step_of(datamodel, m, f) {
        None => {},
        Some(step) => {
            let tm = step.take.model as int;
            let tf = step.take.field as int;
            let rest = steps_of(datamodel, tm, tf, (depth - 1) as nat);
            let all = steps_of(datamodel, m, f, depth);
            assert(all =~= seq![step] + rest);
            assert(all.skip(1) =~= rest);
            assert(all[0] == step);
            let targets = rows_of(rows, datamodel.models@[tm].name@);
            let found = datamodel.models@[tm].fields@[step.find.field as int].name@;
            match row_with(targets, found, row[name], 0) {
                None => {},
                Some(i) => {
                    if tf < datamodel.models@[tm].fields@.len() && targets[i]@.contains_key(
                        datamodel.models@[tm].fields@[tf].name@,
                    ) {
                        lemma_steps_resolve(datamodel, rows, tm, tf, targets[i]@, (depth - 1) as nat);
                    }
                },
            }
        },
    }
}

impl Datamodel {
    /// The step from the field `f` of model `m`.
    pub fn step_at(&self, m: usize, f: usize) -> (r: Option<Step>)
        ensures
            r == step_of(self, m as int, f as int),
    {
        if m < self.models.len() && f < self.models[m].fields.len() {
            self.models[m].fields[f].first_step(self)
        } else {
            None
        }
    }

    /// The steps that begin with `first` and go on until a field holds no
    /// key.
    pub fn steps_after(&self, first: Option<Step>) -> (r: Vec<Step>)
        ensures
            r@ == steps_after(self, first, count_from(self, 0)),
    {
        let mut steps: Vec<Step> = Vec::new();
        let mut next = first;
        let mut depth = self.field_count();
        loop
            invariant
                steps_after(self, first, count_from(self, 0)) == steps@ + steps_after(self, next, depth as nat),
            decreases depth,
        {
            match next {
                Some(step) => {
                    if depth == 0 {
                        assert(steps@ + Seq::<Step>::empty() =~= steps@);
                        return steps;
                    }
                    let ghost rest = steps_after(
                        self,
                        step_of(self, step.take.model as int, step.take.field as int),
                        (depth - 1) as nat,
                    );
                    assert(steps@ + (seq![step] + rest) =~= steps@.push(step) + rest);
                    steps.push(step);
                    depth -= 1;
                    next = self.step_at(step.take.model, step.take.field);
                },
                None => {
                    assert(steps@ + Seq::<Step>::empty() =~= steps@);
                    return steps;
                },
            }
        }
    }

    /// The steps from the field `f` of model `m` to a field that holds no
    /// key.
    pub fn steps(&self, m: usize, f: usize) -> (r: Vec<Step>)
        ensures
            r@ == steps_of(self, m as int, f as int, count_from(self, 0)),
    {
        self.steps_after(self.step_at(m, f))
    }

    /// Goes through the steps from a value, among the records of this node.
    pub fn follow(&self, rows: &Rows, steps: &Vec<Step>, value: &Value) -> (r: Option<Value>)
        requires
            rows_wf(rows),
        ensures
            match r {
                Some(end) => follow(self, rows, steps@, value@) == Some(end@),
                None => follow(self, rows, steps@, value@).is_none(),
            },
    {
        let mut at = value.copy();
        let mut n: usize = 0;
        assert(steps@.skip(0) =~= steps@);
        while n < steps.len()
            invariant
                rows_wf(rows),
                n <= steps@.len(),
                follow(self, rows, steps@, value@) == follow(self, rows, steps@.skip(n as int), at@),
            decreases steps@.len() - n,
        {
            let step = steps[n];
            proof {
                assert(steps@.skip(n as int)[0] == step);
                assert(steps@.skip(n as int).skip(1) =~= steps@.skip(n + 1));
            }
            if !(step.find.model < self.models.len() && step.find.field < self.models[step.find.model].fields.len()
                && step.take.model < self.models.len() && step.take.field
                < self.models[step.take.model].fields.len()) {
                return None;
            }
            let targets = match rows.find(&self.models[step.find.model].name) {
                Some(i) => {
                    proof {
                        rows.lemma_entry(i as int);
                    }
                    &rows.entries[i].1
                },
                None => {
                    return None;
                },
            };
            let wanted = &self.models[step.find.model].fields[step.find.field].name;
            let taken = &self.models[step.take.model].fields[step.take.field].name;
            let mut k: usize = 0;
            let mut found: Option<usize> = None;
            #[verifier::loop_isolation(false)]
            while k < targets.len() && found.is_none()
                invariant
                    k <= targets@.len(),
                    match found {
                        Some(i) => row_with(targets@, wanted@, at@, 0) == Some(i as int) && i < targets@.len(),
                        None => row_with(targets@, wanted@, at@, 0) == row_with(targets@, wanted@, at@, k as int),
                    },
                decreases targets@.len() - k + (if found.is_none() { 1int } else { 0int }),
            {
                let here = match targets[k].find(wanted) {
                    Some(i) => targets[k].entries[i].1.same(&at),
                    None => false,
                };
                if here {
                    found = Some(k);
                } else {
                    k += 1;
                }
            }
            match found {
                Some(i) => match targets[i].find(taken) {
                    Some(j) => {
                        at = targets[i].entries[j].1.copy();
                    },
                    None => {
                        return None;
                    },
                },
                None => {
                    return None;
                },
            }
            n += 1;
        }
        assert(steps@.skip(steps@.len() as int) =~= Seq::<Step>::empty());
        Some(at)
    }
}

/// Where some of the parts cannot be found, more of them cannot either.
proof fn lemma_parts_none(
    datamodel: &Datamodel,
    rows: &Rows,
    m: int,
    pairs: Seq<(usize, usize)>,
    row: Map<Seq<char>, Seq<u8>>,
    n: int,
    all: int,
)
    requires
        0 < n <= all <= pairs.len(),
        parts_upto(datamodel, rows, m, pairs, row, n).is_none(),
    ensures
        parts_upto(datamodel, rows, m, pairs, row, all).is_none(),
    decreases all - n,
{
    if n < all {
        lemma_parts_none(datamodel, rows, m, pairs, row, n, all - 1);
    }
}

/// What came of noting a record in the index.
#[derive(Clone, Debug, PartialEq, Eq)]
pub enum Observation {
    /// The record is in the index under this identifier.
    Indexed(SyncID),
    /// The record has no identifier yet: it lacks a field that identifies
    /// it, or refers to a record that this node does not hold.
    Unresolved,
    /// The identifier stands for another key, or another identifier of the
    /// model stands for the key.
    Conflict(SyncID),
}

impl SyncIndex {
    /// The key under which this node keeps the record `row` of model `m`:
    /// the record's identifier is found from the record, and the key from the
    /// identifier. This gives the key under which the record was noted.
    pub fn local_key(&self, datamodel: &Datamodel, rows: &Rows, m: usize, row: &FieldMap) -> (r: Option<Value>)
        requires
            self.wf(),
            rows_wf(rows),
            row.wf(),
        ensures
            match sync_id_of(datamodel, rows, m as int, row@) {
                Some(id) => match r {
                    Some(local) => binds(self@, datamodel.models@[m as int].name@, id, local@),
                    None => !self@.contains_key(
                        RecordKeyView::Row { model: datamodel.models@[m as int].name@, id },
                    ),
                },
                None => r.is_none(),
            },
            forall|id: SyncIdView, local: Seq<u8>|
                sync_id_of(datamodel, rows, m as int, row@) == Some(id) && binds(
                    self@,
                    datamodel.models@[m as int].name@,
                    id,
                    local,
                ) ==> r.is_some() && r.unwrap()@ == local,
    {
        match datamodel.resolve_sync_id(rows, m, row) {
            Some(id) => self.resolve_local(&datamodel.models[m].name, &id),
            None => None,
        }
    }

    /// Notes that this node keeps the record `row` of model `m` under the key
    /// `local`. The record is noted where it has an identifier and either
    /// the index holds the identifier with that key already, or the
    /// identifier and the key are both free. From then on the identifier
    /// leads to `local`, and what the index held before it holds still. A
    /// record whose identifier stands for another key, or whose key another
    /// identifier of the model stands for, is a conflict and leaves the index
    /// as it was.
    pub fn observe_record(&mut self, datamodel: &Datamodel, rows: &Rows, m: usize, row: &FieldMap, local: Value) -> (r:
        Observation)
        requires
            old(self).wf(),
            rows_wf(rows),
            row.wf(),
        ensures
            final(self).wf(),
            forall|model: Seq<char>, id: SyncIdView, key: Seq<u8>|
                binds(old(self)@, model, id, key) ==> binds(final(self)@, model, id, key),
            match r {
                Observation::Indexed(id) => {
                    let key = RecordKeyView::Row { model: datamodel.models@[m as int].name@, id: id@ };
                    &&& sync_id_of(datamodel, rows, m as int, row@) == Some(id@)
                    &&& binds(old(self)@, datamodel.models@[m as int].name@, id@, local@) || (!old(
                        self,
                    )@.contains_key(key) && !bound(old(self)@, datamodel.models@[m as int].name@, local@))
                    &&& final(self)@ == old(self)@.insert(key, local@)
                },
                Observation::Unresolved => sync_id_of(datamodel, rows, m as int, row@).is_none() && final(self)@
                    == old(self)@,
                Observation::Conflict(id) => {
                    let key = RecordKeyView::Row { model: datamodel.models@[m as int].name@, id: id@ };
                    &&& sync_id_of(datamodel, rows, m as int, row@) == Some(id@)
                    &&& !binds(old(self)@, datamodel.models@[m as int].name@, id@, local@)
                    &&& old(self)@.contains_key(key) || bound(old(self)@, datamodel.models@[m as int].name@, local@)
                    &&& final(self)@ == old(self)@
                },
            },
    {
        match datamodel.resolve_sync_id(rows, m, row) {
            None => Observation::Unresolved,
            Some(id) => {
                let model = datamodel.models[m].name.copy();
                let noted = id.copy();
                if self.observe(model, id, local) {
                    Observation::Indexed(noted)
                } else {
                    Observation::Conflict(noted)
                }
            },
        }
    }
}

} // verus!
