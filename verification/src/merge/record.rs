//! The state of one replicated record: for each field the value last written
//! and the timestamp of that write, and the timestamps of the latest creation
//! and the latest deletion.

use vstd::prelude::*;
use crate::table::Table;
use crate::value::FieldMap;
use crate::value::Value;
use crate::Timestamp;

verus! {

/// The value of a field and the timestamp of the write that set it.
#[derive(Clone, Debug, PartialEq, Eq)]
pub struct Cell {
    pub timestamp: Timestamp,
    pub value: Value,
}

pub struct CellView {
    pub timestamp: Timestamp,
    pub value: Seq<u8>,
}

impl View for Cell {
    type V = CellView;

    open spec fn view(&self) -> CellView {
        CellView { timestamp: self.timestamp, value: self.value@ }
    }
}

/// A record, or an edge of a relation.
///
/// `tombstone` is the timestamp of the latest deletion. A deletion takes with
/// it everything older than itself, and whatever arrives later with an older
/// timestamp is ignored: `created` and the cells of `fields` are never older
/// than `tombstone`. The record is live while `created` holds a timestamp, so
/// a creation that is not older than the latest deletion brings a deleted
/// record back.
#[derive(Clone, Debug, PartialEq, Eq)]
pub struct Record {
    pub created: Option<Timestamp>,
    pub tombstone: Option<Timestamp>,
    pub fields: Table<String, Cell>,
}

pub struct RecordView {
    pub created: Option<Timestamp>,
    pub tombstone: Option<Timestamp>,
    pub fields: Map<Seq<char>, CellView>,
}

impl View for Record {
    type V = RecordView;

    open spec fn view(&self) -> RecordView {
        RecordView { created: self.created, tombstone: self.tombstone, fields: self.fields@ }
    }
}

impl RecordView {
    /// A record that nothing was written to.
    pub open spec fn fresh() -> RecordView {
        RecordView { created: None, tombstone: None, fields: Map::empty() }
    }

    pub open spec fn is_live(self) -> bool {
        self.created.is_some()
    }

    /// Whether an operation of timestamp `t` is older than the latest
    /// deletion.
    pub open spec fn stale(self, t: Timestamp) -> bool {
        self.tombstone matches Some(d) && t < d
    }

    /// Whether a write of timestamp `t` to `field` replaces what is there:
    /// always when `force` is set, else only when it is strictly later than
    /// the write that set the field.
    pub open spec fn takes(self, field: Seq<char>, t: Timestamp, force: bool) -> bool {
        force || !self.fields.contains_key(field) || self.fields[field].timestamp < t
    }

    pub open spec fn put(self, field: Seq<char>, value: Seq<u8>, t: Timestamp, force: bool) -> RecordView {
        if self.takes(field, t, force) {
            RecordView { fields: self.fields.insert(field, CellView { timestamp: t, value }), ..self }
        } else {
            self
        }
    }

    pub open spec fn put_all(self, values: Map<Seq<char>, Seq<u8>>, t: Timestamp, force: bool) -> RecordView {
        RecordView {
            fields: Map::new(
                |f: Seq<char>| self.fields.contains_key(f) || values.contains_key(f),
                |f: Seq<char>|
                    if values.contains_key(f) && self.takes(f, t, force) {
                        CellView { timestamp: t, value: values[f] }
                    } else {
                        self.fields[f]
                    },
            ),
            ..self
        }
    }

    /// Records a creation at `t`.
    pub open spec fn touch(self, t: Timestamp) -> RecordView {
        RecordView {
            created: match self.created {
                Some(c) if c >= t => Some(c),
                _ => Some(t),
            },
            ..self
        }
    }

    /// Records a deletion at `t`, which is not older than the latest one, and
    /// drops what is older than `t`.
    pub open spec fn bury(self, t: Timestamp) -> RecordView {
        RecordView {
            created: match self.created {
                Some(c) if c >= t => Some(c),
                _ => None,
            },
            tombstone: Some(t),
            fields: Map::new(
                |f: Seq<char>| self.fields.contains_key(f) && self.fields[f].timestamp >= t,
                |f: Seq<char>| self.fields[f],
            ),
        }
    }

    /// The record after a creation at `t` that sets `values`.
    pub open spec fn created_with(self, values: Map<Seq<char>, Seq<u8>>, t: Timestamp) -> RecordView {
        if self.stale(t) {
            self
        } else {
            self.touch(t).put_all(values, t, false)
        }
    }

    /// The record after an update of `field` at `t`.
    pub open spec fn updated(self, field: Seq<char>, value: Seq<u8>, t: Timestamp) -> RecordView {
        if self.stale(t) {
            self
        } else {
            self.put(field, value, t, false)
        }
    }

    /// The record after a deletion at `t`.
    pub open spec fn deleted(self, t: Timestamp) -> RecordView {
        if self.stale(t) {
            self
        } else {
            self.bury(t)
        }
    }

    /// Nothing in the record is older than its latest deletion.
    pub open spec fn settled(self) -> bool {
        self.tombstone matches Some(d) ==> {
            &&& self.created matches Some(c) ==> c >= d
            &&& forall|f: Seq<char>| self.fields.contains_key(f) ==> (#[trigger] self.fields[f]).timestamp >= d
        }
    }

    /// Writing the fields of a map one after another is writing the map.
    pub proof fn lemma_put_all_step(
        self,
        done: Map<Seq<char>, Seq<u8>>,
        field: Seq<char>,
        value: Seq<u8>,
        t: Timestamp,
        force: bool,
    )
        requires
            !done.contains_key(field),
        ensures
            self.put_all(done, t, force).fields.insert(
                field,
                if self.takes(field, t, force) {
                    CellView { timestamp: t, value }
                } else {
                    self.fields[field]
                },
            ) == self.put_all(done.insert(field, value), t, force).fields,
            self.put_all(done, t, force).takes(field, t, force) == self.takes(field, t, force),
            self.put_all(done, t, force).put(field, value, t, force) == self.put_all(
                done.insert(field, value),
                t,
                force,
            ),
            self.put_all(Map::empty(), t, force) == self,
    {
        let a = self.put_all(done, t, force);
        let b = self.put_all(done.insert(field, value), t, force);
        assert(a.fields.insert(
            field,
            if self.takes(field, t, force) {
                CellView { timestamp: t, value }
            } else {
                self.fields[field]
            },
        ) =~= b.fields);
        assert(a.put(field, value, t, force).fields =~= b.fields);
        assert(self.put_all(Map::empty(), t, force).fields =~= self.fields);
    }
}

impl Record {
    pub open spec fn wf(&self) -> bool {
        self.fields.wf()
    }

    pub fn new() -> (r: Self)
        ensures
            r.wf(),
            r@ == RecordView::fresh(),
    {
        Record { created: None, tombstone: None, fields: Table::new() }
    }

    /// The value of a field, if the record has the field.
    pub fn value(&self, field: &String) -> (r: Option<&Value>)
        requires
            self.wf(),
        ensures
            match r {
                Some(value) => self@.fields.contains_key(field@) && self@.fields[field@].value == value@,
                None => !self@.fields.contains_key(field@),
            },
    {
        match self.fields.find(field) {
            Some(i) => Some(&self.fields.entries[i].1.value),
            None => None,
        }
    }

    pub fn is_live(&self) -> (b: bool)
        ensures
            b == self@.is_live(),
    {
        self.created.is_some()
    }

    pub fn is_stale(&self, t: Timestamp) -> (b: bool)
        ensures
            b == self@.stale(t),
    {
        match self.tombstone {
            Some(d) => t < d,
            None => false,
        }
    }

    /// Writes `value` to `field` at `t`, if the write takes.
    pub fn put(&mut self, field: String, value: Value, t: Timestamp, force: bool)
        requires
            old(self).wf(),
        ensures
            final(self).wf(),
            final(self)@ == old(self)@.put(field@, value@, t, force),
    {
        match self.fields.find(&field) {
            Some(i) => {
                if force || self.fields.entries[i].1.timestamp < t {
                    self.fields.replace(i, Cell { timestamp: t, value });
                }
            },
            None => {
                self.fields.push(field, Cell { timestamp: t, value });
            },
        }
    }

    /// Writes each field of `values` at `t`, where the write takes.
    pub fn put_all(&mut self, values: FieldMap, t: Timestamp, force: bool)
        requires
            old(self).wf(),
            values.wf(),
        ensures
            final(self).wf(),
            final(self)@ == old(self)@.put_all(values@, t, force),
    {
        let ghost start = self@;
        let ghost mut done: Map<Seq<char>, Seq<u8>> = Map::empty();
        let mut rest = values;
        proof {
            start.lemma_put_all_step(done, seq![], seq![], t, force);
        }
        loop
            invariant
                self.wf(),
                rest.wf(),
                start == old(self)@,
                self@ == start.put_all(done, t, force),
                forall|f: Seq<char>| #[trigger] values@.contains_key(f) <==> rest@.contains_key(f) || done.contains_key(f),
                forall|f: Seq<char>| #[trigger] rest@.contains_key(f) ==> !done.contains_key(f) && rest@[f] == values@[f],
                forall|f: Seq<char>| #[trigger] done.contains_key(f) ==> done[f] == values@[f],
            decreases rest.entries@.len(),
        {
            match rest.pop() {
                Some(e) => {
                    proof {
                        start.lemma_put_all_step(done, e.0@, e.1@, t, force);
                        done = done.insert(e.0@, e.1@);
                    }
                    self.put(e.0, e.1, t, force);
                },
                None => {
                    assert(done =~= values@);
                    return ;
                },
            }
        }
    }

    /// Records a creation at `t`.
    pub fn touch(&mut self, t: Timestamp)
        ensures
            final(self)@ == old(self)@.touch(t),
            final(self).fields == old(self).fields,
    {
        match self.created {
            Some(c) => {
                if c < t {
                    self.created = Some(t);
                }
            },
            None => {
                self.created = Some(t);
            },
        }
    }

    /// Records a deletion at `t` and drops what is older.
    pub fn bury(&mut self, t: Timestamp)
        requires
            old(self).wf(),
        ensures
            final(self).wf(),
            final(self)@ == old(self)@.bury(t),
    {
        let ghost start = self@;
        match self.created {
            Some(c) => {
                if c < t {
                    self.created = None;
                }
            },
            None => {},
        }
        self.tombstone = Some(t);
        let mut kept: Table<String, Cell> = Table::new();
        loop
            invariant
                self.wf(),
                kept.wf(),
                start == old(self)@,
                self.created == start.bury(t).created,
                self.tombstone == Some(t),
                forall|f: Seq<char>| #[trigger] start.fields.contains_key(f) && start.fields[f].timestamp >= t
                    ==> (self.fields@.contains_key(f) && self.fields@[f] == start.fields[f])
                    || (kept@.contains_key(f) && kept@[f] == start.fields[f]),
                forall|f: Seq<char>| #[trigger] self.fields@.contains_key(f) ==> start.fields.contains_key(f)
                    && self.fields@[f] == start.fields[f] && !kept@.contains_key(f),
                forall|f: Seq<char>| #[trigger] kept@.contains_key(f) ==> start.fields.contains_key(f)
                    && kept@[f] == start.fields[f] && start.fields[f].timestamp >= t,
            decreases self.fields.entries@.len(),
        {
            match self.fields.pop() {
                Some(e) => {
                    if e.1.timestamp >= t {
                        kept.push(e.0, e.1);
                    }
                },
                None => {
                    self.fields = kept;
                    assert(self@.fields =~= start.bury(t).fields);
                    return ;
                },
            }
        }
    }

    /// Applies a creation at `t` that sets `values`.
    pub fn create_with(&mut self, values: FieldMap, t: Timestamp)
        requires
            old(self).wf(),
            values.wf(),
        ensures
            final(self).wf(),
            final(self)@ == old(self)@.created_with(values@, t),
    {
        if !self.is_stale(t) {
            self.touch(t);
            self.put_all(values, t, false);
        }
    }

    /// Applies an update of `field` at `t`.
    pub fn update(&mut self, field: String, value: Value, t: Timestamp)
        requires
            old(self).wf(),
        ensures
            final(self).wf(),
            final(self)@ == old(self)@.updated(field@, value@, t),
    {
        if !self.is_stale(t) {
            self.put(field, value, t, false);
        }
    }

    /// Applies a deletion at `t`.
    pub fn delete(&mut self, t: Timestamp)
        requires
            old(self).wf(),
        ensures
            final(self).wf(),
            final(self)@ == old(self)@.deleted(t),
    {
        if !self.is_stale(t) {
            self.bury(t);
        }
    }
}

} // verus!
