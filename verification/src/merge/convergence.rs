//! Replicas that were handed the same operations hold the same state.
//!
//! The state that a replica reaches is described from the set of operations
//! it was handed, without regard to their order: which of them were applied,
//! which wait, which records exist, and what each record holds. Two states
//! that fit one description are equal.

use vstd::prelude::*;
use crate::merge::key::RecordKeyView;
use crate::merge::laws::lemma_oldest_exists;
use crate::merge::record::CellView;
use crate::merge::record::RecordView;
use crate::merge::replica::ChangeView;
use crate::merge::schema::ModelKindView;
use crate::merge::schema::SchemaView;
use crate::merge::state::apply_all;
use crate::merge::state::change_of;
use crate::merge::state::fresh;
use crate::merge::state::is_create;
use crate::merge::state::is_delete;
use crate::merge::state::key_of;
use crate::merge::state::merged;
use crate::merge::state::writes;
use crate::merge::state::calm;
use crate::merge::state::OpId;
use crate::merge::state::ReplicaView;
use crate::value::SyncIdView;
use crate::CRDTOperationTypeView;
use crate::CRDTOperationView;

verus! {

/// Whether the record holds what the operations of `done` on it make of it:
/// its tombstone is the latest deletion, and its creation and each of its
/// cells are the latest creation and the latest write that are not older than
/// the tombstone.
pub open spec fn record_fits(r: RecordView, done: Set<CRDTOperationView>, key: RecordKeyView) -> bool {
    &&& forall|d: CRDTOperationView| #[trigger]
        done.contains(d) && is_delete(d) && key_of(d) == key ==> r.tombstone.is_some() && d.timestamp
            <= r.tombstone.unwrap()
    &&& r.tombstone.is_some() ==> exists|d: CRDTOperationView| #[trigger]
        done.contains(d) && is_delete(d) && key_of(d) == key && d.timestamp == r.tombstone.unwrap()
    &&& forall|c: CRDTOperationView| #[trigger]
        done.contains(c) && is_create(c) && key_of(c) == key && !r.stale(c.timestamp) ==> r.created.is_some()
            && c.timestamp <= r.created.unwrap()
    &&& r.created.is_some() ==> !r.stale(r.created.unwrap()) && exists|c: CRDTOperationView| #[trigger]
        done.contains(c) && is_create(c) && key_of(c) == key && c.timestamp == r.created.unwrap()
    &&& forall|w: CRDTOperationView, f: Seq<char>, v: Seq<u8>|
        done.contains(w) && #[trigger] writes(w, f, v) && key_of(w) == key && !r.stale(w.timestamp)
            ==> r.fields.contains_key(f) && w.timestamp <= r.fields[f].timestamp
    &&& forall|f: Seq<char>| #[trigger]
        r.fields.contains_key(f) ==> !r.stale(r.fields[f].timestamp) && exists|w: CRDTOperationView| #[trigger]
            done.contains(w) && writes(w, f, r.fields[f].value) && key_of(w) == key && w.timestamp
                == r.fields[f].timestamp
}

/// A record that fits stays fitting when one more operation on it is done.
pub proof fn lemma_record_step(r: RecordView, done: Set<CRDTOperationView>, key: RecordKeyView, op: CRDTOperationView)
    requires
        record_fits(r, done, key),
        merged(op),
        key_of(op) == key,
    ensures
        record_fits(r.changed(change_of(op), op.timestamp), done.insert(op), key),
{
    let t = op.timestamp;
    let after = r.changed(change_of(op), t);
    let more = done.insert(op);
    match change_of(op) {
        ChangeView::Create(values) => {
            if r.stale(t) {
                lemma_record_more(r, done, key, op);
            } else {
                let touched = r.touch(t);
                assert(after == touched.put_all(values, t, false));
                assert(after.tombstone == r.tombstone);
                assert forall|c: CRDTOperationView| #[trigger]
                    more.contains(c) && is_create(c) && key_of(c) == key && !after.stale(
                        c.timestamp,
                    ) implies after.created.is_some() && c.timestamp <= after.created.unwrap() by {
                    if c != op {
                        assert(done.contains(c));
                    }
                }
                if after.created == Some(t) {
                    assert(more.contains(op));
                } else {
                    let c = choose|c: CRDTOperationView| #[trigger]
                        done.contains(c) && is_create(c) && key_of(c) == key && c.timestamp == r.created.unwrap();
                    assert(more.contains(c));
                }
                assert forall|w: CRDTOperationView, f: Seq<char>, v: Seq<u8>|
                    more.contains(w) && #[trigger] writes(w, f, v) && key_of(w) == key && !after.stale(
                        w.timestamp,
                    ) implies after.fields.contains_key(f) && w.timestamp <= after.fields[f].timestamp by {
                    if w != op {
                        assert(done.contains(w));
                    }
                }
                assert forall|f: Seq<char>| #[trigger] after.fields.contains_key(f) implies !after.stale(
                    after.fields[f].timestamp,
                ) && exists|w: CRDTOperationView| #[trigger]
                    more.contains(w) && writes(w, f, after.fields[f].value) && key_of(w) == key && w.timestamp
                        == after.fields[f].timestamp by {
                    if values.contains_key(f) && touched.takes(f, t, false) {
                        assert(more.contains(op) && writes(op, f, after.fields[f].value));
                    } else {
                        let w = choose|w: CRDTOperationView| #[trigger]
                            done.contains(w) && writes(w, f, r.fields[f].value) && key_of(w) == key && w.timestamp
                                == r.fields[f].timestamp;
                        assert(more.contains(w));
                    }
                }
                assert forall|d: CRDTOperationView| #[trigger]
                    more.contains(d) && is_delete(d) && key_of(d) == key implies after.tombstone.is_some()
                    && d.timestamp <= after.tombstone.unwrap() by {
                    assert(done.contains(d));
                }
                if after.tombstone.is_some() {
                    let d = choose|d: CRDTOperationView| #[trigger]
                        done.contains(d) && is_delete(d) && key_of(d) == key && d.timestamp == r.tombstone.unwrap();
                    assert(more.contains(d));
                }
            }
        },
        ChangeView::Update { field, value } => {
            if r.stale(t) {
                lemma_record_more(r, done, key, op);
            } else {
                assert(after == r.put(field, value, t, false));
                assert forall|c: CRDTOperationView| #[trigger]
                    more.contains(c) && is_create(c) && key_of(c) == key && !after.stale(
                        c.timestamp,
                    ) implies after.created.is_some() && c.timestamp <= after.created.unwrap() by {
                    assert(done.contains(c));
                }
                if after.created.is_some() {
                    let c = choose|c: CRDTOperationView| #[trigger]
                        done.contains(c) && is_create(c) && key_of(c) == key && c.timestamp == r.created.unwrap();
                    assert(more.contains(c));
                }
                assert forall|w: CRDTOperationView, f: Seq<char>, v: Seq<u8>|
                    more.contains(w) && #[trigger] writes(w, f, v) && key_of(w) == key && !after.stale(
                        w.timestamp,
                    ) implies after.fields.contains_key(f) && w.timestamp <= after.fields[f].timestamp by {
                    if w != op {
                        assert(done.contains(w));
                    }
                }
                assert forall|f: Seq<char>| #[trigger] after.fields.contains_key(f) implies !after.stale(
                    after.fields[f].timestamp,
                ) && exists|w: CRDTOperationView| #[trigger]
                    more.contains(w) && writes(w, f, after.fields[f].value) && key_of(w) == key && w.timestamp
                        == after.fields[f].timestamp by {
                    if f == field && r.takes(field, t, false) {
                        assert(more.contains(op) && writes(op, f, after.fields[f].value));
                    } else {
                        let w = choose|w: CRDTOperationView| #[trigger]
                            done.contains(w) && writes(w, f, r.fields[f].value) && key_of(w) == key && w.timestamp
                                == r.fields[f].timestamp;
                        assert(more.contains(w));
                    }
                }
                assert forall|d: CRDTOperationView| #[trigger]
                    more.contains(d) && is_delete(d) && key_of(d) == key implies after.tombstone.is_some()
                    && d.timestamp <= after.tombstone.unwrap() by {
                    assert(done.contains(d));
                }
                if after.tombstone.is_some() {
                    let d = choose|d: CRDTOperationView| #[trigger]
                        done.contains(d) && is_delete(d) && key_of(d) == key && d.timestamp == r.tombstone.unwrap();
                    assert(more.contains(d));
                }
            }
        },
        ChangeView::Delete => {
            if r.stale(t) {
                lemma_record_more(r, done, key, op);
            } else {
                assert(after == r.bury(t));
                assert forall|d: CRDTOperationView| #[trigger]
                    more.contains(d) && is_delete(d) && key_of(d) == key implies after.tombstone.is_some()
                    && d.timestamp <= after.tombstone.unwrap() by {
                    if d != op {
                        assert(done.contains(d));
                    }
                }
                assert(more.contains(op));
                assert forall|c: CRDTOperationView| #[trigger]
                    more.contains(c) && is_create(c) && key_of(c) == key && !after.stale(
                        c.timestamp,
                    ) implies after.created.is_some() && c.timestamp <= after.created.unwrap() by {
                    assert(done.contains(c));
                }
                if after.created.is_some() {
                    let c = choose|c: CRDTOperationView| #[trigger]
                        done.contains(c) && is_create(c) && key_of(c) == key && c.timestamp == r.created.unwrap();
                    assert(more.contains(c));
                }
                assert forall|w: CRDTOperationView, f: Seq<char>, v: Seq<u8>|
                    more.contains(w) && #[trigger] writes(w, f, v) && key_of(w) == key && !after.stale(
                        w.timestamp,
                    ) implies after.fields.contains_key(f) && w.timestamp <= after.fields[f].timestamp by {
                    assert(done.contains(w));
                }
                assert forall|f: Seq<char>| #[trigger] after.fields.contains_key(f) implies !after.stale(
                    after.fields[f].timestamp,
                ) && exists|w: CRDTOperationView| #[trigger]
                    more.contains(w) && writes(w, f, after.fields[f].value) && key_of(w) == key && w.timestamp
                        == after.fields[f].timestamp by {
                    let w = choose|w: CRDTOperationView| #[trigger]
                        done.contains(w) && writes(w, f, r.fields[f].value) && key_of(w) == key && w.timestamp
                            == r.fields[f].timestamp;
                    assert(more.contains(w));
                }
            }
        },
    }
}

/// A record that fits stays fitting when an operation is done that is older
/// than its tombstone and left it as it was.
proof fn lemma_record_more(r: RecordView, done: Set<CRDTOperationView>, key: RecordKeyView, op: CRDTOperationView)
    requires
        record_fits(r, done, key),
        key_of(op) == key ==> r.stale(op.timestamp),
    ensures
        record_fits(r, done.insert(op), key),
{
    let more = done.insert(op);
    assert forall|d: CRDTOperationView| #[trigger]
        more.contains(d) && is_delete(d) && key_of(d) == key implies r.tombstone.is_some() && d.timestamp
        <= r.tombstone.unwrap() by {
        if d != op {
            assert(done.contains(d));
        }
    }
    if r.tombstone.is_some() {
        let d = choose|d: CRDTOperationView| #[trigger]
            done.contains(d) && is_delete(d) && key_of(d) == key && d.timestamp == r.tombstone.unwrap();
        assert(more.contains(d));
    }
    assert forall|c: CRDTOperationView| #[trigger]
        more.contains(c) && is_create(c) && key_of(c) == key && !r.stale(c.timestamp) implies r.created.is_some()
        && c.timestamp <= r.created.unwrap() by {
        assert(done.contains(c));
    }
    if r.created.is_some() {
        let c = choose|c: CRDTOperationView| #[trigger]
            done.contains(c) && is_create(c) && key_of(c) == key && c.timestamp == r.created.unwrap();
        assert(more.contains(c));
    }
    assert forall|w: CRDTOperationView, f: Seq<char>, v: Seq<u8>|
        more.contains(w) && #[trigger] writes(w, f, v) && key_of(w) == key && !r.stale(
            w.timestamp,
        ) implies r.fields.contains_key(f) && w.timestamp <= r.fields[f].timestamp by {
        assert(done.contains(w));
    }
    assert forall|f: Seq<char>| #[trigger] r.fields.contains_key(f) implies !r.stale(r.fields[f].timestamp)
        && exists|w: CRDTOperationView| #[trigger]
        more.contains(w) && writes(w, f, r.fields[f].value) && key_of(w) == key && w.timestamp
            == r.fields[f].timestamp by {
        let w = choose|w: CRDTOperationView| #[trigger]
            done.contains(w) && writes(w, f, r.fields[f].value) && key_of(w) == key && w.timestamp
                == r.fields[f].timestamp;
        assert(more.contains(w));
    }
}

/// Two records that fit the same operations are equal, where no two of the
/// operations write different values to one field under one timestamp.
pub proof fn lemma_record_unique(
    r1: RecordView,
    r2: RecordView,
    log: Log,
    done: Set<CRDTOperationView>,
    key: RecordKeyView,
)
    requires
        record_fits(r1, done, key),
        record_fits(r2, done, key),
        done.subset_of(log.ops),
        log.decided(),
    ensures
        r1 == r2,
{
    if r1.tombstone.is_some() {
        let d = choose|d: CRDTOperationView| #[trigger]
            done.contains(d) && is_delete(d) && key_of(d) == key && d.timestamp == r1.tombstone.unwrap();
        assert(r2.tombstone.is_some());
    }
    if r2.tombstone.is_some() {
        let d = choose|d: CRDTOperationView| #[trigger]
            done.contains(d) && is_delete(d) && key_of(d) == key && d.timestamp == r2.tombstone.unwrap();
        assert(r1.tombstone.is_some());
    }
    assert(r1.tombstone == r2.tombstone);
    if r1.created.is_some() {
        let c = choose|c: CRDTOperationView| #[trigger]
            done.contains(c) && is_create(c) && key_of(c) == key && c.timestamp == r1.created.unwrap();
        assert(r2.created.is_some());
    }
    if r2.created.is_some() {
        let c = choose|c: CRDTOperationView| #[trigger]
            done.contains(c) && is_create(c) && key_of(c) == key && c.timestamp == r2.created.unwrap();
        assert(r1.created.is_some());
    }
    assert(r1.created == r2.created);
    assert forall|f: Seq<char>| r1.fields.contains_key(f) <==> r2.fields.contains_key(f) by {
        if r1.fields.contains_key(f) {
            let w = choose|w: CRDTOperationView| #[trigger]
                done.contains(w) && writes(w, f, r1.fields[f].value) && key_of(w) == key && w.timestamp
                    == r1.fields[f].timestamp;
            assert(writes(w, f, r1.fields[f].value));
        }
        if r2.fields.contains_key(f) {
            let w = choose|w: CRDTOperationView| #[trigger]
                done.contains(w) && writes(w, f, r2.fields[f].value) && key_of(w) == key && w.timestamp
                    == r2.fields[f].timestamp;
            assert(writes(w, f, r2.fields[f].value));
        }
    }
    assert forall|f: Seq<char>| r1.fields.contains_key(f) implies r1.fields[f] == r2.fields[f] by {
        let w1 = choose|w: CRDTOperationView| #[trigger]
            done.contains(w) && writes(w, f, r1.fields[f].value) && key_of(w) == key && w.timestamp
                == r1.fields[f].timestamp;
        let w2 = choose|w: CRDTOperationView| #[trigger]
            done.contains(w) && writes(w, f, r2.fields[f].value) && key_of(w) == key && w.timestamp
                == r2.fields[f].timestamp;
        assert(writes(w1, f, r1.fields[f].value));
        assert(writes(w2, f, r2.fields[f].value));
        assert(log.ops.contains(w1) && log.ops.contains(w2));
        assert(r1.fields[f].timestamp == r2.fields[f].timestamp);
        assert(log.same_value(w1, w2, f, r1.fields[f].value, r2.fields[f].value));
    }
    assert(r1.fields =~= r2.fields);
}

/// The operations that were handed to a replica, and its schema.
pub struct Log {
    pub schema: SchemaView,
    pub ops: Set<CRDTOperationView>,
}

impl Log {
    /// Whether the operation is in the log, merged, and known to the schema.
    pub open spec fn admits(self, op: CRDTOperationView) -> bool {
        &&& self.ops.contains(op)
        &&& match op.typ {
            CRDTOperationTypeView::Shared(s) => self.schema.contains_key(s.model) && self.schema[s.model] is Shared,
            CRDTOperationTypeView::Relation(r) => self.schema.contains_key(r.relation)
                && self.schema[r.relation] is Relation,
            CRDTOperationTypeView::Owned(_) => false,
        }
    }

    /// Whether the log holds the creation of a shared record.
    pub open spec fn has_row(self, model: Seq<char>, id: SyncIdView) -> bool {
        exists|c: CRDTOperationView| #[trigger]
            self.admits(c) && c.typ is Shared && is_create(c) && key_of(c) == (RecordKeyView::Row { model, id })
    }

    /// Whether the log holds the creation of both ends of the edge that an
    /// operation on a relation is on.
    pub open spec fn has_ends(self, op: CRDTOperationView) -> bool {
        match op.typ {
            CRDTOperationTypeView::Relation(r) => match self.schema[r.relation] {
                ModelKindView::Relation { item, group } => self.has_row(item, r.relation_item) && self.has_row(
                    group,
                    r.relation_group,
                ),
                _ => false,
            },
            _ => false,
        }
    }

    /// Whether the log holds the creation of an edge and of both its ends.
    pub open spec fn has_edge(self, key: RecordKeyView) -> bool {
        exists|c: CRDTOperationView| #[trigger]
            self.admits(c) && c.typ is Relation && is_create(c) && key_of(c) == key && self.has_ends(c)
    }

    /// Whether the log holds the creation of every record that the operation
    /// needs.
    pub open spec fn ready(self, op: CRDTOperationView) -> bool {
        match op.typ {
            CRDTOperationTypeView::Shared(s) => is_create(op) || self.has_row(s.model, s.record_id),
            CRDTOperationTypeView::Relation(r) => self.has_ends(op) && (is_create(op) || self.has_edge(key_of(op))),
            CRDTOperationTypeView::Owned(_) => false,
        }
    }

    pub open spec fn applied(self, op: CRDTOperationView) -> bool {
        self.admits(op) && self.ready(op)
    }

    /// No two operations of the log have the same node and timestamp.
    pub open spec fn distinct(self) -> bool {
        forall|a: CRDTOperationView, b: CRDTOperationView|
            #![trigger self.ops.contains(a), self.ops.contains(b)]
            self.ops.contains(a) && self.ops.contains(b) && a.id() == b.id() ==> a == b
    }

    pub open spec fn same_value(
        self,
        a: CRDTOperationView,
        b: CRDTOperationView,
        field: Seq<char>,
        va: Seq<u8>,
        vb: Seq<u8>,
    ) -> bool {
        self.ops.contains(a) && self.ops.contains(b) && writes(a, field, va) && writes(b, field, vb) && key_of(a)
            == key_of(b) && a.timestamp == b.timestamp ==> va == vb
    }

    /// No two operations of the log write different values to one field of
    /// one record under one timestamp.
    pub open spec fn decided(self) -> bool {
        forall|a: CRDTOperationView, b: CRDTOperationView, field: Seq<char>, va: Seq<u8>, vb: Seq<u8>| #[trigger]
            self.same_value(a, b, field, va, vb)
    }
}

/// Whether what the state holds, apart from the waiting operations, is what
/// the operations of `done` make of a replica without records.
pub open spec fn core_fits(s: ReplicaView, log: Log, done: Set<CRDTOperationView>) -> bool {
    &&& s.schema == log.schema
    &&& forall|op: CRDTOperationView| #[trigger] done.contains(op) ==> log.admits(op) && s.ready(op)
    &&& forall|id: OpId| #[trigger]
        s.seen.contains(id) <==> exists|op: CRDTOperationView| #[trigger] done.contains(op) && op.id() == id
    &&& forall|k: RecordKeyView| #[trigger]
        s.records.contains_key(k) <==> exists|c: CRDTOperationView| #[trigger]
            done.contains(c) && is_create(c) && key_of(c) == k
    &&& forall|k: RecordKeyView| #[trigger] s.records.contains_key(k) ==> record_fits(s.records[k], done, k)
}

/// Whether the waiting operations are those of the log that are not done.
pub open spec fn queue_fits(s: ReplicaView, log: Log, done: Set<CRDTOperationView>) -> bool {
    &&& s.pending.dom().finite()
    &&& forall|id: OpId| #[trigger]
        s.pending.contains_key(id) ==> log.admits(s.pending[id]) && s.pending[id].id() == id && !done.contains(
            s.pending[id],
        )
    &&& forall|op: CRDTOperationView| #[trigger]
        log.admits(op) && !done.contains(op) ==> s.pending.contains_key(op.id()) && s.pending[op.id()] == op
}

/// No waiting operation is ready.
pub open spec fn quiet(s: ReplicaView) -> bool {
    forall|id: OpId| #[trigger] s.pending.contains_key(id) ==> !s.ready(s.pending[id])
}

/// A merged operation that is ready stays ready when records are added.
pub proof fn lemma_ready_grows(s1: ReplicaView, s2: ReplicaView, op: CRDTOperationView)
    requires
        s1.schema == s2.schema,
        s1.records.dom().subset_of(s2.records.dom()),
        merged(op),
        s1.ready(op),
    ensures
        s2.ready(op),
{
    match op.typ {
        CRDTOperationTypeView::Shared(s) => {
            if !(s.data is Create) {
                assert(s1.records.dom().contains(key_of(op)));
            }
        },
        CRDTOperationTypeView::Relation(r) => {
            match s1.schema[r.relation] {
                ModelKindView::Relation { item, group } => {
                    assert(s1.records.dom().contains(RecordKeyView::Row { model: item, id: r.relation_item }));
                    assert(s1.records.dom().contains(RecordKeyView::Row { model: group, id: r.relation_group }));
                    if !(r.data is Create) {
                        assert(s1.records.dom().contains(key_of(op)));
                    }
                },
                _ => {},
            }
        },
        CRDTOperationTypeView::Owned(_) => {},
    }
}

/// What a merged operation that is ready does to the state.
pub proof fn lemma_effect_merged(s: ReplicaView, op: CRDTOperationView)
    requires
        merged(op),
    ensures
        s.effect(op) == (ReplicaView {
            seen: s.seen.insert(op.id()),
            records: s.records.insert(
                key_of(op),
                s.record_or_fresh(key_of(op)).changed(change_of(op), op.timestamp),
            ),
            ..s
        }),
{
}

/// An operation on a key that the state has no record of, which is ready:
/// then it is a creation.
proof fn lemma_absent_key(s: ReplicaView, op: CRDTOperationView)
    requires
        merged(op),
        s.ready(op),
        !s.records.contains_key(key_of(op)),
    ensures
        is_create(op),
{
}

/// The state after one more operation of the log, which is ready, has done
/// its work.
pub proof fn lemma_effect_fits(s: ReplicaView, log: Log, done: Set<CRDTOperationView>, op: CRDTOperationView)
    requires
        core_fits(s, log, done),
        log.admits(op),
        s.ready(op),
    ensures
        core_fits(s.effect(op), log, done.insert(op)),
        s.effect(op).pending == s.pending,
        s.effect(op).capacity == s.capacity,
{
    let after = s.effect(op);
    let more = done.insert(op);
    let key = key_of(op);
    lemma_effect_merged(s, op);
    assert(s.records.dom().subset_of(after.records.dom()));
    assert forall|x: CRDTOperationView| #[trigger] more.contains(x) implies log.admits(x) && after.ready(x) by {
        lemma_ready_grows(s, after, x);
    }
    assert forall|id: OpId| #[trigger]
        after.seen.contains(id) <==> exists|x: CRDTOperationView| #[trigger] more.contains(x) && x.id() == id by {
        if s.seen.contains(id) {
            let x = choose|x: CRDTOperationView| #[trigger] done.contains(x) && x.id() == id;
            assert(more.contains(x));
        }
        if id == op.id() {
            assert(more.contains(op));
        }
        if exists|x: CRDTOperationView| #[trigger] more.contains(x) && x.id() == id {
            let x = choose|x: CRDTOperationView| #[trigger] more.contains(x) && x.id() == id;
            if x != op {
                assert(done.contains(x));
            }
        }
    }
    assert forall|k: RecordKeyView| #[trigger]
        after.records.contains_key(k) <==> exists|c: CRDTOperationView| #[trigger]
            more.contains(c) && is_create(c) && key_of(c) == k by {
        if s.records.contains_key(k) {
            let c = choose|c: CRDTOperationView| #[trigger] done.contains(c) && is_create(c) && key_of(c) == k;
            assert(more.contains(c));
        } else if k == key {
            lemma_absent_key(s, op);
            assert(more.contains(op));
        }
        if exists|c: CRDTOperationView| #[trigger] more.contains(c) && is_create(c) && key_of(c) == k {
            let c = choose|c: CRDTOperationView| #[trigger] more.contains(c) && is_create(c) && key_of(c) == k;
            if c != op {
                assert(done.contains(c));
            }
        }
    }
    assert forall|k: RecordKeyView| #[trigger] after.records.contains_key(k) implies record_fits(
        after.records[k],
        more,
        k,
    ) by {
        if k == key {
            if !s.records.contains_key(k) {
                assert forall|x: CRDTOperationView| #[trigger] done.contains(x) implies key_of(x) != k by {
                    if key_of(x) == k {
                        if is_create(x) {
                        } else {
                            assert(s.ready(x));
                            lemma_absent_key(s, x);
                        }
                    }
                }
                assert(record_fits(RecordView::fresh(), done, k));
            }
            lemma_record_step(s.record_or_fresh(k), done, k, op);
        } else {
            lemma_record_more(s.records[k], done, k, op);
        }
    }
}

/// The state after the waiting operations that are ready have done their
/// work, and the operations that are done by then.
pub proof fn lemma_drain_fits(s: ReplicaView, log: Log, done: Set<CRDTOperationView>) -> (all: Set<CRDTOperationView>)
    requires
        core_fits(s, log, done),
        queue_fits(s, log, done),
    ensures
        core_fits(s.drain(), log, all),
        queue_fits(s.drain(), log, all),
        quiet(s.drain()),
        s.drain().capacity == s.capacity,
    decreases s.pending.dom().len(),
{
    if exists|id: OpId| ReplicaView::is_oldest(s.ripe(), id) {
        let id = ReplicaView::oldest(s.ripe());
        let op = s.pending[id];
        let left = ReplicaView { pending: s.pending.remove(id), ..s };
        assert(s.ripe().contains(id));
        assert(core_fits(left, log, done)) by {
            assert forall|x: CRDTOperationView| #[trigger] done.contains(x) implies left.ready(x) by {
                lemma_ready_grows(s, left, x);
            }
        }
        lemma_ready_grows(s, left, op);
        lemma_effect_fits(left, log, done, op);
        let next = left.effect(op);
        let more = done.insert(op);
        assert(next.pending.dom() =~= s.pending.dom().remove(id));
        assert(queue_fits(next, log, more));
        lemma_drain_fits(next, log, more)
    } else {
        assert(quiet(s)) by {
            if exists|id: OpId| s.pending.contains_key(id) && s.ready(s.pending[id]) {
                let id = choose|id: OpId| s.pending.contains_key(id) && s.ready(s.pending[id]);
                assert(s.ripe().contains(id));
                assert(s.ripe().subset_of(s.pending.dom()));
                vstd::set_lib::lemma_len_subset(s.ripe(), s.pending.dom());
                if s.ripe().len() == 0 {
                    assert(s.ripe() =~= Set::empty());
                }
                lemma_oldest_exists(s.ripe());
            }
        }
        done
    }
}

/// In a state that fits and where no waiting operation is ready, the record
/// of a key is there where the log holds what creates it.
proof fn lemma_created(s: ReplicaView, log: Log, done: Set<CRDTOperationView>)
    requires
        core_fits(s, log, done),
        queue_fits(s, log, done),
        quiet(s),
    ensures
        forall|model: Seq<char>, id: SyncIdView| #[trigger] log.has_row(model, id) ==> s.has_row(model, id),
        forall|op: CRDTOperationView| #[trigger] log.has_ends(op) ==> s.schema.contains_key(op.typ->Relation_0.relation) ==> {
            &&& op.typ is Relation
            &&& s.schema[op.typ->Relation_0.relation] matches ModelKindView::Relation { item, group }
            &&& s.has_row(item, op.typ->Relation_0.relation_item)
            &&& s.has_row(group, op.typ->Relation_0.relation_group)
        },
        forall|key: RecordKeyView| #[trigger] log.has_edge(key) ==> s.records.contains_key(key),
{
    assert forall|model: Seq<char>, id: SyncIdView| #[trigger] log.has_row(model, id) implies s.has_row(
        model,
        id,
    ) by {
        let c = choose|c: CRDTOperationView| #[trigger]
            log.admits(c) && c.typ is Shared && is_create(c) && key_of(c) == (RecordKeyView::Row { model, id });
        if !done.contains(c) {
            assert(s.pending.contains_key(c.id()));
            assert(s.ready(c));
        }
        assert(s.records.contains_key(key_of(c)));
    }
    assert forall|key: RecordKeyView| #[trigger] log.has_edge(key) implies s.records.contains_key(key) by {
        let c = choose|c: CRDTOperationView| #[trigger]
            log.admits(c) && c.typ is Relation && is_create(c) && key_of(c) == key && log.has_ends(c);
        if !done.contains(c) {
            assert(s.pending.contains_key(c.id()));
            assert(s.ready(c));
        }
        assert(s.records.contains_key(key_of(c)));
    }
}

/// In a state that fits and where no waiting operation is ready, the
/// operations that are done are those of the log that are ready by the log.
pub proof fn lemma_applied_all(s: ReplicaView, log: Log, done: Set<CRDTOperationView>)
    requires
        core_fits(s, log, done),
        queue_fits(s, log, done),
        quiet(s),
    ensures
        forall|op: CRDTOperationView| done.contains(op) <==> log.applied(op),
{
    lemma_created(s, log, done);
    assert forall|op: CRDTOperationView| done.contains(op) implies log.applied(op) by {
        lemma_state_ready(s, log, done, op);
    }
    assert forall|op: CRDTOperationView| log.applied(op) implies done.contains(op) by {
        if !done.contains(op) {
            assert(s.pending.contains_key(op.id()));
            assert(!s.ready(op));
            match op.typ {
                CRDTOperationTypeView::Shared(x) => {
                    assert(s.has_row(x.model, x.record_id));
                },
                CRDTOperationTypeView::Relation(r) => {
                    assert(log.has_ends(op));
                    if !is_create(op) {
                        assert(s.records.contains_key(key_of(op)));
                    }
                },
                CRDTOperationTypeView::Owned(_) => {},
            }
        }
    }
}

/// An operation that is ready in a state that fits is ready by the log.
proof fn lemma_state_ready(s: ReplicaView, log: Log, done: Set<CRDTOperationView>, op: CRDTOperationView)
    requires
        core_fits(s, log, done),
        log.admits(op),
        s.ready(op),
    ensures
        log.ready(op),
{
    match op.typ {
        CRDTOperationTypeView::Shared(x) => {
            if !is_create(op) {
                lemma_row_logged(s, log, done, x.model, x.record_id);
            }
        },
        CRDTOperationTypeView::Relation(r) => {
            lemma_ends_logged(s, log, done, op);
            if !is_create(op) {
                let c = choose|c: CRDTOperationView| #[trigger]
                    done.contains(c) && is_create(c) && key_of(c) == key_of(op);
                lemma_ends_logged(s, log, done, c);
                assert(log.admits(c));
            }
        },
        CRDTOperationTypeView::Owned(_) => {},
    }
}

proof fn lemma_row_logged(s: ReplicaView, log: Log, done: Set<CRDTOperationView>, model: Seq<char>, id: SyncIdView)
    requires
        core_fits(s, log, done),
        s.has_row(model, id),
    ensures
        log.has_row(model, id),
{
    let c = choose|c: CRDTOperationView| #[trigger]
        done.contains(c) && is_create(c) && key_of(c) == (RecordKeyView::Row { model, id });
    assert(log.admits(c));
}

proof fn lemma_ends_logged(s: ReplicaView, log: Log, done: Set<CRDTOperationView>, op: CRDTOperationView)
    requires
        core_fits(s, log, done),
        op.typ is Relation,
        s.ready(op),
    ensures
        log.has_ends(op),
{
    let r = op.typ->Relation_0;
    match s.schema[r.relation] {
        ModelKindView::Relation { item, group } => {
            lemma_row_logged(s, log, done, item, r.relation_item);
            lemma_row_logged(s, log, done, group, r.relation_group);
        },
        _ => {},
    }
}

/// Two states that fit one log, in neither of which a waiting operation is
/// ready, are equal.
pub proof fn lemma_fits_unique(
    s1: ReplicaView,
    done1: Set<CRDTOperationView>,
    s2: ReplicaView,
    done2: Set<CRDTOperationView>,
    log: Log,
)
    requires
        core_fits(s1, log, done1),
        queue_fits(s1, log, done1),
        quiet(s1),
        core_fits(s2, log, done2),
        queue_fits(s2, log, done2),
        quiet(s2),
        s1.capacity == s2.capacity,
        log.decided(),
    ensures
        s1 == s2,
{
    lemma_applied_all(s1, log, done1);
    lemma_applied_all(s2, log, done2);
    assert(done1 =~= done2);
    assert(s1.seen =~= s2.seen);
    assert forall|k: RecordKeyView| s1.records.contains_key(k) <==> s2.records.contains_key(k) by {
        if s1.records.contains_key(k) {
            let c = choose|c: CRDTOperationView| #[trigger] done1.contains(c) && is_create(c) && key_of(c) == k;
            assert(done2.contains(c));
        }
        if s2.records.contains_key(k) {
            let c = choose|c: CRDTOperationView| #[trigger] done2.contains(c) && is_create(c) && key_of(c) == k;
            assert(done1.contains(c));
        }
    }
    assert forall|k: RecordKeyView| s1.records.contains_key(k) implies s1.records[k] == s2.records[k] by {
        assert(s2.records.contains_key(k));
        assert(done1.subset_of(log.ops)) by {
            assert forall|x: CRDTOperationView| done1.contains(x) implies log.ops.contains(x) by {
                assert(log.admits(x));
            }
        }
        lemma_record_unique(s1.records[k], s2.records[k], log, done1, k);
    }
    assert(s1.records =~= s2.records);
    assert forall|id: OpId| s1.pending.contains_key(id) <==> s2.pending.contains_key(id) by {
        if s1.pending.contains_key(id) {
            assert(s2.pending.contains_key(s1.pending[id].id()));
        }
        if s2.pending.contains_key(id) {
            assert(s1.pending.contains_key(s2.pending[id].id()));
        }
    }
    assert forall|id: OpId| s1.pending.contains_key(id) implies s1.pending[id] == s2.pending[id] by {
        assert(s2.pending[s1.pending[id].id()] == s1.pending[id]);
    }
    assert(s1.pending =~= s2.pending);
}

/// The state that a replica without records reaches by merged operations,
/// none of which was given up, fits the set of those operations.
pub proof fn lemma_run_fits(schema: SchemaView, capacity: nat, ops: Seq<CRDTOperationView>) -> (done: Set<
    CRDTOperationView,
>)
    requires
        forall|i: int| 0 <= i < ops.len() ==> merged(#[trigger] ops[i]),
        (Log { schema, ops: ops.to_set() }).distinct(),
        calm(fresh(schema, capacity), ops),
    ensures
        core_fits(apply_all(fresh(schema, capacity), ops), Log { schema, ops: ops.to_set() }, done),
        queue_fits(apply_all(fresh(schema, capacity), ops), Log { schema, ops: ops.to_set() }, done),
        quiet(apply_all(fresh(schema, capacity), ops)),
        apply_all(fresh(schema, capacity), ops).capacity == capacity,
    decreases ops.len(),
{
    let log = Log { schema, ops: ops.to_set() };
    if ops.len() == 0 {
        let done = Set::<CRDTOperationView>::empty();
        assert(ops.to_set() =~= Set::empty());
        let s = fresh(schema, capacity);
        assert(core_fits(s, log, done));
        assert(queue_fits(s, log, done));
        done
    } else {
        let before = ops.drop_last();
        let op = ops.last();
        let old_log = Log { schema, ops: before.to_set() };
        assert(ops.to_set() =~= before.to_set().insert(op)) by {
            assert forall|x: CRDTOperationView| ops.to_set().contains(x) <==> before.to_set().insert(op).contains(
                x,
            ) by {
                if ops.contains(x) {
                    let i = choose|i: int| 0 <= i < ops.len() && ops[i] == x;
                    if i < ops.len() - 1 {
                        assert(before[i] == x);
                    }
                }
                if before.contains(x) {
                    let i = choose|i: int| 0 <= i < before.len() && before[i] == x;
                    assert(ops[i] == x);
                }
                if x == op {
                    assert(ops[ops.len() - 1] == x);
                }
            }
        }
        assert(old_log.distinct()) by {
            assert forall|a: CRDTOperationView, b: CRDTOperationView|
                #![trigger old_log.ops.contains(a), old_log.ops.contains(b)]
                old_log.ops.contains(a) && old_log.ops.contains(b) && a.id() == b.id() implies a == b by {
                assert(log.ops.contains(a) && log.ops.contains(b));
            }
        }
        assert forall|i: int| 0 <= i < before.len() implies merged(#[trigger] before[i]) by {
            assert(before[i] == ops[i]);
        }
        let done = lemma_run_fits(schema, capacity, before);
        let s = apply_all(fresh(schema, capacity), before);
        assert(merged(ops[ops.len() - 1]));
        lemma_step_fits(s, old_log, log, done, op)
    }
}

/// The state after one more operation was handed to a replica whose state
/// fits the log so far.
proof fn lemma_step_fits(
    s: ReplicaView,
    old_log: Log,
    log: Log,
    done: Set<CRDTOperationView>,
    op: CRDTOperationView,
) -> (all: Set<CRDTOperationView>)
    requires
        core_fits(s, old_log, done),
        queue_fits(s, old_log, done),
        quiet(s),
        log.schema == old_log.schema,
        log.ops == old_log.ops.insert(op),
        log.distinct(),
        merged(op),
        !(s.outcome(op) is Overflow),
    ensures
        core_fits(s.apply(op), log, all),
        queue_fits(s.apply(op), log, all),
        quiet(s.apply(op)),
        s.apply(op).capacity == s.capacity,
{
    let after = s.apply(op);
    assert(s.accepts(op) && log.ops.contains(op) <==> log.admits(op));
    assert forall|x: CRDTOperationView| old_log.admits(x) implies #[trigger] log.admits(x) by {}
    assert forall|x: CRDTOperationView| #[trigger] log.admits(x) && x != op implies old_log.admits(x) by {}
    if !s.accepts(op) {
        assert(core_fits(s, log, done));
        assert(queue_fits(s, log, done));
        done
    } else if s.known(op.id()) {
        // the operation is in the log already
        if s.seen.contains(op.id()) {
            let x = choose|x: CRDTOperationView| #[trigger] done.contains(x) && x.id() == op.id();
            assert(old_log.admits(x));
            assert(log.ops.contains(x) && log.ops.contains(op));
            assert(x == op);
        } else {
            let x = s.pending[op.id()];
            assert(old_log.admits(x));
            assert(log.ops.contains(x) && log.ops.contains(op));
            assert(x == op);
        }
        assert(log.ops =~= old_log.ops);
        done
    } else {
        assert(!done.contains(op)) by {
            if done.contains(op) {
                assert(s.seen.contains(op.id()));
            }
        }
        assert(!old_log.admits(op)) by {
            if old_log.admits(op) {
                assert(s.pending.contains_key(op.id()));
            }
        }
        assert(core_fits(s, log, done));
        if s.ready(op) {
            lemma_effect_fits(s, log, done, op);
            let next = s.effect(op);
            let more = done.insert(op);
            assert(queue_fits(next, log, more));
            lemma_drain_fits(next, log, more)
        } else {
            let waiting = s.pending.insert(op.id(), op);
            assert(after.pending == waiting);
            assert(waiting.dom() =~= s.pending.dom().insert(op.id()));
            assert(queue_fits(after, log, done));
            assert(core_fits(after, log, done)) by {
                assert forall|x: CRDTOperationView| #[trigger] done.contains(x) implies after.ready(x) by {
                    lemma_ready_grows(s, after, x);
                }
            }
            assert(quiet(after)) by {
                assert forall|id: OpId| #[trigger] after.pending.contains_key(id) implies !after.ready(
                    after.pending[id],
                ) by {
                    crate::merge::laws::lemma_ready_same(s, after, after.pending[id]);
                }
            }
            done
        }
    }
}

/// Two replicas without records that were handed the same merged
/// operations, in whatever order and however often each, hold the same
/// state: the same records with the same values, the same operations
/// applied, the same operations waiting.
///
/// This is stated of operations on shared records and on relations, no two
/// of which carry the same node and timestamp or write different values to
/// one field under one timestamp, and of replicas that gave up no waiting
/// operation.
pub proof fn lemma_convergence(
    schema: SchemaView,
    capacity: nat,
    first: Seq<CRDTOperationView>,
    second: Seq<CRDTOperationView>,
)
    requires
        first.to_set() == second.to_set(),
        forall|i: int| 0 <= i < first.len() ==> merged(#[trigger] first[i]),
        (Log { schema, ops: first.to_set() }).distinct(),
        (Log { schema, ops: first.to_set() }).decided(),
        calm(fresh(schema, capacity), first),
        calm(fresh(schema, capacity), second),
    ensures
        apply_all(fresh(schema, capacity), first) == apply_all(fresh(schema, capacity), second),
{
    let log = Log { schema, ops: first.to_set() };
    assert forall|i: int| 0 <= i < second.len() implies merged(#[trigger] second[i]) by {
        assert(second.to_set().contains(second[i]));
        assert(first.contains(second[i]));
        let j = choose|j: int| 0 <= j < first.len() && first[j] == second[i];
        assert(merged(first[j]));
    }
    let done1 = lemma_run_fits(schema, capacity, first);
    let done2 = lemma_run_fits(schema, capacity, second);
    lemma_fits_unique(
        apply_all(fresh(schema, capacity), first),
        done1,
        apply_all(fresh(schema, capacity), second),
        done2,
        log,
    );
}

/// A replica without records that may hold as many waiting operations as
/// it is handed different operations gives up none.
pub proof fn lemma_calm_within(schema: SchemaView, capacity: nat, ops: Seq<CRDTOperationView>)
    requires
        forall|i: int| 0 <= i < ops.len() ==> merged(#[trigger] ops[i]),
        (Log { schema, ops: ops.to_set() }).distinct(),
        ops.to_set().len() <= capacity,
    ensures
        calm(fresh(schema, capacity), ops),
    decreases ops.len(),
{
    broadcast use vstd::seq_lib::seq_to_set_is_finite;

    if ops.len() > 0 {
        let before = ops.drop_last();
        let op = ops.last();
        let log = Log { schema, ops: ops.to_set() };
        let old_log = Log { schema, ops: before.to_set() };
        assert(before.to_set().subset_of(ops.to_set())) by {
            assert forall|x: CRDTOperationView| before.to_set().contains(x) implies ops.to_set().contains(x) by {
                let i = choose|i: int| 0 <= i < before.len() && before[i] == x;
                assert(ops[i] == x);
            }
        }
        vstd::set_lib::lemma_len_subset(before.to_set(), ops.to_set());
        assert(old_log.distinct()) by {
            assert forall|a: CRDTOperationView, b: CRDTOperationView|
                #![trigger old_log.ops.contains(a), old_log.ops.contains(b)]
                old_log.ops.contains(a) && old_log.ops.contains(b) && a.id() == b.id() implies a == b by {
                assert(log.ops.contains(a) && log.ops.contains(b));
            }
        }
        assert forall|i: int| 0 <= i < before.len() implies merged(#[trigger] before[i]) by {
            assert(before[i] == ops[i]);
        }
        lemma_calm_within(schema, capacity, before);
        let done = lemma_run_fits(schema, capacity, before);
        let s = apply_all(fresh(schema, capacity), before);
        if s.accepts(op) && !s.known(op.id()) && !s.ready(op) {
            let waiting = Set::new(|x: CRDTOperationView| old_log.admits(x) && !done.contains(x)).insert(op);
            let id_of = |x: CRDTOperationView| x.id();
            let ids = s.pending.insert(op.id(), op).dom();
            assert(ops.to_set().contains(op)) by {
                assert(ops[ops.len() - 1] == op);
            }
            assert(waiting.subset_of(ops.to_set()));
            vstd::set_lib::lemma_len_subset(waiting, ops.to_set());
            assert(waiting.map(id_of) =~= ids) by {
                assert forall|id: OpId| ids.contains(id) implies waiting.map(id_of).contains(id) by {
                    if id == op.id() {
                        assert(waiting.contains(op) && id_of(op) == id);
                    } else {
                        assert(s.pending.contains_key(id));
                        assert(waiting.contains(s.pending[id]) && id_of(s.pending[id]) == id);
                    }
                }
                assert forall|id: OpId| waiting.map(id_of).contains(id) implies ids.contains(id) by {
                    let x = choose|x: CRDTOperationView| waiting.contains(x) && id_of(x) == id;
                    if x != op {
                        assert(s.pending.contains_key(x.id()));
                    }
                }
            }
            vstd::set_lib::lemma_map_size_bound(waiting, ids, id_of);
        }
    }
}

/// Two replicas without records that were handed the same merged operations
/// hold the same state, where each may hold as many waiting operations as
/// there are different operations.
pub proof fn lemma_convergence_within_capacity(
    schema: SchemaView,
    capacity: nat,
    first: Seq<CRDTOperationView>,
    second: Seq<CRDTOperationView>,
)
    requires
        first.to_set() == second.to_set(),
        forall|i: int| 0 <= i < first.len() ==> merged(#[trigger] first[i]),
        (Log { schema, ops: first.to_set() }).distinct(),
        (Log { schema, ops: first.to_set() }).decided(),
        first.to_set().len() <= capacity,
    ensures
        apply_all(fresh(schema, capacity), first) == apply_all(fresh(schema, capacity), second),
{
    assert forall|i: int| 0 <= i < second.len() implies merged(#[trigger] second[i]) by {
        assert(second.to_set().contains(second[i]));
        assert(first.contains(second[i]));
        let j = choose|j: int| 0 <= j < first.len() && first[j] == second[i];
        assert(merged(first[j]));
    }
    lemma_calm_within(schema, capacity, first);
    lemma_calm_within(schema, capacity, second);
    lemma_convergence(schema, capacity, first, second);
}

/// The latest write wins, in whatever order and however often the
/// operations arrive: after a replica without records was handed merged
/// operations, none of which was given up, a field holds the value of the
/// write `latest` under its timestamp, where the records that `latest` needs
/// are there in the end, every other write to the field is older, and no
/// deletion of the record is later.
pub proof fn lemma_latest_write_wins(
    schema: SchemaView,
    capacity: nat,
    ops: Seq<CRDTOperationView>,
    latest: CRDTOperationView,
    field: Seq<char>,
    value: Seq<u8>,
)
    requires
        forall|i: int| 0 <= i < ops.len() ==> merged(#[trigger] ops[i]),
        (Log { schema, ops: ops.to_set() }).distinct(),
        calm(fresh(schema, capacity), ops),
        ops.contains(latest),
        writes(latest, field, value),
        apply_all(fresh(schema, capacity), ops).accepts(latest),
        apply_all(fresh(schema, capacity), ops).ready(latest),
        forall|w: CRDTOperationView, v: Seq<u8>|
            ops.contains(w) && #[trigger] writes(w, field, v) && key_of(w) == key_of(latest) && w != latest
                ==> w.timestamp < latest.timestamp,
        forall|d: CRDTOperationView|
            ops.contains(d) && #[trigger] is_delete(d) && key_of(d) == key_of(latest) ==> d.timestamp
                <= latest.timestamp,
    ensures
        ({
            let s = apply_all(fresh(schema, capacity), ops);
            &&& s.records.contains_key(key_of(latest))
            &&& s.records[key_of(latest)].fields.contains_key(field)
            &&& s.records[key_of(latest)].fields[field] == (CellView { timestamp: latest.timestamp, value })
        }),
{
    let s = apply_all(fresh(schema, capacity), ops);
    let log = Log { schema, ops: ops.to_set() };
    let key = key_of(latest);
    let done = lemma_run_fits(schema, capacity, ops);
    let i = choose|i: int| 0 <= i < ops.len() && ops[i] == latest;
    assert(merged(ops[i]));
    assert(log.admits(latest));
    if !done.contains(latest) {
        assert(s.pending.contains_key(latest.id()) && s.pending[latest.id()] == latest);
    }
    assert(done.contains(latest));
    assert(s.records.contains_key(key));
    let r = s.records[key];
    assert(record_fits(r, done, key));
    if r.tombstone.is_some() {
        let d = choose|d: CRDTOperationView| #[trigger]
            done.contains(d) && is_delete(d) && key_of(d) == key && d.timestamp == r.tombstone.unwrap();
        assert(log.admits(d));
        assert(ops.contains(d));
    }
    assert(!r.stale(latest.timestamp));
    assert(r.fields.contains_key(field) && latest.timestamp <= r.fields[field].timestamp);
    let w = choose|w: CRDTOperationView| #[trigger]
        done.contains(w) && writes(w, field, r.fields[field].value) && key_of(w) == key && w.timestamp
            == r.fields[field].timestamp;
    assert(log.admits(w));
    assert(ops.contains(w));
    assert(w == latest);
}

} // verus!
