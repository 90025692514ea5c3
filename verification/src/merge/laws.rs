//! What holds of applying operations, whatever the state and the operations.

use vstd::prelude::*;
use crate::merge::key::id_le;
use crate::merge::key::lemma_id_le_antisymmetric;
use crate::merge::key::lemma_id_le_total;
use crate::merge::key::lemma_id_le_transitive;
use crate::merge::key::RecordKeyView;
use crate::merge::record::RecordView;
use crate::merge::replica::ChangeView;
use crate::merge::schema::ModelKindView;
use crate::merge::record::CellView;
use crate::merge::state::apply_all;
use crate::merge::state::calm;
use crate::merge::state::change_of;
use crate::merge::state::is_create;
use crate::merge::state::key_of;
use crate::merge::state::made_before;
use crate::merge::state::merged;
use crate::merge::state::owned_target;
use crate::merge::state::OpId;
use crate::merge::state::ReplicaView;
use crate::relation::RelationOperationDataView;
use crate::shared::SharedOperationDataView;
use crate::CRDTOperationTypeView;
use crate::CRDTOperationView;
use crate::Timestamp;

verus! {

/// Letting the waiting operations do their work leaves the schema and the
/// capacity as they were, forgets no operation that was applied, and makes no
/// operation wait that did not.
pub proof fn lemma_drain_grows(s: ReplicaView)
    requires
        s.pending.dom().finite(),
    ensures
        s.drain().schema == s.schema,
        s.drain().capacity == s.capacity,
        s.seen.subset_of(s.drain().seen),
        s.drain().pending.dom().subset_of(s.pending.dom()),
        s.drain().pending.dom().finite(),
    decreases s.pending.dom().len(),
{
    if exists|id: OpId| ReplicaView::is_oldest(s.ripe(), id) {
        let id = ReplicaView::oldest(s.ripe());
        let next = ReplicaView { pending: s.pending.remove(id), ..s }.effect(s.pending[id]);
        assert(s.pending.dom().contains(id));
        assert(next.pending.dom() =~= s.pending.dom().remove(id));
        lemma_drain_grows(next);
    }
}

/// After the waiting operations have done their work, none that is left is
/// ready.
pub proof fn lemma_drain_settles(s: ReplicaView)
    requires
        s.tidy(),
    ensures
        s.drain().inv(),
    decreases s.pending.dom().len(),
{
    if exists|id: OpId| ReplicaView::is_oldest(s.ripe(), id) {
        let id = ReplicaView::oldest(s.ripe());
        let op = s.pending[id];
        let left = ReplicaView { pending: s.pending.remove(id), ..s };
        let next = left.effect(op);
        assert(s.ripe().contains(id));
        assert(next.pending.dom() =~= s.pending.dom().remove(id));
        assert(next.tidy());
        lemma_drain_settles(next);
    } else {
        assert forall|id: OpId| #[trigger] s.pending.contains_key(id) implies !s.ready(s.pending[id]) by {
            if s.ready(s.pending[id]) {
                assert(s.ripe().contains(id));
                assert(s.ripe().subset_of(s.pending.dom()));
                vstd::set_lib::lemma_len_subset(s.ripe(), s.pending.dom());
                if s.ripe().len() == 0 {
                    assert(s.ripe() =~= Set::empty());
                }
                lemma_oldest_exists(s.ripe());
            }
        }
    }
}

/// Handing an operation to a replica keeps what holds of every state that a
/// replica reaches.
pub proof fn lemma_apply_keeps(s: ReplicaView, op: CRDTOperationView)
    requires
        s.inv(),
    ensures
        s.apply(op).inv(),
{
    if !s.accepts(op) || s.known(op.id()) {
    } else if s.ready(op) {
        assert(s.effect(op).tidy());
        lemma_drain_settles(s.effect(op));
    } else {
        let waiting = s.pending.insert(op.id(), op);
        let after = s.park(op);
        assert(waiting.dom() =~= s.pending.dom().insert(op.id()));
        if waiting.dom().len() > s.capacity {
            lemma_oldest_exists(waiting.dom());
            assert(after.pending.dom() =~= waiting.dom().remove(ReplicaView::oldest(waiting.dom())));
        }
        assert forall|id: OpId| #[trigger] after.pending.contains_key(id) implies !after.ready(
            after.pending[id],
        ) by {
            lemma_ready_same(s, after, after.pending[id]);
        }
    }
}

/// Applying an operation a second time changes nothing.
pub proof fn lemma_apply_idempotent(s: ReplicaView, op: CRDTOperationView)
    requires
        s.pending.dom().finite(),
    ensures
        s.apply(op).apply(op) == s.apply(op),
{
    let once = s.apply(op);
    if !s.accepts(op) || s.known(op.id()) {
    } else if s.ready(op) {
        lemma_drain_grows(s.effect(op));
        assert(s.effect(op).seen.contains(op.id()));
        assert(once.seen.contains(op.id()));
    } else {
        let waiting = s.pending.insert(op.id(), op);
        if !once.pending.contains_key(op.id()) {
            assert(once.pending =~= s.pending);
        }
    }
}

/// Whether an operation is ready depends on the schema and on which records
/// there are, not on what they hold.
pub proof fn lemma_ready_same(s1: ReplicaView, s2: ReplicaView, op: CRDTOperationView)
    requires
        s1.schema == s2.schema,
        s1.records.dom() == s2.records.dom(),
    ensures
        s1.ready(op) == s2.ready(op),
{
    assert forall|model: Seq<char>, id: crate::value::SyncIdView| s1.has_row(model, id) == s2.has_row(model, id) by {
        assert(s1.records.dom().contains(RecordKeyView::Row { model, id }) == s2.records.dom().contains(
            RecordKeyView::Row { model, id },
        ));
    }
    match op.typ {
        CRDTOperationTypeView::Shared(s) => {},
        CRDTOperationTypeView::Relation(r) => {
            let key = RecordKeyView::Edge { relation: r.relation, item: r.relation_item, group: r.relation_group };
            assert(s1.records.dom().contains(key) == s2.records.dom().contains(key));
        },
        CRDTOperationTypeView::Owned(o) => {
            match s1.schema[o.model] {
                ModelKindView::Owned { id, compound, references } => {
                    assert forall|i: int| 0 <= i < o.data.len() implies (s1.resolved(references, #[trigger] o.data[i])
                        && s1.settled(o.model, id, compound, o.data, i)) == (s2.resolved(references, o.data[i])
                        && s2.settled(o.model, id, compound, o.data, i)) by {
                        match crate::merge::state::owned_target(o.model, id, compound, o.data[i]) {
                            Some(key) => {
                                assert(s1.records.dom().contains(key) == s2.records.dom().contains(key));
                            },
                            None => {},
                        }
                    }
                },
                _ => {},
            }
        },
    }
}

/// A finite set of operations that is not empty has an oldest one.
pub proof fn lemma_oldest_exists(ids: Set<OpId>)
    requires
        ids.finite(),
        ids.len() > 0,
    ensures
        ReplicaView::is_oldest(ids, ReplicaView::oldest(ids)),
    decreases ids.len(),
{
    let e = ids.choose();
    let rest = ids.remove(e);
    lemma_id_le_total(e, e);
    if rest.len() == 0 {
        assert forall|other: OpId| ids.contains(other) implies id_le(e, other) by {
            if other != e {
                assert(rest.contains(other));
            }
        }
        assert(ReplicaView::is_oldest(ids, e));
    } else {
        lemma_oldest_exists(rest);
        let m = ReplicaView::oldest(rest);
        lemma_id_le_total(m, e);
        if id_le(m, e) {
            assert forall|other: OpId| ids.contains(other) implies id_le(m, other) by {
                if other != e {
                    assert(rest.contains(other));
                }
            }
            assert(ReplicaView::is_oldest(ids, m));
        } else {
            assert forall|other: OpId| ids.contains(other) implies id_le(e, other) by {
                if other != e {
                    assert(rest.contains(other));
                    lemma_id_le_transitive(e, m, other);
                }
            }
            assert(ReplicaView::is_oldest(ids, e));
        }
    }
}

/// A set has one oldest operation at most.
pub proof fn lemma_oldest_is(ids: Set<OpId>, id: OpId)
    requires
        ReplicaView::is_oldest(ids, id),
    ensures
        ReplicaView::oldest(ids) == id,
{
    let chosen = ReplicaView::oldest(ids);
    assert(ReplicaView::is_oldest(ids, chosen));
    lemma_id_le_antisymmetric(id, chosen);
}

/// The field that an operation updates, of which record or edge, and the
/// value that it writes.
pub open spec fn update_of(op: CRDTOperationView) -> Option<(RecordKeyView, Seq<char>, Seq<u8>)> {
    match op.typ {
        CRDTOperationTypeView::Shared(s) => match s.data {
            SharedOperationDataView::Update { field, value } => Some(
                (RecordKeyView::Row { model: s.model, id: s.record_id }, field, value),
            ),
            _ => None,
        },
        CRDTOperationTypeView::Relation(r) => match r.data {
            RelationOperationDataView::Update { field, value } => Some(
                (
                    RecordKeyView::Edge { relation: r.relation, item: r.relation_item, group: r.relation_group },
                    field,
                    value,
                ),
            ),
            _ => None,
        },
        CRDTOperationTypeView::Owned(_) => None,
    }
}

/// An operation on a record that is there, which is ready and not known, is
/// applied by changing the record, and nothing else comes of it.
pub proof fn lemma_applies_in_place(s: ReplicaView, op: CRDTOperationView)
    requires
        s.inv(),
        merged(op),
        s.records.contains_key(key_of(op)),
        s.accepts(op),
        !s.known(op.id()),
        s.ready(op),
    ensures
        s.apply(op) == s.effect(op),
        s.effect(op).inv(),
        s.effect(op) == (ReplicaView {
            seen: s.seen.insert(op.id()),
            records: s.records.insert(key_of(op), s.records[key_of(op)].changed(change_of(op), op.timestamp)),
            ..s
        }),
{
    let after = s.effect(op);
    assert(after.records.dom() =~= s.records.dom());
    assert forall|id: OpId| #[trigger] after.pending.contains_key(id) implies !after.ready(after.pending[id]) by {
        lemma_ready_same(s, after, s.pending[id]);
    }
    assert(after.ripe() =~= Set::empty());
    assert(!exists|id: OpId| ReplicaView::is_oldest(after.ripe(), id));
}

/// Setting two operations aside comes to the same in either order.
pub proof fn lemma_park_commutes(s: ReplicaView, a: CRDTOperationView, b: CRDTOperationView)
    requires
        s.pending.dom().finite(),
        s.pending.dom().len() <= s.capacity,
        a.id() != b.id(),
        !s.pending.contains_key(a.id()),
        !s.pending.contains_key(b.id()),
    ensures
        s.park(a).park(b) == s.park(b).park(a),
{
    let both = s.pending.insert(a.id(), a).insert(b.id(), b);
    assert(both =~= s.pending.insert(b.id(), b).insert(a.id(), a));
    lemma_park_twice(s, a, b);
    lemma_park_twice(s, b, a);
}

/// The waiting operations without the oldest and the next oldest.
pub open spec fn without_two_oldest(waiting: Map<OpId, CRDTOperationView>) -> Map<OpId, CRDTOperationView> {
    let first = ReplicaView::oldest(waiting.dom());
    let second = ReplicaView::oldest(waiting.dom().remove(first));
    waiting.remove(first).remove(second)
}

/// Setting two operations aside leaves all that waited and the two, without
/// as many of the oldest as are too many.
pub proof fn lemma_park_twice(s: ReplicaView, a: CRDTOperationView, b: CRDTOperationView)
    requires
        s.pending.dom().finite(),
        s.pending.dom().len() <= s.capacity,
        a.id() != b.id(),
        !s.pending.contains_key(a.id()),
        !s.pending.contains_key(b.id()),
    ensures
        ({
            let both = s.pending.insert(a.id(), a).insert(b.id(), b);
            s.park(a).park(b) == (ReplicaView {
                pending: if both.dom().len() <= s.capacity {
                    both
                } else if both.dom().len() == s.capacity + 1 {
                    both.remove(ReplicaView::oldest(both.dom()))
                } else {
                    without_two_oldest(both)
                },
                ..s
            })
        }),
{
    let pa = s.pending.insert(a.id(), a);
    let both = pa.insert(b.id(), b);
    let n = s.pending.dom().len();
    assert(pa.dom() =~= s.pending.dom().insert(a.id()));
    assert(both.dom() =~= pa.dom().insert(b.id()));
    if n + 1 <= s.capacity {
        assert(s.park(a).pending == pa);
    } else {
        let u = both.dom();
        lemma_oldest_exists(u);
        lemma_oldest_exists(pa.dom());
        let m = ReplicaView::oldest(u);
        let ma = ReplicaView::oldest(pa.dom());
        let left = pa.remove(ma);
        assert(s.park(a).pending == left);
        assert(left.dom() =~= pa.dom().remove(ma));
        let with_b = left.insert(b.id(), b);
        assert(with_b.dom() =~= left.dom().insert(b.id()));
        assert(with_b.dom().len() > s.capacity);
        if m != b.id() {
            assert(ReplicaView::is_oldest(pa.dom(), m));
            lemma_oldest_is(pa.dom(), m);
            assert(with_b =~= both.remove(m));
            assert(both.remove(m).dom() =~= u.remove(m));
        } else {
            assert(u.remove(m) =~= pa.dom());
            assert(ReplicaView::is_oldest(with_b.dom(), b.id()));
            lemma_oldest_is(with_b.dom(), b.id());
            assert(with_b.remove(b.id()) =~= both.remove(m).remove(ma));
        }
    }
}

/// Two operations on one record or edge leave the same state in either
/// order, whatever their kinds, where the record is there or neither of the
/// two makes it. The two are different operations, or one, and they do not
/// write different values to one field under one timestamp.
pub proof fn lemma_operations_commute(s: ReplicaView, a: CRDTOperationView, b: CRDTOperationView)
    requires
        s.inv(),
        merged(a),
        merged(b),
        key_of(a) == key_of(b),
        a.id() == b.id() ==> a == b,
        !clash(change_of(a), a.timestamp, change_of(b), b.timestamp),
        s.records.contains_key(key_of(a)) || (!is_create(a) && !is_create(b)),
    ensures
        s.apply(a).apply(b) == s.apply(b).apply(a),
{
    let key = key_of(a);
    assert(s.accepts(a) == s.accepts(b));
    if a == b || !s.accepts(a) {
    } else if s.records.contains_key(key) && s.ready(a) {
        assert(s.ready(b));
        if s.known(a.id()) && s.known(b.id()) {
        } else if s.known(a.id()) {
            lemma_applies_in_place(s, b);
        } else if s.known(b.id()) {
            lemma_applies_in_place(s, a);
        } else {
            lemma_applies_in_place(s, a);
            lemma_applies_in_place(s, b);
            let sa = s.effect(a);
            let sb = s.effect(b);
            assert(sa.records.dom() =~= s.records.dom());
            assert(sb.records.dom() =~= s.records.dom());
            lemma_ready_same(s, sa, b);
            lemma_ready_same(s, sb, a);
            lemma_applies_in_place(sa, b);
            lemma_applies_in_place(sb, a);
            lemma_changes_commute(s.records[key], change_of(a), a.timestamp, change_of(b), b.timestamp);
            assert(sa.effect(b).seen =~= sb.effect(a).seen);
            assert(sa.effect(b).records =~= sb.effect(a).records);
        }
    } else {
        assert(!s.ready(a) && !s.ready(b));
        if s.known(a.id()) && s.known(b.id()) {
        } else if s.known(a.id()) {
            lemma_park_returns(s, b, a);
        } else if s.known(b.id()) {
            lemma_park_returns(s, a, b);
        } else {
            let sa = s.park(a);
            let sb = s.park(b);
            lemma_ready_same(s, sa, b);
            lemma_ready_same(s, sb, a);
            lemma_park_commutes(s, a, b);
            lemma_park_keeps(s, a, b);
            lemma_park_keeps(s, b, a);
        }
    }
}

/// Two updates of one field of one record or edge leave the same state in
/// either order. The two are different operations of different timestamps,
/// or one operation, or they write the same value: where two nodes write
/// different values under one timestamp, the one that arrives first stays.
pub proof fn lemma_updates_commute(s: ReplicaView, a: CRDTOperationView, b: CRDTOperationView)
    requires
        s.inv(),
        update_of(a).is_some(),
        update_of(b).is_some(),
        update_of(a).unwrap().0 == update_of(b).unwrap().0,
        update_of(a).unwrap().1 == update_of(b).unwrap().1,
        a.id() == b.id() ==> a == b,
        a.timestamp == b.timestamp ==> update_of(a).unwrap().2 == update_of(b).unwrap().2,
    ensures
        s.apply(a).apply(b) == s.apply(b).apply(a),
{
    lemma_operations_commute(s, a, b);
}

/// Setting an operation aside does not make another one known.
pub proof fn lemma_park_keeps(s: ReplicaView, a: CRDTOperationView, b: CRDTOperationView)
    requires
        a.id() != b.id(),
        !s.known(b.id()),
    ensures
        !s.park(a).known(b.id()),
        s.park(a).accepts(b) == s.accepts(b),
{
}

/// Where an operation `b` waits or was applied, and `a` is set aside, then
/// handing `b` in again changes nothing: if setting `a` aside made `b` give
/// way, `b` is set aside again and gives way again.
pub proof fn lemma_park_returns(s: ReplicaView, a: CRDTOperationView, b: CRDTOperationView)
    requires
        s.inv(),
        a.id() != b.id(),
        !s.known(a.id()),
        s.known(b.id()),
        s.accepts(a),
        !s.ready(a),
        !s.ready(b),
    ensures
        s.park(a).apply(b) == s.park(a),
{
    let sa = s.park(a);
    let pa = s.pending.insert(a.id(), a);
    assert(pa.dom() =~= s.pending.dom().insert(a.id()));
    if !sa.known(b.id()) {
        // `b` waited and was given up
        lemma_ready_same(s, sa, b);
        let m = ReplicaView::oldest(pa.dom());
        assert(m == b.id());
        lemma_oldest_exists(pa.dom());
        let back = sa.pending.insert(b.id(), b);
        assert(back.dom() =~= pa.dom());
        assert(back.remove(b.id()) =~= sa.pending);
    }
}

/// Whether two changes at their timestamps write different values to one
/// field under one timestamp.
pub open spec fn clash(a: ChangeView, ta: Timestamp, b: ChangeView, tb: Timestamp) -> bool {
    ta == tb && exists|field: Seq<char>, va: Seq<u8>, vb: Seq<u8>|
        sets(a, field, va) && sets(b, field, vb) && va != vb
}

/// Whether a change writes `value` to `field`.
pub open spec fn sets(change: ChangeView, field: Seq<char>, value: Seq<u8>) -> bool {
    match change {
        ChangeView::Create(values) => values.contains_key(field) && values[field] == value,
        ChangeView::Update { field: f, value: v } => f == field && v == value,
        ChangeView::Delete => false,
    }
}

/// A change leaves nothing in a record that is older than its latest
/// deletion, where there was nothing before.
pub proof fn lemma_change_settles(r: RecordView, change: ChangeView, t: Timestamp)
    requires
        r.settled(),
    ensures
        r.changed(change, t).settled(),
{
}

/// Making a change a second time changes nothing.
pub proof fn lemma_change_idempotent(r: RecordView, change: ChangeView, t: Timestamp)
    ensures
        r.changed(change, t).changed(change, t) == r.changed(change, t),
{
    let once = r.changed(change, t);
    let twice = once.changed(change, t);
    assert(twice.fields =~= once.fields);
}

/// Two changes to a record come to the same in either order, whatever their
/// kinds, unless they write different values to one field under one
/// timestamp.
pub proof fn lemma_changes_commute(r: RecordView, a: ChangeView, ta: Timestamp, b: ChangeView, tb: Timestamp)
    requires
        !clash(a, ta, b, tb),
    ensures
        r.changed(a, ta).changed(b, tb) == r.changed(b, tb).changed(a, ta),
{
    let ab = r.changed(a, ta).changed(b, tb);
    let ba = r.changed(b, tb).changed(a, ta);
    assert forall|f: Seq<char>| ab.fields.contains_key(f) <==> ba.fields.contains_key(f) by {}
    assert forall|f: Seq<char>| ab.fields.contains_key(f) implies ab.fields[f] == ba.fields[f] by {
        if ab.fields[f] != ba.fields[f] {
            assert(sets(a, f, ab.fields[f].value) || sets(a, f, ba.fields[f].value));
            assert(sets(b, f, ab.fields[f].value) || sets(b, f, ba.fields[f].value));
        }
    }
    assert(ab.fields =~= ba.fields);
}

/// An operation waits for a record exactly when it is not ready, and the
/// record that it waits for is not there.
pub proof fn lemma_missing(s: ReplicaView, op: CRDTOperationView)
    requires
        s.accepts(op),
    ensures
        s.missing(op).is_none() <==> s.ready(op),
        s.missing(op) matches Some(key) ==> !s.records.contains_key(key),
{
    match op.typ {
        CRDTOperationTypeView::Owned(o) => {
            match s.schema[o.model] {
                ModelKindView::Owned { id, compound, references } => {
                    lemma_missing_from(s, o.model, id, compound, references, o.data, 0);
                },
                _ => {},
            }
        },
        _ => {},
    }
}

proof fn lemma_missing_from(
    s: ReplicaView,
    model: Seq<char>,
    id: Seq<Seq<char>>,
    compound: bool,
    references: Seq<(Seq<char>, Seq<char>)>,
    changes: Seq<crate::owned::OwnedOperationDataView>,
    i: int,
)
    requires
        0 <= i,
    ensures
        s.missing_from(model, id, compound, references, changes, i).is_none() <==> forall|k: int|
            i <= k < changes.len() ==> s.resolved(references, #[trigger] changes[k]) && s.settled(
                model,
                id,
                compound,
                changes,
                k,
            ),
        s.missing_from(model, id, compound, references, changes, i) matches Some(key) ==> !s.records.contains_key(key),
    decreases changes.len() - i,
{
    if i < changes.len() {
        lemma_missing_from(s, model, id, compound, references, changes, i + 1);
        match changes[i] {
            crate::owned::OwnedOperationDataView::Create(values) => {
                lemma_missing_reference(s, references, values, 0);
            },
            crate::owned::OwnedOperationDataView::Update(values) => {
                lemma_missing_reference(s, references, values, 0);
            },
            crate::owned::OwnedOperationDataView::Delete(_) => {},
        }
        if s.missing_from(model, id, compound, references, changes, i).is_none() {
            assert forall|k: int| i <= k < changes.len() implies s.resolved(references, #[trigger] changes[k])
                && s.settled(model, id, compound, changes, k) by {
                if k > i {
                }
            }
        } else if s.waits_for(model, id, compound, references, changes, i).is_some() {
            assert(!(s.resolved(references, changes[i]) && s.settled(model, id, compound, changes, i)));
        }
    }
}

proof fn lemma_missing_reference(
    s: ReplicaView,
    references: Seq<(Seq<char>, Seq<char>)>,
    values: Map<Seq<char>, Seq<u8>>,
    j: int,
)
    requires
        0 <= j,
    ensures
        s.missing_reference(references, values, j).is_none() <==> forall|k: int|
            j <= k < references.len() && values.contains_key((#[trigger] references[k]).0) ==> s.has_row(
                references[k].1,
                crate::value::SyncIdView::Single(values[references[k].0]),
            ),
        s.missing_reference(references, values, j) matches Some(key) ==> !s.records.contains_key(key),
    decreases references.len() - j,
{
    if j < references.len() {
        lemma_missing_reference(s, references, values, j + 1);
        if s.missing_reference(references, values, j).is_some() && s.missing_reference(
            references,
            values,
            j + 1,
        ).is_none() {
            assert(values.contains_key(references[j].0));
        }
    }
}

/// The later of two updates of one field stays, in whichever order the two
/// arrive: where the later one is new to the replica, its model is a model
/// of the replica's schema of the right kind, its record is there, and
/// neither a deletion nor a write that is not older stands against it, the
/// field holds its value under its timestamp after both.
pub proof fn lemma_later_update_stays(s: ReplicaView, a: CRDTOperationView, b: CRDTOperationView)
    requires
        s.inv(),
        update_of(a).is_some(),
        update_of(b).is_some(),
        update_of(a).unwrap().0 == update_of(b).unwrap().0,
        update_of(a).unwrap().1 == update_of(b).unwrap().1,
        a.timestamp < b.timestamp,
        s.accepts(b),
        !s.known(b.id()),
        s.ready(b),
        !s.records[update_of(b).unwrap().0].stale(b.timestamp),
        s.records[update_of(b).unwrap().0].takes(update_of(b).unwrap().1, b.timestamp, false),
    ensures
        ({
            let key = update_of(b).unwrap().0;
            let field = update_of(b).unwrap().1;
            let cell = CellView { timestamp: b.timestamp, value: update_of(b).unwrap().2 };
            &&& s.apply(a).apply(b).records.contains_key(key)
            &&& s.apply(a).apply(b).records[key].fields.contains_key(field)
            &&& s.apply(a).apply(b).records[key].fields[field] == cell
            &&& s.apply(b).apply(a).records.contains_key(key)
            &&& s.apply(b).apply(a).records[key].fields.contains_key(field)
            &&& s.apply(b).apply(a).records[key].fields[field] == cell
        }),
{
    let key = update_of(b).unwrap().0;
    assert(s.accepts(a) == s.accepts(b));
    assert(s.ready(a) == s.ready(b));
    assert(s.records.contains_key(key));
    lemma_applies_in_place(s, b);
    let sb = s.effect(b);
    assert(sb.records.dom() =~= s.records.dom());
    lemma_ready_same(s, sb, a);
    if s.known(a.id()) {
        assert(sb.known(a.id()));
    } else {
        lemma_applies_in_place(s, a);
        let sa = s.effect(a);
        assert(sa.records.dom() =~= s.records.dom());
        lemma_ready_same(s, sa, b);
        lemma_applies_in_place(sa, b);
        lemma_applies_in_place(sb, a);
    }
}

/// Letting the waiting operations do their work keeps every operation
/// known that was known.
pub proof fn lemma_drain_keeps_known(s: ReplicaView, id: OpId)
    requires
        s.tidy(),
        s.known(id),
    ensures
        s.drain().known(id),
    decreases s.pending.dom().len(),
{
    if exists|first: OpId| ReplicaView::is_oldest(s.ripe(), first) {
        let first = ReplicaView::oldest(s.ripe());
        let op = s.pending[first];
        let left = ReplicaView { pending: s.pending.remove(first), ..s };
        let next = left.effect(op);
        assert(s.ripe().contains(first));
        assert(next.pending.dom() =~= s.pending.dom().remove(first));
        assert(next.tidy());
        assert(next.seen.contains(first));
        lemma_drain_keeps_known(next, id);
    }
}

/// Handing an operation to a replica that gives up nothing for it keeps
/// every operation known that was known, and makes the operation known
/// where the schema has its model.
pub proof fn lemma_apply_keeps_known(s: ReplicaView, op: CRDTOperationView, id: OpId)
    requires
        s.inv(),
        !(s.outcome(op) is Overflow),
    ensures
        s.apply(op).schema == s.schema,
        s.known(id) ==> s.apply(op).known(id),
        s.accepts(op) ==> s.apply(op).known(op.id()),
{
    if !s.accepts(op) || s.known(op.id()) {
    } else if s.ready(op) {
        let after = s.effect(op);
        assert(after.tidy());
        lemma_drain_grows(after);
        lemma_drain_keeps_known(after, op.id());
        if s.known(id) {
            lemma_drain_keeps_known(after, id);
        }
    } else {
    }
}

/// After operations were handed to a replica that gave up none, what holds
/// of every state that a replica reaches holds still, the schema is as it
/// was, and each of the operations whose model the schema has is known.
pub proof fn lemma_run_knows(s: ReplicaView, ops: Seq<CRDTOperationView>)
    requires
        s.inv(),
        calm(s, ops),
    ensures
        apply_all(s, ops).inv(),
        apply_all(s, ops).schema == s.schema,
        forall|i: int|
            0 <= i < ops.len() && s.accepts(#[trigger] ops[i]) ==> apply_all(s, ops).known(ops[i].id()),
    decreases ops.len(),
{
    if ops.len() > 0 {
        let before = ops.drop_last();
        let op = ops.last();
        lemma_run_knows(s, before);
        let t = apply_all(s, before);
        lemma_apply_keeps(t, op);
        lemma_apply_keeps_known(t, op, op.id());
        assert forall|i: int| 0 <= i < ops.len() && s.accepts(#[trigger] ops[i]) implies apply_all(s, ops).known(
            ops[i].id(),
        ) by {
            if i < before.len() {
                assert(before[i] == ops[i]);
                lemma_apply_keeps_known(t, op, ops[i].id());
            }
        }
    }
}

/// The operations without those that stand in the sequence before already.
pub open spec fn without_repeats(ops: Seq<CRDTOperationView>) -> Seq<CRDTOperationView>
    decreases ops.len(),
{
    if ops.len() == 0 {
        ops
    } else if ops.drop_last().contains(ops.last()) {
        without_repeats(ops.drop_last())
    } else {
        without_repeats(ops.drop_last()).push(ops.last())
    }
}

/// Operations that are handed in again add nothing: a replica that gave up
/// no waiting operation holds what it would hold had each operation come
/// once, at the place where it came first. This holds of operations of
/// every kind and of every state to begin with.
pub proof fn lemma_repeats_add_nothing(s: ReplicaView, ops: Seq<CRDTOperationView>)
    requires
        s.inv(),
        calm(s, ops),
    ensures
        apply_all(s, ops) == apply_all(s, without_repeats(ops)),
        calm(s, without_repeats(ops)),
    decreases ops.len(),
{
    if ops.len() > 0 {
        let before = ops.drop_last();
        let op = ops.last();
        lemma_repeats_add_nothing(s, before);
        let t = apply_all(s, before);
        if before.contains(op) {
            let i = choose|i: int| 0 <= i < before.len() && before[i] == op;
            lemma_run_knows(s, before);
            assert(before[i] == op);
            assert(t.accepts(op) == s.accepts(op));
        } else {
            let once = without_repeats(before).push(op);
            assert(once.drop_last() =~= without_repeats(before));
            assert(once.last() == op);
        }
    }
}

/// Two sequences of operations that are the same but for repeats, wherever
/// the repeats stand after the place where an operation comes first, leave
/// the same state. This holds of operations of every kind and of every
/// state to begin with, where no waiting operation was given up.
pub proof fn lemma_same_but_for_repeats(s: ReplicaView, first: Seq<CRDTOperationView>, second: Seq<CRDTOperationView>)
    requires
        s.inv(),
        calm(s, first),
        calm(s, second),
        without_repeats(first) == without_repeats(second),
    ensures
        apply_all(s, first) == apply_all(s, second),
{
    lemma_repeats_add_nothing(s, first);
    lemma_repeats_add_nothing(s, second);
}

/// A batch on owned records that writes to or removes a record which is
/// neither there nor made by a change before it in the batch waits for the
/// record: it changes no record and is not taken as applied, so that the
/// same batch is not turned away when it arrives again.
pub proof fn lemma_owned_waits(s: ReplicaView, op: CRDTOperationView, i: int)
    requires
        s.accepts(op),
        !s.known(op.id()),
        op.typ matches CRDTOperationTypeView::Owned(o) && 0 <= i < o.data.len() && (s.schema[o.model] matches ModelKindView::Owned {
            id,
            compound,
            references,
        } && (owned_target(o.model, id, compound, o.data[i]) matches Some(key) && !s.records.contains_key(key)
            && !made_before(o.model, id, compound, o.data, i, key))),
    ensures
        !s.ready(op),
        s.missing(op).is_some(),
        s.apply(op) == s.park(op),
        s.apply(op).records == s.records,
        s.apply(op).seen == s.seen,
{
    lemma_missing(s, op);
    match op.typ {
        CRDTOperationTypeView::Owned(o) => {
            match s.schema[o.model] {
                ModelKindView::Owned { id, compound, references } => {
                    assert(!s.settled(o.model, id, compound, o.data, i));
                },
                _ => {},
            }
        },
        _ => {},
    }
}

/// An operation that arrives before the operation that makes the record
/// which it needs waits, and does its work when the record is made: where
/// nothing else waits and one operation may wait, the state is the same in
/// whichever order the two arrive.
pub proof fn lemma_waits_for_its_record(s: ReplicaView, first: CRDTOperationView, second: CRDTOperationView)
    requires
        s.pending == Map::<OpId, CRDTOperationView>::empty(),
        s.capacity >= 1,
        s.accepts(first),
        s.accepts(second),
        !s.known(first.id()),
        !s.known(second.id()),
        first.id() != second.id(),
        s.ready(first),
        !s.ready(second),
        s.effect(first).ready(second),
    ensures
        s.apply(second).apply(first) == s.effect(first).effect(second),
        s.apply(first).apply(second) == s.effect(first).effect(second),
{
    let none = Map::<OpId, CRDTOperationView>::empty();
    let made = s.effect(first);
    let both = made.effect(second);
    // the order in which the two were made
    assert(made.ripe() =~= Set::empty());
    assert(!exists|id: OpId| ReplicaView::is_oldest(made.ripe(), id));
    assert(made.pending.dom().finite());
    assert(made.drain() == made);
    assert(both.ripe() =~= Set::empty());
    assert(!exists|id: OpId| ReplicaView::is_oldest(both.ripe(), id));
    assert(both.pending.dom().finite());
    assert(both.drain() == both);
    // the other order
    let waiting = none.insert(second.id(), second);
    assert(waiting.dom() =~= set![second.id()]);
    assert(waiting.dom().len() == 1);
    let parked = ReplicaView { pending: waiting, ..s };
    assert(s.park(second) == parked);
    lemma_ready_same(s, parked, first);
    let then = parked.effect(first);
    lemma_ready_same(made, then, second);
    assert(then.ripe() =~= set![second.id()]);
    lemma_id_le_total(second.id(), second.id());
    assert(ReplicaView::is_oldest(then.ripe(), second.id()));
    lemma_oldest_is(then.ripe(), second.id());
    assert(then.pending.remove(second.id()) =~= none);
    assert(then.pending.dom().finite());
    assert((ReplicaView { pending: none, ..then }) == made);
    assert(then.drain() == both.drain());
}

} // verus!
