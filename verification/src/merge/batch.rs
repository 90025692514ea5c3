//! What holds of batches on owned records: a batch changes only the records
//! that its changes are about, and two batches that are about different
//! records come to the same in either order.

use vstd::prelude::*;
use crate::merge::key::RecordKeyView;
use crate::merge::record::RecordView;
use crate::merge::schema::ModelKindView;
use crate::merge::state::owned_fold;
use crate::merge::state::owned_made;
use crate::merge::state::owned_step;
use crate::merge::state::owned_target;
use crate::merge::state::OpId;
use crate::merge::state::ReplicaView;
use crate::owned::OwnedOperationDataView;
use crate::CRDTOperationTypeView;
use crate::CRDTOperationView;
use crate::Timestamp;

verus! {

/// A batch on owned records of a model, with what the schema says of the
/// model's identifiers and the timestamp of the operation.
pub struct Batch {
    pub model: Seq<char>,
    pub id: Seq<Seq<char>>,
    pub compound: bool,
    pub changes: Seq<OwnedOperationDataView>,
    pub t: Timestamp,
}

impl Batch {
    /// The record that a change of the batch makes, writes to or removes.
    pub open spec fn about(self, change: OwnedOperationDataView) -> Option<RecordKeyView> {
        match change {
            OwnedOperationDataView::Create(_) => owned_made(self.model, self.id, self.compound, change),
            _ => owned_target(self.model, self.id, self.compound, change),
        }
    }

    /// Whether one of the changes of the batch is about the record.
    pub open spec fn touches(self, key: RecordKeyView) -> bool {
        exists|i: int| 0 <= i < self.changes.len() && #[trigger] self.about(self.changes[i]) == Some(key)
    }

    /// The batch without its first change.
    pub open spec fn rest(self) -> Batch {
        Batch { changes: self.changes.skip(1), ..self }
    }

    /// The records after the first change of the batch.
    pub open spec fn step(self, records: Map<RecordKeyView, RecordView>) -> Map<RecordKeyView, RecordView> {
        owned_step(records, self.model, self.id, self.compound, self.changes[0], self.t)
    }

    /// The records after the changes of the batch.
    pub open spec fn run(self, records: Map<RecordKeyView, RecordView>) -> Map<RecordKeyView, RecordView> {
        owned_fold(records, self.model, self.id, self.compound, self.changes, self.t)
    }
}

/// The batch of an operation on owned records of a model of the schema.
pub open spec fn batch_of(s: ReplicaView, op: CRDTOperationView) -> Option<Batch> {
    match op.typ {
        CRDTOperationTypeView::Owned(o) => match s.schema[o.model] {
            ModelKindView::Owned { id, compound, references } => Some(
                Batch { model: o.model, id, compound, changes: o.data, t: op.timestamp },
            ),
            _ => None,
        },
        _ => None,
    }
}

/// Whether two sets of records hold the same under a key: both nothing, or
/// both the same record.
pub open spec fn agree(
    a: Map<RecordKeyView, RecordView>,
    b: Map<RecordKeyView, RecordView>,
    key: RecordKeyView,
) -> bool {
    a.contains_key(key) == b.contains_key(key) && (a.contains_key(key) ==> a[key] == b[key])
}

/// A batch leaves the records alone that none of its changes is about.
pub proof fn lemma_batch_frame(batch: Batch, records: Map<RecordKeyView, RecordView>, key: RecordKeyView)
    requires
        !batch.touches(key),
    ensures
        agree(batch.run(records), records, key),
    decreases batch.changes.len(),
{
    if batch.changes.len() > 0 {
        assert(batch.about(batch.changes[0]) != Some(key));
        assert(agree(batch.step(records), records, key));
        assert(!batch.rest().touches(key)) by {
            if batch.rest().touches(key) {
                let i = choose|i: int|
                    0 <= i < batch.rest().changes.len() && #[trigger] batch.rest().about(batch.rest().changes[i])
                        == Some(key);
                assert(batch.about(batch.changes[i + 1]) == Some(key));
            }
        }
        lemma_batch_frame(batch.rest(), batch.step(records), key);
    }
}

/// What a batch makes of a record depends on that record alone.
pub proof fn lemma_batch_local(
    batch: Batch,
    first: Map<RecordKeyView, RecordView>,
    second: Map<RecordKeyView, RecordView>,
    key: RecordKeyView,
)
    requires
        agree(first, second, key),
    ensures
        agree(batch.run(first), batch.run(second), key),
    decreases batch.changes.len(),
{
    if batch.changes.len() > 0 {
        assert(agree(batch.step(first), batch.step(second), key));
        lemma_batch_local(batch.rest(), batch.step(first), batch.step(second), key);
    }
}

/// Two batches that are about different records come to the same in either
/// order.
pub proof fn lemma_runs_commute(a: Batch, b: Batch, records: Map<RecordKeyView, RecordView>)
    requires
        forall|key: RecordKeyView| !(a.touches(key) && b.touches(key)),
    ensures
        b.run(a.run(records)) == a.run(b.run(records)),
{
    let ab = b.run(a.run(records));
    let ba = a.run(b.run(records));
    assert forall|key: RecordKeyView| agree(ab, ba, key) by {
        if a.touches(key) {
            lemma_batch_frame(b, a.run(records), key);
            lemma_batch_frame(b, records, key);
            lemma_batch_local(a, b.run(records), records, key);
        } else {
            lemma_batch_frame(a, b.run(records), key);
            lemma_batch_frame(a, records, key);
            lemma_batch_local(b, a.run(records), records, key);
        }
    }
    assert(ab =~= ba) by {
        assert forall|key: RecordKeyView| ab.contains_key(key) == ba.contains_key(key) by {
            assert(agree(ab, ba, key));
        }
        assert forall|key: RecordKeyView| ab.contains_key(key) implies ab[key] == ba[key] by {
            assert(agree(ab, ba, key));
        }
    }
}

/// Two operations on owned records that are about different records leave
/// the same state in either order, where nothing waits and each of the two
/// is ready before and after the other.
pub proof fn lemma_batches_commute(s: ReplicaView, a: CRDTOperationView, b: CRDTOperationView)
    requires
        s.pending == Map::<OpId, CRDTOperationView>::empty(),
        s.accepts(a),
        s.accepts(b),
        !s.known(a.id()),
        !s.known(b.id()),
        a.id() != b.id(),
        batch_of(s, a).is_some(),
        batch_of(s, b).is_some(),
        forall|key: RecordKeyView| !(batch_of(s, a).unwrap().touches(key) && batch_of(s, b).unwrap().touches(key)),
        s.ready(a),
        s.ready(b),
        s.effect(a).ready(b),
        s.effect(b).ready(a),
    ensures
        s.apply(a).apply(b) == s.apply(b).apply(a),
        s.apply(a).apply(b).records == batch_of(s, b).unwrap().run(batch_of(s, a).unwrap().run(s.records)),
{
    let sa = s.effect(a);
    let sb = s.effect(b);
    lemma_settled(s, a);
    lemma_settled(s, b);
    lemma_settled(sa, b);
    lemma_settled(sb, a);
    lemma_runs_commute(batch_of(s, a).unwrap(), batch_of(s, b).unwrap(), s.records);
    assert(sa.effect(b).seen =~= sb.effect(a).seen);
}

/// Where nothing waits, an operation that is ready does its work and
/// nothing else comes of it.
proof fn lemma_settled(s: ReplicaView, op: CRDTOperationView)
    requires
        s.pending == Map::<OpId, CRDTOperationView>::empty(),
    ensures
        s.effect(op).drain() == s.effect(op),
        s.effect(op).pending == s.pending,
{
    let after = s.effect(op);
    assert(after.ripe() =~= Set::empty());
    assert(!exists|id: OpId| ReplicaView::is_oldest(after.ripe(), id));
    assert(after.pending.dom().finite());
}

} // verus!
