//! A node that makes operations of its own and takes in those of others.

use vstd::prelude::*;
use crate::clock::later;
use crate::clock::next_stamp;
use crate::clock::skew_limit;
use crate::clock::ClockError;
use crate::emitter::Emitter;
use crate::merge::replica::ops_view;
use crate::merge::replica::Outcome;
use crate::merge::replica::Replica;
use crate::merge::state::apply_all;
use crate::CRDTOperation;
use crate::CRDTOperationType;
use crate::Timestamp;

verus! {

#[derive(Clone, Debug, PartialEq, Eq)]
pub struct Node {
    pub emitter: Emitter,
    pub replica: Replica,
}

impl Node {
    pub open spec fn wf(&self) -> bool {
        self.replica.wf()
    }

    /// Takes in an operation of another node at physical time `physical`:
    /// the clock takes notice of the operation's timestamp, and the
    /// operation is handed to the replica. A timestamp that is too far ahead
    /// is reported; the operation is handed on all the same.
    pub fn receive(&mut self, op: CRDTOperation, physical: Timestamp) -> (r: (Outcome, Result<(), ClockError>))
        requires
            old(self).wf(),
            op.valid(),
        ensures
            final(self).wf(),
            final(self).replica@ == old(self).replica@.apply(op@),
            r.0@ == old(self).replica@.outcome(op@),
            r.1.is_ok() <==> op.timestamp <= skew_limit(physical, old(self).emitter.clock.max_skew),
            final(self).emitter.clock.last == later(
                old(self).emitter.clock.last,
                if r.1.is_ok() {
                    op.timestamp
                } else {
                    skew_limit(physical, old(self).emitter.clock.max_skew)
                },
            ),
            r.1 matches Err(e) ==> e == (ClockError::Anomaly {
                remote: op.timestamp,
                limit: skew_limit(physical, old(self).emitter.clock.max_skew),
            }),
            final(self).emitter.node_id == old(self).emitter.node_id,
            final(self).emitter.node_local_id == old(self).emitter.node_local_id,
            final(self).emitter.clock.max_skew == old(self).emitter.clock.max_skew,
    {
        let seen = self.emitter.clock.observe(op.timestamp, physical);
        let outcome = self.replica.apply(op);
        (outcome, seen)
    }

    /// Makes the operation that carries `typ` at physical time `physical`,
    /// hands a copy of it to this node's own replica, and returns it to be
    /// sent to the others. Its timestamp is later than that of every
    /// operation that this node has made or taken in without a report.
    pub fn emit(&mut self, typ: CRDTOperationType, physical: Timestamp) -> (r: Result<
        (CRDTOperation, Outcome),
        ClockError,
    >)
        requires
            old(self).wf(),
            typ.valid(),
        ensures
            final(self).wf(),
            final(self).emitter.node_id == old(self).emitter.node_id,
            final(self).emitter.node_local_id == old(self).emitter.node_local_id,
            final(self).emitter.clock.max_skew == old(self).emitter.clock.max_skew,
            match r {
                Ok((op, outcome)) => {
                    &&& old(self).emitter.clock.last < u64::MAX
                    &&& op.node@ == old(self).emitter.node_id@
                    &&& op.typ == typ
                    &&& op.timestamp == next_stamp(old(self).emitter.clock.last, physical)
                    &&& final(self).emitter.clock.last == op.timestamp
                    &&& final(self).replica@ == old(self).replica@.apply(op@)
                    &&& outcome@ == old(self).replica@.outcome(op@)
                },
                Err(e) => e is Exhausted && old(self).emitter.clock.last == u64::MAX && final(self).replica
                    == old(self).replica && final(self).emitter.clock.last == u64::MAX,
            },
    {
        match self.emitter.stamp(typ, physical) {
            Ok(op) => {
                let outcome = self.replica.apply(op.copy());
                Ok((op, outcome))
            },
            Err(e) => Err(e),
        }
    }

    /// Makes the operations that carry `types`, in their order, at physical
    /// time `physical`, hands copies of them to this node's own replica one
    /// after another, and returns them to be sent to the others. What this
    /// node's replica then holds is what every replica holds that began as
    /// this one and was handed the same operations in the same order.
    /// Nothing is made, and the replica left as it was, where the timestamps
    /// run out.
    pub fn emit_all(&mut self, types: Vec<CRDTOperationType>, physical: Timestamp) -> (r: Result<
        (Vec<CRDTOperation>, Vec<Outcome>),
        ClockError,
    >)
        requires
            old(self).wf(),
            forall|i: int| 0 <= i < types@.len() ==> (#[trigger] types@[i]).valid(),
        ensures
            final(self).wf(),
            final(self).emitter.node_id == old(self).emitter.node_id,
            final(self).emitter.node_local_id == old(self).emitter.node_local_id,
            final(self).emitter.clock.max_skew == old(self).emitter.clock.max_skew,
            r.is_ok() <==> types@.len() == 0 || next_stamp(old(self).emitter.clock.last, physical) + types@.len() - 1
                <= u64::MAX,
            match r {
                Ok((ops, outcomes)) => {
                    &&& ops@.len() == types@.len()
                    &&& outcomes@.len() == types@.len()
                    &&& forall|i: int|
                        0 <= i < ops@.len() ==> (#[trigger] ops@[i]).typ == types@[i] && ops@[i].node@ == old(
                            self,
                        ).emitter.node_id@ && ops@[i].timestamp == next_stamp(
                            old(self).emitter.clock.last,
                            physical,
                        ) + i
                    &&& final(self).replica@ == apply_all(old(self).replica@, ops_view(ops@))
                    &&& forall|i: int|
                        0 <= i < ops@.len() ==> (#[trigger] outcomes@[i])@ == apply_all(
                            old(self).replica@,
                            ops_view(ops@).subrange(0, i),
                        ).outcome(ops@[i]@)
                    &&& ops@.len() > 0 ==> final(self).emitter.clock.last == ops@[ops@.len() - 1].timestamp
                    &&& ops@.len() == 0 ==> final(self).emitter.clock.last == old(self).emitter.clock.last
                },
                Err(e) => e is Exhausted && final(self).replica == old(self).replica
                    && final(self).emitter.clock.last == u64::MAX,
            },
    {
        let ops = match self.emitter.stamp_all(types, physical) {
            Ok(ops) => ops,
            Err(e) => {
                return Err(e);
            },
        };
        let mut own: Vec<CRDTOperation> = Vec::new();
        let mut i: usize = 0;
        while i < ops.len()
            invariant
                i <= ops@.len(),
                own@.len() == i,
                ops@.len() == types@.len(),
                forall|k: int| 0 <= k < types@.len() ==> (#[trigger] types@[k]).valid(),
                forall|k: int| 0 <= k < ops@.len() ==> (#[trigger] ops@[k]).typ == types@[k],
                forall|k: int| 0 <= k < i ==> (#[trigger] own@[k]).valid() && own@[k]@ == ops@[k]@,
            decreases ops@.len() - i,
        {
            assert(ops@[i as int].typ == types@[i as int]);
            own.push(ops[i].copy());
            i += 1;
        }
        assert(ops_view(own@) =~= ops_view(ops@));
        let outcomes = self.replica.apply_all(own);
        Ok((ops, outcomes))
    }
}

} // verus!