//! What generated code does to make a record: what it hands to the store,
//! what the operation carries, and which operations stand for the record.

use vstd::prelude::*;
use crate::datamodel::field::FieldType;
use crate::datamodel::model::Model;
use crate::datamodel::model::ModelType;
use crate::datamodel::model::SharedCreateType;
use crate::generator::fields::holds;

verus! {

/// Which operations stand for a record of a model that was made.
#[derive(Clone, Copy, Debug, PartialEq, Eq, Structural)]
pub enum CreateExec {
    /// One operation on an owned record, with the record's fields.
    Owned,
    /// The operations of a shared record, made in the given way.
    Shared(SharedCreateType),
    /// One operation that makes the edge between the fields `item` and
    /// `group`.
    Relation { item: usize, group: usize },
}

/// Which operations stand for a record of the model. A model that is not
/// replicated is treated as owned.
pub open spec fn exec_of(model: &Model) -> CreateExec {
    match model.typ {
        ModelType::Shared { id, create } => CreateExec::Shared(create),
        ModelType::Relation { item, group } => CreateExec::Relation { item, group },
        _ => CreateExec::Owned,
    }
}

/// Which operations stand for a record of the model.
pub fn generate(model: &Model) -> (exec: CreateExec)
    ensures
        exec == exec_of(model),
{
    match &model.typ {
        ModelType::Shared { id, create } => CreateExec::Shared(*create),
        ModelType::Relation { item, group } => CreateExec::Relation { item: *item, group: *group },
        _ => CreateExec::Owned,
    }
}

/// What is handed to the store for a field when a record is made.
#[derive(Clone, Copy, Debug, PartialEq, Eq, Structural)]
pub enum StoreArgument {
    /// The value of the scalar field.
    Value { field: usize },
    /// The record of the other model that the relation field leads to,
    /// found by the scalars that hold its key.
    Related { relation: usize },
}

impl Model {
    /// Whether the store is handed something for the field at position `f`
    /// when a record is made: for each field that must be given, but for the
    /// scalars that hold the key of a relation.
    pub open spec fn handed_to_store(&self, f: int) -> bool {
        self.fields@[f].required_on_create && !self.refers(f)
    }

    /// What the store is handed for the first `n` fields.
    pub open spec fn store_arguments_upto(&self, n: int) -> Seq<StoreArgument>
        decreases n,
    {
        if n <= 0 || n > self.fields@.len() {
            seq![]
        } else {
            let before = self.store_arguments_upto(n - 1);
            if self.handed_to_store(n - 1) {
                before.push(
                    if self.fields@[n - 1].typ is Relation {
                        StoreArgument::Related { relation: (n - 1) as usize }
                    } else {
                        StoreArgument::Value { field: (n - 1) as usize }
                    },
                )
            } else {
                before
            }
        }
    }

    /// What the store is handed when a record is made, in the order of the
    /// fields.
    pub fn store_arguments(&self) -> (r: Vec<StoreArgument>)
        ensures
            r@ == self.store_arguments_upto(self.fields@.len() as int),
    {
        let mut r: Vec<StoreArgument> = Vec::new();
        let mut n: usize = 0;
        while n < self.fields.len()
            invariant
                n <= self.fields@.len(),
                r@ == self.store_arguments_upto(n as int),
            decreases self.fields@.len() - n,
        {
            if self.fields[n].required_on_create && !self.scalar_field_has_relation(n) {
                match &self.fields[n].typ {
                    FieldType::Relation { .. } => {
                        r.push(StoreArgument::Related { relation: n });
                    },
                    _ => {
                        r.push(StoreArgument::Value { field: n });
                    },
                }
            }
            n += 1;
        }
        r
    }

    /// The fields among the first `n` that an operation carries beside the
    /// identifier when a record is made: the scalars that must be given and
    /// are no part of the identifier.
    pub open spec fn carried_upto(&self, n: int) -> Seq<usize>
        decreases n,
    {
        if n <= 0 || n > self.fields@.len() {
            seq![]
        } else {
            let before = self.carried_upto(n - 1);
            if self.fields@[n - 1].typ is Scalar && self.fields@[n - 1].required_on_create
                && !self.scalar_ids_upto(self.fields@.len() as int).contains((n - 1) as usize) {
                before.push((n - 1) as usize)
            } else {
                before
            }
        }
    }

    /// The fields that an operation carries beside the identifier when a
    /// record is made.
    pub fn crdt_create_params(&self) -> (r: Vec<usize>)
        ensures
            r@ == self.carried_upto(self.fields@.len() as int),
    {
        let ids = self.scalar_sync_id_fields();
        let mut r: Vec<usize> = Vec::new();
        let mut n: usize = 0;
        while n < self.fields.len()
            invariant
                n <= self.fields@.len(),
                ids@ == self.scalar_ids_upto(self.fields@.len() as int),
                r@ == self.carried_upto(n as int),
            decreases self.fields@.len() - n,
        {
            if self.fields[n].is_scalar() && self.fields[n].required_on_create && !holds(&ids, n) {
                r.push(n);
            }
            n += 1;
        }
        r
    }
}

} // verus!
