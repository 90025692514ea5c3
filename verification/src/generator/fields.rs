//! Which fields of a model the generated code is about.

use vstd::prelude::*;
use crate::datamodel::field::field_names;
use crate::datamodel::field::find_field;
use crate::datamodel::field::Field;
use crate::datamodel::field::FieldRef;
use crate::datamodel::field::FieldType;
use crate::datamodel::model::Model;
use crate::datamodel::model::ModelType;
use crate::datamodel::model::SyncIDMapping;
use crate::datamodel::source::FieldArity;
use crate::datamodel::Datamodel;
use crate::names::first_of;

verus! {

/// Whether some pair from position `k` on has `f` as its second part.
pub open spec fn stands_from(pairs: Seq<(usize, usize)>, f: usize, k: int) -> bool
    decreases pairs.len() - k,
{
    if k < 0 || k >= pairs.len() {
        false
    } else {
        pairs[k].1 == f || stands_from(pairs, f, k + 1)
    }
}

/// The type of a scalar field in an operation: its own, or, where the field
/// holds the key of a record of another model, the type of the field that
/// stands for that record in its own identifier, once, optional or many
/// times as the field itself is.
#[derive(Clone, Copy, Debug, PartialEq, Eq, Structural)]
pub enum CrdtType {
    Own,
    Of { field: FieldRef, arity: FieldArity },
}

impl Model {
    /// Whether the field at position `f` is part of the identifier that is
    /// the same on every node.
    pub open spec fn in_sync_id(&self, f: usize) -> bool {
        match self.mapping() {
            Some(SyncIDMapping::Single { primary_key, sync_id }) => sync_id == f,
            Some(SyncIDMapping::Compound(pairs)) => stands_from(pairs@, f, 0),
            None => false,
        }
    }

    pub fn is_sync_id(&self, f: usize) -> (b: bool)
        ensures
            b == self.in_sync_id(f),
    {
        let mapping = match &self.typ {
            ModelType::Local { id } => id,
            ModelType::Owned { id, .. } => id,
            ModelType::Shared { id, .. } => id,
            ModelType::Relation { .. } => {
                return false;
            },
        };
        match mapping {
            SyncIDMapping::Single { primary_key, sync_id } => *sync_id == f,
            SyncIDMapping::Compound(pairs) => {
                let mut k: usize = 0;
                while k < pairs.len()
                    invariant
                        k <= pairs@.len(),
                        self.in_sync_id(f) == stands_from(pairs@, f, k as int),
                    decreases pairs@.len() - k,
                {
                    if pairs[k].1 == f {
                        return true;
                    }
                    k += 1;
                }
                false
            },
        }
    }

    /// Whether the field at position `f` is a scalar that holds the key of a
    /// record of another model.
    pub open spec fn refers(&self, f: int) -> bool {
        0 <= f < self.fields@.len() && self.fields@[f].typ matches FieldType::Scalar {
            relation_field_info: Some(_),
        }
    }

    pub fn scalar_field_has_relation(&self, f: usize) -> (b: bool)
        ensures
            b == self.refers(f as int),
    {
        f < self.fields.len() && matches!(self.fields[f].typ, FieldType::Scalar { relation_field_info: Some(_) })
    }

    /// The scalar fields among the first `n` that must be given when a record
    /// is made.
    pub open spec fn required_upto(&self, n: int) -> Seq<usize>
        decreases n,
    {
        if n <= 0 || n > self.fields@.len() {
            seq![]
        } else {
            let before = self.required_upto(n - 1);
            if self.fields@[n - 1].typ is Scalar && self.fields@[n - 1].required_on_create {
                before.push((n - 1) as usize)
            } else {
                before
            }
        }
    }

    /// The scalar fields that must be given when a record is made, in their
    /// order.
    pub fn required_scalar_fields(&self) -> (r: Vec<usize>)
        ensures
            r@ == self.required_upto(self.fields@.len() as int),
    {
        let mut r: Vec<usize> = Vec::new();
        let mut n: usize = 0;
        while n < self.fields.len()
            invariant
                n <= self.fields@.len(),
                r@ == self.required_upto(n as int),
            decreases self.fields@.len() - n,
        {
            if self.fields[n].is_scalar() && self.fields[n].required_on_create {
                r.push(n);
            }
            n += 1;
        }
        r
    }

    /// The fields of this model that the first `n` names give, leaving out
    /// names that the model does not have.
    pub open spec fn named_upto(&self, names: Seq<String>, n: int) -> Seq<usize>
        decreases n,
    {
        if n <= 0 || n > names.len() {
            seq![]
        } else {
            let before = self.named_upto(names, n - 1);
            match first_of(field_names(self.fields@), names[n - 1]@) {
                Some(f) => before.push(f as usize),
                None => before,
            }
        }
    }

    /// The fields of this model that the names give.
    pub fn named_fields(&self, names: &Vec<String>) -> (r: Vec<usize>)
        ensures
            r@ == self.named_upto(names@, names@.len() as int),
    {
        let mut r: Vec<usize> = Vec::new();
        let mut n: usize = 0;
        while n < names.len()
            invariant
                n <= names@.len(),
                r@ == self.named_upto(names@, n as int),
            decreases names@.len() - n,
        {
            match find_field(&self.fields, &names[n]) {
                Some(f) => {
                    r.push(f);
                },
                None => {},
            }
            n += 1;
        }
        r
    }

    /// The field whose value stands for the field `f` in a record: the
    /// field itself, or, for a relation, the first of the fields that hold
    /// its key.
    pub open spec fn scalar_of(&self, f: usize) -> usize {
        if f < self.fields@.len() {
            match self.fields@[f as int].typ {
                FieldType::Relation { relation_info } => {
                    let held = self.named_upto(relation_info.fields@, relation_info.fields@.len() as int);
                    if held.len() > 0 {
                        held[0]
                    } else {
                        f
                    }
                },
                _ => f,
            }
        } else {
            f
        }
    }

    /// The field whose value stands for the field `f` in a record.
    pub fn scalar(&self, f: usize) -> (r: usize)
        ensures
            r == self.scalar_of(f),
    {
        if f < self.fields.len() {
            match &self.fields[f].typ {
                FieldType::Relation { relation_info } => {
                    let held = self.named_fields(&relation_info.fields);
                    if held.len() > 0 {
                        held[0]
                    } else {
                        f
                    }
                },
                _ => f,
            }
        } else {
            f
        }
    }

    /// The scalar fields that the first `n` fields contribute to the
    /// identifier that is the same on every node: a scalar that is part of
    /// it contributes itself, a relation that is part of it the scalars that
    /// hold its key.
    pub open spec fn scalar_ids_upto(&self, n: int) -> Seq<usize>
        decreases n,
    {
        if n <= 0 || n > self.fields@.len() {
            seq![]
        } else {
            let before = self.scalar_ids_upto(n - 1);
            if self.in_sync_id((n - 1) as usize) {
                match self.fields@[n - 1].typ {
                    FieldType::Scalar { .. } => before.push((n - 1) as usize),
                    FieldType::Relation { relation_info } => before + self.named_upto(
                        relation_info.fields@,
                        relation_info.fields@.len() as int,
                    ),
                }
            } else {
                before
            }
        }
    }

    /// The scalar fields that make up the identifier that is the same on
    /// every node.
    pub fn scalar_sync_id_fields(&self) -> (r: Vec<usize>)
        ensures
            r@ == self.scalar_ids_upto(self.fields@.len() as int),
    {
        let mut r: Vec<usize> = Vec::new();
        let mut n: usize = 0;
        while n < self.fields.len()
            invariant
                n <= self.fields@.len(),
                r@ == self.scalar_ids_upto(n as int),
            decreases self.fields@.len() - n,
        {
            if self.is_sync_id(n) {
                match &self.fields[n].typ {
                    FieldType::Scalar { .. } => {
                        r.push(n);
                    },
                    FieldType::Relation { relation_info } => {
                        let mut more = self.named_fields(&relation_info.fields);
                        r.append(&mut more);
                    },
                }
            }
            n += 1;
        }
        r
    }
}

/// Whether a list of positions holds `f`.
pub fn holds(list: &Vec<usize>, f: usize) -> (b: bool)
    ensures
        b == list@.contains(f),
{
    let mut k: usize = 0;
    while k < list.len()
        invariant
            k <= list@.len(),
            forall|j: int| 0 <= j < k ==> list@[j] != f,
        decreases list@.len() - k,
    {
        if list[k] == f {
            return true;
        }
        k += 1;
    }
    false
}

impl Field {
    /// The type that the field has in an operation: its own, or the type of
    /// the field at the end of the steps from it.
    pub open spec fn crdt_type(&self, datamodel: &Datamodel) -> CrdtType {
        let steps = self.steps(datamodel);
        if steps.len() == 0 {
            CrdtType::Own
        } else {
            CrdtType::Of { field: steps.last().take, arity: self.arity }
        }
    }

    /// The type that the field has in an operation.
    pub fn crdt_type_tokens(&self, datamodel: &Datamodel) -> (t: CrdtType)
        ensures
            t == self.crdt_type(datamodel),
    {
        let steps = datamodel.steps_after(self.first_step(datamodel));
        if steps.len() == 0 {
            CrdtType::Own
        } else {
            CrdtType::Of { field: steps[steps.len() - 1].take, arity: self.arity }
        }
    }
}

impl Datamodel {
    /// The type that the field `f` of model `m` has in an operation.
    pub open spec fn crdt_type_of(&self, m: int, f: int) -> CrdtType {
        if 0 <= m < self.models@.len() && 0 <= f < self.models@[m].fields@.len() {
            self.models@[m].fields@[f].crdt_type(self)
        } else {
            CrdtType::Own
        }
    }

    /// The type that a field has in an operation.
    pub fn crdt_type(&self, m: usize, f: usize) -> (t: CrdtType)
        ensures
            t == self.crdt_type_of(m as int, f as int),
    {
        if m < self.models.len() && f < self.models[m].fields.len() {
            self.models[m].fields[f].crdt_type_tokens(self)
        } else {
            CrdtType::Own
        }
    }

    /// The type in an operation of each field of `fields`.
    pub fn crdt_types(&self, m: usize, fields: &Vec<usize>) -> (r: Vec<(usize, CrdtType)>)
        ensures
            r@.len() == fields@.len(),
            forall|k: int|
                0 <= k < r@.len() ==> #[trigger] r@[k] == (fields@[k], self.crdt_type_of(m as int, fields@[k] as int)),
    {
        let mut r: Vec<(usize, CrdtType)> = Vec::new();
        let mut k: usize = 0;
        while k < fields.len()
            invariant
                k <= fields@.len(),
                r@.len() == k,
                forall|j: int|
                    0 <= j < k ==> #[trigger] r@[j] == (fields@[j], self.crdt_type_of(m as int, fields@[j] as int)),
            decreases fields@.len() - k,
        {
            r.push((fields[k], self.crdt_type(m, fields[k])));
            k += 1;
        }
        r
    }
}

} // verus!
