//! The parameters that set a field, as the store takes them and as an
//! operation carries them.

use vstd::prelude::*;
use vstd::string::StringExecFns;
use crate::datamodel::field::Field;
use crate::datamodel::field::FieldType;
use crate::datamodel::model::Model;
use crate::datamodel::Datamodel;
use crate::generator::fields::CrdtType;
use crate::generator::sync_id::Source;
use crate::generator::sync_id::SourceView;
use crate::resolver::Step;

verus! {

/// The parameter that sets a scalar field, as the store takes it.
#[derive(Clone, Debug, PartialEq, Eq)]
pub struct SetParam {
    /// The position of the field in its model.
    pub field: usize,
    /// The name of the parameter: `Set` and the field's name in Pascal case.
    pub variant: String,
    /// How the value that the store takes becomes the value that an
    /// operation carries: as it is, or, where it is the key of a record of
    /// another model, by the steps to what stands for that record in its own
    /// identifier.
    pub into_crdt: Source,
}

/// How the parameter that an operation carries is handed to the store.
#[derive(Clone, Debug, PartialEq, Eq)]
pub enum IntoStore {
    /// The field is set to the value.
    Assign,
    /// The value stands for a record of another model. The relation at
    /// position `relation` of the model is linked to that record, which is
    /// found by going the steps back: the last finds the record whose field
    /// `take` holds the value, the key of that record is what its field
    /// `find` holds, and so on to the first.
    Link { relation: usize, steps: Vec<Step> },
}

pub enum IntoStoreView {
    Assign,
    Link { relation: usize, steps: Seq<Step> },
}

impl View for IntoStore {
    type V = IntoStoreView;

    open spec fn view(&self) -> IntoStoreView {
        match self {
            IntoStore::Assign => IntoStoreView::Assign,
            IntoStore::Link { relation, steps } => IntoStoreView::Link { relation: *relation, steps: steps@ },
        }
    }
}

/// The parameter that sets a scalar field, as an operation carries it.
#[derive(Clone, Debug, PartialEq, Eq)]
pub struct CRDTSetParam {
    /// The position of the field in its model.
    pub field: usize,
    pub variant: String,
    /// The type of the value.
    pub value: CrdtType,
    pub into_store: IntoStore,
}

impl SetParam {
    pub open spec fn of(field: &Field, datamodel: &Datamodel) -> (Seq<char>, SourceView) {
        ("Set"@ + field.name_pascal@, SourceView::of(field.steps(datamodel)))
    }

    /// The parameter that sets the scalar field `f` of model `m`.
    pub fn new(datamodel: &Datamodel, m: usize, f: usize) -> (p: Self)
        requires
            m < datamodel.models@.len(),
            f < datamodel.models@[m as int].fields@.len(),
            datamodel.models@[m as int].fields@[f as int].typ is Scalar,
        ensures
            p.field == f,
            (p.variant@, p.into_crdt@) == Self::of(&datamodel.models@[m as int].fields@[f as int], datamodel),
    {
        let field = &datamodel.models[m].fields[f];
        SetParam {
            field: f,
            variant: String::from_str("Set").concat(field.name_pascal.as_str()),
            into_crdt: Source::of(datamodel.steps_after(field.first_step(datamodel))),
        }
    }
}

impl CRDTSetParam {
    pub open spec fn store_of(field: &Field, datamodel: &Datamodel) -> IntoStoreView {
        match field.typ {
            FieldType::Scalar { relation_field_info: Some(info) } => if field.steps(datamodel).len() > 0 {
                IntoStoreView::Link { relation: info.relation, steps: field.steps(datamodel) }
            } else {
                IntoStoreView::Assign
            },
            _ => IntoStoreView::Assign,
        }
    }

    /// The parameter that sets the scalar field `f` of model `m`.
    pub fn new(datamodel: &Datamodel, m: usize, f: usize) -> (p: Self)
        requires
            m < datamodel.models@.len(),
            f < datamodel.models@[m as int].fields@.len(),
            datamodel.models@[m as int].fields@[f as int].typ is Scalar,
        ensures
            p.field == f,
            p.variant@ == "Set"@ + datamodel.models@[m as int].fields@[f as int].name_pascal@,
            p.value == datamodel.models@[m as int].fields@[f as int].crdt_type(datamodel),
            p.into_store@ == Self::store_of(&datamodel.models@[m as int].fields@[f as int], datamodel),
    {
        let field = &datamodel.models[m].fields[f];
        let variant = String::from_str("Set").concat(field.name_pascal.as_str());
        let value = field.crdt_type_tokens(datamodel);
        let into_store = match &field.typ {
            FieldType::Scalar { relation_field_info: Some(info) } => {
                let steps = datamodel.steps_after(field.first_step(datamodel));
                if steps.len() > 0 {
                    IntoStore::Link { relation: info.relation, steps }
                } else {
                    IntoStore::Assign
                }
            },
            _ => IntoStore::Assign,
        };
        CRDTSetParam { field: f, variant, value, into_store }
    }
}

/// The parameters of the scalar fields among the first `n` fields of a
/// model, as the fields' positions.
pub open spec fn scalars_upto(model: &Model, n: int) -> Seq<usize>
    decreases n,
{
    if n <= 0 || n > model.fields@.len() {
        seq![]
    } else {
        let before = scalars_upto(model, n - 1);
        if model.fields@[n - 1].typ is Scalar {
            before.push((n - 1) as usize)
        } else {
            before
        }
    }
}

/// Whether `set` and `crdt` are the parameters that set the fields of model
/// `m`: one of each kind for each scalar field, in the order of the fields.
pub open spec fn are_params(datamodel: &Datamodel, m: int, set: Seq<SetParam>, crdt: Seq<CRDTSetParam>) -> bool {
    let model = &datamodel.models@[m];
    let scalars = scalars_upto(model, model.fields@.len() as int);
    &&& set.len() == scalars.len()
    &&& crdt.len() == scalars.len()
    &&& forall|k: int|
        0 <= k < scalars.len() ==> {
            let f = #[trigger] scalars[k] as int;
            &&& 0 <= f < model.fields@.len()
            &&& set[k].field == f
            &&& crdt[k].field == f
            &&& (set[k].variant@, set[k].into_crdt@) == SetParam::of(&model.fields@[f], datamodel)
            &&& crdt[k].variant@ == "Set"@ + model.fields@[f].name_pascal@
            &&& crdt[k].value == model.fields@[f].crdt_type(datamodel)
            &&& crdt[k].into_store@ == CRDTSetParam::store_of(&model.fields@[f], datamodel)
        }
}

/// The parameters that set the fields of model `m`.
pub fn generate(datamodel: &Datamodel, m: usize) -> (r: (Vec<SetParam>, Vec<CRDTSetParam>))
    requires
        m < datamodel.models@.len(),
    ensures
        are_params(datamodel, m as int, r.0@, r.1@),
{
    let model = &datamodel.models[m];
    let mut set: Vec<SetParam> = Vec::new();
    let mut crdt: Vec<CRDTSetParam> = Vec::new();
    let mut n: usize = 0;
    while n < model.fields.len()
        invariant
            n <= model.fields@.len(),
            m < datamodel.models@.len(),
            *model == datamodel.models@[m as int],
            set@.len() == scalars_upto(model, n as int).len(),
            crdt@.len() == scalars_upto(model, n as int).len(),
            forall|k: int|
                0 <= k < scalars_upto(model, n as int).len() ==> {
                    let f = #[trigger] scalars_upto(model, n as int)[k] as int;
                    &&& 0 <= f < model.fields@.len()
                    &&& set@[k].field == f
                    &&& crdt@[k].field == f
                    &&& (set@[k].variant@, set@[k].into_crdt@) == SetParam::of(&model.fields@[f], datamodel)
                    &&& crdt@[k].variant@ == "Set"@ + model.fields@[f].name_pascal@
                    &&& crdt@[k].value == model.fields@[f].crdt_type(datamodel)
                    &&& crdt@[k].into_store@ == CRDTSetParam::store_of(&model.fields@[f], datamodel)
                },
        decreases model.fields@.len() - n,
    {
        if model.fields[n].is_scalar() {
            set.push(SetParam::new(datamodel, m, n));
            crdt.push(CRDTSetParam::new(datamodel, m, n));
        }
        n += 1;
    }
    (set, crdt)
}

} // verus!
