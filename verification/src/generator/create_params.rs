//! The parameters with which generated code makes a record.

use vstd::prelude::*;
use vstd::string::StringExecFns;
use crate::datamodel::model::Model;
use crate::datamodel::Datamodel;
use crate::generator::fields::CrdtType;
use crate::generator::sync_id::are_typed;

verus! {

/// What is given to make a record, as the store takes it and as an
/// operation carries it.
#[derive(Clone, Debug, PartialEq, Eq)]
pub struct CreateParams {
    /// The scalar fields that must be given, beside the parameters that set
    /// the others.
    pub required: Vec<usize>,
    /// The fields that an operation carries beside the identifier and the
    /// parameters that set the others, each with its type in an operation.
    pub carried: Vec<(usize, CrdtType)>,
}

/// What a call that makes a record is given.
#[derive(Clone, Copy, Debug, PartialEq, Eq, Structural)]
pub enum Argument {
    /// The value of a scalar field that must be given.
    Field(usize),
    /// The parameters that set the other fields.
    Params,
}

/// Whether `params` is what is given to make a record of model `m`.
pub open spec fn is_definition(datamodel: &Datamodel, m: int, params: CreateParams) -> bool {
    let model = &datamodel.models@[m];
    &&& params.required@ == model.required_upto(model.fields@.len() as int)
    &&& are_typed(datamodel, m, model.carried_upto(model.fields@.len() as int), params.carried@)
}

/// What is given to make a record of model `m`.
pub fn definition(datamodel: &Datamodel, m: usize) -> (params: CreateParams)
    requires
        m < datamodel.models@.len(),
    ensures
        is_definition(datamodel, m as int, params),
{
    let model = &datamodel.models[m];
    let carried = model.crdt_create_params();
    CreateParams { required: model.required_scalar_fields(), carried: datamodel.crdt_types(m, &carried) }
}

/// The arguments of a list of fields, followed by the parameters.
pub open spec fn arguments_of(fields: Seq<usize>) -> Seq<Argument> {
    Seq::new(
        fields.len() + 1,
        |i: int|
            if i < fields.len() {
                Argument::Field(fields[i])
            } else {
                Argument::Params
            },
    )
}

/// What a call that makes a record is given: the scalar fields that must be
/// given, in their order, and then the parameters that set the others.
pub fn args(model: &Model) -> (r: Vec<Argument>)
    ensures
        r@ == arguments_of(model.required_upto(model.fields@.len() as int)),
{
    let fields = model.required_scalar_fields();
    let mut r: Vec<Argument> = Vec::new();
    let mut k: usize = 0;
    while k < fields.len()
        invariant
            k <= fields@.len(),
            r@.len() == k,
            forall|j: int| 0 <= j < k ==> #[trigger] r@[j] == Argument::Field(fields@[j]),
        decreases fields@.len() - k,
    {
        r.push(Argument::Field(fields[k]));
        k += 1;
    }
    r.push(Argument::Params);
    assert(r@ =~= arguments_of(fields@));
    r
}

/// The names under which the arguments of a call that makes a record are
/// put into the parameters: the fields' names in snake case, and then
/// `_params`.
pub open spec fn names_of(model: &Model, fields: Seq<usize>) -> Seq<Seq<char>> {
    Seq::new(
        fields.len() + 1,
        |i: int|
            if i < fields.len() {
                if fields[i] < model.fields@.len() {
                    model.fields@[fields[i] as int].name_snake@
                } else {
                    Seq::empty()
                }
            } else {
                "_params"@
            },
    )
}

/// The names of what the parameters are made from.
pub fn shorthand_constructor(model: &Model) -> (r: Vec<String>)
    ensures
        crate::names::strings_view(r@) == names_of(model, model.required_upto(model.fields@.len() as int)),
{
    let fields = model.required_scalar_fields();
    let mut r: Vec<String> = Vec::new();
    let mut k: usize = 0;
    while k < fields.len()
        invariant
            k <= fields@.len(),
            r@.len() == k,
            forall|j: int| 0 <= j < k ==> (#[trigger] r@[j])@ == names_of(model, fields@)[j],
        decreases fields@.len() - k,
    {
        if fields[k] < model.fields.len() {
            r.push(model.fields[fields[k]].name_snake.clone());
        } else {
            r.push(String::new());
        }
        k += 1;
    }
    r.push(String::from_str("_params"));
    assert(crate::names::strings_view(r@) =~= names_of(model, fields@));
    r
}

} // verus!
