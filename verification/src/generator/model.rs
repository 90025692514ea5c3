//! All that is generated for one model.

use vstd::prelude::*;
use crate::datamodel::Datamodel;
use crate::generator::create;
use crate::generator::create::CreateExec;
use crate::generator::create::StoreArgument;
use crate::generator::create_params;
use crate::generator::create_params::is_definition;
use crate::generator::create_params::CreateParams;
use crate::generator::fields::CrdtType;
use crate::generator::relation::are_key_constructors;
use crate::generator::relation::are_keys;
use crate::generator::relation::key_constructors;
use crate::generator::relation::model_type_tokens;
use crate::generator::relation::RelationKeyConstructor;
use crate::generator::relation::RelationKeyDefinition;
use crate::generator::set_param;
use crate::generator::set_param::are_params;
use crate::generator::set_param::CRDTSetParam;
use crate::generator::set_param::SetParam;
use crate::generator::sync_id;
use crate::generator::sync_id::are_parts;
use crate::generator::sync_id::are_typed;
use crate::generator::sync_id::Part;

verus! {

#[derive(Clone, Debug, PartialEq, Eq)]
pub struct ModelPlan {
    /// For a relation, the types of the keys of its two ends.
    pub keys: Option<(RelationKeyDefinition, RelationKeyDefinition)>,
    pub set_params: Vec<SetParam>,
    pub crdt_set_params: Vec<CRDTSetParam>,
    /// The fields of the identifier that is the same on every node.
    pub sync_id: Vec<(usize, CrdtType)>,
    pub create_params: CreateParams,
    pub create: CreateExec,
    /// What the store is handed when a record is made.
    pub store_arguments: Vec<StoreArgument>,
    /// How the identifier of a record that was made is put together.
    pub sync_id_parts: Vec<Part>,
    /// For a relation, how the keys of its two ends are put together.
    pub key_constructors: Option<(RelationKeyConstructor, RelationKeyConstructor)>,
}

/// All that is generated for model `m`: nothing for a model that is not
/// replicated.
pub fn generate(datamodel: &Datamodel, m: usize) -> (r: Option<ModelPlan>)
    requires
        m < datamodel.models@.len(),
    ensures
        r.is_none() <==> datamodel.models@[m as int].typ is Local,
        r matches Some(plan) ==> {
            let model = &datamodel.models@[m as int];
            &&& are_keys(datamodel, m as int, plan.keys)
            &&& are_params(datamodel, m as int, plan.set_params@, plan.crdt_set_params@)
            &&& are_typed(
                datamodel,
                m as int,
                model.scalar_ids_upto(model.fields@.len() as int),
                plan.sync_id@,
            )
            &&& is_definition(datamodel, m as int, plan.create_params)
            &&& plan.create == create::exec_of(model)
            &&& plan.store_arguments@ == model.store_arguments_upto(model.fields@.len() as int)
            &&& are_parts(
                datamodel,
                m as int,
                model.scalar_ids_upto(model.fields@.len() as int),
                plan.sync_id_parts@,
            )
            &&& are_key_constructors(datamodel, m as int, plan.key_constructors)
        },
{
    if matches!(datamodel.models[m].typ, crate::datamodel::model::ModelType::Local { .. }) {
        return None;
    }
    let (set_params, crdt_set_params) = set_param::generate(datamodel, m);
    Some(
        ModelPlan {
            keys: model_type_tokens(datamodel, m),
            set_params,
            crdt_set_params,
            sync_id: sync_id::definition(datamodel, m),
            create_params: create_params::definition(datamodel, m),
            create: create::generate(&datamodel.models[m]),
            store_arguments: datamodel.models[m].store_arguments(),
            sync_id_parts: sync_id::constructor(datamodel, m),
            key_constructors: key_constructors(datamodel, m),
        },
    )
}

} // verus!
