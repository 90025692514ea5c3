//! What the generated client for replicated models consists of: for each
//! model, which parameters, identifiers and calls are generated and what each
//! is made from. Writing them out as source text is left to the caller.

use vstd::prelude::*;
use vstd::string::StringExecFns;

pub mod attribute_parser;
pub mod create;
pub mod create_params;
pub mod fields;
pub mod model;
pub mod relation;
pub mod set_param;
pub mod sync_id;

use crate::datamodel::model::Model;
use crate::datamodel::model::ModelType;

verus! {

pub struct PrismaCRDTGenerator;

impl PrismaCRDTGenerator {
    pub fn name() -> (name: String)
        ensures
            name@ == "Prisma CRDT Generator"@,
    {
        String::from_str("Prisma CRDT Generator")
    }

    pub fn default_output() -> (path: String)
        ensures
            path@ == "./prisma-crdt.rs"@,
    {
        String::from_str("./prisma-crdt.rs")
    }

    /// How many operations the channel from the client to the transport
    /// holds before the client waits.
    pub fn channel_capacity() -> (n: usize)
        ensures
            n == 64,
    {
        64
    }
}

/// What the client offers for a model: the store's own actions for a model
/// that is not replicated, and actions that also make operations for the
/// others.
#[derive(Clone, Copy, Debug, PartialEq, Eq, Structural)]
pub enum Accessor {
    Store,
    Replicated,
}

/// What the client offers for a model.
pub fn accessor(model: &Model) -> (a: Accessor)
    ensures
        a == (if model.typ is Local {
            Accessor::Store
        } else {
            Accessor::Replicated
        }),
{
    match &model.typ {
        ModelType::Local { .. } => Accessor::Store,
        _ => Accessor::Replicated,
    }
}

} // verus!
