//! The merge engine: folds operations, in whatever order and however often
//! they arrive, into the state of a replica.

pub mod key;
pub mod record;
pub mod schema;
pub mod state;
pub mod replica;
pub mod laws;
pub mod batch;
pub mod convergence;
