//! The transient edit instruction passed through an edit pipeline.
use vstd::prelude::*;
use crate::db_model_type::ModelType;

verus! {

/// An edit instruction: which row to change and the payload to put there.
/// It has no codec of its own; the payload is encoded when it is stored.
#[derive(Debug, Clone, PartialEq, Eq)]
pub struct EditEntry {
    pub id: u64,
    pub model_type: ModelType,
}

} // verus!
