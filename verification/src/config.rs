//! The settings of the completion service.
use vstd::prelude::*;

verus! {

/// The key, model and base URL of the completion service.
#[derive(Debug, Clone)]
pub struct Completion {
    pub api_key: String,
    pub model: String,
    pub base_url: String,
}

} // verus!
