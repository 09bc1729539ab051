//! Bill creation: money normalisation, domain validation, the create-bill
//! workflow's decisions, an in-memory bill repository, field-error collection
//! and service configuration.
use vstd::prelude::*;

pub mod bills;
pub mod config;
pub mod create;
pub mod errors;
pub mod money;
pub mod store;
pub mod text;

verus! {

} // verus!
