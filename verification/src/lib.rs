//! Verified evaluation of development-workflow evidence: rule outcomes, strict
//! gate aggregation, remote CI observations and project-contract checks.
use vstd::prelude::*;

pub mod text;
pub mod outcome;
pub mod json;
pub mod manifest;
pub mod policy;
pub mod remote;
pub mod bootstrap;
pub mod adoption;
pub mod experiment;
pub mod acceptance;
pub mod views;
pub mod evaluator;
pub mod junit;
pub mod execution;
pub mod acceptance_check;
pub mod inspection;
pub mod doctor;
pub mod upgrade;
pub mod ledger;
pub mod schema;

verus! {

} // verus!
