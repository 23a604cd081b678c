//! Read-only provider observations: run identity, required jobs, producer-bound
//! checks, merge protection and current-trunk qualification.
pub mod run;
pub mod checks;
pub mod protection;
pub mod rulesets;
pub mod jobs;
pub mod capability;
pub mod qualification;
pub mod trunk;
pub mod pages;
