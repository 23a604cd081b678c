//! The parts of the project contract that the evaluations read.
use vstd::prelude::*;
use crate::policy::QualificationPolicy;
use crate::remote::run::Repository;

verus! {

/// Declared CI provider.
#[derive(Clone, Copy, Debug, PartialEq, Eq, Structural)]
pub enum CiProvider {
    Unconfigured,
    Github,
    Gitlab,
}

/// Why a project contract is not acceptable.
#[derive(Debug)]
pub enum ManifestError {
    /// The contract parses but breaks one of its own rules.
    Semantic(String),
}


/// CI settings of the project contract.
#[derive(Debug)]
pub struct CiConfig {
    /// Declared CI provider.
    pub provider: CiProvider,
    /// The remote repository, once read from the declared remote.
    pub remote: Option<Repository>,
    /// Reviewed current-trunk qualification policy, if adopted.
    pub qualification: Option<QualificationPolicy>,
}

/// The project section of the contract.
#[derive(Debug)]
pub struct Project {
    /// Trunk branch name.
    pub trunk: String,
    /// CI settings.
    pub ci: CiConfig,
}

/// When a canonical test suite runs.
#[derive(Clone, Copy, Debug, PartialEq, Eq, Structural)]
pub enum TestStage {
    Local,
    PreMerge,
    PostMerge,
    Package,
    Delivery,
    Recovery,
    Scheduled,
    Evaluation,
}

/// A canonical test suite.
#[derive(Debug)]
pub struct TestSuite {
    /// Suite identifier.
    pub id: String,
    /// Name of the command that runs it.
    pub command: String,
    /// Stages at which it runs.
    pub stages: Vec<TestStage>,
}

/// Testing settings of the contract.
#[derive(Debug)]
pub struct Testing {
    pub suites: Vec<TestSuite>,
    /// The declared coverage mode's name; `None` when coverage is unconfigured.
    pub coverage_mode: Option<String>,
}

/// Whether delivery is configured.
#[derive(Clone, Copy, Debug, PartialEq, Eq, Structural)]
pub enum DeliveryStatus {
    Configured,
    MigrationRequired,
}

/// Delivery settings of the contract.
#[derive(Debug)]
pub struct Delivery {
    pub status: DeliveryStatus,
    /// The delivery mode's name.
    pub mode: String,
    /// Consumer-facing locator of the delivered artifact.
    pub artifact_locator: String,
}

/// Operations settings of the contract.
#[derive(Debug)]
pub struct Operations {
    pub health_evidence: Option<String>,
    pub observability_authority: Option<String>,
}

/// When a project extension runs.
#[derive(Clone, Copy, Debug, PartialEq, Eq, Structural)]
pub enum ExtensionStage {
    Specify,
    Design,
    Verify,
    PreMerge,
    PostMerge,
    Package,
    Deliver,
    Smoke,
    Recover,
    Evaluate,
}

/// An additive project check.
#[derive(Debug)]
pub struct ExtensionCheck {
    pub id: String,
    /// Name of the command that runs it.
    pub command: String,
    pub stage: ExtensionStage,
    /// Whether a failure blocks the stage's gate.
    pub blocking: bool,
    pub timeout_seconds: Option<u64>,
}

/// The project contract, as far as the evaluations read it.
#[derive(Debug)]
pub struct ProjectManifest {
    pub project: Project,
    /// Names of the declared authorities.
    pub authorities: Vec<String>,
    /// Names of the declared quality risks.
    pub risks: Vec<String>,
    pub testing: Testing,
    pub delivery: Delivery,
    pub operations: Operations,
    pub extensions: Vec<ExtensionCheck>,
}

} // verus!
