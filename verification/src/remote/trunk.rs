//! Qualification of the exact current trunk revision, as the sequence of
//! decisions taken on each provider observation. The caller performs each
//! requested observation and hands back what it saw; the library decides.
use vstd::prelude::*;
use crate::manifest::{CiProvider, ProjectManifest};
use crate::outcome::{EvidenceView, Outcome};
use crate::policy::QualificationPolicy;
use crate::remote::capability::{
    CapabilityView, RemoteCapability, capability, capability_view, combine, combined, failed,
    failed_view, invalidate, lemma_combined, refresh, refreshed, unverified, unverified_view,
};
use crate::remote::jobs::{observed_view, same_observation};
use crate::remote::qualification::{CheckRows, ProtectionObservation, checks_capability, checks_view, protection, protection_spec};
use crate::remote::run::{
    RemoteError, Repository, RunExpectation, RunVerification, expectation_parts_ok, text_result,
    validate,
};
use crate::text::{copy_string, decimal, decimal_text, eq_ignore_ascii_case, joined, owned, same_ignoring_ascii_case, same_text};

verus! {

/// Provider-neutral evidence for the exact current trunk revision.
#[derive(Debug)]
pub struct QualifiedTrunk {
    /// Revision supplied by the caller, never substituted with another SHA.
    pub revision: String,
    /// Reviewed expectations, not an approval manufactured by this verifier.
    pub policy: Option<QualificationPolicy>,
    /// Selected exact-run and required-job observations.
    pub run: Option<RunVerification>,
    /// Required run/jobs outcome.
    pub pipeline: RemoteCapability,
    /// Producer-bound additional checks outcome.
    pub checks: RemoteCapability,
    /// Reviewed merge-policy comparison outcome.
    pub protection: RemoteCapability,
    /// Combined CI qualification, not artifact qualification.
    pub outcome: Outcome,
}

/// A qualification report as plain values.
pub struct TrunkView {
    pub revision: Seq<char>,
    pub policy: Option<QualificationPolicy>,
    pub run: Option<RunVerification>,
    pub pipeline: CapabilityView,
    pub checks: CapabilityView,
    pub protection: CapabilityView,
    pub outcome: Outcome,
}

impl View for QualifiedTrunk {
    type V = TrunkView;

    open spec fn view(&self) -> TrunkView {
        TrunkView {
            revision: self.revision@,
            policy: self.policy,
            run: self.run,
            pipeline: self.pipeline@,
            checks: self.checks@,
            protection: self.protection@,
            outcome: self.outcome,
        }
    }
}

pub open spec fn unavailable_view(revision: Seq<char>, reason: Seq<char>) -> TrunkView {
    TrunkView {
        revision,
        policy: None,
        run: None,
        pipeline: unverified_view(reason),
        checks: unverified_view(reason),
        protection: unverified_view(reason),
        outcome: Outcome::Unverified,
    }
}

impl QualifiedTrunk {
    /// A report in which nothing could be verified, for `reason`.
    pub fn unavailable(revision: &str, reason: &str) -> (r: QualifiedTrunk)
        ensures
            r@ == unavailable_view(revision@, reason@),
    {
        QualifiedTrunk {
            revision: owned(revision),
            policy: None,
            run: None,
            pipeline: unverified(reason),
            checks: unverified(reason),
            protection: unverified(reason),
            outcome: Outcome::Unverified,
        }
    }

    /// Combines the three capabilities into the overall outcome.
    pub fn aggregate(&mut self)
        ensures
            final(self)@ == (TrunkView {
                outcome: combined(seq![old(self).pipeline.outcome, old(self).checks.outcome, old(self).protection.outcome]),
                ..old(self)@
            }),
    {
        let outcomes = [self.pipeline.outcome, self.checks.outcome, self.protection.outcome];
        assert(outcomes@ =~= seq![self.pipeline.outcome, self.checks.outcome, self.protection.outcome]);
        self.outcome = combine(&outcomes);
    }
}

pub open spec fn missing_policy_message() -> Seq<char> {
    "Reviewed remote qualification policy is missing; explicitly migrate the project contract to schema 2 after developer review"@
}

pub open spec fn pending_message() -> Seq<char> {
    "Remote qualification has not completed"@
}

pub open spec fn not_head_message() -> Seq<char> {
    "Requested revision is not the current remote trunk head; a historical or change-branch run cannot qualify current trunk"@
}

pub open spec fn protection_summary() -> Seq<char> {
    "Reviewed merge policy matches the observed provider settings"@
}

pub open spec fn no_run_message() -> Seq<char> {
    "No matching run exists for the requested revision, trunk, source and workflow"@
}

pub open spec fn run_failed_message() -> Seq<char> {
    "The selected run failed during qualification"@
}

pub open spec fn run_changed_message() -> Seq<char> {
    "Run status or attempt changed or became unavailable during qualification"@
}

pub open spec fn latest_changed_message() -> Seq<char> {
    "Latest matching run changed or could not be rechecked"@
}

pub open spec fn trunk_changed_message() -> Seq<char> {
    "Remote trunk changed or became unavailable during qualification"@
}

pub open spec fn selected_message(id: u64, revision: Seq<char>) -> Seq<char> {
    "Selected run "@ + decimal(id as nat) + " for revision "@ + revision + "; required jobs are explicit policy inputs"@
}

/// The expectation for the current trunk revision, from the project
/// contract and the reviewed policy.
pub open spec fn identity_spec(manifest: ProjectManifest, revision: Seq<char>, policy: QualificationPolicy) -> Option<RemoteError> {
    match manifest.project.ci.remote {
        None => Some(RemoteError::MissingRemote),
        Some(repo) => if repo.provider != manifest.project.ci.provider {
            Some(RemoteError::ProviderMismatch { declared: manifest.project.ci.provider, detected: repo.provider })
        } else {
            None
        },
    }
}

/// The repository and run expectation that qualify `revision` on trunk:
/// the declared remote of the declared provider, run ID 1 until a run is
/// selected, the trunk branch, and the reviewed source and workflow.
pub fn expected_identity(manifest: &ProjectManifest, revision: &str, policy: &QualificationPolicy) -> (r: Result<(Repository, RunExpectation), RemoteError>)
    ensures
        identity_spec(*manifest, revision@, *policy) matches Some(e) ==> r == Err::<(Repository, RunExpectation), RemoteError>(e),
        identity_spec(*manifest, revision@, *policy) is None ==> {
            let repo = manifest.project.ci.remote->0;
            if expectation_parts_ok(repo, revision@, 1, manifest.project.trunk@, policy.source@, policy.workflow_id) {
                r matches Ok((rep, e)) && rep == repo && e.revision@ == revision@ && e.run_id == 1
                    && e.reference == manifest.project.trunk && e.source == policy.source && e.workflow_id == policy.workflow_id
            } else {
                r matches Err(RemoteError::InvalidExpectation(_))
            }
        },
{
    let repository = match &manifest.project.ci.remote {
        None => return Err(RemoteError::MissingRemote),
        Some(repo) => repo.copy(),
    };
    if repository.provider != manifest.project.ci.provider {
        return Err(RemoteError::ProviderMismatch { declared: manifest.project.ci.provider, detected: repository.provider });
    }
    let expected = RunExpectation {
        revision: owned(revision),
        run_id: 1,
        reference: copy_string(&manifest.project.trunk),
        source: copy_string(&policy.source),
        workflow_id: policy.workflow_id,
    };
    match validate(&repository, &expected) {
        Ok(()) => Ok((repository, expected)),
        Err(e) => Err(e),
    }
}

/// Where a qualification stands: which observation it waits for.
#[derive(Clone, Copy, Debug, PartialEq, Eq, Structural)]
pub enum Stage {
    Branch,
    Protection,
    Selection,
    Run,
    FirstChecks,
    SecondChecks,
    FinalRun,
    Latest,
    BranchAgain,
    ProtectionAgain,
}

/// The observation the caller is to make next.
#[derive(Clone, Copy, Debug, PartialEq, Eq, Structural)]
pub enum TrunkRequest {
    /// The head revision of the trunk branch.
    BranchRevision,
    /// The provider's merge-protection settings for the reviewed policy.
    Protection,
    /// The newest run matching `expected` (its run ID is not yet chosen).
    SelectRun,
    /// The run `expected`, with the policy's required jobs.
    RunWithJobs,
    /// The check rows of the revision for the selected run.
    Checks,
    /// The run `expected` once more, without jobs.
    FinalRun,
}

/// What the caller observed.
#[derive(Debug)]
pub enum TrunkEvent {
    Branch(Result<String, String>),
    Protection(ProtectionObservation),
    Selection(Result<Option<u64>, String>),
    Run(Result<RunVerification, RemoteError>),
    Checks(Result<CheckRows, String>),
}

/// A qualification in progress.
#[derive(Debug)]
pub struct TrunkQualification {
    pub stage: Stage,
    pub revision: String,
    pub provider: CiProvider,
    pub policy: QualificationPolicy,
    pub expected: RunExpectation,
    /// The trunk head first observed.
    pub branch: String,
    /// The selected run, once one is.
    pub selected: u64,
    pub run: Option<RunVerification>,
    pub pipeline: RemoteCapability,
    pub checks: RemoteCapability,
    pub protection: RemoteCapability,
}

pub struct MachineView {
    pub stage: Stage,
    pub revision: Seq<char>,
    pub provider: CiProvider,
    pub policy: QualificationPolicy,
    pub expected: RunExpectation,
    pub branch: Seq<char>,
    pub selected: u64,
    pub run: Option<RunVerification>,
    pub pipeline: CapabilityView,
    pub checks: CapabilityView,
    pub protection: CapabilityView,
}

impl View for TrunkQualification {
    type V = MachineView;

    open spec fn view(&self) -> MachineView {
        MachineView {
            stage: self.stage,
            revision: self.revision@,
            provider: self.provider,
            policy: self.policy,
            expected: self.expected,
            branch: self.branch@,
            selected: self.selected,
            run: self.run,
            pipeline: self.pipeline@,
            checks: self.checks@,
            protection: self.protection@,
        }
    }
}

/// Either the next observation to make, or the finished report.
#[derive(Debug)]
pub enum TrunkNext {
    Ask(TrunkQualification, TrunkRequest),
    Finished(Result<QualifiedTrunk, RemoteError>),
}

pub enum NextView {
    Ask(MachineView, TrunkRequest),
    Finished(Result<TrunkView, RemoteError>),
}

pub open spec fn next_view(n: TrunkNext) -> NextView {
    match n {
        TrunkNext::Ask(m, q) => NextView::Ask(m@, q),
        TrunkNext::Finished(Ok(t)) => NextView::Finished(Ok(t@)),
        TrunkNext::Finished(Err(e)) => NextView::Finished(Err(e)),
    }
}

/// Starts qualifying `revision` as the current trunk head: without a
/// reviewed policy nothing is verified; an invalid identity is refused;
/// otherwise the trunk head is observed first, with every capability pending.
pub fn qualify_trunk(manifest: ProjectManifest, revision: &str) -> (r: TrunkNext)
    ensures
        qualifies(next_view(r), revision@),
        manifest.project.ci.qualification is None ==> next_view(r) == NextView::Finished(Ok(unavailable_view(revision@, missing_policy_message()))),
        manifest.project.ci.qualification matches Some(policy) ==> {
            &&& identity_spec(manifest, revision@, policy) matches Some(e) ==> next_view(r) == NextView::Finished(Err(e))
            &&& identity_spec(manifest, revision@, policy) is None ==> {
                let repo = manifest.project.ci.remote->0;
                if expectation_parts_ok(repo, revision@, 1, manifest.project.trunk@, policy.source@, policy.workflow_id) {
                    r matches TrunkNext::Ask(m, q) && q == TrunkRequest::BranchRevision && m.stage == Stage::Branch
                        && m.revision@ == revision@ && m.provider == repo.provider && m.policy == policy
                        && m.expected.revision@ == revision@ && m.expected.run_id == 1
                        && m.expected.reference == manifest.project.trunk && m.expected.source == policy.source
                        && m.expected.workflow_id == policy.workflow_id && m.run is None
                        && m.pipeline@ == unverified_view(pending_message())
                        && m.checks@ == unverified_view(pending_message())
                        && m.protection@ == unverified_view(pending_message())
                } else {
                    r matches TrunkNext::Finished(Err(RemoteError::InvalidExpectation(_)))
                }
            }
        },
{
    proof {
        reveal_strlit("Reviewed remote qualification policy is missing; explicitly migrate the project contract to schema 2 after developer review");
        reveal_strlit("Remote qualification has not completed");
    }
    let mut manifest = manifest;
    let policy = match manifest.project.ci.qualification.take() {
        None => {
            proof { lemma_unavailable_combines(revision@, missing_policy_message()); }
            return TrunkNext::Finished(Ok(QualifiedTrunk::unavailable(revision, "Reviewed remote qualification policy is missing; explicitly migrate the project contract to schema 2 after developer review")));
        },
        Some(p) => p,
    };
    let (repository, expected) = match expected_identity(&manifest, revision, &policy) {
        Ok(x) => x,
        Err(e) => return TrunkNext::Finished(Err(e)),
    };
    TrunkNext::Ask(
        TrunkQualification {
            stage: Stage::Branch,
            revision: owned(revision),
            provider: repository.provider,
            policy,
            expected,
            branch: String::new(),
            selected: 0,
            run: None,
            pipeline: unverified("Remote qualification has not completed"),
            checks: unverified("Remote qualification has not completed"),
            protection: unverified("Remote qualification has not completed"),
        },
        TrunkRequest::BranchRevision,
    )
}

/// Whether an event answers the observation a stage waits for.
pub open spec fn event_fits(stage: Stage, e: TrunkEvent) -> bool {
    match stage {
        Stage::Branch | Stage::BranchAgain => e is Branch,
        Stage::Protection | Stage::ProtectionAgain => e is Protection,
        Stage::Selection | Stage::Latest => e is Selection,
        Stage::Run | Stage::FinalRun => e is Run,
        Stage::FirstChecks | Stage::SecondChecks => e is Checks,
    }
}

/// A capability whose evidence was lost, unless it is a known failure.
pub open spec fn invalidated(c: CapabilityView, reason: Seq<char>) -> CapabilityView {
    if c.outcome == Outcome::Failed {
        c
    } else {
        unverified_view(reason)
    }
}

pub open spec fn jobs_outcome_of(run: RunVerification) -> Outcome {
    match run.jobs {
        Some(j) => j.outcome,
        None => Outcome::Unverified,
    }
}

/// The decision taken on one observation.
pub open spec fn step_spec(m: MachineView, e: TrunkEvent) -> NextView {
    match (m.stage, e) {
        (Stage::Branch, TrunkEvent::Branch(r)) => match r {
            Err(reason) => NextView::Finished(Ok(unavailable_view(m.revision, reason@))),
            Ok(b) => if !same_ignoring_ascii_case(b@, m.revision) {
                NextView::Finished(Ok(unavailable_view(m.revision, not_head_message())))
            } else {
                NextView::Ask(MachineView { stage: Stage::Protection, branch: b@, ..m }, TrunkRequest::Protection)
            },
        },
        (Stage::Protection, TrunkEvent::Protection(o)) => NextView::Ask(
            MachineView {
                stage: Stage::Selection,
                protection: capability_view(protection_spec(m.policy, m.expected.reference@, o), protection_summary()),
                ..m
            },
            TrunkRequest::SelectRun,
        ),
        (Stage::Selection, TrunkEvent::Selection(s)) => match s {
            Err(reason) => NextView::Ask(MachineView { stage: Stage::BranchAgain, pipeline: unverified_view(reason@), ..m }, TrunkRequest::BranchRevision),
            Ok(None) => NextView::Ask(MachineView { stage: Stage::BranchAgain, pipeline: unverified_view(no_run_message()), ..m }, TrunkRequest::BranchRevision),
            Ok(Some(id)) => NextView::Ask(
                MachineView { stage: Stage::Run, selected: id, expected: RunExpectation { run_id: id, ..m.expected }, ..m },
                TrunkRequest::RunWithJobs,
            ),
        },
        (Stage::Run, TrunkEvent::Run(r)) => match r {
            Err(err) => NextView::Finished(Err(err)),
            Ok(run) => NextView::Ask(
                MachineView {
                    stage: Stage::FirstChecks,
                    run: Some(run),
                    pipeline: CapabilityView {
                        outcome: combined(seq![run.outcome, jobs_outcome_of(run)]),
                        evidence: Seq::empty(),
                        diagnostic: Some(selected_message(m.selected, m.revision)),
                    },
                    ..m
                },
                TrunkRequest::Checks,
            ),
        },
        (Stage::FirstChecks, TrunkEvent::Checks(c)) => NextView::Ask(
            MachineView { stage: Stage::SecondChecks, checks: checks_view(m.provider, m.expected, m.policy, c), ..m },
            TrunkRequest::Checks,
        ),
        (Stage::SecondChecks, TrunkEvent::Checks(c)) => NextView::Ask(
            MachineView { stage: Stage::FinalRun, checks: refreshed(m.checks, checks_view(m.provider, m.expected, m.policy, c)), ..m },
            TrunkRequest::FinalRun,
        ),
        (Stage::FinalRun, TrunkEvent::Run(r)) => match r {
            Err(err) => NextView::Finished(Err(err)),
            Ok(f) => {
                let pipeline = if f.outcome == Outcome::Failed {
                    failed_view(run_failed_message())
                } else if f.outcome != Outcome::Passed || (m.run matches Some(run) && observed_view(f.observed) != observed_view(run.observed)) {
                    invalidated(m.pipeline, run_changed_message())
                } else {
                    m.pipeline
                };
                NextView::Ask(MachineView { stage: Stage::Latest, pipeline, ..m }, TrunkRequest::SelectRun)
            },
        },
        (Stage::Latest, TrunkEvent::Selection(s)) => {
            let pipeline = if s == Ok::<Option<u64>, String>(Some(m.selected)) {
                m.pipeline
            } else {
                invalidated(m.pipeline, latest_changed_message())
            };
            NextView::Ask(MachineView { stage: Stage::BranchAgain, pipeline, ..m }, TrunkRequest::BranchRevision)
        },
        (Stage::BranchAgain, TrunkEvent::Branch(r)) => {
            let pipeline = if text_result(r) == Ok::<Seq<char>, Seq<char>>(m.branch) {
                m.pipeline
            } else {
                invalidated(m.pipeline, trunk_changed_message())
            };
            NextView::Ask(MachineView { stage: Stage::ProtectionAgain, pipeline, ..m }, TrunkRequest::Protection)
        },
        (Stage::ProtectionAgain, TrunkEvent::Protection(o)) => {
            let protection = refreshed(m.protection, capability_view(protection_spec(m.policy, m.expected.reference@, o), protection_summary()));
            NextView::Finished(Ok(TrunkView {
                revision: m.revision,
                policy: Some(m.policy),
                run: m.run,
                pipeline: m.pipeline,
                checks: m.checks,
                protection,
                outcome: combined(seq![m.pipeline.outcome, m.checks.outcome, protection.outcome]),
            }))
        },
        _ => NextView::Finished(Err(RemoteError::MissingRemote)),
    }
}

impl TrunkQualification {
    /// Takes one observation into account and says what to observe next,
    /// or returns the finished report.
    pub fn step(self, event: TrunkEvent) -> (r: TrunkNext)
        requires
            event_fits(self.stage, event),
            self.stage == Stage::FinalRun ==> self.run is Some,
            event matches TrunkEvent::Checks(Ok(cr)) ==> cr.identities@.len() == cr.rows@.len(),
        ensures
            next_view(r) == step_spec(self@, event),
    {
        proof {
            reveal_strlit("Requested revision is not the current remote trunk head; a historical or change-branch run cannot qualify current trunk");
            reveal_strlit("Reviewed merge policy matches the observed provider settings");
            reveal_strlit("No matching run exists for the requested revision, trunk, source and workflow");
            reveal_strlit("The selected run failed during qualification");
            reveal_strlit("Run status or attempt changed or became unavailable during qualification");
            reveal_strlit("Latest matching run changed or could not be rechecked");
            reveal_strlit("Remote trunk changed or became unavailable during qualification");
            reveal_strlit("Selected run ");
            reveal_strlit(" for revision ");
            reveal_strlit("; required jobs are explicit policy inputs");
        }
        let mut m = self;
        match event {
            TrunkEvent::Branch(r) => {
                if m.stage == Stage::Branch {
                    match r {
                        Err(reason) => TrunkNext::Finished(Ok(QualifiedTrunk::unavailable(m.revision.as_str(), reason.as_str()))),
                        Ok(b) => {
                            if !eq_ignore_ascii_case(b.as_str(), m.revision.as_str()) {
                                TrunkNext::Finished(Ok(QualifiedTrunk::unavailable(m.revision.as_str(), "Requested revision is not the current remote trunk head; a historical or change-branch run cannot qualify current trunk")))
                            } else {
                                m.stage = Stage::Protection;
                                m.branch = b;
                                TrunkNext::Ask(m, TrunkRequest::Protection)
                            }
                        },
                    }
                } else {
                    let same = match &r {
                        Ok(b) => same_text(b.as_str(), m.branch.as_str()),
                        Err(_) => false,
                    };
                    if !same {
                        invalidate(&mut m.pipeline, "Remote trunk changed or became unavailable during qualification");
                    }
                    m.stage = Stage::ProtectionAgain;
                    TrunkNext::Ask(m, TrunkRequest::Protection)
                }
            },
            TrunkEvent::Protection(o) => {
                let verdict = protection(&m.policy, m.expected.reference.as_str(), &o);
                let observed = capability(verdict, "Reviewed merge policy matches the observed provider settings");
                if m.stage == Stage::Protection {
                    m.protection = observed;
                    m.stage = Stage::Selection;
                    TrunkNext::Ask(m, TrunkRequest::SelectRun)
                } else {
                    refresh(&mut m.protection, observed);
                    let outcomes = [m.pipeline.outcome, m.checks.outcome, m.protection.outcome];
                    assert(outcomes@ =~= seq![m.pipeline.outcome, m.checks.outcome, m.protection.outcome]);
                    let outcome = combine(&outcomes);
                    TrunkNext::Finished(Ok(QualifiedTrunk {
                        revision: m.revision,
                        policy: Some(m.policy),
                        run: m.run,
                        pipeline: m.pipeline,
                        checks: m.checks,
                        protection: m.protection,
                        outcome,
                    }))
                }
            },
            TrunkEvent::Selection(s) => {
                if m.stage == Stage::Selection {
                    match s {
                        Err(reason) => {
                            m.pipeline = unverified(reason.as_str());
                            m.stage = Stage::BranchAgain;
                            TrunkNext::Ask(m, TrunkRequest::BranchRevision)
                        },
                        Ok(None) => {
                            m.pipeline = unverified("No matching run exists for the requested revision, trunk, source and workflow");
                            m.stage = Stage::BranchAgain;
                            TrunkNext::Ask(m, TrunkRequest::BranchRevision)
                        },
                        Ok(Some(id)) => {
                            m.selected = id;
                            m.expected.run_id = id;
                            m.stage = Stage::Run;
                            TrunkNext::Ask(m, TrunkRequest::RunWithJobs)
                        },
                    }
                } else {
                    let same = match s {
                        Ok(Some(latest)) => latest == m.selected,
                        _ => false,
                    };
                    if !same {
                        invalidate(&mut m.pipeline, "Latest matching run changed or could not be rechecked");
                    }
                    m.stage = Stage::BranchAgain;
                    TrunkNext::Ask(m, TrunkRequest::BranchRevision)
                }
            },
            TrunkEvent::Run(r) => {
                match r {
                    Err(err) => TrunkNext::Finished(Err(err)),
                    Ok(run) => {
                        if m.stage == Stage::Run {
                            let jobs_outcome = match &run.jobs {
                                Some(j) => j.outcome,
                                None => Outcome::Unverified,
                            };
                            let outcomes = [run.outcome, jobs_outcome];
                            assert(outcomes@ =~= seq![run.outcome, jobs_outcome]);
                            let outcome = combine(&outcomes);
                            let number = decimal_text(m.selected);
                            let mut text = joined("Selected run ", number.as_str());
                            text.append(" for revision ");
                            text.append(m.revision.as_str());
                            text.append("; required jobs are explicit policy inputs");
                            m.pipeline = RemoteCapability { outcome, evidence: Vec::new(), diagnostic: Some(text) };
                            assert(m.pipeline@.evidence =~= Seq::<EvidenceView>::empty());
                            m.run = Some(run);
                            m.stage = Stage::FirstChecks;
                            TrunkNext::Ask(m, TrunkRequest::Checks)
                        } else {
                            let changed = match &m.run {
                                Some(held) => !same_observation(&run.observed, &held.observed),
                                None => false,
                            };
                            if run.outcome == Outcome::Failed {
                                m.pipeline = failed("The selected run failed during qualification");
                            } else if run.outcome != Outcome::Passed || changed {
                                invalidate(&mut m.pipeline, "Run status or attempt changed or became unavailable during qualification");
                            }
                            m.stage = Stage::Latest;
                            TrunkNext::Ask(m, TrunkRequest::SelectRun)
                        }
                    },
                }
            },
            TrunkEvent::Checks(c) => {
                let observed = checks_capability(m.provider, &m.expected, &m.policy, c);
                if m.stage == Stage::FirstChecks {
                    m.checks = observed;
                    m.stage = Stage::SecondChecks;
                    TrunkNext::Ask(m, TrunkRequest::Checks)
                } else {
                    refresh(&mut m.checks, observed);
                    m.stage = Stage::FinalRun;
                    TrunkNext::Ask(m, TrunkRequest::FinalRun)
                }
            },
        }
    }
}

/// Where a qualification stands after a sequence of observations, each
/// taken as `step` takes it; a finished qualification stays finished.
pub open spec fn run_from(n: NextView, events: Seq<TrunkEvent>) -> NextView
    decreases events.len(),
{
    if events.len() == 0 {
        n
    } else {
        match n {
            NextView::Ask(m, _) => run_from(step_spec(m, events[0]), events.drop_first()),
            NextView::Finished(r) => NextView::Finished(r),
        }
    }
}

/// A qualification of `revision`: every state qualifies that revision, and a
/// finished report names it and combines its three capabilities.
pub open spec fn qualifies(n: NextView, revision: Seq<char>) -> bool {
    match n {
        NextView::Ask(m, _) => m.revision == revision,
        NextView::Finished(Ok(t)) => t.revision == revision
            && t.outcome == combined(seq![t.pipeline.outcome, t.checks.outcome, t.protection.outcome]),
        NextView::Finished(Err(_)) => true,
    }
}

proof fn lemma_unavailable_combines(revision: Seq<char>, reason: Seq<char>)
    ensures
        qualifies(NextView::Finished(Ok(unavailable_view(revision, reason))), revision),
{
    let t = unavailable_view(revision, reason);
    let s = seq![t.pipeline.outcome, t.checks.outcome, t.protection.outcome];
    assert(!s.contains(Outcome::Failed)) by {
        if s.contains(Outcome::Failed) {
            let i = choose|i: int| 0 <= i < s.len() && s[i] == Outcome::Failed;
            assert(s[i] == Outcome::Unverified);
        }
    }
    assert(s[0] != Outcome::Passed);
}

proof fn lemma_step_qualifies(m: MachineView, e: TrunkEvent)
    ensures
        qualifies(step_spec(m, e), m.revision),
{
    match (m.stage, e) {
        (Stage::Branch, TrunkEvent::Branch(Err(reason))) => lemma_unavailable_combines(m.revision, reason@),
        (Stage::Branch, TrunkEvent::Branch(Ok(b))) => lemma_unavailable_combines(m.revision, not_head_message()),
        _ => {},
    }
}

proof fn lemma_run_qualifies(n: NextView, events: Seq<TrunkEvent>, revision: Seq<char>)
    requires
        qualifies(n, revision),
    ensures
        qualifies(run_from(n, events), revision),
    decreases events.len(),
{
    if events.len() > 0 {
        if let NextView::Ask(m, _) = n {
            lemma_step_qualifies(m, events[0]);
            lemma_run_qualifies(step_spec(m, events[0]), events.drop_first(), revision);
        }
    }
}

/// A whole qualification run keeps the caller's revision, and its outcome
/// combines the three capabilities: it fails exactly when one of them
/// failed, passes exactly when all three passed, and is otherwise
/// unverified; whatever the provider answered, in whatever order.
pub proof fn lemma_qualification_run(revision: Seq<char>, start: NextView, events: Seq<TrunkEvent>)
    requires
        qualifies(start, revision),
    ensures
        run_from(start, events) matches NextView::Finished(Ok(t)) ==> {
            let s = seq![t.pipeline.outcome, t.checks.outcome, t.protection.outcome];
            &&& t.revision == revision
            &&& (t.outcome == Outcome::Failed <==> s.contains(Outcome::Failed))
            &&& (t.outcome == Outcome::Passed <==> (t.pipeline.outcome == Outcome::Passed && t.checks.outcome == Outcome::Passed
                && t.protection.outcome == Outcome::Passed))
            &&& (t.outcome == Outcome::Passed || t.outcome == Outcome::Failed || t.outcome == Outcome::Unverified)
        },
{
    lemma_run_qualifies(start, events, revision);
    if let NextView::Finished(Ok(t)) = run_from(start, events) {
        let s = seq![t.pipeline.outcome, t.checks.outcome, t.protection.outcome];
        if t.pipeline.outcome == Outcome::Passed && t.checks.outcome == Outcome::Passed && t.protection.outcome == Outcome::Passed {
            assert forall|i: int| 0 <= i < s.len() implies #[trigger] s[i] == Outcome::Passed by {}
            assert(!s.contains(Outcome::Failed)) by {
                if s.contains(Outcome::Failed) {
                    let i = choose|i: int| 0 <= i < s.len() && s[i] == Outcome::Failed;
                    assert(s[i] == Outcome::Passed);
                }
            }
        }
        if t.outcome == Outcome::Passed {
            lemma_combined(s, 0);
            lemma_combined(s, 1);
            lemma_combined(s, 2);
        }
    }
}

/// The first observation of the trunk head decides whether anything else is
/// observed: qualification goes on, to merge protection and with that head
/// recorded, exactly when the observed head is the requested revision
/// ignoring ASCII case; otherwise it finishes unverified, every capability
/// saying the revision is not the current trunk head.
pub proof fn lemma_only_the_trunk_head_is_qualified(q: TrunkQualification, b: String, r: TrunkNext)
    requires
        q.stage == Stage::Branch,
        next_view(r) == step_spec(q@, TrunkEvent::Branch(Ok(b))),
    ensures
        (r is Ask) <==> same_ignoring_ascii_case(b@, q.revision@),
        r matches TrunkNext::Ask(m, req) ==> req == TrunkRequest::Protection && m.stage == Stage::Protection && m.branch@ == b@
            && m.revision@ == q.revision@,
        !same_ignoring_ascii_case(b@, q.revision@) ==> (r matches TrunkNext::Finished(Ok(t)) && t.revision@ == q.revision@
            && t.outcome == Outcome::Unverified && t.pipeline.outcome == Outcome::Unverified
            && t.checks.outcome == Outcome::Unverified && t.protection.outcome == Outcome::Unverified
            && t.pipeline@.diagnostic == Some("Requested revision is not the current remote trunk head; a historical or change-branch run cannot qualify current trunk"@)),
{
    match r {
        TrunkNext::Ask(m, req) => {},
        TrunkNext::Finished(Ok(t)) => {},
        TrunkNext::Finished(Err(e)) => {},
    }
}

} // verus!
