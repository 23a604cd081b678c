//! Observation of one canonical suite execution: a receipt of what ran,
//! against which source revision, and what came back. The command is run by
//! the caller; everything the receipt concludes is decided here.
use vstd::prelude::*;
use crate::evaluator::Execution;
use crate::junit::{sha256_hex, sha256_hex_of};
use crate::outcome::Outcome;
use crate::adoption::find_suite;
use crate::experiment::suite_lookup;
use crate::manifest::ProjectManifest;
use crate::text::{chars_of, copy_string, joined, owned, same_text, string_of, text_views, trim_bounds, trimmed};

verus! {

/// An observation of one canonical execution, not authenticated qualification.
#[derive(Debug)]
pub struct TestExecutionReceipt {
    pub schema: u32,
    pub attempt_id: String,
    pub suite: String,
    pub command_key: String,
    pub command_sha256: String,
    pub started_at_unix_ms: u128,
    pub revision_before: String,
    pub revision_after: Option<String>,
    pub source_unchanged: bool,
    pub command_outcome: Outcome,
    /// Combined command and source observation outcome.
    pub outcome: Outcome,
    pub exit_code: Option<i32>,
    pub duration_ms: Option<u128>,
    pub qualification: Outcome,
    pub diagnostics: Vec<String>,
}

/// A full hexadecimal commit identity: 40 or 64 hexadecimal digits.
pub open spec fn revision_ok(s: Seq<char>) -> bool {
    (s.len() == 40 || s.len() == 64) && forall|i: int| 0 <= i < s.len() ==> {
        let c = #[trigger] s[i];
        ('0' <= c <= '9') || ('a' <= c <= 'f') || ('A' <= c <= 'F')
    }
}

/// Whether a revision reported by the source tree is a full commit identity.
pub fn revision_valid(s: &str) -> (r: bool)
    ensures
        r == revision_ok(s@),
{
    let v = chars_of(s);
    if !(v.len() == 40 || v.len() == 64) {
        return false;
    }
    let mut i: usize = 0;
    while i < v.len()
        invariant
            v@ == s@,
            i <= v@.len(),
            forall|q: int| 0 <= q < i ==> {
                let c = #[trigger] v@[q];
                ('0' <= c <= '9') || ('a' <= c <= 'f') || ('A' <= c <= 'F')
            },
        decreases v.len() - i,
    {
        let c = v[i];
        if !(('0' <= c && c <= '9') || ('a' <= c && c <= 'f') || ('A' <= c && c <= 'F')) {
            return false;
        }
        i = i + 1;
    }
    true
}

/// What the command run says by itself: an error when it could not run or
/// timed out, passed on exit code zero, failed otherwise.
pub open spec fn command_outcome_of(run: Result<Execution, String>) -> Outcome {
    match run {
        Err(_) => Outcome::Error,
        Ok(e) => if e.timed_out {
            Outcome::Error
        } else if e.exit_code == Some(0i32) {
            Outcome::Passed
        } else {
            Outcome::Failed
        },
    }
}

/// A failed command fails the receipt; an error stays an error; a source
/// that changed or could not be rechecked leaves it unverified.
pub open spec fn receipt_outcome(command: Outcome, unchanged: bool) -> Outcome {
    if command == Outcome::Failed {
        Outcome::Failed
    } else if command == Outcome::Error {
        Outcome::Error
    } else if !unchanged {
        Outcome::Unverified
    } else {
        Outcome::Passed
    }
}

pub open spec fn timeout_note() -> Seq<char> {
    "Canonical command exceeded its timeout."@
}

pub open spec fn run_failed_note() -> Seq<char> {
    "Canonical command execution failed; no successful exit was observed."@
}

pub open spec fn source_changed_note() -> Seq<char> {
    "Source identity changed or could not be verified after execution."@
}

pub open spec fn receipt_scope_note() -> Seq<char> {
    "One observed canonical command attempt only. A successful exit does not establish test counts, completeness or effectiveness. Ignored inputs, external dependencies, internal retries, quarantine completeness and CI identity are not verified. No test report was inspected. This receipt alone cannot qualify a gate; no ledger was updated."@
}

pub open spec fn receipt_notes(run: Result<Execution, String>, unchanged: bool) -> Seq<Seq<char>> {
    let first: Seq<Seq<char>> = match run {
        Err(_) => seq![run_failed_note()],
        Ok(e) => if e.timed_out { seq![timeout_note()] } else { Seq::empty() },
    };
    first + (if unchanged { Seq::empty() } else { seq![source_changed_note()] }) + seq![receipt_scope_note()]
}

/// Whether the source after the run is the revision it started from.
pub open spec fn unchanged_source(before: Seq<char>, after: Option<String>) -> bool {
    match after {
        Some(a) => a@ == before,
        None => false,
    }
}

/// The receipt of one observed suite execution: the command identity is the
/// SHA-256 of its serialized form, the run and the source recheck decide the
/// outcome, and the receipt never qualifies anything.
pub fn observe_test_execution(
    attempt_id: String,
    suite: String,
    command_key: String,
    command_json: &[u8],
    started_at_unix_ms: u128,
    revision_before: String,
    run: Result<Execution, String>,
    revision_after: Option<String>,
) -> (r: TestExecutionReceipt)
    ensures
        r.schema == 2,
        r.attempt_id == attempt_id,
        r.suite == suite,
        r.command_key == command_key,
        r.command_sha256@ == sha256_hex(command_json@),
        r.started_at_unix_ms == started_at_unix_ms,
        r.revision_before == revision_before,
        r.revision_after == revision_after,
        r.source_unchanged == unchanged_source(revision_before@, revision_after),
        r.command_outcome == command_outcome_of(run),
        r.outcome == receipt_outcome(command_outcome_of(run), unchanged_source(revision_before@, revision_after)),
        r.exit_code == (match run { Ok(e) => e.exit_code, Err(_) => None }),
        r.duration_ms == (match run { Ok(e) => Some(e.duration_ms as u128), Err(_) => None::<u128> }),
        r.qualification == Outcome::Unverified,
        text_views(r.diagnostics@) == receipt_notes(run, unchanged_source(revision_before@, revision_after)),
{
    let mut diagnostics: Vec<String> = Vec::new();
    let (command_outcome, exit_code, duration_ms) = match &run {
        Ok(e) => {
            let o = if e.timed_out {
                diagnostics.push(owned("Canonical command exceeded its timeout."));
                Outcome::Error
            } else if e.exit_code == Some(0i32) {
                Outcome::Passed
            } else {
                Outcome::Failed
            };
            (o, e.exit_code, Some(e.duration_ms as u128))
        },
        Err(_) => {
            diagnostics.push(owned("Canonical command execution failed; no successful exit was observed."));
            (Outcome::Error, None, None)
        },
    };
    let unchanged = match &revision_after {
        Some(a) => same_text(a.as_str(), revision_before.as_str()),
        None => false,
    };
    if !unchanged {
        diagnostics.push(owned("Source identity changed or could not be verified after execution."));
    }
    diagnostics.push(owned("One observed canonical command attempt only. A successful exit does not establish test counts, completeness or effectiveness. Ignored inputs, external dependencies, internal retries, quarantine completeness and CI identity are not verified. No test report was inspected. This receipt alone cannot qualify a gate; no ledger was updated."));
    proof {
        let first: Seq<Seq<char>> = match run {
            Err(_) => seq![run_failed_note()],
            Ok(e) => if e.timed_out { seq![timeout_note()] } else { Seq::empty() },
        };
        let mid: Seq<Seq<char>> = if unchanged { Seq::empty() } else { seq![source_changed_note()] };
        assert(text_views(diagnostics@) =~= first + mid + seq![receipt_scope_note()]);
    }
    let outcome = if command_outcome == Outcome::Failed {
        Outcome::Failed
    } else if command_outcome == Outcome::Error {
        Outcome::Error
    } else if !unchanged {
        Outcome::Unverified
    } else {
        Outcome::Passed
    };
    TestExecutionReceipt {
        schema: 2,
        attempt_id,
        suite,
        command_key,
        command_sha256: sha256_hex_of(command_json),
        started_at_unix_ms,
        revision_before,
        revision_after,
        source_unchanged: unchanged,
        command_outcome,
        outcome,
        exit_code,
        duration_ms,
        qualification: Outcome::Unverified,
        diagnostics,
    }
}

/// What inspecting the source tree before or after a run showed.
#[derive(Debug)]
pub enum SourceState {
    /// The status of the tree could not be inspected.
    StatusUnavailable,
    /// The status listed changes, or could not be listed cleanly.
    Dirty,
    /// The revision could not be inspected.
    RevisionUnavailable,
    /// The tree has no readable commit.
    NoCommit,
    /// The reported revision is not text.
    RevisionNotText,
    /// A clean tree whose head commit was reported as this text.
    Clean(String),
}

/// Why the source tree is not a clean, committed revision.
#[derive(Clone, Copy, Debug, PartialEq, Eq, Structural)]
pub enum SourceProblem {
    StatusUnavailable,
    Dirty,
    RevisionUnavailable,
    NoCommit,
    RevisionNotText,
    InvalidRevision,
}

pub open spec fn source_problem_text(p: SourceProblem) -> Seq<char> {
    match p {
        SourceProblem::StatusUnavailable => "could not inspect source status"@,
        SourceProblem::Dirty => "source is dirty or unavailable"@,
        SourceProblem::RevisionUnavailable => "could not inspect source revision"@,
        SourceProblem::NoCommit => "source has no readable commit"@,
        SourceProblem::RevisionNotText => "source revision is not UTF-8"@,
        SourceProblem::InvalidRevision => "invalid source revision"@,
    }
}

impl SourceProblem {
    pub fn message(&self) -> (r: &'static str)
        ensures
            r@ == source_problem_text(*self),
    {
        match self {
            SourceProblem::StatusUnavailable => "could not inspect source status",
            SourceProblem::Dirty => "source is dirty or unavailable",
            SourceProblem::RevisionUnavailable => "could not inspect source revision",
            SourceProblem::NoCommit => "source has no readable commit",
            SourceProblem::RevisionNotText => "source revision is not UTF-8",
            SourceProblem::InvalidRevision => "invalid source revision",
        }
    }
}

/// The clean committed revision of a source tree: the reported head,
/// trimmed, when it is a full hexadecimal commit identity.
pub open spec fn source_revision(s: SourceState) -> Result<Seq<char>, SourceProblem> {
    match s {
        SourceState::StatusUnavailable => Err(SourceProblem::StatusUnavailable),
        SourceState::Dirty => Err(SourceProblem::Dirty),
        SourceState::RevisionUnavailable => Err(SourceProblem::RevisionUnavailable),
        SourceState::NoCommit => Err(SourceProblem::NoCommit),
        SourceState::RevisionNotText => Err(SourceProblem::RevisionNotText),
        SourceState::Clean(head) => if revision_ok(trimmed(head@)) {
            Ok(trimmed(head@))
        } else {
            Err(SourceProblem::InvalidRevision)
        },
    }
}

/// The revision of a clean, committed source tree, or why there is none.
pub fn clean_revision(s: &SourceState) -> (r: Result<String, SourceProblem>)
    ensures
        match source_revision(*s) {
            Ok(v) => r matches Ok(x) && x@ == v,
            Err(p) => r == Err::<String, SourceProblem>(p),
        },
{
    match s {
        SourceState::StatusUnavailable => Err(SourceProblem::StatusUnavailable),
        SourceState::Dirty => Err(SourceProblem::Dirty),
        SourceState::RevisionUnavailable => Err(SourceProblem::RevisionUnavailable),
        SourceState::NoCommit => Err(SourceProblem::NoCommit),
        SourceState::RevisionNotText => Err(SourceProblem::RevisionNotText),
        SourceState::Clean(head) => {
            let chars = chars_of(head.as_str());
            let (a, b) = trim_bounds(&chars);
            let mut kept: Vec<char> = Vec::new();
            let mut i: usize = a;
            while i < b
                invariant
                    a <= i <= b <= chars@.len(),
                    kept@ == chars@.subrange(a as int, i as int),
                decreases b - i,
            {
                kept.push(chars[i]);
                assert(chars@.subrange(a as int, i + 1) =~= chars@.subrange(a as int, i as int).push(chars@[i as int]));
                i = i + 1;
            }
            let revision = string_of(kept.as_slice());
            if revision_valid(revision.as_str()) {
                Ok(revision)
            } else {
                Err(SourceProblem::InvalidRevision)
            }
        },
    }
}

/// Why a suite execution is not started.
#[derive(Debug, PartialEq, Eq)]
pub enum ExecutionError {
    /// The source tree is not clean and committed.
    UncleanSource(SourceProblem),
    /// No canonical suite has the requested identity.
    UnknownSuite,
    /// The source changed while the command was selected.
    SourceChanged,
}

pub open spec fn execution_error_text(e: ExecutionError) -> Seq<char> {
    match e {
        ExecutionError::UncleanSource(p) => "a clean committed source tree is required before execution: "@
            + source_problem_text(p),
        ExecutionError::UnknownSuite => "unknown canonical test suite; no command was executed"@,
        ExecutionError::SourceChanged => "source changed while selecting the command; nothing was executed"@,
    }
}

impl ExecutionError {
    /// What the error says to a person.
    pub fn message(&self) -> (r: String)
        ensures
            r@ == execution_error_text(*self),
    {
        match self {
            ExecutionError::UncleanSource(p) => joined("a clean committed source tree is required before execution: ", p.message()),
            ExecutionError::UnknownSuite => owned("unknown canonical test suite; no command was executed"),
            ExecutionError::SourceChanged => owned("source changed while selecting the command; nothing was executed"),
        }
    }
}

/// What is run once the source and the suite are settled: the revision it
/// starts from, the suite, and the name of its command.
#[derive(Debug)]
pub struct ExecutionPlan {
    pub revision: String,
    pub suite: String,
    pub command_key: String,
}

/// Settles a suite execution before anything runs: the source must be a
/// clean committed revision and the suite a canonical suite of the contract
/// (the first with that identity).
pub fn plan_test_execution(manifest: &ProjectManifest, suite_id: &str, source: &SourceState) -> (r: Result<ExecutionPlan, ExecutionError>)
    ensures
        r is Err <==> (source_revision(*source) is Err || find_suite(manifest.testing.suites@, suite_id@) is None),
        source_revision(*source) matches Err(p) ==> r == Err::<ExecutionPlan, ExecutionError>(ExecutionError::UncleanSource(p)),
        source_revision(*source) is Ok && find_suite(manifest.testing.suites@, suite_id@) is None
            ==> r == Err::<ExecutionPlan, ExecutionError>(ExecutionError::UnknownSuite),
        r matches Ok(plan) ==> source_revision(*source) == Ok::<Seq<char>, SourceProblem>(plan.revision@)
            && (find_suite(manifest.testing.suites@, suite_id@) matches Some(s)
            && plan.suite@ == s.id@ && plan.command_key@ == s.command@),
{
    let revision = match clean_revision(source) {
        Ok(v) => v,
        Err(p) => return Err(ExecutionError::UncleanSource(p)),
    };
    match suite_lookup(manifest.testing.suites.as_slice(), suite_id) {
        None => Err(ExecutionError::UnknownSuite),
        Some(s) => Ok(ExecutionPlan { revision, suite: copy_string(&s.id), command_key: copy_string(&s.command) }),
    }
}

/// Whether the source, inspected again just before the run, is still the
/// planned revision.
pub fn confirm_source(plan: &ExecutionPlan, again: &SourceState) -> (r: Result<(), ExecutionError>)
    ensures
        r is Ok <==> source_revision(*again) == Ok::<Seq<char>, SourceProblem>(plan.revision@),
        r is Err ==> r == Err::<(), ExecutionError>(ExecutionError::SourceChanged),
{
    match clean_revision(again) {
        Ok(v) => if same_text(v.as_str(), plan.revision.as_str()) { Ok(()) } else { Err(ExecutionError::SourceChanged) },
        Err(_) => Err(ExecutionError::SourceChanged),
    }
}

/// The revision after a run, where the source is still clean and committed.
pub fn revision_after(after: &SourceState) -> (r: Option<String>)
    ensures
        match source_revision(*after) {
            Ok(v) => r matches Some(x) && x@ == v,
            Err(_) => r is None,
        },
{
    match clean_revision(after) {
        Ok(v) => Some(v),
        Err(_) => None,
    }
}

} // verus!
