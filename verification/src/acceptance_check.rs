//! The acceptance verdict of a change: mechanical checks of the reviewed
//! inventory and its mappings, combined with the explicit review claim. The
//! tracked sources are checked by the caller; everything concluded from those
//! checks is decided here.
use vstd::prelude::*;
use crate::acceptance::{AcceptanceEvidence, AcceptanceMethod, AcceptanceScope, AcceptanceVerification, EvidenceError};
use crate::evaluator::{CheckKind, CheckResult};
use crate::junit::{sha256_hex, sha256_hex_of};
use crate::manifest::{ProjectManifest, TestSuite};
use crate::outcome::Outcome;
use crate::text::{blank, is_blank, same_text};

verus! {

/// The ledger entry of the current change, when one matches the staged state.
#[derive(Debug)]
pub struct AcceptanceChange {
    /// The change's work reference.
    pub work: String,
    /// Its structured acceptance section, if any.
    pub acceptance: Option<AcceptanceEvidence>,
}

/// What checking one tracked reference says: the tool failing is an error,
/// not missing evidence; any other refusal leaves the evidence unverified.
pub open spec fn reference_outcome_spec(r: Result<(), EvidenceError>) -> Outcome {
    match r {
        Ok(()) => Outcome::Passed,
        Err(EvidenceError::Git(_)) | Err(EvidenceError::Read { .. }) => Outcome::Error,
        Err(_) => Outcome::Unverified,
    }
}

pub fn reference_outcome(result: &Result<(), EvidenceError>) -> (r: Outcome)
    ensures
        r == reference_outcome_spec(*result),
{
    match result {
        Ok(()) => Outcome::Passed,
        Err(EvidenceError::Git(_)) | Err(EvidenceError::Read { .. }) => Outcome::Error,
        Err(_) => Outcome::Unverified,
    }
}

pub open spec fn failed_message() -> Seq<char> {
    "A current mapping contradicts acceptance or a required canonical suite failed"@
}

pub open spec fn error_message() -> Seq<char> {
    "Git source verification or a mapped canonical suite could not complete; inspect the index and command diagnostics. This is not a product failure"@
}

pub open spec fn missing_message() -> Seq<char> {
    "Acceptance mappings are incomplete, pending, stale, or lack current-stage canonical suite execution"@
}

pub open spec fn checked_message() -> Seq<char> {
    "Exact-change sources and all inventoried mappings checked; any mapped automated suites passed in this check. Review-only mappings do not imply execution. Semantic adequacy and inventory completeness remain claims of the identified review, not machine proof"@
}

/// A contradiction outweighs an error, an error outweighs missing evidence.
pub open spec fn result_spec(failed: bool, error: bool, missing: bool) -> (Outcome, Seq<char>) {
    if failed {
        (Outcome::Failed, failed_message())
    } else if error {
        (Outcome::Error, error_message())
    } else if missing {
        (Outcome::Unverified, missing_message())
    } else {
        (Outcome::Passed, checked_message())
    }
}

pub fn acceptance_result(failed: bool, error: bool, missing: bool) -> (r: (Outcome, &'static str))
    ensures
        (r.0, r.1@) == result_spec(failed, error, missing),
{
    if failed {
        (Outcome::Failed, "A current mapping contradicts acceptance or a required canonical suite failed")
    } else if error {
        (Outcome::Error, "Git source verification or a mapped canonical suite could not complete; inspect the index and command diagnostics. This is not a product failure")
    } else if missing {
        (Outcome::Unverified, "Acceptance mappings are incomplete, pending, stale, or lack current-stage canonical suite execution")
    } else {
        (Outcome::Passed, "Exact-change sources and all inventoried mappings checked; any mapped automated suites passed in this check. Review-only mappings do not imply execution. Semantic adequacy and inventory completeness remain claims of the identified review, not machine proof")
    }
}

/// How the suite a mapping names fared in this evaluation.
#[derive(Clone, Copy, Debug, PartialEq, Eq, Structural)]
pub enum SuiteState {
    Passed,
    Failed,
    Error,
    Missing,
}

/// The first suite result with an identity.
pub open spec fn first_suite_check(checks: Seq<CheckResult>, id: Seq<char>) -> Option<CheckResult>
    decreases checks.len(),
{
    if checks.len() == 0 {
        None
    } else if checks[0].kind == CheckKind::Suite && checks[0].id@ == id {
        Some(checks[0])
    } else {
        first_suite_check(checks.drop_first(), id)
    }
}

/// A mapped suite counts only when the contract declares it and it ran.
pub open spec fn suite_state(suites: Seq<TestSuite>, checks: Seq<CheckResult>, suite: Option<String>) -> SuiteState {
    match suite {
        None => SuiteState::Missing,
        Some(id) => if !(exists|k: int| 0 <= k < suites.len() && (#[trigger] suites[k]).id@ == id@) {
            SuiteState::Missing
        } else {
            match first_suite_check(checks, id@) {
                None => SuiteState::Missing,
                Some(c) => if c.outcome == Outcome::Passed {
                    SuiteState::Passed
                } else if c.outcome == Outcome::Failed {
                    SuiteState::Failed
                } else if c.outcome == Outcome::Error {
                    SuiteState::Error
                } else {
                    SuiteState::Missing
                },
            }
        },
    }
}

pub open spec fn mapped_state(suites: Seq<TestSuite>, checks: Seq<CheckResult>, m: AcceptanceVerification) -> SuiteState {
    if m.method == AcceptanceMethod::Automated { suite_state(suites, checks, m.suite) } else { SuiteState::Passed }
}

pub open spec fn any_missing(a: AcceptanceEvidence, suites: Seq<TestSuite>, checks: Seq<CheckResult>,
    sources: Seq<Result<(), EvidenceError>>, targets: Seq<Result<(), EvidenceError>>) -> bool {
    ||| a.conditions@.len() != a.verifications@.len()
    ||| exists|i: int| 0 <= i < sources.len() && reference_outcome_spec(#[trigger] sources[i]) == Outcome::Unverified
    ||| exists|j: int| 0 <= j < targets.len() && (reference_outcome_spec(#[trigger] targets[j]) == Outcome::Unverified
        || a.verifications@[j].outcome == Outcome::Unverified
        || mapped_state(suites, checks, a.verifications@[j]) == SuiteState::Missing)
}

pub open spec fn any_error(a: AcceptanceEvidence, suites: Seq<TestSuite>, checks: Seq<CheckResult>,
    sources: Seq<Result<(), EvidenceError>>, targets: Seq<Result<(), EvidenceError>>) -> bool {
    ||| exists|i: int| 0 <= i < sources.len() && reference_outcome_spec(#[trigger] sources[i]) == Outcome::Error
    ||| exists|j: int| 0 <= j < targets.len() && (reference_outcome_spec(#[trigger] targets[j]) == Outcome::Error
        || mapped_state(suites, checks, a.verifications@[j]) == SuiteState::Error)
}

pub open spec fn any_failed(a: AcceptanceEvidence, suites: Seq<TestSuite>, checks: Seq<CheckResult>,
    targets: Seq<Result<(), EvidenceError>>) -> bool {
    exists|j: int| 0 <= j < targets.len() && (a.verifications@[j].outcome == Outcome::Failed
        || mapped_state(suites, checks, #[trigger] a.verifications@[j]) == SuiteState::Failed)
}

pub open spec fn not_fresh_message() -> Seq<char> {
    "Acceptance evidence needs one unchanged staged source and ledger before and after checks; stage material files and re-review changed evidence"@
}

pub open spec fn no_change_message() -> Seq<char> {
    "Current schema-2 change acceptance evidence is missing; generic or schema-1 assertions cannot qualify TEST-002/003"@
}

pub open spec fn no_inventory_message() -> Seq<char> {
    "The current change needs a reviewed acceptance inventory and assertion mappings"@
}

pub open spec fn review_pending_message() -> Seq<char> {
    "Acceptance review is pending, incomplete or bound to a different inventory/mapping payload"@
}

pub open spec fn contradiction_message() -> Seq<char> {
    "The current acceptance review records a contradiction; a green suite cannot override it"@
}

pub open spec fn no_conditions_message() -> Seq<char> {
    "Reviewed exact-change rationale identifies no material acceptance conditions; this is not inferred from filenames"@
}

pub open spec fn scope_contradiction_message() -> Seq<char> {
    "No-material-conditions scope contradicts a nonempty acceptance inventory"@
}

pub open spec fn empty_inventory_message() -> Seq<char> {
    "A material change needs a nonempty reviewed acceptance inventory"@
}

/// Whether the review is complete and bound to the exact reviewed payload.
pub open spec fn review_bound(change: AcceptanceChange, a: AcceptanceEvidence, payload: Option<Seq<u8>>) -> bool {
    let review = a.review;
    &&& review.outcome != Outcome::Unverified
    &&& !is_blank(review.reviewer@)
    &&& !is_blank(review.reference@)
    &&& !is_blank(review.rationale@)
    &&& !is_blank(a.rationale@)
    &&& !is_blank(change.work@)
    &&& payload matches Some(p) && sha256_hex(p) == review.subject_sha256@
}

/// The acceptance verdict of a change, with its scope and the reason.
pub open spec fn acceptance_spec(
    manifest: ProjectManifest,
    checks: Seq<CheckResult>,
    change: Option<AcceptanceChange>,
    fresh: bool,
    payload: Option<Seq<u8>>,
    sources: Seq<Result<(), EvidenceError>>,
    targets: Seq<Result<(), EvidenceError>>,
) -> (Outcome, AcceptanceScope, Seq<char>) {
    if !fresh {
        (Outcome::Unverified, AcceptanceScope::Behavioral, not_fresh_message())
    } else {
        match change {
            None => (Outcome::Unverified, AcceptanceScope::Behavioral, no_change_message()),
            Some(ch) => match ch.acceptance {
                None => (Outcome::Unverified, AcceptanceScope::Behavioral, no_inventory_message()),
                Some(a) => if !review_bound(ch, a, payload) {
                    (Outcome::Unverified, AcceptanceScope::Behavioral, review_pending_message())
                } else if a.review.outcome == Outcome::Failed {
                    (Outcome::Failed, a.scope, contradiction_message())
                } else if a.scope == AcceptanceScope::NoMaterialConditions {
                    if a.conditions@.len() == 0 && a.verifications@.len() == 0 {
                        (Outcome::NotApplicable, a.scope, no_conditions_message())
                    } else {
                        (Outcome::Unverified, AcceptanceScope::Behavioral, scope_contradiction_message())
                    }
                } else if a.conditions@.len() == 0 {
                    (Outcome::Unverified, AcceptanceScope::Behavioral, empty_inventory_message())
                } else {
                    let suites = manifest.testing.suites@;
                    let r = result_spec(any_failed(a, suites, checks, targets), any_error(a, suites, checks, sources, targets),
                        any_missing(a, suites, checks, sources, targets));
                    (r.0, a.scope, r.1)
                },
            },
        }
    }
}

fn first_suite_exec<'a>(checks: &'a [CheckResult], id: &String) -> (r: Option<&'a CheckResult>)
    ensures
        match r {
            Some(c) => first_suite_check(checks@, id@) == Some(*c),
            None => first_suite_check(checks@, id@) is None,
        },
{
    let mut i: usize = 0;
    assert(checks@.subrange(0, checks@.len() as int) =~= checks@);
    while i < checks.len()
        invariant
            i <= checks@.len(),
            first_suite_check(checks@, id@) == first_suite_check(checks@.subrange(i as int, checks@.len() as int), id@),
        decreases checks.len() - i,
    {
        let ghost rest = checks@.subrange(i as int, checks@.len() as int);
        assert(rest[0] == checks@[i as int]);
        assert(rest.drop_first() =~= checks@.subrange(i + 1, checks@.len() as int));
        if checks[i].kind == CheckKind::Suite && same_text(checks[i].id.as_str(), id.as_str()) {
            return Some(&checks[i]);
        }
        i = i + 1;
    }
    None
}

fn suite_state_exec(suites: &Vec<TestSuite>, checks: &[CheckResult], suite: &Option<String>) -> (r: SuiteState)
    ensures
        r == suite_state(suites@, checks@, *suite),
{
    let id = match suite {
        None => { return SuiteState::Missing; },
        Some(id) => id,
    };
    let mut k: usize = 0;
    let mut declared = false;
    while k < suites.len()
        invariant
            k <= suites@.len(),
            declared == exists|q: int| 0 <= q < k && (#[trigger] suites@[q]).id@ == id@,
        decreases suites.len() - k,
    {
        if same_text(suites[k].id.as_str(), id.as_str()) {
            declared = true;
        }
        k = k + 1;
    }
    if !declared {
        return SuiteState::Missing;
    }
    match first_suite_exec(checks, id) {
        None => SuiteState::Missing,
        Some(c) => if c.outcome == Outcome::Passed {
            SuiteState::Passed
        } else if c.outcome == Outcome::Failed {
            SuiteState::Failed
        } else if c.outcome == Outcome::Error {
            SuiteState::Error
        } else {
            SuiteState::Missing
        },
    }
}

/// The acceptance verdict of the current change. `fresh` says whether the
/// staged sources and ledger stayed unchanged across the checks; `payload`
/// is the serialized reviewed inventory and mappings, whose digest the review
/// must name; `sources` and `targets` are the checks of each condition's
/// source and each mapping's target, in order.
pub fn evaluate_acceptance(
    manifest: &ProjectManifest,
    checks: &[CheckResult],
    change: &Option<AcceptanceChange>,
    fresh: bool,
    payload: Option<&[u8]>,
    sources: &[Result<(), EvidenceError>],
    targets: &[Result<(), EvidenceError>],
) -> (r: (Outcome, AcceptanceScope, String))
    requires
        change matches Some(ch) && ch.acceptance matches Some(a) ==> sources@.len() == a.conditions@.len()
            && targets@.len() == a.verifications@.len(),
    ensures
        (r.0, r.1, r.2@) == acceptance_spec(*manifest, checks@, *change, fresh,
            match payload { Some(p) => Some(p@), None => None }, sources@, targets@),
{
    if !fresh {
        return (Outcome::Unverified, AcceptanceScope::Behavioral, String::from_str("Acceptance evidence needs one unchanged staged source and ledger before and after checks; stage material files and re-review changed evidence"));
    }
    let ch = match change {
        None => { return (Outcome::Unverified, AcceptanceScope::Behavioral, String::from_str("Current schema-2 change acceptance evidence is missing; generic or schema-1 assertions cannot qualify TEST-002/003")); },
        Some(ch) => ch,
    };
    let a = match &ch.acceptance {
        None => { return (Outcome::Unverified, AcceptanceScope::Behavioral, String::from_str("The current change needs a reviewed acceptance inventory and assertion mappings")); },
        Some(a) => a,
    };
    let review = &a.review;
    let bound = match payload {
        Some(p) => same_text(sha256_hex_of(p).as_str(), review.subject_sha256.as_str()),
        None => false,
    };
    if review.outcome == Outcome::Unverified || blank(review.reviewer.as_str()) || blank(review.reference.as_str())
        || blank(review.rationale.as_str()) || blank(a.rationale.as_str()) || blank(ch.work.as_str()) || !bound {
        return (Outcome::Unverified, AcceptanceScope::Behavioral, String::from_str("Acceptance review is pending, incomplete or bound to a different inventory/mapping payload"));
    }
    if review.outcome == Outcome::Failed {
        return (Outcome::Failed, a.scope, String::from_str("The current acceptance review records a contradiction; a green suite cannot override it"));
    }
    if a.scope == AcceptanceScope::NoMaterialConditions {
        if a.conditions.len() == 0 && a.verifications.len() == 0 {
            return (Outcome::NotApplicable, a.scope, String::from_str("Reviewed exact-change rationale identifies no material acceptance conditions; this is not inferred from filenames"));
        }
        return (Outcome::Unverified, AcceptanceScope::Behavioral, String::from_str("No-material-conditions scope contradicts a nonempty acceptance inventory"));
    }
    if a.conditions.len() == 0 {
        return (Outcome::Unverified, AcceptanceScope::Behavioral, String::from_str("A material change needs a nonempty reviewed acceptance inventory"));
    }
    let ghost suites = manifest.testing.suites@;
    let mut missing = a.conditions.len() != a.verifications.len();
    let mut failed = false;
    let mut error = false;
    let mut i: usize = 0;
    while i < sources.len()
        invariant
            i <= sources@.len(),
            missing == (a.conditions@.len() != a.verifications@.len()
                || exists|q: int| 0 <= q < i && reference_outcome_spec(#[trigger] sources@[q]) == Outcome::Unverified),
            error == exists|q: int| 0 <= q < i && reference_outcome_spec(#[trigger] sources@[q]) == Outcome::Error,
            !failed,
        decreases sources.len() - i,
    {
        let status = reference_outcome(&sources[i]);
        missing = missing || status == Outcome::Unverified;
        error = error || status == Outcome::Error;
        i = i + 1;
    }
    let ghost m0 = missing;
    let ghost e0 = error;
    let mut j: usize = 0;
    while j < targets.len()
        invariant
            targets@.len() == a.verifications@.len(),
            suites == manifest.testing.suites@,
            j <= targets@.len(),
            missing == (m0 || exists|q: int| 0 <= q < j && (reference_outcome_spec(#[trigger] targets@[q]) == Outcome::Unverified
                || a.verifications@[q].outcome == Outcome::Unverified
                || mapped_state(suites, checks@, a.verifications@[q]) == SuiteState::Missing)),
            error == (e0 || exists|q: int| 0 <= q < j && (reference_outcome_spec(#[trigger] targets@[q]) == Outcome::Error
                || mapped_state(suites, checks@, a.verifications@[q]) == SuiteState::Error)),
            failed == exists|q: int| 0 <= q < j && (a.verifications@[q].outcome == Outcome::Failed
                || mapped_state(suites, checks@, #[trigger] a.verifications@[q]) == SuiteState::Failed),
        decreases targets.len() - j,
    {
        let mapping = &a.verifications[j];
        let status = reference_outcome(&targets[j]);
        let state = if mapping.method == AcceptanceMethod::Automated {
            suite_state_exec(&manifest.testing.suites, checks, &mapping.suite)
        } else {
            SuiteState::Passed
        };
        missing = missing || status == Outcome::Unverified || mapping.outcome == Outcome::Unverified || state == SuiteState::Missing;
        error = error || status == Outcome::Error || state == SuiteState::Error;
        failed = failed || mapping.outcome == Outcome::Failed || state == SuiteState::Failed;
        proof {
            assert(a.verifications@[j as int] == *mapping);
        }
        j = j + 1;
    }
    let (outcome, reason) = acceptance_result(failed, error, missing);
    (outcome, a.scope, String::from_str(reason))
}

} // verus!
