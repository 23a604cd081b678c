//! Remote capability outcomes and how later observations may change them:
//! a known failure is never erased by missing or changed evidence.
use vstd::prelude::*;
use crate::outcome::{Evidence, EvidenceView, Outcome, evidence_views, same_evidence};
use crate::remote::checks::verdict_view;
use crate::text::{copy_string, owned};

verus! {

/// The outcome of one remote capability, with its evidence and diagnostic.
#[derive(Debug)]
pub struct RemoteCapability {
    pub outcome: Outcome,
    pub evidence: Vec<Evidence>,
    pub diagnostic: Option<String>,
}

/// What the provider shows of a project's remote repository, capability by
/// capability.
#[derive(Debug)]
pub struct RemoteAudit {
    pub repository: String,
    pub ci: RemoteCapability,
    pub trunk: RemoteCapability,
    pub trunk_protection: RemoteCapability,
    pub branch_lifecycle: RemoteCapability,
    pub trunk_pipeline: RemoteCapability,
}

/// A capability as plain values.
pub struct CapabilityView {
    pub outcome: Outcome,
    pub evidence: Seq<EvidenceView>,
    pub diagnostic: Option<Seq<char>>,
}

impl View for RemoteCapability {
    type V = CapabilityView;

    open spec fn view(&self) -> CapabilityView {
        CapabilityView {
            outcome: self.outcome,
            evidence: evidence_views(self.evidence@),
            diagnostic: match self.diagnostic { Some(d) => Some(d@), None => None },
        }
    }
}

pub open spec fn passed_view(kind: Seq<char>, summary: Seq<char>, location: Option<Seq<char>>) -> CapabilityView {
    CapabilityView { outcome: Outcome::Passed, evidence: seq![(kind, summary, location)], diagnostic: None }
}

pub open spec fn failed_view(reason: Seq<char>) -> CapabilityView {
    CapabilityView { outcome: Outcome::Failed, evidence: Seq::empty(), diagnostic: Some(reason) }
}

pub open spec fn unverified_view(reason: Seq<char>) -> CapabilityView {
    CapabilityView { outcome: Outcome::Unverified, evidence: Seq::empty(), diagnostic: Some(reason) }
}

/// A capability that passed, with one piece of evidence.
pub fn passed(kind: &str, summary: &str, location: Option<String>) -> (r: RemoteCapability)
    ensures
        r@ == passed_view(kind@, summary@, match location { Some(l) => Some(l@), None => None }),
{
    let mut evidence: Vec<Evidence> = Vec::new();
    evidence.push(Evidence { kind: owned(kind), summary: owned(summary), location });
    let r = RemoteCapability { outcome: Outcome::Passed, evidence, diagnostic: None };
    assert(r@.evidence =~= seq![(kind@, summary@, match location { Some(l) => Some(l@), None => None })]);
    r
}

/// A capability that is known to fail.
pub fn failed(reason: &str) -> (r: RemoteCapability)
    ensures
        r@ == failed_view(reason@),
{
    let r = RemoteCapability { outcome: Outcome::Failed, evidence: Vec::new(), diagnostic: Some(owned(reason)) };
    assert(r@.evidence =~= Seq::<EvidenceView>::empty());
    r
}

/// A capability whose evidence is absent or unsupported.
pub fn unverified(reason: &str) -> (r: RemoteCapability)
    ensures
        r@ == unverified_view(reason@),
{
    let r = RemoteCapability { outcome: Outcome::Unverified, evidence: Vec::new(), diagnostic: Some(owned(reason)) };
    assert(r@.evidence =~= Seq::<EvidenceView>::empty());
    r
}

/// Losing evidence makes a capability unverified, unless it is a known failure.
pub fn invalidate(value: &mut RemoteCapability, reason: &str)
    ensures
        old(value).outcome == Outcome::Failed ==> final(value)@ == old(value)@,
        old(value).outcome != Outcome::Failed ==> final(value)@ == unverified_view(reason@),
{
    if value.outcome != Outcome::Failed {
        *value = unverified(reason);
    }
}

pub open spec fn changed_message() -> Seq<char> {
    "Provider evidence changed or became unavailable during qualification"@
}

/// What a second observation makes of a capability.
pub open spec fn refreshed(previous: CapabilityView, next: CapabilityView) -> CapabilityView {
    if next.outcome == Outcome::Failed && previous.outcome != Outcome::Failed {
        next
    } else if previous.outcome != next.outcome || previous.evidence != next.evidence {
        if previous.outcome == Outcome::Failed {
            previous
        } else {
            unverified_view(changed_message())
        }
    } else {
        previous
    }
}

/// Takes a second observation into account: a new failure replaces the
/// capability, a change makes it unverified, and a known failure stays.
pub fn refresh(previous: &mut RemoteCapability, next: RemoteCapability)
    ensures
        final(previous)@ == refreshed(old(previous)@, next@),
{
    proof { reveal_strlit("Provider evidence changed or became unavailable during qualification"); }
    if next.outcome == Outcome::Failed && previous.outcome != Outcome::Failed {
        *previous = next;
    } else if previous.outcome != next.outcome || !same_evidence(&previous.evidence, &next.evidence) {
        invalidate(previous, "Provider evidence changed or became unavailable during qualification");
    }
}

pub open spec fn combined(outcomes: Seq<Outcome>) -> Outcome {
    if outcomes.contains(Outcome::Failed) {
        Outcome::Failed
    } else if forall|i: int| 0 <= i < outcomes.len() ==> #[trigger] outcomes[i] == Outcome::Passed {
        Outcome::Passed
    } else {
        Outcome::Unverified
    }
}

/// Any failure fails; all passed passes; anything else is unverified.
pub fn combine(outcomes: &[Outcome]) -> (r: Outcome)
    ensures
        r == combined(outcomes@),
{
    let mut failed = false;
    let mut all_passed = true;
    let mut i: usize = 0;
    while i < outcomes.len()
        invariant
            i <= outcomes@.len(),
            failed == exists|k: int| 0 <= k < i && outcomes@[k] == Outcome::Failed,
            all_passed == forall|k: int| 0 <= k < i ==> #[trigger] outcomes@[k] == Outcome::Passed,
        decreases outcomes.len() - i,
    {
        if outcomes[i] == Outcome::Failed {
            failed = true;
        }
        if outcomes[i] != Outcome::Passed {
            all_passed = false;
        }
        i = i + 1;
    }
    if failed {
        Outcome::Failed
    } else if all_passed {
        Outcome::Passed
    } else {
        Outcome::Unverified
    }
}

pub open spec fn capability_view(result: Result<Result<(), Seq<char>>, Seq<char>>, summary: Seq<char>) -> CapabilityView {
    match result {
        Ok(Ok(())) => passed_view("remote_qualification"@, summary, None),
        Ok(Err(reason)) => failed_view(reason),
        Err(reason) => unverified_view(reason),
    }
}

/// A comparison verdict as a capability: a match passes, a mismatch is a
/// known failure, and absent or unsupported evidence is unverified.
pub fn capability(result: Result<Result<(), String>, String>, summary: &str) -> (r: RemoteCapability)
    ensures
        r@ == capability_view(verdict_view(result), summary@),
{
    proof { reveal_strlit("remote_qualification"); }
    match result {
        Ok(Ok(())) => passed("remote_qualification", summary, None),
        Ok(Err(reason)) => failed(reason.as_str()),
        Err(reason) => unverified(reason.as_str()),
    }
}

/// Missing observations never erase known failures: invalidating or
/// refreshing a failed capability leaves it failed, and a failed second
/// observation always leaves the capability failed.
pub proof fn lemma_failures_persist(previous: CapabilityView, next: CapabilityView)
    ensures
        previous.outcome == Outcome::Failed ==> refreshed(previous, next).outcome == Outcome::Failed,
        next.outcome == Outcome::Failed ==> refreshed(previous, next).outcome == Outcome::Failed,
        refreshed(previous, next).outcome == Outcome::Passed ==> previous.outcome == Outcome::Passed
            && next.outcome == Outcome::Passed && previous.evidence == next.evidence,
{
}

/// Combining outcomes passes only if every one passed, and fails whenever one failed.
pub proof fn lemma_combined(outcomes: Seq<Outcome>, i: int)
    requires
        0 <= i < outcomes.len(),
    ensures
        outcomes[i] == Outcome::Failed ==> combined(outcomes) == Outcome::Failed,
        combined(outcomes) == Outcome::Passed ==> outcomes[i] == Outcome::Passed,
{
    if outcomes[i] == Outcome::Failed {
        assert(outcomes.contains(outcomes[i]));
    }
}

} // verus!
