//! Rule and observation outcomes, gates and evidence records.
use vstd::prelude::*;
use crate::text::{copy_string, same_text};

verus! {

/// Result of a rule, check or observation. Only `Passed` and a justified
/// `NotApplicable` satisfy a required rule.
#[derive(Clone, Copy, Debug, PartialEq, Eq, Structural)]
pub enum Outcome {
    Passed,
    Failed,
    Unverified,
    NotApplicable,
    Error,
    MigrationRequired,
}

impl Outcome {
    pub open spec fn satisfies(self) -> bool {
        self == Outcome::Passed || self == Outcome::NotApplicable
    }

    /// Whether this outcome satisfies a required rule.
    pub fn satisfies_required_rule(&self) -> (r: bool)
        ensures
            r == self.satisfies(),
    {
        match self {
            Outcome::Passed | Outcome::NotApplicable => true,
            _ => false,
        }
    }
}

/// The four separately reported gates.
#[derive(Clone, Copy, Debug, PartialEq, Eq, Structural)]
pub enum Gate {
    Development,
    Integration,
    Delivery,
    Compliance,
}

/// Aggregated verdict of one gate.
#[derive(Clone, Copy, Debug, PartialEq, Eq, Structural)]
pub enum AggregateVerdict {
    Passed,
    Blocked,
}

/// Which verifier produced a rule result.
#[derive(Clone, Copy, Debug, PartialEq, Eq, Structural)]
pub enum VerificationSource {
    Catalog,
    Manifest,
    Evidence,
    Command,
}

/// One piece of reviewable evidence.
#[derive(Debug)]
pub struct Evidence {
    pub kind: String,
    pub summary: String,
    pub location: Option<String>,
}

pub fn copy_opt_string(s: &Option<String>) -> (r: Option<String>)
    ensures
        r == *s,
{
    match s {
        Some(t) => {
            Some(copy_string(t))
        },
        None => None,
    }
}

impl Evidence {
    /// A field-for-field copy.
    pub fn copy(&self) -> (r: Evidence)
        ensures
            r == *self,
    {
        Evidence {
            kind: copy_string(&self.kind),
            summary: copy_string(&self.summary),
            location: copy_opt_string(&self.location),
        }
    }
}


/// An evidence record as plain values: kind, summary and location.
pub type EvidenceView = (Seq<char>, Seq<char>, Option<Seq<char>>);

pub open spec fn evidence_view(e: Evidence) -> EvidenceView {
    (e.kind@, e.summary@, match e.location { Some(l) => Some(l@), None => None })
}

pub open spec fn evidence_views(v: Seq<Evidence>) -> Seq<EvidenceView> {
    v.map_values(|e: Evidence| evidence_view(e))
}

/// Whether two evidence lists record the same evidence in the same order.
pub fn same_evidence(a: &Vec<Evidence>, b: &Vec<Evidence>) -> (r: bool)
    ensures
        r == (evidence_views(a@) == evidence_views(b@)),
{
    if a.len() != b.len() {
        assert(evidence_views(a@).len() != evidence_views(b@).len());
        return false;
    }
    let mut i: usize = 0;
    while i < a.len()
        invariant
            a@.len() == b@.len(),
            i <= a@.len(),
            forall|k: int| 0 <= k < i ==> evidence_views(a@)[k] == evidence_views(b@)[k],
        decreases a.len() - i,
    {
        let x = &a[i];
        let y = &b[i];
        let locations = match (&x.location, &y.location) {
            (Some(p), Some(q)) => same_text(p.as_str(), q.as_str()),
            (None, None) => true,
            _ => false,
        };
        if !(same_text(x.kind.as_str(), y.kind.as_str()) && same_text(x.summary.as_str(), y.summary.as_str()) && locations) {
            assert(evidence_views(a@)[i as int] != evidence_views(b@)[i as int]);
            return false;
        }
        i = i + 1;
    }
    assert(evidence_views(a@) =~= evidence_views(b@));
    true
}

} // verus!
