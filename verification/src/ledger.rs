//! Reviewed evidence assertions. A recorded assertion can settle only a rule
//! that the project contract left unverified; it never overrides a computed
//! outcome. An assertion bound to the staged change comes before a durable
//! project assertion about the same rule.
use vstd::prelude::*;
use crate::evaluator::{Rule, RuleResult, rule_evaluation, rule_result_ok};
use crate::manifest::ProjectManifest;
use crate::outcome::{Evidence, EvidenceView, Outcome, VerificationSource, evidence_view, evidence_views};
use crate::text::{copy_string, joined, owned};

verus! {

/// Where reviewed evidence is recorded in a project.
pub const EVIDENCE_PATH: &'static str = ".opdev/evidence.yaml";

/// A reviewed assertion of one rule's outcome.
#[derive(Debug)]
pub struct EvidenceAssertion {
    pub rule_id: String,
    pub outcome: Outcome,
    pub summary: String,
    pub evidence: Vec<Evidence>,
}

/// The assertions bound to the change that is staged now, and its work item.
#[derive(Debug)]
pub struct ChangeAssertions {
    pub work: String,
    pub assertions: Vec<EvidenceAssertion>,
}

/// The position of the first assertion about rule `id`.
pub open spec fn first_assertion(v: Seq<EvidenceAssertion>, id: Seq<char>) -> Option<int>
    decreases v.len(),
{
    if v.len() == 0 {
        None
    } else {
        match first_assertion(v.drop_last(), id) {
            Some(k) => Some(k),
            None => if v.last().rule_id@ == id { Some(v.len() - 1) } else { None },
        }
    }
}

/// The assertion that settles rule `id`, with the staged change's work item
/// when a change matched: the change's own assertion first, else the
/// project's.
pub open spec fn chosen_assertion(change: Option<ChangeAssertions>, project: Seq<EvidenceAssertion>, id: Seq<char>)
    -> Option<(EvidenceAssertion, Option<Seq<char>>)>
{
    let work = match change { Some(c) => Some(c.work@), None => None };
    let own = match change {
        Some(c) => match first_assertion(c.assertions@, id) { Some(k) => Some(c.assertions@[k]), None => None },
        None => None,
    };
    match own {
        Some(a) => Some((a, work)),
        None => match first_assertion(project, id) { Some(k) => Some((project[k], work)), None => None },
    }
}

/// The evidence record that names the ledger as the source of an outcome.
pub open spec fn ledger_evidence(a: EvidenceAssertion, work: Option<Seq<char>>) -> EvidenceView {
    let summary = match work { Some(w) => a.summary@ + "; work: "@ + w, None => a.summary@ };
    ("evidence_ledger"@, summary, Some(".opdev/evidence.yaml"@))
}

/// What an assertion, if any, makes of one rule result.
pub open spec fn settled(before: RuleResult, after: RuleResult, change: Option<ChangeAssertions>, project: Seq<EvidenceAssertion>) -> bool {
    &&& after.rule_id == before.rule_id
    &&& after.catalog_version == before.catalog_version
    &&& after.subject == before.subject
    &&& after.evaluated_at == before.evaluated_at
    &&& match (if before.outcome == Outcome::Unverified { chosen_assertion(change, project, before.rule_id@) } else { None }) {
        None => after == before,
        Some((a, work)) => {
            &&& after.outcome == a.outcome
            &&& after.verifier == VerificationSource::Evidence
            &&& after.diagnostic is None
            &&& evidence_views(after.evidence@) == seq![ledger_evidence(a, work)] + evidence_views(a.evidence@)
        },
    }
}

proof fn lemma_no_assertion(v: Seq<EvidenceAssertion>, id: Seq<char>)
    requires
        forall|q: int| 0 <= q < v.len() ==> (#[trigger] v[q]).rule_id@ != id,
    ensures
        first_assertion(v, id) is None,
    decreases v.len(),
{
    if v.len() > 0 {
        assert forall|q: int| 0 <= q < v.drop_last().len() implies (#[trigger] v.drop_last()[q]).rule_id@ != id by {
            assert(v.drop_last()[q] == v[q]);
        }
        lemma_no_assertion(v.drop_last(), id);
        assert(v.last() == v[v.len() - 1]);
    }
}

proof fn lemma_first_assertion(v: Seq<EvidenceAssertion>, id: Seq<char>, k: int)
    requires
        0 <= k < v.len(),
        v[k].rule_id@ == id,
        forall|q: int| 0 <= q < k ==> (#[trigger] v[q]).rule_id@ != id,
    ensures
        first_assertion(v, id) == Some(k),
    decreases v.len(),
{
    let w = v.drop_last();
    if k < v.len() - 1 {
        assert(w[k] == v[k]);
        assert forall|q: int| 0 <= q < k implies (#[trigger] w[q]).rule_id@ != id by {
            assert(w[q] == v[q]);
        }
        lemma_first_assertion(w, id, k);
    } else {
        assert forall|q: int| 0 <= q < w.len() implies (#[trigger] w[q]).rule_id@ != id by {
            assert(w[q] == v[q]);
        }
        lemma_no_assertion(w, id);
        assert(v.last() == v[k]);
    }
}

fn find_assertion(v: &Vec<EvidenceAssertion>, id: &str) -> (r: Option<usize>)
    ensures
        match r {
            Some(k) => k < v@.len() && first_assertion(v@, id@) == Some(k as int),
            None => first_assertion(v@, id@) is None,
        },
{
    let mut k: usize = 0;
    while k < v.len()
        invariant
            k <= v@.len(),
            forall|q: int| 0 <= q < k ==> (#[trigger] v@[q]).rule_id@ != id@,
        decreases v.len() - k,
    {
        if crate::text::same_text(v[k].rule_id.as_str(), id) {
            proof { lemma_first_assertion(v@, id@, k as int); }
            return Some(k);
        }
        k = k + 1;
    }
    proof { lemma_no_assertion(v@, id@); }
    None
}

fn ledger_record(a: &EvidenceAssertion, work: Option<&String>) -> (r: Vec<Evidence>)
    ensures
        evidence_views(r@) == seq![ledger_evidence(*a, match work { Some(w) => Some(w@), None => None })]
            + evidence_views(a.evidence@),
{
    proof {
        reveal_strlit("; work: ");
        reveal_strlit("evidence_ledger");
        reveal_strlit(".opdev/evidence.yaml");
    }
    let summary = match work {
        Some(w) => {
            let mut s = joined(a.summary.as_str(), "; work: ");
            s.append(w.as_str());
            s
        },
        None => copy_string(&a.summary),
    };
    let mut out: Vec<Evidence> = Vec::new();
    out.push(Evidence { kind: owned("evidence_ledger"), summary, location: Some(owned(EVIDENCE_PATH)) });
    let ghost head = ledger_evidence(*a, match work { Some(w) => Some(w@), None => None });
    let mut i: usize = 0;
    while i < a.evidence.len()
        invariant
            i <= a.evidence@.len(),
            evidence_views(out@) == seq![head] + evidence_views(a.evidence@.subrange(0, i as int)),
        decreases a.evidence.len() - i,
    {
        let ghost before = out@;
        out.push(a.evidence[i].copy());
        proof {
            assert(a.evidence@.subrange(0, i + 1) =~= a.evidence@.subrange(0, i as int).push(a.evidence@[i as int]));
            assert(evidence_views(out@) =~= evidence_views(before).push(evidence_view(a.evidence@[i as int])));
            assert(evidence_views(a.evidence@.subrange(0, i + 1))
                =~= evidence_views(a.evidence@.subrange(0, i as int)).push(evidence_view(a.evidence@[i as int])));
        }
        i = i + 1;
    }
    proof { assert(a.evidence@.subrange(0, a.evidence@.len() as int) =~= a.evidence@); }
    out
}

/// Applies the recorded assertions to the rule results: each unverified
/// result with an assertion about its rule takes the asserted outcome, the
/// ledger as its verifier, and the ledger record followed by the assertion's
/// evidence; every other result stays exactly as it was.
pub fn apply_evidence(rules: &mut Vec<RuleResult>, change: &Option<ChangeAssertions>, project: &Vec<EvidenceAssertion>)
    ensures
        final(rules)@.len() == old(rules)@.len(),
        forall|k: int| 0 <= k < old(rules)@.len() ==> settled(#[trigger] old(rules)@[k], final(rules)@[k], *change, project@),
{
    let ghost start = rules@;
    let mut k: usize = 0;
    while k < rules.len()
        invariant
            rules@.len() == start.len(),
            old(rules)@ == start,
            k <= start.len(),
            forall|q: int| 0 <= q < k ==> settled(#[trigger] start[q], rules@[q], *change, project@),
            forall|q: int| k <= q < start.len() ==> #[trigger] rules@[q] == start[q],
        decreases rules.len() - k,
    {
        if rules[k].outcome == Outcome::Unverified {
            let id = rules[k].rule_id.as_str();
            let own = match change {
                Some(c) => match find_assertion(&c.assertions, id) {
                    Some(i) => Some(&c.assertions[i]),
                    None => None,
                },
                None => None,
            };
            let found = match own {
                Some(a) => Some(a),
                None => match find_assertion(project, id) {
                    Some(i) => Some(&project[i]),
                    None => None,
                },
            };
            match found {
                None => {},
                Some(a) => {
                    let work = match change {
                        Some(c) => Some(&c.work),
                        None => None,
                    };
                    let evidence = ledger_record(a, work);
                    let old_rule = rules.remove(k);
                    let updated = RuleResult {
                        rule_id: old_rule.rule_id,
                        catalog_version: old_rule.catalog_version,
                        outcome: a.outcome,
                        subject: old_rule.subject,
                        verifier: VerificationSource::Evidence,
                        evaluated_at: old_rule.evaluated_at,
                        evidence,
                        diagnostic: None,
                    };
                    rules.insert(k, updated);
                },
            }
        }
        proof {
            assert(settled(start[k as int], rules@[k as int], *change, project@));
        }
        k = k + 1;
    }
}

/// A recorded assertion never overrides an outcome the project contract
/// computed: only an unverified rule changes, and only where an assertion
/// about that rule was recorded.
pub proof fn lemma_assertions_never_override(
    before: RuleResult,
    after: RuleResult,
    change: Option<ChangeAssertions>,
    project: Seq<EvidenceAssertion>,
)
    requires
        settled(before, after, change, project),
    ensures
        before.outcome != Outcome::Unverified ==> after == before,
        after != before ==> before.outcome == Outcome::Unverified && chosen_assertion(change, project, before.rule_id@) is Some,
{
}

/// A rule result of an evaluation with recorded evidence: the contract's
/// result, or, where the contract left the rule unverified and an assertion
/// about it was recorded, the asserted outcome with the ledger as verifier.
pub open spec fn ledger_result_ok(r: RuleResult, rule: Rule, m: ProjectManifest, subject: Seq<char>, catalog_version: u32,
    evaluated_at: u64, change: Option<ChangeAssertions>, project: Seq<EvidenceAssertion>) -> bool
{
    let e = rule_evaluation(rule, m);
    match (if e.0 == Outcome::Unverified { chosen_assertion(change, project, rule.id@) } else { None }) {
        None => rule_result_ok(r, rule, m, subject, catalog_version, evaluated_at),
        Some((a, work)) => {
            &&& r.rule_id@ == rule.id@
            &&& r.catalog_version == catalog_version
            &&& r.subject@ == subject
            &&& r.evaluated_at == evaluated_at
            &&& r.outcome == a.outcome
            &&& r.verifier == VerificationSource::Evidence
            &&& r.diagnostic is None
            &&& evidence_views(r.evidence@) == seq![ledger_evidence(a, work)] + evidence_views(a.evidence@)
        },
    }
}

/// Contract results with the recorded assertions applied are the results of
/// an evaluation with recorded evidence.
pub proof fn lemma_settled_contract_results(pre: Seq<RuleResult>, post: Seq<RuleResult>, rules: Seq<Rule>, m: ProjectManifest,
    subject: Seq<char>, catalog_version: u32, evaluated_at: u64, change: Option<ChangeAssertions>, project: Seq<EvidenceAssertion>)
    requires
        pre.len() == rules.len(),
        post.len() == pre.len(),
        forall|k: int| 0 <= k < pre.len() ==> rule_result_ok(#[trigger] pre[k], rules[k], m, subject, catalog_version, evaluated_at),
        forall|k: int| 0 <= k < pre.len() ==> settled(#[trigger] pre[k], post[k], change, project),
    ensures
        forall|k: int| 0 <= k < post.len() ==> ledger_result_ok(#[trigger] post[k], rules[k], m, subject, catalog_version,
            evaluated_at, change, project),
{
    assert forall|k: int| 0 <= k < post.len() implies ledger_result_ok(#[trigger] post[k], rules[k], m, subject,
        catalog_version, evaluated_at, change, project) by {
        assert(rule_result_ok(pre[k], rules[k], m, subject, catalog_version, evaluated_at));
        assert(settled(pre[k], post[k], change, project));
    }
}

/// A change recorded in the ledger: the staged-state fingerprint it is bound
/// to, and its assertions.
#[derive(Debug)]
pub struct LedgerChange {
    pub fingerprint: String,
    pub change: ChangeAssertions,
}

/// The position of the first change bound to fingerprint `f`.
pub open spec fn first_change(v: Seq<LedgerChange>, f: Seq<char>) -> Option<int>
    decreases v.len(),
{
    if v.len() == 0 {
        None
    } else {
        match first_change(v.drop_last(), f) {
            Some(k) => Some(k),
            None => if v.last().fingerprint@ == f { Some(v.len() - 1) } else { None },
        }
    }
}

proof fn lemma_first_change(v: Seq<LedgerChange>, f: Seq<char>, k: int)
    requires
        0 <= k <= v.len(),
        forall|q: int| 0 <= q < k ==> (#[trigger] v[q]).fingerprint@ != f,
        k < v.len() ==> v[k].fingerprint@ == f,
    ensures
        first_change(v, f) == (if k < v.len() { Some(k) } else { None::<int> }),
    decreases v.len(),
{
    if v.len() > 0 {
        let w = v.drop_last();
        assert forall|q: int| 0 <= q < k && q < w.len() implies (#[trigger] w[q]).fingerprint@ != f by {
            assert(w[q] == v[q]);
        }
        if k < v.len() - 1 {
            assert(w[k] == v[k]);
            lemma_first_change(w, f, k);
        } else {
            lemma_first_change(w, f, w.len() as int);
            assert(v.last() == v[v.len() - 1]);
        }
    }
}

/// The change recorded for the staged state: the position of the first one
/// bound to its fingerprint, if any.
pub fn matching_change(recorded: &Vec<LedgerChange>, fingerprint: &str) -> (r: Option<usize>)
    ensures
        match r {
            Some(k) => first_change(recorded@, fingerprint@) == Some(k as int),
            None => first_change(recorded@, fingerprint@) is None,
        },
{
    let mut k: usize = 0;
    while k < recorded.len()
        invariant
            k <= recorded@.len(),
            forall|q: int| 0 <= q < k ==> (#[trigger] recorded@[q]).fingerprint@ != fingerprint@,
        decreases recorded.len() - k,
    {
        if crate::text::same_text(recorded[k].fingerprint.as_str(), fingerprint) {
            proof { lemma_first_change(recorded@, fingerprint@, k as int); }
            return Some(k);
        }
        k = k + 1;
    }
    proof { lemma_first_change(recorded@, fingerprint@, recorded@.len() as int); }
    None
}

} // verus!
