//! Versioned adoption decisions. Labels never substitute for execution or
//! evidence: only reviewed, complete decisions leave no blockers.
use vstd::prelude::*;
use crate::manifest::{ProjectManifest, TestStage, TestSuite};
use crate::evaluator::{CheckReport, CheckResult, GateVerdict, RuleResult};
use crate::outcome::{AggregateVerdict, Evidence, Gate, Outcome};
use crate::ledger::{ChangeAssertions, EvidenceAssertion};
use crate::schema::{check_schema, schema_errors, schema_refusal};
use crate::text::{
    blank, copy_string, debug_quoted, debug_text, decimal, decimal_text, is_blank, join_texts,
    joined, joined_with, owned, same_text, sort_texts, sorted_texts, text_views, text_le, text_le_exec, lemma_text_le_total, lemma_text_le_transitive,
};

verus! {

/// Assessment requirement, independent of rule-result outcomes.
#[derive(Clone, Copy, Debug, PartialEq, Eq, Structural)]
pub enum Requirement {
    /// Cannot be ignored or marked inapplicable.
    Required,
    /// May be explicitly declined, without waiving any core rule.
    Optional,
    /// May be inapplicable with reviewed evidence, but not ignored.
    Conditional,
}

/// One supplied practice.
#[derive(Debug)]
pub struct Practice {
    /// Stable identifier.
    pub id: String,
    /// User-facing assessment title.
    pub title: String,
    /// Allowed dispositions.
    pub requirement: Requirement,
    /// Implementations require named executable pre/post-merge suites.
    pub automated: bool,
}

/// Fixed practice inventory; tool choices are project-specific.
#[derive(Debug)]
pub struct AdoptionCatalog {
    /// Version selected by a decision record.
    pub version: u32,
    /// Every supplied practice must receive a decision.
    pub practices: Vec<Practice>,
}

/// A reviewed decision is not a gate verdict.
#[derive(Clone, Copy, Debug, PartialEq, Eq, Structural)]
pub enum AdoptionState {
    /// No satisfying decision yet.
    Pending,
    /// Implementation is claimed, subject to verification.
    Implemented,
    /// An optional practice was deliberately declined.
    Ignored,
    /// Reviewed applicability is false.
    NotApplicable,
}

/// One project-owned assessment decision.
#[derive(Debug)]
pub struct AdoptionDecision {
    /// Claimed disposition.
    pub state: AdoptionState,
    /// Who answers for the decision.
    pub owner: String,
    /// Project-specific rationale; not a copy of a tool recommendation.
    pub reason: String,
    /// Canonical implementation, review or applicability references.
    pub references: Vec<String>,
    /// Existing project suite identifiers, not duplicate command definitions.
    pub suites: Vec<String>,
    /// Authoritative sources consulted for unresolved tool choices, if needed.
    pub research: Vec<String>,
}

/// Resumable, project-owned adoption record: one decision per practice.
#[derive(Debug)]
pub struct AdoptionRecord {
    /// Record schema version.
    pub schema: u32,
    /// Pinned practice-catalog version.
    pub catalog_version: u32,
    /// Reviewed project/components covered by the assessment.
    pub scope: String,
    /// Decisions keyed by practice identifier, each identifier once.
    pub practices: Vec<(String, AdoptionDecision)>,
}

/// Why an adoption record cannot be used.
#[derive(Debug)]
pub enum AdoptionError {
    /// Unsupported or malformed record.
    Invalid(String),
}

pub open spec fn practice_ids(v: Seq<Practice>) -> Seq<Seq<char>> {
    v.map_values(|p: Practice| p.id@)
}

pub open spec fn decision_keys(v: Seq<(String, AdoptionDecision)>) -> Seq<Seq<char>> {
    v.map_values(|e: (String, AdoptionDecision)| e.0@)
}

/// The decision recorded for a practice.
pub open spec fn decision_of(v: Seq<(String, AdoptionDecision)>, id: Seq<char>) -> Option<AdoptionDecision>
    decreases v.len(),
{
    if v.len() == 0 {
        None
    } else if v[0].0@ == id {
        Some(v[0].1)
    } else {
        decision_of(v.drop_first(), id)
    }
}

/// An unresolved decision: nothing claimed, nobody accountable yet.
pub open spec fn is_pending_decision(d: AdoptionDecision) -> bool {
    d.state == AdoptionState::Pending && d.owner@.len() == 0 && d.reason@.len() == 0
        && d.references@.len() == 0 && d.suites@.len() == 0 && d.research@.len() == 0
}

fn pending_decision() -> (d: AdoptionDecision)
    ensures
        is_pending_decision(d),
{
    AdoptionDecision {
        state: AdoptionState::Pending,
        owner: String::new(),
        reason: String::new(),
        references: Vec::new(),
        suites: Vec::new(),
        research: Vec::new(),
    }
}

fn key_in(v: &Vec<(String, AdoptionDecision)>, id: &str) -> (r: bool)
    ensures
        r == decision_keys(v@).contains(id@),
{
    let mut i: usize = 0;
    while i < v.len()
        invariant
            i <= v@.len(),
            forall|k: int| 0 <= k < i ==> decision_keys(v@)[k] != id@,
        decreases v.len() - i,
    {
        if same_text(v[i].0.as_str(), id) {
            assert(decision_keys(v@)[i as int] == id@);
            return true;
        }
        i = i + 1;
    }
    false
}

/// Decisions keyed by distinct practice identifiers, in ascending key order,
/// as a record file holds them.
pub open spec fn decisions_ordered(v: Seq<(String, AdoptionDecision)>) -> bool {
    forall|a: int, b: int| 0 <= a < b < v.len() ==> (#[trigger] v[a]).0@ != (#[trigger] v[b]).0@ && text_le(v[a].0@, v[b].0@)
}

/// Where a key goes among ordered decisions: before the first key it does
/// not follow.
fn insert_position(v: &Vec<(String, AdoptionDecision)>, id: &str) -> (p: usize)
    ensures
        p <= v@.len(),
        forall|k: int| 0 <= k < p ==> !text_le(id@, (#[trigger] v@[k]).0@),
        p < v@.len() ==> text_le(id@, v@[p as int].0@),
{
    let mut p: usize = 0;
    while p < v.len()
        invariant
            p <= v@.len(),
            forall|k: int| 0 <= k < p ==> !text_le(id@, (#[trigger] v@[k]).0@),
        decreases v.len() - p,
    {
        if text_le_exec(id, v[p].0.as_str()) {
            return p;
        }
        p = p + 1;
    }
    p
}

proof fn lemma_insert_ordered(before: Seq<(String, AdoptionDecision)>, x: (String, AdoptionDecision), p: int)
    requires
        decisions_ordered(before),
        0 <= p <= before.len(),
        forall|k: int| 0 <= k < p ==> !text_le(x.0@, (#[trigger] before[k]).0@),
        p < before.len() ==> text_le(x.0@, before[p].0@),
        forall|k: int| 0 <= k < before.len() ==> (#[trigger] before[k]).0@ != x.0@,
    ensures
        decisions_ordered(before.insert(p, x)),
{
    let after = before.insert(p, x);
    assert forall|a: int, b: int| 0 <= a < b < after.len() implies (#[trigger] after[a]).0@ != (#[trigger] after[b]).0@
        && text_le(after[a].0@, after[b].0@) by {
        if b < p {
            assert(after[a] == before[a] && after[b] == before[b]);
        } else if b == p {
            assert(after[a] == before[a]);
            lemma_text_le_total(x.0@, before[a].0@);
        } else if a < p {
            assert(after[a] == before[a] && after[b] == before[b - 1]);
        } else if a == p {
            assert(after[b] == before[b - 1]);
            if b - 1 > p {
                assert(text_le(before[p].0@, before[b - 1].0@));
                lemma_text_le_transitive(x.0@, before[p].0@, before[b - 1].0@);
            }
        } else {
            assert(after[a] == before[a - 1] && after[b] == before[b - 1]);
        }
    }
}

impl AdoptionRecord {
    /// A new record with one unresolved decision for every practice of the
    /// catalog, in ascending key order. Discovery is never implementation
    /// evidence.
    pub fn pending(catalog: &AdoptionCatalog) -> (r: AdoptionRecord)
        ensures
            r.schema == 1,
            r.catalog_version == catalog.version,
            r.scope@.len() == 0,
            decision_keys(r.practices@).to_set() == practice_ids(catalog.practices@).to_set(),
            decisions_ordered(r.practices@),
            forall|a: int, b: int| 0 <= a < b < r.practices@.len() ==> r.practices@[a].0@ != r.practices@[b].0@,
            forall|k: int| 0 <= k < r.practices@.len() ==> is_pending_decision(#[trigger] r.practices@[k].1),
    {
        let mut practices: Vec<(String, AdoptionDecision)> = Vec::new();
        let ghost ids = practice_ids(catalog.practices@);
        let mut i: usize = 0;
        while i < catalog.practices.len()
            invariant
                ids == practice_ids(catalog.practices@),
                i <= catalog.practices@.len(),
                decision_keys(practices@).to_set() == ids.subrange(0, i as int).to_set(),
                decisions_ordered(practices@),
                forall|k: int| 0 <= k < practices@.len() ==> is_pending_decision(#[trigger] practices@[k].1),
            decreases catalog.practices.len() - i,
        {
            let id = catalog.practices[i].id.as_str();
            let ghost before = practices@;
            assert(ids.subrange(0, i + 1) =~= ids.subrange(0, i as int).push(id@));
            proof {
                if decision_keys(before).contains(id@) {
                    let k = choose|k: int| 0 <= k < decision_keys(before).len() && decision_keys(before)[k] == id@;
                    assert(decision_keys(before).to_set().contains(id@));
                }
            }
            if !key_in(&practices, id) {
                let p = insert_position(&practices, id);
                let entry = (owned(id), pending_decision());
                proof {
                    assert forall|a: int| 0 <= a < before.len() implies (#[trigger] before[a]).0@ != entry.0@ by {
                        assert(decision_keys(before)[a] == before[a].0@);
                    }
                    lemma_insert_ordered(before, entry, p as int);
                }
                practices.insert(p, entry);
                proof {
                    let keys = decision_keys(practices@);
                    assert(keys.to_set() =~= decision_keys(before).to_set().insert(id@)) by {
                        assert forall|s: Seq<char>| keys.to_set().contains(s) implies decision_keys(before).to_set().insert(id@).contains(s) by {
                            let k = choose|k: int| 0 <= k < keys.len() && keys[k] == s;
                            if k < p {
                                assert(practices@[k] == before[k]);
                                assert(decision_keys(before)[k] == s);
                            } else if k > p {
                                assert(practices@[k] == before[k - 1]);
                                assert(decision_keys(before)[k - 1] == s);
                            }
                        }
                        assert forall|s: Seq<char>| decision_keys(before).to_set().insert(id@).contains(s) implies keys.to_set().contains(s) by {
                            if s == id@ {
                                assert(keys[p as int] == id@);
                            } else {
                                let k = choose|k: int| 0 <= k < decision_keys(before).len() && decision_keys(before)[k] == s;
                                if k < p {
                                    assert(keys[k] == s);
                                } else {
                                    assert(keys[k + 1] == s);
                                }
                            }
                        }
                    }
                    ids.subrange(0, i as int).lemma_push_to_set_commute(id@);
                    assert forall|k: int| 0 <= k < practices@.len() implies is_pending_decision(#[trigger] practices@[k].1) by {
                        if k < p {
                            assert(practices@[k] == before[k]);
                        } else if k > p {
                            assert(practices@[k] == before[k - 1]);
                        }
                    }
                }
            } else {
                assert(decision_keys(before).to_set().contains(id@));
                proof { ids.subrange(0, i as int).lemma_push_to_set_commute(id@); }
            }
            i = i + 1;
        }
        assert(ids.subrange(0, ids.len() as int) =~= ids);
        AdoptionRecord { schema: 1, catalog_version: catalog.version, scope: String::new(), practices }
    }
}


pub open spec fn scope_blocker() -> Seq<char> {
    "scope: assess all relevant components"@
}

pub open spec fn pending_reason() -> Seq<char> {
    "pending decision"@
}

pub open spec fn ignored_reason() -> Seq<char> {
    "mandatory/conditional practice cannot be ignored"@
}

pub open spec fn inapplicable_reason() -> Seq<char> {
    "required practice cannot be marked not applicable"@
}

pub open spec fn resolution_reason() -> Seq<char> {
    "resolved decisions require owner, reason and canonical references"@
}

pub open spec fn suites_reason() -> Seq<char> {
    "implementation requires executable suite references"@
}

pub open spec fn texts(v: Seq<String>) -> Seq<Seq<char>> {
    v.map_values(|s: String| s@)
}

/// The first suite with the given identifier.
pub open spec fn find_suite(suites: Seq<TestSuite>, id: Seq<char>) -> Option<TestSuite>
    decreases suites.len(),
{
    if suites.len() == 0 {
        None
    } else if suites[0].id@ == id {
        Some(suites[0])
    } else {
        find_suite(suites.drop_first(), id)
    }
}

/// What is wrong with one referenced suite, if anything: it must exist and
/// run both before and after integration.
pub open spec fn suite_reason(id: Seq<char>, suites: Seq<TestSuite>) -> Option<Seq<char>> {
    match find_suite(suites, id) {
        None => Some("unknown suite `"@ + id + "`"@),
        Some(s) => if !(s.stages@.contains(TestStage::PreMerge) && s.stages@.contains(TestStage::PostMerge)) {
            Some("suite `"@ + id + "` requires pre_merge and post_merge stages"@)
        } else {
            None
        },
    }
}

pub open spec fn suite_reasons(ids: Seq<Seq<char>>, suites: Seq<TestSuite>) -> Seq<Seq<char>>
    decreases ids.len(),
{
    if ids.len() == 0 {
        Seq::empty()
    } else {
        let p = suite_reasons(ids.drop_last(), suites);
        match suite_reason(ids.last(), suites) {
            Some(r) => p.push(r),
            None => p,
        }
    }
}

/// Why a decision does not resolve its practice, in the order they are found.
pub open spec fn decision_reasons(p: Practice, d: AdoptionDecision, suites: Seq<TestSuite>) -> Seq<Seq<char>> {
    let state: Seq<Seq<char>> = match d.state {
        AdoptionState::Pending => seq![pending_reason()],
        AdoptionState::Ignored => if p.requirement != Requirement::Optional { seq![ignored_reason()] } else { Seq::empty() },
        AdoptionState::NotApplicable => if p.requirement == Requirement::Required { seq![inapplicable_reason()] } else { Seq::empty() },
        AdoptionState::Implemented => Seq::empty(),
    };
    let resolved: Seq<Seq<char>> = if d.state != AdoptionState::Pending {
        (if is_blank(d.owner@) || is_blank(d.reason@) || d.references@.len() == 0 { seq![resolution_reason()] } else { Seq::empty() })
            + (if d.state == AdoptionState::Implemented && p.automated && d.suites@.len() == 0 { seq![suites_reason()] } else { Seq::empty() })
    } else {
        Seq::empty()
    };
    state + resolved + suite_reasons(texts(d.suites@), suites)
}

pub open spec fn prefixed(id: Seq<char>, reasons: Seq<Seq<char>>) -> Seq<Seq<char>> {
    reasons.map_values(|r: Seq<char>| id + ": "@ + r)
}

pub open spec fn practice_blockers(practices: Seq<Practice>, decisions: Seq<(String, AdoptionDecision)>, suites: Seq<TestSuite>) -> Seq<Seq<char>>
    decreases practices.len(),
{
    if practices.len() == 0 {
        Seq::empty()
    } else {
        let p = practices.last();
        practice_blockers(practices.drop_last(), decisions, suites)
            + prefixed(p.id@, decision_reasons(p, decision_of(decisions, p.id@)->0, suites))
    }
}

/// Distinct elements of `a` that are not in `b`, in order of first occurrence.
pub open spec fn only_in(a: Seq<Seq<char>>, b: Seq<Seq<char>>) -> Seq<Seq<char>>
    decreases a.len(),
{
    if a.len() == 0 {
        Seq::empty()
    } else {
        let p = only_in(a.drop_last(), b);
        if b.contains(a.last()) || p.contains(a.last()) {
            p
        } else {
            p.push(a.last())
        }
    }
}

/// `{:?}` of a list of texts.
pub open spec fn debug_list(v: Seq<Seq<char>>) -> Seq<char> {
    "["@ + joined_with(v.map_values(|x: Seq<char>| debug_quoted(x)), ", "@) + "]"@
}

/// Why a record cannot be judged against the catalog, if it cannot.
pub open spec fn inventory_problem(record: AdoptionRecord, catalog: AdoptionCatalog) -> Option<Seq<char>> {
    let expected = practice_ids(catalog.practices@);
    let actual = decision_keys(record.practices@);
    if record.catalog_version != catalog.version {
        Some("unsupported catalog "@ + decimal(record.catalog_version as nat) + "; supports "@ + decimal(catalog.version as nat)
            + " (explicit migration required)"@)
    } else if expected.to_set() != actual.to_set() {
        Some("practice inventory mismatch; missing: "@ + debug_list(sorted_texts(only_in(expected, actual)))
            + "; unknown: "@ + debug_list(sorted_texts(only_in(actual, expected))))
    } else {
        None
    }
}

/// Everything that keeps the recorded decisions from being verified.
pub open spec fn blockers_spec(record: AdoptionRecord, suites: Seq<TestSuite>, catalog: AdoptionCatalog) -> Seq<Seq<char>> {
    (if is_blank(record.scope@) { seq![scope_blocker()] } else { Seq::empty() })
        + practice_blockers(catalog.practices@, record.practices@, suites)
}

fn text_in_list(v: &Vec<String>, s: &String) -> (r: bool)
    ensures
        r == texts(v@).contains(s@),
{
    let mut i: usize = 0;
    while i < v.len()
        invariant
            i <= v@.len(),
            forall|k: int| 0 <= k < i ==> texts(v@)[k] != s@,
        decreases v.len() - i,
    {
        if same_text(v[i].as_str(), s.as_str()) {
            assert(texts(v@)[i as int] == s@);
            return true;
        }
        i = i + 1;
    }
    false
}

fn only_in_exec(a: &Vec<String>, b: &Vec<String>) -> (r: Vec<String>)
    ensures
        texts(r@) == only_in(texts(a@), texts(b@)),
{
    let mut out: Vec<String> = Vec::new();
    let mut i: usize = 0;
    assert(texts(a@).subrange(0, 0) =~= Seq::<Seq<char>>::empty());
    while i < a.len()
        invariant
            i <= a@.len(),
            texts(out@) == only_in(texts(a@).subrange(0, i as int), texts(b@)),
        decreases a.len() - i,
    {
        assert(texts(a@).subrange(0, i + 1).drop_last() =~= texts(a@).subrange(0, i as int));
        assert(texts(a@).subrange(0, i + 1).last() == a@[i as int]@);
        if !text_in_list(b, &a[i]) && !text_in_list(&out, &a[i]) {
            let ghost before = out@;
            out.push(copy_string(&a[i]));
            assert(texts(out@) =~= texts(before).push(a@[i as int]@));
        }
        i = i + 1;
    }
    assert(texts(a@).subrange(0, a@.len() as int) =~= texts(a@));
    out
}

fn debug_list_exec(v: &Vec<String>) -> (r: String)
    ensures
        r@ == debug_list(texts(v@)),
{
    let mut quoted: Vec<String> = Vec::new();
    let mut i: usize = 0;
    while i < v.len()
        invariant
            i <= v@.len(),
            texts(quoted@) == texts(v@).subrange(0, i as int).map_values(|x: Seq<char>| debug_quoted(x)),
        decreases v.len() - i,
    {
        let ghost before = quoted@;
        quoted.push(debug_text(v[i].as_str()));
        assert(texts(quoted@) =~= texts(before).push(debug_quoted(v@[i as int]@)));
        assert(texts(v@).subrange(0, i + 1) =~= texts(v@).subrange(0, i as int).push(v@[i as int]@));
        assert(texts(quoted@) =~= texts(v@).subrange(0, i + 1).map_values(|x: Seq<char>| debug_quoted(x)));
        i = i + 1;
    }
    assert(texts(v@).subrange(0, v@.len() as int) =~= texts(v@));
    let inner = join_texts(&quoted, ", ");
    let mut r = joined("[", inner.as_str());
    r.append("]");
    proof {
        assert(text_views(quoted@) == texts(quoted@));
    }
    r
}

fn collect_ids(practices: &Vec<Practice>) -> (r: Vec<String>)
    ensures
        texts(r@) == practice_ids(practices@),
{
    let mut out: Vec<String> = Vec::new();
    let mut i: usize = 0;
    while i < practices.len()
        invariant
            i <= practices@.len(),
            texts(out@) == practice_ids(practices@).subrange(0, i as int),
        decreases practices.len() - i,
    {
        let ghost before = out@;
        out.push(copy_string(&practices[i].id));
        assert(texts(out@) =~= texts(before).push(practices@[i as int].id@));
        assert(practice_ids(practices@).subrange(0, i + 1) =~= practice_ids(practices@).subrange(0, i as int).push(practices@[i as int].id@));
        i = i + 1;
    }
    assert(practice_ids(practices@).subrange(0, practices@.len() as int) =~= practice_ids(practices@));
    out
}

fn collect_keys(decisions: &Vec<(String, AdoptionDecision)>) -> (r: Vec<String>)
    ensures
        texts(r@) == decision_keys(decisions@),
{
    let mut out: Vec<String> = Vec::new();
    let mut i: usize = 0;
    while i < decisions.len()
        invariant
            i <= decisions@.len(),
            texts(out@) == decision_keys(decisions@).subrange(0, i as int),
        decreases decisions.len() - i,
    {
        let ghost before = out@;
        out.push(copy_string(&decisions[i].0));
        assert(texts(out@) =~= texts(before).push(decisions@[i as int].0@));
        assert(decision_keys(decisions@).subrange(0, i + 1) =~= decision_keys(decisions@).subrange(0, i as int).push(decisions@[i as int].0@));
        i = i + 1;
    }
    assert(decision_keys(decisions@).subrange(0, decisions@.len() as int) =~= decision_keys(decisions@));
    out
}

/// Whether two text lists hold the same set of texts.
fn same_text_set(a: &Vec<String>, b: &Vec<String>) -> (r: bool)
    ensures
        r == (texts(a@).to_set() == texts(b@).to_set()),
{
    let ghost x = texts(a@);
    let ghost y = texts(b@);
    let mut i: usize = 0;
    while i < a.len()
        invariant
            x == texts(a@),
            y == texts(b@),
            i <= a@.len(),
            forall|k: int| 0 <= k < i ==> y.contains(#[trigger] x[k]),
        decreases a.len() - i,
    {
        if !text_in_list(b, &a[i]) {
            assert(x.to_set().contains(x[i as int]));
            return false;
        }
        i = i + 1;
    }
    let mut j: usize = 0;
    while j < b.len()
        invariant
            x == texts(a@),
            y == texts(b@),
            forall|k: int| 0 <= k < x.len() ==> y.contains(#[trigger] x[k]),
            j <= b@.len(),
            forall|k: int| 0 <= k < j ==> x.contains(#[trigger] y[k]),
        decreases b.len() - j,
    {
        if !text_in_list(a, &b[j]) {
            assert(y.to_set().contains(y[j as int]));
            return false;
        }
        j = j + 1;
    }
    proof {
        assert forall|t: Seq<char>| x.to_set().contains(t) <==> y.to_set().contains(t) by {
            if x.contains(t) {
                let k = choose|k: int| 0 <= k < x.len() && x[k] == t;
                assert(y.contains(x[k]));
            }
            if y.contains(t) {
                let k = choose|k: int| 0 <= k < y.len() && y[k] == t;
                assert(x.contains(y[k]));
            }
        }
        assert(x.to_set() =~= y.to_set());
    }
    true
}


proof fn lemma_decision_found(v: Seq<(String, AdoptionDecision)>, id: Seq<char>)
    requires
        decision_keys(v).contains(id),
    ensures
        decision_of(v, id) is Some,
    decreases v.len(),
{
    let k = choose|k: int| 0 <= k < decision_keys(v).len() && decision_keys(v)[k] == id;
    if v[0].0@ != id {
        assert(decision_keys(v.drop_first())[k - 1] == id);
        lemma_decision_found(v.drop_first(), id);
    }
}

fn find_decision<'a>(v: &'a Vec<(String, AdoptionDecision)>, id: &str) -> (r: Option<&'a AdoptionDecision>)
    ensures
        match r {
            Some(d) => decision_of(v@, id@) == Some(*d),
            None => decision_of(v@, id@) is None,
        },
{
    let mut i: usize = 0;
    assert(v@.subrange(0, v@.len() as int) =~= v@);
    while i < v.len()
        invariant
            i <= v@.len(),
            decision_of(v@, id@) == decision_of(v@.subrange(i as int, v@.len() as int), id@),
        decreases v.len() - i,
    {
        let ghost rest = v@.subrange(i as int, v@.len() as int);
        assert(rest[0] == v@[i as int]);
        assert(rest.drop_first() =~= v@.subrange(i + 1, v@.len() as int));
        if same_text(v[i].0.as_str(), id) {
            return Some(&v[i].1);
        }
        i = i + 1;
    }
    None
}

fn find_suite_exec<'a>(suites: &'a [TestSuite], id: &str) -> (r: Option<&'a TestSuite>)
    ensures
        match r {
            Some(s) => find_suite(suites@, id@) == Some(*s),
            None => find_suite(suites@, id@) is None,
        },
{
    let mut i: usize = 0;
    assert(suites@.subrange(0, suites@.len() as int) =~= suites@);
    while i < suites.len()
        invariant
            i <= suites@.len(),
            find_suite(suites@, id@) == find_suite(suites@.subrange(i as int, suites@.len() as int), id@),
        decreases suites.len() - i,
    {
        let ghost rest = suites@.subrange(i as int, suites@.len() as int);
        assert(rest[0] == suites@[i as int]);
        assert(rest.drop_first() =~= suites@.subrange(i + 1, suites@.len() as int));
        if same_text(suites[i].id.as_str(), id) {
            return Some(&suites[i]);
        }
        i = i + 1;
    }
    None
}

pub fn runs_at(stages: &Vec<TestStage>, stage: TestStage) -> (r: bool)
    ensures
        r == stages@.contains(stage),
{
    let mut i: usize = 0;
    while i < stages.len()
        invariant
            i <= stages@.len(),
            forall|k: int| 0 <= k < i ==> stages@[k] != stage,
        decreases stages.len() - i,
    {
        if stages[i] == stage {
            assert(stages@[i as int] == stage);
            return true;
        }
        i = i + 1;
    }
    false
}

fn push_text(v: &mut Vec<String>, t: String)
    ensures
        texts(final(v)@) == texts(old(v)@).push(t@),
{
    let ghost before = v@;
    v.push(t);
    assert(texts(v@) =~= texts(before).push(t@));
}

fn reasons_of(p: &Practice, d: &AdoptionDecision, suites: &[TestSuite]) -> (r: Vec<String>)
    ensures
        texts(r@) == decision_reasons(*p, *d, suites@),
{
    proof {
        reveal_strlit("pending decision");
        reveal_strlit("mandatory/conditional practice cannot be ignored");
        reveal_strlit("required practice cannot be marked not applicable");
        reveal_strlit("resolved decisions require owner, reason and canonical references");
        reveal_strlit("implementation requires executable suite references");
        reveal_strlit("unknown suite `");
        reveal_strlit("`");
        reveal_strlit("suite `");
        reveal_strlit("` requires pre_merge and post_merge stages");
    }
    let mut out: Vec<String> = Vec::new();
    match d.state {
        AdoptionState::Pending => push_text(&mut out, owned("pending decision")),
        AdoptionState::Ignored => if p.requirement != Requirement::Optional {
            push_text(&mut out, owned("mandatory/conditional practice cannot be ignored"));
        },
        AdoptionState::NotApplicable => if p.requirement == Requirement::Required {
            push_text(&mut out, owned("required practice cannot be marked not applicable"));
        },
        AdoptionState::Implemented => {},
    }
    let ghost state_part = texts(out@);
    if d.state != AdoptionState::Pending {
        if blank(d.owner.as_str()) || blank(d.reason.as_str()) || d.references.len() == 0 {
            push_text(&mut out, owned("resolved decisions require owner, reason and canonical references"));
        }
        if d.state == AdoptionState::Implemented && p.automated && d.suites.len() == 0 {
            push_text(&mut out, owned("implementation requires executable suite references"));
        }
    }
    let ghost head = texts(out@);
    let ghost ids = texts(d.suites@);
    let mut i: usize = 0;
    assert(head =~= head + suite_reasons(ids.subrange(0, 0), suites@));
    while i < d.suites.len()
        invariant
            ids == texts(d.suites@),
            i <= d.suites@.len(),
            texts(out@) == head + suite_reasons(ids.subrange(0, i as int), suites@),
        decreases d.suites.len() - i,
    {
        let id = d.suites[i].as_str();
        assert(ids.subrange(0, i + 1).drop_last() =~= ids.subrange(0, i as int));
        assert(ids.subrange(0, i + 1).last() == id@);
        let ghost before = texts(out@);
        match find_suite_exec(suites, id) {
            None => {
                let mut m = joined("unknown suite `", id);
                m.append("`");
                push_text(&mut out, m);
            },
            Some(suite) => {
                if !(runs_at(&suite.stages, TestStage::PreMerge) && runs_at(&suite.stages, TestStage::PostMerge)) {
                    let mut m = joined("suite `", id);
                    m.append("` requires pre_merge and post_merge stages");
                    push_text(&mut out, m);
                }
            },
        }
        assert(texts(out@) =~= head + suite_reasons(ids.subrange(0, i + 1), suites@));
        i = i + 1;
    }
    assert(ids.subrange(0, ids.len() as int) =~= ids);
    out
}

impl AdoptionRecord {
    /// Whether the record can be judged against the catalog: it pins the
    /// catalog's version and decides exactly the catalog's practices.
    pub fn inventory_check(&self, catalog: &AdoptionCatalog) -> (r: Result<(), AdoptionError>)
        ensures
            match inventory_problem(*self, *catalog) {
                Some(m) => r matches Err(AdoptionError::Invalid(x)) && x@ == m,
                None => r is Ok,
            },
    {
        proof {
            reveal_strlit("unsupported catalog ");
            reveal_strlit("; supports ");
            reveal_strlit(" (explicit migration required)");
            reveal_strlit("practice inventory mismatch; missing: ");
            reveal_strlit("; unknown: ");
        }
        if self.catalog_version != catalog.version {
            let mut m = joined("unsupported catalog ", decimal_text(self.catalog_version as u64).as_str());
            m.append("; supports ");
            m.append(decimal_text(catalog.version as u64).as_str());
            m.append(" (explicit migration required)");
            return Err(AdoptionError::Invalid(m));
        }
        let expected = collect_ids(&catalog.practices);
        let actual = collect_keys(&self.practices);
        if !same_text_set(&expected, &actual) {
            let missing = sort_texts(only_in_exec(&expected, &actual));
            let unknown = sort_texts(only_in_exec(&actual, &expected));
            let mut m = joined("practice inventory mismatch; missing: ", debug_list_exec(&missing).as_str());
            m.append("; unknown: ");
            m.append(debug_list_exec(&unknown).as_str());
            proof {
                assert(text_views(missing@) == texts(missing@));
                assert(text_views(unknown@) == texts(unknown@));
            }
            return Err(AdoptionError::Invalid(m));
        }
        Ok(())
    }

    /// Finds unresolved or contradictory decisions, judged against the
    /// catalog the record pins and the project's suites. Empty means the
    /// decisions are ready for verification, not that adoption is complete.
    pub fn blockers(&self, manifest: &ProjectManifest, catalog: &AdoptionCatalog) -> (r: Result<Vec<String>, AdoptionError>)
        ensures
            match inventory_problem(*self, *catalog) {
                Some(m) => r matches Err(AdoptionError::Invalid(x)) && x@ == m,
                None => r matches Ok(v) && texts(v@) == blockers_spec(*self, manifest.testing.suites@, *catalog),
            },
    {
        proof {
            reveal_strlit("unsupported catalog ");
            reveal_strlit("; supports ");
            reveal_strlit(" (explicit migration required)");
            reveal_strlit("practice inventory mismatch; missing: ");
            reveal_strlit("; unknown: ");
            reveal_strlit("scope: assess all relevant components");
            reveal_strlit(": ");
        }
        match self.inventory_check(catalog) {
            Err(e) => return Err(e),
            Ok(()) => {},
        }
        let expected = collect_ids(&catalog.practices);
        let actual = collect_keys(&self.practices);
        let mut out: Vec<String> = Vec::new();
        if blank(self.scope.as_str()) {
            push_text(&mut out, owned("scope: assess all relevant components"));
        }
        let ghost head = texts(out@);
        let ghost suites = manifest.testing.suites@;
        let mut i: usize = 0;
        assert(head =~= head + practice_blockers(catalog.practices@.subrange(0, 0), self.practices@, suites));
        while i < catalog.practices.len()
            invariant
                i <= catalog.practices@.len(),
                suites == manifest.testing.suites@,
                texts(expected@) == practice_ids(catalog.practices@),
                texts(actual@) == decision_keys(self.practices@),
                texts(expected@).to_set() == texts(actual@).to_set(),
                texts(out@) == head + practice_blockers(catalog.practices@.subrange(0, i as int), self.practices@, suites),
            decreases catalog.practices.len() - i,
        {
            let p = &catalog.practices[i];
            let ghost pre = catalog.practices@.subrange(0, i as int);
            assert(catalog.practices@.subrange(0, i + 1).drop_last() =~= pre);
            assert(catalog.practices@.subrange(0, i + 1).last() == *p);
            proof {
                assert(texts(expected@)[i as int] == p.id@);
                assert(texts(expected@).to_set().contains(p.id@));
                assert(texts(actual@).to_set().contains(p.id@));
                lemma_decision_found(self.practices@, p.id@);
            }
            let d = match find_decision(&self.practices, p.id.as_str()) {
                Some(d) => d,
                None => {
                    proof { assert(false); }
                    return Ok(out);
                },
            };
            let reasons = reasons_of(p, d, manifest.testing.suites.as_slice());
            let ghost base = texts(out@);
            let mut k: usize = 0;
            while k < reasons.len()
                invariant
                    k <= reasons@.len(),
                    texts(out@) == base + prefixed(p.id@, texts(reasons@).subrange(0, k as int)),
                decreases reasons.len() - k,
            {
                let mut line = joined(p.id.as_str(), ": ");
                line.append(reasons[k].as_str());
                push_text(&mut out, line);
                assert(prefixed(p.id@, texts(reasons@).subrange(0, k + 1)) =~= prefixed(p.id@, texts(reasons@).subrange(0, k as int)).push(p.id@ + ": "@ + reasons@[k as int]@));
                k = k + 1;
            }
            assert(texts(reasons@).subrange(0, reasons@.len() as int) =~= texts(reasons@));
            assert(texts(out@) =~= head + practice_blockers(catalog.practices@.subrange(0, i + 1), self.practices@, suites));
            i = i + 1;
        }
        assert(catalog.practices@.subrange(0, catalog.practices@.len() as int) =~= catalog.practices@);
        Ok(out)
    }
}

// ---------------------------------------------------------------------------
// Completion of an evaluated adoption

/// Evidence that the release publication path itself was reviewed.
pub open spec fn delivery_gate_evidence(e: Evidence) -> bool {
    e.kind@ == "delivery_gate"@ && match e.location {
        Some(p) => !is_blank(p@),
        None => false,
    }
}

/// A passed pipeline rule backed by delivery-gate evidence.
pub open spec fn delivery_reviewed(rules: Seq<RuleResult>) -> bool {
    exists|i: int| 0 <= i < rules.len() && (#[trigger] rules[i]).rule_id@ == "MCD-PIPELINE-001"@
        && rules[i].outcome == Outcome::Passed
        && exists|j: int| 0 <= j < rules[i].evidence@.len() && delivery_gate_evidence(#[trigger] rules[i].evidence@[j])
}

pub open spec fn delivery_message() -> Seq<char> {
    "delivery: review the actual release/tag publication dependency path and provide MCD-PIPELINE-001 delivery_gate evidence; integration-only CI is insufficient"@
}

/// The name of a gate as `{:?}` prints it.
pub open spec fn gate_label(g: Gate) -> Seq<char> {
    match g {
        Gate::Development => "Development"@,
        Gate::Integration => "Integration"@,
        Gate::Delivery => "Delivery"@,
        Gate::Compliance => "Compliance"@,
    }
}

pub open spec fn gate_line(g: Gate) -> Seq<char> {
    "core gate "@ + gate_label(g) + " is blocked"@
}

/// The blocked gates among `gs`, in order.
pub open spec fn gate_lines(gates: Seq<GateVerdict>, gs: Seq<Gate>) -> Seq<Seq<char>>
    decreases gs.len(),
{
    if gs.len() == 0 {
        Seq::empty()
    } else {
        let rest = gate_lines(gates, gs.drop_last());
        if crate::evaluator::gate_passed_in(gates, gs.last()) { rest } else { rest.push(gate_line(gs.last())) }
    }
}

pub open spec fn all_gates() -> Seq<Gate> {
    seq![Gate::Development, Gate::Integration, Gate::Delivery, Gate::Compliance]
}

/// Whether a check with this identity passed.
pub open spec fn suite_passed(checks: Seq<CheckResult>, s: Seq<char>) -> bool {
    exists|i: int| 0 <= i < checks.len() && (#[trigger] checks[i]).id@ == s && checks[i].outcome == Outcome::Passed
}

pub open spec fn suite_line(s: Seq<char>) -> Seq<char> {
    "suite `"@ + s + "` did not pass in this evaluation"@
}

/// The named suites that did not pass, in order.
pub open spec fn suite_lines(checks: Seq<CheckResult>, suites: Seq<Seq<char>>) -> Seq<Seq<char>>
    decreases suites.len(),
{
    if suites.len() == 0 {
        Seq::empty()
    } else {
        let rest = suite_lines(checks, suites.drop_last());
        if suite_passed(checks, suites.last()) { rest } else { rest.push(suite_line(suites.last())) }
    }
}

/// The suites of every decision, in record order, that did not pass.
pub open spec fn practice_lines(checks: Seq<CheckResult>, ps: Seq<(String, AdoptionDecision)>) -> Seq<Seq<char>>
    decreases ps.len(),
{
    if ps.len() == 0 {
        Seq::empty()
    } else {
        practice_lines(checks, ps.drop_last()) + suite_lines(checks, texts(ps.last().1.suites@))
    }
}

/// What keeps an evaluated adoption from completing: no reviewed delivery
/// path, a blocked core gate, or a decision's suite that did not pass.
pub open spec fn completion_blockers(report: CheckReport, record: AdoptionRecord) -> Seq<Seq<char>> {
    (if delivery_reviewed(report.rules@) { Seq::empty() } else { seq![delivery_message()] })
        + gate_lines(report.gates@, all_gates()) + practice_lines(report.checks@, record.practices@)
}

fn delivery_reviewed_exec(rules: &Vec<RuleResult>) -> (r: bool)
    ensures
        r == delivery_reviewed(rules@),
{
    let mut i: usize = 0;
    while i < rules.len()
        invariant
            i <= rules@.len(),
            forall|q: int| 0 <= q < i ==> !((#[trigger] rules@[q]).rule_id@ == "MCD-PIPELINE-001"@
                && rules@[q].outcome == Outcome::Passed
                && exists|j: int| 0 <= j < rules@[q].evidence@.len() && delivery_gate_evidence(#[trigger] rules@[q].evidence@[j])),
        decreases rules.len() - i,
    {
        let rule = &rules[i];
        if same_text(rule.rule_id.as_str(), "MCD-PIPELINE-001") && rule.outcome == Outcome::Passed {
            let mut j: usize = 0;
            while j < rule.evidence.len()
                invariant
                    i < rules@.len(),
                    *rule == rules@[i as int],
                    rule.rule_id@ == "MCD-PIPELINE-001"@,
                    rule.outcome == Outcome::Passed,
                    j <= rule.evidence@.len(),
                    forall|q: int| 0 <= q < j ==> !delivery_gate_evidence(#[trigger] rule.evidence@[q]),
                decreases rule.evidence.len() - j,
            {
                let e = &rule.evidence[j];
                let usable = match &e.location {
                    Some(p) => !blank(p.as_str()),
                    None => false,
                };
                if same_text(e.kind.as_str(), "delivery_gate") && usable {
                    assert(delivery_gate_evidence(rule.evidence@[j as int]));
                    return true;
                }
                j = j + 1;
            }
        }
        i = i + 1;
    }
    false
}

fn gate_text(g: Gate) -> (r: &'static str)
    ensures
        r@ == gate_label(g),
{
    match g {
        Gate::Development => "Development",
        Gate::Integration => "Integration",
        Gate::Delivery => "Delivery",
        Gate::Compliance => "Compliance",
    }
}

fn suite_passed_exec(checks: &Vec<CheckResult>, s: &String) -> (r: bool)
    ensures
        r == suite_passed(checks@, s@),
{
    let mut i: usize = 0;
    while i < checks.len()
        invariant
            i <= checks@.len(),
            forall|q: int| 0 <= q < i ==> !((#[trigger] checks@[q]).id@ == s@ && checks@[q].outcome == Outcome::Passed),
        decreases checks.len() - i,
    {
        if same_text(checks[i].id.as_str(), s.as_str()) && checks[i].outcome == Outcome::Passed {
            return true;
        }
        i = i + 1;
    }
    false
}

/// What keeps an evaluated adoption from completing, in the order a reader
/// resolves it: the delivery review, the core gates, then each decision's
/// suites in record order.
pub fn completion_blockers_of(report: &CheckReport, record: &AdoptionRecord) -> (r: Vec<String>)
    ensures
        text_views(r@) == completion_blockers(*report, *record),
{
    proof {
        reveal_strlit("delivery: review the actual release/tag publication dependency path and provide MCD-PIPELINE-001 delivery_gate evidence; integration-only CI is insufficient");
    }
    let mut out: Vec<String> = Vec::new();
    if !delivery_reviewed_exec(&report.rules) {
        out.push(owned("delivery: review the actual release/tag publication dependency path and provide MCD-PIPELINE-001 delivery_gate evidence; integration-only CI is insufficient"));
    }
    let ghost head = text_views(out@);
    let gs = vec![Gate::Development, Gate::Integration, Gate::Delivery, Gate::Compliance];
    assert(gs@ =~= all_gates());
    let mut g: usize = 0;
    assert(gs@.subrange(0, 0) =~= Seq::<Gate>::empty());
    while g < gs.len()
        invariant
            gs@ == all_gates(),
            g <= gs@.len(),
            text_views(out@) == head + gate_lines(report.gates@, gs@.subrange(0, g as int)),
        decreases gs.len() - g,
    {
        let gate = gs[g];
        assert(gs@.subrange(0, g + 1).drop_last() =~= gs@.subrange(0, g as int));
        assert(gs@.subrange(0, g + 1).last() == gate);
        if !report.gate_passed(gate) {
            let mut line = joined("core gate ", gate_text(gate));
            line.append(" is blocked");
            let ghost before = text_views(out@);
            out.push(line);
            assert(text_views(out@) =~= before.push(gate_line(gate)));
        }
        g = g + 1;
    }
    assert(gs@.subrange(0, gs@.len() as int) =~= gs@);
    let ghost mid = text_views(out@);
    let ps = &record.practices;
    let mut i: usize = 0;
    assert(ps@.subrange(0, 0) =~= Seq::<(String, AdoptionDecision)>::empty());
    while i < ps.len()
        invariant
            i <= ps@.len(),
            text_views(out@) == mid + practice_lines(report.checks@, ps@.subrange(0, i as int)),
        decreases ps.len() - i,
    {
        assert(ps@.subrange(0, i + 1).drop_last() =~= ps@.subrange(0, i as int));
        assert(ps@.subrange(0, i + 1).last() == ps@[i as int]);
        let suites = &ps[i].1.suites;
        let ghost base = text_views(out@);
        let mut j: usize = 0;
        assert(texts(suites@).subrange(0, 0) =~= Seq::<Seq<char>>::empty());
        while j < suites.len()
            invariant
                j <= suites@.len(),
                text_views(out@) == base + suite_lines(report.checks@, texts(suites@).subrange(0, j as int)),
            decreases suites.len() - j,
        {
            assert(texts(suites@).subrange(0, j + 1).drop_last() =~= texts(suites@).subrange(0, j as int));
            assert(texts(suites@).subrange(0, j + 1).last() == suites@[j as int]@);
            if !suite_passed_exec(&report.checks, &suites[j]) {
                let mut line = joined("suite `", suites[j].as_str());
                line.append("` did not pass in this evaluation");
                let ghost before = text_views(out@);
                out.push(line);
                assert(text_views(out@) =~= before.push(suite_line(suites@[j as int]@)));
            }
            j = j + 1;
        }
        assert(texts(suites@).subrange(0, suites@.len() as int) =~= texts(suites@));
        i = i + 1;
    }
    assert(ps@.subrange(0, ps@.len() as int) =~= ps@);
    out
}

// ---------------------------------------------------------------------------
// Laws

/// A pending decision is never complete adoption: whenever the decision a
/// catalog practice resolves to is still pending, the record has blockers.
pub proof fn lemma_pending_decision_blocks(
    practices: Seq<Practice>,
    decisions: Seq<(String, AdoptionDecision)>,
    suites: Seq<TestSuite>,
    k: int,
)
    requires
        0 <= k < practices.len(),
        decision_of(decisions, practices[k].id@) matches Some(d) && d.state == AdoptionState::Pending,
    ensures
        practice_blockers(practices, decisions, suites).len() > 0,
    decreases practices.len(),
{
    let p = practices.last();
    if k == practices.len() - 1 {
        let reasons = decision_reasons(p, decision_of(decisions, p.id@)->0, suites);
        assert(reasons.len() >= 1);
        assert(prefixed(p.id@, reasons).len() == reasons.len());
    } else {
        let rest = practices.drop_last();
        assert(rest[k] == practices[k]);
        lemma_pending_decision_blocks(rest, decisions, suites, k);
    }
}

proof fn lemma_no_gate_lines(gates: Seq<GateVerdict>, gs: Seq<Gate>, k: int)
    requires
        gate_lines(gates, gs).len() == 0,
        0 <= k < gs.len(),
    ensures
        crate::evaluator::gate_passed_in(gates, gs[k]),
    decreases gs.len(),
{
    if k < gs.len() - 1 {
        assert(gs.drop_last()[k] == gs[k]);
        lemma_no_gate_lines(gates, gs.drop_last(), k);
    }
}

proof fn lemma_no_suite_lines(checks: Seq<CheckResult>, suites: Seq<Seq<char>>, k: int)
    requires
        suite_lines(checks, suites).len() == 0,
        0 <= k < suites.len(),
    ensures
        suite_passed(checks, suites[k]),
    decreases suites.len(),
{
    if k < suites.len() - 1 {
        assert(suites.drop_last()[k] == suites[k]);
        lemma_no_suite_lines(checks, suites.drop_last(), k);
    }
}

proof fn lemma_no_practice_lines(checks: Seq<CheckResult>, ps: Seq<(String, AdoptionDecision)>, i: int, j: int)
    requires
        practice_lines(checks, ps).len() == 0,
        0 <= i < ps.len(),
        0 <= j < ps[i].1.suites@.len(),
    ensures
        suite_passed(checks, ps[i].1.suites@[j]@),
    decreases ps.len(),
{
    if i < ps.len() - 1 {
        assert(ps.drop_last()[i] == ps[i]);
        lemma_no_practice_lines(checks, ps.drop_last(), i, j);
    } else {
        assert(texts(ps[i].1.suites@)[j] == ps[i].1.suites@[j]@);
        lemma_no_suite_lines(checks, texts(ps[i].1.suites@), j);
    }
}

/// An evaluated adoption is complete only when the delivery path was
/// reviewed, every core gate passed and every suite a decision names passed
/// in the same evaluation.
pub proof fn lemma_completion_requires_everything(report: CheckReport, record: AdoptionRecord)
    requires
        completion_blockers(report, record).len() == 0,
    ensures
        delivery_reviewed(report.rules@),
        forall|k: int| 0 <= k < 4 ==> crate::evaluator::gate_passed_in(report.gates@, #[trigger] all_gates()[k]),
        forall|i: int, j: int| 0 <= i < record.practices@.len() && 0 <= j < record.practices@[i].1.suites@.len()
            ==> suite_passed(report.checks@, (#[trigger] record.practices@[i].1.suites@[j])@),
{
    let head: Seq<Seq<char>> = if delivery_reviewed(report.rules@) { Seq::empty() } else { seq![delivery_message()] };
    let g = gate_lines(report.gates@, all_gates());
    let p = practice_lines(report.checks@, record.practices@);
    assert((head + g + p).len() == head.len() + g.len() + p.len());
    assert forall|k: int| 0 <= k < 4 implies crate::evaluator::gate_passed_in(report.gates@, #[trigger] all_gates()[k]) by {
        lemma_no_gate_lines(report.gates@, all_gates(), k);
    }
    assert forall|i: int, j: int| 0 <= i < record.practices@.len() && 0 <= j < record.practices@[i].1.suites@.len()
        implies suite_passed(report.checks@, (#[trigger] record.practices@[i].1.suites@[j])@) by {
        lemma_no_practice_lines(report.checks@, record.practices@, i, j);
    }
}

/// Where an adoption stands, without running any check.
#[derive(Clone, Copy, Debug, PartialEq, Eq, Structural)]
pub enum AdoptionStatus {
    /// A first-schema record needs an explicit migration.
    MigrationRequired,
    /// No assessment was started.
    LegacyUnassessed,
    /// Every decision is resolved; verification is still to run.
    DecisionsReadyForVerification,
    /// Decisions remain open.
    Pending,
}

pub open spec fn status_of(record: Option<AdoptionRecord>, blockers: Seq<String>) -> AdoptionStatus {
    match record {
        Some(r) => if r.schema == 1 {
            AdoptionStatus::MigrationRequired
        } else if blockers.len() == 0 {
            AdoptionStatus::DecisionsReadyForVerification
        } else {
            AdoptionStatus::Pending
        },
        None => AdoptionStatus::LegacyUnassessed,
    }
}

/// The status of an adoption from its record, if any, and the record's
/// blockers; a status never claims completion.
pub fn adoption_status(record: &Option<AdoptionRecord>, blockers: &[String]) -> (s: AdoptionStatus)
    ensures
        s == status_of(*record, blockers@),
{
    match record {
        Some(r) => if r.schema == 1 {
            AdoptionStatus::MigrationRequired
        } else if blockers.len() == 0 {
            AdoptionStatus::DecisionsReadyForVerification
        } else {
            AdoptionStatus::Pending
        },
        None => AdoptionStatus::LegacyUnassessed,
    }
}

pub open spec fn status_text(s: AdoptionStatus) -> Seq<char> {
    match s {
        AdoptionStatus::MigrationRequired => "migration_required"@,
        AdoptionStatus::LegacyUnassessed => "legacy_unassessed"@,
        AdoptionStatus::DecisionsReadyForVerification => "decisions_ready_for_verification"@,
        AdoptionStatus::Pending => "pending"@,
    }
}

impl AdoptionStatus {
    /// The status as reports name it.
    pub fn name(&self) -> (r: &'static str)
        ensures
            r@ == status_text(*self),
    {
        match self {
            AdoptionStatus::MigrationRequired => "migration_required",
            AdoptionStatus::LegacyUnassessed => "legacy_unassessed",
            AdoptionStatus::DecisionsReadyForVerification => "decisions_ready_for_verification",
            AdoptionStatus::Pending => "pending",
        }
    }
}

/// Starting an assessment keeps an existing record as it is; otherwise it
/// is a new record with every decision pending. The flag tells whether the
/// record already existed.
pub fn start_record(existing: Option<AdoptionRecord>, catalog: &AdoptionCatalog) -> (r: (AdoptionRecord, bool))
    ensures
        match existing {
            Some(e) => r.0 == e && r.1,
            None => !r.1 && r.0.schema == 1 && r.0.catalog_version == catalog.version && r.0.scope@.len() == 0
                && decisions_ordered(r.0.practices@)
                && decision_keys(r.0.practices@).to_set() == practice_ids(catalog.practices@).to_set()
                && (forall|a: int, b: int| 0 <= a < b < r.0.practices@.len() ==> r.0.practices@[a].0@ != r.0.practices@[b].0@)
                && forall|k: int| 0 <= k < r.0.practices@.len() ==> is_pending_decision(#[trigger] r.0.practices@[k].1),
        },
{
    match existing {
        Some(e) => (e, true),
        None => (AdoptionRecord::pending(catalog), false),
    }
}

/// The blockers of a record on which nothing is decided yet: one pending
/// decision per practice, in catalog order.
pub open spec fn pending_blockers(practices: Seq<Practice>) -> Seq<Seq<char>> {
    practices.map_values(|p: Practice| p.id@ + ": "@ + pending_reason())
}

proof fn lemma_decision_of_pending(v: Seq<(String, AdoptionDecision)>, id: Seq<char>)
    requires
        decision_keys(v).contains(id),
        forall|k: int| 0 <= k < v.len() ==> is_pending_decision(#[trigger] v[k].1),
    ensures
        decision_of(v, id) matches Some(d) && is_pending_decision(d),
    decreases v.len(),
{
    if v[0].0@ != id {
        let t = v.drop_first();
        let j = choose|j: int| 0 <= j < decision_keys(v).len() && decision_keys(v)[j] == id;
        assert(j != 0);
        assert(decision_keys(t)[j - 1] == id);
        assert forall|k: int| 0 <= k < t.len() implies is_pending_decision(#[trigger] t[k].1) by {
            assert(t[k] == v[k + 1]);
        }
        lemma_decision_of_pending(t, id);
    }
}

proof fn lemma_pending_practice_blockers(practices: Seq<Practice>, decisions: Seq<(String, AdoptionDecision)>, suites: Seq<TestSuite>)
    requires
        forall|i: int| 0 <= i < practices.len() ==> decision_keys(decisions).contains(#[trigger] practices[i].id@),
        forall|k: int| 0 <= k < decisions.len() ==> is_pending_decision(#[trigger] decisions[k].1),
    ensures
        practice_blockers(practices, decisions, suites) == pending_blockers(practices),
    decreases practices.len(),
{
    if practices.len() > 0 {
        let p = practices.last();
        let front = practices.drop_last();
        assert forall|i: int| 0 <= i < front.len() implies decision_keys(decisions).contains(#[trigger] front[i].id@) by {
            assert(front[i] == practices[i]);
        }
        lemma_pending_practice_blockers(front, decisions, suites);
        assert(practices[practices.len() - 1] == p);
        lemma_decision_of_pending(decisions, p.id@);
        let d = decision_of(decisions, p.id@)->0;
        assert(texts(d.suites@) =~= Seq::<Seq<char>>::empty());
        assert(decision_reasons(p, d, suites) =~= seq![pending_reason()]);
        assert(prefixed(p.id@, seq![pending_reason()]) =~= seq![p.id@ + ": "@ + pending_reason()]);
        assert(pending_blockers(practices) =~= pending_blockers(front).push(p.id@ + ": "@ + pending_reason()));
    } else {
        assert(pending_blockers(practices) =~= Seq::<Seq<char>>::empty());
    }
}

/// A new record on which nothing is decided yet can be judged against its
/// catalog, and is blocked by its unassessed scope and by one pending
/// decision per practice, in catalog order.
pub proof fn lemma_fresh_record_blockers(record: AdoptionRecord, catalog: AdoptionCatalog, suites: Seq<TestSuite>)
    requires
        record.catalog_version == catalog.version,
        record.scope@.len() == 0,
        decision_keys(record.practices@).to_set() == practice_ids(catalog.practices@).to_set(),
        forall|k: int| 0 <= k < record.practices@.len() ==> is_pending_decision(#[trigger] record.practices@[k].1),
    ensures
        inventory_problem(record, catalog) is None,
        blockers_spec(record, suites, catalog) == seq![scope_blocker()] + pending_blockers(catalog.practices@),
{
    let ps = catalog.practices@;
    assert forall|i: int| 0 <= i < ps.len() implies decision_keys(record.practices@).contains(#[trigger] ps[i].id@) by {
        assert(practice_ids(ps)[i] == ps[i].id@);
        assert(practice_ids(ps).to_set().contains(ps[i].id@));
        assert(decision_keys(record.practices@).to_set().contains(ps[i].id@));
    }
    lemma_pending_practice_blockers(ps, record.practices@, suites);
    assert(is_blank(record.scope@));
}

/// What an adoption check does once the decisions were judged and both
/// guidance files were looked for.
#[derive(Debug)]
pub enum AdoptionCheckNext {
    /// Nothing blocks: the core evaluation runs and settles completion.
    Evaluate,
    /// The check ends incomplete with these blockers; nothing is executed.
    Blocked(Vec<String>),
}

pub open spec fn missing_guidance(name: Seq<char>) -> Seq<char> {
    "agents: missing "@ + name
}

/// Where the adoption record lives in a project.
pub const ADOPTION_PATH: &'static str = ".opdev/adoption.yaml";

pub open spec fn fingerprint_unavailable() -> Seq<char> {
    "adoption review: staged fingerprint unavailable; resolve the reported unstaged/untracked inputs first"@
}

pub open spec fn no_matching_change() -> Seq<char> {
    "adoption review: no ledger change matches the current staged fingerprint; review this state rather than copying old assertions"@
}

pub open spec fn review_needed(id: Seq<char>) -> Seq<char> {
    id + ": needs a current fingerprint-bound adoption_review of .opdev/adoption.yaml; check fingerprint separately from evidence kind/location; use adoption prepare-evidence for an unresolved worksheet"@
}

/// Evidence that reviews the adoption record itself.
pub open spec fn is_adoption_review(e: Evidence) -> bool {
    &&& e.kind@ == "adoption_review"@
    &&& e.location matches Some(l) && l@ == ".opdev/adoption.yaml"@
}

/// A passed assertion of rule `id` backed by a review of the adoption record.
pub open spec fn reviews_adoption(a: EvidenceAssertion, id: Seq<char>) -> bool {
    &&& a.rule_id@ == id
    &&& a.outcome == Outcome::Passed
    &&& exists|j: int| 0 <= j < a.evidence@.len() && is_adoption_review(#[trigger] a.evidence@[j])
}

pub open spec fn change_reviews(c: ChangeAssertions, id: Seq<char>) -> bool {
    exists|i: int| 0 <= i < c.assertions@.len() && reviews_adoption(#[trigger] c.assertions@[i], id)
}

/// What keeps an adoption review from counting: without a staged fingerprint
/// or without a ledger change for it, exactly that; otherwise one blocker for
/// each of the work and acceptance rules the change does not pass with a
/// review of the adoption record.
pub open spec fn review_blockers_spec(fingerprint: Option<Seq<char>>, reviewed: Option<ChangeAssertions>) -> Seq<Seq<char>> {
    match fingerprint {
        None => seq![fingerprint_unavailable()],
        Some(_) => match reviewed {
            None => seq![no_matching_change()],
            Some(c) => {
                let work = if change_reviews(c, "OPDEV-WORK-001"@) { Seq::empty() } else { seq![review_needed("OPDEV-WORK-001"@)] };
                let test = if change_reviews(c, "OPDEV-TEST-002"@) { Seq::empty() } else { seq![review_needed("OPDEV-TEST-002"@)] };
                work + test
            },
        },
    }
}

fn has_adoption_review(c: &ChangeAssertions, id: &str) -> (r: bool)
    ensures
        r == change_reviews(*c, id@),
{
    proof {
        reveal_strlit("adoption_review");
        reveal_strlit(".opdev/adoption.yaml");
    }
    let mut i: usize = 0;
    while i < c.assertions.len()
        invariant
            i <= c.assertions@.len(),
            forall|q: int| 0 <= q < i ==> !reviews_adoption(#[trigger] c.assertions@[q], id@),
        decreases c.assertions.len() - i,
    {
        let a = &c.assertions[i];
        if same_text(a.rule_id.as_str(), id) && a.outcome == Outcome::Passed {
            let mut j: usize = 0;
            while j < a.evidence.len()
                invariant
                    i < c.assertions@.len(),
                    *a == c.assertions@[i as int],
                    a.rule_id@ == id@,
                    a.outcome == Outcome::Passed,
                    j <= a.evidence@.len(),
                    forall|q: int| 0 <= q < j ==> !is_adoption_review(#[trigger] a.evidence@[q]),
                decreases a.evidence.len() - j,
            {
                let e = &a.evidence[j];
                let located = match &e.location {
                    Some(l) => same_text(l.as_str(), ADOPTION_PATH),
                    None => false,
                };
                if same_text(e.kind.as_str(), "adoption_review") && located {
                    proof {
                        assert(is_adoption_review(a.evidence@[j as int]));
                        assert(reviews_adoption(c.assertions@[i as int], id@));
                    }
                    return true;
                }
                j = j + 1;
            }
        }
        i = i + 1;
    }
    false
}

/// The review blockers of an adoption check (see `review_blockers_spec`).
pub fn review_blockers(fingerprint: Option<&str>, reviewed: &Option<ChangeAssertions>) -> (r: Vec<String>)
    ensures
        text_views(r@) == review_blockers_spec(match fingerprint { Some(f) => Some(f@), None => None }, *reviewed),
{
    proof {
        reveal_strlit("adoption review: staged fingerprint unavailable; resolve the reported unstaged/untracked inputs first");
        reveal_strlit("adoption review: no ledger change matches the current staged fingerprint; review this state rather than copying old assertions");
        reveal_strlit(": needs a current fingerprint-bound adoption_review of .opdev/adoption.yaml; check fingerprint separately from evidence kind/location; use adoption prepare-evidence for an unresolved worksheet");
        reveal_strlit("OPDEV-WORK-001");
        reveal_strlit("OPDEV-TEST-002");
    }
    let mut out: Vec<String> = Vec::new();
    if fingerprint.is_none() {
        out.push(owned("adoption review: staged fingerprint unavailable; resolve the reported unstaged/untracked inputs first"));
        proof { assert(text_views(out@) =~= seq![fingerprint_unavailable()]); }
        return out;
    }
    let c = match reviewed {
        None => {
            out.push(owned("adoption review: no ledger change matches the current staged fingerprint; review this state rather than copying old assertions"));
            proof { assert(text_views(out@) =~= seq![no_matching_change()]); }
            return out;
        },
        Some(c) => c,
    };
    let note = ": needs a current fingerprint-bound adoption_review of .opdev/adoption.yaml; check fingerprint separately from evidence kind/location; use adoption prepare-evidence for an unresolved worksheet";
    if !has_adoption_review(c, "OPDEV-WORK-001") {
        out.push(joined("OPDEV-WORK-001", note));
    }
    let ghost first = text_views(out@);
    if !has_adoption_review(c, "OPDEV-TEST-002") {
        out.push(joined("OPDEV-TEST-002", note));
    }
    proof {
        let work = if change_reviews(*c, "OPDEV-WORK-001"@) { Seq::<Seq<char>>::empty() } else { seq![review_needed("OPDEV-WORK-001"@)] };
        let test = if change_reviews(*c, "OPDEV-TEST-002"@) { Seq::<Seq<char>>::empty() } else { seq![review_needed("OPDEV-TEST-002"@)] };
        assert(first =~= work);
        assert(text_views(out@) =~= work + test);
    }
    out
}

pub open spec fn fingerprint_of(f: Result<String, String>) -> Option<Seq<char>> {
    match f {
        Ok(s) => Some(s@),
        Err(_) => None,
    }
}

/// A failed fingerprint is reported with its reason.
pub open spec fn freshness_blockers(f: Result<String, String>) -> Seq<Seq<char>> {
    match f {
        Ok(_) => Seq::empty(),
        Err(e) => seq!["freshness: "@ + e@],
    }
}

/// The blockers of an adoption check before anything runs, in order: the
/// decisions, the staged fingerprint, the adoption review, then one for each
/// missing guidance file.
pub open spec fn check_blockers(blockers: Seq<Seq<char>>, fingerprint: Result<String, String>, reviewed: Option<ChangeAssertions>,
    agents_present: bool, importing_present: bool, importing_name: Seq<char>) -> Seq<Seq<char>>
{
    let b = blockers + freshness_blockers(fingerprint) + review_blockers_spec(fingerprint_of(fingerprint), reviewed);
    let a = if agents_present { b } else { b.push(missing_guidance("AGENTS.md"@)) };
    if importing_present { a } else { a.push(missing_guidance(importing_name)) }
}

/// Project commands run only once the decisions are ready, the staged state
/// has a fingerprint, a ledger change for it passes the work and acceptance
/// rules with a review of the adoption record, and both guidance files
/// exist; otherwise the check reports every blocker and runs nothing.
pub fn adoption_check_next(
    blockers: Vec<String>,
    fingerprint: &Result<String, String>,
    reviewed: &Option<ChangeAssertions>,
    agents_present: bool,
    importing_present: bool,
    importing_name: &str,
) -> (n: AdoptionCheckNext)
    ensures
        (n is Evaluate) <==> check_blockers(texts(blockers@), *fingerprint, *reviewed, agents_present, importing_present,
            importing_name@).len() == 0,
        n matches AdoptionCheckNext::Blocked(v) ==> texts(v@) == check_blockers(texts(blockers@), *fingerprint, *reviewed,
            agents_present, importing_present, importing_name@),
{
    proof {
        reveal_strlit("agents: missing ");
        reveal_strlit("AGENTS.md");
        reveal_strlit("freshness: ");
    }
    let mut out = blockers;
    let ghost base = texts(out@);
    let current = match fingerprint {
        Ok(f) => Some(f.as_str()),
        Err(e) => {
            push_text(&mut out, joined("freshness: ", e.as_str()));
            None
        },
    };
    proof { assert(texts(out@) =~= base + freshness_blockers(*fingerprint)); }
    let ghost with_fresh = texts(out@);
    let review = review_blockers(current, reviewed);
    let mut k: usize = 0;
    while k < review.len()
        invariant
            k <= review@.len(),
            texts(out@) == with_fresh + text_views(review@).subrange(0, k as int),
        decreases review.len() - k,
    {
        push_text(&mut out, copy_string(&review[k]));
        proof {
            assert(text_views(review@).subrange(0, k + 1) =~= text_views(review@).subrange(0, k as int).push(review@[k as int]@));
        }
        k = k + 1;
    }
    proof {
        assert(text_views(review@).subrange(0, review@.len() as int) =~= text_views(review@));
        assert(match current { Some(f) => Some(f@), None => None } == fingerprint_of(*fingerprint));
    }
    if !agents_present {
        push_text(&mut out, joined("agents: missing ", "AGENTS.md"));
    }
    if !importing_present {
        push_text(&mut out, joined("agents: missing ", importing_name));
    }
    if out.len() == 0 {
        AdoptionCheckNext::Evaluate
    } else {
        AdoptionCheckNext::Blocked(out)
    }
}

/// The trunk choices an adoption plan offers: keep `main`, or for another
/// trunk either keep it or rename it to `main` after review.
pub open spec fn branch_choices_spec(trunk: Seq<char>) -> Seq<Seq<char>> {
    if trunk == "main"@ {
        seq!["Keep main as the single integration and release source"@]
    } else {
        seq![
            "Keep "@ + trunk + " as the single integration and release source"@,
            "Rename the trunk to main after reviewing CI, protection and documentation changes"@,
        ]
    }
}

pub fn branch_choices(trunk: &str) -> (r: Vec<String>)
    ensures
        texts(r@) == branch_choices_spec(trunk@),
{
    proof {
        reveal_strlit("main");
        reveal_strlit("Keep main as the single integration and release source");
        reveal_strlit("Keep ");
        reveal_strlit(" as the single integration and release source");
        reveal_strlit("Rename the trunk to main after reviewing CI, protection and documentation changes");
    }
    let mut out: Vec<String> = Vec::new();
    if same_text(trunk, "main") {
        push_text(&mut out, owned("Keep main as the single integration and release source"));
    } else {
        let mut keep = joined("Keep ", trunk);
        keep.append(" as the single integration and release source");
        push_text(&mut out, keep);
        push_text(&mut out, owned("Rename the trunk to main after reviewing CI, protection and documentation changes"));
    }
    proof { assert(texts(out@) =~= branch_choices_spec(trunk@)); }
    out
}

/// An explicit migration of a first-schema record: it becomes a current
/// record with the same decisions; a current record is left as it is.
pub fn migrate_record(record: AdoptionRecord) -> (r: AdoptionRecord)
    ensures
        r.schema == (if record.schema == 1 { 2 } else { record.schema }),
        r.catalog_version == record.catalog_version,
        r.scope == record.scope,
        r.practices == record.practices,
        decisions_ordered(r.practices@) == decisions_ordered(record.practices@),
{
    let mut r = record;
    if r.schema == 1 {
        r.schema = 2;
    }
    r
}

pub open spec fn opt_str(s: Option<&str>) -> Option<Seq<char>> {
    match s {
        Some(v) => Some(v@),
        None => None,
    }
}

pub open spec fn changed_during_verification() -> Seq<char> {
    "repository or reviewed evidence changed during verification; stage and review again"@
}

/// What keeps an evaluated adoption from completing, with the staged
/// fingerprint and the evidence read before and after the evaluation: the
/// completion blockers, then one more when either changed meanwhile.
pub fn verified_blockers(
    report: &CheckReport,
    record: &AdoptionRecord,
    fingerprint_before: Option<&str>,
    fingerprint_after: Option<&str>,
    before: &[u8],
    after: &[u8],
) -> (r: Vec<String>)
    ensures
        text_views(r@) == completion_blockers(*report, *record) + (if before@ == after@
            && opt_str(fingerprint_before) == opt_str(fingerprint_after) { Seq::<Seq<char>>::empty() } else {
            seq![changed_during_verification()] }),
{
    proof { reveal_strlit("repository or reviewed evidence changed during verification; stage and review again"); }
    let mut out = completion_blockers_of(report, record);
    let ghost first = text_views(out@);
    let mut same = before.len() == after.len();
    let mut i: usize = 0;
    while same && i < before.len()
        invariant
            before@.len() == after@.len() ==> i <= before@.len(),
            same ==> before@.len() == after@.len(),
            same == (before@.len() == after@.len() && forall|k: int| 0 <= k < i ==> before@[k] == after@[k]),
        decreases before.len() - i,
    {
        if before[i] != after[i] {
            same = false;
        }
        i = i + 1;
    }
    proof {
        if same {
            assert(before@ =~= after@);
        }
    }
    let same_fingerprint = match (fingerprint_before, fingerprint_after) {
        (None, None) => true,
        (Some(a), Some(b)) => same_text(a, b),
        _ => false,
    };
    let same = same && same_fingerprint;
    if !same {
        out.push(owned("repository or reviewed evidence changed during verification; stage and review again"));
        proof { assert(text_views(out@) =~= first.push(changed_during_verification())); }
    } else {
        proof { assert(first + Seq::<Seq<char>>::empty() =~= first); }
    }
    out
}

/// Accepts a record read from an adoption document: the document must meet
/// the record schema, where one is given (violations joined by `; `), and the
/// record must pin the catalog's version and decide exactly its practices.
/// Incomplete decisions are valid drafts.
pub fn adoption_record_from(document: &str, schema: Option<&str>, record: AdoptionRecord, catalog: &AdoptionCatalog)
    -> (r: Result<AdoptionRecord, AdoptionError>)
    ensures
        match (match schema { Some(s) => schema_refusal(schema_errors(s@, document@)), None => None }) {
            Some(Err(m)) => r matches Err(AdoptionError::Invalid(x)) && x@ == m,
            Some(Ok(m)) => r matches Err(AdoptionError::Invalid(x)) && x@ == m,
            None => match inventory_problem(record, *catalog) {
                Some(m) => r matches Err(AdoptionError::Invalid(x)) && x@ == m,
                None => r == Ok::<AdoptionRecord, AdoptionError>(record),
            },
        },
{
    if let Some(s) = schema {
        match check_schema(s, document) {
            Ok(()) => {},
            Err(Err(m)) => return Err(AdoptionError::Invalid(m)),
            Err(Ok(m)) => return Err(AdoptionError::Invalid(m)),
        }
    }
    match record.inventory_check(catalog) {
        Ok(()) => Ok(record),
        Err(e) => Err(e),
    }
}

proof fn lemma_ignored_in_practice_blockers(practices: Seq<Practice>, decisions: Seq<(String, AdoptionDecision)>,
    suites: Seq<TestSuite>, k: int)
    requires
        0 <= k < practices.len(),
        practices[k].requirement == Requirement::Required || practices[k].requirement == Requirement::Conditional,
        decision_of(decisions, practices[k].id@) matches Some(d) && d.state == AdoptionState::Ignored,
    ensures
        practice_blockers(practices, decisions, suites).contains(practices[k].id@ + ": mandatory/conditional practice cannot be ignored"@),
    decreases practices.len(),
{
    let p = practices.last();
    let rest = practices.drop_last();
    let before = practice_blockers(rest, decisions, suites);
    if k == practices.len() - 1 {
        let reasons = decision_reasons(p, decision_of(decisions, p.id@)->0, suites);
        assert(reasons[0] == ignored_reason());
        let pre = prefixed(p.id@, reasons);
        assert(pre[0] == p.id@ + ": "@ + reasons[0]);
        assert(p.id@ + ": "@ + ignored_reason() =~= p.id@ + ": mandatory/conditional practice cannot be ignored"@) by {
            reveal_strlit(": ");
            reveal_strlit("mandatory/conditional practice cannot be ignored");
            reveal_strlit(": mandatory/conditional practice cannot be ignored");
        }
        assert((before + pre)[before.len() as int] == pre[0]);
    } else {
        assert(rest[k] == practices[k]);
        lemma_ignored_in_practice_blockers(rest, decisions, suites, k);
        let j = choose|j: int| 0 <= j < before.len() && before[j] == practices[k].id@ + ": mandatory/conditional practice cannot be ignored"@;
        let pre = prefixed(p.id@, decision_reasons(p, decision_of(decisions, p.id@)->0, suites));
        assert((before + pre)[j] == before[j]);
    }
}

/// A required or conditional practice can never be ignored: whenever its
/// decision is Ignored, the record's blockers name it as a practice that
/// cannot be ignored, whatever the other decisions and the suites are.
pub proof fn lemma_ignoring_a_mandatory_practice_blocks(record: AdoptionRecord, manifest: ProjectManifest,
    catalog: AdoptionCatalog, blockers: Vec<String>, k: int)
    requires
        texts(blockers@) == blockers_spec(record, manifest.testing.suites@, catalog),
        0 <= k < catalog.practices@.len(),
        catalog.practices@[k].requirement == Requirement::Required || catalog.practices@[k].requirement == Requirement::Conditional,
        decision_of(record.practices@, catalog.practices@[k].id@) matches Some(d) && d.state == AdoptionState::Ignored,
    ensures
        texts(blockers@).contains(catalog.practices@[k].id@ + ": mandatory/conditional practice cannot be ignored"@),
{
    let suites = manifest.testing.suites@;
    lemma_ignored_in_practice_blockers(catalog.practices@, record.practices@, suites, k);
    let head: Seq<Seq<char>> = if is_blank(record.scope@) { seq![scope_blocker()] } else { Seq::empty() };
    let body = practice_blockers(catalog.practices@, record.practices@, suites);
    let j = choose|j: int| 0 <= j < body.len() && body[j] == catalog.practices@[k].id@ + ": mandatory/conditional practice cannot be ignored"@;
    assert((head + body)[head.len() + j] == body[j]);
}

} // verus!
