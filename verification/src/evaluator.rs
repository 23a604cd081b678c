//! Evaluation of core rules, canonical suites and project extensions into a
//! report with strictly aggregated gates. Commands are run by the caller;
//! every decision about their results is taken here.
use vstd::prelude::*;
use crate::manifest::{
    CiProvider, DeliveryStatus, ExtensionCheck, ExtensionStage, ProjectManifest, TestStage, TestSuite,
};
use crate::outcome::{
    AggregateVerdict, Evidence, EvidenceView, Gate, Outcome, VerificationSource, evidence_views,
};
use crate::ledger::{ChangeAssertions, EvidenceAssertion, apply_evidence, ledger_result_ok, lemma_settled_contract_results};
use crate::text::{
    blank, copy_string, decimal, decimal_text, is_blank, joined, owned, same_text,
};

verus! {

/// Selection of executable checks for one evaluation.
#[derive(Clone, Copy, Debug, PartialEq, Eq, Structural)]
pub struct CheckOptions {
    /// Canonical test-suite stage to execute.
    pub test_stage: TestStage,
    /// Project-extension stage to execute.
    pub extension_stage: ExtensionStage,
    /// Whether canonical and extension commands may execute.
    pub execute_checks: bool,
}

impl CheckOptions {
    /// Local-development evaluation with canonical local suites.
    pub fn local() -> (r: CheckOptions)
        ensures
            r == (CheckOptions { test_stage: TestStage::Local, extension_stage: ExtensionStage::Verify, execute_checks: true }),
    {
        CheckOptions { test_stage: TestStage::Local, extension_stage: ExtensionStage::Verify, execute_checks: true }
    }

    /// Pre-integration CI evaluation.
    pub fn pre_merge() -> (r: CheckOptions)
        ensures
            r == (CheckOptions { test_stage: TestStage::PreMerge, extension_stage: ExtensionStage::PreMerge, execute_checks: true }),
    {
        CheckOptions { test_stage: TestStage::PreMerge, extension_stage: ExtensionStage::PreMerge, execute_checks: true }
    }
}

/// What kind of check produced a result.
#[derive(Clone, Copy, Debug, PartialEq, Eq, Structural)]
pub enum CheckKind {
    Suite,
    Extension,
}

/// The result of one executed check.
#[derive(Debug)]
pub struct CheckResult {
    pub id: String,
    pub kind: CheckKind,
    pub blocking: bool,
    pub gates: Vec<Gate>,
    pub outcome: Outcome,
    pub summary: String,
    pub evidence: Vec<Evidence>,
    pub stdout: Option<String>,
    pub stderr: Option<String>,
    pub duration_ms: Option<u64>,
}

/// What running a command produced.
#[derive(Debug)]
pub struct Execution {
    pub exit_code: Option<i32>,
    pub timed_out: bool,
    pub stdout: String,
    pub stderr: String,
    pub duration_ms: u64,
}

/// The gates a canonical suite of a stage contributes to.
pub open spec fn test_stage_gates(stage: TestStage) -> Seq<Gate> {
    match stage {
        TestStage::Local => seq![Gate::Development],
        TestStage::PreMerge => seq![Gate::Integration],
        TestStage::PostMerge | TestStage::Package | TestStage::Delivery | TestStage::Recovery => seq![Gate::Delivery],
        TestStage::Scheduled | TestStage::Evaluation => seq![Gate::Compliance],
    }
}

pub fn gates_for_test_stage(stage: TestStage) -> (r: Vec<Gate>)
    ensures
        r@ == test_stage_gates(stage),
{
    let gate = match stage {
        TestStage::Local => Gate::Development,
        TestStage::PreMerge => Gate::Integration,
        TestStage::PostMerge | TestStage::Package | TestStage::Delivery | TestStage::Recovery => Gate::Delivery,
        TestStage::Scheduled | TestStage::Evaluation => Gate::Compliance,
    };
    let mut v: Vec<Gate> = Vec::new();
    v.push(gate);
    assert(v@ =~= test_stage_gates(stage));
    v
}

/// The gates a project extension of a stage contributes to.
pub open spec fn extension_stage_gates(stage: ExtensionStage) -> Seq<Gate> {
    match stage {
        ExtensionStage::Specify | ExtensionStage::Design | ExtensionStage::Verify => seq![Gate::Development],
        ExtensionStage::PreMerge => seq![Gate::Integration],
        ExtensionStage::PostMerge | ExtensionStage::Package | ExtensionStage::Deliver | ExtensionStage::Smoke
            | ExtensionStage::Recover => seq![Gate::Delivery],
        ExtensionStage::Evaluate => seq![Gate::Compliance],
    }
}

pub fn gates_for_extension_stage(stage: ExtensionStage) -> (r: Vec<Gate>)
    ensures
        r@ == extension_stage_gates(stage),
{
    let gate = match stage {
        ExtensionStage::Specify | ExtensionStage::Design | ExtensionStage::Verify => Gate::Development,
        ExtensionStage::PreMerge => Gate::Integration,
        ExtensionStage::PostMerge | ExtensionStage::Package | ExtensionStage::Deliver | ExtensionStage::Smoke
            | ExtensionStage::Recover => Gate::Delivery,
        ExtensionStage::Evaluate => Gate::Compliance,
    };
    let mut v: Vec<Gate> = Vec::new();
    v.push(gate);
    assert(v@ =~= extension_stage_gates(stage));
    v
}

/// The protocol name of an extension stage.
pub open spec fn stage_name(stage: ExtensionStage) -> Seq<char> {
    match stage {
        ExtensionStage::Specify => "specify"@,
        ExtensionStage::Design => "design"@,
        ExtensionStage::Verify => "verify"@,
        ExtensionStage::PreMerge => "pre_merge"@,
        ExtensionStage::PostMerge => "post_merge"@,
        ExtensionStage::Package => "package"@,
        ExtensionStage::Deliver => "deliver"@,
        ExtensionStage::Smoke => "smoke"@,
        ExtensionStage::Recover => "recover"@,
        ExtensionStage::Evaluate => "evaluate"@,
    }
}

pub fn extension_stage_name(stage: ExtensionStage) -> (r: &'static str)
    ensures
        r@ == stage_name(stage),
{
    match stage {
        ExtensionStage::Specify => "specify",
        ExtensionStage::Design => "design",
        ExtensionStage::Verify => "verify",
        ExtensionStage::PreMerge => "pre_merge",
        ExtensionStage::PostMerge => "post_merge",
        ExtensionStage::Package => "package",
        ExtensionStage::Deliver => "deliver",
        ExtensionStage::Smoke => "smoke",
        ExtensionStage::Recover => "recover",
        ExtensionStage::Evaluate => "evaluate",
    }
}

/// The rules whose evidence comes from the delivery contract.
pub open spec fn delivery_rule(id: Seq<char>) -> bool {
    id == "MCD-DELIVERY-001"@ || id == "MCD-PIPELINE-001"@ || id == "MCD-ARTIFACT-001"@
        || id == "MCD-ARTIFACT-002"@ || id == "MCD-ENV-001"@ || id == "MCD-RECOVERY-001"@
        || id == "MCD-CONFIG-002"@
}

pub fn is_delivery_rule(id: &str) -> (r: bool)
    ensures
        r == delivery_rule(id@),
{
    same_text(id, "MCD-DELIVERY-001") || same_text(id, "MCD-PIPELINE-001") || same_text(id, "MCD-ARTIFACT-001")
        || same_text(id, "MCD-ARTIFACT-002") || same_text(id, "MCD-ENV-001") || same_text(id, "MCD-RECOVERY-001")
        || same_text(id, "MCD-CONFIG-002")
}

/// Captured output worth keeping: anything but blank text.
pub fn optional_text(value: String) -> (r: Option<String>)
    ensures
        is_blank(value@) ==> r is None,
        !is_blank(value@) ==> r == Some(value),
{
    if blank(value.as_str()) {
        None
    } else {
        Some(value)
    }
}

pub open spec fn opt_view(o: Option<String>) -> Option<Seq<char>> {
    match o {
        Some(s) => Some(s@),
        None => None,
    }
}

/// Captured output, as it is kept.
pub open spec fn kept_text(s: Seq<char>) -> Option<Seq<char>> {
    if is_blank(s) { None } else { Some(s) }
}

/// A signed integer in decimal.
pub open spec fn signed_decimal(n: int) -> Seq<char> {
    if n < 0 { "-"@ + decimal((-n) as nat) } else { decimal(n as nat) }
}

/// `{:?}` of an optional exit code.
pub open spec fn exit_text(code: Option<i32>) -> Seq<char> {
    match code {
        Some(c) => "Some("@ + signed_decimal(c as int) + ")"@,
        None => "None"@,
    }
}

fn signed_text(n: i32) -> (r: String)
    ensures
        r@ == signed_decimal(n as int),
{
    proof { reveal_strlit("-"); }
    if n < 0 {
        let magnitude: u64 = if n == -2147483648 { 2147483648 } else { (-n) as u64 };
        joined("-", decimal_text(magnitude).as_str())
    } else {
        decimal_text(n as u64)
    }
}

fn exit_code_text(code: Option<i32>) -> (r: String)
    ensures
        r@ == exit_text(code),
{
    proof {
        reveal_strlit("Some(");
        reveal_strlit(")");
        reveal_strlit("None");
    }
    match code {
        Some(c) => {
            let mut s = joined("Some(", signed_text(c).as_str());
            s.append(")");
            s
        },
        None => owned("None"),
    }
}

/// A check result as plain values.
pub struct CheckView {
    pub id: Seq<char>,
    pub kind: CheckKind,
    pub blocking: bool,
    pub gates: Seq<Gate>,
    pub outcome: Outcome,
    pub summary: Seq<char>,
    pub evidence: Seq<EvidenceView>,
    pub stdout: Option<Seq<char>>,
    pub stderr: Option<Seq<char>>,
    pub duration_ms: Option<u64>,
}

impl View for CheckResult {
    type V = CheckView;

    open spec fn view(&self) -> CheckView {
        CheckView {
            id: self.id@,
            kind: self.kind,
            blocking: self.blocking,
            gates: self.gates@,
            outcome: self.outcome,
            summary: self.summary@,
            evidence: evidence_views(self.evidence@),
            stdout: opt_view(self.stdout),
            stderr: opt_view(self.stderr),
            duration_ms: self.duration_ms,
        }
    }
}

/// The result of a command that could not produce a verdict.
pub open spec fn command_error_view(id: Seq<char>, kind: CheckKind, blocking: bool, gates: Seq<Gate>, error: Seq<char>) -> CheckView {
    CheckView {
        id,
        kind,
        blocking,
        gates,
        outcome: Outcome::Error,
        summary: "command could not produce a verdict"@,
        evidence: Seq::empty(),
        stdout: None,
        stderr: Some(error),
        duration_ms: None,
    }
}

/// The result of a command run: a timeout is an error, exit code 0 passes,
/// anything else fails; its output is kept unless blank.
pub open spec fn execution_view(id: Seq<char>, kind: CheckKind, blocking: bool, gates: Seq<Gate>, e: Execution) -> CheckView {
    CheckView {
        id,
        kind,
        blocking,
        gates,
        outcome: if e.timed_out { Outcome::Error } else if e.exit_code == Some(0i32) { Outcome::Passed } else { Outcome::Failed },
        summary: if e.timed_out { "command exceeded its declared timeout"@ } else { "command exited with "@ + exit_text(e.exit_code) },
        evidence: seq![("command"@, "exit="@ + exit_text(e.exit_code) + "; duration_ms="@ + decimal(e.duration_ms as nat), None)],
        stdout: kept_text(e.stdout@),
        stderr: kept_text(e.stderr@),
        duration_ms: Some(e.duration_ms),
    }
}

pub fn command_error_result(id: String, kind: CheckKind, blocking: bool, gates: Vec<Gate>, error: String) -> (r: CheckResult)
    ensures
        r@ == command_error_view(id@, kind, blocking, gates@, error@),
{
    proof { reveal_strlit("command could not produce a verdict"); }
    let r = CheckResult {
        id,
        kind,
        blocking,
        gates,
        outcome: Outcome::Error,
        summary: owned("command could not produce a verdict"),
        evidence: Vec::new(),
        stdout: None,
        stderr: Some(error),
        duration_ms: None,
    };
    assert(r@.evidence =~= Seq::<EvidenceView>::empty());
    r
}

/// The check result of a command run, or of the reason it could not run.
pub fn execution_result(id: String, kind: CheckKind, blocking: bool, gates: Vec<Gate>, result: Result<Execution, String>) -> (r: CheckResult)
    ensures
        match result {
            Ok(e) => r@ == execution_view(id@, kind, blocking, gates@, e),
            Err(error) => r@ == command_error_view(id@, kind, blocking, gates@, error@),
        },
{
    proof {
        reveal_strlit("command exceeded its declared timeout");
        reveal_strlit("command exited with ");
        reveal_strlit("command");
        reveal_strlit("exit=");
        reveal_strlit("; duration_ms=");
    }
    match result {
        Ok(execution) => {
            let outcome = if execution.timed_out {
                Outcome::Error
            } else if execution.exit_code == Some(0i32) {
                Outcome::Passed
            } else {
                Outcome::Failed
            };
            let code = exit_code_text(execution.exit_code);
            let summary = if execution.timed_out {
                owned("command exceeded its declared timeout")
            } else {
                joined("command exited with ", code.as_str())
            };
            let mut detail = joined("exit=", code.as_str());
            detail.append("; duration_ms=");
            detail.append(decimal_text(execution.duration_ms).as_str());
            let mut evidence: Vec<Evidence> = Vec::new();
            evidence.push(Evidence { kind: owned("command"), summary: detail, location: None });
            let ghost e = execution;
            let r = CheckResult {
                id,
                kind,
                blocking,
                gates,
                outcome,
                summary,
                evidence,
                stdout: optional_text(execution.stdout),
                stderr: optional_text(execution.stderr),
                duration_ms: Some(execution.duration_ms),
            };
            assert(r@.evidence =~= execution_view(id@, kind, blocking, gates@, e).evidence);
            r
        },
        Err(error) => command_error_result(id, kind, blocking, gates, error),
    }
}


/// A core rule of the catalog.
#[derive(Debug)]
pub struct Rule {
    pub id: String,
    /// Gates that the rule's result contributes to.
    pub gates: Vec<Gate>,
    /// What it takes for the rule to apply.
    pub applicability: String,
}

/// The core rule catalog.
#[derive(Debug)]
pub struct RuleCatalog {
    pub catalog_version: u32,
    pub rules: Vec<Rule>,
}

/// The result of one core rule.
#[derive(Debug)]
pub struct RuleResult {
    pub rule_id: String,
    pub catalog_version: u32,
    pub outcome: Outcome,
    pub subject: String,
    pub verifier: VerificationSource,
    pub evaluated_at: u64,
    pub evidence: Vec<Evidence>,
    pub diagnostic: Option<String>,
}

/// The strict verdict of one gate, with everything that blocks it.
#[derive(Debug)]
pub struct GateVerdict {
    pub gate: Gate,
    pub verdict: AggregateVerdict,
    pub blocking_rules: Vec<String>,
    pub blocking_checks: Vec<String>,
}

/// A complete evaluation report.
#[derive(Debug)]
pub struct CheckReport {
    pub schema: u32,
    pub catalog_version: u32,
    pub subject: String,
    pub evaluated_at: u64,
    pub rules: Vec<RuleResult>,
    pub checks: Vec<CheckResult>,
    pub gates: Vec<GateVerdict>,
}

/// Identities of the rule results that hold `gate` back: the rule feeds the
/// gate and its result falls short of a satisfied rule.
pub open spec fn blocking_rules(rules: Seq<Rule>, results: Seq<RuleResult>, gate: Gate, n: int) -> Seq<Seq<char>>
    decreases n,
{
    if n <= 0 {
        Seq::empty()
    } else {
        let p = blocking_rules(rules, results, gate, n - 1);
        if rules[n - 1].gates@.contains(gate) && !results[n - 1].outcome.satisfies() {
            p.push(results[n - 1].rule_id@)
        } else {
            p
        }
    }
}

/// The blocking checks of `gate` that did not satisfy it.
pub open spec fn blocking_checks(checks: Seq<CheckResult>, gate: Gate) -> Seq<Seq<char>>
    decreases checks.len(),
{
    if checks.len() == 0 {
        Seq::empty()
    } else {
        let p = blocking_checks(checks.drop_last(), gate);
        let c = checks.last();
        if c.blocking && c.gates@.contains(gate) && !c.outcome.satisfies() {
            p.push(c.id@)
        } else {
            p
        }
    }
}

pub open spec fn paired(rules: Seq<Rule>, results: Seq<RuleResult>) -> int {
    if rules.len() < results.len() { rules.len() as int } else { results.len() as int }
}

pub open spec fn gate_order() -> Seq<Gate> {
    seq![Gate::Development, Gate::Integration, Gate::Delivery, Gate::Compliance]
}

pub open spec fn texts(v: Seq<String>) -> Seq<Seq<char>> {
    v.map_values(|s: String| s@)
}

/// The verdict of one gate: passed exactly when nothing blocks it.
pub open spec fn gate_ok(v: GateVerdict, rules: Seq<Rule>, results: Seq<RuleResult>, checks: Seq<CheckResult>, gate: Gate) -> bool {
    let br = blocking_rules(rules, results, gate, paired(rules, results));
    let bc = blocking_checks(checks, gate);
    &&& v.gate == gate
    &&& texts(v.blocking_rules@) == br
    &&& texts(v.blocking_checks@) == bc
    &&& v.verdict == (if br.len() == 0 && bc.len() == 0 { AggregateVerdict::Passed } else { AggregateVerdict::Blocked })
}

fn gate_in(gates: &Vec<Gate>, gate: Gate) -> (r: bool)
    ensures
        r == gates@.contains(gate),
{
    let mut i: usize = 0;
    while i < gates.len()
        invariant
            i <= gates@.len(),
            forall|k: int| 0 <= k < i ==> gates@[k] != gate,
        decreases gates.len() - i,
    {
        if gates[i] == gate {
            assert(gates@[i as int] == gate);
            return true;
        }
        i = i + 1;
    }
    false
}

fn push_text(v: &mut Vec<String>, t: String)
    ensures
        texts(final(v)@) == texts(old(v)@).push(t@),
{
    let ghost before = v@;
    v.push(t);
    assert(texts(v@) =~= texts(before).push(t@));
}

fn verdict_for(rules: &[Rule], results: &[RuleResult], checks: &[CheckResult], gate: Gate) -> (r: GateVerdict)
    ensures
        gate_ok(r, rules@, results@, checks@, gate),
{
    let n = if rules.len() < results.len() { rules.len() } else { results.len() };
    let mut br: Vec<String> = Vec::new();
    let mut i: usize = 0;
    while i < n
        invariant
            n as int == paired(rules@, results@),
            i <= n,
            texts(br@) == blocking_rules(rules@, results@, gate, i as int),
        decreases n - i,
    {
        if gate_in(&rules[i].gates, gate) && !results[i].outcome.satisfies_required_rule() {
            push_text(&mut br, copy_string(&results[i].rule_id));
        }
        i = i + 1;
    }
    let mut bc: Vec<String> = Vec::new();
    let mut j: usize = 0;
    assert(checks@.subrange(0, 0) =~= Seq::<CheckResult>::empty());
    while j < checks.len()
        invariant
            j <= checks@.len(),
            texts(bc@) == blocking_checks(checks@.subrange(0, j as int), gate),
        decreases checks.len() - j,
    {
        assert(checks@.subrange(0, j + 1).drop_last() =~= checks@.subrange(0, j as int));
        assert(checks@.subrange(0, j + 1).last() == checks@[j as int]);
        let c = &checks[j];
        if c.blocking && gate_in(&c.gates, gate) && !c.outcome.satisfies_required_rule() {
            push_text(&mut bc, copy_string(&c.id));
        }
        j = j + 1;
    }
    assert(checks@.subrange(0, checks@.len() as int) =~= checks@);
    let verdict = if br.len() == 0 && bc.len() == 0 { AggregateVerdict::Passed } else { AggregateVerdict::Blocked };
    GateVerdict { gate, verdict, blocking_rules: br, blocking_checks: bc }
}

/// Strict verdicts of the four gates, in order: a gate passes only when no
/// rule result and no blocking check that contributes to it falls short.
pub fn aggregate_gates(catalog: &RuleCatalog, results: &[RuleResult], checks: &[CheckResult]) -> (r: Vec<GateVerdict>)
    ensures
        r@.len() == 4,
        forall|k: int| 0 <= k < 4 ==> gate_ok(#[trigger] r@[k], catalog.rules@, results@, checks@, gate_order()[k]),
{
    let mut out: Vec<GateVerdict> = Vec::new();
    out.push(verdict_for(catalog.rules.as_slice(), results, checks, Gate::Development));
    out.push(verdict_for(catalog.rules.as_slice(), results, checks, Gate::Integration));
    out.push(verdict_for(catalog.rules.as_slice(), results, checks, Gate::Delivery));
    out.push(verdict_for(catalog.rules.as_slice(), results, checks, Gate::Compliance));
    out
}

proof fn lemma_blocking_rules_empty(rules: Seq<Rule>, results: Seq<RuleResult>, gate: Gate, n: int)
    requires
        0 <= n <= rules.len(),
        n <= results.len(),
    ensures
        blocking_rules(rules, results, gate, n).len() == 0 <==> forall|k: int| 0 <= k < n && (#[trigger] rules[k]).gates@.contains(gate)
            ==> results[k].outcome.satisfies(),
    decreases n,
{
    if n > 0 {
        lemma_blocking_rules_empty(rules, results, gate, n - 1);
    }
}

proof fn lemma_blocking_checks_empty(checks: Seq<CheckResult>, gate: Gate)
    ensures
        blocking_checks(checks, gate).len() == 0 <==> forall|k: int| 0 <= k < checks.len() && (#[trigger] checks[k]).blocking
            && checks[k].gates@.contains(gate) ==> checks[k].outcome.satisfies(),
    decreases checks.len(),
{
    if checks.len() > 0 {
        lemma_blocking_checks_empty(checks.drop_last(), gate);
        let p = checks.drop_last();
        assert forall|k: int| 0 <= k < p.len() implies p[k] == checks[k] by {}
    }
}

/// A gate passes exactly when every rule contributing to it is satisfied
/// (passed or justified not applicable) and every blocking check
/// contributing to it is satisfied.
pub proof fn lemma_gate_passes_iff_nothing_blocks(
    v: GateVerdict,
    rules: Seq<Rule>,
    results: Seq<RuleResult>,
    checks: Seq<CheckResult>,
    gate: Gate,
)
    requires
        gate_ok(v, rules, results, checks, gate),
        rules.len() == results.len(),
    ensures
        v.verdict == AggregateVerdict::Passed <==> (
            (forall|k: int| 0 <= k < rules.len() && (#[trigger] rules[k]).gates@.contains(gate) ==> results[k].outcome.satisfies())
            && (forall|k: int| 0 <= k < checks.len() && (#[trigger] checks[k]).blocking && checks[k].gates@.contains(gate)
                ==> checks[k].outcome.satisfies())),
{
    lemma_blocking_rules_empty(rules, results, gate, rules.len() as int);
    lemma_blocking_checks_empty(checks, gate);
}


/// How one rule was evaluated: outcome, verifier, evidence, diagnostic.
pub type EvaluationView = (Outcome, VerificationSource, Seq<EvidenceView>, Option<Seq<char>>);

/// An evaluation of one rule.
#[derive(Debug)]
pub struct Evaluation {
    pub outcome: Outcome,
    pub verifier: VerificationSource,
    pub evidence: Vec<Evidence>,
    pub diagnostic: Option<String>,
}

pub open spec fn evaluation_view(e: Evaluation) -> EvaluationView {
    (e.outcome, e.verifier, evidence_views(e.evidence@), opt_view(e.diagnostic))
}

pub open spec fn contract_path() -> Seq<char> {
    ".opdev/project.yaml"@
}

pub open spec fn pass_view(summary: Seq<char>) -> EvaluationView {
    (Outcome::Passed, VerificationSource::Manifest, seq![("manifest"@, summary, Some(contract_path()))], None)
}

pub open spec fn migration_view(diagnostic: Seq<char>) -> EvaluationView {
    (Outcome::MigrationRequired, VerificationSource::Manifest, Seq::empty(), Some(diagnostic))
}

pub open spec fn not_applicable_view(summary: Seq<char>) -> EvaluationView {
    (Outcome::NotApplicable, VerificationSource::Manifest, seq![("applicability"@, summary, Some(contract_path()))], None)
}

/// `{:?}` of a CI provider.
pub open spec fn provider_name(p: CiProvider) -> Seq<char> {
    match p {
        CiProvider::Unconfigured => "Unconfigured"@,
        CiProvider::Github => "Github"@,
        CiProvider::Gitlab => "Gitlab"@,
    }
}

pub open spec fn runs_at_stage(m: ProjectManifest, stage: TestStage) -> bool {
    exists|k: int| 0 <= k < m.testing.suites@.len() && (#[trigger] m.testing.suites@[k]).stages@.contains(stage)
}

/// Rules established by the project contract's authorities, CI and delivery.
pub open spec fn project_policy(id: Seq<char>, m: ProjectManifest) -> Option<EvaluationView> {
    if id == "OPDEV-AUTH-001"@ && m.authorities@.len() > 0 {
        Some(pass_view(decimal(m.authorities@.len()) + " authoritative sources are declared"@))
    } else if id == "OPDEV-AUTH-002"@ && texts(m.authorities@).contains("work"@) {
        Some(pass_view("A work authority is declared for active status"@))
    } else if id == "MCD-CI-001"@ {
        if m.project.ci.provider != CiProvider::Unconfigured {
            Some(pass_view("CI provider is "@ + provider_name(m.project.ci.provider)))
        } else {
            Some(migration_view("A CI provider must be configured"@))
        }
    } else if id == "MCD-DELIVERY-001"@ && m.delivery.status == DeliveryStatus::Configured {
        Some(pass_view("The configured "@ + m.delivery.mode@ + " delivery contract uses "@ + provider_name(m.project.ci.provider)
            + " CI for the consumer path `"@ + m.delivery.artifact_locator@ + "`"@))
    } else {
        None
    }
}

/// Rules established by the testing policy of the contract.
pub open spec fn testing_policy(id: Seq<char>, m: ProjectManifest) -> Option<EvaluationView> {
    if id == "MCD-TEST-001"@ && runs_at_stage(m, TestStage::PreMerge) {
        Some(pass_view("At least one canonical suite is required before integration"@))
    } else if id == "MCD-TEST-002"@ && runs_at_stage(m, TestStage::PostMerge) {
        Some(pass_view("At least one canonical suite is required on integrated trunk"@))
    } else if id == "OPDEV-TEST-001"@ {
        if m.risks@.len() > 0 {
            Some(pass_view(decimal(m.risks@.len()) + " quality risks are declared"@))
        } else {
            Some(migration_view("Declare the quality risks that drive verification"@))
        }
    } else if id == "OPDEV-TEST-003"@ {
        Some(pass_view("The project contract requires tests for behavioral changes"@))
    } else if id == "OPDEV-TEST-004"@ {
        Some(pass_view("The project contract requires regression protection or a specific justification"@))
    } else if id == "OPDEV-TEST-005"@ {
        Some(pass_view("Retry visibility and owned, expiring quarantine are mandatory"@))
    } else if id == "OPDEV-TEST-006"@ {
        match m.testing.coverage_mode {
            None => Some(not_applicable_view("The project contract does not declare coverage collection"@)),
            Some(mode) => Some(pass_view("Coverage is declared as "@ + mode@ + " risk evidence"@)),
        }
    } else {
        None
    }
}

/// Rules whose applicability the contract settles.
pub open spec fn applicability(id: Seq<char>, m: ProjectManifest) -> Option<EvaluationView> {
    if id == "OPDEV-OPS-001"@ && m.operations.health_evidence is Some && m.operations.observability_authority is Some {
        Some(pass_view("Health evidence and an observability authority are declared"@))
    } else if id == "OPDEV-EXT-001"@ {
        if m.extensions@.len() == 0 {
            Some(not_applicable_view("No project extensions are declared"@))
        } else {
            Some(pass_view("Extensions are additive project checks and cannot replace core rule results"@))
        }
    } else {
        None
    }
}

/// Any other rule is unverified: a contract alone cannot establish it,
/// unless delivery is explicitly marked as needing migration.
pub open spec fn default_view(id: Seq<char>, applies: Seq<char>, m: ProjectManifest) -> EvaluationView {
    if delivery_rule(id) && m.delivery.status == DeliveryStatus::MigrationRequired {
        migration_view("Delivery is explicitly marked migration_required"@)
    } else {
        (Outcome::Unverified, VerificationSource::Catalog, Seq::empty(),
            Some("This evaluator has no sufficient evidence for: "@ + applies))
    }
}

pub open spec fn rule_evaluation(rule: Rule, m: ProjectManifest) -> EvaluationView {
    match project_policy(rule.id@, m) {
        Some(e) => e,
        None => match testing_policy(rule.id@, m) {
            Some(e) => e,
            None => match applicability(rule.id@, m) {
                Some(e) => e,
                None => default_view(rule.id@, rule.applicability@, m),
            },
        },
    }
}

fn manifest_pass(summary: String) -> (r: Evaluation)
    ensures
        evaluation_view(r) == pass_view(summary@),
{
    proof {
        reveal_strlit("manifest");
        reveal_strlit(".opdev/project.yaml");
    }
    let mut evidence: Vec<Evidence> = Vec::new();
    evidence.push(Evidence { kind: owned("manifest"), summary, location: Some(owned(".opdev/project.yaml")) });
    let r = Evaluation { outcome: Outcome::Passed, verifier: VerificationSource::Manifest, evidence, diagnostic: None };
    assert(evaluation_view(r).2 =~= pass_view(summary@).2);
    r
}

fn migration(diagnostic: &str) -> (r: Evaluation)
    ensures
        evaluation_view(r) == migration_view(diagnostic@),
{
    let r = Evaluation { outcome: Outcome::MigrationRequired, verifier: VerificationSource::Manifest, evidence: Vec::new(), diagnostic: Some(owned(diagnostic)) };
    assert(evaluation_view(r).2 =~= Seq::<EvidenceView>::empty());
    r
}

fn not_applicable(summary: &str) -> (r: Evaluation)
    ensures
        evaluation_view(r) == not_applicable_view(summary@),
{
    proof {
        reveal_strlit("applicability");
        reveal_strlit(".opdev/project.yaml");
    }
    let mut evidence: Vec<Evidence> = Vec::new();
    evidence.push(Evidence { kind: owned("applicability"), summary: owned(summary), location: Some(owned(".opdev/project.yaml")) });
    let r = Evaluation { outcome: Outcome::NotApplicable, verifier: VerificationSource::Manifest, evidence, diagnostic: None };
    assert(evaluation_view(r).2 =~= not_applicable_view(summary@).2);
    r
}

fn provider_text(p: CiProvider) -> (r: &'static str)
    ensures
        r@ == provider_name(p),
{
    match p {
        CiProvider::Unconfigured => "Unconfigured",
        CiProvider::Github => "Github",
        CiProvider::Gitlab => "Gitlab",
    }
}

fn any_suite_at(m: &ProjectManifest, stage: TestStage) -> (r: bool)
    ensures
        r == runs_at_stage(*m, stage),
{
    let mut i: usize = 0;
    while i < m.testing.suites.len()
        invariant
            i <= m.testing.suites@.len(),
            forall|k: int| 0 <= k < i ==> !(#[trigger] m.testing.suites@[k]).stages@.contains(stage),
        decreases m.testing.suites.len() - i,
    {
        if crate::adoption::runs_at(&m.testing.suites[i].stages, stage) {
            return true;
        }
        i = i + 1;
    }
    false
}

fn has_work_authority(m: &ProjectManifest) -> (r: bool)
    ensures
        r == texts(m.authorities@).contains("work"@),
{
    let mut i: usize = 0;
    while i < m.authorities.len()
        invariant
            i <= m.authorities@.len(),
            forall|k: int| 0 <= k < i ==> texts(m.authorities@)[k] != "work"@,
        decreases m.authorities.len() - i,
    {
        if same_text(m.authorities[i].as_str(), "work") {
            assert(texts(m.authorities@)[i as int] == "work"@);
            return true;
        }
        i = i + 1;
    }
    false
}

fn evaluate_project_policy(id: &str, m: &ProjectManifest) -> (r: Option<Evaluation>)
    ensures
        match project_policy(id@, *m) {
            Some(e) => r matches Some(x) && evaluation_view(x) == e,
            None => r is None,
        },
{
    proof {
        reveal_strlit("OPDEV-AUTH-001");
        reveal_strlit("OPDEV-AUTH-002");
        reveal_strlit("MCD-CI-001");
        reveal_strlit("MCD-DELIVERY-001");
        reveal_strlit(" authoritative sources are declared");
        reveal_strlit("A work authority is declared for active status");
        reveal_strlit("CI provider is ");
        reveal_strlit("A CI provider must be configured");
        reveal_strlit("The configured ");
        reveal_strlit(" delivery contract uses ");
        reveal_strlit(" CI for the consumer path `");
        reveal_strlit("`");
    }
    if same_text(id, "OPDEV-AUTH-001") && m.authorities.len() > 0 {
        let mut t = decimal_text(m.authorities.len() as u64);
        t.append(" authoritative sources are declared");
        Some(manifest_pass(t))
    } else if same_text(id, "OPDEV-AUTH-002") && has_work_authority(m) {
        Some(manifest_pass(owned("A work authority is declared for active status")))
    } else if same_text(id, "MCD-CI-001") {
        if m.project.ci.provider != CiProvider::Unconfigured {
            Some(manifest_pass(joined("CI provider is ", provider_text(m.project.ci.provider))))
        } else {
            Some(migration("A CI provider must be configured"))
        }
    } else if same_text(id, "MCD-DELIVERY-001") && m.delivery.status == DeliveryStatus::Configured {
        let mut t = joined("The configured ", m.delivery.mode.as_str());
        t.append(" delivery contract uses ");
        t.append(provider_text(m.project.ci.provider));
        t.append(" CI for the consumer path `");
        t.append(m.delivery.artifact_locator.as_str());
        t.append("`");
        Some(manifest_pass(t))
    } else {
        None
    }
}

fn evaluate_testing_policy(id: &str, m: &ProjectManifest) -> (r: Option<Evaluation>)
    ensures
        match testing_policy(id@, *m) {
            Some(e) => r matches Some(x) && evaluation_view(x) == e,
            None => r is None,
        },
{
    proof {
        reveal_strlit("MCD-TEST-001");
        reveal_strlit("MCD-TEST-002");
        reveal_strlit("OPDEV-TEST-001");
        reveal_strlit("OPDEV-TEST-003");
        reveal_strlit("OPDEV-TEST-004");
        reveal_strlit("OPDEV-TEST-005");
        reveal_strlit("OPDEV-TEST-006");
        reveal_strlit("At least one canonical suite is required before integration");
        reveal_strlit("At least one canonical suite is required on integrated trunk");
        reveal_strlit(" quality risks are declared");
        reveal_strlit("Declare the quality risks that drive verification");
        reveal_strlit("The project contract requires tests for behavioral changes");
        reveal_strlit("The project contract requires regression protection or a specific justification");
        reveal_strlit("Retry visibility and owned, expiring quarantine are mandatory");
        reveal_strlit("The project contract does not declare coverage collection");
        reveal_strlit("Coverage is declared as ");
        reveal_strlit(" risk evidence");
    }
    if same_text(id, "MCD-TEST-001") && any_suite_at(m, TestStage::PreMerge) {
        Some(manifest_pass(owned("At least one canonical suite is required before integration")))
    } else if same_text(id, "MCD-TEST-002") && any_suite_at(m, TestStage::PostMerge) {
        Some(manifest_pass(owned("At least one canonical suite is required on integrated trunk")))
    } else if same_text(id, "OPDEV-TEST-001") {
        if m.risks.len() > 0 {
            let mut t = decimal_text(m.risks.len() as u64);
            t.append(" quality risks are declared");
            Some(manifest_pass(t))
        } else {
            Some(migration("Declare the quality risks that drive verification"))
        }
    } else if same_text(id, "OPDEV-TEST-003") {
        Some(manifest_pass(owned("The project contract requires tests for behavioral changes")))
    } else if same_text(id, "OPDEV-TEST-004") {
        Some(manifest_pass(owned("The project contract requires regression protection or a specific justification")))
    } else if same_text(id, "OPDEV-TEST-005") {
        Some(manifest_pass(owned("Retry visibility and owned, expiring quarantine are mandatory")))
    } else if same_text(id, "OPDEV-TEST-006") {
        match &m.testing.coverage_mode {
            None => Some(not_applicable("The project contract does not declare coverage collection")),
            Some(mode) => {
                let mut t = joined("Coverage is declared as ", mode.as_str());
                t.append(" risk evidence");
                Some(manifest_pass(t))
            },
        }
    } else {
        None
    }
}

fn evaluate_applicability(id: &str, m: &ProjectManifest) -> (r: Option<Evaluation>)
    ensures
        match applicability(id@, *m) {
            Some(e) => r matches Some(x) && evaluation_view(x) == e,
            None => r is None,
        },
{
    proof {
        reveal_strlit("OPDEV-OPS-001");
        reveal_strlit("OPDEV-EXT-001");
        reveal_strlit("Health evidence and an observability authority are declared");
        reveal_strlit("No project extensions are declared");
        reveal_strlit("Extensions are additive project checks and cannot replace core rule results");
    }
    if same_text(id, "OPDEV-OPS-001") && m.operations.health_evidence.is_some() && m.operations.observability_authority.is_some() {
        Some(manifest_pass(owned("Health evidence and an observability authority are declared")))
    } else if same_text(id, "OPDEV-EXT-001") {
        if m.extensions.len() == 0 {
            Some(not_applicable("No project extensions are declared"))
        } else {
            Some(manifest_pass(owned("Extensions are additive project checks and cannot replace core rule results")))
        }
    } else {
        None
    }
}

fn default_evaluation(rule: &Rule, m: &ProjectManifest) -> (r: Evaluation)
    ensures
        evaluation_view(r) == default_view(rule.id@, rule.applicability@, *m),
{
    proof {
        reveal_strlit("Delivery is explicitly marked migration_required");
        reveal_strlit("This evaluator has no sufficient evidence for: ");
    }
    if is_delivery_rule(rule.id.as_str()) && m.delivery.status == DeliveryStatus::MigrationRequired {
        migration("Delivery is explicitly marked migration_required")
    } else {
        let r = Evaluation {
            outcome: Outcome::Unverified,
            verifier: VerificationSource::Catalog,
            evidence: Vec::new(),
            diagnostic: Some(joined("This evaluator has no sufficient evidence for: ", rule.applicability.as_str())),
        };
        assert(evaluation_view(r).2 =~= Seq::<EvidenceView>::empty());
        r
    }
}

/// A rule result as plain values.
pub open spec fn rule_result_ok(r: RuleResult, rule: Rule, m: ProjectManifest, subject: Seq<char>, catalog_version: u32, evaluated_at: u64) -> bool {
    let e = rule_evaluation(rule, m);
    &&& r.rule_id@ == rule.id@
    &&& r.catalog_version == catalog_version
    &&& r.subject@ == subject
    &&& r.evaluated_at == evaluated_at
    &&& r.outcome == e.0
    &&& r.verifier == e.1
    &&& evidence_views(r.evidence@) == e.2
    &&& opt_view(r.diagnostic) == e.3
}

/// Evaluates one core rule from the project contract alone.
pub fn evaluate_rule(rule: &Rule, manifest: &ProjectManifest, subject: &str, catalog_version: u32, evaluated_at: u64) -> (r: RuleResult)
    ensures
        rule_result_ok(r, *rule, *manifest, subject@, catalog_version, evaluated_at),
{
    let id = rule.id.as_str();
    let e = match evaluate_project_policy(id, manifest) {
        Some(e) => e,
        None => match evaluate_testing_policy(id, manifest) {
            Some(e) => e,
            None => match evaluate_applicability(id, manifest) {
                Some(e) => e,
                None => default_evaluation(rule, manifest),
            },
        },
    };
    RuleResult {
        rule_id: copy_string(&rule.id),
        catalog_version,
        outcome: e.outcome,
        subject: owned(subject),
        verifier: e.verifier,
        evaluated_at,
        evidence: e.evidence,
        diagnostic: e.diagnostic,
    }
}


/// The suites that run at a stage, in contract order.
pub open spec fn suites_at(suites: Seq<TestSuite>, stage: TestStage) -> Seq<TestSuite>
    decreases suites.len(),
{
    if suites.len() == 0 {
        Seq::empty()
    } else {
        let p = suites_at(suites.drop_last(), stage);
        if suites.last().stages@.contains(stage) { p.push(suites.last()) } else { p }
    }
}

/// The extensions that run at a stage, in contract order.
pub open spec fn extensions_at(checks: Seq<ExtensionCheck>, stage: ExtensionStage) -> Seq<ExtensionCheck>
    decreases checks.len(),
{
    if checks.len() == 0 {
        Seq::empty()
    } else {
        let p = extensions_at(checks.drop_last(), stage);
        if checks.last().stage == stage { p.push(checks.last()) } else { p }
    }
}

/// The suites to run at a stage: identity and command name, in order.
pub fn suites_to_run(manifest: &ProjectManifest, stage: TestStage) -> (r: Vec<(String, String)>)
    ensures
        r@.len() == suites_at(manifest.testing.suites@, stage).len(),
        forall|k: int| 0 <= k < r@.len() ==> (#[trigger] r@[k]).0@ == suites_at(manifest.testing.suites@, stage)[k].id@
            && r@[k].1@ == suites_at(manifest.testing.suites@, stage)[k].command@,
{
    let ghost suites = manifest.testing.suites@;
    let mut out: Vec<(String, String)> = Vec::new();
    let mut i: usize = 0;
    assert(suites.subrange(0, 0) =~= Seq::<TestSuite>::empty());
    while i < manifest.testing.suites.len()
        invariant
            suites == manifest.testing.suites@,
            i <= suites.len(),
            out@.len() == suites_at(suites.subrange(0, i as int), stage).len(),
            forall|k: int| 0 <= k < out@.len() ==> (#[trigger] out@[k]).0@ == suites_at(suites.subrange(0, i as int), stage)[k].id@
                && out@[k].1@ == suites_at(suites.subrange(0, i as int), stage)[k].command@,
        decreases manifest.testing.suites.len() - i,
    {
        let suite = &manifest.testing.suites[i];
        assert(suites.subrange(0, i + 1).drop_last() =~= suites.subrange(0, i as int));
        assert(suites.subrange(0, i + 1).last() == *suite);
        if crate::adoption::runs_at(&suite.stages, stage) {
            out.push((copy_string(&suite.id), copy_string(&suite.command)));
        }
        i = i + 1;
    }
    assert(suites.subrange(0, suites.len() as int) =~= suites);
    out
}

pub open spec fn run_view(id: Seq<char>, kind: CheckKind, blocking: bool, gates: Seq<Gate>, run: Result<Execution, String>) -> CheckView {
    match run {
        Ok(e) => execution_view(id, kind, blocking, gates, e),
        Err(error) => command_error_view(id, kind, blocking, gates, error@),
    }
}

/// The results of the suites that ran at a stage, from their command runs
/// in the same order.
pub fn run_suites(manifest: &ProjectManifest, stage: TestStage, runs: Vec<Result<Execution, String>>) -> (r: Vec<CheckResult>)
    requires
        runs@.len() == suites_at(manifest.testing.suites@, stage).len(),
    ensures
        r@.len() == runs@.len(),
        forall|k: int| 0 <= k < r@.len() ==> (#[trigger] r@[k])@ == run_view(
            suites_at(manifest.testing.suites@, stage)[k].id@, CheckKind::Suite, true, test_stage_gates(stage), runs@[k]),
{
    let plan = suites_to_run(manifest, stage);
    let ghost all_runs = runs@;
    let mut runs = runs;
    let mut out: Vec<CheckResult> = Vec::new();
    let mut k: usize = 0;
    while k < plan.len()
        invariant
            plan@.len() == all_runs.len(),
            forall|q: int| 0 <= q < plan@.len() ==> (#[trigger] plan@[q]).0@ == suites_at(manifest.testing.suites@, stage)[q].id@,
            k <= plan@.len(),
            runs@ == all_runs.subrange(k as int, all_runs.len() as int),
            out@.len() == k,
            forall|q: int| 0 <= q < k ==> (#[trigger] out@[q])@ == run_view(
                suites_at(manifest.testing.suites@, stage)[q].id@, CheckKind::Suite, true, test_stage_gates(stage), all_runs[q]),
        decreases plan.len() - k,
    {
        assert(runs@[0] == all_runs[k as int]);
        let run = runs.remove(0);
        assert(runs@ =~= all_runs.subrange(k + 1, all_runs.len() as int));
        let r = execution_result(copy_string(&plan[k].0), CheckKind::Suite, true, gates_for_test_stage(stage), run);
        out.push(r);
        k = k + 1;
    }
    out
}

/// What a project extension reported.
#[derive(Debug)]
pub struct ExtensionResponse {
    pub protocol_version: String,
    pub outcome: Outcome,
    pub summary: String,
    pub evidence: Vec<Evidence>,
    pub diagnostic: Option<String>,
}

/// How running one extension went: it could not start, or it finished with
/// this execution and, if its output is a protocol response, that response.
#[derive(Debug)]
pub enum ExtensionRun {
    Unstarted(String),
    Finished(Execution, Option<ExtensionResponse>),
}

/// The result of one extension: a failed or timed-out command is judged
/// like any command; otherwise the response decides, if it speaks the
/// protocol with a nonblank summary.
pub open spec fn extension_view(check: ExtensionCheck, protocol: Seq<char>, run: ExtensionRun) -> CheckView {
    let gates = extension_stage_gates(check.stage);
    match run {
        ExtensionRun::Unstarted(error) => command_error_view(check.id@, CheckKind::Extension, check.blocking, gates, error@),
        ExtensionRun::Finished(e, response) => if e.timed_out || e.exit_code != Some(0i32) {
            execution_view(check.id@, CheckKind::Extension, check.blocking, gates, e)
        } else {
            match response {
                None => CheckView {
                    id: check.id@,
                    kind: CheckKind::Extension,
                    blocking: check.blocking,
                    gates,
                    outcome: Outcome::Error,
                    summary: "extension returned invalid JSON protocol output"@,
                    evidence: Seq::empty(),
                    stdout: Some(e.stdout@),
                    stderr: kept_text(e.stderr@),
                    duration_ms: Some(e.duration_ms),
                },
                Some(resp) => if resp.protocol_version@ != protocol || is_blank(resp.summary@) {
                    CheckView {
                        id: check.id@,
                        kind: CheckKind::Extension,
                        blocking: check.blocking,
                        gates,
                        outcome: Outcome::Error,
                        summary: "extension response has an incompatible protocol version or empty summary"@,
                        evidence: evidence_views(resp.evidence@),
                        stdout: None,
                        stderr: kept_text(e.stderr@),
                        duration_ms: Some(e.duration_ms),
                    }
                } else {
                    CheckView {
                        id: check.id@,
                        kind: CheckKind::Extension,
                        blocking: check.blocking,
                        gates,
                        outcome: resp.outcome,
                        summary: resp.summary@,
                        evidence: evidence_views(resp.evidence@),
                        stdout: None,
                        stderr: match resp.diagnostic { Some(d) => Some(d@), None => kept_text(e.stderr@) },
                        duration_ms: Some(e.duration_ms),
                    }
                },
            }
        },
    }
}

/// The result of one project extension from how its run went.
pub fn extension_result(check: &ExtensionCheck, protocol: &str, run: ExtensionRun) -> (r: CheckResult)
    ensures
        r@ == extension_view(*check, protocol@, run),
{
    proof {
        reveal_strlit("extension returned invalid JSON protocol output");
        reveal_strlit("extension response has an incompatible protocol version or empty summary");
    }
    let gates = gates_for_extension_stage(check.stage);
    match run {
        ExtensionRun::Unstarted(error) => command_error_result(copy_string(&check.id), CheckKind::Extension, check.blocking, gates, error),
        ExtensionRun::Finished(e, response) => {
            if e.timed_out || e.exit_code != Some(0i32) {
                return execution_result(copy_string(&check.id), CheckKind::Extension, check.blocking, gates, Ok(e));
            }
            match response {
                None => {
                    let r = CheckResult {
                        id: copy_string(&check.id),
                        kind: CheckKind::Extension,
                        blocking: check.blocking,
                        gates,
                        outcome: Outcome::Error,
                        summary: owned("extension returned invalid JSON protocol output"),
                        evidence: Vec::new(),
                        stdout: Some(e.stdout),
                        stderr: optional_text(e.stderr),
                        duration_ms: Some(e.duration_ms),
                    };
                    assert(r@.evidence =~= Seq::<EvidenceView>::empty());
                    r
                },
                Some(resp) => {
                    if !same_text(resp.protocol_version.as_str(), protocol) || blank(resp.summary.as_str()) {
                        CheckResult {
                            id: copy_string(&check.id),
                            kind: CheckKind::Extension,
                            blocking: check.blocking,
                            gates,
                            outcome: Outcome::Error,
                            summary: owned("extension response has an incompatible protocol version or empty summary"),
                            evidence: resp.evidence,
                            stdout: None,
                            stderr: optional_text(e.stderr),
                            duration_ms: Some(e.duration_ms),
                        }
                    } else {
                        let stderr = match resp.diagnostic {
                            Some(d) => Some(d),
                            None => optional_text(e.stderr),
                        };
                        CheckResult {
                            id: copy_string(&check.id),
                            kind: CheckKind::Extension,
                            blocking: check.blocking,
                            gates,
                            outcome: resp.outcome,
                            summary: resp.summary,
                            evidence: resp.evidence,
                            stdout: None,
                            stderr,
                            duration_ms: Some(e.duration_ms),
                        }
                    }
                },
            }
        },
    }
}

/// The extensions to run at a stage, in order.
pub fn extensions_to_run(manifest: &ProjectManifest, stage: ExtensionStage) -> (r: Vec<usize>)
    ensures
        r@.len() == extensions_at(manifest.extensions@, stage).len(),
        forall|k: int| 0 <= k < r@.len() ==> (#[trigger] r@[k]) < manifest.extensions@.len()
            && manifest.extensions@[r@[k] as int] == extensions_at(manifest.extensions@, stage)[k],
{
    let ghost all = manifest.extensions@;
    let mut out: Vec<usize> = Vec::new();
    let mut i: usize = 0;
    assert(all.subrange(0, 0) =~= Seq::<ExtensionCheck>::empty());
    while i < manifest.extensions.len()
        invariant
            all == manifest.extensions@,
            i <= all.len(),
            out@.len() == extensions_at(all.subrange(0, i as int), stage).len(),
            forall|k: int| 0 <= k < out@.len() ==> (#[trigger] out@[k]) < i
                && all[out@[k] as int] == extensions_at(all.subrange(0, i as int), stage)[k],
        decreases manifest.extensions.len() - i,
    {
        assert(all.subrange(0, i + 1).drop_last() =~= all.subrange(0, i as int));
        assert(all.subrange(0, i + 1).last() == all[i as int]);
        if manifest.extensions[i].stage == stage {
            out.push(i);
        }
        i = i + 1;
    }
    assert(all.subrange(0, all.len() as int) =~= all);
    out
}

/// The results of the extensions that ran at a stage, from their runs in the
/// same order.
pub fn run_extensions(manifest: &ProjectManifest, stage: ExtensionStage, protocol: &str, runs: Vec<ExtensionRun>) -> (r: Vec<CheckResult>)
    requires
        runs@.len() == extensions_at(manifest.extensions@, stage).len(),
    ensures
        r@.len() == runs@.len(),
        forall|k: int| 0 <= k < r@.len() ==> (#[trigger] r@[k])@ == extension_view(
            extensions_at(manifest.extensions@, stage)[k], protocol@, runs@[k]),
{
    let plan = extensions_to_run(manifest, stage);
    let ghost all_runs = runs@;
    let mut runs = runs;
    let mut out: Vec<CheckResult> = Vec::new();
    let mut k: usize = 0;
    while k < plan.len()
        invariant
            plan@.len() == all_runs.len(),
            forall|q: int| 0 <= q < plan@.len() ==> (#[trigger] plan@[q]) < manifest.extensions@.len()
                && manifest.extensions@[plan@[q] as int] == extensions_at(manifest.extensions@, stage)[q],
            k <= plan@.len(),
            runs@ == all_runs.subrange(k as int, all_runs.len() as int),
            out@.len() == k,
            forall|q: int| 0 <= q < k ==> (#[trigger] out@[q])@ == extension_view(
                extensions_at(manifest.extensions@, stage)[q], protocol@, all_runs[q]),
        decreases plan.len() - k,
    {
        assert(runs@[0] == all_runs[k as int]);
        let run = runs.remove(0);
        assert(runs@ =~= all_runs.subrange(k + 1, all_runs.len() as int));
        let r = extension_result(&manifest.extensions[plan[k]], protocol, run);
        out.push(r);
        k = k + 1;
    }
    out
}

/// Evaluates every core rule of the catalog from the contract, settles the
/// rules it leaves unverified from the recorded assertions (those of the
/// staged change first), takes the results of the executed suites and
/// extensions when checks may execute (none otherwise), and aggregates the
/// four gates strictly.
pub fn evaluate(
    subject: &str,
    manifest: &ProjectManifest,
    options: CheckOptions,
    catalog: &RuleCatalog,
    evaluated_at: u64,
    change: &Option<ChangeAssertions>,
    project: &Vec<EvidenceAssertion>,
    suite_runs: Vec<Result<Execution, String>>,
    extension_runs: Vec<ExtensionRun>,
    protocol: &str,
) -> (r: CheckReport)
    requires
        options.execute_checks ==> suite_runs@.len() == suites_at(manifest.testing.suites@, options.test_stage).len(),
        options.execute_checks ==> extension_runs@.len() == extensions_at(manifest.extensions@, options.extension_stage).len(),
    ensures
        r.schema == 1,
        r.catalog_version == catalog.catalog_version,
        r.subject@ == subject@,
        r.evaluated_at == evaluated_at,
        r.rules@.len() == catalog.rules@.len(),
        forall|k: int| 0 <= k < r.rules@.len() ==> ledger_result_ok(#[trigger] r.rules@[k], catalog.rules@[k], *manifest, subject@,
            catalog.catalog_version, evaluated_at, *change, project@),
        !options.execute_checks ==> r.checks@.len() == 0,
        options.execute_checks ==> r.checks@.len() == suite_runs@.len() + extension_runs@.len(),
        options.execute_checks ==> forall|k: int| 0 <= k < suite_runs@.len() ==> (#[trigger] r.checks@[k])@ == run_view(
            suites_at(manifest.testing.suites@, options.test_stage)[k].id@, CheckKind::Suite, true,
            test_stage_gates(options.test_stage), suite_runs@[k]),
        options.execute_checks ==> forall|k: int| 0 <= k < extension_runs@.len() ==> (#[trigger] r.checks@[suite_runs@.len() + k])@
            == extension_view(extensions_at(manifest.extensions@, options.extension_stage)[k], protocol@, extension_runs@[k]),
        r.gates@.len() == 4,
        forall|k: int| 0 <= k < 4 ==> gate_ok(#[trigger] r.gates@[k], catalog.rules@, r.rules@, r.checks@, gate_order()[k]),
{
    let mut rules: Vec<RuleResult> = Vec::new();
    let mut i: usize = 0;
    while i < catalog.rules.len()
        invariant
            i <= catalog.rules@.len(),
            rules@.len() == i,
            forall|k: int| 0 <= k < i ==> rule_result_ok(#[trigger] rules@[k], catalog.rules@[k], *manifest, subject@,
                catalog.catalog_version, evaluated_at),
        decreases catalog.rules.len() - i,
    {
        rules.push(evaluate_rule(&catalog.rules[i], manifest, subject, catalog.catalog_version, evaluated_at));
        i = i + 1;
    }
    let ghost contract = rules@;
    apply_evidence(&mut rules, change, project);
    proof {
        lemma_settled_contract_results(contract, rules@, catalog.rules@, *manifest, subject@, catalog.catalog_version,
            evaluated_at, *change, project@);
    }
    let checks = if options.execute_checks {
        let mut checks = run_suites(manifest, options.test_stage, suite_runs);
        let ghost first = checks@;
        let mut more = run_extensions(manifest, options.extension_stage, protocol, extension_runs);
        let ghost second = more@;
        checks.append(&mut more);
        assert(checks@ == first + second);
        checks
    } else {
        Vec::new()
    };
    let gates = aggregate_gates(catalog, rules.as_slice(), checks.as_slice());
    CheckReport {
        schema: 1,
        catalog_version: catalog.catalog_version,
        subject: owned(subject),
        evaluated_at,
        rules,
        checks,
        gates,
    }
}

/// Whether the report holds a passed verdict for a gate.
pub open spec fn gate_passed_in(gates: Seq<GateVerdict>, g: Gate) -> bool {
    exists|i: int| 0 <= i < gates.len() && (#[trigger] gates[i]).gate == g && gates[i].verdict == AggregateVerdict::Passed
}

impl CheckReport {
    /// Whether the report's verdict for a gate is passed.
    pub fn gate_passed(&self, gate: Gate) -> (r: bool)
        ensures
            r == gate_passed_in(self.gates@, gate),
    {
        let mut i: usize = 0;
        while i < self.gates.len()
            invariant
                i <= self.gates@.len(),
                forall|q: int| 0 <= q < i ==> !((#[trigger] self.gates@[q]).gate == gate && self.gates@[q].verdict == AggregateVerdict::Passed),
            decreases self.gates.len() - i,
        {
            if self.gates[i].gate == gate && self.gates[i].verdict == AggregateVerdict::Passed {
                return true;
            }
            i = i + 1;
        }
        false
    }
}

// ---------------------------------------------------------------------------
// Explicit JUnit bindings

/// An explicitly required JUnit report for an existing canonical suite.
#[derive(Debug)]
pub struct JunitBinding {
    /// Existing suite identifier; it must run at the selected stage.
    pub suite: String,
    /// Output path relative to the Git root (absolute paths are also accepted).
    pub path: String,
}

/// Why an evaluation could not start.
#[derive(Debug)]
pub enum EvaluationError {
    /// An explicit test-report binding is invalid.
    JunitBinding(String),
}

/// Binding `i` names a nonempty path and a suite that no earlier binding
/// names and that runs at the stage.
pub open spec fn binding_ok(suites: Seq<TestSuite>, stage: TestStage, bindings: Seq<JunitBinding>, i: int) -> bool {
    &&& bindings[i].path@.len() > 0
    &&& forall|j: int| 0 <= j < i ==> (#[trigger] bindings[j]).suite@ != bindings[i].suite@
    &&& exists|k: int| 0 <= k < suites.len() && (#[trigger] suites[k]).id@ == bindings[i].suite@ && suites[k].stages@.contains(stage)
}

pub open spec fn bindings_ok(suites: Seq<TestSuite>, stage: TestStage, bindings: Seq<JunitBinding>) -> bool {
    forall|i: int| 0 <= i < bindings.len() ==> #[trigger] binding_ok(suites, stage, bindings, i)
}

pub open spec fn binding_message() -> Seq<char> {
    "each binding needs a unique suite at the selected stage and a nonempty path"@
}

fn suite_at_stage(suites: &Vec<TestSuite>, id: &String, stage: TestStage) -> (r: bool)
    ensures
        r == exists|k: int| 0 <= k < suites@.len() && (#[trigger] suites@[k]).id@ == id@ && suites@[k].stages@.contains(stage),
{
    let mut k: usize = 0;
    while k < suites.len()
        invariant
            k <= suites@.len(),
            forall|q: int| 0 <= q < k ==> !((#[trigger] suites@[q]).id@ == id@ && suites@[q].stages@.contains(stage)),
        decreases suites.len() - k,
    {
        if same_text(suites[k].id.as_str(), id.as_str()) && crate::adoption::runs_at(&suites[k].stages, stage) {
            return true;
        }
        k = k + 1;
    }
    false
}

/// Refuses bindings before any command runs: each needs a nonempty path and
/// a unique suite that runs at the selected stage.
pub fn validate_junit_bindings(manifest: &ProjectManifest, stage: TestStage, bindings: &[JunitBinding]) -> (r: Result<(), EvaluationError>)
    ensures
        r is Ok <==> bindings_ok(manifest.testing.suites@, stage, bindings@),
        r matches Err(EvaluationError::JunitBinding(m)) ==> m@ == binding_message(),
{
    let ghost suites = manifest.testing.suites@;
    let mut i: usize = 0;
    while i < bindings.len()
        invariant
            suites == manifest.testing.suites@,
            i <= bindings@.len(),
            forall|q: int| 0 <= q < i ==> #[trigger] binding_ok(suites, stage, bindings@, q),
        decreases bindings.len() - i,
    {
        let b = &bindings[i];
        let mut unique = true;
        let mut j: usize = 0;
        while j < i
            invariant
                i < bindings@.len(),
                *b == bindings@[i as int],
                j <= i,
                unique == forall|q: int| 0 <= q < j ==> (#[trigger] bindings@[q]).suite@ != b.suite@,
            decreases i - j,
        {
            if same_text(bindings[j].suite.as_str(), b.suite.as_str()) {
                unique = false;
            }
            j = j + 1;
        }
        if b.path.as_str().is_empty() || !unique || !suite_at_stage(&manifest.testing.suites, &b.suite, stage) {
            assert(!binding_ok(suites, stage, bindings@, i as int));
            return Err(EvaluationError::JunitBinding(owned("each binding needs a unique suite at the selected stage and a nonempty path")));
        }
        i = i + 1;
    }
    Ok(())
}

pub open spec fn not_run_summary() -> Seq<char> {
    "Required JUnit execution evidence was not collected; qualification is unverified"@
}

/// The result of a bound suite whose execution evidence was not collected.
pub fn junit_not_run(binding: &JunitBinding, stage: TestStage) -> (r: CheckResult)
    ensures
        r@ == (CheckView {
            id: binding.suite@,
            kind: CheckKind::Suite,
            blocking: true,
            gates: test_stage_gates(stage),
            outcome: Outcome::Unverified,
            summary: not_run_summary(),
            evidence: Seq::empty(),
            stdout: None,
            stderr: None,
            duration_ms: None,
        }),
{
    let r = CheckResult {
        id: copy_string(&binding.suite),
        kind: CheckKind::Suite,
        blocking: true,
        gates: gates_for_test_stage(stage),
        outcome: Outcome::Unverified,
        summary: owned("Required JUnit execution evidence was not collected; qualification is unverified"),
        evidence: Vec::new(),
        stdout: None,
        stderr: None,
        duration_ms: None,
    };
    assert(r@.evidence =~= Seq::<EvidenceView>::empty());
    r
}

pub open spec fn junit_history_note() -> Seq<char> {
    "Required JUnit evidence cannot establish complete producer-internal retry/quarantine history; inspect the bound suite results"@
}

/// The position of the first result of a rule, if any.
pub open spec fn first_rule(rules: Seq<RuleResult>, id: Seq<char>) -> Option<int> {
    if exists|k: int| 0 <= k < rules.len() && (#[trigger] rules[k]).rule_id@ == id {
        Some(choose|k: int| 0 <= k < rules.len() && (#[trigger] rules[k]).rule_id@ == id
            && forall|q: int| 0 <= q < k ==> (#[trigger] rules[q]).rule_id@ != id)
    } else {
        None
    }
}

/// With bound reports, a policy or saved assertion cannot establish the
/// internal history of newly observed executions: the first result of the
/// retry/quarantine rule becomes unverified, attributed to the commands,
/// without evidence and with that diagnostic. Other results are unchanged.
pub fn limit_junit_history(rules: &mut Vec<RuleResult>, bound: bool)
    ensures
        final(rules)@.len() == old(rules)@.len(),
        !bound ==> final(rules)@ == old(rules)@,
        bound ==> forall|k: int| 0 <= k < old(rules)@.len() ==> {
            let before = #[trigger] old(rules)@[k];
            let after = final(rules)@[k];
            if first_rule(old(rules)@, "OPDEV-TEST-005"@) == Some(k) {
                &&& after.rule_id == before.rule_id
                &&& after.catalog_version == before.catalog_version
                &&& after.subject == before.subject
                &&& after.evaluated_at == before.evaluated_at
                &&& after.outcome == Outcome::Unverified
                &&& after.verifier == VerificationSource::Command
                &&& after.evidence@.len() == 0
                &&& after.diagnostic matches Some(d) && d@ == junit_history_note()
            } else {
                after == before
            }
        },
{
    if !bound {
        return;
    }
    let ghost start = rules@;
    let mut k: usize = 0;
    while k < rules.len()
        invariant
            rules@ == start,
            old(rules)@ == start,
            bound,
            k <= start.len(),
            forall|q: int| 0 <= q < k ==> (#[trigger] start[q]).rule_id@ != "OPDEV-TEST-005"@,
        decreases rules.len() - k,
    {
        if same_text(rules[k].rule_id.as_str(), "OPDEV-TEST-005") {
            assert(first_rule(start, "OPDEV-TEST-005"@) == Some(k as int)) by {
                let w = choose|w: int| 0 <= w < start.len() && (#[trigger] start[w]).rule_id@ == "OPDEV-TEST-005"@
                    && forall|q: int| 0 <= q < w ==> (#[trigger] start[q]).rule_id@ != "OPDEV-TEST-005"@;
                assert(start[k as int].rule_id@ == "OPDEV-TEST-005"@);
                if w < k {
                    assert(start[w].rule_id@ != "OPDEV-TEST-005"@);
                } else if w > k {
                    assert(start[k as int].rule_id@ != "OPDEV-TEST-005"@);
                }
            }
            let old_rule = rules.remove(k);
            let updated = RuleResult {
                rule_id: old_rule.rule_id,
                catalog_version: old_rule.catalog_version,
                outcome: Outcome::Unverified,
                subject: old_rule.subject,
                verifier: VerificationSource::Command,
                evaluated_at: old_rule.evaluated_at,
                evidence: Vec::new(),
                diagnostic: Some(owned("Required JUnit evidence cannot establish complete producer-internal retry/quarantine history; inspect the bound suite results")),
            };
            rules.insert(k, updated);
            assert forall|q: int| 0 <= q < start.len() && q != k implies rules@[q] == start[q] by {}
            return;
        }
        k = k + 1;
    }
    assert(first_rule(start, "OPDEV-TEST-005"@) is None);
}

/// What observing the execution of a bound suite gave.
#[derive(Debug)]
pub struct JunitObservation {
    /// The receipt's combined command and report outcome.
    pub outcome: Outcome,
    pub duration_ms: Option<u64>,
    /// The receipt, encoded as evidence; `None` where it could not be encoded.
    pub receipt: Option<String>,
}

pub open spec fn retained_summary() -> Seq<char> {
    "Command/report observations retained; complete retry/quarantine history and CI identity remain unverified"@
}

/// The result of a bound suite: it starts as not run; without an execution
/// identity nothing runs; an observation never passes by itself, a passed
/// receipt staying unverified; an unencodable receipt is an error unless the
/// suite already failed; a failed precondition is an error.
pub open spec fn junit_view(b: JunitBinding, stage: TestStage, attempt: Option<String>, observed: Result<JunitObservation, String>) -> CheckView {
    let gates = test_stage_gates(stage);
    match attempt {
        None => CheckView {
            id: b.suite@, kind: CheckKind::Suite, blocking: true, gates, outcome: Outcome::Error,
            summary: "Could not allocate an execution identity; no command was run"@,
            evidence: Seq::empty(), stdout: None, stderr: None, duration_ms: None,
        },
        Some(a) => {
            let tagged = seq![("test_execution_attempt"@, a@, None::<Seq<char>>)];
            match observed {
                Ok(o) => {
                    let outcome = if o.outcome == Outcome::Passed { Outcome::Unverified } else { o.outcome };
                    match o.receipt {
                        Some(s) => CheckView {
                            id: b.suite@, kind: CheckKind::Suite, blocking: true, gates, outcome,
                            summary: retained_summary(),
                            evidence: tagged.push(("test_execution_receipt_v1"@, s@, None::<Seq<char>>)),
                            stdout: None, stderr: None, duration_ms: o.duration_ms,
                        },
                        None => CheckView {
                            id: b.suite@, kind: CheckKind::Suite, blocking: true, gates,
                            outcome: if outcome != Outcome::Failed { Outcome::Error } else { Outcome::Failed },
                            summary: retained_summary(), evidence: tagged, stdout: None,
                            stderr: Some("Could not encode the execution receipt"@), duration_ms: o.duration_ms,
                        },
                    }
                },
                Err(e) => CheckView {
                    id: b.suite@, kind: CheckKind::Suite, blocking: true, gates, outcome: Outcome::Error,
                    summary: "JUnit execution precondition failed; no command was run"@, evidence: tagged,
                    stdout: None, stderr: Some(e@), duration_ms: None,
                },
            }
        },
    }
}

/// The result of running a bound suite, from its execution identity (where
/// one could be allocated) and what observing the execution gave.
pub fn junit_suite_result(binding: &JunitBinding, stage: TestStage, attempt: Option<String>, observed: Result<JunitObservation, String>) -> (r: CheckResult)
    ensures
        r@ == junit_view(*binding, stage, attempt, observed),
{
    let mut result = junit_not_run(binding, stage);
    let a = match attempt {
        None => {
            result.outcome = Outcome::Error;
            result.summary = owned("Could not allocate an execution identity; no command was run");
            return result;
        },
        Some(a) => a,
    };
    let ghost tagged = seq![("test_execution_attempt"@, a@, None::<Seq<char>>)];
    result.evidence.push(Evidence { kind: owned("test_execution_attempt"), summary: a, location: None });
    assert(evidence_views(result.evidence@) =~= tagged);
    match observed {
        Ok(o) => {
            result.outcome = if o.outcome == Outcome::Passed { Outcome::Unverified } else { o.outcome };
            result.duration_ms = o.duration_ms;
            result.summary = owned(
                "Command/report observations retained; complete retry/quarantine history and CI identity remain unverified",
            );
            match o.receipt {
                Some(s) => {
                    let ghost sv = s@;
                    result.evidence.push(Evidence { kind: owned("test_execution_receipt_v1"), summary: s, location: None });
                    assert(evidence_views(result.evidence@) =~= tagged.push(("test_execution_receipt_v1"@, sv, None::<Seq<char>>)));
                },
                None => {
                    if result.outcome != Outcome::Failed {
                        result.outcome = Outcome::Error;
                    }
                    result.stderr = Some(owned("Could not encode the execution receipt"));
                },
            }
        },
        Err(e) => {
            result.outcome = Outcome::Error;
            result.summary = owned("JUnit execution precondition failed; no command was run");
            result.stderr = Some(e);
        },
    }
    result
}

/// The position of the first binding for a suite, if any.
pub open spec fn bound_at(junit: Seq<JunitBinding>, id: Seq<char>) -> Option<int>
    decreases junit.len(),
{
    if junit.len() == 0 {
        None
    } else if junit[0].suite@ == id {
        Some(0)
    } else {
        match bound_at(junit.drop_first(), id) {
            Some(i) => Some(i + 1),
            None => None,
        }
    }
}

proof fn lemma_bound_at(junit: Seq<JunitBinding>, id: Seq<char>, i: int)
    requires
        0 <= i <= junit.len(),
        forall|q: int| 0 <= q < i ==> (#[trigger] junit[q]).suite@ != id,
    ensures
        i < junit.len() && junit[i].suite@ == id ==> bound_at(junit, id) == Some(i),
        i == junit.len() ==> bound_at(junit, id) is None,
    decreases i,
{
    if i > 0 {
        let t = junit.drop_first();
        assert forall|q: int| 0 <= q < i - 1 implies (#[trigger] t[q]).suite@ != id by {
            assert(t[q] == junit[q + 1]);
        }
        lemma_bound_at(t, id, i - 1);
    }
}

proof fn lemma_bound_at_in_range(junit: Seq<JunitBinding>, id: Seq<char>)
    ensures
        bound_at(junit, id) matches Some(i) ==> 0 <= i < junit.len() && junit[i].suite@ == id,
    decreases junit.len(),
{
    if junit.len() > 0 && junit[0].suite@ != id {
        lemma_bound_at_in_range(junit.drop_first(), id);
    }
}

/// The first binding for a suite, if any.
pub fn find_binding(junit: &[JunitBinding], id: &str) -> (r: Option<usize>)
    ensures
        match r {
            Some(i) => bound_at(junit@, id@) == Some(i as int),
            None => bound_at(junit@, id@) is None,
        },
{
    let mut i: usize = 0;
    while i < junit.len()
        invariant
            i <= junit@.len(),
            forall|q: int| 0 <= q < i ==> (#[trigger] junit@[q]).suite@ != id@,
        decreases junit.len() - i,
    {
        if same_text(junit[i].suite.as_str(), id) {
            proof { lemma_bound_at(junit@, id@, i as int); }
            return Some(i);
        }
        i = i + 1;
    }
    proof { lemma_bound_at(junit@, id@, i as int); }
    None
}

/// How a suite at the stage ran: its command, or, for a bound suite, an
/// execution identity and what observing the execution gave.
#[derive(Debug)]
pub enum SuiteRun {
    Command(Result<Execution, String>),
    Junit(Option<String>, Result<JunitObservation, String>),
}

/// A run matches the suite: bound suites are observed, others run their command.
pub open spec fn run_matches(suite: TestSuite, junit: Seq<JunitBinding>, run: SuiteRun) -> bool {
    (run is Junit) == (bound_at(junit, suite.id@) is Some)
}

pub open spec fn suite_run_view(suite: TestSuite, stage: TestStage, junit: Seq<JunitBinding>, run: SuiteRun) -> CheckView {
    match run {
        SuiteRun::Command(r) => run_view(suite.id@, CheckKind::Suite, true, test_stage_gates(stage), r),
        SuiteRun::Junit(a, o) => match bound_at(junit, suite.id@) {
            Some(i) => junit_view(junit[i], stage, a, o),
            None => command_error_view(suite.id@, CheckKind::Suite, true, test_stage_gates(stage), Seq::empty()),
        },
    }
}

/// The results of the suites at a stage, bound suites from their observed
/// executions, the others from their command runs, in contract order.
pub fn run_bound_suites(manifest: &ProjectManifest, stage: TestStage, junit: &[JunitBinding], runs: Vec<SuiteRun>) -> (r: Vec<CheckResult>)
    requires
        runs@.len() == suites_at(manifest.testing.suites@, stage).len(),
        forall|k: int| 0 <= k < runs@.len() ==> run_matches(suites_at(manifest.testing.suites@, stage)[k], junit@, #[trigger] runs@[k]),
    ensures
        r@.len() == runs@.len(),
        forall|k: int| 0 <= k < r@.len() ==> (#[trigger] r@[k])@ == suite_run_view(
            suites_at(manifest.testing.suites@, stage)[k], stage, junit@, runs@[k]),
{
    let plan = suites_to_run(manifest, stage);
    let ghost all_runs = runs@;
    let ghost at = suites_at(manifest.testing.suites@, stage);
    let mut runs = runs;
    let mut out: Vec<CheckResult> = Vec::new();
    let mut k: usize = 0;
    while k < plan.len()
        invariant
            at == suites_at(manifest.testing.suites@, stage),
            plan@.len() == all_runs.len(),
            all_runs.len() == at.len(),
            forall|q: int| 0 <= q < plan@.len() ==> (#[trigger] plan@[q]).0@ == at[q].id@,
            forall|q: int| 0 <= q < all_runs.len() ==> run_matches(at[q], junit@, #[trigger] all_runs[q]),
            k <= plan@.len(),
            runs@ == all_runs.subrange(k as int, all_runs.len() as int),
            out@.len() == k,
            forall|q: int| 0 <= q < k ==> (#[trigger] out@[q])@ == suite_run_view(at[q], stage, junit@, all_runs[q]),
        decreases plan.len() - k,
    {
        assert(runs@[0] == all_runs[k as int]);
        let run = runs.remove(0);
        assert(runs@ =~= all_runs.subrange(k + 1, all_runs.len() as int));
        let id = copy_string(&plan[k].0);
        let r = match run {
            SuiteRun::Command(result) => execution_result(id, CheckKind::Suite, true, gates_for_test_stage(stage), result),
            SuiteRun::Junit(attempt, observed) => {
                let found = find_binding(junit, id.as_str());
                proof { lemma_bound_at_in_range(junit@, id@); }
                match found {
                    Some(i) => junit_suite_result(&junit[i], stage, attempt, observed),
                    None => {
                        assert(run_matches(at[k as int], junit@, all_runs[k as int]));
                        assert(false);
                        command_error_result(id, CheckKind::Suite, true, gates_for_test_stage(stage), String::new())
                    },
                }
            },
        };
        out.push(r);
        k = k + 1;
    }
    out
}

/// The position of the first catalog rule with an identity, if any.
pub open spec fn first_in_catalog(rules: Seq<Rule>, id: Seq<char>) -> Option<int>
    decreases rules.len(),
{
    if rules.len() == 0 {
        None
    } else if rules[0].id@ == id {
        Some(0)
    } else {
        match first_in_catalog(rules.drop_first(), id) {
            Some(i) => Some(i + 1),
            None => None,
        }
    }
}

proof fn lemma_first_in_catalog(rules: Seq<Rule>, id: Seq<char>)
    ensures
        first_in_catalog(rules, id) matches Some(k) ==> 0 <= k < rules.len() && rules[k].id@ == id
            && forall|q: int| 0 <= q < k ==> (#[trigger] rules[q]).id@ != id,
        first_in_catalog(rules, id) is None ==> forall|q: int| 0 <= q < rules.len() ==> (#[trigger] rules[q]).id@ != id,
    decreases rules.len(),
{
    if rules.len() > 0 && rules[0].id@ != id {
        let t = rules.drop_first();
        lemma_first_in_catalog(t, id);
        assert forall|q: int| 1 <= q < rules.len() implies rules[q] == t[q - 1] by {}
    }
}

proof fn lemma_first_rule_at(rules: Seq<RuleResult>, id: Seq<char>, k: int)
    requires
        0 <= k < rules.len(),
        rules[k].rule_id@ == id,
        forall|q: int| 0 <= q < k ==> (#[trigger] rules[q]).rule_id@ != id,
    ensures
        first_rule(rules, id) == Some(k),
{
    let w = choose|w: int| 0 <= w < rules.len() && (#[trigger] rules[w]).rule_id@ == id
        && forall|q: int| 0 <= q < w ==> (#[trigger] rules[q]).rule_id@ != id;
    if w < k {
        assert(rules[w].rule_id@ != id);
    } else if w > k {
        assert(rules[k].rule_id@ != id);
    }
}

/// The result of the retry/quarantine rule once bound reports are required.
pub open spec fn history_limited(r: RuleResult, rule: Rule, subject: Seq<char>, catalog_version: u32, evaluated_at: u64) -> bool {
    &&& r.rule_id@ == rule.id@
    &&& r.catalog_version == catalog_version
    &&& r.subject@ == subject
    &&& r.evaluated_at == evaluated_at
    &&& r.outcome == Outcome::Unverified
    &&& r.verifier == VerificationSource::Command
    &&& r.evidence@.len() == 0
    &&& r.diagnostic matches Some(d) && d@ == junit_history_note()
}

/// A report of an evaluation with explicit bindings: rule results from the
/// contract, the retry/quarantine rule unverified wherever reports are
/// bound; checks from the runs, or, without execution, a not-run result per
/// binding; strictly aggregated gates.
pub open spec fn junit_report_ok(
    report: CheckReport,
    subject: Seq<char>,
    m: ProjectManifest,
    options: CheckOptions,
    catalog: RuleCatalog,
    evaluated_at: u64,
    change: Option<ChangeAssertions>,
    project: Seq<EvidenceAssertion>,
    junit: Seq<JunitBinding>,
    suite_runs: Seq<SuiteRun>,
    extension_runs: Seq<ExtensionRun>,
    protocol: Seq<char>,
) -> bool {
    let at = suites_at(m.testing.suites@, options.test_stage);
    &&& report.schema == 1
    &&& report.catalog_version == catalog.catalog_version
    &&& report.subject@ == subject
    &&& report.evaluated_at == evaluated_at
    &&& report.rules@.len() == catalog.rules@.len()
    &&& forall|k: int| 0 <= k < report.rules@.len() ==> if junit.len() > 0 && first_in_catalog(catalog.rules@,
        "OPDEV-TEST-005"@) == Some(k) {
        history_limited(#[trigger] report.rules@[k], catalog.rules@[k], subject, catalog.catalog_version, evaluated_at)
    } else {
        ledger_result_ok(report.rules@[k], catalog.rules@[k], m, subject, catalog.catalog_version, evaluated_at, change, project)
    }
    &&& options.execute_checks ==> report.checks@.len() == suite_runs.len() + extension_runs.len()
    &&& options.execute_checks ==> forall|k: int| 0 <= k < suite_runs.len() ==> (#[trigger] report.checks@[k])@
        == suite_run_view(at[k], options.test_stage, junit, suite_runs[k])
    &&& options.execute_checks ==> forall|k: int| 0 <= k < extension_runs.len() ==> (#[trigger] report.checks@[suite_runs.len()
        + k])@ == extension_view(extensions_at(m.extensions@, options.extension_stage)[k], protocol, extension_runs[k])
    &&& !options.execute_checks ==> report.checks@.len() == junit.len()
    &&& !options.execute_checks ==> forall|k: int| 0 <= k < junit.len() ==> (#[trigger] report.checks@[k])@ == (CheckView {
        id: junit[k].suite@,
        kind: CheckKind::Suite,
        blocking: true,
        gates: test_stage_gates(options.test_stage),
        outcome: Outcome::Unverified,
        summary: not_run_summary(),
        evidence: Seq::empty(),
        stdout: None,
        stderr: None,
        duration_ms: None,
    })
    &&& report.gates@.len() == 4
    &&& forall|k: int| 0 <= k < 4 ==> gate_ok(#[trigger] report.gates@[k], catalog.rules@, report.rules@, report.checks@,
        gate_order()[k])
}

fn contract_rules(manifest: &ProjectManifest, catalog: &RuleCatalog, subject: &str, evaluated_at: u64) -> (r: Vec<RuleResult>)
    ensures
        r@.len() == catalog.rules@.len(),
        forall|k: int| 0 <= k < r@.len() ==> rule_result_ok(#[trigger] r@[k], catalog.rules@[k], *manifest, subject@,
            catalog.catalog_version, evaluated_at),
{
    let mut rules: Vec<RuleResult> = Vec::new();
    let mut i: usize = 0;
    while i < catalog.rules.len()
        invariant
            i <= catalog.rules@.len(),
            rules@.len() == i,
            forall|k: int| 0 <= k < i ==> rule_result_ok(#[trigger] rules@[k], catalog.rules@[k], *manifest, subject@,
                catalog.catalog_version, evaluated_at),
        decreases catalog.rules.len() - i,
    {
        rules.push(evaluate_rule(&catalog.rules[i], manifest, subject, catalog.catalog_version, evaluated_at));
        i = i + 1;
    }
    rules
}

proof fn lemma_limited_rules(pre: Seq<RuleResult>, post: Seq<RuleResult>, catalog: RuleCatalog, m: ProjectManifest,
    subject: Seq<char>, evaluated_at: u64, bound: bool, change: Option<ChangeAssertions>, project: Seq<EvidenceAssertion>)
    requires
        pre.len() == catalog.rules@.len(),
        forall|k: int| 0 <= k < pre.len() ==> ledger_result_ok(#[trigger] pre[k], catalog.rules@[k], m, subject,
            catalog.catalog_version, evaluated_at, change, project),
        post.len() == pre.len(),
        !bound ==> post == pre,
        bound ==> forall|k: int| 0 <= k < pre.len() ==> {
            let before = #[trigger] pre[k];
            let after = post[k];
            if first_rule(pre, "OPDEV-TEST-005"@) == Some(k) {
                &&& after.rule_id == before.rule_id
                &&& after.catalog_version == before.catalog_version
                &&& after.subject == before.subject
                &&& after.evaluated_at == before.evaluated_at
                &&& after.outcome == Outcome::Unverified
                &&& after.verifier == VerificationSource::Command
                &&& after.evidence@.len() == 0
                &&& after.diagnostic matches Some(d) && d@ == junit_history_note()
            } else {
                after == before
            }
        },
    ensures
        forall|k: int| 0 <= k < post.len() ==> if bound && first_in_catalog(catalog.rules@, "OPDEV-TEST-005"@) == Some(k) {
            history_limited(#[trigger] post[k], catalog.rules@[k], subject, catalog.catalog_version, evaluated_at)
        } else {
            ledger_result_ok(post[k], catalog.rules@[k], m, subject, catalog.catalog_version, evaluated_at, change, project)
        },
{
    let id = "OPDEV-TEST-005"@;
    lemma_first_in_catalog(catalog.rules@, id);
    match first_in_catalog(catalog.rules@, id) {
        Some(j) => {
            assert forall|q: int| 0 <= q < j implies (#[trigger] pre[q]).rule_id@ != id by {
                assert(ledger_result_ok(pre[q], catalog.rules@[q], m, subject, catalog.catalog_version, evaluated_at, change, project));
                assert(catalog.rules@[q].id@ != id);
            }
            assert(ledger_result_ok(pre[j], catalog.rules@[j], m, subject, catalog.catalog_version, evaluated_at, change, project));
            assert(pre[j].rule_id@ == id);
            lemma_first_rule_at(pre, id, j);
        },
        None => {
            assert forall|q: int| 0 <= q < pre.len() implies !((#[trigger] pre[q]).rule_id@ == id) by {
                assert(ledger_result_ok(pre[q], catalog.rules@[q], m, subject, catalog.catalog_version, evaluated_at, change, project));
                assert(catalog.rules@[q].id@ != id);
            }
            assert(first_rule(pre, id) is None);
        },
    }
    assert forall|k: int| 0 <= k < post.len() implies if bound && first_in_catalog(catalog.rules@, id) == Some(k) {
        history_limited(#[trigger] post[k], catalog.rules@[k], subject, catalog.catalog_version, evaluated_at)
    } else {
        ledger_result_ok(post[k], catalog.rules@[k], m, subject, catalog.catalog_version, evaluated_at, change, project)
    } by {
        assert(ledger_result_ok(pre[k], catalog.rules@[k], m, subject, catalog.catalog_version, evaluated_at, change, project));
        if bound {
            let before = pre[k];
            let after = post[k];
            assert(first_rule(pre, id) == first_in_catalog(catalog.rules@, id));
        }
    }
}

/// Evaluates with explicitly required test reports: bindings are refused
/// before anything else; rule results come from the contract and the
/// recorded assertions, with the retry/quarantine rule unverified wherever
/// reports are bound; bound suites
/// are judged from their observed executions, the others from their command
/// runs; without execution, each binding is reported as not run.
pub fn evaluate_with_junit(
    subject: &str,
    manifest: &ProjectManifest,
    options: CheckOptions,
    catalog: &RuleCatalog,
    evaluated_at: u64,
    change: &Option<ChangeAssertions>,
    project: &Vec<EvidenceAssertion>,
    junit: &[JunitBinding],
    suite_runs: Vec<SuiteRun>,
    extension_runs: Vec<ExtensionRun>,
    protocol: &str,
) -> (r: Result<CheckReport, EvaluationError>)
    requires
        bindings_ok(manifest.testing.suites@, options.test_stage, junit@) && options.execute_checks ==> suite_runs@.len()
            == suites_at(manifest.testing.suites@, options.test_stage).len(),
        bindings_ok(manifest.testing.suites@, options.test_stage, junit@) && options.execute_checks ==> forall|k: int|
            0 <= k < suite_runs@.len() ==> run_matches(suites_at(manifest.testing.suites@, options.test_stage)[k], junit@,
            #[trigger] suite_runs@[k]),
        bindings_ok(manifest.testing.suites@, options.test_stage, junit@) && options.execute_checks ==> extension_runs@.len()
            == extensions_at(manifest.extensions@, options.extension_stage).len(),
    ensures
        r is Err <==> !bindings_ok(manifest.testing.suites@, options.test_stage, junit@),
        r matches Err(EvaluationError::JunitBinding(m)) ==> m@ == binding_message(),
        r matches Ok(report) ==> junit_report_ok(report, subject@, *manifest, options, *catalog, evaluated_at, *change,
            project@, junit@, suite_runs@, extension_runs@, protocol@),
{
    match validate_junit_bindings(manifest, options.test_stage, junit) {
        Err(e) => return Err(e),
        Ok(()) => {},
    }
    let mut rules = contract_rules(manifest, catalog, subject, evaluated_at);
    let ghost contract = rules@;
    apply_evidence(&mut rules, change, project);
    proof {
        lemma_settled_contract_results(contract, rules@, catalog.rules@, *manifest, subject@, catalog.catalog_version,
            evaluated_at, *change, project@);
    }
    let ghost pre = rules@;
    let bound = junit.len() > 0;
    limit_junit_history(&mut rules, bound);
    proof {
        lemma_limited_rules(pre, rules@, *catalog, *manifest, subject@, evaluated_at, bound, *change, project@);
    }
    let checks = if options.execute_checks {
        let mut checks = run_bound_suites(manifest, options.test_stage, junit, suite_runs);
        let ghost first = checks@;
        let mut more = run_extensions(manifest, options.extension_stage, protocol, extension_runs);
        let ghost second = more@;
        checks.append(&mut more);
        assert(checks@ == first + second);
        checks
    } else {
        let mut checks: Vec<CheckResult> = Vec::new();
        let mut k: usize = 0;
        while k < junit.len()
            invariant
                k <= junit@.len(),
                checks@.len() == k,
                forall|q: int| 0 <= q < k ==> (#[trigger] checks@[q])@ == (CheckView {
                    id: junit@[q].suite@,
                    kind: CheckKind::Suite,
                    blocking: true,
                    gates: test_stage_gates(options.test_stage),
                    outcome: Outcome::Unverified,
                    summary: not_run_summary(),
                    evidence: Seq::empty(),
                    stdout: None,
                    stderr: None,
                    duration_ms: None,
                }),
            decreases junit.len() - k,
        {
            checks.push(junit_not_run(&junit[k], options.test_stage));
            k = k + 1;
        }
        checks
    };
    let gates = aggregate_gates(catalog, rules.as_slice(), checks.as_slice());
    Ok(CheckReport {
        schema: 1,
        catalog_version: catalog.catalog_version,
        subject: owned(subject),
        evaluated_at,
        rules,
        checks,
        gates,
    })
}

/// A test report alone never qualifies a suite: whatever an observed
/// execution of a bound suite gave, its result is not a pass.
pub proof fn lemma_bound_suites_never_pass(b: JunitBinding, stage: TestStage, attempt: Option<String>,
    observed: Result<JunitObservation, String>)
    ensures
        junit_view(b, stage, attempt, observed).outcome != Outcome::Passed,
{
}

proof fn lemma_blocking_rules_same(rules: Seq<Rule>, a: Seq<RuleResult>, b: Seq<RuleResult>, gate: Gate, n: int)
    requires
        forall|k: int| 0 <= k < n ==> (#[trigger] a[k]).outcome == b[k].outcome && a[k].rule_id@ == b[k].rule_id@,
    ensures
        blocking_rules(rules, a, gate, n) == blocking_rules(rules, b, gate, n),
    decreases n,
{
    if n > 0 {
        lemma_blocking_rules_same(rules, a, b, gate, n - 1);
        assert(a[n - 1].outcome == b[n - 1].outcome);
    }
}

/// Executed checks never change or waive a core rule: two evaluations of one
/// project contract and one set of recorded assertions against one catalog,
/// whatever options, suites and extensions each ran with, give the same rule
/// results (but for the time of evaluation), and every gate is held back by
/// the same rules in both; checks can only add blocking checks.
pub proof fn lemma_rules_do_not_depend_on_checks(
    catalog: RuleCatalog,
    manifest: ProjectManifest,
    subject: Seq<char>,
    change: Option<ChangeAssertions>,
    project: Seq<EvidenceAssertion>,
    first: CheckReport,
    first_at: u64,
    second: CheckReport,
    second_at: u64,
)
    requires
        first.rules@.len() == catalog.rules@.len(),
        second.rules@.len() == catalog.rules@.len(),
        forall|k: int| 0 <= k < first.rules@.len() ==> ledger_result_ok(#[trigger] first.rules@[k], catalog.rules@[k], manifest,
            subject, catalog.catalog_version, first_at, change, project),
        forall|k: int| 0 <= k < second.rules@.len() ==> ledger_result_ok(#[trigger] second.rules@[k], catalog.rules@[k], manifest,
            subject, catalog.catalog_version, second_at, change, project),
        first.gates@.len() == 4,
        second.gates@.len() == 4,
        forall|k: int| 0 <= k < 4 ==> gate_ok(#[trigger] first.gates@[k], catalog.rules@, first.rules@, first.checks@, gate_order()[k]),
        forall|k: int| 0 <= k < 4 ==> gate_ok(#[trigger] second.gates@[k], catalog.rules@, second.rules@, second.checks@, gate_order()[k]),
    ensures
        forall|k: int| 0 <= k < first.rules@.len() ==> {
            let x = #[trigger] first.rules@[k];
            let y = second.rules@[k];
            &&& x.rule_id@ == y.rule_id@
            &&& x.catalog_version == y.catalog_version
            &&& x.subject@ == y.subject@
            &&& x.outcome == y.outcome
            &&& x.verifier == y.verifier
            &&& evidence_views(x.evidence@) == evidence_views(y.evidence@)
            &&& opt_view(x.diagnostic) == opt_view(y.diagnostic)
        },
        forall|k: int| 0 <= k < 4 ==> texts((#[trigger] first.gates@[k]).blocking_rules@) == texts(second.gates@[k].blocking_rules@),
        forall|k: int| 0 <= k < 4 && texts((#[trigger] first.gates@[k]).blocking_rules@).len() > 0
            ==> first.gates@[k].verdict == AggregateVerdict::Blocked && second.gates@[k].verdict == AggregateVerdict::Blocked,
{
    let n = catalog.rules@.len() as int;
    assert forall|k: int| 0 <= k < n implies (#[trigger] first.rules@[k]).outcome == second.rules@[k].outcome
        && first.rules@[k].rule_id@ == second.rules@[k].rule_id@ by {
        assert(ledger_result_ok(first.rules@[k], catalog.rules@[k], manifest, subject, catalog.catalog_version, first_at, change,
            project));
        assert(ledger_result_ok(second.rules@[k], catalog.rules@[k], manifest, subject, catalog.catalog_version, second_at, change,
            project));
    }
    assert forall|k: int| 0 <= k < 4 implies texts((#[trigger] first.gates@[k]).blocking_rules@)
        == texts(second.gates@[k].blocking_rules@) by {
        assert(gate_ok(first.gates@[k], catalog.rules@, first.rules@, first.checks@, gate_order()[k]));
        assert(gate_ok(second.gates@[k], catalog.rules@, second.rules@, second.checks@, gate_order()[k]));
        lemma_blocking_rules_same(catalog.rules@, first.rules@, second.rules@, gate_order()[k], n);
    }
    assert forall|k: int| 0 <= k < 4 && texts((#[trigger] first.gates@[k]).blocking_rules@).len() > 0
        implies first.gates@[k].verdict == AggregateVerdict::Blocked && second.gates@[k].verdict == AggregateVerdict::Blocked by {
        assert(gate_ok(first.gates@[k], catalog.rules@, first.rules@, first.checks@, gate_order()[k]));
        assert(gate_ok(second.gates@[k], catalog.rules@, second.rules@, second.checks@, gate_order()[k]));
    }
}

/// The operations rule passes only on the contract's own declarations: with
/// both health evidence and an observability authority declared it passes,
/// with either missing it stays unverified, for any contract. So does the
/// result of evaluating it.
pub proof fn lemma_operations_need_health_and_observability(rule: Rule, m: ProjectManifest, r: RuleResult, subject: Seq<char>,
    catalog_version: u32, evaluated_at: u64)
    requires
        rule.id@ == "OPDEV-OPS-001"@,
        rule_result_ok(r, rule, m, subject, catalog_version, evaluated_at),
    ensures
        (r.outcome == Outcome::Passed) <==> (m.operations.health_evidence is Some && m.operations.observability_authority is Some),
        !(m.operations.health_evidence is Some && m.operations.observability_authority is Some)
            ==> r.outcome == Outcome::Unverified && r.verifier == VerificationSource::Catalog && evidence_views(r.evidence@).len() == 0
                && opt_view(r.diagnostic) == Some("This evaluator has no sufficient evidence for: "@ + rule.applicability@),
        (m.operations.health_evidence is Some && m.operations.observability_authority is Some)
            ==> r.verifier == VerificationSource::Manifest && r.diagnostic is None
                && evidence_views(r.evidence@) == seq![("manifest"@, "Health evidence and an observability authority are declared"@,
                    Some(".opdev/project.yaml"@))],
{
    reveal_strlit("OPDEV-OPS-001");
    reveal_strlit("OPDEV-AUTH-001");
    reveal_strlit("OPDEV-AUTH-002");
    reveal_strlit("MCD-CI-001");
    reveal_strlit("MCD-DELIVERY-001");
    reveal_strlit("MCD-TEST-001");
    reveal_strlit("MCD-TEST-002");
    reveal_strlit("OPDEV-TEST-001");
    reveal_strlit("OPDEV-TEST-003");
    reveal_strlit("OPDEV-TEST-004");
    reveal_strlit("OPDEV-TEST-005");
    reveal_strlit("OPDEV-TEST-006");
    reveal_strlit("OPDEV-EXT-001");
    reveal_strlit("MCD-PIPELINE-001");
    reveal_strlit("MCD-ARTIFACT-001");
    reveal_strlit("MCD-ARTIFACT-002");
    reveal_strlit("MCD-ENV-001");
    reveal_strlit("MCD-RECOVERY-001");
    reveal_strlit("MCD-CONFIG-002");
    let id = rule.id@;
    assert(id.len() == 13);
    assert("OPDEV-AUTH-001"@.len() == 14);
    assert("OPDEV-AUTH-002"@.len() == 14);
    assert("MCD-CI-001"@.len() == 10);
    assert("MCD-DELIVERY-001"@.len() == 16);
    assert("MCD-TEST-001"@.len() == 12);
    assert("MCD-TEST-002"@.len() == 12);
    assert("OPDEV-TEST-001"@.len() == 14);
    assert("OPDEV-TEST-003"@.len() == 14);
    assert("OPDEV-TEST-004"@.len() == 14);
    assert("OPDEV-TEST-005"@.len() == 14);
    assert("OPDEV-TEST-006"@.len() == 14);
    assert("MCD-PIPELINE-001"@.len() == 16);
    assert("MCD-ARTIFACT-001"@.len() == 16);
    assert("MCD-ARTIFACT-002"@.len() == 16);
    assert("MCD-ENV-001"@.len() == 11);
    assert("MCD-RECOVERY-001"@.len() == 16);
    assert("MCD-CONFIG-002"@.len() == 14);
    assert(id[6] != "OPDEV-EXT-001"@[6]);
    assert(!delivery_rule(id));
}

} // verus!
