//! Text shown to people: control characters are made visible, and long
//! diagnostics are cut to a bounded excerpt that says it was cut.
use vstd::prelude::*;
use crate::evaluator::{aggregate_gates, gate_ok, gate_order, texts, CheckKind, CheckReport, CheckResult, GateVerdict, RuleCatalog, RuleResult};
use crate::junit::{sha256_hex, sha256_hex_of};
use crate::outcome::{AggregateVerdict, Gate, Outcome};
use crate::text::{chars_of, copy_string, decimal, decimal_text, is_control, joined, owned, same_text, string_of};

verus! {

/// The number of characters an excerpt keeps.
pub const EXCERPT_CHARS: usize = 512;

/// A lowercase hexadecimal digit.
pub open spec fn hex_char(d: nat) -> char {
    if d < 10 {
        ((d + 48) as u32) as char
    } else {
        ((d + 87) as u32) as char
    }
}

/// Lowercase hexadecimal notation without leading zeros.
pub open spec fn hex(n: nat) -> Seq<char>
    decreases n,
{
    if n < 16 {
        seq![hex_char(n)]
    } else {
        hex(n / 16).push(hex_char(n % 16))
    }
}

/// `char::escape_default` of a control character.
pub open spec fn escaped(c: char) -> Seq<char> {
    if c == '\t' {
        seq!['\\', 't']
    } else if c == '\r' {
        seq!['\\', 'r']
    } else if c == '\n' {
        seq!['\\', 'n']
    } else {
        seq!['\\', 'u', '{'] + hex((c as u32) as nat) + seq!['}']
    }
}

/// Text with every control character replaced by its escape.
pub open spec fn visible(s: Seq<char>) -> Seq<char>
    decreases s.len(),
{
    if s.len() == 0 {
        Seq::empty()
    } else if is_control(s.last()) {
        visible(s.drop_last()) + escaped(s.last())
    } else {
        visible(s.drop_last()).push(s.last())
    }
}

fn push_hex(out: &mut Vec<char>, n: u32)
    ensures
        final(out)@ == old(out)@ + hex(n as nat),
    decreases n,
{
    let d = n % 16;
    let c: char = if d < 10 { ((d as u8) + 48) as char } else { ((d as u8) + 87) as char };
    assert(c == hex_char(d as nat));
    if n < 16 {
        out.push(c);
    } else {
        push_hex(out, n / 16);
        out.push(c);
    }
}

/// Makes control characters visible, as `char::escape_default` writes them.
pub fn printable(text: &str) -> (r: String)
    ensures
        r@ == visible(text@),
{
    let v = chars_of(text);
    let mut out: Vec<char> = Vec::new();
    let mut i: usize = 0;
    assert(v@.subrange(0, 0) =~= Seq::<char>::empty());
    while i < v.len()
        invariant
            v@ == text@,
            i <= v@.len(),
            out@ == visible(v@.subrange(0, i as int)),
        decreases v.len() - i,
    {
        assert(v@.subrange(0, i + 1).drop_last() =~= v@.subrange(0, i as int));
        assert(v@.subrange(0, i + 1).last() == v@[i as int]);
        let c = v[i];
        if crate::text::char_is_control(c) {
            let ghost before = out@;
            if c == '\t' {
                out.push('\\');
                out.push('t');
            } else if c == '\r' {
                out.push('\\');
                out.push('r');
            } else if c == '\n' {
                out.push('\\');
                out.push('n');
            } else {
                out.push('\\');
                out.push('u');
                out.push('{');
                push_hex(&mut out, c as u32);
                out.push('}');
            }
            assert(out@ =~= before + escaped(c));
        } else {
            out.push(c);
        }
        i = i + 1;
    }
    assert(v@.subrange(0, v@.len() as int) =~= v@);
    string_of(out.as_slice())
}

/// A bounded piece of a diagnostic.
#[derive(Debug)]
pub struct Excerpt {
    /// At most `EXCERPT_CHARS` leading characters.
    pub text: String,
    /// Whether characters were left out.
    pub truncated: bool,
}

/// The excerpt of a text: all of it when it is short enough, else its
/// first `EXCERPT_CHARS` characters, marked as cut.
pub open spec fn excerpt_of(e: Excerpt, text: Seq<char>) -> bool {
    if text.len() <= EXCERPT_CHARS {
        e.text@ == text && !e.truncated
    } else {
        e.text@ == text.subrange(0, EXCERPT_CHARS as int) && e.truncated
    }
}

impl Excerpt {
    /// The leading characters of a text, and whether any were cut.
    pub fn new(text: &str) -> (r: Excerpt)
        ensures
            excerpt_of(r, text@),
    {
        let v = chars_of(text);
        if v.len() <= EXCERPT_CHARS {
            return Excerpt { text: string_of(v.as_slice()), truncated: false };
        }
        let mut kept: Vec<char> = Vec::new();
        let mut i: usize = 0;
        while i < EXCERPT_CHARS
            invariant
                v@ == text@,
                v@.len() > EXCERPT_CHARS,
                i <= EXCERPT_CHARS,
                kept@ == v@.subrange(0, i as int),
            decreases EXCERPT_CHARS - i,
        {
            kept.push(v[i]);
            assert(v@.subrange(0, i + 1) =~= v@.subrange(0, i as int).push(v@[i as int]));
            i = i + 1;
        }
        Excerpt { text: string_of(kept.as_slice()), truncated: true }
    }
}

/// The name an outcome has in reports.
pub open spec fn outcome_text(o: Outcome) -> Seq<char> {
    match o {
        Outcome::Passed => "passed"@,
        Outcome::Failed => "failed"@,
        Outcome::Unverified => "unverified"@,
        Outcome::NotApplicable => "not_applicable"@,
        Outcome::Error => "error"@,
        Outcome::MigrationRequired => "migration_required"@,
    }
}

pub fn outcome_name(outcome: Outcome) -> (r: &'static str)
    ensures
        r@ == outcome_text(outcome),
{
    match outcome {
        Outcome::Passed => "passed",
        Outcome::Failed => "failed",
        Outcome::Unverified => "unverified",
        Outcome::NotApplicable => "not_applicable",
        Outcome::Error => "error",
        Outcome::MigrationRequired => "migration_required",
    }
}

/// Why a saved report cannot be summarized.
#[derive(Clone, Copy, Debug, PartialEq, Eq, Structural)]
pub enum ReportError {
    /// Another report schema or catalog version.
    UnsupportedVersion,
    /// Rule results missing, added, reordered or of another catalog version.
    CatalogMismatch,
    /// Two checks of the same kind share an identity.
    DuplicateChecks,
    /// The recorded gates are not those that the rules and checks give.
    InconsistentGates,
}

pub open spec fn report_error_text(e: ReportError) -> Seq<char> {
    match e {
        ReportError::UnsupportedVersion => "unsupported report schema or catalog version; use the originating CLI"@,
        ReportError::CatalogMismatch => "report must contain the complete matching catalog in catalog order"@,
        ReportError::DuplicateChecks => "report contains ambiguous duplicate check IDs"@,
        ReportError::InconsistentGates => "recorded gates are inconsistent with the report's rules and checks"@,
    }
}

impl ReportError {
    /// What the error says to a person.
    pub fn message(&self) -> (r: &'static str)
        ensures
            r@ == report_error_text(*self),
    {
        match self {
            ReportError::UnsupportedVersion => "unsupported report schema or catalog version; use the originating CLI",
            ReportError::CatalogMismatch => "report must contain the complete matching catalog in catalog order",
            ReportError::DuplicateChecks => "report contains ambiguous duplicate check IDs",
            ReportError::InconsistentGates => "recorded gates are inconsistent with the report's rules and checks",
        }
    }
}

/// The rule results follow the catalog one for one, in its order, all of
/// the report's catalog version.
pub open spec fn rules_in_catalog_order(report: CheckReport, catalog: RuleCatalog) -> bool {
    &&& report.rules@.len() == catalog.rules@.len()
    &&& forall|i: int| 0 <= i < report.rules@.len() ==> (#[trigger] report.rules@[i]).rule_id@ == catalog.rules@[i].id@
        && report.rules@[i].catalog_version == report.catalog_version
}

/// No two checks of the same kind share an identity.
pub open spec fn checks_unique(checks: Seq<CheckResult>) -> bool {
    forall|i: int, j: int| 0 <= i < j < checks.len() ==> !((#[trigger] checks[i]).kind == (#[trigger] checks[j]).kind
        && checks[i].id@ == checks[j].id@)
}

/// The recorded gates are exactly the strict verdicts of the report's rules
/// and checks.
pub open spec fn gates_consistent(report: CheckReport, catalog: RuleCatalog) -> bool {
    &&& report.gates@.len() == 4
    &&& forall|k: int| 0 <= k < 4 ==> gate_ok(#[trigger] report.gates@[k], catalog.rules@, report.rules@, report.checks@, gate_order()[k])
}

/// What checking a saved report against the catalog gives, the first
/// failing condition deciding the error.
pub open spec fn report_check(report: CheckReport, catalog: RuleCatalog) -> Result<(), ReportError> {
    if report.schema != 1 || report.catalog_version != catalog.catalog_version {
        Err(ReportError::UnsupportedVersion)
    } else if !rules_in_catalog_order(report, catalog) {
        Err(ReportError::CatalogMismatch)
    } else if !checks_unique(report.checks@) {
        Err(ReportError::DuplicateChecks)
    } else if !gates_consistent(report, catalog) {
        Err(ReportError::InconsistentGates)
    } else {
        Ok(())
    }
}

fn rules_match(report: &CheckReport, catalog: &RuleCatalog) -> (r: bool)
    ensures
        r == rules_in_catalog_order(*report, *catalog),
{
    if report.rules.len() != catalog.rules.len() {
        return false;
    }
    let mut i: usize = 0;
    while i < report.rules.len()
        invariant
            i <= report.rules@.len(),
            report.rules@.len() == catalog.rules@.len(),
            forall|j: int| 0 <= j < i ==> (#[trigger] report.rules@[j]).rule_id@ == catalog.rules@[j].id@
                && report.rules@[j].catalog_version == report.catalog_version,
        decreases report.rules.len() - i,
    {
        if !same_text(report.rules[i].rule_id.as_str(), catalog.rules[i].id.as_str())
            || report.rules[i].catalog_version != report.catalog_version {
            assert(!(report.rules@[i as int].rule_id@ == catalog.rules@[i as int].id@
                && report.rules@[i as int].catalog_version == report.catalog_version));
            return false;
        }
        i = i + 1;
    }
    true
}

fn checks_distinct(checks: &[CheckResult]) -> (r: bool)
    ensures
        r == checks_unique(checks@),
{
    let mut j: usize = 0;
    while j < checks.len()
        invariant
            j <= checks@.len(),
            forall|a: int, b: int| 0 <= a < b < j ==> !((#[trigger] checks@[a]).kind == (#[trigger] checks@[b]).kind
                && checks@[a].id@ == checks@[b].id@),
        decreases checks.len() - j,
    {
        let mut i: usize = 0;
        while i < j
            invariant
                i <= j < checks@.len(),
                forall|a: int, b: int| 0 <= a < b < j ==> !((#[trigger] checks@[a]).kind == (#[trigger] checks@[b]).kind
                    && checks@[a].id@ == checks@[b].id@),
                forall|a: int| 0 <= a < i ==> !((#[trigger] checks@[a]).kind == checks@[j as int].kind
                    && checks@[a].id@ == checks@[j as int].id@),
            decreases j - i,
        {
            if checks[i].kind == checks[j].kind && same_text(checks[i].id.as_str(), checks[j].id.as_str()) {
                assert(checks@[i as int].kind == checks@[j as int].kind && checks@[i as int].id@ == checks@[j as int].id@);
                return false;
            }
            i = i + 1;
        }
        j = j + 1;
    }
    true
}

fn texts_equal(a: &Vec<String>, b: &Vec<String>) -> (r: bool)
    ensures
        r == (texts(a@) == texts(b@)),
{
    if a.len() != b.len() {
        assert(texts(a@).len() != texts(b@).len());
        return false;
    }
    let mut i: usize = 0;
    while i < a.len()
        invariant
            i <= a@.len(),
            a@.len() == b@.len(),
            forall|j: int| 0 <= j < i ==> (#[trigger] a@[j])@ == b@[j]@,
        decreases a.len() - i,
    {
        if !same_text(a[i].as_str(), b[i].as_str()) {
            assert(texts(a@)[i as int] != texts(b@)[i as int]);
            return false;
        }
        i = i + 1;
    }
    assert(texts(a@) =~= texts(b@));
    true
}

/// Two verdicts of the same gate with the same blockers.
pub open spec fn same_verdict(a: GateVerdict, b: GateVerdict) -> bool {
    &&& a.gate == b.gate
    &&& a.verdict == b.verdict
    &&& texts(a.blocking_rules@) == texts(b.blocking_rules@)
    &&& texts(a.blocking_checks@) == texts(b.blocking_checks@)
}

fn verdicts_equal(a: &GateVerdict, b: &GateVerdict) -> (r: bool)
    ensures
        r == same_verdict(*a, *b),
{
    a.gate == b.gate && a.verdict == b.verdict && texts_equal(&a.blocking_rules, &b.blocking_rules)
        && texts_equal(&a.blocking_checks, &b.blocking_checks)
}

fn gates_match(report: &CheckReport, catalog: &RuleCatalog) -> (r: bool)
    ensures
        r == gates_consistent(*report, *catalog),
{
    let fresh = aggregate_gates(catalog, report.rules.as_slice(), report.checks.as_slice());
    if report.gates.len() != 4 {
        return false;
    }
    let mut k: usize = 0;
    while k < 4
        invariant
            k <= 4,
            report.gates@.len() == 4,
            fresh@.len() == 4,
            forall|j: int| 0 <= j < 4 ==> gate_ok(#[trigger] fresh@[j], catalog.rules@, report.rules@, report.checks@, gate_order()[j]),
            forall|j: int| 0 <= j < k ==> gate_ok(#[trigger] report.gates@[j], catalog.rules@, report.rules@, report.checks@, gate_order()[j]),
        decreases 4 - k,
    {
        if !verdicts_equal(&report.gates[k], &fresh[k]) {
            assert(gate_ok(fresh@[k as int], catalog.rules@, report.rules@, report.checks@, gate_order()[k as int]));
            return false;
        }
        assert(gate_ok(fresh@[k as int], catalog.rules@, report.rules@, report.checks@, gate_order()[k as int]));
        k = k + 1;
    }
    true
}

/// Checks a saved report against the catalog before anything is projected
/// from it: schema and catalog version, the complete catalog in catalog
/// order, unambiguous check identities, and gates that the rules and
/// checks give.
pub fn validate_report(report: &CheckReport, catalog: &RuleCatalog) -> (r: Result<(), ReportError>)
    ensures
        r == report_check(*report, *catalog),
{
    if report.schema != 1 || report.catalog_version != catalog.catalog_version {
        return Err(ReportError::UnsupportedVersion);
    }
    if !rules_match(report, catalog) {
        return Err(ReportError::CatalogMismatch);
    }
    if !checks_distinct(report.checks.as_slice()) {
        return Err(ReportError::DuplicateChecks);
    }
    if !gates_match(report, catalog) {
        return Err(ReportError::InconsistentGates);
    }
    Ok(())
}

/// Recomputes the strict gate verdicts after another verifier contributed
/// rule results; nothing else in the report changes.
pub fn reaggregate(report: &mut CheckReport, catalog: &RuleCatalog)
    ensures
        final(report).schema == old(report).schema,
        final(report).catalog_version == old(report).catalog_version,
        final(report).subject == old(report).subject,
        final(report).evaluated_at == old(report).evaluated_at,
        final(report).rules == old(report).rules,
        final(report).checks == old(report).checks,
        gates_consistent(*final(report), *catalog),
{
    let gates = aggregate_gates(catalog, report.rules.as_slice(), report.checks.as_slice());
    report.gates = gates;
}

/// Where a saved report lies and the digest of its bytes.
#[derive(Debug)]
pub struct ReportSource {
    pub path: String,
    /// Lowercase hexadecimal SHA-256 digest of the saved bytes.
    pub sha256: String,
}

impl ReportSource {
    /// The source of a saved report: its path and the digest of its bytes.
    pub fn new(path: String, bytes: &[u8]) -> (r: ReportSource)
        ensures
            r.path@ == path@,
            r.sha256@ == sha256_hex(bytes@),
    {
        ReportSource { path, sha256: sha256_hex_of(bytes) }
    }
}

/// How many rule results hold each outcome, by outcome name.
#[derive(Debug)]
pub struct RuleCounts {
    pub error: usize,
    pub failed: usize,
    pub migration_required: usize,
    pub not_applicable: usize,
    pub passed: usize,
    pub unverified: usize,
}

/// The number of rule results with outcome `o`.
pub open spec fn count_outcome(rules: Seq<RuleResult>, o: Outcome) -> nat
    decreases rules.len(),
{
    if rules.len() == 0 {
        0
    } else {
        count_outcome(rules.drop_last(), o) + (if rules.last().outcome == o { 1nat } else { 0nat })
    }
}

pub open spec fn counts_ok(c: RuleCounts, rules: Seq<RuleResult>) -> bool {
    &&& c.error == count_outcome(rules, Outcome::Error)
    &&& c.failed == count_outcome(rules, Outcome::Failed)
    &&& c.migration_required == count_outcome(rules, Outcome::MigrationRequired)
    &&& c.not_applicable == count_outcome(rules, Outcome::NotApplicable)
    &&& c.passed == count_outcome(rules, Outcome::Passed)
    &&& c.unverified == count_outcome(rules, Outcome::Unverified)
}

proof fn lemma_count_bounded(rules: Seq<RuleResult>, o: Outcome)
    ensures
        count_outcome(rules, o) <= rules.len(),
    decreases rules.len(),
{
    if rules.len() > 0 {
        lemma_count_bounded(rules.drop_last(), o);
    }
}

/// Every rule result is counted under exactly one outcome: the six counts
/// add up to the number of rule results.
pub proof fn lemma_counts_cover_every_rule(rules: Seq<RuleResult>)
    ensures
        count_outcome(rules, Outcome::Error) + count_outcome(rules, Outcome::Failed)
            + count_outcome(rules, Outcome::MigrationRequired) + count_outcome(rules, Outcome::NotApplicable)
            + count_outcome(rules, Outcome::Passed) + count_outcome(rules, Outcome::Unverified) == rules.len(),
    decreases rules.len(),
{
    if rules.len() > 0 {
        lemma_counts_cover_every_rule(rules.drop_last());
    }
}

fn count_outcomes(rules: &[RuleResult]) -> (r: RuleCounts)
    ensures
        counts_ok(r, rules@),
{
    let mut c = RuleCounts { error: 0, failed: 0, migration_required: 0, not_applicable: 0, passed: 0, unverified: 0 };
    let mut i: usize = 0;
    assert(rules@.subrange(0, 0) =~= Seq::<RuleResult>::empty());
    while i < rules.len()
        invariant
            i <= rules@.len(),
            counts_ok(c, rules@.subrange(0, i as int)),
        decreases rules.len() - i,
    {
        let ghost before = rules@.subrange(0, i as int);
        let ghost after = rules@.subrange(0, i + 1);
        assert(after.drop_last() =~= before);
        assert(after.last() == rules@[i as int]);
        proof {
            lemma_count_bounded(before, rules@[i as int].outcome);
        }
        match rules[i].outcome {
            Outcome::Error => c.error = c.error + 1,
            Outcome::Failed => c.failed = c.failed + 1,
            Outcome::MigrationRequired => c.migration_required = c.migration_required + 1,
            Outcome::NotApplicable => c.not_applicable = c.not_applicable + 1,
            Outcome::Passed => c.passed = c.passed + 1,
            Outcome::Unverified => c.unverified = c.unverified + 1,
        }
        i = i + 1;
    }
    assert(rules@.subrange(0, rules@.len() as int) =~= rules@);
    c
}

/// An excerpt of an optional text, present exactly when the text is.
pub open spec fn excerpt_opt(e: Option<Excerpt>, text: Option<String>) -> bool {
    match (e, text) {
        (None, None) => true,
        (Some(x), Some(t)) => excerpt_of(x, t@),
        _ => false,
    }
}

fn excerpt_of_opt(text: &Option<String>) -> (r: Option<Excerpt>)
    ensures
        excerpt_opt(r, *text),
{
    match text {
        Some(t) => Some(Excerpt::new(t.as_str())),
        None => None,
    }
}

/// A rule result that does not satisfy a required rule, as the summary
/// shows it, with a pointer into the full report.
#[derive(Debug)]
pub struct RuleFinding {
    pub rule_id: String,
    pub outcome: Outcome,
    pub diagnostic: Option<Excerpt>,
    pub source_pointer: String,
}

/// Indices, in order, of the first `n` rule results that do not satisfy a
/// required rule.
pub open spec fn unsatisfied(rules: Seq<RuleResult>, n: int) -> Seq<int>
    decreases n,
{
    if n <= 0 {
        Seq::empty()
    } else {
        let p = unsatisfied(rules, n - 1);
        if !rules[n - 1].outcome.satisfies() {
            p.push(n - 1)
        } else {
            p
        }
    }
}

pub open spec fn finding_ok(f: RuleFinding, r: RuleResult, i: int) -> bool {
    &&& f.rule_id@ == r.rule_id@
    &&& f.outcome == r.outcome
    &&& excerpt_opt(f.diagnostic, r.diagnostic)
    &&& f.source_pointer@ == "/rules/"@ + decimal(i as nat)
}

/// One finding for each rule result that does not satisfy a required rule,
/// in report order.
pub open spec fn findings_ok(findings: Seq<RuleFinding>, rules: Seq<RuleResult>) -> bool {
    let idx = unsatisfied(rules, rules.len() as int);
    &&& findings.len() == idx.len()
    &&& forall|k: int| 0 <= k < findings.len() ==> finding_ok(#[trigger] findings[k], rules[idx[k]], idx[k])
}

fn findings_of(rules: &[RuleResult]) -> (r: Vec<RuleFinding>)
    ensures
        findings_ok(r@, rules@),
{
    let mut out: Vec<RuleFinding> = Vec::new();
    let mut i: usize = 0;
    while i < rules.len()
        invariant
            i <= rules@.len(),
            out@.len() == unsatisfied(rules@, i as int).len(),
            forall|k: int| 0 <= k < out@.len() ==> finding_ok(#[trigger] out@[k], rules@[unsatisfied(rules@, i as int)[k]],
                unsatisfied(rules@, i as int)[k]),
        decreases rules.len() - i,
    {
        let r = &rules[i];
        if !r.outcome.satisfies_required_rule() {
            let number = decimal_text(i as u64);
            let f = RuleFinding {
                rule_id: copy_string(&r.rule_id),
                outcome: r.outcome,
                diagnostic: excerpt_of_opt(&r.diagnostic),
                source_pointer: joined("/rules/", number.as_str()),
            };
            out.push(f);
        }
        i = i + 1;
    }
    out
}

/// One check as the summary shows it; its output only where it fell short.
#[derive(Debug)]
pub struct CheckSummary {
    pub id: String,
    pub kind: CheckKind,
    pub blocking: bool,
    pub gates: Vec<Gate>,
    pub outcome: Outcome,
    pub summary: Excerpt,
    pub duration_ms: Option<u64>,
    pub stdout: Option<Excerpt>,
    pub stderr: Option<Excerpt>,
    pub source_pointer: String,
}

/// Output shown as an excerpt where it is to be shown, left out otherwise.
pub open spec fn shown_output(e: Option<Excerpt>, text: Option<String>, shown: bool) -> bool {
    if shown {
        excerpt_opt(e, text)
    } else {
        e is None
    }
}

pub open spec fn check_summary_ok(s: CheckSummary, c: CheckResult, i: int) -> bool {
    &&& s.id@ == c.id@
    &&& s.kind == c.kind
    &&& s.blocking == c.blocking
    &&& s.gates@ == c.gates@
    &&& s.outcome == c.outcome
    &&& excerpt_of(s.summary, c.summary@)
    &&& s.duration_ms == c.duration_ms
    &&& shown_output(s.stdout, c.stdout, !c.outcome.satisfies())
    &&& shown_output(s.stderr, c.stderr, !c.outcome.satisfies())
    &&& s.source_pointer@ == "/checks/"@ + decimal(i as nat)
}

fn copy_gates(gates: &Vec<Gate>) -> (r: Vec<Gate>)
    ensures
        r@ == gates@,
{
    let mut out: Vec<Gate> = Vec::new();
    let mut i: usize = 0;
    while i < gates.len()
        invariant
            i <= gates@.len(),
            out@ == gates@.subrange(0, i as int),
        decreases gates.len() - i,
    {
        out.push(gates[i]);
        assert(gates@.subrange(0, i + 1) =~= gates@.subrange(0, i as int).push(gates@[i as int]));
        i = i + 1;
    }
    assert(gates@.subrange(0, gates@.len() as int) =~= gates@);
    out
}

fn summarize_check(c: &CheckResult, i: usize) -> (r: CheckSummary)
    ensures
        check_summary_ok(r, *c, i as int),
{
    let show = !c.outcome.satisfies_required_rule();
    let number = decimal_text(i as u64);
    CheckSummary {
        id: copy_string(&c.id),
        kind: c.kind,
        blocking: c.blocking,
        gates: copy_gates(&c.gates),
        outcome: c.outcome,
        summary: Excerpt::new(c.summary.as_str()),
        duration_ms: c.duration_ms,
        stdout: if show { excerpt_of_opt(&c.stdout) } else { None },
        stderr: if show { excerpt_of_opt(&c.stderr) } else { None },
        source_pointer: joined("/checks/", number.as_str()),
    }
}

fn summarize_checks(checks: &[CheckResult]) -> (r: Vec<CheckSummary>)
    ensures
        r@.len() == checks@.len(),
        forall|k: int| 0 <= k < checks@.len() ==> check_summary_ok(#[trigger] r@[k], checks@[k], k),
{
    let mut out: Vec<CheckSummary> = Vec::new();
    let mut i: usize = 0;
    while i < checks.len()
        invariant
            i <= checks@.len(),
            out@.len() == i,
            forall|k: int| 0 <= k < i ==> check_summary_ok(#[trigger] out@[k], checks@[k], k),
        decreases checks.len() - i,
    {
        out.push(summarize_check(&checks[i], i));
        i = i + 1;
    }
    out
}

fn copy_texts(v: &Vec<String>) -> (r: Vec<String>)
    ensures
        texts(r@) == texts(v@),
{
    let mut out: Vec<String> = Vec::new();
    let mut i: usize = 0;
    while i < v.len()
        invariant
            i <= v@.len(),
            out@.len() == i,
            forall|k: int| 0 <= k < i ==> (#[trigger] out@[k])@ == v@[k]@,
        decreases v.len() - i,
    {
        out.push(copy_string(&v[i]));
        i = i + 1;
    }
    assert(texts(out@) =~= texts(v@));
    out
}

fn copy_verdicts(gates: &Vec<GateVerdict>) -> (r: Vec<GateVerdict>)
    ensures
        r@.len() == gates@.len(),
        forall|k: int| 0 <= k < gates@.len() ==> same_verdict(#[trigger] r@[k], gates@[k]),
{
    let mut out: Vec<GateVerdict> = Vec::new();
    let mut i: usize = 0;
    while i < gates.len()
        invariant
            i <= gates@.len(),
            out@.len() == i,
            forall|k: int| 0 <= k < i ==> same_verdict(#[trigger] out@[k], gates@[k]),
        decreases gates.len() - i,
    {
        let g = &gates[i];
        out.push(GateVerdict {
            gate: g.gate,
            verdict: g.verdict,
            blocking_rules: copy_texts(&g.blocking_rules),
            blocking_checks: copy_texts(&g.blocking_checks),
        });
        i = i + 1;
    }
    out
}

/// The compact summary of a saved, validated report.
#[derive(Debug)]
pub struct ReportSummary {
    pub schema: u32,
    pub kind: String,
    pub catalog_version: u32,
    pub subject: String,
    pub evaluated_at: u64,
    /// The stage a saved report was evaluated at is not recorded in it.
    pub stage: Option<String>,
    pub freshness: String,
    pub full_report: ReportSource,
    pub gates: Vec<GateVerdict>,
    pub rule_counts: RuleCounts,
    pub findings: Vec<RuleFinding>,
    pub checks: Vec<CheckSummary>,
}

pub open spec fn freshness_text() -> Seq<char> {
    "saved_evaluation_only; not revalidated against current project or remote state"@
}

/// The summary of a report: its identity, the recorded gates, outcome
/// counts, a finding per unsatisfied rule and a summary per check.
pub open spec fn summary_ok(s: ReportSummary, report: CheckReport, source: ReportSource) -> bool {
    &&& s.schema == 1
    &&& s.kind@ == "check_summary"@
    &&& s.catalog_version == report.catalog_version
    &&& s.subject@ == report.subject@
    &&& s.evaluated_at == report.evaluated_at
    &&& s.stage is None
    &&& s.freshness@ == freshness_text()
    &&& s.full_report == source
    &&& s.gates@.len() == report.gates@.len()
    &&& (forall|k: int| 0 <= k < report.gates@.len() ==> same_verdict(#[trigger] s.gates@[k], report.gates@[k]))
    &&& counts_ok(s.rule_counts, report.rules@)
    &&& findings_ok(s.findings@, report.rules@)
    &&& s.checks@.len() == report.checks@.len()
    &&& forall|k: int| 0 <= k < report.checks@.len() ==> check_summary_ok(#[trigger] s.checks@[k], report.checks@[k], k)
}

/// A read-only projection of a saved report, made only after the report has
/// been validated against the catalog; the full report stays authoritative.
pub fn project_report(report: &CheckReport, catalog: &RuleCatalog, source: ReportSource) -> (r: Result<ReportSummary, ReportError>)
    ensures
        match r {
            Ok(s) => report_check(*report, *catalog) is Ok && summary_ok(s, *report, source),
            Err(e) => report_check(*report, *catalog) == Err::<(), ReportError>(e),
        },
{
    match validate_report(report, catalog) {
        Err(e) => Err(e),
        Ok(()) => Ok(ReportSummary {
            schema: 1,
            kind: owned("check_summary"),
            catalog_version: report.catalog_version,
            subject: copy_string(&report.subject),
            evaluated_at: report.evaluated_at,
            stage: None,
            freshness: owned("saved_evaluation_only; not revalidated against current project or remote state"),
            full_report: source,
            gates: copy_verdicts(&report.gates),
            rule_counts: count_outcomes(report.rules.as_slice()),
            findings: findings_of(report.rules.as_slice()),
            checks: summarize_checks(report.checks.as_slice()),
        }),
    }
}

/// Whether every recorded gate of a report passed.
pub fn all_gates_passed(gates: &[GateVerdict]) -> (r: bool)
    ensures
        r == forall|k: int| 0 <= k < gates@.len() ==> (#[trigger] gates@[k]).verdict == AggregateVerdict::Passed,
{
    let mut i: usize = 0;
    while i < gates.len()
        invariant
            i <= gates@.len(),
            forall|k: int| 0 <= k < i ==> (#[trigger] gates@[k]).verdict == AggregateVerdict::Passed,
        decreases gates.len() - i,
    {
        if gates[i].verdict != AggregateVerdict::Passed {
            return false;
        }
        i = i + 1;
    }
    true
}

proof fn lemma_unsatisfied_members(rules: Seq<RuleResult>, n: int)
    requires
        0 <= n <= rules.len(),
    ensures
        forall|j: int| 0 <= j < unsatisfied(rules, n).len() ==> 0 <= #[trigger] unsatisfied(rules, n)[j] < n
            && !rules[unsatisfied(rules, n)[j]].outcome.satisfies(),
        forall|k: int| 0 <= k < n && !(#[trigger] rules[k]).outcome.satisfies() ==> exists|j: int|
            0 <= j < unsatisfied(rules, n).len() && unsatisfied(rules, n)[j] == k,
    decreases n,
{
    if n > 0 {
        lemma_unsatisfied_members(rules, n - 1);
        let p = unsatisfied(rules, n - 1);
        let q = unsatisfied(rules, n);
        assert forall|k: int| 0 <= k < n && !(#[trigger] rules[k]).outcome.satisfies() implies exists|j: int|
            0 <= j < q.len() && q[j] == k by {
            if k == n - 1 {
                assert(q[q.len() - 1] == k);
            } else {
                let j = choose|j: int| 0 <= j < p.len() && p[j] == k;
                assert(q[j] == k);
            }
        }
    }
}

/// A summary hides no shortfall: the findings name exactly the rule results
/// that do not satisfy a required rule, each once, with its outcome.
pub proof fn lemma_findings_are_exactly_the_unsatisfied_rules(findings: Seq<RuleFinding>, rules: Seq<RuleResult>)
    requires
        findings_ok(findings, rules),
    ensures
        forall|k: int| 0 <= k < rules.len() && !(#[trigger] rules[k]).outcome.satisfies() ==> exists|j: int|
            0 <= j < findings.len() && findings[j].rule_id@ == rules[k].rule_id@ && findings[j].outcome == rules[k].outcome
            && findings[j].source_pointer@ == "/rules/"@ + decimal(k as nat),
        forall|j: int| 0 <= j < findings.len() ==> !(#[trigger] findings[j]).outcome.satisfies(),
{
    let n = rules.len() as int;
    lemma_unsatisfied_members(rules, n);
    let idx = unsatisfied(rules, n);
    assert forall|k: int| 0 <= k < rules.len() && !(#[trigger] rules[k]).outcome.satisfies() implies exists|j: int|
        0 <= j < findings.len() && findings[j].rule_id@ == rules[k].rule_id@ && findings[j].outcome == rules[k].outcome
        && findings[j].source_pointer@ == "/rules/"@ + decimal(k as nat) by {
        let j = choose|j: int| 0 <= j < idx.len() && idx[j] == k;
        assert(finding_ok(findings[j], rules[idx[j]], idx[j]));
    }
    assert forall|j: int| 0 <= j < findings.len() implies !(#[trigger] findings[j]).outcome.satisfies() by {
        assert(finding_ok(findings[j], rules[idx[j]], idx[j]));
        assert(0 <= idx[j] < n);
    }
}

/// A saved report that validation accepts records strict verdicts: each gate
/// passed exactly when every rule result feeding it and every blocking check
/// feeding it satisfies a required rule.
pub proof fn lemma_accepted_reports_have_strict_gates(report: CheckReport, catalog: RuleCatalog, k: int)
    requires
        report_check(report, catalog) is Ok,
        0 <= k < 4,
    ensures
        report.gates@[k].gate == gate_order()[k],
        report.gates@[k].verdict == AggregateVerdict::Passed <==> (
            (forall|i: int| 0 <= i < catalog.rules@.len() && (#[trigger] catalog.rules@[i]).gates@.contains(gate_order()[k])
                ==> report.rules@[i].outcome.satisfies())
            && (forall|j: int| 0 <= j < report.checks@.len() && (#[trigger] report.checks@[j]).blocking
                && report.checks@[j].gates@.contains(gate_order()[k]) ==> report.checks@[j].outcome.satisfies())),
{
    assert(gate_ok(report.gates@[k], catalog.rules@, report.rules@, report.checks@, gate_order()[k]));
    crate::evaluator::lemma_gate_passes_iff_nothing_blocks(report.gates@[k], catalog.rules@, report.rules@,
        report.checks@, gate_order()[k]);
}

} // verus!
