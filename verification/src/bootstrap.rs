//! Managed guidance sections in a project's agent instruction files. Text
//! outside the OpDev markers belongs to the project and is preserved.
use vstd::prelude::*;
use crate::text::{
    chars_of, find_all, is_whitespace, owned, positions, replace_newlines, replace_newlines_exec,
    same_text, split_by, string_of, trim_end, trim_line_ends, trim_line_ends_exec, trim_start,
    trimmed, copy_string, lemma_trim_start, lemma_trim_end, occurs_at, lemma_positions, lemma_single_position,
    lemma_no_position, lemma_occurs_in_prefix,
};

verus! {

pub const START_MARKER: &'static str = "<!-- opdev:start -->";

pub const END_MARKER: &'static str = "<!-- opdev:end -->";

/// The managed protocol section of `AGENTS.md`.
pub const AGENTS_BLOCK: &'static str = r#"<!-- opdev:start -->
## OpDev development protocol

This repository is initialized for OpDev. Apply this protocol seamlessly to every software-development task; do not ask whether to use it. `.opdev/project.yaml` is the machine-readable project contract and the starting point for finding project-specific commands, authorities, risks, tests, delivery requirements, assurance profiles, and context routes. Do not assume that design or operational material lives in a conventional `docs/` directory. Existing authority locations take precedence over folder defaults. Treat non-OpDev folders as project-owned; do not create, move, overwrite, or repurpose their contents merely to match a convention. Record reviewed locations in the project contract.

If the `opdev` CLI or required OpDev agent integration is unavailable, tell the user before substantive development begins and offer to install it. Do not silently replace OpDev with an improvised process. You may continue only when the user chooses to proceed without it or the current task does not require the unavailable capability.

For every planning objective, including roadmaps, task breakdowns, prioritization and "what is the next step?", use the OpDev planning guidance. Honor explicit user scope, constraints and requested order. Otherwise prefer the next thin, demonstrable consumer outcome over completing whole technical layers; keep later increments provisional. Bound enabling work by its supported outcome, uncertainty and exit evidence. Include acceptance tests, feedback and applicable delivery/recovery within each increment, and replan from evidence. Advice does not authorize implementation or tracker writes. Keep planning facts in existing authorities; no extra project document is required.

For each development task:

For initialization or conversion to OpDev, follow the adoption guidance: assess every supplied practice, preserve adequate existing choices, research only unresolved project-specific gaps, and record reviewed dispositions in `.opdev/adoption.yaml`. Pending work is not complete adoption; only optional practices may be explicitly ignored, and no disposition waives core requirements. Use `opdev adoption check` on a capable CLI before claiming completion. Existing projects without a record require explicit assessment adoption; ordinary tasks reuse decisions and do not restart setup or research.

Adoption requests authorize assessment, not policy selection. Present preserve/change/ignore/unresolved choices and wait for an actual developer response or explicit bounded delegation; never infer approval from an owner label or invoke approval commands to manufacture consent. Offer retaining a non-main trunk name or renaming it to main, while separately resolving multi-branch integration/release workflows. Assess applicability from capabilities, not missing configuration or a project-kind label. Report scaffolding, approval, implementation and verification separately; green integration CI does not establish completed adoption or delivery readiness. Use one adoption work item unless separate issues are approved or independently owned work requires them.

1. Read `.opdev/project.yaml` before planning or editing. Load the authorities listed by `context.always` and the authorities in every route relevant to the task. Treat those sources as project facts; resolve contradictions explicitly instead of guessing.
2. Identify the intended outcome, acceptance evidence, affected consumers, and applicable quality risks. Use the project work authority for active decisions and progress when one is declared.
3. Keep design effort proportional to risk, reversibility, novelty, and blast radius. Record durable decisions in the declared decision or architecture authority when the project contract routes the task there.
4. Implement in small, reviewable increments that preserve delivered behavior except where the accepted change intentionally modifies it. Integrate with the declared trunk frequently and keep branches short-lived.
5. Add or update automated tests for behavioral changes. Add regression protection for escaped defects unless a specific justification is recorded. Exercise the suites declared for the relevant stage both before and after integration. Keep retries visible; quarantines require an owner, tracked remediation, and an expiry. Use coverage as risk evidence, not as a substitute for meaningful assertions.
6. Run canonical commands from `commands` as argument vectors in their declared working directories. Do not reinterpret them through a shell or substitute a different command without reporting the difference. Project extensions may add checks but may not weaken, replace, or mark core requirements satisfied.
7. When a rule needs evidence that automation cannot infer, record only reviewable facts in `.opdev/evidence.yaml`. For a new ledger, stage all material files and use the schema-backed `opdev evidence bootstrap` review flow: every decision begins as `review_required`, durable project facts stay separate from fingerprint-bound change facts, and the CLI writes only after explicit review. For direct maintenance, obtain the fingerprint with `opdev evidence fingerprint` and bind change assertions to that exact staged state. Never copy forward an assertion whose evidence was not rechecked; future repository states intentionally invalidate it.
8. Report outcomes using OpDev semantics: `passed`, `failed`, `unverified`, `not_applicable`, `error`, or `migration_required`. Only `passed` and justified `not_applicable` satisfy a required rule. Missing evidence is `unverified`, not a pass. Tooling failure is `error`, not a product failure. Do not claim a gate passed when a required rule has another outcome.

MinimumCD requirements are mandatory. Every change is version controlled and delivered through CI; CI is the exclusive delivery path. Use one integration trunk, stop delivery when it is red, and restore it as the highest priority. Build a deployable artifact once, identify it immutably, and promote that same artifact rather than rebuilding. Qualify in a production-like environment when the project has runtime environments. Keep configuration versioned and tested while externalizing environment-specific values. Delivery must have a single consumer-facing path and an automated, tested recovery strategy appropriate to the software. Preserve or deliberately migrate already-delivered behavior.

For experimental work, separate integration from activation and distinguish not enabled from not shipped. Use the OpDev experiment guidance and existing work authority to record ownership, review date, decision criteria, isolation, stable defaults, supported configuration tests, recovery, and cleanup. Test stable and supported experimental configurations before and after integration; qualify each distributed artifact variant independently. Review overdue experiments and remove temporary machinery or deliberately adopt a supported permanent option. Experiments never waive core gates; ordinary changes need no experiment record.

Before declaring work complete, reconcile implementation, tests, project authorities, delivery behavior, and tracked work. Run the applicable canonical checks and provide concise evidence, including anything not run or still requiring migration. Never hide a failing or unverified requirement behind a summary success statement.
<!-- opdev:end -->"#;

/// The managed section of the second guidance file: it imports the first.
pub const CLAUDE_BLOCK: &'static str = r"<!-- opdev:start -->
@AGENTS.md
<!-- opdev:end -->";

/// How reconciliation affects one managed file.
#[derive(Clone, Copy, Debug, PartialEq, Eq, Structural)]
pub enum FileChange {
    /// A new file is created.
    Created,
    /// An existing managed block is updated.
    Updated,
    /// The current file already contains the desired guidance.
    Unchanged,
}

/// Reconciliation result for one project-level agent instruction file.
#[derive(Debug)]
pub struct ManagedFile {
    /// File path.
    pub path: String,
    /// Resulting change.
    pub change: FileChange,
}

/// Read-only candidate for a managed guidance file.
#[derive(Debug)]
pub struct AgentFilePreview {
    /// Reconciliation metadata.
    pub file: ManagedFile,
    /// Exact existing contents, or absence.
    pub before: Option<String>,
    /// Proposed complete contents, including preserved project text.
    pub after: String,
}

/// Why agent instructions cannot be reconciled.
#[derive(Debug)]
pub enum BootstrapError {
    /// A linked or non-regular file is not a safe managed-write target.
    UnsafeTarget { path: String },
    /// A file changed after inspection; nothing may overwrite the new state.
    StalePreview { path: String },
    /// An instruction file could not be read.
    Read { path: String, reason: String },
    /// An instruction file could not be written.
    Write { path: String, reason: String },
    /// Existing marker structure is ambiguous and cannot be edited safely.
    MalformedMarkers { path: String },
}

pub open spec fn start_marker() -> Seq<char> {
    "<!-- opdev:start -->"@
}

pub open spec fn end_marker() -> Seq<char> {
    "<!-- opdev:end -->"@
}

pub open spec fn crlf() -> Seq<char> {
    "\r\n"@
}

/// The line ending a text uses: `\r\n` if it contains one, else `\n`.
pub open spec fn newline_of(content: Seq<char>) -> Seq<char> {
    if positions(content, crlf()).len() > 0 {
        crlf()
    } else {
        "\n"@
    }
}

/// The line ending a text uses.
pub fn newline_style(content: &str) -> (r: &'static str)
    ensures
        r@ == newline_of(content@),
{
    proof {
        reveal_strlit("\r\n");
        reveal_strlit("\n");
    }
    let c = chars_of(content);
    let p = chars_of("\r\n");
    let found = find_all(&c, &p);
    if found.len() > 0 {
        "\r\n"
    } else {
        "\n"
    }
}

/// The text with its managed block replaced, or the block appended after a
/// blank line if there is none; `None` when the markers are malformed or
/// repeated.
pub open spec fn replaced_or_appended(content: Seq<char>, block: Seq<char>) -> Option<Seq<char>> {
    let starts = positions(content, start_marker());
    let ends = positions(content, end_marker());
    let nl = newline_of(content);
    let b = replace_newlines(block, nl);
    if starts.len() == 0 && ends.len() == 0 {
        let t = trim_line_ends(content);
        if t.len() == 0 {
            Some(b + nl)
        } else {
            Some(t + nl + nl + b + nl)
        }
    } else if starts.len() == 1 && ends.len() == 1 && starts[0] < ends[0] {
        Some(content.subrange(0, starts[0]) + b + content.subrange(ends[0] + end_marker().len(), content.len() as int))
    } else {
        None
    }
}

fn chars_text(v: &Vec<char>, from: usize, to: usize) -> (r: String)
    requires
        from <= to <= v@.len(),
    ensures
        r@ == v@.subrange(from as int, to as int),
{
    let mut part: Vec<char> = Vec::new();
    let mut i = from;
    while i < to
        invariant
            from <= i <= to,
            to <= v@.len(),
            part@ == v@.subrange(from as int, i as int),
        decreases to - i,
    {
        part.push(v[i]);
        assert(v@.subrange(from as int, i + 1) =~= v@.subrange(from as int, i as int).push(v@[i as int]));
        i = i + 1;
    }
    string_of(part.as_slice())
}

/// Replaces the one managed block, or appends one if there is none; the
/// newline style of the file is kept and the rest of the text is preserved.
pub fn replace_or_append_block(path: &str, content: &str, desired_block: &str) -> (r: Result<String, BootstrapError>)
    ensures
        match replaced_or_appended(content@, desired_block@) {
            Some(next) => r matches Ok(s) && s@ == next,
            None => r matches Err(BootstrapError::MalformedMarkers { path: p }) && p@ == path@,
        },
{
    proof {
        reveal_strlit("<!-- opdev:start -->");
        reveal_strlit("<!-- opdev:end -->");
    }
    let c = chars_of(content);
    let start = chars_of(START_MARKER);
    let end = chars_of(END_MARKER);
    let starts = find_all(&c, &start);
    let ends = find_all(&c, &end);
    let nl = newline_style(content);
    let nl_chars = chars_of(nl);
    let block_chars = chars_of(desired_block);
    let block = replace_newlines_exec(&block_chars, &nl_chars);
    if starts.len() == 0 && ends.len() == 0 {
        let n = trim_line_ends_exec(&c);
        let mut next = chars_text(&c, 0, n);
        if n == 0 {
            let mut out = string_of(block.as_slice());
            out.append(nl);
            proof { assert(next@.len() == 0); }
            return Ok(out);
        }
        next.append(nl);
        next.append(nl);
        let b = string_of(block.as_slice());
        next.append(b.as_str());
        next.append(nl);
        Ok(next)
    } else if starts.len() == 1 && ends.len() == 1 && starts[0] < ends[0] {
        proof {
            lemma_positions_fit(c@, end@, 0);
            lemma_positions_fit(c@, start@, 0);
            assert(ends@[0] as int == positions(c@, end@)[0]);
            assert(starts@[0] as int == positions(c@, start@)[0]);
            assert(ends@[0] + end@.len() <= c@.len());
            assert(end@.len() == end.len());
            assert(c@.len() == c.len());
        }
        let total = c.len();
        let first_end = ends[0];
        assert(first_end + end.len() <= total);
        let cut = first_end + end.len();
        let mut next = chars_text(&c, 0, starts[0]);
        let b = string_of(block.as_slice());
        next.append(b.as_str());
        let tail = chars_text(&c, cut, c.len());
        next.append(tail.as_str());
        Ok(next)
    } else {
        Err(BootstrapError::MalformedMarkers { path: owned(path) })
    }
}

/// Every recorded position leaves room for the pattern.
pub proof fn lemma_positions_fit(s: Seq<char>, p: Seq<char>, k: int)
    requires
        0 <= k < positions(s, p).len(),
    ensures
        0 <= positions(s, p)[k],
        positions(s, p)[k] + p.len() <= s.len(),
    decreases s.len(),
{
    let earlier = positions(s.drop_last(), p);
    if k < earlier.len() {
        lemma_positions_fit(s.drop_last(), p, k);
    }
}

pub open spec fn import_line() -> Seq<char> {
    "@AGENTS.md"@
}

/// Whether some line, once trimmed, is exactly the `AGENTS.md` import.
pub open spec fn has_import(content: Seq<char>) -> bool {
    exists|k: int| 0 <= k < split_by(content, '\n').len() && trimmed(#[trigger] split_by(content, '\n')[k]) == import_line()
}

/// The contents a managed file should have, and how it changes; `None`
/// when its markers are malformed.
pub open spec fn planned(existing: Option<Seq<char>>, block: Seq<char>, accept_import: bool) -> Option<(Seq<char>, FileChange)> {
    match existing {
        None => Some((block + "\n"@, FileChange::Created)),
        Some(c) => if accept_import && positions(c, start_marker()).len() == 0 && positions(c, end_marker()).len() == 0 && has_import(c) {
            Some((c, FileChange::Unchanged))
        } else {
            match replaced_or_appended(c, block) {
                None => None,
                Some(n) => Some((n, if n == c { FileChange::Unchanged } else { FileChange::Updated })),
            }
        },
    }
}

pub open spec fn opt_text(o: Option<String>) -> Option<Seq<char>> {
    match o {
        Some(s) => Some(s@),
        None => None,
    }
}


proof fn lemma_split_nonempty(s: Seq<char>, sep: char)
    ensures
        split_by(s, sep).len() >= 1,
    decreases s.len(),
{
    if s.len() > 0 {
        lemma_split_nonempty(s.drop_last(), sep);
    }
}

/// A line completed within a prefix is a line of the whole text.
proof fn lemma_split_prefix(s: Seq<char>, sep: char, n: int, k: int)
    requires
        0 <= n <= s.len(),
        0 <= k < split_by(s.subrange(0, n), sep).len() - 1,
    ensures
        k < split_by(s, sep).len(),
        split_by(s, sep)[k] == split_by(s.subrange(0, n), sep)[k],
    decreases s.len() - n,
{
    lemma_split_nonempty(s.subrange(0, n), sep);
    if n < s.len() {
        let next = s.subrange(0, n + 1);
        assert(next.drop_last() =~= s.subrange(0, n));
        assert(split_by(next, sep)[k] == split_by(s.subrange(0, n), sep)[k]);
        lemma_split_prefix(s, sep, n + 1, k);
    } else {
        assert(s.subrange(0, n) =~= s);
    }
}

/// Whether a line, once trimmed, is exactly `target`.
fn trimmed_is(line: &Vec<char>, target: &Vec<char>) -> (r: bool)
    ensures
        r == (trimmed(line@) == target@),
{
    let mut a: usize = 0;
    while a < line.len() && crate::text::char_is_whitespace(line[a])
        invariant
            a <= line@.len(),
            forall|i: int| 0 <= i < a ==> is_whitespace(#[trigger] line@[i]),
        decreases line.len() - a,
    {
        a = a + 1;
    }
    proof { lemma_trim_start(line@, a as int); }
    let ghost t = line@.skip(a as int);
    let mut b: usize = line.len();
    while b > a && crate::text::char_is_whitespace(line[b - 1])
        invariant
            a <= b <= line@.len(),
            t == line@.skip(a as int),
            forall|i: int| b - a <= i < t.len() ==> is_whitespace(#[trigger] t[i]),
        decreases b,
    {
        assert(t[b - 1 - a] == line@[b - 1]);
        b = b - 1;
    }
    proof {
        if b > a {
            assert(t[b - a - 1] == line@[b - 1]);
        }
        lemma_trim_end(t, (b - a) as int);
    }
    if b - a != target.len() {
        assert(t.take((b - a) as int).len() != target@.len());
        return false;
    }
    let mut k: usize = 0;
    while k < target.len()
        invariant
            a <= b <= line@.len(),
            b - a == target@.len(),
            t == line@.skip(a as int),
            trimmed(line@) == t.take((b - a) as int),
            k <= target@.len(),
            forall|q: int| 0 <= q < k ==> line@[a + q] == target@[q],
        decreases target.len() - k,
    {
        if line[a + k] != target[k] {
            assert(trimmed(line@)[k as int] != target@[k as int]);
            return false;
        }
        k = k + 1;
    }
    assert(trimmed(line@) =~= target@);
    true
}

/// Whether some line of a text, once trimmed, is the `AGENTS.md` import.
fn imports_agents(content: &Vec<char>) -> (r: bool)
    ensures
        r == has_import(content@),
{
    proof { reveal_strlit("@AGENTS.md"); }
    let target = chars_of("@AGENTS.md");
    let mut cur: Vec<char> = Vec::new();
    let mut i: usize = 0;
    proof {
        assert(content@.subrange(0, 0) =~= Seq::<char>::empty());
        assert(cur@ =~= Seq::<char>::empty());
    }
    while i < content.len()
        invariant
            target@ == import_line(),
            i <= content@.len(),
            split_by(content@.subrange(0, i as int), '\n').len() >= 1,
            split_by(content@.subrange(0, i as int), '\n').last() == cur@,
            forall|k: int| 0 <= k < split_by(content@.subrange(0, i as int), '\n').len() - 1
                ==> trimmed(#[trigger] split_by(content@.subrange(0, i as int), '\n')[k]) != import_line(),
        decreases content.len() - i,
    {
        let ghost pre = content@.subrange(0, i as int);
        let ghost next = content@.subrange(0, i + 1);
        assert(next.drop_last() =~= pre);
        assert(next.last() == content@[i as int]);
        if content[i] == '\n' {
            if trimmed_is(&cur, &target) {
                proof {
                    let k = split_by(pre, '\n').len() - 1;
                    assert(split_by(next, '\n')[k] == cur@);
                    lemma_split_prefix(content@, '\n', i + 1, k);
                }
                return true;
            }
            cur = Vec::new();
            proof {
                assert(cur@ =~= Seq::<char>::empty());
                assert forall|k: int| 0 <= k < split_by(next, '\n').len() - 1 implies
                    trimmed(#[trigger] split_by(next, '\n')[k]) != import_line() by {
                    assert(split_by(next, '\n')[k] == split_by(pre, '\n')[k] || k == split_by(pre, '\n').len() - 1);
                }
            }
        } else {
            let ghost before = cur@;
            cur.push(content[i]);
            proof {
                assert forall|k: int| 0 <= k < split_by(next, '\n').len() - 1 implies
                    trimmed(#[trigger] split_by(next, '\n')[k]) != import_line() by {
                    assert(split_by(next, '\n')[k] == split_by(pre, '\n')[k]);
                }
            }
        }
        i = i + 1;
    }
    assert(content@.subrange(0, content@.len() as int) =~= content@);
    let last = trimmed_is(&cur, &target);
    proof {
        let segs = split_by(content@, '\n');
        if !last {
            assert forall|k: int| 0 <= k < segs.len() implies trimmed(#[trigger] segs[k]) != import_line() by {
                if k == segs.len() - 1 {
                    assert(segs[k] == cur@);
                }
            }
        } else {
            assert(trimmed(segs[segs.len() - 1]) == import_line());
        }
    }
    last
}

/// The preview of one managed file from its current contents.
pub fn preview_file(path: &str, existing: Option<String>, desired_block: &str, accept_existing_agents_import: bool) -> (r: Result<AgentFilePreview, BootstrapError>)
    ensures
        match planned(opt_text(existing), desired_block@, accept_existing_agents_import) {
            None => r matches Err(BootstrapError::MalformedMarkers { path: p }) && p@ == path@,
            Some((after, change)) => r matches Ok(v) && v.file.path@ == path@ && v.file.change == change
                && v.before == existing && v.after@ == after,
        },
{
    proof {
        reveal_strlit("\n");
        reveal_strlit("<!-- opdev:start -->");
        reveal_strlit("<!-- opdev:end -->");
    }
    match existing {
        None => {
            let mut next = owned(desired_block);
            next.append("\n");
            Ok(AgentFilePreview { file: ManagedFile { path: owned(path), change: FileChange::Created }, before: None, after: next })
        },
        Some(content) => {
            let c = chars_of(content.as_str());
            let start = chars_of(START_MARKER);
            let end = chars_of(END_MARKER);
            if accept_existing_agents_import && find_all(&c, &start).len() == 0 && find_all(&c, &end).len() == 0 && imports_agents(&c) {
                let after = copy_string(&content);
                return Ok(AgentFilePreview {
                    file: ManagedFile { path: owned(path), change: FileChange::Unchanged },
                    before: Some(content),
                    after,
                });
            }
            let next = match replace_or_append_block(path, content.as_str(), desired_block) {
                Ok(n) => n,
                Err(e) => return Err(e),
            };
            let change = if same_text(next.as_str(), content.as_str()) { FileChange::Unchanged } else { FileChange::Updated };
            Ok(AgentFilePreview { file: ManagedFile { path: owned(path), change }, before: Some(content), after: next })
        },
    }
}

/// The current contents of a managed file, or why it cannot be read safely.
pub type Existing = Result<Option<String>, BootstrapError>;

/// Plans both guidance files before either is written: the first gets the
/// protocol block and the second an import of the first (an existing import
/// line is accepted as is). The first file's failure is reported before the
/// second is considered.
pub fn preview_agent_files(agents_path: &str, agents: Existing, claude_path: &str, claude: Existing) -> (r: Result<Vec<AgentFilePreview>, BootstrapError>)
    ensures
        r matches Ok(v) ==> v@.len() == 2,
        match agents {
            Err(e) => r == Err::<Vec<AgentFilePreview>, BootstrapError>(e),
            Ok(a) => match planned(opt_text(a), AGENTS_BLOCK@, false) {
                None => r matches Err(BootstrapError::MalformedMarkers { path: p }) && p@ == agents_path@,
                Some((after_a, change_a)) => match claude {
                    Err(e) => r == Err::<Vec<AgentFilePreview>, BootstrapError>(e),
                    Ok(c) => match planned(opt_text(c), CLAUDE_BLOCK@, true) {
                        None => r matches Err(BootstrapError::MalformedMarkers { path: p }) && p@ == claude_path@,
                        Some((after_c, change_c)) => r matches Ok(v) && v@.len() == 2
                            && v@[0].file.path@ == agents_path@ && v@[0].file.change == change_a && v@[0].before == a && v@[0].after@ == after_a
                            && v@[1].file.path@ == claude_path@ && v@[1].file.change == change_c && v@[1].before == c && v@[1].after@ == after_c,
                    },
                },
            },
        },
{
    let a = match agents {
        Err(e) => return Err(e),
        Ok(a) => a,
    };
    let first = match preview_file(agents_path, a, AGENTS_BLOCK, false) {
        Ok(p) => p,
        Err(e) => return Err(e),
    };
    let c = match claude {
        Err(e) => return Err(e),
        Ok(c) => c,
    };
    let second = match preview_file(claude_path, c, CLAUDE_BLOCK, true) {
        Ok(p) => p,
        Err(e) => return Err(e),
    };
    let mut out: Vec<AgentFilePreview> = Vec::new();
    out.push(first);
    out.push(second);
    Ok(out)
}

/// A reconciliation ready to apply: both previews, and which of them change
/// a file (created or updated), in order.
#[derive(Debug)]
pub struct Reconciliation {
    pub preview: Vec<AgentFilePreview>,
    pub writes: Vec<usize>,
}

/// Plans the reconciliation of both guidance files: the previews, and the
/// files that must be written; unchanged files are never written.
pub fn reconcile_agent_files(agents_path: &str, agents: Existing, claude_path: &str, claude: Existing) -> (r: Result<Reconciliation, BootstrapError>)
    ensures
        match r {
            Ok(plan) => {
                &&& plan.preview@.len() == 2
                &&& forall|k: int| 0 <= k < plan.writes@.len() ==> plan.writes@[k] < 2
                    && plan.preview@[plan.writes@[k] as int].file.change != FileChange::Unchanged
                &&& forall|i: int| 0 <= i < 2 && plan.preview@[i].file.change != FileChange::Unchanged
                    ==> plan.writes@.contains(i as usize)
                &&& forall|a: int, b: int| 0 <= a < b < plan.writes@.len() ==> plan.writes@[a] < plan.writes@[b]
            },
            Err(_) => true,
        },
        match agents {
            Err(e) => r == Err::<Reconciliation, BootstrapError>(e),
            Ok(a) => match planned(opt_text(a), AGENTS_BLOCK@, false) {
                None => r matches Err(BootstrapError::MalformedMarkers { path: p }) && p@ == agents_path@,
                Some((after_a, change_a)) => match claude {
                    Err(e) => r == Err::<Reconciliation, BootstrapError>(e),
                    Ok(c) => match planned(opt_text(c), CLAUDE_BLOCK@, true) {
                        None => r matches Err(BootstrapError::MalformedMarkers { path: p }) && p@ == claude_path@,
                        Some((after_c, change_c)) => r matches Ok(plan)
                            && plan.preview@[0].file.path@ == agents_path@ && plan.preview@[0].file.change == change_a
                            && plan.preview@[0].before == a && plan.preview@[0].after@ == after_a
                            && plan.preview@[1].file.path@ == claude_path@ && plan.preview@[1].file.change == change_c
                            && plan.preview@[1].before == c && plan.preview@[1].after@ == after_c,
                    },
                },
            },
        },
{
    let preview = match preview_agent_files(agents_path, agents, claude_path, claude) {
        Ok(p) => p,
        Err(e) => return Err(e),
    };
    let mut writes: Vec<usize> = Vec::new();
    if preview[0].file.change != FileChange::Unchanged {
        writes.push(0);
    }
    if preview[1].file.change != FileChange::Unchanged {
        writes.push(1);
    }
    proof {
        assert forall|i: int| 0 <= i < 2 && preview@[i].file.change != FileChange::Unchanged implies writes@.contains(i as usize) by {
            if i == 0 {
                assert(writes@[0] == 0);
            } else {
                assert(writes@[writes@.len() - 1] == 1);
            }
        }
    }
    Ok(Reconciliation { preview, writes })
}

// ---------------------------------------------------------------------------
// Idempotence of the managed block

/// The shape a managed block has: it opens with the start marker, closes
/// with the end marker, holds each marker exactly once, contains a line
/// break and no carriage return.
pub open spec fn block_shape_ok(block: Seq<char>) -> bool {
    &&& block.len() >= start_marker().len() + end_marker().len()
    &&& block.subrange(0, start_marker().len() as int) == start_marker()
    &&& block.subrange(block.len() - end_marker().len(), block.len() as int) == end_marker()
    &&& positions(block, start_marker()).len() == 1
    &&& positions(block, end_marker()).len() == 1
    &&& forall|i: int| 0 <= i < block.len() ==> #[trigger] block[i] != '\r'
    &&& exists|i: int| 0 <= i < block.len() && #[trigger] block[i] == '\n'
}

/// A line ending the library writes.
pub open spec fn is_line_ending(nl: Seq<char>) -> bool {
    nl == "\n"@ || nl == crlf()
}

proof fn lemma_marker_facts()
    ensures
        start_marker().len() == 20,
        end_marker().len() == 18,
        start_marker()[0] == '<',
        end_marker()[0] == '<',
        forall|i: int| 1 <= i < 20 ==> #[trigger] start_marker()[i] != '<',
        forall|i: int| 1 <= i < 18 ==> #[trigger] end_marker()[i] != '<',
        forall|i: int| 0 <= i < 20 ==> #[trigger] start_marker()[i] != '\n' && start_marker()[i] != '\r',
        forall|i: int| 0 <= i < 18 ==> #[trigger] end_marker()[i] != '\n' && end_marker()[i] != '\r',
        start_marker()[11] != end_marker()[11],
        "\n"@.len() == 1,
        "\n"@[0] == '\n',
        crlf().len() == 2,
        crlf()[0] == '\r',
        crlf()[1] == '\n',
{
    reveal_strlit("<!-- opdev:start -->");
    reveal_strlit("<!-- opdev:end -->");
    reveal_strlit("\n");
    reveal_strlit("\r\n");
}

proof fn lemma_replace_concat(x: Seq<char>, y: Seq<char>, nl: Seq<char>)
    ensures
        replace_newlines(x + y, nl) == replace_newlines(x, nl) + replace_newlines(y, nl),
    decreases y.len(),
{
    if y.len() == 0 {
        assert(x + y =~= x);
        assert(replace_newlines(y, nl) =~= Seq::<char>::empty());
        assert(replace_newlines(x, nl) + replace_newlines(y, nl) =~= replace_newlines(x, nl));
    } else {
        assert((x + y).drop_last() =~= x + y.drop_last());
        assert((x + y).last() == y.last());
        lemma_replace_concat(x, y.drop_last(), nl);
        if y.last() == '\n' {
            assert(replace_newlines(x, nl) + replace_newlines(y.drop_last(), nl) + nl
                =~= replace_newlines(x, nl) + (replace_newlines(y.drop_last(), nl) + nl));
        } else {
            assert((replace_newlines(x, nl) + replace_newlines(y.drop_last(), nl)).push(y.last())
                =~= replace_newlines(x, nl) + replace_newlines(y.drop_last(), nl).push(y.last()));
        }
    }
}

proof fn lemma_replace_plain(x: Seq<char>, nl: Seq<char>)
    requires
        forall|i: int| 0 <= i < x.len() ==> #[trigger] x[i] != '\n',
    ensures
        replace_newlines(x, nl) == x,
    decreases x.len(),
{
    if x.len() > 0 {
        assert(x.last() == x[x.len() - 1]);
        lemma_replace_plain(x.drop_last(), nl);
        assert(x.drop_last().push(x.last()) =~= x);
    }
}

/// A character that neither the text nor the line ending holds is not in the result.
proof fn lemma_replace_avoids(x: Seq<char>, nl: Seq<char>, c: char)
    requires
        forall|i: int| 0 <= i < x.len() ==> #[trigger] x[i] != c,
        forall|i: int| 0 <= i < nl.len() ==> #[trigger] nl[i] != c,
    ensures
        forall|i: int| 0 <= i < replace_newlines(x, nl).len() ==> #[trigger] replace_newlines(x, nl)[i] != c,
    decreases x.len(),
{
    if x.len() > 0 {
        assert(x.last() == x[x.len() - 1]);
        lemma_replace_avoids(x.drop_last(), nl, c);
        let r = replace_newlines(x.drop_last(), nl);
        if x.last() == '\n' {
            assert forall|i: int| 0 <= i < (r + nl).len() implies #[trigger] (r + nl)[i] != c by {
                if i >= r.len() {
                    assert((r + nl)[i] == nl[i - r.len()]);
                }
            }
        } else {
            assert forall|i: int| 0 <= i < r.push(x.last()).len() implies #[trigger] r.push(x.last())[i] != c by {
                if i < r.len() {
                    assert(r.push(x.last())[i] == r[i]);
                }
            }
        }
    }
}

/// A line break becomes the line ending somewhere in the result.
proof fn lemma_replace_keeps_ending(x: Seq<char>, nl: Seq<char>, j: int)
    requires
        0 <= j < x.len(),
        x[j] == '\n',
    ensures
        exists|q: int| occurs_at(replace_newlines(x, nl), nl, q),
    decreases x.len(),
{
    if j == x.len() - 1 {
        let r = replace_newlines(x.drop_last(), nl);
        assert((r + nl).subrange(r.len() as int, (r.len() + nl.len()) as int) =~= nl);
        assert(occurs_at(replace_newlines(x, nl), nl, r.len() as int));
    } else {
        lemma_replace_keeps_ending(x.drop_last(), nl, j);
        let r = replace_newlines(x.drop_last(), nl);
        let q = choose|q: int| occurs_at(r, nl, q);
        let full = replace_newlines(x, nl);
        assert(r =~= full.subrange(0, r.len() as int));
        crate::text::lemma_occurs_in_prefix(full, nl, r.len() as int, q);
    }
}

/// Writing `\n` line endings changes nothing.
proof fn lemma_replace_lf_identity(x: Seq<char>)
    ensures
        replace_newlines(x, "\n"@) == x,
    decreases x.len(),
{
    lemma_marker_facts();
    if x.len() > 0 {
        lemma_replace_lf_identity(x.drop_last());
        if x.last() == '\n' {
            assert(x.drop_last() + "\n"@ =~= x);
        } else {
            assert(x.drop_last().push(x.last()) =~= x);
        }
    }
}

/// A tail without line breaks of a text written with `\r\n` endings is the
/// same tail of the text before the endings were written.
proof fn lemma_crlf_plain_tail(x: Seq<char>, k: int)
    requires
        0 <= k <= replace_newlines(x, crlf()).len(),
        forall|i: int| replace_newlines(x, crlf()).len() - k <= i < replace_newlines(x, crlf()).len()
            ==> #[trigger] replace_newlines(x, crlf())[i] != '\n',
    ensures
        k <= x.len(),
        replace_newlines(x, crlf()).subrange(replace_newlines(x, crlf()).len() - k, replace_newlines(x, crlf()).len() as int)
            == x.subrange(x.len() - k, x.len() as int),
    decreases x.len(),
{
    lemma_marker_facts();
    let r = replace_newlines(x, crlf());
    if k == 0 {
        assert(r.subrange(r.len() as int, r.len() as int) =~= x.subrange(x.len() as int, x.len() as int));
    } else if x.len() == 0 {
        assert(r.len() == 0);
    } else {
        let y = x.drop_last();
        let ry = replace_newlines(y, crlf());
        if x.last() == '\n' {
            assert(r == ry + crlf());
            assert(r[r.len() - 1] == crlf()[1]);
        } else {
            assert(r == ry.push(x.last()));
            assert forall|i: int| ry.len() - (k - 1) <= i < ry.len() implies #[trigger] ry[i] != '\n' by {
                assert(ry[i] == r[i]);
            }
            lemma_crlf_plain_tail(y, k - 1);
            assert(r.subrange(r.len() - k, r.len() as int)
                =~= ry.subrange(ry.len() - (k - 1), ry.len() as int).push(x.last()));
            assert(x.subrange(x.len() - k, x.len() as int)
                =~= y.subrange(y.len() - (k - 1), y.len() as int).push(x.last()));
        }
    }
}

/// A text without line breaks or carriage returns that occurs once `\r\n`
/// endings are written already occurred in the text before.
proof fn lemma_crlf_occurrence(x: Seq<char>, p: Seq<char>, q: int)
    requires
        p.len() > 0,
        forall|i: int| 0 <= i < p.len() ==> #[trigger] p[i] != '\n' && p[i] != '\r',
        occurs_at(replace_newlines(x, crlf()), p, q),
    ensures
        exists|j: int| occurs_at(x, p, j),
    decreases x.len(),
{
    lemma_marker_facts();
    let r = replace_newlines(x, crlf());
    if x.len() == 0 {
        assert(r.len() == 0);
    } else {
        let y = x.drop_last();
        let ry = replace_newlines(y, crlf());
        if x.last() == '\n' {
            assert(r == ry + crlf());
        } else {
            assert(r == ry.push(x.last()));
        }
        if q + p.len() <= ry.len() {
            assert(r.subrange(0, ry.len() as int) =~= ry);
            lemma_occurs_in_prefix(r, p, ry.len() as int, q);
            lemma_crlf_occurrence(y, p, q);
            let j = choose|j: int| occurs_at(y, p, j);
            assert(x.subrange(0, y.len() as int) =~= y);
            lemma_occurs_in_prefix(x, p, y.len() as int, j);
        } else if x.last() == '\n' {
            let i = q + p.len() - 1;
            assert(r.subrange(q, q + p.len())[p.len() - 1] == r[i]);
            assert(r[i] == crlf()[i - ry.len()]);
        } else {
            let k = p.len() - 1;
            assert forall|i: int| ry.len() - k <= i < ry.len() implies #[trigger] ry[i] != '\n' by {
                assert(ry[i] == r[i]);
                assert(r[i] == r.subrange(q, q + p.len())[i - q]);
            }
            lemma_crlf_plain_tail(y, k);
            assert(x.subrange(x.len() - p.len(), x.len() as int)
                =~= y.subrange(y.len() - k, y.len() as int).push(x.last()));
            assert(r.subrange(q, q + p.len()) =~= ry.subrange(ry.len() - k, ry.len() as int).push(x.last()));
            assert(occurs_at(x, p, x.len() - p.len()));
        }
    }
}

/// A marker found after the line endings are written was in the text before.
proof fn lemma_marker_in_replaced(x: Seq<char>, nl: Seq<char>, p: Seq<char>, q: int)
    requires
        is_line_ending(nl),
        p == start_marker() || p == end_marker(),
        occurs_at(replace_newlines(x, nl), p, q),
    ensures
        exists|j: int| occurs_at(x, p, j),
{
    lemma_marker_facts();
    if nl == "\n"@ {
        lemma_replace_lf_identity(x);
    } else {
        lemma_crlf_occurrence(x, p, q);
    }
}

/// The replaced block keeps the block's shape: the markers at both ends and
/// nowhere else, and the line ending inside it.
proof fn lemma_block_facts(block: Seq<char>, nl: Seq<char>)
    requires
        block_shape_ok(block),
        is_line_ending(nl),
    ensures
        replace_newlines(block, nl).len() >= 38,
        replace_newlines(block, nl).subrange(0, 20) == start_marker(),
        replace_newlines(block, nl).subrange(replace_newlines(block, nl).len() - 18, replace_newlines(block, nl).len() as int)
            == end_marker(),
        forall|q: int| occurs_at(replace_newlines(block, nl), start_marker(), q) ==> q == 0,
        forall|q: int| occurs_at(replace_newlines(block, nl), end_marker(), q) ==> q == replace_newlines(block, nl).len() - 18,
        nl == "\n"@ ==> forall|i: int| 0 <= i < replace_newlines(block, nl).len() ==> #[trigger] replace_newlines(block, nl)[i] != '\r',
        exists|q: int| occurs_at(replace_newlines(block, nl), nl, q),
{
    lemma_marker_facts();
    let s = start_marker();
    let e = end_marker();
    let n = block.len();
    let mid = block.subrange(20, n - 18);
    assert(block =~= s + mid + e);
    lemma_replace_concat(s + mid, e, nl);
    lemma_replace_concat(s, mid, nl);
    lemma_replace_plain(s, nl);
    lemma_replace_plain(e, nl);
    let rm = replace_newlines(mid, nl);
    let b = replace_newlines(block, nl);
    assert(b == s + rm + e);
    assert(b.subrange(0, 20) =~= s);
    assert(b.subrange(b.len() - 18, b.len() as int) =~= e);
    // Each marker occurs once in the block, at its end of it.
    lemma_positions(block, s);
    lemma_positions(block, e);
    assert(occurs_at(block, s, 0));
    assert(occurs_at(block, e, n - 18));
    assert(positions(block, s)[0] == 0) by {
        assert(positions(block, s).contains(0));
    }
    assert(positions(block, e)[0] == n - 18) by {
        assert(positions(block, e).contains(n - 18));
    }
    // So neither marker occurs in the middle, before or after the line endings are written.
    assert forall|p: Seq<char>, q: int| (p == s || p == e) implies !occurs_at(rm, p, q) by {
        if occurs_at(rm, p, q) {
            lemma_marker_in_replaced(mid, nl, p, q);
            let j = choose|j: int| occurs_at(mid, p, j);
            assert(block.subrange(j + 20, j + 20 + p.len()) =~= mid.subrange(j, j + p.len()));
            assert(occurs_at(block, p, j + 20));
            assert(positions(block, p).contains(j + 20));
        }
    }
    let lb = b.len() as int;
    let lr = rm.len() as int;
    assert forall|q: int| occurs_at(b, s, q) implies q == 0 by {
        assert(b.subrange(q, q + 20)[0] == b[q]);
        if 1 <= q < 20 {
            assert(b[q] == s[q]);
        } else if 20 <= q && q + 20 <= 20 + lr {
            assert(b.subrange(q, q + 20) =~= rm.subrange(q - 20, q - 20 + 20));
            assert(occurs_at(rm, s, q - 20));
        } else if 20 <= q {
            assert(b.subrange(q, q + 20)[20 + lr - q] == b[20 + lr]);
            assert(b[20 + lr] == e[0]);
        }
    }
    assert forall|q: int| occurs_at(b, e, q) implies q == lb - 18 by {
        assert(b.subrange(q, q + 18)[0] == b[q]);
        if q == 0 {
            assert(b.subrange(q, q + 18)[11] == b[11]);
            assert(b[11] == s[11]);
        } else if q < 20 {
            assert(b[q] == s[q]);
        } else if q + 18 <= 20 + lr {
            assert(b.subrange(q, q + 18) =~= rm.subrange(q - 20, q - 20 + 18));
            assert(occurs_at(rm, e, q - 20));
        } else if q < lb - 18 {
            assert(b.subrange(q, q + 18)[20 + lr - q] == b[20 + lr]);
            assert(b[20 + lr] == e[0]);
        }
    }
    if nl == "\n"@ {
        assert forall|i: int| 0 <= i < nl.len() implies #[trigger] nl[i] != '\r' by {}
        lemma_replace_avoids(block, nl, '\r');
    }
    let j = choose|j: int| 0 <= j < block.len() && #[trigger] block[j] == '\n';
    lemma_replace_keeps_ending(block, nl, j);
}

/// An occurrence within a tail of a text is an occurrence in the text.
proof fn lemma_occurs_in_suffix(s: Seq<char>, p: Seq<char>, k: int, q: int)
    requires
        0 <= k <= s.len(),
        occurs_at(s.subrange(k, s.len() as int), p, q),
    ensures
        occurs_at(s, p, q + k),
{
    assert(s.subrange(k, s.len() as int).subrange(q, q + p.len()) =~= s.subrange(q + k, q + k + p.len()));
}

/// A block between two texts that hold no marker is the only place the markers occur.
proof fn lemma_block_markers(a: Seq<char>, b: Seq<char>, c: Seq<char>)
    requires
        b.len() >= 38,
        b.subrange(0, 20) == start_marker(),
        b.subrange(b.len() - 18, b.len() as int) == end_marker(),
        forall|q: int| occurs_at(b, start_marker(), q) ==> q == 0,
        forall|q: int| occurs_at(b, end_marker(), q) ==> q == b.len() - 18,
        forall|q: int| !occurs_at(a, start_marker(), q) && !occurs_at(a, end_marker(), q),
        forall|q: int| !occurs_at(c, start_marker(), q) && !occurs_at(c, end_marker(), q),
    ensures
        positions(a + b + c, start_marker()) == seq![a.len() as int],
        positions(a + b + c, end_marker()) == seq![a.len() + b.len() - 18],
{
    lemma_marker_facts();
    let s = start_marker();
    let e = end_marker();
    let x = a + b + c;
    let la = a.len() as int;
    let lb = b.len() as int;
    assert(x.subrange(la, la + 20) =~= b.subrange(0, 20));
    assert(x.subrange(la + lb - 18, la + lb) =~= b.subrange(lb - 18, lb));
    assert(x[la + lb - 18] == b.subrange(lb - 18, lb)[0]);
    assert forall|q: int| occurs_at(x, s, q) implies q == la by {
        assert(x.subrange(q, q + 20)[0] == x[q]);
        if q + 20 <= la {
            assert(x.subrange(q, q + 20) =~= a.subrange(q, q + 20));
            assert(occurs_at(a, s, q));
        } else if q < la {
            assert(x.subrange(q, q + 20)[la - q] == x[la]);
            assert(x[la] == b[0]);
            assert(b[0] == b.subrange(0, 20)[0]);
        } else if q + 20 <= la + lb {
            assert(x.subrange(q, q + 20) =~= b.subrange(q - la, q - la + 20));
            assert(occurs_at(b, s, q - la));
        } else if q < la + lb - 18 {
            assert(x.subrange(q, q + 20)[la + lb - 18 - q] == x[la + lb - 18]);
        } else if q == la + lb - 18 {
            assert(x.subrange(q, q + 20)[11] == x[q + 11]);
            assert(x[q + 11] == b[lb - 18 + 11]);
            assert(b[lb - 18 + 11] == b.subrange(lb - 18, lb)[11]);
        } else if q < la + lb {
            assert(x[q] == b[q - la]);
            assert(b[q - la] == b.subrange(lb - 18, lb)[q - la - (lb - 18)]);
        } else {
            assert(x.subrange(q, q + 20) =~= c.subrange(q - la - lb, q - la - lb + 20));
            assert(occurs_at(c, s, q - la - lb));
        }
    }
    assert forall|q: int| occurs_at(x, e, q) implies q == la + lb - 18 by {
        assert(x.subrange(q, q + 18)[0] == x[q]);
        if q + 18 <= la {
            assert(x.subrange(q, q + 18) =~= a.subrange(q, q + 18));
            assert(occurs_at(a, e, q));
        } else if q < la {
            assert(x.subrange(q, q + 18)[la - q] == x[la]);
            assert(x[la] == b[0]);
            assert(b[0] == b.subrange(0, 20)[0]);
        } else if q + 18 <= la + lb {
            assert(x.subrange(q, q + 18) =~= b.subrange(q - la, q - la + 18));
            assert(occurs_at(b, e, q - la));
        } else if q < la + lb {
            assert(x[q] == b[q - la]);
            assert(b[q - la] == b.subrange(lb - 18, lb)[q - la - (lb - 18)]);
        } else {
            assert(x.subrange(q, q + 18) =~= c.subrange(q - la - lb, q - la - lb + 18));
            assert(occurs_at(c, e, q - la - lb));
        }
    }
    lemma_single_position(x, s, la);
    lemma_single_position(x, e, la + lb - 18);
}

/// Text with its trailing line ends removed is a prefix of the text that
/// does not end in one.
proof fn lemma_trim_line_ends(s: Seq<char>)
    ensures
        trim_line_ends(s).len() <= s.len(),
        trim_line_ends(s) == s.subrange(0, trim_line_ends(s).len() as int),
        trim_line_ends(s).len() > 0 ==> trim_line_ends(s).last() != '\r' && trim_line_ends(s).last() != '\n',
    decreases s.len(),
{
    if s.len() > 0 && (s.last() == '\r' || s.last() == '\n') {
        lemma_trim_line_ends(s.drop_last());
        let t = trim_line_ends(s.drop_last());
        assert(s.drop_last().subrange(0, t.len() as int) =~= s.subrange(0, t.len() as int));
    } else {
        assert(s.subrange(0, s.len() as int) =~= s);
    }
}

/// Joining two parts with the block between them: a `\r\n` pair occurs only
/// where it already occurred in a part, when the block holds no `\r` and
/// does not begin with a line break.
proof fn lemma_no_crlf(a: Seq<char>, b: Seq<char>, c: Seq<char>)
    requires
        b.len() > 0,
        b[0] != '\n',
        forall|i: int| 0 <= i < b.len() ==> #[trigger] b[i] != '\r',
        forall|q: int| !occurs_at(a, crlf(), q),
        forall|q: int| !occurs_at(c, crlf(), q),
    ensures
        positions(a + b + c, crlf()).len() == 0,
{
    lemma_marker_facts();
    let x = a + b + c;
    let la = a.len() as int;
    let lb = b.len() as int;
    assert forall|q: int| !occurs_at(x, crlf(), q) by {
        if occurs_at(x, crlf(), q) {
            assert(x.subrange(q, q + 2)[0] == x[q]);
            assert(x.subrange(q, q + 2)[1] == x[q + 1]);
            if q + 2 <= la {
                assert(x.subrange(q, q + 2) =~= a.subrange(q, q + 2));
                assert(occurs_at(a, crlf(), q));
            } else if q < la {
                assert(x[q + 1] == b[0]);
            } else if q < la + lb {
                assert(x[q] == b[q - la]);
            } else {
                assert(x.subrange(q, q + 2) =~= c.subrange(q - la - lb, q - la - lb + 2));
                assert(occurs_at(c, crlf(), q - la - lb));
            }
        }
    }
    lemma_no_position(x, crlf());
}

proof fn lemma_crlf_kept(a: Seq<char>, b: Seq<char>, c: Seq<char>)
    requires
        exists|q: int| occurs_at(b, crlf(), q),
    ensures
        positions(a + b + c, crlf()).len() > 0,
{
    lemma_marker_facts();
    let q = choose|q: int| occurs_at(b, crlf(), q);
    let x = a + b + c;
    assert(x.subrange(a.len() + q, a.len() + q + 2) =~= b.subrange(q, q + 2));
    assert(occurs_at(x, crlf(), a.len() + q));
    lemma_positions(x, crlf());
    assert(positions(x, crlf()).contains(a.len() + q));
}

/// A text made of a part, the block and a part, with the markers only in
/// the block and the block's line ending, is left as it is.
proof fn lemma_placed_again(a: Seq<char>, b: Seq<char>, c: Seq<char>, block: Seq<char>, nl: Seq<char>)
    requires
        b == replace_newlines(block, nl),
        b.len() >= 38,
        positions(a + b + c, start_marker()) == seq![a.len() as int],
        positions(a + b + c, end_marker()) == seq![a.len() + b.len() - 18],
        newline_of(a + b + c) == nl,
    ensures
        replaced_or_appended(a + b + c, block) == Some(a + b + c),
{
    lemma_marker_facts();
    let x = a + b + c;
    assert(x.subrange(0, a.len() as int) =~= a);
    assert(x.subrange(a.len() + b.len() - 18 + 18, x.len() as int) =~= c);
    assert(x.subrange(0, a.len() as int) + b + x.subrange(a.len() + b.len() - 18 + 18, x.len() as int) =~= x);
}

proof fn lemma_idempotent_append(content: Seq<char>, block: Seq<char>)
    requires
        block_shape_ok(block),
        positions(content, start_marker()).len() == 0,
        positions(content, end_marker()).len() == 0,
    ensures
        replaced_or_appended(replaced_or_appended(content, block)->0, block) == replaced_or_appended(content, block),
{
    lemma_marker_facts();
    let s = start_marker();
    let e = end_marker();
    let nl = newline_of(content);
    assert(is_line_ending(nl));
    let b = replace_newlines(block, nl);
    lemma_block_facts(block, nl);
    lemma_positions(content, s);
    lemma_positions(content, e);
    lemma_positions(content, crlf());
    let x = replaced_or_appended(content, block)->0;
    let t = trim_line_ends(content);
    lemma_trim_line_ends(content);
    assert forall|q: int| !occurs_at(t, s, q) && !occurs_at(t, e, q) by {
        if 0 <= q && q + 20 <= t.len() {
            lemma_occurs_in_prefix(content, s, t.len() as int, q);
        }
        if 0 <= q && q + 18 <= t.len() {
            lemma_occurs_in_prefix(content, e, t.len() as int, q);
        }
        if occurs_at(content, s, q) {
            assert(positions(content, s).contains(q));
        }
        if occurs_at(content, e, q) {
            assert(positions(content, e).contains(q));
        }
    }
    let a: Seq<char> = if t.len() == 0 { Seq::empty() } else { t + nl + nl };
    let c = nl;
    assert(x =~= a + b + c);
    assert forall|q: int| !occurs_at(a, s, q) && !occurs_at(a, e, q) by {
        if t.len() > 0 {
            if occurs_at(a, s, q) {
                if q + 20 <= t.len() {
                    assert(a.subrange(q, q + 20) =~= t.subrange(q, q + 20));
                    assert(occurs_at(t, s, q));
                } else {
                    let k = if q < t.len() { t.len() as int } else { q };
                    assert(a.subrange(q, q + 20)[k - q] == a[k]);
                    if k - t.len() < nl.len() {
                        assert(a[k] == nl[k - t.len()]);
                    } else {
                        assert(a[k] == nl[k - t.len() - nl.len()]);
                    }
                }
            }
            if occurs_at(a, e, q) {
                if q + 18 <= t.len() {
                    assert(a.subrange(q, q + 18) =~= t.subrange(q, q + 18));
                    assert(occurs_at(t, e, q));
                } else {
                    let k = if q < t.len() { t.len() as int } else { q };
                    assert(a.subrange(q, q + 18)[k - q] == a[k]);
                    if k - t.len() < nl.len() {
                        assert(a[k] == nl[k - t.len()]);
                    } else {
                        assert(a[k] == nl[k - t.len() - nl.len()]);
                    }
                }
            }
        }
    }
    assert forall|q: int| !occurs_at(c, s, q) && !occurs_at(c, e, q) by {}
    lemma_block_markers(a, b, c);
    if nl == crlf() {
        lemma_crlf_kept(a, b, c);
    } else {
        assert(nl == "\n"@);
        assert forall|q: int| !occurs_at(t, crlf(), q) by {
            if 0 <= q && q + 2 <= t.len() {
                lemma_occurs_in_prefix(content, crlf(), t.len() as int, q);
            }
            if occurs_at(content, crlf(), q) {
                assert(positions(content, crlf()).contains(q));
            }
        }
        assert forall|q: int| !occurs_at(a, crlf(), q) by {
            if t.len() > 0 && occurs_at(a, crlf(), q) {
                assert(a.subrange(q, q + 2)[0] == a[q]);
                assert(a.subrange(q, q + 2)[1] == a[q + 1]);
                if q + 2 <= t.len() {
                    assert(a.subrange(q, q + 2) =~= t.subrange(q, q + 2));
                    assert(occurs_at(t, crlf(), q));
                } else if q + 1 == t.len() {
                    assert(a[q] == t.last());
                } else {
                    assert(a[q] == '\n');
                }
            }
        }
        assert forall|q: int| !occurs_at(c, crlf(), q) by {}
        assert(b[0] == b.subrange(0, 20)[0]);
        lemma_no_crlf(a, b, c);
    }
    lemma_placed_again(a, b, c, block, nl);
}

proof fn lemma_idempotent_replace(content: Seq<char>, block: Seq<char>)
    requires
        block_shape_ok(block),
        positions(content, start_marker()).len() == 1,
        positions(content, end_marker()).len() == 1,
        positions(content, start_marker())[0] < positions(content, end_marker())[0],
    ensures
        replaced_or_appended(replaced_or_appended(content, block)->0, block) == replaced_or_appended(content, block),
{
    lemma_marker_facts();
    let s = start_marker();
    let e = end_marker();
    let starts = positions(content, s);
    let ends = positions(content, e);
    let nl = newline_of(content);
    assert(is_line_ending(nl));
    let b = replace_newlines(block, nl);
    lemma_block_facts(block, nl);
    lemma_positions(content, s);
    lemma_positions(content, e);
    lemma_positions(content, crlf());
    let x = replaced_or_appended(content, block)->0;
    let st = starts[0];
    let en = ends[0];
    lemma_positions_fit(content, s, 0);
    lemma_positions_fit(content, e, 0);
    let a = content.subrange(0, st);
    let c = content.subrange(en + 18, content.len() as int);
    assert(x =~= a + b + c);
    assert forall|q: int| !occurs_at(a, s, q) && !occurs_at(a, e, q) by {
        if occurs_at(a, s, q) {
            lemma_occurs_in_prefix(content, s, st, q);
            assert(starts.contains(q));
        }
        if occurs_at(a, e, q) {
            lemma_occurs_in_prefix(content, e, st, q);
            assert(ends.contains(q));
        }
    }
    assert forall|q: int| !occurs_at(c, s, q) && !occurs_at(c, e, q) by {
        if occurs_at(c, s, q) {
            lemma_occurs_in_suffix(content, s, en + 18, q);
            assert(starts.contains(q + en + 18));
        }
        if occurs_at(c, e, q) {
            lemma_occurs_in_suffix(content, e, en + 18, q);
            assert(ends.contains(q + en + 18));
        }
    }
    lemma_block_markers(a, b, c);
    if nl == crlf() {
        lemma_crlf_kept(a, b, c);
    } else {
        assert(nl == "\n"@);
        assert forall|q: int| !occurs_at(a, crlf(), q) && !occurs_at(c, crlf(), q) by {
            if occurs_at(a, crlf(), q) {
                lemma_occurs_in_prefix(content, crlf(), st, q);
                assert(positions(content, crlf()).contains(q));
            }
            if occurs_at(c, crlf(), q) {
                lemma_occurs_in_suffix(content, crlf(), en + 18, q);
                assert(positions(content, crlf()).contains(q + en + 18));
            }
        }
        assert(b[0] == b.subrange(0, 20)[0]);
        lemma_no_crlf(a, b, c);
    }
    lemma_placed_again(a, b, c, block, nl);
}

/// Placing the managed block is idempotent: once a text holds the block,
/// placing it again leaves the text unchanged. This holds for every block of
/// the managed shape, whatever the text around it and its line endings.
pub proof fn lemma_block_placement_is_idempotent(content: Seq<char>, block: Seq<char>)
    requires
        block_shape_ok(block),
        replaced_or_appended(content, block) is Some,
    ensures
        replaced_or_appended(replaced_or_appended(content, block)->0, block) == replaced_or_appended(content, block),
{
    if positions(content, start_marker()).len() == 0 && positions(content, end_marker()).len() == 0 {
        lemma_idempotent_append(content, block);
    } else {
        lemma_idempotent_replace(content, block);
    }
}

/// Whether a text has the shape of a managed block: the start marker first,
/// the end marker last, each exactly once, a line break and no carriage return.
pub fn is_managed_block(block: &str) -> (r: bool)
    ensures
        r == block_shape_ok(block@),
{
    proof {
        lemma_marker_facts();
        reveal_strlit("<!-- opdev:start -->");
        reveal_strlit("<!-- opdev:end -->");
    }
    let c = chars_of(block);
    let n = c.len();
    if n < 38 {
        return false;
    }
    let head = chars_text(&c, 0, 20);
    let tail = chars_text(&c, n - 18, n);
    if !same_text(head.as_str(), START_MARKER) || !same_text(tail.as_str(), END_MARKER) {
        return false;
    }
    let s = chars_of(START_MARKER);
    let e = chars_of(END_MARKER);
    if find_all(&c, &s).len() != 1 || find_all(&c, &e).len() != 1 {
        return false;
    }
    let mut has_break = false;
    let mut k: usize = 0;
    while k < n
        invariant
            n == c@.len(),
            c@ == block@,
            k <= n,
            forall|j: int| 0 <= j < k ==> #[trigger] c@[j] != '\r',
            has_break == exists|j: int| 0 <= j < k && #[trigger] c@[j] == '\n',
        decreases n - k,
    {
        if c[k] == '\r' {
            return false;
        }
        if c[k] == '\n' {
            has_break = true;
        }
        k = k + 1;
    }
    has_break
}

/// Reconciling a managed file twice changes nothing the second time: what
/// the first reconciliation planned is planned again, reported unchanged.
/// This holds for every block of the managed shape and every prior content.
pub proof fn lemma_reconciling_twice_changes_nothing(existing: Option<Seq<char>>, block: Seq<char>, accept_import: bool)
    requires
        block_shape_ok(block),
        planned(existing, block, accept_import) is Some,
    ensures
        planned(Some((planned(existing, block, accept_import)->0).0), block, accept_import)
            == Some(((planned(existing, block, accept_import)->0).0, FileChange::Unchanged)),
{
    lemma_marker_facts();
    let after = (planned(existing, block, accept_import)->0).0;
    match existing {
        None => {
            let empty: Seq<char> = Seq::empty();
            lemma_no_position(empty, start_marker());
            lemma_no_position(empty, end_marker());
            lemma_no_position(empty, crlf());
            lemma_replace_lf_identity(block);
            assert(trim_line_ends(empty).len() == 0);
            assert(replaced_or_appended(empty, block) == Some(block + "\n"@));
            lemma_block_placement_is_idempotent(empty, block);
        },
        Some(c) => {
            if !(accept_import && positions(c, start_marker()).len() == 0 && positions(c, end_marker()).len() == 0 && has_import(c)) {
                lemma_block_placement_is_idempotent(c, block);
            }
        },
    }
}

/// Whether a previewed file may still be written: what is read now must be
/// exactly what the preview read, else nothing may overwrite it. A read that
/// fails is reported as it is.
pub fn confirm_preview(item: &AgentFilePreview, current: Existing) -> (r: Result<(), BootstrapError>)
    ensures
        match current {
            Err(e) => r == Err::<(), BootstrapError>(e),
            Ok(now) => if opt_text(now) == opt_text(item.before) {
                r is Ok
            } else {
                r matches Err(BootstrapError::StalePreview { path: p }) && p@ == item.file.path@
            },
        },
{
    let now = match current {
        Err(e) => return Err(e),
        Ok(now) => now,
    };
    let same = match (&now, &item.before) {
        (None, None) => true,
        (Some(a), Some(b)) => same_text(a.as_str(), b.as_str()),
        _ => false,
    };
    if same {
        Ok(())
    } else {
        Err(BootstrapError::StalePreview { path: copy_string(&item.file.path) })
    }
}

/// Reconciling both guidance files a second time, from what the first
/// reconciliation planned, changes neither file: both are planned again as
/// they are and reported unchanged, so nothing is written. The premise is the
/// managed shape of the two shipped blocks, which `is_managed_block` accepts.
pub proof fn lemma_reconcile_agent_files_twice(agents: Option<Seq<char>>, importing: Option<Seq<char>>)
    requires
        block_shape_ok(AGENTS_BLOCK@),
        block_shape_ok(CLAUDE_BLOCK@),
        planned(agents, AGENTS_BLOCK@, false) is Some,
        planned(importing, CLAUDE_BLOCK@, true) is Some,
    ensures
        planned(Some((planned(agents, AGENTS_BLOCK@, false)->0).0), AGENTS_BLOCK@, false)
            == Some(((planned(agents, AGENTS_BLOCK@, false)->0).0, FileChange::Unchanged)),
        planned(Some((planned(importing, CLAUDE_BLOCK@, true)->0).0), CLAUDE_BLOCK@, true)
            == Some(((planned(importing, CLAUDE_BLOCK@, true)->0).0, FileChange::Unchanged)),
{
    lemma_reconciling_twice_changes_nothing(agents, AGENTS_BLOCK@, false);
    lemma_reconciling_twice_changes_nothing(importing, CLAUDE_BLOCK@, true);
}

} // verus!
