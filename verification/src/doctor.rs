//! Read-only, scoped readiness diagnostics: what each observation means for
//! the person running them, and the exit code. Observations are gathered by
//! the caller without running project commands; nothing here qualifies a
//! gate or repairs anything.
use vstd::prelude::*;
use crate::inspection::{
    ci_file_ok, ci_observations, ci_qualification_text, observed, pins, pins_detail, readable_prefix, sorted_files, CiFile, CiSource,
    Observation,
};
use crate::outcome::{Evidence, Outcome};
use crate::remote::capability::{RemoteAudit, RemoteCapability};
use crate::text::{copy_string, decimal, decimal_text, join_texts, joined, joined_with, owned, same_text, text_views};

verus! {

/// One readiness finding.
#[derive(Debug)]
pub struct DoctorFinding {
    pub id: String,
    pub scope: String,
    pub subject: String,
    pub outcome: Outcome,
    /// Whether it concerns an explicitly inspected prerequisite; never a core gate.
    pub required: bool,
    pub observation: String,
    pub next_step: String,
}

/// A finding as plain values: id, scope, subject, outcome, required,
/// observation, next step.
pub type FindingView = (Seq<char>, Seq<char>, Seq<char>, Outcome, bool, Seq<char>, Seq<char>);

pub open spec fn finding_view(f: DoctorFinding) -> FindingView {
    (f.id@, f.scope@, f.subject@, f.outcome, f.required, f.observation@, f.next_step@)
}

pub open spec fn finding_views(v: Seq<DoctorFinding>) -> Seq<FindingView> {
    v.map_values(|f: DoctorFinding| finding_view(f))
}

pub open spec fn pass_next_text() -> Seq<char> {
    "No repair indicated; this observation does not verify behavior or qualify a gate."@
}

/// A finding as recorded: a passed observation needs no repair, whatever
/// next step was offered.
pub open spec fn made(id: Seq<char>, scope: Seq<char>, subject: Seq<char>, outcome: Outcome, required: bool,
    observation: Seq<char>, next: Seq<char>) -> FindingView {
    (id, scope, subject, outcome, required, observation, if outcome == Outcome::Passed { pass_next_text() } else { next })
}

/// Readiness findings with their exit code.
#[derive(Debug)]
pub struct DoctorReport {
    pub remote_requested: bool,
    /// Whether a plugin directory was selected for inspection.
    pub plugin_selected: bool,
    pub findings: Vec<DoctorFinding>,
    pub exit_code: u8,
}

/// The exit code of a set of findings: 2 where any inspection erred, else 1
/// where a required prerequisite is neither passed nor not applicable,
/// else 0.
pub open spec fn exit_code_of(v: Seq<FindingView>) -> u8 {
    if exists|k: int| 0 <= k < v.len() && (#[trigger] v[k]).3 == Outcome::Error {
        2
    } else if exists|k: int| 0 <= k < v.len() && (#[trigger] v[k]).4 && v[k].3 != Outcome::Passed
        && v[k].3 != Outcome::NotApplicable {
        1
    } else {
        0
    }
}

pub open spec fn unsafe_input_text() -> Seq<char> {
    "Could not inspect this input safely (unreadable, linked, oversized, malformed or unsupported). Input contents are not echoed."@
}

pub open spec fn unsafe_input_next() -> Seq<char> {
    "Inspect the named input and access permissions locally; correct it or select a compatible runtime, then rerun doctor. Nothing was changed."@
}

/// An input that could not be inspected safely.
pub open spec fn error_view(id: Seq<char>, subject: Seq<char>) -> FindingView {
    made(id, "inspection"@, subject, Outcome::Error, true, unsafe_input_text(), unsafe_input_next())
}

impl DoctorReport {
    /// A report with no findings yet.
    pub fn new(remote_requested: bool, plugin_selected: bool) -> (r: DoctorReport)
        ensures
            r.remote_requested == remote_requested,
            r.plugin_selected == plugin_selected,
            r.findings@.len() == 0,
            r.exit_code == 0,
    {
        DoctorReport { remote_requested, plugin_selected, findings: Vec::new(), exit_code: 0 }
    }

    fn add(&mut self, id: String, scope: &str, subject: String, outcome: Outcome, required: bool, observation: String,
        next: &str)
        ensures
            final(self).remote_requested == old(self).remote_requested,
            final(self).plugin_selected == old(self).plugin_selected,
            final(self).exit_code == old(self).exit_code,
            finding_views(final(self).findings@) == finding_views(old(self).findings@).push(
                made(id@, scope@, subject@, outcome, required, observation@, next@)),
    {
        let next_step = if outcome == Outcome::Passed {
            owned("No repair indicated; this observation does not verify behavior or qualify a gate.")
        } else {
            owned(next)
        };
        let ghost before = self.findings@;
        self.findings.push(DoctorFinding { id, scope: owned(scope), subject, outcome, required, observation, next_step });
        assert(finding_views(self.findings@) =~= finding_views(before).push(
            made(id@, scope@, subject@, outcome, required, observation@, next@)));
    }

    /// Records an input that could not be inspected safely.
    pub fn inspection_error(&mut self, id: &str, subject: &str)
        ensures
            final(self).remote_requested == old(self).remote_requested,
            final(self).plugin_selected == old(self).plugin_selected,
            final(self).exit_code == old(self).exit_code,
            finding_views(final(self).findings@) == finding_views(old(self).findings@).push(error_view(id@, subject@)),
    {
        self.add(owned(id), "inspection", owned(subject), Outcome::Error, true, owned(
            "Could not inspect this input safely (unreadable, linked, oversized, malformed or unsupported). Input contents are not echoed.",
        ), "Inspect the named input and access permissions locally; correct it or select a compatible runtime, then rerun doctor. Nothing was changed.");
    }

    /// Sets the exit code from the findings.
    pub fn finish(&mut self)
        ensures
            final(self).remote_requested == old(self).remote_requested,
            final(self).plugin_selected == old(self).plugin_selected,
            finding_views(final(self).findings@) == finding_views(old(self).findings@),
            final(self).exit_code == exit_code_of(finding_views(old(self).findings@)),
    {
        let ghost v = finding_views(self.findings@);
        let mut erred = false;
        let mut short = false;
        let mut i: usize = 0;
        while i < self.findings.len()
            invariant
                v == finding_views(self.findings@),
                i <= self.findings@.len(),
                erred == exists|k: int| 0 <= k < i && (#[trigger] v[k]).3 == Outcome::Error,
                short == exists|k: int| 0 <= k < i && (#[trigger] v[k]).4 && v[k].3 != Outcome::Passed
                    && v[k].3 != Outcome::NotApplicable,
            decreases self.findings.len() - i,
        {
            let f = &self.findings[i];
            assert(v[i as int] == finding_view(*f));
            if f.outcome == Outcome::Error {
                erred = true;
            }
            if f.required && f.outcome != Outcome::Passed && f.outcome != Outcome::NotApplicable {
                short = true;
            }
            i = i + 1;
        }
        self.exit_code = if erred { 2 } else if short { 1 } else { 0 };
    }
}

pub open spec fn inventory_next(component: Seq<char>) -> Seq<char> {
    if component == "plugin"@ || component == "runtime_pin"@ {
        "If plugin use is intended, verify the selected runtime with the existing runtime lookup; request setup or an upgrade separately if needed."@
    } else {
        "Review CI scripts, includes, variables and signature configuration together; matching pins do not qualify the effective CI runtime."@
    }
}

pub open spec fn source_next() -> Seq<char> {
    "Review this CI file together with includes, variables and signature configuration; no effective runtime or qualification was established."@
}

/// An inventory observation as a finding: an error is an input that could
/// not be inspected; the plugin is a required prerequisite only where a
/// plugin directory was selected, the runtime pin only where it fails.
pub open spec fn inventory_view(o: Observation, plugin_selected: bool) -> FindingView {
    let id = "inventory."@ + o.component@;
    match o.source {
        None => if o.outcome == Outcome::Error {
            error_view(id, o.component@)
        } else {
            made(id, "inventory"@, o.component@, o.outcome,
                (o.component@ == "plugin"@ && plugin_selected) || (o.component@ == "runtime_pin"@ && o.outcome == Outcome::Failed),
                o.detail@, inventory_next(o.component@))
        },
        Some(s) => if o.outcome == Outcome::Error {
            error_view(id, s@)
        } else {
            made(id, "inventory"@, s@, o.outcome, false, o.detail@, source_next())
        },
    }
}

pub open spec fn inventory_views(obs: Seq<Observation>, plugin_selected: bool) -> Seq<FindingView> {
    obs.map_values(|o: Observation| inventory_view(o, plugin_selected))
}

/// Where a declared path could not be used.
#[derive(Clone, Copy, Debug, PartialEq, Eq, Structural)]
pub enum PathProblem {
    /// It could not be inspected within the selected root (a link, a junction).
    Unsafe,
    /// It exists but has the wrong type for its use.
    WrongType,
    Missing,
    PermissionDenied,
    /// Inspection failed otherwise.
    Failed,
}

pub open spec fn path_outcome(r: Result<(), PathProblem>) -> Outcome {
    match r {
        Ok(()) => Outcome::Passed,
        Err(PathProblem::Unsafe) => Outcome::Unverified,
        Err(PathProblem::WrongType) => Outcome::Failed,
        Err(PathProblem::Missing) => Outcome::Failed,
        Err(PathProblem::PermissionDenied) => Outcome::Unverified,
        Err(PathProblem::Failed) => Outcome::Error,
    }
}

pub open spec fn path_text(r: Result<(), PathProblem>, shown: Seq<char>) -> Seq<char> {
    match r {
        Ok(()) => shown + " exists with read access in this environment; content adequacy and execution are not verified."@,
        Err(PathProblem::Unsafe) => "Path could not be safely inspected within the selected root; review links/junctions and access permissions."@,
        Err(PathProblem::WrongType) => "Path has the wrong type for this declared use."@,
        Err(PathProblem::Missing) => "Declared path does not exist in this environment."@,
        Err(PathProblem::PermissionDenied) => "Insufficient permission to inspect the declared path; absence is not established."@,
        Err(PathProblem::Failed) => "Filesystem inspection failed; absence is not established."@,
    }
}

/// What inspecting a declared path shows: usable, or why not; absence is
/// only claimed where the path is known not to exist.
pub fn path_observation(r: Result<(), PathProblem>, shown: &str) -> (o: (Outcome, String))
    ensures
        o.0 == path_outcome(r),
        o.1@ == path_text(r, shown@),
{
    match r {
        Ok(()) => (Outcome::Passed, joined(shown,
            " exists with read access in this environment; content adequacy and execution are not verified.")),
        Err(PathProblem::Unsafe) => (Outcome::Unverified, owned(
            "Path could not be safely inspected within the selected root; review links/junctions and access permissions.")),
        Err(PathProblem::WrongType) => (Outcome::Failed, owned("Path has the wrong type for this declared use.")),
        Err(PathProblem::Missing) => (Outcome::Failed, owned("Declared path does not exist in this environment.")),
        Err(PathProblem::PermissionDenied) => (Outcome::Unverified, owned(
            "Insufficient permission to inspect the declared path; absence is not established.")),
        Err(PathProblem::Failed) => (Outcome::Error, owned("Filesystem inspection failed; absence is not established.")),
    }
}

/// Where the unambiguous local lookup of a command's program ended.
#[derive(Debug)]
pub enum ProgramCheck {
    /// An executable file, at this path.
    Located(String),
    Missing,
    /// The lookup cannot decide, for this reason.
    Unverified(String),
    PermissionDenied,
    /// Filesystem inspection failed, of this kind.
    Failed(String),
}

pub open spec fn program_outcome(p: ProgramCheck) -> Outcome {
    match p {
        ProgramCheck::Located(_) => Outcome::Passed,
        ProgramCheck::Missing => Outcome::Failed,
        ProgramCheck::Unverified(_) => Outcome::Unverified,
        ProgramCheck::PermissionDenied => Outcome::Unverified,
        ProgramCheck::Failed(_) => Outcome::Error,
    }
}

pub open spec fn program_text(p: ProgramCheck) -> Seq<char> {
    match p {
        ProgramCheck::Located(path) => "Executable file found at "@ + path@
            + ". It was not run; version, dependencies, architecture and launch permissions remain unchecked."@,
        ProgramCheck::Missing => "No executable file found by the unambiguous local lookup (or no Unix execute bits). No command was run."@,
        ProgramCheck::Unverified(reason) => reason@,
        ProgramCheck::PermissionDenied => "Insufficient permission to inspect executable availability; absence is not established."@,
        ProgramCheck::Failed(kind) => "Executable filesystem inspection could not finish: "@ + kind@ + ". This is not proof of absence."@,
    }
}

fn program_observation(p: &ProgramCheck) -> (o: (Outcome, String))
    ensures
        o.0 == program_outcome(*p),
        o.1@ == program_text(*p),
{
    match p {
        ProgramCheck::Located(path) => {
            let t = joined("Executable file found at ", path.as_str());
            (Outcome::Passed, joined(t.as_str(),
                ". It was not run; version, dependencies, architecture and launch permissions remain unchecked."))
        },
        ProgramCheck::Missing => (Outcome::Failed, owned(
            "No executable file found by the unambiguous local lookup (or no Unix execute bits). No command was run.")),
        ProgramCheck::Unverified(reason) => (Outcome::Unverified, copy_string(reason)),
        ProgramCheck::PermissionDenied => (Outcome::Unverified, owned(
            "Insufficient permission to inspect executable availability; absence is not established.")),
        ProgramCheck::Failed(kind) => {
            let t = joined("Executable filesystem inspection could not finish: ", kind.as_str());
            (Outcome::Error, joined(t.as_str(), ". This is not proof of absence."))
        },
    }
}

/// A declared command's working directory, and where it is usable, the
/// lookup of its program.
#[derive(Debug)]
pub enum DirectoryCheck {
    Unusable(PathProblem),
    Usable(ProgramCheck),
}

#[derive(Debug)]
pub struct CommandCheck {
    pub name: String,
    /// The working directory as it is shown.
    pub directory_shown: String,
    pub directory: DirectoryCheck,
}

pub open spec fn directory_next() -> Seq<char> {
    "Correct the declared working directory or access permissions; doctor never creates directories."@
}

pub open spec fn executable_next() -> Seq<char> {
    "Review the declared executable and current PATH in the intended environment; request installation separately if required."@
}

/// The findings of one declared command: its working directory, then its
/// program only where the directory is usable, and that it was not run.
pub open spec fn command_views(c: CommandCheck) -> Seq<FindingView> {
    let subject = "commands."@ + c.name@;
    match c.directory {
        DirectoryCheck::Unusable(p) => seq![
            made("command.directory"@, "commands"@, subject, path_outcome(Err(p)), true, path_text(Err(p), c.directory_shown@),
                directory_next()),
            made("command.executable"@, "commands"@, subject, Outcome::Unverified, true,
                "Executable inspection depends on the unresolved working directory."@, "Resolve command.directory first."@),
        ],
        DirectoryCheck::Usable(program) => seq![
            made("command.directory"@, "commands"@, subject, Outcome::Passed, true, path_text(Ok(()), c.directory_shown@),
                directory_next()),
            made("command.executable"@, "commands"@, subject, program_outcome(program), true, program_text(program),
                executable_next()),
            made("command.execution"@, "execution"@, subject, Outcome::Unverified, false,
                "Command arguments, scripts and nested environments were not executed or verified."@,
                "For WSL, containers, shells or tool-manager shims, inspect inside the intended environment; run reviewed canonical checks separately."@),
        ],
    }
}

pub open spec fn commands_part(cs: Seq<CommandCheck>) -> Seq<FindingView>
    decreases cs.len(),
{
    if cs.len() == 0 {
        Seq::empty()
    } else {
        commands_part(cs.drop_last()) + command_views(cs.last())
    }
}

/// A declared authority: a project path, inspected, or an external location,
/// never fetched.
#[derive(Debug)]
pub enum AuthorityCheck {
    Path { name: String, shown: String, check: Result<(), PathProblem> },
    External { name: String },
}

pub open spec fn authority_view(a: AuthorityCheck) -> FindingView {
    match a {
        AuthorityCheck::Path { name, shown, check } => made("authority.path"@, "authorities"@, "authorities."@ + name@,
            path_outcome(check), true, path_text(check, shown@),
            "Review the existing authority location and access permissions; do not create or relocate project documents just to match a convention."@),
        AuthorityCheck::External { name } => made("authority.external"@, "authorities"@, "authorities."@ + name@,
            Outcome::Unverified, false, "External authority was not fetched; its URL and any embedded credentials are not echoed."@,
            "Use the declared authority when the task needs it; doctor never follows arbitrary authority URLs."@),
    }
}

pub open spec fn authorities_part(v: Seq<AuthorityCheck>) -> Seq<FindingView> {
    v.map_values(|a: AuthorityCheck| authority_view(a))
}

/// What the project contract leaves for adoption or delivery to settle.
#[derive(Debug)]
pub struct ContractGaps {
    pub ci_unconfigured: bool,
    pub coverage_unconfigured: bool,
    pub delivery_migration_required: bool,
    pub recovery_unconfigured: bool,
    pub no_commands: bool,
}

pub open spec fn gap_view(id: Seq<char>, observation: Seq<char>, next: Seq<char>) -> FindingView {
    made("gap."@ + id, "adoption_delivery"@, id, Outcome::MigrationRequired, false, observation, next)
}

pub open spec fn gap_if(missing: bool, id: Seq<char>, observation: Seq<char>, next: Seq<char>) -> Seq<FindingView> {
    if missing {
        seq![gap_view(id, observation, next)]
    } else {
        Seq::empty()
    }
}

pub open spec fn gaps_part(g: ContractGaps) -> Seq<FindingView> {
    gap_if(g.ci_unconfigured, "ci"@, "CI provider is unconfigured."@,
        "Resolve provider selection through the adoption decision flow."@)
    + gap_if(g.coverage_unconfigured, "coverage"@, "Coverage evidence is unconfigured."@,
        "Review proportionate coverage evidence during adoption; doctor does not select a tool or threshold."@)
    + gap_if(g.delivery_migration_required, "delivery"@, "Delivery qualification is migration_required."@,
        "Resolve the tracked delivery migration before qualified delivery."@)
    + gap_if(g.recovery_unconfigured, "recovery"@, "Automated recovery is unconfigured."@,
        "Review and test a project-appropriate recovery strategy before delivery."@)
    + gap_if(g.no_commands, "commands"@, "No canonical project commands are declared."@,
        "Review and declare the project's actual verification commands; doctor does not infer tooling."@)
}

pub open spec fn remote_next() -> Seq<char> {
    "Review this specific provider observation and its visibility with existing credentials; read access does not establish write permission, exact-revision CI qualification or release readiness."@
}

/// What is shown of a capability: its diagnostic, else its evidence.
pub open spec fn capability_text(c: RemoteCapability) -> Seq<char> {
    match c.diagnostic {
        Some(d) => d@,
        None => joined_with(c.evidence@.map_values(|e: Evidence| e.summary@), "; "@),
    }
}

/// A provider observation as a finding. A latest-green pipeline snapshot
/// stays unverified without being required; a concrete red still is.
pub open spec fn capability_view(name: Seq<char>, c: RemoteCapability) -> FindingView {
    made("remote."@ + name, "remote"@, name, c.outcome, name != "trunk_pipeline"@ || c.outcome != Outcome::Unverified,
        capability_text(c), remote_next())
}

pub open spec fn audit_part(a: RemoteAudit) -> Seq<FindingView> {
    seq![
        capability_view("ci"@, a.ci),
        capability_view("trunk"@, a.trunk),
        capability_view("trunk_protection"@, a.trunk_protection),
        capability_view("trunk_pipeline"@, a.trunk_pipeline),
        capability_view("branch_lifecycle"@, a.branch_lifecycle),
    ]
}

pub open spec fn remote_unavailable_view() -> FindingView {
    made("remote.configuration"@, "remote"@, "provider observations"@, Outcome::Unverified, true,
        "Remote inspection could not start with the declared provider and repository. No alternate host or login was attempted."@,
        "Review the provider/remote configuration and supported provider capabilities. Authentication changes require a separate explicit action."@)
}

pub open spec fn remote_part(audit: Option<RemoteAudit>) -> Seq<FindingView> {
    match audit {
        Some(a) => audit_part(a),
        None => seq![remote_unavailable_view()],
    }
}

/// `after` holds the findings of `before` followed by `part`, and nothing
/// else changed.
pub open spec fn appended(before: DoctorReport, after: DoctorReport, part: Seq<FindingView>) -> bool {
    &&& after.remote_requested == before.remote_requested
    &&& after.plugin_selected == before.plugin_selected
    &&& after.exit_code == before.exit_code
    &&& finding_views(after.findings@) == finding_views(before.findings@) + part
}

pub open spec fn identity_part(recorded: bool) -> Seq<FindingView> {
    if recorded {
        seq![made("runtime.identity"@, "runtime"@, "running CLI"@, Outcome::Passed, true,
            "Exact executable digest and this build's capabilities recorded. Version equality alone does not establish capability equality or authenticity."@,
            "Use this executable for the intended operation; verify installation authenticity through the existing installer when needed."@)]
    } else {
        seq![error_view("runtime.identity"@, "running CLI executable"@)]
    }
}

pub open spec fn environment_part() -> Seq<FindingView> {
    seq![made("environment.scope"@, "runtime"@, "current process environment"@, Outcome::Passed, false,
        "Only this process's OS, architecture and filesystem are inspected. WSL environment variables are hints, not proof of a usable distribution."@,
        "Run doctor in the environment selected for verification. No WSL distribution, container, shell or tool manager is started."@)]
}

impl DoctorReport {
    /// Records whether the running executable's digest could be taken.
    pub fn runtime_identity(&mut self, recorded: bool)
        ensures
            appended(*old(self), *final(self), identity_part(recorded)),
    {
        let ghost start = finding_views(self.findings@);
        if recorded {
            self.add(owned("runtime.identity"), "runtime", owned("running CLI"), Outcome::Passed, true, owned(
                "Exact executable digest and this build's capabilities recorded. Version equality alone does not establish capability equality or authenticity.",
            ), "Use this executable for the intended operation; verify installation authenticity through the existing installer when needed.");
        } else {
            self.inspection_error("runtime.identity", "running CLI executable");
        }
        assert(finding_views(self.findings@) =~= start + identity_part(recorded));
    }

    /// Records that only this process's environment is inspected.
    pub fn environment_scope(&mut self)
        ensures
            appended(*old(self), *final(self), environment_part()),
    {
        let ghost start = finding_views(self.findings@);
        self.add(owned("environment.scope"), "runtime", owned("current process environment"), Outcome::Passed, false, owned(
            "Only this process's OS, architecture and filesystem are inspected. WSL environment variables are hints, not proof of a usable distribution.",
        ), "Run doctor in the environment selected for verification. No WSL distribution, container, shell or tool manager is started.");
        assert(finding_views(self.findings@) =~= start + environment_part());
    }

    /// Records inventory observations, in order.
    pub fn inventory(&mut self, obs: &Vec<Observation>)
        ensures
            appended(*old(self), *final(self), inventory_views(obs@, old(self).plugin_selected)),
    {
        let ghost start = finding_views(self.findings@);
        let mut i: usize = 0;
        while i < obs.len()
            invariant
                i <= obs@.len(),
                self.remote_requested == old(self).remote_requested,
                self.plugin_selected == old(self).plugin_selected,
                self.exit_code == old(self).exit_code,
                start == finding_views(old(self).findings@),
                finding_views(self.findings@) == start + inventory_views(obs@.subrange(0, i as int), self.plugin_selected),
            decreases obs.len() - i,
        {
            let o = &obs[i];
            let ghost before = finding_views(self.findings@);
            let component = o.component.as_str();
            let id = joined("inventory.", component);
            match &o.source {
                None => {
                    if o.outcome == Outcome::Error {
                        self.inspection_error(id.as_str(), component);
                    } else {
                        let required = (same_text(component, "plugin") && self.plugin_selected)
                            || (same_text(component, "runtime_pin") && o.outcome == Outcome::Failed);
                        let next = if same_text(component, "plugin") || same_text(component, "runtime_pin") {
                            "If plugin use is intended, verify the selected runtime with the existing runtime lookup; request setup or an upgrade separately if needed."
                        } else {
                            "Review CI scripts, includes, variables and signature configuration together; matching pins do not qualify the effective CI runtime."
                        };
                        self.add(id, "inventory", owned(component), o.outcome, required, copy_string(&o.detail), next);
                    }
                },
                Some(s) => {
                    if o.outcome == Outcome::Error {
                        self.inspection_error(id.as_str(), s.as_str());
                    } else {
                        self.add(id, "inventory", copy_string(s), o.outcome, false, copy_string(&o.detail),
                            "Review this CI file together with includes, variables and signature configuration; no effective runtime or qualification was established.");
                    }
                },
            }
            assert(finding_views(self.findings@) == before.push(inventory_view(*o, self.plugin_selected)));
            assert(obs@.subrange(0, i + 1) =~= obs@.subrange(0, i as int).push(*o));
            assert(inventory_views(obs@.subrange(0, i + 1), self.plugin_selected) =~= inventory_views(
                obs@.subrange(0, i as int), self.plugin_selected).push(inventory_view(*o, self.plugin_selected)));
            i = i + 1;
        }
        assert(obs@.subrange(0, obs@.len() as int) =~= obs@);
    }
}

impl DoctorReport {
    fn command(&mut self, c: &CommandCheck)
        ensures
            appended(*old(self), *final(self), command_views(*c)),
    {
        let ghost start = finding_views(self.findings@);
        let subject = joined("commands.", c.name.as_str());
        match &c.directory {
            DirectoryCheck::Unusable(p) => {
                let (outcome, observation) = path_observation(Err(*p), c.directory_shown.as_str());
                self.add(owned("command.directory"), "commands", copy_string(&subject), outcome, true, observation,
                    "Correct the declared working directory or access permissions; doctor never creates directories.");
                self.add(owned("command.executable"), "commands", subject, Outcome::Unverified, true, owned(
                    "Executable inspection depends on the unresolved working directory.",
                ), "Resolve command.directory first.");
            },
            DirectoryCheck::Usable(program) => {
                let (outcome, observation) = path_observation(Ok(()), c.directory_shown.as_str());
                self.add(owned("command.directory"), "commands", copy_string(&subject), outcome, true, observation,
                    "Correct the declared working directory or access permissions; doctor never creates directories.");
                let (found, seen) = program_observation(program);
                self.add(owned("command.executable"), "commands", copy_string(&subject), found, true, seen,
                    "Review the declared executable and current PATH in the intended environment; request installation separately if required.");
                self.add(owned("command.execution"), "execution", subject, Outcome::Unverified, false, owned(
                    "Command arguments, scripts and nested environments were not executed or verified.",
                ), "For WSL, containers, shells or tool-manager shims, inspect inside the intended environment; run reviewed canonical checks separately.");
            },
        }
        assert(finding_views(self.findings@) =~= start + command_views(*c));
    }

    /// Records each declared command's working directory and program, in order.
    pub fn commands(&mut self, cs: &Vec<CommandCheck>)
        ensures
            appended(*old(self), *final(self), commands_part(cs@)),
    {
        let ghost start = finding_views(self.findings@);
        let mut i: usize = 0;
        assert(cs@.subrange(0, 0) =~= Seq::<CommandCheck>::empty());
        assert(start + commands_part(Seq::<CommandCheck>::empty()) =~= start);
        while i < cs.len()
            invariant
                i <= cs@.len(),
                self.remote_requested == old(self).remote_requested,
                self.plugin_selected == old(self).plugin_selected,
                self.exit_code == old(self).exit_code,
                start == finding_views(old(self).findings@),
                finding_views(self.findings@) == start + commands_part(cs@.subrange(0, i as int)),
            decreases cs.len() - i,
        {
            let ghost before = finding_views(self.findings@);
            self.command(&cs[i]);
            assert(cs@.subrange(0, i + 1).drop_last() =~= cs@.subrange(0, i as int));
            assert(cs@.subrange(0, i + 1).last() == cs@[i as int]);
            assert(finding_views(self.findings@) =~= start + commands_part(cs@.subrange(0, i + 1)));
            i = i + 1;
        }
        assert(cs@.subrange(0, cs@.len() as int) =~= cs@);
    }

    /// Records each declared authority, in order.
    pub fn authorities(&mut self, v: &Vec<AuthorityCheck>)
        ensures
            appended(*old(self), *final(self), authorities_part(v@)),
    {
        let ghost start = finding_views(self.findings@);
        let mut i: usize = 0;
        while i < v.len()
            invariant
                i <= v@.len(),
                self.remote_requested == old(self).remote_requested,
                self.plugin_selected == old(self).plugin_selected,
                self.exit_code == old(self).exit_code,
                start == finding_views(old(self).findings@),
                finding_views(self.findings@) == start + authorities_part(v@.subrange(0, i as int)),
            decreases v.len() - i,
        {
            let ghost before = finding_views(self.findings@);
            match &v[i] {
                AuthorityCheck::Path { name, shown, check } => {
                    let (outcome, observation) = path_observation(*check, shown.as_str());
                    self.add(owned("authority.path"), "authorities", joined("authorities.", name.as_str()), outcome, true,
                        observation,
                        "Review the existing authority location and access permissions; do not create or relocate project documents just to match a convention.");
                },
                AuthorityCheck::External { name } => {
                    self.add(owned("authority.external"), "authorities", joined("authorities.", name.as_str()),
                        Outcome::Unverified, false, owned(
                        "External authority was not fetched; its URL and any embedded credentials are not echoed.",
                    ), "Use the declared authority when the task needs it; doctor never follows arbitrary authority URLs.");
                },
            }
            assert(finding_views(self.findings@) == before.push(authority_view(v@[i as int])));
            assert(authorities_part(v@.subrange(0, i + 1)) =~= authorities_part(v@.subrange(0, i as int)).push(
                authority_view(v@[i as int])));
            i = i + 1;
        }
        assert(v@.subrange(0, v@.len() as int) =~= v@);
    }

    fn gap(&mut self, missing: bool, id: &str, observation: &str, next: &str)
        ensures
            appended(*old(self), *final(self), gap_if(missing, id@, observation@, next@)),
    {
        let ghost start = finding_views(self.findings@);
        if missing {
            self.add(joined("gap.", id), "adoption_delivery", owned(id), Outcome::MigrationRequired, false, owned(observation),
                next);
        }
        assert(finding_views(self.findings@) =~= start + gap_if(missing, id@, observation@, next@));
    }

    /// Records what the contract leaves for adoption or delivery to settle.
    pub fn gaps(&mut self, g: &ContractGaps)
        ensures
            appended(*old(self), *final(self), gaps_part(*g)),
    {
        let ghost start = finding_views(self.findings@);
        self.gap(g.ci_unconfigured, "ci", "CI provider is unconfigured.",
            "Resolve provider selection through the adoption decision flow.");
        let ghost a = finding_views(self.findings@);
        self.gap(g.coverage_unconfigured, "coverage", "Coverage evidence is unconfigured.",
            "Review proportionate coverage evidence during adoption; doctor does not select a tool or threshold.");
        let ghost b = finding_views(self.findings@);
        self.gap(g.delivery_migration_required, "delivery", "Delivery qualification is migration_required.",
            "Resolve the tracked delivery migration before qualified delivery.");
        let ghost c = finding_views(self.findings@);
        self.gap(g.recovery_unconfigured, "recovery", "Automated recovery is unconfigured.",
            "Review and test a project-appropriate recovery strategy before delivery.");
        let ghost d = finding_views(self.findings@);
        self.gap(g.no_commands, "commands", "No canonical project commands are declared.",
            "Review and declare the project's actual verification commands; doctor does not infer tooling.");
        assert(finding_views(self.findings@) =~= start + gaps_part(*g));
    }

    fn capability(&mut self, name: &str, c: &RemoteCapability)
        ensures
            appended(*old(self), *final(self), seq![capability_view(name@, *c)]),
    {
        let ghost start = finding_views(self.findings@);
        let observation = match &c.diagnostic {
            Some(d) => copy_string(d),
            None => {
                let mut summaries: Vec<String> = Vec::new();
                let mut i: usize = 0;
                while i < c.evidence.len()
                    invariant
                        i <= c.evidence@.len(),
                        summaries@.len() == i,
                        forall|k: int| 0 <= k < i ==> (#[trigger] summaries@[k])@ == c.evidence@[k].summary@,
                    decreases c.evidence.len() - i,
                {
                    summaries.push(copy_string(&c.evidence[i].summary));
                    i = i + 1;
                }
                assert(text_views(summaries@) =~= c.evidence@.map_values(|e: Evidence| e.summary@));
                join_texts(&summaries, "; ")
            },
        };
        let required = !same_text(name, "trunk_pipeline") || c.outcome != Outcome::Unverified;
        self.add(joined("remote.", name), "remote", owned(name), c.outcome, required, observation,
            "Review this specific provider observation and its visibility with existing credentials; read access does not establish write permission, exact-revision CI qualification or release readiness.");
        assert(finding_views(self.findings@) =~= start + seq![capability_view(name@, *c)]);
    }

    /// Records each provider observation of the remote audit.
    pub fn append_remote(&mut self, audit: &RemoteAudit)
        ensures
            appended(*old(self), *final(self), audit_part(*audit)),
    {
        let ghost start = finding_views(self.findings@);
        self.capability("ci", &audit.ci);
        self.capability("trunk", &audit.trunk);
        self.capability("trunk_protection", &audit.trunk_protection);
        self.capability("trunk_pipeline", &audit.trunk_pipeline);
        self.capability("branch_lifecycle", &audit.branch_lifecycle);
        assert(finding_views(self.findings@) =~= start + audit_part(*audit));
    }
}

/// How reading the project contract ended.
#[derive(Debug)]
pub enum ContractRead {
    Absent,
    /// It could not be read safely.
    Unreadable,
    /// It was read but is invalid or of an unsupported schema.
    Invalid,
    Valid(ValidContract),
}

/// What is inspected of a valid contract.
#[derive(Debug)]
pub struct ValidContract {
    pub schema: u32,
    pub commands: Vec<CommandCheck>,
    pub authorities: Vec<AuthorityCheck>,
    pub gaps: ContractGaps,
    /// The provider's audit, where remote inspection could start; looked at
    /// only where remote inspection was requested.
    pub remote: Option<RemoteAudit>,
}

pub open spec fn manifest_path() -> Seq<char> {
    ".opdev/project.yaml"@
}

pub open spec fn contract_part(remote_requested: bool, c: ContractRead) -> Seq<FindingView> {
    match c {
        ContractRead::Absent => seq![made("project.contract"@, "project"@, manifest_path(), Outcome::NotApplicable, false,
            "No project contract found; runtime-only inspection. Project readiness was not assessed and adoption was not started."@,
            "For substantive development, offer OpDev adoption and wait for consent; routine operations need no adoption."@)]
            + (if remote_requested {
                seq![made("remote.blocked"@, "remote"@, "provider observations"@, Outcome::Unverified, true,
                    "Requested remote inspection needs an existing valid project contract."@,
                    "Select an initialized project; doctor does not create a contract."@)]
            } else {
                Seq::empty()
            }),
        ContractRead::Unreadable => seq![error_view("project.contract"@, manifest_path())],
        ContractRead::Invalid => seq![error_view("project.contract"@, manifest_path()),
            made("project.dependents"@, "project"@, "commands, authorities, gaps and remote"@, Outcome::Unverified, true,
                "Dependent checks were not attempted because the project contract is invalid or unsupported."@,
                "Resolve project.contract first; independent runtime and inventory observations remain available."@)],
        ContractRead::Valid(v) => seq![made("project.contract"@, "project"@, manifest_path(), Outcome::Passed, true,
            "Project schema "@ + decimal(v.schema as nat) + " parsed and validated; no policies selected or changed."@,
            "Review command and authority prerequisites below; a valid contract is not completed adoption."@)]
            + commands_part(v.commands@) + authorities_part(v.authorities@) + gaps_part(v.gaps)
            + (if remote_requested { remote_part(v.remote) } else { Seq::empty() }),
    }
}

pub open spec fn not_requested_part(remote_requested: bool) -> Seq<FindingView> {
    if remote_requested {
        Seq::empty()
    } else {
        seq![made("remote.not_requested"@, "remote"@, "provider observations"@, Outcome::Unverified, false,
            "Remote access and provider settings were not inspected; no network or credential lookup was requested."@,
            "Use --remote only when read-only provider inspection is relevant and authorized."@)]
    }
}

/// What one readable CI file shows, as a finding.
pub open spec fn ci_file_view(f: CiFile) -> FindingView {
    match f.source {
        CiSource::Parsed(doc) => made("inventory.ci_pins"@, "inventory"@, f.key@, Outcome::Unverified, false,
            pins_detail(f.key@, pins(doc)), source_next()),
        _ => error_view("inventory.ci_pins"@, f.key@),
    }
}

pub open spec fn ci_error_view() -> FindingView {
    error_view("inventory.ci"@, "local CI configuration paths"@)
}

/// The CI files in order of their paths up to the first that could not be
/// read; then that CI is not qualified, or that the CI paths could not be
/// inspected (also where they could not be listed at all).
pub open spec fn ci_part(ci: Option<Seq<CiFile>>) -> Seq<FindingView> {
    match ci {
        None => seq![ci_error_view()],
        Some(files) => {
            let s = sorted_files(files);
            let n = readable_prefix(s);
            Seq::new(n as nat, |k: int| ci_file_view(s[k])) + (if n == files.len() {
                seq![made("inventory.ci_qualification"@, "inventory"@, "ci_qualification"@, Outcome::Unverified, false,
                    ci_qualification_text(), inventory_next("ci_qualification"@))]
            } else {
                seq![ci_error_view()]
            })
        },
    }
}

impl DoctorReport {
    /// Records what reading the project contract showed, and what depends on it.
    pub fn project_contract(&mut self, contract: &ContractRead)
        ensures
            appended(*old(self), *final(self), contract_part(old(self).remote_requested, *contract)),
    {
        let ghost start = finding_views(self.findings@);
        match contract {
            ContractRead::Absent => {
                self.add(owned("project.contract"), "project", owned(".opdev/project.yaml"), Outcome::NotApplicable, false, owned(
                    "No project contract found; runtime-only inspection. Project readiness was not assessed and adoption was not started.",
                ), "For substantive development, offer OpDev adoption and wait for consent; routine operations need no adoption.");
                if self.remote_requested {
                    self.add(owned("remote.blocked"), "remote", owned("provider observations"), Outcome::Unverified, true, owned(
                        "Requested remote inspection needs an existing valid project contract.",
                    ), "Select an initialized project; doctor does not create a contract.");
                }
            },
            ContractRead::Unreadable => {
                self.inspection_error("project.contract", ".opdev/project.yaml");
            },
            ContractRead::Invalid => {
                self.inspection_error("project.contract", ".opdev/project.yaml");
                self.add(owned("project.dependents"), "project", owned("commands, authorities, gaps and remote"),
                    Outcome::Unverified, true, owned(
                    "Dependent checks were not attempted because the project contract is invalid or unsupported.",
                ), "Resolve project.contract first; independent runtime and inventory observations remain available.");
            },
            ContractRead::Valid(v) => {
                let t = joined("Project schema ", decimal_text(v.schema as u64).as_str());
                self.add(owned("project.contract"), "project", owned(".opdev/project.yaml"), Outcome::Passed, true,
                    joined(t.as_str(), " parsed and validated; no policies selected or changed."),
                    "Review command and authority prerequisites below; a valid contract is not completed adoption.");
                let ghost a = finding_views(self.findings@);
                self.commands(&v.commands);
                let ghost b = finding_views(self.findings@);
                self.authorities(&v.authorities);
                let ghost c = finding_views(self.findings@);
                self.gaps(&v.gaps);
                let ghost d = finding_views(self.findings@);
                if self.remote_requested {
                    match &v.remote {
                        Some(audit) => self.append_remote(audit),
                        None => {
                            self.add(owned("remote.configuration"), "remote", owned("provider observations"), Outcome::Unverified,
                                true, owned(
                                "Remote inspection could not start with the declared provider and repository. No alternate host or login was attempted.",
                            ), "Review the provider/remote configuration and supported provider capabilities. Authentication changes require a separate explicit action.");
                        },
                    }
                }
                assert(finding_views(self.findings@) =~= d + (if self.remote_requested { remote_part(v.remote) } else {
                    Seq::empty() }));
            },
        }
        assert(finding_views(self.findings@) =~= start + contract_part(self.remote_requested, *contract));
    }

    /// Records that remote access was not requested, where it was not.
    pub fn remote_not_requested(&mut self)
        ensures
            appended(*old(self), *final(self), not_requested_part(old(self).remote_requested)),
    {
        let ghost start = finding_views(self.findings@);
        if !self.remote_requested {
            self.add(owned("remote.not_requested"), "remote", owned("provider observations"), Outcome::Unverified, false, owned(
                "Remote access and provider settings were not inspected; no network or credential lookup was requested.",
            ), "Use --remote only when read-only provider inspection is relevant and authorized.");
        }
        assert(finding_views(self.findings@) =~= start + not_requested_part(self.remote_requested));
    }

    /// Records what the project's CI files show (`None`: they could not be
    /// listed safely).
    pub fn ci_inventory(&mut self, ci: Option<Vec<CiFile>>)
        ensures
            appended(*old(self), *final(self), ci_part(match ci {
                Some(files) => Some(files@),
                None => None,
            })),
    {
        let ghost start = finding_views(self.findings@);
        match ci {
            None => {
                self.inspection_error("inventory.ci", "local CI configuration paths");
                assert(finding_views(self.findings@) =~= start + ci_part(None));
            },
            Some(files) => {
                let ghost given = files@;
                let ghost s = sorted_files(given);
                let ghost n = readable_prefix(s);
                let (obs, complete) = ci_observations(files);
                self.inventory(&obs);
                if !complete {
                    self.inspection_error("inventory.ci", "local CI configuration paths");
                }
                let ghost shown = inventory_views(obs@, self.plugin_selected);
                proof {
                    reveal_strlit("inventory.");
                    reveal_strlit("ci_pins");
                    reveal_strlit("inventory.ci_pins");
                    reveal_strlit("ci_qualification");
                    reveal_strlit("inventory.ci_qualification");
                    reveal_strlit("plugin");
                    reveal_strlit("runtime_pin");
                    assert("inventory."@ + "ci_pins"@ =~= "inventory.ci_pins"@);
                    assert("inventory."@ + "ci_qualification"@ =~= "inventory.ci_qualification"@);
                }
                assert forall|k: int| 0 <= k < n implies #[trigger] shown[k] == ci_file_view(s[k]) by {
                    assert(ci_file_ok(obs@[k], s[k]));
                }
                if complete {
                    assert(shown[n] == made("inventory.ci_qualification"@, "inventory"@, "ci_qualification"@,
                        Outcome::Unverified, false, ci_qualification_text(), inventory_next("ci_qualification"@)));
                }
                assert(finding_views(self.findings@) =~= start + ci_part(Some(given)));
            },
        }
    }
}

/// What was seen of a selected plugin directory, up to where its inspection
/// failed, if it did.
#[derive(Debug)]
pub struct PluginInventory {
    pub observations: Vec<Observation>,
    pub failed: bool,
}

/// What was read of the project below a usable root.
#[derive(Debug)]
pub struct ProjectRead {
    pub contract: ContractRead,
    /// The project's CI files; `None` where they could not be listed safely.
    pub ci: Option<Vec<CiFile>>,
}

/// Everything a readiness inspection observed, gathered without running
/// project commands.
#[derive(Debug)]
pub struct DoctorInputs {
    pub remote_requested: bool,
    pub plugin_selected: bool,
    /// Whether the running executable's digest was taken.
    pub executable_recorded: bool,
    pub plugin: PluginInventory,
    /// `None` where the root could not be resolved.
    pub project: Option<ProjectRead>,
}

pub open spec fn plugin_part(p: PluginInventory, plugin_selected: bool) -> Seq<FindingView> {
    inventory_views(p.observations@, plugin_selected) + (if p.failed {
        seq![error_view("inventory.plugin"@, "--plugin-root compatibility contract/runtime.lock"@)]
    } else {
        Seq::empty()
    })
}

pub open spec fn project_part(remote_requested: bool, p: Option<ProjectRead>) -> Seq<FindingView> {
    match p {
        None => seq![error_view("project.root"@, "--root directory"@)],
        Some(r) => contract_part(remote_requested, r.contract) + not_requested_part(remote_requested) + ci_part(match r.ci {
            Some(files) => Some(files@),
            None => None,
        }),
    }
}

/// The findings of a readiness inspection, in order: the running CLI, its
/// environment, the plugin, then the project.
pub open spec fn doctor_views(i: DoctorInputs) -> Seq<FindingView> {
    identity_part(i.executable_recorded) + environment_part() + plugin_part(i.plugin, i.plugin_selected)
        + project_part(i.remote_requested, i.project)
}

/// Read-only readiness findings and their exit code.
pub fn inspect(inputs: DoctorInputs) -> (r: DoctorReport)
    ensures
        r.remote_requested == inputs.remote_requested,
        r.plugin_selected == inputs.plugin_selected,
        finding_views(r.findings@) == doctor_views(inputs),
        r.exit_code == exit_code_of(doctor_views(inputs)),
{
    let ghost all = doctor_views(inputs);
    let DoctorInputs { remote_requested, plugin_selected, executable_recorded, plugin, project } = inputs;
    let mut report = DoctorReport::new(remote_requested, plugin_selected);
    assert(finding_views(report.findings@) =~= Seq::<FindingView>::empty());
    report.runtime_identity(executable_recorded);
    report.environment_scope();
    let ghost a = finding_views(report.findings@);
    report.inventory(&plugin.observations);
    if plugin.failed {
        report.inspection_error("inventory.plugin", "--plugin-root compatibility contract/runtime.lock");
    }
    assert(finding_views(report.findings@) =~= a + plugin_part(plugin, plugin_selected));
    let ghost b = finding_views(report.findings@);
    match project {
        None => {
            report.inspection_error("project.root", "--root directory");
            assert(finding_views(report.findings@) =~= b + project_part(remote_requested, None));
        },
        Some(read) => {
            let ghost given = read;
            let ghost ci = match &read.ci {
                Some(files) => Some(files@),
                None => None,
            };
            let ProjectRead { contract, ci: files } = read;
            report.project_contract(&contract);
            report.remote_not_requested();
            let ghost c = finding_views(report.findings@);
            report.ci_inventory(files);
            assert(finding_views(report.findings@) =~= c + ci_part(ci));
            assert(finding_views(report.findings@) =~= b + project_part(remote_requested, Some(given)));
        },
    }
    assert(finding_views(report.findings@) =~= all);
    report.finish();
    report
}

/// Every passed finding says that no repair is indicated.
pub open spec fn passes_need_no_repair(v: Seq<FindingView>) -> bool {
    forall|k: int| 0 <= k < v.len() && (#[trigger] v[k]).3 == Outcome::Passed ==> v[k].6 == pass_next_text()
}

proof fn lemma_no_repair_concat(a: Seq<FindingView>, b: Seq<FindingView>)
    requires
        passes_need_no_repair(a),
        passes_need_no_repair(b),
    ensures
        passes_need_no_repair(a + b),
{
    assert forall|k: int| 0 <= k < (a + b).len() && (#[trigger] (a + b)[k]).3 == Outcome::Passed implies (a + b)[k].6
        == pass_next_text() by {
        if k < a.len() {
            assert((a + b)[k] == a[k]);
        } else {
            assert((a + b)[k] == b[k - a.len()]);
        }
    }
}

proof fn lemma_no_repair_commands(cs: Seq<CommandCheck>)
    ensures
        passes_need_no_repair(commands_part(cs)),
    decreases cs.len(),
{
    if cs.len() > 0 {
        lemma_no_repair_commands(cs.drop_last());
        lemma_no_repair_concat(commands_part(cs.drop_last()), command_views(cs.last()));
    }
}

proof fn lemma_no_repair_contract(remote_requested: bool, c: ContractRead)
    ensures
        passes_need_no_repair(contract_part(remote_requested, c)),
{
    match c {
        ContractRead::Absent => {
            let e: Seq<FindingView> = Seq::empty();
            let r = seq![made("remote.blocked"@, "remote"@, "provider observations"@, Outcome::Unverified, true,
                "Requested remote inspection needs an existing valid project contract."@,
                "Select an initialized project; doctor does not create a contract."@)];
            lemma_no_repair_concat(seq![made("project.contract"@, "project"@, manifest_path(), Outcome::NotApplicable, false,
                "No project contract found; runtime-only inspection. Project readiness was not assessed and adoption was not started."@,
                "For substantive development, offer OpDev adoption and wait for consent; routine operations need no adoption."@)],
                if remote_requested { r } else { e });
        },
        ContractRead::Valid(v) => {
            let head = seq![made("project.contract"@, "project"@, manifest_path(), Outcome::Passed, true,
                "Project schema "@ + decimal(v.schema as nat) + " parsed and validated; no policies selected or changed."@,
                "Review command and authority prerequisites below; a valid contract is not completed adoption."@)];
            lemma_no_repair_commands(v.commands@);
            lemma_no_repair_concat(head, commands_part(v.commands@));
            lemma_no_repair_concat(head + commands_part(v.commands@), authorities_part(v.authorities@));
            let g = v.gaps;
            let g1 = gap_if(g.ci_unconfigured, "ci"@, "CI provider is unconfigured."@,
                "Resolve provider selection through the adoption decision flow."@);
            let g2 = gap_if(g.coverage_unconfigured, "coverage"@, "Coverage evidence is unconfigured."@,
                "Review proportionate coverage evidence during adoption; doctor does not select a tool or threshold."@);
            let g3 = gap_if(g.delivery_migration_required, "delivery"@, "Delivery qualification is migration_required."@,
                "Resolve the tracked delivery migration before qualified delivery."@);
            let g4 = gap_if(g.recovery_unconfigured, "recovery"@, "Automated recovery is unconfigured."@,
                "Review and test a project-appropriate recovery strategy before delivery."@);
            let g5 = gap_if(g.no_commands, "commands"@, "No canonical project commands are declared."@,
                "Review and declare the project's actual verification commands; doctor does not infer tooling."@);
            lemma_no_repair_concat(g1, g2);
            lemma_no_repair_concat(g1 + g2, g3);
            lemma_no_repair_concat(g1 + g2 + g3, g4);
            lemma_no_repair_concat(g1 + g2 + g3 + g4, g5);
            let front = head + commands_part(v.commands@) + authorities_part(v.authorities@);
            lemma_no_repair_concat(front, gaps_part(g));
            let e: Seq<FindingView> = Seq::empty();
            lemma_no_repair_concat(front + gaps_part(g), if remote_requested { remote_part(v.remote) } else { e });
        },
        _ => {},
    }
}

/// Whatever a readiness inspection observes, a passed finding never asks for
/// a repair: its next step says that none is indicated.
pub proof fn lemma_passed_findings_need_no_repair(inputs: DoctorInputs)
    ensures
        passes_need_no_repair(doctor_views(inputs)),
{
    let sel = inputs.plugin_selected;
    let rr = inputs.remote_requested;
    let e: Seq<FindingView> = Seq::empty();
    lemma_no_repair_concat(identity_part(inputs.executable_recorded), environment_part());
    lemma_no_repair_concat(inventory_views(inputs.plugin.observations@, sel), if inputs.plugin.failed {
        seq![error_view("inventory.plugin"@, "--plugin-root compatibility contract/runtime.lock"@)]
    } else {
        e
    });
    lemma_no_repair_concat(identity_part(inputs.executable_recorded) + environment_part(), plugin_part(inputs.plugin, sel));
    match inputs.project {
        None => {},
        Some(r) => {
            lemma_no_repair_contract(rr, r.contract);
            lemma_no_repair_concat(contract_part(rr, r.contract), not_requested_part(rr));
            let ci = match r.ci {
                Some(files) => Some(files@),
                None => None,
            };
            match ci {
                None => {},
                Some(files) => {
                    let s = sorted_files(files);
                    let n = readable_prefix(s);
                    let q = seq![made("inventory.ci_qualification"@, "inventory"@, "ci_qualification"@, Outcome::Unverified,
                        false, ci_qualification_text(), inventory_next("ci_qualification"@))];
                    let x = seq![ci_error_view()];
                    lemma_no_repair_concat(Seq::new(n as nat, |k: int| ci_file_view(s[k])), if n == files.len() { q } else { x });
                },
            }
            lemma_no_repair_concat(contract_part(rr, r.contract) + not_requested_part(rr), ci_part(ci));
        },
    }
    lemma_no_repair_concat(identity_part(inputs.executable_recorded) + environment_part() + plugin_part(inputs.plugin, sel),
        project_part(rr, inputs.project));
}

proof fn lemma_contains_in_concat(a: Seq<FindingView>, b: Seq<FindingView>, x: FindingView)
    ensures
        a.contains(x) ==> (a + b).contains(x),
        b.contains(x) ==> (a + b).contains(x),
{
    if a.contains(x) {
        let k = choose|k: int| 0 <= k < a.len() && a[k] == x;
        assert((a + b)[k] == a[k]);
    }
    if b.contains(x) {
        let k = choose|k: int| 0 <= k < b.len() && b[k] == x;
        assert((a + b)[a.len() + k] == b[k]);
    }
}

/// An unconfigured CI provider is always reported: whenever a valid contract
/// leaves the CI provider unconfigured, the readiness report holds a `gap.ci`
/// finding that needs migration and says so, whatever else the contract,
/// the plugin or the remote shows.
pub proof fn lemma_unconfigured_ci_is_reported(inputs: DoctorInputs, report: DoctorReport)
    requires
        finding_views(report.findings@) == doctor_views(inputs),
        inputs.project matches Some(p) && p.contract matches ContractRead::Valid(v) && v.gaps.ci_unconfigured,
    ensures
        exists|k: int| 0 <= k < report.findings@.len() && (#[trigger] report.findings@[k]).id@ == "gap.ci"@
            && report.findings@[k].outcome == Outcome::MigrationRequired
            && report.findings@[k].observation@ == "CI provider is unconfigured."@
            && report.findings@[k].scope@ == "adoption_delivery"@ && report.findings@[k].subject@ == "ci"@
            && !report.findings@[k].required,
{
    reveal_strlit("gap.");
    reveal_strlit("ci");
    reveal_strlit("gap.ci");
    let p = inputs.project->0;
    let v = p.contract->Valid_0;
    let g = v.gaps;
    let x = gap_view("ci"@, "CI provider is unconfigured."@, "Resolve provider selection through the adoption decision flow."@);
    let first = gap_if(g.ci_unconfigured, "ci"@, "CI provider is unconfigured."@,
        "Resolve provider selection through the adoption decision flow."@);
    assert(first[0] == x);
    assert(first.contains(x));
    let g2 = gap_if(g.coverage_unconfigured, "coverage"@, "Coverage evidence is unconfigured."@,
        "Review proportionate coverage evidence during adoption; doctor does not select a tool or threshold."@);
    let g3 = gap_if(g.delivery_migration_required, "delivery"@, "Delivery qualification is migration_required."@,
        "Resolve the tracked delivery migration before qualified delivery."@);
    let g4 = gap_if(g.recovery_unconfigured, "recovery"@, "Automated recovery is unconfigured."@,
        "Review and test a project-appropriate recovery strategy before delivery."@);
    let g5 = gap_if(g.no_commands, "commands"@, "No canonical project commands are declared."@,
        "Review and declare the project's actual verification commands; doctor does not infer tooling."@);
    lemma_contains_in_concat(first, g2, x);
    lemma_contains_in_concat(first + g2, g3, x);
    lemma_contains_in_concat(first + g2 + g3, g4, x);
    lemma_contains_in_concat(first + g2 + g3 + g4, g5, x);
    assert(gaps_part(g) == first + g2 + g3 + g4 + g5);
    let head = seq![made("project.contract"@, "project"@, manifest_path(), Outcome::Passed, true,
        "Project schema "@ + decimal(v.schema as nat) + " parsed and validated; no policies selected or changed."@,
        "Review command and authority prerequisites below; a valid contract is not completed adoption."@)]
        + commands_part(v.commands@) + authorities_part(v.authorities@);
    let tail = if inputs.remote_requested { remote_part(v.remote) } else { Seq::<FindingView>::empty() };
    lemma_contains_in_concat(head, gaps_part(g), x);
    lemma_contains_in_concat(head + gaps_part(g), tail, x);
    let c = contract_part(inputs.remote_requested, p.contract);
    assert(c == head + gaps_part(g) + tail);
    let rest = not_requested_part(inputs.remote_requested) + ci_part(match p.ci { Some(files) => Some(files@), None => None });
    lemma_contains_in_concat(c, not_requested_part(inputs.remote_requested), x);
    lemma_contains_in_concat(c + not_requested_part(inputs.remote_requested),
        ci_part(match p.ci { Some(files) => Some(files@), None => None }), x);
    let front = identity_part(inputs.executable_recorded) + environment_part() + plugin_part(inputs.plugin, inputs.plugin_selected);
    let pp = project_part(inputs.remote_requested, inputs.project);
    assert(pp == c + not_requested_part(inputs.remote_requested) + ci_part(match p.ci { Some(files) => Some(files@), None => None }));
    lemma_contains_in_concat(front, pp, x);
    let all = doctor_views(inputs);
    assert(all == front + pp);
    let k = choose|k: int| 0 <= k < all.len() && all[k] == x;
    assert(finding_views(report.findings@)[k] == finding_view(report.findings@[k]));
    assert(x.0 =~= "gap.ci"@);
}

} // verus!
