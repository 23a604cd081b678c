//! Offline upgrade assessment: what the preview finds, whether it blocks an
//! apply, and whether an apply is approved. Files are read, digested and
//! written by the caller; only managed guidance is ever changed.
use vstd::prelude::*;
use crate::adoption::{blockers_spec, inventory_problem, AdoptionCatalog, AdoptionError, AdoptionRecord};
use crate::inspection::Observation;
use crate::junit::{sha256_hex, sha256_hex_of};
use crate::manifest::ProjectManifest;
use crate::outcome::Outcome;
use crate::text::{copy_string, decimal, decimal_text, join_texts, joined, joined_with, owned, same_text, text_views};

verus! {

/// One finding of an upgrade preview.
#[derive(Debug)]
pub struct UpgradeFinding {
    pub component: String,
    pub outcome: Outcome,
    pub detail: String,
}

/// A finding as plain values: component, outcome, detail.
pub type UpgradeView = (Seq<char>, Outcome, Seq<char>);

pub open spec fn upgrade_views(v: Seq<UpgradeFinding>) -> Seq<UpgradeView> {
    v.map_values(|f: UpgradeFinding| (f.component@, f.outcome, f.detail@))
}

/// How loading the adoption record ended.
#[derive(Debug)]
pub enum AdoptionLoad {
    Absent,
    Loaded(AdoptionRecord),
    /// It could not be loaded, for this reason.
    Failed(String),
}

/// How an assurance profile pinned by the contract resolved.
#[derive(Debug)]
pub struct ProfileCheck {
    pub name: String,
    pub version: String,
    /// Why it did not resolve, where it did not.
    pub problem: Option<String>,
}

pub open spec fn schema_view(schema: u32) -> UpgradeView {
    ("project_schema"@, Outcome::Passed, "Schema "@ + decimal(schema as nat) + " is supported; no schema migration is applied."@)
}

/// The adoption state an upgrade finds: a legacy project stays unassessed,
/// complete decisions still need checks and evidence, open decisions need
/// migration, and an unreadable record is an error.
pub open spec fn adoption_view(load: AdoptionLoad, manifest: ProjectManifest, catalog: AdoptionCatalog) -> UpgradeView {
    match load {
        AdoptionLoad::Absent => ("adoption"@, Outcome::Unverified,
            "Legacy-unassessed project; no adoption record created. Assessment remains a separate explicit choice."@),
        AdoptionLoad::Loaded(record) => match inventory_problem(record, catalog) {
            Some(m) => ("adoption"@, Outcome::Error, "invalid adoption record: "@ + m),
            None => {
                let b = blockers_spec(record, manifest.testing.suites@, catalog);
                if b.len() == 0 {
                    ("adoption"@, Outcome::Unverified,
                        "Decisions are structurally complete; adoption check and fresh evidence still required."@)
                } else {
                    ("adoption"@, Outcome::MigrationRequired, joined_with(b, "; "@))
                }
            },
        },
        AdoptionLoad::Failed(e) => ("adoption"@, Outcome::Error, e@ + "; no automatic adoption migration exists"@),
    }
}

pub open spec fn profile_view(p: ProfileCheck) -> UpgradeView {
    let detail = p.name@ + " "@ + p.version@;
    match p.problem {
        None => ("assurance_profile"@, Outcome::Passed, detail + ": available, pin unchanged (not a compliance verdict)"@),
        Some(e) => ("assurance_profile"@, Outcome::Error, detail + ": "@ + e@),
    }
}

pub open spec fn observation_view(o: Observation) -> UpgradeView {
    (o.component@, o.outcome, o.detail@)
}

pub open spec fn observation_views(v: Seq<Observation>) -> Seq<UpgradeView> {
    v.map_values(|o: Observation| observation_view(o))
}

pub open spec fn profile_views(v: Seq<ProfileCheck>) -> Seq<UpgradeView> {
    v.map_values(|p: ProfileCheck| profile_view(p))
}

pub open spec fn release_view() -> UpgradeView {
    ("release_discovery"@, Outcome::Unverified,
        "Target is the running CLI, not a claim about the newest published release. No network or project commands executed."@)
}

/// The findings of an upgrade preview, in order: schema, adoption,
/// assurance profiles, plugin, CI, release discovery.
pub open spec fn preview_views(schema: u32, adoption: AdoptionLoad, manifest: ProjectManifest, catalog: AdoptionCatalog,
    profiles: Seq<ProfileCheck>, plugin: Seq<Observation>, ci: Seq<Observation>) -> Seq<UpgradeView> {
    seq![schema_view(schema), adoption_view(adoption, manifest, catalog)]
        + profile_views(profiles) + observation_views(plugin) + observation_views(ci)
        + seq![release_view()]
}

fn finding(component: &str, outcome: Outcome, detail: String) -> (r: UpgradeFinding)
    ensures
        (r.component@, r.outcome, r.detail@) == (component@, outcome, detail@),
{
    UpgradeFinding { component: owned(component), outcome, detail }
}

fn adoption_finding(load: &AdoptionLoad, manifest: &ProjectManifest, catalog: &AdoptionCatalog) -> (r: UpgradeFinding)
    ensures
        (r.component@, r.outcome, r.detail@) == adoption_view(*load, *manifest, *catalog),
{
    match load {
        AdoptionLoad::Absent => finding("adoption", Outcome::Unverified, owned(
            "Legacy-unassessed project; no adoption record created. Assessment remains a separate explicit choice.",
        )),
        AdoptionLoad::Loaded(record) => match record.blockers(manifest, catalog) {
            Err(AdoptionError::Invalid(m)) => finding("adoption", Outcome::Error, joined("invalid adoption record: ", m.as_str())),
            Ok(b) => {
                if b.len() == 0 {
                    finding("adoption", Outcome::Unverified, owned(
                        "Decisions are structurally complete; adoption check and fresh evidence still required.",
                    ))
                } else {
                    proof {
                        assert(text_views(b@) =~= crate::adoption::texts(b@));
                    }
                    finding("adoption", Outcome::MigrationRequired, join_texts(&b, "; "))
                }
            },
        },
        AdoptionLoad::Failed(e) => finding("adoption", Outcome::Error, joined(e.as_str(), "; no automatic adoption migration exists")),
    }
}

fn push_observations(out: &mut Vec<UpgradeFinding>, obs: &Vec<Observation>)
    ensures
        upgrade_views(final(out)@) == upgrade_views(old(out)@) + observation_views(obs@),
{
    let ghost start = upgrade_views(out@);
    let mut i: usize = 0;
    while i < obs.len()
        invariant
            i <= obs@.len(),
            upgrade_views(out@) == start + observation_views(obs@.subrange(0, i as int)),
        decreases obs.len() - i,
    {
        let o = &obs[i];
        let ghost before = upgrade_views(out@);
        out.push(finding(o.component.as_str(), o.outcome, copy_string(&o.detail)));
        assert(upgrade_views(out@) =~= before.push(observation_view(*o)));
        assert(obs@.subrange(0, i + 1) =~= obs@.subrange(0, i as int).push(*o));
        assert(upgrade_views(out@) =~= start + observation_views(obs@.subrange(0, i + 1)));
        i = i + 1;
    }
    assert(obs@.subrange(0, obs@.len() as int) =~= obs@);
}

/// The findings of an upgrade preview, from what the caller read: the
/// contract's schema, the adoption record, how each pinned assurance profile
/// resolved, and the plugin and CI inventory observations.
pub fn preview_findings(
    schema: u32,
    adoption: &AdoptionLoad,
    manifest: &ProjectManifest,
    catalog: &AdoptionCatalog,
    profiles: &Vec<ProfileCheck>,
    plugin: &Vec<Observation>,
    ci: &Vec<Observation>,
) -> (r: Vec<UpgradeFinding>)
    ensures
        upgrade_views(r@) == preview_views(schema, *adoption, *manifest, *catalog, profiles@, plugin@, ci@),
{
    let mut out: Vec<UpgradeFinding> = Vec::new();
    let s = joined("Schema ", decimal_text(schema as u64).as_str());
    out.push(finding("project_schema", Outcome::Passed, joined(s.as_str(), " is supported; no schema migration is applied.")));
    out.push(adoption_finding(adoption, manifest, catalog));
    let ghost head = upgrade_views(out@);
    assert(head =~= seq![schema_view(schema), adoption_view(*adoption, *manifest, *catalog)]);
    let mut i: usize = 0;
    while i < profiles.len()
        invariant
            i <= profiles@.len(),
            upgrade_views(out@) == head + profile_views(profiles@.subrange(0, i as int)),
        decreases profiles.len() - i,
    {
        let p = &profiles[i];
        let d = joined(p.name.as_str(), " ");
        let d = joined(d.as_str(), p.version.as_str());
        let f = match &p.problem {
            None => finding("assurance_profile", Outcome::Passed, joined(d.as_str(),
                ": available, pin unchanged (not a compliance verdict)")),
            Some(e) => {
                let t = joined(d.as_str(), ": ");
                finding("assurance_profile", Outcome::Error, joined(t.as_str(), e.as_str()))
            },
        };
        let ghost before = upgrade_views(out@);
        out.push(f);
        assert(upgrade_views(out@) =~= before.push(profile_view(*p)));
        assert(profiles@.subrange(0, i + 1) =~= profiles@.subrange(0, i as int).push(*p));
        assert(upgrade_views(out@) =~= head + profile_views(profiles@.subrange(0, i + 1)));
        i = i + 1;
    }
    assert(profiles@.subrange(0, profiles@.len() as int) =~= profiles@);
    push_observations(&mut out, plugin);
    push_observations(&mut out, ci);
    let ghost before = upgrade_views(out@);
    out.push(finding("release_discovery", Outcome::Unverified, owned(
        "Target is the running CLI, not a claim about the newest published release. No network or project commands executed.",
    )));
    assert(upgrade_views(out@) =~= before.push(release_view()));
    assert(upgrade_views(out@) =~= preview_views(schema, *adoption, *manifest, *catalog, profiles@, plugin@, ci@));
    out
}

/// Whether a preview blocks applying it: some finding failed or erred.
pub open spec fn blocks(v: Seq<UpgradeView>) -> bool {
    exists|k: int| 0 <= k < v.len() && ((#[trigger] v[k]).1 == Outcome::Failed || v[k].1 == Outcome::Error)
}

/// Whether any finding of a preview failed or erred.
pub fn preview_blocked(findings: &Vec<UpgradeFinding>) -> (r: bool)
    ensures
        r == blocks(upgrade_views(findings@)),
{
    let ghost v = upgrade_views(findings@);
    let mut i: usize = 0;
    while i < findings.len()
        invariant
            v == upgrade_views(findings@),
            i <= findings@.len(),
            forall|k: int| 0 <= k < i ==> !((#[trigger] v[k]).1 == Outcome::Failed || v[k].1 == Outcome::Error),
        decreases findings.len() - i,
    {
        assert(v[i as int].1 == findings@[i as int].outcome);
        if findings[i].outcome == Outcome::Failed || findings[i].outcome == Outcome::Error {
            return true;
        }
        i = i + 1;
    }
    false
}

/// Why an upgrade was not applied.
#[derive(Clone, Copy, Debug, PartialEq, Eq, Structural)]
pub enum UpgradeError {
    /// The approved plan is not the current preview.
    Stale,
    /// The preview has compatibility or assessment errors.
    Blocked,
    /// The inputs changed between the preview and the apply.
    InputsChanged,
}

pub open spec fn upgrade_error_text(e: UpgradeError) -> Seq<char> {
    match e {
        UpgradeError::Stale => "upgrade plan is stale or belongs to another target; nothing written. Preview and review again"@,
        UpgradeError::Blocked => "upgrade has compatibility or assessment errors; nothing written. Resolve the preview findings first"@,
        UpgradeError::InputsChanged => "upgrade inputs changed during review; nothing written. Preview again"@,
    }
}

impl UpgradeError {
    pub fn message(&self) -> (r: &'static str)
        ensures
            r@ == upgrade_error_text(*self),
    {
        match self {
            UpgradeError::Stale => "upgrade plan is stale or belongs to another target; nothing written. Preview and review again",
            UpgradeError::Blocked => "upgrade has compatibility or assessment errors; nothing written. Resolve the preview findings first",
            UpgradeError::InputsChanged => "upgrade inputs changed during review; nothing written. Preview again",
        }
    }
}

/// Whether an apply of the reviewed plan `approved` may start: only the
/// exact current plan, and only where the preview does not block.
pub fn approve_apply(approved: &str, plan_id: &str, findings: &Vec<UpgradeFinding>) -> (r: Result<(), UpgradeError>)
    ensures
        approved@ != plan_id@ ==> r == Err::<(), UpgradeError>(UpgradeError::Stale),
        approved@ == plan_id@ && blocks(upgrade_views(findings@)) ==> r == Err::<(), UpgradeError>(UpgradeError::Blocked),
        approved@ == plan_id@ && !blocks(upgrade_views(findings@)) ==> r is Ok,
{
    if !same_text(approved, plan_id) {
        return Err(UpgradeError::Stale);
    }
    if preview_blocked(findings) {
        return Err(UpgradeError::Blocked);
    }
    Ok(())
}

/// Whether the inputs read again just before writing give the reviewed plan.
pub fn confirm_unchanged(plan_id: &str, reread: &str) -> (r: Result<(), UpgradeError>)
    ensures
        plan_id@ == reread@ ==> r is Ok,
        plan_id@ != reread@ ==> r == Err::<(), UpgradeError>(UpgradeError::InputsChanged),
{
    if same_text(plan_id, reread) {
        Ok(())
    } else {
        Err(UpgradeError::InputsChanged)
    }
}

/// The finding recorded once guidance was applied and read back.
pub fn applied_finding() -> (r: UpgradeFinding)
    ensures
        (r.component@, r.outcome, r.detail@) == ("guidance"@, Outcome::Passed,
            "Managed guidance updated and reread. Project checks have NOT run."@),
{
    finding("guidance", Outcome::Passed, owned("Managed guidance updated and reread. Project checks have NOT run."))
}

/// The digest of an input file: none where the file is absent, else the
/// lowercase hexadecimal SHA-256 digest of its bytes.
pub fn input_digest(bytes: Option<&[u8]>) -> (d: Option<String>)
    ensures
        match bytes {
            None => d is None,
            Some(b) => d matches Some(s) && s@ == sha256_hex(b@),
        },
{
    match bytes {
        None => None,
        Some(b) => Some(sha256_hex_of(b)),
    }
}

/// The identity of a preview: the SHA-256 digest of its serialized document,
/// which binds the findings, changes and input digests it holds.
pub fn plan_identity(document: &[u8]) -> (id: String)
    ensures
        id@ == sha256_hex(document@),
{
    sha256_hex_of(document)
}

} // verus!
