//! Read-only inventory observations shared by readiness diagnostics and
//! upgrade previews: plugin compatibility, the packaged runtime pin and the
//! runtime versions that CI files declare. Files are read by the caller;
//! what is observed of them is decided here.
use vstd::prelude::*;
use crate::json::Json;
use crate::outcome::Outcome;
use crate::text::{
    char_is_whitespace, chars_of, copy_string, debug_quoted, debug_text, is_whitespace, join_texts, joined, joined_with, owned,
    same_text, split_by, string_of, text_le, text_le_exec, text_views,
};

verus! {

/// The SemVer version that a text parses to, in its canonical written form.
pub uninterp spec fn semver_version(text: Seq<char>) -> Option<Seq<char>>;

/// The SemVer requirement that a text parses to, in its canonical written form.
pub uninterp spec fn semver_requirement(text: Seq<char>) -> Option<Seq<char>>;

/// Whether the requirement parsed from one text matches the version parsed
/// from another.
pub uninterp spec fn semver_matches(requirement: Seq<char>, version: Seq<char>) -> bool;

/// `semver::Version::parse`, written back with `Display`; `None` where the
/// text is not a version. The contract names the result.
#[verifier::external_body]
fn parse_version(text: &str) -> (r: Option<String>)
    ensures
        match r {
            Some(s) => semver_version(text@) == Some(s@),
            None => semver_version(text@) is None,
        },
{
    match semver::Version::parse(text) {
        Ok(version) => Some(version.to_string()),
        Err(_) => None,
    }
}

/// `semver::VersionReq::parse`, written back with `Display`; `None` where
/// the text is not a requirement. The contract names the result.
#[verifier::external_body]
fn parse_requirement(text: &str) -> (r: Option<String>)
    ensures
        match r {
            Some(s) => semver_requirement(text@) == Some(s@),
            None => semver_requirement(text@) is None,
        },
{
    match semver::VersionReq::parse(text) {
        Ok(requirement) => Some(requirement.to_string()),
        Err(_) => None,
    }
}

/// `semver::VersionReq::matches` of a requirement and a version, both parsed
/// from their texts; the contract names the answer.
#[verifier::external_body]
fn requirement_matches(requirement: &str, version: &str) -> (r: bool)
    requires
        semver_requirement(requirement@) is Some,
        semver_version(version@) is Some,
    ensures
        r == semver_matches(requirement@, version@),
{
    match (semver::VersionReq::parse(requirement), semver::Version::parse(version)) {
        (Ok(requirement), Ok(version)) => requirement.matches(&version),
        _ => false,
    }
}

/// One inventory observation.
#[derive(Debug)]
pub struct Observation {
    /// What was inspected: `plugin`, `runtime_pin`, `ci_pins` or `ci_qualification`.
    pub component: String,
    /// The inspected file, for an observation of one CI file.
    pub source: Option<String>,
    pub outcome: Outcome,
    pub detail: String,
}

pub open spec fn observed(o: Observation, component: Seq<char>, source: Option<Seq<char>>, outcome: Outcome, detail: Seq<char>) -> bool {
    &&& o.component@ == component
    &&& (match (o.source, source) {
        (None, None) => true,
        (Some(a), Some(b)) => a@ == b,
        _ => false,
    })
    &&& o.outcome == outcome
    &&& o.detail@ == detail
}

fn observation(component: &str, outcome: Outcome, detail: String) -> (r: Observation)
    ensures
        observed(r, component@, None, outcome, detail@),
{
    Observation { component: owned(component), source: None, outcome, detail }
}

/// What a plugin's compatibility contract declares.
#[derive(Debug)]
pub struct PluginContract {
    pub schema: u32,
    pub plugin_name: String,
    pub plugin_version: String,
    /// The CLI versions the plugin works with, as a SemVer requirement.
    pub requires_cli: String,
}

pub open spec fn no_plugin_text() -> Seq<char> {
    "No --plugin-root supplied; plugin version, runtime pin and compatibility not inspected. Standalone CLI use is supported."@
}

/// Without a plugin directory nothing of a plugin is inspected.
pub fn no_plugin() -> (r: Observation)
    ensures
        observed(r, "plugin"@, None, Outcome::Unverified, no_plugin_text()),
{
    observation("plugin", Outcome::Unverified, owned(
        "No --plugin-root supplied; plugin version, runtime pin and compatibility not inspected. Standalone CLI use is supported.",
    ))
}

/// The maximal runs of non-whitespace characters of a text, in order
/// (`str::split_whitespace`).
pub open spec fn words(s: Seq<char>) -> Seq<Seq<char>>
    decreases s.len(),
{
    if s.len() == 0 {
        Seq::empty()
    } else if is_whitespace(s.last()) {
        words(s.drop_last())
    } else if s.len() >= 2 && !is_whitespace(s[s.len() - 2]) {
        let p = words(s.drop_last());
        p.update(p.len() - 1, p.last().push(s.last()))
    } else {
        words(s.drop_last()).push(seq![s.last()])
    }
}

/// The word lists of the lines whose first word is `version`, in order.
pub open spec fn version_lines(lines: Seq<Seq<char>>) -> Seq<Seq<Seq<char>>>
    decreases lines.len(),
{
    if lines.len() == 0 {
        Seq::empty()
    } else {
        let p = version_lines(lines.drop_last());
        let w = words(lines.last());
        if w.len() > 0 && w[0] == "version"@ {
            p.push(w)
        } else {
            p
        }
    }
}

/// The packaged runtime pin: the second word of the one line that starts
/// with `version`, when that line has exactly two words and the second is a
/// version. A carriage return before a line feed is whitespace, so splitting
/// at line feeds alone gives the words of `str::lines`.
pub open spec fn runtime_pin(lock: Seq<char>) -> Option<Seq<char>> {
    let v = version_lines(split_by(lock, '\n'));
    if v.len() == 1 && v[0].len() == 2 && semver_version(v[0][1]) is Some {
        Some(v[0][1])
    } else {
        None
    }
}

proof fn lemma_words_nonempty(s: Seq<char>)
    requires
        s.len() > 0,
        !is_whitespace(s.last()),
    ensures
        words(s).len() > 0,
    decreases s.len(),
{
    if s.len() >= 2 && !is_whitespace(s[s.len() - 2]) {
        lemma_words_nonempty(s.drop_last());
    }
}

pub open spec fn char_lists(v: Seq<Vec<char>>) -> Seq<Seq<char>> {
    v.map_values(|w: Vec<char>| w@)
}

fn add_char(acc: &mut Vec<Vec<char>>, line: Ghost<Seq<char>>, in_word: bool, c: char)
    requires
        char_lists(old(acc)@) == words(line@),
        in_word == (line@.len() >= 1 && !is_whitespace(line@.last())),
    ensures
        char_lists(final(acc)@) == words(line@.push(c)),
{
    let ghost s = line@.push(c);
    assert(s.drop_last() =~= line@);
    assert(s.last() == c);
    if char_is_whitespace(c) {
        return;
    }
    if in_word {
        proof {
            lemma_words_nonempty(line@);
            assert(s[s.len() - 2] == line@.last());
        }
        let ghost before = acc@;
        let mut w = acc.pop().unwrap();
        w.push(c);
        acc.push(w);
        assert(char_lists(acc@) =~= char_lists(before).update(char_lists(before).len() - 1,
            char_lists(before).last().push(c)));
    } else {
        let ghost before = acc@;
        let mut w: Vec<char> = Vec::new();
        w.push(c);
        acc.push(w);
        assert(char_lists(acc@) =~= char_lists(before).push(seq![c]));
    }
}

proof fn lemma_split_step(s: Seq<char>, c: char)
    ensures
        c == '\n' ==> split_by(s.push(c), '\n') == split_by(s, '\n').push(Seq::<char>::empty()),
        c != '\n' ==> split_by(s.push(c), '\n').drop_last() == split_by(s, '\n').drop_last(),
        c != '\n' ==> split_by(s.push(c), '\n').last() == split_by(s, '\n').last().push(c),
        split_by(s, '\n').len() >= 1,
    decreases s.len(),
{
    let t = s.push(c);
    assert(t.drop_last() =~= s);
    if s.len() > 0 {
        lemma_split_step(s.drop_last(), s.last());
        assert(s.drop_last().push(s.last()) =~= s);
    }
    if c != '\n' {
        let p = split_by(s, '\n');
        assert(split_by(t, '\n') == p.update(p.len() - 1, p.last().push(c)));
        assert(p.update(p.len() - 1, p.last().push(c)).drop_last() =~= p.drop_last());
    }
}

fn is_version_line(acc: &Vec<Vec<char>>) -> (r: bool)
    ensures
        r == (char_lists(acc@).len() > 0 && char_lists(acc@)[0] == "version"@),
{
    if acc.len() == 0 {
        return false;
    }
    let expected = chars_of("version");
    let w = &acc[0];
    assert(char_lists(acc@)[0] == w@);
    if w.len() != expected.len() {
        assert(char_lists(acc@)[0].len() != "version"@.len());
        return false;
    }
    let mut i: usize = 0;
    while i < w.len()
        invariant
            i <= w@.len(),
            w@.len() == expected@.len(),
            expected@ == "version"@,
            char_lists(acc@)[0] == w@,
            forall|j: int| 0 <= j < i ==> w@[j] == expected@[j],
        decreases w.len() - i,
    {
        if w[i] != expected[i] {
            assert(char_lists(acc@)[0][i as int] != "version"@[i as int]);
            return false;
        }
        i = i + 1;
    }
    assert(char_lists(acc@)[0] =~= "version"@);
    true
}

/// The packaged runtime pin of a `runtime.lock` text, where there is exactly one.
pub fn find_runtime_pin(lock: &str) -> (r: Option<String>)
    ensures
        match r {
            Some(p) => runtime_pin(lock@) == Some(p@),
            None => runtime_pin(lock@) is None,
        },
{
    let chars = chars_of(lock);
    let mut line_words: Vec<Vec<char>> = Vec::new();
    let mut in_word = false;
    let mut count: usize = 0;
    let mut first: Vec<Vec<char>> = Vec::new();
    let mut i: usize = 0;
    proof {
        lemma_split_step(Seq::empty(), 'x');
        assert(chars@.subrange(0, 0) =~= Seq::<char>::empty());
        assert(split_by(Seq::<char>::empty(), '\n') == seq![Seq::<char>::empty()]);
        assert(char_lists(line_words@) =~= words(Seq::<char>::empty()));
        assert(seq![Seq::<char>::empty()].drop_last() =~= Seq::<Seq<char>>::empty());
    }
    while i < chars.len()
        invariant
            chars@ == lock@,
            i <= chars@.len(),
            char_lists(line_words@) == words(split_by(chars@.subrange(0, i as int), '\n').last()),
            in_word == (split_by(chars@.subrange(0, i as int), '\n').last().len() >= 1
                && !is_whitespace(split_by(chars@.subrange(0, i as int), '\n').last().last())),
            count as int == (if version_lines(split_by(chars@.subrange(0, i as int), '\n').drop_last()).len() < 2 {
                version_lines(split_by(chars@.subrange(0, i as int), '\n').drop_last()).len() as int
            } else {
                2
            }),
            count >= 1 ==> char_lists(first@) == version_lines(split_by(chars@.subrange(0, i as int), '\n').drop_last())[0],
        decreases chars.len() - i,
    {
        let ghost pre = chars@.subrange(0, i as int);
        let ghost lines = split_by(pre, '\n');
        let c = chars[i];
        assert(chars@.subrange(0, i + 1) =~= pre.push(c));
        proof {
            lemma_split_step(pre, c);
        }
        if c == '\n' {
            assert(split_by(pre.push(c), '\n').drop_last() =~= lines);
            assert(lines.drop_last().push(lines.last()) =~= lines);
            if is_version_line(&line_words) {
                if count == 0 {
                    first = line_words;
                }
                if count < 2 {
                    count = count + 1;
                }
            }
            line_words = Vec::new();
            in_word = false;
            assert(char_lists(line_words@) =~= words(Seq::<char>::empty()));
        } else {
            add_char(&mut line_words, Ghost(lines.last()), in_word, c);
            in_word = !char_is_whitespace(c);
        }
        i = i + 1;
    }
    let ghost all = split_by(chars@, '\n');
    assert(chars@.subrange(0, chars@.len() as int) =~= chars@);
    proof {
        lemma_split_step(chars@, 'x');
        assert(all.drop_last().push(all.last()) =~= all);
    }
    if is_version_line(&line_words) {
        if count == 0 {
            first = line_words;
        }
        if count < 2 {
            count = count + 1;
        }
    }
    if count != 1 || first.len() != 2 {
        return None;
    }
    let pin = string_of(first[1].as_slice());
    assert(pin@ == char_lists(first@)[1]);
    match parse_version(pin.as_str()) {
        Some(_) => Some(pin),
        None => None,
    }
}

pub open spec fn plugin_detail(c: PluginContract, requirement: Seq<char>, cli: Seq<char>) -> Seq<char> {
    "Plugin "@ + c.plugin_version@ + " requires CLI "@ + requirement + "; selected CLI "@ + cli
        + ". Package data inspected, installation/authenticity not established."@
}

pub open spec fn pin_detail(pin: Seq<char>, cli: Seq<char>) -> Seq<char> {
    "Packaged pin "@ + pin + "; selected CLI "@ + cli
        + ". A different compatible pin is allowed. Use read-only runtime lookup to verify installation/selection; this command never executes package scripts."@
}

pub open spec fn no_pin_text() -> Seq<char> {
    "No unambiguous runtime version pin; inspect package/setup before installing."@
}

pub open spec fn text_or_empty(o: Option<Seq<char>>) -> Seq<char> {
    match o {
        Some(s) => s,
        None => Seq::empty(),
    }
}

/// Whether the plugin declares itself compatible with the selected CLI.
pub open spec fn plugin_compatible(c: PluginContract, cli: Seq<char>) -> bool {
    c.schema == 1 && c.plugin_name@ == "opdev"@ && semver_matches(c.requires_cli@, cli)
}

/// Whether both the plugin's requirement and the CLI version parse.
pub open spec fn versions_parse(c: PluginContract, cli: Seq<char>) -> bool {
    semver_requirement(c.requires_cli@) is Some && semver_version(cli) is Some
}

/// The plugin's compatibility with the version of the running CLI, from its
/// compatibility contract; nothing where the contract's requirement or the
/// CLI version does not parse.
pub fn plugin_compatibility(contract: &PluginContract, cli: &str) -> (r: Option<Observation>)
    ensures
        r is Some <==> versions_parse(*contract, cli@),
        r matches Some(o) ==> observed(o, "plugin"@, None,
            if plugin_compatible(*contract, cli@) { Outcome::Passed } else { Outcome::Failed },
            plugin_detail(*contract, text_or_empty(semver_requirement(contract.requires_cli@)),
                text_or_empty(semver_version(cli@)))),
{
    let requirement = match parse_requirement(contract.requires_cli.as_str()) {
        Some(q) => q,
        None => return None,
    };
    let shown = match parse_version(cli) {
        Some(v) => v,
        None => return None,
    };
    let compatible = contract.schema == 1 && same_text(contract.plugin_name.as_str(), "opdev")
        && requirement_matches(contract.requires_cli.as_str(), cli);
    let d = joined("Plugin ", contract.plugin_version.as_str());
    let d = joined(d.as_str(), " requires CLI ");
    let d = joined(d.as_str(), requirement.as_str());
    let d = joined(d.as_str(), "; selected CLI ");
    let d = joined(d.as_str(), shown.as_str());
    let d = joined(d.as_str(), ". Package data inspected, installation/authenticity not established.");
    Some(observation("plugin", if compatible { Outcome::Passed } else { Outcome::Failed }, d))
}

/// The packaged runtime pin against the plugin's requirement: a pin it
/// admits stays unverified until the installation is looked up, one it does
/// not admit fails; without exactly one pin nothing is pinned. The
/// `runtime.lock` text is empty where the file is absent.
pub fn runtime_pin_observation(contract: &PluginContract, cli: &str, lock: &str) -> (r: Option<Observation>)
    ensures
        r is Some <==> versions_parse(*contract, cli@),
        r matches Some(o) ==> match runtime_pin(lock@) {
            Some(pin) => observed(o, "runtime_pin"@, None,
                if semver_matches(contract.requires_cli@, pin) { Outcome::Unverified } else { Outcome::Failed },
                pin_detail(pin, text_or_empty(semver_version(cli@)))),
            None => observed(o, "runtime_pin"@, None, Outcome::Unverified, no_pin_text()),
        },
{
    if parse_requirement(contract.requires_cli.as_str()).is_none() {
        return None;
    }
    let shown = match parse_version(cli) {
        Some(v) => v,
        None => return None,
    };
    match find_runtime_pin(lock) {
        Some(pin) => {
            let admitted = requirement_matches(contract.requires_cli.as_str(), pin.as_str());
            let p = joined("Packaged pin ", pin.as_str());
            let p = joined(p.as_str(), "; selected CLI ");
            let p = joined(p.as_str(), shown.as_str());
            let p = joined(p.as_str(),
                ". A different compatible pin is allowed. Use read-only runtime lookup to verify installation/selection; this command never executes package scripts.");
            Some(observation("runtime_pin", if admitted { Outcome::Unverified } else { Outcome::Failed }, p))
        },
        None => Some(observation("runtime_pin", Outcome::Unverified, owned(
            "No unambiguous runtime version pin; inspect package/setup before installing.",
        ))),
    }
}

pub open spec fn dynamic_marker() -> Seq<char> {
    "[dynamic/non-version declaration]"@
}

/// How a declared runtime version is reported: the canonical form of a
/// version written as text, a marker for anything else.
pub open spec fn pin_text(v: Json) -> Seq<char> {
    match v {
        Json::Text(s) => match semver_version(s@) {
            Some(t) => t,
            None => dynamic_marker(),
        },
        _ => dynamic_marker(),
    }
}

/// The runtime versions that the first `n` children of an object or array
/// declare, in order: a member named `OPDEV_VERSION` declares its value,
/// any other child what its own value declares.
pub open spec fn child_pins(v: Json, n: int) -> Seq<Seq<char>>
    decreases v, 0int, n,
{
    if n <= 0 {
        Seq::empty()
    } else {
        match v {
            Json::Object(members) => if n <= members@.len() {
                child_pins(v, n - 1) + (if members@[n - 1].0@ == "OPDEV_VERSION"@ {
                    seq![pin_text(members@[n - 1].1)]
                } else {
                    pins(members@[n - 1].1)
                })
            } else {
                Seq::empty()
            },
            Json::Array(items) => if n <= items@.len() {
                child_pins(v, n - 1) + pins(items@[n - 1])
            } else {
                Seq::empty()
            },
            _ => Seq::empty(),
        }
    }
}

/// The runtime versions a document declares: each member named
/// `OPDEV_VERSION`, depth first in document order; the value of such a
/// member is not searched further.
pub open spec fn pins(v: Json) -> Seq<Seq<char>>
    decreases v, 1int, 0int,
{
    match v {
        Json::Object(members) => child_pins(v, members@.len() as int),
        Json::Array(items) => child_pins(v, items@.len() as int),
        _ => Seq::empty(),
    }
}

fn pin_of(v: &Json) -> (r: String)
    ensures
        r@ == pin_text(*v),
{
    match v {
        Json::Text(s) => match parse_version(s.as_str()) {
            Some(t) => t,
            None => owned("[dynamic/non-version declaration]"),
        },
        _ => owned("[dynamic/non-version declaration]"),
    }
}

/// Appends the runtime versions that a document declares.
fn collect_pins(v: &Json, out: &mut Vec<String>)
    ensures
        text_views(final(out)@) == text_views(old(out)@) + pins(*v),
    decreases v,
{
    let ghost start = text_views(out@);
    match v {
        Json::Object(members) => {
            let mut i: usize = 0;
            assert(start + child_pins(*v, 0) =~= start);
            while i < members.len()
                invariant
                    *v == Json::Object(*members),
                    i <= members@.len(),
                    text_views(out@) == start + child_pins(*v, i as int),
                decreases members.len() - i,
            {
                proof {
                    assert(decreases_to!(*v => (*v)->Object_0));
                    assert(decreases_to!(*members => members@));
                    assert(decreases_to!(members@ => members@[i as int]));
                    assert(decreases_to!(members@[i as int] => members@[i as int].1));
                }
                let ghost before = text_views(out@);
                if same_text(members[i].0.as_str(), "OPDEV_VERSION") {
                    let p = pin_of(&members[i].1);
                    out.push(p);
                    assert(text_views(out@) =~= before + seq![pin_text(members@[i as int].1)]);
                } else {
                    collect_pins(&members[i].1, out);
                }
                assert(text_views(out@) =~= start + child_pins(*v, i + 1));
                i = i + 1;
            }
        },
        Json::Array(items) => {
            let mut i: usize = 0;
            assert(start + child_pins(*v, 0) =~= start);
            while i < items.len()
                invariant
                    *v == Json::Array(*items),
                    i <= items@.len(),
                    text_views(out@) == start + child_pins(*v, i as int),
                decreases items.len() - i,
            {
                proof {
                    assert(decreases_to!(*v => (*v)->Array_0));
                    assert(decreases_to!(*items => items@));
                    assert(decreases_to!(items@ => items@[i as int]));
                }
                collect_pins(&items[i], out);
                assert(text_views(out@) =~= start + child_pins(*v, i + 1));
                i = i + 1;
            }
        },
        _ => {
            assert(text_views(out@) =~= start + pins(*v));
        },
    }
}

/// What a CI file held: a parsed document, why it did not parse, or
/// nothing because it could not be read safely.
#[derive(Debug)]
pub enum CiSource {
    Parsed(Json),
    Invalid(String),
    Unreadable,
}

/// A CI configuration file of the project that exists.
#[derive(Debug)]
pub struct CiFile {
    /// Its path below the project root, with `/` separators.
    pub key: String,
    pub source: CiSource,
}

/// Files in ascending order of their paths, by insertion.
pub open spec fn insert_file(s: Seq<CiFile>, x: CiFile) -> Seq<CiFile>
    decreases s.len(),
{
    if s.len() == 0 {
        seq![x]
    } else if text_le(x.key@, s[0].key@) {
        seq![x] + s
    } else {
        seq![s[0]] + insert_file(s.drop_first(), x)
    }
}

pub open spec fn sorted_files(v: Seq<CiFile>) -> Seq<CiFile>
    decreases v.len(),
{
    if v.len() == 0 {
        Seq::empty()
    } else {
        insert_file(sorted_files(v.drop_last()), v.last())
    }
}

proof fn lemma_insert_file_at(s: Seq<CiFile>, x: CiFile, p: int)
    requires
        0 <= p <= s.len(),
        forall|k: int| 0 <= k < p ==> !text_le(x.key@, (#[trigger] s[k]).key@),
        p < s.len() ==> text_le(x.key@, s[p].key@),
    ensures
        insert_file(s, x) == s.take(p) + seq![x] + s.skip(p),
    decreases s.len(),
{
    if s.len() == 0 {
        assert(s.take(p) + seq![x] + s.skip(p) =~= seq![x]);
    } else if p == 0 {
        assert(s.take(p) + seq![x] + s.skip(p) =~= seq![x] + s);
    } else {
        let t = s.drop_first();
        assert forall|k: int| 0 <= k < p - 1 implies !text_le(x.key@, (#[trigger] t[k]).key@) by {
            assert(t[k] == s[k + 1]);
        }
        if p - 1 < t.len() {
            assert(t[p - 1] == s[p]);
        }
        lemma_insert_file_at(t, x, p - 1);
        assert(seq![s[0]] + (t.take(p - 1) + seq![x] + t.skip(p - 1)) =~= s.take(p) + seq![x] + s.skip(p));
    }
}

fn sort_files(v: Vec<CiFile>) -> (r: Vec<CiFile>)
    ensures
        r@ == sorted_files(v@),
{
    let mut v = v;
    let ghost all = v@;
    let mut out: Vec<CiFile> = Vec::new();
    assert(all.subrange(0, 0) =~= Seq::<CiFile>::empty());
    assert(all.subrange(0, all.len() as int) =~= all);
    while v.len() > 0
        invariant
            v@.len() <= all.len(),
            v@ == all.subrange(all.len() - v@.len(), all.len() as int),
            out@ == sorted_files(all.subrange(0, all.len() - v@.len())),
        decreases v.len(),
    {
        let ghost m = all.len() - v@.len();
        let ghost pre = all.subrange(0, m);
        let ghost rest = v@;
        let x = v.remove(0);
        assert(x == all[m]);
        assert(v@ =~= all.subrange(m + 1, all.len() as int));
        assert(all.subrange(0, m + 1).drop_last() =~= pre);
        assert(all.subrange(0, m + 1).last() == x);
        let mut p: usize = 0;
        while p < out.len() && !text_le_exec(x.key.as_str(), out[p].key.as_str())
            invariant
                p <= out@.len(),
                forall|k: int| 0 <= k < p ==> !text_le(x.key@, (#[trigger] out@[k]).key@),
            decreases out.len() - p,
        {
            p = p + 1;
        }
        proof {
            lemma_insert_file_at(out@, x, p as int);
        }
        let ghost o = out@;
        out.insert(p, x);
        assert(out@ =~= o.take(p as int) + seq![x] + o.skip(p as int));
    }
    out
}

/// `{:?}` of the declared versions, each held as a JSON string.
pub open spec fn shown_pins(p: Seq<Seq<char>>) -> Seq<char> {
    "["@ + joined_with(p.map_values(|s: Seq<char>| "String("@ + debug_quoted(s) + ")"@), ", "@) + "]"@
}

pub open spec fn pins_detail(key: Seq<char>, p: Seq<Seq<char>>) -> Seq<char> {
    key + ": OPDEV_VERSION declarations "@ + shown_pins(p)
        + ". Preserved. Declarations do not prove the effective runtime; review scripts, includes, variables and download/signature configuration together."@
}

/// What one CI file shows: its declared runtime versions, or an error where
/// it did not parse; either way it is left as it is.
pub open spec fn ci_file_ok(o: Observation, f: CiFile) -> bool {
    match f.source {
        CiSource::Parsed(doc) => observed(o, "ci_pins"@, Some(f.key@), Outcome::Unverified, pins_detail(f.key@, pins(doc))),
        CiSource::Invalid(e) => observed(o, "ci_pins"@, Some(f.key@), Outcome::Error, f.key@ + ": "@ + e@ + "; left untouched"@),
        CiSource::Unreadable => false,
    }
}

/// How many files, in order, come before the first that could not be read.
pub open spec fn readable_prefix(files: Seq<CiFile>) -> int
    decreases files.len(),
{
    if files.len() == 0 {
        0
    } else if files[0].source is Unreadable {
        0
    } else {
        1 + readable_prefix(files.drop_first())
    }
}

proof fn lemma_readable_prefix(files: Seq<CiFile>)
    ensures
        0 <= readable_prefix(files) <= files.len(),
        forall|k: int| 0 <= k < readable_prefix(files) ==> !((#[trigger] files[k]).source is Unreadable),
        readable_prefix(files) < files.len() ==> files[readable_prefix(files)].source is Unreadable,
    decreases files.len(),
{
    if files.len() > 0 && !(files[0].source is Unreadable) {
        lemma_readable_prefix(files.drop_first());
        assert forall|k: int| 0 <= k < readable_prefix(files) implies !((#[trigger] files[k]).source is Unreadable) by {
            if k > 0 {
                assert(files[k] == files.drop_first()[k - 1]);
            }
        }
    }
}

pub open spec fn ci_qualification_text() -> Seq<char> {
    "CI is never rewritten by upgrade. Included/remote/custom configuration is not resolved; matching version declarations alone do not qualify CI."@
}

proof fn lemma_insert_file_len(s: Seq<CiFile>, x: CiFile)
    ensures
        insert_file(s, x).len() == s.len() + 1,
    decreases s.len(),
{
    if s.len() > 0 && !text_le(x.key@, s[0].key@) {
        lemma_insert_file_len(s.drop_first(), x);
    }
}

proof fn lemma_sorted_files_len(v: Seq<CiFile>)
    ensures
        sorted_files(v).len() == v.len(),
    decreases v.len(),
{
    if v.len() > 0 {
        lemma_sorted_files_len(v.drop_last());
        lemma_insert_file_len(sorted_files(v.drop_last()), v.last());
    }
}

fn show_pins(p: &Vec<String>) -> (r: String)
    ensures
        r@ == shown_pins(text_views(p@)),
{
    let mut parts: Vec<String> = Vec::new();
    let mut i: usize = 0;
    while i < p.len()
        invariant
            i <= p@.len(),
            parts@.len() == i,
            forall|k: int| 0 <= k < i ==> (#[trigger] parts@[k])@ == "String("@ + debug_quoted(p@[k]@) + ")"@,
        decreases p.len() - i,
    {
        let q = debug_text(p[i].as_str());
        let s = joined("String(", q.as_str());
        let s = joined(s.as_str(), ")");
        parts.push(s);
        i = i + 1;
    }
    assert(text_views(parts@) =~= text_views(p@).map_values(|s: Seq<char>| "String("@ + debug_quoted(s) + ")"@));
    let inner = join_texts(&parts, ", ");
    let r = joined("[", inner.as_str());
    joined(r.as_str(), "]")
}

fn observe_ci_file(f: &CiFile) -> (r: Observation)
    requires
        !(f.source is Unreadable),
    ensures
        ci_file_ok(r, *f),
{
    match &f.source {
        CiSource::Parsed(doc) => {
            let mut found: Vec<String> = Vec::new();
            collect_pins(doc, &mut found);
            assert(text_views(found@) =~= pins(*doc));
            let d = joined(f.key.as_str(), ": OPDEV_VERSION declarations ");
            let d = joined(d.as_str(), show_pins(&found).as_str());
            let d = joined(d.as_str(),
                ". Preserved. Declarations do not prove the effective runtime; review scripts, includes, variables and download/signature configuration together.");
            Observation { component: owned("ci_pins"), source: Some(copy_string(&f.key)), outcome: Outcome::Unverified, detail: d }
        },
        CiSource::Invalid(e) => {
            let d = joined(f.key.as_str(), ": ");
            let d = joined(d.as_str(), e.as_str());
            let d = joined(d.as_str(), "; left untouched");
            Observation { component: owned("ci_pins"), source: Some(copy_string(&f.key)), outcome: Outcome::Error, detail: d }
        },
        CiSource::Unreadable => {
            assert(false);
            Observation { component: owned("ci_pins"), source: None, outcome: Outcome::Error, detail: String::new() }
        },
    }
}

/// What the project's existing CI files show, in order of their paths, then
/// that CI is not qualified by any of it. The observations stop at the first
/// file that could not be read; the flag tells whether all were.
pub fn ci_observations(files: Vec<CiFile>) -> (r: (Vec<Observation>, bool))
    ensures
        r.1 == (readable_prefix(sorted_files(files@)) == files@.len()),
        r.0@.len() == readable_prefix(sorted_files(files@)) + (if r.1 { 1int } else { 0int }),
        forall|k: int| 0 <= k < readable_prefix(sorted_files(files@)) ==> ci_file_ok(#[trigger] r.0@[k], sorted_files(files@)[k]),
        r.1 ==> observed(r.0@[files@.len() as int], "ci_qualification"@, None, Outcome::Unverified, ci_qualification_text()),
{
    let ghost given = files@;
    let sorted = sort_files(files);
    proof {
        lemma_sorted_files_len(given);
        lemma_readable_prefix(sorted@);
    }
    let mut n: usize = 0;
    while n < sorted.len() && !unreadable(&sorted[n])
        invariant
            n <= sorted@.len(),
            forall|k: int| 0 <= k < n ==> !((#[trigger] sorted@[k]).source is Unreadable),
        decreases sorted.len() - n,
    {
        n = n + 1;
    }
    proof {
        if n < readable_prefix(sorted@) {
            assert(sorted@[n as int].source is Unreadable);
        }
        if n > readable_prefix(sorted@) {
            assert(!(sorted@[readable_prefix(sorted@)].source is Unreadable));
        }
    }
    let mut out: Vec<Observation> = Vec::new();
    let mut i: usize = 0;
    while i < n
        invariant
            n <= sorted@.len(),
            forall|k: int| 0 <= k < n ==> !((#[trigger] sorted@[k]).source is Unreadable),
            i <= n,
            out@.len() == i,
            forall|k: int| 0 <= k < i ==> ci_file_ok(#[trigger] out@[k], sorted@[k]),
        decreases n - i,
    {
        out.push(observe_ci_file(&sorted[i]));
        i = i + 1;
    }
    if n < sorted.len() {
        return (out, false);
    }
    out.push(observation("ci_qualification", Outcome::Unverified, owned(
        "CI is never rewritten by upgrade. Included/remote/custom configuration is not resolved; matching version declarations alone do not qualify CI.",
    )));
    (out, true)
}

fn unreadable(f: &CiFile) -> (r: bool)
    ensures
        r == f.source is Unreadable,
{
    match f.source {
        CiSource::Unreadable => true,
        _ => false,
    }
}

/// Runtime versions declared in CI files are observations only: what a CI
/// file shows is never a pass, whatever it declares.
pub proof fn lemma_ci_files_never_pass(o: Observation, f: CiFile)
    requires
        ci_file_ok(o, f),
    ensures
        o.outcome != Outcome::Passed,
{
}

} // verus!
