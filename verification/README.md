# opdev

Evidence-based development workflow checks: core rule outcomes, strict gate
aggregation, canonical test suites and project extensions, JUnit report
inspection, remote CI observations, adoption decisions, readiness
diagnostics and upgrade previews.

The library in `src/` is written in Verus. Every decision is taken there and
proved against its contract: what a rule result is, when a gate passes, what
a test report shows, what a provider response qualifies, which findings a
readiness inspection reports, what an upgrade preview blocks. The program in
`app/` reads files, runs the declared commands, talks to the CI provider and
prints; it hands the library plain values and prints what comes back.

Layout of `src/`:

- `outcome`, `text`, `json`: outcomes, gates and evidence; verified text
  helpers; a plain JSON model.
- `manifest`, `policy`: the parts of the project contract that are read, and
  the reviewed trunk qualification policy.
- `evaluator`: core rule evaluation, suite and extension results, strict gate
  aggregation and explicit JUnit bindings.
- `views`: printable text, bounded excerpts, validation and summaries of saved
  reports.
- `junit`, `execution`: JUnit report inspection, the refusal of an unclean
  source or unknown suite before a test execution, and execution receipts.
- `ledger`: reviewed evidence assertions, which settle only rules the
  project contract left unverified, and the change bound to the staged
  state's fingerprint.
- `schema`: JSON Schema checks of adoption and experiment documents.
- `acceptance`, `acceptance_check`: acceptance evidence and its verdicts.
- `adoption`, `experiment`, `bootstrap`: adoption decisions, experiment
  records, and the managed guidance blocks.
- `remote`: provider run, job, check, protection and ruleset observations,
  and the trunk qualification state machine.
- `inspection`, `doctor`, `upgrade`: inventory observations (plugin
  compatibility, runtime pins, CI version declarations), readiness findings
  with their exit code, and upgrade previews with their approval checks.

Outside crates called from the library: `roxmltree` (XML parsing), `sha2`
(digests), `semver` (versions and requirements) and `jsonschema` with
`serde_json` (schema validation), each behind a small
trusted wrapper whose contract names its result.
