//! The result of a run in the static analysis results interchange format.
//!
//! One run per document. Security dashboards tell findings apart by fingerprint
//! and level, so both mappings are fixed here.

use vstd::prelude::*;

use crate::conversation::Severity;
use crate::json;
use crate::json::{Json, JsonModel};
use crate::ledger;
use crate::ledger::{CoverageLedger, TerminalState, UnitState};
use crate::output;
use crate::output::{FindingModel, FindingView, RunMeta, RunReport};
use crate::sorting;
use crate::text;

verus! {

/// Version of the format.
pub const SARIF_VERSION: &'static str = "2.1.0";

/// Name of the tool, and of the family of its rules.
pub const TOOL_NAME: &'static str = "hoverstare";

/// Key under which a finding's fingerprint stands.
pub const FINGERPRINT_KEY: &'static str = "hoverstare/v1";

// ---------------------------------------------------------------------------
// Shapes
// ---------------------------------------------------------------------------

/// An object of one field.
pub open spec fn only(key: Seq<char>, value: JsonModel) -> JsonModel {
    JsonModel::Object(seq![(key, value)])
}

/// A list of one value.
pub open spec fn alone(value: JsonModel) -> JsonModel {
    JsonModel::List(seq![value])
}

/// The level of a severity.
pub open spec fn level_of(severity: Severity) -> Seq<char> {
    match severity {
        Severity::Critical => "error"@,
        Severity::High => "error"@,
        Severity::Medium => "warning"@,
        Severity::Low => "note"@,
    }
}

/// The rule of a severity.
pub open spec fn rule_of(severity: Severity) -> Seq<char> {
    TOOL_NAME@ + "/"@ + severity.name()
}

/// A rule: its id, and the level of its results.
pub open spec fn rule_document(severity: Severity) -> JsonModel {
    JsonModel::Object(
        seq![
            ("id"@, JsonModel::Text(rule_of(severity))),
            ("defaultConfiguration"@, only("level"@, JsonModel::Text(level_of(severity)))),
        ],
    )
}

/// The rules: one for each severity.
pub open spec fn rules_document() -> JsonModel {
    JsonModel::List(
        seq![
            rule_document(Severity::Critical),
            rule_document(Severity::High),
            rule_document(Severity::Medium),
            rule_document(Severity::Low),
        ],
    )
}

/// The tool that made the document.
pub open spec fn tool_document(version: Seq<char>) -> JsonModel {
    only(
        "driver"@,
        JsonModel::Object(
            seq![
                ("name"@, JsonModel::Text(TOOL_NAME@)),
                ("version"@, JsonModel::Text(version)),
                ("rules"@, rules_document()),
            ],
        ),
    )
}

/// The lines of a finding; its last line is its first where it names no other.
pub open spec fn region_document(line: u64, end_line: Option<u64>) -> JsonModel {
    JsonModel::Object(
        seq![
            ("startLine"@, JsonModel::Number(line as int)),
            (
                "endLine"@,
                JsonModel::Number(
                    match end_line {
                        Some(end) => end as int,
                        None => line as int,
                    },
                ),
            ),
        ],
    )
}

/// The file of a finding.
pub open spec fn artifact_document(path: Seq<char>) -> JsonModel {
    only("uri"@, JsonModel::Text(output::normal_path(path)))
}

/// Where a finding is: the file, and the lines where it could be anchored.
pub open spec fn place_document(f: FindingModel) -> JsonModel {
    let file = seq![("artifactLocation"@, artifact_document(f.path))];
    JsonModel::Object(
        match f.line {
            Some(line) => file.push(("region"@, region_document(line, f.end_line))),
            None => file,
        },
    )
}

/// The fix of a finding: the suggestion in place of the lines of the finding.
pub open spec fn fix_document(
    path: Seq<char>,
    line: u64,
    end_line: Option<u64>,
    text: Seq<char>,
) -> JsonModel {
    only(
        "artifactChanges"@,
        alone(
            JsonModel::Object(
                seq![
                    ("artifactLocation"@, artifact_document(path)),
                    (
                        "replacements"@,
                        alone(
                            JsonModel::Object(
                                seq![
                                    ("deletedRegion"@, region_document(line, end_line)),
                                    ("insertedContent"@, only("text"@, JsonModel::Text(text))),
                                ],
                            ),
                        ),
                    ),
                ],
            ),
        ),
    )
}

/// The message of a finding: title, empty line, body.
pub open spec fn message_of(f: FindingModel) -> Seq<char> {
    f.title + "\n\n"@ + f.body
}

/// A finding as a result. A fix needs a suggestion and lines to put it in place of.
pub open spec fn result_document(f: FindingModel) -> JsonModel {
    let base = seq![
        ("ruleId"@, JsonModel::Text(rule_of(f.severity))),
        ("level"@, JsonModel::Text(level_of(f.severity))),
        ("message"@, only("text"@, JsonModel::Text(message_of(f)))),
        ("locations"@, alone(only("physicalLocation"@, place_document(f)))),
        ("partialFingerprints"@, only(FINGERPRINT_KEY@, JsonModel::Text(f.fingerprint))),
    ];
    JsonModel::Object(
        match (f.suggestion, f.line) {
            (Some(suggestion), Some(line)) => base.push(
                ("fixes"@, alone(fix_document(f.path, line, f.end_line, suggestion))),
            ),
            _ => base,
        },
    )
}

/// The results of a run, in the order of documents.
pub open spec fn results_document(findings: Seq<FindingModel>) -> JsonModel {
    JsonModel::List(
        output::ordered_findings(findings).map_values(|f: FindingModel| result_document(f)),
    )
}

/// What is said of a unit that was not covered.
pub open spec fn notice_of(id: Seq<char>, status: Seq<char>, reason: Seq<char>) -> Seq<char> {
    id + " "@ + status + ": "@ + reason
}

/// The notice on a unit, where it was not covered.
pub open spec fn notice_document(e: ledger::Entry) -> Option<JsonModel> {
    match output::reason_of(e.state) {
        Some(reason) => Some(
            JsonModel::Object(
                seq![
                    ("level"@, JsonModel::Text("warning"@)),
                    (
                        "message"@,
                        only(
                            "text"@,
                            JsonModel::Text(
                                notice_of(e.id, output::status_of(e.state), reason),
                            ),
                        ),
                    ),
                ],
            ),
        ),
        None => None,
    }
}

/// The notices of a run: one for each unit that failed or was truncated.
pub open spec fn notices(entries: Seq<ledger::Entry>) -> Seq<JsonModel>
    decreases entries.len(),
{
    if entries.len() == 0 {
        Seq::empty()
    } else {
        let done = notices(entries.drop_last());
        match notice_document(entries.last()) {
            Some(notice) => done.push(notice),
            None => done,
        }
    }
}

/// How the run went: a success only where every unit was covered.
pub open spec fn invocation_document(
    terminal: TerminalState,
    entries: Seq<ledger::Entry>,
) -> JsonModel {
    JsonModel::Object(
        seq![
            ("executionSuccessful"@, JsonModel::Bool(terminal == TerminalState::Okay)),
            ("toolExecutionNotifications"@, JsonModel::List(notices(entries))),
        ],
    )
}

/// The document of a run.
pub open spec fn sarif_document(
    meta: RunMeta,
    version: Seq<char>,
    entries: Seq<ledger::Entry>,
    findings: Seq<FindingModel>,
) -> JsonModel {
    JsonModel::Object(
        seq![
            ("version"@, JsonModel::Text(SARIF_VERSION@)),
            (
                "runs"@,
                alone(
                    JsonModel::Object(
                        seq![
                            ("tool"@, tool_document(version)),
                            ("invocations"@, alone(invocation_document(meta.terminal, entries))),
                            ("results"@, results_document(findings)),
                        ],
                    ),
                ),
            ),
        ],
    )
}

// ---------------------------------------------------------------------------
// Construction
// ---------------------------------------------------------------------------

fn only_json(key: &str, value: Json) -> (r: Json)
    ensures
        r.model() == only(key@, value.model()),
{
    let mut fields: Vec<(String, Json)> = Vec::new();
    json::field(&mut fields, key, value);
    assert(json::field_models(fields@) =~= only(key@, value.model())->Object_0);
    json::object_of(fields)
}

fn alone_json(value: Json) -> (r: Json)
    ensures
        r.model() == alone(value.model()),
{
    let mut items: Vec<Json> = Vec::new();
    items.push(value);
    assert(json::models(items@) =~= seq![value.model()]);
    json::list_of(items)
}

/// The level of a severity.
pub fn level(severity: Severity) -> (r: &'static str)
    ensures
        r@ == level_of(severity),
{
    match severity {
        Severity::Critical => "error",
        Severity::High => "error",
        Severity::Medium => "warning",
        Severity::Low => "note",
    }
}

/// The rule of a severity.
pub fn rule_id(severity: Severity) -> (r: String)
    ensures
        r@ == rule_of(severity),
{
    let mut id = TOOL_NAME.to_owned();
    id.append("/");
    id.append(severity.as_str());
    id
}

fn rule_json(severity: Severity) -> (r: Json)
    ensures
        r.model() == rule_document(severity),
{
    let mut fields: Vec<(String, Json)> = Vec::new();
    json::field(&mut fields, "id", json::text_of(rule_id(severity).as_str()));
    json::field(
        &mut fields,
        "defaultConfiguration",
        only_json("level", json::text_of(level(severity))),
    );
    assert(json::field_models(fields@) =~= rule_document(severity)->Object_0);
    json::object_of(fields)
}

fn tool_json(version: &str) -> (r: Json)
    ensures
        r.model() == tool_document(version@),
{
    let mut rules: Vec<Json> = Vec::new();
    rules.push(rule_json(Severity::Critical));
    rules.push(rule_json(Severity::High));
    rules.push(rule_json(Severity::Medium));
    rules.push(rule_json(Severity::Low));
    assert(json::models(rules@) =~= rules_document()->List_0);
    let mut fields: Vec<(String, Json)> = Vec::new();
    json::field(&mut fields, "name", json::text_of(TOOL_NAME));
    json::field(&mut fields, "version", json::text_of(version));
    json::field(&mut fields, "rules", json::list_of(rules));
    assert(json::field_models(fields@) =~= seq![
        ("name"@, JsonModel::Text(TOOL_NAME@)),
        ("version"@, JsonModel::Text(version@)),
        ("rules"@, rules_document()),
    ]);
    only_json("driver", json::object_of(fields))
}

fn region_json(line: u64, end_line: Option<u64>) -> (r: Json)
    ensures
        r.model() == region_document(line, end_line),
{
    let end: u64 = match end_line {
        Some(end) => end,
        None => line,
    };
    let mut fields: Vec<(String, Json)> = Vec::new();
    json::field(&mut fields, "startLine", Json::Number(line));
    json::field(&mut fields, "endLine", Json::Number(end));
    assert(json::field_models(fields@) =~= region_document(line, end_line)->Object_0);
    json::object_of(fields)
}

fn artifact_json(path: &str) -> (r: Json)
    ensures
        r.model() == artifact_document(path@),
{
    only_json("uri", json::text_of(output::normalize_path(path).as_str()))
}

fn place_json(f: &FindingView) -> (r: Json)
    ensures
        r.model() == place_document(f@),
{
    let mut fields: Vec<(String, Json)> = Vec::new();
    json::field(&mut fields, "artifactLocation", artifact_json(f.path.as_str()));
    if let Some(line) = f.line {
        json::field(&mut fields, "region", region_json(line, f.end_line));
    }
    assert(json::field_models(fields@) =~= place_document(f@)->Object_0);
    json::object_of(fields)
}

fn fix_json(path: &str, line: u64, end_line: Option<u64>, suggestion: &str) -> (r: Json)
    ensures
        r.model() == fix_document(path@, line, end_line, suggestion@),
{
    let mut replacement: Vec<(String, Json)> = Vec::new();
    json::field(&mut replacement, "deletedRegion", region_json(line, end_line));
    json::field(
        &mut replacement,
        "insertedContent",
        only_json("text", json::text_of(suggestion)),
    );
    let ghost replaced = seq![
        ("deletedRegion"@, region_document(line, end_line)),
        ("insertedContent"@, only("text"@, JsonModel::Text(suggestion@))),
    ];
    assert(json::field_models(replacement@) =~= replaced);
    let mut change: Vec<(String, Json)> = Vec::new();
    json::field(&mut change, "artifactLocation", artifact_json(path));
    json::field(&mut change, "replacements", alone_json(json::object_of(replacement)));
    assert(json::field_models(change@) =~= seq![
        ("artifactLocation"@, artifact_document(path@)),
        ("replacements"@, alone(JsonModel::Object(replaced))),
    ]);
    only_json("artifactChanges", alone_json(json::object_of(change)))
}

fn result_json(f: &FindingView) -> (r: Json)
    ensures
        r.model() == result_document(f@),
{
    let mut message = f.title.clone();
    message.append("\n\n");
    message.append(f.body.as_str());
    let mut fields: Vec<(String, Json)> = Vec::new();
    json::field(&mut fields, "ruleId", json::text_of(rule_id(f.severity).as_str()));
    json::field(&mut fields, "level", json::text_of(level(f.severity)));
    json::field(&mut fields, "message", only_json("text", json::text_of(message.as_str())));
    json::field(
        &mut fields,
        "locations",
        alone_json(only_json("physicalLocation", place_json(f))),
    );
    json::field(
        &mut fields,
        "partialFingerprints",
        only_json(FINGERPRINT_KEY, json::text_of(f.fingerprint.as_str())),
    );
    if let Some(suggestion) = &f.suggestion {
        if let Some(line) = f.line {
            let fix = fix_json(f.path.as_str(), line, f.end_line, suggestion.as_str());
            json::field(&mut fields, "fixes", alone_json(fix));
        }
    }
    assert(json::field_models(fields@) =~= result_document(f@)->Object_0);
    json::object_of(fields)
}

fn results_json(findings: &[FindingView]) -> (r: Json)
    ensures
        r.model() == results_document(output::finding_views(findings@)),
{
    let ghost all = output::finding_views(findings@);
    let places = output::finding_places(findings);
    let ghost want = output::ordered_findings(all).map_values(
        |f: FindingModel| result_document(f),
    );
    let mut out: Vec<Json> = Vec::new();
    let mut i: usize = 0;
    while i < places.len()
        invariant
            i <= places@.len(),
            all == output::finding_views(findings@),
            sorting::picked(all, places@) == output::ordered_findings(all),
            forall|k: int| 0 <= k < places@.len() ==> (#[trigger] places@[k]) < findings@.len(),
            want == output::ordered_findings(all).map_values(|f: FindingModel| result_document(f)),
            json::models(out@) == want.take(i as int),
        decreases places@.len() - i,
    {
        let one = result_json(&findings[places[i]]);
        proof {
            assert(output::ordered_findings(all)[i as int] == all[places@[i as int] as int]);
            json::lemma_models_push(out@, one);
            assert(want.take(i + 1) =~= want.take(i as int).push(want[i as int]));
        }
        out.push(one);
        i = i + 1;
    }
    assert(want.take(i as int) =~= want);
    json::list_of(out)
}

fn notice_json(id: &str, status: &str, reason: &str) -> (r: Json)
    ensures
        r.model() == JsonModel::Object(
            seq![
                ("level"@, JsonModel::Text("warning"@)),
                ("message"@, only("text"@, JsonModel::Text(notice_of(id@, status@, reason@)))),
            ],
        ),
{
    let mut notice = id.to_owned();
    notice.append(" ");
    notice.append(status);
    notice.append(": ");
    notice.append(reason);
    let mut fields: Vec<(String, Json)> = Vec::new();
    json::field(&mut fields, "level", json::text_of("warning"));
    json::field(&mut fields, "message", only_json("text", json::text_of(notice.as_str())));
    assert(json::field_models(fields@) =~= seq![
        ("level"@, JsonModel::Text("warning"@)),
        ("message"@, only("text"@, JsonModel::Text(notice_of(id@, status@, reason@)))),
    ]);
    json::object_of(fields)
}

fn notices_json(coverage: &CoverageLedger) -> (r: Json)
    ensures
        r.model() == JsonModel::List(notices(coverage@)),
{
    let ghost entries = coverage@;
    let ids = coverage.denominator();
    proof {
        assert(ledger::ids(entries).len() == ids@.len());
        assert forall|k: int| 0 <= k < ids@.len() implies entries[k].id == (#[trigger] ids@[k])@ by {
            assert(text::views(ids@)[k] == ledger::ids(entries)[k]);
        }
    }
    let mut out: Vec<Json> = Vec::new();
    let mut i: usize = 0;
    assert(entries.take(0) =~= Seq::empty());
    assert(json::models(out@) =~= notices(entries.take(0)));
    while i < ids.len()
        invariant
            i <= ids@.len(),
            entries == coverage@,
            ledger::ids(entries).no_duplicates(),
            entries.len() == ids@.len(),
            forall|k: int| 0 <= k < ids@.len() ==> entries[k].id == (#[trigger] ids@[k])@,
            json::models(out@) == notices(entries.take(i as int)),
        decreases ids@.len() - i,
    {
        let id = ids[i].as_str();
        proof {
            ledger::lemma_state_of_distinct(entries, i as int);
            assert(entries.take(i + 1).drop_last() =~= entries.take(i as int));
            assert(entries.take(i + 1).last() == entries[i as int]);
        }
        let ghost before = out@;
        match coverage.state(id) {
            Some(UnitState::Failed(reason)) => {
                let one = notice_json(id, "failed", reason.as_str());
                proof {
                    json::lemma_models_push(before, one);
                }
                out.push(one);
            },
            Some(UnitState::Truncated(reason)) => {
                let one = notice_json(id, "truncated", reason.as_str());
                proof {
                    json::lemma_models_push(before, one);
                }
                out.push(one);
            },
            _ => {},
        }
        i = i + 1;
    }
    assert(entries.take(i as int) =~= entries);
    json::list_of(out)
}

/// The document of a run for security dashboards. `version` is the version of the
/// program.
pub fn sarif(report: &RunReport<'_>, version: &str) -> (r: Json)
    ensures
        r.model() == sarif_document(
            *report.meta,
            version@,
            report.ledger@,
            output::finding_views(report.findings@),
        ),
{
    let okay = match report.meta.terminal {
        TerminalState::Okay => true,
        _ => false,
    };
    let mut invocation: Vec<(String, Json)> = Vec::new();
    json::field(&mut invocation, "executionSuccessful", Json::Bool(okay));
    json::field(&mut invocation, "toolExecutionNotifications", notices_json(report.ledger));
    assert(json::field_models(invocation@) =~= invocation_document(
        report.meta.terminal,
        report.ledger@,
    )->Object_0);
    let mut run: Vec<(String, Json)> = Vec::new();
    json::field(&mut run, "tool", tool_json(version));
    json::field(&mut run, "invocations", alone_json(json::object_of(invocation)));
    json::field(&mut run, "results", results_json(report.findings));
    let ghost findings = output::finding_views(report.findings@);
    let ghost wanted = seq![
        ("tool"@, tool_document(version@)),
        ("invocations"@, alone(invocation_document(report.meta.terminal, report.ledger@))),
        ("results"@, results_document(findings)),
    ];
    assert(json::field_models(run@) =~= wanted);
    let mut fields: Vec<(String, Json)> = Vec::new();
    json::field(&mut fields, "version", json::text_of(SARIF_VERSION));
    json::field(&mut fields, "runs", alone_json(json::object_of(run)));
    assert(json::field_models(fields@) =~= sarif_document(
        *report.meta,
        version@,
        report.ledger@,
        findings,
    )->Object_0);
    json::object_of(fields)
}

// ---------------------------------------------------------------------------
// Laws
// ---------------------------------------------------------------------------

/// No finding is dropped from the results and none is made up.
pub proof fn law_every_finding_is_a_result(findings: Seq<FindingModel>)
    ensures
        results_document(findings)->List_0.len() == findings.len(),
        forall|i: int|
            0 <= i < findings.len() ==> results_document(findings)->List_0.contains(
                result_document(#[trigger] findings[i]),
            ),
{
    let sorted = output::ordered_findings(findings);
    let results = results_document(findings)->List_0;
    output::law_findings_have_a_fixed_order(findings);
    broadcast use vstd::seq_lib::group_to_multiset_ensures;

    assert(sorted.len() == sorted.to_multiset().len());
    assert(findings.len() == findings.to_multiset().len());
    assert forall|i: int| 0 <= i < findings.len() implies results.contains(
        result_document(#[trigger] findings[i]),
    ) by {
        assert(findings.contains(findings[i]));
        assert(findings.to_multiset().count(findings[i]) > 0);
        assert(sorted.contains(findings[i]));
        let k = choose|k: int| 0 <= k < sorted.len() && sorted[k] == findings[i];
        assert(results[k] == result_document(findings[i]));
    }
}

/// A finding without a line is a result on its file: no lines are invented for it,
/// and so no fix either.
pub proof fn law_unanchored_results_name_the_file_alone(f: FindingModel)
    requires
        f.line is None,
    ensures
        place_document(f) == only("artifactLocation"@, artifact_document(f.path)),
        result_document(f)->Object_0.len() == 5,
{
}

/// Every unit that failed or was truncated has its notice, and no other has one.
pub proof fn law_uncovered_units_have_notices(entries: Seq<ledger::Entry>)
    ensures
        notices(entries).len() == ledger::failed(entries).len() + ledger::truncated(entries).len(),
        forall|i: int|
            0 <= i < entries.len() && output::reason_of((#[trigger] entries[i]).state) is Some
                ==> notices(entries).contains(notice_document(entries[i])->0),
    decreases entries.len(),
{
    reveal(Seq::filter);
    if entries.len() > 0 {
        let front = entries.drop_last();
        law_uncovered_units_have_notices(front);
        let done = notices(front);
        let all = notices(entries);
        assert forall|i: int|
            0 <= i < entries.len() && output::reason_of(
                (#[trigger] entries[i]).state,
            ) is Some implies all.contains(notice_document(entries[i])->0) by {
            let notice = notice_document(entries[i])->0;
            if i < front.len() {
                assert(front[i] == entries[i]);
                let k = choose|k: int| 0 <= k < done.len() && done[k] == notice;
                assert(all[k] == notice);
            } else {
                assert(all[all.len() - 1] == notice);
            }
        }
    }
}

} // verus!
