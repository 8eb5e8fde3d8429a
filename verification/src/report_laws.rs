//! What the other reports promise: analysis results, previews, dry runs, log lines and
//! the flags of the command.

use vstd::prelude::*;

use crate::cli;
use crate::cli::{DevError, DevEventView, DevelopArgs, Level};
use crate::conversation::Severity;
use crate::json;
use crate::json::JsonModel;
use crate::ledger;
use crate::ledger::{StateView, TerminalState};
use crate::orchestrator::OutcomeView;
use crate::output;
use crate::output::{FindingModel, RunMeta};
use crate::output_laws;
use crate::packs;
use crate::preview;
use crate::preview::{DryComment, DryReview};
use crate::rules;
use crate::rules::ResolutionView;
use crate::sarif;
use crate::text;
use crate::text_laws;
use crate::units;

verus! {

// ---------------------------------------------------------------------------
// Analysis results
// ---------------------------------------------------------------------------

/// The value behind a chain of two keys.
pub open spec fn within(doc: JsonModel, first: Seq<char>, second: Seq<char>) -> Option<JsonModel> {
    match json::field_of(doc, first) {
        Some(inner) => json::field_of(inner, second),
        None => None,
    }
}

proof fn lemma_only(key: Seq<char>, value: JsonModel)
    ensures
        json::field_of(sarif::only(key, value), key) == Some(value),
{
    let fields = sarif::only(key, value)->Object_0;
    reveal_with_fuel(output_laws::absent, 2);
    output_laws::law_fields_are_found(fields, 0, key);
}

/// High severities are errors, the middle one a warning, the low one a note; each
/// severity has a rule of its own.
pub proof fn law_levels_follow_the_severity(s: Severity, t: Severity)
    ensures
        sarif::level_of(s) == "error"@ <==> s == Severity::High || s == Severity::Critical,
        sarif::level_of(s) == "warning"@ <==> s == Severity::Medium,
        sarif::level_of(s) == "note"@ <==> s == Severity::Low,
        sarif::rule_of(s) == sarif::rule_of(t) <==> s == t,
        text::ends(sarif::rule_of(s), s.name()),
        text::begins(sarif::rule_of(s), "hoverstare/"@),
{
    reveal_strlit("error");
    reveal_strlit("warning");
    reveal_strlit("note");
    assert("error"@.len() == 5 && "warning"@.len() == 7 && "note"@.len() == 4);
    reveal_strlit("low");
    reveal_strlit("medium");
    reveal_strlit("high");
    reveal_strlit("critical");
    assert("low"@.len() == 3 && "medium"@.len() == 6 && "high"@.len() == 4 && "critical"@.len()
        == 8);
    reveal_strlit("hoverstare");
    reveal_strlit("/");
    reveal_strlit("hoverstare/");
    let a = sarif::rule_of(s);
    let b = sarif::rule_of(t);
    assert(a.skip(11) =~= s.name());
    assert(b.skip(11) =~= t.name());
    assert(a.subrange(a.len() - s.name().len(), a.len() as int) =~= s.name());
    assert(a.subrange(0, 11) =~= "hoverstare/"@);
}

/// A result shows the rule and level of its severity, the title and the body of the
/// finding, and its fingerprint; a fix is there exactly where there is a suggestion and a
/// line to put it.
pub proof fn law_results_show_the_finding(f: FindingModel)
    ensures
        ({
            let doc = sarif::result_document(f);
            &&& json::field_of(doc, "ruleId"@) == Some(
                JsonModel::Text(sarif::rule_of(f.severity)),
            )
            &&& json::field_of(doc, "level"@) == Some(
                JsonModel::Text(sarif::level_of(f.severity)),
            )
            &&& within(doc, "message"@, "text"@) == Some(JsonModel::Text(sarif::message_of(f)))
            &&& text::begins(sarif::message_of(f), f.title)
            &&& text::ends(sarif::message_of(f), f.body)
            &&& sarif::message_of(f).len() == f.title.len() + 2 + f.body.len()
            &&& within(doc, "partialFingerprints"@, "hoverstare/v1"@) == Some(
                JsonModel::Text(f.fingerprint),
            )
            &&& json::field_of(doc, "locations"@) matches Some(JsonModel::List(places))
                && places.len() == 1 && json::field_of(places[0], "physicalLocation"@) == Some(
                sarif::place_document(f),
            )
            &&& json::field_of(doc, "fixes"@) is Some <==> f.suggestion is Some && f.line is Some
            &&& f.suggestion is Some && f.line is Some ==> json::field_of(doc, "fixes"@) == Some(
                JsonModel::List(
                    seq![
                        sarif::fix_document(f.path, f.line->0, f.end_line, f.suggestion->0),
                    ],
                ),
            )
        }),
{
    reveal_strlit("ruleId");
    reveal_strlit("level");
    reveal_strlit("message");
    reveal_strlit("locations");
    reveal_strlit("partialFingerprints");
    reveal_strlit("fixes");
    reveal_strlit("\n\n");
    assert("ruleId"@.len() == 6 && "level"@.len() == 5 && "message"@.len() == 7);
    assert("locations"@.len() == 9 && "partialFingerprints"@.len() == 19 && "fixes"@.len() == 5);
    assert("level"@[0] == 'l' && "fixes"@[0] == 'f');
    reveal_with_fuel(output_laws::absent, 8);
    let fields = sarif::result_document(f)->Object_0;
    output_laws::law_fields_are_found(fields, 0, "ruleId"@);
    output_laws::law_fields_are_found(fields, 1, "level"@);
    output_laws::law_fields_are_found(fields, 2, "message"@);
    output_laws::law_fields_are_found(fields, 3, "locations"@);
    output_laws::law_fields_are_found(fields, 4, "partialFingerprints"@);
    if f.suggestion is Some && f.line is Some {
        output_laws::law_fields_are_found(fields, 5, "fixes"@);
    } else {
        output_laws::law_other_keys_are_not_found(fields, "fixes"@);
    }
    let m = sarif::message_of(f);
    lemma_only("text"@, JsonModel::Text(m));
    lemma_only("hoverstare/v1"@, JsonModel::Text(f.fingerprint));
    lemma_only("physicalLocation"@, sarif::place_document(f));
    assert(m.subrange(0, f.title.len() as int) =~= f.title);
    assert(m.subrange(m.len() - f.body.len(), m.len() as int) =~= f.body);
}

/// A place shows the normalized path; it has lines exactly where the finding has one,
/// and the last line is the first where the finding names no other.
pub proof fn law_places_show_where_the_finding_is(f: FindingModel)
    ensures
        ({
            let doc = sarif::place_document(f);
            &&& within(doc, "artifactLocation"@, "uri"@) == Some(
                JsonModel::Text(output::normal_path(f.path)),
            )
            &&& json::field_of(doc, "region"@) is Some <==> f.line is Some
            &&& f.line is Some ==> within(doc, "region"@, "startLine"@) == Some(
                JsonModel::Number(f.line->0 as int),
            )
            &&& f.line is Some ==> within(doc, "region"@, "endLine"@) == Some(
                JsonModel::Number(
                    if f.end_line is Some {
                        f.end_line->0 as int
                    } else {
                        f.line->0 as int
                    },
                ),
            )
        }),
{
    reveal_strlit("artifactLocation");
    reveal_strlit("region");
    assert("artifactLocation"@.len() == 16 && "region"@.len() == 6);
    reveal_with_fuel(output_laws::absent, 3);
    let fields = sarif::place_document(f)->Object_0;
    output_laws::law_fields_are_found(fields, 0, "artifactLocation"@);
    lemma_only("uri"@, JsonModel::Text(output::normal_path(f.path)));
    if f.line is Some {
        output_laws::law_fields_are_found(fields, 1, "region"@);
        lemma_region(f.line->0, f.end_line);
    } else {
        output_laws::law_other_keys_are_not_found(fields, "region"@);
    }
}

proof fn lemma_region(line: u64, end_line: Option<u64>)
    ensures
        json::field_of(sarif::region_document(line, end_line), "startLine"@) == Some(
            JsonModel::Number(line as int),
        ),
        json::field_of(sarif::region_document(line, end_line), "endLine"@) == Some(
            JsonModel::Number(
                if end_line is Some {
                    end_line->0 as int
                } else {
                    line as int
                },
            ),
        ),
{
    reveal_strlit("startLine");
    reveal_strlit("endLine");
    assert("startLine"@.len() == 9 && "endLine"@.len() == 7);
    reveal_with_fuel(output_laws::absent, 3);
    let fields = sarif::region_document(line, end_line)->Object_0;
    output_laws::law_fields_are_found(fields, 0, "startLine"@);
    output_laws::law_fields_are_found(fields, 1, "endLine"@);
}

/// A fix puts the suggestion in place of the lines of the finding, in its file.
pub proof fn law_fixes_replace_the_lines_of_the_finding(
    path: Seq<char>,
    line: u64,
    end_line: Option<u64>,
    said: Seq<char>,
)
    ensures
        json::field_of(
            sarif::fix_document(path, line, end_line, said),
            "artifactChanges"@,
        ) matches Some(JsonModel::List(changes)) && changes.len() == 1 && within(
            changes[0],
            "artifactLocation"@,
            "uri"@,
        ) == Some(JsonModel::Text(output::normal_path(path))) && (json::field_of(
            changes[0],
            "replacements"@,
        ) matches Some(JsonModel::List(list)) && list.len() == 1 && json::field_of(
            list[0],
            "deletedRegion"@,
        ) == Some(sarif::region_document(line, end_line)) && within(
            list[0],
            "insertedContent"@,
            "text"@,
        ) == Some(JsonModel::Text(said))),
{
    reveal_strlit("artifactLocation");
    reveal_strlit("replacements");
    reveal_strlit("deletedRegion");
    reveal_strlit("insertedContent");
    assert("artifactLocation"@.len() == 16 && "replacements"@.len() == 12);
    assert("deletedRegion"@.len() == 13 && "insertedContent"@.len() == 15);
    reveal_with_fuel(output_laws::absent, 3);
    let inner = seq![
        ("deletedRegion"@, sarif::region_document(line, end_line)),
        ("insertedContent"@, sarif::only("text"@, JsonModel::Text(said))),
    ];
    output_laws::law_fields_are_found(inner, 0, "deletedRegion"@);
    output_laws::law_fields_are_found(inner, 1, "insertedContent"@);
    lemma_only("text"@, JsonModel::Text(said));
    let outer = seq![
        ("artifactLocation"@, sarif::artifact_document(path)),
        ("replacements"@, sarif::alone(JsonModel::Object(inner))),
    ];
    output_laws::law_fields_are_found(outer, 0, "artifactLocation"@);
    output_laws::law_fields_are_found(outer, 1, "replacements"@);
    lemma_only("uri"@, JsonModel::Text(output::normal_path(path)));
    lemma_only("artifactChanges"@, sarif::alone(JsonModel::Object(outer)));
}

/// A unit has a notice exactly where it failed or was cut; the notice is a warning that
/// names the unit and the reason.
pub proof fn law_notices_name_unit_and_reason(e: ledger::Entry)
    ensures
        sarif::notice_document(e) is Some <==> e.state is Failed || e.state is Truncated,
        e.state matches StateView::Failed(reason) ==> tells(
            sarif::notice_document(e)->0,
            e.id,
            "failed"@,
            reason,
        ),
        e.state matches StateView::Truncated(reason) ==> tells(
            sarif::notice_document(e)->0,
            e.id,
            "truncated"@,
            reason,
        ),
{
    if let StateView::Failed(reason) = e.state {
        lemma_notice(e, "failed"@, reason);
    }
    if let StateView::Truncated(reason) = e.state {
        lemma_notice(e, "truncated"@, reason);
    }
}

/// Whether a notice warns of a unit, with its status and the reason.
pub open spec fn tells(
    notice: JsonModel,
    id: Seq<char>,
    status: Seq<char>,
    reason: Seq<char>,
) -> bool {
    &&& json::field_of(notice, "level"@) == Some(JsonModel::Text("warning"@))
    &&& within(notice, "message"@, "text"@) matches Some(JsonModel::Text(said)) && text::begins(
        said,
        id,
    ) && text::ends(said, reason) && text::mentions(said, status)
}

proof fn lemma_notice(e: ledger::Entry, status: Seq<char>, reason: Seq<char>)
    requires
        output::status_of(e.state) == status,
        output::reason_of(e.state) == Some(reason),
    ensures
        tells(sarif::notice_document(e)->0, e.id, status, reason),
{
    reveal_strlit("level");
    reveal_strlit("message");
    assert("level"@.len() == 5 && "message"@.len() == 7);
    reveal_with_fuel(output_laws::absent, 3);
    let fields = sarif::notice_document(e)->0->Object_0;
    output_laws::law_fields_are_found(fields, 0, "level"@);
    output_laws::law_fields_are_found(fields, 1, "message"@);
    let said = sarif::notice_of(e.id, status, reason);
    lemma_only("text"@, JsonModel::Text(said));
    assert(said.subrange(0, e.id.len() as int) =~= e.id);
    assert(said.subrange(said.len() - reason.len(), said.len() as int) =~= reason);
    text_laws::law_a_part_is_mentioned(e.id + " "@, status, ": "@ + reason);
    assert(said =~= (e.id + " "@) + status + (": "@ + reason));
}

/// A run counts as a success exactly where every unit was covered, and its document has
/// the version of the format, the tool, the results and the notices.
pub proof fn law_result_documents_are_complete(
    meta: RunMeta,
    version: Seq<char>,
    entries: Seq<ledger::Entry>,
    findings: Seq<FindingModel>,
)
    ensures
        ({
            let doc = sarif::sarif_document(meta, version, entries, findings);
            &&& json::field_of(doc, "version"@) == Some(JsonModel::Text("2.1.0"@))
            &&& json::field_of(doc, "runs"@) matches Some(JsonModel::List(runs)) && runs.len()
                == 1 && json::field_of(runs[0], "results"@) == Some(
                sarif::results_document(findings),
            ) && json::field_of(runs[0], "tool"@) == Some(sarif::tool_document(version))
                && json::field_of(runs[0], "invocations"@) == Some(
                JsonModel::List(seq![sarif::invocation_document(meta.terminal, entries)]),
            )
        }),
        json::field_of(
            sarif::invocation_document(meta.terminal, entries),
            "executionSuccessful"@,
        ) == Some(JsonModel::Bool(meta.terminal == TerminalState::Okay)),
        json::field_of(
            sarif::invocation_document(meta.terminal, entries),
            "toolExecutionNotifications"@,
        ) == Some(JsonModel::List(sarif::notices(entries))),
        within(sarif::tool_document(version), "driver"@, "name"@) == Some(
            JsonModel::Text("hoverstare"@),
        ),
        within(sarif::tool_document(version), "driver"@, "version"@) == Some(
            JsonModel::Text(version),
        ),
        within(sarif::tool_document(version), "driver"@, "rules"@) == Some(
            sarif::rules_document(),
        ),
{
    reveal_strlit("version");
    reveal_strlit("runs");
    reveal_strlit("tool");
    reveal_strlit("invocations");
    reveal_strlit("results");
    reveal_strlit("executionSuccessful");
    reveal_strlit("toolExecutionNotifications");
    reveal_strlit("name");
    reveal_strlit("rules");
    assert("version"@.len() == 7 && "runs"@.len() == 4 && "tool"@.len() == 4);
    assert("invocations"@.len() == 11 && "results"@.len() == 7);
    assert("executionSuccessful"@.len() == 19 && "toolExecutionNotifications"@.len() == 26);
    assert("name"@.len() == 4 && "rules"@.len() == 5);
    reveal_with_fuel(output_laws::absent, 4);
    let outer = sarif::sarif_document(meta, version, entries, findings)->Object_0;
    output_laws::law_fields_are_found(outer, 0, "version"@);
    output_laws::law_fields_are_found(outer, 1, "runs"@);
    let run = outer[1].1->List_0[0]->Object_0;
    output_laws::law_fields_are_found(run, 0, "tool"@);
    output_laws::law_fields_are_found(run, 1, "invocations"@);
    output_laws::law_fields_are_found(run, 2, "results"@);
    let went = sarif::invocation_document(meta.terminal, entries)->Object_0;
    output_laws::law_fields_are_found(went, 0, "executionSuccessful"@);
    output_laws::law_fields_are_found(went, 1, "toolExecutionNotifications"@);
    let driver = sarif::tool_document(version)->Object_0[0].1;
    lemma_only("driver"@, driver);
    output_laws::law_fields_are_found(driver->Object_0, 0, "name"@);
    output_laws::law_fields_are_found(driver->Object_0, 1, "version"@);
    output_laws::law_fields_are_found(driver->Object_0, 2, "rules"@);
}

/// Every severity has its rule among the rules, with its level.
pub proof fn law_every_severity_has_a_rule(s: Severity)
    ensures
        sarif::rules_document()->List_0.len() == 4,
        sarif::rules_document()->List_0.contains(sarif::rule_document(s)),
        json::field_of(sarif::rule_document(s), "id"@) == Some(
            JsonModel::Text(sarif::rule_of(s)),
        ),
        within(sarif::rule_document(s), "defaultConfiguration"@, "level"@) == Some(
            JsonModel::Text(sarif::level_of(s)),
        ),
{
    let all = sarif::rules_document()->List_0;
    match s {
        Severity::Critical => {
            assert(all[0] == sarif::rule_document(s));
        },
        Severity::High => {
            assert(all[1] == sarif::rule_document(s));
        },
        Severity::Medium => {
            assert(all[2] == sarif::rule_document(s));
        },
        Severity::Low => {
            assert(all[3] == sarif::rule_document(s));
        },
    }
    reveal_strlit("id");
    reveal_strlit("defaultConfiguration");
    assert("id"@.len() == 2 && "defaultConfiguration"@.len() == 20);
    reveal_with_fuel(output_laws::absent, 3);
    let fields = sarif::rule_document(s)->Object_0;
    output_laws::law_fields_are_found(fields, 0, "id"@);
    output_laws::law_fields_are_found(fields, 1, "defaultConfiguration"@);
    lemma_only("level"@, JsonModel::Text(sarif::level_of(s)));
}

// ---------------------------------------------------------------------------
// Previews and dry runs
// ---------------------------------------------------------------------------

/// The line of a unit shows each of its files.
pub proof fn law_unit_lines_show_every_file(unit: units::UnitView, i: int)
    requires
        0 <= i < unit.files.len(),
    ensures
        text::mentions(preview::unit_line(unit), unit.files[i]),
        unit.files.len() == 1 ==> preview::unit_line(unit) == "  "@ + unit.files[0],
{
    let list = text::joined(unit.files, ", "@);
    text_laws::law_joining_keeps_every_part(unit.files, ", "@, i);
    text_laws::law_a_part_is_mentioned("  "@, list, Seq::empty());
    assert("  "@ + list + Seq::empty() =~= preview::unit_line(unit));
    text_laws::law_mentioning_is_transitive(preview::unit_line(unit), list, unit.files[i]);
    if unit.files.len() == 1 {
        text_laws::law_joining_puts_a_separator_between(unit.files, unit.files, ", "@);
        assert(seq![unit.files[0]] =~= unit.files);
    }
}

/// The line of an excluded file shows its path and the reason, and behind the reason the
/// note exactly where the file stays in the text.
pub proof fn law_excluded_lines_show_path_and_reason(file: units::ExcludedView, kept: Seq<char>)
    ensures
        text::mentions(preview::excluded_line(file, kept), file.path),
        file.kept_in_text ==> text::ends(
            preview::excluded_line(file, kept),
            "("@ + file.reason.name() + kept + ")"@,
        ),
        !file.kept_in_text ==> text::ends(
            preview::excluded_line(file, kept),
            "("@ + file.reason.name() + ")"@,
        ),
{
    reveal_strlit(" (");
    reveal_strlit("(");
    assert(" ("@ =~= seq![' '] + "("@);
    let line = preview::excluded_line(file, kept);
    let more = if file.kept_in_text {
        kept
    } else {
        Seq::empty()
    };
    let end = "("@ + file.reason.name() + more + ")"@;
    assert(line =~= "  "@ + file.path + (seq![' '] + end));
    text_laws::law_a_part_is_mentioned("  "@, file.path, seq![' '] + end);
    assert(line.subrange(line.len() - end.len(), line.len() as int) =~= end);
    if !file.kept_in_text {
        assert(end =~= "("@ + file.reason.name() + ")"@);
    }
}

/// The first two lines of a preview are its summary and the heading of what is reviewed;
/// where nothing is, the heading says so.
pub proof fn law_previews_begin_with_their_summary(
    selection: units::SelectionView,
    labels: preview::LabelsView,
)
    ensures
        ({
            let lines = preview::preview_text(selection, labels);
            &&& lines.len() >= 2
            &&& lines[0] == labels.summary
            &&& text::begins(lines[1], labels.will_review)
            &&& selection.units.len() == 0 ==> text::ends(lines[1], labels.nothing)
            &&& selection.units.len() > 0 ==> lines[1] == labels.will_review
            &&& selection.excluded.len() > 0 ==> lines[2 + selection.units.len() as int]
                == labels.excluded
        }),
{
    let line = preview::preview_text(selection, labels)[1];
    assert(line.subrange(0, labels.will_review.len() as int) =~= labels.will_review);
    if selection.units.len() == 0 {
        assert(line.subrange(line.len() - labels.nothing.len(), line.len() as int)
            =~= labels.nothing);
    }
}

/// The document of a dry run shows all that would have been published, and the coverage.
pub proof fn law_dry_runs_show_everything(
    review: DryReview,
    incremental: bool,
    entries: Seq<ledger::Entry>,
)
    ensures
        ({
            let doc = preview::dry_run_document(review, incremental, entries);
            &&& json::field_of(doc, "mode"@) == Some(
                JsonModel::Text(
                    if incremental {
                        "incremental"@
                    } else {
                        "full"@
                    },
                ),
            )
            &&& json::field_of(doc, "terminal"@) == Some(
                JsonModel::Text(ledger::terminal_of(entries).name()),
            )
            &&& json::field_of(doc, "units_covered"@) == Some(
                JsonModel::Number(
                    entries.filter(|e: ledger::Entry| e.state is Covered).len() as int,
                ),
            )
            &&& json::field_of(doc, "units_total"@) == Some(
                JsonModel::Number(entries.len() as int),
            )
            &&& json::field_of(doc, "commit_id"@) == Some(JsonModel::Text(review.commit_id@))
            &&& json::field_of(doc, "resolved_finding_ids"@) == Some(
                output::text_list(text::views(review.resolved_finding_ids@)),
            )
            &&& json::field_of(doc, "carried_over"@) == Some(
                JsonModel::Number(review.carried_over as int),
            )
            &&& json::field_of(doc, "body"@) == Some(JsonModel::Text(review.body@))
            &&& json::field_of(doc, "comments"@) matches Some(JsonModel::List(list)) && list.len()
                == review.comments@.len() && forall|i: int|
                0 <= i < list.len() ==> #[trigger] list[i] == preview::comment_document(
                    review.comments@[i],
                )
        }),
{
    reveal_strlit("mode");
    reveal_strlit("terminal");
    reveal_strlit("units_covered");
    reveal_strlit("units_total");
    reveal_strlit("commit_id");
    reveal_strlit("resolved_finding_ids");
    reveal_strlit("carried_over");
    reveal_strlit("body");
    reveal_strlit("comments");
    assert("mode"@.len() == 4 && "terminal"@.len() == 8 && "units_covered"@.len() == 13);
    assert("units_total"@.len() == 11 && "commit_id"@.len() == 9);
    assert("resolved_finding_ids"@.len() == 20 && "carried_over"@.len() == 12);
    assert("body"@.len() == 4 && "comments"@.len() == 8);
    assert("mode"@[0] == 'm' && "body"@[0] == 'b');
    assert("terminal"@[0] == 't' && "comments"@[0] == 'c');
    reveal_with_fuel(output_laws::absent, 10);
    let fields = preview::dry_run_document(review, incremental, entries)->Object_0;
    output_laws::law_fields_are_found(fields, 0, "mode"@);
    output_laws::law_fields_are_found(fields, 1, "terminal"@);
    output_laws::law_fields_are_found(fields, 2, "units_covered"@);
    output_laws::law_fields_are_found(fields, 3, "units_total"@);
    output_laws::law_fields_are_found(fields, 4, "commit_id"@);
    output_laws::law_fields_are_found(fields, 5, "resolved_finding_ids"@);
    output_laws::law_fields_are_found(fields, 6, "carried_over"@);
    output_laws::law_fields_are_found(fields, 7, "body"@);
    output_laws::law_fields_are_found(fields, 8, "comments"@);
    assert(ledger::covered(entries) == entries.filter(|e: ledger::Entry| e.state is Covered));
}

/// A comment of a dry run shows its path, its line and its body.
pub proof fn law_dry_comments_show_everything(c: DryComment)
    ensures
        json::field_of(preview::comment_document(c), "path"@) == Some(JsonModel::Text(c.path@)),
        json::field_of(preview::comment_document(c), "line"@) == Some(
            JsonModel::Number(c.line as int),
        ),
        json::field_of(preview::comment_document(c), "body"@) == Some(JsonModel::Text(c.body@)),
{
    reveal_strlit("path");
    reveal_strlit("line");
    reveal_strlit("body");
    assert("path"@[0] == 'p' && "line"@[0] == 'l' && "body"@[0] == 'b');
    reveal_with_fuel(output_laws::absent, 4);
    let fields = preview::comment_document(c)->Object_0;
    output_laws::law_fields_are_found(fields, 0, "path"@);
    output_laws::law_fields_are_found(fields, 1, "line"@);
    output_laws::law_fields_are_found(fields, 2, "body"@);
}

/// Each terminal state has a name of its own.
pub proof fn law_terminal_states_are_told_apart(a: TerminalState, b: TerminalState)
    ensures
        a.name() == b.name() <==> a == b,
{
    reveal_strlit("ok");
    reveal_strlit("partial");
    reveal_strlit("empty");
    assert("ok"@.len() == 2 && "partial"@.len() == 7 && "empty"@.len() == 5);
}

// ---------------------------------------------------------------------------
// Log lines
// ---------------------------------------------------------------------------

/// Only a failed analysis is a warning. A skip and a failure give their reason, a
/// publication its comments and its coverage, a preview its three counts.
pub proof fn law_outcomes_are_told(
    reason: Seq<char>,
    a: nat,
    b: nat,
    c: nat,
    terminal: TerminalState,
)
    ensures
        cli::outcome_text(OutcomeView::Skipped(reason)).0 == Level::Info,
        text::ends(cli::outcome_text(OutcomeView::Skipped(reason)).1, reason),
        cli::outcome_text(OutcomeView::AnalysisFailed(reason)).0 == Level::Warn,
        text::ends(cli::outcome_text(OutcomeView::AnalysisFailed(reason)).1, reason),
        cli::outcome_text(OutcomeView::DryRun).0 == Level::Info,
        ({
            let (level, said) = cli::outcome_text(
                OutcomeView::Published { inline_comments: a as int, terminal },
            );
            &&& level == Level::Info
            &&& text::mentions(said, text::decimal(a) + " inline comments"@)
            &&& text::mentions(said, "coverage "@ + terminal.name())
        }),
        ({
            let (level, said) = cli::outcome_text(
                OutcomeView::Previewed { units: a as int, excluded: b as int, truncated: c as int },
            );
            &&& level == Level::Info
            &&& text::mentions(said, text::decimal(a) + " unit(s)"@)
            &&& text::mentions(said, text::decimal(b) + " excluded"@)
            &&& text::mentions(said, text::decimal(c) + " truncated"@)
        }),
{
    let skip = cli::outcome_text(OutcomeView::Skipped(reason)).1;
    assert(skip.subrange(skip.len() - reason.len(), skip.len() as int) =~= reason);
    let failed = cli::outcome_text(OutcomeView::AnalysisFailed(reason)).1;
    assert(failed.subrange(failed.len() - reason.len(), failed.len() as int) =~= reason);
    lemma_published(a, terminal);
    lemma_previewed(a, b, c);
}

proof fn lemma_published(a: nat, terminal: TerminalState)
    ensures
        ({
            let (level, said) = cli::outcome_text(
                OutcomeView::Published { inline_comments: a as int, terminal },
            );
            &&& text::mentions(said, text::decimal(a) + " inline comments"@)
            &&& text::mentions(said, "coverage "@ + terminal.name())
        }),
{
    reveal_strlit(" inline comments, coverage ");
    reveal_strlit(" inline comments");
    reveal_strlit("coverage ");
    let head = "✅ review published ("@;
    let gap = seq![',', ' '];
    assert(" inline comments, coverage "@ =~= " inline comments"@ + gap + "coverage "@);
    let said = cli::outcome_text(OutcomeView::Published { inline_comments: a as int, terminal }).1;
    let one = text::decimal(a) + " inline comments"@;
    let two = "coverage "@ + terminal.name();
    text_laws::law_a_part_is_mentioned(head, one, gap + two + ")"@);
    assert(said =~= head + one + (gap + two + ")"@));
    text_laws::law_a_part_is_mentioned(head + one + gap, two, ")"@);
    assert(said =~= (head + one + gap) + two + ")"@);
}

proof fn lemma_previewed(a: nat, b: nat, c: nat)
    ensures
        ({
            let (level, said) = cli::outcome_text(
                OutcomeView::Previewed { units: a as int, excluded: b as int, truncated: c as int },
            );
            &&& text::mentions(said, text::decimal(a) + " unit(s)"@)
            &&& text::mentions(said, text::decimal(b) + " excluded"@)
            &&& text::mentions(said, text::decimal(c) + " truncated"@)
        }),
{
    reveal_strlit(" unit(s) would be reviewed (");
    reveal_strlit(" unit(s)");
    reveal_strlit(" excluded, ");
    reveal_strlit(" excluded");
    reveal_strlit(" truncated), no model calls");
    reveal_strlit(" truncated");
    let head = "✅ preview: "@;
    let x = " unit(s) would be reviewed ("@;
    let gap = x.skip(8);
    let comma = seq![',', ' '];
    let y = " truncated), no model calls"@;
    let close = y.skip(10);
    assert(x =~= " unit(s)"@ + gap);
    assert(" excluded, "@ =~= " excluded"@ + comma);
    assert(y =~= " truncated"@ + close);
    let said = cli::outcome_text(
        OutcomeView::Previewed { units: a as int, excluded: b as int, truncated: c as int },
    ).1;
    let one = text::decimal(a) + " unit(s)"@;
    let two = text::decimal(b) + " excluded"@;
    let three = text::decimal(c) + " truncated"@;
    text_laws::law_a_part_is_mentioned(head, one, gap + two + comma + three + close);
    assert(said =~= head + one + (gap + two + comma + three + close));
    text_laws::law_a_part_is_mentioned(head + one + gap, two, comma + three + close);
    assert(said =~= (head + one + gap) + two + (comma + three + close));
    text_laws::law_a_part_is_mentioned(head + one + gap + two + comma, three, close);
    assert(said =~= (head + one + gap + two + comma) + three + close);
}

/// The line of a pack names it, and shows each of its patterns.
pub proof fn law_pack_lines_show_the_pack(pack: packs::PackView, i: int)
    ensures
        text::begins(cli::pack_line(pack), "- "@ + pack.id),
        text::mentions(cli::pack_line(pack), pack.version),
        text::mentions(cli::pack_line(pack), pack.language),
        0 <= i < pack.scope.len() ==> text::mentions(cli::pack_line(pack), pack.scope[i]),
{
    let line = cli::pack_line(pack);
    let end = if pack.scope.len() == 0 {
        "(fallback)"@
    } else {
        text::joined(pack.scope, " "@)
    };
    let front = "- "@ + pack.id;
    assert(line.subrange(0, front.len() as int) =~= front);
    text_laws::law_a_part_is_mentioned(
        front + " v"@,
        pack.version,
        " ["@ + pack.language + "] "@ + end,
    );
    assert(line =~= (front + " v"@) + pack.version + (" ["@ + pack.language + "] "@ + end));
    text_laws::law_a_part_is_mentioned(
        front + " v"@ + pack.version + " ["@,
        pack.language,
        "] "@ + end,
    );
    assert(line =~= (front + " v"@ + pack.version + " ["@) + pack.language + ("] "@ + end));
    if 0 <= i < pack.scope.len() {
        text_laws::law_joining_keeps_every_part(pack.scope, " "@, i);
        text_laws::law_a_part_is_mentioned(cli::pack_title(pack), end, Seq::empty());
        assert(line =~= cli::pack_title(pack) + end + Seq::empty());
        text_laws::law_mentioning_is_transitive(line, end, pack.scope[i]);
    }
}

/// Every resolved pack has a line, in order, with the pattern that matched; the note
/// stands at the end exactly where the content decided.
pub proof fn law_every_hit_has_a_line(
    hits: Seq<ResolutionView>,
    hit: ResolutionView,
    pack: packs::PackView,
    note: Seq<char>,
)
    requires
        rules::pack_with_id(hit.pack_id) == Some(pack),
    ensures
        ({
            let before = cli::hit_lines(hits, note);
            let after = cli::hit_lines(hits.push(hit), note);
            &&& after.len() == before.len() + 1
            &&& after.drop_last() == before
            &&& text::begins(after.last(), "- "@ + pack.id)
            &&& hit.sniffed ==> text::ends(
                after.last(),
                "matched "@ + hit.matched_pattern + note,
            )
            &&& !hit.sniffed ==> text::ends(after.last(), "matched "@ + hit.matched_pattern)
        }),
        cli::hit_lines(Seq::empty(), note).len() == 0,
{
    assert(hits.push(hit).drop_last() =~= hits);
    let after = cli::hit_lines(hits.push(hit), note);
    assert(after.drop_last() =~= cli::hit_lines(hits, note));
    let line = after.last();
    let front = "- "@ + pack.id;
    assert(line.subrange(0, front.len() as int) =~= front);
    let end = "matched "@ + hit.matched_pattern + if hit.sniffed {
        note
    } else {
        Seq::empty()
    };
    assert(line =~= cli::pack_title(pack) + end);
    assert(line.subrange(line.len() - end.len(), line.len() as int) =~= end);
    if !hit.sniffed {
        assert(end =~= "matched "@ + hit.matched_pattern);
    }
}

// ---------------------------------------------------------------------------
// Flags
// ---------------------------------------------------------------------------

/// What a trigger of the flags always is: a comment of the local owner.
pub open spec fn is_local(event: DevEventView) -> bool {
    &&& event.author == "local"@
    &&& event.author_association == "OWNER"@
    &&& event.title is None
    &&& event.comment_id is None
    &&& event.in_reply_to is None
}

/// The flags name an issue or a pull request: the issue comes first, and each needs the
/// repository. Without either there is no trigger, and no error. The comment carries the
/// instruction, unless the flag for it says otherwise.
pub proof fn law_flags_name_the_trigger(args: DevelopArgs)
    ensures
        match cli::trigger_of(args) {
            Err(DevError::IssueWithoutRepo) => args.issue is Some && args.repo is None,
            Err(DevError::PrWithoutRepo) => args.issue is None && args.pr is Some
                && args.repo is None,
            Ok(None) => args.issue is None && args.pr is None,
            Ok(Some(event)) => {
                &&& is_local(event)
                &&& args.repo is Some && event.repo == args.repo->0@
                &&& event.is_pr <==> args.issue is None
                &&& args.issue is Some ==> event.number == args.issue->0
                &&& args.issue is None ==> args.pr is Some && event.number == args.pr->0
                &&& text::begins(event.body, "@hoverstare "@)
                &&& !event.is_pr && args.go ==> event.body == "@hoverstare go"@
                &&& event.is_pr && args.merge ==> event.body == "@hoverstare merge"@
                &&& args.instruction is Some && !(event.is_pr && args.merge) && !(!event.is_pr
                    && args.go) ==> event.body == "@hoverstare "@ + args.instruction->0@
                &&& args.instruction is None && event.is_pr && !args.merge ==> event.body
                    == "@hoverstare "@ + "continue"@
                &&& args.instruction is None && !event.is_pr && !args.go ==> event.body
                    == "@hoverstare "@
            },
        },
{
    reveal_strlit("@hoverstare ");
    reveal_strlit("@hoverstare go");
    reveal_strlit("@hoverstare merge");
    assert("@hoverstare go"@.subrange(0, 12) =~= "@hoverstare "@);
    assert("@hoverstare merge"@.subrange(0, 12) =~= "@hoverstare "@);
    if let Ok(Some(event)) = cli::trigger_of(args) {
        assert(event.body.subrange(0, 12) =~= "@hoverstare "@);
        assert("@hoverstare "@ + Seq::<char>::empty() =~= "@hoverstare "@);
    }
}

/// A port is read back from its decimal digits, with or without a plus sign; what does
/// not fit, and what is not a number, is none.
pub proof fn law_ports_are_read_back(n: nat, s: Seq<char>, i: int)
    ensures
        n <= 65535 ==> cli::port_value(text::decimal(n)) == Some(n as u16),
        n <= 65535 ==> cli::port_value(seq!['+'] + text::decimal(n)) == Some(n as u16),
        n > 65535 ==> cli::port_value(text::decimal(n)) is None,
        cli::port_value(Seq::empty()) is None,
        0 <= i < s.len() && !('0' <= s[i] <= '9') && s[0] != '+' ==> cli::port_value(s) is None,
{
    lemma_digits(n);
    text_laws::law_decimals_read_back(n);
    let d = text::decimal(n);
    assert('0' <= d[0] <= '9');
    assert((seq!['+'] + d).drop_first() =~= d);
    if 0 <= i < s.len() && !('0' <= s[i] <= '9') {
        lemma_no_digits(s, i);
    }
}

proof fn lemma_digits(n: nat)
    ensures
        cli::digits_value(text::decimal(n)) == Some(n),
    decreases n,
{
    if n < 10 {
        assert(text::decimal(n).drop_last() =~= Seq::<char>::empty());
        assert(cli::digits_value(Seq::<char>::empty()) == Some(0nat));
    } else {
        lemma_digits(n / 10);
        assert(text::decimal(n).drop_last() =~= text::decimal(n / 10));
    }
}

proof fn lemma_no_digits(s: Seq<char>, i: int)
    requires
        0 <= i < s.len(),
        !('0' <= s[i] <= '9'),
    ensures
        cli::digits_value(s) is None,
    decreases s.len(),
{
    if i < s.len() - 1 {
        assert(s.drop_last()[i] == s[i]);
        lemma_no_digits(s.drop_last(), i);
    }
}

} // verus!
