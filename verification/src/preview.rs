//! What a preview and a dry run report.

use vstd::prelude::*;
use vstd::slice::slice_subrange;

use crate::json;
use crate::json::{Json, JsonModel};
use crate::ledger;
use crate::ledger::CoverageLedger;
use crate::orchestrator;
use crate::orchestrator::Outcome;
use crate::output;
use crate::text;
use crate::units;
use crate::units::Selection;

verus! {

/// The localized parts of a preview.
#[derive(Debug, Clone)]
pub struct PreviewLabels {
    /// The first line: scope, number of units and estimated tokens.
    pub summary: String,
    pub will_review: String,
    pub nothing: String,
    pub excluded: String,
    /// Behind the reason of a file that is kept for anchoring.
    pub kept_for_anchoring: String,
}

/// What labels hold.
pub struct LabelsView {
    pub summary: Seq<char>,
    pub will_review: Seq<char>,
    pub nothing: Seq<char>,
    pub excluded: Seq<char>,
    pub kept_for_anchoring: Seq<char>,
}

impl View for PreviewLabels {
    type V = LabelsView;

    open spec fn view(&self) -> LabelsView {
        LabelsView {
            summary: self.summary@,
            will_review: self.will_review@,
            nothing: self.nothing@,
            excluded: self.excluded@,
            kept_for_anchoring: self.kept_for_anchoring@,
        }
    }
}

/// The line of a unit.
pub open spec fn unit_line(unit: units::UnitView) -> Seq<char> {
    "  "@ + text::joined(unit.files, ", "@)
}

/// The line of an excluded file.
pub open spec fn excluded_line(file: units::ExcludedView, kept: Seq<char>) -> Seq<char> {
    "  "@ + file.path + " ("@ + file.reason.name() + (if file.kept_in_text {
        kept
    } else {
        Seq::empty()
    }) + ")"@
}

/// The lines on what will be reviewed.
pub open spec fn review_lines(list: Seq<units::UnitView>, labels: LabelsView) -> Seq<Seq<char>> {
    if list.len() == 0 {
        seq![labels.will_review + " "@ + labels.nothing]
    } else {
        seq![labels.will_review] + list.map_values(|u: units::UnitView| unit_line(u))
    }
}

/// The lines on what will not.
pub open spec fn exclusion_lines(list: Seq<units::ExcludedView>, labels: LabelsView) -> Seq<
    Seq<char>,
> {
    if list.len() == 0 {
        Seq::empty()
    } else {
        seq![labels.excluded] + list.map_values(
            |e: units::ExcludedView| excluded_line(e, labels.kept_for_anchoring),
        )
    }
}

/// The lines of a preview.
pub open spec fn preview_text(selection: units::SelectionView, labels: LabelsView) -> Seq<Seq<char>> {
    seq![labels.summary] + review_lines(selection.units, labels) + exclusion_lines(
        selection.excluded,
        labels,
    )
}

/// One more line.
fn push_line(out: &mut Vec<String>, line: String)
    ensures
        text::views(final(out)@) == text::views(old(out)@).push(line@),
{
    proof {
        text::lemma_views_push(out@, line);
    }
    out.push(line);
}

/// The lines of a human-readable preview. Paths and reason codes are identifiers
/// and stay as they are.
pub fn print_preview(selection: &Selection, labels: &PreviewLabels) -> (r: Vec<String>)
    ensures
        text::views(r@) == preview_text(selection@, labels@),
{
    let mut out: Vec<String> = Vec::new();
    push_line(&mut out, labels.summary.clone());
    assert(text::views(out@) =~= seq![labels@.summary]);
    let ghost head = text::views(out@);
    let ghost units_seen = selection@.units;
    let ghost lines = units_seen.map_values(|u: units::UnitView| unit_line(u));
    if selection.units.len() == 0 {
        let mut line = labels.will_review.clone();
        line.append(" ");
        line.append(labels.nothing.as_str());
        push_line(&mut out, line);
    } else {
        push_line(&mut out, labels.will_review.clone());
        let ghost titled = text::views(out@);
        let mut i: usize = 0;
        assert(titled + lines.take(0) =~= titled);
        while i < selection.units.len()
            invariant
                i <= selection.units@.len(),
                units_seen == units::unit_views(selection.units@),
                lines == units_seen.map_values(|u: units::UnitView| unit_line(u)),
                text::views(out@) == titled + lines.take(i as int),
            decreases selection.units@.len() - i,
        {
            let mut line = "  ".to_owned();
            line.append(text::join(&selection.units[i].files, ", ").as_str());
            proof {
                assert(line@ == lines[i as int]);
                assert(titled + lines.take(i + 1) =~= (titled + lines.take(i as int)).push(
                    lines[i as int],
                ));
            }
            push_line(&mut out, line);
            i = i + 1;
        }
        assert(lines.take(i as int) =~= lines);
    }
    assert(text::views(out@) =~= head + review_lines(selection@.units, labels@));
    let ghost middle = text::views(out@);
    let ghost files = selection@.excluded;
    let ghost tail = files.map_values(
        |e: units::ExcludedView| excluded_line(e, labels@.kept_for_anchoring),
    );
    if selection.excluded.len() > 0 {
        push_line(&mut out, labels.excluded.clone());
        let ghost titled = text::views(out@);
        let mut i: usize = 0;
        assert(titled + tail.take(0) =~= titled);
        while i < selection.excluded.len()
            invariant
                i <= selection.excluded@.len(),
                files == units::excluded_views(selection.excluded@),
                tail == files.map_values(
                    |e: units::ExcludedView| excluded_line(e, labels@.kept_for_anchoring),
                ),
                text::views(out@) == titled + tail.take(i as int),
            decreases selection.excluded@.len() - i,
        {
            let e = &selection.excluded[i];
            let mut line = "  ".to_owned();
            line.append(e.path.as_str());
            line.append(" (");
            line.append(e.reason.as_str());
            if e.kept_in_text {
                line.append(labels.kept_for_anchoring.as_str());
            }
            line.append(")");
            proof {
                assert(line@ =~= excluded_line(e@, labels@.kept_for_anchoring));
                assert(line@ == tail[i as int]);
                assert(titled + tail.take(i + 1) =~= (titled + tail.take(i as int)).push(
                    tail[i as int],
                ));
            }
            push_line(&mut out, line);
            i = i + 1;
        }
        assert(tail.take(i as int) =~= tail);
    }
    assert(text::views(out@) =~= middle + exclusion_lines(selection@.excluded, labels@));
    out
}

/// The outcome of a preview: what was reported, and nothing dispatched.
pub fn preview_outcome(selection: &Selection) -> (r: Outcome)
    ensures
        r@ == (orchestrator::OutcomeView::Previewed {
            units: selection@.units.len() as int,
            excluded: units::taken_out(selection@.excluded).len() as int,
            truncated: units::dropped_paths(selection@.excluded).len() as int,
        }),
{
    let dropped = selection.oversized_dropped();
    assert(text::views(dropped@).len() == dropped@.len());
    Outcome::Previewed {
        units: selection.units.len(),
        excluded: selection.excluded_count(),
        truncated: dropped.len(),
    }
}

/// The beginning of a revision, as it is shown.
pub fn short_sha(sha: &str) -> (r: String)
    ensures
        r@ == text::byte_prefix(sha@, orchestrator::SHORT_SHA_BYTES as nat),
{
    let chars = text::chars_of(sha);
    let n: usize = text::floor_char_boundary(&chars, orchestrator::SHORT_SHA_BYTES as u128);
    let head = slice_subrange(&chars, 0, n);
    assert(head@ =~= sha@.take(n as int));
    text::string_of(head)
}

/// Every selected unit and every exclusion has its line: a preview is silent on
/// nothing.
pub proof fn law_preview_lists_everything(selection: units::SelectionView, labels: LabelsView)
    ensures
        preview_text(selection, labels).len() == 2 + selection.units.len() + (
        if selection.excluded.len() == 0 {
            0
        } else {
            1 + selection.excluded.len() as int
        }),
        forall|i: int|
            0 <= i < selection.units.len() ==> preview_text(selection, labels)[2 + i] == unit_line(
                #[trigger] selection.units[i],
            ),
        forall|i: int|
            0 <= i < selection.excluded.len() ==> preview_text(selection, labels)[3
                + selection.units.len() + i] == excluded_line(
                #[trigger] selection.excluded[i],
                labels.kept_for_anchoring,
            ),
{
    let all = preview_text(selection, labels);
    let r = review_lines(selection.units, labels);
    let x = exclusion_lines(selection.excluded, labels);
    assert(all.len() == 1 + r.len() + x.len());
}

// ---------------------------------------------------------------------------
// Dry run
// ---------------------------------------------------------------------------

/// A comment of the review that a dry run does not post.
#[derive(Debug, Clone)]
pub struct DryComment {
    pub path: String,
    pub line: u64,
    pub body: String,
}

/// The review that a dry run does not post.
#[derive(Debug, Clone)]
pub struct DryReview {
    pub commit_id: String,
    pub resolved_finding_ids: Vec<String>,
    /// Findings that earlier reviews already carry.
    pub carried_over: u64,
    pub body: String,
    pub comments: Vec<DryComment>,
}

/// A comment in the document of a dry run.
pub open spec fn comment_document(c: DryComment) -> JsonModel {
    JsonModel::Object(
        seq![
            ("path"@, JsonModel::Text(c.path@)),
            ("line"@, JsonModel::Number(c.line as int)),
            ("body"@, JsonModel::Text(c.body@)),
        ],
    )
}

/// The mode of a review in documents.
pub open spec fn mode_name(incremental: bool) -> Seq<char> {
    if incremental {
        "incremental"@
    } else {
        "full"@
    }
}

/// The document of a dry run.
pub open spec fn dry_run_document(
    review: DryReview,
    incremental: bool,
    entries: Seq<ledger::Entry>,
) -> JsonModel {
    JsonModel::Object(
        seq![
            ("mode"@, JsonModel::Text(mode_name(incremental))),
            ("terminal"@, JsonModel::Text(ledger::terminal_of(entries).name())),
            ("units_covered"@, JsonModel::Number(ledger::covered(entries).len() as int)),
            ("units_total"@, JsonModel::Number(entries.len() as int)),
            ("commit_id"@, JsonModel::Text(review.commit_id@)),
            (
                "resolved_finding_ids"@,
                output::text_list(text::views(review.resolved_finding_ids@)),
            ),
            ("carried_over"@, JsonModel::Number(review.carried_over as int)),
            ("body"@, JsonModel::Text(review.body@)),
            (
                "comments"@,
                JsonModel::List(review.comments@.map_values(|c: DryComment| comment_document(c))),
            ),
        ],
    )
}

fn comments_json(comments: &[DryComment]) -> (r: Json)
    ensures
        r.model() == JsonModel::List(
            comments@.map_values(|c: DryComment| comment_document(c)),
        ),
{
    let ghost want = comments@.map_values(|c: DryComment| comment_document(c));
    let mut out: Vec<Json> = Vec::new();
    let mut i: usize = 0;
    while i < comments.len()
        invariant
            i <= comments@.len(),
            want == comments@.map_values(|c: DryComment| comment_document(c)),
            json::models(out@) == want.take(i as int),
        decreases comments@.len() - i,
    {
        let mut fields: Vec<(String, Json)> = Vec::new();
        json::field(&mut fields, "path", json::text_of(comments[i].path.as_str()));
        json::field(&mut fields, "line", Json::Number(comments[i].line));
        json::field(&mut fields, "body", json::text_of(comments[i].body.as_str()));
        assert(json::field_models(fields@) =~= comment_document(comments@[i as int])->Object_0);
        let one = json::object_of(fields);
        proof {
            json::lemma_models_push(out@, one);
            assert(want.take(i + 1) =~= want.take(i as int).push(want[i as int]));
        }
        out.push(one);
        i = i + 1;
    }
    assert(want.take(i as int) =~= want);
    json::list_of(out)
}

/// The document that a dry run prints in place of publishing.
pub fn dry_run_json(review: &DryReview, incremental: bool, coverage: &CoverageLedger) -> (r: Json)
    ensures
        r.model() == dry_run_document(*review, incremental, coverage@),
{
    let summary = coverage.summary();
    let mode = if incremental {
        "incremental"
    } else {
        "full"
    };
    let mut fields: Vec<(String, Json)> = Vec::new();
    json::field(&mut fields, "mode", json::text_of(mode));
    json::field(&mut fields, "terminal", json::text_of(summary.terminal.as_str()));
    json::field(&mut fields, "units_covered", Json::Number(summary.covered as u64));
    json::field(&mut fields, "units_total", Json::Number(summary.total as u64));
    json::field(&mut fields, "commit_id", json::text_of(review.commit_id.as_str()));
    json::field(
        &mut fields,
        "resolved_finding_ids",
        output::texts_json(&review.resolved_finding_ids),
    );
    json::field(&mut fields, "carried_over", Json::Number(review.carried_over));
    json::field(&mut fields, "body", json::text_of(review.body.as_str()));
    json::field(&mut fields, "comments", comments_json(&review.comments));
    assert(json::field_models(fields@) =~= dry_run_document(
        *review,
        incremental,
        coverage@,
    )->Object_0);
    json::object_of(fields)
}

} // verus!
