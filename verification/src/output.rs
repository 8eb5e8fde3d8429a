//! Structured output: one shape for the machine-readable result of a run.
//!
//! The contract is small and closed: enumerated values are exhaustive, ordering
//! is fixed here, and paths are relative to the repository.

use vstd::prelude::*;
use vstd::slice::slice_subrange;

use crate::conversation::{Severity, UsageTotal};
use crate::json;
use crate::json::{Json, JsonModel};
use crate::ledger;
use crate::ledger::{CoverageLedger, CoverageSummary, StateView, TerminalState, UnitState};
use crate::paths;
use crate::paths::PathError;
use crate::sorting;
use crate::text;
use crate::units;
use crate::units::{ExcludedFile, ReviewUnit, Selection};

pub use crate::json::to_pretty;
pub use crate::sarif::sarif;

verus! {

/// Schema version of the JSON document. Adding optional fields is a minor change;
/// removing fields or changing their meaning is a major one.
pub const SCHEMA_VERSION: &'static str = "1.0";

/// Characters of a revision that are reported.
pub const REVISION_CHARS: usize = 12;

/// Output format selector.
#[derive(Debug, Clone, Copy, PartialEq, Eq, Structural)]
pub enum OutputFormat {
    Human,
    Json,
    Sarif,
}

impl OutputFormat {
    /// The name of a format.
    pub open spec fn name(self) -> Seq<char> {
        match self {
            OutputFormat::Human => "human"@,
            OutputFormat::Json => "json"@,
            OutputFormat::Sarif => "sarif"@,
        }
    }

    pub fn as_str(self) -> (r: &'static str)
        ensures
            r@ == self.name(),
    {
        match self {
            OutputFormat::Human => "human",
            OutputFormat::Json => "json",
            OutputFormat::Sarif => "sarif",
        }
    }

    /// Whether the format produces a machine-readable document, and so claims
    /// stdout.
    pub fn is_structured(self) -> (r: bool)
        ensures
            r == !(self is Human),
    {
        match self {
            OutputFormat::Human => false,
            _ => true,
        }
    }
}

/// How a run reached us.
pub open spec fn form_of(explicit: Option<Seq<char>>, in_actions: bool) -> Seq<char> {
    match explicit {
        Some(v) if text::trimmed(v).len() > 0 => if v == "serve"@ {
            "serve"@
        } else if v == "cli"@ {
            "cli"@
        } else {
            "action"@
        },
        _ => if in_actions {
            "action"@
        } else {
            "cli"@
        },
    }
}

/// How this run reached us: an explicit choice where one is given, else whether
/// it runs inside a workflow.
pub fn form(explicit: Option<&str>, in_actions: bool) -> (r: &'static str)
    ensures
        r@ == form_of(text::opt_str_view(explicit), in_actions),
{
    if let Some(v) = explicit {
        if !text::is_blank(v) {
            return if text::same(v, "serve") {
                "serve"
            } else if text::same(v, "cli") {
                "cli"
            } else {
                "action"
            };
        }
    }
    if in_actions {
        "action"
    } else {
        "cli"
    }
}

/// The revision that a document reports.
pub open spec fn revision_of(built_from: Option<Seq<char>>, version: Seq<char>) -> Seq<char> {
    match built_from {
        Some(v) if text::trimmed(v).len() > 0 => {
            let t = text::trimmed(v);
            if t.len() <= REVISION_CHARS {
                t
            } else {
                t.take(REVISION_CHARS as int)
            }
        },
        _ => version,
    }
}

/// The revision this binary was built from: the beginning of what the workflow
/// exports, else the version of the package.
pub fn revision_from_env(built_from: Option<&str>, version: &str) -> (r: String)
    ensures
        r@ == revision_of(text::opt_str_view(built_from), version@),
{
    if let Some(v) = built_from {
        let chars = text::chars_of(v);
        let t = text::trim(&chars);
        if t.len() > 0 {
            if t.len() <= REVISION_CHARS {
                return text::string_of(t);
            }
            let head = slice_subrange(t, 0, REVISION_CHARS);
            assert(head@ =~= t@.take(REVISION_CHARS as int));
            return text::string_of(head);
        }
    }
    version.to_owned()
}

// ---------------------------------------------------------------------------
// Paths
// ---------------------------------------------------------------------------

/// A path without leading `./` and `/`, however many.
pub open spec fn rootless(path: Seq<char>) -> Seq<char>
    decreases path.len(),
{
    if text::begins(path, "./"@) && path.len() >= 2 {
        rootless(path.skip(2))
    } else if text::begins(path, "/"@) && path.len() >= 1 {
        rootless(path.skip(1))
    } else {
        path
    }
}

/// A path as documents give it.
pub open spec fn normal_path(path: Seq<char>) -> Seq<char> {
    rootless(text::replaced(text::trimmed(path), '\\', '/'))
}

/// Repository-relative, forward slashes, no leading `./`.
pub fn normalize_path(path: &str) -> (r: String)
    ensures
        r@ == normal_path(path@),
{
    let chars = text::chars_of(path);
    let dot = text::chars_of("./");
    let slash = text::chars_of("/");
    let all = text::replace(text::trim(&chars), '\\', '/');
    let n: usize = all.len();
    let mut i: usize = 0;
    proof {
        reveal_strlit("./");
        reveal_strlit("/");
        assert(all@.skip(0) =~= all@);
    }
    loop
        invariant
            i <= n,
            n == all@.len(),
            dot@ == "./"@,
            slash@ == "/"@,
            dot@.len() == 2,
            slash@.len() == 1,
            rootless(all@) == rootless(all@.skip(i as int)),
        ensures
            i <= n,
            rootless(all@) == all@.skip(i as int),
        decreases n - i,
    {
        let rest = slice_subrange(&all, i, n);
        assert(rest@ =~= all@.skip(i as int));
        if text::starts_with(rest, &dot) {
            assert(all@.skip(i as int).skip(2) =~= all@.skip(i + 2));
            i = i + 2;
        } else if text::starts_with(rest, &slash) {
            assert(all@.skip(i as int).skip(1) =~= all@.skip(i + 1));
            i = i + 1;
        } else {
            break;
        }
    }
    let rest = slice_subrange(&all, i, n);
    assert(rest@ =~= all@.skip(i as int));
    text::string_of(rest)
}

/// What is left of a path is an end of it, and begins with neither `./` nor `/`.
proof fn lemma_rootless(path: Seq<char>)
    ensures
        rootless(path).len() <= path.len(),
        rootless(path) == path.skip(path.len() - rootless(path).len()),
        !text::begins(rootless(path), "./"@),
        !text::begins(rootless(path), "/"@),
    decreases path.len(),
{
    reveal_strlit("./");
    reveal_strlit("/");
    if text::begins(path, "./"@) {
        lemma_rootless(path.skip(2));
        assert(rootless(path) =~= path.skip(path.len() - rootless(path).len()));
    } else if text::begins(path, "/"@) {
        lemma_rootless(path.skip(1));
        assert(rootless(path) =~= path.skip(path.len() - rootless(path).len()));
    } else {
        assert(path.skip(0) =~= path);
    }
}

/// A path in a document is never absolute, has no leading `./` and no backslash.
pub proof fn law_document_paths_are_relative(path: Seq<char>)
    ensures
        !text::begins(normal_path(path), "/"@),
        !text::begins(normal_path(path), "./"@),
        !normal_path(path).contains('\\'),
{
    let slashed = text::replaced(text::trimmed(path), '\\', '/');
    lemma_rootless(slashed);
    let p = normal_path(path);
    if p.contains('\\') {
        let k = choose|k: int| 0 <= k < p.len() && p[k] == '\\';
        assert(slashed[slashed.len() - p.len() + k] == '\\');
    }
}

// ---------------------------------------------------------------------------
// Preview
// ---------------------------------------------------------------------------

/// A list of texts.
pub open spec fn text_list(texts: Seq<Seq<char>>) -> JsonModel {
    JsonModel::List(texts.map_values(|t: Seq<char>| JsonModel::Text(t)))
}

/// A list of texts.
pub(crate) fn texts_json(texts: &[String]) -> (r: Json)
    ensures
        r.model() == text_list(text::views(texts@)),
{
    let ghost want = text::views(texts@).map_values(|t: Seq<char>| JsonModel::Text(t));
    let mut out: Vec<Json> = Vec::new();
    let mut i: usize = 0;
    while i < texts.len()
        invariant
            i <= texts@.len(),
            want == text::views(texts@).map_values(|t: Seq<char>| JsonModel::Text(t)),
            json::models(out@) == want.take(i as int),
        decreases texts@.len() - i,
    {
        let one = json::text_of(texts[i].as_str());
        proof {
            json::lemma_models_push(out@, one);
            assert(want.take(i + 1) =~= want.take(i as int).push(want[i as int]));
        }
        out.push(one);
        i = i + 1;
    }
    assert(want.take(i as int) =~= want);
    json::list_of(out)
}

/// A unit of a preview.
pub open spec fn preview_unit(unit: units::UnitView) -> JsonModel {
    JsonModel::Object(
        seq![
            ("unit_id"@, JsonModel::Text(unit.unit_id)),
            ("files"@, text_list(unit.files)),
            ("status"@, JsonModel::Text("pending"@)),
        ],
    )
}

/// An excluded file of a document.
pub open spec fn excluded_document(file: units::ExcludedView) -> JsonModel {
    JsonModel::Object(
        seq![
            ("path"@, JsonModel::Text(normal_path(file.path))),
            ("reason"@, JsonModel::Text(file.reason.name())),
            ("kept_in_text"@, JsonModel::Bool(file.kept_in_text)),
        ],
    )
}

/// The preview document.
pub open spec fn preview_document(selection: units::SelectionView, incremental: bool) -> JsonModel {
    JsonModel::Object(
        seq![
            (
                "mode"@,
                JsonModel::Text(
                    if incremental {
                        "incremental"@
                    } else {
                        "full"@
                    },
                ),
            ),
            ("estimated_tokens"@, JsonModel::Number(selection.estimated_tokens)),
            (
                "units"@,
                JsonModel::List(selection.units.map_values(|u: units::UnitView| preview_unit(u))),
            ),
            (
                "excluded"@,
                JsonModel::List(
                    selection.excluded.map_values(|e: units::ExcludedView| excluded_document(e)),
                ),
            ),
            ("truncated"@, text_list(units::dropped_paths(selection.excluded))),
        ],
    )
}

fn preview_unit_json(unit: &ReviewUnit) -> (r: Json)
    ensures
        r.model() == preview_unit(unit@),
{
    let mut fields: Vec<(String, Json)> = Vec::new();
    json::field(&mut fields, "unit_id", json::text_of(unit.unit_id.as_str()));
    json::field(&mut fields, "files", texts_json(&unit.files));
    json::field(&mut fields, "status", json::text_of("pending"));
    assert(json::field_models(fields@) =~= preview_unit(unit@)->Object_0);
    json::object_of(fields)
}

fn excluded_file_json(file: &ExcludedFile) -> (r: Json)
    ensures
        r.model() == excluded_document(file@),
{
    let mut fields: Vec<(String, Json)> = Vec::new();
    json::field(
        &mut fields,
        "path",
        json::text_of(normalize_path(file.path.as_str()).as_str()),
    );
    json::field(&mut fields, "reason", json::text_of(file.reason.as_str()));
    json::field(&mut fields, "kept_in_text", Json::Bool(file.kept_in_text));
    assert(json::field_models(fields@) =~= excluded_document(file@)->Object_0);
    json::object_of(fields)
}

fn preview_units_json(list: &[ReviewUnit]) -> (r: Json)
    ensures
        r.model() == JsonModel::List(
            units::unit_views(list@).map_values(|u: units::UnitView| preview_unit(u)),
        ),
{
    let ghost want = units::unit_views(list@).map_values(|u: units::UnitView| preview_unit(u));
    let mut out: Vec<Json> = Vec::new();
    let mut i: usize = 0;
    while i < list.len()
        invariant
            i <= list@.len(),
            want == units::unit_views(list@).map_values(|u: units::UnitView| preview_unit(u)),
            json::models(out@) == want.take(i as int),
        decreases list@.len() - i,
    {
        let one = preview_unit_json(&list[i]);
        proof {
            json::lemma_models_push(out@, one);
            assert(want.take(i + 1) =~= want.take(i as int).push(want[i as int]));
        }
        out.push(one);
        i = i + 1;
    }
    assert(want.take(i as int) =~= want);
    json::list_of(out)
}

fn excluded_json(list: &[ExcludedFile]) -> (r: Json)
    ensures
        r.model() == JsonModel::List(
            units::excluded_views(list@).map_values(|e: units::ExcludedView| excluded_document(e)),
        ),
{
    let ghost want = units::excluded_views(list@).map_values(
        |e: units::ExcludedView| excluded_document(e),
    );
    let mut out: Vec<Json> = Vec::new();
    let mut i: usize = 0;
    while i < list.len()
        invariant
            i <= list@.len(),
            want == units::excluded_views(list@).map_values(
                |e: units::ExcludedView| excluded_document(e),
            ),
            json::models(out@) == want.take(i as int),
        decreases list@.len() - i,
    {
        let one = excluded_file_json(&list[i]);
        proof {
            json::lemma_models_push(out@, one);
            assert(want.take(i + 1) =~= want.take(i as int).push(want[i as int]));
        }
        out.push(one);
        i = i + 1;
    }
    assert(want.take(i as int) =~= want);
    json::list_of(out)
}

/// The preview document: shaped like the `units` segment of a run's document, so
/// that a consumer reads the same fields before and after a run.
pub fn preview_json(selection: &Selection, incremental: bool) -> (r: Json)
    ensures
        r.model() == preview_document(selection@, incremental),
{
    let mode = if incremental {
        "incremental"
    } else {
        "full"
    };
    let mut fields: Vec<(String, Json)> = Vec::new();
    json::field(&mut fields, "mode", json::text_of(mode));
    json::field(&mut fields, "estimated_tokens", Json::Number(selection.estimated_tokens));
    json::field(&mut fields, "units", preview_units_json(&selection.units));
    json::field(&mut fields, "excluded", excluded_json(&selection.excluded));
    json::field(&mut fields, "truncated", texts_json(&selection.oversized_dropped()));
    assert(json::field_models(fields@) =~= preview_document(selection@, incremental)->Object_0);
    json::object_of(fields)
}

// ---------------------------------------------------------------------------
// Findings
// ---------------------------------------------------------------------------

/// Lifecycle of a finding across runs.
#[derive(Debug, Clone, Copy, PartialEq, Eq, Structural)]
pub enum FindingStatus {
    New,
    CarriedOver,
    Resolved,
}

impl FindingStatus {
    /// The name of a status in documents.
    pub open spec fn name(self) -> Seq<char> {
        match self {
            FindingStatus::New => "new"@,
            FindingStatus::CarriedOver => "carried_over"@,
            FindingStatus::Resolved => "resolved"@,
        }
    }

    pub fn as_str(self) -> (r: &'static str)
        ensures
            r@ == self.name(),
    {
        match self {
            FindingStatus::New => "new",
            FindingStatus::CarriedOver => "carried_over",
            FindingStatus::Resolved => "resolved",
        }
    }
}

/// A related location.
#[derive(Debug, Clone, PartialEq, Eq)]
pub struct RelatedLocation {
    pub path: String,
    pub line: u64,
}

/// One finding as documents expose it. `line` and `end_line` are absent for a
/// finding that could not be anchored.
#[derive(Debug, Clone, PartialEq, Eq)]
pub struct FindingView {
    pub fingerprint: String,
    pub path: String,
    pub line: Option<u64>,
    pub end_line: Option<u64>,
    pub severity: Severity,
    pub title: String,
    pub body: String,
    pub suggestion: Option<String>,
    pub status: FindingStatus,
    pub related: Vec<RelatedLocation>,
}

/// What a related location holds.
pub struct RelatedModel {
    pub path: Seq<char>,
    pub line: u64,
}

/// What a finding holds.
pub struct FindingModel {
    pub fingerprint: Seq<char>,
    pub path: Seq<char>,
    pub line: Option<u64>,
    pub end_line: Option<u64>,
    pub severity: Severity,
    pub title: Seq<char>,
    pub body: Seq<char>,
    pub suggestion: Option<Seq<char>>,
    pub status: FindingStatus,
    pub related: Seq<RelatedModel>,
}

impl View for RelatedLocation {
    type V = RelatedModel;

    open spec fn view(&self) -> RelatedModel {
        RelatedModel { path: self.path@, line: self.line }
    }
}

/// The contents of related locations.
pub open spec fn related_views(list: Seq<RelatedLocation>) -> Seq<RelatedModel> {
    list.map_values(|r: RelatedLocation| r@)
}

impl View for FindingView {
    type V = FindingModel;

    open spec fn view(&self) -> FindingModel {
        FindingModel {
            fingerprint: self.fingerprint@,
            path: self.path@,
            line: self.line,
            end_line: self.end_line,
            severity: self.severity,
            title: self.title@,
            body: self.body@,
            suggestion: text::opt_view(self.suggestion),
            status: self.status,
            related: related_views(self.related@),
        }
    }
}

/// The contents of findings.
pub open spec fn finding_views(list: Seq<FindingView>) -> Seq<FindingModel> {
    list.map_values(|f: FindingView| f@)
}

/// The line by which a finding is ordered; one without a line comes last.
pub open spec fn line_key(line: Option<u64>) -> int {
    match line {
        Some(n) => n as int,
        None => u64::MAX + 1,
    }
}

/// The order of findings: by the path that the document shows, then line, then
/// fingerprint.
pub open spec fn finding_le(a: FindingModel, b: FindingModel) -> bool {
    if normal_path(a.path) != normal_path(b.path) {
        text::at_most(normal_path(a.path), normal_path(b.path))
    } else if line_key(a.line) != line_key(b.line) {
        line_key(a.line) < line_key(b.line)
    } else {
        text::at_most(a.fingerprint, b.fingerprint)
    }
}

/// Findings in the order of documents.
pub open spec fn ordered_findings(list: Seq<FindingModel>) -> Seq<FindingModel> {
    sorting::sorted(list, |a: FindingModel, b: FindingModel| finding_le(a, b))
}

/// A related location in a document.
pub open spec fn related_document(r: RelatedModel) -> JsonModel {
    JsonModel::Object(
        seq![
            ("path"@, JsonModel::Text(normal_path(r.path))),
            ("line"@, JsonModel::Number(r.line as int)),
        ],
    )
}

/// A finding in a document.
pub open spec fn finding_document(f: FindingModel) -> JsonModel {
    JsonModel::Object(
        seq![
            ("fingerprint"@, JsonModel::Text(f.fingerprint)),
            ("path"@, JsonModel::Text(normal_path(f.path))),
            ("line"@, json::number_or_null(f.line)),
            ("end_line"@, json::number_or_null(f.end_line)),
            ("side"@, JsonModel::Text("new"@)),
            ("severity"@, JsonModel::Text(f.severity.name())),
            ("title"@, JsonModel::Text(f.title)),
            ("body"@, JsonModel::Text(f.body)),
            ("suggestion"@, json::text_or_null(f.suggestion)),
            ("status"@, JsonModel::Text(f.status.name())),
            (
                "related"@,
                JsonModel::List(f.related.map_values(|r: RelatedModel| related_document(r))),
            ),
        ],
    )
}

/// The `findings` segment.
pub open spec fn findings_document(list: Seq<FindingModel>) -> JsonModel {
    JsonModel::List(ordered_findings(list).map_values(|f: FindingModel| finding_document(f)))
}

fn related_json(list: &[RelatedLocation]) -> (r: Json)
    ensures
        r.model() == JsonModel::List(
            related_views(list@).map_values(|r: RelatedModel| related_document(r)),
        ),
{
    let ghost want = related_views(list@).map_values(|r: RelatedModel| related_document(r));
    let mut out: Vec<Json> = Vec::new();
    let mut i: usize = 0;
    while i < list.len()
        invariant
            i <= list@.len(),
            want == related_views(list@).map_values(|r: RelatedModel| related_document(r)),
            json::models(out@) == want.take(i as int),
        decreases list@.len() - i,
    {
        let mut fields: Vec<(String, Json)> = Vec::new();
        json::field(
            &mut fields,
            "path",
            json::text_of(normalize_path(list[i].path.as_str()).as_str()),
        );
        json::field(&mut fields, "line", Json::Number(list[i].line));
        assert(json::field_models(fields@) =~= related_document(list@[i as int]@)->Object_0);
        let one = json::object_of(fields);
        proof {
            json::lemma_models_push(out@, one);
            assert(want.take(i + 1) =~= want.take(i as int).push(want[i as int]));
        }
        out.push(one);
        i = i + 1;
    }
    assert(want.take(i as int) =~= want);
    json::list_of(out)
}

fn finding_json(f: &FindingView) -> (r: Json)
    ensures
        r.model() == finding_document(f@),
{
    let mut fields: Vec<(String, Json)> = Vec::new();
    json::field(&mut fields, "fingerprint", json::text_of(f.fingerprint.as_str()));
    json::field(
        &mut fields,
        "path",
        json::text_of(normalize_path(f.path.as_str()).as_str()),
    );
    json::field(&mut fields, "line", json::number_or_null_of(f.line));
    json::field(&mut fields, "end_line", json::number_or_null_of(f.end_line));
    json::field(&mut fields, "side", json::text_of("new"));
    json::field(&mut fields, "severity", json::text_of(f.severity.as_str()));
    json::field(&mut fields, "title", json::text_of(f.title.as_str()));
    json::field(&mut fields, "body", json::text_of(f.body.as_str()));
    let suggestion = match &f.suggestion {
        Some(s) => json::text_of(s.as_str()),
        None => Json::Null,
    };
    json::field(&mut fields, "suggestion", suggestion);
    json::field(&mut fields, "status", json::text_of(f.status.as_str()));
    json::field(&mut fields, "related", related_json(&f.related));
    assert(json::field_models(fields@) =~= finding_document(f@)->Object_0);
    json::object_of(fields)
}

/// Whether a finding does not come after another.
fn finding_not_after(a: &FindingView, b: &FindingView) -> (r: bool)
    ensures
        r == finding_le(a@, b@),
{
    let x = normalize_path(a.path.as_str());
    let y = normalize_path(b.path.as_str());
    if !text::same(x.as_str(), y.as_str()) {
        return text::str_not_after(x.as_str(), y.as_str());
    }
    match (a.line, b.line) {
        (Some(m), Some(n)) => if m != n {
            return m < n;
        },
        (Some(_), None) => {
            return true;
        },
        (None, Some(_)) => {
            return false;
        },
        (None, None) => {},
    }
    text::str_not_after(a.fingerprint.as_str(), b.fingerprint.as_str())
}

/// The places of findings, in the order of documents.
pub(crate) fn finding_places(findings: &[FindingView]) -> (r: Vec<usize>)
    ensures
        sorting::picked(finding_views(findings@), r@) == ordered_findings(finding_views(findings@)),
        forall|k: int| 0 <= k < r@.len() ==> (#[trigger] r@[k]) < findings@.len(),
{
    let ghost all = finding_views(findings@);
    let ghost rel = |a: FindingModel, b: FindingModel| finding_le(a, b);
    let n: usize = findings.len();
    let le = |i: usize, j: usize| -> (b: bool)
        requires
            i < findings@.len(),
            j < findings@.len(),
        ensures
            b == finding_le(findings@[i as int]@, findings@[j as int]@),
        { finding_not_after(&findings[i], &findings[j]) };
    sorting::sorted_places::<FindingModel, _>(n, le, Ghost(all), Ghost(rel))
}

/// The `findings` segment, in the fixed order.
pub fn findings_json(findings: &[FindingView]) -> (r: Json)
    ensures
        r.model() == findings_document(finding_views(findings@)),
{
    let ghost all = finding_views(findings@);
    let places = finding_places(findings);
    let ghost want = ordered_findings(all).map_values(|f: FindingModel| finding_document(f));
    let mut out: Vec<Json> = Vec::new();
    let mut i: usize = 0;
    while i < places.len()
        invariant
            i <= places@.len(),
            all == finding_views(findings@),
            sorting::picked(all, places@) == ordered_findings(all),
            forall|k: int| 0 <= k < places@.len() ==> (#[trigger] places@[k]) < findings@.len(),
            want == ordered_findings(all).map_values(|f: FindingModel| finding_document(f)),
            json::models(out@) == want.take(i as int),
        decreases places@.len() - i,
    {
        let one = finding_json(&findings[places[i]]);
        proof {
            assert(ordered_findings(all)[i as int] == all[places@[i as int] as int]);
            json::lemma_models_push(out@, one);
            assert(want.take(i + 1) =~= want.take(i as int).push(want[i as int]));
        }
        out.push(one);
        i = i + 1;
    }
    assert(want.take(i as int) =~= want);
    json::list_of(out)
}

/// The order of findings can be sorted by.
proof fn lemma_findings_are_ordered()
    ensures
        sorting::is_order(|a: FindingModel, b: FindingModel| finding_le(a, b)),
{
    let le = |a: FindingModel, b: FindingModel| finding_le(a, b);
    assert forall|a: FindingModel, b: FindingModel| #[trigger] le(a, b) || le(b, a) by {
        text::lemma_at_most_total(normal_path(a.path), normal_path(b.path));
        text::lemma_at_most_total(a.fingerprint, b.fingerprint);
    }
    assert forall|a: FindingModel, b: FindingModel, c: FindingModel| #[trigger]
        le(a, b) && #[trigger] le(b, c) implies le(a, c) by {
        let x = normal_path(a.path);
        let y = normal_path(b.path);
        let z = normal_path(c.path);
        if text::at_most(x, y) && text::at_most(y, z) {
            text::lemma_at_most_trans(x, y, z);
        }
        if text::at_most(a.fingerprint, b.fingerprint) && text::at_most(
            b.fingerprint,
            c.fingerprint,
        ) {
            text::lemma_at_most_trans(a.fingerprint, b.fingerprint, c.fingerprint);
        }
        if x == z && x != y {
            text::lemma_at_most_antisym(x, y);
        }
    }
}

/// The path, the line and the fingerprint that a document shows of a finding.
pub open spec fn shown(doc: JsonModel) -> (JsonModel, JsonModel, JsonModel) {
    (
        json::field_of(doc, "path"@)->0,
        json::field_of(doc, "line"@)->0,
        json::field_of(doc, "fingerprint"@)->0,
    )
}

/// The line that a document shows, as a key of the order; null comes last.
pub open spec fn shown_line(line: JsonModel) -> int {
    match line {
        JsonModel::Number(n) => n,
        _ => u64::MAX + 1,
    }
}

/// Whether a finding in a document may stand before another, by what the document
/// shows of them: path, then line with null last, then fingerprint.
pub open spec fn shown_le(a: JsonModel, b: JsonModel) -> bool {
    let x = shown(a);
    let y = shown(b);
    if x.0->Text_0 != y.0->Text_0 {
        text::at_most(x.0->Text_0, y.0->Text_0)
    } else if shown_line(x.1) != shown_line(y.1) {
        shown_line(x.1) < shown_line(y.1)
    } else {
        text::at_most(x.2->Text_0, y.2->Text_0)
    }
}

/// What a document shows of a finding.
proof fn lemma_shown(f: FindingModel)
    ensures
        shown(finding_document(f)) == (
            JsonModel::Text(normal_path(f.path)),
            json::number_or_null(f.line),
            JsonModel::Text(f.fingerprint),
        ),
{
    reveal_strlit("fingerprint");
    reveal_strlit("path");
    reveal_strlit("line");
    assert("path"@[0] != "line"@[0]);
    assert("fingerprint"@.len() != "line"@.len() && "fingerprint"@.len() != "path"@.len());
    let fields = finding_document(f)->Object_0;
    let second = fields.drop_first();
    let third = second.drop_first();
    assert(fields[0].0 == "fingerprint"@);
    assert(second[0] == fields[1] && second[0].0 == "path"@);
    assert(third[0] == fields[2] && third[0].0 == "line"@);
    assert(json::value_in(fields, "fingerprint"@) == Some(fields[0].1));
    assert(json::value_in(fields, "path"@) == json::value_in(second, "path"@));
    assert(json::value_in(second, "path"@) == Some(second[0].1));
    assert(json::value_in(fields, "line"@) == json::value_in(second, "line"@));
    assert(json::value_in(second, "line"@) == json::value_in(third, "line"@));
    assert(json::value_in(third, "line"@) == Some(third[0].1));
}

/// Findings are listed by the path that is shown, then line with the unanchored ones
/// last, then fingerprint; none is dropped and none is added.
pub proof fn law_findings_have_a_fixed_order(list: Seq<FindingModel>)
    ensures
        ordered_findings(list).to_multiset() == list.to_multiset(),
        findings_document(list)->List_0.len() == list.len(),
        forall|i: int, j: int|
            0 <= i < j < findings_document(list)->List_0.len() ==> shown_le(
                #[trigger] findings_document(list)->List_0[i],
                #[trigger] findings_document(list)->List_0[j],
            ),
{
    broadcast use vstd::seq_lib::group_to_multiset_ensures;

    let le = |a: FindingModel, b: FindingModel| finding_le(a, b);
    let sorted = ordered_findings(list);
    let docs = findings_document(list)->List_0;
    lemma_findings_are_ordered();
    sorting::law_sorting_is_a_permutation(list, le);
    sorting::law_sorting_sorts(list, le);
    assert(sorted.len() == sorted.to_multiset().len());
    assert(list.len() == list.to_multiset().len());
    assert forall|i: int, j: int| 0 <= i < j < docs.len() implies shown_le(
        #[trigger] docs[i],
        #[trigger] docs[j],
    ) by {
        assert(le(sorted[i], sorted[j]));
        assert(docs[i] == finding_document(sorted[i]) && docs[j] == finding_document(sorted[j]));
        lemma_shown(sorted[i]);
        lemma_shown(sorted[j]);
    }
}

/// A finding shows its normalized path and its lines; one without a line shows none,
/// not an invented one.
pub proof fn law_findings_show_where_they_are(f: FindingModel)
    ensures
        json::field_of(finding_document(f), "path"@) == Some(JsonModel::Text(normal_path(f.path))),
        json::field_of(finding_document(f), "line"@) == Some(json::number_or_null(f.line)),
        json::field_of(finding_document(f), "end_line"@) == Some(json::number_or_null(f.end_line)),
        json::field_of(finding_document(f), "line"@) == Some(JsonModel::Null) <==> f.line is None,
        json::field_of(finding_document(f), "end_line"@) == Some(JsonModel::Null)
            <==> f.end_line is None,
{
    reveal_strlit("fingerprint");
    reveal_strlit("path");
    reveal_strlit("line");
    reveal_strlit("end_line");
    assert("path"@[0] != "line"@[0]);
    assert("fingerprint"@.len() != "line"@.len() && "fingerprint"@.len() != "end_line"@.len());
    assert("path"@.len() != "end_line"@.len() && "line"@.len() != "end_line"@.len());
    let fields = finding_document(f)->Object_0;
    let second = fields.drop_first();
    let third = second.drop_first();
    let fourth = third.drop_first();
    assert(fields[0].0 == "fingerprint"@);
    assert(second[0] == fields[1] && second[0].0 == "path"@);
    assert(third[0] == fields[2] && third[0].0 == "line"@);
    assert(fourth[0] == fields[3] && fourth[0].0 == "end_line"@);
    assert("path"@.len() != "fingerprint"@.len());
    assert(json::value_in(fields, "path"@) == json::value_in(second, "path"@));
    assert(json::value_in(fields, "line"@) == json::value_in(second, "line"@));
    assert(json::value_in(second, "line"@) == json::value_in(third, "line"@));
    assert(json::value_in(fields, "end_line"@) == json::value_in(second, "end_line"@));
    assert(json::value_in(second, "end_line"@) == json::value_in(third, "end_line"@));
    assert(json::value_in(third, "end_line"@) == json::value_in(fourth, "end_line"@));
}

// ---------------------------------------------------------------------------
// Units
// ---------------------------------------------------------------------------

/// The files that a unit id names.
pub open spec fn files_of(unit_id: Seq<char>) -> Seq<Seq<char>> {
    let p = text::position(unit_id, ':');
    if p < unit_id.len() {
        let rest = unit_id.skip(p + 1);
        if text::begins(rest, "group:"@) {
            seq![rest.skip("group:"@.len() as int)]
        } else {
            seq![rest]
        }
    } else {
        seq![unit_id]
    }
}

/// Files of a unit, taken from its id: `{source}:{path}`, or
/// `{source}:group:{primary}` for a group, which reports its primary path.
pub fn files_for_unit(unit_id: &str) -> (r: Vec<String>)
    ensures
        text::views(r@) == files_of(unit_id@),
{
    let chars = text::chars_of(unit_id);
    let group = text::chars_of("group:");
    let p: usize = text::find_char(&chars, ':');
    let mut out: Vec<String> = Vec::new();
    if p < chars.len() {
        let rest = slice_subrange(&chars, p + 1, chars.len());
        assert(rest@ =~= unit_id@.skip(p + 1));
        if text::starts_with(rest, &group) {
            let primary = slice_subrange(rest, group.len(), rest.len());
            assert(primary@ =~= rest@.skip(group@.len() as int));
            out.push(text::string_of(primary));
        } else {
            out.push(text::string_of(rest));
        }
    } else {
        out.push(unit_id.to_owned());
    }
    assert(text::views(out@) =~= files_of(unit_id@));
    out
}

/// The status of a unit in a document.
pub open spec fn status_of(state: StateView) -> Seq<char> {
    match state {
        StateView::Covered => "covered"@,
        StateView::Failed(_) => "failed"@,
        StateView::Truncated(_) => "truncated"@,
        _ => "pending"@,
    }
}

/// The reason that a state gives.
pub open spec fn reason_of(state: StateView) -> Option<Seq<char>> {
    match state {
        StateView::Failed(reason) => Some(reason),
        StateView::Truncated(reason) => Some(reason),
        _ => None,
    }
}

/// A unit in a document.
pub open spec fn unit_document(e: ledger::Entry) -> JsonModel {
    let base = seq![
        ("unit_id"@, JsonModel::Text(e.id)),
        ("files"@, text_list(files_of(e.id))),
        ("status"@, JsonModel::Text(status_of(e.state))),
    ];
    JsonModel::Object(
        match reason_of(e.state) {
            Some(reason) => base.push(("reason"@, JsonModel::Text(reason))),
            None => base,
        },
    )
}

/// The order of units: by id.
pub open spec fn entry_le(a: ledger::Entry, b: ledger::Entry) -> bool {
    text::at_most(a.id, b.id)
}

/// The entries of a ledger in the order of documents.
pub open spec fn ordered_units(entries: Seq<ledger::Entry>) -> Seq<ledger::Entry> {
    sorting::sorted(entries, |a: ledger::Entry, b: ledger::Entry| entry_le(a, b))
}

/// The `units` segment.
pub open spec fn units_document(entries: Seq<ledger::Entry>) -> JsonModel {
    JsonModel::List(ordered_units(entries).map_values(|e: ledger::Entry| unit_document(e)))
}

fn unit_json(id: &str, state: Option<&UnitState>) -> (r: Json)
    ensures
        r.model() == unit_document(
            ledger::Entry {
                id: id@,
                state: match state {
                    Some(s) => s@,
                    None => StateView::Pending,
                },
            },
        ),
{
    let ghost entry = ledger::Entry {
        id: id@,
        state: match state {
            Some(s) => s@,
            None => StateView::Pending,
        },
    };
    let status: &str = match state {
        Some(UnitState::Covered) => "covered",
        Some(UnitState::Failed(_)) => "failed",
        Some(UnitState::Truncated(_)) => "truncated",
        _ => "pending",
    };
    let mut fields: Vec<(String, Json)> = Vec::new();
    json::field(&mut fields, "unit_id", json::text_of(id));
    json::field(&mut fields, "files", texts_json(&files_for_unit(id)));
    json::field(&mut fields, "status", json::text_of(status));
    match state {
        Some(UnitState::Failed(reason)) => {
            json::field(&mut fields, "reason", json::text_of(reason.as_str()));
        },
        Some(UnitState::Truncated(reason)) => {
            json::field(&mut fields, "reason", json::text_of(reason.as_str()));
        },
        _ => {},
    }
    assert(json::field_models(fields@) =~= unit_document(entry)->Object_0);
    json::object_of(fields)
}

/// The `units` segment, in the fixed order.
pub fn units_json(ledger: &CoverageLedger) -> (r: Json)
    ensures
        r.model() == units_document(ledger@),
{
    let ghost entries = ledger@;
    let ghost rel = |a: ledger::Entry, b: ledger::Entry| entry_le(a, b);
    let ids = ledger.denominator();
    let n: usize = ids.len();
    proof {
        assert(ledger::ids(entries).len() == n);
        assert forall|k: int| 0 <= k < n implies entries[k].id == (#[trigger] ids@[k])@ by {
            assert(text::views(ids@)[k] == ledger::ids(entries)[k]);
        }
    }
    let le = |i: usize, j: usize| -> (b: bool)
        requires
            i < ids@.len(),
            j < ids@.len(),
        ensures
            b == text::at_most(ids@[i as int]@, ids@[j as int]@),
        { text::str_not_after(ids[i].as_str(), ids[j].as_str()) };
    let places = sorting::sorted_places::<ledger::Entry, _>(n, le, Ghost(entries), Ghost(rel));
    let ghost want = ordered_units(entries).map_values(|e: ledger::Entry| unit_document(e));
    let mut out: Vec<Json> = Vec::new();
    let mut i: usize = 0;
    while i < places.len()
        invariant
            i <= places@.len(),
            entries == ledger@,
            ledger::ids(entries).no_duplicates(),
            entries.len() == ids@.len(),
            forall|k: int| 0 <= k < ids@.len() ==> entries[k].id == (#[trigger] ids@[k])@,
            sorting::picked(entries, places@) == ordered_units(entries),
            forall|k: int| 0 <= k < places@.len() ==> (#[trigger] places@[k]) < ids@.len(),
            want == ordered_units(entries).map_values(|e: ledger::Entry| unit_document(e)),
            json::models(out@) == want.take(i as int),
        decreases places@.len() - i,
    {
        let p: usize = places[i];
        let id = ids[p].as_str();
        let state = ledger.state(id);
        let one = unit_json(id, state);
        proof {
            assert(ordered_units(entries)[i as int] == entries[p as int]);
            ledger::lemma_state_of_distinct(entries, p as int);
            json::lemma_models_push(out@, one);
            assert(want.take(i + 1) =~= want.take(i as int).push(want[i as int]));
        }
        out.push(one);
        i = i + 1;
    }
    assert(want.take(i as int) =~= want);
    json::list_of(out)
}

/// Units are listed by id; none is dropped and none is added.
pub proof fn law_units_have_a_fixed_order(entries: Seq<ledger::Entry>)
    ensures
        ordered_units(entries).to_multiset() == entries.to_multiset(),
        forall|i: int, j: int|
            0 <= i < j < ordered_units(entries).len() ==> entry_le(
                #[trigger] ordered_units(entries)[i],
                #[trigger] ordered_units(entries)[j],
            ),
{
    let le = |a: ledger::Entry, b: ledger::Entry| entry_le(a, b);
    assert(sorting::is_order(le)) by {
        assert forall|a: ledger::Entry, b: ledger::Entry| #[trigger] le(a, b) || le(b, a) by {
            text::lemma_at_most_total(a.id, b.id);
        }
        assert forall|a: ledger::Entry, b: ledger::Entry, c: ledger::Entry| #[trigger]
            le(a, b) && #[trigger] le(b, c) implies le(a, c) by {
            text::lemma_at_most_trans(a.id, b.id, c.id);
        }
    }
    sorting::law_sorting_is_a_permutation(entries, le);
    sorting::law_sorting_sorts(entries, le);
    assert forall|i: int, j: int|
        0 <= i < j < ordered_units(entries).len() implies entry_le(
        #[trigger] ordered_units(entries)[i],
        #[trigger] ordered_units(entries)[j],
    ) by {
        assert(le(ordered_units(entries)[i], ordered_units(entries)[j]));
    }
}

/// Fingerprints in order.
pub open spec fn ordered_texts(list: Seq<Seq<char>>) -> Seq<Seq<char>> {
    sorting::sorted(list, |a: Seq<char>, b: Seq<char>| text::at_most(a, b))
}

/// Fingerprints in order.
pub fn sorted_fingerprints(fingerprints: &[String]) -> (r: Vec<String>)
    ensures
        text::views(r@) == ordered_texts(text::views(fingerprints@)),
{
    let ghost all = text::views(fingerprints@);
    let ghost rel = |a: Seq<char>, b: Seq<char>| text::at_most(a, b);
    let n: usize = fingerprints.len();
    let le = |i: usize, j: usize| -> (b: bool)
        requires
            i < fingerprints@.len(),
            j < fingerprints@.len(),
        ensures
            b == text::at_most(fingerprints@[i as int]@, fingerprints@[j as int]@),
        { text::str_not_after(fingerprints[i].as_str(), fingerprints[j].as_str()) };
    let places = sorting::sorted_places::<Seq<char>, _>(n, le, Ghost(all), Ghost(rel));
    let mut out: Vec<String> = Vec::new();
    let mut i: usize = 0;
    while i < places.len()
        invariant
            i <= places@.len(),
            all == text::views(fingerprints@),
            sorting::picked(all, places@) == ordered_texts(all),
            forall|k: int| 0 <= k < places@.len() ==> (#[trigger] places@[k]) < fingerprints@.len(),
            text::views(out@) == ordered_texts(all).take(i as int),
        decreases places@.len() - i,
    {
        let ghost before = out@;
        out.push(fingerprints[places[i]].clone());
        proof {
            let want = ordered_texts(all);
            assert(want[i as int] == all[places@[i as int] as int]);
            text::lemma_views_push(before, out@.last());
            assert(want.take(i + 1) =~= want.take(i as int).push(want[i as int]));
        }
        i = i + 1;
    }
    assert(ordered_texts(all).take(i as int) =~= ordered_texts(all));
    out
}

/// The order of fingerprints depends on which there are, not on how they came.
pub proof fn law_fingerprint_order_is_unique(a: Seq<Seq<char>>, b: Seq<Seq<char>>)
    requires
        a.to_multiset() == b.to_multiset(),
    ensures
        ordered_texts(a) == ordered_texts(b),
{
    let le = |x: Seq<char>, y: Seq<char>| text::at_most(x, y);
    assert(sorting::is_order(le)) by {
        assert forall|x: Seq<char>, y: Seq<char>| #[trigger] le(x, y) || le(y, x) by {
            text::lemma_at_most_total(x, y);
        }
        assert forall|x: Seq<char>, y: Seq<char>, z: Seq<char>| #[trigger]
            le(x, y) && #[trigger] le(y, z) implies le(x, z) by {
            text::lemma_at_most_trans(x, y, z);
        }
    }
    sorting::law_sorting_is_a_permutation(a, le);
    sorting::law_sorting_is_a_permutation(b, le);
    sorting::law_sorting_sorts(a, le);
    sorting::law_sorting_sorts(b, le);
    let u = ordered_texts(a);
    let v = ordered_texts(b);
    assert forall|x: Seq<char>, y: Seq<char>|
        u.contains(x) && u.contains(y) && #[trigger] le(x, y) && #[trigger] le(y, x) implies x
        == y by {
        text::lemma_at_most_antisym(x, y);
    }
    assert forall|x: Seq<char>| u.contains(x) implies #[trigger] le(x, x) by {
        text::lemma_at_most_refl(x);
    }
    sorting::law_order_is_unique(u, v, le);
}

// ---------------------------------------------------------------------------
// The document of a run
// ---------------------------------------------------------------------------

/// Run-level metadata.
#[derive(Debug, Clone)]
pub struct RunMeta {
    pub repository: String,
    pub change_request: Option<u64>,
    /// The revision this binary was built from, not the head under review.
    pub revision: String,
    pub model: String,
    pub usage: UsageTotal,
    /// When the run started, as the document shows it.
    pub started_at: String,
    pub duration_ms: u128,
    pub terminal: TerminalState,
}

/// Everything one structured document needs.
pub struct RunReport<'a> {
    pub meta: &'a RunMeta,
    pub findings: &'a [FindingView],
    pub ledger: &'a CoverageLedger,
    pub resolutions: &'a [String],
    /// Changed files that were not reviewed.
    pub excluded: &'a [ExcludedFile],
}

/// The usage segment.
pub open spec fn usage_document(usage: UsageTotal) -> JsonModel {
    JsonModel::Object(
        seq![
            ("input_tokens"@, JsonModel::Number(usage.input_tokens as int)),
            ("output_tokens"@, JsonModel::Number(usage.output_tokens as int)),
            ("cached_input_tokens"@, JsonModel::Number(usage.cached_input_tokens as int)),
            ("calls"@, JsonModel::Number(usage.calls as int)),
        ],
    )
}

/// The timing segment.
pub open spec fn timing_document(started_at: Seq<char>, duration_ms: int) -> JsonModel {
    JsonModel::Object(
        seq![
            ("started_at"@, JsonModel::Text(started_at)),
            ("duration_ms"@, JsonModel::Number(duration_ms)),
        ],
    )
}

/// The field that names the change request, where there is one.
pub open spec fn change_request_field(number: Option<u64>) -> Seq<(Seq<char>, JsonModel)> {
    match number {
        Some(n) => seq![("change_request"@, JsonModel::Number(n as int))],
        None => Seq::empty(),
    }
}

/// The `run` segment.
pub open spec fn run_document(meta: RunMeta, form: Seq<char>) -> JsonModel {
    JsonModel::Object(
        seq![
            ("form"@, JsonModel::Text(form)),
            ("repository"@, JsonModel::Text(meta.repository@)),
        ] + change_request_field(meta.change_request) + seq![
            ("revision"@, JsonModel::Text(meta.revision@)),
            ("model"@, JsonModel::Text(meta.model@)),
            ("usage"@, usage_document(meta.usage)),
            ("timing"@, timing_document(meta.started_at@, meta.duration_ms as int)),
            ("terminal"@, JsonModel::Text(meta.terminal.name())),
        ],
    )
}

/// The `coverage` segment.
pub open spec fn coverage_document(entries: Seq<ledger::Entry>) -> JsonModel {
    JsonModel::Object(
        seq![
            ("total"@, JsonModel::Number(entries.len() as int)),
            ("covered"@, JsonModel::Number(ledger::covered(entries).len() as int)),
            ("failed"@, JsonModel::Number(ledger::failed(entries).len() as int)),
            ("truncated"@, JsonModel::Number(ledger::truncated(entries).len() as int)),
        ],
    )
}

/// The field that lists the files that were not reviewed, where there are any.
pub open spec fn excluded_field(files: Seq<units::ExcludedView>) -> Seq<(Seq<char>, JsonModel)> {
    if files.len() == 0 {
        Seq::empty()
    } else {
        seq![
            (
                "excluded"@,
                JsonModel::List(files.map_values(|e: units::ExcludedView| excluded_document(e))),
            ),
        ]
    }
}

/// The document of a run.
pub open spec fn report_document(
    meta: RunMeta,
    form: Seq<char>,
    entries: Seq<ledger::Entry>,
    findings: Seq<FindingModel>,
    resolutions: Seq<Seq<char>>,
    excluded: Seq<units::ExcludedView>,
) -> JsonModel {
    JsonModel::Object(
        seq![
            ("schema_version"@, JsonModel::Text(SCHEMA_VERSION@)),
            ("run"@, run_document(meta, form)),
            ("units"@, units_document(entries)),
            ("findings"@, findings_document(findings)),
            ("resolutions"@, text_list(ordered_texts(resolutions))),
            ("coverage"@, coverage_document(entries)),
        ] + excluded_field(excluded),
    )
}

fn usage_json(usage: &UsageTotal) -> (r: Json)
    ensures
        r.model() == usage_document(*usage),
{
    let mut fields: Vec<(String, Json)> = Vec::new();
    json::field(&mut fields, "input_tokens", Json::Number(usage.input_tokens));
    json::field(&mut fields, "output_tokens", Json::Number(usage.output_tokens));
    json::field(&mut fields, "cached_input_tokens", Json::Number(usage.cached_input_tokens));
    json::field(&mut fields, "calls", Json::Number(usage.calls));
    assert(json::field_models(fields@) =~= usage_document(*usage)->Object_0);
    json::object_of(fields)
}

fn run_json(meta: &RunMeta, form: &str) -> (r: Json)
    requires
        meta.duration_ms <= u64::MAX,
    ensures
        r.model() == run_document(*meta, form@),
{
    let mut timing: Vec<(String, Json)> = Vec::new();
    json::field(&mut timing, "started_at", json::text_of(meta.started_at.as_str()));
    json::field(&mut timing, "duration_ms", Json::Number(meta.duration_ms as u64));
    assert(json::field_models(timing@) =~= timing_document(
        meta.started_at@,
        meta.duration_ms as int,
    )->Object_0);
    let mut fields: Vec<(String, Json)> = Vec::new();
    json::field(&mut fields, "form", json::text_of(form));
    json::field(&mut fields, "repository", json::text_of(meta.repository.as_str()));
    if let Some(number) = meta.change_request {
        json::field(&mut fields, "change_request", Json::Number(number));
    }
    json::field(&mut fields, "revision", json::text_of(meta.revision.as_str()));
    json::field(&mut fields, "model", json::text_of(meta.model.as_str()));
    json::field(&mut fields, "usage", usage_json(&meta.usage));
    json::field(&mut fields, "timing", json::object_of(timing));
    json::field(&mut fields, "terminal", json::text_of(meta.terminal.as_str()));
    assert(json::field_models(fields@) =~= run_document(*meta, form@)->Object_0);
    json::object_of(fields)
}

fn coverage_json(summary: &CoverageSummary, Ghost(entries): Ghost<Seq<ledger::Entry>>) -> (r: Json)
    requires
        ledger::summarizes(entries, *summary),
    ensures
        r.model() == coverage_document(entries),
{
    let mut fields: Vec<(String, Json)> = Vec::new();
    json::field(&mut fields, "total", Json::Number(summary.total as u64));
    json::field(&mut fields, "covered", Json::Number(summary.covered as u64));
    json::field(&mut fields, "failed", Json::Number(summary.failed as u64));
    json::field(&mut fields, "truncated", Json::Number(summary.truncated as u64));
    assert(json::field_models(fields@) =~= coverage_document(entries)->Object_0);
    json::object_of(fields)
}

/// The JSON document of a run. `form` says how the run reached us. A document
/// counts milliseconds in 64 bits.
pub fn json(report: &RunReport<'_>, form: &str) -> (r: Json)
    requires
        report.meta.duration_ms <= u64::MAX,
    ensures
        r.model() == report_document(
            *report.meta,
            form@,
            report.ledger@,
            finding_views(report.findings@),
            text::views(report.resolutions@),
            units::excluded_views(report.excluded@),
        ),
{
    let summary = report.ledger.summary();
    let mut fields: Vec<(String, Json)> = Vec::new();
    json::field(&mut fields, "schema_version", json::text_of(SCHEMA_VERSION));
    json::field(&mut fields, "run", run_json(report.meta, form));
    json::field(&mut fields, "units", units_json(report.ledger));
    json::field(&mut fields, "findings", findings_json(report.findings));
    json::field(
        &mut fields,
        "resolutions",
        texts_json(&sorted_fingerprints(report.resolutions)),
    );
    json::field(&mut fields, "coverage", coverage_json(&summary, Ghost(report.ledger@)));
    if report.excluded.len() > 0 {
        json::field(&mut fields, "excluded", excluded_json(report.excluded));
    }
    assert(json::field_models(fields@) =~= report_document(
        *report.meta,
        form@,
        report.ledger@,
        finding_views(report.findings@),
        text::views(report.resolutions@),
        units::excluded_views(report.excluded@),
    )->Object_0);
    json::object_of(fields)
}

/// Nothing is left out silently: every excluded file stands in the document of a
/// run, under the name and in the shape that the preview gives it.
pub proof fn law_run_document_lists_every_exclusion(
    meta: RunMeta,
    form: Seq<char>,
    entries: Seq<ledger::Entry>,
    findings: Seq<FindingModel>,
    resolutions: Seq<Seq<char>>,
    selection: units::SelectionView,
    incremental: bool,
)
    ensures
        selection.excluded.len() > 0 ==> json::field_of(
            report_document(meta, form, entries, findings, resolutions, selection.excluded),
            "excluded"@,
        ) == json::field_of(preview_document(selection, incremental), "excluded"@),
        selection.excluded.len() > 0 ==> json::field_of(
            report_document(meta, form, entries, findings, resolutions, selection.excluded),
            "excluded"@,
        ) == Some(
            JsonModel::List(
                selection.excluded.map_values(|e: units::ExcludedView| excluded_document(e)),
            ),
        ),
{
    reveal_strlit("schema_version");
    reveal_strlit("run");
    reveal_strlit("units");
    reveal_strlit("findings");
    reveal_strlit("resolutions");
    reveal_strlit("coverage");
    reveal_strlit("mode");
    reveal_strlit("estimated_tokens");
    reveal_strlit("excluded");
    assert("findings"@[0] != "excluded"@[0]);
    assert("coverage"@[0] != "excluded"@[0]);
    assert("estimated_tokens"@.len() != "excluded"@.len());
    if selection.excluded.len() > 0 {
        let a0 = report_document(
            meta,
            form,
            entries,
            findings,
            resolutions,
            selection.excluded,
        )->Object_0;
        let a1 = a0.drop_first();
        let a2 = a1.drop_first();
        let a3 = a2.drop_first();
        let a4 = a3.drop_first();
        let a5 = a4.drop_first();
        let a6 = a5.drop_first();
        assert(a1[0] == a0[1] && a2[0] == a0[2] && a3[0] == a0[3]);
        assert(a4[0] == a0[4] && a5[0] == a0[5] && a6[0] == a0[6]);
        assert(json::value_in(a0, "excluded"@) == json::value_in(a1, "excluded"@));
        assert(json::value_in(a1, "excluded"@) == json::value_in(a2, "excluded"@));
        assert(json::value_in(a2, "excluded"@) == json::value_in(a3, "excluded"@));
        assert(json::value_in(a3, "excluded"@) == json::value_in(a4, "excluded"@));
        assert(json::value_in(a4, "excluded"@) == json::value_in(a5, "excluded"@));
        assert(json::value_in(a5, "excluded"@) == json::value_in(a6, "excluded"@));
        assert(json::value_in(a6, "excluded"@) == Some(a6[0].1));
        let b0 = preview_document(selection, incremental)->Object_0;
        let b1 = b0.drop_first();
        let b2 = b1.drop_first();
        let b3 = b2.drop_first();
        assert(b1[0] == b0[1] && b2[0] == b0[2] && b3[0] == b0[3]);
        assert(json::value_in(b0, "excluded"@) == json::value_in(b1, "excluded"@));
        assert(json::value_in(b1, "excluded"@) == json::value_in(b2, "excluded"@));
        assert(json::value_in(b2, "excluded"@) == json::value_in(b3, "excluded"@));
        assert(json::value_in(b3, "excluded"@) == Some(b3[0].1));
    }
}

// ---------------------------------------------------------------------------
// Emission
// ---------------------------------------------------------------------------

/// Where a document goes, and with what text.
#[derive(Debug, Clone, PartialEq, Eq)]
pub enum Emission {
    Stdout(String),
    File { path: String, payload: String },
}

/// A document with its final newline.
pub open spec fn payload_of(document: Seq<char>) -> Seq<char> {
    document.push('\n')
}

/// Decide where a document goes: stdout, or a file inside the workspace. An
/// output path is not a way to write outside the checkout.
pub fn emission(document: &str, output: Option<&str>, workspace: &str) -> (r: Result<
    Emission,
    PathError,
>)
    ensures
        match output {
            None => r matches Ok(Emission::Stdout(payload)) && payload@ == payload_of(document@),
            Some(target) => match r {
                Ok(Emission::File { path, payload }) => payload@ == payload_of(document@)
                    && !paths::is_absolute(target@) && paths::under(
                    paths::normalized_from(workspace@, target@),
                    paths::normalized(workspace@),
                ) && path@ == paths::written(paths::normalized_from(workspace@, target@)),
                Ok(Emission::Stdout(_)) => false,
                Err(PathError::Absolute) => paths::is_absolute(target@),
                Err(PathError::Escapes) => !paths::is_absolute(target@) && !paths::under(
                    paths::normalized_from(workspace@, target@),
                    paths::normalized(workspace@),
                ),
            },
        },
{
    let mut payload = document.to_owned();
    payload.push('\n');
    match output {
        None => Ok(Emission::Stdout(payload)),
        Some(target) => match paths::resolve_output(workspace, target) {
            Ok(path) => Ok(Emission::File { path, payload }),
            Err(error) => Err(error),
        },
    }
}

} // verus!
