use globset::GlobSetBuilder;
use hoverstare::conversation::{Severity, UsageTotal};
use hoverstare::json::Json;
use hoverstare::output::{
    emission, files_for_unit, findings_json, form, json, normalize_path, preview_json,
    revision_from_env, sorted_fingerprints, to_pretty, units_json, Emission, FindingStatus,
    FindingView, OutputFormat, RelatedLocation, RunMeta, RunReport, SCHEMA_VERSION,
};
use hoverstare::paths::PathError;
use hoverstare::units::{
    select, CoverageLedger, ExcludedFile, ReviewUnit, Selection, TerminalState, UnitSource,
};
use serde_json::Value;

fn value(doc: &Json) -> Value {
    serde_json::from_str(&to_pretty(doc).unwrap()).unwrap()
}

fn unit(path: &str) -> ReviewUnit {
    ReviewUnit {
        unit_id: format!("changeset:{path}"),
        source: UnitSource::Changeset,
        files: vec![path.to_string()],
        unit_fp: "fp".to_string(),
    }
}

fn finding(path: &str, line: Option<u64>, fp: &str) -> FindingView {
    FindingView {
        fingerprint: fp.to_string(),
        path: path.to_string(),
        line,
        end_line: line,
        severity: Severity::High,
        title: "t".into(),
        body: "b".into(),
        suggestion: None,
        status: FindingStatus::New,
        related: vec![],
    }
}

fn meta() -> RunMeta {
    RunMeta {
        repository: "o/r".into(),
        change_request: Some(7),
        revision: "abc1234".into(),
        model: "m".into(),
        usage: UsageTotal {
            input_tokens: 10,
            output_tokens: 2,
            cached_input_tokens: 5,
            calls: 3,
        },
        started_at: "2026-01-02T03:04:05Z".into(),
        duration_ms: 42,
        terminal: TerminalState::Okay,
    }
}

#[test]
fn json_document_is_complete_and_closed() {
    let mut ledger = CoverageLedger::freeze(&[unit("src/a.rs"), unit("src/b.rs")]);
    ledger.cover_all();
    let findings = vec![
        finding("src/b.rs", Some(9), "ff"),
        finding("src/a.rs", None, "aa"),
    ];
    let resolutions = vec!["zz".to_string(), "aa".to_string()];
    let meta = meta();
    let doc = json(
        &RunReport {
            meta: &meta,
            findings: &findings,
            ledger: &ledger,
            resolutions: &resolutions,
            excluded: &[],
        },
        "cli",
    );
    let doc = value(&doc);

    assert_eq!(doc["schema_version"], SCHEMA_VERSION);
    assert_eq!(doc["run"]["repository"], "o/r");
    assert_eq!(doc["run"]["change_request"], 7);
    assert_eq!(doc["run"]["terminal"], "ok");
    assert_eq!(doc["run"]["usage"]["calls"], 3);
    assert_eq!(doc["run"]["timing"]["duration_ms"], 42);
    // Fixed ordering: path, then line (unanchored last), then fingerprint.
    assert_eq!(doc["findings"][0]["path"], "src/a.rs");
    assert_eq!(doc["findings"][1]["path"], "src/b.rs");
    assert_eq!(doc["findings"][0]["side"], "new");
    assert_eq!(doc["findings"][0]["line"], serde_json::Value::Null);
    assert_eq!(doc["findings"][1]["severity"], "high");
    assert_eq!(doc["resolutions"][0], "aa");
    assert_eq!(doc["coverage"]["covered"], 2);
    assert_eq!(doc["units"][0]["status"], "covered");
    assert_eq!(doc["run"]["form"], "cli");
}

#[test]
fn a_run_without_a_change_request_names_none() {
    let ledger = CoverageLedger::freeze(&[]);
    let meta = RunMeta { change_request: None, ..meta() };
    let report = RunReport {
        meta: &meta,
        findings: &[],
        ledger: &ledger,
        resolutions: &[],
        excluded: &[],
    };
    let doc = value(&json(&report, "cli"));
    assert!(doc["run"].get("change_request").is_none());
    assert_eq!(doc["run"]["revision"], "abc1234");
    assert_eq!(doc["run"]["model"], "m");
}

#[test]
fn unanchored_findings_omit_the_line_instead_of_faking_one() {
    let ledger = CoverageLedger::freeze(&[unit("src/a.rs")]);
    let findings = vec![finding("src/a.rs", None, "aa")];
    let meta = meta();
    let doc = json(
        &RunReport {
            meta: &meta,
            findings: &findings,
            ledger: &ledger,
            resolutions: &[],
            excluded: &[],
        },
        "cli",
    );
    let doc = value(&doc);
    assert!(doc["findings"][0]["line"].is_null());
    assert!(doc["findings"][0]["end_line"].is_null());
}

#[test]
fn paths_are_normalized_and_secrets_never_appear() {
    assert_eq!(normalize_path("./src/a.rs"), "src/a.rs");
    assert_eq!(normalize_path("/abs/src/a.rs"), "abs/src/a.rs");
    assert_eq!(normalize_path("src\\a.rs"), "src/a.rs");
    // Nothing that leads nowhere is left in front, in whatever order it came.
    assert_eq!(normalize_path(" .//./\\.\\src/./a.rs "), "src/./a.rs");
    assert_eq!(normalize_path("/"), "");

    let ledger = CoverageLedger::freeze(&[unit("src/a.rs")]);
    let mut f = finding("src/a.rs", Some(1), "aa");
    f.suggestion = Some("let x = 1;".into());
    let findings = [f];
    let meta = meta();
    let doc = json(
        &RunReport {
            meta: &meta,
            findings: &findings,
            ledger: &ledger,
            resolutions: &[],
            excluded: &[],
        },
        "cli",
    );
    let text = serde_json::to_string(&value(&doc)).unwrap();
    assert!(!text.contains("OPENAI_API_KEY"));
    assert!(!text.contains("prompt"));
}

#[test]
fn emit_rejects_absolute_and_escaping_output_paths() {
    let workspace = "/tmp/hoverstare-ws";
    assert!(emission("{}", Some("/etc/passwd"), workspace).is_err());
    assert!(emission("{}", Some("../outside.json"), workspace).is_err());
    assert!(emission("{}", Some("out/../../escape.json"), workspace).is_err());
    assert_eq!(
        emission("{}", Some("/etc/passwd"), workspace),
        Err(PathError::Absolute)
    );
    assert_eq!(
        emission("{}", Some("out/../../escape.json"), workspace),
        Err(PathError::Escapes)
    );
}

#[test]
fn emit_writes_inside_the_workspace() {
    assert_eq!(
        emission("{\"a\":1}", Some("out/result.json"), "/ws"),
        Ok(Emission::File {
            path: "/ws/out/result.json".to_string(),
            payload: "{\"a\":1}\n".to_string()
        })
    );
    assert_eq!(
        emission("{\"a\":1}", None, "/ws"),
        Ok(Emission::Stdout("{\"a\":1}\n".to_string()))
    );
}

#[test]
fn grouped_unit_reports_its_primary_path() {
    assert_eq!(
        files_for_unit("changeset:group:README.md"),
        vec!["README.md".to_string()]
    );
    assert_eq!(
        files_for_unit("changeset:src/a.rs"),
        vec!["src/a.rs".to_string()]
    );
    assert_eq!(files_for_unit("plain"), vec!["plain".to_string()]);
}

fn preview_selection() -> Selection {
    let diff = "diff --git a/src/a.rs b/src/a.rs\n--- a/src/a.rs\n+++ b/src/a.rs\n@@ -1,0 +1,1 @@\n+x\n";
    select(diff, &GlobSetBuilder::new().build().unwrap(), 400)
}

#[test]
fn preview_document_is_pending_and_shape_aligned() {
    let selection = preview_selection();
    let doc = value(&preview_json(&selection, false));
    assert_eq!(doc["mode"], "full");
    assert_eq!(doc["units"][0]["unit_id"], "changeset:src/a.rs");
    assert_eq!(doc["units"][0]["status"], "pending");
    assert_eq!(doc["truncated"].as_array().unwrap().len(), 0);
    assert!(doc["estimated_tokens"].as_u64().unwrap() > 0);
}

#[test]
fn preview_document_reports_incremental_mode() {
    let doc = value(&preview_json(&preview_selection(), true));
    assert_eq!(doc["mode"], "incremental");
}

#[test]
fn findings_are_ordered_by_path_line_and_fingerprint() {
    let mut related = finding("b.rs", Some(2), "a");
    related.related = vec![RelatedLocation { path: "./x\\y.rs".into(), line: 3 }];
    related.status = FindingStatus::CarriedOver;
    let findings = vec![
        finding("b.rs", None, "z"),
        finding("b.rs", Some(2), "b"),
        related,
        finding("b.rs", Some(1), "c"),
        finding("a.rs", Some(9), "d"),
    ];
    let doc = value(&findings_json(&findings));
    let order: Vec<&str> =
        doc.as_array().unwrap().iter().map(|f| f["fingerprint"].as_str().unwrap()).collect();
    assert_eq!(order, vec!["d", "c", "a", "b", "z"]);
    assert_eq!(doc[2]["status"], "carried_over");
    assert_eq!(doc[2]["related"][0]["path"], "x/y.rs");
    assert_eq!(doc[2]["related"][0]["line"], 3);
    assert!(doc[2]["suggestion"].is_null());
}

#[test]
fn units_are_ordered_by_id_and_carry_their_reason() {
    let mut ledger = CoverageLedger::freeze(&[unit("b"), unit("a"), unit("c")]);
    ledger.fail("changeset:b", "boom");
    ledger.truncate("changeset:c", "budget");
    let doc = value(&units_json(&ledger));
    assert_eq!(doc[0]["unit_id"], "changeset:a");
    assert_eq!(doc[0]["status"], "pending");
    assert!(doc[0].get("reason").is_none());
    assert_eq!(doc[1]["status"], "failed");
    assert_eq!(doc[1]["reason"], "boom");
    assert_eq!(doc[2]["status"], "truncated");
    assert_eq!(doc[2]["files"][0], "c");
}

#[test]
fn pretty_text_is_indented_with_sorted_keys() {
    let doc = Json::Object(vec![
        ("b".to_string(), Json::List(vec![Json::Number(1), Json::Bool(true), Json::Null])),
        ("a".to_string(), Json::Text("q\"\n".to_string())),
    ]);
    assert_eq!(
        to_pretty(&doc).unwrap(),
        "{\n  \"a\": \"q\\\"\\n\",\n  \"b\": [\n    1,\n    true,\n    null\n  ]\n}"
    );
}

#[test]
fn fingerprints_are_sorted_by_bytes() {
    let list: Vec<String> = vec!["b".into(), "é".into(), "a".into(), "Z".into(), "ab".into()];
    let mut want = list.clone();
    want.sort();
    assert_eq!(sorted_fingerprints(&list), want);
}

#[test]
fn the_form_is_explicit_or_guessed() {
    assert_eq!(form(Some("serve"), true), "serve");
    assert_eq!(form(Some("cli"), true), "cli");
    assert_eq!(form(Some("other"), false), "action");
    assert_eq!(form(Some("  "), true), "action");
    assert_eq!(form(None, false), "cli");
}

#[test]
fn the_revision_is_short_or_the_version() {
    assert_eq!(revision_from_env(Some(" 0123456789abcdef "), "1.2.3"), "0123456789ab");
    assert_eq!(revision_from_env(Some("abc"), "1.2.3"), "abc");
    assert_eq!(revision_from_env(Some(" "), "1.2.3"), "1.2.3");
    assert_eq!(revision_from_env(None, "1.2.3"), "1.2.3");
}

#[test]
fn formats_have_names() {
    assert_eq!(OutputFormat::Sarif.as_str(), "sarif");
    assert!(!OutputFormat::Human.is_structured());
    assert!(OutputFormat::Json.is_structured());
    assert_eq!(Severity::Critical.as_str(), "critical");
}

#[test]
fn the_order_of_fields_does_not_show() {
    let number = |n: u64| Json::Number(n);
    let one = Json::Object(vec![("a".into(), number(1)), ("b".into(), number(2))]);
    let other = Json::Object(vec![("b".into(), number(2)), ("a".into(), number(1))]);
    assert_eq!(to_pretty(&one).unwrap(), to_pretty(&other).unwrap());
    // Of a key that comes twice, the last value stands.
    let twice = Json::Object(vec![("a".into(), number(1)), ("a".into(), number(3))]);
    assert_eq!(to_pretty(&twice).unwrap(), "{\n  \"a\": 3\n}");
    assert_eq!(to_pretty(&Json::Object(vec![])).unwrap(), "{}");
    assert_eq!(to_pretty(&Json::List(vec![])).unwrap(), "[]");
    assert_eq!(to_pretty(&number(u64::MAX)).unwrap(), "18446744073709551615");
}

#[test]
fn the_order_of_fingerprints_does_not_depend_on_how_they_came() {
    let one: Vec<String> = vec!["b".into(), "a".into(), "b".into()];
    let other: Vec<String> = vec!["b".into(), "b".into(), "a".into()];
    assert_eq!(sorted_fingerprints(&one), sorted_fingerprints(&other));
    assert_eq!(sorted_fingerprints(&one), vec!["a", "b", "b"]);
}

#[test]
fn findings_are_ordered_by_the_path_that_is_shown() {
    let findings = vec![
        finding("./z.rs", Some(1), "last"),
        finding("a.rs", None, "second"),
        finding("/a.rs", Some(u64::MAX), "first"),
    ];
    let doc = value(&findings_json(&findings));
    let shown: Vec<(&str, &str)> = doc
        .as_array()
        .unwrap()
        .iter()
        .map(|f| (f["path"].as_str().unwrap(), f["fingerprint"].as_str().unwrap()))
        .collect();
    assert_eq!(shown, vec![("a.rs", "first"), ("a.rs", "second"), ("z.rs", "last")]);
    assert!(doc[1]["line"].is_null());
}

#[test]
fn a_run_says_when_it_started_and_how_long_it_took() {
    let ledger = CoverageLedger::freeze(&[]);
    let meta = meta();
    let report = RunReport {
        meta: &meta,
        findings: &[],
        ledger: &ledger,
        resolutions: &[],
        excluded: &[],
    };
    let doc = value(&json(&report, "cli"));
    let timing = doc["run"]["timing"].as_object().unwrap();
    assert_eq!(timing.len(), 2);
    assert_eq!(timing["started_at"], "2026-01-02T03:04:05Z");
    assert_eq!(timing["duration_ms"], 42);
}

#[test]
fn a_run_lists_what_it_left_out_as_the_preview_does() {
    let diff = "diff --git a/gone.rs b/gone.rs\n--- a/gone.rs\n+++ /dev/null\n@@ -1 +0,0 @@\n-x\n";
    let selection = select(diff, &GlobSetBuilder::new().build().unwrap(), 400);
    let ledger = CoverageLedger::freeze(&selection.units);
    let meta = meta();
    let report = |excluded: &[ExcludedFile]| {
        value(&json(
            &RunReport { meta: &meta, findings: &[], ledger: &ledger, resolutions: &[], excluded },
            "cli",
        ))
    };
    let doc = report(&selection.excluded);
    assert_eq!(doc["excluded"], value(&preview_json(&selection, false))["excluded"]);
    assert_eq!(doc["excluded"][0]["path"], "gone.rs");
    assert_eq!(doc["excluded"][0]["reason"], "deleted");
    assert_eq!(doc["excluded"][0]["kept_in_text"], true);
    assert!(report(&[]).get("excluded").is_none());
}

#[test]
fn the_states_of_a_finding_have_names() {
    assert_eq!(FindingStatus::New.as_str(), "new");
    assert_eq!(FindingStatus::CarriedOver.as_str(), "carried_over");
    assert_eq!(FindingStatus::Resolved.as_str(), "resolved");
}
