use hoverstare::conversation::{Severity, UsageTotal};
use hoverstare::output::{sarif, to_pretty, FindingStatus, FindingView, RunMeta, RunReport};
use hoverstare::sarif::{level, rule_id, FINGERPRINT_KEY};
use hoverstare::units::{CoverageLedger, ReviewUnit, TerminalState, UnitSource};
use serde_json::Value;

fn unit(path: &str) -> ReviewUnit {
    ReviewUnit {
        unit_id: format!("changeset:{path}"),
        source: UnitSource::Changeset,
        files: vec![path.to_string()],
        unit_fp: "fp".to_string(),
    }
}

fn finding(path: &str, line: Option<u64>, severity: Severity) -> FindingView {
    FindingView {
        fingerprint: format!("fp-{path}"),
        path: path.to_string(),
        line,
        end_line: None,
        severity,
        title: "title".into(),
        body: "body".into(),
        suggestion: None,
        status: FindingStatus::New,
        related: vec![],
    }
}

fn document(findings: &[FindingView], ledger: &CoverageLedger) -> Value {
    let meta = RunMeta {
        repository: "o/r".into(),
        change_request: None,
        revision: "abc".into(),
        model: "m".into(),
        usage: UsageTotal {
            input_tokens: 0,
            output_tokens: 0,
            cached_input_tokens: 0,
            calls: 0,
        },
        started_at: "2026-01-02T03:04:05Z".into(),
        duration_ms: 1,
        terminal: ledger.terminal(),
    };
    let report = RunReport { meta: &meta, findings, ledger, resolutions: &[], excluded: &[] };
    serde_json::from_str(&to_pretty(&sarif(&report, "1.2.3")).unwrap()).unwrap()
}

fn covered(paths: &[&str]) -> CoverageLedger {
    let units: Vec<ReviewUnit> = paths.iter().map(|p| unit(p)).collect();
    let mut ledger = CoverageLedger::freeze(&units);
    ledger.cover_all();
    ledger
}

#[test]
fn severities_have_fixed_levels() {
    assert_eq!(level(Severity::Critical), "error");
    assert_eq!(level(Severity::High), "error");
    assert_eq!(level(Severity::Medium), "warning");
    assert_eq!(level(Severity::Low), "note");
    assert_eq!(rule_id(Severity::Medium), "hoverstare/medium");
    let doc = document(&[], &covered(&["a.rs"]));
    assert_eq!(doc["version"], "2.1.0");
    let driver = &doc["runs"][0]["tool"]["driver"];
    assert_eq!(driver["name"], "hoverstare");
    assert_eq!(driver["version"], "1.2.3");
    let rules = driver["rules"].as_array().unwrap();
    assert_eq!(rules.len(), 4);
    assert_eq!(rules[0]["id"], "hoverstare/critical");
    assert_eq!(rules[3]["id"], "hoverstare/low");
    assert_eq!(rules[3]["defaultConfiguration"]["level"], "note");
}

#[test]
fn every_finding_is_a_result_in_order() {
    let findings = [
        finding("./b.rs", Some(3), Severity::Low),
        finding("a.rs", Some(9), Severity::Critical),
    ];
    let doc = document(&findings, &covered(&["a.rs", "b.rs"]));
    let results = doc["runs"][0]["results"].as_array().unwrap();
    assert_eq!(results.len(), 2);
    // The order is that of the paths that are shown.
    assert_eq!(results[0]["level"], "error");
    let first = &results[1];
    assert_eq!(first["ruleId"], "hoverstare/low");
    assert_eq!(first["level"], "note");
    assert_eq!(first["message"]["text"], "title\n\nbody");
    let place = &first["locations"][0]["physicalLocation"];
    assert_eq!(place["artifactLocation"]["uri"], "b.rs");
    assert_eq!(place["region"]["startLine"], 3);
    assert_eq!(place["region"]["endLine"], 3);
    assert_eq!(first["partialFingerprints"][FINGERPRINT_KEY], "fp-./b.rs");
    assert!(first.get("fixes").is_none());
}

#[test]
fn a_suggestion_is_a_fix_of_the_lines() {
    let mut fixed = finding("a.rs", Some(3), Severity::Medium);
    fixed.end_line = Some(5);
    fixed.suggestion = Some("let x = 1;".into());
    let doc = document(&[fixed], &covered(&["a.rs"]));
    let change = &doc["runs"][0]["results"][0]["fixes"][0]["artifactChanges"][0];
    assert_eq!(change["artifactLocation"]["uri"], "a.rs");
    let replacement = &change["replacements"][0];
    assert_eq!(replacement["deletedRegion"]["startLine"], 3);
    assert_eq!(replacement["deletedRegion"]["endLine"], 5);
    assert_eq!(replacement["insertedContent"]["text"], "let x = 1;");
}

#[test]
fn an_unanchored_finding_is_a_result_on_its_file() {
    let mut loose = finding("a.rs", None, Severity::High);
    loose.suggestion = Some("x".into());
    let doc = document(&[loose], &covered(&["a.rs"]));
    let result = &doc["runs"][0]["results"][0];
    assert!(result["locations"][0]["physicalLocation"].get("region").is_none());
    assert_eq!(result["locations"][0]["physicalLocation"]["artifactLocation"]["uri"], "a.rs");
    assert!(result.get("fixes").is_none());
}

#[test]
fn success_and_notices_come_from_coverage() {
    let okay = document(&[], &covered(&["a.rs"]));
    let invocation = &okay["runs"][0]["invocations"][0];
    assert_eq!(invocation["executionSuccessful"], true);
    assert_eq!(invocation["toolExecutionNotifications"].as_array().unwrap().len(), 0);

    let mut ledger = CoverageLedger::freeze(&[unit("a.rs"), unit("b.rs"), unit("c.rs")]);
    ledger.cover("changeset:a.rs");
    ledger.fail("changeset:b.rs", "boom");
    ledger.truncate("changeset:c.rs", "budget");
    assert_eq!(ledger.terminal(), TerminalState::Partial);
    let partial = document(&[], &ledger);
    let invocation = &partial["runs"][0]["invocations"][0];
    assert_eq!(invocation["executionSuccessful"], false);
    let notices = invocation["toolExecutionNotifications"].as_array().unwrap();
    assert_eq!(notices.len(), 2);
    assert_eq!(notices[0]["level"], "warning");
    assert_eq!(notices[0]["message"]["text"], "changeset:b.rs failed: boom");
    assert_eq!(notices[1]["message"]["text"], "changeset:c.rs truncated: budget");

    let empty = document(&[], &CoverageLedger::freeze(&[]));
    assert_eq!(empty["runs"][0]["invocations"][0]["executionSuccessful"], false);
}
