use globset::{GlobSet, GlobSetBuilder};
use hoverstare::conversation::Severity;
use hoverstare::orchestrator::{
    comment_of, fail_or_open, failure_note, fetch_open_findings, latest_sha, post_status_checks,
    post_terminal_status, prepare_inputs, prepare_step, preview_config, resolve_or_reply, run_review, run_step,
    reported_coverage, review_context, skip_checks, AnalysisSummary, NewStatus, Next, OpenFinding,
    Outcome, Prep, PrepEvent, PrepStep, PullRequest, ResolveOutcome, ResolveStep, ReviewConfig,
    ReviewContext, ReviewInputs, ReviewScope, ReviewThread, RunEvent, StatusState,
};
use hoverstare::preview::{
    dry_run_json, preview_outcome, print_preview, short_sha, DryComment, DryReview, PreviewLabels,
};
use hoverstare::output::to_pretty;
use hoverstare::units::{select, CoverageLedger, TerminalState, UnitState};

const DIFF: &str = "diff --git a/src/a.rs b/src/a.rs\n--- a/src/a.rs\n+++ b/src/a.rs\n@@ -1,0 +1,1 @@\n+x\n";

fn no_ignore() -> GlobSet {
    GlobSetBuilder::new().build().unwrap()
}

fn ledger_with_one_failed_unit() -> CoverageLedger {
    let selection = select(DIFF, &no_ignore(), 400);
    let mut ledger = CoverageLedger::freeze(&selection.units);
    ledger.fail_all("provider 500");
    ledger
}

#[test]
fn failure_notes_state_the_coverage() {
    let ledger = ledger_with_one_failed_unit();
    let note = failure_note("analysis failed (fail-open)", &ledger);
    assert!(note.contains("coverage 0/1"), "{note}");
    assert!(note.contains("1 failed"), "{note}");

    let ledger = ledger_with_one_failed_unit();
    let note = failure_note("diff over budget, analysis abandoned", &ledger);
    assert!(note.contains("coverage 0/1"), "{note}");
    assert_eq!(
        note,
        "diff over budget, analysis abandoned: coverage 0/1 (1 failed, 0 truncated)"
    );
}

fn config() -> ReviewConfig {
    ReviewConfig {
        fail_closed: false,
        status_checks: true,
        review_drafts: false,
        max_diff_kb: 400,
        select_strict: false,
        group_units: false,
        report_coverage: true,
        dry_run: false,
        structured: false,
    }
}

fn pull(author: &str, draft: bool) -> PullRequest {
    PullRequest {
        draft,
        author: author.to_string(),
        head_sha: "head".to_string(),
        base_ref: "main".to_string(),
    }
}

/// Drive the preparation with one answer per step.
fn prepare(
    cfg: &ReviewConfig,
    force_full: bool,
    pr: Result<PullRequest, String>,
    permitted: bool,
    shas: Option<Vec<Option<String>>>,
    diff: Result<String, String>,
    delta: Result<String, String>,
) -> (Vec<&'static str>, PrepStep) {
    let mut asked = Vec::new();
    let (mut phase, mut step) = prepare_inputs();
    loop {
        let event = match step {
            PrepStep::FetchPull => {
                asked.push("pull");
                PrepEvent::Pull(pr.clone())
            }
            PrepStep::AskPermission => {
                asked.push("permission");
                PrepEvent::Permission(permitted)
            }
            PrepStep::ListReviews => {
                asked.push("reviews");
                PrepEvent::Reviews(shas.clone())
            }
            PrepStep::FetchDiff => {
                asked.push("diff");
                PrepEvent::Diff(diff.clone())
            }
            PrepStep::FetchDelta { prior, head } => {
                assert_eq!((prior.as_str(), head.as_str()), ("old", "head"));
                asked.push("delta");
                PrepEvent::Delta(delta.clone())
            }
            end => return (asked, end),
        };
        let next = prepare_step(cfg, &no_ignore(), force_full, phase, event);
        phase = next.0;
        step = next.1;
    }
}

fn skip_reason(step: PrepStep) -> String {
    match step {
        PrepStep::Skip { reason } => reason,
        other => panic!("{other:?}"),
    }
}

fn over(step: PrepStep) -> (Vec<NewStatus>, Result<Prep, String>) {
    match step {
        PrepStep::Over { statuses, result } => (statuses, result),
        other => panic!("{other:?}"),
    }
}

fn inputs(step: PrepStep) -> ReviewInputs {
    match step {
        PrepStep::Over { statuses, result: Ok(Prep::Ready(inputs)) } => {
            assert!(statuses.is_empty());
            *inputs
        }
        other => panic!("{other:?}"),
    }
}

#[test]
fn a_full_review_is_prepared() {
    let (asked, end) = prepare(
        &config(),
        false,
        Ok(pull("dev", false)),
        true,
        Some(vec![None]),
        Ok(DIFF.to_string()),
        Ok(String::new()),
    );
    assert_eq!(asked, vec!["pull", "permission", "reviews", "diff"]);
    let inputs = inputs(end);
    assert!(!inputs.incremental);
    assert_eq!(inputs.analysis_text, DIFF);
    assert_eq!(inputs.anchor_text, DIFF);
    assert_eq!(inputs.coverage.denominator(), ["changeset:src/a.rs"]);
    assert_eq!(inputs.coverage.state("changeset:src/a.rs"), Some(&UnitState::Pending));
}

#[test]
fn an_incremental_review_analyzes_the_delta() {
    let delta = DIFF.replace("a.rs", "b.rs");
    let shas = Some(vec![Some("older".to_string()), Some("old".to_string()), None]);
    let (asked, end) = prepare(
        &config(),
        false,
        Ok(pull("dev", false)),
        true,
        shas.clone(),
        Ok(DIFF.to_string()),
        Ok(delta.clone()),
    );
    assert_eq!(asked, vec!["pull", "permission", "reviews", "diff", "delta"]);
    let inputs = inputs(end);
    assert!(inputs.incremental);
    assert_eq!(inputs.analysis_text, delta);
    assert_eq!(inputs.anchor_text, DIFF);
    // A forced review is a full one and asks for no permission.
    let (asked, _) = prepare(
        &config(),
        true,
        Ok(pull("dev", false)),
        false,
        shas,
        Ok(DIFF.to_string()),
        Ok(delta),
    );
    assert_eq!(asked, vec!["pull", "reviews", "diff"]);
}

#[test]
fn runs_are_skipped_with_a_reason() {
    let ok = || Ok(DIFF.to_string());
    let (_, end) = prepare(&config(), false, Ok(pull("dev", true)), true, None, ok(), ok());
    assert_eq!(skip_reason(end), "draft PR");
    let (_, end) = prepare(&config(), false, Ok(pull("dep[bot]", false)), true, None, ok(), ok());
    assert_eq!(skip_reason(end), "bot author: dep[bot]");
    let (_, end) = prepare(&config(), false, Ok(pull("dev", false)), false, None, ok(), ok());
    assert_eq!(skip_reason(end), "auto-review permission denied");
    let (_, end) =
        prepare(&config(), false, Ok(pull("dev", false)), true, None, Ok(" \n".into()), ok());
    assert_eq!(skip_reason(end), "empty diff");
    let (_, end) = prepare(
        &config(),
        false,
        Ok(pull("dev", false)),
        true,
        Some(vec![Some("old".into())]),
        ok(),
        Ok("".into()),
    );
    assert_eq!(skip_reason(end), "no new changes since the last review");
}

#[test]
fn platform_failures_are_open_unless_fatal() {
    let (_, end) =
        prepare(&config(), false, Err("500".into()), true, None, Ok("".into()), Ok("".into()));
    let (statuses, result) = over(end);
    // Nothing is known that a check could be written on.
    assert!(statuses.is_empty());
    assert!(matches!(
        result,
        Ok(Prep::Done(Outcome::AnalysisFailed(m))) if m == "failed to fetch PR: 500"
    ));
    let closed = ReviewConfig { fail_closed: true, ..config() };
    let (_, end) = prepare(
        &closed,
        false,
        Ok(pull("dev", false)),
        true,
        None,
        Err("rate".into()),
        Ok("".into()),
    );
    let (statuses, result) = over(end);
    assert_eq!(statuses.len(), 1);
    assert_eq!(statuses[0].state, StatusState::Error);
    assert_eq!(statuses[0].description, "failed to fetch diff: rate");
    assert!(matches!(result, Err(m) if m == "failed to fetch diff: rate"));
    let (_, end) = prepare(
        &config(),
        false,
        Ok(pull("dev", false)),
        true,
        Some(vec![Some("old".into())]),
        Ok(DIFF.into()),
        Err("gone".into()),
    );
    let (statuses, result) = over(end);
    assert_eq!(statuses[0].context, "hoverstare");
    assert_eq!(statuses[0].state, StatusState::Success);
    assert!(matches!(
        result,
        Ok(Prep::Done(Outcome::AnalysisFailed(m))) if m == "failed to fetch incremental diff: gone"
    ));
    assert_eq!(fail_or_open(true, "x".into()), Err("x".to_string()));
}

fn ready(text: &str, cfg: &ReviewConfig) -> ReviewInputs {
    let (_, end) = prepare(
        cfg,
        true,
        Ok(pull("dev", false)),
        true,
        None,
        Ok(text.to_string()),
        Ok(String::new()),
    );
    inputs(end)
}

fn thread(id: &str, body: &str, resolved: bool, comment: Option<u64>) -> ReviewThread {
    ReviewThread {
        id: id.to_string(),
        is_resolved: resolved,
        first_comment_body: body.to_string(),
        first_comment_id: comment,
        fingerprints: vec![format!("fp-{id}")],
        description: body.to_string(),
    }
}

#[test]
fn a_run_publishes_resolves_and_settles_its_checks() {
    let cfg = config();
    let (state, step) = run_review(&cfg, &ready(DIFF, &cfg), "review done");
    assert!(matches!(step.next, Next::FetchThreads));
    let threads = vec![
        thread("t1", "🔴 bad", false, Some(11)),
        thread("t2", "🟠 bad", false, Some(12)),
        thread("t3", "fine", false, None),
        thread("t4", "🔴 old", true, None),
    ];
    let (state, step) = run_step(&cfg, state, RunEvent::Threads(threads));
    assert!(matches!(step.next, Next::Analyze));
    assert_eq!(state.open.len(), 3);
    assert_eq!(state.coverage.state("changeset:src/a.rs"), Some(&UnitState::Running));
    let found = AnalysisSummary {
        severities: vec![Severity::Low, Severity::Critical],
        to_resolve: vec!["t1".into(), "t2".into(), "t3".into()],
        inline_comments: 4,
    };
    let (state, step) = run_step(&cfg, state, RunEvent::Analyzed(Ok(found)));
    assert!(matches!(step.next, Next::Publish));
    assert_eq!(state.coverage.terminal(), TerminalState::Okay);
    let (state, step) = run_step(&cfg, state, RunEvent::Published(Ok(())));
    assert!(matches!(step.next, Next::ResolveThread(id) if id == "t1"));
    let (state, step) = run_step(&cfg, state, RunEvent::Resolved(true));
    assert!(matches!(step.next, Next::ResolveThread(id) if id == "t2"));
    let (state, step) = run_step(&cfg, state, RunEvent::Resolved(false));
    assert!(matches!(step.next, Next::ReplyTo(12)));
    let (state, step) = run_step(&cfg, state, RunEvent::Replied(true));
    assert!(matches!(step.next, Next::ResolveThread(id) if id == "t3"));
    let (state, step) = run_step(&cfg, state, RunEvent::Resolved(false));
    assert_eq!((state.resolved, state.replied), (1, 1));
    assert_eq!(step.statuses.len(), 2);
    assert_eq!(step.statuses[0].description, "review done");
    assert_eq!(step.statuses[1].state, StatusState::Failure);
    assert_eq!(
        step.statuses[1].description,
        "Unresolved high-severity findings (new: 1, open: 0)"
    );
    assert!(matches!(
        step.next,
        Next::Finish(Ok(Outcome::Published { inline_comments: 4, terminal: TerminalState::Okay }))
    ));
}

#[test]
fn a_failed_publication_falls_back_to_a_comment() {
    let cfg = ReviewConfig { structured: true, status_checks: false, ..config() };
    let found = || AnalysisSummary { severities: vec![], to_resolve: vec![], inline_comments: 4 };
    let begin = || {
        let (state, _) = run_review(&cfg, &ready(DIFF, &cfg), "done");
        let (state, _) = run_step(&cfg, state, RunEvent::Threads(vec![]));
        let (state, _) = run_step(&cfg, state, RunEvent::Analyzed(Ok(found())));
        run_step(&cfg, state, RunEvent::Published(Err("422".into())))
    };
    let (state, step) = begin();
    assert!(matches!(step.next, Next::Comment));
    let (state, step) = run_step(&cfg, state, RunEvent::Commented(Ok(())));
    assert!(matches!(step.next, Next::Emit));
    assert!(step.statuses.is_empty());
    let (_, step) = run_step(&cfg, state, RunEvent::Emitted(Ok(())));
    assert!(matches!(
        step.next,
        Next::Finish(Ok(Outcome::Published { inline_comments: 0, .. }))
    ));
    let (state, _) = begin();
    let (_, step) = run_step(&cfg, state, RunEvent::Commented(Err("500".into())));
    assert!(matches!(
        step.next,
        Next::Finish(Err(m)) if m == "both review and fallback comment failed: 422 ; 500"
    ));
}

#[test]
fn a_failed_analysis_is_reported_with_its_coverage() {
    let cfg = config();
    let (state, _) = run_review(&cfg, &ready(DIFF, &cfg), "done");
    let (state, _) = run_step(&cfg, state, RunEvent::Threads(vec![]));
    let (state, step) = run_step(&cfg, state, RunEvent::Analyzed(Err("provider 500".into())));
    assert_eq!(
        state.coverage.state("changeset:src/a.rs"),
        Some(&UnitState::Failed("provider 500".to_string()))
    );
    assert_eq!(
        step.statuses[0].description,
        "analysis failed (fail-open): coverage 0/1 (1 failed, 0 truncated)"
    );
    assert!(matches!(
        step.next,
        Next::Finish(Ok(Outcome::AnalysisFailed(m))) if m == "analysis failed: provider 500"
    ));
}

#[test]
fn a_diff_over_twice_the_budget_is_abandoned() {
    let big = format!("{DIFF}{}", "+0123456789\n".repeat(200));
    let cfg = ReviewConfig { max_diff_kb: 1, ..config() };
    let inputs = ready(&big, &cfg);
    let (state, step) = run_review(&cfg, &inputs, "done");
    assert_eq!(
        state.coverage.state("changeset:src/a.rs"),
        Some(&UnitState::Truncated("diff over budget".to_string()))
    );
    assert_eq!(step.statuses.len(), 1);
    assert!(matches!(
        step.next,
        Next::Finish(Ok(Outcome::AnalysisFailed(m)))
            if m == "diff exceeds 2x budget (2 KB), abandoning analysis"
    ));
}

#[test]
fn nothing_to_analyze_skips_the_run() {
    let cfg = config();
    let (_, step) = run_review(&cfg, &ready("just a line\n", &cfg), "done");
    assert!(matches!(step.next, Next::Skip(m) if m == "no reviewable changes in diff"));
    let generated = DIFF.replace("+x", "+// Code generated. DO NOT EDIT.");
    let (_, step) = run_review(&cfg, &ready(&generated, &cfg), "done");
    assert!(matches!(step.next, Next::Skip(m) if m == "all changes filtered out by rules (1 files)"));
}

#[test]
fn a_dry_run_only_prints() {
    let cfg = ReviewConfig { dry_run: true, ..config() };
    let (state, _) = run_review(&cfg, &ready(DIFF, &cfg), "done");
    let (state, _) = run_step(&cfg, state, RunEvent::Threads(vec![]));
    let found = AnalysisSummary { severities: vec![], to_resolve: vec![], inline_comments: 1 };
    let (state, step) = run_step(&cfg, state, RunEvent::Analyzed(Ok(found)));
    assert!(matches!(step.next, Next::PrintDryRun));
    let review = DryReview {
        commit_id: "head".into(),
        resolved_finding_ids: vec!["fp".into()],
        carried_over: 2,
        body: "text".into(),
        comments: vec![DryComment { path: "src/a.rs".into(), line: 1, body: "b".into() }],
    };
    let text = to_pretty(&dry_run_json(&review, false, &state.coverage)).unwrap();
    let doc: serde_json::Value = serde_json::from_str(&text).unwrap();
    assert_eq!(doc["mode"], "full");
    assert_eq!(doc["terminal"], "ok");
    assert_eq!(doc["units_covered"], 1);
    assert_eq!(doc["units_total"], 1);
    assert_eq!(doc["comments"][0]["line"], 1);
    assert_eq!(doc["carried_over"], 2);
}

#[test]
fn a_dry_run_with_a_document_emits_it_instead() {
    let cfg = ReviewConfig { dry_run: true, structured: true, ..config() };
    let analyzed = || {
        let (state, _) = run_review(&cfg, &ready(DIFF, &cfg), "done");
        let (state, _) = run_step(&cfg, state, RunEvent::Threads(vec![]));
        let found = AnalysisSummary { severities: vec![], to_resolve: vec![], inline_comments: 1 };
        run_step(&cfg, state, RunEvent::Analyzed(Ok(found)))
    };
    let (state, step) = analyzed();
    assert!(matches!(step.next, Next::Emit));
    assert!(step.statuses.is_empty());
    let (_, step) = run_step(&cfg, state, RunEvent::Emitted(Ok(())));
    assert!(step.statuses.is_empty());
    assert!(matches!(step.next, Next::Finish(Ok(Outcome::DryRun))));
    let (state, _) = analyzed();
    let (_, step) = run_step(&cfg, state, RunEvent::Emitted(Err("disk".into())));
    assert!(matches!(step.next, Next::Finish(Err(m)) if m == "disk"));
}

#[test]
fn a_preview_prepares_what_a_run_does_and_writes_no_checks() {
    let cfg = config();
    let quiet = preview_config(&cfg);
    assert!(!quiet.status_checks);
    assert_eq!(ReviewConfig { status_checks: true, ..quiet }, cfg);
    assert!(skip_checks(&quiet, "draft PR", "nothing").is_empty());
    let one = ready(DIFF, &cfg);
    let other = ready(DIFF, &quiet);
    assert_eq!(one.analysis_text, other.analysis_text);
    assert_eq!(one.analysis_selection.units, other.analysis_selection.units);
    assert_eq!(one.coverage.denominator(), other.coverage.denominator());
}

#[test]
fn the_denominator_stays_what_was_prepared() {
    let cfg = config();
    let inputs = ready(DIFF, &cfg);
    let (state, _) = run_review(&cfg, &inputs, "done");
    let (state, _) = run_step(&cfg, state, RunEvent::Threads(vec![]));
    assert_eq!(state.coverage.denominator(), inputs.coverage.denominator());
    let (state, _) = run_step(&cfg, state, RunEvent::Analyzed(Err("x".into())));
    assert_eq!(state.coverage.denominator(), inputs.coverage.denominator());
    assert_eq!(state.coverage.terminal(), TerminalState::Partial);
}

#[test]
fn a_strict_run_selects_strictly() {
    let text = format!("{DIFF}{}", DIFF.replace("src/a.rs", ".env"));
    assert_eq!(ready(&text, &config()).coverage.denominator().len(), 2);
    let strict = ReviewConfig { select_strict: true, ..config() };
    let inputs = ready(&text, &strict);
    assert_eq!(inputs.coverage.denominator(), ["changeset:src/a.rs"]);
    assert_eq!(inputs.excluded_files, 1);
}

#[test]
fn status_descriptions_are_bounded() {
    let cfg = config();
    let long = "ä".repeat(200);
    let list = skip_checks(&cfg, &long, "nothing");
    assert_eq!(list.len(), 2);
    assert_eq!(list[0].context, "hoverstare");
    assert_eq!(list[0].description, "ä".repeat(140));
    assert_eq!(list[1].context, "hoverstare-findings");
    assert!(list.iter().all(|s| s.state == StatusState::Success));
    let off = ReviewConfig { status_checks: false, ..cfg };
    assert!(skip_checks(&off, "a", "b").is_empty());
    let closed = ReviewConfig { fail_closed: true, ..cfg };
    assert_eq!(post_terminal_status(&closed, false, "n")[0].state, StatusState::Error);
    assert_eq!(post_terminal_status(&closed, true, "n")[0].state, StatusState::Success);
}

#[test]
fn open_findings_of_high_severity_fail_the_check() {
    let open = vec![OpenFinding {
        thread_id: "t".into(),
        fingerprints: vec![],
        description: "".into(),
        has_high_severity: true,
        first_comment_id: Some(5),
    }];
    let failing = post_status_checks(&[Severity::Medium], &open, &[], "done");
    assert_eq!(failing[1].state, StatusState::Failure);
    let fixed = post_status_checks(&[Severity::Medium], &open, &["t".to_string()], "done");
    assert_eq!(fixed[1].state, StatusState::Success);
    assert_eq!(fixed[1].description, "No high-severity findings");
    assert_eq!(comment_of(&open, "t"), Some(5));
    assert_eq!(comment_of(&open, "u"), None);
}

#[test]
fn threads_of_others_are_left_alone() {
    let mut foreign = thread("x", "🔴", false, None);
    foreign.fingerprints.clear();
    let found = fetch_open_findings(&[foreign, thread("y", "🟠", false, Some(1))]);
    assert_eq!(found.len(), 1);
    assert_eq!(found[0].thread_id, "y");
    assert!(found[0].has_high_severity);
}

#[test]
fn a_thread_is_resolved_or_answered() {
    assert_eq!(resolve_or_reply(true, None), ResolveStep::Done(ResolveOutcome::Resolved));
    assert_eq!(resolve_or_reply(false, Some(3)), ResolveStep::Reply(3));
    assert_eq!(resolve_or_reply(false, None), ResolveStep::Done(ResolveOutcome::Failed));
    assert_eq!(latest_sha(&[Some("a".into()), Some("b".into()), None]), Some("b".to_string()));
    assert_eq!(latest_sha(&[None]), None);
}

#[test]
fn a_preview_lists_units_and_exclusions() {
    let deleted = "diff --git a/gone.rs b/gone.rs\n--- a/gone.rs\n+++ /dev/null\n@@ -1 +0,0 @@\n-x\n";
    let selection = select(&format!("{DIFF}{deleted}"), &no_ignore(), 400);
    let labels = PreviewLabels {
        summary: "full: 1".into(),
        will_review: "will review:".into(),
        nothing: "(nothing)".into(),
        excluded: "excluded:".into(),
        kept_for_anchoring: ", kept for anchoring".into(),
    };
    assert_eq!(
        print_preview(&selection, &labels),
        vec![
            "full: 1",
            "will review:",
            "  src/a.rs",
            "excluded:",
            "  gone.rs (deleted, kept for anchoring)",
        ]
    );
    assert_eq!(
        preview_outcome(&selection),
        Outcome::Previewed { units: 1, excluded: 0, truncated: 0 }
    );
    let empty = select("", &no_ignore(), 1);
    assert_eq!(print_preview(&empty, &labels), vec!["full: 1", "will review: (nothing)"]);
    assert_eq!(short_sha("0123456789"), "0123456");
    assert_eq!(short_sha("abc"), "abc");
}

#[test]
fn a_fatal_failure_settles_the_check_as_an_error() {
    let cfg = ReviewConfig { fail_closed: true, ..config() };
    let (state, _) = run_review(&cfg, &ready(DIFF, &cfg), "done");
    let (state, _) = run_step(&cfg, state, RunEvent::Threads(vec![]));
    let (_, step) = run_step(&cfg, state, RunEvent::Analyzed(Err("provider 500".into())));
    assert_eq!(step.statuses.len(), 1);
    assert_eq!(step.statuses[0].context, "hoverstare");
    assert_eq!(step.statuses[0].state, StatusState::Error);
    assert_eq!(
        step.statuses[0].description,
        "analysis failed: coverage 0/1 (1 failed, 0 truncated)"
    );
    assert!(matches!(step.next, Next::Finish(Err(m)) if m == "analysis failed: provider 500"));
    let big = format!("{DIFF}{}", "+0123456789\n".repeat(200));
    let tight = ReviewConfig { max_diff_kb: 1, ..cfg };
    let (_, step) = run_review(&tight, &ready(&big, &tight), "done");
    assert_eq!(step.statuses[0].state, StatusState::Error);
}

#[test]
fn a_lost_review_settles_the_check() {
    let cfg = config();
    let found = AnalysisSummary { severities: vec![], to_resolve: vec![], inline_comments: 0 };
    let (state, _) = run_review(&cfg, &ready(DIFF, &cfg), "done");
    let (state, _) = run_step(&cfg, state, RunEvent::Threads(vec![]));
    let (state, _) = run_step(&cfg, state, RunEvent::Analyzed(Ok(found)));
    let (state, _) = run_step(&cfg, state, RunEvent::Published(Err("422".into())));
    let (_, step) = run_step(&cfg, state, RunEvent::Commented(Err("500".into())));
    assert_eq!(step.statuses.len(), 1);
    assert_eq!(
        step.statuses[0].description,
        "publication failed: coverage 1/1 (0 failed, 0 truncated)"
    );
    assert!(matches!(step.next, Next::Finish(Err(_))));
}

fn open(id: &str, fingerprints: &[&str]) -> OpenFinding {
    OpenFinding {
        thread_id: id.to_string(),
        fingerprints: fingerprints.iter().map(|f| f.to_string()).collect(),
        description: String::new(),
        has_high_severity: false,
        first_comment_id: None,
    }
}

#[test]
fn the_analysis_is_told_what_the_run_is_about() {
    let full = ready(DIFF, &config());
    let known = [open("t1", &["b", "a"]), open("t2", &["a", "c"])];
    assert_eq!(
        review_context(&full, &known),
        ReviewContext {
            head_sha: "head".into(),
            incremental_from: None,
            open_fingerprints: vec!["a".into(), "b".into(), "c".into()],
            mode: "full".into(),
            scope: ReviewScope::Full,
            files_reviewed: 1,
            excluded_files: 0,
        }
    );
    let delta = ReviewInputs {
        incremental: true,
        prior_sha: Some("0123456789".into()),
        analysis_text: format!("{DIFF}{}", DIFF.replace("a.rs", "b.rs")),
        excluded_files: 3,
        ..full.clone()
    };
    let context = review_context(&delta, &[]);
    assert_eq!(context.incremental_from.as_deref(), Some("0123456"));
    assert_eq!(context.scope, ReviewScope::Incremental("0123456".into()));
    assert_eq!(context.mode, "incremental");
    assert_eq!((context.files_reviewed, context.excluded_files), (2, 3));
    assert!(context.open_fingerprints.is_empty());
    // A full review of a pull request that was reviewed before starts from nothing.
    let again = ReviewInputs { incremental: false, ..delta };
    assert_eq!(review_context(&again, &[]).incremental_from, None);
}

#[test]
fn a_review_states_its_coverage_where_asked() {
    let cfg = config();
    let (state, _) = run_review(&cfg, &ready(DIFF, &cfg), "done");
    let (state, _) = run_step(&cfg, state, RunEvent::Threads(vec![]));
    let stated = reported_coverage(&cfg, &state).unwrap();
    assert_eq!((stated.total, stated.covered, stated.failed), (1, 1, 0));
    assert_eq!(stated.terminal, TerminalState::Okay);
    let silent = ReviewConfig { report_coverage: false, ..cfg };
    assert!(reported_coverage(&silent, &state).is_none());
}

#[test]
fn a_grouped_run_counts_groups() {
    let text = format!(
        "{}{}{DIFF}",
        DIFF.replace("src/a.rs", "README.md"),
        DIFF.replace("src/a.rs", "README.ja.md")
    );
    assert_eq!(ready(&text, &config()).coverage.denominator().len(), 3);
    let grouped = ReviewConfig { group_units: true, ..config() };
    let inputs = ready(&text, &grouped);
    assert_eq!(
        inputs.coverage.denominator(),
        ["changeset:group:README.md", "changeset:src/a.rs"]
    );
    assert_eq!(inputs.analysis_text, text);
}
