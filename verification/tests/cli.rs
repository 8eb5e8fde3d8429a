use hoverstare::cli::{
    develop_budget, exit_code, log_filter, log_review_outcome, mention_line, parse_port,
    resolve_dev_event, rules_check, rules_list, serve_port, shown_commit, DevError, DevKind,
    DevelopArgs, Level, ReviewArgs,
};
use hoverstare::orchestrator::Outcome;
use hoverstare::output::OutputFormat;
use hoverstare::rules::{resolve, Resolution};
use hoverstare::units::TerminalState;

fn args() -> DevelopArgs {
    DevelopArgs {
        task: None,
        dry_run: false,
        repo: None,
        issue: None,
        pr: None,
        instruction: None,
        go: false,
        merge: false,
    }
}

#[test]
fn flags_build_a_trigger() {
    let event = resolve_dev_event(&DevelopArgs {
        repo: Some("o/r".into()),
        issue: Some(7),
        go: true,
        instruction: Some("ignored".into()),
        ..args()
    })
    .unwrap()
    .unwrap();
    assert_eq!(event.body, "@hoverstare go");
    assert_eq!((event.repo.as_str(), event.number, event.is_pr), ("o/r", 7, false));
    assert_eq!(event.kind, DevKind::IssueComment);
    assert_eq!(event.author_association, "OWNER");
    assert_eq!(event.author, "local");
    let event = resolve_dev_event(&DevelopArgs {
        repo: Some("o/r".into()),
        pr: Some(8),
        ..args()
    })
    .unwrap()
    .unwrap();
    assert_eq!(event.body, "@hoverstare continue");
    assert!(event.is_pr);
    let event = resolve_dev_event(&DevelopArgs {
        repo: Some("o/r".into()),
        pr: Some(8),
        merge: true,
        ..args()
    })
    .unwrap()
    .unwrap();
    assert_eq!(event.body, "@hoverstare merge");
    let event = resolve_dev_event(&DevelopArgs {
        repo: Some("o/r".into()),
        issue: Some(8),
        instruction: Some("plan it".into()),
        ..args()
    })
    .unwrap()
    .unwrap();
    assert_eq!(event.body, "@hoverstare plan it");
}

#[test]
fn flags_without_a_repository_are_refused() {
    let e = resolve_dev_event(&DevelopArgs { issue: Some(1), ..args() }).unwrap_err();
    assert_eq!(e, DevError::IssueWithoutRepo);
    assert_eq!(e.message(), "--issue requires --repo owner/name");
    let e = resolve_dev_event(&DevelopArgs { pr: Some(1), ..args() }).unwrap_err();
    assert_eq!(e, DevError::PrWithoutRepo);
    assert_eq!(e.message(), "--pr requires --repo owner/name");
    assert_eq!(resolve_dev_event(&args()), Ok(None));
}

#[test]
fn outcomes_have_a_log_line() {
    assert_eq!(
        log_review_outcome(&Outcome::Published {
            inline_comments: 12,
            terminal: TerminalState::Partial
        }),
        (Level::Info, "✅ review published (12 inline comments, coverage partial)".to_string())
    );
    assert_eq!(
        log_review_outcome(&Outcome::Previewed { units: 1, excluded: 20, truncated: 3 }).1,
        "✅ preview: 1 unit(s) would be reviewed (20 excluded, 3 truncated), no model calls"
    );
    assert_eq!(log_review_outcome(&Outcome::Skipped("x".into())).1, "skipped: x");
    assert_eq!(
        log_review_outcome(&Outcome::DryRun).1,
        "✅ dry-run complete (not published)"
    );
    assert_eq!(
        log_review_outcome(&Outcome::AnalysisFailed("y".into())),
        (Level::Warn, "analysis failed (fail-open, exit 0): y".to_string())
    );
    assert_eq!(mention_line(&Outcome::DryRun), "✅ mention handled");
    assert_eq!(mention_line(&Outcome::Skipped("z".into())), "skipped: z");
}

#[test]
fn only_errors_exit_with_one() {
    assert_eq!(exit_code::<String>(&Ok(Outcome::AnalysisFailed("x".into()))), 0);
    assert_eq!(exit_code(&Err("x".to_string())), 1);
}

#[test]
fn packs_are_listed_with_their_scope() {
    let lines = rules_list();
    assert_eq!(lines.len(), 8);
    assert_eq!(lines[0], "- rust v1 [Rust] **/*.rs **/Cargo.toml **/build.rs");
    assert_eq!(lines[7], "- default v1 [General] (fallback)");
}

#[test]
fn a_check_names_the_pattern_and_the_decision() {
    let hits = resolve("x.m", Some("@end\n"), 2);
    assert_eq!(
        rules_check(&hits, " (by content)"),
        vec!["- objc v1 [Objective-C] matched **/*.m (by content)"]
    );
    let unknown = Resolution { pack_id: "?".into(), matched_pattern: "".into(), sniffed: false };
    assert!(rules_check(&[unknown], "").is_empty());
}

#[test]
fn ports_come_from_the_environment_first() {
    assert_eq!(parse_port("8081"), Some(8081));
    assert_eq!(parse_port("+80"), Some(80));
    assert_eq!(parse_port("65535"), Some(65535));
    assert_eq!(parse_port("65536"), None);
    assert_eq!(parse_port("99999999999999999999"), None);
    assert_eq!(parse_port(""), None);
    assert_eq!(parse_port("+"), None);
    assert_eq!(parse_port("8a"), None);
    assert_eq!(serve_port(Some("9"), Some(1)), 9);
    assert_eq!(serve_port(Some("x"), Some(1)), 1);
    assert_eq!(serve_port(None, None), 8080);
}

#[test]
fn small_decisions() {
    assert_eq!(log_filter(true), "hoverstare=debug");
    assert_eq!(log_filter(false), "hoverstare=info");
    assert_eq!(develop_budget(3, 40), 40);
    assert_eq!(develop_budget(50, 40), 50);
    assert_eq!(shown_commit("0123456789abcdef"), "0123456789");
    let plain = ReviewArgs::default();
    assert_eq!(plain.format, OutputFormat::Human);
    assert!(!plain.preview && !plain.dry_run);
}
