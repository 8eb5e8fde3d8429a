use globset::{Glob, GlobSet, GlobSetBuilder};
use hoverstare::diff;
use hoverstare::gates::{is_default_path, is_reviewable_path, is_secret_path};
use hoverstare::units::{
    digest_hex, is_deleted, select, select_ignoring, select_unbounded, select_with,
    CoverageLedger, ExcludeReason, ReviewUnit, SelectOptions, TerminalState, UnitSource, UnitState,
};

fn ignore_set(patterns: &[&str]) -> GlobSet {
    let mut b = GlobSetBuilder::new();
    for p in patterns {
        b.add(Glob::new(p).unwrap());
    }
    b.build().unwrap()
}

fn no_ignore() -> GlobSet {
    ignore_set(&[])
}

/// A section big enough that the kilobyte-granular budget actually bites.
fn padded(path: &str, added_lines: usize) -> String {
    let mut body = String::new();
    for i in 0..added_lines {
        body.push_str(&format!("+line {i} of {path}\n"));
    }
    format!(
        "diff --git a/{path} b/{path}\n--- a/{path}\n+++ b/{path}\n@@ -1,0 +1,{added_lines} @@\n{body}"
    )
}

const SRC: &str = "\
diff --git a/src/main.rs b/src/main.rs
index 1111111..2222222 100644
--- a/src/main.rs
+++ b/src/main.rs
@@ -10,6 +10,7 @@ fn main() {
 context
-old
+new
";

const LOCK: &str = "\
diff --git a/Cargo.lock b/Cargo.lock
index 3333333..4444444 100644
--- a/Cargo.lock
+++ b/Cargo.lock
@@ -1,3 +1,4 @@
 name = \"x\"
+version = \"1\"
";

const GENERATED: &str = "\
diff --git a/gen.rs b/gen.rs
--- a/gen.rs
+++ b/gen.rs
@@ -1,2 +1,3 @@
+// Code generated by tool. DO NOT EDIT.
 fn x() {}
";

const DELETED: &str = "\
diff --git a/gone.rs b/gone.rs
index 5555555..6666666 100644
--- a/gone.rs
+++ /dev/null
@@ -1,2 +0,0 @@
-fn gone() {}
";

#[test]
fn select_is_pure() {
    let a = select_unbounded(&format!("{SRC}{LOCK}"), &no_ignore());
    let b = select_unbounded(&format!("{SRC}{LOCK}"), &no_ignore());
    assert_eq!(a.units, b.units);
    assert_eq!(a.excluded, b.excluded);
    assert_eq!(a.text, b.text);
    assert_eq!(a.estimated_tokens, b.estimated_tokens);
}

#[test]
fn ignored_path_is_excluded_and_absent_from_text() {
    let sel = select_unbounded(&format!("{SRC}{LOCK}"), &ignore_set(&["Cargo.lock"]));
    assert_eq!(sel.units.len(), 1);
    assert_eq!(sel.units[0].files, vec!["src/main.rs"]);
    assert_eq!(sel.excluded_count(), 1);
    assert_eq!(sel.excluded_by(ExcludeReason::Ignored).len(), 1);
    assert!(!sel.text.contains("Cargo.lock"));
}

#[test]
fn generated_content_is_excluded() {
    let sel = select_unbounded(GENERATED, &no_ignore());
    assert!(sel.units.is_empty());
    assert_eq!(sel.excluded_by(ExcludeReason::Generated).len(), 1);
}

#[test]
fn deleted_file_is_excluded_from_units_but_kept_in_text() {
    let sel = select_unbounded(&format!("{SRC}{DELETED}"), &no_ignore());
    assert_eq!(sel.units.len(), 1, "deleted files are not reviewable");
    let deleted = sel.excluded_by(ExcludeReason::Deleted);
    assert_eq!(deleted.len(), 1);
    assert!(deleted[0].kept_in_text);
    assert_eq!(
        sel.excluded_count(),
        0,
        "kept in text != removed from input"
    );
    assert!(sel.text.contains("gone.rs"), "anchoring needs the deletion");
}

#[test]
fn budget_drops_the_lowest_priority_file_first() {
    let src = padded("src/main.rs", 60);
    let lock = padded("Cargo.lock", 60);
    assert!(
        src.len() + lock.len() > 1024,
        "fixture must exceed the budget"
    );
    let sel = select(&format!("{src}{lock}"), &no_ignore(), 1);
    assert_eq!(sel.oversized_dropped(), vec!["Cargo.lock".to_string()]);
    assert_eq!(sel.units.len(), 1);
    assert_eq!(sel.units[0].files, vec!["src/main.rs"]);
    assert!(!sel.text.contains("Cargo.lock"));
    assert_eq!(sel.excluded_by(ExcludeReason::Oversized).len(), 1);
}

#[test]
fn first_file_survives_an_impossible_budget() {
    let sel = select(&format!("{SRC}{LOCK}"), &no_ignore(), 0);
    assert!(!sel.units.is_empty(), "floor guarantee: first file is kept");
    assert!(sel.text.contains("src/main.rs"));
}

#[test]
fn duplicate_paths_yield_one_unit() {
    let sel = select_unbounded(&format!("{SRC}{SRC}"), &no_ignore());
    assert_eq!(sel.units.len(), 1);
}

#[test]
fn unit_fingerprint_tracks_content_not_identity() {
    let a = select_unbounded(SRC, &no_ignore());
    let b = select_unbounded(&SRC.replace("+new", "+newer"), &no_ignore());
    assert_eq!(a.units[0].unit_id, b.units[0].unit_id);
    assert_ne!(a.units[0].unit_fp, b.units[0].unit_fp);
}

#[test]
fn unit_id_is_content_independent() {
    let a = select_unbounded(SRC, &no_ignore());
    let b = select_unbounded(
        &SRC.replace("index 1111111..2222222", "index aaaaaaa..bbbbbbb"),
        &no_ignore(),
    );
    assert_eq!(a.units[0].unit_id, b.units[0].unit_id);
}

fn unit(id: &str) -> ReviewUnit {
    ReviewUnit {
        unit_id: id.to_string(),
        source: UnitSource::Changeset,
        files: vec![id.to_string()],
        unit_fp: "fp".to_string(),
    }
}

#[test]
fn ledger_freezes_the_denominator() {
    let mut ledger = CoverageLedger::freeze(&[unit("a"), unit("b"), unit("a")]);
    assert_eq!(ledger.denominator(), ["a", "b"], "duplicates collapse");
    // A unit that was never frozen cannot enter the ledger afterwards.
    ledger.cover("c");
    assert_eq!(ledger.state("c"), None);
    assert_eq!(ledger.covered_count(), 0);
}

#[test]
fn ledger_terminal_state_comes_from_coverage() {
    let mut empty = CoverageLedger::freeze(&[]);
    empty.cover_all();
    assert_eq!(empty.terminal(), TerminalState::Empty);

    let units = [unit("a"), unit("b")];
    let mut ok = CoverageLedger::freeze(&units);
    ok.start_all();
    ok.cover_all();
    assert_eq!(ok.terminal(), TerminalState::Okay);

    let mut partial = CoverageLedger::freeze(&units);
    partial.start_all();
    partial.cover("a");
    partial.fail("b", "provider 500");
    assert_eq!(partial.terminal(), TerminalState::Partial);
    let uncovered = partial.uncovered();
    assert_eq!(uncovered.len(), 1);
    assert_eq!(uncovered[0].0, "b");
    assert_eq!(
        uncovered[0].1,
        &UnitState::Failed("provider 500".to_string())
    );
}

#[test]
fn ledger_truncation_is_a_distinct_uncovered_state() {
    let mut ledger = CoverageLedger::freeze(&[unit("a")]);
    ledger.start_all();
    ledger.truncate_all("diff over budget");
    assert_eq!(ledger.terminal(), TerminalState::Partial);
    assert_eq!(
        ledger.state("a"),
        Some(&UnitState::Truncated("diff over budget".to_string()))
    );
}

#[test]
fn summary_counts_states_and_terminal() {
    let units = [unit("a"), unit("b"), unit("c")];
    let mut ledger = CoverageLedger::freeze(&units);
    ledger.start_all();
    ledger.cover("a");
    ledger.fail("b", "boom");
    ledger.truncate("c", "budget");
    let summary = ledger.summary();
    assert_eq!(summary.total, 3);
    assert_eq!(summary.covered, 1);
    assert_eq!(summary.failed, 1);
    assert_eq!(summary.truncated, 1);
    assert_eq!(summary.terminal, TerminalState::Partial);

    let empty = CoverageLedger::freeze(&[]).summary();
    assert_eq!(empty.terminal, TerminalState::Empty);
}

#[test]
fn wrapper_parity_with_the_legacy_helpers() {
    let input = format!(
        "{}{}{GENERATED}{DELETED}",
        padded("src/main.rs", 60),
        padded("Cargo.lock", 60)
    );
    let ignore = ignore_set(&["Cargo.lock"]);
    let (legacy_text, legacy_excluded) = diff::filter_text(&input, &ignore);
    let legacy_trunc = diff::truncate_text(&legacy_text, 1);

    let sel = select(&input, &ignore, 1);
    assert!(
        !legacy_trunc.truncated_files.is_empty(),
        "parity must be exercised with a real truncation"
    );
    assert_eq!(sel.text, legacy_trunc.text);
    assert_eq!(sel.path_gate_excluded_count(), legacy_excluded);
    assert_eq!(
        sel.excluded_count(),
        legacy_excluded + legacy_trunc.truncated_files.len()
    );
    assert_eq!(sel.oversized_dropped(), legacy_trunc.truncated_files);
}

#[test]
fn fingerprint_is_the_start_of_a_sha1() {
    // SHA-1 of "a\n" + section for a known input.
    let section = "diff --git a/a b/a\n--- a/a\n+++ b/a\n@@ -0,0 +1 @@\n+x\n";
    let sel = select_unbounded(section, &no_ignore());
    assert_eq!(sel.units[0].unit_id, "changeset:a");
    assert_eq!(sel.units[0].unit_fp, "2de1715afd9513a3");
    let bytes: Vec<u8> = vec![0x2a, 0xae, 0x6c, 0x35, 0xc9, 0x4f, 0xcf, 0xb4, 0x15, 0xdb];
    assert_eq!(digest_hex(&bytes), "2aae6c35c94fcfb4");
}

#[test]
fn selection_with_known_ignored_paths() {
    let text = format!("{SRC}{LOCK}");
    let with_globs = select(&text, &ignore_set(&["*.lock"]), 400);
    let with_paths = select_ignoring(&text, &["Cargo.lock".to_string()], Some(400), false);
    assert_eq!(with_globs.text, with_paths.text);
    assert_eq!(with_globs.units, with_paths.units);
    assert_eq!(with_globs.excluded, with_paths.excluded);
    assert_eq!(with_globs.text, SRC);
    assert_eq!(with_globs.estimated_tokens, (SRC.len() as u64).div_ceil(4));
}

#[test]
fn a_reason_is_the_first_that_applies() {
    let both = GENERATED.replace("gen.rs", "Cargo.lock");
    let sel = select_unbounded(&both, &ignore_set(&["Cargo.lock"]));
    assert_eq!(sel.excluded.len(), 1);
    assert_eq!(sel.excluded[0].reason, ExcludeReason::Ignored);
    assert_eq!(sel.excluded[0].reason.as_str(), "ignored");
    assert_eq!(sel.text, "");
}

#[test]
fn missing_final_newline_is_added() {
    let sel = select_unbounded(SRC.trim_end(), &no_ignore());
    assert_eq!(sel.text, SRC);
}

#[test]
fn deletion_is_recognized_by_its_line() {
    assert!(is_deleted(DELETED));
    assert!(!is_deleted(SRC));
}

#[test]
fn names_of_reasons_sources_and_states() {
    assert_eq!(ExcludeReason::SecretPath.as_str(), "secret-path");
    assert_eq!(ExcludeReason::Binary.as_str(), "binary");
    assert_eq!(ExcludeReason::DefaultPath.as_str(), "default-path");
    assert_eq!(ExcludeReason::Extension.as_str(), "extension");
    assert_eq!(UnitSource::File.as_str(), "file");
    assert_eq!(TerminalState::Okay.as_str(), "ok");
    assert_eq!(TerminalState::Partial.as_str(), "partial");
    assert_eq!(TerminalState::Empty.as_str(), "empty");
}

#[test]
fn ledger_copies_and_defaults() {
    let mut ledger = CoverageLedger::freeze(&[unit("a")]);
    ledger.start("a");
    assert_eq!(ledger.state("a"), Some(&UnitState::Running));
    let copy = ledger.clone();
    ledger.truncate("a", "late");
    assert_eq!(copy.state("a"), Some(&UnitState::Running));
    assert!(!copy.is_empty());
    assert!(CoverageLedger::default().is_empty());
}

/// Every path of the input has a unit or an exclusion.
fn accounted(text: &str, ignore: &GlobSet, kb: usize) -> bool {
    let sel = select(text, ignore, kb);
    diff::split_sections(text)
        .iter()
        .filter_map(|section| diff::section_path(section))
        .all(|path| {
            sel.units.iter().any(|u| u.files == vec![path.clone()])
                || sel.excluded.iter().any(|e| e.path == path)
        })
}

#[test]
fn every_changed_file_is_accounted_for() {
    let text = format!(
        "preamble\n{}{}{GENERATED}{DELETED}{}",
        padded("src/main.rs", 60),
        padded("Cargo.lock", 60),
        padded("docs/a.md", 60).trim_end()
    );
    for kb in [0, 1, 3, 400] {
        assert!(accounted(&text, &no_ignore(), kb));
        assert!(accounted(&text, &ignore_set(&["*.lock", "src/**"]), kb));
    }
    // A last line that ends in a lone carriage return reads differently once it is
    // ended, and so does the path on it.
    let odd = "diff --git a/x b/x\n--- a/x\n+++ b/x\r";
    assert!(!accounted(odd, &no_ignore(), 400));
    assert!(accounted(&format!("{odd}\n"), &no_ignore(), 400));
}

#[test]
fn the_first_kept_file_is_always_sent() {
    let text = format!("{}{}{}", padded("Cargo.lock", 60), padded("a.md", 60), padded("b.rs", 60));
    let sel = select(&text, &ignore_set(&["*.lock"]), 0);
    assert_eq!(sel.text, padded("a.md", 60));
    assert_eq!(sel.units.len(), 1);
    assert_eq!(sel.units[0].unit_id, "changeset:a.md");
    assert_eq!(sel.oversized_dropped(), vec!["b.rs"]);
}

#[test]
fn the_text_is_made_of_whole_sections() {
    let parts = [padded("b.rs", 60), padded("Cargo.lock", 60), padded("c.rs", 10)];
    let sel = select(&parts.concat(), &no_ignore(), 2);
    assert_eq!(diff::split_sections(&sel.text), vec![parts[0].clone(), parts[2].clone()]);
}

#[test]
fn a_generous_budget_changes_nothing() {
    let text = format!("{SRC}{LOCK}{GENERATED}{DELETED}");
    let free = select_unbounded(&text, &no_ignore());
    let bounded = select(&text, &no_ignore(), 400);
    assert_eq!(bounded.text, free.text);
    assert_eq!(bounded.units, free.units);
    assert_eq!(bounded.excluded, free.excluded);
}

#[test]
fn ignoring_more_only_excludes_more() {
    let text = format!("{SRC}{LOCK}{GENERATED}");
    let fewer = select_unbounded(&text, &ignore_set(&["*.lock"]));
    let more = select_unbounded(&text, &ignore_set(&["*.lock", "src/**"]));
    assert_eq!(fewer.text, SRC);
    assert_eq!(more.text, "");
    assert!(fewer.excluded.iter().all(|e| more.excluded.iter().any(|m| m.path == e.path)));
}

#[test]
fn a_state_is_read_back_and_strangers_are_ignored() {
    let mut ledger = CoverageLedger::freeze(&[unit("a"), unit("b")]);
    ledger.fail("a", "x");
    ledger.cover("b");
    ledger.truncate("c", "y");
    assert_eq!(ledger.state("a"), Some(&UnitState::Failed("x".to_string())));
    assert_eq!(ledger.state("b"), Some(&UnitState::Covered));
    assert_eq!(ledger.state("c"), None);
    assert_eq!(ledger.denominator(), ["a", "b"]);
    let s = ledger.summary();
    assert!(s.covered + s.failed + s.truncated <= s.total);
}

const STRICT_PATHS: [&str; 6] =
    [".env.local", "node_modules/x/index.js", "assets/logo.psd", "src/a.rs", "gen/api.pb.go", "go.mod"];

fn strict_input() -> String {
    STRICT_PATHS.iter().map(|p| padded(p, 1)).collect()
}

#[test]
fn strict_gates_are_off_by_default() {
    let sel = select(&strict_input(), &no_ignore(), 400);
    assert_eq!(sel.units.len(), STRICT_PATHS.len());
    assert!(sel.excluded.is_empty());
    assert_eq!(sel.text, strict_input());
    let same = select_with(&strict_input(), &SelectOptions::new(&no_ignore(), 400));
    assert_eq!(same.text, sel.text);
}

#[test]
fn a_strict_selection_excludes_with_a_reason() {
    let sel = select_with(&strict_input(), &SelectOptions::new(&no_ignore(), 400).strict(true));
    let reason = |path: &str| sel.excluded.iter().find(|e| e.path == path).map(|e| e.reason);
    assert_eq!(reason(".env.local"), Some(ExcludeReason::SecretPath));
    assert_eq!(reason("node_modules/x/index.js"), Some(ExcludeReason::DefaultPath));
    assert_eq!(reason("gen/api.pb.go"), Some(ExcludeReason::DefaultPath));
    assert_eq!(reason("assets/logo.psd"), Some(ExcludeReason::Extension));
    assert_eq!(reason("src/a.rs"), None);
    assert_eq!(reason("go.mod"), None);
    assert_eq!(sel.units.len(), 2);
    assert!(!sel.text.contains(".env"));
    assert_eq!(sel.path_gate_excluded_count(), 4);
}

#[test]
fn of_several_reasons_the_earlier_stands() {
    let reason = |section: &str, ignore: &GlobSet| {
        select_with(section, &SelectOptions::new(ignore, 400).strict(true)).excluded[0].reason
    };
    // Ignored before anything else, but ignoring never lets a secret through.
    assert_eq!(reason(&padded(".env", 1), &ignore_set(&[".env"])), ExcludeReason::Ignored);
    assert_eq!(reason(&padded("vendor/id_rsa", 1), &no_ignore()), ExcludeReason::SecretPath);
    let generated = GENERATED.replace("gen.rs", "dist/gen.rs");
    assert_eq!(reason(&generated, &no_ignore()), ExcludeReason::DefaultPath);
    let unknown = GENERATED.replace("gen.rs", "gen.bin");
    assert_eq!(reason(&unknown, &no_ignore()), ExcludeReason::Generated);
    let gone = DELETED.replace("gone.rs", "gone.bin");
    assert_eq!(reason(&gone, &no_ignore()), ExcludeReason::Extension);
    assert_eq!(reason(DELETED, &no_ignore()), ExcludeReason::Deleted);
}

#[test]
fn secrets_are_known_by_path() {
    for path in [
        ".env", "app/.env.production", "certs/server.pem", "tls.key", "store.jks", "id_ed25519",
        ".netrc", "web/.npmrc", "credentials.json", "service-account-prod.json", "secrets.yaml",
        "kubeconfig", "home/.ssh/config", ".ssh/known_hosts", "terraform.tfstate.backup",
    ] {
        assert!(is_secret_path(path), "{path}");
    }
    for path in ["src/env.rs", "docs/keys.md", "service-account.md", "ssh/config", "src/monkey.rs"] {
        assert!(!is_secret_path(path), "{path}");
    }
}

#[test]
fn tool_output_is_known_by_path() {
    for path in [
        "vendor/a.go", "web/dist/app.js", "target/x", "app.min.css", "app.js.map", "Cargo.lock",
        "package-lock.json", "go.sum", "model.generated.ts", "api.g.dart",
    ] {
        assert!(is_default_path(path), "{path}");
    }
    for path in ["src/build.rs", "distance/a.rs", "vendor.rs", "map.rs"] {
        assert!(!is_default_path(path), "{path}");
    }
}

#[test]
fn reviewed_kinds_are_known_by_name() {
    for path in [
        "a.rs", "README.md", "ci.yml", "api.proto", "main.tf", "lustre/go.mod", "Dockerfile.prod",
        "Makefile.am", ".gitignore", "contracts/Token.sol",
    ] {
        assert!(is_reviewable_path(path), "{path}");
    }
    for path in ["logo.psd", "data.bin", "noext"] {
        assert!(!is_reviewable_path(path), "{path}");
    }
}

#[test]
fn a_deleted_file_that_the_budget_drops_has_one_reason() {
    let gone = format!("{DELETED}{}", "-a line that was there\n".repeat(200));
    let input = format!("{}{gone}", padded("src/a.rs", 200));
    let sel = select(&input, &no_ignore(), 5);
    let reasons: Vec<(&str, ExcludeReason, bool)> =
        sel.excluded.iter().map(|e| (e.path.as_str(), e.reason, e.kept_in_text)).collect();
    assert_eq!(reasons, vec![("gone.rs", ExcludeReason::Oversized, false)]);
    assert!(!sel.text.contains("gone.rs"));
    let roomy = select(&input, &no_ignore(), 400);
    assert_eq!(roomy.excluded.len(), 1);
    assert!(roomy.excluded[0].kept_in_text && roomy.text.contains("gone.rs"));
}

#[test]
fn a_fingerprint_is_sixteen_hex_digits() {
    let sel = select(&format!("{SRC}{}", padded("ü.rs", 3)), &no_ignore(), 400);
    assert_eq!(sel.units.len(), 2);
    for unit in &sel.units {
        assert_eq!(unit.unit_fp.len(), 16);
        assert!(unit.unit_fp.chars().all(|c| matches!(c, '0'..='9' | 'a'..='f')));
    }
}
