use hoverstare::diff::{
    file_count, looks_generated, path_priority, section_path, split_sections, truncate_text,
};

fn file(path: &str, lines: usize) -> String {
    let mut s = format!("diff --git a/{path} b/{path}\n--- a/{path}\n+++ b/{path}\n@@ -0,0 +1 @@\n");
    for i in 0..lines {
        s.push_str(&format!("+{i:04}\n"));
    }
    s
}

#[test]
fn sections_put_together_are_the_diff() {
    let text = format!("preamble\n{}{}tail without newline", file("a.rs", 2), file("b.md", 1));
    let parts = split_sections(&text);
    assert_eq!(parts.len(), 3);
    assert_eq!(parts[0], "preamble\n");
    assert_eq!(parts.concat(), text);
    assert!(split_sections("").is_empty());
}

#[test]
fn paths_come_from_the_header() {
    assert_eq!(section_path(&file("src/a.rs", 1)).as_deref(), Some("src/a.rs"));
    let deleted = "diff --git a/x b/x\n--- a/x\n+++ /dev/null\n@@ -1 +0,0 @@\n-y\n";
    assert_eq!(section_path(deleted).as_deref(), Some("x"));
    let renamed = "diff --git a/old name b/new name\nsimilarity index 100%\nrename from old name\n";
    assert_eq!(section_path(renamed).as_deref(), Some("new name"));
    assert_eq!(section_path("no header\n"), None);
    // A line of a hunk is no header.
    let hunk = "diff --git a/x b/x\n@@ -1 +1 @@\n+++ b/other\n";
    assert_eq!(section_path(hunk).as_deref(), Some("x"));
}

#[test]
fn generated_marker_counts_in_the_first_added_lines() {
    let head = "diff --git a/x b/x\n--- a/x\n+++ b/x\n@@ -0,0 +1 @@\n";
    let marker = "+// Code generated by x. DO NOT EDIT.\n";
    assert!(looks_generated(&format!("{head}+1\n+2\n+3\n+4\n{marker}")));
    assert!(!looks_generated(&format!("{head}+1\n+2\n+3\n+4\n+5\n{marker}")));
    assert!(!looks_generated(&format!("{head} // Code generated by x. DO NOT EDIT.\n")));
    assert!(!looks_generated(&format!("{head}+DO NOT EDIT. Code generated\n")));
}

#[test]
fn priorities_of_paths() {
    assert_eq!(path_priority("src/main.rs"), 0);
    assert_eq!(path_priority("assets/logo.psd"), 1);
    assert_eq!(path_priority("README.MD"), 2);
    assert_eq!(path_priority("Cargo.lock"), 3);
}

#[test]
fn budget_drops_by_priority_and_keeps_the_first() {
    let text = format!(
        "{}{}{}{}",
        file("z.lock", 100),
        file("a.rs", 100),
        file("doc.md", 100),
        file("b.toml", 100)
    );
    let cut = truncate_text(&text, 1);
    assert_eq!(cut.truncated_files, vec!["b.toml", "doc.md", "a.rs"]);
    assert_eq!(cut.text, file("z.lock", 100));
    let all = truncate_text(&text, 100);
    assert_eq!(all.text, text);
    assert!(all.truncated_files.is_empty());
}

#[test]
fn files_are_counted() {
    assert_eq!(file_count(&format!("x\n{}{}", file("a", 1), file("b", 1))), 2);
    assert_eq!(file_count("nothing"), 0);
}

#[test]
fn a_budget_keeps_whole_sections() {
    let parts = [file("a.rs", 50), file("b.lock", 200), file("c.rs", 50)];
    let cut = truncate_text(&parts.concat(), 1);
    assert_eq!(split_sections(&cut.text), vec![parts[0].clone(), parts[2].clone()]);
    assert!(cut.text.len() <= 1024);
    // Kept and dropped are all there is.
    assert_eq!(split_sections(&cut.text).len() + cut.truncated_files.len(), parts.len());
}

#[test]
fn of_equal_files_the_latest_goes_first() {
    let parts = [file("a.rs", 100), file("b.rs", 100), file("c.rs", 100)];
    assert_eq!(truncate_text(&parts.concat(), 1).truncated_files, vec!["c.rs", "b.rs"]);
}

#[test]
fn a_budget_counts_bytes() {
    let head = file("a.rs", 1);
    // Two bytes for each of the letters: over the budget by bytes, not by characters.
    let second = format!("diff --git a/b.rs b/b.rs\n--- a/b.rs\n+++ b/b.rs\n@@ -0,0 +1 @@\n+{}\n", "ä".repeat(500));
    let text = format!("{head}{second}");
    assert!(text.chars().count() <= 1024 && text.len() > 1024);
    assert_eq!(truncate_text(&text, 1).truncated_files, vec!["b.rs"]);
}
