use globset::{GlobSet, GlobSetBuilder};
use hoverstare::groups::{group, mirror_key};
use hoverstare::output::preview_json;
use hoverstare::output::to_pretty;
use hoverstare::units::{digest_hex, select_with, ReviewUnit, SelectOptions, Selection, UnitSource};
use sha1::{Digest, Sha1};

fn no_ignore() -> GlobSet {
    GlobSetBuilder::new().build().unwrap()
}

fn changed(paths: &[&str]) -> String {
    paths
        .iter()
        .map(|p| {
            format!("diff --git a/{p} b/{p}\n--- a/{p}\n+++ b/{p}\n@@ -1,0 +1,1 @@\n+line of {p}\n")
        })
        .collect()
}

fn plain(paths: &[&str]) -> Selection {
    select_with(&changed(paths), &SelectOptions::new(&no_ignore(), 400))
}

fn grouped(paths: &[&str]) -> Selection {
    select_with(&changed(paths), &SelectOptions::new(&no_ignore(), 400).group_units(true))
}

fn ids(selection: &Selection) -> Vec<&str> {
    selection.units.iter().map(|u| u.unit_id.as_str()).collect()
}

#[test]
fn nothing_is_grouped_by_default() {
    let sel = plain(&["README.md", "README.ja.md"]);
    assert_eq!(ids(&sel), vec!["changeset:README.md", "changeset:README.ja.md"]);
}

#[test]
fn language_variants_share_a_unit_with_a_stable_id() {
    let two = grouped(&["README.md", "src/a.rs", "README.zh-CN.md"]);
    assert_eq!(ids(&two), vec!["changeset:group:README.md", "changeset:src/a.rs"]);
    assert_eq!(two.units[0].files, vec!["README.md", "README.zh-CN.md"]);
    assert_eq!(two.units[0].source, UnitSource::Changeset);
    let three = grouped(&["README.zh-CN.md", "README.ja.md", "README.md"]);
    assert_eq!(ids(&three), vec!["changeset:group:README.md"]);
    assert_eq!(three.units[0].files, vec!["README.ja.md", "README.md", "README.zh-CN.md"]);
    // The text that the others belong to need not change.
    let others = grouped(&["docs/a.ja.md", "docs/a.pt_BR.md"]);
    assert_eq!(ids(&others), vec!["changeset:group:docs/a.md"]);
    let whole = grouped(&["locales/zh-Hans.json", "locales/fr.json"]);
    assert_eq!(ids(&whole), vec!["changeset:group:locales/en.json"]);
}

#[test]
fn directions_and_tests_share_a_unit() {
    let migration = grouped(&["db/1_users.up.sql", "db/1_users.down.sql"]);
    assert_eq!(ids(&migration), vec!["changeset:group:db/1_users.up.sql"]);
    let bare = grouped(&["db/1/down.sql", "db/1/up.sql"]);
    assert_eq!(ids(&bare), vec!["changeset:group:db/1/up.sql"]);
    let tests = grouped(&["a.go", "a_test.go", "b.ts", "b.spec.ts", "b.test.ts", "c.py", "test_c.py"]);
    assert_eq!(
        ids(&tests),
        vec!["changeset:group:a.go", "changeset:group:b.ts", "changeset:group:c.py"]
    );
}

#[test]
fn unrelated_files_keep_their_units() {
    let paths = [
        "a/README.md", "b/README.ja.md", "src/a.rs", "src/a.go", "src/b.rs", "x.up.sql", "x.up.md",
        "_test.go", ".gitignore", "notes.xx.md", "notes.md",
    ];
    let sel = grouped(&paths);
    assert_eq!(ids(&sel), ids(&plain(&paths)));
    assert_eq!(sel.units, plain(&paths).units);
}

#[test]
fn grouping_changes_units_only() {
    let paths = ["README.md", "README.ja.md", "src/a.rs"];
    let one = plain(&paths);
    let other = grouped(&paths);
    assert_eq!(one.text, other.text);
    assert_eq!(one.excluded, other.excluded);
    assert_eq!(one.estimated_tokens, other.estimated_tokens);
    let files: usize = other.units.iter().map(|u| u.files.len()).sum();
    assert_eq!(files, 3);
    let text = to_pretty(&preview_json(&other, false)).unwrap();
    let doc: serde_json::Value = serde_json::from_str(&text).unwrap();
    assert_eq!(doc["units"][0]["unit_id"], "changeset:group:README.md");
    assert_eq!(doc["units"][0]["files"].as_array().unwrap().len(), 2);
}

#[test]
fn a_group_is_fingerprinted_by_its_members() {
    let one = plain(&["README.ja.md", "README.md"]);
    let folded = format!("{}\n{}", one.units[0].unit_fp, one.units[1].unit_fp);
    let sel = grouped(&["README.md", "README.ja.md"]);
    assert_eq!(sel.units[0].unit_fp, digest_hex(&Sha1::digest(folded.as_bytes())));
    assert_eq!(sel.units[0].unit_fp.len(), 16);
}

#[test]
fn the_keys_of_paths() {
    assert_eq!(mirror_key("a.b/c.ja.md"), "a.b/c.md");
    assert_eq!(mirror_key("Makefile"), "Makefile");
    assert_eq!(mirror_key("x/Makefile.ja"), "x/Makefile.ja");
    assert_eq!(mirror_key("x/.env"), "x/.env");
    assert_eq!(mirror_key("test_.py"), "test_.py");
    assert_eq!(mirror_key("down"), "up");
    assert_eq!(mirror_key(""), "");
}

#[test]
fn a_lone_unit_is_left_alone() {
    let bare = |id: &str| ReviewUnit {
        unit_id: id.to_string(),
        source: UnitSource::File,
        files: vec![],
        unit_fp: String::new(),
    };
    assert_eq!(group(&[bare("a")]), vec![bare("a")]);
    assert!(group(&[]).is_empty());
}
