//! The path gates of a strict selection.
//!
//! A strict selection also leaves out files that hold credentials, files that a
//! tool wrote, and files of a kind that nobody reviews. These gates look at the
//! path alone, and nothing in a configuration lifts them.

use vstd::prelude::*;

use crate::diff;
use crate::text;

verus! {

/// Beginnings of the names of files that hold credentials.
pub const SECRET_PREFIXES: [&'static str; 3] = [".env", "id_", "credentials"];

/// Endings of the names of keys and certificates.
pub const SECRET_SUFFIXES: [&'static str; 5] = [".pem", ".key", ".p12", ".pfx", ".jks"];

/// Names of files that hold credentials.
pub const SECRET_NAMES: [&'static str; 5] = [
    ".netrc", ".npmrc", "kubeconfig", "secrets.yml", "secrets.yaml",
];

/// Directories that hold credentials.
pub const SECRET_DIRECTORIES: [&'static str; 1] = [".ssh"];

/// Directories of dependencies and of build output.
pub const OUTPUT_DIRECTORIES: [&'static str; 5] = [
    "node_modules", "vendor", "dist", "build", "target",
];

/// Endings of the names of files that a tool wrote.
pub const OUTPUT_SUFFIXES: [&'static str; 6] = [
    ".min.js", ".min.css", ".map", ".lock", ".pb.go", ".g.dart",
];

/// Names of files that a tool wrote.
pub const OUTPUT_NAMES: [&'static str; 3] = ["package-lock.json", "pnpm-lock.yaml", "go.sum"];

/// Extensions that are reviewed besides those of source, documentation and
/// configuration files.
pub const MORE_EXTENSIONS: [&'static str; 14] = [
    "proto", "graphql", "tf", "tfvars", "hcl", "j2", "hbs", "s", "asm", "sv", "v", "zig", "nix", "sol",
];

/// Names that are reviewed whatever their extension.
pub const REVIEWED_NAMES: [&'static str; 2] = ["go.mod", "go.work"];

/// Beginnings of names that are reviewed whatever follows.
pub const REVIEWED_PREFIXES: [&'static str; 10] = [
    "Dockerfile", "Makefile", "Jenkinsfile", "Vagrantfile", "Procfile", "Rakefile", "Gemfile", "LICENSE",
    ".git", ".editorconfig",
];

/// Whether a name begins with one of the texts of a list.
pub open spec fn begins_any(name: Seq<char>, list: Seq<&str>) -> bool {
    exists|i: int| 0 <= i < list.len() && text::begins(name, (#[trigger] list[i])@)
}

/// Whether a name ends with one of the texts of a list.
pub open spec fn ends_any(name: Seq<char>, list: Seq<&str>) -> bool {
    exists|i: int| 0 <= i < list.len() && text::ends(name, (#[trigger] list[i])@)
}

/// Whether a path leads through a directory.
pub open spec fn inside(path: Seq<char>, directory: Seq<char>) -> bool {
    text::begins(path, directory + "/"@) || text::mentions(path, "/"@ + directory + "/"@)
}

/// Whether a path leads through one of the directories of a list.
pub open spec fn inside_any(path: Seq<char>, list: Seq<&str>) -> bool {
    exists|i: int| 0 <= i < list.len() && inside(path, (#[trigger] list[i])@)
}

/// Whether a file may hold credentials, by its path.
pub open spec fn secret(path: Seq<char>) -> bool {
    let name = text::file_name(path);
    ||| begins_any(name, SECRET_PREFIXES@)
    ||| ends_any(name, SECRET_SUFFIXES@)
    ||| text::listed(SECRET_NAMES@, name)
    ||| text::begins(name, "service-account"@) && text::ends(name, ".json"@)
    ||| text::mentions(name, ".tfstate"@)
    ||| inside_any(path, SECRET_DIRECTORIES@)
}

/// Whether a tool wrote a file, by its path.
pub open spec fn tool_output(path: Seq<char>) -> bool {
    let name = text::file_name(path);
    ||| ends_any(name, OUTPUT_SUFFIXES@)
    ||| text::listed(OUTPUT_NAMES@, name)
    ||| text::mentions(name, ".generated."@)
    ||| inside_any(path, OUTPUT_DIRECTORIES@)
}

/// Whether a file is of a kind that is reviewed, by its name.
pub open spec fn reviewable(path: Seq<char>) -> bool {
    let name = text::file_name(path);
    let ext = text::extension(path);
    ||| text::listed(diff::SOURCE_EXTENSIONS@, ext)
    ||| text::listed(diff::DOC_EXTENSIONS@, ext)
    ||| text::listed(diff::CONFIG_EXTENSIONS@, ext)
    ||| text::listed(MORE_EXTENSIONS@, ext)
    ||| text::listed(REVIEWED_NAMES@, name)
    ||| begins_any(name, REVIEWED_PREFIXES@)
}

fn starts_with_any(name: &[char], list: &[&str]) -> (r: bool)
    ensures
        r == begins_any(name@, list@),
{
    let mut i: usize = 0;
    while i < list.len()
        invariant
            i <= list@.len(),
            forall|k: int| 0 <= k < i ==> !text::begins(name@, (#[trigger] list@[k])@),
        decreases list@.len() - i,
    {
        let item = text::chars_of(list[i]);
        if text::starts_with(name, &item) {
            return true;
        }
        i = i + 1;
    }
    false
}

fn ends_with_any(name: &[char], list: &[&str]) -> (r: bool)
    ensures
        r == ends_any(name@, list@),
{
    let mut i: usize = 0;
    while i < list.len()
        invariant
            i <= list@.len(),
            forall|k: int| 0 <= k < i ==> !text::ends(name@, (#[trigger] list@[k])@),
        decreases list@.len() - i,
    {
        let item = text::chars_of(list[i]);
        if text::ends_with(name, &item) {
            return true;
        }
        i = i + 1;
    }
    false
}

fn leads_through(path: &[char], directory: &str) -> (r: bool)
    ensures
        r == inside(path@, directory@),
{
    let mut at_start = text::chars_of(directory);
    at_start.push('/');
    let mut within: Vec<char> = Vec::new();
    within.push('/');
    text::extend_chars(&mut within, &at_start);
    proof {
        reveal_strlit("/");
        assert("/"@ =~= seq!['/']);
        assert(at_start@ =~= directory@ + "/"@);
        assert(within@ =~= "/"@ + directory@ + "/"@);
    }
    text::starts_with(path, &at_start) || text::contains(path, &within)
}

fn leads_through_any(path: &[char], list: &[&str]) -> (r: bool)
    ensures
        r == inside_any(path@, list@),
{
    let mut i: usize = 0;
    while i < list.len()
        invariant
            i <= list@.len(),
            forall|k: int| 0 <= k < i ==> !inside(path@, (#[trigger] list@[k])@),
        decreases list@.len() - i,
    {
        if leads_through(path, list[i]) {
            return true;
        }
        i = i + 1;
    }
    false
}

/// The last component of a path.
fn name_in(path: &[char]) -> (r: &[char])
    ensures
        r@ == text::file_name(path@),
{
    match text::after_last(path, '/') {
        Some(name) => name,
        None => path,
    }
}

/// Whether a file may hold credentials, by its path given as characters.
pub fn secret_in(path: &[char]) -> (r: bool)
    ensures
        r == secret(path@),
{
    let name = name_in(path);
    let account = text::chars_of("service-account");
    let json = text::chars_of(".json");
    let state = text::chars_of(".tfstate");
    starts_with_any(name, &SECRET_PREFIXES) || ends_with_any(name, &SECRET_SUFFIXES)
        || text::is_listed(&SECRET_NAMES, name) || (text::starts_with(name, &account)
        && text::ends_with(name, &json)) || text::contains(name, &state) || leads_through_any(
        path,
        &SECRET_DIRECTORIES,
    )
}

/// Whether a tool wrote a file, by its path given as characters.
pub fn tool_output_in(path: &[char]) -> (r: bool)
    ensures
        r == tool_output(path@),
{
    let name = name_in(path);
    let generated = text::chars_of(".generated.");
    ends_with_any(name, &OUTPUT_SUFFIXES) || text::is_listed(&OUTPUT_NAMES, name)
        || text::contains(name, &generated) || leads_through_any(path, &OUTPUT_DIRECTORIES)
}

/// Whether a file is of a kind that is reviewed, by its path given as characters.
pub fn reviewable_in(path: &[char]) -> (r: bool)
    ensures
        r == reviewable(path@),
{
    let name = name_in(path);
    let ext = text::extension_in(path);
    text::is_listed(&diff::SOURCE_EXTENSIONS, &ext) || text::is_listed(&diff::DOC_EXTENSIONS, &ext)
        || text::is_listed(&diff::CONFIG_EXTENSIONS, &ext) || text::is_listed(
        &MORE_EXTENSIONS,
        &ext,
    ) || text::is_listed(&REVIEWED_NAMES, name) || starts_with_any(name, &REVIEWED_PREFIXES)
}

/// Whether a file may hold credentials.
pub fn is_secret_path(path: &str) -> (r: bool)
    ensures
        r == secret(path@),
{
    let chars = text::chars_of(path);
    secret_in(&chars)
}

/// Whether a tool wrote a file.
pub fn is_default_path(path: &str) -> (r: bool)
    ensures
        r == tool_output(path@),
{
    let chars = text::chars_of(path);
    tool_output_in(&chars)
}

/// Whether a file is of a kind that is reviewed.
pub fn is_reviewable_path(path: &str) -> (r: bool)
    ensures
        r == reviewable(path@),
{
    let chars = text::chars_of(path);
    reviewable_in(&chars)
}

} // verus!
