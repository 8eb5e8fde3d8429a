//! Unified diffs: sections, paths and the size budget.
//!
//! A diff is split into sections, one per changed file. Splitting loses no
//! character, so every decision taken on sections is a decision on the text.

use globset::GlobSet;
use vstd::prelude::*;
use vstd::slice::slice_subrange;

use crate::glob;
use crate::text;
use crate::units;

verus! {

/// Result of applying the size budget to a diff.
#[derive(Debug, Clone, PartialEq, Eq)]
pub struct Truncation {
    /// The sections that were kept, one after the other.
    pub text: String,
    /// Paths of the dropped files, in the order in which they were dropped.
    pub truncated_files: Vec<String>,
}

/// Added lines that are searched for the generated-code marker.
pub const GENERATED_HEAD_LINES: usize = 5;

/// Extensions of source files.
pub const SOURCE_EXTENSIONS: [&'static str; 44] = [
    "rs", "go", "py", "js", "jsx", "ts", "tsx", "mjs", "cjs", "java", "kt", "kts", "scala", "c", "h",
    "cc", "cpp", "cxx", "hpp", "cs", "swift", "m", "mm", "rb", "php", "pl", "lua", "sh", "bash", "zsh",
    "ps1", "sql", "r", "jl", "dart", "ex", "exs", "erl", "hs", "ml", "clj", "vue", "svelte", "groovy",
];

/// Extensions of documentation files.
pub const DOC_EXTENSIONS: [&'static str; 6] = ["md", "mdx", "rst", "txt", "adoc", "org"];

/// Extensions of configuration, data and lock files.
pub const CONFIG_EXTENSIONS: [&'static str; 14] = [
    "lock", "json", "json5", "yaml", "yml", "toml", "ini", "cfg", "conf", "xml", "sum", "properties",
    "csv", "svg",
];

// ---------------------------------------------------------------------------
// Sections
// ---------------------------------------------------------------------------

/// Whether a line opens the section of a file.
pub open spec fn opens_section(line: Seq<char>) -> bool {
    text::begins(line, "diff --git "@)
}

/// Lines grouped into sections: a section runs from an opening line to the next.
/// Lines before the first opening line form a section of their own.
pub open spec fn grouped(lines: Seq<Seq<char>>) -> Seq<Seq<char>>
    decreases lines.len(),
{
    if lines.len() == 0 {
        Seq::empty()
    } else {
        let done = grouped(lines.drop_last());
        if opens_section(lines.last()) || done.len() == 0 {
            done.push(lines.last())
        } else {
            done.update(done.len() - 1, done.last() + lines.last())
        }
    }
}

/// The sections of a diff.
pub open spec fn sections(input: Seq<char>) -> Seq<Seq<char>> {
    grouped(text::raw_lines(input))
}

/// Grouping lines keeps every character in place.
proof fn lemma_grouped_concat(lines: Seq<Seq<char>>)
    ensures
        text::concat(grouped(lines)) == text::concat(lines),
    decreases lines.len(),
{
    if lines.len() > 0 {
        let before = lines.drop_last();
        let done = grouped(before);
        lemma_grouped_concat(before);
        if opens_section(lines.last()) || done.len() == 0 {
            text::lemma_concat_push(done, lines.last());
        } else {
            let merged = done.update(done.len() - 1, done.last() + lines.last());
            assert(merged.drop_last() =~= done.drop_last());
            assert(text::concat(merged) =~= text::concat(done.drop_last()) + done.last()
                + lines.last());
        }
    }
}

/// The sections of a diff, put one after the other, are the diff.
pub proof fn law_sections_partition(input: Seq<char>)
    ensures
        text::concat(sections(input)) == input,
{
    lemma_grouped_concat(text::raw_lines(input));
    text::lemma_raw_lines_concat(input);
}

/// Sections as splitting makes them: none is empty, each but the last ends a line,
/// each but the first begins with an opening line, and no other line opens one.
pub open spec fn well_cut(secs: Seq<Seq<char>>) -> bool {
    forall|i: int|
        0 <= i < secs.len() ==> {
            &&& (#[trigger] secs[i]).len() > 0
            &&& i < secs.len() - 1 ==> secs[i].last() == '\n'
            &&& i > 0 ==> opens_section(text::raw_lines(secs[i])[0])
            &&& one_opening(secs[i])
        }
}

/// Whether no line of a section but the first opens a section.
pub open spec fn one_opening(section: Seq<char>) -> bool {
    forall|k: int|
        1 <= k < text::raw_lines(section).len() ==> !opens_section(
            #[trigger] text::raw_lines(section)[k],
        )
}

/// A line alone is a text of one line.
proof fn lemma_single_line(line: Seq<char>)
    requires
        line.len() > 0,
        forall|k: int| 0 <= k < line.len() - 1 ==> line[k] != '\n',
    ensures
        text::raw_lines(line) == seq![line],
{
    text::lemma_lines_of_concat(seq![line]);
    text::lemma_concat_one(line);
}

/// Grouping lines makes sections that are well cut.
proof fn lemma_grouped_is_well_cut(lines: Seq<Seq<char>>)
    requires
        text::line_list(lines),
    ensures
        well_cut(grouped(lines)),
        lines.len() > 0 ==> grouped(lines).len() > 0 && grouped(lines).last().last()
            == lines.last().last(),
    decreases lines.len(),
{
    if lines.len() > 0 {
        let before = lines.drop_last();
        let line = lines.last();
        let done = grouped(before);
        assert(line == lines[lines.len() - 1]);
        assert forall|i: int| 0 <= i < before.len() implies {
            &&& (#[trigger] before[i]).len() > 0
            &&& forall|k: int| 0 <= k < before[i].len() - 1 ==> before[i][k] != '\n'
            &&& i < before.len() - 1 ==> before[i].last() == '\n'
        } by {
            assert(before[i] == lines[i]);
        }
        if before.len() > 0 {
            assert(before.last() == lines[lines.len() - 2]);
        }
        lemma_grouped_is_well_cut(before);
        lemma_single_line(line);
        let all = grouped(lines);
        if opens_section(line) || done.len() == 0 {
            assert forall|i: int| 0 <= i < all.len() implies {
                &&& (#[trigger] all[i]).len() > 0
                &&& i < all.len() - 1 ==> all[i].last() == '\n'
                &&& i > 0 ==> opens_section(text::raw_lines(all[i])[0])
                &&& one_opening(all[i])
            } by {
                if i < done.len() {
                    assert(all[i] == done[i]);
                    if i == done.len() - 1 {
                        assert(done.last() == done[i]);
                        assert(before.len() > 0);
                    }
                }
            }
        } else {
            let joined = done.last() + line;
            assert(before.len() > 0);
            text::lemma_raw_lines_append(done.last(), line);
            text::lemma_raw_lines_are_lines(done.last());
            let head = text::raw_lines(done.last());
            assert(done.last() == done[done.len() - 1]);
            assert(text::raw_lines(joined) == head + seq![line]);
            assert forall|k: int| 1 <= k < text::raw_lines(joined).len() implies !opens_section(
                #[trigger] text::raw_lines(joined)[k],
            ) by {
                if k < head.len() {
                    assert(text::raw_lines(joined)[k] == head[k]);
                }
            }
            assert forall|i: int| 0 <= i < all.len() implies {
                &&& (#[trigger] all[i]).len() > 0
                &&& i < all.len() - 1 ==> all[i].last() == '\n'
                &&& i > 0 ==> opens_section(text::raw_lines(all[i])[0])
                &&& one_opening(all[i])
            } by {
                if i < done.len() - 1 {
                    assert(all[i] == done[i]);
                } else {
                    assert(all[i] == joined);
                    assert(text::raw_lines(joined)[0] == head[0]);
                }
            }
        }
    }
}

/// The sections of a diff are well cut.
pub proof fn lemma_sections_are_well_cut(input: Seq<char>)
    ensures
        well_cut(sections(input)),
{
    text::lemma_raw_lines_are_lines(input);
    lemma_grouped_is_well_cut(text::raw_lines(input));
}

/// The lines of one section, grouped behind other lines, are one more section.
proof fn lemma_grouped_adds_a_section(before: Seq<Seq<char>>, lines: Seq<Seq<char>>)
    requires
        lines.len() > 0,
        before.len() == 0 || opens_section(lines[0]),
        forall|k: int| 1 <= k < lines.len() ==> !opens_section(#[trigger] lines[k]),
    ensures
        grouped(before + lines) == grouped(before).push(text::concat(lines)),
    decreases lines.len(),
{
    let all = before + lines;
    let front = lines.drop_last();
    assert(all.drop_last() =~= before + front);
    assert(all.last() == lines.last());
    text::lemma_concat_push(front, lines.last());
    assert(front.push(lines.last()) =~= lines);
    if lines.len() == 1 {
        assert(before + front =~= before);
        assert(text::concat(front) =~= Seq::empty());
        assert(text::concat(lines) =~= lines.last());
        if before.len() == 0 {
            assert(before =~= Seq::empty());
        }
    } else {
        assert forall|k: int| 1 <= k < front.len() implies !opens_section(#[trigger] front[k]) by {
            assert(front[k] == lines[k]);
        }
        lemma_grouped_adds_a_section(before, front);
        assert(lines.last() == lines[lines.len() - 1]);
        assert(grouped(all) =~= grouped(before).push(text::concat(lines)));
    }
}

/// Well-cut sections are read back from the text that they make.
pub proof fn lemma_well_cut_is_read_back(secs: Seq<Seq<char>>)
    requires
        well_cut(secs),
    ensures
        sections(text::concat(secs)) == secs,
    decreases secs.len(),
{
    if secs.len() > 0 {
        let front = secs.drop_last();
        let last = secs.last();
        let head = text::concat(front);
        assert(last == secs[secs.len() - 1]);
        assert forall|i: int| 0 <= i < front.len() implies {
            &&& (#[trigger] front[i]).len() > 0
            &&& i < front.len() - 1 ==> front[i].last() == '\n'
            &&& i > 0 ==> opens_section(text::raw_lines(front[i])[0])
            &&& one_opening(front[i])
        } by {
            assert(front[i] == secs[i]);
        }
        lemma_well_cut_is_read_back(front);
        if front.len() > 0 {
            assert(front.last() == secs[secs.len() - 2]);
            assert(head.last() == front.last().last());
        }
        text::lemma_raw_lines_append(head, last);
        text::lemma_raw_lines_are_lines(last);
        text::lemma_raw_lines_are_lines(head);
        text::lemma_raw_lines_concat(last);
        lemma_grouped_adds_a_section(text::raw_lines(head), text::raw_lines(last));
        assert(front.push(last) =~= secs);
    } else {
        text::lemma_raw_lines_are_lines(text::concat(secs));
        assert(sections(text::concat(secs)) =~= secs);
    }
}

/// The sections of a diff given as characters.
pub fn sections_of(input: &[char]) -> (r: Vec<Vec<char>>)
    ensures
        text::char_views(r@) == sections(input@),
{
    let marker = text::chars_of("diff --git ");
    let lines = text::split_lines(input);
    let ghost all = text::raw_lines(input@);
    let mut out: Vec<Vec<char>> = Vec::new();
    let mut i: usize = 0;
    assert(all.take(0) =~= Seq::empty());
    assert(text::char_views(out@) =~= grouped(all.take(0)));
    while i < lines.len()
        invariant
            i <= lines@.len(),
            text::char_views(lines@) == all,
            marker@ == "diff --git "@,
            text::char_views(out@) == grouped(all.take(i as int)),
        decreases lines@.len() - i,
    {
        proof {
            assert(all.take(i + 1).drop_last() =~= all.take(i as int));
            assert(all.take(i + 1).last() == lines@[i as int]@);
        }
        let n: usize = out.len();
        let ghost done = out@;
        if text::starts_with(&lines[i], &marker) || n == 0 {
            out.push(text::copy_chars(&lines[i]));
            assert(text::char_views(out@) =~= text::char_views(done).push(lines@[i as int]@));
        } else {
            let mut last = out.pop().unwrap();
            text::extend_chars(&mut last, &lines[i]);
            out.push(last);
            assert(text::char_views(out@) =~= text::char_views(done).update(
                done.len() - 1,
                text::char_views(done).last() + lines@[i as int]@,
            ));
        }
        i = i + 1;
    }
    assert(all.take(i as int) =~= all);
    out
}

/// Strings made of rows of characters.
pub fn strings_of(rows: &[Vec<char>]) -> (r: Vec<String>)
    ensures
        text::views(r@) == text::char_views(rows@),
{
    let mut out: Vec<String> = Vec::new();
    let mut i: usize = 0;
    while i < rows.len()
        invariant
            i <= rows@.len(),
            text::views(out@) == text::char_views(rows@).take(i as int),
        decreases rows@.len() - i,
    {
        let ghost before = out@;
        out.push(text::string_of(&rows[i]));
        proof {
            text::lemma_views_push(before, out@.last());
            assert(text::char_views(rows@).take(i + 1) =~= text::char_views(rows@).take(
                i as int,
            ).push(rows@[i as int]@));
        }
        i = i + 1;
    }
    assert(text::char_views(rows@).take(i as int) =~= text::char_views(rows@));
    out
}

/// Split a diff into its sections.
pub fn split_sections(input: &str) -> (r: Vec<String>)
    ensures
        text::views(r@) == sections(input@),
{
    let chars = text::chars_of(input);
    let rows = sections_of(&chars);
    strings_of(&rows)
}

// ---------------------------------------------------------------------------
// Paths
// ---------------------------------------------------------------------------

/// What follows `prefix` on the first line that begins with it, among the lines
/// before the first hunk.
pub open spec fn header_field(lines: Seq<Seq<char>>, prefix: Seq<char>) -> Option<Seq<char>>
    decreases lines.len(),
{
    if lines.len() == 0 || text::begins(lines[0], "@@"@) {
        None
    } else if text::begins(lines[0], prefix) {
        Some(lines[0].skip(prefix.len() as int))
    } else {
        header_field(lines.drop_first(), prefix)
    }
}

/// The path of a section: the new name, for a deleted file the old one, and
/// without either the name that the opening line gives.
pub open spec fn path_of(section: Seq<char>) -> Option<Seq<char>> {
    let lines = text::lines(section);
    match header_field(lines, "+++ b/"@) {
        Some(path) => Some(path),
        None => match header_field(lines, "--- a/"@) {
            Some(path) => Some(path),
            None => match header_field(lines, "diff --git "@) {
                Some(names) => if text::last_occurrence(names, " b/"@) >= 0 {
                    Some(names.skip(text::last_occurrence(names, " b/"@) + " b/"@.len()))
                } else {
                    None
                },
                None => None,
            },
        },
    }
}

/// The lines of a section, without their terminators.
fn lines_of(section: &[char]) -> (r: Vec<Vec<char>>)
    ensures
        text::char_views(r@) == text::lines(section@),
{
    let raw = text::split_lines(section);
    let mut out: Vec<Vec<char>> = Vec::new();
    let mut i: usize = 0;
    while i < raw.len()
        invariant
            i <= raw@.len(),
            text::char_views(raw@) == text::raw_lines(section@),
            text::char_views(out@) == text::lines(section@).take(i as int),
        decreases raw@.len() - i,
    {
        let ghost before = out@;
        out.push(text::copy_chars(text::strip_eol(&raw[i])));
        proof {
            assert(text::raw_lines(section@)[i as int] == raw@[i as int]@);
            assert(text::char_views(out@) =~= text::char_views(before).push(out@.last()@));
            assert(text::lines(section@).take(i + 1) =~= text::lines(section@).take(
                i as int,
            ).push(text::without_eol(raw@[i as int]@)));
        }
        i = i + 1;
    }
    assert(text::lines(section@).take(i as int) =~= text::lines(section@));
    out
}

/// Find a field among the header lines.
fn find_field(lines: &[Vec<char>], prefix: &str) -> (r: Option<Vec<char>>)
    ensures
        match r {
            Some(v) => header_field(text::char_views(lines@), prefix@) == Some(v@),
            None => header_field(text::char_views(lines@), prefix@) is None,
        },
{
    let hunk = text::chars_of("@@");
    let wanted = text::chars_of(prefix);
    let ghost all = text::char_views(lines@);
    let mut i: usize = 0;
    assert(all.skip(0) =~= all);
    while i < lines.len()
        invariant
            i <= lines@.len(),
            all == text::char_views(lines@),
            hunk@ == "@@"@,
            wanted@ == prefix@,
            header_field(all, prefix@) == header_field(all.skip(i as int), prefix@),
        decreases lines@.len() - i,
    {
        assert(all.skip(i as int)[0] == lines@[i as int]@);
        assert(all.skip(i as int).drop_first() =~= all.skip(i + 1));
        if text::starts_with(&lines[i], &hunk) {
            return None;
        }
        if text::starts_with(&lines[i], &wanted) {
            let n: usize = wanted.len();
            assert(lines@[i as int]@.skip(n as int) =~= lines@[i as int]@.subrange(
                n as int,
                lines@[i as int]@.len() as int,
            ));
            return Some(text::copy_chars(slice_subrange(&lines[i], n, lines[i].len())));
        }
        i = i + 1;
    }
    None
}

/// The path of a section given as characters.
pub fn path_in(section: &[char]) -> (r: Option<Vec<char>>)
    ensures
        match r {
            Some(v) => path_of(section@) == Some(v@),
            None => path_of(section@) is None,
        },
{
    let lines = lines_of(section);
    if let Some(path) = find_field(&lines, "+++ b/") {
        return Some(path);
    }
    if let Some(path) = find_field(&lines, "--- a/") {
        return Some(path);
    }
    match find_field(&lines, "diff --git ") {
        Some(names) => {
            let marker = text::chars_of(" b/");
            match text::after_last_text(&names, &marker) {
                Some(path) => Some(text::copy_chars(path)),
                None => None,
            }
        },
        None => None,
    }
}

/// The path of the file that a section changes.
pub fn section_path(section: &str) -> (r: Option<String>)
    ensures
        text::opt_view(r) == path_of(section@),
{
    let chars = text::chars_of(section);
    match path_in(&chars) {
        Some(path) => Some(text::string_of(&path)),
        None => None,
    }
}

// ---------------------------------------------------------------------------
// Content heuristics
// ---------------------------------------------------------------------------

/// An added line of a hunk.
pub open spec fn is_added(line: Seq<char>) -> bool {
    text::begins(line, "+"@) && !text::begins(line, "+++"@)
}

/// `Code generated`, and `DO NOT EDIT` after it.
pub open spec fn generated_marker(line: Seq<char>) -> bool {
    exists|i: int|
        #[trigger] text::occurs_at(line, "Code generated"@, i) && text::mentions(
            line.skip(i),
            "DO NOT EDIT"@,
        )
}

/// Whether one of the first `n` added lines has the marker.
pub open spec fn generated_within(lines: Seq<Seq<char>>, n: nat) -> bool
    decreases lines.len(),
{
    if lines.len() == 0 || n == 0 {
        false
    } else if is_added(lines[0]) {
        generated_marker(lines[0]) || generated_within(lines.drop_first(), (n - 1) as nat)
    } else {
        generated_within(lines.drop_first(), n)
    }
}

/// Whether a section reads like generated code.
pub open spec fn is_generated(section: Seq<char>) -> bool {
    generated_within(text::lines(section), GENERATED_HEAD_LINES as nat)
}

/// Whether a line has the generated-code marker.
fn has_marker(line: &[char]) -> (r: bool)
    ensures
        r == generated_marker(line@),
{
    let first = text::chars_of("Code generated");
    let second = text::chars_of("DO NOT EDIT");
    let mut i: usize = 0;
    loop
        invariant
            i <= line@.len(),
            first@ == "Code generated"@,
            second@ == "DO NOT EDIT"@,
            forall|k: int|
                0 <= k < i && #[trigger] text::occurs_at(line@, first@, k) ==> !text::mentions(
                    line@.skip(k),
                    second@,
                ),
        decreases line@.len() - i,
    {
        if text::is_at(line, &first, i) {
            let rest = slice_subrange(line, i, line.len());
            assert(rest@ =~= line@.skip(i as int));
            if text::contains(rest, &second) {
                return true;
            }
        }
        if i == line.len() {
            return false;
        }
        i = i + 1;
    }
}

/// Whether a section given as characters reads like generated code.
pub fn generated_in(section: &[char]) -> (r: bool)
    ensures
        r == is_generated(section@),
{
    let plus = text::chars_of("+");
    let file = text::chars_of("+++");
    let lines = lines_of(section);
    let ghost all = text::lines(section@);
    let mut left: usize = GENERATED_HEAD_LINES;
    let mut i: usize = 0;
    assert(all.skip(0) =~= all);
    while i < lines.len() && left > 0
        invariant
            i <= lines@.len(),
            all == text::char_views(lines@),
            all == text::lines(section@),
            plus@ == "+"@,
            file@ == "+++"@,
            generated_within(all, GENERATED_HEAD_LINES as nat) == generated_within(
                all.skip(i as int),
                left as nat,
            ),
        decreases lines@.len() - i,
    {
        assert(all.skip(i as int)[0] == lines@[i as int]@);
        assert(all.skip(i as int).drop_first() =~= all.skip(i + 1));
        if text::starts_with(&lines[i], &plus) && !text::starts_with(&lines[i], &file) {
            if has_marker(&lines[i]) {
                return true;
            }
            left = left - 1;
        }
        i = i + 1;
    }
    false
}

/// Whether one of the first added lines carries the usual generated-code marker.
pub fn looks_generated(section: &str) -> (r: bool)
    ensures
        r == is_generated(section@),
{
    let chars = text::chars_of(section);
    generated_in(&chars)
}

/// Whether a section deletes its whole file.
pub open spec fn deletes_file(section: Seq<char>) -> bool {
    text::lines(section).contains("+++ /dev/null"@)
}

/// Whether a section given as characters deletes its whole file.
pub fn deletes_in(section: &[char]) -> (r: bool)
    ensures
        r == deletes_file(section@),
{
    let marker = text::chars_of("+++ /dev/null");
    let lines = lines_of(section);
    let mut i: usize = 0;
    while i < lines.len()
        invariant
            i <= lines@.len(),
            text::char_views(lines@) == text::lines(section@),
            marker@ == "+++ /dev/null"@,
            forall|k: int| 0 <= k < i ==> (#[trigger] text::lines(section@)[k]) != marker@,
        decreases lines@.len() - i,
    {
        assert(text::lines(section@)[i as int] == lines@[i as int]@);
        if text::same_chars(&lines[i], &marker) {
            return true;
        }
        i = i + 1;
    }
    false
}

// ---------------------------------------------------------------------------
// Size budget
// ---------------------------------------------------------------------------

/// How readily a file is given up: 0 source, 1 other, 2 documentation,
/// 3 configuration and lock files. Higher goes first.
pub open spec fn priority(path: Seq<char>) -> int {
    let ext = text::extension(path);
    if text::listed(SOURCE_EXTENSIONS@, ext) {
        0
    } else if text::listed(DOC_EXTENSIONS@, ext) {
        2
    } else if text::listed(CONFIG_EXTENSIONS@, ext) {
        3
    } else {
        1
    }
}

/// The priority of a path given as characters.
fn priority_in(path: &[char]) -> (r: u8)
    ensures
        r == priority(path@),
{
    let ext = text::extension_in(path);
    if text::is_listed(&SOURCE_EXTENSIONS, &ext) {
        0
    } else if text::is_listed(&DOC_EXTENSIONS, &ext) {
        2
    } else if text::is_listed(&CONFIG_EXTENSIONS, &ext) {
        3
    } else {
        1
    }
}

/// How readily a file is given up when a diff is over its budget.
pub fn path_priority(path: &str) -> (r: u8)
    ensures
        r == priority(path@),
{
    let chars = text::chars_of(path);
    priority_in(&chars)
}

/// Whether a section names a file.
pub open spec fn names_file(section: Seq<char>) -> bool {
    path_of(section) is Some
}

/// Whether a section may be dropped: it names a file, and not the first one.
pub open spec fn droppable(secs: Seq<Seq<char>>, i: int) -> bool {
    &&& 0 <= i < secs.len()
    &&& names_file(secs[i])
    &&& exists|j: int| 0 <= j < i && names_file(#[trigger] secs[j])
}

/// The priority of the file that a section names.
pub open spec fn rank(section: Seq<char>) -> int {
    match path_of(section) {
        Some(path) => priority(path),
        None => 0,
    }
}

/// The section to drop among the first `n`: highest rank, then latest; -1 where
/// none may be dropped.
pub open spec fn worst_of(secs: Seq<Seq<char>>, n: int) -> int
    decreases n,
{
    if n <= 0 {
        -1
    } else {
        let w = worst_of(secs, n - 1);
        if droppable(secs, n - 1) && (w < 0 || rank(secs[n - 1]) >= rank(secs[w])) {
            n - 1
        } else {
            w
        }
    }
}

/// The section to drop, or -1.
pub open spec fn worst(secs: Seq<Seq<char>>) -> int {
    worst_of(secs, secs.len() as int)
}

/// Sections kept within `budget` bytes, and the paths of those dropped, in order.
pub open spec fn shrunk(secs: Seq<Seq<char>>, budget: nat) -> (Seq<Seq<char>>, Seq<Seq<char>>)
    decreases secs.len(),
{
    let w = worst(secs);
    if text::byte_len(text::concat(secs)) <= budget || w < 0 || w >= secs.len() {
        (secs, Seq::empty())
    } else {
        let (kept, dropped) = shrunk(secs.remove(w), budget);
        (kept, seq![path_of(secs[w])->0] + dropped)
    }
}

/// What the budget leaves of a diff.
pub open spec fn budgeted(input: Seq<char>, kb: nat) -> (Seq<char>, Seq<Seq<char>>) {
    let (kept, dropped) = shrunk(sections(input), kb * 1024);
    (text::concat(kept), dropped)
}

/// What `worst_of` is: the droppable section of highest rank, the latest of them.
proof fn lemma_worst_of(secs: Seq<Seq<char>>, n: int)
    requires
        0 <= n <= secs.len(),
    ensures
        -1 <= worst_of(secs, n) < n || n == 0,
        worst_of(secs, n) >= 0 ==> droppable(secs, worst_of(secs, n)),
        forall|i: int|
            0 <= i < n && #[trigger] droppable(secs, i) ==> worst_of(secs, n) >= 0 && (rank(secs[i])
                < rank(secs[worst_of(secs, n)]) || (rank(secs[i]) == rank(
                secs[worst_of(secs, n)],
            ) && i <= worst_of(secs, n))),
    decreases n,
{
    if n > 0 {
        lemma_worst_of(secs, n - 1);
    }
}

/// The file that is given up first: of those that may be dropped, one of the
/// highest rank, and among equals the latest.
pub proof fn law_worst_is_dropped_first(secs: Seq<Seq<char>>, i: int)
    requires
        droppable(secs, i),
    ensures
        droppable(secs, worst(secs)),
        rank(secs[i]) <= rank(secs[worst(secs)]),
        rank(secs[i]) == rank(secs[worst(secs)]) ==> i <= worst(secs),
{
    lemma_worst_of(secs, secs.len() as int);
}

/// A diff that fits its budget is left alone.
pub proof fn law_budget_keeps_what_fits(input: Seq<char>, kb: nat)
    requires
        text::byte_len(input) <= kb * 1024,
    ensures
        budgeted(input, kb) == (input, Seq::<Seq<char>>::empty()),
{
    law_sections_partition(input);
}

/// The first file, and all that stands before it, survives any budget.
pub proof fn law_first_file_survives(secs: Seq<Seq<char>>, budget: nat, first: int)
    requires
        0 <= first < secs.len(),
        names_file(secs[first]),
        forall|j: int| 0 <= j < first ==> !names_file(#[trigger] secs[j]),
    ensures
        shrunk(secs, budget).0.len() > first,
        shrunk(secs, budget).0.take(first + 1) == secs.take(first + 1),
    decreases secs.len(),
{
    let w = worst(secs);
    lemma_worst_of(secs, secs.len() as int);
    if !(text::byte_len(text::concat(secs)) <= budget || w < 0 || w >= secs.len()) {
        assert(w > first);
        let rest = secs.remove(w);
        assert forall|j: int| 0 <= j < first implies !names_file(#[trigger] rest[j]) by {
            assert(rest[j] == secs[j]);
        }
        law_first_file_survives(rest, budget, first);
        assert(rest.take(first + 1) =~= secs.take(first + 1));
    }
}

/// The budget is met, unless nothing is left that may be dropped.
pub proof fn law_budget_is_met(secs: Seq<Seq<char>>, budget: nat)
    ensures
        text::byte_len(text::concat(shrunk(secs, budget).0)) <= budget || forall|i: int|
            !droppable(shrunk(secs, budget).0, i),
    decreases secs.len(),
{
    let w = worst(secs);
    lemma_worst_of(secs, secs.len() as int);
    if !(text::byte_len(text::concat(secs)) <= budget || w < 0 || w >= secs.len()) {
        law_budget_is_met(secs.remove(w), budget);
        assert(shrunk(secs, budget).0 == shrunk(secs.remove(w), budget).0);
    } else if w < 0 {
        assert(shrunk(secs, budget).0 == secs);
        assert forall|i: int| !droppable(secs, i) by {
            if droppable(secs, i) {
                law_worst_is_dropped_first(secs, i);
            }
        }
    }
}

/// No file disappears silently: what is not kept is reported as dropped, and
/// nothing is reported that was kept.
pub proof fn law_budget_accounts_for_every_section(secs: Seq<Seq<char>>, budget: nat)
    ensures
        shrunk(secs, budget).0.len() + shrunk(secs, budget).1.len() == secs.len(),
        forall|i: int|
            0 <= i < secs.len() ==> shrunk(secs, budget).0.contains(#[trigger] secs[i]) || (
            names_file(secs[i]) && shrunk(secs, budget).1.contains(path_of(secs[i])->0)),
    decreases secs.len(),
{
    let w = worst(secs);
    lemma_worst_of(secs, secs.len() as int);
    if !(text::byte_len(text::concat(secs)) <= budget || w < 0 || w >= secs.len()) {
        let rest = secs.remove(w);
        law_budget_accounts_for_every_section(rest, budget);
        let (kept, dropped) = shrunk(rest, budget);
        let gone = seq![path_of(secs[w])->0] + dropped;
        assert forall|i: int| 0 <= i < secs.len() implies kept.contains(#[trigger] secs[i]) || (
        names_file(secs[i]) && gone.contains(path_of(secs[i])->0)) by {
            if i == w {
                assert(gone[0] == path_of(secs[w])->0);
            } else {
                let k = if i < w { i } else { i - 1 };
                assert(rest[k] == secs[i]);
                if !kept.contains(rest[k]) {
                    let d = choose|d: int|
                        0 <= d < dropped.len() && dropped[d] == path_of(rest[k])->0;
                    assert(gone[d + 1] == dropped[d]);
                }
            }
        }
    }
}

/// A dropped path is that of a section.
pub proof fn lemma_dropped_source(secs: Seq<Seq<char>>, budget: nat, a: int) -> (i: int)
    requires
        0 <= a < shrunk(secs, budget).1.len(),
    ensures
        0 <= i < secs.len(),
        path_of(secs[i]) == Some(shrunk(secs, budget).1[a]),
    decreases secs.len(),
{
    let w = worst(secs);
    lemma_worst_of(secs, secs.len() as int);
    let rest = secs.remove(w);
    let dropped = shrunk(rest, budget).1;
    assert(shrunk(secs, budget).1 == seq![path_of(secs[w])->0] + dropped);
    if a == 0 {
        assert(droppable(secs, w));
        w
    } else {
        let k = lemma_dropped_source(rest, budget, a - 1);
        let i = if k < w { k } else { k + 1 };
        assert(rest[k] == secs[i]);
        assert(shrunk(secs, budget).1[a] == dropped[a - 1]);
        i
    }
}

/// No section is dropped twice.
pub proof fn lemma_dropped_pair(secs: Seq<Seq<char>>, budget: nat, a: int, b: int) -> (at: (
    int,
    int,
))
    requires
        0 <= a < b < shrunk(secs, budget).1.len(),
    ensures
        0 <= at.0 < secs.len(),
        0 <= at.1 < secs.len(),
        at.0 != at.1,
        path_of(secs[at.0]) == Some(shrunk(secs, budget).1[a]),
        path_of(secs[at.1]) == Some(shrunk(secs, budget).1[b]),
    decreases secs.len(),
{
    let w = worst(secs);
    lemma_worst_of(secs, secs.len() as int);
    let rest = secs.remove(w);
    let dropped = shrunk(rest, budget).1;
    assert(shrunk(secs, budget).1 == seq![path_of(secs[w])->0] + dropped);
    assert(shrunk(secs, budget).1[b] == dropped[b - 1]);
    if a == 0 {
        assert(droppable(secs, w));
        let l = lemma_dropped_source(rest, budget, b - 1);
        let j = if l < w { l } else { l + 1 };
        assert(rest[l] == secs[j]);
        (w, j)
    } else {
        assert(shrunk(secs, budget).1[a] == dropped[a - 1]);
        let (k, l) = lemma_dropped_pair(rest, budget, a - 1, b - 1);
        let i = if k < w { k } else { k + 1 };
        let j = if l < w { l } else { l + 1 };
        assert(rest[k] == secs[i] && rest[l] == secs[j]);
        (i, j)
    }
}

/// Nothing that is dropped ranks above `bound` when no droppable section does.
proof fn lemma_dropped_ranks(secs: Seq<Seq<char>>, budget: nat, bound: int)
    requires
        forall|i: int| #[trigger] droppable(secs, i) ==> rank(secs[i]) <= bound,
    ensures
        forall|i: int|
            0 <= i < shrunk(secs, budget).1.len() ==> priority(#[trigger] shrunk(secs, budget).1[i])
                <= bound,
    decreases secs.len(),
{
    let w = worst(secs);
    lemma_worst_of(secs, secs.len() as int);
    if !(text::byte_len(text::concat(secs)) <= budget || w < 0 || w >= secs.len()) {
        let rest = secs.remove(w);
        lemma_droppable_after_removal(secs, w);
        assert forall|i: int| #[trigger] droppable(rest, i) implies rank(rest[i]) <= bound by {
            let k = if i < w { i } else { i + 1 };
            assert(droppable(secs, k));
        }
        lemma_dropped_ranks(rest, budget, bound);
        let dropped = shrunk(rest, budget).1;
        let gone = seq![path_of(secs[w])->0] + dropped;
        assert(droppable(secs, w));
        assert forall|i: int| 0 <= i < gone.len() implies priority(#[trigger] gone[i]) <= bound by {
            if i > 0 {
                assert(gone[i] == dropped[i - 1]);
            }
        }
    }
}

/// Dropping a section makes no other one droppable.
proof fn lemma_droppable_after_removal(secs: Seq<Seq<char>>, w: int)
    requires
        droppable(secs, w),
    ensures
        forall|i: int|
            #[trigger] droppable(secs.remove(w), i) ==> droppable(
                secs,
                if i < w {
                    i
                } else {
                    i + 1
                },
            ),
{
    let rest = secs.remove(w);
    assert forall|i: int| #[trigger] droppable(rest, i) implies droppable(
        secs,
        if i < w {
            i
        } else {
            i + 1
        },
    ) by {
        let j = choose|j: int| 0 <= j < i && names_file(#[trigger] rest[j]);
        let k = if j < w { j } else { j + 1 };
        assert(names_file(secs[k]));
    }
}

/// Files are dropped in order of priority: configuration before documentation
/// before other files before source.
pub proof fn law_budget_drops_by_priority(secs: Seq<Seq<char>>, budget: nat, i: int, j: int)
    requires
        0 <= i < j < shrunk(secs, budget).1.len(),
    ensures
        priority(shrunk(secs, budget).1[i]) >= priority(shrunk(secs, budget).1[j]),
    decreases secs.len(),
{
    let w = worst(secs);
    lemma_worst_of(secs, secs.len() as int);
    let rest = secs.remove(w);
    let dropped = shrunk(rest, budget).1;
    assert(shrunk(secs, budget).1 == seq![path_of(secs[w])->0] + dropped);
    assert(shrunk(secs, budget).1[j] == dropped[j - 1]);
    if i > 0 {
        assert(shrunk(secs, budget).1[i] == dropped[i - 1]);
        law_budget_drops_by_priority(rest, budget, i - 1, j - 1);
    } else {
        lemma_droppable_after_removal(secs, w);
        assert forall|k: int| #[trigger] droppable(rest, k) implies rank(rest[k]) <= rank(
            secs[w],
        ) by {
            let m = if k < w { k } else { k + 1 };
            assert(droppable(secs, m));
        }
        lemma_dropped_ranks(rest, budget, rank(secs[w]));
    }
}

/// Dropping files leaves sections that are well cut.
proof fn lemma_shrunk_is_well_cut(secs: Seq<Seq<char>>, budget: nat)
    requires
        well_cut(secs),
    ensures
        well_cut(shrunk(secs, budget).0),
    decreases secs.len(),
{
    let w = worst(secs);
    lemma_worst_of(secs, secs.len() as int);
    if !(text::byte_len(text::concat(secs)) <= budget || w < 0 || w >= secs.len()) {
        let rest = secs.remove(w);
        assert(w > 0);
        assert forall|i: int| 0 <= i < rest.len() implies {
            &&& (#[trigger] rest[i]).len() > 0
            &&& i < rest.len() - 1 ==> rest[i].last() == '\n'
            &&& i > 0 ==> opens_section(text::raw_lines(rest[i])[0])
            &&& one_opening(rest[i])
        } by {
            let k = if i < w { i } else { i + 1 };
            assert(rest[i] == secs[k]);
        }
        lemma_shrunk_is_well_cut(rest, budget);
    }
}

/// A budget drops whole files: splitting what it leaves gives the sections that it
/// kept, each as it was.
pub proof fn law_budget_keeps_whole_sections(input: Seq<char>, kb: nat)
    ensures
        sections(budgeted(input, kb).0) == shrunk(sections(input), kb * 1024).0,
{
    lemma_sections_are_well_cut(input);
    lemma_shrunk_is_well_cut(sections(input), kb * 1024);
    lemma_well_cut_is_read_back(shrunk(sections(input), kb * 1024).0);
}

/// The section to drop, where there is one.
fn find_worst(rows: &[Vec<char>], paths: &[Option<Vec<char>>], ranks: &[u8]) -> (r: Option<usize>)
    requires
        paths@.len() == rows@.len(),
        ranks@.len() == rows@.len(),
        forall|i: int|
            0 <= i < rows@.len() ==> match #[trigger] paths@[i] {
                Some(p) => path_of(rows@[i]@) == Some(p@) && ranks@[i] == priority(p@),
                None => path_of(rows@[i]@) is None,
            },
    ensures
        match r {
            Some(w) => w == worst(text::char_views(rows@)),
            None => worst(text::char_views(rows@)) < 0,
        },
        r matches Some(w) ==> w < rows@.len(),
{
    let ghost secs = text::char_views(rows@);
    let mut seen: bool = false;
    let mut found: Option<usize> = None;
    let mut i: usize = 0;
    while i < rows.len()
        invariant
            i <= rows@.len(),
            secs == text::char_views(rows@),
            paths@.len() == rows@.len(),
            ranks@.len() == rows@.len(),
            forall|k: int|
                0 <= k < rows@.len() ==> match #[trigger] paths@[k] {
                    Some(p) => path_of(rows@[k]@) == Some(p@) && ranks@[k] == priority(p@),
                    None => path_of(rows@[k]@) is None,
                },
            seen == exists|j: int| 0 <= j < i && names_file(#[trigger] secs[j]),
            match found {
                Some(w) => w < i && w == worst_of(secs, i as int) && ranks@[w as int] == rank(
                    secs[w as int],
                ),
                None => worst_of(secs, i as int) < 0,
            },
        decreases rows@.len() - i,
    {
        assert(secs[i as int] == rows@[i as int]@);
        let ghost before = seen;
        match &paths[i] {
            Some(_) => {
                if seen {
                    let better: bool = match found {
                        Some(w) => ranks[i] >= ranks[w],
                        None => true,
                    };
                    if better {
                        found = Some(i);
                    }
                }
                seen = true;
                assert(names_file(secs[i as int]));
            },
            None => {},
        }
        proof {
            assert(droppable(secs, i as int) == (before && names_file(secs[i as int])));
        }
        i = i + 1;
    }
    found
}

/// Apply a byte budget to sections.
fn shrink(input: Vec<Vec<char>>, budget: u128) -> (r: (Vec<Vec<char>>, Vec<String>))
    ensures
        (text::char_views(r.0@), text::views(r.1@)) == shrunk(
            text::char_views(input@),
            budget as nat,
        ),
{
    let ghost goal = shrunk(text::char_views(input@), budget as nat);
    let mut rows = input;
    let mut paths: Vec<Option<Vec<char>>> = Vec::new();
    let mut ranks: Vec<u8> = Vec::new();
    let mut i: usize = 0;
    while i < rows.len()
        invariant
            i <= rows@.len(),
            paths@.len() == i,
            ranks@.len() == i,
            forall|k: int|
                0 <= k < i ==> match #[trigger] paths@[k] {
                    Some(p) => path_of(rows@[k]@) == Some(p@) && ranks@[k] == priority(p@),
                    None => path_of(rows@[k]@) is None,
                },
        decreases rows@.len() - i,
    {
        let path = path_in(&rows[i]);
        let r: u8 = match &path {
            Some(p) => priority_in(p),
            None => 0,
        };
        paths.push(path);
        ranks.push(r);
        i = i + 1;
    }
    let mut dropped: Vec<String> = Vec::new();
    assert(text::views(dropped@) + goal.1 =~= goal.1);
    loop
        invariant
            paths@.len() == rows@.len(),
            ranks@.len() == rows@.len(),
            forall|k: int|
                0 <= k < rows@.len() ==> match #[trigger] paths@[k] {
                    Some(p) => path_of(rows@[k]@) == Some(p@) && ranks@[k] == priority(p@),
                    None => path_of(rows@[k]@) is None,
                },
            goal == shrunk(text::char_views(input@), budget as nat),
            ({
                let rest = shrunk(text::char_views(rows@), budget as nat);
                goal.0 == rest.0 && goal.1 == text::views(dropped@) + rest.1
            }),
        decreases rows@.len(),
    {
        let ghost secs = text::char_views(rows@);
        let all = text::concat_rows(&rows);
        let size = text::bytes_in(&all);
        if size <= budget {
            assert(goal.1 =~= text::views(dropped@));
            return (rows, dropped);
        }
        match find_worst(&rows, &paths, &ranks) {
            None => {
                assert(goal.1 =~= text::views(dropped@));
                return (rows, dropped);
            },
            Some(w) => {
                proof {
                    lemma_worst_of(secs, secs.len() as int);
                    assert(droppable(secs, w as int));
                    assert(secs[w as int] == rows@[w as int]@);
                }
                let ghost before = dropped@;
                let ghost rows_before = rows@;
                rows.remove(w);
                ranks.remove(w);
                let path = paths.remove(w);
                proof {
                    assert(text::char_views(rows@) =~= secs.remove(w as int));
                }
                match path {
                    Some(p) => {
                        let name = text::string_of(&p);
                        dropped.push(name);
                        proof {
                            text::lemma_views_push(before, name);
                            let rest = shrunk(secs.remove(w as int), budget as nat);
                            assert(text::views(before) + (seq![p@] + rest.1) =~= text::views(
                                dropped@,
                            ) + rest.1);
                        }
                    },
                    None => {
                        assert(false);
                    },
                }
                proof {
                    assert forall|k: int| 0 <= k < rows@.len() implies match #[trigger] paths@[k] {
                        Some(p) => path_of(rows@[k]@) == Some(p@) && ranks@[k] == priority(p@),
                        None => path_of(rows@[k]@) is None,
                    } by {
                        let old_k = if k < w { k } else { k + 1 };
                        assert(rows@[k] == rows_before[old_k]);
                    }
                }
            },
        }
    }
}

/// Apply a size budget of `kb` kilobytes to a diff: whole files are dropped, the
/// ones of the lowest value first, until the rest fits. The first file stays.
pub fn truncate_text(input: &str, kb: usize) -> (r: Truncation)
    ensures
        (r.text@, text::views(r.truncated_files@)) == budgeted(input@, kb as nat),
{
    let chars = text::chars_of(input);
    let rows = sections_of(&chars);
    let (kept, dropped) = shrink(rows, kb as u128 * 1024);
    let all = text::concat_rows(&kept);
    Truncation { text: text::string_of(&all), truncated_files: dropped }
}

/// The text that passes the path gates, and the number of files that they took
/// out of it.
pub fn filter_text(input: &str, ignore: &GlobSet) -> (r: (String, usize))
    ensures
        r.0@ == units::passed(sections(input@), units::usual(glob::matched_paths(*ignore))),
        r.1 == units::gated_out(
            units::gated(sections(input@), units::usual(glob::matched_paths(*ignore))),
        ).len(),
{
    let selection = units::select_unbounded(input, ignore);
    let count = selection.path_gate_excluded_count();
    proof {
        let gates = units::usual(glob::matched_paths(*ignore));
        units::lemma_nothing_dropped(units::gated(sections(input@), gates));
    }
    (selection.text, count)
}

/// Sections that name a file.
pub open spec fn file_sections(secs: Seq<Seq<char>>) -> Seq<Seq<char>> {
    secs.filter(|s: Seq<char>| names_file(s))
}

/// The number of files in a diff.
pub fn file_count(input: &str) -> (r: usize)
    ensures
        r == file_sections(sections(input@)).len(),
{
    let chars = text::chars_of(input);
    let rows = sections_of(&chars);
    let ghost secs = sections(input@);
    let mut n: usize = 0;
    let mut i: usize = 0;
    proof {
        reveal(Seq::filter);
        assert(secs.take(0) =~= Seq::empty());
    }
    while i < rows.len()
        invariant
            i <= rows@.len(),
            secs == text::char_views(rows@),
            n == file_sections(secs.take(i as int)).len(),
            n <= i,
        decreases rows@.len() - i,
    {
        proof {
            reveal(Seq::filter);
            assert(secs.take(i + 1).drop_last() =~= secs.take(i as int));
            assert(secs.take(i + 1).last() == rows@[i as int]@);
        }
        if path_in(&rows[i]).is_some() {
            n = n + 1;
        }
        i = i + 1;
    }
    assert(secs.take(i as int) =~= secs);
    n
}

} // verus!
