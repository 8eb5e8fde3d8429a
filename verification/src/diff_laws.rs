//! What reading a diff promises, stated over the lines of its sections.

use vstd::prelude::*;

use crate::diff;
use crate::text;
use crate::text_laws;

verus! {

/// Whether a line belongs to the header of a section: no hunk has begun.
pub open spec fn in_header(lines: Seq<Seq<char>>, k: int) -> bool {
    0 <= k < lines.len() && forall|j: int| 0 <= j <= k ==> !text::begins(#[trigger] lines[j], "@@"@)
}

/// Whether no header line begins with a prefix.
pub open spec fn no_header(lines: Seq<Seq<char>>, prefix: Seq<char>) -> bool {
    forall|k: int| #[trigger] in_header(lines, k) ==> !text::begins(lines[k], prefix)
}

/// Whether a line is the first of the header that begins with a prefix.
pub open spec fn first_header(lines: Seq<Seq<char>>, prefix: Seq<char>, k: int) -> bool {
    &&& in_header(lines, k)
    &&& text::begins(lines[k], prefix)
    &&& forall|j: int| 0 <= j < k ==> !text::begins(#[trigger] lines[j], prefix)
}

/// A section deletes its file if and only if one of its lines is the mark of a
/// deletion, the whole line and no other mark: adding a file is no deletion.
pub proof fn law_a_deletion_has_its_line(section: Seq<char>)
    ensures
        diff::deletes_file(section) <==> exists|k: int|
            0 <= k < text::lines(section).len() && #[trigger] text::lines(section)[k]
                == "+++ /dev/null"@,
{
    let lines = text::lines(section);
    if diff::deletes_file(section) {
        let k = choose|k: int| 0 <= k < lines.len() && lines[k] == "+++ /dev/null"@;
        assert(lines[k] == "+++ /dev/null"@);
    }
    if exists|k: int| 0 <= k < lines.len() && #[trigger] lines[k] == "+++ /dev/null"@ {
        let k = choose|k: int| 0 <= k < lines.len() && #[trigger] lines[k] == "+++ /dev/null"@;
        assert(lines.contains(lines[k]));
    }
}

/// The field of a header line.
proof fn lemma_header_field_at(lines: Seq<Seq<char>>, prefix: Seq<char>, k: int)
    requires
        first_header(lines, prefix, k),
    ensures
        diff::header_field(lines, prefix) == Some(lines[k].skip(prefix.len() as int)),
    decreases lines.len(),
{
    assert(!text::begins(lines[0], "@@"@));
    if k > 0 {
        let rest = lines.drop_first();
        assert(!text::begins(lines[0], prefix));
        assert forall|j: int| 0 <= j <= k - 1 implies !text::begins(#[trigger] rest[j], "@@"@) by {
            assert(rest[j] == lines[j + 1]);
        }
        assert forall|j: int| 0 <= j < k - 1 implies !text::begins(#[trigger] rest[j], prefix) by {
            assert(rest[j] == lines[j + 1]);
        }
        assert(rest[k - 1] == lines[k]);
        lemma_header_field_at(rest, prefix, k - 1);
    }
}

/// No field where no header line has it.
proof fn lemma_header_field_none(lines: Seq<Seq<char>>, prefix: Seq<char>)
    requires
        no_header(lines, prefix),
    ensures
        diff::header_field(lines, prefix) is None,
    decreases lines.len(),
{
    if lines.len() > 0 && !text::begins(lines[0], "@@"@) {
        assert(in_header(lines, 0));
        let rest = lines.drop_first();
        assert forall|k: int| #[trigger] in_header(rest, k) implies !text::begins(
            rest[k],
            prefix,
        ) by {
            assert forall|j: int| 0 <= j <= k + 1 implies !text::begins(
                #[trigger] lines[j],
                "@@"@,
            ) by {
                if j > 0 {
                    assert(rest[j - 1] == lines[j]);
                }
            }
            assert(in_header(lines, k + 1));
            assert(rest[k] == lines[k + 1]);
        }
        lemma_header_field_none(rest, prefix);
    }
}

/// A file has the new name that the header of its section gives.
pub proof fn law_path_is_the_new_name(section: Seq<char>, k: int, path: Seq<char>)
    requires
        first_header(text::lines(section), "+++ b/"@, k),
        text::lines(section)[k] == "+++ b/"@ + path,
    ensures
        diff::path_of(section) == Some(path),
        diff::names_file(section),
{
    lemma_header_field_at(text::lines(section), "+++ b/"@, k);
    assert(("+++ b/"@ + path).skip("+++ b/"@.len() as int) =~= path);
}

/// A file without a new name has its old one.
pub proof fn law_path_is_else_the_old_name(section: Seq<char>, k: int, path: Seq<char>)
    requires
        no_header(text::lines(section), "+++ b/"@),
        first_header(text::lines(section), "--- a/"@, k),
        text::lines(section)[k] == "--- a/"@ + path,
    ensures
        diff::path_of(section) == Some(path),
{
    lemma_header_field_none(text::lines(section), "+++ b/"@);
    lemma_header_field_at(text::lines(section), "--- a/"@, k);
    assert(("--- a/"@ + path).skip("--- a/"@.len() as int) =~= path);
}

/// A section whose header names neither has the name that its opening line ends in.
pub proof fn law_path_is_else_that_of_the_opening_line(
    section: Seq<char>,
    k: int,
    before: Seq<char>,
    path: Seq<char>,
)
    requires
        no_header(text::lines(section), "+++ b/"@),
        no_header(text::lines(section), "--- a/"@),
        first_header(text::lines(section), "diff --git "@, k),
        text::lines(section)[k] == "diff --git "@ + (before + " b/"@ + path),
        forall|i: int|
            before.len() < i ==> !#[trigger] text::occurs_at(before + " b/"@ + path, " b/"@, i),
    ensures
        diff::path_of(section) == Some(path),
{
    let lines = text::lines(section);
    let names = before + " b/"@ + path;
    lemma_header_field_none(lines, "+++ b/"@);
    lemma_header_field_none(lines, "--- a/"@);
    lemma_header_field_at(lines, "diff --git "@, k);
    assert(("diff --git "@ + names).skip("diff --git "@.len() as int) =~= names);
    text_laws::law_a_part_is_mentioned(before, " b/"@, path);
    text_laws::law_last_occurrence_is_the_last(names, " b/"@, before.len() as int);
    let p = text::last_occurrence(names, " b/"@);
    assert(p == before.len());
    assert(names.skip(p + " b/"@.len()) =~= path);
}

/// A section that names no file in its header has no path.
pub proof fn law_no_name_no_path(section: Seq<char>)
    requires
        no_header(text::lines(section), "+++ b/"@),
        no_header(text::lines(section), "--- a/"@),
        no_header(text::lines(section), "diff --git "@),
    ensures
        diff::path_of(section) is None,
{
    lemma_header_field_none(text::lines(section), "+++ b/"@);
    lemma_header_field_none(text::lines(section), "--- a/"@);
    lemma_header_field_none(text::lines(section), "diff --git "@);
}

/// Whether a line adds content: it begins with one plus, not with three.
pub open spec fn adds_content(line: Seq<char>) -> bool {
    line.len() > 0 && line[0] == '+' && !(line.len() >= 3 && line[1] == '+' && line[2] == '+')
}

/// The lines that add content among the first `k`.
pub open spec fn additions(lines: Seq<Seq<char>>, k: int) -> int
    decreases k,
{
    if k <= 0 || lines.len() == 0 {
        0
    } else {
        additions(lines.drop_first(), k - 1) + if adds_content(lines[0]) {
            1int
        } else {
            0int
        }
    }
}

/// Whether a line says that its file was generated, and that it is not to be edited.
pub open spec fn says_generated(line: Seq<char>) -> bool {
    exists|i: int, j: int|
        i <= j && #[trigger] text::occurs_at(line, "Code generated"@, i)
            && #[trigger] text::occurs_at(line, "DO NOT EDIT"@, j)
}

/// Whether a line that adds content and says that its file was generated is one of
/// the first lines that add any.
pub open spec fn generated_at(lines: Seq<Seq<char>>, n: int, k: int) -> bool {
    0 <= k < lines.len() && adds_content(lines[k]) && says_generated(lines[k]) && additions(
        lines,
        k,
    ) < n
}

proof fn lemma_adds_content(line: Seq<char>)
    ensures
        diff::is_added(line) == adds_content(line),
{
    reveal_strlit("+");
    reveal_strlit("+++");
    if text::begins(line, "+"@) {
        assert(line.subrange(0, 1)[0] == '+');
    }
    if line.len() > 0 && line[0] == '+' {
        assert(line.subrange(0, 1) =~= "+"@);
    }
    if text::begins(line, "+++"@) {
        assert(line.subrange(0, 3)[1] == '+' && line.subrange(0, 3)[2] == '+');
    }
    if line.len() >= 3 && line[0] == '+' && line[1] == '+' && line[2] == '+' {
        assert(line.subrange(0, 3) =~= "+++"@);
    }
}

proof fn lemma_says_generated(line: Seq<char>)
    ensures
        diff::generated_marker(line) == says_generated(line),
{
    if diff::generated_marker(line) {
        let i = choose|i: int|
            #[trigger] text::occurs_at(line, "Code generated"@, i) && text::mentions(
                line.skip(i),
                "DO NOT EDIT"@,
            );
        let k = choose|k: int| text::occurs_at(line.skip(i), "DO NOT EDIT"@, k);
        let n = "DO NOT EDIT"@.len();
        assert(line.subrange(i + k, i + k + n) =~= line.skip(i).subrange(k, k + n));
        assert(text::occurs_at(line, "DO NOT EDIT"@, i + k));
    }
    if says_generated(line) {
        let (i, j) = choose|i: int, j: int|
            i <= j && #[trigger] text::occurs_at(line, "Code generated"@, i)
                && #[trigger] text::occurs_at(line, "DO NOT EDIT"@, j);
        let n = "DO NOT EDIT"@.len();
        assert(line.skip(i).subrange(j - i, j - i + n) =~= line.subrange(j, j + n));
        assert(text::occurs_at(line.skip(i), "DO NOT EDIT"@, j - i));
    }
}

/// A section reads like generated code if and only if one of its first five lines
/// that add content says `Code generated` and, behind that, `DO NOT EDIT`.
pub proof fn law_generated_code_says_so(section: Seq<char>)
    ensures
        diff::is_generated(section) <==> exists|k: int|
            #[trigger] generated_at(text::lines(section), 5, k),
{
    lemma_generated_within(text::lines(section), 5);
}

proof fn lemma_generated_within(lines: Seq<Seq<char>>, n: nat)
    ensures
        diff::generated_within(lines, n) <==> exists|k: int| #[trigger] generated_at(
            lines,
            n as int,
            k,
        ),
    decreases lines.len(),
{
    if lines.len() > 0 && n > 0 {
        let rest = lines.drop_first();
        let m: nat = if adds_content(lines[0]) {
            (n - 1) as nat
        } else {
            n
        };
        lemma_adds_content(lines[0]);
        lemma_says_generated(lines[0]);
        lemma_generated_within(rest, m);
        if exists|k: int| #[trigger] generated_at(lines, n as int, k) {
            let k = choose|k: int| #[trigger] generated_at(lines, n as int, k);
            if k > 0 {
                assert(rest[k - 1] == lines[k]);
                assert(generated_at(rest, m as int, k - 1));
            }
        }
        if exists|k: int| #[trigger] generated_at(rest, m as int, k) {
            let k = choose|k: int| #[trigger] generated_at(rest, m as int, k);
            assert(rest[k] == lines[k + 1]);
            assert(generated_at(lines, n as int, k + 1));
        }
        if adds_content(lines[0]) && says_generated(lines[0]) {
            assert(generated_at(lines, n as int, 0));
        }
    } else {
        if exists|k: int| #[trigger] generated_at(lines, n as int, k) {
            let k = choose|k: int| #[trigger] generated_at(lines, n as int, k);
            lemma_additions_nonneg(lines, k);
        }
    }
}

proof fn lemma_additions_nonneg(lines: Seq<Seq<char>>, k: int)
    ensures
        additions(lines, k) >= 0,
    decreases k,
{
    if k > 0 && lines.len() > 0 {
        lemma_additions_nonneg(lines.drop_first(), k - 1);
    }
}

/// A diff that is written of the sections of files is split into them again: a
/// section begins at each line that begins with `diff --git ` and at no other.
pub proof fn law_sections_are_read_back(secs: Seq<Seq<char>>)
    requires
        forall|i: int|
            0 <= i < secs.len() ==> {
                &&& (#[trigger] secs[i]).len() > 0
                &&& i < secs.len() - 1 ==> secs[i].last() == '\n'
                &&& text::begins(text::raw_lines(secs[i])[0], "diff --git "@)
                &&& forall|k: int|
                    1 <= k < text::raw_lines(secs[i]).len() ==> !text::begins(
                        #[trigger] text::raw_lines(secs[i])[k],
                        "diff --git "@,
                    )
            },
    ensures
        diff::sections(text::concat(secs)) == secs,
{
    assert(diff::well_cut(secs));
    diff::lemma_well_cut_is_read_back(secs);
}

/// No line but the first of a section begins with `diff --git `, and each section
/// but the first begins with one: every file has a section of its own.
pub proof fn law_every_file_has_its_own_section(input: Seq<char>, i: int, k: int)
    requires
        0 <= i < diff::sections(input).len(),
        0 <= k < text::raw_lines(diff::sections(input)[i]).len(),
    ensures
        k > 0 ==> !text::begins(text::raw_lines(diff::sections(input)[i])[k], "diff --git "@),
        i > 0 ==> text::begins(text::raw_lines(diff::sections(input)[i])[0], "diff --git "@),
{
    diff::lemma_sections_are_well_cut(input);
    assert(diff::one_opening(diff::sections(input)[i]));
}

/// Source is given up last, then files of other kinds, then documentation, and
/// configuration first. What the extension says decides, in whatever case and
/// directory.
pub proof fn law_source_is_given_up_last(a: Seq<char>, b: Seq<char>)
    ensures
        text::extension(a) == text::extension(b) ==> diff::priority(a) == diff::priority(b),
        text::listed(diff::SOURCE_EXTENSIONS@, text::extension(a)) && !text::listed(
            diff::SOURCE_EXTENSIONS@,
            text::extension(b),
        ) ==> diff::priority(a) < diff::priority(b),
        text::listed(diff::CONFIG_EXTENSIONS@, text::extension(b)) && !text::listed(
            diff::CONFIG_EXTENSIONS@,
            text::extension(a),
        ) && !text::listed(diff::SOURCE_EXTENSIONS@, text::extension(b)) && !text::listed(
            diff::DOC_EXTENSIONS@,
            text::extension(b),
        ) ==> diff::priority(a) < diff::priority(b),
        text::listed(diff::DOC_EXTENSIONS@, text::extension(b)) && !text::listed(
            diff::SOURCE_EXTENSIONS@,
            text::extension(b),
        ) && !text::listed(diff::DOC_EXTENSIONS@, text::extension(a)) && !text::listed(
            diff::CONFIG_EXTENSIONS@,
            text::extension(a),
        ) ==> diff::priority(a) < diff::priority(b),
{
}

/// The files of a diff are its sections that name one; each counts once.
pub proof fn law_files_are_counted_by_section(secs: Seq<Seq<char>>, section: Seq<char>)
    ensures
        diff::file_sections(secs.push(section)).len() == diff::file_sections(secs).len() + if diff::path_of(
            section,
        ) is Some {
            1int
        } else {
            0int
        },
        diff::file_sections(Seq::<Seq<char>>::empty()).len() == 0,
{
    reveal(Seq::filter);
    assert(secs.push(section).drop_last() =~= secs);
}

} // verus!
