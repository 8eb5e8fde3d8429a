//! What a selection promises, stated over the sections and lines of a diff.

use vstd::prelude::*;
use vstd::utf8::*;

use crate::compaction;
use crate::diff;
use crate::diff_laws;
use crate::gates;
use crate::text;
use crate::text_laws;
use crate::units;
use crate::units::{ExcludeReason, ExcludedView, Gates, UnitSource};

verus! {

/// Whether a section adds or changes a file: its header gives the new name, and no
/// line of it marks a deletion.
pub open spec fn brings(section: Seq<char>, path: Seq<char>) -> bool {
    &&& exists|k: int|
        #[trigger] diff_laws::first_header(text::lines(section), "+++ b/"@, k) && text::lines(
            section,
        )[k] == "+++ b/"@ + path
    &&& forall|k: int|
        0 <= k < text::lines(section).len() ==> #[trigger] text::lines(section)[k]
            != "+++ /dev/null"@
}

/// What a section that adds or changes a file reads as.
proof fn lemma_brings(section: Seq<char>, path: Seq<char>)
    requires
        brings(section, path),
    ensures
        diff::path_of(section) == Some(path),
        !diff::deletes_file(section),
{
    let lines = text::lines(section);
    let k = choose|k: int|
        #[trigger] diff_laws::first_header(lines, "+++ b/"@, k) && lines[k] == "+++ b/"@ + path;
    diff_laws::law_path_is_the_new_name(section, k, path);
    diff_laws::law_a_deletion_has_its_line(section);
}

/// A file is said to be deleted if and only if a line of its section marks a
/// deletion and no earlier reason applies: an added or changed file never is.
pub proof fn law_only_deletions_are_deleted(section: Seq<char>, gates: Gates, path: Seq<char>)
    ensures
        units::gate(section, gates) == Some(ExcludeReason::Deleted) ==> exists|k: int|
            0 <= k < text::lines(section).len() && #[trigger] text::lines(section)[k]
                == "+++ /dev/null"@,
        brings(section, path) ==> units::gate(section, gates) != Some(ExcludeReason::Deleted),
{
    diff_laws::law_a_deletion_has_its_line(section);
}

/// A file that is added or changed, not ignored and not generated passes the usual
/// gates: it is in the text, it has a unit of its own, and no exclusion names it
/// where no other section does.
pub proof fn law_added_and_changed_files_are_reviewed(
    input: Seq<char>,
    ignored: Set<Seq<char>>,
    i: int,
    path: Seq<char>,
)
    requires
        0 <= i < diff::sections(input).len(),
        diff::sections(input)[i].last() != '\r',
        brings(diff::sections(input)[i], path),
        !ignored.contains(path),
        forall|k: int|
            !#[trigger] diff_laws::generated_at(text::lines(diff::sections(input)[i]), 5, k),
    ensures
        ({
            let section = diff::sections(input)[i];
            let chosen = units::selected(input, units::usual(ignored), None);
            &&& units::gate(section, units::usual(ignored)) is None
            &&& diff::sections(chosen.text).contains(units::terminated(section))
            &&& exists|u: int|
                0 <= u < chosen.units.len() && (#[trigger] chosen.units[u]).unit_id
                    == "changeset"@ + ":"@ + path && chosen.units[u].files == seq![path]
            &&& (forall|j: int|
                0 <= j < diff::sections(input).len() && j != i ==> diff::path_of(
                    #[trigger] diff::sections(input)[j],
                ) != Some(path)) ==> !units::is_excluded(chosen.excluded, path)
        }),
{
    let secs = diff::sections(input);
    let section = secs[i];
    let gates = units::usual(ignored);
    let chosen = units::selected(input, gates, None);
    lemma_brings(section, path);
    diff_laws::law_generated_code_says_so(section);
    diff::lemma_sections_are_well_cut(input);
    assert(section.len() > 0);
    units::law_ending_a_line_changes_nothing(section);
    units::lemma_kept_holds(secs, gates, i);
    units::law_text_is_made_of_whole_sections(input, gates, None);
    let sent = units::sent_sections(input, gates, None);
    let m = choose|m: int| 0 <= m < sent.len() && sent[m] == units::terminated(section);
    units::law_every_reviewable_file_has_a_unit(sent, m);
    let id = units::changeset_id(path);
    let u = choose|u: int|
        0 <= u < chosen.units.len() && (#[trigger] chosen.units[u]).unit_id == id;
    law_units_say_what_they_are(sent, u);
    assert(chosen.units[u].files == seq![path]) by {
        let p = chosen.units[u].files[0];
        assert(units::changeset_id(p) == units::changeset_id(path));
        let head = "changeset"@ + ":"@;
        assert((head + p).skip(head.len() as int) =~= p);
        assert((head + path).skip(head.len() as int) =~= path);
        assert(units::changeset_id(p) =~= head + p);
        assert(units::changeset_id(path) =~= head + path);
        assert(chosen.units[u].files =~= seq![path]);
    }
    if units::is_excluded(chosen.excluded, path) && (forall|j: int|
        0 <= j < secs.len() && j != i ==> diff::path_of(#[trigger] secs[j]) != Some(path)) {
        units::lemma_exclusions(input, gates, None);
        units::lemma_nothing_dropped(units::gated(secs, gates));
        let a = choose|a: int|
            0 <= a < chosen.excluded.len() && (#[trigger] chosen.excluded[a]).path == path;
        assert(chosen.excluded =~= units::gated(secs, gates));
        let j = units::lemma_gated_source(secs, gates, a);
        assert(diff::path_of(secs[j]) == Some(path));
    }
}

/// Every unit is that of one file of the dispatched text: its id is the path behind
/// `changeset:`, and the path is all that it lists.
pub proof fn law_units_say_what_they_are(secs: Seq<Seq<char>>, u: int)
    requires
        0 <= u < units::units_of(secs).len(),
    ensures
        ({
            let unit = units::units_of(secs)[u];
            &&& unit.files.len() == 1
            &&& unit.unit_id == "changeset"@ + ":"@ + unit.files[0]
            &&& unit.source == UnitSource::Changeset
            &&& exists|i: int|
                0 <= i < secs.len() && diff::path_of(#[trigger] secs[i]) == Some(unit.files[0])
        }),
{
    units::law_units_come_from_the_text(secs, u);
    let i = choose|i: int|
        0 <= i < secs.len() && diff::names_file(#[trigger] secs[i]) && !diff::deletes_file(secs[i])
            && units::units_of(secs)[u] == units::unit_of(diff::path_of(secs[i])->0, secs[i]);
    assert(diff::path_of(secs[i]) == Some(units::units_of(secs)[u].files[0]));
}

/// A deleted file is no unit, and stays in the text.
pub proof fn law_deleted_files_are_context_only(secs: Seq<Seq<char>>, gates: Gates, i: int)
    requires
        0 <= i < secs.len(),
        units::gate(secs[i], gates) == Some(ExcludeReason::Deleted),
    ensures
        text::mentions(units::passed(secs, gates), units::terminated(secs[i])),
        units::units_of(seq![secs[i]]).len() == 0,
{
    units::law_passing_sections_stay(secs, gates, i);
    assert(seq![secs[i]].drop_last() =~= Seq::<Seq<char>>::empty());
    assert(units::units_of(seq![secs[i]].drop_last()).len() == 0);
}

/// A file that a gate other than the one for deletions takes out is not sent: the
/// sections of the text are those of other files.
pub proof fn law_excluded_files_are_not_sent(secs: Seq<Seq<char>>, gates: Gates, i: int)
    requires
        0 <= i < secs.len(),
        units::gate(secs[i], gates) is Some,
        units::gate(secs[i], gates) != Some(ExcludeReason::Deleted),
    ensures
        units::passed(secs, gates) == units::passed(secs.remove(i), gates),
        units::gated(secs, gates).len() == units::gated(secs.remove(i), gates).len() + 1,
    decreases secs.len(),
{
    let front = secs.drop_last();
    let rest = secs.remove(i);
    if i == secs.len() - 1 {
        assert(rest =~= front);
        assert(units::passed(secs, gates) =~= units::passed(front, gates));
    } else {
        assert(front[i] == secs[i]);
        law_excluded_files_are_not_sent(front, gates, i);
        assert(rest.drop_last() =~= front.remove(i));
        assert(rest.last() == secs.last());
    }
}

/// Ending a section adds one newline where none stands at its end, and else nothing.
pub proof fn law_a_section_gets_one_newline(section: Seq<char>)
    ensures
        section.len() > 0 && section.last() == '\n' ==> units::terminated(section) == section,
        !(section.len() > 0 && section.last() == '\n') ==> units::terminated(section) == section
            + seq!['\n'],
{
    assert(section.push('\n') =~= section + seq!['\n']);
}

/// What a selection says of one more exclusion: those of the path gates are those
/// that left the text for another reason than the size, the dropped paths those that
/// left for the size.
pub proof fn law_exclusions_are_told_apart(list: Seq<ExcludedView>, e: ExcludedView)
    ensures
        units::taken_out(list.push(e)).len() == units::taken_out(list).len() + if e.kept_in_text {
            0int
        } else {
            1int
        },
        units::gated_out(list.push(e)).len() == units::gated_out(list).len() + if e.kept_in_text
            || e.reason == ExcludeReason::Oversized {
            0int
        } else {
            1int
        },
        e.reason == ExcludeReason::Oversized ==> units::dropped_paths(list.push(e))
            == units::dropped_paths(list).push(e.path),
        e.reason != ExcludeReason::Oversized ==> units::dropped_paths(list.push(e))
            == units::dropped_paths(list),
        units::excluded_for(list.push(e), e.reason) == units::excluded_for(list, e.reason).push(e),
{
    reveal(Seq::filter);
    assert(list.push(e).drop_last() =~= list);
    if e.reason == ExcludeReason::Oversized {
        assert(units::dropped_paths(list.push(e)) =~= units::dropped_paths(list).push(e.path));
    }
}

/// What a file is in one directory it is in every other, as far as its name decides.
pub proof fn law_gates_look_at_names_in_any_directory(dir: Seq<char>, name: Seq<char>)
    requires
        !name.contains('/'),
    ensures
        gates::secret(name) ==> gates::secret(dir.push('/') + name),
        gates::tool_output(name) ==> gates::tool_output(dir.push('/') + name),
        gates::reviewable(name) == gates::reviewable(dir.push('/') + name),
{
    let path = dir.push('/') + name;
    text_laws::law_file_name_is_the_last_component(dir, name);
    lemma_not_inside(name, gates::SECRET_DIRECTORIES@);
    lemma_not_inside(name, gates::OUTPUT_DIRECTORIES@);
    assert(text::extension(path) == text::extension(name));
}

/// A name without a slash leads through no directory.
proof fn lemma_not_inside(name: Seq<char>, list: Seq<&str>)
    requires
        !name.contains('/'),
    ensures
        !gates::inside_any(name, list),
{
    if gates::inside_any(name, list) {
        reveal_strlit("/");
        let i = choose|i: int| 0 <= i < list.len() && gates::inside(name, (#[trigger] list[i])@);
        let d = list[i]@;
        if text::begins(name, d + "/"@) {
            assert(name.subrange(0, (d + "/"@).len() as int)[d.len() as int] == '/');
            assert(name.contains(name[d.len() as int]));
        } else {
            let part = "/"@ + d + "/"@;
            let k = choose|k: int| text::occurs_at(name, part, k);
            assert(name.subrange(k, k + part.len())[0] == '/');
            assert(name.contains(name[k]));
        }
    }
}

/// Whatever lies in a directory of credentials, or of dependencies and build output,
/// is one, at any depth.
pub proof fn law_directories_decide_for_all_below(
    before: Seq<char>,
    i: int,
    below: Seq<char>,
)
    ensures
        0 <= i < gates::SECRET_DIRECTORIES@.len() ==> gates::secret(
            gates::SECRET_DIRECTORIES@[i]@ + "/"@ + below,
        ) && gates::secret(before + ("/"@ + gates::SECRET_DIRECTORIES@[i]@ + "/"@) + below),
        0 <= i < gates::OUTPUT_DIRECTORIES@.len() ==> gates::tool_output(
            gates::OUTPUT_DIRECTORIES@[i]@ + "/"@ + below,
        ) && gates::tool_output(before + ("/"@ + gates::OUTPUT_DIRECTORIES@[i]@ + "/"@) + below),
{
    if 0 <= i < gates::SECRET_DIRECTORIES@.len() {
        lemma_inside(gates::SECRET_DIRECTORIES@, before, i, below);
    }
    if 0 <= i < gates::OUTPUT_DIRECTORIES@.len() {
        lemma_inside(gates::OUTPUT_DIRECTORIES@, before, i, below);
    }
}

proof fn lemma_inside(list: Seq<&str>, before: Seq<char>, i: int, below: Seq<char>)
    requires
        0 <= i < list.len(),
    ensures
        gates::inside_any(list[i]@ + "/"@ + below, list),
        gates::inside_any(before + ("/"@ + list[i]@ + "/"@) + below, list),
{
    let d = list[i]@ + "/"@;
    assert((d + below).subrange(0, d.len() as int) =~= d);
    assert(gates::inside(d + below, list[i]@));
    text_laws::law_a_part_is_mentioned(before, "/"@ + list[i]@ + "/"@, below);
    assert(gates::inside(before + ("/"@ + list[i]@ + "/"@) + below, list[i]@));
}

/// The text of a selection is within its budget, or only one file is left in it; a
/// kilobyte has 1024 bytes. The estimate is that of the text.
pub proof fn law_selections_keep_their_budget(input: Seq<char>, gates: Gates, kb: nat)
    ensures
        ({
            let chosen = units::selected(input, gates, Some(kb));
            &&& text::byte_len(chosen.text) <= kb * 1024 || forall|i: int|
                !diff::droppable(diff::sections(chosen.text), i)
            &&& chosen.estimated_tokens == compaction::tokens(chosen.text)
            &&& chosen.units == units::units_of(diff::sections(chosen.text))
        }),
        units::selected(input, gates, None).estimated_tokens == compaction::tokens(
            units::selected(input, gates, None).text,
        ),
        units::selected(input, gates, None).excluded == units::gated(diff::sections(input), gates),
        units::selected(input, gates, None).text == units::passed(diff::sections(input), gates),
{
    let filtered = units::passed(diff::sections(input), gates);
    diff::law_budget_is_met(diff::sections(filtered), kb * 1024);
    diff::law_budget_keeps_whole_sections(filtered, kb);
    units::lemma_nothing_dropped(units::gated(diff::sections(input), gates));
    assert(units::selected(input, gates, None).excluded =~= units::gated(
        diff::sections(input),
        gates,
    ));
}

/// What a gate reports of one more section: nothing where it passes, else its path and
/// the reason; the text grows by the section, ended, unless it was taken out.
pub proof fn law_gates_go_section_by_section(
    secs: Seq<Seq<char>>,
    gates: Gates,
    section: Seq<char>,
)
    ensures
        ({
            let reason = units::gate(section, gates);
            let before = units::gated(secs, gates);
            let after = units::gated(secs.push(section), gates);
            &&& reason is None ==> after == before
            &&& reason is Some ==> after == before.push(
                ExcludedView {
                    path: diff::path_of(section)->0,
                    reason: reason->0,
                    kept_in_text: reason == Some(ExcludeReason::Deleted),
                },
            )
            &&& reason is None || reason == Some(ExcludeReason::Deleted) ==> units::passed(
                secs.push(section),
                gates,
            ) == units::passed(secs, gates) + units::terminated(section)
            &&& reason is Some && reason != Some(ExcludeReason::Deleted) ==> units::passed(
                secs.push(section),
                gates,
            ) == units::passed(secs, gates)
        }),
        diff::path_of(section) is None ==> units::gate(section, gates) is None,
{
    assert(secs.push(section).drop_last() =~= secs);
    assert(units::passed(secs, gates) + Seq::<char>::empty() =~= units::passed(secs, gates));
}

/// The value of a hexadecimal digit.
pub open spec fn hex_value(c: char) -> int {
    if '0' <= c <= '9' {
        c as int - '0' as int
    } else {
        c as int - 'a' as int + 10
    }
}

/// A fingerprint shows the first eight bytes of a digest: two digits for each, the
/// higher one first.
pub proof fn law_fingerprints_show_the_digest(digest: Seq<u8>, i: int)
    requires
        digest.len() >= 8,
        0 <= i < 8,
    ensures
        units::short_hex(digest).len() == 16,
        hex_value(units::short_hex(digest)[2 * i]) * 16 + hex_value(
            units::short_hex(digest)[2 * i + 1],
        ) == digest[i] as int,
{
    lemma_hex_reads_back(digest.take(8), i);
    assert(digest.take(8)[i] == digest[i]);
}

proof fn lemma_hex_reads_back(bytes: Seq<u8>, i: int)
    requires
        0 <= i < bytes.len(),
    ensures
        units::hex(bytes).len() == 2 * bytes.len(),
        hex_value(units::hex(bytes)[2 * i]) * 16 + hex_value(units::hex(bytes)[2 * i + 1])
            == bytes[i] as int,
    decreases bytes.len(),
{
    let front = bytes.drop_last();
    let b = bytes.last() as int;
    lemma_hex_len(front);
    if i < front.len() {
        lemma_hex_reads_back(front, i);
        assert(front[i] == bytes[i]);
        assert(units::hex(bytes)[2 * i] == units::hex(front)[2 * i]);
        assert(units::hex(bytes)[2 * i + 1] == units::hex(front)[2 * i + 1]);
    } else {
        let hi = b / 16;
        let lo = b % 16;
        assert(0 <= hi < 16 && 0 <= lo < 16 && hi * 16 + lo == b);
        assert(hex_value(units::hex_digit(hi)) == hi);
        assert(hex_value(units::hex_digit(lo)) == lo);
        assert(units::hex(bytes)[2 * i] == units::hex_digit(hi));
        assert(units::hex(bytes)[2 * i + 1] == units::hex_digit(lo));
    }
}

proof fn lemma_hex_len(bytes: Seq<u8>)
    ensures
        units::hex(bytes).len() == 2 * bytes.len(),
    decreases bytes.len(),
{
    if bytes.len() > 0 {
        lemma_hex_len(bytes.drop_last());
    }
}

/// What is fingerprinted of a unit is its path, a newline and its section: all of the
/// path in front, all of the section behind, nothing else.
pub proof fn law_units_are_fingerprinted_whole(path: Seq<char>, section: Seq<char>)
    ensures
        units::unit_of(path, section).unit_fp == units::short_hex(
            units::sha1_of(units::fingerprint_input(path, section)),
        ),
        ({
            let all = units::fingerprint_input(path, section);
            let p = encode_utf8(path);
            let s = encode_utf8(section);
            &&& all.len() == p.len() + 1 + s.len()
            &&& all.take(p.len() as int) == p
            &&& all[p.len() as int] == 10
            &&& all.skip(p.len() as int + 1) == s
        }),
{
    let all = units::fingerprint_input(path, section);
    let p = encode_utf8(path);
    assert(all.take(p.len() as int) =~= p);
    assert(all.skip(p.len() as int + 1) =~= encode_utf8(section));
}

} // verus!
