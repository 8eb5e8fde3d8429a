//! Mirror files that share a review unit.
//!
//! Files of one directory that mirror each other are accounted for together where
//! that is asked for: the language variants of a text, the two directions of a
//! migration, and a file with its test. Grouping is deterministic and looks at
//! paths alone. It changes which units there are, and nothing else.

use vstd::prelude::*;
use vstd::slice::slice_subrange;

use crate::output;
use crate::sorting;
use crate::text;
use crate::units;
use crate::units::{ReviewUnit, Selection, UnitSource};

verus! {

/// Codes of the languages that variants are written in.
pub const LANGUAGES: [&'static str; 24] = [
    "ar", "bg", "cs", "da", "de", "el", "en", "es", "fi", "fr", "hu", "it", "ja", "ko", "nl", "pl",
    "pt", "ro", "ru", "sv", "tr", "uk", "vi", "zh",
];

/// Scripts that can follow a language.
pub const SCRIPTS: [&'static str; 2] = ["Hans", "Hant"];

// ---------------------------------------------------------------------------
// Keys
// ---------------------------------------------------------------------------

/// Whether a character is a letter of a code.
pub open spec fn is_letter(c: char) -> bool {
    ('a' <= c && c <= 'z') || ('A' <= c && c <= 'Z')
}

/// Whether a text names a region or a script.
pub open spec fn is_region(s: Seq<char>) -> bool {
    (s.len() == 2 && is_letter(s[0]) && is_letter(s[1])) || text::listed(SCRIPTS@, s)
}

/// Whether a text names a language, alone or with a region.
pub open spec fn is_locale(s: Seq<char>) -> bool {
    ||| text::listed(LANGUAGES@, s)
    ||| s.len() > 3 && text::listed(LANGUAGES@, s.take(2)) && (s[2] == '-' || s[2] == '_')
        && is_region(s.skip(3))
}

/// A text without an ending, where something is left of it.
pub open spec fn without_end(s: Seq<char>, end: Seq<char>) -> Option<Seq<char>> {
    if text::ends(s, end) && s.len() > end.len() {
        Some(s.take(s.len() - end.len()))
    } else {
        None
    }
}

/// The stem of the file that a test belongs to.
pub open spec fn tested(stem: Seq<char>) -> Option<Seq<char>> {
    if without_end(stem, "_test"@) is Some {
        without_end(stem, "_test"@)
    } else if without_end(stem, ".test"@) is Some {
        without_end(stem, ".test"@)
    } else if without_end(stem, ".spec"@) is Some {
        without_end(stem, ".spec"@)
    } else if text::begins(stem, "test_"@) && stem.len() > "test_"@.len() {
        Some(stem.skip("test_"@.len() as int))
    } else {
        None
    }
}

/// The stem of the migration that one backwards undoes.
pub open spec fn forwards(stem: Seq<char>) -> Option<Seq<char>> {
    if stem == "down"@ {
        Some("up"@)
    } else {
        match without_end(stem, ".down"@) {
            Some(front) => Some(front + ".up"@),
            None => None,
        }
    }
}

/// The stem of the text that a language variant belongs to. Where the language is
/// the whole stem, English stands for all.
pub open spec fn without_language(stem: Seq<char>) -> Option<Seq<char>> {
    let dot = text::last_position(stem, '.');
    if is_locale(stem) {
        Some("en"@)
    } else if dot > 0 && is_locale(stem.skip(dot + 1)) {
        Some(stem.take(dot))
    } else {
        None
    }
}

/// The stem that mirror files have in common.
pub open spec fn common_stem(stem: Seq<char>) -> Seq<char> {
    match tested(stem) {
        Some(main) => main,
        None => match forwards(stem) {
            Some(main) => main,
            None => match without_language(stem) {
                Some(main) => main,
                None => stem,
            },
        },
    }
}

/// Where the extension of a file name begins.
pub open spec fn stem_len(name: Seq<char>) -> int {
    let dot = text::last_position(name, '.');
    if dot > 0 {
        dot
    } else {
        name.len() as int
    }
}

/// What the paths of mirror files have in common: the directory, the extension and
/// the common stem.
pub open spec fn group_key(path: Seq<char>) -> Seq<char> {
    let name = text::file_name(path);
    let n = stem_len(name);
    path.take(path.len() - name.len()) + common_stem(name.take(n)) + name.skip(n)
}

/// Whether a text names a region or a script.
fn region_in(s: &[char]) -> (r: bool)
    ensures
        r == is_region(s@),
{
    let letters = s.len() == 2 && (('a' <= s[0] && s[0] <= 'z') || ('A' <= s[0] && s[0] <= 'Z')) && ((
    'a' <= s[1] && s[1] <= 'z') || ('A' <= s[1] && s[1] <= 'Z'));
    letters || text::is_listed(&SCRIPTS, s)
}

/// Whether a text names a language.
fn locale_in(s: &[char]) -> (r: bool)
    ensures
        r == is_locale(s@),
{
    if text::is_listed(&LANGUAGES, s) {
        return true;
    }
    if s.len() <= 3 {
        return false;
    }
    let language = slice_subrange(s, 0, 2);
    let region = slice_subrange(s, 3, s.len());
    assert(language@ =~= s@.take(2));
    assert(region@ =~= s@.skip(3));
    text::is_listed(&LANGUAGES, language) && (s[2] == '-' || s[2] == '_') && region_in(region)
}

/// A text without an ending.
fn cut_end<'a>(s: &'a [char], end: &str) -> (r: Option<&'a [char]>)
    ensures
        match r {
            Some(t) => without_end(s@, end@) == Some(t@),
            None => without_end(s@, end@) is None,
        },
{
    let ending = text::chars_of(end);
    if text::ends_with(s, &ending) && s.len() > ending.len() {
        let front = slice_subrange(s, 0, s.len() - ending.len());
        assert(front@ =~= s@.take(s@.len() - end@.len()));
        Some(front)
    } else {
        None
    }
}

/// The stem of the file that a test belongs to.
fn tested_in<'a>(stem: &'a [char]) -> (r: Option<&'a [char]>)
    ensures
        match r {
            Some(t) => tested(stem@) == Some(t@),
            None => tested(stem@) is None,
        },
{
    if let Some(main) = cut_end(stem, "_test") {
        return Some(main);
    }
    if let Some(main) = cut_end(stem, ".test") {
        return Some(main);
    }
    if let Some(main) = cut_end(stem, ".spec") {
        return Some(main);
    }
    let prefix = text::chars_of("test_");
    if text::starts_with(stem, &prefix) && stem.len() > prefix.len() {
        let main = slice_subrange(stem, prefix.len(), stem.len());
        assert(main@ =~= stem@.skip("test_"@.len() as int));
        return Some(main);
    }
    None
}

/// The stem that mirror files have in common.
fn common_stem_in(stem: &[char]) -> (r: Vec<char>)
    ensures
        r@ == common_stem(stem@),
{
    if let Some(main) = tested_in(stem) {
        return text::copy_chars(main);
    }
    let down = text::chars_of("down");
    if text::same_chars(stem, &down) {
        return text::chars_of("up");
    }
    if let Some(front) = cut_end(stem, ".down") {
        let mut main = text::copy_chars(front);
        let up = text::chars_of(".up");
        text::extend_chars(&mut main, &up);
        return main;
    }
    if locale_in(stem) {
        return text::chars_of("en");
    }
    proof {
        text::lemma_last_position(stem@, '.');
    }
    if let Some(variant) = text::after_last(stem, '.') {
        let dot: usize = stem.len() - variant.len() - 1;
        if dot > 0 && locale_in(variant) {
            let main = slice_subrange(stem, 0, dot);
            assert(main@ =~= stem@.take(dot as int));
            return text::copy_chars(main);
        }
    }
    text::copy_chars(stem)
}

/// What the paths of mirror files have in common.
fn key_in(path: &[char]) -> (r: Vec<char>)
    ensures
        r@ == group_key(path@),
{
    proof {
        text::lemma_last_position(path@, '/');
    }
    let name: &[char] = match text::after_last(path, '/') {
        Some(name) => name,
        None => path,
    };
    proof {
        text::lemma_last_position(name@, '.');
    }
    let n: usize = match text::after_last(name, '.') {
        Some(ext) => {
            let dot: usize = name.len() - ext.len() - 1;
            if dot > 0 {
                dot
            } else {
                name.len()
            }
        },
        None => name.len(),
    };
    assert(name@ =~= text::file_name(path@));
    assert(n == stem_len(name@));
    let directory = slice_subrange(path, 0, path.len() - name.len());
    let stem = slice_subrange(name, 0, n);
    let rest = slice_subrange(name, n, name.len());
    assert(directory@ =~= path@.take(path@.len() - name@.len()));
    assert(stem@ =~= name@.take(n as int));
    assert(rest@ =~= name@.skip(n as int));
    let mut out = text::copy_chars(directory);
    let main = common_stem_in(stem);
    text::extend_chars(&mut out, &main);
    text::extend_chars(&mut out, rest);
    out
}

/// What the paths of mirror files have in common.
pub fn mirror_key(path: &str) -> (r: String)
    ensures
        r@ == group_key(path@),
{
    let chars = text::chars_of(path);
    let key = key_in(&chars);
    text::string_of(&key)
}

// ---------------------------------------------------------------------------
// Groups
// ---------------------------------------------------------------------------

/// The key of a unit: that of its first file.
pub open spec fn key_of(unit: units::UnitView) -> Seq<char> {
    if unit.files.len() > 0 {
        group_key(unit.files[0])
    } else {
        Seq::empty()
    }
}

/// The id of a group. It comes from the key alone, so that one more variant does
/// not change it.
pub open spec fn group_id(key: Seq<char>) -> Seq<char> {
    units::changeset_id("group:"@ + key)
}

/// The units with a key.
pub open spec fn members(list: Seq<units::UnitView>, key: Seq<char>) -> Seq<units::UnitView> {
    list.filter(|u: units::UnitView| key_of(u) == key)
}

/// Units by their ids.
pub open spec fn by_id(list: Seq<units::UnitView>) -> Seq<units::UnitView> {
    sorting::sorted(
        list,
        |a: units::UnitView, b: units::UnitView| text::at_most(a.unit_id, b.unit_id),
    )
}

/// The files of units, one unit after the other.
pub open spec fn member_files(list: Seq<units::UnitView>) -> Seq<Seq<char>>
    decreases list.len(),
{
    if list.len() == 0 {
        Seq::empty()
    } else {
        member_files(list.drop_last()) + list.last().files
    }
}

/// The fingerprints of units.
pub open spec fn prints_of(list: Seq<units::UnitView>) -> Seq<Seq<char>> {
    list.map_values(|u: units::UnitView| u.unit_fp)
}

/// The unit of a group: the files of its members and the fold of their
/// fingerprints, both in the order of the ids.
pub open spec fn group_of(key: Seq<char>, list: Seq<units::UnitView>) -> units::UnitView {
    units::UnitView {
        unit_id: group_id(key),
        source: UnitSource::Changeset,
        files: member_files(by_id(list)),
        unit_fp: units::folded(prints_of(by_id(list))),
    }
}

/// The unit that stands for a unit: itself where nothing mirrors its file, else
/// its group.
pub open spec fn stands_for(
    list: Seq<units::UnitView>,
    unit: units::UnitView,
) -> units::UnitView {
    let key = key_of(unit);
    if members(list, key).len() < 2 {
        unit
    } else {
        group_of(key, members(list, key))
    }
}

/// Whether the unit at a place has one of its own in a grouped list: nothing
/// mirrors its file, or it is the first of its group.
pub open spec fn leads(list: Seq<units::UnitView>, i: int) -> bool {
    members(list, key_of(list[i])).len() < 2 || members(list.take(i), key_of(list[i])).len() == 0
}

/// The first `n` units, grouped: a group stands where its first member stood.
pub open spec fn grouped_within(list: Seq<units::UnitView>, n: nat) -> Seq<units::UnitView>
    decreases n,
{
    if n == 0 {
        Seq::empty()
    } else {
        let done = grouped_within(list, (n - 1) as nat);
        if leads(list, n - 1) {
            done.push(stands_for(list, list[n - 1]))
        } else {
            done
        }
    }
}

/// Units, grouped.
pub open spec fn grouped(list: Seq<units::UnitView>) -> Seq<units::UnitView> {
    grouped_within(list, list.len())
}

/// A selection with its units grouped, where that is asked for.
pub open spec fn regrouped(selection: units::SelectionView, group_units: bool) -> units::SelectionView {
    if group_units {
        units::SelectionView { units: grouped(selection.units), ..selection }
    } else {
        selection
    }
}

/// The key of every unit.
fn keys_of(list: &[ReviewUnit]) -> (r: Vec<Vec<char>>)
    ensures
        r@.len() == list@.len(),
        forall|i: int| 0 <= i < r@.len() ==> (#[trigger] r@[i])@ == key_of(list@[i]@),
{
    let mut out: Vec<Vec<char>> = Vec::new();
    let mut i: usize = 0;
    while i < list.len()
        invariant
            i <= list@.len(),
            out@.len() == i,
            forall|k: int| 0 <= k < out@.len() ==> (#[trigger] out@[k])@ == key_of(list@[k]@),
        decreases list@.len() - i,
    {
        let key: Vec<char> = if list[i].files.len() > 0 {
            let path = text::chars_of(list[i].files[0].as_str());
            assert(text::views(list@[i as int].files@)[0] == path@);
            key_in(&path)
        } else {
            Vec::new()
        };
        out.push(key);
        i = i + 1;
    }
    out
}

/// The places of the units with a key among the first `n`.
fn places_of(
    keys: &[Vec<char>],
    key: &[char],
    n: usize,
    Ghost(list): Ghost<Seq<units::UnitView>>,
) -> (r: Vec<usize>)
    requires
        n <= keys@.len(),
        keys@.len() == list.len(),
        forall|i: int| 0 <= i < keys@.len() ==> (#[trigger] keys@[i])@ == key_of(list[i]),
    ensures
        sorting::picked(list, r@) == members(list.take(n as int), key@),
        r@.len() == members(list.take(n as int), key@).len(),
        forall|k: int| 0 <= k < r@.len() ==> (#[trigger] r@[k]) < n,
{
    let mut out: Vec<usize> = Vec::new();
    let mut i: usize = 0;
    proof {
        reveal(Seq::filter);
        assert(list.take(0) =~= Seq::empty());
        assert(sorting::picked(list, out@) =~= members(list.take(0), key@));
    }
    while i < n
        invariant
            i <= n <= keys@.len(),
            keys@.len() == list.len(),
            forall|i: int| 0 <= i < keys@.len() ==> (#[trigger] keys@[i])@ == key_of(list[i]),
            sorting::picked(list, out@) == members(list.take(i as int), key@),
            forall|k: int| 0 <= k < out@.len() ==> (#[trigger] out@[k]) < i,
        decreases n - i,
    {
        proof {
            reveal(Seq::filter);
            assert(list.take(i + 1).drop_last() =~= list.take(i as int));
            assert(list.take(i + 1).last() == list[i as int]);
        }
        if text::same_chars(&keys[i], key) {
            let ghost before = out@;
            out.push(i);
            assert(sorting::picked(list, out@) =~= sorting::picked(list, before).push(
                list[i as int],
            ));
        }
        i = i + 1;
    }
    assert(sorting::picked(list, out@).len() == out@.len());
    out
}

/// A copy of a unit.
fn copy_unit(unit: &ReviewUnit) -> (r: ReviewUnit)
    ensures
        r@ == unit@,
{
    ReviewUnit {
        unit_id: unit.unit_id.clone(),
        source: unit.source,
        files: text::copy_strings(&unit.files),
        unit_fp: unit.unit_fp.clone(),
    }
}

/// The unit of a group.
fn group_unit(list: &[ReviewUnit], places: &[usize], key: &[char]) -> (r: ReviewUnit)
    requires
        forall|k: int| 0 <= k < places@.len() ==> (#[trigger] places@[k]) < list@.len(),
    ensures
        r@ == group_of(key@, sorting::picked(units::unit_views(list@), places@)),
        units::is_fingerprint(r.unit_fp@),
{
    let ghost all = units::unit_views(list@);
    let ghost group = sorting::picked(all, places@);
    let ghost rel = |a: units::UnitView, b: units::UnitView| text::at_most(a.unit_id, b.unit_id);
    let n: usize = places.len();
    let le = |i: usize, j: usize| -> (b: bool)
        requires
            i < places@.len(),
            j < places@.len(),
            forall|k: int| 0 <= k < places@.len() ==> (#[trigger] places@[k]) < list@.len(),
        ensures
            b == text::at_most(
                list@[places@[i as int] as int].unit_id@,
                list@[places@[j as int] as int].unit_id@,
            ),
        {
            text::str_not_after(
                list[places[i]].unit_id.as_str(),
                list[places[j]].unit_id.as_str(),
            )
        };
    let order = sorting::sorted_places::<units::UnitView, _>(n, le, Ghost(group), Ghost(rel));
    let ghost ordered = by_id(group);
    assert(sorting::picked(group, order@) == ordered);
    let mut files: Vec<String> = Vec::new();
    let mut prints: Vec<String> = Vec::new();
    let mut i: usize = 0;
    assert(ordered.take(0) =~= Seq::empty());
    assert(text::views(files@) =~= Seq::empty());
    assert(text::views(prints@) =~= prints_of(ordered.take(0)));
    while i < order.len()
        invariant
            i <= order@.len(),
            order@.len() == places@.len(),
            all == units::unit_views(list@),
            group == sorting::picked(all, places@),
            sorting::picked(group, order@) == ordered,
            forall|k: int| 0 <= k < places@.len() ==> (#[trigger] places@[k]) < list@.len(),
            forall|k: int| 0 <= k < order@.len() ==> (#[trigger] order@[k]) < places@.len(),
            text::views(files@) == member_files(ordered.take(i as int)),
            text::views(prints@) == prints_of(ordered.take(i as int)),
        decreases order@.len() - i,
    {
        let unit: &ReviewUnit = &list[places[order[i]]];
        proof {
            assert(ordered[i as int] == group[order@[i as int] as int]);
            assert(ordered[i as int] == unit@);
            assert(ordered.take(i + 1).drop_last() =~= ordered.take(i as int));
            assert(ordered.take(i + 1).last() == unit@);
        }
        let ghost files_before = text::views(files@);
        let ghost more = text::views(unit.files@);
        let mut j: usize = 0;
        assert(files_before + more.take(0) =~= files_before);
        while j < unit.files.len()
            invariant
                j <= unit.files@.len(),
                more == text::views(unit.files@),
                text::views(files@) == files_before + more.take(j as int),
            decreases unit.files@.len() - j,
        {
            let ghost before = files@;
            files.push(unit.files[j].clone());
            proof {
                text::lemma_views_push(before, files@.last());
                assert(files_before + more.take(j + 1) =~= (files_before + more.take(
                    j as int,
                )).push(more[j as int]));
            }
            j = j + 1;
        }
        assert(more.take(j as int) =~= more);
        let ghost before = prints@;
        prints.push(unit.unit_fp.clone());
        proof {
            text::lemma_views_push(before, prints@.last());
            assert(prints_of(ordered.take(i + 1)) =~= prints_of(ordered.take(i as int)).push(
                unit@.unit_fp,
            ));
        }
        i = i + 1;
    }
    assert(ordered.take(i as int) =~= ordered);
    let mut unit_id = "changeset:group:".to_owned();
    text::push_chars(&mut unit_id, key);
    proof {
        lemma_group_id(key@);
    }
    ReviewUnit {
        unit_id,
        source: UnitSource::Changeset,
        files,
        unit_fp: units::fold_fingerprints(&prints),
    }
}

/// How the id of a group begins.
proof fn lemma_group_id(key: Seq<char>)
    ensures
        group_id(key) == "changeset:group:"@ + key,
{
    reveal_strlit("changeset");
    reveal_strlit(":");
    reveal_strlit("group:");
    reveal_strlit("changeset:group:");
    assert(group_id(key) =~= "changeset:group:"@ + key);
}

/// Whether the fingerprint of every unit is one.
pub open spec fn well_printed(list: Seq<ReviewUnit>) -> bool {
    forall|u: int| 0 <= u < list.len() ==> units::is_fingerprint((#[trigger] list[u]).unit_fp@)
}

/// Group the units of mirror files. A group stands where its first member stood.
pub fn group(list: &[ReviewUnit]) -> (r: Vec<ReviewUnit>)
    ensures
        units::unit_views(r@) == grouped(units::unit_views(list@)),
        well_printed(list@) ==> well_printed(r@),
{
    let ghost all = units::unit_views(list@);
    let keys = keys_of(list);
    let mut out: Vec<ReviewUnit> = Vec::new();
    let mut i: usize = 0;
    assert(units::unit_views(out@) =~= Seq::empty());
    while i < list.len()
        invariant
            i <= list@.len(),
            all == units::unit_views(list@),
            keys@.len() == list@.len(),
            forall|k: int| 0 <= k < keys@.len() ==> (#[trigger] keys@[k])@ == key_of(all[k]),
            units::unit_views(out@) == grouped_within(all, i as nat),
            well_printed(list@) ==> well_printed(out@),
        decreases list@.len() - i,
    {
        let places = places_of(&keys, &keys[i], list.len(), Ghost(all));
        let earlier = places_of(&keys, &keys[i], i, Ghost(all));
        assert(all.take(all.len() as int) =~= all);
        let ghost before = out@;
        if places.len() < 2 {
            out.push(copy_unit(&list[i]));
            assert(units::unit_views(out@) =~= units::unit_views(before).push(out@.last()@));
        } else if earlier.len() == 0 {
            out.push(group_unit(list, &places, &keys[i]));
            assert(units::unit_views(out@) =~= units::unit_views(before).push(out@.last()@));
        }
        i = i + 1;
    }
    out
}

/// A selection with its units grouped, where that is asked for.
pub fn regroup(selection: Selection, group_units: bool) -> (r: Selection)
    ensures
        r@ == regrouped(selection@, group_units),
        well_printed(selection.units@) ==> well_printed(r.units@),
{
    if group_units {
        let units = group(&selection.units);
        Selection {
            text: selection.text,
            units,
            excluded: selection.excluded,
            estimated_tokens: selection.estimated_tokens,
        }
    } else {
        selection
    }
}

// ---------------------------------------------------------------------------
// Laws
// ---------------------------------------------------------------------------

/// Grouping changes which units there are: neither the text that is sent, nor what
/// is excluded, nor the estimate. Without it nothing changes.
pub proof fn law_grouping_changes_units_only(selection: units::SelectionView, group_units: bool)
    ensures
        regrouped(selection, group_units).text == selection.text,
        regrouped(selection, group_units).excluded == selection.excluded,
        regrouped(selection, group_units).estimated_tokens == selection.estimated_tokens,
        regrouped(selection, false) == selection,
{
}

/// Where a member comes from.
proof fn lemma_member_source(list: Seq<units::UnitView>, key: Seq<char>, m: int) -> (i: int)
    requires
        0 <= m < members(list, key).len(),
    ensures
        0 <= i < list.len(),
        list[i] == members(list, key)[m],
        key_of(list[i]) == key,
    decreases list.len(),
{
    reveal(Seq::filter);
    let front = list.drop_last();
    if m < members(front, key).len() {
        lemma_member_source(front, key, m)
    } else {
        list.len() - 1
    }
}

/// A unit is among the members of its key.
proof fn lemma_is_member(list: Seq<units::UnitView>, i: int) -> (m: int)
    requires
        0 <= i < list.len(),
    ensures
        0 <= m < members(list, key_of(list[i])).len(),
        members(list, key_of(list[i]))[m] == list[i],
    decreases list.len(),
{
    reveal(Seq::filter);
    let front = list.drop_last();
    if i < front.len() {
        assert(front[i] == list[i]);
        lemma_is_member(front, i)
    } else {
        members(front, key_of(list[i])).len() as int
    }
}

/// Every unit has one that stands for it.
proof fn lemma_stands(list: Seq<units::UnitView>, n: nat, i: int) -> (g: int)
    requires
        0 <= i < n <= list.len(),
    ensures
        0 <= g < grouped_within(list, n).len(),
        grouped_within(list, n)[g] == stands_for(list, list[i]),
    decreases n,
{
    let done = grouped_within(list, (n - 1) as nat);
    if i < n - 1 {
        let g = lemma_stands(list, (n - 1) as nat, i);
        assert(grouped_within(list, n)[g] == done[g]);
        g
    } else if leads(list, i) {
        done.len() as int
    } else {
        let key = key_of(list[i]);
        let first = lemma_member_source(list.take(i), key, 0);
        assert(list.take(i)[first] == list[first]);
        let g = lemma_stands(list, (n - 1) as nat, first);
        assert(grouped_within(list, n)[g] == done[g]);
        g
    }
}

/// Every grouped unit stands for a unit that leads.
proof fn lemma_stands_source(list: Seq<units::UnitView>, n: nat, g: int) -> (i: int)
    requires
        n <= list.len(),
        0 <= g < grouped_within(list, n).len(),
    ensures
        0 <= i < n,
        leads(list, i),
        grouped_within(list, n)[g] == stands_for(list, list[i]),
    decreases n,
{
    let done = grouped_within(list, (n - 1) as nat);
    if g < done.len() {
        lemma_stands_source(list, (n - 1) as nat, g)
    } else {
        n - 1
    }
}

/// Of two grouped units, the earlier stands for the earlier unit.
proof fn lemma_stands_pair(list: Seq<units::UnitView>, n: nat, a: int, b: int) -> (at: (int, int))
    requires
        n <= list.len(),
        0 <= a < b < grouped_within(list, n).len(),
    ensures
        0 <= at.0 < at.1 < n,
        leads(list, at.0),
        leads(list, at.1),
        grouped_within(list, n)[a] == stands_for(list, list[at.0]),
        grouped_within(list, n)[b] == stands_for(list, list[at.1]),
    decreases n,
{
    let done = grouped_within(list, (n - 1) as nat);
    if b < done.len() {
        lemma_stands_pair(list, (n - 1) as nat, a, b)
    } else {
        (lemma_stands_source(list, (n - 1) as nat, a), n - 1)
    }
}

/// What the files of units are.
proof fn lemma_member_files(list: Seq<units::UnitView>, file: Seq<char>)
    ensures
        member_files(list).contains(file) <==> exists|i: int|
            0 <= i < list.len() && (#[trigger] list[i]).files.contains(file),
    decreases list.len(),
{
    if list.len() > 0 {
        let front = list.drop_last();
        let n = list.len() - 1;
        lemma_member_files(front, file);
        let a = member_files(front);
        let b = list.last().files;
        vstd::seq_lib::lemma_seq_concat_contains_all_elements(a, b, file);
        if exists|i: int| 0 <= i < list.len() && (#[trigger] list[i]).files.contains(file) {
            let i = choose|i: int|
                0 <= i < list.len() && (#[trigger] list[i]).files.contains(file);
            if i < n {
                assert(front[i].files.contains(file));
            }
        }
        if a.contains(file) {
            let i = choose|i: int|
                0 <= i < front.len() && (#[trigger] front[i]).files.contains(file);
            assert(list[i].files.contains(file));
        }
        if b.contains(file) {
            assert(list[n].files.contains(file));
        }
    }
}

/// Sorting by id keeps the units.
proof fn lemma_by_id(list: Seq<units::UnitView>, unit: units::UnitView)
    ensures
        by_id(list).contains(unit) <==> list.contains(unit),
{
    let rel = |a: units::UnitView, b: units::UnitView| text::at_most(a.unit_id, b.unit_id);
    sorting::law_sorting_is_a_permutation(list, rel);
    by_id(list).to_multiset_ensures();
    list.to_multiset_ensures();
    assert(by_id(list).contains(unit) <==> by_id(list).to_multiset().count(unit) > 0);
}

/// Grouping loses no file: each file of each unit is a file of a grouped unit.
pub proof fn law_grouping_keeps_every_file(
    list: Seq<units::UnitView>,
    i: int,
    file: Seq<char>,
)
    requires
        0 <= i < list.len(),
        list[i].files.contains(file),
    ensures
        exists|g: int|
            0 <= g < grouped(list).len() && (#[trigger] grouped(list)[g]).files.contains(file),
{
    let g = lemma_stands(list, list.len(), i);
    let key = key_of(list[i]);
    let group = members(list, key);
    if group.len() >= 2 {
        let m = lemma_is_member(list, i);
        assert(group.contains(group[m]));
        lemma_by_id(group, list[i]);
        let k = choose|k: int| 0 <= k < by_id(group).len() && by_id(group)[k] == list[i];
        assert(by_id(group)[k].files.contains(file));
        lemma_member_files(by_id(group), file);
    }
    assert(grouped(list)[g].files.contains(file));
}

/// A unit whose file nothing mirrors stays as it is.
pub proof fn law_unrelated_files_keep_their_units(list: Seq<units::UnitView>, i: int)
    requires
        0 <= i < list.len(),
        forall|j: int|
            0 <= j < list.len() && j != i ==> key_of(#[trigger] list[j]) != key_of(list[i]),
    ensures
        grouped(list).contains(list[i]),
{
    let g = lemma_stands(list, list.len(), i);
    lemma_lone_member(list, i);
    assert(grouped(list)[g] == list[i]);
}

/// A key that one unit has has one member.
proof fn lemma_lone_member(list: Seq<units::UnitView>, i: int)
    requires
        0 <= i < list.len(),
        forall|j: int|
            0 <= j < list.len() && j != i ==> key_of(#[trigger] list[j]) != key_of(list[i]),
    ensures
        members(list, key_of(list[i])).len() == 1,
    decreases list.len(),
{
    reveal(Seq::filter);
    let front = list.drop_last();
    assert(forall|j: int| 0 <= j < front.len() ==> front[j] == #[trigger] list[j]);
    if i < front.len() {
        lemma_lone_member(front, i);
        assert(list.last() == list[list.len() - 1]);
    } else {
        let key = key_of(list[i]);
        if members(front, key).len() > 0 {
            let j = lemma_member_source(front, key, 0);
            assert(front[j] == list[j]);
        }
    }
}

/// Only mirror files share a unit: where every unit is that of one file, two files
/// of a grouped unit have the same key.
pub proof fn law_only_mirror_files_share_a_unit(
    list: Seq<units::UnitView>,
    g: int,
    a: Seq<char>,
    b: Seq<char>,
)
    requires
        forall|i: int| 0 <= i < list.len() ==> (#[trigger] list[i]).files.len() == 1,
        0 <= g < grouped(list).len(),
        grouped(list)[g].files.contains(a),
        grouped(list)[g].files.contains(b),
    ensures
        group_key(a) == group_key(b),
{
    let i = lemma_stands_source(list, list.len(), g);
    let key = key_of(list[i]);
    if members(list, key).len() >= 2 {
        lemma_group_file(list, key, a);
        lemma_group_file(list, key, b);
    }
}

/// The files of a group have its key.
proof fn lemma_group_file(list: Seq<units::UnitView>, key: Seq<char>, file: Seq<char>)
    requires
        forall|i: int| 0 <= i < list.len() ==> (#[trigger] list[i]).files.len() == 1,
        member_files(by_id(members(list, key))).contains(file),
    ensures
        group_key(file) == key,
{
    let group = members(list, key);
    lemma_member_files(by_id(group), file);
    let k = choose|k: int|
        0 <= k < by_id(group).len() && (#[trigger] by_id(group)[k]).files.contains(file);
    lemma_by_id(group, by_id(group)[k]);
    let m = choose|m: int| 0 <= m < group.len() && group[m] == by_id(group)[k];
    let i = lemma_member_source(list, key, m);
    assert(list[i].files.len() == 1);
}

/// The id of a group comes from its key alone: whichever mirror files change, two
/// of them make a group of that id, and one more does not change it.
pub proof fn law_group_id_is_stable(list: Seq<units::UnitView>, i: int, j: int)
    requires
        0 <= i < j < list.len(),
        key_of(list[i]) == key_of(list[j]),
    ensures
        exists|g: int|
            0 <= g < grouped(list).len() && (#[trigger] grouped(list)[g]).unit_id == group_id(
                key_of(list[i]),
            ),
{
    lemma_two_members(list, i, j);
    let g = lemma_stands(list, list.len(), i);
    assert(grouped(list)[g].unit_id == group_id(key_of(list[i])));
}

proof fn lemma_two_members(list: Seq<units::UnitView>, i: int, j: int)
    requires
        0 <= i < j < list.len(),
        key_of(list[i]) == key_of(list[j]),
    ensures
        members(list, key_of(list[i])).len() >= 2,
    decreases list.len(),
{
    reveal(Seq::filter);
    let front = list.drop_last();
    assert(front[i] == list[i]);
    if j < front.len() {
        assert(front[j] == list[j]);
        lemma_two_members(front, i, j);
    } else {
        lemma_is_member(front, i);
    }
}

/// A document that knows a unit by its id alone reports the key of a group as its
/// file.
pub proof fn law_group_reports_its_key(key: Seq<char>)
    ensures
        output::files_of(group_id(key)) == seq![key],
{
    lemma_group_id(key);
    reveal_strlit("changeset:group:");
    reveal_strlit("group:");
    let id = group_id(key);
    text::lemma_position(id, ':');
    assert(id[9] == ':');
    assert(text::position(id, ':') == 9);
    assert(id.skip(10) =~= "group:"@ + key);
    assert(text::begins(id.skip(10), "group:"@)) by {
        assert(id.skip(10).take("group:"@.len() as int) =~= "group:"@);
    }
    assert(id.skip(10).skip("group:"@.len() as int) =~= key);
}

/// Grouped units have distinct ids where the units had, and none of these looks
/// like the id of a group.
pub proof fn law_grouped_ids_are_distinct(list: Seq<units::UnitView>, a: int, b: int)
    requires
        forall|i: int, j: int|
            0 <= i < j < list.len() ==> (#[trigger] list[i]).unit_id != (#[trigger] list[j]).unit_id,
        forall|i: int, key: Seq<char>|
            0 <= i < list.len() ==> (#[trigger] list[i]).unit_id != #[trigger] group_id(key),
        0 <= a < b < grouped(list).len(),
    ensures
        grouped(list)[a].unit_id != grouped(list)[b].unit_id,
{
    let (i, j) = lemma_stands_pair(list, list.len(), a, b);
    let key = key_of(list[i]);
    let other = key_of(list[j]);
    if members(list, key).len() >= 2 && members(list, other).len() >= 2 {
        if key == other {
            let before = list.take(j);
            assert(before[i] == list[i]);
            lemma_is_member(before, i);
        }
        if group_id(key) == group_id(other) {
            lemma_group_id(key);
            lemma_group_id(other);
            let head = "changeset:group:"@;
            assert((head + key).skip(head.len() as int) =~= key);
            assert((head + other).skip(head.len() as int) =~= other);
        }
    }
    assert(list[i].unit_id != list[j].unit_id);
}

} // verus!
