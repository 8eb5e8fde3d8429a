//! Which files mirror each other, stated over their names.

use vstd::prelude::*;
use vstd::utf8::*;

use crate::groups;
use crate::sorting;
use crate::text;
use crate::text_laws;
use crate::units;

verus! {

/// Mirror files stand in one directory and have one extension: the key of a path is
/// its directory, what its stem has in common with its mirrors, and its extension.
pub proof fn law_keys_keep_directory_and_extension(
    dir: Seq<char>,
    stem: Seq<char>,
    ext: Seq<char>,
)
    requires
        dir.len() > 0 ==> dir.last() == '/',
        stem.len() > 0,
        !stem.contains('/'),
        !ext.contains('/'),
        !ext.contains('.'),
    ensures
        groups::group_key(dir + stem + seq!['.'] + ext) == dir + groups::common_stem(stem)
            + seq!['.'] + ext,
{
    let name = stem + seq!['.'] + ext;
    let path = dir + stem + seq!['.'] + ext;
    assert(path =~= dir + name);
    assert(!name.contains('/')) by {
        if name.contains('/') {
            let i = choose|i: int| 0 <= i < name.len() && name[i] == '/';
            if i < stem.len() {
                assert(stem.contains(stem[i]));
            } else if i > stem.len() {
                assert(ext.contains(ext[i - stem.len() - 1]));
            }
        }
    }
    if dir.len() > 0 {
        let d = dir.drop_last();
        assert(dir =~= d.push('/'));
        text_laws::law_file_name_is_the_last_component(d, name);
    } else {
        assert(path =~= name);
        text_laws::law_file_name_is_the_last_component(dir, name);
    }
    assert(text::file_name(path) == name);
    text::lemma_last_position(name, '.');
    let p = text::last_position(name, '.');
    assert(name[stem.len() as int] == '.');
    if p > stem.len() {
        assert(ext.contains(ext[p - stem.len() - 1]));
    }
    assert(p == stem.len());
    assert(name.take(p) =~= stem);
    assert(name.skip(p) =~= seq!['.'] + ext);
    assert(path.take(path.len() - name.len()) =~= dir);
    assert(groups::group_key(path) =~= dir + groups::common_stem(stem) + seq!['.'] + ext);
}

/// A test belongs to the file that it tests, whichever of the usual marks it has.
pub proof fn law_tests_belong_to_what_they_test(stem: Seq<char>)
    requires
        stem.len() > 0,
    ensures
        groups::common_stem(stem + "_test"@) == stem,
        groups::common_stem(stem + ".test"@) == stem,
        groups::common_stem(stem + ".spec"@) == stem,
        !text::ends("test_"@ + stem, "_test"@) && !text::ends("test_"@ + stem, ".test"@)
            && !text::ends("test_"@ + stem, ".spec"@) ==> groups::common_stem("test_"@ + stem)
            == stem,
{
    reveal_strlit("_test");
    reveal_strlit(".test");
    reveal_strlit(".spec");
    reveal_strlit("test_");
    lemma_without_end(stem, "_test"@);
    lemma_without_end(stem, ".test"@);
    lemma_without_end(stem, ".spec"@);
    let dotted = stem + ".test"@;
    let spec = stem + ".spec"@;
    if text::ends(dotted, "_test"@) {
        assert(dotted.subrange(dotted.len() - 5, dotted.len() as int)[0] == '_');
    }
    if text::ends(spec, "_test"@) {
        assert(spec.subrange(spec.len() - 5, spec.len() as int)[0] == '_');
    }
    if text::ends(spec, ".test"@) {
        assert(spec.subrange(spec.len() - 5, spec.len() as int)[1] == 't');
    }
    let first = "test_"@ + stem;
    assert(first.subrange(0, 5) =~= "test_"@);
    assert(first.skip(5) =~= stem);
}

proof fn lemma_without_end(front: Seq<char>, end: Seq<char>)
    requires
        front.len() > 0,
    ensures
        groups::without_end(front + end, end) == Some(front),
{
    let s = front + end;
    assert(s.subrange(s.len() - end.len(), s.len() as int) =~= end);
    assert(s.take(s.len() - end.len()) =~= front);
}

/// The two directions of a migration belong together: the one backwards has the key of
/// the one forwards.
pub proof fn law_migrations_belong_together(front: Seq<char>)
    requires
        front.len() > 0,
        !text::begins(front + ".down"@, "test_"@),
    ensures
        groups::common_stem(front + ".down"@) == front + ".up"@,
        groups::common_stem("down"@) == "up"@,
{
    reveal_strlit("_test");
    reveal_strlit(".test");
    reveal_strlit(".spec");
    reveal_strlit("test_");
    reveal_strlit(".down");
    reveal_strlit("down");
    lemma_without_end(front, ".down"@);
    let s = front + ".down"@;
    assert(s.last() == 'n');
    if text::ends(s, "_test"@) {
        assert(s.subrange(s.len() - 5, s.len() as int)[4] == 't');
    }
    if text::ends(s, ".test"@) {
        assert(s.subrange(s.len() - 5, s.len() as int)[4] == 't');
    }
    if text::ends(s, ".spec"@) {
        assert(s.subrange(s.len() - 5, s.len() as int)[4] == 'c');
    }
    assert(s.len() > 4 && "down"@.len() == 4);
    assert("_test"@.len() == 5 && ".test"@.len() == 5 && ".spec"@.len() == 5);
    assert("test_"@.len() == 5);
}

/// The language variants of a text belong together: a language behind the stem is left
/// out of the key, and where the language is the whole stem English stands for all.
pub proof fn law_language_variants_belong_together(stem: Seq<char>, language: Seq<char>)
    requires
        text::listed(groups::LANGUAGES@, language),
        language.len() == 2,
        !language.contains('.'),
        stem.len() > 0,
        !text::begins(stem + seq!['.'] + language, "test_"@),
        !groups::is_locale(stem + seq!['.'] + language),
    ensures
        groups::common_stem(language) == "en"@,
        groups::common_stem(stem + seq!['.'] + language) == stem,
{
    reveal_strlit("_test");
    reveal_strlit(".test");
    reveal_strlit(".spec");
    reveal_strlit("test_");
    reveal_strlit(".down");
    reveal_strlit("down");
    assert("_test"@.len() == 5 && ".test"@.len() == 5 && ".spec"@.len() == 5);
    assert("test_"@.len() == 5 && ".down"@.len() == 5 && "down"@.len() == 4);
    let s = stem + seq!['.'] + language;
    let n = s.len();
    assert(s[n - 3] == '.');
    if text::ends(s, "_test"@) {
        assert(s.subrange(n - 5, n as int)[2] == 'e');
    }
    if text::ends(s, ".test"@) {
        assert(s.subrange(n - 5, n as int)[2] == 'e');
    }
    if text::ends(s, ".spec"@) {
        assert(s.subrange(n - 5, n as int)[2] == 'p');
    }
    if text::ends(s, ".down"@) {
        assert(s.subrange(n - 5, n as int)[2] == 'o');
    }
    if s == "down"@ {
        assert("down"@[1] == 'o');
    }
    text::lemma_last_position(s, '.');
    let p = text::last_position(s, '.');
    if p > stem.len() {
        assert(language.contains(language[p - stem.len() - 1]));
    }
    assert(p == stem.len());
    assert(s.skip(p + 1) =~= language);
    assert(s.take(p) =~= stem);
}

/// A language may name its region, behind a hyphen or an underscore.
pub proof fn law_languages_may_name_a_region(language: Seq<char>, sign: char, a: char, b: char)
    requires
        text::listed(groups::LANGUAGES@, language),
        language.len() == 2,
        sign == '-' || sign == '_',
        'A' <= a <= 'Z' || 'a' <= a <= 'z',
        'A' <= b <= 'Z' || 'a' <= b <= 'z',
    ensures
        groups::is_locale(language),
        groups::is_locale(language + seq![sign, a, b]),
{
    let s = language + seq![sign, a, b];
    assert(s.take(2) =~= language);
    assert(s.skip(3) =~= seq![a, b]);
}

/// A stem without any of the marks mirrors nothing: it is its own key.
pub proof fn law_plain_stems_mirror_nothing(stem: Seq<char>)
    requires
        !text::ends(stem, "_test"@),
        !text::ends(stem, ".test"@),
        !text::ends(stem, ".spec"@),
        !text::ends(stem, ".down"@),
        !text::begins(stem, "test_"@),
        stem != "down"@,
        !stem.contains('.'),
        !groups::is_locale(stem),
    ensures
        groups::common_stem(stem) == stem,
{
    text::lemma_last_position(stem, '.');
    if text::last_position(stem, '.') >= 0 {
        assert(stem.contains(stem[text::last_position(stem, '.')]));
    }
}

/// A group does not depend on the order in which its members came: its files and its
/// fingerprint follow the ids.
pub proof fn law_groups_do_not_depend_on_order(
    key: Seq<char>,
    a: Seq<units::UnitView>,
    b: Seq<units::UnitView>,
)
    requires
        a.to_multiset() == b.to_multiset(),
        forall|i: int, j: int|
            0 <= i < j < a.len() ==> (#[trigger] a[i]).unit_id != (#[trigger] a[j]).unit_id,
    ensures
        groups::group_of(key, a) == groups::group_of(key, b),
{
    let le = |x: units::UnitView, y: units::UnitView| text::at_most(x.unit_id, y.unit_id);
    assert(sorting::is_order(le)) by {
        assert forall|x: units::UnitView, y: units::UnitView| #[trigger] le(x, y) || le(y, x) by {
            text::lemma_at_most_total(x.unit_id, y.unit_id);
        }
        assert forall|x: units::UnitView, y: units::UnitView, z: units::UnitView| #[trigger]
            le(x, y) && #[trigger] le(y, z) implies le(x, z) by {
            text::lemma_at_most_trans(x.unit_id, y.unit_id, z.unit_id);
        }
    }
    sorting::law_sorting_is_a_permutation(a, le);
    sorting::law_sorting_is_a_permutation(b, le);
    sorting::law_sorting_sorts(a, le);
    sorting::law_sorting_sorts(b, le);
    let u = groups::by_id(a);
    let v = groups::by_id(b);
    a.to_multiset_ensures();
    u.to_multiset_ensures();
    assert forall|x: units::UnitView, y: units::UnitView|
        u.contains(x) && u.contains(y) && #[trigger] le(x, y) && #[trigger] le(y, x) implies x
        == y by {
        text::lemma_at_most_antisym(x.unit_id, y.unit_id);
        assert(u.to_multiset().count(x) > 0 && u.to_multiset().count(y) > 0);
        assert(a.contains(x) && a.contains(y));
        let i = choose|i: int| 0 <= i < a.len() && a[i] == x;
        let j = choose|j: int| 0 <= j < a.len() && a[j] == y;
        if i < j {
            assert(a[i].unit_id != a[j].unit_id);
        } else if j < i {
            assert(a[j].unit_id != a[i].unit_id);
        }
    }
    assert forall|x: units::UnitView| u.contains(x) implies #[trigger] le(x, x) by {
        text::lemma_at_most_refl(x.unit_id);
    }
    sorting::law_order_is_unique(u, v, le);
}

/// The fingerprint of a group is taken of the fingerprints of its members, each on a line
/// of its own.
pub proof fn law_groups_are_fingerprinted_line_by_line(prints: Seq<Seq<char>>, last: Seq<char>)
    requires
        prints.len() > 0,
    ensures
        units::folded(seq![last]) == units::short_hex(units::sha1_of(encode_utf8(last))),
        units::folded(prints.push(last)) == units::short_hex(
            units::sha1_of(encode_utf8(text::joined(prints, "\n"@) + "\n"@ + last)),
        ),
{
    text_laws::law_joining_puts_a_separator_between(prints, seq![last], "\n"@);
    text_laws::law_joining_puts_a_separator_between(seq![last], prints, "\n"@);
    assert(prints + seq![last] =~= prints.push(last));
    assert(seq![seq![last][0]] =~= seq![last]);
}

} // verus!
