//! What the operations on texts promise.

use vstd::prelude::*;

use crate::text;

verus! {

/// A part of a text is found in it.
pub proof fn law_a_part_is_mentioned(front: Seq<char>, part: Seq<char>, back: Seq<char>)
    ensures
        text::occurs_at(front + part + back, part, front.len() as int),
        text::mentions(front + part + back, part),
{
    let all = front + part + back;
    assert(all.subrange(front.len() as int, (front.len() + part.len()) as int) =~= part);
    assert(text::occurs_at(all, part, front.len() as int));
}

/// A text mentions exactly what it is made of: something in front, the part, and
/// something behind.
pub proof fn law_mentioning_is_being_made_of(s: Seq<char>, part: Seq<char>)
    ensures
        text::mentions(s, part) <==> exists|i: int, j: int|
            0 <= i <= j <= s.len() && #[trigger] s.subrange(i, j) == part,
{
    if text::mentions(s, part) {
        let i = choose|i: int| text::occurs_at(s, part, i);
        assert(s.subrange(i, i + part.len()) == part);
    }
    if exists|i: int, j: int| 0 <= i <= j <= s.len() && #[trigger] s.subrange(i, j) == part {
        let (i, j) = choose|i: int, j: int|
            0 <= i <= j <= s.len() && #[trigger] s.subrange(i, j) == part;
        assert(text::occurs_at(s, part, i));
    }
}

/// What is mentioned in a part is mentioned in the whole.
pub proof fn law_mentioning_is_transitive(s: Seq<char>, part: Seq<char>, piece: Seq<char>)
    requires
        text::mentions(s, part),
        text::mentions(part, piece),
    ensures
        text::mentions(s, piece),
{
    let i = choose|i: int| text::occurs_at(s, part, i);
    let k = choose|k: int| text::occurs_at(part, piece, k);
    assert(s.subrange(i + k, i + k + piece.len()) =~= s.subrange(i, i + part.len()).subrange(
        k,
        k + piece.len(),
    ));
    assert(text::occurs_at(s, piece, i + k));
}

/// A text begins with a prefix exactly when it is the prefix and something behind
/// it, and ends with a suffix exactly when it is something and the suffix.
pub proof fn law_beginnings_and_endings(s: Seq<char>, part: Seq<char>)
    ensures
        text::begins(s, part) <==> part.len() <= s.len() && s == part + s.skip(part.len() as int),
        text::ends(s, part) <==> part.len() <= s.len() && s == s.take(s.len() - part.len()) + part,
{
    if part.len() <= s.len() {
        let n = part.len() as int;
        let m = s.len() - part.len();
        if text::begins(s, part) {
            assert(s =~= part + s.skip(n));
        }
        if s == part + s.skip(n) {
            assert(s.subrange(0, n) =~= part);
        }
        if text::ends(s, part) {
            assert(s =~= s.take(m) + part);
        }
        if s == s.take(m) + part {
            assert(s.subrange(m, s.len() as int) =~= part);
        }
    }
}

/// Whether white space is all that a text has.
pub open spec fn all_white(s: Seq<char>) -> bool {
    forall|i: int| 0 <= i < s.len() ==> text::is_white(#[trigger] s[i])
}

/// Trimming takes away white space at the two ends and nothing else: the text is
/// white space, what is left, and white space, and what is left neither begins nor
/// ends with white space.
pub proof fn law_trimming_takes_white_space_only(s: Seq<char>) -> (at: (int, int))
    ensures
        0 <= at.0 <= at.1 <= s.len(),
        text::trimmed(s) == s.subrange(at.0, at.1),
        all_white(s.take(at.0)),
        all_white(s.skip(at.1)),
        at.0 < at.1 ==> !text::is_white(s[at.0]) && !text::is_white(s[at.1 - 1]),
{
    let a = lemma_trimmed_start(s);
    let t = text::trimmed_start(s);
    let b = lemma_trimmed_end(t);
    assert(text::trimmed(s) =~= s.subrange(a, a + b));
    assert forall|i: int| 0 <= i < s.skip(a + b).len() implies text::is_white(
        #[trigger] s.skip(a + b)[i],
    ) by {
        assert(s.skip(a + b)[i] == t.skip(b)[i]);
    }
    if b > 0 {
        assert(t[0] == s[a]);
        assert(t[b - 1] == s[a + b - 1]);
    }
    (a, a + b)
}

proof fn lemma_trimmed_start(s: Seq<char>) -> (a: int)
    ensures
        0 <= a <= s.len(),
        text::trimmed_start(s) == s.skip(a),
        all_white(s.take(a)),
        a < s.len() ==> !text::is_white(s[a]),
    decreases s.len(),
{
    if s.len() > 0 && text::is_white(s[0]) {
        let t = s.drop_first();
        let k = lemma_trimmed_start(t);
        assert(t.skip(k) =~= s.skip(k + 1));
        assert forall|i: int| 0 <= i < s.take(k + 1).len() implies text::is_white(
            #[trigger] s.take(k + 1)[i],
        ) by {
            if i > 0 {
                assert(t.take(k)[i - 1] == s[i]);
            }
        }
        if k < t.len() {
            assert(t[k] == s[k + 1]);
        }
        k + 1
    } else {
        assert(s.skip(0) =~= s);
        0
    }
}

proof fn lemma_trimmed_end(s: Seq<char>) -> (b: int)
    ensures
        0 <= b <= s.len(),
        text::trimmed_end(s) == s.take(b),
        all_white(s.skip(b)),
        b > 0 ==> !text::is_white(s[b - 1]),
    decreases s.len(),
{
    if s.len() > 0 && text::is_white(s.last()) {
        let t = s.drop_last();
        let b = lemma_trimmed_end(t);
        assert(t.take(b) =~= s.take(b));
        assert forall|i: int| 0 <= i < s.skip(b).len() implies text::is_white(
            #[trigger] s.skip(b)[i],
        ) by {
            if b + i < t.len() {
                assert(t.skip(b)[i] == s[b + i]);
            }
        }
        if b > 0 {
            assert(t[b - 1] == s[b - 1]);
        }
        b
    } else {
        assert(s.take(s.len() as int) =~= s);
        s.len() as int
    }
}

/// A text without white space at its ends is left alone by trimming.
pub proof fn law_trimming_leaves_the_rest(s: Seq<char>)
    requires
        s.len() > 0 ==> !text::is_white(s[0]) && !text::is_white(s.last()),
    ensures
        text::trimmed(s) == s,
        text::trimmed_start(s) == s,
{
}

/// No visible ASCII character is white space; blank, tab and the ends of lines are.
pub proof fn law_visible_characters_are_no_white_space(c: char)
    ensures
        33 <= c as u32 <= 126 ==> !text::is_white(c),
        c == ' ' || c == '\t' || c == '\n' || c == '\r' ==> text::is_white(c),
{
}

/// Lower case changes the letters A to Z, each to the one that it is a capital of,
/// and no other character.
pub proof fn law_lower_case_is_letter_by_letter(s: Seq<char>, i: int)
    requires
        0 <= i < s.len(),
    ensures
        text::lowered(s).len() == s.len(),
        'A' <= s[i] <= 'Z' ==> 'a' <= text::lowered(s)[i] <= 'z' && text::lowered(s)[i] as u32
            - 'a' as u32 == s[i] as u32 - 'A' as u32,
        !('A' <= s[i] <= 'Z') ==> text::lowered(s)[i] == s[i],
{
}

/// Replacing a character changes its places and no other.
pub proof fn law_replacing_changes_one_character(s: Seq<char>, from: char, to: char, i: int)
    requires
        0 <= i < s.len(),
    ensures
        text::replaced(s, from, to).len() == s.len(),
        s[i] == from ==> text::replaced(s, from, to)[i] == to,
        s[i] != from ==> text::replaced(s, from, to)[i] == s[i],
{
}

/// A text without the character is left alone.
pub proof fn law_replacing_nothing_changes_nothing(s: Seq<char>, from: char, to: char)
    requires
        !s.contains(from),
    ensures
        text::replaced(s, from, to) == s,
{
    assert forall|i: int| 0 <= i < s.len() implies s[i] != from by {
        assert(s.contains(s[i]));
    }
    assert(text::replaced(s, from, to) =~= s);
}

/// Whether a text can stand on a line: it has no newline, and no carriage return at
/// its end.
pub open spec fn fits_a_line(row: Seq<char>) -> bool {
    !row.contains('\n') && (row.len() > 0 ==> row.last() != '\r')
}

/// Rows, each ended by a newline.
pub open spec fn ended(rows: Seq<Seq<char>>) -> Seq<Seq<char>> {
    rows.map_values(|r: Seq<char>| r.push('\n'))
}

/// The lines of a text are the rows that it was written of.
pub proof fn law_lines_are_read_back(rows: Seq<Seq<char>>)
    requires
        forall|i: int| 0 <= i < rows.len() ==> fits_a_line(#[trigger] rows[i]),
    ensures
        text::lines(text::concat(ended(rows))) == rows,
{
    let raw = ended(rows);
    assert forall|i: int| 0 <= i < raw.len() implies {
        &&& (#[trigger] raw[i]).len() > 0
        &&& forall|k: int| 0 <= k < raw[i].len() - 1 ==> raw[i][k] != '\n'
        &&& i < raw.len() - 1 ==> raw[i].last() == '\n'
    } by {
        assert(fits_a_line(rows[i]));
        assert forall|k: int| 0 <= k < raw[i].len() - 1 implies raw[i][k] != '\n' by {
            assert(rows[i].contains(rows[i][k]));
        }
    }
    text::lemma_lines_of_concat(raw);
    assert forall|i: int| 0 <= i < rows.len() implies #[trigger] text::without_eol(raw[i])
        == rows[i] by {
        assert(fits_a_line(rows[i]));
        assert(raw[i].drop_last() =~= rows[i]);
    }
    assert(text::lines(text::concat(raw)) =~= rows);
}

/// The name of a file is what follows the last slash of its path.
pub proof fn law_file_name_is_the_last_component(dir: Seq<char>, name: Seq<char>)
    requires
        !name.contains('/'),
    ensures
        text::file_name(name) == name,
        text::file_name(dir.push('/') + name) == name,
{
    text::lemma_last_position(name, '/');
    if text::last_position(name, '/') >= 0 {
        assert(name.contains(name[text::last_position(name, '/')]));
    }
    let path = dir.push('/') + name;
    text::lemma_last_position(path, '/');
    let p = text::last_position(path, '/');
    assert(path[dir.len() as int] == '/');
    if p > dir.len() {
        assert(name.contains(name[p - dir.len() - 1]));
    }
    assert(path.skip(p + 1) =~= name);
}

/// The extension of a file is what follows the last dot of its name, in lower case;
/// a name without a dot has none. The directory does not matter.
pub proof fn law_extension_follows_the_last_dot(
    dir: Seq<char>,
    stem: Seq<char>,
    ext: Seq<char>,
)
    requires
        !stem.contains('/'),
        !ext.contains('/'),
        !ext.contains('.'),
    ensures
        text::extension(stem.push('.') + ext) == text::lowered(ext),
        text::extension(dir.push('/') + (stem.push('.') + ext)) == text::lowered(ext),
        text::extension(ext) == Seq::<char>::empty(),
        text::extension(dir.push('/') + ext) == Seq::<char>::empty(),
{
    let name = stem.push('.') + ext;
    assert(!name.contains('/')) by {
        if name.contains('/') {
            let k = choose|k: int| 0 <= k < name.len() && name[k] == '/';
            if k < stem.len() {
                assert(stem.contains(stem[k]));
            } else {
                assert(ext.contains(ext[k - stem.len() - 1]));
            }
        }
    }
    law_file_name_is_the_last_component(dir, name);
    law_file_name_is_the_last_component(dir, ext);
    text::lemma_last_position(name, '.');
    let p = text::last_position(name, '.');
    assert(name[stem.len() as int] == '.');
    if p > stem.len() {
        assert(ext.contains(ext[p - stem.len() - 1]));
    }
    assert(name.skip(p + 1) =~= ext);
    text::lemma_last_position(ext, '.');
    if text::last_position(ext, '.') >= 0 {
        assert(ext.contains(ext[text::last_position(ext, '.')]));
    }
}

/// Joined texts: the parts in order, the separator between two of them and nowhere
/// else.
pub proof fn law_joining_puts_a_separator_between(
    a: Seq<Seq<char>>,
    b: Seq<Seq<char>>,
    sep: Seq<char>,
)
    requires
        a.len() > 0,
        b.len() > 0,
    ensures
        text::joined(a + b, sep) == text::joined(a, sep) + sep + text::joined(b, sep),
        text::joined(seq![a[0]], sep) == a[0],
    decreases b.len(),
{
    let front = b.drop_last();
    assert((a + b).drop_last() =~= a + front);
    assert((a + b).last() == b.last());
    if b.len() == 1 {
        assert(a + front =~= a);
    } else {
        law_joining_puts_a_separator_between(a, front, sep);
        assert(text::joined(a, sep) + sep + (text::joined(front, sep) + sep + b.last())
            =~= text::joined(a, sep) + sep + text::joined(front, sep) + sep + b.last());
    }
}

/// Every part is mentioned in the joined text.
pub proof fn law_joining_keeps_every_part(parts: Seq<Seq<char>>, sep: Seq<char>, i: int)
    requires
        0 <= i < parts.len(),
    ensures
        text::mentions(text::joined(parts, sep), parts[i]),
    decreases parts.len(),
{
    let all = text::joined(parts, sep);
    if parts.len() == 1 {
        law_a_part_is_mentioned(Seq::empty(), parts[0], Seq::empty());
        assert(Seq::<char>::empty() + parts[0] + Seq::<char>::empty() =~= parts[0]);
    } else if i == parts.len() - 1 {
        let front = text::joined(parts.drop_last(), sep) + sep;
        law_a_part_is_mentioned(front, parts[i], Seq::empty());
        assert(front + parts[i] + Seq::<char>::empty() =~= all);
    } else {
        let front = parts.drop_last();
        assert(front[i] == parts[i]);
        law_joining_keeps_every_part(front, sep, i);
        law_a_part_is_mentioned(Seq::empty(), text::joined(front, sep), sep + parts.last());
        assert(Seq::<char>::empty() + text::joined(front, sep) + (sep + parts.last()) =~= all);
        law_mentioning_is_transitive(all, text::joined(front, sep), parts[i]);
    }
}

/// The number that decimal digits write.
pub open spec fn number_in(digits: Seq<char>) -> int
    decreases digits.len(),
{
    if digits.len() == 0 {
        0
    } else {
        10 * number_in(digits.drop_last()) + (digits.last() as u32 - '0' as u32)
    }
}

/// A number is written in digits, without a leading zero, and reads as it was.
pub proof fn law_decimals_read_back(n: nat)
    ensures
        number_in(text::decimal(n)) == n,
        text::decimal(n).len() > 0,
        n > 0 ==> text::decimal(n)[0] != '0',
        forall|i: int|
            0 <= i < text::decimal(n).len() ==> '0' <= #[trigger] text::decimal(n)[i] <= '9',
    decreases n,
{
    if n < 10 {
        assert(text::decimal(n).drop_last() =~= Seq::<char>::empty());
        assert(number_in(Seq::<char>::empty()) == 0);
    } else {
        law_decimals_read_back(n / 10);
        assert(text::decimal(n).drop_last() =~= text::decimal(n / 10));
    }
}

/// The order of texts: a beginning comes first, and else the first difference
/// decides.
pub proof fn law_first_difference_decides(
    common: Seq<char>,
    a: char,
    b: char,
    x: Seq<char>,
    y: Seq<char>,
)
    requires
        a < b,
    ensures
        text::at_most(common, common + x),
        text::at_most(common + seq![a] + x, common + seq![b] + y),
        !text::at_most(common + seq![b] + y, common + seq![a] + x),
    decreases common.len(),
{
    let s = common + seq![a] + x;
    let t = common + seq![b] + y;
    if common.len() > 0 {
        let rest = common.drop_first();
        law_first_difference_decides(rest, a, b, x, y);
        assert(s.drop_first() =~= rest + seq![a] + x);
        assert(t.drop_first() =~= rest + seq![b] + y);
        assert((common + x).drop_first() =~= rest + x);
    }
}

/// The beginning of a text that fits a number of bytes is a beginning, fits, and no
/// longer one does.
pub proof fn law_byte_prefix_is_the_longest_that_fits(s: Seq<char>, max: nat, k: int)
    requires
        0 <= k <= s.len(),
    ensures
        text::byte_prefix(s, max).len() <= s.len(),
        text::byte_prefix(s, max) == s.take(text::byte_prefix(s, max).len() as int),
        text::byte_len(text::byte_prefix(s, max)) <= max,
        text::byte_len(s.take(k)) <= max ==> k <= text::byte_prefix(s, max).len(),
{
    text::lemma_byte_prefix(s, max);
}

/// Removing leading copies of a text removes copies of it, and leaves nothing that
/// begins with one.
pub proof fn law_leading_copies_are_removed(s: Seq<char>, prefix: Seq<char>) -> (n: nat)
    requires
        prefix.len() > 0,
    ensures
        s == text::concat(Seq::new(n, |i: int| prefix)) + text::without_prefixes(s, prefix),
        !text::begins(text::without_prefixes(s, prefix), prefix),
    decreases s.len(),
{
    if text::begins(s, prefix) {
        let rest = s.skip(prefix.len() as int);
        let n = law_leading_copies_are_removed(rest, prefix);
        let copies = Seq::new(n, |i: int| prefix);
        text::lemma_concat_add(seq![prefix], copies);
        text::lemma_concat_one(prefix);
        assert(seq![prefix] + copies =~= Seq::new(n + 1, |i: int| prefix));
        assert(s =~= prefix + rest);
        assert(s =~= prefix + text::concat(copies) + text::without_prefixes(rest, prefix));
        n + 1
    } else {
        let copies = Seq::new(0, |i: int| prefix);
        assert(copies =~= Seq::<Seq<char>>::empty());
        assert(s =~= text::concat(copies) + s);
        0
    }
}

/// What follows the last copy of a text is found, and there is no later copy.
pub proof fn law_last_occurrence_is_the_last(s: Seq<char>, needle: Seq<char>, i: int)
    ensures
        text::last_occurrence(s, needle) >= 0 ==> text::occurs_at(
            s,
            needle,
            text::last_occurrence(s, needle),
        ),
        text::occurs_at(s, needle, i) ==> i <= text::last_occurrence(s, needle),
    decreases s.len(),
{
    if !text::ends(s, needle) && s.len() > 0 {
        let t = s.drop_last();
        law_last_occurrence_is_the_last(t, needle, i);
        let p = text::last_occurrence(t, needle);
        if p >= 0 {
            assert(t.subrange(p, p + needle.len()) =~= s.subrange(p, p + needle.len()));
        }
        if text::occurs_at(s, needle, i) {
            if i + needle.len() == s.len() {
                assert(text::ends(s, needle));
            } else {
                assert(t.subrange(i, i + needle.len()) =~= s.subrange(i, i + needle.len()));
            }
        }
    }
}

} // verus!
