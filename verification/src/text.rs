//! Text as sequences of characters.
//!
//! Every string of this crate is modelled by its sequence of characters. The
//! spec functions here say what the usual string operations mean on such
//! sequences; the executable functions beside them work on character slices in
//! linear passes.

use vstd::prelude::*;
use vstd::slice::slice_subrange;
use vstd::utf8::*;

verus! {

/// `String::push` appends one character to the end of the string.
pub assume_specification[ String::push ](s: &mut String, c: char)
    ensures
        final(s)@ == old(s)@.push(c),
;

// ---------------------------------------------------------------------------
// Conversions
// ---------------------------------------------------------------------------

/// The contents of a sequence of strings.
pub open spec fn views(strings: Seq<String>) -> Seq<Seq<char>> {
    strings.map_values(|s: String| s@)
}

/// The contents of a sequence of character vectors.
pub open spec fn char_views(rows: Seq<Vec<char>>) -> Seq<Seq<char>> {
    rows.map_values(|row: Vec<char>| row@)
}

/// What an optional string holds.
pub open spec fn opt_view(s: Option<String>) -> Option<Seq<char>> {
    match s {
        Some(s) => Some(s@),
        None => None,
    }
}

/// What an optional string slice holds.
pub open spec fn opt_str_view(s: Option<&str>) -> Option<Seq<char>> {
    match s {
        Some(s) => Some(s@),
        None => None,
    }
}

/// The characters of `s`.
pub fn chars_of(s: &str) -> (r: Vec<char>)
    ensures
        r@ == s@,
{
    let mut out: Vec<char> = Vec::new();
    for c in it: s.chars()
        invariant
            out@ == it.seq().take(it.index()),
            it.seq() == s@,
    {
        out.push(c);
    }
    out
}

/// Append the characters `chars` to `out`.
pub fn push_chars(out: &mut String, chars: &[char])
    ensures
        final(out)@ == old(out)@ + chars@,
{
    let mut i: usize = 0;
    while i < chars.len()
        invariant
            i <= chars@.len(),
            out@ == old(out)@ + chars@.take(i as int),
        decreases chars@.len() - i,
    {
        out.push(chars[i]);
        assert(chars@.take(i + 1) == chars@.take(i as int).push(chars@[i as int]));
        i = i + 1;
    }
    assert(chars@.take(i as int) == chars@);
}

/// The string made of `chars`.
pub fn string_of(chars: &[char]) -> (r: String)
    ensures
        r@ == chars@,
{
    let mut out = String::new();
    push_chars(&mut out, chars);
    out
}

/// Append the characters `more` to `out`.
pub fn extend_chars(out: &mut Vec<char>, more: &[char])
    ensures
        final(out)@ == old(out)@ + more@,
{
    let mut i: usize = 0;
    while i < more.len()
        invariant
            i <= more@.len(),
            out@ == old(out)@ + more@.take(i as int),
        decreases more@.len() - i,
    {
        out.push(more[i]);
        assert(more@.take(i + 1) == more@.take(i as int).push(more@[i as int]));
        i = i + 1;
    }
    assert(more@.take(i as int) == more@);
}

/// A fresh copy of `chars`.
pub fn copy_chars(chars: &[char]) -> (r: Vec<char>)
    ensures
        r@ == chars@,
{
    let mut out: Vec<char> = Vec::new();
    extend_chars(&mut out, chars);
    out
}

/// Whether two strings hold the same characters.
pub fn same(a: &str, b: &str) -> (r: bool)
    ensures
        r == (a@ == b@),
{
    a.to_owned() == b.to_owned()
}

/// Whether two character slices are equal.
pub fn same_chars(a: &[char], b: &[char]) -> (r: bool)
    ensures
        r == (a@ == b@),
{
    if a.len() != b.len() {
        return false;
    }
    let mut i: usize = 0;
    while i < a.len()
        invariant
            i <= a@.len(),
            a@.len() == b@.len(),
            forall|j: int| 0 <= j < i ==> a@[j] == b@[j],
        decreases a@.len() - i,
    {
        if a[i] != b[i] {
            return false;
        }
        i = i + 1;
    }
    assert(a@ =~= b@);
    true
}

/// Whether `names` holds `name`.
pub fn has_name(names: &[String], name: &str) -> (r: bool)
    ensures
        r == views(names@).contains(name@),
{
    let mut i: usize = 0;
    while i < names.len()
        invariant
            i <= names@.len(),
            forall|j: int| 0 <= j < i ==> names@[j]@ != name@,
        decreases names@.len() - i,
    {
        if same(names[i].as_str(), name) {
            assert(views(names@)[i as int] == name@);
            return true;
        }
        i = i + 1;
    }
    assert(!views(names@).contains(name@)) by {
        if views(names@).contains(name@) {
            let j = choose|j: int| 0 <= j < views(names@).len() && views(names@)[j] == name@;
            assert(names@[j]@ == name@);
        }
    }
    false
}

/// A copy of a slice of strings.
pub fn copy_strings(strings: &[String]) -> (r: Vec<String>)
    ensures
        r@ == strings@,
        views(r@) == views(strings@),
{
    let mut out: Vec<String> = Vec::new();
    let mut i: usize = 0;
    while i < strings.len()
        invariant
            i <= strings@.len(),
            out@ == strings@.take(i as int),
        decreases strings@.len() - i,
    {
        out.push(strings[i].clone());
        assert(strings@.take(i + 1) == strings@.take(i as int).push(strings@[i as int]));
        i = i + 1;
    }
    assert(strings@.take(i as int) == strings@);
    out
}

// ---------------------------------------------------------------------------
// White space
// ---------------------------------------------------------------------------

/// The characters with Unicode's `White_Space` property.
pub open spec fn is_white(c: char) -> bool {
    ||| '\u{9}' <= c <= '\u{d}'
    ||| c == '\u{20}'
    ||| c == '\u{85}'
    ||| c == '\u{a0}'
    ||| c == '\u{1680}'
    ||| '\u{2000}' <= c <= '\u{200a}'
    ||| c == '\u{2028}'
    ||| c == '\u{2029}'
    ||| c == '\u{202f}'
    ||| c == '\u{205f}'
    ||| c == '\u{3000}'
}

/// Whether `c` is white space.
pub fn white(c: char) -> (r: bool)
    ensures
        r == is_white(c),
{
    ('\u{9}' <= c && c <= '\u{d}') || c == '\u{20}' || c == '\u{85}' || c == '\u{a0}' || c
        == '\u{1680}' || ('\u{2000}' <= c && c <= '\u{200a}') || c == '\u{2028}' || c == '\u{2029}'
        || c == '\u{202f}' || c == '\u{205f}' || c == '\u{3000}'
}

/// `s` without its leading white space.
pub open spec fn trimmed_start(s: Seq<char>) -> Seq<char>
    decreases s.len(),
{
    if s.len() > 0 && is_white(s[0]) {
        trimmed_start(s.drop_first())
    } else {
        s
    }
}

/// `s` without its trailing white space.
pub open spec fn trimmed_end(s: Seq<char>) -> Seq<char>
    decreases s.len(),
{
    if s.len() > 0 && is_white(s.last()) {
        trimmed_end(s.drop_last())
    } else {
        s
    }
}

/// `s` without leading and trailing white space.
pub open spec fn trimmed(s: Seq<char>) -> Seq<char> {
    trimmed_end(trimmed_start(s))
}

/// Strip leading white space.
pub fn trim_start<'a>(s: &'a [char]) -> (r: &'a [char])
    ensures
        r@ == trimmed_start(s@),
{
    let mut i: usize = 0;
    assert(s@.skip(0) == s@);
    while i < s.len() && white(s[i])
        invariant
            i <= s@.len(),
            trimmed_start(s@) == trimmed_start(s@.skip(i as int)),
        decreases s@.len() - i,
    {
        assert(s@.skip(i as int).drop_first() == s@.skip(i + 1));
        i = i + 1;
    }
    slice_subrange(s, i, s.len())
}

/// Strip trailing white space.
pub fn trim_end<'a>(s: &'a [char]) -> (r: &'a [char])
    ensures
        r@ == trimmed_end(s@),
{
    let mut n: usize = s.len();
    assert(s@.take(n as int) == s@);
    while n > 0 && white(s[n - 1])
        invariant
            n <= s@.len(),
            trimmed_end(s@) == trimmed_end(s@.take(n as int)),
        decreases n,
    {
        assert(s@.take(n as int).drop_last() == s@.take(n - 1));
        n = n - 1;
    }
    slice_subrange(s, 0, n)
}

/// Strip leading and trailing white space.
pub fn trim<'a>(s: &'a [char]) -> (r: &'a [char])
    ensures
        r@ == trimmed(s@),
{
    trim_end(trim_start(s))
}

/// Whether `s` is empty or white space only.
pub fn is_blank(s: &str) -> (r: bool)
    ensures
        r == (trimmed(s@).len() == 0),
{
    let chars = chars_of(s);
    trim(&chars).len() == 0
}

// ---------------------------------------------------------------------------
// Case, prefixes, occurrences
// ---------------------------------------------------------------------------

/// ASCII lower case of one character; others are unchanged.
pub open spec fn lower_char(c: char) -> char {
    if 'A' <= c <= 'Z' {
        (c as u32 + 32) as char
    } else {
        c
    }
}

/// ASCII lower case of a text.
pub open spec fn lowered(s: Seq<char>) -> Seq<char> {
    s.map_values(|c: char| lower_char(c))
}

/// ASCII lower case of one character.
pub fn lower_of(c: char) -> (r: char)
    ensures
        r == lower_char(c),
{
    if 'A' <= c && c <= 'Z' {
        ((c as u32 + 32) as u8) as char
    } else {
        c
    }
}

/// ASCII lower case of a text.
pub fn lower(s: &[char]) -> (r: Vec<char>)
    ensures
        r@ == lowered(s@),
{
    let mut out: Vec<char> = Vec::new();
    let mut i: usize = 0;
    while i < s.len()
        invariant
            i <= s@.len(),
            out@ == lowered(s@.take(i as int)),
        decreases s@.len() - i,
    {
        out.push(lower_of(s[i]));
        assert(s@.take(i + 1) == s@.take(i as int).push(s@[i as int]));
        assert(lowered(s@.take(i + 1)) =~= lowered(s@.take(i as int)).push(lower_char(s@[i as int])));
        i = i + 1;
    }
    assert(s@.take(i as int) == s@);
    out
}

/// Whether `needle` stands in `s` at position `i`.
pub open spec fn occurs_at(s: Seq<char>, needle: Seq<char>, i: int) -> bool {
    0 <= i && i + needle.len() <= s.len() && s.subrange(i, i + needle.len()) == needle
}

/// Whether `s` has `needle` as a contiguous part.
pub open spec fn mentions(s: Seq<char>, needle: Seq<char>) -> bool {
    exists|i: int| occurs_at(s, needle, i)
}

/// Whether `needle` stands in `s` at position `i`.
pub fn is_at(s: &[char], needle: &[char], i: usize) -> (r: bool)
    requires
        i <= s@.len(),
    ensures
        r == occurs_at(s@, needle@, i as int),
{
    if needle.len() > s.len() - i {
        return false;
    }
    let mut j: usize = 0;
    while j < needle.len()
        invariant
            i + needle@.len() <= s@.len() <= usize::MAX,
            j <= needle@.len(),
            forall|k: int| 0 <= k < j ==> s@[i + k] == needle@[k],
        decreases needle@.len() - j,
    {
        if s[i + j] != needle[j] {
            assert(s@.subrange(i as int, i + needle@.len())[j as int] != needle@[j as int]);
            return false;
        }
        j = j + 1;
    }
    assert(s@.subrange(i as int, i + needle@.len()) =~= needle@);
    true
}

/// Whether `s` has `needle` as a contiguous part.
pub fn contains(s: &[char], needle: &[char]) -> (r: bool)
    ensures
        r == mentions(s@, needle@),
{
    let mut i: usize = 0;
    loop
        invariant
            i <= s@.len(),
            forall|k: int| 0 <= k < i ==> !occurs_at(s@, needle@, k),
        decreases s@.len() - i,
    {
        if is_at(s, needle, i) {
            return true;
        }
        if i == s.len() {
            assert(!mentions(s@, needle@)) by {
                if mentions(s@, needle@) {
                    let k = choose|k: int| occurs_at(s@, needle@, k);
                    assert(k == i || k < i);
                }
            }
            return false;
        }
        i = i + 1;
    }
}

/// Whether `s` begins with `prefix`.
pub open spec fn begins(s: Seq<char>, prefix: Seq<char>) -> bool {
    occurs_at(s, prefix, 0)
}

/// Whether `s` begins with `prefix`.
pub fn starts_with(s: &[char], prefix: &[char]) -> (r: bool)
    ensures
        r == begins(s@, prefix@),
{
    is_at(s, prefix, 0)
}

/// Whether `s` ends with `suffix`.
pub open spec fn ends(s: Seq<char>, suffix: Seq<char>) -> bool {
    occurs_at(s, suffix, s.len() - suffix.len())
}

/// Whether `s` ends with `suffix`.
pub fn ends_with(s: &[char], suffix: &[char]) -> (r: bool)
    ensures
        r == ends(s@, suffix@),
{
    if suffix.len() > s.len() {
        return false;
    }
    is_at(s, suffix, s.len() - suffix.len())
}

/// `s` with every leading copy of `prefix` removed.
pub open spec fn without_prefixes(s: Seq<char>, prefix: Seq<char>) -> Seq<char>
    decreases s.len(),
{
    if prefix.len() > 0 && begins(s, prefix) {
        without_prefixes(s.skip(prefix.len() as int), prefix)
    } else {
        s
    }
}

/// Remove every leading copy of `prefix`.
pub fn strip_prefixes<'a>(s: &'a [char], prefix: &[char]) -> (r: &'a [char])
    ensures
        r@ == without_prefixes(s@, prefix@),
{
    let mut rest: &'a [char] = s;
    while prefix.len() > 0 && starts_with(rest, prefix)
        invariant
            without_prefixes(s@, prefix@) == without_prefixes(rest@, prefix@),
        decreases rest@.len(),
    {
        let n: usize = prefix.len();
        assert(rest@.skip(n as int) == rest@.subrange(n as int, rest@.len() as int));
        rest = slice_subrange(rest, n, rest.len());
    }
    rest
}

/// `s` with every `from` replaced by `to`.
pub open spec fn replaced(s: Seq<char>, from: char, to: char) -> Seq<char> {
    s.map_values(|c: char| if c == from { to } else { c })
}

/// Replace every `from` by `to`.
pub fn replace(s: &[char], from: char, to: char) -> (r: Vec<char>)
    ensures
        r@ == replaced(s@, from, to),
{
    let mut out: Vec<char> = Vec::new();
    let mut i: usize = 0;
    while i < s.len()
        invariant
            i <= s@.len(),
            out@.len() == i,
            forall|k: int| 0 <= k < i ==> out@[k] == (if s@[k] == from { to } else { s@[k] }),
        decreases s@.len() - i,
    {
        out.push(if s[i] == from { to } else { s[i] });
        i = i + 1;
    }
    assert(out@ =~= replaced(s@, from, to));
    out
}

/// The first position of `c` in `s`, or the length of `s`.
pub open spec fn position(s: Seq<char>, c: char) -> int
    decreases s.len(),
{
    if s.len() == 0 || s[0] == c {
        0
    } else {
        1 + position(s.drop_first(), c)
    }
}

/// The last position of `c` in `s`, or -1.
pub open spec fn last_position(s: Seq<char>, c: char) -> int
    decreases s.len(),
{
    if s.len() == 0 {
        -1
    } else if s.last() == c {
        s.len() - 1
    } else {
        last_position(s.drop_last(), c)
    }
}

/// What `position` is.
pub proof fn lemma_position(s: Seq<char>, c: char)
    ensures
        0 <= position(s, c) <= s.len(),
        position(s, c) < s.len() ==> s[position(s, c)] == c,
        forall|i: int| 0 <= i < position(s, c) ==> s[i] != c,
    decreases s.len(),
{
    if s.len() > 0 && s[0] != c {
        let t = s.drop_first();
        lemma_position(t, c);
        assert forall|i: int| 0 <= i < position(s, c) implies s[i] != c by {
            if i > 0 {
                assert(t[i - 1] == s[i]);
            }
        }
    }
}

/// What `last_position` is.
pub proof fn lemma_last_position(s: Seq<char>, c: char)
    ensures
        -1 <= last_position(s, c) < s.len(),
        last_position(s, c) >= 0 ==> s[last_position(s, c)] == c,
        forall|i: int| last_position(s, c) < i < s.len() ==> s[i] != c,
    decreases s.len(),
{
    if s.len() > 0 && s.last() != c {
        let t = s.drop_last();
        lemma_last_position(t, c);
        assert forall|i: int| last_position(s, c) < i < s.len() implies s[i] != c by {
            if i < t.len() {
                assert(t[i] == s[i]);
            }
        }
    }
}

/// The first position of `c`, or the length.
pub fn find_char(s: &[char], c: char) -> (r: usize)
    ensures
        r == position(s@, c),
{
    let mut i: usize = 0;
    while i < s.len()
        invariant
            i <= s@.len(),
            forall|k: int| 0 <= k < i ==> s@[k] != c,
        decreases s@.len() - i,
    {
        if s[i] == c {
            proof {
                lemma_position(s@, c);
            }
            return i;
        }
        i = i + 1;
    }
    proof {
        lemma_position(s@, c);
    }
    i
}

/// The text after the last `c`, where there is one.
pub fn after_last<'a>(s: &'a [char], c: char) -> (r: Option<&'a [char]>)
    ensures
        match r {
            Some(t) => last_position(s@, c) >= 0 && t@ == s@.skip(last_position(s@, c) + 1),
            None => last_position(s@, c) < 0,
        },
{
    let mut n: usize = s.len();
    proof {
        lemma_last_position(s@, c);
    }
    while n > 0
        invariant
            n <= s@.len(),
            forall|k: int| n <= k < s@.len() ==> s@[k] != c,
            -1 <= last_position(s@, c) < s@.len(),
            last_position(s@, c) >= 0 ==> s@[last_position(s@, c)] == c,
            forall|i: int| last_position(s@, c) < i < s@.len() ==> s@[i] != c,
        decreases n,
    {
        if s[n - 1] == c {
            assert(last_position(s@, c) == n - 1);
            assert(s@.skip(n as int) =~= s@.subrange(n as int, s@.len() as int));
            return Some(slice_subrange(s, n, s.len()));
        }
        n = n - 1;
    }
    None
}

/// The last position at which `needle` stands in `s`, or -1.
pub open spec fn last_occurrence(s: Seq<char>, needle: Seq<char>) -> int
    decreases s.len(),
{
    if ends(s, needle) {
        s.len() - needle.len()
    } else if s.len() == 0 {
        -1
    } else {
        last_occurrence(s.drop_last(), needle)
    }
}

/// The text after the last `needle`, where there is one.
pub fn after_last_text<'a>(s: &'a [char], needle: &[char]) -> (r: Option<&'a [char]>)
    ensures
        match r {
            Some(t) => last_occurrence(s@, needle@) >= 0 && t@ == s@.skip(
                last_occurrence(s@, needle@) + needle@.len(),
            ),
            None => last_occurrence(s@, needle@) < 0,
        },
{
    let mut n: usize = s.len();
    assert(s@.take(n as int) == s@);
    loop
        invariant
            n <= s@.len(),
            last_occurrence(s@, needle@) == last_occurrence(s@.take(n as int), needle@),
        decreases n,
    {
        let part = slice_subrange(s, 0, n);
        assert(part@ == s@.take(n as int));
        if ends_with(part, needle) {
            assert(s@.skip(n as int) =~= s@.subrange(n as int, s@.len() as int));
            return Some(slice_subrange(s, n, s.len()));
        }
        if n == 0 {
            return None;
        }
        assert(s@.take(n as int).drop_last() == s@.take(n - 1));
        n = n - 1;
    }
}

// ---------------------------------------------------------------------------
// Concatenation
// ---------------------------------------------------------------------------

/// The parts one after the other.
pub open spec fn concat(parts: Seq<Seq<char>>) -> Seq<char>
    decreases parts.len(),
{
    if parts.len() == 0 {
        Seq::empty()
    } else {
        concat(parts.drop_last()) + parts.last()
    }
}

/// The parts one after the other, with `sep` between them.
pub open spec fn joined(parts: Seq<Seq<char>>, sep: Seq<char>) -> Seq<char>
    decreases parts.len(),
{
    if parts.len() == 0 {
        Seq::empty()
    } else if parts.len() == 1 {
        parts[0]
    } else {
        joined(parts.drop_last(), sep) + sep + parts.last()
    }
}

/// `concat` of one more part.
pub proof fn lemma_concat_push(parts: Seq<Seq<char>>, last: Seq<char>)
    ensures
        concat(parts.push(last)) == concat(parts) + last,
{
    assert(parts.push(last).drop_last() =~= parts);
}

/// `concat` of two lists of parts.
pub proof fn lemma_concat_add(a: Seq<Seq<char>>, b: Seq<Seq<char>>)
    ensures
        concat(a + b) == concat(a) + concat(b),
    decreases b.len(),
{
    if b.len() == 0 {
        assert(a + b =~= a);
        assert(concat(a) + concat(b) =~= concat(a));
    } else {
        lemma_concat_add(a, b.drop_last());
        assert((a + b).drop_last() =~= a + b.drop_last());
        assert((a + b).last() == b.last());
        assert(concat(a) + concat(b) =~= concat(a) + concat(b.drop_last()) + b.last());
    }
}

/// `concat` of one part.
pub proof fn lemma_concat_one(part: Seq<char>)
    ensures
        concat(seq![part]) == part,
{
    lemma_concat_push(Seq::empty(), part);
    assert(Seq::<Seq<char>>::empty().push(part) =~= seq![part]);
    assert(concat(seq![part]) =~= part);
}

/// One more string at the end.
pub proof fn lemma_views_push(strings: Seq<String>, s: String)
    ensures
        views(strings.push(s)) == views(strings).push(s@),
{
    assert(views(strings.push(s)) =~= views(strings).push(s@));
}

/// The rows one after the other.
pub fn concat_rows(rows: &[Vec<char>]) -> (r: Vec<char>)
    ensures
        r@ == concat(char_views(rows@)),
{
    let mut out: Vec<char> = Vec::new();
    let mut i: usize = 0;
    assert(char_views(rows@.take(0)) =~= Seq::empty());
    while i < rows.len()
        invariant
            i <= rows@.len(),
            out@ == concat(char_views(rows@.take(i as int))),
        decreases rows@.len() - i,
    {
        extend_chars(&mut out, &rows[i]);
        proof {
            lemma_concat_push(char_views(rows@.take(i as int)), rows@[i as int]@);
            assert(char_views(rows@.take(i + 1)) =~= char_views(rows@.take(i as int)).push(
                rows@[i as int]@,
            ));
        }
        i = i + 1;
    }
    assert(rows@.take(i as int) =~= rows@);
    out
}

/// The strings one after the other, with `sep` between them.
pub fn join(strings: &[String], sep: &str) -> (r: String)
    ensures
        r@ == joined(views(strings@), sep@),
{
    let mut out = String::new();
    let mut i: usize = 0;
    assert(views(strings@.take(0)) =~= Seq::empty());
    while i < strings.len()
        invariant
            i <= strings@.len(),
            out@ == joined(views(strings@.take(i as int)), sep@),
        decreases strings@.len() - i,
    {
        if i > 0 {
            out.append(sep);
        }
        out.append(strings[i].as_str());
        proof {
            let a = views(strings@.take(i as int));
            let b = views(strings@.take(i + 1));
            assert(b.drop_last() =~= a);
            assert(b.last() == strings@[i as int]@);
        }
        i = i + 1;
    }
    assert(strings@.take(i as int) =~= strings@);
    out
}

// ---------------------------------------------------------------------------
// Lines
// ---------------------------------------------------------------------------

/// The length of the first line of `s`, its `\n` counted.
pub open spec fn first_line_len(s: Seq<char>) -> int
    decreases s.len(),
{
    if s.len() == 0 {
        0
    } else if s[0] == '\n' {
        1
    } else {
        1 + first_line_len(s.drop_first())
    }
}

/// The lines of `s`, each with its terminator.
pub open spec fn raw_lines(s: Seq<char>) -> Seq<Seq<char>>
    decreases s.len(),
{
    let n = first_line_len(s);
    if s.len() == 0 || n < 1 || n > s.len() {
        Seq::empty()
    } else {
        seq![s.take(n)] + raw_lines(s.skip(n))
    }
}

/// A line without its `\n` or `\r\n`.
pub open spec fn without_eol(line: Seq<char>) -> Seq<char> {
    if line.len() > 0 && line.last() == '\n' {
        let body = line.drop_last();
        if body.len() > 0 && body.last() == '\r' {
            body.drop_last()
        } else {
            body
        }
    } else {
        line
    }
}

/// The lines of `s` without their terminators.
pub open spec fn lines(s: Seq<char>) -> Seq<Seq<char>> {
    raw_lines(s).map_values(|l: Seq<char>| without_eol(l))
}

/// What `first_line_len` is.
pub proof fn lemma_first_line_len(s: Seq<char>)
    ensures
        0 <= first_line_len(s) <= s.len(),
        s.len() > 0 ==> first_line_len(s) >= 1,
        forall|i: int| 0 <= i < first_line_len(s) - 1 ==> s[i] != '\n',
        0 < first_line_len(s) < s.len() ==> s[first_line_len(s) - 1] == '\n',
    decreases s.len(),
{
    if s.len() > 0 && s[0] != '\n' {
        let t = s.drop_first();
        lemma_first_line_len(t);
        assert forall|i: int| 0 <= i < first_line_len(s) - 1 implies s[i] != '\n' by {
            if i > 0 {
                assert(t[i - 1] == s[i]);
            }
        }
        if 0 < first_line_len(s) < s.len() {
            assert(t[first_line_len(t) - 1] == s[first_line_len(s) - 1]);
        }
    }
}

/// Splitting into lines loses nothing.
pub proof fn lemma_raw_lines_concat(s: Seq<char>)
    ensures
        concat(raw_lines(s)) == s,
    decreases s.len(),
{
    lemma_first_line_len(s);
    if s.len() > 0 {
        let n = first_line_len(s);
        lemma_raw_lines_concat(s.skip(n));
        lemma_concat_add(seq![s.take(n)], raw_lines(s.skip(n)));
        lemma_concat_one(s.take(n));
        assert(s.take(n) + s.skip(n) =~= s);
    } else {
        assert(s =~= Seq::empty());
    }
}

/// Lines, each with its terminator; the last may lack it.
pub open spec fn line_list(rows: Seq<Seq<char>>) -> bool {
    forall|i: int|
        0 <= i < rows.len() ==> {
            &&& (#[trigger] rows[i]).len() > 0
            &&& forall|k: int| 0 <= k < rows[i].len() - 1 ==> rows[i][k] != '\n'
            &&& i < rows.len() - 1 ==> rows[i].last() == '\n'
        }
}

/// The lines of a text are such a list, and the last one ends as the text does.
pub proof fn lemma_raw_lines_are_lines(s: Seq<char>)
    ensures
        line_list(raw_lines(s)),
        s.len() > 0 ==> raw_lines(s).len() > 0 && raw_lines(s).last().last() == s.last(),
        s.len() == 0 ==> raw_lines(s).len() == 0,
    decreases s.len(),
{
    lemma_first_line_len(s);
    if s.len() > 0 {
        let n = first_line_len(s);
        let rest = raw_lines(s.skip(n));
        lemma_raw_lines_are_lines(s.skip(n));
        let all = raw_lines(s);
        assert(all == seq![s.take(n)] + rest);
        assert forall|i: int| 0 <= i < all.len() implies {
            &&& (#[trigger] all[i]).len() > 0
            &&& forall|k: int| 0 <= k < all[i].len() - 1 ==> all[i][k] != '\n'
            &&& i < all.len() - 1 ==> all[i].last() == '\n'
        } by {
            if i > 0 {
                assert(all[i] == rest[i - 1]);
            }
        }
        if n == s.len() {
            assert(s.skip(n) =~= Seq::empty());
            assert(all.last() == s.take(n));
        } else {
            assert(all.last() == rest.last());
        }
    }
}

/// A list of lines is read back from the text that it makes.
pub proof fn lemma_lines_of_concat(rows: Seq<Seq<char>>)
    requires
        line_list(rows),
    ensures
        raw_lines(concat(rows)) == rows,
    decreases rows.len(),
{
    let s = concat(rows);
    if rows.len() > 0 {
        let first = rows[0];
        let rest = rows.drop_first();
        assert forall|i: int| 0 <= i < rest.len() implies {
            &&& (#[trigger] rest[i]).len() > 0
            &&& forall|k: int| 0 <= k < rest[i].len() - 1 ==> rest[i][k] != '\n'
            &&& i < rest.len() - 1 ==> rest[i].last() == '\n'
        } by {
            assert(rest[i] == rows[i + 1]);
        }
        lemma_lines_of_concat(rest);
        lemma_concat_add(seq![first], rest);
        lemma_concat_one(first);
        assert(seq![first] + rest =~= rows);
        assert(s == first + concat(rest));
        lemma_first_line_len(s);
        let n = first_line_len(s);
        let m = first.len() as int;
        assert forall|k: int| 0 <= k < m - 1 implies s[k] != '\n' by {
            assert(s[k] == first[k]);
        }
        assert(s[m - 1] == first[m - 1]);
        if m < s.len() {
            assert(rest.len() > 0) by {
                if rest.len() == 0 {
                    assert(concat(rest) =~= Seq::empty());
                }
            }
            assert(first.last() == '\n');
            assert(s[m - 1] == '\n');
        }
        assert(n == m);
        assert(s.take(m) =~= first);
        assert(s.skip(m) =~= concat(rest));
        assert(raw_lines(s) =~= rows);
    } else {
        assert(raw_lines(s) =~= rows);
    }
}

/// A text after another one that ends a line begins on a line of its own.
pub proof fn lemma_raw_lines_append(a: Seq<char>, b: Seq<char>)
    requires
        a.len() == 0 || a.last() == '\n',
    ensures
        raw_lines(a + b) == raw_lines(a) + raw_lines(b),
{
    lemma_raw_lines_are_lines(a);
    lemma_raw_lines_are_lines(b);
    let x = raw_lines(a);
    let y = raw_lines(b);
    let all = x + y;
    assert forall|i: int| 0 <= i < all.len() implies {
        &&& (#[trigger] all[i]).len() > 0
        &&& forall|k: int| 0 <= k < all[i].len() - 1 ==> all[i][k] != '\n'
        &&& i < all.len() - 1 ==> all[i].last() == '\n'
    } by {
        if i < x.len() {
            assert(all[i] == x[i]);
        } else {
            assert(all[i] == y[i - x.len()]);
        }
    }
    lemma_concat_add(x, y);
    lemma_raw_lines_concat(a);
    lemma_raw_lines_concat(b);
    lemma_lines_of_concat(all);
}

/// Ending the last line of a text changes that line alone.
pub proof fn lemma_raw_lines_terminated(s: Seq<char>)
    requires
        s.len() > 0,
        s.last() != '\n',
    ensures
        raw_lines(s).len() > 0,
        raw_lines(s.push('\n')) == raw_lines(s).drop_last().push(raw_lines(s).last().push('\n')),
{
    lemma_raw_lines_are_lines(s);
    lemma_raw_lines_concat(s);
    let rows = raw_lines(s);
    let last = rows.last().push('\n');
    let all = rows.drop_last().push(last);
    assert forall|i: int| 0 <= i < all.len() implies {
        &&& (#[trigger] all[i]).len() > 0
        &&& forall|k: int| 0 <= k < all[i].len() - 1 ==> all[i][k] != '\n'
        &&& i < all.len() - 1 ==> all[i].last() == '\n'
    } by {
        if i < all.len() - 1 {
            assert(all[i] == rows[i]);
        } else {
            let l = rows[rows.len() - 1];
            assert(l[l.len() - 1] == s.last());
            assert forall|k: int| 0 <= k < last.len() - 1 implies last[k] != '\n' by {
                assert(last[k] == l[k]);
            }
        }
    }
    lemma_lines_of_concat(all);
    lemma_concat_push(rows.drop_last(), last);
    assert(concat(rows.drop_last()) + rows.last() == s);
    assert(concat(all) =~= s.push('\n'));
}

/// The end of the line that begins at `from`.
fn line_end(s: &[char], from: usize) -> (r: usize)
    requires
        from < s@.len(),
    ensures
        from < r <= s@.len(),
        r == from + first_line_len(s@.skip(from as int)),
{
    let ghost t = s@.skip(from as int);
    proof {
        lemma_first_line_len(t);
    }
    let mut i: usize = from;
    while i < s.len()
        invariant
            from <= i <= s@.len(),
            t == s@.skip(from as int),
            forall|k: int| from <= k < i ==> s@[k] != '\n',
            0 <= first_line_len(t) <= t.len(),
            t.len() > 0 ==> first_line_len(t) >= 1,
            forall|k: int| 0 <= k < first_line_len(t) - 1 ==> t[k] != '\n',
            0 < first_line_len(t) < t.len() ==> t[first_line_len(t) - 1] == '\n',
        decreases s@.len() - i,
    {
        if s[i] == '\n' {
            assert(t[i - from] == '\n');
            proof {
                if first_line_len(t) < t.len() {
                    assert(s@[from + first_line_len(t) - 1] == '\n');
                }
            }
            return i + 1;
        }
        i = i + 1;
    }
    proof {
        if first_line_len(t) < t.len() {
            assert(s@[from + first_line_len(t) - 1] == '\n');
        }
    }
    i
}

/// The lines of `s`, each with its terminator.
pub fn split_lines(s: &[char]) -> (r: Vec<Vec<char>>)
    ensures
        char_views(r@) == raw_lines(s@),
{
    let mut out: Vec<Vec<char>> = Vec::new();
    let mut i: usize = 0;
    assert(s@.skip(0) =~= s@);
    assert(char_views(out@) + raw_lines(s@) =~= raw_lines(s@));
    while i < s.len()
        invariant
            i <= s@.len(),
            char_views(out@) + raw_lines(s@.skip(i as int)) == raw_lines(s@),
        decreases s@.len() - i,
    {
        let end = line_end(s, i);
        let line = copy_chars(slice_subrange(s, i, end));
        proof {
            let rest = s@.skip(i as int);
            assert(line@ =~= rest.take(end - i));
            assert(rest.skip(end - i) =~= s@.skip(end as int));
            assert(char_views(out@.push(line)) =~= char_views(out@).push(line@));
            assert(char_views(out@).push(line@) + raw_lines(s@.skip(end as int)) =~= char_views(
                out@,
            ) + (seq![line@] + raw_lines(s@.skip(end as int))));
        }
        out.push(line);
        i = end;
    }
    assert(s@.skip(i as int) =~= Seq::empty());
    assert(char_views(out@) + raw_lines(s@.skip(i as int)) =~= char_views(out@));
    out
}

/// A line without its terminator.
pub fn strip_eol<'a>(line: &'a [char]) -> (r: &'a [char])
    ensures
        r@ == without_eol(line@),
{
    let n: usize = line.len();
    if n > 0 && line[n - 1] == '\n' {
        assert(line@.drop_last() =~= line@.subrange(0, n - 1));
        if n > 1 && line[n - 2] == '\r' {
            assert(line@.drop_last().drop_last() =~= line@.subrange(0, n - 2));
            slice_subrange(line, 0, n - 2)
        } else {
            slice_subrange(line, 0, n - 1)
        }
    } else {
        line
    }
}

// ---------------------------------------------------------------------------
// Numbers
// ---------------------------------------------------------------------------

/// The decimal digit `d`.
pub open spec fn digit(d: nat) -> char {
    (48 + d) as char
}

/// `n` in decimal.
pub open spec fn decimal(n: nat) -> Seq<char>
    decreases n,
{
    if n < 10 {
        seq![digit(n)]
    } else {
        decimal(n / 10).push(digit(n % 10))
    }
}

/// `n` in decimal.
pub fn decimal_of(n: u128) -> (r: Vec<char>)
    ensures
        r@ == decimal(n as nat),
    decreases n,
{
    if n < 10 {
        let c = (48u8 + n as u8) as char;
        let mut out: Vec<char> = Vec::new();
        out.push(c);
        out
    } else {
        let mut out = decimal_of(n / 10);
        let c = (48u8 + (n % 10) as u8) as char;
        out.push(c);
        out
    }
}

/// Append `n` in decimal.
pub fn push_number(out: &mut String, n: u128)
    ensures
        final(out)@ == old(out)@ + decimal(n as nat),
{
    let digits = decimal_of(n);
    push_chars(out, &digits);
}

// ---------------------------------------------------------------------------
// Bytes
// ---------------------------------------------------------------------------

/// The number of bytes of `c` in UTF-8.
pub open spec fn char_width(c: char) -> nat {
    if (c as u32) < 0x80 {
        1
    } else if (c as u32) < 0x800 {
        2
    } else if (c as u32) < 0x10000 {
        3
    } else {
        4
    }
}

/// The number of bytes of `s` in UTF-8.
pub open spec fn byte_len(s: Seq<char>) -> nat
    decreases s.len(),
{
    if s.len() == 0 {
        0
    } else {
        byte_len(s.drop_last()) + char_width(s.last())
    }
}

/// The longest beginning of `s` that has at most `max` bytes in UTF-8.
pub open spec fn byte_prefix(s: Seq<char>, max: nat) -> Seq<char>
    decreases s.len(),
{
    if byte_len(s) <= max || s.len() == 0 {
        s
    } else {
        byte_prefix(s.drop_last(), max)
    }
}

/// The number of bytes of `c`.
pub fn width_of(c: char) -> (r: u128)
    ensures
        r == char_width(c),
{
    let n = c as u32;
    if n < 0x80 {
        1
    } else if n < 0x800 {
        2
    } else if n < 0x10000 {
        3
    } else {
        4
    }
}

/// The number of bytes of a text.
pub fn bytes_in(s: &[char]) -> (r: u128)
    ensures
        r == byte_len(s@),
        r <= 4 * usize::MAX,
{
    let mut i: usize = 0;
    let mut n: u128 = 0;
    assert(s@.take(0) =~= Seq::empty());
    while i < s.len()
        invariant
            i <= s@.len(),
            n == byte_len(s@.take(i as int)),
            n <= 4 * i,
        decreases s@.len() - i,
    {
        assert(s@.take(i + 1).drop_last() =~= s@.take(i as int));
        n = n + width_of(s[i]);
        i = i + 1;
    }
    assert(s@.take(i as int) =~= s@);
    n
}

/// Bytes add up.
pub proof fn lemma_byte_len_add(a: Seq<char>, b: Seq<char>)
    ensures
        byte_len(a + b) == byte_len(a) + byte_len(b),
    decreases b.len(),
{
    if b.len() == 0 {
        assert(a + b =~= a);
    } else {
        lemma_byte_len_add(a, b.drop_last());
        assert((a + b).drop_last() =~= a + b.drop_last());
        assert((a + b).last() == b.last());
    }
}

/// Bytes are counted as the UTF-8 encoding has them.
pub proof fn law_byte_len_is_utf8(s: Seq<char>)
    ensures
        byte_len(s) == encode_utf8(s).len(),
    decreases s.len(),
{
    if s.len() == 0 {
    } else {
        let rest = s.drop_first();
        law_byte_len_is_utf8(rest);
        assert(seq![s[0]] + rest =~= s);
        lemma_byte_len_add(seq![s[0]], rest);
        assert(seq![s[0]].drop_last() =~= Seq::empty());
        assert(byte_len(seq![s[0]]) == char_width(s[0])) by {
            reveal_with_fuel(byte_len, 2);
        }
        char_is_scalar(s[0]);
        assert(encode_scalar(s[0] as u32).len() == char_width(s[0]));
    }
}

/// What `byte_prefix` is: a beginning that fits, and the longest such.
pub proof fn lemma_byte_prefix(s: Seq<char>, max: nat)
    ensures
        byte_prefix(s, max).len() <= s.len(),
        byte_prefix(s, max) == s.take(byte_prefix(s, max).len() as int),
        byte_len(byte_prefix(s, max)) <= max,
        forall|k: int|
            byte_prefix(s, max).len() < k <= s.len() ==> byte_len(#[trigger] s.take(k)) > max,
    decreases s.len(),
{
    if byte_len(s) <= max || s.len() == 0 {
        assert(s.take(s.len() as int) =~= s);
    } else {
        let t = s.drop_last();
        lemma_byte_prefix(t, max);
        let p = byte_prefix(s, max);
        assert(p =~= s.take(p.len() as int));
        assert forall|k: int| p.len() < k <= s.len() implies byte_len(#[trigger] s.take(k)) > max by {
            if k == s.len() {
                assert(s.take(k) =~= s);
            } else {
                assert(s.take(k) =~= t.take(k));
            }
        }
    }
}

/// A longer beginning has at least as many bytes.
pub proof fn lemma_byte_len_take(s: Seq<char>, i: int, j: int)
    requires
        0 <= i <= j <= s.len(),
    ensures
        byte_len(s.take(i)) <= byte_len(s.take(j)),
    decreases j - i,
{
    if i < j {
        lemma_byte_len_take(s, i, j - 1);
        assert(s.take(j).drop_last() =~= s.take(j - 1));
    }
}

/// The number of characters in the longest beginning of at most `max` bytes.
pub fn floor_char_boundary(s: &[char], max: u128) -> (r: usize)
    ensures
        r <= s@.len(),
        s@.take(r as int) == byte_prefix(s@, max as nat),
{
    let mut i: usize = 0;
    let mut n: u128 = 0;
    assert(s@.take(0) =~= Seq::empty());
    while i < s.len()
        invariant
            i <= s@.len(),
            n == byte_len(s@.take(i as int)),
            n <= 4 * i,
            n <= max,
        decreases s@.len() - i,
    {
        assert(s@.take(i + 1).drop_last() =~= s@.take(i as int));
        let w = width_of(s[i]);
        if n + w > max {
            proof {
                lemma_byte_prefix(s@, max as nat);
                let p = byte_prefix(s@, max as nat);
                if p.len() > i {
                    lemma_byte_len_take(s@, i + 1, p.len() as int);
                }
                if p.len() < i {
                    assert(byte_len(s@.take(i as int)) > max);
                }
            }
            return i;
        }
        n = n + w;
        i = i + 1;
    }
    proof {
        assert(s@.take(i as int) =~= s@);
    }
    i
}

// ---------------------------------------------------------------------------
// Order
// ---------------------------------------------------------------------------

/// `a` comes before `b`, or is `b`, character by character.
pub open spec fn at_most(a: Seq<char>, b: Seq<char>) -> bool
    decreases a.len(),
{
    if a.len() == 0 {
        true
    } else if b.len() == 0 {
        false
    } else if a[0] != b[0] {
        a[0] < b[0]
    } else {
        at_most(a.drop_first(), b.drop_first())
    }
}

/// The order is reflexive.
pub proof fn lemma_at_most_refl(a: Seq<char>)
    ensures
        at_most(a, a),
    decreases a.len(),
{
    if a.len() > 0 {
        lemma_at_most_refl(a.drop_first());
    }
}

/// The order is total.
pub proof fn lemma_at_most_total(a: Seq<char>, b: Seq<char>)
    ensures
        at_most(a, b) || at_most(b, a),
    decreases a.len(),
{
    if a.len() > 0 && b.len() > 0 {
        lemma_at_most_total(a.drop_first(), b.drop_first());
    }
}

/// The order is antisymmetric.
pub proof fn lemma_at_most_antisym(a: Seq<char>, b: Seq<char>)
    requires
        at_most(a, b),
        at_most(b, a),
    ensures
        a == b,
    decreases a.len(),
{
    if a.len() > 0 && b.len() > 0 {
        lemma_at_most_antisym(a.drop_first(), b.drop_first());
        assert(a =~= seq![a[0]] + a.drop_first());
        assert(b =~= seq![b[0]] + b.drop_first());
    } else {
        assert(a =~= b);
    }
}

/// The order is transitive.
pub proof fn lemma_at_most_trans(a: Seq<char>, b: Seq<char>, c: Seq<char>)
    requires
        at_most(a, b),
        at_most(b, c),
    ensures
        at_most(a, c),
    decreases a.len(),
{
    if a.len() > 0 && b.len() > 0 && c.len() > 0 {
        if a[0] == b[0] && b[0] == c[0] {
            lemma_at_most_trans(a.drop_first(), b.drop_first(), c.drop_first());
        }
    }
}

/// Whether `a` comes before `b`, or is `b`.
pub fn not_after(a: &[char], b: &[char]) -> (r: bool)
    ensures
        r == at_most(a@, b@),
{
    let mut i: usize = 0;
    assert(a@.skip(0) =~= a@);
    assert(b@.skip(0) =~= b@);
    while i < a.len() && i < b.len()
        invariant
            i <= a@.len(),
            i <= b@.len(),
            at_most(a@, b@) == at_most(a@.skip(i as int), b@.skip(i as int)),
        decreases a@.len() - i,
    {
        if a[i] != b[i] {
            return a[i] < b[i];
        }
        assert(a@.skip(i as int).drop_first() =~= a@.skip(i + 1));
        assert(b@.skip(i as int).drop_first() =~= b@.skip(i + 1));
        i = i + 1;
    }
    i == a.len()
}

/// Whether the string `a` comes before `b`, or is `b`.
pub fn str_not_after(a: &str, b: &str) -> (r: bool)
    ensures
        r == at_most(a@, b@),
{
    let x = chars_of(a);
    let y = chars_of(b);
    not_after(&x, &y)
}

// ---------------------------------------------------------------------------
// Names in lists, file extensions
// ---------------------------------------------------------------------------

/// The contents of a list of string slices.
pub open spec fn texts(list: Seq<&str>) -> Seq<Seq<char>> {
    list.map_values(|s: &str| s@)
}

/// Whether `name` is one of the texts of `list`.
pub open spec fn listed(list: Seq<&str>, name: Seq<char>) -> bool {
    exists|i: int| 0 <= i < list.len() && (#[trigger] list[i])@ == name
}

/// Whether `name` is one of the texts of `list`.
pub fn is_listed(list: &[&str], name: &[char]) -> (r: bool)
    ensures
        r == listed(list@, name@),
{
    let mut i: usize = 0;
    while i < list.len()
        invariant
            i <= list@.len(),
            forall|k: int| 0 <= k < i ==> (#[trigger] list@[k])@ != name@,
        decreases list@.len() - i,
    {
        let item = chars_of(list[i]);
        if same_chars(&item, name) {
            return true;
        }
        i = i + 1;
    }
    false
}

/// Whether `s` mentions one of the texts of `list`.
pub open spec fn mentions_any(s: Seq<char>, list: Seq<&str>) -> bool {
    exists|i: int| 0 <= i < list.len() && mentions(s, (#[trigger] list[i])@)
}

/// Whether `s` mentions one of the texts of `list`.
pub fn contains_any(s: &[char], list: &[&str]) -> (r: bool)
    ensures
        r == mentions_any(s@, list@),
{
    let mut i: usize = 0;
    while i < list.len()
        invariant
            i <= list@.len(),
            forall|k: int| 0 <= k < i ==> !mentions(s@, (#[trigger] list@[k])@),
        decreases list@.len() - i,
    {
        let item = chars_of(list[i]);
        if contains(s, &item) {
            return true;
        }
        i = i + 1;
    }
    false
}

/// The last component of a `/`-separated path.
pub open spec fn file_name(path: Seq<char>) -> Seq<char> {
    if last_position(path, '/') >= 0 {
        path.skip(last_position(path, '/') + 1)
    } else {
        path
    }
}

/// What follows the last dot of the file name, in lower case; empty without a dot.
pub open spec fn extension(path: Seq<char>) -> Seq<char> {
    let name = file_name(path);
    if last_position(name, '.') >= 0 {
        lowered(name.skip(last_position(name, '.') + 1))
    } else {
        Seq::empty()
    }
}

/// The extension of a path, in lower case.
pub fn extension_in(path: &[char]) -> (r: Vec<char>)
    ensures
        r@ == extension(path@),
{
    let name = match after_last(path, '/') {
        Some(name) => name,
        None => path,
    };
    match after_last(name, '.') {
        Some(ext) => lower(ext),
        None => Vec::new(),
    }
}

} // verus!
