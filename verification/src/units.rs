//! Review units, selection and the coverage ledger.
//!
//! A review unit is the smallest thing that is dispatched, counted and reported
//! as a whole. `select` is the one implementation of "which changed files enter
//! the review, and why not": a preview and a real run consume the same answer.
//! Everything here is a function of the diff text and the configuration.

use globset::GlobSet;
use sha1::{Digest, Sha1};
use vstd::prelude::*;
use vstd::utf8::*;

use crate::compaction;
use crate::diff;
use crate::gates;
use crate::glob;
use crate::groups;
use crate::text;

pub use crate::ledger::{CoverageLedger, CoverageSummary, TerminalState, UnitState};

verus! {

/// Where a review unit comes from.
#[derive(Debug, Clone, Copy, PartialEq, Eq, Structural)]
pub enum UnitSource {
    Changeset,
    File,
}

impl UnitSource {
    /// The name of a source in unit ids.
    pub open spec fn name(self) -> Seq<char> {
        match self {
            UnitSource::Changeset => "changeset"@,
            UnitSource::File => "file"@,
        }
    }

    pub fn as_str(self) -> (r: &'static str)
        ensures
            r@ == self.name(),
    {
        match self {
            UnitSource::Changeset => "changeset",
            UnitSource::File => "file",
        }
    }
}

/// One review unit.
#[derive(Debug, Clone, PartialEq, Eq)]
pub struct ReviewUnit {
    /// Content-independent identity: `{source}:{primary path}`.
    pub unit_id: String,
    pub source: UnitSource,
    /// Files in this unit, in order.
    pub files: Vec<String>,
    /// Fingerprint of the content that was selected.
    pub unit_fp: String,
}

/// What a review unit holds.
#[verifier::ext_equal]
pub struct UnitView {
    pub unit_id: Seq<char>,
    pub source: UnitSource,
    pub files: Seq<Seq<char>>,
    pub unit_fp: Seq<char>,
}

impl View for ReviewUnit {
    type V = UnitView;

    open spec fn view(&self) -> UnitView {
        UnitView {
            unit_id: self.unit_id@,
            source: self.source,
            files: text::views(self.files@),
            unit_fp: self.unit_fp@,
        }
    }
}

/// The contents of a sequence of units.
pub open spec fn unit_views(units: Seq<ReviewUnit>) -> Seq<UnitView> {
    units.map_values(|u: ReviewUnit| u@)
}

/// Why a changed file is not part of the selected set.
#[derive(Debug, Clone, Copy, PartialEq, Eq, Structural)]
pub enum ExcludeReason {
    Binary,
    Deleted,
    Generated,
    Ignored,
    Oversized,
    SecretPath,
    Extension,
    DefaultPath,
}

impl ExcludeReason {
    /// The name of a reason in reports.
    pub open spec fn name(self) -> Seq<char> {
        match self {
            ExcludeReason::Binary => "binary"@,
            ExcludeReason::Deleted => "deleted"@,
            ExcludeReason::Generated => "generated"@,
            ExcludeReason::Ignored => "ignored"@,
            ExcludeReason::Oversized => "oversized"@,
            ExcludeReason::SecretPath => "secret-path"@,
            ExcludeReason::Extension => "extension"@,
            ExcludeReason::DefaultPath => "default-path"@,
        }
    }

    pub fn as_str(self) -> (r: &'static str)
        ensures
            r@ == self.name(),
    {
        match self {
            ExcludeReason::Binary => "binary",
            ExcludeReason::Deleted => "deleted",
            ExcludeReason::Generated => "generated",
            ExcludeReason::Ignored => "ignored",
            ExcludeReason::Oversized => "oversized",
            ExcludeReason::SecretPath => "secret-path",
            ExcludeReason::Extension => "extension",
            ExcludeReason::DefaultPath => "default-path",
        }
    }
}

/// A changed file that is not reviewed, and whether it still travels to the model
/// as context.
#[derive(Debug, Clone, PartialEq, Eq)]
pub struct ExcludedFile {
    pub path: String,
    pub reason: ExcludeReason,
    /// Deleted files have no new content to review, but anchoring needs them.
    pub kept_in_text: bool,
}

/// What an excluded file holds.
#[verifier::ext_equal]
pub struct ExcludedView {
    pub path: Seq<char>,
    pub reason: ExcludeReason,
    pub kept_in_text: bool,
}

impl View for ExcludedFile {
    type V = ExcludedView;

    open spec fn view(&self) -> ExcludedView {
        ExcludedView { path: self.path@, reason: self.reason, kept_in_text: self.kept_in_text }
    }
}

/// The contents of a sequence of excluded files.
pub open spec fn excluded_views(files: Seq<ExcludedFile>) -> Seq<ExcludedView> {
    files.map_values(|e: ExcludedFile| e@)
}

/// The one selection result: what the model will receive, what the coverage
/// denominator is, and every exclusion with its reason.
#[derive(Debug, Clone, Default)]
pub struct Selection {
    /// Assembled diff text handed to the model.
    pub text: String,
    /// Reviewable units: the coverage denominator.
    pub units: Vec<ReviewUnit>,
    pub excluded: Vec<ExcludedFile>,
    pub estimated_tokens: u64,
}

/// What a selection holds.
#[verifier::ext_equal]
pub struct SelectionView {
    pub text: Seq<char>,
    pub units: Seq<UnitView>,
    pub excluded: Seq<ExcludedView>,
    pub estimated_tokens: int,
}

impl View for Selection {
    type V = SelectionView;

    open spec fn view(&self) -> SelectionView {
        SelectionView {
            text: self.text@,
            units: unit_views(self.units@),
            excluded: excluded_views(self.excluded@),
            estimated_tokens: self.estimated_tokens as int,
        }
    }
}

// ---------------------------------------------------------------------------
// Selection
// ---------------------------------------------------------------------------

/// The path gates of a selection.
#[verifier::ext_equal]
pub struct Gates {
    /// Paths that the configuration ignores.
    pub ignored: Set<Seq<char>>,
    /// Whether credentials, tool output and unknown kinds of files are left out.
    pub strict: bool,
}

/// The gates of a selection that is not strict.
pub open spec fn usual(ignored: Set<Seq<char>>) -> Gates {
    Gates { ignored, strict: false }
}

/// What the path gates say of a section. The order of the tests decides which
/// reason a file gets.
pub open spec fn gate(section: Seq<char>, gates: Gates) -> Option<ExcludeReason> {
    match diff::path_of(section) {
        None => None,
        Some(path) => if gates.ignored.contains(path) {
            Some(ExcludeReason::Ignored)
        } else if gates.strict && gates::secret(path) {
            Some(ExcludeReason::SecretPath)
        } else if gates.strict && gates::tool_output(path) {
            Some(ExcludeReason::DefaultPath)
        } else if diff::is_generated(section) {
            Some(ExcludeReason::Generated)
        } else if gates.strict && !gates::reviewable(path) {
            Some(ExcludeReason::Extension)
        } else if diff::deletes_file(section) {
            Some(ExcludeReason::Deleted)
        } else {
            None
        },
    }
}

/// Whether the gates remove a section from the text. A deleted file stays, for
/// anchoring.
pub open spec fn removed(section: Seq<char>, gates: Gates) -> bool {
    gate(section, gates) is Some && gate(section, gates) != Some(ExcludeReason::Deleted)
}

/// A section that ends in a newline.
pub open spec fn terminated(section: Seq<char>) -> Seq<char> {
    if section.len() > 0 && section.last() == '\n' {
        section
    } else {
        section.push('\n')
    }
}

/// The text that passes the gates.
pub open spec fn passed(secs: Seq<Seq<char>>, gates: Gates) -> Seq<char>
    decreases secs.len(),
{
    if secs.len() == 0 {
        Seq::empty()
    } else {
        passed(secs.drop_last(), gates) + if removed(secs.last(), gates) {
            Seq::empty()
        } else {
            terminated(secs.last())
        }
    }
}

/// The files that the gates report, in order.
pub open spec fn gated(secs: Seq<Seq<char>>, gates: Gates) -> Seq<ExcludedView>
    decreases secs.len(),
{
    if secs.len() == 0 {
        Seq::empty()
    } else {
        let done = gated(secs.drop_last(), gates);
        match gate(secs.last(), gates) {
            Some(reason) => done.push(
                ExcludedView {
                    path: diff::path_of(secs.last())->0,
                    reason,
                    kept_in_text: reason == ExcludeReason::Deleted,
                },
            ),
            None => done,
        }
    }
}

/// The files that the budget dropped, as exclusions.
pub open spec fn oversized(paths: Seq<Seq<char>>) -> Seq<ExcludedView> {
    paths.map_values(
        |p: Seq<char>|
            ExcludedView { path: p, reason: ExcludeReason::Oversized, kept_in_text: false },
    )
}

/// The exclusions that stand beside a budget: a file that the budget dropped is no
/// longer kept in the text, and its reason is the budget's.
pub open spec fn standing(excluded: Seq<ExcludedView>, dropped: Seq<Seq<char>>) -> Seq<ExcludedView> {
    excluded.filter(|e: ExcludedView| !(e.kept_in_text && dropped.contains(e.path)))
}

/// SHA-1 of a byte sequence.
pub uninterp spec fn sha1_of(bytes: Seq<u8>) -> Seq<u8>;

/// A hexadecimal digit.
pub open spec fn hex_digit(n: int) -> char {
    if n < 10 {
        (48 + n) as char
    } else {
        (87 + n) as char
    }
}

/// Whether a character is a hexadecimal digit in lower case.
pub open spec fn is_hex(c: char) -> bool {
    '0' <= c <= '9' || 'a' <= c <= 'f'
}

/// Two hexadecimal digits for every byte.
pub open spec fn hex(bytes: Seq<u8>) -> Seq<char>
    decreases bytes.len(),
{
    if bytes.len() == 0 {
        Seq::empty()
    } else {
        hex(bytes.drop_last()).push(hex_digit(bytes.last() as int / 16)).push(
            hex_digit(bytes.last() as int % 16),
        )
    }
}

/// The first eight bytes of a digest in hexadecimal.
pub open spec fn short_hex(digest: Seq<u8>) -> Seq<char> {
    hex(digest.take(8))
}

/// The bytes that a fingerprint covers: the path, a newline, the section.
pub open spec fn fingerprint_input(path: Seq<char>, section: Seq<char>) -> Seq<u8> {
    encode_utf8(path) + seq![10u8] + encode_utf8(section)
}

/// The content fingerprint of a unit.
pub open spec fn fingerprint(path: Seq<char>, section: Seq<char>) -> Seq<char> {
    short_hex(sha1_of(fingerprint_input(path, section)))
}

/// The fingerprint of several contents: that of their fingerprints, one on a line.
pub open spec fn folded(prints: Seq<Seq<char>>) -> Seq<char> {
    short_hex(sha1_of(encode_utf8(text::joined(prints, "\n"@))))
}

/// The id of the unit of one changed file.
pub open spec fn changeset_id(path: Seq<char>) -> Seq<char> {
    UnitSource::Changeset.name() + ":"@ + path
}

/// The unit of one section.
pub open spec fn unit_of(path: Seq<char>, section: Seq<char>) -> UnitView {
    UnitView {
        unit_id: changeset_id(path),
        source: UnitSource::Changeset,
        files: seq![path],
        unit_fp: fingerprint(path, section),
    }
}

/// Whether some unit has the id.
pub open spec fn has_unit(units: Seq<UnitView>, id: Seq<char>) -> bool {
    exists|i: int| 0 <= i < units.len() && (#[trigger] units[i]).unit_id == id
}

/// The units of the dispatched sections: one for every file that is not deleted,
/// the first section of a path wins.
pub open spec fn units_of(secs: Seq<Seq<char>>) -> Seq<UnitView>
    decreases secs.len(),
{
    if secs.len() == 0 {
        Seq::empty()
    } else {
        let done = units_of(secs.drop_last());
        match diff::path_of(secs.last()) {
            Some(path) => if diff::deletes_file(secs.last()) || has_unit(done, changeset_id(path)) {
                done
            } else {
                done.push(unit_of(path, secs.last()))
            },
            None => done,
        }
    }
}

/// The selection of a diff.
pub open spec fn selected(
    input: Seq<char>,
    gates: Gates,
    max_diff_kb: Option<nat>,
) -> SelectionView {
    let secs = diff::sections(input);
    let filtered = passed(secs, gates);
    let (dispatched, dropped) = match max_diff_kb {
        Some(kb) => diff::budgeted(filtered, kb),
        None => (filtered, Seq::empty()),
    };
    SelectionView {
        text: dispatched,
        units: units_of(diff::sections(dispatched)),
        excluded: standing(gated(secs, gates), dropped) + oversized(dropped),
        estimated_tokens: compaction::tokens(dispatched),
    }
}

/// `Sha1::digest` of the `sha1` crate: the 20 bytes of SHA-1 of the input.
#[verifier::external_body]
fn sha1_digest(bytes: &[u8]) -> (r: Vec<u8>)
    ensures
        r@ == sha1_of(bytes@),
        r@.len() == 20,
{
    Sha1::digest(bytes).to_vec()
}

/// A hexadecimal digit.
fn hex_char(n: u8) -> (r: char)
    requires
        n < 16,
    ensures
        r == hex_digit(n as int),
{
    if n < 10 {
        (48 + n) as char
    } else {
        (87 + n) as char
    }
}

/// Every byte gives two hexadecimal digits.
proof fn lemma_hex(bytes: Seq<u8>)
    ensures
        hex(bytes).len() == 2 * bytes.len(),
        forall|k: int| 0 <= k < hex(bytes).len() ==> is_hex(#[trigger] hex(bytes)[k]),
    decreases bytes.len(),
{
    if bytes.len() > 0 {
        let front = bytes.drop_last();
        lemma_hex(front);
        let n = hex(front).len();
        let b = bytes.last() as int;
        assert(is_hex(hex_digit(b / 16)) && is_hex(hex_digit(b % 16)));
        assert forall|k: int| 0 <= k < hex(bytes).len() implies is_hex(
            #[trigger] hex(bytes)[k],
        ) by {
            if k < n {
                assert(hex(bytes)[k] == hex(front)[k]);
            }
        }
    }
}

/// Whether a fingerprint is sixteen hexadecimal digits in lower case.
pub open spec fn is_fingerprint(s: Seq<char>) -> bool {
    s.len() == 16 && forall|k: int| 0 <= k < 16 ==> is_hex(#[trigger] s[k])
}

/// The first eight bytes of a digest, as sixteen hexadecimal digits.
pub fn digest_hex(digest: &[u8]) -> (r: String)
    requires
        digest@.len() >= 8,
    ensures
        r@ == short_hex(digest@),
        is_fingerprint(r@),
{
    let mut out = String::new();
    let mut i: usize = 0;
    assert(digest@.take(0) =~= Seq::empty());
    while i < 8
        invariant
            i <= 8 <= digest@.len(),
            out@ == hex(digest@.take(i as int)),
        decreases 8 - i,
    {
        assert(digest@.take(i + 1).drop_last() =~= digest@.take(i as int));
        let b: u8 = digest[i];
        out.push(hex_char(b / 16));
        out.push(hex_char(b % 16));
        i = i + 1;
    }
    proof {
        lemma_hex(digest@.take(8));
    }
    out
}

/// Content fingerprint of one unit: SHA-1 over path and section text, the first
/// eight bytes in hexadecimal. Raw bytes on purpose: a change of white space in
/// the diff is a change of what is reviewed.
fn content_fingerprint(path: &str, section: &str) -> (r: String)
    ensures
        r@ == fingerprint(path@, section@),
        is_fingerprint(r@),
{
    let mut bytes: Vec<u8> = Vec::new();
    bytes.extend_from_slice(path.as_bytes());
    bytes.push(10u8);
    bytes.extend_from_slice(section.as_bytes());
    assert(bytes@ =~= fingerprint_input(path@, section@));
    let digest = sha1_digest(bytes.as_slice());
    digest_hex(digest.as_slice())
}

/// The fingerprint of several contents.
pub(crate) fn fold_fingerprints(prints: &[String]) -> (r: String)
    ensures
        r@ == folded(text::views(prints@)),
        is_fingerprint(r@),
{
    let all = text::join(prints, "\n");
    let digest = sha1_digest(all.as_str().as_bytes());
    digest_hex(digest.as_slice())
}

/// A whole-file deletion: no new content to review.
pub fn is_deleted(section: &str) -> (r: bool)
    ensures
        r == diff::deletes_file(section@),
{
    let chars = text::chars_of(section);
    diff::deletes_in(&chars)
}

/// The id of the unit of one changed file.
fn changeset_unit_id(path: &str) -> (r: String)
    ensures
        r@ == changeset_id(path@),
{
    let mut id = String::new();
    id.append(UnitSource::Changeset.as_str());
    id.append(":");
    id.append(path);
    assert(id@ =~= changeset_id(path@));
    id
}

/// Whether some unit has the id.
fn knows_unit(units: &[ReviewUnit], id: &str) -> (r: bool)
    ensures
        r == has_unit(unit_views(units@), id@),
{
    let mut i: usize = 0;
    while i < units.len()
        invariant
            i <= units@.len(),
            forall|k: int| 0 <= k < i ==> (#[trigger] unit_views(units@)[k]).unit_id != id@,
        decreases units@.len() - i,
    {
        assert(unit_views(units@)[i as int].unit_id == units@[i as int].unit_id@);
        if text::same(units[i].unit_id.as_str(), id) {
            return true;
        }
        i = i + 1;
    }
    false
}

/// The units of the text that is dispatched.
fn collect_units(dispatched: &[char]) -> (r: Vec<ReviewUnit>)
    ensures
        unit_views(r@) == units_of(diff::sections(dispatched@)),
        forall|u: int| 0 <= u < r@.len() ==> is_fingerprint((#[trigger] r@[u]).unit_fp@),
{
    let rows = diff::sections_of(dispatched);
    let ghost secs = diff::sections(dispatched@);
    let mut units: Vec<ReviewUnit> = Vec::new();
    let mut i: usize = 0;
    assert(secs.take(0) =~= Seq::empty());
    assert(unit_views(units@) =~= units_of(secs.take(0)));
    while i < rows.len()
        invariant
            i <= rows@.len(),
            secs == text::char_views(rows@),
            unit_views(units@) == units_of(secs.take(i as int)),
            forall|u: int| 0 <= u < units@.len() ==> is_fingerprint((#[trigger] units@[u]).unit_fp@),
        decreases rows@.len() - i,
    {
        proof {
            assert(secs.take(i + 1).drop_last() =~= secs.take(i as int));
            assert(secs.take(i + 1).last() == rows@[i as int]@);
        }
        if let Some(p) = diff::path_in(&rows[i]) {
            if !diff::deletes_in(&rows[i]) {
                let path = text::string_of(&p);
                let unit_id = changeset_unit_id(path.as_str());
                if !knows_unit(&units, unit_id.as_str()) {
                    let section = text::string_of(&rows[i]);
                    let unit_fp = content_fingerprint(path.as_str(), section.as_str());
                    let mut files: Vec<String> = Vec::new();
                    files.push(path);
                    let unit = ReviewUnit { unit_id, source: UnitSource::Changeset, files, unit_fp };
                    proof {
                        assert(text::views(unit.files@) =~= seq![p@]);
                        assert(unit@ == unit_of(p@, rows@[i as int]@));
                        assert(unit_views(units@.push(unit)) =~= unit_views(units@).push(unit@));
                    }
                    units.push(unit);
                }
            }
        }
        i = i + 1;
    }
    assert(secs.take(i as int) =~= secs);
    units
}

/// Append an exclusion.
fn exclude(out: &mut Vec<ExcludedFile>, path: String, reason: ExcludeReason, kept_in_text: bool)
    ensures
        excluded_views(final(out)@) == excluded_views(old(out)@).push(
            ExcludedView { path: path@, reason, kept_in_text },
        ),
{
    let file = ExcludedFile { path, reason, kept_in_text };
    out.push(file);
    assert(excluded_views(out@) =~= excluded_views(old(out)@).push(file@));
}

/// What the path gates say of a section with a path, given which of the changed
/// paths are ignored.
fn gate_of(section: &[char], path: &[char], ignored: bool, strict: bool) -> (r: Option<ExcludeReason>)
    requires
        diff::path_of(section@) == Some(path@),
    ensures
        forall|gates: Gates|
            gates.strict == strict && gates.ignored.contains(path@) == ignored ==> r
                == #[trigger] gate(section@, gates),
{
    if ignored {
        Some(ExcludeReason::Ignored)
    } else if strict && gates::secret_in(path) {
        Some(ExcludeReason::SecretPath)
    } else if strict && gates::tool_output_in(path) {
        Some(ExcludeReason::DefaultPath)
    } else if diff::generated_in(section) {
        Some(ExcludeReason::Generated)
    } else if strict && !gates::reviewable_in(path) {
        Some(ExcludeReason::Extension)
    } else if diff::deletes_in(section) {
        Some(ExcludeReason::Deleted)
    } else {
        None
    }
}

/// Gates by the ignored paths among the changed ones.
pub open spec fn gates_for(ignored_paths: Seq<String>, strict: bool) -> Gates {
    Gates { ignored: text::views(ignored_paths).to_set(), strict }
}

/// Apply the path gates, given the ignored paths.
fn apply_gates(rows: &[Vec<char>], ignored_paths: &[String], strict: bool) -> (r: (
    Vec<char>,
    Vec<ExcludedFile>,
))
    ensures
        r.0@ == passed(text::char_views(rows@), gates_for(ignored_paths@, strict)),
        excluded_views(r.1@) == gated(
            text::char_views(rows@),
            gates_for(ignored_paths@, strict),
        ),
{
    let ghost secs = text::char_views(rows@);
    let ghost gates = gates_for(ignored_paths@, strict);
    let mut filtered: Vec<char> = Vec::new();
    let mut excluded: Vec<ExcludedFile> = Vec::new();
    let mut i: usize = 0;
    assert(secs.take(0) =~= Seq::empty());
    assert(excluded_views(excluded@) =~= gated(secs.take(0), gates));
    while i < rows.len()
        invariant
            i <= rows@.len(),
            secs == text::char_views(rows@),
            gates == gates_for(ignored_paths@, strict),
            filtered@ == passed(secs.take(i as int), gates),
            excluded_views(excluded@) == gated(secs.take(i as int), gates),
        decreases rows@.len() - i,
    {
        let ghost section = rows@[i as int]@;
        proof {
            assert(secs.take(i + 1).drop_last() =~= secs.take(i as int));
            assert(secs.take(i + 1).last() == section);
        }
        let ghost before = filtered@;
        let mut keep: bool = true;
        if let Some(p) = diff::path_in(&rows[i]) {
            let path = text::string_of(&p);
            let ignored = text::has_name(ignored_paths, path.as_str());
            if let Some(reason) = gate_of(&rows[i], &p, ignored, strict) {
                keep = reason == ExcludeReason::Deleted;
                exclude(&mut excluded, path, reason, keep);
            }
        }
        assert(keep == !removed(section, gates));
        if keep {
            text::extend_chars(&mut filtered, &rows[i]);
            let n: usize = rows[i].len();
            if n == 0 || rows[i][n - 1] != '\n' {
                filtered.push('\n');
            }
            assert(filtered@ =~= before + terminated(section));
        } else {
            assert(filtered@ =~= before + Seq::<char>::empty());
        }
        i = i + 1;
    }
    assert(secs.take(i as int) =~= secs);
    (filtered, excluded)
}

/// Without a budget every exclusion stands.
pub proof fn lemma_nothing_dropped(excluded: Seq<ExcludedView>)
    ensures
        standing(excluded, Seq::empty()) + oversized(Seq::empty()) == excluded,
    decreases excluded.len(),
{
    reveal(Seq::filter);
    if excluded.len() > 0 {
        lemma_nothing_dropped(excluded.drop_last());
        let front = standing(excluded.drop_last(), Seq::empty());
        assert(front + oversized(Seq::empty()) =~= front);
        assert(standing(excluded, Seq::empty()) =~= front.push(excluded.last()));
    }
    assert(standing(excluded, Seq::empty()) + oversized(Seq::empty()) =~= excluded);
}

/// The exclusions of a selection, from those of the gates and the files that the
/// budget dropped.
fn account_for(gate_excluded: Vec<ExcludedFile>, dropped: &[String]) -> (r: Vec<ExcludedFile>)
    ensures
        excluded_views(r@) == standing(excluded_views(gate_excluded@), text::views(dropped@))
            + oversized(text::views(dropped@)),
{
    let ghost at_gates = excluded_views(gate_excluded@);
    let ghost paths = text::views(dropped@);
    let mut out: Vec<ExcludedFile> = Vec::new();
    let mut i: usize = 0;
    proof {
        reveal(Seq::filter);
        assert(at_gates.take(0) =~= Seq::empty());
        assert(excluded_views(out@) =~= standing(at_gates.take(0), paths));
    }
    while i < gate_excluded.len()
        invariant
            i <= gate_excluded@.len(),
            at_gates == excluded_views(gate_excluded@),
            paths == text::views(dropped@),
            excluded_views(out@) == standing(at_gates.take(i as int), paths),
        decreases gate_excluded@.len() - i,
    {
        let e = &gate_excluded[i];
        proof {
            reveal(Seq::filter);
            assert(at_gates.take(i + 1).drop_last() =~= at_gates.take(i as int));
            assert(at_gates.take(i + 1).last() == e@);
        }
        if !(e.kept_in_text && text::has_name(dropped, e.path.as_str())) {
            exclude(&mut out, e.path.clone(), e.reason, e.kept_in_text);
        }
        i = i + 1;
    }
    assert(at_gates.take(i as int) =~= at_gates);
    let ghost stand = excluded_views(out@);
    let mut k: usize = 0;
    assert(stand + oversized(paths.take(0)) =~= stand);
    while k < dropped.len()
        invariant
            k <= dropped@.len(),
            paths == text::views(dropped@),
            excluded_views(out@) == stand + oversized(paths.take(k as int)),
        decreases dropped@.len() - k,
    {
        exclude(&mut out, dropped[k].clone(), ExcludeReason::Oversized, false);
        assert(excluded_views(out@) =~= stand + oversized(paths.take(k + 1)));
        k = k + 1;
    }
    assert(paths.take(k as int) =~= paths);
    out
}

/// The budget of a selection as a number.
pub open spec fn budget_of(max_diff_kb: Option<usize>) -> Option<nat> {
    match max_diff_kb {
        Some(kb) => Some(kb as nat),
        None => None,
    }
}

/// Selection, given which of the changed paths are ignored.
pub fn select_ignoring(
    input: &str,
    ignored_paths: &[String],
    max_diff_kb: Option<usize>,
    strict: bool,
) -> (r: Selection)
    ensures
        r@ == selected(input@, gates_for(ignored_paths@, strict), budget_of(max_diff_kb)),
        forall|u: int|
            0 <= u < r.units@.len() ==> (#[trigger] r.units@[u]).unit_fp@.len() == 16 && (forall|
                k: int,
            |
                0 <= k < 16 ==> is_hex(r.units@[u].unit_fp@[k])),
{
    let chars = text::chars_of(input);
    let rows = diff::sections_of(&chars);
    let (filtered, gate_excluded) = apply_gates(&rows, ignored_paths, strict);
    let ghost at_gates = excluded_views(gate_excluded@);
    let filtered_text = text::string_of(&filtered);
    let (dispatched, excluded): (String, Vec<ExcludedFile>) = match max_diff_kb {
        None => {
            proof {
                lemma_nothing_dropped(at_gates);
            }
            (filtered_text, gate_excluded)
        },
        Some(kb) => {
            let truncation = diff::truncate_text(filtered_text.as_str(), kb);
            let excluded = account_for(gate_excluded, &truncation.truncated_files);
            (truncation.text, excluded)
        },
    };
    // Units come from the text that is dispatched, so the denominator never
    // claims more than the model receives.
    let sent = text::chars_of(dispatched.as_str());
    let units = collect_units(&sent);
    let estimated_tokens = compaction::tokens_in(&sent);
    Selection { text: dispatched, units, excluded, estimated_tokens }
}

/// Whether two sets agree on the paths of the sections.
pub open spec fn agree_on(secs: Seq<Seq<char>>, a: Set<Seq<char>>, b: Set<Seq<char>>) -> bool {
    forall|i: int|
        0 <= i < secs.len() && diff::names_file(#[trigger] secs[i]) ==> a.contains(
            diff::path_of(secs[i])->0,
        ) == b.contains(diff::path_of(secs[i])->0)
}

/// The gates look at the ignored paths of the sections alone.
proof fn lemma_gates_agree(secs: Seq<Seq<char>>, a: Gates, b: Gates)
    requires
        agree_on(secs, a.ignored, b.ignored),
        a.strict == b.strict,
    ensures
        passed(secs, a) == passed(secs, b),
        gated(secs, a) == gated(secs, b),
    decreases secs.len(),
{
    if secs.len() > 0 {
        let front = secs.drop_last();
        assert forall|i: int| 0 <= i < front.len() && diff::names_file(
            #[trigger] front[i],
        ) implies a.ignored.contains(diff::path_of(front[i])->0) == b.ignored.contains(
            diff::path_of(front[i])->0,
        ) by {
            assert(front[i] == secs[i]);
        }
        lemma_gates_agree(front, a, b);
        let n = secs.len() - 1;
        assert(secs[n] == secs.last());
        assert(gate(secs.last(), a) == gate(secs.last(), b));
    }
}

/// Selection looks at the ignored paths among those of the diff alone.
pub proof fn law_selection_depends_on_changed_paths(
    input: Seq<char>,
    a: Gates,
    b: Gates,
    max_diff_kb: Option<nat>,
)
    requires
        agree_on(diff::sections(input), a.ignored, b.ignored),
        a.strict == b.strict,
    ensures
        selected(input, a, max_diff_kb) == selected(input, b, max_diff_kb),
{
    lemma_gates_agree(diff::sections(input), a, b);
}

/// The changed paths that the ignore patterns match.
fn ignored_among(input: &str, ignore: &GlobSet) -> (r: Vec<String>)
    ensures
        agree_on(
            diff::sections(input@),
            text::views(r@).to_set(),
            glob::matched_paths(*ignore),
        ),
{
    let chars = text::chars_of(input);
    let rows = diff::sections_of(&chars);
    let ghost secs = diff::sections(input@);
    let ghost matched = glob::matched_paths(*ignore);
    let mut out: Vec<String> = Vec::new();
    let mut i: usize = 0;
    while i < rows.len()
        invariant
            i <= rows@.len(),
            secs == text::char_views(rows@),
            matched == glob::matched_paths(*ignore),
            forall|k: int|
                0 <= k < out@.len() ==> matched.contains(#[trigger] text::views(out@)[k]),
            forall|k: int|
                0 <= k < i && diff::names_file(#[trigger] secs[k]) && matched.contains(
                    diff::path_of(secs[k])->0,
                ) ==> text::views(out@).contains(diff::path_of(secs[k])->0),
        decreases rows@.len() - i,
    {
        assert(secs[i as int] == rows@[i as int]@);
        if let Some(p) = diff::path_in(&rows[i]) {
            let path = text::string_of(&p);
            if glob::set_matches(ignore, path.as_str()) {
                let ghost before = text::views(out@);
                let ghost name = path@;
                out.push(path);
                proof {
                    assert(text::views(out@) =~= before.push(name));
                    assert(text::views(out@)[before.len() as int] == name);
                    assert forall|q: Seq<char>| before.contains(q) implies text::views(
                        out@,
                    ).contains(q) by {
                        let k = choose|k: int| 0 <= k < before.len() && before[k] == q;
                        assert(text::views(out@)[k] == q);
                    }
                }
            }
        }
        i = i + 1;
    }
    out
}

fn select_impl(input: &str, ignore: &GlobSet, max_diff_kb: Option<usize>, strict: bool) -> (r:
    Selection)
    ensures
        r@ == selected(
            input@,
            (Gates { ignored: glob::matched_paths(*ignore), strict }),
            budget_of(max_diff_kb),
        ),
        forall|u: int|
            0 <= u < r.units@.len() ==> (#[trigger] r.units@[u]).unit_fp@.len() == 16 && (forall|
                k: int,
            |
                0 <= k < 16 ==> is_hex(r.units@[u].unit_fp@[k])),
{
    let ignored_paths = ignored_among(input, ignore);
    proof {
        law_selection_depends_on_changed_paths(
            input@,
            gates_for(ignored_paths@, strict),
            Gates { ignored: glob::matched_paths(*ignore), strict },
            budget_of(max_diff_kb),
        );
    }
    select_ignoring(input, &ignored_paths, max_diff_kb, strict)
}

/// Selection with a size budget.
pub fn select(input: &str, ignore: &GlobSet, max_diff_kb: usize) -> (r: Selection)
    ensures
        r@ == selected(input@, usual(glob::matched_paths(*ignore)), Some(max_diff_kb as nat)),
        forall|u: int|
            0 <= u < r.units@.len() ==> (#[trigger] r.units@[u]).unit_fp@.len() == 16 && (forall|
                k: int,
            |
                0 <= k < 16 ==> is_hex(r.units@[u].unit_fp@[k])),
{
    select_impl(input, ignore, Some(max_diff_kb), false)
}

/// How a selection is made.
pub struct SelectOptions<'a> {
    pub ignore: &'a GlobSet,
    pub max_diff_kb: usize,
    /// Whether credentials, tool output and unknown kinds of files are left out.
    pub strict: bool,
    /// Whether mirror files share a unit.
    pub group_units: bool,
}

impl<'a> SelectOptions<'a> {
    /// The usual options: neither strict nor grouped.
    pub fn new(ignore: &'a GlobSet, max_diff_kb: usize) -> (r: Self)
        ensures
            r == (SelectOptions { ignore, max_diff_kb, strict: false, group_units: false }),
    {
        SelectOptions { ignore, max_diff_kb, strict: false, group_units: false }
    }

    pub fn strict(self, strict: bool) -> (r: Self)
        ensures
            r == (SelectOptions { strict, ..self }),
    {
        SelectOptions { strict, ..self }
    }

    pub fn group_units(self, group_units: bool) -> (r: Self)
        ensures
            r == (SelectOptions { group_units, ..self }),
    {
        SelectOptions { group_units, ..self }
    }
}

/// What a selection with options holds.
pub open spec fn selected_with(input: Seq<char>, options: SelectOptions<'_>) -> SelectionView {
    groups::regrouped(
        selected(
            input,
            Gates { ignored: glob::matched_paths(*options.ignore), strict: options.strict },
            Some(options.max_diff_kb as nat),
        ),
        options.group_units,
    )
}

/// Selection with options.
pub fn select_with(input: &str, options: &SelectOptions<'_>) -> (r: Selection)
    ensures
        r@ == selected_with(input@, *options),
        forall|u: int|
            0 <= u < r.units@.len() ==> (#[trigger] r.units@[u]).unit_fp@.len() == 16 && (forall|
                k: int,
            |
                0 <= k < 16 ==> is_hex(r.units@[u].unit_fp@[k])),
{
    let selection = select_impl(
        input,
        options.ignore,
        Some(options.max_diff_kb),
        options.strict,
    );
    assert(groups::well_printed(selection.units@));
    groups::regroup(selection, options.group_units)
}

/// Selection without a size budget: every file that survives the path gates.
pub fn select_unbounded(input: &str, ignore: &GlobSet) -> (r: Selection)
    ensures
        r@ == selected(input@, usual(glob::matched_paths(*ignore)), None),
        forall|u: int|
            0 <= u < r.units@.len() ==> (#[trigger] r.units@[u]).unit_fp@.len() == 16 && (forall|
                k: int,
            |
                0 <= k < 16 ==> is_hex(r.units@[u].unit_fp@[k])),
{
    select_impl(input, ignore, None, false)
}

// ---------------------------------------------------------------------------
// What a selection reports
// ---------------------------------------------------------------------------

/// Exclusions that took the file out of the text.
pub open spec fn taken_out(excluded: Seq<ExcludedView>) -> Seq<ExcludedView> {
    excluded.filter(|e: ExcludedView| !e.kept_in_text)
}

/// Exclusions that the path gates decided and that took the file out of the text.
pub open spec fn gated_out(excluded: Seq<ExcludedView>) -> Seq<ExcludedView> {
    excluded.filter(|e: ExcludedView| !e.kept_in_text && e.reason != ExcludeReason::Oversized)
}

/// Exclusions of one reason.
pub open spec fn excluded_for(excluded: Seq<ExcludedView>, reason: ExcludeReason) -> Seq<
    ExcludedView,
> {
    excluded.filter(|e: ExcludedView| e.reason == reason)
}

/// Paths that the budget dropped, in the order in which it dropped them.
pub open spec fn dropped_paths(excluded: Seq<ExcludedView>) -> Seq<Seq<char>> {
    excluded_for(excluded, ExcludeReason::Oversized).map_values(|e: ExcludedView| e.path)
}

/// The contents of a sequence of borrowed exclusions.
pub open spec fn excluded_ref_views(files: Seq<&ExcludedFile>) -> Seq<ExcludedView> {
    files.map_values(|e: &ExcludedFile| e@)
}

impl Selection {
    /// Exclusions that removed the file from the model's input entirely.
    pub fn excluded_count(&self) -> (r: usize)
        ensures
            r == taken_out(self@.excluded).len(),
    {
        let ghost all = self@.excluded;
        let mut n: usize = 0;
        let mut i: usize = 0;
        proof {
            reveal(Seq::filter);
            assert(all.take(0) =~= Seq::empty());
        }
        while i < self.excluded.len()
            invariant
                i <= self.excluded@.len(),
                all == excluded_views(self.excluded@),
                n == taken_out(all.take(i as int)).len(),
                n <= i,
            decreases self.excluded@.len() - i,
        {
            proof {
                reveal(Seq::filter);
                assert(all.take(i + 1).drop_last() =~= all.take(i as int));
                assert(all.take(i + 1).last() == self.excluded@[i as int]@);
            }
            if !self.excluded[i].kept_in_text {
                n = n + 1;
            }
            i = i + 1;
        }
        assert(all.take(i as int) =~= all);
        n
    }

    /// Exclusions decided by the path gates, without those of the size budget.
    pub fn path_gate_excluded_count(&self) -> (r: usize)
        ensures
            r == gated_out(self@.excluded).len(),
    {
        let ghost all = self@.excluded;
        let mut n: usize = 0;
        let mut i: usize = 0;
        proof {
            reveal(Seq::filter);
            assert(all.take(0) =~= Seq::empty());
        }
        while i < self.excluded.len()
            invariant
                i <= self.excluded@.len(),
                all == excluded_views(self.excluded@),
                n == gated_out(all.take(i as int)).len(),
                n <= i,
            decreases self.excluded@.len() - i,
        {
            proof {
                reveal(Seq::filter);
                assert(all.take(i + 1).drop_last() =~= all.take(i as int));
                assert(all.take(i + 1).last() == self.excluded@[i as int]@);
            }
            if !self.excluded[i].kept_in_text && self.excluded[i].reason
                != ExcludeReason::Oversized {
                n = n + 1;
            }
            i = i + 1;
        }
        assert(all.take(i as int) =~= all);
        n
    }

    /// Paths dropped by the size budget, in the order the budget dropped them.
    pub fn oversized_dropped(&self) -> (r: Vec<String>)
        ensures
            text::views(r@) == dropped_paths(self@.excluded),
    {
        let ghost all = self@.excluded;
        let mut out: Vec<String> = Vec::new();
        let mut i: usize = 0;
        proof {
            reveal(Seq::filter);
            assert(all.take(0) =~= Seq::empty());
            assert(text::views(out@) =~= dropped_paths(all.take(0)));
        }
        while i < self.excluded.len()
            invariant
                i <= self.excluded@.len(),
                all == excluded_views(self.excluded@),
                text::views(out@) == dropped_paths(all.take(i as int)),
            decreases self.excluded@.len() - i,
        {
            let ghost before = out@;
            proof {
                reveal(Seq::filter);
                assert(all.take(i + 1).drop_last() =~= all.take(i as int));
                assert(all.take(i + 1).last() == self.excluded@[i as int]@);
            }
            if self.excluded[i].reason == ExcludeReason::Oversized {
                out.push(self.excluded[i].path.clone());
                proof {
                    text::lemma_views_push(before, out@.last());
                    assert(dropped_paths(all.take(i + 1)) =~= dropped_paths(
                        all.take(i as int),
                    ).push(self.excluded@[i as int]@.path));
                }
            }
            i = i + 1;
        }
        assert(all.take(i as int) =~= all);
        out
    }

    /// Exclusions of one reason.
    pub fn excluded_by(&self, reason: ExcludeReason) -> (r: Vec<&ExcludedFile>)
        ensures
            excluded_ref_views(r@) == excluded_for(self@.excluded, reason),
    {
        let ghost all = self@.excluded;
        let mut out: Vec<&ExcludedFile> = Vec::new();
        let mut i: usize = 0;
        proof {
            reveal(Seq::filter);
            assert(all.take(0) =~= Seq::empty());
            assert(excluded_ref_views(out@) =~= excluded_for(all.take(0), reason));
        }
        while i < self.excluded.len()
            invariant
                i <= self.excluded@.len(),
                all == excluded_views(self.excluded@),
                excluded_ref_views(out@) == excluded_for(all.take(i as int), reason),
            decreases self.excluded@.len() - i,
        {
            let ghost before = out@;
            proof {
                reveal(Seq::filter);
                assert(all.take(i + 1).drop_last() =~= all.take(i as int));
                assert(all.take(i + 1).last() == self.excluded@[i as int]@);
            }
            if self.excluded[i].reason == reason {
                out.push(&self.excluded[i]);
                proof {
                    assert(excluded_ref_views(out@) =~= excluded_ref_views(before).push(
                        self.excluded@[i as int]@,
                    ));
                }
            }
            i = i + 1;
        }
        assert(all.take(i as int) =~= all);
        out
    }
}

// ---------------------------------------------------------------------------
// Laws of selection
// ---------------------------------------------------------------------------

/// A budget only takes away: a selection with a budget is the selection without
/// one, truncated, and the dropped files take the place of what was said of them.
pub proof fn law_selection_is_filter_then_truncate(
    input: Seq<char>,
    gates: Gates,
    kb: nat,
)
    ensures
        ({
            let free = selected(input, gates, None);
            let bounded = selected(input, gates, Some(kb));
            let (kept, dropped) = diff::budgeted(free.text, kb);
            &&& bounded.text == kept
            &&& bounded.excluded == standing(free.excluded, dropped) + oversized(dropped)
        }),
{
    lemma_nothing_dropped(gated(diff::sections(input), gates));
}

/// A selection that fits its budget is the selection without one.
pub proof fn law_generous_budget_changes_nothing(
    input: Seq<char>,
    gates: Gates,
    kb: nat,
)
    requires
        text::byte_len(selected(input, gates, None).text) <= kb * 1024,
    ensures
        selected(input, gates, Some(kb)) == selected(input, gates, None),
{
    diff::law_budget_keeps_what_fits(selected(input, gates, None).text, kb);
}

/// Ignoring more paths, or being strict, only takes more sections out of the text.
pub proof fn law_gates_only_add_exclusions(section: Seq<char>, fewer: Gates, more: Gates)
    requires
        fewer.ignored.subset_of(more.ignored),
        fewer.strict ==> more.strict,
        removed(section, fewer),
    ensures
        removed(section, more),
{
}

/// The reason that a section is given is the first that applies: ignored, holding
/// credentials, written by a tool, generated, of an unknown kind, deleted.
pub proof fn law_reasons_have_one_order(section: Seq<char>, gates: Gates)
    requires
        diff::names_file(section),
    ensures
        ({
            let path = diff::path_of(section)->0;
            let reason = gate(section, gates);
            let first = gates.ignored.contains(path);
            let second = gates.strict && gates::secret(path);
            let third = gates.strict && gates::tool_output(path);
            let fourth = diff::is_generated(section);
            let fifth = gates.strict && !gates::reviewable(path);
            let sixth = diff::deletes_file(section);
            &&& first <==> reason == Some(ExcludeReason::Ignored)
            &&& !first && second <==> reason == Some(ExcludeReason::SecretPath)
            &&& !first && !second && third <==> reason == Some(ExcludeReason::DefaultPath)
            &&& !first && !second && !third && fourth <==> reason == Some(ExcludeReason::Generated)
            &&& !first && !second && !third && !fourth && fifth <==> reason == Some(
                ExcludeReason::Extension,
            )
            &&& !first && !second && !third && !fourth && !fifth && sixth <==> reason == Some(
                ExcludeReason::Deleted,
            )
        }),
{
}

/// The three strict gates never act on a selection that is not strict.
pub proof fn law_strict_gates_are_off_by_default(section: Seq<char>, ignored: Set<Seq<char>>)
    ensures
        gate(section, usual(ignored)) != Some(ExcludeReason::SecretPath),
        gate(section, usual(ignored)) != Some(ExcludeReason::DefaultPath),
        gate(section, usual(ignored)) != Some(ExcludeReason::Extension),
{
}

/// Nothing in a configuration lets credentials through a strict selection.
pub proof fn law_secrets_are_never_sent_when_strict(section: Seq<char>, gates: Gates)
    requires
        gates.strict,
        diff::names_file(section),
        gates::secret(diff::path_of(section)->0),
    ensures
        removed(section, gates),
{
}

/// No exclusion is silent: a section that the gates report on appears among the
/// exclusions with its path and reason, and is kept in the text only when deleted.
pub proof fn law_no_silent_exclusion(secs: Seq<Seq<char>>, gates: Gates, i: int)
    requires
        0 <= i < secs.len(),
        gate(secs[i], gates) is Some,
    ensures
        gated(secs, gates).contains(
            ExcludedView {
                path: diff::path_of(secs[i])->0,
                reason: gate(secs[i], gates)->0,
                kept_in_text: !removed(secs[i], gates),
            },
        ),
    decreases secs.len(),
{
    let front = secs.drop_last();
    let done = gated(front, gates);
    let all = gated(secs, gates);
    if i == secs.len() - 1 {
        assert(all.last() == all[all.len() - 1]);
    } else {
        law_no_silent_exclusion(front, gates, i);
        assert(front[i] == secs[i]);
        let want = ExcludedView {
            path: diff::path_of(secs[i])->0,
            reason: gate(secs[i], gates)->0,
            kept_in_text: !removed(secs[i], gates),
        };
        let k = choose|k: int| 0 <= k < done.len() && done[k] == want;
        assert(all[k] == want);
    }
}

/// A section that the gates let through is in the text, with a final newline.
pub proof fn law_passing_sections_stay(secs: Seq<Seq<char>>, gates: Gates, i: int)
    requires
        0 <= i < secs.len(),
        !removed(secs[i], gates),
    ensures
        text::mentions(passed(secs, gates), terminated(secs[i])),
    decreases secs.len(),
{
    let front = secs.drop_last();
    let before = passed(front, gates);
    let all = passed(secs, gates);
    if i == secs.len() - 1 {
        let part = terminated(secs[i]);
        assert(all.subrange(before.len() as int, (before.len() + part.len()) as int) =~= part);
        assert(text::occurs_at(all, part, before.len() as int));
    } else {
        law_passing_sections_stay(front, gates, i);
        let part = terminated(front[i]);
        let k = choose|k: int| text::occurs_at(before, part, k);
        assert(all.subrange(k, k + part.len()) =~= before.subrange(k, k + part.len()));
        assert(text::occurs_at(all, part, k));
    }
}

/// The sections that the gates let through, each with a final newline.
pub open spec fn kept_sections(secs: Seq<Seq<char>>, gates: Gates) -> Seq<Seq<char>>
    decreases secs.len(),
{
    if secs.len() == 0 {
        Seq::empty()
    } else {
        let done = kept_sections(secs.drop_last(), gates);
        if removed(secs.last(), gates) {
            done
        } else {
            done.push(terminated(secs.last()))
        }
    }
}

/// A section that is let through is among those that are kept.
pub proof fn lemma_kept_holds(secs: Seq<Seq<char>>, gates: Gates, i: int)
    requires
        0 <= i < secs.len(),
        !removed(secs[i], gates),
    ensures
        kept_sections(secs, gates).contains(terminated(secs[i])),
    decreases secs.len(),
{
    let front = secs.drop_last();
    let done = kept_sections(front, gates);
    let all = kept_sections(secs, gates);
    if i == secs.len() - 1 {
        assert(all[all.len() - 1] == terminated(secs[i]));
    } else {
        lemma_kept_holds(front, gates, i);
        assert(front[i] == secs[i]);
        let k = choose|k: int| 0 <= k < done.len() && done[k] == terminated(front[i]);
        assert(all[k] == terminated(secs[i]));
    }
}

/// Ending the last line of a section opens no section, and takes none away.
proof fn lemma_terminated_opens_alike(section: Seq<char>)
    requires
        section.len() > 0,
    ensures
        terminated(section).len() > 0,
        terminated(section).last() == '\n',
        diff::one_opening(section) ==> diff::one_opening(terminated(section)),
        diff::opens_section(text::raw_lines(section)[0]) ==> diff::opens_section(
            text::raw_lines(terminated(section))[0],
        ),
{
    if section.last() != '\n' {
        text::lemma_raw_lines_terminated(section);
        let rows = text::raw_lines(section);
        let line = rows.last();
        let ended = line.push('\n');
        let all = text::raw_lines(terminated(section));
        let p = "diff --git "@;
        assert(all == rows.drop_last().push(ended));
        assert(line == rows[rows.len() - 1]);
        assert(diff::opens_section(ended) == diff::opens_section(line)) by {
            reveal_strlit("diff --git ");
            if diff::opens_section(line) {
                assert(ended.subrange(0, p.len() as int) =~= line.subrange(0, p.len() as int));
            }
            if diff::opens_section(ended) {
                assert(ended.subrange(0, p.len() as int)[10] == ' ');
                assert(p.len() <= line.len());
                assert(ended.subrange(0, p.len() as int) =~= line.subrange(0, p.len() as int));
            }
        }
        assert forall|k: int| 0 <= k < all.len() implies diff::opens_section(#[trigger] all[k])
            == diff::opens_section(rows[k]) by {
            if k < all.len() - 1 {
                assert(all[k] == rows[k]);
            }
        }
    }
}

/// What the gates let through is well cut, and makes the text.
proof fn lemma_kept_is_well_cut(secs: Seq<Seq<char>>, gates: Gates)
    requires
        diff::well_cut(secs),
    ensures
        diff::well_cut(kept_sections(secs, gates)),
        forall|i: int|
            0 <= i < kept_sections(secs, gates).len() ==> (#[trigger] kept_sections(
                secs,
                gates,
            )[i]).last() == '\n',
        text::concat(kept_sections(secs, gates)) == passed(secs, gates),
    decreases secs.len(),
{
    let all = kept_sections(secs, gates);
    if secs.len() > 0 {
        let front = secs.drop_last();
        let done = kept_sections(front, gates);
        assert forall|i: int| 0 <= i < front.len() implies {
            &&& (#[trigger] front[i]).len() > 0
            &&& i < front.len() - 1 ==> front[i].last() == '\n'
            &&& i > 0 ==> diff::opens_section(text::raw_lines(front[i])[0])
            &&& diff::one_opening(front[i])
        } by {
            assert(front[i] == secs[i]);
        }
        lemma_kept_is_well_cut(front, gates);
        if !removed(secs.last(), gates) {
            let last = terminated(secs.last());
            assert(secs.last() == secs[secs.len() - 1]);
            lemma_terminated_opens_alike(secs.last());
            text::lemma_concat_push(done, last);
            assert forall|i: int| 0 <= i < all.len() implies {
                &&& (#[trigger] all[i]).len() > 0
                &&& all[i].last() == '\n'
                &&& i > 0 ==> diff::opens_section(text::raw_lines(all[i])[0])
                &&& diff::one_opening(all[i])
            } by {
                if i < done.len() {
                    assert(all[i] == done[i]);
                } else {
                    assert(all[i] == last);
                    if i > 0 {
                        assert(front.len() > 0);
                    }
                }
            }
        } else {
            assert(passed(secs, gates) =~= passed(front, gates));
        }
    }
}

/// The sections that are sent: those that the gates let through, without those
/// that the budget drops.
pub open spec fn sent_sections(
    input: Seq<char>,
    gates: Gates,
    max_diff_kb: Option<nat>,
) -> Seq<Seq<char>> {
    let kept = kept_sections(diff::sections(input), gates);
    match max_diff_kb {
        Some(kb) => diff::shrunk(kept, kb * 1024).0,
        None => kept,
    }
}

/// The text of a selection is made of whole sections: splitting it gives back each
/// section that the gates let through and the budget kept, and the units are those
/// of these sections.
pub proof fn law_text_is_made_of_whole_sections(
    input: Seq<char>,
    gates: Gates,
    max_diff_kb: Option<nat>,
)
    ensures
        diff::sections(selected(input, gates, max_diff_kb).text) == sent_sections(
            input,
            gates,
            max_diff_kb,
        ),
        selected(input, gates, max_diff_kb).units == units_of(
            sent_sections(input, gates, max_diff_kb),
        ),
{
    let secs = diff::sections(input);
    let kept = kept_sections(secs, gates);
    diff::lemma_sections_are_well_cut(input);
    lemma_kept_is_well_cut(secs, gates);
    diff::lemma_well_cut_is_read_back(kept);
    if let Some(kb) = max_diff_kb {
        diff::law_budget_keeps_whole_sections(passed(secs, gates), kb);
    }
}

/// Whether ending the last line of a section leaves its path, and whether it
/// deletes its file.
pub open spec fn reads_alike(section: Seq<char>) -> bool {
    &&& diff::path_of(terminated(section)) == diff::path_of(section)
    &&& diff::deletes_file(terminated(section)) == diff::deletes_file(section)
}

/// A section that does not end in a lone carriage return reads alike with a final
/// newline.
pub proof fn law_ending_a_line_changes_nothing(section: Seq<char>)
    requires
        section.len() > 0,
        section.last() != '\r',
    ensures
        reads_alike(section),
{
    if section.last() != '\n' {
        text::lemma_raw_lines_are_lines(section);
        text::lemma_raw_lines_terminated(section);
        let rows = text::raw_lines(section);
        let line = rows.last();
        assert(line == rows[rows.len() - 1]);
        assert(line.push('\n').drop_last() =~= line);
        assert(text::lines(terminated(section)) =~= text::lines(section));
    }
}

/// Whether some exclusion names the path.
pub open spec fn is_excluded(excluded: Seq<ExcludedView>, path: Seq<char>) -> bool {
    exists|i: int| 0 <= i < excluded.len() && (#[trigger] excluded[i]).path == path
}

/// The paths that the budget of a selection drops, in order.
pub open spec fn dropped_of(input: Seq<char>, gates: Gates, max_diff_kb: Option<nat>) -> Seq<Seq<char>> {
    match max_diff_kb {
        Some(kb) => diff::shrunk(kept_sections(diff::sections(input), gates), kb * 1024).1,
        None => Seq::empty(),
    }
}

/// The exclusions of a selection: those of the gates that stand, then the files that
/// the budget dropped.
pub proof fn lemma_exclusions(input: Seq<char>, gates: Gates, max_diff_kb: Option<nat>)
    ensures
        selected(input, gates, max_diff_kb).excluded == standing(
            gated(diff::sections(input), gates),
            dropped_of(input, gates, max_diff_kb),
        ) + oversized(dropped_of(input, gates, max_diff_kb)),
{
    let secs = diff::sections(input);
    diff::lemma_sections_are_well_cut(input);
    lemma_kept_is_well_cut(secs, gates);
    diff::lemma_well_cut_is_read_back(kept_sections(secs, gates));
}

/// What passes a filter is kept by it.
proof fn lemma_filter_keeps<A>(list: Seq<A>, pred: spec_fn(A) -> bool, i: int)
    requires
        0 <= i < list.len(),
        pred(list[i]),
    ensures
        list.filter(pred).contains(list[i]),
    decreases list.len(),
{
    reveal(Seq::filter);
    let front = list.drop_last();
    let all = list.filter(pred);
    if i == front.len() {
        assert(all.last() == list[i]);
        assert(all[all.len() - 1] == list[i]);
    } else {
        lemma_filter_keeps(front, pred, i);
        assert(front[i] == list[i]);
        let k = choose|k: int| 0 <= k < front.filter(pred).len() && front.filter(pred)[k] == list[i];
        assert(all[k] == list[i]);
    }
}

/// What a filter keeps was there and passed.
proof fn lemma_filter_source<A>(list: Seq<A>, pred: spec_fn(A) -> bool, a: int) -> (i: int)
    requires
        0 <= a < list.filter(pred).len(),
    ensures
        0 <= i < list.len(),
        list[i] == list.filter(pred)[a],
        pred(list[i]),
    decreases list.len(),
{
    reveal(Seq::filter);
    let front = list.drop_last();
    if a < front.filter(pred).len() {
        let i = lemma_filter_source(front, pred, a);
        assert(front[i] == list[i]);
        i
    } else {
        front.len() as int
    }
}

/// A filter keeps the order.
proof fn lemma_filter_pair<A>(list: Seq<A>, pred: spec_fn(A) -> bool, a: int, b: int) -> (at: (
    int,
    int,
))
    requires
        0 <= a < b < list.filter(pred).len(),
    ensures
        0 <= at.0 < at.1 < list.len(),
        list[at.0] == list.filter(pred)[a],
        list[at.1] == list.filter(pred)[b],
    decreases list.len(),
{
    reveal(Seq::filter);
    let front = list.drop_last();
    if b < front.filter(pred).len() {
        let (i, j) = lemma_filter_pair(front, pred, a, b);
        assert(front[i] == list[i] && front[j] == list[j]);
        (i, j)
    } else {
        let i = lemma_filter_source(front, pred, a);
        assert(front[i] == list[i]);
        (i, front.len() as int)
    }
}

/// What the gates report of a section.
pub open spec fn report_of(section: Seq<char>, gates: Gates) -> ExcludedView {
    ExcludedView {
        path: diff::path_of(section)->0,
        reason: gate(section, gates)->0,
        kept_in_text: !removed(section, gates),
    }
}

/// What the gates report, they report of a section.
pub proof fn lemma_gated_source(secs: Seq<Seq<char>>, gates: Gates, a: int) -> (i: int)
    requires
        0 <= a < gated(secs, gates).len(),
    ensures
        0 <= i < secs.len(),
        gate(secs[i], gates) is Some,
        gated(secs, gates)[a] == report_of(secs[i], gates),
    decreases secs.len(),
{
    let front = secs.drop_last();
    if a < gated(front, gates).len() {
        let i = lemma_gated_source(front, gates, a);
        assert(front[i] == secs[i]);
        i
    } else {
        secs.len() - 1
    }
}

/// The gates report of no section twice.
proof fn lemma_gated_pair(secs: Seq<Seq<char>>, gates: Gates, a: int, b: int) -> (at: (int, int))
    requires
        0 <= a < b < gated(secs, gates).len(),
    ensures
        0 <= at.0 < at.1 < secs.len(),
        gate(secs[at.0], gates) is Some,
        gate(secs[at.1], gates) is Some,
        gated(secs, gates)[a] == report_of(secs[at.0], gates),
        gated(secs, gates)[b] == report_of(secs[at.1], gates),
    decreases secs.len(),
{
    let front = secs.drop_last();
    if b < gated(front, gates).len() {
        let (i, j) = lemma_gated_pair(front, gates, a, b);
        assert(front[i] == secs[i] && front[j] == secs[j]);
        (i, j)
    } else {
        let i = lemma_gated_source(front, gates, a);
        assert(front[i] == secs[i]);
        (i, secs.len() - 1)
    }
}

/// A kept section was let through.
proof fn lemma_kept_source(secs: Seq<Seq<char>>, gates: Gates, a: int) -> (i: int)
    requires
        0 <= a < kept_sections(secs, gates).len(),
    ensures
        0 <= i < secs.len(),
        !removed(secs[i], gates),
        kept_sections(secs, gates)[a] == terminated(secs[i]),
    decreases secs.len(),
{
    let front = secs.drop_last();
    if a < kept_sections(front, gates).len() {
        let i = lemma_kept_source(front, gates, a);
        assert(front[i] == secs[i]);
        i
    } else {
        secs.len() - 1
    }
}

/// No section is kept twice.
proof fn lemma_kept_pair(secs: Seq<Seq<char>>, gates: Gates, a: int, b: int) -> (at: (int, int))
    requires
        0 <= a < b < kept_sections(secs, gates).len(),
    ensures
        0 <= at.0 < at.1 < secs.len(),
        kept_sections(secs, gates)[a] == terminated(secs[at.0]),
        kept_sections(secs, gates)[b] == terminated(secs[at.1]),
    decreases secs.len(),
{
    let front = secs.drop_last();
    if b < kept_sections(front, gates).len() {
        let (i, j) = lemma_kept_pair(front, gates, a, b);
        assert(front[i] == secs[i] && front[j] == secs[j]);
        (i, j)
    } else {
        let i = lemma_kept_source(front, gates, a);
        assert(front[i] == secs[i]);
        (i, secs.len() - 1)
    }
}

/// Whether no two sections name the same file.
pub open spec fn distinct_paths(secs: Seq<Seq<char>>) -> bool {
    forall|i: int, j: int|
        0 <= i < j < secs.len() && diff::names_file(#[trigger] secs[i]) && diff::names_file(
            #[trigger] secs[j],
        ) ==> diff::path_of(secs[i]) != diff::path_of(secs[j])
}

/// One file, one reason: where no two sections name the same file, no path is
/// excluded twice.
pub proof fn law_one_reason_per_file(
    input: Seq<char>,
    gates: Gates,
    max_diff_kb: Option<nat>,
    a: int,
    b: int,
)
    requires
        distinct_paths(diff::sections(input)),
        forall|i: int|
            0 <= i < diff::sections(input).len() ==> reads_alike(#[trigger] diff::sections(input)[i]),
        0 <= a < b < selected(input, gates, max_diff_kb).excluded.len(),
    ensures
        selected(input, gates, max_diff_kb).excluded[a].path != selected(
            input,
            gates,
            max_diff_kb,
        ).excluded[b].path,
{
    let secs = diff::sections(input);
    let kept = kept_sections(secs, gates);
    let at_gates = gated(secs, gates);
    let dropped = dropped_of(input, gates, max_diff_kb);
    let stand = standing(at_gates, dropped);
    let pred = |e: ExcludedView| !(e.kept_in_text && dropped.contains(e.path));
    let all = selected(input, gates, max_diff_kb).excluded;
    lemma_exclusions(input, gates, max_diff_kb);
    let n = stand.len();
    if b < n {
        let (k, l) = lemma_filter_pair(at_gates, pred, a, b);
        let (i, j) = lemma_gated_pair(secs, gates, k, l);
        assert(all[a] == stand[a] && all[b] == stand[b]);
        assert(diff::names_file(secs[i]) && diff::names_file(secs[j]));
    } else {
        let kb = max_diff_kb->0;
        assert(all[b].path == dropped[b - n]);
        if a >= n {
            assert(all[a].path == dropped[a - n]);
            let (k, l) = diff::lemma_dropped_pair(kept, kb * 1024, a - n, b - n);
            if k < l {
                let (i, j) = lemma_kept_pair(secs, gates, k, l);
                assert(reads_alike(secs[i]) && reads_alike(secs[j]));
                assert(diff::names_file(secs[i]) && diff::names_file(secs[j]));
            } else {
                let (j, i) = lemma_kept_pair(secs, gates, l, k);
                assert(reads_alike(secs[i]) && reads_alike(secs[j]));
                assert(diff::names_file(secs[j]) && diff::names_file(secs[i]));
            }
        } else {
            assert(all[a] == stand[a]);
            let k = lemma_filter_source(at_gates, pred, a);
            let i = lemma_gated_source(secs, gates, k);
            let l = diff::lemma_dropped_source(kept, kb * 1024, b - n);
            let j = lemma_kept_source(secs, gates, l);
            assert(reads_alike(secs[i]) && reads_alike(secs[j]));
            assert(diff::names_file(secs[i]) && diff::names_file(secs[j]));
            if all[a].path == all[b].path {
                assert(i == j) by {
                    if i < j {
                        assert(diff::path_of(secs[i]) != diff::path_of(secs[j]));
                    }
                    if j < i {
                        assert(diff::path_of(secs[j]) != diff::path_of(secs[i]));
                    }
                }
                assert(dropped.contains(dropped[b - n]));
            }
        }
    }
}

/// What is said to be kept is kept: the section of an exclusion that is kept in the
/// text stands in the text, and deletes its file.
pub proof fn law_kept_exclusions_stand_in_the_text(
    input: Seq<char>,
    gates: Gates,
    max_diff_kb: Option<nat>,
    a: int,
)
    requires
        forall|i: int|
            0 <= i < diff::sections(input).len() ==> reads_alike(#[trigger] diff::sections(input)[i]),
        0 <= a < selected(input, gates, max_diff_kb).excluded.len(),
        selected(input, gates, max_diff_kb).excluded[a].kept_in_text,
    ensures
        exists|i: int|
            0 <= i < diff::sections(input).len() && diff::path_of(#[trigger] diff::sections(input)[i])
                == Some(selected(input, gates, max_diff_kb).excluded[a].path) && diff::deletes_file(
                diff::sections(input)[i],
            ) && diff::sections(selected(input, gates, max_diff_kb).text).contains(
                terminated(diff::sections(input)[i]),
            ),
{
    let secs = diff::sections(input);
    let kept = kept_sections(secs, gates);
    let at_gates = gated(secs, gates);
    let dropped = dropped_of(input, gates, max_diff_kb);
    let stand = standing(at_gates, dropped);
    let pred = |e: ExcludedView| !(e.kept_in_text && dropped.contains(e.path));
    let all = selected(input, gates, max_diff_kb).excluded;
    lemma_exclusions(input, gates, max_diff_kb);
    law_text_is_made_of_whole_sections(input, gates, max_diff_kb);
    assert(a < stand.len());
    assert(all[a] == stand[a]);
    let k = lemma_filter_source(at_gates, pred, a);
    let i = lemma_gated_source(secs, gates, k);
    lemma_kept_holds(secs, gates, i);
    assert(reads_alike(secs[i]));
    assert(diff::path_of(secs[i]) == Some(all[a].path));
    let m = choose|m: int| 0 <= m < kept.len() && kept[m] == terminated(secs[i]);
    assert(kept[m] == terminated(secs[i]));
    if let Some(kb) = max_diff_kb {
        diff::law_budget_accounts_for_every_section(kept, kb * 1024);
    }
}

/// Every changed file is accounted for: it has a unit, or it is among the
/// exclusions.
pub proof fn law_every_changed_file_is_accounted_for(
    input: Seq<char>,
    gates: Gates,
    max_diff_kb: Option<nat>,
    i: int,
)
    requires
        0 <= i < diff::sections(input).len(),
        diff::names_file(diff::sections(input)[i]),
        reads_alike(diff::sections(input)[i]),
    ensures
        ({
            let chosen = selected(input, gates, max_diff_kb);
            let path = diff::path_of(diff::sections(input)[i])->0;
            has_unit(chosen.units, changeset_id(path)) || is_excluded(chosen.excluded, path)
        }),
{
    let secs = diff::sections(input);
    let section = secs[i];
    let path = diff::path_of(section)->0;
    let chosen = selected(input, gates, max_diff_kb);
    let at_gates = gated(secs, gates);
    let dropped = dropped_of(input, gates, max_diff_kb);
    let stand = standing(at_gates, dropped);
    let pred = |e: ExcludedView| !(e.kept_in_text && dropped.contains(e.path));
    lemma_exclusions(input, gates, max_diff_kb);
    if dropped.contains(path) {
        let d = choose|d: int| 0 <= d < dropped.len() && dropped[d] == path;
        assert(chosen.excluded[stand.len() + d].path == path);
    } else if gate(section, gates) is Some {
        law_no_silent_exclusion(secs, gates, i);
        let want = report_of(section, gates);
        let k = choose|k: int| 0 <= k < at_gates.len() && at_gates[k] == want;
        lemma_filter_keeps(at_gates, pred, k);
        let m = choose|m: int| 0 <= m < stand.len() && stand[m] == at_gates[k];
        assert(chosen.excluded[m].path == path);
    } else {
        let kept = kept_sections(secs, gates);
        let sent = sent_sections(input, gates, max_diff_kb);
        let ended = terminated(section);
        lemma_kept_holds(secs, gates, i);
        law_text_is_made_of_whole_sections(input, gates, max_diff_kb);
        let k = choose|k: int| 0 <= k < kept.len() && kept[k] == ended;
        assert(kept[k] == ended);
        if let Some(kb) = max_diff_kb {
            diff::law_budget_accounts_for_every_section(kept, kb * 1024);
        }
        let m = choose|m: int| 0 <= m < sent.len() && sent[m] == ended;
        law_every_reviewable_file_has_a_unit(sent, m);
    }
}

/// Whether a section is the first to name a file among those that the gates let
/// through.
pub open spec fn first_kept(secs: Seq<Seq<char>>, gates: Gates, i: int) -> bool {
    &&& 0 <= i < secs.len()
    &&& diff::names_file(secs[i])
    &&& !removed(secs[i], gates)
    &&& forall|j: int|
        0 <= j < i ==> removed(#[trigger] secs[j], gates) || !diff::names_file(secs[j])
}

/// The first kept file is the first file of the kept sections.
proof fn lemma_first_kept(secs: Seq<Seq<char>>, gates: Gates, i: int) -> (k: int)
    requires
        diff::well_cut(secs),
        first_kept(secs, gates, i),
        reads_alike(secs[i]),
    ensures
        0 <= k < kept_sections(secs, gates).len(),
        kept_sections(secs, gates)[k] == terminated(secs[i]),
        forall|j: int|
            0 <= j < k ==> !diff::names_file(#[trigger] kept_sections(secs, gates)[j]),
    decreases secs.len(),
{
    let front = secs.drop_last();
    let done = kept_sections(front, gates);
    let all = kept_sections(secs, gates);
    if i < secs.len() - 1 {
        assert(front[i] == secs[i]);
        assert forall|j: int| 0 <= j < i implies removed(#[trigger] front[j], gates)
            || !diff::names_file(front[j]) by {
            assert(front[j] == secs[j]);
        }
        assert forall|j: int| 0 <= j < front.len() implies {
            &&& (#[trigger] front[j]).len() > 0
            &&& j < front.len() - 1 ==> front[j].last() == '\n'
            &&& j > 0 ==> diff::opens_section(text::raw_lines(front[j])[0])
            &&& diff::one_opening(front[j])
        } by {
            assert(front[j] == secs[j]);
        }
        let k = lemma_first_kept(front, gates, i);
        assert(all[k] == done[k]);
        assert forall|j: int| 0 <= j < k implies !diff::names_file(#[trigger] all[j]) by {
            assert(all[j] == done[j]);
        }
        k
    } else {
        assert forall|j: int| 0 <= j < front.len() implies removed(#[trigger] front[j], gates) || (
        !diff::names_file(front[j]) && terminated(front[j]) == front[j]) by {
            assert(front[j] == secs[j]);
        }
        lemma_nothing_named(front, gates);
        assert forall|j: int| 0 <= j < done.len() implies !diff::names_file(#[trigger] all[j]) by {
            assert(all[j] == done[j]);
        }
        done.len() as int
    }
}

/// Where no section that is let through names a file, no kept one does.
proof fn lemma_nothing_named(secs: Seq<Seq<char>>, gates: Gates)
    requires
        forall|j: int|
            0 <= j < secs.len() ==> removed(#[trigger] secs[j], gates) || (!diff::names_file(
                secs[j],
            ) && terminated(secs[j]) == secs[j]),
    ensures
        forall|j: int|
            0 <= j < kept_sections(secs, gates).len() ==> !diff::names_file(
                #[trigger] kept_sections(secs, gates)[j],
            ),
    decreases secs.len(),
{
    if secs.len() > 0 {
        let front = secs.drop_last();
        assert forall|j: int| 0 <= j < front.len() implies removed(#[trigger] front[j], gates) || (
        !diff::names_file(front[j]) && terminated(front[j]) == front[j]) by {
            assert(front[j] == secs[j]);
        }
        lemma_nothing_named(front, gates);
        assert(secs.last() == secs[secs.len() - 1]);
        let done = kept_sections(front, gates);
        let all = kept_sections(secs, gates);
        assert forall|j: int| 0 <= j < all.len() implies !diff::names_file(#[trigger] all[j]) by {
            if j < done.len() {
                assert(all[j] == done[j]);
            }
        }
    }
}

/// However small the budget, the first file that the gates let through is sent, and
/// has a unit unless it is deleted.
pub proof fn law_first_kept_file_is_always_sent(
    input: Seq<char>,
    gates: Gates,
    max_diff_kb: Option<nat>,
    i: int,
)
    requires
        first_kept(diff::sections(input), gates, i),
        reads_alike(diff::sections(input)[i]),
    ensures
        ({
            let section = diff::sections(input)[i];
            let chosen = selected(input, gates, max_diff_kb);
            &&& diff::sections(chosen.text).contains(terminated(section))
            &&& diff::deletes_file(section) || has_unit(
                chosen.units,
                changeset_id(diff::path_of(section)->0),
            )
        }),
{
    let secs = diff::sections(input);
    let kept = kept_sections(secs, gates);
    let sent = sent_sections(input, gates, max_diff_kb);
    diff::lemma_sections_are_well_cut(input);
    law_text_is_made_of_whole_sections(input, gates, max_diff_kb);
    let k = lemma_first_kept(secs, gates, i);
    if let Some(kb) = max_diff_kb {
        diff::law_first_file_survives(kept, kb * 1024, k);
        assert(sent.take(k + 1)[k] == kept.take(k + 1)[k]);
    }
    assert(sent[k] == terminated(secs[i]));
    if !diff::deletes_file(secs[i]) {
        law_every_reviewable_file_has_a_unit(sent, k);
    }
}

/// Every unit stands for a section of the dispatched text that names a file and
/// does not delete it: the denominator claims nothing that is not sent.
pub proof fn law_units_come_from_the_text(secs: Seq<Seq<char>>, u: int)
    requires
        0 <= u < units_of(secs).len(),
    ensures
        exists|i: int|
            0 <= i < secs.len() && diff::names_file(#[trigger] secs[i]) && !diff::deletes_file(
                secs[i],
            ) && units_of(secs)[u] == unit_of(diff::path_of(secs[i])->0, secs[i]),
    decreases secs.len(),
{
    let front = secs.drop_last();
    if u < units_of(front).len() {
        law_units_come_from_the_text(front, u);
        let i = choose|i: int|
            0 <= i < front.len() && diff::names_file(#[trigger] front[i]) && !diff::deletes_file(
                front[i],
            ) && units_of(front)[u] == unit_of(diff::path_of(front[i])->0, front[i]);
        assert(secs[i] == front[i]);
    } else {
        assert(secs[secs.len() - 1] == secs.last());
    }
}

/// Every file of the dispatched text that is not deleted has a unit.
pub proof fn law_every_reviewable_file_has_a_unit(secs: Seq<Seq<char>>, i: int)
    requires
        0 <= i < secs.len(),
        diff::names_file(secs[i]),
        !diff::deletes_file(secs[i]),
    ensures
        has_unit(units_of(secs), changeset_id(diff::path_of(secs[i])->0)),
    decreases secs.len(),
{
    let front = secs.drop_last();
    let done = units_of(front);
    let all = units_of(secs);
    let id = changeset_id(diff::path_of(secs[i])->0);
    if i < front.len() {
        law_every_reviewable_file_has_a_unit(front, i);
        assert(front[i] == secs[i]);
        let k = choose|k: int| 0 <= k < done.len() && (#[trigger] done[k]).unit_id == id;
        assert(all[k].unit_id == id);
    } else if !has_unit(done, id) {
        assert(all[all.len() - 1].unit_id == id);
    }
}

/// No two units of a selection share an id.
pub proof fn law_unit_ids_are_distinct(secs: Seq<Seq<char>>, a: int, b: int)
    requires
        0 <= a < b < units_of(secs).len(),
    ensures
        units_of(secs)[a].unit_id != units_of(secs)[b].unit_id,
    decreases secs.len(),
{
    let front = secs.drop_last();
    let done = units_of(front);
    if b < done.len() {
        law_unit_ids_are_distinct(front, a, b);
    } else {
        let all = units_of(secs);
        if all[a].unit_id == all[b].unit_id {
            assert(done[a].unit_id == all[b].unit_id);
            assert(has_unit(done, all[b].unit_id));
        }
    }
}

/// The id of a unit depends on the path alone, its fingerprint on the content.
pub proof fn law_unit_id_is_content_independent(
    path: Seq<char>,
    section: Seq<char>,
    other: Seq<char>,
)
    ensures
        unit_of(path, section).unit_id == unit_of(path, other).unit_id,
        unit_of(path, section).unit_fp == fingerprint(path, section),
{
}

} // verus!
