//! Lexical paths: `/`-separated names, without a look at the file system.

use vstd::prelude::*;
use vstd::slice::slice_subrange;

use crate::text;

verus! {

/// A path after lexical normalization.
#[verifier::ext_equal]
pub struct LexPath {
    pub absolute: bool,
    pub names: Seq<Seq<char>>,
}

/// Why an output path is refused.
#[derive(Debug, Clone, Copy, PartialEq, Eq, Structural)]
pub enum PathError {
    /// The path is absolute.
    Absolute,
    /// The path leads out of the workspace.
    Escapes,
}

impl PathError {
    /// What is said to the user.
    pub open spec fn text(self) -> Seq<char> {
        match self {
            PathError::Absolute => "--output must be a workspace-relative path"@,
            PathError::Escapes => "--output escapes the workspace"@,
        }
    }

    pub fn message(self) -> (r: &'static str)
        ensures
            r@ == self.text(),
    {
        match self {
            PathError::Absolute => "--output must be a workspace-relative path",
            PathError::Escapes => "--output escapes the workspace",
        }
    }
}

/// Whether a path begins at the root.
pub open spec fn is_absolute(path: Seq<char>) -> bool {
    path.len() > 0 && path[0] == '/'
}

/// Whether a piece between separators counts as a component.
pub open spec fn is_name(piece: Seq<char>) -> bool {
    piece.len() > 0 && piece != "."@
}

/// The components of a path; empty pieces and `.` are no components.
pub open spec fn components(path: Seq<char>) -> Seq<Seq<char>>
    decreases path.len(),
{
    if path.len() == 0 {
        Seq::empty()
    } else {
        let p = text::position(path, '/');
        let piece = path.take(p);
        let rest = if 0 <= p < path.len() {
            components(path.skip(p + 1))
        } else {
            Seq::empty()
        };
        if is_name(piece) {
            seq![piece] + rest
        } else {
            rest
        }
    }
}

/// Components with every `..` taking back the one before it, where there is one.
pub open spec fn folded(names: Seq<Seq<char>>) -> Seq<Seq<char>>
    decreases names.len(),
{
    if names.len() == 0 {
        Seq::empty()
    } else {
        let done = folded(names.drop_last());
        if names.last() == ".."@ {
            if done.len() > 0 {
                done.drop_last()
            } else {
                done
            }
        } else {
            done.push(names.last())
        }
    }
}

/// A path with `.` and `..` resolved lexically.
pub open spec fn normalized(path: Seq<char>) -> LexPath {
    LexPath { absolute: is_absolute(path), names: folded(components(path)) }
}

/// `target` as seen from `base`: an absolute target stands for itself.
pub open spec fn normalized_from(base: Seq<char>, target: Seq<char>) -> LexPath {
    if is_absolute(target) {
        normalized(target)
    } else {
        LexPath {
            absolute: is_absolute(base),
            names: folded(components(base) + components(target)),
        }
    }
}

/// Whether a path begins with all components of `base`. A base without
/// components is the beginning of every path.
pub open spec fn under(path: LexPath, base: LexPath) -> bool {
    if base.absolute || base.names.len() > 0 {
        path.absolute == base.absolute && base.names.is_prefix_of(path.names)
    } else {
        true
    }
}

/// The text of a normalized path.
pub open spec fn written(path: LexPath) -> Seq<char> {
    (if path.absolute {
        "/"@
    } else {
        Seq::empty()
    }) + text::joined(path.names, "/"@)
}

/// The components of a path.
fn components_of(path: &[char]) -> (r: Vec<Vec<char>>)
    ensures
        text::char_views(r@) == components(path@),
{
    let dot = text::chars_of(".");
    let mut out: Vec<Vec<char>> = Vec::new();
    let mut from: usize = 0;
    assert(path@.skip(0) =~= path@);
    assert(text::char_views(out@) + components(path@) =~= components(path@));
    while from < path.len()
        invariant
            from <= path@.len(),
            dot@ == "."@,
            text::char_views(out@) + components(path@.skip(from as int)) == components(path@),
        decreases path@.len() - from,
    {
        let rest = slice_subrange(path, from, path.len());
        assert(rest@ =~= path@.skip(from as int));
        let p: usize = text::find_char(rest, '/');
        proof {
            text::lemma_position(rest@, '/');
        }
        let piece = slice_subrange(rest, 0, p);
        assert(piece@ =~= rest@.take(p as int));
        let ghost before = text::char_views(out@);
        let n: usize = rest.len();
        let ghost after = if p < n {
            components(rest@.skip(p + 1))
        } else {
            Seq::<Seq<char>>::empty()
        };
        if piece.len() > 0 && !text::same_chars(piece, &dot) {
            let name = text::copy_chars(piece);
            out.push(name);
            assert(text::char_views(out@) =~= before.push(piece@));
            assert(before + (seq![piece@] + after) =~= text::char_views(out@) + after);
        }
        if p < n {
            assert(rest@.skip(p + 1) =~= path@.skip(from + p + 1));
            from = from + p + 1;
        } else {
            from = path.len();
            assert(path@.skip(from as int) =~= Seq::empty());
        }
    }
    assert(path@.skip(from as int) =~= Seq::empty());
    assert(text::char_views(out@) + components(path@.skip(from as int)) =~= text::char_views(out@));
    out
}

/// Fold components, after those that are already folded.
fn fold_onto(done: Vec<Vec<char>>, names: Vec<Vec<char>>, Ghost(before): Ghost<Seq<Seq<char>>>) -> (r: Vec<
    Vec<char>,
>)
    requires
        text::char_views(done@) == folded(before),
    ensures
        text::char_views(r@) == folded(before + text::char_views(names@)),
{
    let up = text::chars_of("..");
    let ghost all = text::char_views(names@);
    let mut done = done;
    let mut i: usize = 0;
    assert(before + all.take(0) =~= before);
    while i < names.len()
        invariant
            i <= names@.len(),
            up@ == ".."@,
            all == text::char_views(names@),
            text::char_views(done@) == folded(before + all.take(i as int)),
        decreases names@.len() - i,
    {
        let ghost seen = before + all.take(i as int);
        let ghost old_done = done@;
        proof {
            assert(before + all.take(i + 1) =~= seen.push(all[i as int]));
            assert(seen.push(all[i as int]).drop_last() =~= seen);
            assert(all[i as int] == names@[i as int]@);
        }
        if text::same_chars(&names[i], &up) {
            if done.len() > 0 {
                done.pop();
                assert(text::char_views(done@) =~= text::char_views(old_done).drop_last());
            }
        } else {
            done.push(text::copy_chars(&names[i]));
            assert(text::char_views(done@) =~= text::char_views(old_done).push(all[i as int]));
        }
        i = i + 1;
    }
    assert(all.take(i as int) =~= all);
    done
}

/// A normalized path with its components at hand.
struct Normal {
    absolute: bool,
    names: Vec<Vec<char>>,
}

impl View for Normal {
    type V = LexPath;

    closed spec fn view(&self) -> LexPath {
        LexPath { absolute: self.absolute, names: text::char_views(self.names@) }
    }
}

/// Whether a path begins at the root.
fn starts_at_root(path: &[char]) -> (r: bool)
    ensures
        r == is_absolute(path@),
{
    path.len() > 0 && path[0] == '/'
}

/// Lexically normalize `..` and `.`.
fn normalize(path: &[char]) -> (r: Normal)
    ensures
        r@ == normalized(path@),
{
    let names = components_of(path);
    let ghost all = text::char_views(names@);
    let none: Vec<Vec<char>> = Vec::new();
    assert(text::char_views(none@) =~= folded(Seq::empty()));
    let folded_names = fold_onto(none, names, Ghost(Seq::empty()));
    assert(Seq::<Seq<char>>::empty() + all =~= all);
    Normal { absolute: starts_at_root(path), names: folded_names }
}

/// Normalize `target` as seen from `base`.
fn normalize_from(base: &[char], target: &[char]) -> (r: Normal)
    ensures
        r@ == normalized_from(base@, target@),
{
    if starts_at_root(target) {
        return normalize(target);
    }
    let first = components_of(base);
    let ghost a = text::char_views(first@);
    let none: Vec<Vec<char>> = Vec::new();
    assert(text::char_views(none@) =~= folded(Seq::empty()));
    let done = fold_onto(none, first, Ghost(Seq::empty()));
    assert(Seq::<Seq<char>>::empty() + a =~= a);
    let second = components_of(target);
    let names = fold_onto(done, second, Ghost(a));
    Normal { absolute: starts_at_root(base), names }
}

/// Whether a normalized path begins with all components of another.
fn is_under(path: &Normal, base: &Normal) -> (r: bool)
    ensures
        r == under(path@, base@),
{
    if !base.absolute && base.names.len() == 0 {
        return true;
    }
    if path.absolute != base.absolute || base.names.len() > path.names.len() {
        return false;
    }
    let ghost p = text::char_views(path.names@);
    let ghost b = text::char_views(base.names@);
    let mut i: usize = 0;
    while i < base.names.len()
        invariant
            i <= base.names@.len() <= path.names@.len(),
            p == text::char_views(path.names@),
            b == text::char_views(base.names@),
            forall|k: int| 0 <= k < i ==> p[k] == #[trigger] b[k],
        decreases base.names@.len() - i,
    {
        assert(p[i as int] == path.names@[i as int]@);
        assert(b[i as int] == base.names@[i as int]@);
        if !text::same_chars(&path.names[i], &base.names[i]) {
            assert(p.subrange(0, b.len() as int)[i as int] != b[i as int]);
            return false;
        }
        i = i + 1;
    }
    assert(b =~= p.subrange(0, b.len() as int));
    true
}

/// The text of a normalized path.
fn write_path(path: &Normal) -> (r: String)
    ensures
        r@ == written(path@),
{
    let mut names: Vec<String> = Vec::new();
    let ghost all = text::char_views(path.names@);
    let mut i: usize = 0;
    while i < path.names.len()
        invariant
            i <= path.names@.len(),
            all == text::char_views(path.names@),
            text::views(names@) == all.take(i as int),
        decreases path.names@.len() - i,
    {
        let ghost before = names@;
        names.push(text::string_of(&path.names[i]));
        proof {
            text::lemma_views_push(before, names@.last());
            assert(all.take(i + 1) =~= all.take(i as int).push(all[i as int]));
        }
        i = i + 1;
    }
    assert(all.take(i as int) =~= all);
    let mut out = String::new();
    if path.absolute {
        out.append("/");
    }
    out.append(text::join(&names, "/").as_str());
    assert(out@ =~= written(path@));
    out
}

/// Lexically normalize `..` and `.` without touching the file system.
pub fn normalize_components(path: &str) -> (r: String)
    ensures
        r@ == written(normalized(path@)),
{
    let chars = text::chars_of(path);
    write_path(&normalize(&chars))
}

/// The file that an output path stands for. A relative path is taken from the
/// workspace and must not lead out of it.
pub fn resolve_output(workspace: &str, target: &str) -> (r: Result<String, PathError>)
    ensures
        match r {
            Ok(path) => !is_absolute(target@) && under(
                normalized_from(workspace@, target@),
                normalized(workspace@),
            ) && path@ == written(normalized_from(workspace@, target@)),
            Err(PathError::Absolute) => is_absolute(target@),
            Err(PathError::Escapes) => !is_absolute(target@) && !under(
                normalized_from(workspace@, target@),
                normalized(workspace@),
            ),
        },
{
    let base = text::chars_of(workspace);
    let wanted = text::chars_of(target);
    if starts_at_root(&wanted) {
        return Err(PathError::Absolute);
    }
    let root = normalize(&base);
    let resolved = normalize_from(&base, &wanted);
    if !is_under(&resolved, &root) {
        return Err(PathError::Escapes);
    }
    Ok(write_path(&resolved))
}

/// The file that a path stands for when read from the workspace, where it lies in
/// the workspace.
pub fn contained(workspace: &str, path: &str) -> (r: Option<String>)
    ensures
        match r {
            Some(file) => under(normalized_from(workspace@, path@), normalized(workspace@))
                && file@ == written(normalized_from(workspace@, path@)),
            None => !under(normalized_from(workspace@, path@), normalized(workspace@)),
        },
{
    let base = text::chars_of(workspace);
    let wanted = text::chars_of(path);
    let root = normalize(&base);
    let resolved = normalize_from(&base, &wanted);
    if !is_under(&resolved, &root) {
        return None;
    }
    Some(write_path(&resolved))
}

// ---------------------------------------------------------------------------
// Laws
// ---------------------------------------------------------------------------

/// No `..` survives normalization.
pub proof fn law_normalized_has_no_parents(names: Seq<Seq<char>>)
    ensures
        forall|i: int| 0 <= i < folded(names).len() ==> #[trigger] folded(names)[i] != ".."@,
    decreases names.len(),
{
    if names.len() > 0 {
        law_normalized_has_no_parents(names.drop_last());
        let done = folded(names.drop_last());
        assert forall|i: int| 0 <= i < folded(names).len() implies #[trigger] folded(names)[i]
            != ".."@ by {
            if i < done.len() {
                assert(folded(names)[i] == done[i]);
            }
        }
    }
}

/// Folding twice changes nothing more.
pub proof fn law_normalization_is_stable(names: Seq<Seq<char>>)
    ensures
        folded(folded(names)) == folded(names),
{
    law_normalized_has_no_parents(names);
    lemma_folded_without_parents(folded(names));
}

proof fn lemma_folded_without_parents(names: Seq<Seq<char>>)
    requires
        forall|i: int| 0 <= i < names.len() ==> #[trigger] names[i] != ".."@,
    ensures
        folded(names) == names,
    decreases names.len(),
{
    if names.len() > 0 {
        let front = names.drop_last();
        assert forall|i: int| 0 <= i < front.len() implies #[trigger] front[i] != ".."@ by {
            assert(front[i] == names[i]);
        }
        lemma_folded_without_parents(front);
        assert(names.last() == names[names.len() - 1]);
        assert(folded(names) =~= names);
    } else {
        assert(folded(names) =~= names);
    }
}

/// A relative path without `..` never leads out of the workspace.
pub proof fn law_plain_paths_stay_inside(base: Seq<char>, target: Seq<char>)
    requires
        !is_absolute(target),
        forall|i: int|
            0 <= i < components(target).len() ==> #[trigger] components(target)[i] != ".."@,
    ensures
        under(normalized_from(base, target), normalized(base)),
{
    lemma_folded_extends(components(base), components(target));
    let all = folded(components(base) + components(target));
    assert(folded(components(base)) =~= all.subrange(
        0,
        folded(components(base)).len() as int,
    ));
}

proof fn lemma_folded_extends(a: Seq<Seq<char>>, b: Seq<Seq<char>>)
    requires
        forall|i: int| 0 <= i < b.len() ==> #[trigger] b[i] != ".."@,
    ensures
        folded(a + b) == folded(a) + b,
    decreases b.len(),
{
    if b.len() == 0 {
        assert(a + b =~= a);
        assert(folded(a) + b =~= folded(a));
    } else {
        let front = b.drop_last();
        assert forall|i: int| 0 <= i < front.len() implies #[trigger] front[i] != ".."@ by {
            assert(front[i] == b[i]);
        }
        lemma_folded_extends(a, front);
        assert((a + b).drop_last() =~= a + front);
        assert((a + b).last() == b[b.len() - 1]);
        assert(folded(a) + b =~= (folded(a) + front).push(b.last()));
    }
}

/// Whether a component can stand between separators.
pub open spec fn is_clean(name: Seq<char>) -> bool {
    is_name(name) && !name.contains('/')
}

/// Components are names without separators.
proof fn lemma_components_are_clean(path: Seq<char>)
    ensures
        forall|i: int| 0 <= i < components(path).len() ==> is_clean(#[trigger] components(path)[i]),
    decreases path.len(),
{
    if path.len() > 0 {
        text::lemma_position(path, '/');
        let p = text::position(path, '/');
        let piece = path.take(p);
        let rest = if p < path.len() {
            components(path.skip(p + 1))
        } else {
            Seq::empty()
        };
        if p < path.len() {
            lemma_components_are_clean(path.skip(p + 1));
        }
        let all = components(path);
        assert forall|i: int| 0 <= i < all.len() implies is_clean(#[trigger] all[i]) by {
            if is_name(piece) {
                if i > 0 {
                    assert(all[i] == rest[i - 1]);
                } else {
                    assert(all[0] == piece);
                }
            } else {
                assert(all[i] == rest[i]);
            }
        }
    }
}

/// Folding keeps names clean.
proof fn lemma_folded_is_clean(names: Seq<Seq<char>>)
    requires
        forall|i: int| 0 <= i < names.len() ==> is_clean(#[trigger] names[i]),
    ensures
        forall|i: int| 0 <= i < folded(names).len() ==> is_clean(#[trigger] folded(names)[i]),
    decreases names.len(),
{
    if names.len() > 0 {
        let front = names.drop_last();
        assert forall|i: int| 0 <= i < front.len() implies is_clean(#[trigger] front[i]) by {
            assert(front[i] == names[i]);
        }
        lemma_folded_is_clean(front);
        let done = folded(front);
        assert(is_clean(names[names.len() - 1]));
        assert forall|i: int| 0 <= i < folded(names).len() implies is_clean(
            #[trigger] folded(names)[i],
        ) by {
            if i < done.len() {
                assert(folded(names)[i] == done[i]);
            }
        }
    }
}

/// A separator ends a component.
pub proof fn lemma_components_split(a: Seq<char>, b: Seq<char>)
    ensures
        components(a.push('/') + b) == components(a) + components(b),
    decreases a.len(),
{
    let all = a.push('/') + b;
    text::lemma_position(a, '/');
    text::lemma_position(all, '/');
    let p = text::position(a, '/');
    assert(all[a.len() as int] == '/');
    assert(text::position(all, '/') == p) by {
        let q = text::position(all, '/');
        if q < p {
            assert(a[q] == all[q]);
        }
        if q > p {
            assert(all[p] == '/');
        }
    }
    assert(all.take(p) =~= a.take(p));
    if p < a.len() {
        assert(all.skip(p + 1) =~= a.skip(p + 1).push('/') + b);
        lemma_components_split(a.skip(p + 1), b);
        let rest = components(a.skip(p + 1));
        if is_name(a.take(p)) {
            assert(seq![a.take(p)] + (rest + components(b)) =~= (seq![a.take(p)] + rest)
                + components(b));
        }
    } else {
        assert(all.skip(p + 1) =~= b);
        if a.len() == 0 {
            assert(!is_name(all.take(0)));
            assert(components(a) + components(b) =~= components(b));
        } else {
            assert(a.take(p) =~= a);
            if is_name(a) {
                assert(seq![a] + Seq::<Seq<char>>::empty() =~= seq![a]);
                assert(components(a) =~= seq![a]);
            } else {
                assert(components(a) + components(b) =~= components(b));
            }
        }
    }
}

/// A clean name is its own only component.
pub proof fn lemma_components_of_clean(name: Seq<char>)
    requires
        is_clean(name),
    ensures
        components(name) == seq![name],
{
    text::lemma_position(name, '/');
    let p = text::position(name, '/');
    if p < name.len() {
        assert(name.contains(name[p]));
    }
    assert(name.take(p) =~= name);
    assert(components(name) =~= seq![name]);
}

/// Clean names that are joined are found again.
proof fn lemma_joined_components(names: Seq<Seq<char>>)
    requires
        forall|i: int| 0 <= i < names.len() ==> is_clean(#[trigger] names[i]),
    ensures
        components(text::joined(names, "/"@)) == names,
        names.len() > 0 ==> text::joined(names, "/"@).len() > 0 && text::joined(names, "/"@)[0]
            == names[0][0],
        names.len() == 0 ==> text::joined(names, "/"@).len() == 0,
    decreases names.len(),
{
    reveal_strlit("/");
    if names.len() == 1 {
        lemma_components_of_clean(names[0]);
        assert(components(names[0]) =~= names);
    } else if names.len() > 1 {
        let front = names.drop_last();
        assert forall|i: int| 0 <= i < front.len() implies is_clean(#[trigger] front[i]) by {
            assert(front[i] == names[i]);
        }
        lemma_joined_components(front);
        let head = text::joined(front, "/"@);
        let last = names.last();
        assert(is_clean(names[names.len() - 1]));
        lemma_components_of_clean(last);
        lemma_components_split(head, last);
        assert(text::joined(names, "/"@) =~= head.push('/') + last);
        assert(front + seq![last] =~= names);
    } else {
        assert(names =~= Seq::empty());
    }
}

/// A normalized path that is written down and read again is the same path.
proof fn lemma_written_is_read_back(path: LexPath)
    requires
        forall|i: int| 0 <= i < path.names.len() ==> is_clean(#[trigger] path.names[i]),
        folded(path.names) == path.names,
    ensures
        normalized(written(path)) == path,
{
    reveal_strlit("/");
    lemma_joined_components(path.names);
    let body = text::joined(path.names, "/"@);
    if path.absolute {
        lemma_components_split(Seq::empty(), body);
        assert(Seq::<char>::empty().push('/') + body =~= written(path));
        assert(components(Seq::<char>::empty()) + components(body) =~= components(body));
    } else {
        assert(written(path) =~= body);
        if path.names.len() > 0 {
            assert(is_clean(path.names[0]));
            if path.names[0][0] == '/' {
                assert(path.names[0].contains('/'));
            }
        }
    }
}

/// Normalizing a normalized path changes nothing.
pub proof fn law_normalize_is_idempotent(path: Seq<char>)
    ensures
        normalized(written(normalized(path))) == normalized(path),
{
    lemma_components_are_clean(path);
    lemma_folded_is_clean(components(path));
    law_normalization_is_stable(components(path));
    lemma_written_is_read_back(normalized(path));
}

/// What is written for an output lies in the workspace: reading the resulting
/// path again finds the components of the workspace at its beginning, and no `..`
/// behind them.
pub proof fn law_output_stays_in_the_workspace(workspace: Seq<char>, target: Seq<char>)
    requires
        under(normalized_from(workspace, target), normalized(workspace)),
    ensures
        under(normalized(written(normalized_from(workspace, target))), normalized(workspace)),
        forall|i: int|
            0 <= i < normalized_from(workspace, target).names.len()
                ==> #[trigger] normalized_from(workspace, target).names[i] != ".."@,
{
    let path = normalized_from(workspace, target);
    let names = if is_absolute(target) {
        components(target)
    } else {
        components(workspace) + components(target)
    };
    lemma_components_are_clean(workspace);
    lemma_components_are_clean(target);
    assert forall|i: int| 0 <= i < names.len() implies is_clean(#[trigger] names[i]) by {
        if !is_absolute(target) {
            if i < components(workspace).len() {
                assert(names[i] == components(workspace)[i]);
            } else {
                assert(names[i] == components(target)[i - components(workspace).len()]);
            }
        }
    }
    lemma_folded_is_clean(names);
    law_normalized_has_no_parents(names);
    law_normalization_is_stable(names);
    lemma_written_is_read_back(path);
}

} // verus!
