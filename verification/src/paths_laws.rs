//! What lexical paths promise: which names a path leads through, and when it stays below
//! another.

use vstd::prelude::*;

use crate::output;
use crate::paths;
use crate::paths::LexPath;
use crate::text;

verus! {

/// A path leads through the names between its separators: one more separator and name
/// add the name, unless it is empty or a dot.
pub proof fn law_paths_are_read_name_by_name(path: Seq<char>, name: Seq<char>)
    requires
        !name.contains('/'),
    ensures
        name.len() > 0 && name != "."@ ==> paths::components(path.push('/') + name)
            == paths::components(path).push(name),
        name.len() == 0 || name == "."@ ==> paths::components(path.push('/') + name)
            == paths::components(path),
        name.len() > 0 && name != "."@ ==> paths::components(name) == seq![name],
        paths::components(Seq::empty()).len() == 0,
{
    paths::lemma_components_split(path, name);
    if name.len() > 0 && name != "."@ {
        paths::lemma_components_of_clean(name);
        assert(paths::components(path) + seq![name] =~= paths::components(path).push(name));
    } else {
        text::lemma_position(name, '/');
        let p = text::position(name, '/');
        if p < name.len() {
            assert(name.contains(name[p]));
        }
        assert(name.take(p) =~= name);
        assert(paths::components(name) =~= Seq::empty());
        assert(paths::components(path) + Seq::<Seq<char>>::empty() =~= paths::components(path));
    }
}

/// A name is added, and two dots take back the name before them, where there is one.
pub proof fn law_parents_take_back_a_name(names: Seq<Seq<char>>, name: Seq<char>)
    requires
        name != ".."@,
    ensures
        paths::folded(names.push(name)) == paths::folded(names).push(name),
        paths::folded(names.push(name).push(".."@)) == paths::folded(names),
        paths::folded(names).len() == 0 ==> paths::folded(names.push(".."@)).len() == 0,
        paths::folded(Seq::empty()).len() == 0,
{
    assert(names.push(name).drop_last() =~= names);
    assert(names.push(name).push(".."@).drop_last() =~= names.push(name));
    assert(names.push(".."@).drop_last() =~= names);
    assert(paths::folded(names).push(name).drop_last() =~= paths::folded(names));
}

/// A relative target without parents stands below its base: its names follow those of
/// the base. An absolute target stands for itself.
pub proof fn law_targets_are_seen_from_their_base(base: Seq<char>, target: Seq<char>)
    ensures
        paths::is_absolute(target) ==> paths::normalized_from(base, target) == paths::normalized(
            target,
        ),
        !paths::is_absolute(target) && (forall|i: int|
            0 <= i < paths::components(target).len() ==> #[trigger] paths::components(target)[i]
                != ".."@) ==> paths::normalized_from(base, target) == (LexPath {
            absolute: paths::normalized(base).absolute,
            names: paths::normalized(base).names + paths::components(target),
        }),
        paths::normalized(target).absolute <==> text::begins(target, "/"@),
{
    if !paths::is_absolute(target) && (forall|i: int|
        0 <= i < paths::components(target).len() ==> #[trigger] paths::components(target)[i]
            != ".."@) {
        lemma_names_follow(paths::components(base), paths::components(target));
    }
    reveal_strlit("/");
    if target.len() > 0 && target[0] == '/' {
        assert(target.subrange(0, 1) =~= "/"@);
    }
    if text::begins(target, "/"@) {
        assert(target.subrange(0, 1)[0] == '/');
    }
}

proof fn lemma_names_follow(a: Seq<Seq<char>>, b: Seq<Seq<char>>)
    requires
        forall|i: int| 0 <= i < b.len() ==> #[trigger] b[i] != ".."@,
    ensures
        paths::folded(a + b) == paths::folded(a) + b,
    decreases b.len(),
{
    if b.len() == 0 {
        assert(a + b =~= a);
        assert(paths::folded(a) + b =~= paths::folded(a));
    } else {
        let front = b.drop_last();
        assert forall|i: int| 0 <= i < front.len() implies #[trigger] front[i] != ".."@ by {
            assert(front[i] == b[i]);
        }
        lemma_names_follow(a, front);
        assert((a + b).drop_last() =~= a + front);
        assert((a + b).last() == b.last());
        assert(b[b.len() - 1] != ".."@);
        assert((paths::folded(a) + front).push(b.last()) =~= paths::folded(a) + b);
    }
}

/// A path stands below a base exactly where it leads through all names of the base first
/// and both begin at the root, or neither does.
pub proof fn law_standing_below_a_base(path: LexPath, base: LexPath)
    requires
        base.absolute || base.names.len() > 0,
    ensures
        paths::under(path, base) <==> path.absolute == base.absolute && path.names.len()
            >= base.names.len() && forall|i: int|
            0 <= i < base.names.len() ==> #[trigger] path.names[i] == base.names[i],
{
    if path.names.len() >= base.names.len() && forall|i: int|
        0 <= i < base.names.len() ==> #[trigger] path.names[i] == base.names[i] {
        assert(base.names =~= path.names.subrange(0, base.names.len() as int));
    }
    if base.names.is_prefix_of(path.names) {
        assert forall|i: int| 0 <= i < base.names.len() implies #[trigger] path.names[i]
            == base.names[i] by {
            assert(path.names.subrange(0, base.names.len() as int)[i] == path.names[i]);
        }
    }
}

/// One parent too many leads out: a target that begins with two dots leaves a base that
/// has a name.
pub proof fn law_parents_lead_out(base: Seq<char>, name: Seq<char>)
    requires
        paths::normalized(base).names.len() > 0,
        !name.contains('/'),
        name.len() > 0,
        name != "."@,
        name != ".."@,
        name != paths::normalized(base).names.last(),
    ensures
        !paths::under(
            paths::normalized_from(base, ".."@.push('/') + name),
            paths::normalized(base),
        ),
{
    reveal_strlit("..");
    reveal_strlit(".");
    assert(".."@.len() == 2 && "."@.len() == 1);
    assert(!".."@.contains('/')) by {
        if ".."@.contains('/') {
            let i = choose|i: int| 0 <= i < ".."@.len() && ".."@[i] == '/';
            assert(i == 0 || i == 1);
        }
    }
    let target = ".."@.push('/') + name;
    law_paths_are_read_name_by_name(".."@, name);
    paths::lemma_components_of_clean(".."@);
    let all = paths::components(base) + paths::components(target);
    assert(all =~= paths::components(base).push(".."@).push(name));
    let up = paths::components(base).push(".."@);
    assert(up.drop_last() =~= paths::components(base));
    law_parents_take_back_a_name(up, name);
    let was = paths::normalized(base).names;
    let now = paths::normalized_from(base, target).names;
    assert(target[0] == '.');
    assert(now =~= was.drop_last().push(name));
    if was.is_prefix_of(now) {
        assert(now.subrange(0, was.len() as int)[was.len() - 1] == name);
    }
}

/// A document ends in exactly one more newline where it is written.
pub proof fn law_payloads_end_a_line(document: Seq<char>)
    ensures
        output::payload_of(document) == document + "\n"@,
{
    reveal_strlit("\n");
    assert(output::payload_of(document) =~= document + "\n"@);
}

} // verus!
