//! What the rule packs promise: which pack a path gets, and what is rendered of it.

use vstd::prelude::*;

use crate::packs;
use crate::rules;
use crate::rules::{Hit, ResolutionView};
use crate::text;
use crate::text_laws;

verus! {

// ---------------------------------------------------------------------------
// Rendering
// ---------------------------------------------------------------------------

/// An item on its own line.
pub open spec fn item_line(item: Seq<char>) -> Seq<char> {
    "- "@ + item + "\n"@
}

/// The lines of items, one for each, in order.
pub open spec fn item_lines(items: Seq<Seq<char>>) -> Seq<Seq<char>> {
    Seq::new(items.len(), |i: int| item_line(items[i]))
}

/// The line that names a check.
pub open spec fn title_line(title: Seq<char>) -> Seq<char> {
    "\n**"@ + title + "**\n"@
}

/// A check with all that it lists.
pub open spec fn check_block(check: packs::CheckView) -> Seq<char> {
    title_line(check.title) + text::concat(item_lines(check.items))
}

/// The blocks of checks, one for each, in order.
pub open spec fn check_blocks(checks: Seq<packs::CheckView>) -> Seq<Seq<char>> {
    Seq::new(checks.len(), |c: int| check_block(checks[c]))
}

/// The line that names a pack.
pub open spec fn pack_line(pack: packs::PackView) -> Seq<char> {
    "\n### "@ + pack.language + " ("@ + pack.id + "-v"@ + pack.version + ")\n"@
}

/// A pack with all of its checks.
pub open spec fn pack_block(pack: packs::PackView) -> Seq<char> {
    pack_line(pack) + text::concat(check_blocks(pack.checks))
}

/// The items of a check are rendered one after the other, each on a line of its own:
/// none is left out and none is added.
pub proof fn law_items_are_rendered_line_by_line(items: Seq<Seq<char>>)
    ensures
        rules::items_text(items) == text::concat(item_lines(items)),
    decreases items.len(),
{
    if items.len() > 0 {
        let front = items.drop_last();
        law_items_are_rendered_line_by_line(front);
        assert(item_lines(items) =~= item_lines(front).push(item_line(items.last())));
        text::lemma_concat_push(item_lines(front), item_line(items.last()));
        assert(rules::items_text(items) =~= text::concat(item_lines(front)) + item_line(
            items.last(),
        ));
    } else {
        assert(item_lines(items) =~= Seq::empty());
    }
}

/// A pack is rendered as its line and the blocks of its checks, in order.
pub proof fn law_packs_are_rendered_check_by_check(pack: packs::PackView)
    ensures
        rules::pack_text(pack) == pack_block(pack),
{
    lemma_checks(pack.checks);
}

proof fn lemma_checks(checks: Seq<packs::CheckView>)
    ensures
        rules::checks_text(checks) == text::concat(check_blocks(checks)),
    decreases checks.len(),
{
    if checks.len() > 0 {
        let front = checks.drop_last();
        lemma_checks(front);
        law_items_are_rendered_line_by_line(checks.last().items);
        assert(check_blocks(checks) =~= check_blocks(front).push(check_block(checks.last())));
        text::lemma_concat_push(check_blocks(front), check_block(checks.last()));
        assert(rules::checks_text(checks) =~= text::concat(check_blocks(front)) + check_block(
            checks.last(),
        ));
    } else {
        assert(check_blocks(checks) =~= Seq::empty());
    }
}

/// A text that stands among the parts stands in their concatenation, behind the parts
/// before it.
proof fn lemma_part_of(parts: Seq<Seq<char>>, i: int)
    requires
        0 <= i < parts.len(),
    ensures
        text::concat(parts) == text::concat(parts.take(i)) + parts[i] + text::concat(
            parts.skip(i + 1),
        ),
{
    let front = parts.take(i);
    let back = parts.skip(i + 1);
    assert(parts =~= front + (seq![parts[i]] + back));
    text::lemma_concat_add(front, seq![parts[i]] + back);
    text::lemma_concat_add(seq![parts[i]], back);
    text::lemma_concat_one(parts[i]);
    assert(text::concat(parts) =~= text::concat(front) + parts[i] + text::concat(back));
}

/// The rendered text of a pack has the title of every check, and behind it every item
/// of the check on a line of its own, in the order of the pack: what stands before a
/// title are the checks before it, what stands between the title and an item are the
/// items before it.
pub proof fn law_every_item_stands_behind_its_title(pack: packs::PackView, c: int, i: int)
    requires
        0 <= c < pack.checks.len(),
        0 <= i < pack.checks[c].items.len(),
    ensures
        ({
            let check = pack.checks[c];
            let earlier = pack_line(pack) + text::concat(check_blocks(pack.checks).take(c));
            let before = text::concat(item_lines(check.items).take(i));
            let all = rules::pack_text(pack);
            &&& text::occurs_at(all, title_line(check.title), earlier.len() as int)
            &&& text::occurs_at(
                all,
                item_line(check.items[i]),
                (earlier.len() + title_line(check.title).len() + before.len()) as int,
            )
            &&& text::mentions(all, title_line(check.title))
            &&& text::mentions(all, item_line(check.items[i]))
        }),
{
    law_packs_are_rendered_check_by_check(pack);
    let blocks = check_blocks(pack.checks);
    let check = pack.checks[c];
    let lines = item_lines(check.items);
    lemma_part_of(blocks, c);
    lemma_part_of(lines, i);
    let all = rules::pack_text(pack);
    let earlier = pack_line(pack) + text::concat(blocks.take(c));
    let title = title_line(check.title);
    let before = text::concat(lines.take(i));
    let line = item_line(check.items[i]);
    let behind = text::concat(lines.skip(i + 1)) + text::concat(blocks.skip(c + 1));
    assert(all =~= earlier + title + (before + line + behind));
    text_laws::law_a_part_is_mentioned(earlier, title, before + line + behind);
    assert(all =~= (earlier + title + before) + line + behind);
    text_laws::law_a_part_is_mentioned(earlier + title + before, line, behind);
    assert((earlier + title + before).len() == earlier.len() + title.len() + before.len());
}

/// What a resolution shows where the byte limit of packs is not reached; an id that no
/// pack has shows nothing.
pub open spec fn blocks_for(ids: Seq<Seq<char>>) -> Seq<Seq<char>> {
    Seq::new(
        ids.len(),
        |k: int|
            match rules::pack_with_id(ids[k]) {
                Some(pack) => rules::bounded_pack_text(pack),
                None => Seq::empty(),
            },
    )
}

/// A pack within its byte limit is rendered whole; a longer one is cut at the limit,
/// and says so.
pub proof fn law_short_packs_are_rendered_whole(pack: packs::PackView)
    ensures
        text::byte_len(pack_block(pack)) <= 4096 ==> rules::bounded_pack_text(pack) == pack_block(
            pack,
        ),
        text::byte_len(pack_block(pack)) > 4096 ==> {
            let cut = rules::bounded_pack_text(pack);
            let note = rules::pack_cut_note();
            &&& text::ends(cut, note)
            &&& text::begins(pack_block(pack), cut.take(cut.len() - note.len()))
            &&& text::byte_len(cut.take(cut.len() - note.len())) <= 4096
            &&& cut.len() - note.len() < pack_block(pack).len()
            &&& text::byte_len(pack_block(pack).take(cut.len() - note.len() + 1)) > 4096
        },
{
    law_packs_are_rendered_check_by_check(pack);
    let block = pack_block(pack);
    if text::byte_len(block) > 4096 {
        let kept = text::byte_prefix(block, 4096);
        let note = rules::pack_cut_note();
        let cut = rules::bounded_pack_text(pack);
        assert(cut.take(cut.len() - note.len()) =~= kept);
        assert(cut.subrange(cut.len() - note.len(), cut.len() as int) =~= note);
        lemma_kept(block, 4096);
        assert(block.subrange(0, kept.len() as int) =~= kept);
    }
}

/// What is kept of a text that does not fit is a beginning that fits, and one more
/// character would not fit.
proof fn lemma_kept(s: Seq<char>, max: nat)
    requires
        text::byte_len(s) > max,
    ensures
        text::byte_prefix(s, max) == s.take(text::byte_prefix(s, max).len() as int),
        text::byte_prefix(s, max).len() < s.len(),
        text::byte_len(text::byte_prefix(s, max)) <= max,
        text::byte_len(s.take(text::byte_prefix(s, max).len() as int + 1)) > max,
{
    text_laws::law_byte_prefix_is_the_longest_that_fits(s, max, 0);
    let kept = text::byte_prefix(s, max);
    if kept.len() == s.len() {
        assert(s.take(kept.len() as int) =~= s);
    }
    let n = kept.len() as int + 1;
    text_laws::law_byte_prefix_is_the_longest_that_fits(s, max, n);
}

/// Where no budget is reached the rendered section is the header, the note and the
/// block of every resolved pack, in order.
pub proof fn law_render_shows_every_pack(ids: Seq<Seq<char>>, budget: nat)
    requires
        text::byte_len(text::concat(blocks_for(ids))) <= budget,
    ensures
        !rules::body_of(ids, budget).1,
        rules::body_of(ids, budget).0 == text::concat(blocks_for(ids)),
        !text_laws::all_white(text::concat(blocks_for(ids))) ==> rules::rendered(ids, budget)
            == Some(
            rules::RULES_HEADER@ + "\n"@ + rules::RULES_PRECEDENCE_NOTE@ + "\n"@ + text::concat(
                blocks_for(ids),
            ),
        ),
    decreases ids.len(),
{
    if ids.len() > 0 {
        let front = ids.drop_last();
        let last = blocks_for(ids).last();
        assert(blocks_for(ids) =~= blocks_for(front).push(last));
        text::lemma_concat_push(blocks_for(front), last);
        text::lemma_byte_len_add(text::concat(blocks_for(front)), last);
        law_render_shows_every_pack(front, budget);
        assert(rules::body_of(ids, budget).0 =~= text::concat(blocks_for(ids)));
    } else {
        assert(blocks_for(ids) =~= Seq::empty());
    }
    let body = text::concat(blocks_for(ids));
    let at = text_laws::law_trimming_takes_white_space_only(body);
    if text::trimmed(body).len() == 0 {
        assert forall|i: int| 0 <= i < body.len() implies text::is_white(#[trigger] body[i]) by {
            if i < at.0 {
                assert(body.take(at.0)[i] == body[i]);
            } else {
                assert(body.skip(at.1)[i - at.1] == body[i]);
            }
        }
    }
}

/// A resolved pack within its limit, in a section within the budget: the section
/// mentions the title and every item of every check of the pack.
pub proof fn law_render_mentions_every_item(
    ids: Seq<Seq<char>>,
    budget: nat,
    k: int,
    pack: packs::PackView,
    c: int,
    i: int,
)
    requires
        0 <= k < ids.len(),
        rules::pack_with_id(ids[k]) == Some(pack),
        text::byte_len(rules::pack_text(pack)) <= 4096,
        text::byte_len(text::concat(blocks_for(ids))) <= budget,
        0 <= c < pack.checks.len(),
        0 <= i < pack.checks[c].items.len(),
    ensures
        rules::rendered(ids, budget) is Some,
        text::mentions(rules::rendered(ids, budget)->0, pack_line(pack)),
        text::mentions(rules::rendered(ids, budget)->0, title_line(pack.checks[c].title)),
        text::mentions(rules::rendered(ids, budget)->0, item_line(pack.checks[c].items[i])),
{
    let blocks = blocks_for(ids);
    let body = text::concat(blocks);
    let block = rules::pack_text(pack);
    law_render_shows_every_pack(ids, budget);
    lemma_part_of(blocks, k);
    assert(blocks[k] == block);
    text_laws::law_a_part_is_mentioned(
        text::concat(blocks.take(k)),
        block,
        text::concat(blocks.skip(k + 1)),
    );
    law_every_item_stands_behind_its_title(pack, c, i);
    law_packs_are_rendered_check_by_check(pack);
    text_laws::law_a_part_is_mentioned(
        Seq::empty(),
        pack_line(pack),
        text::concat(check_blocks(pack.checks)),
    );
    assert(Seq::empty() + pack_line(pack) + text::concat(check_blocks(pack.checks)) =~= block);
    text_laws::law_mentioning_is_transitive(body, block, item_line(pack.checks[c].items[i]));
    text_laws::law_mentioning_is_transitive(body, block, title_line(pack.checks[c].title));
    text_laws::law_mentioning_is_transitive(body, block, pack_line(pack));
    let line = item_line(pack.checks[c].items[i]);
    let at = choose|at: int| text::occurs_at(body, line, at);
    reveal_strlit("- ");
    assert(body.subrange(at, at + line.len())[0] == '-');
    assert(body[at] == '-');
    text_laws::law_visible_characters_are_no_white_space('-');
    assert(!text_laws::all_white(body));
    let all = rules::rendered(ids, budget)->0;
    let head = rules::RULES_HEADER@ + "\n"@ + rules::RULES_PRECEDENCE_NOTE@ + "\n"@;
    text_laws::law_a_part_is_mentioned(head, body, Seq::empty());
    assert(head + body + Seq::empty() =~= all);
    text_laws::law_mentioning_is_transitive(all, body, line);
    text_laws::law_mentioning_is_transitive(all, body, title_line(pack.checks[c].title));
    text_laws::law_mentioning_is_transitive(all, body, pack_line(pack));
}

/// Where the budget is reached, the body is as much of the blocks as fits, and the
/// note: one more character would not have fitted.
pub proof fn law_a_reached_budget_cuts_there(ids: Seq<Seq<char>>, budget: nat) -> (kept: Seq<char>)
    requires
        text::byte_len(text::concat(blocks_for(ids))) > budget,
    ensures
        rules::body_of(ids, budget).1,
        rules::body_of(ids, budget).0 == kept + rules::total_cut_note(),
        kept.len() < text::concat(blocks_for(ids)).len(),
        kept == text::concat(blocks_for(ids)).take(kept.len() as int),
        text::byte_len(kept) <= budget,
        text::byte_len(text::concat(blocks_for(ids)).take(kept.len() as int + 1)) > budget,
    decreases ids.len(),
{
    if ids.len() == 0 {
        assert(blocks_for(ids) =~= Seq::empty());
        Seq::empty()
    } else {
        let front = ids.drop_last();
        let last = blocks_for(ids).last();
        let body = text::concat(blocks_for(front));
        let all = text::concat(blocks_for(ids));
        assert(blocks_for(ids) =~= blocks_for(front).push(last));
        text::lemma_concat_push(blocks_for(front), last);
        text::lemma_byte_len_add(body, last);
        if text::byte_len(body) > budget {
            let kept = law_a_reached_budget_cuts_there(front, budget);
            assert(all.take(kept.len() as int) =~= body.take(kept.len() as int));
            assert(all.take(kept.len() as int + 1) =~= body.take(kept.len() as int + 1));
            kept
        } else {
            law_render_shows_every_pack(front, budget);
            let room = (budget - text::byte_len(body)) as nat;
            lemma_kept(last, room);
            let cut = text::byte_prefix(last, room);
            let kept = body + cut;
            text::lemma_byte_len_add(body, cut);
            text::lemma_byte_len_add(body, last.take(cut.len() as int + 1));
            assert(all.take(kept.len() as int) =~= kept);
            assert(all.take(kept.len() as int + 1) =~= body + last.take(cut.len() as int + 1));
            kept
        }
    }
}

// ---------------------------------------------------------------------------
// Packs by id
// ---------------------------------------------------------------------------

/// Every built-in pack is found by its id, and what is found has the id.
pub proof fn law_packs_are_found_by_id(k: int, id: Seq<char>)
    requires
        0 <= k < packs::built_in().len(),
    ensures
        rules::pack_with_id(packs::built_in()[k].id) == Some(packs::built_in()[k]),
        rules::pack_with_id(id) is Some ==> rules::pack_with_id(id)->0.id == id
            && packs::built_in().contains(rules::pack_with_id(id)->0),
        rules::pack_with_id(id) is None ==> packs::built_in()[k].id != id,
{
    let all = packs::built_in();
    assert forall|j: int| 0 <= j < k implies (#[trigger] all[j]).id != all[k].id by {
        packs::law_pack_ids_are_distinct(j, k);
    }
    lemma_first_pack(all, k);
    lemma_found_pack(all, id);
}

proof fn lemma_first_pack(all: Seq<packs::PackView>, k: int)
    requires
        0 <= k < all.len(),
        forall|j: int| 0 <= j < k ==> (#[trigger] all[j]).id != all[k].id,
    ensures
        rules::pack_among(all, all[k].id) == Some(all[k]),
    decreases all.len(),
{
    if k > 0 {
        let rest = all.drop_first();
        assert(rest[k - 1] == all[k]);
        assert forall|j: int| 0 <= j < k - 1 implies (#[trigger] rest[j]).id != rest[k - 1].id by {
            assert(rest[j] == all[j + 1]);
        }
        assert(all[0].id != all[k].id);
        lemma_first_pack(rest, k - 1);
    }
}

proof fn lemma_found_pack(all: Seq<packs::PackView>, id: Seq<char>)
    ensures
        match rules::pack_among(all, id) {
            Some(pack) => pack.id == id && all.contains(pack),
            None => forall|j: int| 0 <= j < all.len() ==> (#[trigger] all[j]).id != id,
        },
    decreases all.len(),
{
    if all.len() > 0 && all[0].id != id {
        let rest = all.drop_first();
        lemma_found_pack(rest, id);
        match rules::pack_among(rest, id) {
            Some(pack) => {
                let j = choose|j: int| 0 <= j < rest.len() && rest[j] == pack;
                assert(all[j + 1] == pack);
            },
            None => {
                assert forall|j: int| 0 <= j < all.len() implies (#[trigger] all[j]).id != id by {
                    if j > 0 {
                        assert(rest[j - 1] == all[j]);
                    }
                }
            },
        }
    } else if all.len() > 0 {
        assert(all.contains(all[0]));
    }
}

// ---------------------------------------------------------------------------
// Resolution
// ---------------------------------------------------------------------------

/// A path that has no white space around it, no backslash and no leading `./` is
/// matched as it is.
pub proof fn law_plain_paths_are_matched_as_they_are(path: Seq<char>)
    requires
        path.len() > 0 ==> !text::is_white(path[0]) && !text::is_white(path.last()),
        !path.contains('\\'),
        !text::begins(path, "./"@),
    ensures
        rules::normalized(path) == path,
{
    text_laws::law_trimming_leaves_the_rest(path);
    reveal_strlit("./");
    let n = text_laws::law_leading_copies_are_removed(path, "./"@);
    if n > 0 {
        let copies = Seq::new(n, |i: int| "./"@);
        text::lemma_concat_add(seq!["./"@], copies.drop_first());
        text::lemma_concat_one("./"@);
        assert(copies =~= seq!["./"@] + copies.drop_first());
        assert(path.subrange(0, 2) =~= "./"@);
    } else {
        assert(Seq::new(n, |i: int| "./"@) =~= Seq::<Seq<char>>::empty());
        assert(text::without_prefixes(path, "./"@) =~= path);
    }
    text_laws::law_replacing_nothing_changes_nothing(path, '\\', '/');
}

/// A leading `./` does not change what is matched.
pub proof fn law_a_leading_dot_does_not_matter(path: Seq<char>)
    requires
        path.len() > 0,
        !text::is_white(path[0]),
        !text::is_white(path.last()),
    ensures
        rules::normalized("./"@ + path) == rules::normalized(path),
{
    reveal_strlit("./");
    let all = "./"@ + path;
    assert(all.last() == path.last());
    text_laws::law_trimming_leaves_the_rest(path);
    text_laws::law_trimming_leaves_the_rest(all);
    assert(all.subrange(0, 2) =~= "./"@);
    assert(all.skip(2) =~= path);
}

/// A pack has a hit exactly where one of its patterns matched, with that pattern.
pub proof fn law_hits_are_the_matches(matched: Seq<Option<int>>, hit: Hit)
    ensures
        rules::hits_of(matched).contains(hit) <==> {
            &&& 0 <= hit.order < matched.len()
            &&& matched[hit.order] is Some
            &&& hit.pattern == packs::built_in()[hit.order].scope[matched[hit.order]->0]
        },
    decreases matched.len(),
{
    if matched.len() > 0 {
        let front = matched.drop_last();
        let done = rules::hits_of(front);
        let all = rules::hits_of(matched);
        law_hits_are_the_matches(front, hit);
        if 0 <= hit.order < front.len() {
            assert(front[hit.order] == matched[hit.order]);
        }
        if done.contains(hit) {
            let j = choose|j: int| 0 <= j < done.len() && done[j] == hit;
            assert(all[j] == hit);
        }
        if all.contains(hit) {
            let j = choose|j: int| 0 <= j < all.len() && all[j] == hit;
            if j < done.len() {
                assert(done[j] == hit);
            }
        }
        if matched.last() is Some && hit.order == matched.len() - 1 && hit.pattern
            == packs::built_in()[hit.order].scope[matched[hit.order]->0] {
            assert(all.last() == hit);
        }
    }
}

/// What a match of a pack is reported as.
pub open spec fn reported(order: int, i: int) -> ResolutionView {
    ResolutionView {
        pack_id: packs::built_in()[order].id,
        matched_pattern: packs::built_in()[order].scope[i],
        sniffed: false,
    }
}

/// Where the cap leaves room and the extension is not ambiguous, a path gets every pack
/// that matched, with the pattern that matched, and no other; it gets the fallback
/// exactly where none matched.
pub proof fn law_every_match_is_resolved(
    extension: Seq<char>,
    objc: bool,
    max_packs: nat,
    matched: Seq<Option<int>>,
    order: int,
)
    requires
        extension != "m"@,
        matched.len() == packs::built_in().len(),
        max_packs >= matched.len(),
        0 <= order < matched.len(),
    ensures
        matched[order] is Some ==> rules::resolved_from(
            extension,
            objc,
            max_packs,
            matched,
        ).contains(reported(order, matched[order]->0)),
        (forall|k: int| 0 <= k < matched.len() ==> (#[trigger] matched[k]) is None)
            ==> rules::resolved_from(extension, objc, max_packs, matched) == seq![
            rules::fallback(),
        ],
        forall|r: int|
            0 <= r < rules::resolved_from(extension, objc, max_packs, matched).len() ==> (
            #[trigger] rules::resolved_from(extension, objc, max_packs, matched)[r]
                == rules::fallback() || exists|k: int|
                0 <= k < matched.len() && (#[trigger] matched[k]) is Some
                    && rules::resolved_from(extension, objc, max_packs, matched)[r] == reported(
                    k,
                    matched[k]->0,
                )),
{
    let hits = rules::hits_of(matched);
    let by_rank = rules::ranked(hits);
    let list = rules::resolved_from(extension, objc, max_packs, matched);
    rules::lemma_ranked(hits);
    lemma_few_hits(matched);
    if matched[order] is Some {
        let hit = Hit {
            order,
            pattern: packs::built_in()[order].scope[matched[order]->0],
        };
        law_hits_are_the_matches(matched, hit);
        assert(by_rank.contains(hit));
        let j = choose|j: int| 0 <= j < by_rank.len() && by_rank[j] == hit;
        assert(list[j] == reported(order, matched[order]->0));
    }
    if forall|k: int| 0 <= k < matched.len() ==> (#[trigger] matched[k]) is None {
        if hits.len() > 0 {
            law_hits_are_the_matches(matched, hits[0]);
            assert(hits.contains(hits[0]));
        }
    }
    assert forall|r: int| 0 <= r < list.len() implies (#[trigger] list[r] == rules::fallback()
        || exists|k: int|
        0 <= k < matched.len() && (#[trigger] matched[k]) is Some && list[r] == reported(
            k,
            matched[k]->0,
        )) by {
        if hits.len() > 0 {
            let hit = by_rank[r];
            assert(by_rank.contains(hit));
            law_hits_are_the_matches(matched, hit);
            assert(matched[hit.order] is Some);
            assert(list[r] == reported(hit.order, matched[hit.order]->0));
        }
    }
}

proof fn lemma_few_hits(matched: Seq<Option<int>>)
    ensures
        rules::hits_of(matched).len() <= matched.len(),
    decreases matched.len(),
{
    if matched.len() > 0 {
        lemma_few_hits(matched.drop_last());
    }
}

/// A list is capped by keeping its first elements: as many as the cap says, at least
/// one.
pub proof fn law_a_cap_keeps_the_first(list: Seq<ResolutionView>, max: nat, i: int)
    requires
        0 <= i < list.len(),
    ensures
        i < max || i == 0 ==> i < rules::capped(list, max).len() && rules::capped(list, max)[i]
            == list[i],
        i >= max && i > 0 ==> i >= rules::capped(list, max).len(),
{
}

/// Of an ambiguous extension the content decides: where it reads as Objective-C and
/// that pack matched, it comes first and says so; else MATLAB does, where it matched.
pub proof fn law_content_decides_between_the_two(max_packs: nat, matched: Seq<Option<int>>)
    requires
        matched.len() == packs::built_in().len(),
    ensures
        matched[6] is Some ==> rules::resolved_from("m"@, true, max_packs, matched)[0] == (
        ResolutionView {
            pack_id: "objc"@,
            matched_pattern: packs::built_in()[6].scope[matched[6]->0],
            sniffed: true,
        }),
        matched[5] is Some ==> rules::resolved_from("m"@, false, max_packs, matched)[0] == (
        ResolutionView {
            pack_id: "matlab"@,
            matched_pattern: packs::built_in()[5].scope[matched[5]->0],
            sniffed: false,
        }),
{
}

/// Content reads as Objective-C exactly where one of its first forty lines, without
/// the white space before it, begins with one of the markers.
pub proof fn law_markers_decide_the_content(head: Seq<char>)
    ensures
        rules::objc_content(head) <==> exists|i: int|
            0 <= i < text::lines(head).len() && i < 40 && opens_with_marker(
                #[trigger] text::lines(head)[i],
            ),
{
    assert forall|line: Seq<char>| rules::marked_line(line) <==> #[trigger] opens_with_marker(
        line,
    ) by {
        let t = text::trimmed_start(line);
        if opens_with_marker(line) {
            let k = if text::begins(t, "#import"@) {
                0int
            } else if text::begins(t, "#include"@) {
                1int
            } else if text::begins(t, "@interface"@) {
                2int
            } else if text::begins(t, "@implementation"@) {
                3int
            } else if text::begins(t, "@protocol"@) {
                4int
            } else {
                5int
            };
            assert(text::begins(t, rules::OBJC_MARKERS@[k]@));
        }
    }
}

/// Whether a line begins with a marker of Objective-C.
pub open spec fn opens_with_marker(line: Seq<char>) -> bool {
    let t = text::trimmed_start(line);
    ||| text::begins(t, "#import"@)
    ||| text::begins(t, "#include"@)
    ||| text::begins(t, "@interface"@)
    ||| text::begins(t, "@implementation"@)
    ||| text::begins(t, "@protocol"@)
    ||| text::begins(t, "@end"@)
}

// ---------------------------------------------------------------------------
// Validation
// ---------------------------------------------------------------------------

/// Whether a text has nothing but white space.
pub open spec fn says_nothing(s: Seq<char>) -> bool {
    text_laws::all_white(s)
}

/// Whether a pack is as packs should be.
pub open spec fn is_sound(pack: packs::PackView) -> bool {
    &&& !says_nothing(pack.id)
    &&& !says_nothing(pack.version)
    &&& !says_nothing(pack.language)
    &&& pack.scope.len() > 0 || pack.id == "default"@
    &&& pack.checks.len() > 0
    &&& forall|c: int|
        0 <= c < pack.checks.len() ==> !says_nothing((#[trigger] pack.checks[c]).title)
            && pack.checks[c].items.len() > 0
    &&& forall|c: int, i: int|
        0 <= c < pack.checks.len() && 0 <= i < pack.checks[c].items.len() ==> !rules::is_directive(
            #[trigger] pack.checks[c].items[i],
        )
    &&& exists|e: int| 0 <= e < pack.examples.len() && (#[trigger] pack.examples[e]).positive
    &&& exists|e: int| 0 <= e < pack.examples.len() && !(#[trigger] pack.examples[e]).positive
}

proof fn lemma_blank(s: Seq<char>)
    ensures
        rules::blank(s) <==> says_nothing(s),
{
    let at = text_laws::law_trimming_takes_white_space_only(s);
    if at.0 == at.1 {
        assert forall|i: int| 0 <= i < s.len() implies text::is_white(#[trigger] s[i]) by {
            if i < at.0 {
                assert(s.take(at.0)[i] == s[i]);
            } else {
                assert(s.skip(at.1)[i - at.1] == s[i]);
            }
        }
    } else if says_nothing(s) {
        assert(text::is_white(s[at.0]));
    }
}

/// A pack has no problems if and only if it is sound: every fault is reported, and
/// nothing else.
pub proof fn law_sound_packs_have_no_problems(pack: packs::PackView)
    ensures
        rules::problems(pack).len() == 0 <==> is_sound(pack),
{
    lemma_blank(pack.id);
    lemma_blank(pack.version);
    lemma_blank(pack.language);
    lemma_check_problems(pack.id, pack.checks);
    let found = rules::check_problems(pack.id, pack.checks);
    assert(rules::has_example(pack.examples, true) <==> exists|e: int|
        0 <= e < pack.examples.len() && (#[trigger] pack.examples[e]).positive);
    assert(rules::has_example(pack.examples, false) <==> exists|e: int|
        0 <= e < pack.examples.len() && !(#[trigger] pack.examples[e]).positive);
    assert(found.len() == 0 <==> checks_are_sound(pack.checks));
}

/// Whether every check has a title and items, and no item is a directive.
pub open spec fn checks_are_sound(checks: Seq<packs::CheckView>) -> bool {
    &&& forall|c: int|
        0 <= c < checks.len() ==> !says_nothing((#[trigger] checks[c]).title)
            && checks[c].items.len() > 0
    &&& forall|c: int, i: int|
        0 <= c < checks.len() && 0 <= i < checks[c].items.len() ==> !rules::is_directive(
            #[trigger] checks[c].items[i],
        )
}

proof fn lemma_check_problems(id: Seq<char>, checks: Seq<packs::CheckView>)
    ensures
        rules::check_problems(id, checks).len() == 0 <==> checks_are_sound(checks),
    decreases checks.len(),
{
    if checks.len() > 0 {
        let front = checks.drop_last();
        let last = checks.last();
        lemma_check_problems(id, front);
        lemma_item_problems(id, last.items);
        lemma_blank(last.title);
        if checks_are_sound(checks) {
            assert forall|c: int| 0 <= c < front.len() implies !says_nothing(
                (#[trigger] front[c]).title,
            ) && front[c].items.len() > 0 by {
                assert(front[c] == checks[c]);
            }
            assert forall|c: int, i: int|
                0 <= c < front.len() && 0 <= i < front[c].items.len() implies !rules::is_directive(
                #[trigger] front[c].items[i],
            ) by {
                assert(front[c].items[i] == checks[c].items[i]);
            }
            assert forall|i: int| 0 <= i < last.items.len() implies !rules::is_directive(
                #[trigger] last.items[i],
            ) by {
                assert(last.items[i] == checks[checks.len() - 1].items[i]);
            }
            assert(!says_nothing(checks[checks.len() - 1].title));
        }
        if rules::check_problems(id, checks).len() == 0 {
            assert forall|c: int| 0 <= c < checks.len() implies !says_nothing(
                (#[trigger] checks[c]).title,
            ) && checks[c].items.len() > 0 by {
                if c < front.len() {
                    assert(front[c] == checks[c]);
                }
            }
            assert forall|c: int, i: int|
                0 <= c < checks.len() && 0 <= i
                    < checks[c].items.len() implies !rules::is_directive(
                #[trigger] checks[c].items[i],
            ) by {
                if c < front.len() {
                    assert(front[c].items[i] == checks[c].items[i]);
                } else {
                    assert(last.items[i] == checks[c].items[i]);
                }
            }
        }
    }
}

proof fn lemma_item_problems(id: Seq<char>, items: Seq<Seq<char>>)
    ensures
        rules::item_problems(id, items).len() == 0 <==> forall|i: int|
            0 <= i < items.len() ==> !rules::is_directive(#[trigger] items[i]),
    decreases items.len(),
{
    if items.len() > 0 {
        let front = items.drop_last();
        lemma_item_problems(id, front);
        assert(forall|i: int| 0 <= i < front.len() ==> #[trigger] front[i] == items[i]);
        if forall|i: int| 0 <= i < items.len() ==> !rules::is_directive(#[trigger] items[i]) {
            assert forall|i: int| 0 <= i < front.len() implies !rules::is_directive(
                #[trigger] front[i],
            ) by {
                assert(front[i] == items[i]);
            }
            assert(!rules::is_directive(items[items.len() - 1]));
        }
        if rules::item_problems(id, items).len() == 0 {
            assert forall|i: int| 0 <= i < items.len() implies !rules::is_directive(
                #[trigger] items[i],
            ) by {
                if i < front.len() {
                    assert(front[i] == items[i]);
                }
            }
        }
    }
}

/// An item is a directive wherever one of the phrases stands in it, in upper or lower
/// case.
pub proof fn law_phrases_are_found_anywhere(
    before: Seq<char>,
    phrase: Seq<char>,
    after: Seq<char>,
    k: int,
)
    requires
        0 <= k < rules::DIRECTIVES@.len(),
        text::lowered(phrase) == rules::DIRECTIVES@[k]@,
    ensures
        rules::is_directive(before + phrase + after),
{
    let all = before + phrase + after;
    assert(text::lowered(all) =~= text::lowered(before) + text::lowered(phrase) + text::lowered(
        after,
    ));
    text_laws::law_a_part_is_mentioned(
        text::lowered(before),
        text::lowered(phrase),
        text::lowered(after),
    );
}

/// The packs that matched beside the two of an ambiguous extension are given as well,
/// where the cap leaves room.
pub proof fn law_ambiguity_leaves_the_others(
    objc: bool,
    max_packs: nat,
    matched: Seq<Option<int>>,
    order: int,
)
    requires
        matched.len() == packs::built_in().len(),
        max_packs > matched.len(),
        0 <= order < matched.len(),
        order != 5,
        order != 6,
        matched[order] is Some,
    ensures
        rules::resolved_from("m"@, objc, max_packs, matched).contains(
            reported(order, matched[order]->0),
        ),
{
    let hits = rules::hits_of(matched);
    let by_order = rules::ranked(hits);
    rules::lemma_ranked(hits);
    lemma_few_hits(matched);
    let hit = Hit { order, pattern: packs::built_in()[order].scope[matched[order]->0] };
    law_hits_are_the_matches(matched, hit);
    assert(by_order.contains(hit));
    let j = choose|j: int| 0 <= j < by_order.len() && by_order[j] == hit;
    let by_rank = by_order.map_values(|h: Hit| rules::declared(h));
    assert(by_rank[j] == reported(order, matched[order]->0));
    if order < 5 {
        packs::law_pack_ids_are_distinct(order, 5);
        packs::law_pack_ids_are_distinct(order, 6);
    } else {
        packs::law_pack_ids_are_distinct(5, order);
        packs::law_pack_ids_are_distinct(6, order);
    }
    let k = lemma_bystander(by_rank, j);
    lemma_few_bystanders(by_rank);
    let list = rules::resolved_from("m"@, objc, max_packs, matched);
    let winner = if objc {
        6int
    } else {
        5int
    };
    if matched[winner] is Some {
        assert(list[k + 1] == by_rank[j]);
    } else {
        assert(list[k] == by_rank[j]);
    }
}

proof fn lemma_bystander(list: Seq<ResolutionView>, j: int) -> (k: int)
    requires
        0 <= j < list.len(),
        !rules::is_contender(list[j].pack_id),
    ensures
        0 <= k < rules::bystanders(list).len(),
        rules::bystanders(list)[k] == list[j],
    decreases list.len(),
{
    reveal(Seq::filter);
    let front = list.drop_last();
    if j == list.len() - 1 {
        rules::bystanders(front).len() as int
    } else {
        assert(front[j] == list[j]);
        lemma_bystander(front, j)
    }
}

proof fn lemma_few_bystanders(list: Seq<ResolutionView>)
    ensures
        rules::bystanders(list).len() <= list.len(),
    decreases list.len(),
{
    reveal(Seq::filter);
    if list.len() > 0 {
        lemma_few_bystanders(list.drop_last());
    }
}

/// Without a marker in it, content changes nothing: it is as if there were none.
pub proof fn law_unmarked_content_changes_nothing(path: Seq<char>, head: Seq<char>, max: nat)
    requires
        forall|i: int|
            0 <= i < text::lines(head).len() ==> !opens_with_marker(#[trigger] text::lines(head)[i]),
    ensures
        rules::resolved(path, Some(head), max) == rules::resolved(path, None, max),
{
    law_markers_decide_the_content(head);
}

/// A union shows each of its packs with the pattern that leads its scope, and the
/// fallback, which has none, as the default.
pub proof fn law_unions_show_the_leading_pattern(
    all: Seq<packs::PackView>,
    ids: Set<Seq<char>>,
    sniffed: Set<Seq<char>>,
    pack: packs::PackView,
)
    ensures
        ({
            let before = rules::union_within(all, ids, sniffed);
            let after = rules::union_within(all.push(pack), ids, sniffed);
            &&& !ids.contains(pack.id) ==> after == before
            &&& ids.contains(pack.id) ==> after.len() == before.len() + 1 && after.drop_last()
                == before && after.last().pack_id == pack.id && after.last().sniffed
                == sniffed.contains(pack.id)
            &&& ids.contains(pack.id) && pack.scope.len() > 0 ==> after.last().matched_pattern
                == pack.scope[0]
            &&& ids.contains(pack.id) && pack.scope.len() == 0 ==> after.last().matched_pattern
                == "(default)"@
        }),
{
    assert(all.push(pack).drop_last() =~= all);
    if ids.contains(pack.id) {
        assert(rules::union_within(all.push(pack), ids, sniffed).drop_last()
            =~= rules::union_within(all, ids, sniffed));
    }
}

} // verus!
