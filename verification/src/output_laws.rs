//! What documents promise: what a path, a finding, a unit and a run show.

use vstd::prelude::*;

use crate::conversation::UsageTotal;
use crate::json;
use crate::json::JsonModel;
use crate::ledger;
use crate::ledger::StateView;
use crate::output;
use crate::output::{FindingModel, RelatedModel, RunMeta};
use crate::text;
use crate::text_laws;
use crate::units;

verus! {

// ---------------------------------------------------------------------------
// Paths
// ---------------------------------------------------------------------------

/// A path without white space around it and without a backslash that begins with
/// neither `./` nor `/` is shown as it is, hidden files and parent directories too.
pub proof fn law_plain_paths_are_shown_as_they_are(path: Seq<char>)
    requires
        path.len() > 0 ==> !text::is_white(path[0]) && !text::is_white(path.last()),
        !path.contains('\\'),
        !text::begins(path, "./"@),
        !text::begins(path, "/"@),
    ensures
        output::normal_path(path) == path,
{
    text_laws::law_trimming_leaves_the_rest(path);
    text_laws::law_replacing_nothing_changes_nothing(path, '\\', '/');
}

/// What is removed in front of a path is a row of `./` and `/`, and nothing else: the
/// rest of the path is shown whole.
pub proof fn law_only_roots_are_removed(path: Seq<char>) -> (roots: Seq<Seq<char>>)
    ensures
        forall|i: int|
            0 <= i < roots.len() ==> #[trigger] roots[i] == "./"@ || roots[i] == "/"@,
        text::replaced(text::trimmed(path), '\\', '/') == text::concat(roots)
            + output::normal_path(path),
{
    lemma_roots(text::replaced(text::trimmed(path), '\\', '/'))
}

proof fn lemma_roots(path: Seq<char>) -> (roots: Seq<Seq<char>>)
    ensures
        forall|i: int|
            0 <= i < roots.len() ==> #[trigger] roots[i] == "./"@ || roots[i] == "/"@,
        path == text::concat(roots) + output::rootless(path),
    decreases path.len(),
{
    reveal_strlit("./");
    reveal_strlit("/");
    if text::begins(path, "./"@) {
        lemma_one_root(path, "./"@)
    } else if text::begins(path, "/"@) {
        lemma_one_root(path, "/"@)
    } else {
        assert(text::concat(Seq::empty()) + path =~= path);
        Seq::empty()
    }
}

proof fn lemma_one_root(path: Seq<char>, root: Seq<char>) -> (roots: Seq<Seq<char>>)
    requires
        root == "./"@ || root == "/"@,
        text::begins(path, root),
        root.len() > 0,
        output::rootless(path) == output::rootless(path.skip(root.len() as int)),
    ensures
        forall|i: int|
            0 <= i < roots.len() ==> #[trigger] roots[i] == "./"@ || roots[i] == "/"@,
        path == text::concat(roots) + output::rootless(path),
    decreases path.len(), 0int,
{
    let rest = path.skip(root.len() as int);
    let more = lemma_roots(rest);
    let roots = seq![root] + more;
    text::lemma_concat_add(seq![root], more);
    assert(seq![root].drop_last() =~= Seq::<Seq<char>>::empty());
    assert(text::concat(seq![root].drop_last()) =~= Seq::<char>::empty());
    assert(text::concat(seq![root]) =~= root);
    assert(path =~= root + rest);
    assert(path =~= text::concat(roots) + output::rootless(path));
    roots
}

/// One more root in front of a path changes nothing of what is shown.
pub proof fn law_roots_do_not_show(path: Seq<char>)
    requires
        path.len() > 0,
        !text::is_white(path[0]),
        !text::is_white(path.last()),
    ensures
        output::normal_path("./"@ + path) == output::normal_path(path),
        output::normal_path("/"@ + path) == output::normal_path(path),
{
    lemma_one_more_root("./"@, path);
    lemma_one_more_root("/"@, path);
}

proof fn lemma_one_more_root(root: Seq<char>, path: Seq<char>)
    requires
        root == "./"@ || root == "/"@,
        path.len() > 0,
        !text::is_white(path[0]),
        !text::is_white(path.last()),
    ensures
        output::normal_path(root + path) == output::normal_path(path),
{
    reveal_strlit("./");
    reveal_strlit("/");
    let all = root + path;
    assert(all.last() == path.last());
    text_laws::law_trimming_leaves_the_rest(path);
    text_laws::law_trimming_leaves_the_rest(all);
    let shown = text::replaced(all, '\\', '/');
    assert(shown =~= root + text::replaced(path, '\\', '/'));
    assert(shown.subrange(0, root.len() as int) =~= root);
    if root == "/"@ {
        assert(shown[0] == '/');
        if text::begins(shown, "./"@) {
            assert(shown.subrange(0, 2)[0] == '.');
        }
    }
    assert(shown.skip(root.len() as int) =~= text::replaced(path, '\\', '/'));
}

/// Where the two kinds of slash differ, a document shows the same.
pub proof fn law_backslashes_are_slashes(path: Seq<char>)
    ensures
        output::normal_path(text::replaced(path, '\\', '/')) == output::normal_path(path),
{
    lemma_trim_and_replace(path);
    let once = text::replaced(text::trimmed(path), '\\', '/');
    assert(!once.contains('\\')) by {
        if once.contains('\\') {
            let i = choose|i: int| 0 <= i < once.len() && once[i] == '\\';
        }
    }
    text_laws::law_replacing_nothing_changes_nothing(once, '\\', '/');
}

proof fn lemma_trim_and_replace(s: Seq<char>)
    ensures
        text::trimmed(text::replaced(s, '\\', '/')) == text::replaced(text::trimmed(s), '\\', '/'),
{
    lemma_start_and_replace(s);
    lemma_end_and_replace(text::trimmed_start(s));
}

proof fn lemma_start_and_replace(s: Seq<char>)
    ensures
        text::trimmed_start(text::replaced(s, '\\', '/')) == text::replaced(
            text::trimmed_start(s),
            '\\',
            '/',
        ),
    decreases s.len(),
{
    if s.len() > 0 && text::is_white(s[0]) {
        lemma_start_and_replace(s.skip(1));
        assert(text::replaced(s, '\\', '/').skip(1) =~= text::replaced(s.skip(1), '\\', '/'));
    }
}

proof fn lemma_end_and_replace(s: Seq<char>)
    ensures
        text::trimmed_end(text::replaced(s, '\\', '/')) == text::replaced(
            text::trimmed_end(s),
            '\\',
            '/',
        ),
    decreases s.len(),
{
    if s.len() > 0 && text::is_white(s.last()) {
        lemma_end_and_replace(s.drop_last());
        assert(text::replaced(s, '\\', '/').drop_last() =~= text::replaced(
            s.drop_last(),
            '\\',
            '/',
        ));
    }
}

// ---------------------------------------------------------------------------
// Fields
// ---------------------------------------------------------------------------

/// Whether none of the first fields has a key.
pub open spec fn absent(fields: Seq<(Seq<char>, JsonModel)>, n: nat, key: Seq<char>) -> bool
    decreases n,
{
    n == 0 || (fields[n - 1].0 != key && absent(fields, (n - 1) as nat, key))
}

/// A field is found under its key where no earlier field has it.
pub proof fn law_fields_are_found(fields: Seq<(Seq<char>, JsonModel)>, i: nat, key: Seq<char>)
    requires
        i < fields.len(),
        fields[i as int].0 == key,
        absent(fields, i, key),
    ensures
        json::value_in(fields, key) == Some(fields[i as int].1),
{
    lemma_passed_over(fields, i, key);
    assert(fields.skip(i as int)[0] == fields[i as int]);
}

/// A key that no field has is not found.
pub proof fn law_other_keys_are_not_found(fields: Seq<(Seq<char>, JsonModel)>, key: Seq<char>)
    requires
        absent(fields, fields.len(), key),
    ensures
        json::value_in(fields, key) is None,
{
    lemma_passed_over(fields, fields.len(), key);
}

/// Fields without the key are passed over.
proof fn lemma_passed_over(fields: Seq<(Seq<char>, JsonModel)>, n: nat, key: Seq<char>)
    requires
        n <= fields.len(),
        absent(fields, n, key),
    ensures
        json::value_in(fields, key) == json::value_in(fields.skip(n as int), key),
    decreases n,
{
    if n == 0 {
        assert(fields.skip(0) =~= fields);
    } else {
        lemma_passed_over(fields, (n - 1) as nat, key);
        assert(fields.skip(n - 1)[0] == fields[n - 1]);
        assert(fields.skip(n - 1).drop_first() =~= fields.skip(n as int));
    }
}

/// A finding in a document shows everything that the finding holds.
pub proof fn law_findings_show_everything(f: FindingModel)
    ensures
        ({
            let doc = output::finding_document(f);
            &&& json::field_of(doc, "fingerprint"@) == Some(JsonModel::Text(f.fingerprint))
            &&& json::field_of(doc, "path"@) == Some(
                JsonModel::Text(output::normal_path(f.path)),
            )
            &&& json::field_of(doc, "line"@) == Some(json::number_or_null(f.line))
            &&& json::field_of(doc, "end_line"@) == Some(json::number_or_null(f.end_line))
            &&& json::field_of(doc, "side"@) == Some(JsonModel::Text("new"@))
            &&& json::field_of(doc, "severity"@) == Some(JsonModel::Text(f.severity.name()))
            &&& json::field_of(doc, "title"@) == Some(JsonModel::Text(f.title))
            &&& json::field_of(doc, "body"@) == Some(JsonModel::Text(f.body))
            &&& json::field_of(doc, "suggestion"@) == Some(json::text_or_null(f.suggestion))
            &&& json::field_of(doc, "status"@) == Some(JsonModel::Text(f.status.name()))
            &&& json::field_of(doc, "related"@) matches Some(JsonModel::List(list))
                && list.len() == f.related.len() && forall|i: int|
                0 <= i < f.related.len() ==> #[trigger] list[i] == output::related_document(
                    f.related[i],
                )
        }),
{
    reveal_strlit("fingerprint");
    reveal_strlit("path");
    reveal_strlit("line");
    reveal_strlit("end_line");
    reveal_strlit("side");
    reveal_strlit("severity");
    reveal_strlit("title");
    reveal_strlit("body");
    reveal_strlit("suggestion");
    reveal_strlit("status");
    reveal_strlit("related");
    assert("fingerprint"@.len() == 11 && "path"@.len() == 4 && "line"@.len() == 4);
    assert("end_line"@.len() == 8 && "side"@.len() == 4 && "severity"@.len() == 8);
    assert("title"@.len() == 5 && "body"@.len() == 4 && "suggestion"@.len() == 10);
    assert("status"@.len() == 6 && "related"@.len() == 7);
    assert("path"@[0] == 'p' && "line"@[0] == 'l' && "side"@[0] == 's' && "body"@[0] == 'b');
    assert("end_line"@[0] == 'e' && "severity"@[0] == 's');
    let fields = output::finding_document(f)->Object_0;
    reveal_with_fuel(absent, 13);
    law_fields_are_found(fields, 0, "fingerprint"@);
    law_fields_are_found(fields, 1, "path"@);
    law_fields_are_found(fields, 2, "line"@);
    law_fields_are_found(fields, 3, "end_line"@);
    law_fields_are_found(fields, 4, "side"@);
    law_fields_are_found(fields, 5, "severity"@);
    law_fields_are_found(fields, 6, "title"@);
    law_fields_are_found(fields, 7, "body"@);
    law_fields_are_found(fields, 8, "suggestion"@);
    law_fields_are_found(fields, 9, "status"@);
    law_fields_are_found(fields, 10, "related"@);
}

/// A related location shows its normalized path and its line.
pub proof fn law_related_locations_show_where_they_are(r: RelatedModel)
    ensures
        json::field_of(output::related_document(r), "path"@) == Some(
            JsonModel::Text(output::normal_path(r.path)),
        ),
        json::field_of(output::related_document(r), "line"@) == Some(
            JsonModel::Number(r.line as int),
        ),
{
    reveal_strlit("path");
    reveal_strlit("line");
    assert("path"@[0] == 'p' && "line"@[0] == 'l');
    let fields = output::related_document(r)->Object_0;
    reveal_with_fuel(absent, 4);
    law_fields_are_found(fields, 0, "path"@);
    law_fields_are_found(fields, 1, "line"@);
}

/// Absent values are null, present ones are shown.
pub proof fn law_absent_values_are_null(n: Option<u64>, s: Option<Seq<char>>)
    ensures
        n is None ==> json::number_or_null(n) == JsonModel::Null,
        n is Some ==> json::number_or_null(n) == JsonModel::Number(n->0 as int),
        s is None ==> json::text_or_null(s) == JsonModel::Null,
        s is Some ==> json::text_or_null(s) == JsonModel::Text(s->0),
{
}

/// Every finding stands in the document, and every finding of the document was given.
pub proof fn law_every_finding_is_listed(list: Seq<FindingModel>, i: int)
    requires
        0 <= i < list.len(),
    ensures
        output::findings_document(list)->List_0.contains(output::finding_document(list[i])),
        exists|j: int|
            0 <= j < list.len() && output::findings_document(list)->List_0[i]
                == output::finding_document(#[trigger] list[j]),
{
    output::law_findings_have_a_fixed_order(list);
    let all = output::ordered_findings(list);
    let docs = output::findings_document(list)->List_0;
    list.to_multiset_ensures();
    all.to_multiset_ensures();
    assert(list.contains(list[i]));
    assert(list.to_multiset().count(list[i]) > 0);
    assert(all.contains(list[i]));
    let k = choose|k: int| 0 <= k < all.len() && all[k] == list[i];
    assert(docs[k] == output::finding_document(list[i]));
    assert(all.contains(all[i]));
    assert(all.to_multiset().count(all[i]) > 0);
    assert(list.contains(all[i]));
    let j = choose|j: int| 0 <= j < list.len() && list[j] == all[i];
    assert(docs[i] == output::finding_document(list[j]));
}

// ---------------------------------------------------------------------------
// Units
// ---------------------------------------------------------------------------

/// A unit id is its source, a colon and the path of its file; for a group `group:`
/// stands before the path. Without a colon the id itself is the file.
pub proof fn law_unit_ids_name_their_file(source: Seq<char>, path: Seq<char>)
    requires
        !source.contains(':'),
    ensures
        output::files_of(source) == seq![source],
        !text::begins(path, "group:"@) ==> output::files_of(source + ":"@ + path) == seq![path],
        output::files_of(source + ":"@ + "group:"@ + path) == seq![path],
{
    reveal_strlit(":");
    reveal_strlit("group:");
    lemma_first_colon(source, Seq::empty());
    assert(source + Seq::<char>::empty() =~= source);
    lemma_first_colon(source, ":"@ + path);
    let id = source + (":"@ + path);
    assert(id =~= source + ":"@ + path);
    assert(id.skip((source.len() + 1) as int) =~= path);
    let rest = "group:"@ + path;
    lemma_first_colon(source, ":"@ + rest);
    let gid = source + (":"@ + rest);
    assert(gid =~= source + ":"@ + "group:"@ + path);
    assert(gid.skip((source.len() + 1) as int) =~= rest);
    assert(rest.subrange(0, 6) =~= "group:"@);
    assert(rest.skip(6) =~= path);
}

/// The first colon of an id stands behind a source that has none.
proof fn lemma_first_colon(source: Seq<char>, rest: Seq<char>)
    requires
        !source.contains(':'),
        rest.len() > 0 ==> rest[0] == ':',
    ensures
        text::position(source + rest, ':') == source.len(),
    decreases source.len(),
{
    let all = source + rest;
    if source.len() > 0 {
        let tail = source.skip(1);
        assert(all.skip(1) =~= tail + rest);
        assert(source.contains(source[0]));
        assert(!tail.contains(':')) by {
            if tail.contains(':') {
                let i = choose|i: int| 0 <= i < tail.len() && tail[i] == ':';
                assert(source.contains(source[i + 1]));
            }
        }
        lemma_first_colon(tail, rest);
    }
}

/// A unit in a document shows its id, its file and its status; the reason is there
/// where it failed or was cut, and nowhere else.
pub proof fn law_units_show_their_state(e: ledger::Entry)
    ensures
        ({
            let doc = output::unit_document(e);
            &&& json::field_of(doc, "unit_id"@) == Some(JsonModel::Text(e.id))
            &&& json::field_of(doc, "files"@) == Some(output::text_list(output::files_of(e.id)))
            &&& match e.state {
                StateView::Covered => json::field_of(doc, "status"@) == Some(
                    JsonModel::Text("covered"@),
                ) && json::field_of(doc, "reason"@) is None,
                StateView::Failed(reason) => json::field_of(doc, "status"@) == Some(
                    JsonModel::Text("failed"@),
                ) && json::field_of(doc, "reason"@) == Some(JsonModel::Text(reason)),
                StateView::Truncated(reason) => json::field_of(doc, "status"@) == Some(
                    JsonModel::Text("truncated"@),
                ) && json::field_of(doc, "reason"@) == Some(JsonModel::Text(reason)),
                _ => json::field_of(doc, "status"@) == Some(JsonModel::Text("pending"@))
                    && json::field_of(doc, "reason"@) is None,
            }
        }),
{
    reveal_strlit("unit_id");
    reveal_strlit("files");
    reveal_strlit("status");
    reveal_strlit("reason");
    assert("unit_id"@.len() == 7 && "files"@.len() == 5 && "status"@.len() == 6);
    assert("reason"@.len() == 6);
    assert("status"@[0] == 's' && "reason"@[0] == 'r');
    let fields = output::unit_document(e)->Object_0;
    reveal_with_fuel(absent, 5);
    law_fields_are_found(fields, 0, "unit_id"@);
    law_fields_are_found(fields, 1, "files"@);
    law_fields_are_found(fields, 2, "status"@);
    if fields.len() > 3 {
        law_fields_are_found(fields, 3, "reason"@);
    } else {
        law_other_keys_are_not_found(fields, "reason"@);
    }
}

/// Every unit of the ledger stands in the document, once for each entry.
pub proof fn law_every_unit_is_listed(entries: Seq<ledger::Entry>, i: int)
    requires
        0 <= i < entries.len(),
    ensures
        output::units_document(entries)->List_0.len() == entries.len(),
        output::units_document(entries)->List_0.contains(output::unit_document(entries[i])),
{
    output::law_units_have_a_fixed_order(entries);
    let all = output::ordered_units(entries);
    entries.to_multiset_ensures();
    all.to_multiset_ensures();
    assert(entries.contains(entries[i]));
    assert(entries.to_multiset().count(entries[i]) > 0);
    assert(all.contains(entries[i]));
    let k = choose|k: int| 0 <= k < all.len() && all[k] == entries[i];
    assert(output::units_document(entries)->List_0[k] == output::unit_document(entries[i]));
}

/// A list of texts shows each text, in its place.
pub proof fn law_texts_are_listed(texts: Seq<Seq<char>>, i: int)
    requires
        0 <= i < texts.len(),
    ensures
        output::text_list(texts)->List_0.len() == texts.len(),
        output::text_list(texts)->List_0[i] == JsonModel::Text(texts[i]),
{
}

// ---------------------------------------------------------------------------
// Runs
// ---------------------------------------------------------------------------

/// The usage of a run shows each of its counters.
pub proof fn law_usage_shows_every_counter(usage: UsageTotal)
    ensures
        ({
            let doc = output::usage_document(usage);
            &&& json::field_of(doc, "input_tokens"@) == Some(
                JsonModel::Number(usage.input_tokens as int),
            )
            &&& json::field_of(doc, "output_tokens"@) == Some(
                JsonModel::Number(usage.output_tokens as int),
            )
            &&& json::field_of(doc, "cached_input_tokens"@) == Some(
                JsonModel::Number(usage.cached_input_tokens as int),
            )
            &&& json::field_of(doc, "calls"@) == Some(JsonModel::Number(usage.calls as int))
        }),
{
    reveal_strlit("input_tokens");
    reveal_strlit("output_tokens");
    reveal_strlit("cached_input_tokens");
    reveal_strlit("calls");
    assert("input_tokens"@.len() == 12 && "output_tokens"@.len() == 13 && "cached_input_tokens"@.len() == 19);
    assert("calls"@.len() == 5);
    let fields = output::usage_document(usage)->Object_0;
    reveal_with_fuel(absent, 6);
    law_fields_are_found(fields, 0, "input_tokens"@);
    law_fields_are_found(fields, 1, "output_tokens"@);
    law_fields_are_found(fields, 2, "cached_input_tokens"@);
    law_fields_are_found(fields, 3, "calls"@);
}

/// The timing of a run shows when it started and how long it took.
pub proof fn law_timing_shows_both(started_at: Seq<char>, duration_ms: int)
    ensures
        json::field_of(output::timing_document(started_at, duration_ms), "started_at"@) == Some(
            JsonModel::Text(started_at),
        ),
        json::field_of(output::timing_document(started_at, duration_ms), "duration_ms"@) == Some(
            JsonModel::Number(duration_ms),
        ),
{
    reveal_strlit("started_at");
    reveal_strlit("duration_ms");
    assert("started_at"@.len() == 10 && "duration_ms"@.len() == 11);
    let fields = output::timing_document(started_at, duration_ms)->Object_0;
    reveal_with_fuel(absent, 4);
    law_fields_are_found(fields, 0, "started_at"@);
    law_fields_are_found(fields, 1, "duration_ms"@);
}

/// The `run` segment shows all that is known of the run; the change request is there
/// exactly where the run has one.
pub proof fn law_runs_show_their_metadata(meta: RunMeta, form: Seq<char>)
    ensures
        ({
            let doc = output::run_document(meta, form);
            &&& json::field_of(doc, "form"@) == Some(JsonModel::Text(form))
            &&& json::field_of(doc, "repository"@) == Some(JsonModel::Text(meta.repository@))
            &&& meta.change_request is None <==> json::field_of(doc, "change_request"@) is None
            &&& meta.change_request is Some ==> json::field_of(doc, "change_request"@) == Some(
                JsonModel::Number(meta.change_request->0 as int),
            )
            &&& json::field_of(doc, "revision"@) == Some(JsonModel::Text(meta.revision@))
            &&& json::field_of(doc, "model"@) == Some(JsonModel::Text(meta.model@))
            &&& json::field_of(doc, "usage"@) == Some(output::usage_document(meta.usage))
            &&& json::field_of(doc, "timing"@) == Some(
                output::timing_document(meta.started_at@, meta.duration_ms as int),
            )
            &&& json::field_of(doc, "terminal"@) == Some(JsonModel::Text(meta.terminal.name()))
        }),
{
    reveal_strlit("form");
    reveal_strlit("repository");
    reveal_strlit("change_request");
    reveal_strlit("revision");
    reveal_strlit("model");
    reveal_strlit("usage");
    reveal_strlit("timing");
    reveal_strlit("terminal");
    assert("form"@.len() == 4 && "repository"@.len() == 10 && "change_request"@.len() == 14);
    assert("revision"@.len() == 8 && "model"@.len() == 5 && "usage"@.len() == 5);
    assert("timing"@.len() == 6 && "terminal"@.len() == 8);
    assert("model"@[0] == 'm' && "usage"@[0] == 'u');
    assert("revision"@[0] == 'r' && "terminal"@[0] == 't');
    let fields = output::run_document(meta, form)->Object_0;
    reveal_with_fuel(absent, 9);
    law_fields_are_found(fields, 0, "form"@);
    law_fields_are_found(fields, 1, "repository"@);
    if meta.change_request is Some {
        law_fields_are_found(fields, 2, "change_request"@);
        law_fields_are_found(fields, 3, "revision"@);
        law_fields_are_found(fields, 4, "model"@);
        law_fields_are_found(fields, 5, "usage"@);
        law_fields_are_found(fields, 6, "timing"@);
        law_fields_are_found(fields, 7, "terminal"@);
    } else {
        law_fields_are_found(fields, 2, "revision"@);
        law_fields_are_found(fields, 3, "model"@);
        law_fields_are_found(fields, 4, "usage"@);
        law_fields_are_found(fields, 5, "timing"@);
        law_fields_are_found(fields, 6, "terminal"@);
        law_other_keys_are_not_found(fields, "change_request"@);
    }
}

/// The coverage segment counts the units: all of them, and those of each final state.
pub proof fn law_coverage_counts_the_units(entries: Seq<ledger::Entry>)
    ensures
        ({
            let doc = output::coverage_document(entries);
            &&& json::field_of(doc, "total"@) == Some(JsonModel::Number(entries.len() as int))
            &&& json::field_of(doc, "covered"@) == Some(
                JsonModel::Number(entries.filter(|e: ledger::Entry| e.state is Covered).len() as int),
            )
            &&& json::field_of(doc, "failed"@) == Some(
                JsonModel::Number(entries.filter(|e: ledger::Entry| e.state is Failed).len() as int),
            )
            &&& json::field_of(doc, "truncated"@) == Some(
                JsonModel::Number(
                    entries.filter(|e: ledger::Entry| e.state is Truncated).len() as int,
                ),
            )
        }),
{
    reveal_strlit("total");
    reveal_strlit("covered");
    reveal_strlit("failed");
    reveal_strlit("truncated");
    assert("total"@.len() == 5 && "covered"@.len() == 7 && "failed"@.len() == 6);
    assert("truncated"@.len() == 9);
    let fields = output::coverage_document(entries)->Object_0;
    reveal_with_fuel(absent, 6);
    law_fields_are_found(fields, 0, "total"@);
    law_fields_are_found(fields, 1, "covered"@);
    law_fields_are_found(fields, 2, "failed"@);
    law_fields_are_found(fields, 3, "truncated"@);
    assert(ledger::covered(entries) == entries.filter(|e: ledger::Entry| e.state is Covered));
    assert(ledger::failed(entries) == entries.filter(|e: ledger::Entry| e.state is Failed));
    assert(ledger::truncated(entries) == entries.filter(|e: ledger::Entry| e.state is Truncated));
}

/// The document of a run has its segments, and lists exclusions exactly where there
/// are any.
pub proof fn law_run_documents_are_complete(
    meta: RunMeta,
    form: Seq<char>,
    entries: Seq<ledger::Entry>,
    findings: Seq<FindingModel>,
    resolutions: Seq<Seq<char>>,
    excluded: Seq<units::ExcludedView>,
)
    ensures
        ({
            let doc = output::report_document(
                meta,
                form,
                entries,
                findings,
                resolutions,
                excluded,
            );
            &&& json::field_of(doc, "schema_version"@) == Some(JsonModel::Text("1.0"@))
            &&& json::field_of(doc, "run"@) == Some(output::run_document(meta, form))
            &&& json::field_of(doc, "units"@) == Some(output::units_document(entries))
            &&& json::field_of(doc, "findings"@) == Some(output::findings_document(findings))
            &&& json::field_of(doc, "resolutions"@) == Some(
                output::text_list(output::ordered_texts(resolutions)),
            )
            &&& json::field_of(doc, "coverage"@) == Some(output::coverage_document(entries))
            &&& json::field_of(doc, "excluded"@) is None <==> excluded.len() == 0
        }),
{
    reveal_strlit("schema_version");
    reveal_strlit("run");
    reveal_strlit("units");
    reveal_strlit("findings");
    reveal_strlit("resolutions");
    reveal_strlit("coverage");
    reveal_strlit("excluded");
    assert("schema_version"@.len() == 14 && "run"@.len() == 3 && "units"@.len() == 5);
    assert("findings"@.len() == 8 && "resolutions"@.len() == 11 && "coverage"@.len() == 8);
    assert("excluded"@.len() == 8);
    assert("findings"@[0] == 'f' && "coverage"@[0] == 'c' && "excluded"@[0] == 'e');
    let fields = output::report_document(
        meta,
        form,
        entries,
        findings,
        resolutions,
        excluded,
    )->Object_0;
    reveal_with_fuel(absent, 8);
    law_fields_are_found(fields, 0, "schema_version"@);
    law_fields_are_found(fields, 1, "run"@);
    law_fields_are_found(fields, 2, "units"@);
    law_fields_are_found(fields, 3, "findings"@);
    law_fields_are_found(fields, 4, "resolutions"@);
    law_fields_are_found(fields, 5, "coverage"@);
    if excluded.len() > 0 {
        law_fields_are_found(fields, 6, "excluded"@);
    } else {
        law_other_keys_are_not_found(fields, "excluded"@);
    }
}

/// The resolutions of a document are those that were given, each as often, in order.
pub proof fn law_resolutions_are_all_there(list: Seq<Seq<char>>)
    ensures
        output::ordered_texts(list).to_multiset() == list.to_multiset(),
        forall|i: int, j: int|
            0 <= i < j < output::ordered_texts(list).len() ==> text::at_most(
                #[trigger] output::ordered_texts(list)[i],
                #[trigger] output::ordered_texts(list)[j],
            ),
{
    let le = |a: Seq<char>, b: Seq<char>| text::at_most(a, b);
    let sorted = output::ordered_texts(list);
    assert(crate::sorting::is_order(le)) by {
        assert forall|a: Seq<char>, b: Seq<char>| #[trigger] le(a, b) || le(b, a) by {
            text::lemma_at_most_total(a, b);
        }
        assert forall|a: Seq<char>, b: Seq<char>, c: Seq<char>| #[trigger]
            le(a, b) && #[trigger] le(b, c) implies le(a, c) by {
            text::lemma_at_most_trans(a, b, c);
        }
    }
    crate::sorting::law_sorting_is_a_permutation(list, le);
    crate::sorting::law_sorting_sorts(list, le);
    assert forall|i: int, j: int| 0 <= i < j < sorted.len() implies text::at_most(
        #[trigger] sorted[i],
        #[trigger] sorted[j],
    ) by {
        assert(le(sorted[i], sorted[j]));
    }
}

/// An excluded file shows its path, the reason, and whether it stays in the text.
pub proof fn law_exclusions_show_why(file: units::ExcludedView)
    ensures
        ({
            let doc = output::excluded_document(file);
            &&& json::field_of(doc, "path"@) == Some(
                JsonModel::Text(output::normal_path(file.path)),
            )
            &&& json::field_of(doc, "reason"@) == Some(JsonModel::Text(file.reason.name()))
            &&& json::field_of(doc, "kept_in_text"@) == Some(JsonModel::Bool(file.kept_in_text))
        }),
{
    reveal_strlit("path");
    reveal_strlit("reason");
    reveal_strlit("kept_in_text");
    assert("path"@.len() == 4 && "reason"@.len() == 6 && "kept_in_text"@.len() == 12);
    let fields = output::excluded_document(file)->Object_0;
    reveal_with_fuel(absent, 5);
    law_fields_are_found(fields, 0, "path"@);
    law_fields_are_found(fields, 1, "reason"@);
    law_fields_are_found(fields, 2, "kept_in_text"@);
}

/// No two reasons for an exclusion read alike.
pub proof fn law_reasons_are_told_apart(a: units::ExcludeReason, b: units::ExcludeReason)
    ensures
        a.name() == b.name() <==> a == b,
{
    reveal_strlit("binary");
    reveal_strlit("deleted");
    reveal_strlit("generated");
    reveal_strlit("ignored");
    reveal_strlit("oversized");
    reveal_strlit("secret-path");
    reveal_strlit("extension");
    reveal_strlit("default-path");
    assert("binary"@.len() == 6 && "deleted"@.len() == 7 && "generated"@.len() == 9);
    assert("ignored"@.len() == 7 && "oversized"@.len() == 9 && "secret-path"@.len() == 11);
    assert("extension"@.len() == 9 && "default-path"@.len() == 12);
    assert("deleted"@[0] == 'd' && "ignored"@[0] == 'i');
    assert("generated"@[0] == 'g' && "oversized"@[0] == 'o' && "extension"@[0] == 'e');
}

/// A preview shows its mode, its estimate, every unit, every exclusion, and the paths
/// that the size took out.
pub proof fn law_previews_are_complete(selection: units::SelectionView, incremental: bool)
    ensures
        ({
            let doc = output::preview_document(selection, incremental);
            &&& json::field_of(doc, "mode"@) == Some(
                JsonModel::Text(
                    if incremental {
                        "incremental"@
                    } else {
                        "full"@
                    },
                ),
            )
            &&& json::field_of(doc, "estimated_tokens"@) == Some(
                JsonModel::Number(selection.estimated_tokens),
            )
            &&& json::field_of(doc, "units"@) matches Some(JsonModel::List(list)) && list.len()
                == selection.units.len() && forall|i: int|
                0 <= i < list.len() ==> #[trigger] list[i] == output::preview_unit(
                    selection.units[i],
                )
            &&& json::field_of(doc, "excluded"@) matches Some(JsonModel::List(list)) && list.len()
                == selection.excluded.len() && forall|i: int|
                0 <= i < list.len() ==> #[trigger] list[i] == output::excluded_document(
                    selection.excluded[i],
                )
            &&& json::field_of(doc, "truncated"@) == Some(
                output::text_list(units::dropped_paths(selection.excluded)),
            )
        }),
{
    reveal_strlit("mode");
    reveal_strlit("estimated_tokens");
    reveal_strlit("units");
    reveal_strlit("excluded");
    reveal_strlit("truncated");
    assert("mode"@.len() == 4 && "estimated_tokens"@.len() == 16 && "units"@.len() == 5);
    assert("excluded"@.len() == 8 && "truncated"@.len() == 9);
    let fields = output::preview_document(selection, incremental)->Object_0;
    reveal_with_fuel(absent, 7);
    law_fields_are_found(fields, 0, "mode"@);
    law_fields_are_found(fields, 1, "estimated_tokens"@);
    law_fields_are_found(fields, 2, "units"@);
    law_fields_are_found(fields, 3, "excluded"@);
    law_fields_are_found(fields, 4, "truncated"@);
}

/// A unit of a preview shows its id and its files, and is pending.
pub proof fn law_previewed_units_are_pending(unit: units::UnitView)
    ensures
        ({
            let doc = output::preview_unit(unit);
            &&& json::field_of(doc, "unit_id"@) == Some(JsonModel::Text(unit.unit_id))
            &&& json::field_of(doc, "files"@) == Some(output::text_list(unit.files))
            &&& json::field_of(doc, "status"@) == Some(JsonModel::Text("pending"@))
        }),
{
    reveal_strlit("unit_id");
    reveal_strlit("files");
    reveal_strlit("status");
    assert("unit_id"@.len() == 7 && "files"@.len() == 5 && "status"@.len() == 6);
    let fields = output::preview_unit(unit)->Object_0;
    reveal_with_fuel(absent, 5);
    law_fields_are_found(fields, 0, "unit_id"@);
    law_fields_are_found(fields, 1, "files"@);
    law_fields_are_found(fields, 2, "status"@);
}

// ---------------------------------------------------------------------------
// How a run reached us, and its revision
// ---------------------------------------------------------------------------

/// A choice that is not blank decides alone: a known name stands for itself, any other
/// for an action. A blank one counts as none, and then the surroundings decide.
pub proof fn law_an_explicit_form_decides(v: Seq<char>, in_actions: bool)
    ensures
        text_laws::all_white(v) ==> output::form_of(Some(v), in_actions) == output::form_of(
            None,
            in_actions,
        ),
        !text_laws::all_white(v) ==> output::form_of(Some(v), true) == output::form_of(
            Some(v),
            false,
        ),
        v == "serve"@ || v == "cli"@ || v == "action"@ ==> output::form_of(Some(v), in_actions)
            == v,
        !text_laws::all_white(v) && v != "serve"@ && v != "cli"@ ==> output::form_of(
            Some(v),
            in_actions,
        ) == "action"@,
        output::form_of(None, true) == "action"@,
        output::form_of(None, false) == "cli"@,
{
    let at = text_laws::law_trimming_takes_white_space_only(v);
    if text_laws::all_white(v) {
        if at.0 < at.1 {
            assert(text::is_white(v[at.0]));
        }
    } else if at.0 == at.1 {
        assert forall|i: int| 0 <= i < v.len() implies text::is_white(#[trigger] v[i]) by {
            if i < at.0 {
                assert(v.take(at.0)[i] == v[i]);
            } else {
                assert(v.skip(at.1)[i - at.1] == v[i]);
            }
        }
    }
    reveal_strlit("serve");
    reveal_strlit("cli");
    reveal_strlit("action");
    assert("serve"@.len() == 5 && "cli"@.len() == 3 && "action"@.len() == 6);
    if v == "serve"@ || v == "cli"@ || v == "action"@ {
        assert(!text::is_white(v[0]));
    }
}

/// A revision is the beginning of what the workflow gives, without the white space
/// around it: all of it up to twelve characters, and else the first twelve.
pub proof fn law_revisions_are_short(v: Seq<char>, version: Seq<char>)
    ensures
        output::revision_of(None, version) == version,
        text::trimmed(v).len() == 0 ==> output::revision_of(Some(v), version) == version,
        0 < text::trimmed(v).len() <= 12 ==> output::revision_of(Some(v), version)
            == text::trimmed(v),
        text::trimmed(v).len() > 12 ==> output::revision_of(Some(v), version).len() == 12
            && text::begins(text::trimmed(v), output::revision_of(Some(v), version)),
{
    let t = text::trimmed(v);
    if t.len() > 12 {
        assert(t.subrange(0, 12) =~= t.take(12));
    }
}

} // verus!
