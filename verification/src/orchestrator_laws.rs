//! What a run promises, step by step: whom it reviews, what it asks the platform for,
//! and what it does with each answer.

use vstd::prelude::*;

use crate::conversation::Severity;
use crate::diff;
use crate::ledger;
use crate::ledger::StateView;
use crate::orchestrator;
use crate::orchestrator::{
    InputsView, NextView, OpenView, OutcomeView, PrepEventView, PrepPhaseView, PrepStepView,
    PrepView, PullView, ReviewConfig, RunEventView, RunPhaseView, RunView, ScopeView, StatusState,
    StatusView, SummaryView, ThreadView,
};
use crate::text;
use crate::text_laws;
use crate::units;

verus! {

// ---------------------------------------------------------------------------
// Preparation
// ---------------------------------------------------------------------------

/// What follows the answer to the request for a pull request.
pub open spec fn pulled(
    cfg: ReviewConfig,
    ignored: Set<Seq<char>>,
    force_full: bool,
    pr: PullView,
) -> (PrepPhaseView, PrepStepView) {
    orchestrator::prep_stepped(
        cfg,
        ignored,
        force_full,
        PrepPhaseView::Pull,
        PrepEventView::Pull(Ok(pr)),
    )
}

/// A fetched pull request whose author is no bot is skipped if and only if it is a
/// draft and drafts are not reviewed. In every other case the preparation goes on: a
/// forced review lists the earlier ones, another asks for the permission, each for this
/// pull request. One by a bot is always skipped.
pub proof fn law_only_drafts_and_bots_are_skipped(
    cfg: ReviewConfig,
    ignored: Set<Seq<char>>,
    force_full: bool,
    pr: PullView,
)
    ensures
        ({
            let (phase, step) = pulled(cfg, ignored, force_full, pr);
            let bot = text::ends(pr.author, "[bot]"@);
            &&& !bot ==> (step is Skip <==> pr.draft && !cfg.review_drafts)
            &&& bot ==> step is Skip
            &&& step !is Skip && force_full ==> step is ListReviews && phase
                == (PrepPhaseView::Reviews { pr })
            &&& step !is Skip && !force_full ==> step is AskPermission && phase
                == (PrepPhaseView::Permission { pr })
            &&& step is Skip ==> phase is Done
        }),
{
}

/// Where drafts are reviewed, a draft is treated as any other pull request.
pub proof fn law_reviewed_drafts_are_no_exception(
    cfg: ReviewConfig,
    ignored: Set<Seq<char>>,
    force_full: bool,
    pr: PullView,
)
    requires
        cfg.review_drafts,
    ensures
        pulled(cfg, ignored, force_full, PullView { draft: true, ..pr }).1 == pulled(
            cfg,
            ignored,
            force_full,
            PullView { draft: false, ..pr },
        ).1,
{
}

/// A skipped bot is named.
pub proof fn law_skipped_bots_are_named(
    cfg: ReviewConfig,
    ignored: Set<Seq<char>>,
    force_full: bool,
    pr: PullView,
)
    requires
        text::ends(pr.author, "[bot]"@),
        !pr.draft,
    ensures
        pulled(cfg, ignored, force_full, pr).1 matches PrepStepView::Skip { reason }
            && text::mentions(reason, pr.author),
{
    let head = "bot author: "@;
    text_laws::law_a_part_is_mentioned(head, pr.author, Seq::empty());
    assert(head + pr.author + Seq::empty() =~= head + pr.author);
}

/// A permission decides: with it the earlier reviews are listed, without it the run is
/// skipped.
pub proof fn law_permission_decides(
    cfg: ReviewConfig,
    ignored: Set<Seq<char>>,
    force_full: bool,
    pr: PullView,
    granted: bool,
)
    ensures
        ({
            let (phase, step) = orchestrator::prep_stepped(
                cfg,
                ignored,
                force_full,
                PrepPhaseView::Permission { pr },
                PrepEventView::Permission(granted),
            );
            &&& granted ==> step is ListReviews && phase == (PrepPhaseView::Reviews { pr })
            &&& !granted ==> step is Skip && phase is Done
        }),
{
}

/// After the earlier reviews the diff is fetched. The review starts from the latest
/// recorded revision, and is incremental exactly where there is one, it is not the
/// head, and no full review was asked for. Reviews that could not be listed count as
/// none.
pub proof fn law_reviews_decide_where_to_start(
    cfg: ReviewConfig,
    ignored: Set<Seq<char>>,
    force_full: bool,
    pr: PullView,
    shas: Seq<Option<Seq<char>>>,
)
    ensures
        ({
            let phase = PrepPhaseView::Reviews { pr };
            let listed = orchestrator::prep_stepped(
                cfg,
                ignored,
                force_full,
                phase,
                PrepEventView::Reviews(Some(shas)),
            );
            let unlisted = orchestrator::prep_stepped(
                cfg,
                ignored,
                force_full,
                phase,
                PrepEventView::Reviews(None),
            );
            &&& listed.1 is FetchDiff
            &&& unlisted.1 is FetchDiff
            &&& unlisted.0 == (PrepPhaseView::Diff { pr, prior_sha: None, incremental: false })
            &&& listed.0 matches PrepPhaseView::Diff { pr: same, prior_sha, incremental } && same
                == pr && prior_sha == orchestrator::latest(shas) && (incremental <==> prior_sha
                is Some && prior_sha != Some(pr.head_sha) && !force_full)
        }),
{
}

/// The latest revision is that of the last review that records one: a later review with
/// one replaces it, a later review without one does not.
pub proof fn law_later_reviews_replace_the_revision(
    shas: Seq<Option<Seq<char>>>,
    sha: Seq<char>,
)
    ensures
        orchestrator::latest(shas.push(Some(sha))) == Some(sha),
        orchestrator::latest(shas.push(None)) == orchestrator::latest(shas),
        orchestrator::latest(Seq::empty()) is None,
{
    assert(shas.push(None).drop_last() =~= shas);
}

/// A diff of white space skips the run; any other is prepared in full, or, for an
/// incremental review, the changes from the earlier revision to the head are fetched and
/// the selected text of the full diff is kept for anchoring.
pub proof fn law_the_diff_decides_what_is_reviewed(
    cfg: ReviewConfig,
    ignored: Set<Seq<char>>,
    force_full: bool,
    pr: PullView,
    prior: Option<Seq<char>>,
    incremental: bool,
    d: Seq<char>,
)
    ensures
        ({
            let (phase, step) = orchestrator::prep_stepped(
                cfg,
                ignored,
                force_full,
                PrepPhaseView::Diff { pr, prior_sha: prior, incremental },
                PrepEventView::Diff(Ok(d)),
            );
            let full = orchestrator::chosen(cfg, ignored, d);
            &&& step is Skip <==> text_laws::all_white(d)
            &&& !text_laws::all_white(d) && incremental && prior is Some ==> step
                == (PrepStepView::FetchDelta { prior: prior->0, head: pr.head_sha }) && phase
                == (PrepPhaseView::Delta { pr, prior_sha: prior, anchor_text: full.text })
            &&& !text_laws::all_white(d) && !incremental ==> ready(
                step,
                pr,
                prior,
                false,
                full.text,
                full,
            )
        }),
{
    lemma_blank(d);
}

/// The changes since the last review: white space skips the run, anything else is
/// prepared, with the kept text for anchoring.
pub proof fn law_the_delta_is_what_is_reviewed(
    cfg: ReviewConfig,
    ignored: Set<Seq<char>>,
    force_full: bool,
    pr: PullView,
    prior: Option<Seq<char>>,
    anchor: Seq<char>,
    d: Seq<char>,
)
    ensures
        ({
            let (phase, step) = orchestrator::prep_stepped(
                cfg,
                ignored,
                force_full,
                PrepPhaseView::Delta { pr, prior_sha: prior, anchor_text: anchor },
                PrepEventView::Delta(Ok(d)),
            );
            &&& step is Skip <==> text_laws::all_white(d)
            &&& !text_laws::all_white(d) ==> ready(
                step,
                pr,
                prior,
                true,
                anchor,
                orchestrator::chosen(cfg, ignored, d),
            )
        }),
{
    lemma_blank(d);
}

/// Whether a preparation ended with inputs made of these parts, and wrote no check.
pub open spec fn ready(
    step: PrepStepView,
    pr: PullView,
    prior: Option<Seq<char>>,
    incremental: bool,
    anchor: Seq<char>,
    selection: units::SelectionView,
) -> bool {
    match step {
        PrepStepView::Over { statuses, result: Ok(PrepView::Ready(inputs)) } => {
            &&& statuses.len() == 0
            &&& made_of(inputs, pr, prior, incremental, anchor, selection)
        },
        _ => false,
    }
}

/// Whether inputs are made of these parts, with nothing covered yet.
pub open spec fn made_of(
    inputs: InputsView,
    pr: PullView,
    prior: Option<Seq<char>>,
    incremental: bool,
    anchor: Seq<char>,
    selection: units::SelectionView,
) -> bool {
    &&& inputs.pr == pr
    &&& inputs.prior_sha == prior
    &&& inputs.incremental == incremental
    &&& inputs.anchor_text == anchor
    &&& inputs.analysis_text == selection.text
    &&& inputs.analysis_selection == selection
    &&& inputs.truncated_files == units::dropped_paths(selection.excluded)
    &&& inputs.excluded_files == units::gated_out(selection.excluded).len()
    &&& forall|e: int|
        0 <= e < inputs.coverage.len() ==> (#[trigger] inputs.coverage[e]).state
            == StateView::Pending
}

proof fn lemma_blank(s: Seq<char>)
    ensures
        orchestrator::blank(s) <==> text_laws::all_white(s),
{
    let at = text_laws::law_trimming_takes_white_space_only(s);
    if at.0 == at.1 {
        assert forall|i: int| 0 <= i < s.len() implies text::is_white(#[trigger] s[i]) by {
            if i < at.0 {
                assert(s.take(at.0)[i] == s[i]);
            } else {
                assert(s.skip(at.1)[i - at.1] == s[i]);
            }
        }
    } else if text_laws::all_white(s) {
        assert(text::is_white(s[at.0]));
    }
}

/// The settings reach the selection: the gates, the budget, and whether mirror files
/// share a unit. Grouping changes the units and nothing else.
pub proof fn law_settings_reach_the_selection(
    cfg: ReviewConfig,
    ignored: Set<Seq<char>>,
    d: Seq<char>,
)
    ensures
        ({
            let plain = units::selected(
                d,
                (units::Gates { ignored, strict: cfg.select_strict }),
                Some(cfg.max_diff_kb as nat),
            );
            let chosen = orchestrator::chosen(cfg, ignored, d);
            &&& !cfg.group_units ==> chosen == plain
            &&& chosen.text == plain.text
            &&& chosen.excluded == plain.excluded
            &&& chosen.estimated_tokens == plain.estimated_tokens
            &&& cfg.group_units ==> chosen.units == crate::groups::grouped(plain.units)
        }),
{
}

/// A request that failed ends the preparation with the error: as an error where
/// failures are fatal, else as a failed analysis. What the platform said is in the
/// message.
pub proof fn law_failed_requests_end_the_preparation(
    cfg: ReviewConfig,
    ignored: Set<Seq<char>>,
    force_full: bool,
    phase: PrepPhaseView,
    event: PrepEventView,
    e: Seq<char>,
)
    requires
        event == PrepEventView::Pull(Err(e)) || event == PrepEventView::Diff(Err(e)) || event
            == PrepEventView::Delta(Err(e)),
        orchestrator::prep_expected(phase, event),
    ensures
        ({
            let (after, step) = orchestrator::prep_stepped(
                cfg,
                ignored,
                force_full,
                phase,
                event,
            );
            &&& after is Done
            &&& step matches PrepStepView::Over { statuses, result } && {
                &&& match result {
                    Err(message) => cfg.fail_closed && text::mentions(message, e),
                    Ok(PrepView::Done(OutcomeView::AnalysisFailed(message))) => !cfg.fail_closed
                        && text::mentions(message, e),
                    Ok(_) => false,
                }
                &&& statuses.len() == (if cfg.status_checks && phase !is Pull {
                    1nat
                } else {
                    0nat
                })
            }
        }),
{
    let head = match event {
        PrepEventView::Pull(_) => "failed to fetch PR: "@,
        PrepEventView::Diff(_) => "failed to fetch diff: "@,
        _ => "failed to fetch incremental diff: "@,
    };
    text_laws::law_a_part_is_mentioned(head, e, Seq::empty());
    assert(head + e + Seq::empty() =~= head + e);
}

// ---------------------------------------------------------------------------
// Status checks
// ---------------------------------------------------------------------------

/// The check of an end is written exactly where checks are on; it is an error exactly
/// where the run failed and failures are fatal.
pub proof fn law_the_terminal_check(cfg: ReviewConfig, analysis_ok: bool, note: Seq<char>)
    ensures
        ({
            let list = orchestrator::terminal_statuses(cfg, analysis_ok, note);
            &&& !cfg.status_checks ==> list.len() == 0
            &&& cfg.status_checks ==> list.len() == 1 && list[0].context == "hoverstare"@ && (
            list[0].state == StatusState::Error <==> !analysis_ok && cfg.fail_closed) && (
            list[0].state == StatusState::Success <==> analysis_ok || !cfg.fail_closed)
                && text::begins(note, list[0].description) && list[0].description.len() <= 140 && (
            note.len() <= 140 ==> list[0].description == note) && (note.len() > 140
                ==> list[0].description.len() == 140)
        }),
{
    if note.len() > 140 {
        assert(note.subrange(0, 140) =~= note.take(140));
    } else {
        assert(note.subrange(0, note.len() as int) =~= note);
    }
}

/// A skipped run writes both checks as a success, each with its description, exactly
/// where checks are on.
pub proof fn law_the_checks_of_a_skipped_run(
    cfg: ReviewConfig,
    skipped: Seq<char>,
    nothing: Seq<char>,
)
    requires
        skipped.len() <= 140,
        nothing.len() <= 140,
    ensures
        !cfg.status_checks ==> orchestrator::skip_statuses(cfg, skipped, nothing).len() == 0,
        cfg.status_checks ==> orchestrator::skip_statuses(cfg, skipped, nothing) == seq![
            StatusView {
                context: "hoverstare"@,
                state: StatusState::Success,
                description: skipped,
            },
            StatusView {
                context: "hoverstare-findings"@,
                state: StatusState::Success,
                description: nothing,
            },
        ],
{
}

/// The note of a failure begins with its kind and states the coverage: how many units
/// were covered of how many, how many failed and how many were cut.
pub proof fn law_failure_notes_state_the_coverage(kind: Seq<char>, entries: Seq<ledger::Entry>)
    ensures
        ({
            let note = orchestrator::note_text(kind, entries);
            &&& text::begins(note, kind)
            &&& text::mentions(
                note,
                text::decimal(entries.filter(|e: ledger::Entry| e.state is Covered).len()) + "/"@
                    + text::decimal(entries.len()),
            )
            &&& text::mentions(
                note,
                text::decimal(entries.filter(|e: ledger::Entry| e.state is Failed).len())
                    + " failed"@,
            )
            &&& text::mentions(
                note,
                text::decimal(entries.filter(|e: ledger::Entry| e.state is Truncated).len())
                    + " truncated"@,
            )
        }),
{
    let note = orchestrator::note_text(kind, entries);
    let covered = text::decimal(ledger::covered(entries).len());
    let failed = text::decimal(ledger::failed(entries).len());
    let cut = text::decimal(ledger::truncated(entries).len());
    let total = text::decimal(entries.len());
    assert(ledger::covered(entries) == entries.filter(|e: ledger::Entry| e.state is Covered));
    assert(ledger::failed(entries) == entries.filter(|e: ledger::Entry| e.state is Failed));
    assert(ledger::truncated(entries) == entries.filter(|e: ledger::Entry| e.state is Truncated));
    reveal_strlit(" failed, ");
    reveal_strlit(" failed");
    reveal_strlit(" truncated)");
    reveal_strlit(" truncated");
    assert(" failed, "@ =~= " failed"@ + seq![',', ' ']);
    assert(" truncated)"@ =~= " truncated"@ + seq![')']);
    assert(note.subrange(0, kind.len() as int) =~= kind);
    let a = kind + ": coverage "@;
    let one = covered + "/"@ + total;
    let b = " ("@;
    let two = failed + " failed"@;
    let three = cut + " truncated"@;
    let gap = seq![',', ' '];
    assert(note =~= a + one + (b + two + gap + three + seq![')']));
    text_laws::law_a_part_is_mentioned(a, one, b + two + gap + three + seq![')']);
    assert(note =~= (a + one + b) + two + (gap + three + seq![')']));
    text_laws::law_a_part_is_mentioned(a + one + b, two, gap + three + seq![')']);
    assert(note =~= (a + one + b + two + gap) + three + seq![')']);
    text_laws::law_a_part_is_mentioned(a + one + b + two + gap, three, seq![')']);
}

/// The two checks of a published run: the first is a success with the given
/// description; the second states how many findings of high severity are new and how
/// many are open, where there are any.
pub proof fn law_the_checks_of_a_published_run(
    severities: Seq<Severity>,
    open: Seq<OpenView>,
    resolved: Seq<Seq<char>>,
    done: Seq<char>,
)
    ensures
        ({
            let list = orchestrator::final_statuses(severities, open, resolved, done);
            let fresh = severities.filter(
                |s: Severity| s == Severity::Critical || s == Severity::High,
            ).len();
            let kept = open.filter(
                |f: OpenView| f.has_high_severity && !resolved.contains(f.thread_id),
            ).len();
            &&& list.len() == 2
            &&& list[0] == (StatusView {
                context: "hoverstare"@,
                state: StatusState::Success,
                description: done,
            })
            &&& list[1].context == "hoverstare-findings"@
            &&& list[1].state == (if fresh + kept > 0 {
                StatusState::Failure
            } else {
                StatusState::Success
            })
            &&& fresh + kept > 0 ==> text::mentions(
                list[1].description,
                "new: "@ + text::decimal(fresh),
            ) && text::mentions(list[1].description, "open: "@ + text::decimal(kept))
        }),
{
    let high = |s: Severity| s == Severity::Critical || s == Severity::High;
    let stays = |f: OpenView| f.has_high_severity && !resolved.contains(f.thread_id);
    assert(high =~= |s: Severity| s.is_high());
    assert(stays =~= |f: OpenView| !resolved.contains(f.thread_id) && f.has_high_severity);
    let fresh = severities.filter(high).len();
    let kept = open.filter(stays).len();
    assert(orchestrator::new_high(severities).len() == fresh);
    assert(orchestrator::open_high(open, resolved).len() == kept);
    if fresh + kept > 0 {
        let head = "Unresolved high-severity findings (new: "@;
        reveal_strlit("Unresolved high-severity findings (new: ");
        reveal_strlit("new: ");
        reveal_strlit(", open: ");
        reveal_strlit("open: ");
        let front = head.take(head.len() - 5);
        assert(head =~= front + "new: "@);
        assert(", open: "@ =~= seq![',', ' '] + "open: "@);
        let said = orchestrator::final_statuses(severities, open, resolved, done)[1].description;
        let one = "new: "@ + text::decimal(fresh);
        let two = "open: "@ + text::decimal(kept);
        let gap = seq![',', ' '];
        assert(said =~= front + one + (gap + two + ")"@));
        text_laws::law_a_part_is_mentioned(front, one, gap + two + ")"@);
        assert(said =~= (front + one + gap) + two + ")"@);
        text_laws::law_a_part_is_mentioned(front + one + gap, two, ")"@);
    }
}

// ---------------------------------------------------------------------------
// Threads
// ---------------------------------------------------------------------------

/// A thread adds an open finding exactly where it is unresolved and carries a
/// fingerprint; the finding holds what the thread says, behind those before it.
pub proof fn law_unresolved_threads_are_open_findings(
    threads: Seq<ThreadView>,
    t: ThreadView,
)
    ensures
        ({
            let before = orchestrator::findings_in(threads);
            let after = orchestrator::findings_in(threads.push(t));
            &&& orchestrator::findings_in(Seq::empty()).len() == 0
            &&& t.is_resolved || t.fingerprints.len() == 0 ==> after == before
            &&& !t.is_resolved && t.fingerprints.len() > 0 ==> after == before.push(
                OpenView {
                    thread_id: t.id,
                    fingerprints: t.fingerprints,
                    description: t.description,
                    has_high_severity: t.first_comment_body.contains('🔴')
                        || t.first_comment_body.contains('🟠'),
                    first_comment_id: t.first_comment_id,
                },
            )
        }),
{
    assert(threads.push(t).drop_last() =~= threads);
}

/// The comment of a thread is that of the first open finding with its id, and there is
/// none where no open finding has the id.
pub proof fn law_the_comment_of_a_thread(open: Seq<OpenView>, thread: Seq<char>, i: int)
    requires
        0 <= i < open.len(),
        forall|j: int| 0 <= j < i ==> (#[trigger] open[j]).thread_id != thread,
    ensures
        open[i].thread_id == thread ==> orchestrator::comment_in(open, thread)
            == open[i].first_comment_id,
        i == open.len() - 1 && open[i].thread_id != thread ==> orchestrator::comment_in(
            open,
            thread,
        ) is None,
    decreases open.len(),
{
    if i > 0 {
        let rest = open.drop_first();
        assert(rest[i - 1] == open[i]);
        assert forall|j: int| 0 <= j < i - 1 implies (#[trigger] rest[j]).thread_id != thread by {
            assert(rest[j] == open[j + 1]);
        }
        assert(open[0].thread_id != thread);
        law_the_comment_of_a_thread(rest, thread, i - 1);
    } else {
        assert(orchestrator::comment_in(open, thread) == if open[0].thread_id == thread {
            open[0].first_comment_id
        } else {
            orchestrator::comment_in(open.drop_first(), thread)
        });
        assert(open.len() == 1 ==> orchestrator::comment_in(open.drop_first(), thread) is None);
    }
}

// ---------------------------------------------------------------------------
// The run
// ---------------------------------------------------------------------------

/// A run begins with a skip where no file is left to analyze, with a failure where the
/// text is more than twice the budget, and else by fetching the threads, with nothing
/// found yet.
pub proof fn law_how_a_run_begins(cfg: ReviewConfig, inputs: InputsView, done: Seq<char>)
    ensures
        ({
            let (s, step) = orchestrator::run_begun(cfg, inputs, done);
            let files = diff::file_sections(diff::sections(inputs.analysis_text)).len();
            let over = text::byte_len(inputs.analysis_text) > 2048 * cfg.max_diff_kb;
            &&& files == 0 ==> step.next is Skip && step.statuses.len() == 0 && s.phase is Done
            &&& files > 0 && over ==> step.next is Finish && s.phase is Done && forall|e: int|
                0 <= e < s.coverage.len() ==> (#[trigger] s.coverage[e]).state is Truncated
            &&& files > 0 && !over ==> step.next is FetchThreads && step.statuses.len() == 0
                && s.phase is Threads && s.coverage == inputs.coverage && s.open.len() == 0
                && s.severities.len() == 0 && s.to_resolve.len() == 0 && !s.published
                && s.inline_comments == 0 && s.resolved == 0 && s.replied == 0 && s.done == done
            &&& s.coverage.len() == inputs.coverage.len()
        }),
{
}

/// A skipped run says how many files the rules left out, where they did.
pub proof fn law_skips_say_how_many_files_were_left_out(excluded: nat)
    ensures
        excluded > 0 ==> text::mentions(
            orchestrator::nothing_reason(excluded as int),
            text::decimal(excluded),
        ),
{
    let head = "all changes filtered out by rules ("@;
    text_laws::law_a_part_is_mentioned(head, text::decimal(excluded), " files)"@);
}

/// With the threads everything is dispatched: the open findings are theirs, every unit
/// runs, and the analysis comes next. Nothing else of the state changes.
pub proof fn law_threads_start_the_analysis(
    cfg: ReviewConfig,
    s: RunView,
    threads: Seq<ThreadView>,
)
    requires
        s.phase is Threads,
    ensures
        ({
            let (after, step) = orchestrator::run_stepped(
                cfg,
                s,
                RunEventView::Threads(threads),
            );
            &&& step.next is Analyze
            &&& step.statuses.len() == 0
            &&& after.open == orchestrator::findings_in(threads)
            &&& after.phase is Analyzing
            &&& after.coverage.len() == s.coverage.len()
            &&& forall|e: int|
                0 <= e < s.coverage.len() ==> (#[trigger] after.coverage[e]).id == s.coverage[e].id
                    && after.coverage[e].state == StateView::Running
            &&& after == (RunView {
                open: after.open,
                coverage: after.coverage,
                phase: after.phase,
                ..s
            })
        }),
{
}

/// A finished analysis covers every unit, and what it found is what the run goes on
/// with: it is published, unless the run is dry.
pub proof fn law_findings_are_published(cfg: ReviewConfig, s: RunView, found: SummaryView)
    requires
        s.phase is Analyzing,
    ensures
        ({
            let (after, step) = orchestrator::run_stepped(
                cfg,
                s,
                RunEventView::Analyzed(Ok(found)),
            );
            &&& step.statuses.len() == 0
            &&& after.severities == found.severities
            &&& after.to_resolve == found.to_resolve
            &&& after.inline_comments == found.inline_comments
            &&& after.open == s.open
            &&& after.coverage.len() == s.coverage.len()
            &&& forall|e: int|
                0 <= e < s.coverage.len() ==> (#[trigger] after.coverage[e]).id == s.coverage[e].id
                    && after.coverage[e].state == StateView::Covered
            &&& step.next is Publish <==> !cfg.dry_run
            &&& step.next is Emit <==> cfg.dry_run && cfg.structured
            &&& step.next is PrintDryRun <==> cfg.dry_run && !cfg.structured
            &&& step.next is Publish ==> after.phase is Publishing
        }),
{
}

/// A failed analysis fails every unit with the error, and ends the run: as an error
/// where failures are fatal, else as a failed analysis. The check says how far it came.
pub proof fn law_a_failed_analysis_ends_the_run(cfg: ReviewConfig, s: RunView, e: Seq<char>)
    requires
        s.phase is Analyzing,
    ensures
        ({
            let (after, step) = orchestrator::run_stepped(cfg, s, RunEventView::Analyzed(Err(e)));
            &&& after.phase is Done
            &&& after.coverage.len() == s.coverage.len()
            &&& forall|k: int|
                0 <= k < s.coverage.len() ==> (#[trigger] after.coverage[k]).id == s.coverage[k].id
                    && after.coverage[k].state == StateView::Failed(e)
            &&& step.next matches NextView::Finish(result) && match result {
                Err(message) => cfg.fail_closed && text::ends(message, e),
                Ok(OutcomeView::AnalysisFailed(message)) => !cfg.fail_closed && text::ends(
                    message,
                    e,
                ),
                Ok(_) => false,
            }
            &&& cfg.status_checks ==> step.statuses.len() == 1
            &&& !cfg.status_checks ==> step.statuses.len() == 0
        }),
{
    let message = "analysis failed: "@ + e;
    assert(message.subrange(message.len() - e.len(), message.len() as int) =~= e);
}

/// What a step leaves of what the run knows: everything but the progress of publishing.
pub open spec fn same_findings(a: RunView, b: RunView) -> bool {
    &&& a.coverage == b.coverage
    &&& a.open == b.open
    &&& a.severities == b.severities
    &&& a.to_resolve == b.to_resolve
    &&& a.inline_comments == b.inline_comments
    &&& a.done == b.done
}

/// From the publishing on a run changes neither its coverage nor what was found.
pub proof fn law_publishing_keeps_the_findings(cfg: ReviewConfig, s: RunView, event: RunEventView)
    requires
        s.phase !is Threads,
        s.phase !is Analyzing,
    ensures
        same_findings(orchestrator::run_stepped(cfg, s, event).0, s),
{
}

/// Whether a step goes on with a place of the list of threads: the thread that stands
/// there is resolved next, and behind the last one the run is wrapped up.
pub open spec fn goes_on_at(
    cfg: ReviewConfig,
    after: RunView,
    statuses: Seq<StatusView>,
    next: NextView,
    place: int,
) -> bool {
    if place < after.to_resolve.len() {
        &&& next == NextView::ResolveThread(after.to_resolve[place])
        &&& after.phase == (RunPhaseView::Resolving { next: place })
        &&& statuses.len() == 0
    } else {
        &&& cfg.structured ==> next is Emit && after.phase is Emitting
        &&& !cfg.structured ==> after.phase is Done && next == NextView::Finish(
            Ok(
                OutcomeView::Published {
                    inline_comments: if after.published {
                        after.inline_comments
                    } else {
                        0
                    },
                    terminal: ledger::terminal_of(after.coverage),
                },
            ),
        )
        &&& cfg.status_checks ==> statuses == orchestrator::final_statuses(
            after.severities,
            after.open,
            after.to_resolve,
            after.done,
        )
        &&& !cfg.status_checks ==> statuses.len() == 0
    }
}

/// A posted review is followed by the first thread to resolve. One that could not be
/// posted is replaced by a comment; where that fails too the run fails with both errors,
/// fatal or not.
pub proof fn law_a_review_is_posted_or_replaced(
    cfg: ReviewConfig,
    s: RunView,
    error: Seq<char>,
    second: Seq<char>,
)
    ensures
        s.phase is Publishing ==> {
            let (after, step) = orchestrator::run_stepped(cfg, s, RunEventView::Published(Ok(())));
            &&& after.published
            &&& goes_on_at(cfg, after, step.statuses, step.next, 0)
        },
        s.phase is Publishing ==> {
            let (after, step) = orchestrator::run_stepped(
                cfg,
                s,
                RunEventView::Published(Err(error)),
            );
            &&& step.next is Comment
            &&& step.statuses.len() == 0
            &&& after.phase == (RunPhaseView::Commenting { error })
            &&& after.published == s.published
        },
        s.phase == (RunPhaseView::Commenting { error }) ==> {
            let (after, step) = orchestrator::run_stepped(cfg, s, RunEventView::Commented(Ok(())));
            &&& !after.published
            &&& goes_on_at(cfg, after, step.statuses, step.next, 0)
        },
        s.phase == (RunPhaseView::Commenting { error }) ==> {
            let (after, step) = orchestrator::run_stepped(
                cfg,
                s,
                RunEventView::Commented(Err(second)),
            );
            &&& after.phase is Done
            &&& step.next matches NextView::Finish(Err(message)) && text::mentions(message, error)
                && text::mentions(message, second)
            &&& cfg.status_checks ==> step.statuses.len() == 1
        },
{
    let head = "both review and fallback comment failed: "@;
    let gap = " ; "@;
    text_laws::law_a_part_is_mentioned(head, error, gap + second);
    assert(head + error + (gap + second) =~= head + error + gap + second);
    text_laws::law_a_part_is_mentioned(head + error + gap, second, Seq::empty());
    assert(head + error + gap + second + Seq::empty() =~= head + error + gap + second);
}

/// The threads are resolved one after the other, none twice and none left out. A thread
/// that cannot be resolved is answered under its first comment, where there is one.
/// Only what succeeded is counted.
pub proof fn law_threads_are_resolved_in_turn(cfg: ReviewConfig, s: RunView, place: int)
    requires
        0 <= place < s.to_resolve.len(),
    ensures
        s.phase == (RunPhaseView::Resolving { next: place }) ==> {
            let (after, step) = orchestrator::run_stepped(cfg, s, RunEventView::Resolved(true));
            &&& after.resolved == s.resolved + 1
            &&& after.replied == s.replied
            &&& after.published == s.published
            &&& goes_on_at(cfg, after, step.statuses, step.next, place + 1)
        },
        s.phase == (RunPhaseView::Resolving { next: place }) ==> {
            let (after, step) = orchestrator::run_stepped(cfg, s, RunEventView::Resolved(false));
            &&& after.resolved == s.resolved
            &&& after.replied == s.replied
            &&& after.published == s.published
            &&& match orchestrator::comment_in(s.open, s.to_resolve[place]) {
                Some(comment) => step.next == NextView::ReplyTo(comment) && after.phase
                    == (RunPhaseView::Replying { next: place }) && step.statuses.len() == 0,
                None => goes_on_at(cfg, after, step.statuses, step.next, place + 1),
            }
        },
        s.phase == (RunPhaseView::Replying { next: place }) ==> {
            let (after, step) = orchestrator::run_stepped(cfg, s, RunEventView::Replied(true));
            &&& after.resolved == s.resolved
            &&& after.replied == s.replied + 1
            &&& after.published == s.published
            &&& goes_on_at(cfg, after, step.statuses, step.next, place + 1)
        },
        s.phase == (RunPhaseView::Replying { next: place }) ==> {
            let (after, step) = orchestrator::run_stepped(cfg, s, RunEventView::Replied(false));
            &&& after.resolved == s.resolved
            &&& after.replied == s.replied
            &&& after.published == s.published
            &&& goes_on_at(cfg, after, step.statuses, step.next, place + 1)
        },
{
}

/// An emitted document ends the run with its outcome; one that could not be emitted
/// ends it with the error. No check is written again.
pub proof fn law_the_document_ends_the_run(cfg: ReviewConfig, s: RunView, e: Seq<char>)
    requires
        s.phase is Emitting,
    ensures
        ({
            let (after, step) = orchestrator::run_stepped(cfg, s, RunEventView::Emitted(Ok(())));
            &&& after.phase is Done
            &&& step.statuses.len() == 0
            &&& step.next == NextView::Finish(
                Ok(
                    if cfg.dry_run {
                        OutcomeView::DryRun
                    } else {
                        OutcomeView::Published {
                            inline_comments: if s.published {
                                s.inline_comments
                            } else {
                                0
                            },
                            terminal: ledger::terminal_of(s.coverage),
                        }
                    },
                ),
            )
        }),
        orchestrator::run_stepped(cfg, s, RunEventView::Emitted(Err(e))).1.next
            == NextView::Finish(Err(e)),
        orchestrator::run_stepped(cfg, s, RunEventView::Emitted(Err(e))).1.statuses.len() == 0,
{
}

// ---------------------------------------------------------------------------
// The context of a review
// ---------------------------------------------------------------------------

/// What a review is told of its run: the head, the number of files in the text and of
/// those left out, and for an incremental review the beginning of the revision that it
/// starts from, of at most seven bytes and whole where it is that short.
pub proof fn law_the_context_tells_where_the_run_stands(inputs: InputsView, open: Seq<OpenView>)
    ensures
        ({
            let c = orchestrator::context_of(inputs, open);
            &&& c.head_sha == inputs.pr.head_sha
            &&& c.files_reviewed == diff::file_sections(
                diff::sections(inputs.analysis_text),
            ).len()
            &&& c.excluded_files == inputs.excluded_files
            &&& c.incremental_from is Some <==> inputs.incremental && inputs.prior_sha is Some
            &&& c.incremental_from is Some ==> text::begins(
                inputs.prior_sha->0,
                c.incremental_from->0,
            ) && text::byte_len(c.incremental_from->0) <= 7 && (text::byte_len(
                inputs.prior_sha->0,
            ) <= 7 ==> c.incremental_from == inputs.prior_sha)
            &&& c.scope == (match c.incremental_from {
                Some(prior) => ScopeView::Incremental(prior),
                None => ScopeView::Full,
            })
            &&& inputs.incremental ==> c.mode == "incremental"@
            &&& !inputs.incremental ==> c.mode == "full"@
        }),
{
    if inputs.incremental && inputs.prior_sha is Some {
        let prior = inputs.prior_sha->0;
        text_laws::law_byte_prefix_is_the_longest_that_fits(prior, 7, 0);
        let head = text::byte_prefix(prior, 7);
        assert(prior.subrange(0, head.len() as int) =~= head);
    }
}

/// The check of a failure says what failed and how far the run came, within its bound:
/// whether failures are fatal, where the analysis failed; that the text was too large;
/// that nothing could be published.
pub proof fn law_failures_are_described(
    cfg: ReviewConfig,
    s: RunView,
    e: Seq<char>,
    error: Seq<char>,
    inputs: InputsView,
    done: Seq<char>,
)
    requires
        cfg.status_checks,
    ensures
        s.phase is Analyzing ==> {
            let (after, step) = orchestrator::run_stepped(cfg, s, RunEventView::Analyzed(Err(e)));
            step.statuses[0].description == orchestrator::clipped(
                orchestrator::note_text(
                    if cfg.fail_closed {
                        "analysis failed"@
                    } else {
                        "analysis failed (fail-open)"@
                    },
                    after.coverage,
                ),
            )
        },
        s.phase == (RunPhaseView::Commenting { error }) ==> {
            let (after, step) = orchestrator::run_stepped(cfg, s, RunEventView::Commented(Err(e)));
            step.statuses[0].description == orchestrator::clipped(
                orchestrator::note_text("publication failed"@, after.coverage),
            )
        },
        orchestrator::run_begun(cfg, inputs, done).1.next is Finish ==> {
            let (after, step) = orchestrator::run_begun(cfg, inputs, done);
            &&& step.statuses[0].description == orchestrator::clipped(
                orchestrator::note_text("diff over budget, analysis abandoned"@, after.coverage),
            )
            &&& step.next matches NextView::Finish(result) && match result {
                Err(message) => cfg.fail_closed && text::mentions(
                    message,
                    text::decimal(text::byte_len(inputs.analysis_text) / 1024) + " KB"@,
                ),
                Ok(OutcomeView::AnalysisFailed(message)) => !cfg.fail_closed && text::mentions(
                    message,
                    text::decimal(text::byte_len(inputs.analysis_text) / 1024) + " KB"@,
                ),
                Ok(_) => false,
            }
        },
{
    let size = text::decimal(text::byte_len(inputs.analysis_text) / 1024);
    let head = "diff exceeds 2x budget ("@;
    let end = " KB), abandoning analysis"@;
    reveal_strlit(" KB), abandoning analysis");
    reveal_strlit(" KB");
    assert(end =~= " KB"@ + end.skip(3));
    text_laws::law_a_part_is_mentioned(head, size + " KB"@, end.skip(3));
    assert(head + (size + " KB"@) + end.skip(3) =~= head + size + end);
}

/// A skipped run says why.
pub proof fn law_skips_say_why(
    cfg: ReviewConfig,
    ignored: Set<Seq<char>>,
    force_full: bool,
    pr: PullView,
    prior: Option<Seq<char>>,
    incremental: bool,
    anchor: Seq<char>,
    inputs: InputsView,
    done: Seq<char>,
)
    ensures
        pr.draft && !cfg.review_drafts ==> pulled(cfg, ignored, force_full, pr).1 == (
        PrepStepView::Skip { reason: "draft PR"@ }),
        orchestrator::prep_stepped(
            cfg,
            ignored,
            force_full,
            PrepPhaseView::Permission { pr },
            PrepEventView::Permission(false),
        ).1 == (PrepStepView::Skip { reason: "auto-review permission denied"@ }),
        orchestrator::prep_stepped(
            cfg,
            ignored,
            force_full,
            PrepPhaseView::Diff { pr, prior_sha: prior, incremental },
            PrepEventView::Diff(Ok(Seq::empty())),
        ).1 == (PrepStepView::Skip { reason: "empty diff"@ }),
        orchestrator::prep_stepped(
            cfg,
            ignored,
            force_full,
            PrepPhaseView::Delta { pr, prior_sha: prior, anchor_text: anchor },
            PrepEventView::Delta(Ok(Seq::empty())),
        ).1 == (PrepStepView::Skip { reason: "no new changes since the last review"@ }),
        orchestrator::run_begun(cfg, inputs, done).1.next is Skip && inputs.excluded_files == 0
            ==> orchestrator::run_begun(cfg, inputs, done).1.next == NextView::Skip(
            "no reviewable changes in diff"@,
        ),
        orchestrator::run_begun(cfg, inputs, done).1.next is Skip && inputs.excluded_files > 0
            ==> orchestrator::run_begun(cfg, inputs, done).1.next == NextView::Skip(
            orchestrator::nothing_reason(inputs.excluded_files),
        ),
{
    lemma_blank(Seq::empty());
}

} // verus!
