//! The review command: what a run decides between its calls to the platform and
//! to the model.
//!
//! Two machines. The first prepares a run: it resolves the pull request, the
//! change set, the selection and the ledger, or ends the run early. A preview and
//! a real run share it, so "what would be reviewed" and "what is reviewed" cannot
//! drift apart. The second carries a prepared run through analysis, publication
//! and the wrap-up. Whoever drives them performs the steps and reports back.

use globset::GlobSet;
use vstd::prelude::*;
use vstd::slice::slice_subrange;

use crate::conversation::Severity;
use crate::diff;
use crate::glob;
use crate::groups;
use crate::ledger;
use crate::ledger::{CoverageLedger, CoverageSummary, TerminalState};
use crate::output;
use crate::preview;
use crate::sorting;
use crate::text;
use crate::units;
use crate::units::{SelectOptions, Selection};

verus! {

/// Characters of a status description.
pub const DESCRIPTION_CHARS: usize = 140;

/// Bytes of a revision that are shown.
pub const SHORT_SHA_BYTES: usize = 7;

/// What a thread is answered when it cannot be resolved.
pub const FIXED_REPLY: &'static str = "✅ HoverStare confirmed fixed";

/// How a run ended.
#[derive(Debug, Clone, PartialEq, Eq)]
pub enum Outcome {
    Skipped(String),
    Published { inline_comments: usize, terminal: TerminalState },
    /// The selection was reported and nothing was dispatched.
    Previewed { units: usize, excluded: usize, truncated: usize },
    DryRun,
    AnalysisFailed(String),
}

/// What an outcome holds.
pub enum OutcomeView {
    Skipped(Seq<char>),
    Published { inline_comments: int, terminal: TerminalState },
    Previewed { units: int, excluded: int, truncated: int },
    DryRun,
    AnalysisFailed(Seq<char>),
}

impl View for Outcome {
    type V = OutcomeView;

    open spec fn view(&self) -> OutcomeView {
        match self {
            Outcome::Skipped(reason) => OutcomeView::Skipped(reason@),
            Outcome::Published { inline_comments, terminal } => OutcomeView::Published {
                inline_comments: *inline_comments as int,
                terminal: *terminal,
            },
            Outcome::Previewed { units, excluded, truncated } => OutcomeView::Previewed {
                units: *units as int,
                excluded: *excluded as int,
                truncated: *truncated as int,
            },
            Outcome::DryRun => OutcomeView::DryRun,
            Outcome::AnalysisFailed(reason) => OutcomeView::AnalysisFailed(reason@),
        }
    }
}

/// The settings of a run.
#[derive(Debug, Clone, Copy, PartialEq, Eq, Structural)]
pub struct ReviewConfig {
    /// Whether a failed analysis fails the command.
    pub fail_closed: bool,
    /// Whether status checks are written.
    pub status_checks: bool,
    /// Whether drafts are reviewed.
    pub review_drafts: bool,
    pub max_diff_kb: usize,
    /// Whether credentials, tool output and unknown kinds of files are left out.
    pub select_strict: bool,
    /// Whether mirror files share a unit.
    pub group_units: bool,
    /// Whether a review states its coverage.
    pub report_coverage: bool,
    /// Analyze, and print instead of publishing.
    pub dry_run: bool,
    /// Whether a structured document is emitted.
    pub structured: bool,
}

/// How a failure ends: as an error where failures are fatal, else as an outcome.
pub open spec fn funneled(fail_closed: bool, message: Seq<char>) -> Result<OutcomeView, Seq<char>> {
    if fail_closed {
        Err(message)
    } else {
        Ok(OutcomeView::AnalysisFailed(message))
    }
}

/// What the result of a run holds.
pub open spec fn result_view(result: Result<Outcome, String>) -> Result<OutcomeView, Seq<char>> {
    match result {
        Ok(outcome) => Ok(outcome@),
        Err(message) => Err(message@),
    }
}

/// The funnel of failures in the analysis zone: an error where failures are
/// fatal, else an outcome that does not block.
pub fn fail_or_open(fail_closed: bool, message: String) -> (r: Result<Outcome, String>)
    ensures
        result_view(r) == funneled(fail_closed, message@),
{
    if fail_closed {
        Err(message)
    } else {
        Ok(Outcome::AnalysisFailed(message))
    }
}

/// The text of a failure note.
pub open spec fn note_text(kind: Seq<char>, entries: Seq<ledger::Entry>) -> Seq<char> {
    kind + ": coverage "@ + text::decimal(ledger::covered(entries).len()) + "/"@ + text::decimal(
        entries.len(),
    ) + " ("@ + text::decimal(ledger::failed(entries).len()) + " failed, "@ + text::decimal(
        ledger::truncated(entries).len(),
    ) + " truncated)"@
}

/// Failure notes state the coverage as well: "no comments posted" and "nothing
/// was reviewed" are different facts.
pub fn failure_note(kind: &str, coverage: &CoverageLedger) -> (r: String)
    ensures
        r@ == note_text(kind@, coverage@),
{
    let s = coverage.summary();
    let mut out = kind.to_owned();
    out.append(": coverage ");
    text::push_number(&mut out, s.covered as u128);
    out.append("/");
    text::push_number(&mut out, s.total as u128);
    out.append(" (");
    text::push_number(&mut out, s.failed as u128);
    out.append(" failed, ");
    text::push_number(&mut out, s.truncated as u128);
    out.append(" truncated)");
    out
}

// ---------------------------------------------------------------------------
// Status checks
// ---------------------------------------------------------------------------

/// The state of a status check.
#[derive(Debug, Clone, Copy, PartialEq, Eq, Structural)]
pub enum StatusState {
    Success,
    Failure,
    Error,
}

/// A status check to write.
#[derive(Debug, Clone, PartialEq, Eq)]
pub struct NewStatus {
    pub context: String,
    pub state: StatusState,
    pub description: String,
}

/// What a status check holds.
pub struct StatusView {
    pub context: Seq<char>,
    pub state: StatusState,
    pub description: Seq<char>,
}

impl View for NewStatus {
    type V = StatusView;

    open spec fn view(&self) -> StatusView {
        StatusView {
            context: self.context@,
            state: self.state,
            description: self.description@,
        }
    }
}

/// The contents of status checks.
pub open spec fn status_views(list: Seq<NewStatus>) -> Seq<StatusView> {
    list.map_values(|s: NewStatus| s@)
}

/// A description within its bound.
pub open spec fn clipped(s: Seq<char>) -> Seq<char> {
    if s.len() <= DESCRIPTION_CHARS {
        s
    } else {
        s.take(DESCRIPTION_CHARS as int)
    }
}

/// A description within its bound.
fn clip(s: &str) -> (r: String)
    ensures
        r@ == clipped(s@),
{
    let chars = text::chars_of(s);
    if chars.len() <= DESCRIPTION_CHARS {
        return s.to_owned();
    }
    let head = slice_subrange(&chars, 0, DESCRIPTION_CHARS);
    assert(head@ =~= s@.take(DESCRIPTION_CHARS as int));
    text::string_of(head)
}

/// The check that every end of a run writes, so that a required check never stays
/// pending.
pub open spec fn terminal_statuses(cfg: ReviewConfig, analysis_ok: bool, note: Seq<char>) -> Seq<
    StatusView,
> {
    if cfg.status_checks {
        seq![
            StatusView {
                context: "hoverstare"@,
                state: if analysis_ok || !cfg.fail_closed {
                    StatusState::Success
                } else {
                    StatusState::Error
                },
                description: clipped(note),
            },
        ]
    } else {
        Seq::empty()
    }
}

/// Whether checks settle the check of the run.
pub open spec fn settles(statuses: Seq<StatusView>) -> bool {
    statuses.len() > 0 && statuses[0].context == "hoverstare"@
}

/// The check that every end of a run writes.
pub fn post_terminal_status(cfg: &ReviewConfig, analysis_ok: bool, note: &str) -> (r: Vec<NewStatus>)
    ensures
        status_views(r@) == terminal_statuses(*cfg, analysis_ok, note@),
{
    let mut out: Vec<NewStatus> = Vec::new();
    if cfg.status_checks {
        let state = if analysis_ok || !cfg.fail_closed {
            StatusState::Success
        } else {
            StatusState::Error
        };
        out.push(NewStatus { context: "hoverstare".to_owned(), state, description: clip(note) });
    }
    assert(status_views(out@) =~= terminal_statuses(*cfg, analysis_ok, note@));
    out
}

/// The checks of a skipped run: nothing to review means no findings.
pub open spec fn skip_statuses(cfg: ReviewConfig, skipped: Seq<char>, nothing: Seq<char>) -> Seq<
    StatusView,
> {
    if cfg.status_checks {
        terminal_statuses(cfg, true, skipped).push(
            StatusView {
                context: "hoverstare-findings"@,
                state: StatusState::Success,
                description: clipped(nothing),
            },
        )
    } else {
        Seq::empty()
    }
}

/// The checks of a skipped run. `skipped` and `nothing` are the two descriptions.
pub fn skip_checks(cfg: &ReviewConfig, skipped: &str, nothing: &str) -> (r: Vec<NewStatus>)
    ensures
        status_views(r@) == skip_statuses(*cfg, skipped@, nothing@),
{
    let mut out = post_terminal_status(cfg, true, skipped);
    if cfg.status_checks {
        let one = NewStatus {
            context: "hoverstare-findings".to_owned(),
            state: StatusState::Success,
            description: clip(nothing),
        };
        let ghost before = out@;
        out.push(one);
        assert(status_views(out@) =~= status_views(before).push(one@));
    }
    out
}

/// With status checks on, a skipped run settles both checks as a success.
pub proof fn law_skip_settles_both_checks(
    cfg: ReviewConfig,
    skipped: Seq<char>,
    nothing: Seq<char>,
)
    requires
        cfg.status_checks,
    ensures
        skip_statuses(cfg, skipped, nothing).len() == 2,
        forall|i: int|
            0 <= i < 2 ==> (#[trigger] skip_statuses(cfg, skipped, nothing)[i]).state
                == StatusState::Success,
{
}

/// The settings under which a preview is prepared: those of the run, but no check
/// is written.
pub open spec fn previewing(cfg: ReviewConfig) -> ReviewConfig {
    ReviewConfig { status_checks: false, ..cfg }
}

/// The settings under which a preview is prepared.
pub fn preview_config(cfg: &ReviewConfig) -> (r: ReviewConfig)
    ensures
        r == previewing(*cfg),
{
    ReviewConfig { status_checks: false, ..*cfg }
}

/// A preview only reports: even where there is nothing to review, it writes no
/// check.
pub proof fn law_preview_writes_no_checks(
    cfg: ReviewConfig,
    skipped: Seq<char>,
    nothing: Seq<char>,
)
    ensures
        skip_statuses(previewing(cfg), skipped, nothing).len() == 0,
{
}

/// An unresolved finding of an earlier run.
#[derive(Debug, Clone, PartialEq, Eq)]
pub struct OpenFinding {
    pub thread_id: String,
    pub fingerprints: Vec<String>,
    pub description: String,
    pub has_high_severity: bool,
    pub first_comment_id: Option<u64>,
}

/// What an open finding holds.
pub struct OpenView {
    pub thread_id: Seq<char>,
    pub fingerprints: Seq<Seq<char>>,
    pub description: Seq<char>,
    pub has_high_severity: bool,
    pub first_comment_id: Option<u64>,
}

impl View for OpenFinding {
    type V = OpenView;

    open spec fn view(&self) -> OpenView {
        OpenView {
            thread_id: self.thread_id@,
            fingerprints: text::views(self.fingerprints@),
            description: self.description@,
            has_high_severity: self.has_high_severity,
            first_comment_id: self.first_comment_id,
        }
    }
}

/// The contents of open findings.
pub open spec fn open_views(list: Seq<OpenFinding>) -> Seq<OpenView> {
    list.map_values(|f: OpenFinding| f@)
}

/// New findings of high severity.
pub open spec fn new_high(severities: Seq<Severity>) -> Seq<Severity> {
    severities.filter(|s: Severity| s.is_high())
}

/// Open findings of high severity whose thread is not among the resolved ones.
pub open spec fn open_high(open: Seq<OpenView>, resolved: Seq<Seq<char>>) -> Seq<OpenView> {
    open.filter(|f: OpenView| !resolved.contains(f.thread_id) && f.has_high_severity)
}

/// The two checks at the end of a published run.
pub open spec fn final_statuses(
    severities: Seq<Severity>,
    open: Seq<OpenView>,
    resolved: Seq<Seq<char>>,
    done: Seq<char>,
) -> Seq<StatusView> {
    let fresh = new_high(severities).len();
    let old_ones = open_high(open, resolved).len();
    seq![
        StatusView {
            context: "hoverstare"@,
            state: StatusState::Success,
            description: done,
        },
        StatusView {
            context: "hoverstare-findings"@,
            state: if fresh > 0 || old_ones > 0 {
                StatusState::Failure
            } else {
                StatusState::Success
            },
            description: if fresh > 0 || old_ones > 0 {
                "Unresolved high-severity findings (new: "@ + text::decimal(fresh) + ", open: "@
                    + text::decimal(old_ones) + ")"@
            } else {
                "No high-severity findings"@
            },
        },
    ]
}

/// The number of new findings of high severity.
fn count_new_high(severities: &[Severity]) -> (r: usize)
    ensures
        r == new_high(severities@).len(),
{
    let mut n: usize = 0;
    let mut i: usize = 0;
    proof {
        reveal(Seq::filter);
        assert(severities@.take(0) =~= Seq::empty());
    }
    while i < severities.len()
        invariant
            i <= severities@.len(),
            n == new_high(severities@.take(i as int)).len(),
            n <= i,
        decreases severities@.len() - i,
    {
        proof {
            reveal(Seq::filter);
            assert(severities@.take(i + 1).drop_last() =~= severities@.take(i as int));
        }
        if severities[i].at_least_high() {
            n = n + 1;
        }
        i = i + 1;
    }
    assert(severities@.take(i as int) =~= severities@);
    n
}

/// The number of open findings of high severity that stay open.
fn count_open_high(open: &[OpenFinding], resolved: &[String]) -> (r: usize)
    ensures
        r == open_high(open_views(open@), text::views(resolved@)).len(),
{
    let ghost all = open_views(open@);
    let ghost gone = text::views(resolved@);
    let mut n: usize = 0;
    let mut i: usize = 0;
    proof {
        reveal(Seq::filter);
        assert(all.take(0) =~= Seq::empty());
    }
    while i < open.len()
        invariant
            i <= open@.len(),
            all == open_views(open@),
            gone == text::views(resolved@),
            n == open_high(all.take(i as int), gone).len(),
            n <= i,
        decreases open@.len() - i,
    {
        proof {
            reveal(Seq::filter);
            assert(all.take(i + 1).drop_last() =~= all.take(i as int));
            assert(all.take(i + 1).last() == open@[i as int]@);
        }
        if open[i].has_high_severity && !text::has_name(resolved, open[i].thread_id.as_str()) {
            n = n + 1;
        }
        i = i + 1;
    }
    assert(all.take(i as int) =~= all);
    n
}

/// The two checks at the end of a published run. `done` describes the first.
pub fn post_status_checks(
    severities: &[Severity],
    open: &[OpenFinding],
    resolved_threads: &[String],
    done: &str,
) -> (r: Vec<NewStatus>)
    ensures
        status_views(r@) == final_statuses(
            severities@,
            open_views(open@),
            text::views(resolved_threads@),
            done@,
        ),
{
    let fresh = count_new_high(severities);
    let old_ones = count_open_high(open, resolved_threads);
    let mut out: Vec<NewStatus> = Vec::new();
    out.push(
        NewStatus {
            context: "hoverstare".to_owned(),
            state: StatusState::Success,
            description: done.to_owned(),
        },
    );
    if fresh > 0 || old_ones > 0 {
        let mut description = "Unresolved high-severity findings (new: ".to_owned();
        text::push_number(&mut description, fresh as u128);
        description.append(", open: ");
        text::push_number(&mut description, old_ones as u128);
        description.append(")");
        out.push(
            NewStatus {
                context: "hoverstare-findings".to_owned(),
                state: StatusState::Failure,
                description,
            },
        );
    } else {
        out.push(
            NewStatus {
                context: "hoverstare-findings".to_owned(),
                state: StatusState::Success,
                description: "No high-severity findings".to_owned(),
            },
        );
    }
    assert(status_views(out@) =~= final_statuses(
        severities@,
        open_views(open@),
        text::views(resolved_threads@),
        done@,
    ));
    out
}

/// The findings check fails if and only if a finding of high severity is new, or
/// is open and was not resolved by this run.
pub proof fn law_findings_check_is_honest(
    severities: Seq<Severity>,
    open: Seq<OpenView>,
    resolved: Seq<Seq<char>>,
    done: Seq<char>,
)
    ensures
        final_statuses(severities, open, resolved, done)[1].state == StatusState::Failure <==> (
        exists|i: int| 0 <= i < severities.len() && (#[trigger] severities[i]).is_high()) || (
        exists|i: int|
            0 <= i < open.len() && (#[trigger] open[i]).has_high_severity && !resolved.contains(
                open[i].thread_id,
            )),
{
    lemma_filter_nonempty(severities, |s: Severity| s.is_high());
    lemma_filter_nonempty(
        open,
        |f: OpenView| !resolved.contains(f.thread_id) && f.has_high_severity,
    );
    let high = |s: Severity| s.is_high();
    let stays = |f: OpenView| !resolved.contains(f.thread_id) && f.has_high_severity;
    if new_high(severities).len() > 0 {
        let i = choose|i: int| 0 <= i < severities.len() && high(#[trigger] severities[i]);
        assert(severities[i].is_high());
    }
    if exists|i: int| 0 <= i < severities.len() && (#[trigger] severities[i]).is_high() {
        let i = choose|i: int| 0 <= i < severities.len() && (#[trigger] severities[i]).is_high();
        assert(high(severities[i]));
    }
    if open_high(open, resolved).len() > 0 {
        let i = choose|i: int| 0 <= i < open.len() && stays(#[trigger] open[i]);
        assert(open[i].has_high_severity);
    }
    if exists|i: int|
        0 <= i < open.len() && (#[trigger] open[i]).has_high_severity && !resolved.contains(
            open[i].thread_id,
        ) {
        let i = choose|i: int|
            0 <= i < open.len() && (#[trigger] open[i]).has_high_severity && !resolved.contains(
                open[i].thread_id,
            );
        assert(stays(open[i]));
    }
}

/// A filter keeps something if and only if something passes.
proof fn lemma_filter_nonempty<A>(list: Seq<A>, pred: spec_fn(A) -> bool)
    ensures
        list.filter(pred).len() > 0 <==> exists|i: int| 0 <= i < list.len() && pred(
            #[trigger] list[i],
        ),
    decreases list.len(),
{
    reveal(Seq::filter);
    if list.len() > 0 {
        let front = list.drop_last();
        lemma_filter_nonempty(front, pred);
        if exists|i: int| 0 <= i < list.len() && pred(#[trigger] list[i]) {
            let i = choose|i: int| 0 <= i < list.len() && pred(#[trigger] list[i]);
            if i < front.len() {
                assert(pred(front[i]));
            }
        }
        if list.filter(pred).len() > 0 {
            if pred(list.last()) {
                assert(pred(list[list.len() - 1]));
            } else {
                let i = choose|i: int| 0 <= i < front.len() && pred(#[trigger] front[i]);
                assert(pred(list[i]));
            }
        }
    }
}

// ---------------------------------------------------------------------------
// Threads
// ---------------------------------------------------------------------------

/// A review thread, with what the markers of its first comment say.
#[derive(Debug, Clone, PartialEq, Eq)]
pub struct ReviewThread {
    pub id: String,
    pub is_resolved: bool,
    pub first_comment_body: String,
    pub first_comment_id: Option<u64>,
    pub fingerprints: Vec<String>,
    pub description: String,
}

/// What a thread holds.
pub struct ThreadView {
    pub id: Seq<char>,
    pub is_resolved: bool,
    pub first_comment_body: Seq<char>,
    pub first_comment_id: Option<u64>,
    pub fingerprints: Seq<Seq<char>>,
    pub description: Seq<char>,
}

impl View for ReviewThread {
    type V = ThreadView;

    open spec fn view(&self) -> ThreadView {
        ThreadView {
            id: self.id@,
            is_resolved: self.is_resolved,
            first_comment_body: self.first_comment_body@,
            first_comment_id: self.first_comment_id,
            fingerprints: text::views(self.fingerprints@),
            description: self.description@,
        }
    }
}

/// The contents of threads.
pub open spec fn thread_views(list: Seq<ReviewThread>) -> Seq<ThreadView> {
    list.map_values(|t: ReviewThread| t@)
}

/// Whether a comment carries one of the two marks of high severity.
pub open spec fn has_high_mark(body: Seq<char>) -> bool {
    body.contains('🔴') || body.contains('🟠')
}

/// The open finding of a thread.
pub open spec fn finding_of(t: ThreadView) -> OpenView {
    OpenView {
        thread_id: t.id,
        fingerprints: t.fingerprints,
        description: t.description,
        has_high_severity: has_high_mark(t.first_comment_body),
        first_comment_id: t.first_comment_id,
    }
}

/// The open findings of threads: those that are unresolved and carry a
/// fingerprint. A thread without one is somebody else's.
pub open spec fn findings_in(threads: Seq<ThreadView>) -> Seq<OpenView>
    decreases threads.len(),
{
    if threads.len() == 0 {
        Seq::empty()
    } else {
        let done = findings_in(threads.drop_last());
        let t = threads.last();
        if t.is_resolved || t.fingerprints.len() == 0 {
            done
        } else {
            done.push(finding_of(t))
        }
    }
}

/// Whether a comment carries a mark of high severity.
fn marked_high(body: &str) -> (r: bool)
    ensures
        r == has_high_mark(body@),
{
    let chars = text::chars_of(body);
    let mut i: usize = 0;
    while i < chars.len()
        invariant
            i <= chars@.len(),
            chars@ == body@,
            forall|k: int| 0 <= k < i ==> body@[k] != '🔴' && body@[k] != '🟠',
        decreases chars@.len() - i,
    {
        if chars[i] == '🔴' || chars[i] == '🟠' {
            assert(body@.contains(body@[i as int]));
            return true;
        }
        i = i + 1;
    }
    false
}

/// The unresolved findings of earlier runs, from the review threads.
pub fn fetch_open_findings(threads: &[ReviewThread]) -> (r: Vec<OpenFinding>)
    ensures
        open_views(r@) == findings_in(thread_views(threads@)),
{
    let ghost all = thread_views(threads@);
    let mut out: Vec<OpenFinding> = Vec::new();
    let mut i: usize = 0;
    assert(all.take(0) =~= Seq::empty());
    assert(open_views(out@) =~= findings_in(all.take(0)));
    while i < threads.len()
        invariant
            i <= threads@.len(),
            all == thread_views(threads@),
            open_views(out@) == findings_in(all.take(i as int)),
        decreases threads@.len() - i,
    {
        let t = &threads[i];
        proof {
            assert(all.take(i + 1).drop_last() =~= all.take(i as int));
            assert(all.take(i + 1).last() == t@);
        }
        if !t.is_resolved && t.fingerprints.len() > 0 {
            let ghost before = out@;
            let one = OpenFinding {
                thread_id: t.id.clone(),
                fingerprints: text::copy_strings(&t.fingerprints),
                description: t.description.clone(),
                has_high_severity: marked_high(t.first_comment_body.as_str()),
                first_comment_id: t.first_comment_id,
            };
            out.push(one);
            assert(open_views(out@) =~= open_views(before).push(one@));
        }
        i = i + 1;
    }
    assert(all.take(i as int) =~= all);
    out
}

/// What became of a thread.
#[derive(Debug, Clone, Copy, PartialEq, Eq, Structural)]
pub enum ResolveOutcome {
    Resolved,
    Replied,
    Failed,
}

/// What follows the attempt to resolve a thread.
#[derive(Debug, Clone, Copy, PartialEq, Eq, Structural)]
pub enum ResolveStep {
    Done(ResolveOutcome),
    /// Reply to the comment instead.
    Reply(u64),
}

/// After the attempt to resolve a thread: where the platform refuses it, an
/// in-thread reply takes its place, if there is a comment to reply to.
pub fn resolve_or_reply(resolved: bool, comment_id: Option<u64>) -> (r: ResolveStep)
    ensures
        r == (if resolved {
            ResolveStep::Done(ResolveOutcome::Resolved)
        } else {
            match comment_id {
                Some(id) => ResolveStep::Reply(id),
                None => ResolveStep::Done(ResolveOutcome::Failed),
            }
        }),
{
    if resolved {
        return ResolveStep::Done(ResolveOutcome::Resolved);
    }
    match comment_id {
        Some(id) => ResolveStep::Reply(id),
        None => ResolveStep::Done(ResolveOutcome::Failed),
    }
}

/// After the reply that stands in for resolving a thread.
pub fn after_reply(replied: bool) -> (r: ResolveOutcome)
    ensures
        r == (if replied {
            ResolveOutcome::Replied
        } else {
            ResolveOutcome::Failed
        }),
{
    if replied {
        ResolveOutcome::Replied
    } else {
        ResolveOutcome::Failed
    }
}

/// The comment under which a thread began.
pub open spec fn comment_in(open: Seq<OpenView>, thread: Seq<char>) -> Option<u64>
    decreases open.len(),
{
    if open.len() == 0 {
        None
    } else if open[0].thread_id == thread {
        open[0].first_comment_id
    } else {
        comment_in(open.drop_first(), thread)
    }
}

/// The comment under which a thread began.
pub fn comment_of(open: &[OpenFinding], thread: &str) -> (r: Option<u64>)
    ensures
        r == comment_in(open_views(open@), thread@),
{
    let ghost all = open_views(open@);
    let mut i: usize = 0;
    assert(all.skip(0) =~= all);
    while i < open.len()
        invariant
            i <= open@.len(),
            all == open_views(open@),
            comment_in(all, thread@) == comment_in(all.skip(i as int), thread@),
        decreases open@.len() - i,
    {
        assert(all.skip(i as int)[0] == open@[i as int]@);
        assert(all.skip(i as int).drop_first() =~= all.skip(i + 1));
        if text::same(open[i].thread_id.as_str(), thread) {
            return open[i].first_comment_id;
        }
        i = i + 1;
    }
    None
}

// ---------------------------------------------------------------------------
// Preparation
// ---------------------------------------------------------------------------

/// What a run needs to know of a pull request.
#[derive(Debug, Clone, PartialEq, Eq)]
pub struct PullRequest {
    pub draft: bool,
    pub author: String,
    pub head_sha: String,
    pub base_ref: String,
}

/// What a pull request holds.
#[verifier::ext_equal]
pub struct PullView {
    pub draft: bool,
    pub author: Seq<char>,
    pub head_sha: Seq<char>,
    pub base_ref: Seq<char>,
}

impl View for PullRequest {
    type V = PullView;

    open spec fn view(&self) -> PullView {
        PullView {
            draft: self.draft,
            author: self.author@,
            head_sha: self.head_sha@,
            base_ref: self.base_ref@,
        }
    }
}

/// Everything the preparation resolved: the change set, the selection and the
/// ledger it froze.
#[derive(Debug, Clone)]
pub struct ReviewInputs {
    pub pr: PullRequest,
    pub prior_sha: Option<String>,
    pub incremental: bool,
    /// The selected text of the full diff, used for anchoring.
    pub anchor_text: String,
    pub analysis_text: String,
    pub truncated_files: Vec<String>,
    pub excluded_files: usize,
    pub analysis_selection: Selection,
    pub coverage: CoverageLedger,
}

/// What prepared inputs hold.
#[verifier::ext_equal]
pub struct InputsView {
    pub pr: PullView,
    pub prior_sha: Option<Seq<char>>,
    pub incremental: bool,
    pub anchor_text: Seq<char>,
    pub analysis_text: Seq<char>,
    pub truncated_files: Seq<Seq<char>>,
    pub excluded_files: int,
    pub analysis_selection: units::SelectionView,
    pub coverage: Seq<ledger::Entry>,
}

impl View for ReviewInputs {
    type V = InputsView;

    open spec fn view(&self) -> InputsView {
        InputsView {
            pr: self.pr@,
            prior_sha: text::opt_view(self.prior_sha),
            incremental: self.incremental,
            anchor_text: self.anchor_text@,
            analysis_text: self.analysis_text@,
            truncated_files: text::views(self.truncated_files@),
            excluded_files: self.excluded_files as int,
            analysis_selection: self.analysis_selection@,
            coverage: self.coverage@,
        }
    }
}

/// Result of the preparation: ready to dispatch, or already over.
#[derive(Debug, Clone)]
pub enum Prep {
    Ready(Box<ReviewInputs>),
    Done(Outcome),
}

/// What a preparation holds.
pub enum PrepView {
    Ready(InputsView),
    Done(OutcomeView),
}

impl View for Prep {
    type V = PrepView;

    open spec fn view(&self) -> PrepView {
        match self {
            Prep::Ready(inputs) => PrepView::Ready((**inputs)@),
            Prep::Done(outcome) => PrepView::Done(outcome@),
        }
    }
}

/// What the preparation waits for.
#[derive(Debug)]
pub enum PrepPhase {
    Pull,
    Permission { pr: PullRequest },
    Reviews { pr: PullRequest },
    Diff { pr: PullRequest, prior_sha: Option<String>, incremental: bool },
    Delta { pr: PullRequest, prior_sha: Option<String>, anchor_text: String },
    Done,
}

/// What a phase holds.
#[verifier::ext_equal]
pub enum PrepPhaseView {
    Pull,
    Permission { pr: PullView },
    Reviews { pr: PullView },
    Diff { pr: PullView, prior_sha: Option<Seq<char>>, incremental: bool },
    Delta { pr: PullView, prior_sha: Option<Seq<char>>, anchor_text: Seq<char> },
    Done,
}

impl View for PrepPhase {
    type V = PrepPhaseView;

    open spec fn view(&self) -> PrepPhaseView {
        match self {
            PrepPhase::Pull => PrepPhaseView::Pull,
            PrepPhase::Permission { pr } => PrepPhaseView::Permission { pr: pr@ },
            PrepPhase::Reviews { pr } => PrepPhaseView::Reviews { pr: pr@ },
            PrepPhase::Diff { pr, prior_sha, incremental } => PrepPhaseView::Diff {
                pr: pr@,
                prior_sha: text::opt_view(*prior_sha),
                incremental: *incremental,
            },
            PrepPhase::Delta { pr, prior_sha, anchor_text } => PrepPhaseView::Delta {
                pr: pr@,
                prior_sha: text::opt_view(*prior_sha),
                anchor_text: anchor_text@,
            },
            PrepPhase::Done => PrepPhaseView::Done,
        }
    }
}

/// What the driver of the preparation is asked to do.
#[derive(Debug)]
pub enum PrepStep {
    FetchPull,
    /// Ask whether the author may have an automatic review.
    AskPermission,
    /// List the earlier reviews and the head revision that each records.
    ListReviews,
    FetchDiff,
    /// Fetch the changes from one revision to another.
    FetchDelta { prior: String, head: String },
    /// Write the checks of a skipped run, and end it with this reason.
    Skip { reason: String },
    /// Write the checks; the preparation is over.
    Over { statuses: Vec<NewStatus>, result: Result<Prep, String> },
}

/// What a step holds.
pub enum PrepStepView {
    FetchPull,
    AskPermission,
    ListReviews,
    FetchDiff,
    FetchDelta { prior: Seq<char>, head: Seq<char> },
    Skip { reason: Seq<char> },
    Over { statuses: Seq<StatusView>, result: Result<PrepView, Seq<char>> },
}

/// What the end of a preparation holds.
pub open spec fn over_view(result: Result<Prep, String>) -> Result<PrepView, Seq<char>> {
    match result {
        Ok(prep) => Ok(prep@),
        Err(message) => Err(message@),
    }
}

impl View for PrepStep {
    type V = PrepStepView;

    open spec fn view(&self) -> PrepStepView {
        match self {
            PrepStep::FetchPull => PrepStepView::FetchPull,
            PrepStep::AskPermission => PrepStepView::AskPermission,
            PrepStep::ListReviews => PrepStepView::ListReviews,
            PrepStep::FetchDiff => PrepStepView::FetchDiff,
            PrepStep::FetchDelta { prior, head } => PrepStepView::FetchDelta {
                prior: prior@,
                head: head@,
            },
            PrepStep::Skip { reason } => PrepStepView::Skip { reason: reason@ },
            PrepStep::Over { statuses, result } => PrepStepView::Over {
                statuses: status_views(statuses@),
                result: over_view(*result),
            },
        }
    }
}

/// What the platform answered.
#[derive(Debug)]
pub enum PrepEvent {
    Pull(Result<PullRequest, String>),
    Permission(bool),
    /// The head revision that each earlier review records, oldest first; nothing
    /// where the reviews could not be listed.
    Reviews(Option<Vec<Option<String>>>),
    Diff(Result<String, String>),
    Delta(Result<String, String>),
}

/// What an answer holds.
pub enum PrepEventView {
    Pull(Result<PullView, Seq<char>>),
    Permission(bool),
    Reviews(Option<Seq<Option<Seq<char>>>>),
    Diff(Result<Seq<char>, Seq<char>>),
    Delta(Result<Seq<char>, Seq<char>>),
}

/// The contents of optional strings.
pub open spec fn opt_views(list: Seq<Option<String>>) -> Seq<Option<Seq<char>>> {
    list.map_values(|s: Option<String>| text::opt_view(s))
}

/// What a text or an error holds.
pub open spec fn text_result(result: Result<String, String>) -> Result<Seq<char>, Seq<char>> {
    match result {
        Ok(s) => Ok(s@),
        Err(e) => Err(e@),
    }
}

impl View for PrepEvent {
    type V = PrepEventView;

    open spec fn view(&self) -> PrepEventView {
        match self {
            PrepEvent::Pull(Ok(pr)) => PrepEventView::Pull(Ok(pr@)),
            PrepEvent::Pull(Err(e)) => PrepEventView::Pull(Err(e@)),
            PrepEvent::Permission(granted) => PrepEventView::Permission(*granted),
            PrepEvent::Reviews(Some(list)) => PrepEventView::Reviews(Some(opt_views(list@))),
            PrepEvent::Reviews(None) => PrepEventView::Reviews(None),
            PrepEvent::Diff(result) => PrepEventView::Diff(text_result(*result)),
            PrepEvent::Delta(result) => PrepEventView::Delta(text_result(*result)),
        }
    }
}

// --- transitions -----------------------------------------------------------

/// The end of a preparation that skips the run.
pub open spec fn skipped(reason: Seq<char>) -> (PrepPhaseView, PrepStepView) {
    (PrepPhaseView::Done, PrepStepView::Skip { reason })
}

/// The end of a preparation by a failure of the platform. Where the head of the
/// pull request is known, its check says what happened.
pub open spec fn prep_failed(cfg: ReviewConfig, head_known: bool, message: Seq<char>) -> (
    PrepPhaseView,
    PrepStepView,
) {
    (
        PrepPhaseView::Done,
        PrepStepView::Over {
            statuses: if head_known {
                terminal_statuses(cfg, false, message)
            } else {
                Seq::empty()
            },
            result: match funneled(cfg.fail_closed, message) {
                Ok(outcome) => Ok(PrepView::Done(outcome)),
                Err(message) => Err(message),
            },
        },
    )
}

/// Inputs for a dispatch: the ledger is frozen from the units of the selection.
pub open spec fn inputs_for(
    pr: PullView,
    prior_sha: Option<Seq<char>>,
    incremental: bool,
    anchor_text: Seq<char>,
    selection: units::SelectionView,
) -> InputsView {
    InputsView {
        pr,
        prior_sha,
        incremental,
        anchor_text,
        analysis_text: selection.text,
        truncated_files: units::dropped_paths(selection.excluded),
        excluded_files: units::gated_out(selection.excluded).len() as int,
        analysis_selection: selection,
        coverage: ledger::pending(
            ledger::distinct(selection.units.map_values(|u: units::UnitView| u.unit_id)),
        ),
    }
}

/// The end of a preparation that found something to review.
pub open spec fn prepared(inputs: InputsView) -> (PrepPhaseView, PrepStepView) {
    (
        PrepPhaseView::Done,
        PrepStepView::Over { statuses: Seq::empty(), result: Ok(PrepView::Ready(inputs)) },
    )
}

/// After the pull request: drafts and bots are skipped; an automatic review needs
/// a permission, an explicit one has it.
pub open spec fn after_pull(
    cfg: ReviewConfig,
    force_full: bool,
    pull: Result<PullView, Seq<char>>,
) -> (PrepPhaseView, PrepStepView) {
    match pull {
        Err(e) => prep_failed(cfg, false, "failed to fetch PR: "@ + e),
        Ok(pr) => if pr.draft && !cfg.review_drafts {
            skipped("draft PR"@)
        } else if text::ends(pr.author, "[bot]"@) {
            skipped("bot author: "@ + pr.author)
        } else if force_full {
            (PrepPhaseView::Reviews { pr }, PrepStepView::ListReviews)
        } else {
            (PrepPhaseView::Permission { pr }, PrepStepView::AskPermission)
        },
    }
}

/// After the permission.
pub open spec fn after_permission(pr: PullView, granted: bool) -> (PrepPhaseView, PrepStepView) {
    if granted {
        (PrepPhaseView::Reviews { pr }, PrepStepView::ListReviews)
    } else {
        skipped("auto-review permission denied"@)
    }
}

/// The latest revision that a review records.
pub open spec fn latest(shas: Seq<Option<Seq<char>>>) -> Option<Seq<char>>
    decreases shas.len(),
{
    if shas.len() == 0 {
        None
    } else {
        match shas.last() {
            Some(sha) => Some(sha),
            None => latest(shas.drop_last()),
        }
    }
}

/// Whether only what changed since the last review is analyzed.
pub open spec fn is_incremental(prior_sha: Option<Seq<char>>, head: Seq<char>, force_full: bool) -> bool {
    !force_full && prior_sha is Some && prior_sha->0 != head
}

/// After the earlier reviews; without them the review is a full one.
pub open spec fn after_reviews(
    pr: PullView,
    force_full: bool,
    shas: Option<Seq<Option<Seq<char>>>>,
) -> (PrepPhaseView, PrepStepView) {
    let prior_sha = match shas {
        Some(list) => latest(list),
        None => None,
    };
    (
        PrepPhaseView::Diff {
            pr,
            prior_sha,
            incremental: is_incremental(prior_sha, pr.head_sha, force_full),
        },
        PrepStepView::FetchDiff,
    )
}

/// Whether a text is empty or white space.
pub open spec fn blank(s: Seq<char>) -> bool {
    text::trimmed(s).len() == 0
}

/// What the settings of a run select of a diff.
pub open spec fn chosen(cfg: ReviewConfig, ignored: Set<Seq<char>>, d: Seq<char>) -> units::SelectionView {
    groups::regrouped(
        units::selected(
            d,
            units::Gates { ignored, strict: cfg.select_strict },
            Some(cfg.max_diff_kb as nat),
        ),
        cfg.group_units,
    )
}

/// The selection that the settings of a run ask for.
fn choose_units(cfg: &ReviewConfig, ignore: &GlobSet, d: &str) -> (r: Selection)
    ensures
        r@ == chosen(*cfg, glob::matched_paths(*ignore), d@),
{
    let options = SelectOptions::new(ignore, cfg.max_diff_kb).strict(
        cfg.select_strict,
    ).group_units(cfg.group_units);
    units::select_with(d, &options)
}

/// After the full diff: it is selected once, for anchoring and, in a full review,
/// for the analysis.
pub open spec fn after_diff(
    cfg: ReviewConfig,
    ignored: Set<Seq<char>>,
    pr: PullView,
    prior_sha: Option<Seq<char>>,
    incremental: bool,
    diff: Result<Seq<char>, Seq<char>>,
) -> (PrepPhaseView, PrepStepView) {
    match diff {
        Err(e) => prep_failed(cfg, true, "failed to fetch diff: "@ + e),
        Ok(d) => if blank(d) {
            skipped("empty diff"@)
        } else {
            let full = chosen(cfg, ignored, d);
            if incremental {
                (
                    PrepPhaseView::Delta { pr, prior_sha, anchor_text: full.text },
                    PrepStepView::FetchDelta {
                        prior: match prior_sha {
                            Some(prior) => prior,
                            None => Seq::empty(),
                        },
                        head: pr.head_sha,
                    },
                )
            } else {
                prepared(inputs_for(pr, prior_sha, false, full.text, full))
            }
        },
    }
}

/// After the changes since the last review.
pub open spec fn after_delta(
    cfg: ReviewConfig,
    ignored: Set<Seq<char>>,
    pr: PullView,
    prior_sha: Option<Seq<char>>,
    anchor_text: Seq<char>,
    delta: Result<Seq<char>, Seq<char>>,
) -> (PrepPhaseView, PrepStepView) {
    match delta {
        Err(e) => prep_failed(cfg, true, "failed to fetch incremental diff: "@ + e),
        Ok(d) => if blank(d) {
            skipped("no new changes since the last review"@)
        } else {
            prepared(
                inputs_for(
                    pr,
                    prior_sha,
                    true,
                    anchor_text,
                    chosen(cfg, ignored, d),
                ),
            )
        },
    }
}

/// The next phase and step of the preparation.
pub open spec fn prep_stepped(
    cfg: ReviewConfig,
    ignored: Set<Seq<char>>,
    force_full: bool,
    phase: PrepPhaseView,
    event: PrepEventView,
) -> (PrepPhaseView, PrepStepView) {
    match (phase, event) {
        (PrepPhaseView::Pull, PrepEventView::Pull(pull)) => after_pull(cfg, force_full, pull),
        (
            PrepPhaseView::Permission { pr },
            PrepEventView::Permission(granted),
        ) => after_permission(pr, granted),
        (PrepPhaseView::Reviews { pr }, PrepEventView::Reviews(shas)) => after_reviews(
            pr,
            force_full,
            shas,
        ),
        (
            PrepPhaseView::Diff { pr, prior_sha, incremental },
            PrepEventView::Diff(diff),
        ) => after_diff(cfg, ignored, pr, prior_sha, incremental, diff),
        (
            PrepPhaseView::Delta { pr, prior_sha, anchor_text },
            PrepEventView::Delta(delta),
        ) => after_delta(cfg, ignored, pr, prior_sha, anchor_text, delta),
        _ => prep_failed(cfg, false, Seq::empty()),
    }
}

/// Whether an answer is what the preparation waits for.
pub open spec fn prep_expected(phase: PrepPhaseView, event: PrepEventView) -> bool {
    match phase {
        PrepPhaseView::Pull => event is Pull,
        PrepPhaseView::Permission { .. } => event is Permission,
        PrepPhaseView::Reviews { .. } => event is Reviews,
        PrepPhaseView::Diff { .. } => event is Diff,
        PrepPhaseView::Delta { .. } => event is Delta,
        PrepPhaseView::Done => false,
    }
}

// --- execution -------------------------------------------------------------

/// The end of a preparation that skips the run.
fn skip(reason: &str) -> (r: (PrepPhase, PrepStep))
    ensures
        (r.0@, r.1@) == skipped(reason@),
{
    (PrepPhase::Done, PrepStep::Skip { reason: reason.to_owned() })
}

/// The end of a preparation by a failure of the platform.
fn fail_prep(cfg: &ReviewConfig, head_known: bool, what: &str, error: &str) -> (r: (
    PrepPhase,
    PrepStep,
))
    ensures
        (r.0@, r.1@) == prep_failed(*cfg, head_known, what@ + error@),
{
    let mut message = what.to_owned();
    message.append(error);
    let statuses: Vec<NewStatus> = if head_known {
        post_terminal_status(cfg, false, message.as_str())
    } else {
        Vec::new()
    };
    proof {
        if !head_known {
            assert(status_views(statuses@) =~= Seq::empty());
        }
    }
    let result: Result<Prep, String> = match fail_or_open(cfg.fail_closed, message) {
        Ok(outcome) => Ok(Prep::Done(outcome)),
        Err(message) => Err(message),
    };
    (PrepPhase::Done, PrepStep::Over { statuses, result })
}

/// The end of a preparation that found something to review.
fn ready(
    pr: PullRequest,
    prior_sha: Option<String>,
    incremental: bool,
    anchor_text: String,
    selection: Selection,
) -> (r: (PrepPhase, PrepStep))
    ensures
        (r.0@, r.1@) == prepared(
            inputs_for(
                pr@,
                text::opt_view(prior_sha),
                incremental,
                anchor_text@,
                selection@,
            ),
        ),
{
    let truncated_files = selection.oversized_dropped();
    let excluded_files = selection.path_gate_excluded_count();
    // The denominator is frozen now, before anything is dispatched.
    let coverage = CoverageLedger::freeze(&selection.units);
    proof {
        assert(ledger::unit_ids(selection.units@) =~= selection@.units.map_values(
            |u: units::UnitView| u.unit_id,
        ));
    }
    let analysis_text = selection.text.clone();
    let inputs = ReviewInputs {
        pr,
        prior_sha,
        incremental,
        anchor_text,
        analysis_text,
        truncated_files,
        excluded_files,
        analysis_selection: selection,
        coverage,
    };
    let statuses: Vec<NewStatus> = Vec::new();
    assert(status_views(statuses@) =~= Seq::empty());
    (PrepPhase::Done, PrepStep::Over { statuses, result: Ok(Prep::Ready(Box::new(inputs))) })
}

/// The latest revision that a review records.
pub fn latest_sha(shas: &[Option<String>]) -> (r: Option<String>)
    ensures
        text::opt_view(r) == latest(opt_views(shas@)),
{
    let ghost all = opt_views(shas@);
    let mut n: usize = shas.len();
    assert(all.take(n as int) =~= all);
    while n > 0
        invariant
            n <= shas@.len(),
            all == opt_views(shas@),
            latest(all) == latest(all.take(n as int)),
        decreases n,
    {
        assert(all.take(n as int).last() == text::opt_view(shas@[n - 1]));
        assert(all.take(n as int).drop_last() =~= all.take(n - 1));
        if let Some(sha) = &shas[n - 1] {
            return Some(sha.clone());
        }
        n = n - 1;
    }
    None
}

fn on_pull(cfg: &ReviewConfig, force_full: bool, pull: Result<PullRequest, String>) -> (r: (
    PrepPhase,
    PrepStep,
))
    ensures
        (r.0@, r.1@) == after_pull(
            *cfg,
            force_full,
            match pull {
                Ok(pr) => Ok(pr@),
                Err(e) => Err(e@),
            },
        ),
{
    let pr = match pull {
        Ok(pr) => pr,
        Err(e) => {
            return fail_prep(cfg, false, "failed to fetch PR: ", e.as_str());
        },
    };
    if pr.draft && !cfg.review_drafts {
        return skip("draft PR");
    }
    let author = text::chars_of(pr.author.as_str());
    let bot = text::chars_of("[bot]");
    if text::ends_with(&author, &bot) {
        let mut reason = "bot author: ".to_owned();
        reason.append(pr.author.as_str());
        return skip(reason.as_str());
    }
    if force_full {
        (PrepPhase::Reviews { pr }, PrepStep::ListReviews)
    } else {
        (PrepPhase::Permission { pr }, PrepStep::AskPermission)
    }
}

fn on_reviews(pr: PullRequest, force_full: bool, shas: Option<Vec<Option<String>>>) -> (r: (
    PrepPhase,
    PrepStep,
))
    ensures
        (r.0@, r.1@) == after_reviews(
            pr@,
            force_full,
            match shas {
                Some(list) => Some(opt_views(list@)),
                None => None,
            },
        ),
{
    let prior_sha: Option<String> = match shas {
        Some(list) => latest_sha(&list),
        None => None,
    };
    let changed: bool = match &prior_sha {
        Some(prior) => !text::same(prior.as_str(), pr.head_sha.as_str()),
        None => false,
    };
    let incremental = !force_full && changed;
    (PrepPhase::Diff { pr, prior_sha, incremental }, PrepStep::FetchDiff)
}

fn on_diff(
    cfg: &ReviewConfig,
    ignore: &GlobSet,
    pr: PullRequest,
    prior_sha: Option<String>,
    incremental: bool,
    diff: Result<String, String>,
) -> (r: (PrepPhase, PrepStep))
    ensures
        (r.0@, r.1@) == after_diff(
            *cfg,
            glob::matched_paths(*ignore),
            pr@,
            text::opt_view(prior_sha),
            incremental,
            text_result(diff),
        ),
{
    let full_diff = match diff {
        Ok(d) => d,
        Err(e) => {
            return fail_prep(cfg, true, "failed to fetch diff: ", e.as_str());
        },
    };
    if text::is_blank(full_diff.as_str()) {
        return skip("empty diff");
    }
    let full = choose_units(cfg, ignore, full_diff.as_str());
    if incremental {
        let prior: String = match &prior_sha {
            Some(prior) => prior.clone(),
            None => String::new(),
        };
        let head = pr.head_sha.clone();
        return (
            PrepPhase::Delta { pr, prior_sha, anchor_text: full.text },
            PrepStep::FetchDelta { prior, head },
        );
    }
    let anchor_text = full.text.clone();
    ready(pr, prior_sha, false, anchor_text, full)
}

fn on_delta(
    cfg: &ReviewConfig,
    ignore: &GlobSet,
    pr: PullRequest,
    prior_sha: Option<String>,
    anchor_text: String,
    delta: Result<String, String>,
) -> (r: (PrepPhase, PrepStep))
    ensures
        (r.0@, r.1@) == after_delta(
            *cfg,
            glob::matched_paths(*ignore),
            pr@,
            text::opt_view(prior_sha),
            anchor_text@,
            text_result(delta),
        ),
{
    let changes = match delta {
        Ok(d) => d,
        Err(e) => {
            return fail_prep(cfg, true, "failed to fetch incremental diff: ", e.as_str());
        },
    };
    if text::is_blank(changes.as_str()) {
        return skip("no new changes since the last review");
    }
    let selection = choose_units(cfg, ignore, changes.as_str());
    ready(pr, prior_sha, true, anchor_text, selection)
}

/// Start a preparation.
pub fn prepare_inputs() -> (r: (PrepPhase, PrepStep))
    ensures
        r.0@ is Pull,
        r.1@ is FetchPull,
{
    (PrepPhase::Pull, PrepStep::FetchPull)
}

/// Take in an answer of the platform, and decide what is next. `force_full` asks
/// for a full review that was already permitted.
pub fn prepare_step(
    cfg: &ReviewConfig,
    ignore: &GlobSet,
    force_full: bool,
    phase: PrepPhase,
    event: PrepEvent,
) -> (r: (PrepPhase, PrepStep))
    requires
        prep_expected(phase@, event@),
    ensures
        (r.0@, r.1@) == prep_stepped(
            *cfg,
            glob::matched_paths(*ignore),
            force_full,
            phase@,
            event@,
        ),
{
    match (phase, event) {
        (PrepPhase::Pull, PrepEvent::Pull(pull)) => on_pull(cfg, force_full, pull),
        (PrepPhase::Permission { pr }, PrepEvent::Permission(granted)) => if granted {
            (PrepPhase::Reviews { pr }, PrepStep::ListReviews)
        } else {
            skip("auto-review permission denied")
        },
        (PrepPhase::Reviews { pr }, PrepEvent::Reviews(shas)) => on_reviews(pr, force_full, shas),
        (PrepPhase::Diff { pr, prior_sha, incremental }, PrepEvent::Diff(diff)) => on_diff(
            cfg,
            ignore,
            pr,
            prior_sha,
            incremental,
            diff,
        ),
        (PrepPhase::Delta { pr, prior_sha, anchor_text }, PrepEvent::Delta(delta)) => on_delta(
            cfg,
            ignore,
            pr,
            prior_sha,
            anchor_text,
            delta,
        ),
        _ => {
            assert(false);
            skip("")
        },
    }
}

// --- laws ------------------------------------------------------------------

/// A failure of the platform never fails the command unless failures are fatal.
pub proof fn law_failures_are_open_by_default(
    cfg: ReviewConfig,
    ignored: Set<Seq<char>>,
    force_full: bool,
    phase: PrepPhaseView,
    event: PrepEventView,
)
    requires
        prep_expected(phase, event),
        !cfg.fail_closed,
    ensures
        !(prep_stepped(cfg, ignored, force_full, phase, event).1 matches PrepStepView::Over {
            result,
            ..
        } && result is Err),
{
}

/// With status checks on, a preparation that fails settles the check of the run as
/// soon as the pull request is known.
pub proof fn law_failed_preparation_settles_the_check(
    cfg: ReviewConfig,
    ignored: Set<Seq<char>>,
    force_full: bool,
    phase: PrepPhaseView,
    event: PrepEventView,
)
    requires
        prep_expected(phase, event),
        cfg.status_checks,
        phase !is Pull,
    ensures
        prep_stepped(cfg, ignored, force_full, phase, event).1 matches PrepStepView::Over {
            statuses,
            result,
        } ==> (result matches Ok(PrepView::Ready(_)) || settles(statuses)),
{
}

/// A step without its checks.
pub open spec fn unchecked(step: PrepStepView) -> PrepStepView {
    match step {
        PrepStepView::Over { result, .. } => PrepStepView::Over { statuses: Seq::empty(), result },
        _ => step,
    }
}

/// A preview and a run prepare the same: whatever the platform answers, a preview
/// goes through the same phases and ends with the same inputs. It only writes no
/// check.
pub proof fn law_preview_prepares_what_a_run_does(
    cfg: ReviewConfig,
    ignored: Set<Seq<char>>,
    force_full: bool,
    phase: PrepPhaseView,
    event: PrepEventView,
)
    ensures
        prep_stepped(previewing(cfg), ignored, force_full, phase, event).0 == prep_stepped(
            cfg,
            ignored,
            force_full,
            phase,
            event,
        ).0,
        prep_stepped(previewing(cfg), ignored, force_full, phase, event).1 == unchecked(
            prep_stepped(cfg, ignored, force_full, phase, event).1,
        ),
{
}

/// The latest review that records a revision decides, not the latest review.
pub proof fn law_latest_recorded_revision_wins(shas: Seq<Option<Seq<char>>>)
    ensures
        match latest(shas) {
            Some(sha) => exists|i: int|
                0 <= i < shas.len() && #[trigger] shas[i] == Some(sha) && forall|j: int|
                    i < j < shas.len() ==> (#[trigger] shas[j]) is None,
            None => forall|j: int| 0 <= j < shas.len() ==> (#[trigger] shas[j]) is None,
        },
    decreases shas.len(),
{
    if shas.len() > 0 {
        let front = shas.drop_last();
        let n = shas.len() - 1;
        if shas.last() is Some {
            assert(shas[n] == Some(latest(shas)->0));
        } else {
            law_latest_recorded_revision_wins(front);
            assert(forall|j: int| 0 <= j < front.len() ==> front[j] == #[trigger] shas[j]);
            if latest(front) is Some {
                let i = choose|i: int|
                    0 <= i < front.len() && #[trigger] front[i] == Some(latest(front)->0)
                        && forall|j: int|
                        i < j < front.len() ==> (#[trigger] front[j]) is None;
                assert(shas[i] == Some(latest(shas)->0));
            }
        }
    }
}

/// A forced review is a full one; a review of an unchanged head is a full one.
pub proof fn law_incremental_needs_a_new_head(
    pr: PullView,
    force_full: bool,
    shas: Option<Seq<Option<Seq<char>>>>,
)
    ensures
        after_reviews(pr, force_full, shas).0 matches PrepPhaseView::Diff {
            prior_sha,
            incremental,
            ..
        } && (incremental ==> !force_full && prior_sha is Some && prior_sha->0 != pr.head_sha),
{
}

/// The coverage of a prepared run covers nothing yet, has an entry for every
/// selected unit, and none twice.
pub proof fn law_prepared_ledger_is_frozen(
    pr: PullView,
    prior_sha: Option<Seq<char>>,
    incremental: bool,
    anchor_text: Seq<char>,
    selection: units::SelectionView,
    u: int,
)
    requires
        0 <= u < selection.units.len(),
    ensures
        ({
            let inputs = inputs_for(pr, prior_sha, incremental, anchor_text, selection);
            &&& ledger::ids(inputs.coverage).contains(selection.units[u].unit_id)
            &&& ledger::ids(inputs.coverage).no_duplicates()
            &&& inputs.analysis_text == selection.text
        }),
{
    let all = selection.units.map_values(|u: units::UnitView| u.unit_id);
    ledger::law_freeze_collapses_duplicates(all);
    assert(all[u] == selection.units[u].unit_id);
    assert(all.contains(selection.units[u].unit_id));
    assert(ledger::ids(ledger::pending(ledger::distinct(all))) =~= ledger::distinct(all));
}

// ---------------------------------------------------------------------------
// The run
// ---------------------------------------------------------------------------

/// What an analysis found, as far as the end of the run depends on it.
#[derive(Debug, Clone)]
pub struct AnalysisSummary {
    /// Severities of the findings.
    pub severities: Vec<Severity>,
    /// Threads whose findings are fixed.
    pub to_resolve: Vec<String>,
    /// Comments of the review that was built.
    pub inline_comments: usize,
}

/// What the run waits for.
#[derive(Debug, Clone, PartialEq, Eq)]
pub enum RunPhase {
    Threads,
    Analyzing,
    Publishing,
    /// The summary comment that stands in for a review that could not be posted.
    Commenting { error: String },
    Resolving { next: usize },
    Replying { next: usize },
    Emitting,
    Done,
}

/// What a phase holds.
pub enum RunPhaseView {
    Threads,
    Analyzing,
    Publishing,
    Commenting { error: Seq<char> },
    Resolving { next: int },
    Replying { next: int },
    Emitting,
    Done,
}

impl View for RunPhase {
    type V = RunPhaseView;

    open spec fn view(&self) -> RunPhaseView {
        match self {
            RunPhase::Threads => RunPhaseView::Threads,
            RunPhase::Analyzing => RunPhaseView::Analyzing,
            RunPhase::Publishing => RunPhaseView::Publishing,
            RunPhase::Commenting { error } => RunPhaseView::Commenting { error: error@ },
            RunPhase::Resolving { next } => RunPhaseView::Resolving { next: *next as int },
            RunPhase::Replying { next } => RunPhaseView::Replying { next: *next as int },
            RunPhase::Emitting => RunPhaseView::Emitting,
            RunPhase::Done => RunPhaseView::Done,
        }
    }
}

/// The state of a run.
#[derive(Debug, Clone)]
pub struct RunState {
    pub coverage: CoverageLedger,
    /// Unresolved findings of earlier runs.
    pub open: Vec<OpenFinding>,
    pub severities: Vec<Severity>,
    pub to_resolve: Vec<String>,
    pub inline_comments: usize,
    /// Whether the review itself was posted.
    pub published: bool,
    pub resolved: usize,
    pub replied: usize,
    /// Description of the check of a finished review.
    pub done: String,
    pub phase: RunPhase,
}

/// What a state holds.
#[verifier::ext_equal]
pub struct RunView {
    pub coverage: Seq<ledger::Entry>,
    pub open: Seq<OpenView>,
    pub severities: Seq<Severity>,
    pub to_resolve: Seq<Seq<char>>,
    pub inline_comments: int,
    pub published: bool,
    pub resolved: int,
    pub replied: int,
    pub done: Seq<char>,
    pub phase: RunPhaseView,
}

impl View for RunState {
    type V = RunView;

    open spec fn view(&self) -> RunView {
        RunView {
            coverage: self.coverage@,
            open: open_views(self.open@),
            severities: self.severities@,
            to_resolve: text::views(self.to_resolve@),
            inline_comments: self.inline_comments as int,
            published: self.published,
            resolved: self.resolved as int,
            replied: self.replied as int,
            done: self.done@,
            phase: self.phase@,
        }
    }
}

/// What the driver of a run is asked to do next.
#[derive(Debug)]
pub enum Next {
    /// List the review threads; a failure counts as none.
    FetchThreads,
    /// Run the analysis and build the review.
    Analyze,
    Publish,
    /// Post the summary comment instead.
    Comment,
    ResolveThread(String),
    /// Reply to a comment with `FIXED_REPLY`.
    ReplyTo(u64),
    /// Emit the structured document.
    Emit,
    /// Write the checks of a skipped run, and end it with this reason.
    Skip(String),
    /// Print what would be published, and end.
    PrintDryRun,
    Finish(Result<Outcome, String>),
}

/// What a next step holds.
pub enum NextView {
    FetchThreads,
    Analyze,
    Publish,
    Comment,
    ResolveThread(Seq<char>),
    ReplyTo(u64),
    Emit,
    Skip(Seq<char>),
    PrintDryRun,
    Finish(Result<OutcomeView, Seq<char>>),
}

impl View for Next {
    type V = NextView;

    open spec fn view(&self) -> NextView {
        match self {
            Next::FetchThreads => NextView::FetchThreads,
            Next::Analyze => NextView::Analyze,
            Next::Publish => NextView::Publish,
            Next::Comment => NextView::Comment,
            Next::ResolveThread(id) => NextView::ResolveThread(id@),
            Next::ReplyTo(id) => NextView::ReplyTo(*id),
            Next::Emit => NextView::Emit,
            Next::Skip(reason) => NextView::Skip(reason@),
            Next::PrintDryRun => NextView::PrintDryRun,
            Next::Finish(result) => NextView::Finish(result_view(*result)),
        }
    }
}

/// A step of a run: the status checks to write, and what comes next.
#[derive(Debug)]
pub struct RunStep {
    pub statuses: Vec<NewStatus>,
    pub next: Next,
}

/// What a step holds.
#[verifier::ext_equal]
pub struct RunStepView {
    pub statuses: Seq<StatusView>,
    pub next: NextView,
}

impl View for RunStep {
    type V = RunStepView;

    open spec fn view(&self) -> RunStepView {
        RunStepView { statuses: status_views(self.statuses@), next: self.next@ }
    }
}

/// What happened outside.
#[derive(Debug)]
pub enum RunEvent {
    Threads(Vec<ReviewThread>),
    Analyzed(Result<AnalysisSummary, String>),
    Published(Result<(), String>),
    Commented(Result<(), String>),
    Resolved(bool),
    Replied(bool),
    Emitted(Result<(), String>),
}

/// What a summary holds.
pub struct SummaryView {
    pub severities: Seq<Severity>,
    pub to_resolve: Seq<Seq<char>>,
    pub inline_comments: int,
}

impl View for AnalysisSummary {
    type V = SummaryView;

    open spec fn view(&self) -> SummaryView {
        SummaryView {
            severities: self.severities@,
            to_resolve: text::views(self.to_resolve@),
            inline_comments: self.inline_comments as int,
        }
    }
}

/// What an event holds.
pub enum RunEventView {
    Threads(Seq<ThreadView>),
    Analyzed(Result<SummaryView, Seq<char>>),
    Published(Result<(), Seq<char>>),
    Commented(Result<(), Seq<char>>),
    Resolved(bool),
    Replied(bool),
    Emitted(Result<(), Seq<char>>),
}

/// What a success or an error holds.
pub open spec fn unit_result(result: Result<(), String>) -> Result<(), Seq<char>> {
    match result {
        Ok(_) => Ok(()),
        Err(e) => Err(e@),
    }
}

impl View for RunEvent {
    type V = RunEventView;

    open spec fn view(&self) -> RunEventView {
        match self {
            RunEvent::Threads(threads) => RunEventView::Threads(thread_views(threads@)),
            RunEvent::Analyzed(Ok(summary)) => RunEventView::Analyzed(Ok(summary@)),
            RunEvent::Analyzed(Err(e)) => RunEventView::Analyzed(Err(e@)),
            RunEvent::Published(result) => RunEventView::Published(unit_result(*result)),
            RunEvent::Commented(result) => RunEventView::Commented(unit_result(*result)),
            RunEvent::Resolved(resolved) => RunEventView::Resolved(*resolved),
            RunEvent::Replied(replied) => RunEventView::Replied(*replied),
            RunEvent::Emitted(result) => RunEventView::Emitted(unit_result(*result)),
        }
    }
}

// --- transitions -----------------------------------------------------------

/// A step without status checks.
pub open spec fn quiet(next: NextView) -> RunStepView {
    RunStepView { statuses: Seq::empty(), next }
}

/// The end of a run by a failure: the check of the run says what happened and what
/// was covered, whether or not failures are fatal.
pub open spec fn run_failed(
    cfg: ReviewConfig,
    s: RunView,
    kind: Seq<char>,
    message: Seq<char>,
) -> (RunView, RunStepView) {
    (
        RunView { phase: RunPhaseView::Done, ..s },
        RunStepView {
            statuses: terminal_statuses(cfg, false, note_text(kind, s.coverage)),
            next: NextView::Finish(funneled(cfg.fail_closed, message)),
        },
    )
}

/// What the note of a failed analysis begins with.
pub open spec fn failed_kind(fail_closed: bool) -> Seq<char> {
    if fail_closed {
        "analysis failed"@
    } else {
        "analysis failed (fail-open)"@
    }
}

/// Why a run with nothing to analyze is skipped.
pub open spec fn nothing_reason(excluded_files: int) -> Seq<char> {
    if excluded_files > 0 {
        "all changes filtered out by rules ("@ + text::decimal(excluded_files as nat) + " files)"@
    } else {
        "no reviewable changes in diff"@
    }
}

/// The first state of a run.
pub open spec fn run_fresh(inputs: InputsView, done: Seq<char>) -> RunView {
    RunView {
        coverage: inputs.coverage,
        open: Seq::empty(),
        severities: Seq::empty(),
        to_resolve: Seq::empty(),
        inline_comments: 0,
        published: false,
        resolved: 0,
        replied: 0,
        done,
        phase: RunPhaseView::Threads,
    }
}

/// The beginning of a run: nothing to analyze skips it, and a text of more than
/// twice the budget ends it with every unit truncated.
pub open spec fn run_begun(cfg: ReviewConfig, inputs: InputsView, done: Seq<char>) -> (
    RunView,
    RunStepView,
) {
    let s = run_fresh(inputs, done);
    let size = text::byte_len(inputs.analysis_text);
    if diff::file_sections(diff::sections(inputs.analysis_text)).len() == 0 {
        (
            RunView { phase: RunPhaseView::Done, ..s },
            quiet(NextView::Skip(nothing_reason(inputs.excluded_files))),
        )
    } else if size > cfg.max_diff_kb * 1024 * 2 {
        run_failed(
            cfg,
            RunView {
                coverage: ledger::with_all(
                    s.coverage,
                    ledger::StateView::Truncated("diff over budget"@),
                ),
                ..s
            },
            "diff over budget, analysis abandoned"@,
            "diff exceeds 2x budget ("@ + text::decimal(size / 1024)
                + " KB), abandoning analysis"@,
        )
    } else {
        (s, quiet(NextView::FetchThreads))
    }
}

/// After the threads: everything is dispatched.
pub open spec fn after_threads(s: RunView, threads: Seq<ThreadView>) -> (RunView, RunStepView) {
    (
        RunView {
            open: findings_in(threads),
            coverage: ledger::with_all(s.coverage, ledger::StateView::Running),
            phase: RunPhaseView::Analyzing,
            ..s
        },
        quiet(NextView::Analyze),
    )
}

/// After the analysis: its fate is the fate of every unit. A dry run ends here,
/// with the structured document where one is asked for.
pub open spec fn after_analysis(
    cfg: ReviewConfig,
    s: RunView,
    result: Result<SummaryView, Seq<char>>,
) -> (RunView, RunStepView) {
    match result {
        Ok(found) => {
            let s1 = RunView {
                coverage: ledger::with_all(s.coverage, ledger::StateView::Covered),
                severities: found.severities,
                to_resolve: found.to_resolve,
                inline_comments: found.inline_comments,
                ..s
            };
            if cfg.dry_run && cfg.structured {
                (RunView { phase: RunPhaseView::Emitting, ..s1 }, quiet(NextView::Emit))
            } else if cfg.dry_run {
                (RunView { phase: RunPhaseView::Done, ..s1 }, quiet(NextView::PrintDryRun))
            } else {
                (RunView { phase: RunPhaseView::Publishing, ..s1 }, quiet(NextView::Publish))
            }
        },
        Err(e) => run_failed(
            cfg,
            RunView {
                coverage: ledger::with_all(s.coverage, ledger::StateView::Failed(e)),
                ..s
            },
            failed_kind(cfg.fail_closed),
            "analysis failed: "@ + e,
        ),
    }
}

/// The outcome of a run that reached its end.
pub open spec fn end_outcome(cfg: ReviewConfig, s: RunView) -> OutcomeView {
    if cfg.dry_run {
        OutcomeView::DryRun
    } else {
        published_outcome(s)
    }
}

/// The outcome of a run that published.
pub open spec fn published_outcome(s: RunView) -> OutcomeView {
    OutcomeView::Published {
        inline_comments: if s.published {
            s.inline_comments
        } else {
            0
        },
        terminal: ledger::terminal_of(s.coverage),
    }
}

/// The wrap-up: the two checks, and the document where one is asked for.
pub open spec fn wrapped_up(cfg: ReviewConfig, s: RunView) -> (RunView, RunStepView) {
    let statuses = if cfg.status_checks {
        final_statuses(s.severities, s.open, s.to_resolve, s.done)
    } else {
        Seq::empty()
    };
    if cfg.structured {
        (
            RunView { phase: RunPhaseView::Emitting, ..s },
            RunStepView { statuses, next: NextView::Emit },
        )
    } else {
        (
            RunView { phase: RunPhaseView::Done, ..s },
            RunStepView { statuses, next: NextView::Finish(Ok(published_outcome(s))) },
        )
    }
}

/// The next thread to resolve, or the wrap-up.
pub open spec fn resolve_next(cfg: ReviewConfig, s: RunView, next: int) -> (RunView, RunStepView) {
    if next < s.to_resolve.len() {
        (
            RunView { phase: RunPhaseView::Resolving { next }, ..s },
            quiet(NextView::ResolveThread(s.to_resolve[next])),
        )
    } else {
        wrapped_up(cfg, s)
    }
}

/// After the review was posted, or not.
pub open spec fn after_publish(cfg: ReviewConfig, s: RunView, result: Result<(), Seq<char>>) -> (
    RunView,
    RunStepView,
) {
    match result {
        Ok(_) => resolve_next(cfg, RunView { published: true, ..s }, 0),
        Err(error) => (
            RunView { phase: RunPhaseView::Commenting { error }, ..s },
            quiet(NextView::Comment),
        ),
    }
}

/// After the summary comment; where that fails too, the run fails, and its check
/// says so.
pub open spec fn after_comment(
    cfg: ReviewConfig,
    s: RunView,
    error: Seq<char>,
    result: Result<(), Seq<char>>,
) -> (RunView, RunStepView) {
    match result {
        Ok(_) => resolve_next(cfg, RunView { published: false, ..s }, 0),
        Err(second) => (
            RunView { phase: RunPhaseView::Done, ..s },
            RunStepView {
                statuses: terminal_statuses(cfg, false, note_text("publication failed"@, s.coverage)),
                next: NextView::Finish(
                    Err("both review and fallback comment failed: "@ + error + " ; "@ + second),
                ),
            },
        ),
    }
}

/// After the attempt to resolve a thread.
pub open spec fn after_resolve(cfg: ReviewConfig, s: RunView, next: int, resolved: bool) -> (
    RunView,
    RunStepView,
) {
    if resolved {
        resolve_next(cfg, RunView { resolved: s.resolved + 1, ..s }, next + 1)
    } else {
        match comment_in(s.open, s.to_resolve[next]) {
            Some(comment) => (
                RunView { phase: RunPhaseView::Replying { next }, ..s },
                quiet(NextView::ReplyTo(comment)),
            ),
            None => resolve_next(cfg, s, next + 1),
        }
    }
}

/// After the reply that stands in for resolving a thread.
pub open spec fn after_replied(cfg: ReviewConfig, s: RunView, next: int, replied: bool) -> (
    RunView,
    RunStepView,
) {
    if replied {
        resolve_next(cfg, RunView { replied: s.replied + 1, ..s }, next + 1)
    } else {
        resolve_next(cfg, s, next + 1)
    }
}

/// After the document was emitted, or not.
pub open spec fn after_emit(cfg: ReviewConfig, s: RunView, result: Result<(), Seq<char>>) -> (
    RunView,
    RunStepView,
) {
    (
        RunView { phase: RunPhaseView::Done, ..s },
        quiet(
            NextView::Finish(
                match result {
                    Ok(_) => Ok(end_outcome(cfg, s)),
                    Err(e) => Err(e),
                },
            ),
        ),
    )
}

/// The next state and step of a run.
pub open spec fn run_stepped(cfg: ReviewConfig, s: RunView, event: RunEventView) -> (
    RunView,
    RunStepView,
) {
    match (s.phase, event) {
        (RunPhaseView::Threads, RunEventView::Threads(threads)) => after_threads(s, threads),
        (RunPhaseView::Analyzing, RunEventView::Analyzed(result)) => after_analysis(cfg, s, result),
        (RunPhaseView::Publishing, RunEventView::Published(result)) => after_publish(
            cfg,
            s,
            result,
        ),
        (RunPhaseView::Commenting { error }, RunEventView::Commented(result)) => after_comment(
            cfg,
            s,
            error,
            result,
        ),
        (RunPhaseView::Resolving { next }, RunEventView::Resolved(resolved)) => after_resolve(
            cfg,
            s,
            next,
            resolved,
        ),
        (RunPhaseView::Replying { next }, RunEventView::Replied(replied)) => after_replied(
            cfg,
            s,
            next,
            replied,
        ),
        (RunPhaseView::Emitting, RunEventView::Emitted(result)) => after_emit(cfg, s, result),
        _ => (s, quiet(NextView::Finish(Err(Seq::empty())))),
    }
}

/// Whether an event is what the run waits for.
pub open spec fn run_expected(phase: RunPhaseView, event: RunEventView) -> bool {
    match phase {
        RunPhaseView::Threads => event is Threads,
        RunPhaseView::Analyzing => event is Analyzed,
        RunPhaseView::Publishing => event is Published,
        RunPhaseView::Commenting { .. } => event is Commented,
        RunPhaseView::Resolving { .. } => event is Resolved,
        RunPhaseView::Replying { .. } => event is Replied,
        RunPhaseView::Emitting => event is Emitted,
        RunPhaseView::Done => false,
    }
}

/// States that a run goes through.
pub open spec fn run_sound(s: RunView) -> bool {
    match s.phase {
        RunPhaseView::Threads => s.resolved == 0 && s.replied == 0,
        RunPhaseView::Analyzing => s.resolved == 0 && s.replied == 0,
        RunPhaseView::Publishing => s.resolved == 0 && s.replied == 0,
        RunPhaseView::Commenting { .. } => s.resolved == 0 && s.replied == 0,
        RunPhaseView::Resolving { next } => 0 <= next < s.to_resolve.len() && 0 <= s.resolved
            && 0 <= s.replied && s.resolved + s.replied <= next,
        RunPhaseView::Replying { next } => 0 <= next < s.to_resolve.len() && 0 <= s.resolved && 0
            <= s.replied && s.resolved + s.replied <= next,
        _ => true,
    }
}

// --- execution -------------------------------------------------------------

/// A step without status checks.
fn step_of(next: Next) -> (r: RunStep)
    ensures
        r@ == quiet(next@),
{
    let statuses: Vec<NewStatus> = Vec::new();
    assert(status_views(statuses@) =~= Seq::empty());
    RunStep { statuses, next }
}

/// The end of a run by a failure.
fn fail_run(cfg: &ReviewConfig, state: RunState, kind: &str, message: String) -> (r: (
    RunState,
    RunStep,
))
    ensures
        (r.0@, r.1@) == run_failed(*cfg, state@, kind@, message@),
{
    let mut state = state;
    let result = fail_or_open(cfg.fail_closed, message);
    let note = failure_note(kind, &state.coverage);
    let statuses = post_terminal_status(cfg, false, note.as_str());
    state.phase = RunPhase::Done;
    (state, RunStep { statuses, next: Next::Finish(result) })
}

/// The outcome of a run that published.
fn outcome_of(state: &RunState) -> (r: Outcome)
    ensures
        r@ == published_outcome(state@),
{
    Outcome::Published {
        inline_comments: if state.published {
            state.inline_comments
        } else {
            0
        },
        terminal: state.coverage.terminal(),
    }
}

/// The wrap-up.
fn wrap_up(cfg: &ReviewConfig, state: RunState) -> (r: (RunState, RunStep))
    ensures
        (r.0@, r.1@) == wrapped_up(*cfg, state@),
{
    let mut state = state;
    let statuses: Vec<NewStatus> = if cfg.status_checks {
        post_status_checks(
            &state.severities,
            &state.open,
            &state.to_resolve,
            state.done.as_str(),
        )
    } else {
        Vec::new()
    };
    proof {
        if !cfg.status_checks {
            assert(status_views(statuses@) =~= Seq::empty());
        }
    }
    if cfg.structured {
        state.phase = RunPhase::Emitting;
        (state, RunStep { statuses, next: Next::Emit })
    } else {
        let outcome = outcome_of(&state);
        state.phase = RunPhase::Done;
        (state, RunStep { statuses, next: Next::Finish(Ok(outcome)) })
    }
}

/// The next thread to resolve, or the wrap-up.
fn next_thread(cfg: &ReviewConfig, state: RunState, next: usize) -> (r: (RunState, RunStep))
    ensures
        (r.0@, r.1@) == resolve_next(*cfg, state@, next as int),
{
    if next < state.to_resolve.len() {
        let mut state = state;
        let id = state.to_resolve[next].clone();
        assert(text::views(state.to_resolve@)[next as int] == id@);
        state.phase = RunPhase::Resolving { next };
        (state, step_of(Next::ResolveThread(id)))
    } else {
        wrap_up(cfg, state)
    }
}

/// Why a run with nothing to analyze is skipped.
fn reason_for_nothing(excluded_files: usize) -> (r: String)
    ensures
        r@ == nothing_reason(excluded_files as int),
{
    if excluded_files > 0 {
        let mut reason = "all changes filtered out by rules (".to_owned();
        text::push_number(&mut reason, excluded_files as u128);
        reason.append(" files)");
        reason
    } else {
        "no reviewable changes in diff".to_owned()
    }
}

/// Begin a prepared run. `done` describes the check of a finished review.
pub fn run_review(cfg: &ReviewConfig, inputs: &ReviewInputs, done: &str) -> (r: (RunState, RunStep))
    ensures
        (r.0@, r.1@) == run_begun(*cfg, inputs@, done@),
        run_sound(r.0@),
{
    let mut state = RunState {
        coverage: inputs.coverage.clone(),
        open: Vec::new(),
        severities: Vec::new(),
        to_resolve: Vec::new(),
        inline_comments: 0,
        published: false,
        resolved: 0,
        replied: 0,
        done: done.to_owned(),
        phase: RunPhase::Threads,
    };
    proof {
        assert(open_views(state.open@) =~= Seq::empty());
        assert(text::views(state.to_resolve@) =~= Seq::empty());
        assert(state@ == run_fresh(inputs@, done@));
    }
    if diff::file_count(inputs.analysis_text.as_str()) == 0 {
        state.phase = RunPhase::Done;
        return (state, step_of(Next::Skip(reason_for_nothing(inputs.excluded_files))));
    }
    let chars = text::chars_of(inputs.analysis_text.as_str());
    let size: u128 = text::bytes_in(&chars);
    if size > cfg.max_diff_kb as u128 * 1024 * 2 {
        state.coverage.truncate_all("diff over budget");
        let mut message = "diff exceeds 2x budget (".to_owned();
        text::push_number(&mut message, size / 1024);
        message.append(" KB), abandoning analysis");
        return fail_run(cfg, state, "diff over budget, analysis abandoned", message);
    }
    (state, step_of(Next::FetchThreads))
}

fn on_analysis(cfg: &ReviewConfig, state: RunState, result: Result<AnalysisSummary, String>) -> (r: (
    RunState,
    RunStep,
))
    ensures
        (r.0@, r.1@) == after_analysis(
            *cfg,
            state@,
            match result {
                Ok(found) => Ok(found@),
                Err(e) => Err(e@),
            },
        ),
{
    let mut state = state;
    match result {
        Ok(found) => {
            state.coverage.cover_all();
            state.severities = found.severities;
            state.to_resolve = found.to_resolve;
            state.inline_comments = found.inline_comments;
            if cfg.dry_run && cfg.structured {
                state.phase = RunPhase::Emitting;
                (state, step_of(Next::Emit))
            } else if cfg.dry_run {
                state.phase = RunPhase::Done;
                (state, step_of(Next::PrintDryRun))
            } else {
                state.phase = RunPhase::Publishing;
                (state, step_of(Next::Publish))
            }
        },
        Err(e) => {
            state.coverage.fail_all(e.as_str());
            let mut message = "analysis failed: ".to_owned();
            message.append(e.as_str());
            let kind = if cfg.fail_closed {
                "analysis failed"
            } else {
                "analysis failed (fail-open)"
            };
            fail_run(cfg, state, kind, message)
        },
    }
}

fn on_publish(cfg: &ReviewConfig, state: RunState, result: Result<(), String>) -> (r: (
    RunState,
    RunStep,
))
    ensures
        (r.0@, r.1@) == after_publish(*cfg, state@, unit_result(result)),
{
    let mut state = state;
    match result {
        Ok(_) => {
            state.published = true;
            next_thread(cfg, state, 0)
        },
        Err(error) => {
            state.phase = RunPhase::Commenting { error };
            (state, step_of(Next::Comment))
        },
    }
}

fn on_comment(cfg: &ReviewConfig, state: RunState, error: &str, result: Result<(), String>) -> (r: (
    RunState,
    RunStep,
))
    ensures
        (r.0@, r.1@) == after_comment(*cfg, state@, error@, unit_result(result)),
{
    let mut state = state;
    match result {
        Ok(_) => {
            state.published = false;
            next_thread(cfg, state, 0)
        },
        Err(second) => {
            let mut message = "both review and fallback comment failed: ".to_owned();
            message.append(error);
            message.append(" ; ");
            message.append(second.as_str());
            let note = failure_note("publication failed", &state.coverage);
            let statuses = post_terminal_status(cfg, false, note.as_str());
            state.phase = RunPhase::Done;
            (state, RunStep { statuses, next: Next::Finish(Err(message)) })
        },
    }
}

fn on_resolve(cfg: &ReviewConfig, state: RunState, next: usize, resolved: bool) -> (r: (
    RunState,
    RunStep,
))
    requires
        next < state@.to_resolve.len(),
        0 <= state@.resolved <= next,
    ensures
        (r.0@, r.1@) == after_resolve(*cfg, state@, next as int, resolved),
{
    let mut state = state;
    let n: usize = state.to_resolve.len();
    assert(next < n);
    let comment = comment_of(&state.open, state.to_resolve[next].as_str());
    assert(text::views(state.to_resolve@)[next as int] == state.to_resolve@[next as int]@);
    match resolve_or_reply(resolved, comment) {
        ResolveStep::Done(ResolveOutcome::Resolved) => {
            state.resolved = state.resolved + 1;
            next_thread(cfg, state, next + 1)
        },
        ResolveStep::Done(_) => next_thread(cfg, state, next + 1),
        ResolveStep::Reply(id) => {
            state.phase = RunPhase::Replying { next };
            (state, step_of(Next::ReplyTo(id)))
        },
    }
}

fn on_reply(cfg: &ReviewConfig, state: RunState, next: usize, replied: bool) -> (r: (
    RunState,
    RunStep,
))
    requires
        next < state@.to_resolve.len(),
        0 <= state@.replied <= next,
    ensures
        (r.0@, r.1@) == after_replied(*cfg, state@, next as int, replied),
{
    let mut state = state;
    let n: usize = state.to_resolve.len();
    assert(next < n);
    match after_reply(replied) {
        ResolveOutcome::Replied => {
            state.replied = state.replied + 1;
            next_thread(cfg, state, next + 1)
        },
        _ => next_thread(cfg, state, next + 1),
    }
}

fn on_emit(cfg: &ReviewConfig, state: RunState, result: Result<(), String>) -> (r: (
    RunState,
    RunStep,
))
    ensures
        (r.0@, r.1@) == after_emit(*cfg, state@, unit_result(result)),
{
    let mut state = state;
    let end: Result<Outcome, String> = match result {
        Ok(_) => if cfg.dry_run {
            Ok(Outcome::DryRun)
        } else {
            Ok(outcome_of(&state))
        },
        Err(e) => Err(e),
    };
    state.phase = RunPhase::Done;
    (state, step_of(Next::Finish(end)))
}

/// Take in what happened, and decide what is next.
pub fn run_step(cfg: &ReviewConfig, state: RunState, event: RunEvent) -> (r: (RunState, RunStep))
    requires
        run_sound(state@),
        run_expected(state@.phase, event@),
    ensures
        (r.0@, r.1@) == run_stepped(*cfg, state@, event@),
        run_sound(r.0@),
{
    let mut state = state;
    let mut phase = RunPhase::Done;
    std::mem::swap(&mut phase, &mut state.phase);
    match (phase, event) {
        (RunPhase::Threads, RunEvent::Threads(threads)) => {
            state.open = fetch_open_findings(&threads);
            state.coverage.start_all();
            state.phase = RunPhase::Analyzing;
            (state, step_of(Next::Analyze))
        },
        (RunPhase::Analyzing, RunEvent::Analyzed(result)) => on_analysis(cfg, state, result),
        (RunPhase::Publishing, RunEvent::Published(result)) => on_publish(cfg, state, result),
        (RunPhase::Commenting { error }, RunEvent::Commented(result)) => on_comment(
            cfg,
            state,
            error.as_str(),
            result,
        ),
        (RunPhase::Resolving { next }, RunEvent::Resolved(resolved)) => on_resolve(
            cfg,
            state,
            next,
            resolved,
        ),
        (RunPhase::Replying { next }, RunEvent::Replied(replied)) => on_reply(
            cfg,
            state,
            next,
            replied,
        ),
        (RunPhase::Emitting, RunEvent::Emitted(result)) => on_emit(cfg, state, result),
        _ => {
            assert(false);
            (state, step_of(Next::Finish(Err(String::new()))))
        },
    }
}

// ---------------------------------------------------------------------------
// What the analysis and the review are told
// ---------------------------------------------------------------------------

/// What a review covers: everything, or what changed since an earlier revision, of
/// which the shown beginning is given.
#[derive(Debug, Clone, PartialEq, Eq)]
pub enum ReviewScope {
    Full,
    Incremental(String),
}

/// What a scope holds.
pub enum ScopeView {
    Full,
    Incremental(Seq<char>),
}

impl View for ReviewScope {
    type V = ScopeView;

    open spec fn view(&self) -> ScopeView {
        match self {
            ReviewScope::Full => ScopeView::Full,
            ReviewScope::Incremental(prior) => ScopeView::Incremental(prior@),
        }
    }
}

/// What a prepared run tells the analysis and the review that is built from it.
#[derive(Debug, Clone, PartialEq, Eq)]
pub struct ReviewContext {
    pub head_sha: String,
    /// The shown beginning of the revision that an incremental review starts from.
    pub incremental_from: Option<String>,
    /// Fingerprints of the open findings, in order and each once.
    pub open_fingerprints: Vec<String>,
    /// The name of the mode.
    pub mode: String,
    pub scope: ReviewScope,
    /// Files in the text that is analyzed.
    pub files_reviewed: usize,
    /// Files that the gates left out.
    pub excluded_files: usize,
}

/// What a context holds.
#[verifier::ext_equal]
pub struct ContextView {
    pub head_sha: Seq<char>,
    pub incremental_from: Option<Seq<char>>,
    pub open_fingerprints: Seq<Seq<char>>,
    pub mode: Seq<char>,
    pub scope: ScopeView,
    pub files_reviewed: int,
    pub excluded_files: int,
}

impl View for ReviewContext {
    type V = ContextView;

    open spec fn view(&self) -> ContextView {
        ContextView {
            head_sha: self.head_sha@,
            incremental_from: text::opt_view(self.incremental_from),
            open_fingerprints: text::views(self.open_fingerprints@),
            mode: self.mode@,
            scope: self.scope@,
            files_reviewed: self.files_reviewed as int,
            excluded_files: self.excluded_files as int,
        }
    }
}

/// The fingerprints of open findings, one finding after the other.
pub open spec fn fingerprints_in(open: Seq<OpenView>) -> Seq<Seq<char>>
    decreases open.len(),
{
    if open.len() == 0 {
        Seq::empty()
    } else {
        fingerprints_in(open.drop_last()) + open.last().fingerprints
    }
}

/// The revision that an incremental review starts from, as it is shown.
pub open spec fn shown_prior(inputs: InputsView) -> Option<Seq<char>> {
    match inputs.prior_sha {
        Some(prior) => if inputs.incremental {
            Some(text::byte_prefix(prior, SHORT_SHA_BYTES as nat))
        } else {
            None
        },
        None => None,
    }
}

/// What a prepared run tells the analysis and the review.
pub open spec fn context_of(inputs: InputsView, open: Seq<OpenView>) -> ContextView {
    ContextView {
        head_sha: inputs.pr.head_sha,
        incremental_from: shown_prior(inputs),
        open_fingerprints: output::ordered_texts(ledger::distinct(fingerprints_in(open))),
        mode: preview::mode_name(inputs.incremental),
        scope: match shown_prior(inputs) {
            Some(prior) => ScopeView::Incremental(prior),
            None => ScopeView::Full,
        },
        files_reviewed: diff::file_sections(diff::sections(inputs.analysis_text)).len() as int,
        excluded_files: inputs.excluded_files,
    }
}

/// The fingerprints of open findings, each once, in the order in which they come.
fn collect_fingerprints(open: &[OpenFinding]) -> (r: Vec<String>)
    ensures
        text::views(r@) == ledger::distinct(fingerprints_in(open_views(open@))),
{
    let ghost all = open_views(open@);
    let mut out: Vec<String> = Vec::new();
    let mut i: usize = 0;
    assert(all.take(0) =~= Seq::empty());
    assert(text::views(out@) =~= Seq::empty());
    while i < open.len()
        invariant
            i <= open@.len(),
            all == open_views(open@),
            text::views(out@) == ledger::distinct(fingerprints_in(all.take(i as int))),
        decreases open@.len() - i,
    {
        let prints: &Vec<String> = &open[i].fingerprints;
        let ghost before = fingerprints_in(all.take(i as int));
        let ghost more = text::views(prints@);
        let mut j: usize = 0;
        assert(before + more.take(0) =~= before);
        while j < prints.len()
            invariant
                j <= prints@.len(),
                more == text::views(prints@),
                text::views(out@) == ledger::distinct(before + more.take(j as int)),
            decreases prints@.len() - j,
        {
            proof {
                let now = before + more.take(j + 1);
                assert(now.drop_last() =~= before + more.take(j as int));
                assert(now.last() == prints@[j as int]@);
            }
            if !text::has_name(&out, prints[j].as_str()) {
                let ghost earlier = out@;
                out.push(prints[j].clone());
                proof {
                    text::lemma_views_push(earlier, out@.last());
                }
            }
            j = j + 1;
        }
        proof {
            assert(more.take(j as int) =~= more);
            assert(all.take(i + 1).drop_last() =~= all.take(i as int));
            assert(all.take(i + 1).last() == open@[i as int]@);
        }
        i = i + 1;
    }
    assert(all.take(i as int) =~= all);
    out
}

/// What a prepared run tells the analysis and the review that is built from it.
pub fn review_context(inputs: &ReviewInputs, open: &[OpenFinding]) -> (r: ReviewContext)
    ensures
        r@ == context_of(inputs@, open_views(open@)),
{
    let prints = collect_fingerprints(open);
    let incremental_from: Option<String> = match &inputs.prior_sha {
        Some(prior) => if inputs.incremental {
            Some(preview::short_sha(prior.as_str()))
        } else {
            None
        },
        None => None,
    };
    let scope = match &incremental_from {
        Some(prior) => ReviewScope::Incremental(prior.clone()),
        None => ReviewScope::Full,
    };
    let mode = if inputs.incremental {
        "incremental"
    } else {
        "full"
    };
    ReviewContext {
        head_sha: inputs.pr.head_sha.clone(),
        incremental_from,
        open_fingerprints: output::sorted_fingerprints(&prints),
        mode: mode.to_owned(),
        scope,
        files_reviewed: diff::file_count(inputs.analysis_text.as_str()),
        excluded_files: inputs.excluded_files,
    }
}

/// A fingerprint is known to the review if and only if some open finding carries
/// it; none is listed twice.
pub proof fn law_context_knows_every_open_fingerprint(
    inputs: InputsView,
    open: Seq<OpenView>,
    print: Seq<char>,
)
    ensures
        context_of(inputs, open).open_fingerprints.contains(print) <==> exists|i: int|
            0 <= i < open.len() && (#[trigger] open[i]).fingerprints.contains(print),
        context_of(inputs, open).open_fingerprints.no_duplicates(),
{
    let all = fingerprints_in(open);
    let once = ledger::distinct(all);
    let le = |a: Seq<char>, b: Seq<char>| text::at_most(a, b);
    let list = output::ordered_texts(once);
    ledger::law_freeze_collapses_duplicates(all);
    assert(ledger::ids(ledger::pending(once)) =~= once);
    sorting::law_sorting_is_a_permutation(once, le);
    list.to_multiset_ensures();
    once.to_multiset_ensures();
    once.lemma_multiset_has_no_duplicates();
    list.lemma_multiset_has_no_duplicates_conv();
    assert(list.contains(print) <==> list.to_multiset().count(print) > 0);
    lemma_fingerprints_in(open, print);
}

proof fn lemma_fingerprints_in(open: Seq<OpenView>, print: Seq<char>)
    ensures
        fingerprints_in(open).contains(print) <==> exists|i: int|
            0 <= i < open.len() && (#[trigger] open[i]).fingerprints.contains(print),
    decreases open.len(),
{
    if open.len() > 0 {
        let front = open.drop_last();
        let n = open.len() - 1;
        lemma_fingerprints_in(front, print);
        let a = fingerprints_in(front);
        let b = open.last().fingerprints;
        vstd::seq_lib::lemma_seq_concat_contains_all_elements(a, b, print);
        if exists|i: int| 0 <= i < open.len() && (#[trigger] open[i]).fingerprints.contains(print) {
            let i = choose|i: int|
                0 <= i < open.len() && (#[trigger] open[i]).fingerprints.contains(print);
            if i < n {
                assert(front[i].fingerprints.contains(print));
            }
        }
        if a.contains(print) {
            let i = choose|i: int|
                0 <= i < front.len() && (#[trigger] front[i]).fingerprints.contains(print);
            assert(open[i].fingerprints.contains(print));
        }
        if b.contains(print) {
            assert(open[n].fingerprints.contains(print));
        }
    }
}

/// The coverage that a review states, where reviews state it: that of a run whose
/// analysis succeeded.
pub fn reported_coverage(cfg: &ReviewConfig, state: &RunState) -> (r: Option<CoverageSummary>)
    ensures
        r is Some <==> cfg.report_coverage,
        r matches Some(summary) ==> ledger::summarizes(
            ledger::with_all(state@.coverage, ledger::StateView::Covered),
            summary,
        ),
{
    if cfg.report_coverage {
        let mut coverage = state.coverage.clone();
        coverage.cover_all();
        Some(coverage.summary())
    } else {
        None
    }
}

// --- laws ------------------------------------------------------------------

/// The denominator of a run is what its preparation froze, to the end.
pub proof fn law_run_keeps_the_denominator(cfg: ReviewConfig, s: RunView, event: RunEventView)
    requires
        run_sound(s),
        run_expected(s.phase, event),
    ensures
        ledger::ids(run_stepped(cfg, s, event).0.coverage) == ledger::ids(s.coverage),
{
    ledger::law_denominator_is_frozen(s.coverage, Seq::empty(), ledger::StateView::Running);
    ledger::law_denominator_is_frozen(s.coverage, Seq::empty(), ledger::StateView::Covered);
    if let RunEventView::Analyzed(Err(e)) = event {
        ledger::law_denominator_is_frozen(s.coverage, Seq::empty(), ledger::StateView::Failed(e));
    }
}

/// An analysis that succeeds covers every unit; one that fails covers none, and
/// says so.
pub proof fn law_analysis_decides_coverage(
    cfg: ReviewConfig,
    s: RunView,
    result: Result<SummaryView, Seq<char>>,
)
    requires
        s.coverage.len() > 0,
    ensures
        result is Ok ==> ledger::terminal_of(after_analysis(cfg, s, result).0.coverage)
            == TerminalState::Okay,
        result is Err ==> ledger::terminal_of(after_analysis(cfg, s, result).0.coverage)
            == TerminalState::Partial,
{
    match result {
        Ok(_) => {
            ledger::law_fate_of_the_whole_dispatch(s.coverage, Seq::empty());
        },
        Err(e) => {
            ledger::law_fate_of_the_whole_dispatch(s.coverage, e);
        },
    }
}

/// A failed analysis does not fail the command unless failures are fatal.
pub proof fn law_failed_analysis_is_open_by_default(cfg: ReviewConfig, s: RunView, e: Seq<char>)
    requires
        !cfg.fail_closed,
    ensures
        after_analysis(cfg, s, Err(e)).1.next == NextView::Finish(
            Ok(OutcomeView::AnalysisFailed("analysis failed: "@ + e)),
        ),
{
}

/// With status checks on, every end of a run settles the check of the run, failures
/// included, fatal or not: a required check never stays pending. A run that emits a
/// document settled it before. A dry run writes checks for its failures only.
pub proof fn law_every_end_settles_the_check(
    cfg: ReviewConfig,
    inputs: InputsView,
    done: Seq<char>,
    s: RunView,
    event: RunEventView,
)
    requires
        cfg.status_checks,
        run_expected(s.phase, event),
        s.phase !is Emitting,
    ensures
        run_begun(cfg, inputs, done).1.next is Finish ==> settles(
            run_begun(cfg, inputs, done).1.statuses,
        ),
        run_stepped(cfg, s, event).1.next is Finish ==> settles(
            run_stepped(cfg, s, event).1.statuses,
        ),
        run_stepped(cfg, s, event).1.next is Emit && !cfg.dry_run ==> settles(
            run_stepped(cfg, s, event).1.statuses,
        ),
{
}

/// Where failures are fatal, the check of a failed analysis is an error.
pub proof fn law_fatal_failure_is_an_error(cfg: ReviewConfig, s: RunView, e: Seq<char>)
    requires
        cfg.status_checks,
        cfg.fail_closed,
    ensures
        after_analysis(cfg, s, Err(e)).1.statuses.len() == 1,
        after_analysis(cfg, s, Err(e)).1.statuses[0].state == StatusState::Error,
        after_analysis(cfg, s, Err(e)).1.next == NextView::Finish(Err("analysis failed: "@ + e)),
{
}

/// Comments are claimed as published only when the review itself was posted.
pub proof fn law_fallback_claims_no_inline_comments(s: RunView)
    requires
        !s.published,
    ensures
        published_outcome(s) == (OutcomeView::Published {
            inline_comments: 0,
            terminal: ledger::terminal_of(s.coverage),
        }),
{
}

/// A dry run publishes nothing and writes no check: after the analysis only the
/// printing is left, or the structured document where one is asked for.
pub proof fn law_dry_run_publishes_nothing(
    cfg: ReviewConfig,
    s: RunView,
    found: SummaryView,
    emitted: Result<(), Seq<char>>,
)
    requires
        cfg.dry_run,
    ensures
        ({
            let (next, step) = after_analysis(cfg, s, Ok(found));
            if cfg.structured {
                &&& step == quiet(NextView::Emit)
                &&& next.phase is Emitting
                &&& run_stepped(cfg, next, RunEventView::Emitted(emitted)).1 == quiet(
                    NextView::Finish(
                        match emitted {
                            Ok(_) => Ok(OutcomeView::DryRun),
                            Err(e) => Err(e),
                        },
                    ),
                )
            } else {
                &&& step == quiet(NextView::PrintDryRun)
                &&& next.phase is Done
            }
        }),
{
}

} // verus!
