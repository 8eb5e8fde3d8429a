//! The command line: its arguments, and what the commands decide and say.

use vstd::prelude::*;
use vstd::slice::slice_subrange;

use crate::orchestrator::{Outcome, OutcomeView};
use crate::output::OutputFormat;
use crate::packs;
use crate::packs::RulePack;
use crate::rules;
use crate::rules::Resolution;
use crate::text;

verus! {

/// Bytes of a file that are read for the look at its content.
pub const HEAD_BYTES: usize = 4096;

/// Port of the service when none is given.
pub const DEFAULT_PORT: u16 = 8080;

/// Bytes of a commit that are shown.
pub const SHOWN_COMMIT_BYTES: usize = 10;

#[derive(Debug)]
pub struct Cli {
    pub command: Command,
    /// Debug logging.
    pub verbose: bool,
}

#[derive(Debug)]
pub enum Command {
    /// Review a pull request.
    Review(ReviewArgs),
    /// Handle a comment that mentions the bot.
    Mention,
    /// Develop on a task with the agent.
    Develop(DevelopArgs),
    /// Run as a webhook service.
    Serve(ServeArgs),
    /// Inspect the built-in language rule packs.
    Rules(RulesArgs),
    /// Show help and exit.
    Help,
}

#[derive(Debug)]
pub struct RulesArgs {
    pub cmd: RulesCommand,
}

#[derive(Debug)]
pub enum RulesCommand {
    /// List the built-in language rule packs.
    List,
    /// Show which packs a path resolves to.
    Check(RulesCheckArgs),
}

#[derive(Debug)]
pub struct RulesCheckArgs {
    /// Repository-relative path.
    pub path: String,
}

#[derive(Debug)]
pub struct DevelopArgs {
    /// The development task in natural language.
    pub task: Option<String>,
    /// Do not commit; print what would change instead.
    pub dry_run: bool,
    /// Target repository, owner/name.
    pub repo: Option<String>,
    /// Run the issue flow for this issue.
    pub issue: Option<u64>,
    /// Run the pull request flow for this pull request.
    pub pr: Option<u64>,
    /// Instruction text.
    pub instruction: Option<String>,
    /// Implement the agreed plan.
    pub go: bool,
    /// Merge the pull request.
    pub merge: bool,
}

#[derive(Debug)]
pub struct ServeArgs {
    /// Listen port.
    pub port: Option<u16>,
}

#[derive(Debug)]
pub struct ReviewArgs {
    /// Override the pull request of the event.
    pub pr: Option<u64>,
    /// Override the repository, owner/repo.
    pub repo: Option<String>,
    /// Run the full analysis without publishing.
    pub dry_run: bool,
    /// Report what would be reviewed and exit without calling the model.
    pub preview: bool,
    /// Output format; a structured one claims stdout.
    pub format: OutputFormat,
    /// Write the document to this workspace-relative path instead of stdout.
    pub output: Option<String>,
}

impl Default for ReviewArgs {
    /// The form without flags.
    fn default() -> (r: Self)
        ensures
            r.pr is None,
            r.repo is None,
            !r.dry_run,
            !r.preview,
            r.format is Human,
            r.output is None,
    {
        ReviewArgs {
            pr: None,
            repo: None,
            dry_run: false,
            preview: false,
            format: OutputFormat::Human,
            output: None,
        }
    }
}

/// The default log filter.
pub fn log_filter(verbose: bool) -> (r: &'static str)
    ensures
        r@ == (if verbose {
            "hoverstare=debug"@
        } else {
            "hoverstare=info"@
        }),
{
    if verbose {
        "hoverstare=debug"
    } else {
        "hoverstare=info"
    }
}

// ---------------------------------------------------------------------------
// Outcomes
// ---------------------------------------------------------------------------

/// How loud a log line is.
#[derive(Debug, Clone, Copy, PartialEq, Eq, Structural)]
pub enum Level {
    Info,
    Warn,
}

/// The log line of an outcome.
pub open spec fn outcome_text(outcome: OutcomeView) -> (Level, Seq<char>) {
    match outcome {
        OutcomeView::Skipped(reason) => (Level::Info, "skipped: "@ + reason),
        OutcomeView::Published { inline_comments, terminal } => (
            Level::Info,
            "✅ review published ("@ + text::decimal(inline_comments as nat)
                + " inline comments, coverage "@ + terminal.name() + ")"@,
        ),
        OutcomeView::Previewed { units, excluded, truncated } => (
            Level::Info,
            "✅ preview: "@ + text::decimal(units as nat) + " unit(s) would be reviewed ("@
                + text::decimal(excluded as nat) + " excluded, "@ + text::decimal(
                truncated as nat,
            ) + " truncated), no model calls"@,
        ),
        OutcomeView::DryRun => (Level::Info, "✅ dry-run complete (not published)"@),
        OutcomeView::AnalysisFailed(reason) => (
            Level::Warn,
            "analysis failed (fail-open, exit 0): "@ + reason,
        ),
    }
}

/// One log line per outcome, shared by the run and the preview.
pub fn log_review_outcome(outcome: &Outcome) -> (r: (Level, String))
    ensures
        (r.0, r.1@) == outcome_text(outcome@),
{
    match outcome {
        Outcome::Skipped(reason) => {
            let mut line = "skipped: ".to_owned();
            line.append(reason.as_str());
            (Level::Info, line)
        },
        Outcome::Published { inline_comments, terminal } => {
            let mut line = "✅ review published (".to_owned();
            text::push_number(&mut line, *inline_comments as u128);
            line.append(" inline comments, coverage ");
            line.append(terminal.as_str());
            line.append(")");
            (Level::Info, line)
        },
        Outcome::Previewed { units, excluded, truncated } => {
            let mut line = "✅ preview: ".to_owned();
            text::push_number(&mut line, *units as u128);
            line.append(" unit(s) would be reviewed (");
            text::push_number(&mut line, *excluded as u128);
            line.append(" excluded, ");
            text::push_number(&mut line, *truncated as u128);
            line.append(" truncated), no model calls");
            (Level::Info, line)
        },
        Outcome::DryRun => (Level::Info, "✅ dry-run complete (not published)".to_owned()),
        Outcome::AnalysisFailed(reason) => {
            let mut line = "analysis failed (fail-open, exit 0): ".to_owned();
            line.append(reason.as_str());
            (Level::Warn, line)
        },
    }
}

/// The log line after a mention was handled.
pub fn mention_line(outcome: &Outcome) -> (r: String)
    ensures
        r@ == (match outcome@ {
            OutcomeView::Skipped(reason) => "skipped: "@ + reason,
            _ => "✅ mention handled"@,
        }),
{
    match outcome {
        Outcome::Skipped(reason) => {
            let mut line = "skipped: ".to_owned();
            line.append(reason.as_str());
            line
        },
        _ => "✅ mention handled".to_owned(),
    }
}

/// The exit code of a command: only an error is a failure, whatever the outcome.
pub fn exit_code<E>(result: &Result<Outcome, E>) -> (r: i32)
    ensures
        r == (if result is Ok {
            0int
        } else {
            1
        }),
{
    match result {
        Ok(_) => 0,
        Err(_) => 1,
    }
}

// ---------------------------------------------------------------------------
// Rule packs
// ---------------------------------------------------------------------------

/// The beginning of the line of a pack.
pub open spec fn pack_title(pack: packs::PackView) -> Seq<char> {
    "- "@ + pack.id + " v"@ + pack.version + " ["@ + pack.language + "] "@
}

/// The line of a pack in a list.
pub open spec fn pack_line(pack: packs::PackView) -> Seq<char> {
    pack_title(pack) + if pack.scope.len() == 0 {
        "(fallback)"@
    } else {
        text::joined(pack.scope, " "@)
    }
}

/// The line of a pack that a path resolves to.
pub open spec fn hit_line(pack: packs::PackView, hit: rules::ResolutionView, note: Seq<char>) -> Seq<
    char,
> {
    pack_title(pack) + "matched "@ + hit.matched_pattern + if hit.sniffed {
        note
    } else {
        Seq::empty()
    }
}

/// The lines for the packs that a path resolves to.
pub open spec fn hit_lines(hits: Seq<rules::ResolutionView>, note: Seq<char>) -> Seq<Seq<char>>
    decreases hits.len(),
{
    if hits.len() == 0 {
        Seq::empty()
    } else {
        let done = hit_lines(hits.drop_last(), note);
        match rules::pack_with_id(hits.last().pack_id) {
            Some(pack) => done.push(hit_line(pack, hits.last(), note)),
            None => done,
        }
    }
}

/// The beginning of the line of a pack.
fn title_of(pack: &RulePack) -> (r: String)
    ensures
        r@ == pack_title(pack@),
{
    let mut line = "- ".to_owned();
    line.append(pack.id.as_str());
    line.append(" v");
    line.append(pack.version.as_str());
    line.append(" [");
    line.append(pack.language.as_str());
    line.append("] ");
    line
}

/// The lines that list the built-in packs.
pub fn rules_list() -> (r: Vec<String>)
    ensures
        text::views(r@) == packs::built_in().map_values(|p: packs::PackView| pack_line(p)),
{
    let all = packs::packs();
    let ghost want = packs::built_in().map_values(|p: packs::PackView| pack_line(p));
    let mut out: Vec<String> = Vec::new();
    let mut i: usize = 0;
    while i < all.len()
        invariant
            i <= all@.len(),
            packs::pack_views(all@) == packs::built_in(),
            want == packs::built_in().map_values(|p: packs::PackView| pack_line(p)),
            text::views(out@) == want.take(i as int),
        decreases all@.len() - i,
    {
        assert(packs::pack_views(all@)[i as int] == all@[i as int]@);
        let ghost before = out@;
        let mut line = title_of(&all[i]);
        if all[i].scope.len() == 0 {
            line.append("(fallback)");
        } else {
            line.append(text::join(&all[i].scope, " ").as_str());
        }
        out.push(line);
        proof {
            text::lemma_views_push(before, out@.last());
            assert(want.take(i + 1) =~= want.take(i as int).push(want[i as int]));
        }
        i = i + 1;
    }
    assert(want.take(i as int) =~= want);
    out
}

/// The lines for the packs that a path resolves to. `note` stands behind a pack
/// that the content decided.
pub fn rules_check(hits: &[Resolution], note: &str) -> (r: Vec<String>)
    ensures
        text::views(r@) == hit_lines(rules::resolution_views(hits@), note@),
{
    let ghost all = rules::resolution_views(hits@);
    let mut out: Vec<String> = Vec::new();
    let mut i: usize = 0;
    assert(all.take(0) =~= Seq::empty());
    assert(text::views(out@) =~= hit_lines(all.take(0), note@));
    while i < hits.len()
        invariant
            i <= hits@.len(),
            all == rules::resolution_views(hits@),
            text::views(out@) == hit_lines(all.take(i as int), note@),
        decreases hits@.len() - i,
    {
        proof {
            assert(all.take(i + 1).drop_last() =~= all.take(i as int));
            assert(all.take(i + 1).last() == hits@[i as int]@);
        }
        if let Some(pack) = rules::pack_by_id(hits[i].pack_id.as_str()) {
            let ghost before = out@;
            let mut line = title_of(&pack);
            line.append("matched ");
            line.append(hits[i].matched_pattern.as_str());
            if hits[i].sniffed {
                line.append(note);
            }
            assert(line@ =~= hit_line(pack@, hits@[i as int]@, note@));
            out.push(line);
            proof {
                text::lemma_views_push(before, out@.last());
            }
        }
        i = i + 1;
    }
    assert(all.take(i as int) =~= all);
    out
}

// ---------------------------------------------------------------------------
// Development triggers
// ---------------------------------------------------------------------------

/// What kind of event triggers the development agent.
#[derive(Debug, Clone, Copy, PartialEq, Eq, Structural)]
pub enum DevKind {
    IssueComment,
    IssueOpened,
}

/// A trigger of the development agent.
#[derive(Debug, Clone, PartialEq, Eq)]
pub struct DevEvent {
    pub repo: String,
    pub number: u64,
    pub is_pr: bool,
    pub kind: DevKind,
    pub title: Option<String>,
    pub body: String,
    pub comment_id: Option<u64>,
    pub author_association: String,
    pub in_reply_to: Option<u64>,
    pub author: String,
}

/// What a trigger holds.
#[verifier::ext_equal]
pub struct DevEventView {
    pub repo: Seq<char>,
    pub number: u64,
    pub is_pr: bool,
    pub kind: DevKind,
    pub title: Option<Seq<char>>,
    pub body: Seq<char>,
    pub comment_id: Option<u64>,
    pub author_association: Seq<char>,
    pub in_reply_to: Option<u64>,
    pub author: Seq<char>,
}

impl View for DevEvent {
    type V = DevEventView;

    open spec fn view(&self) -> DevEventView {
        DevEventView {
            repo: self.repo@,
            number: self.number,
            is_pr: self.is_pr,
            kind: self.kind,
            title: text::opt_view(self.title),
            body: self.body@,
            comment_id: self.comment_id,
            author_association: self.author_association@,
            in_reply_to: self.in_reply_to,
            author: self.author@,
        }
    }
}

/// Why the flags give no trigger.
#[derive(Debug, Clone, Copy, PartialEq, Eq, Structural)]
pub enum DevError {
    IssueWithoutRepo,
    PrWithoutRepo,
}

impl DevError {
    /// What is said to the user.
    pub open spec fn text(self) -> Seq<char> {
        match self {
            DevError::IssueWithoutRepo => "--issue requires --repo owner/name"@,
            DevError::PrWithoutRepo => "--pr requires --repo owner/name"@,
        }
    }

    pub fn message(self) -> (r: &'static str)
        ensures
            r@ == self.text(),
    {
        match self {
            DevError::IssueWithoutRepo => "--issue requires --repo owner/name",
            DevError::PrWithoutRepo => "--pr requires --repo owner/name",
        }
    }
}

/// A trigger that the flags give: a comment of the local owner.
pub open spec fn local_event(repo: Seq<char>, number: u64, is_pr: bool, body: Seq<char>) -> DevEventView {
    DevEventView {
        repo,
        number,
        is_pr,
        kind: DevKind::IssueComment,
        title: None,
        body,
        comment_id: None,
        author_association: "OWNER"@,
        in_reply_to: None,
        author: "local"@,
    }
}

/// The comment that the flags of the issue flow stand for.
pub open spec fn issue_body(go: bool, instruction: Option<Seq<char>>) -> Seq<char> {
    if go {
        "@hoverstare go"@
    } else {
        "@hoverstare "@ + match instruction {
            Some(i) => i,
            None => Seq::empty(),
        }
    }
}

/// The comment that the flags of the pull request flow stand for.
pub open spec fn pr_body(merge: bool, instruction: Option<Seq<char>>) -> Seq<char> {
    if merge {
        "@hoverstare merge"@
    } else {
        "@hoverstare "@ + match instruction {
            Some(i) => i,
            None => "continue"@,
        }
    }
}

/// The trigger of the flags: none means that the event of the environment decides.
pub open spec fn trigger_of(args: DevelopArgs) -> Result<Option<DevEventView>, DevError> {
    match args.issue {
        Some(n) => match args.repo {
            Some(repo) => Ok(
                Some(
                    local_event(
                        repo@,
                        n,
                        false,
                        issue_body(args.go, text::opt_view(args.instruction)),
                    ),
                ),
            ),
            None => Err(DevError::IssueWithoutRepo),
        },
        None => match args.pr {
            Some(n) => match args.repo {
                Some(repo) => Ok(
                    Some(
                        local_event(
                            repo@,
                            n,
                            true,
                            pr_body(args.merge, text::opt_view(args.instruction)),
                        ),
                    ),
                ),
                None => Err(DevError::PrWithoutRepo),
            },
            None => Ok(None),
        },
    }
}

/// A trigger that the flags give.
fn make_event(repo: String, number: u64, is_pr: bool, body: String) -> (r: DevEvent)
    ensures
        r@ == local_event(repo@, number, is_pr, body@),
{
    DevEvent {
        repo,
        number,
        is_pr,
        kind: DevKind::IssueComment,
        title: None,
        body,
        comment_id: None,
        author_association: "OWNER".to_owned(),
        in_reply_to: None,
        author: "local".to_owned(),
    }
}

/// Build the trigger from the flags. Nothing means that the flags name none, and
/// the event of the environment is to be used.
pub fn resolve_dev_event(args: &DevelopArgs) -> (r: Result<Option<DevEvent>, DevError>)
    ensures
        match r {
            Ok(Some(event)) => trigger_of(*args) == Ok::<Option<DevEventView>, DevError>(
                Some(event@),
            ),
            Ok(None) => trigger_of(*args) == Ok::<Option<DevEventView>, DevError>(None),
            Err(e) => trigger_of(*args) == Err::<Option<DevEventView>, DevError>(e),
        },
{
    if let Some(n) = args.issue {
        let repo = match &args.repo {
            Some(repo) => repo.clone(),
            None => {
                return Err(DevError::IssueWithoutRepo);
            },
        };
        let mut body = "@hoverstare ".to_owned();
        if args.go {
            body = "@hoverstare go".to_owned();
        } else if let Some(instruction) = &args.instruction {
            body.append(instruction.as_str());
        }
        assert(body@ =~= issue_body(args.go, text::opt_view(args.instruction)));
        return Ok(Some(make_event(repo, n, false, body)));
    }
    if let Some(n) = args.pr {
        let repo = match &args.repo {
            Some(repo) => repo.clone(),
            None => {
                return Err(DevError::PrWithoutRepo);
            },
        };
        let mut body = "@hoverstare ".to_owned();
        if args.merge {
            body = "@hoverstare merge".to_owned();
        } else if let Some(instruction) = &args.instruction {
            body.append(instruction.as_str());
        } else {
            body.append("continue");
        }
        assert(body@ =~= pr_body(args.merge, text::opt_view(args.instruction)));
        return Ok(Some(make_event(repo, n, true, body)));
    }
    Ok(None)
}

/// The tool budget of a development task: at least the usual one.
pub fn develop_budget(max_tool_calls: u32, usual: u32) -> (r: u32)
    ensures
        r == (if max_tool_calls >= usual {
            max_tool_calls
        } else {
            usual
        }),
{
    if max_tool_calls >= usual {
        max_tool_calls
    } else {
        usual
    }
}

/// The beginning of a commit, as it is shown.
pub fn shown_commit(sha: &str) -> (r: String)
    ensures
        r@ == text::byte_prefix(sha@, SHOWN_COMMIT_BYTES as nat),
{
    let chars = text::chars_of(sha);
    let n: usize = text::floor_char_boundary(&chars, SHOWN_COMMIT_BYTES as u128);
    let head = slice_subrange(&chars, 0, n);
    assert(head@ =~= sha@.take(n as int));
    text::string_of(head)
}

// ---------------------------------------------------------------------------
// Service
// ---------------------------------------------------------------------------

/// The value of decimal digits, where every character is one.
pub open spec fn digits_value(s: Seq<char>) -> Option<nat>
    decreases s.len(),
{
    if s.len() == 0 {
        Some(0)
    } else {
        match digits_value(s.drop_last()) {
            Some(n) => if '0' <= s.last() <= '9' {
                Some((n * 10 + (s.last() as nat - '0' as nat)) as nat)
            } else {
                None
            },
            None => None,
        }
    }
}

/// A port number: decimal digits, perhaps behind a plus sign, within 16 bits.
pub open spec fn port_value(s: Seq<char>) -> Option<u16> {
    let digits = if s.len() > 0 && s[0] == '+' {
        s.drop_first()
    } else {
        s
    };
    if digits.len() == 0 {
        None
    } else {
        match digits_value(digits) {
            Some(n) => if n <= u16::MAX {
                Some(n as u16)
            } else {
                None
            },
            None => None,
        }
    }
}

/// A value only grows with more digits.
proof fn lemma_digits_grow(s: Seq<char>, n: int)
    requires
        0 <= n <= s.len(),
        digits_value(s) is Some,
    ensures
        digits_value(s.take(n)) is Some,
        digits_value(s.take(n))->0 <= digits_value(s)->0,
    decreases s.len(),
{
    if n == s.len() {
        assert(s.take(n) =~= s);
    } else {
        lemma_digits_grow(s.drop_last(), n);
        assert(s.drop_last().take(n) =~= s.take(n));
    }
}

/// Read a port number.
pub fn parse_port(s: &str) -> (r: Option<u16>)
    ensures
        r == port_value(s@),
{
    let chars = text::chars_of(s);
    let from: usize = if chars.len() > 0 && chars[0] == '+' {
        1
    } else {
        0
    };
    let digits = slice_subrange(&chars, from, chars.len());
    proof {
        if from == 1 {
            assert(digits@ =~= s@.drop_first());
        } else {
            assert(digits@ =~= s@);
        }
    }
    if digits.len() == 0 {
        return None;
    }
    let mut value: u32 = 0;
    let mut i: usize = 0;
    assert(digits@.take(0) =~= Seq::empty());
    while i < digits.len()
        invariant
            i <= digits@.len(),
            digits_value(digits@.take(i as int)) == Some(value as nat),
            value <= u16::MAX,
            digits@.len() > 0,
            port_value(s@) == (match digits_value(digits@) {
                Some(n) => if n <= u16::MAX {
                    Some(n as u16)
                } else {
                    None
                },
                None => None,
            }),
        decreases digits@.len() - i,
    {
        let c = digits[i];
        proof {
            assert(digits@.take(i + 1).drop_last() =~= digits@.take(i as int));
            assert(digits@.take(i + 1).last() == c);
        }
        if !('0' <= c && c <= '9') {
            proof {
                if digits_value(digits@) is Some {
                    lemma_digits_grow(digits@, i + 1);
                }
            }
            return None;
        }
        value = value * 10 + (c as u32 - '0' as u32);
        if value > u16::MAX as u32 {
            proof {
                if digits_value(digits@) is Some {
                    lemma_digits_grow(digits@, i + 1);
                }
            }
            return None;
        }
        i = i + 1;
    }
    assert(digits@.take(i as int) =~= digits@);
    Some(value as u16)
}

/// The port to listen on: the environment before the flag, then the default.
pub fn serve_port(env: Option<&str>, flag: Option<u16>) -> (r: u16)
    ensures
        r == (match env {
            Some(v) if port_value(v@) is Some => port_value(v@)->0,
            _ => match flag {
                Some(p) => p,
                None => DEFAULT_PORT,
            },
        }),
{
    if let Some(v) = env {
        if let Some(p) = parse_port(v) {
            return p;
        }
    }
    match flag {
        Some(p) => p,
        None => DEFAULT_PORT,
    }
}

} // verus!
