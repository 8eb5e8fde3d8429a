//! The coverage ledger: the frozen denominator and one state per unit.

use vstd::prelude::*;

use crate::text;
use crate::units::ReviewUnit;

verus! {

/// Lifecycle of one unit inside a run.
#[derive(Debug, Clone, PartialEq, Eq)]
pub enum UnitState {
    Pending,
    Running,
    Covered,
    Failed(String),
    Truncated(String),
}

/// What a unit state holds.
pub enum StateView {
    Pending,
    Running,
    Covered,
    Failed(Seq<char>),
    Truncated(Seq<char>),
}

impl View for UnitState {
    type V = StateView;

    open spec fn view(&self) -> StateView {
        match self {
            UnitState::Pending => StateView::Pending,
            UnitState::Running => StateView::Running,
            UnitState::Covered => StateView::Covered,
            UnitState::Failed(reason) => StateView::Failed(reason@),
            UnitState::Truncated(reason) => StateView::Truncated(reason@),
        }
    }
}

impl UnitState {
    /// A copy of the state.
    fn duplicate(&self) -> (r: UnitState)
        ensures
            r@ == self@,
    {
        match self {
            UnitState::Pending => UnitState::Pending,
            UnitState::Running => UnitState::Running,
            UnitState::Covered => UnitState::Covered,
            UnitState::Failed(reason) => UnitState::Failed(reason.clone()),
            UnitState::Truncated(reason) => UnitState::Truncated(reason.clone()),
        }
    }
}

/// Terminal state of a run, derived from coverage alone.
#[derive(Debug, Clone, Copy, PartialEq, Eq, Structural, Default)]
pub enum TerminalState {
    #[default]
    Empty,
    Okay,
    Partial,
}

impl TerminalState {
    /// The name of a terminal state in reports.
    pub open spec fn name(self) -> Seq<char> {
        match self {
            TerminalState::Okay => "ok"@,
            TerminalState::Partial => "partial"@,
            TerminalState::Empty => "empty"@,
        }
    }

    pub fn as_str(self) -> (r: &'static str)
        ensures
            r@ == self.name(),
    {
        match self {
            TerminalState::Okay => "ok",
            TerminalState::Partial => "partial",
            TerminalState::Empty => "empty",
        }
    }
}

/// Counts derived from a ledger, in one place so that they cannot disagree.
#[derive(Debug, Clone, Copy, PartialEq, Eq, Structural, Default)]
pub struct CoverageSummary {
    pub total: usize,
    pub covered: usize,
    pub failed: usize,
    pub truncated: usize,
    pub terminal: TerminalState,
}

/// One line of the ledger: a unit id and the state of the unit.
pub struct Entry {
    pub id: Seq<char>,
    pub state: StateView,
}

/// The ids of a list of entries.
pub open spec fn ids(entries: Seq<Entry>) -> Seq<Seq<char>> {
    entries.map_values(|e: Entry| e.id)
}

/// Ids in order of first appearance, each once.
pub open spec fn distinct(all: Seq<Seq<char>>) -> Seq<Seq<char>>
    decreases all.len(),
{
    if all.len() == 0 {
        Seq::empty()
    } else {
        let done = distinct(all.drop_last());
        if done.contains(all.last()) {
            done
        } else {
            done.push(all.last())
        }
    }
}

/// Every id, pending.
pub open spec fn pending(all: Seq<Seq<char>>) -> Seq<Entry> {
    all.map_values(|id: Seq<char>| Entry { id, state: StateView::Pending })
}

/// The ids of review units.
pub open spec fn unit_ids(units: Seq<ReviewUnit>) -> Seq<Seq<char>> {
    units.map_values(|u: ReviewUnit| u.unit_id@)
}

/// The entries with the state of one unit replaced.
pub open spec fn with_state(entries: Seq<Entry>, id: Seq<char>, state: StateView) -> Seq<Entry> {
    entries.map_values(
        |e: Entry|
            if e.id == id {
                Entry { id: e.id, state }
            } else {
                e
            },
    )
}

/// The entries with every state replaced.
pub open spec fn with_all(entries: Seq<Entry>, state: StateView) -> Seq<Entry> {
    entries.map_values(|e: Entry| Entry { id: e.id, state })
}

/// The state of a unit, where the ledger has it.
pub open spec fn state_of(entries: Seq<Entry>, id: Seq<char>) -> Option<StateView>
    decreases entries.len(),
{
    if entries.len() == 0 {
        None
    } else if entries[0].id == id {
        Some(entries[0].state)
    } else {
        state_of(entries.drop_first(), id)
    }
}

/// Entries that are covered.
pub open spec fn covered(entries: Seq<Entry>) -> Seq<Entry> {
    entries.filter(|e: Entry| e.state is Covered)
}

/// Entries that failed.
pub open spec fn failed(entries: Seq<Entry>) -> Seq<Entry> {
    entries.filter(|e: Entry| e.state is Failed)
}

/// Entries that were truncated.
pub open spec fn truncated(entries: Seq<Entry>) -> Seq<Entry> {
    entries.filter(|e: Entry| e.state is Truncated)
}

/// Entries that are not covered.
pub open spec fn not_covered(entries: Seq<Entry>) -> Seq<Entry> {
    entries.filter(|e: Entry| !(e.state is Covered))
}

/// The terminal state that the entries give.
pub open spec fn terminal_of(entries: Seq<Entry>) -> TerminalState {
    if entries.len() == 0 {
        TerminalState::Empty
    } else if covered(entries).len() == entries.len() {
        TerminalState::Okay
    } else {
        TerminalState::Partial
    }
}

/// What a summary says of the entries.
pub open spec fn summarizes(entries: Seq<Entry>, s: CoverageSummary) -> bool {
    &&& s.total == entries.len()
    &&& s.covered == covered(entries).len()
    &&& s.failed == failed(entries).len()
    &&& s.truncated == truncated(entries).len()
    &&& s.terminal == terminal_of(entries)
}

/// The contents of a list of ids with borrowed states.
pub open spec fn pair_views(pairs: Seq<(&str, &UnitState)>) -> Seq<Entry> {
    pairs.map_values(|p: (&str, &UnitState)| Entry { id: p.0@, state: p.1@ })
}

/// Coverage ledger: the frozen denominator plus one state per unit.
///
/// The denominator is frozen before the first dispatch and cannot be extended
/// afterwards, so a late arrival or a retry never changes what a run promised to
/// review.
#[derive(Debug)]
pub struct CoverageLedger {
    denominator: Vec<String>,
    states: Vec<UnitState>,
}

impl View for CoverageLedger {
    type V = Seq<Entry>;

    closed spec fn view(&self) -> Seq<Entry> {
        Seq::new(
            self.denominator@.len(),
            |i: int| Entry { id: self.denominator@[i]@, state: self.states@[i]@ },
        )
    }
}

impl CoverageLedger {
    /// One state for every id, and no id twice.
    #[verifier::type_invariant]
    spec fn wf(self) -> bool {
        &&& self.states@.len() == self.denominator@.len()
        &&& text::views(self.denominator@).no_duplicates()
    }

    /// The ledger of no units.
    fn empty() -> (r: Self)
        ensures
            r@.len() == 0,
    {
        CoverageLedger { denominator: Vec::new(), states: Vec::new() }
    }

    /// The place of an id in the ledger.
    fn place(&self, unit_id: &str) -> (r: Option<usize>)
        ensures
            match r {
                Some(i) => i < self@.len() && self@[i as int].id == unit_id@ && state_of(
                    self@,
                    unit_id@,
                ) == Some(self@[i as int].state) && i < self.states@.len(),
                None => state_of(self@, unit_id@) is None && forall|i: int|
                    0 <= i < self@.len() ==> (#[trigger] self@[i]).id != unit_id@,
            },
    {
        proof {
            use_type_invariant(self);
        }
        let ghost entries = self@;
        let mut i: usize = 0;
        assert(entries.skip(0) =~= entries);
        while i < self.denominator.len()
            invariant
                i <= self.denominator@.len(),
                self.states@.len() == self.denominator@.len(),
                entries == self@,
                forall|k: int| 0 <= k < i ==> (#[trigger] self@[k]).id != unit_id@,
                state_of(entries, unit_id@) == state_of(entries.skip(i as int), unit_id@),
            decreases self.denominator@.len() - i,
        {
            assert(entries.skip(i as int)[0] == entries[i as int]);
            assert(entries.skip(i as int).drop_first() =~= entries.skip(i + 1));
            if text::same(self.denominator[i].as_str(), unit_id) {
                return Some(i);
            }
            i = i + 1;
        }
        None
    }

    /// Freeze the denominator from the selected units; duplicates collapse.
    pub fn freeze(units: &[ReviewUnit]) -> (r: Self)
        ensures
            r@ == pending(distinct(unit_ids(units@))),
    {
        let ghost all = unit_ids(units@);
        let mut denominator: Vec<String> = Vec::new();
        let mut states: Vec<UnitState> = Vec::new();
        let mut i: usize = 0;
        assert(all.take(0) =~= Seq::empty());
        assert(text::views(denominator@) =~= distinct(all.take(0)));
        while i < units.len()
            invariant
                i <= units@.len(),
                all == unit_ids(units@),
                states@.len() == denominator@.len(),
                text::views(denominator@) == distinct(all.take(i as int)),
                text::views(denominator@).no_duplicates(),
                forall|k: int| 0 <= k < states@.len() ==> (#[trigger] states@[k])@ is Pending,
            decreases units@.len() - i,
        {
            let ghost before = denominator@;
            assert(all.take(i + 1).drop_last() =~= all.take(i as int));
            assert(all.take(i + 1).last() == units@[i as int].unit_id@);
            if !text::has_name(&denominator, units[i].unit_id.as_str()) {
                denominator.push(units[i].unit_id.clone());
                states.push(UnitState::Pending);
                proof {
                    text::lemma_views_push(before, denominator@.last());
                }
            }
            i = i + 1;
        }
        assert(all.take(i as int) =~= all);
        let r = CoverageLedger { denominator, states };
        assert(r@ =~= pending(distinct(all))) by {
            assert forall|k: int| 0 <= k < r@.len() implies r@[k] == pending(distinct(all))[k] by {
                assert(text::views(r.denominator@)[k] == r.denominator@[k]@);
                assert(r.states@[k]@ is Pending);
            }
        }
        r
    }

    /// The frozen ids, in order, each once.
    pub fn denominator(&self) -> (r: &[String])
        ensures
            text::views(r@) == ids(self@),
            ids(self@).no_duplicates(),
    {
        proof {
            use_type_invariant(self);
            assert(text::views(self.denominator@) =~= ids(self@));
        }
        self.denominator.as_slice()
    }

    /// The state of a unit, or nothing for an id outside the denominator.
    pub fn state(&self, unit_id: &str) -> (r: Option<&UnitState>)
        ensures
            match r {
                Some(state) => state_of(self@, unit_id@) == Some(state@),
                None => state_of(self@, unit_id@) is None,
            },
    {
        match self.place(unit_id) {
            Some(i) => Some(&self.states[i]),
            None => None,
        }
    }

    pub fn is_empty(&self) -> (r: bool)
        ensures
            r == (self@.len() == 0),
    {
        self.denominator.len() == 0
    }

    /// Unknown ids are ignored on purpose: the denominator is frozen.
    fn set(&mut self, unit_id: &str, state: UnitState)
        ensures
            final(self)@ == with_state(old(self)@, unit_id@, state@),
    {
        proof {
            use_type_invariant(&*self);
        }
        let ghost before = self@;
        match self.place(unit_id) {
            Some(i) => {
                let mut taken = CoverageLedger::empty();
                std::mem::swap(self, &mut taken);
                let CoverageLedger { denominator, mut states } = taken;
                states.set(i, state);
                *self = CoverageLedger { denominator, states };
                proof {
                    assert forall|k: int| 0 <= k < before.len() && k != i implies before[k].id
                        != unit_id@ by {
                        assert(text::views(self.denominator@)[k] == before[k].id);
                        assert(text::views(self.denominator@)[i as int] == before[i as int].id);
                    }
                    assert(self@ =~= with_state(before, unit_id@, state@));
                }
            },
            None => {
                proof {
                    assert(self@ =~= with_state(before, unit_id@, state@));
                }
            },
        }
    }

    /// Put every unit into one state.
    fn set_all(&mut self, state: UnitState)
        ensures
            final(self)@ == with_all(old(self)@, state@),
    {
        proof {
            use_type_invariant(&*self);
        }
        let ghost before = self@;
        let mut states: Vec<UnitState> = Vec::new();
        let n: usize = self.denominator.len();
        let mut i: usize = 0;
        while i < n
            invariant
                i <= n,
                states@.len() == i,
                forall|k: int| 0 <= k < i ==> (#[trigger] states@[k])@ == state@,
            decreases n - i,
        {
            states.push(state.duplicate());
            i = i + 1;
        }
        let mut taken = CoverageLedger::empty();
        std::mem::swap(self, &mut taken);
        let CoverageLedger { denominator, states: _ } = taken;
        *self = CoverageLedger { denominator, states };
        assert(self@ =~= with_all(before, state@));
    }

    pub fn start(&mut self, unit_id: &str)
        ensures
            final(self)@ == with_state(old(self)@, unit_id@, StateView::Running),
    {
        self.set(unit_id, UnitState::Running);
    }

    pub fn cover(&mut self, unit_id: &str)
        ensures
            final(self)@ == with_state(old(self)@, unit_id@, StateView::Covered),
    {
        self.set(unit_id, UnitState::Covered);
    }

    pub fn fail(&mut self, unit_id: &str, reason: &str)
        ensures
            final(self)@ == with_state(old(self)@, unit_id@, StateView::Failed(reason@)),
    {
        self.set(unit_id, UnitState::Failed(reason.to_owned()));
    }

    pub fn truncate(&mut self, unit_id: &str, reason: &str)
        ensures
            final(self)@ == with_state(old(self)@, unit_id@, StateView::Truncated(reason@)),
    {
        self.set(unit_id, UnitState::Truncated(reason.to_owned()));
    }

    pub fn start_all(&mut self)
        ensures
            final(self)@ == with_all(old(self)@, StateView::Running),
    {
        self.set_all(UnitState::Running);
    }

    pub fn cover_all(&mut self)
        ensures
            final(self)@ == with_all(old(self)@, StateView::Covered),
    {
        self.set_all(UnitState::Covered);
    }

    pub fn fail_all(&mut self, reason: &str)
        ensures
            final(self)@ == with_all(old(self)@, StateView::Failed(reason@)),
    {
        self.set_all(UnitState::Failed(reason.to_owned()));
    }

    pub fn truncate_all(&mut self, reason: &str)
        ensures
            final(self)@ == with_all(old(self)@, StateView::Truncated(reason@)),
    {
        self.set_all(UnitState::Truncated(reason.to_owned()));
    }

    /// Counts for the coverage line and for machine-readable output.
    pub fn summary(&self) -> (r: CoverageSummary)
        ensures
            summarizes(self@, r),
    {
        proof {
            use_type_invariant(self);
        }
        let ghost entries = self@;
        let mut n_covered: usize = 0;
        let mut n_failed: usize = 0;
        let mut n_truncated: usize = 0;
        let mut i: usize = 0;
        proof {
            reveal(Seq::filter);
            assert(entries.take(0) =~= Seq::empty());
        }
        while i < self.states.len()
            invariant
                i <= self.states@.len(),
                self.states@.len() == self.denominator@.len(),
                entries == self@,
                n_covered == covered(entries.take(i as int)).len(),
                n_failed == failed(entries.take(i as int)).len(),
                n_truncated == truncated(entries.take(i as int)).len(),
                n_covered <= i,
                n_failed <= i,
                n_truncated <= i,
            decreases self.states@.len() - i,
        {
            proof {
                reveal(Seq::filter);
                assert(entries.take(i + 1).drop_last() =~= entries.take(i as int));
                assert(entries.take(i + 1).last() == entries[i as int]);
                assert(entries[i as int].state == self.states@[i as int]@);
            }
            match &self.states[i] {
                UnitState::Covered => {
                    n_covered = n_covered + 1;
                },
                UnitState::Failed(_) => {
                    n_failed = n_failed + 1;
                },
                UnitState::Truncated(_) => {
                    n_truncated = n_truncated + 1;
                },
                UnitState::Pending => {},
                UnitState::Running => {},
            }
            i = i + 1;
        }
        assert(entries.take(i as int) =~= entries);
        let total: usize = self.denominator.len();
        let terminal = if total == 0 {
            TerminalState::Empty
        } else if n_covered == total {
            TerminalState::Okay
        } else {
            TerminalState::Partial
        };
        CoverageSummary {
            total,
            covered: n_covered,
            failed: n_failed,
            truncated: n_truncated,
            terminal,
        }
    }

    pub fn covered_count(&self) -> (r: usize)
        ensures
            r == covered(self@).len(),
    {
        self.summary().covered
    }

    /// Terminal state derived from coverage, never from success claims.
    pub fn terminal(&self) -> (r: TerminalState)
        ensures
            r == terminal_of(self@),
    {
        self.summary().terminal
    }

    /// Units that are not covered, with their state.
    pub fn uncovered(&self) -> (r: Vec<(&str, &UnitState)>)
        ensures
            pair_views(r@) == not_covered(self@),
    {
        proof {
            use_type_invariant(self);
        }
        let ghost entries = self@;
        let mut out: Vec<(&str, &UnitState)> = Vec::new();
        let mut i: usize = 0;
        proof {
            reveal(Seq::filter);
            assert(entries.take(0) =~= Seq::empty());
            assert(pair_views(out@) =~= not_covered(entries.take(0)));
        }
        while i < self.denominator.len()
            invariant
                i <= self.denominator@.len(),
                self.states@.len() == self.denominator@.len(),
                entries == self@,
                pair_views(out@) == not_covered(entries.take(i as int)),
            decreases self.denominator@.len() - i,
        {
            let ghost before = out@;
            proof {
                reveal(Seq::filter);
                assert(entries.take(i + 1).drop_last() =~= entries.take(i as int));
                assert(entries.take(i + 1).last() == entries[i as int]);
            }
            match &self.states[i] {
                UnitState::Covered => {},
                state => {
                    out.push((self.denominator[i].as_str(), state));
                    assert(pair_views(out@) =~= pair_views(before).push(entries[i as int]));
                },
            }
            i = i + 1;
        }
        assert(entries.take(i as int) =~= entries);
        out
    }
}

impl Default for CoverageLedger {
    /// The ledger of no units.
    fn default() -> (r: Self)
        ensures
            r@.len() == 0,
    {
        CoverageLedger::empty()
    }
}

impl Clone for CoverageLedger {
    fn clone(&self) -> (r: Self)
        ensures
            r@ == self@,
    {
        proof {
            use_type_invariant(self);
        }
        let denominator = text::copy_strings(&self.denominator);
        let mut states: Vec<UnitState> = Vec::new();
        let mut i: usize = 0;
        while i < self.states.len()
            invariant
                i <= self.states@.len(),
                states@.len() == i,
                forall|k: int| 0 <= k < i ==> (#[trigger] states@[k])@ == self.states@[k]@,
            decreases self.states@.len() - i,
        {
            states.push(self.states[i].duplicate());
            i = i + 1;
        }
        let r = CoverageLedger { denominator, states };
        assert(r@ =~= self@);
        r
    }
}

// ---------------------------------------------------------------------------
// Laws
// ---------------------------------------------------------------------------

/// Where no id occurs twice, the state of an id is the one beside it.
pub proof fn lemma_state_of_distinct(entries: Seq<Entry>, i: int)
    requires
        ids(entries).no_duplicates(),
        0 <= i < entries.len(),
    ensures
        state_of(entries, entries[i].id) == Some(entries[i].state),
    decreases entries.len(),
{
    if i > 0 {
        let rest = entries.drop_first();
        assert(ids(entries)[0] != ids(entries)[i]);
        assert(ids(rest) =~= ids(entries).drop_first());
        lemma_state_of_distinct(rest, i - 1);
        assert(rest[i - 1] == entries[i]);
    }
}

/// The denominator is frozen: no change of state adds, removes or moves an id.
pub proof fn law_denominator_is_frozen(entries: Seq<Entry>, id: Seq<char>, state: StateView)
    ensures
        ids(with_state(entries, id, state)) == ids(entries),
        ids(with_all(entries, state)) == ids(entries),
{
    assert(ids(with_state(entries, id, state)) =~= ids(entries));
    assert(ids(with_all(entries, state)) =~= ids(entries));
}

/// A unit that was never frozen cannot enter the ledger.
pub proof fn law_unknown_ids_are_ignored(entries: Seq<Entry>, id: Seq<char>, state: StateView)
    requires
        !ids(entries).contains(id),
    ensures
        with_state(entries, id, state) == entries,
        state_of(entries, id) is None,
    decreases entries.len(),
{
    assert forall|k: int| 0 <= k < entries.len() implies (#[trigger] entries[k]).id != id by {
        assert(ids(entries)[k] == entries[k].id);
    }
    assert(with_state(entries, id, state) =~= entries);
    if entries.len() > 0 {
        let rest = entries.drop_first();
        assert(!ids(rest).contains(id)) by {
            if ids(rest).contains(id) {
                let k = choose|k: int| 0 <= k < ids(rest).len() && ids(rest)[k] == id;
                assert(ids(entries)[k + 1] == id);
            }
        }
        law_unknown_ids_are_ignored(rest, id, state);
    }
}

/// A state that was set is read back, and the other units keep theirs.
pub proof fn law_set_state_is_read_back(
    entries: Seq<Entry>,
    id: Seq<char>,
    state: StateView,
    other: Seq<char>,
)
    requires
        ids(entries).contains(id),
    ensures
        state_of(with_state(entries, id, state), id) == Some(state),
        other != id ==> state_of(with_state(entries, id, state), other) == state_of(entries, other),
    decreases entries.len(),
{
    let rest = entries.drop_first();
    let changed = with_state(entries, id, state);
    assert(changed.drop_first() =~= with_state(rest, id, state));
    let k = choose|k: int| 0 <= k < ids(entries).len() && ids(entries)[k] == id;
    if ids(rest).contains(id) {
        law_set_state_is_read_back(rest, id, state, other);
    } else {
        if k > 0 {
            assert(ids(rest)[k - 1] == id);
        }
        law_unknown_ids_are_ignored(rest, id, state);
    }
}

/// Freezing lists every id of the units, and each once.
pub proof fn law_freeze_collapses_duplicates(all: Seq<Seq<char>>)
    ensures
        ids(pending(distinct(all))).no_duplicates(),
        forall|id: Seq<char>| all.contains(id) <==> #[trigger] distinct(all).contains(id),
    decreases all.len(),
{
    lemma_distinct(all);
    assert(ids(pending(distinct(all))) =~= distinct(all));
}

proof fn lemma_distinct(all: Seq<Seq<char>>)
    ensures
        distinct(all).no_duplicates(),
        forall|id: Seq<char>| all.contains(id) <==> #[trigger] distinct(all).contains(id),
    decreases all.len(),
{
    if all.len() > 0 {
        let front = all.drop_last();
        let done = distinct(front);
        let last = all.last();
        lemma_distinct(front);
        assert forall|id: Seq<char>| all.contains(id) <==> #[trigger] distinct(all).contains(id) by {
            if all.contains(id) {
                let k = choose|k: int| 0 <= k < all.len() && all[k] == id;
                if k < front.len() {
                    assert(front[k] == id);
                    assert(done.contains(id));
                    let m = choose|m: int| 0 <= m < done.len() && done[m] == id;
                    assert(distinct(all)[m] == id);
                } else if !done.contains(last) {
                    assert(distinct(all)[done.len() as int] == id);
                }
            }
            if distinct(all).contains(id) {
                let m = choose|m: int| 0 <= m < distinct(all).len() && distinct(all)[m] == id;
                if m < done.len() {
                    assert(done[m] == id);
                    assert(done.contains(id));
                    let k = choose|k: int| 0 <= k < front.len() && front[k] == id;
                    assert(all[k] == id);
                } else {
                    assert(all[all.len() - 1] == id);
                }
            }
        }
    }
}

/// The counts of a summary never claim more than the denominator.
pub proof fn law_counts_stay_within_the_denominator(entries: Seq<Entry>)
    ensures
        covered(entries).len() + failed(entries).len() + truncated(entries).len() <= entries.len(),
        covered(entries).len() + not_covered(entries).len() == entries.len(),
    decreases entries.len(),
{
    reveal(Seq::filter);
    if entries.len() > 0 {
        law_counts_stay_within_the_denominator(entries.drop_last());
    }
}

/// A run is `Okay` if and only if its denominator is not empty and every unit of it
/// is covered; `Empty` if and only if there is no unit.
pub proof fn law_terminal_comes_from_coverage(entries: Seq<Entry>)
    ensures
        terminal_of(entries) == TerminalState::Empty <==> entries.len() == 0,
        terminal_of(entries) == TerminalState::Okay <==> entries.len() > 0 && forall|i: int|
            0 <= i < entries.len() ==> (#[trigger] entries[i]).state is Covered,
        terminal_of(entries) == TerminalState::Partial <==> exists|i: int|
            0 <= i < entries.len() && !((#[trigger] entries[i]).state is Covered),
{
    lemma_all_covered(entries);
    if entries.len() > 0 && covered(entries).len() == entries.len() {
        assert(forall|i: int| 0 <= i < entries.len() ==> (#[trigger] entries[i]).state is Covered);
    }
}

proof fn lemma_all_covered(entries: Seq<Entry>)
    ensures
        covered(entries).len() <= entries.len(),
        covered(entries).len() == entries.len() <==> forall|i: int|
            0 <= i < entries.len() ==> (#[trigger] entries[i]).state is Covered,
    decreases entries.len(),
{
    reveal(Seq::filter);
    if entries.len() > 0 {
        let front = entries.drop_last();
        lemma_all_covered(front);
        if covered(entries).len() == entries.len() {
            assert forall|i: int| 0 <= i < entries.len() implies (
            #[trigger] entries[i]).state is Covered by {
                if i < front.len() {
                    assert(front[i] == entries[i]);
                }
            }
        }
        if forall|i: int| 0 <= i < entries.len() ==> (#[trigger] entries[i]).state is Covered {
            assert forall|i: int| 0 <= i < front.len() implies (
            #[trigger] front[i]).state is Covered by {
                assert(front[i] == entries[i]);
            }
            assert(entries.last() == entries[entries.len() - 1]);
        }
    }
}

/// Covering everything ends a run with units as `Okay`; failing or truncating
/// everything ends it as `Partial`; without units it stays `Empty`.
pub proof fn law_fate_of_the_whole_dispatch(entries: Seq<Entry>, reason: Seq<char>)
    ensures
        entries.len() == 0 ==> terminal_of(with_all(entries, StateView::Covered))
            == TerminalState::Empty,
        entries.len() > 0 ==> terminal_of(with_all(entries, StateView::Covered))
            == TerminalState::Okay,
        entries.len() > 0 ==> terminal_of(with_all(entries, StateView::Failed(reason)))
            == TerminalState::Partial,
        entries.len() > 0 ==> terminal_of(with_all(entries, StateView::Truncated(reason)))
            == TerminalState::Partial,
{
    let good = with_all(entries, StateView::Covered);
    let bad = with_all(entries, StateView::Failed(reason));
    let cut = with_all(entries, StateView::Truncated(reason));
    law_terminal_comes_from_coverage(good);
    law_terminal_comes_from_coverage(bad);
    law_terminal_comes_from_coverage(cut);
    if entries.len() > 0 {
        assert(!(bad[0].state is Covered));
        assert(!(cut[0].state is Covered));
    }
}

} // verus!
