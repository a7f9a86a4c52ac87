//! The tick-driven polling core: a fixed registry of sources, one countdown
//! per source, a bounded history of recently completed runs, and the cursor
//! the user moves over the registry.
//!
//! Each scheduling tick decrements every countdown that is neither zero nor
//! the serviced source's, and services at most one due source: the first in
//! registration order. A successful fetch resets that source's countdown to
//! its refresh interval and folds the fetched page into the source's status
//! and the shared history; a failed fetch leaves the countdown at zero, so the
//! source is retried on the very next tick.

use vstd::prelude::*;

use crate::history::RecentEvent;
use crate::history::RecentEventHistory;
use crate::history::folded;
use crate::history::sorted;
use crate::selection::SelectionList;
use crate::selection::first_spec;
use crate::selection::last_spec;
use crate::selection::next_spec;
use crate::selection::prev_spec;
use crate::source::Source;
use crate::source::display_label;
use crate::source::label_of;

verus! {

/// Capacity bound of the recent-events history.
pub const RECENT_CAP: usize = 5;

/// One decoded status item from a provider page. Pages list items newest
/// first.
pub struct StatusItem {
    pub completed_at: u64,
    pub status: String,
}

/// A single fetched batch of status items, newest first.
pub struct Page {
    pub items: Vec<StatusItem>,
}

/// What one fetch attempt produced. Transport failures and decode failures
/// are treated identically, so both arrive as `Failure`.
pub enum FetchResult {
    Success(Page),
    Failure,
}

/// Mutable per-source state: the latest status label and the ticks remaining
/// until the source may be polled again.
pub struct SourceState {
    pub last_status: String,
    pub countdown: u64,
}

/// The index of the first source whose countdown has reached zero, scanning
/// in registration order.
pub open spec fn first_due(states: Seq<SourceState>) -> Option<int>
    decreases states.len(),
{
    if states.len() == 0 {
        None
    } else if states[0].countdown == 0 {
        Some(0int)
    } else {
        match first_due(states.drop_first()) {
            None => None,
            Some(i) => Some(i + 1),
        }
    }
}

/// A forward scan that skips positive countdowns and stops at the first zero
/// (or the end) finds exactly `first_due`.
pub proof fn lemma_first_due_unique(states: Seq<SourceState>, p: int)
    requires
        0 <= p <= states.len(),
        forall|j: int| 0 <= j < p ==> states[j].countdown > 0,
        p < states.len() ==> states[p].countdown == 0,
    ensures
        p < states.len() ==> first_due(states) == Some(p),
        p == states.len() ==> first_due(states) is None,
    decreases states.len(),
{
    if states.len() == 0 {
    } else if states[0].countdown == 0 {
        assert(states[0].countdown > 0 || p == 0);
    } else {
        let d = states.drop_first();
        assert(forall|j: int| 0 <= j < d.len() ==> d[j] == states[j + 1]);
        assert(p >= 1);
        lemma_first_due_unique(d, p - 1);
    }
}

/// `first_due` really is due, and really is first.
pub proof fn lemma_first_due_properties(states: Seq<SourceState>)
    ensures
        match first_due(states) {
            None => forall|j: int| 0 <= j < states.len() ==> states[j].countdown > 0,
            Some(i) => 0 <= i < states.len() && states[i].countdown == 0 && forall|j: int|
                0 <= j < i ==> states[j].countdown > 0,
        },
    decreases states.len(),
{
    if states.len() == 0 {
    } else if states[0].countdown == 0 {
    } else {
        let d = states.drop_first();
        assert(forall|j: int| 0 <= j < d.len() ==> d[j] == states[j + 1]);
        lemma_first_due_properties(d);
        match first_due(d) {
            None => {
                assert forall|j: int| 0 <= j < states.len() implies states[j].countdown > 0 by {
                    if j > 0 {
                        assert(states[j] == d[j - 1]);
                    }
                }
            },
            Some(i) => {
                assert forall|j: int| 0 <= j < i + 1 implies states[j].countdown > 0 by {
                    if j > 0 {
                        assert(states[j] == d[j - 1]);
                    }
                }
            },
        }
    }
}

/// The events a page contributes to the history, in page order (newest
/// first), tagged with the registry index of the source it was fetched for.
pub open spec fn page_events(items: Seq<StatusItem>, source: usize) -> Seq<RecentEvent> {
    items.map(
        |k: int, it: StatusItem|
            (RecentEvent { timestamp: it.completed_at, source: source, status: it.status }),
    )
}

/// The status label a page leaves on its source: the newest item's label, or
/// the "unknown" sentinel when the page is structurally valid but empty.
pub open spec fn page_status(items: Seq<StatusItem>) -> Seq<char> {
    if items.len() > 0 {
        items[0].status@
    } else {
        "unknown"@
    }
}

/// How one source that is not serviced this tick steps: its status is
/// untouched and its countdown decreases by exactly one unless already zero.
pub open spec fn unserviced_step(pre: SourceState, post: SourceState) -> bool {
    &&& post.last_status == pre.last_status
    &&& post.countdown == (if pre.countdown > 0 {
        (pre.countdown - 1) as u64
    } else {
        0u64
    })
}

/// The complete effect of one scheduling tick, as a relation between the
/// dashboard before, the dashboard after, and the outcome of the at most one
/// fetch that the tick was allowed to issue (`None` when no source was due).
pub open spec fn ticked(pre: App, post: App, outcome: Option<FetchResult>) -> bool {
    &&& post.sources_seq() == pre.sources_seq()
    &&& post.cursor_spec() == pre.cursor_spec()
    &&& post.history_cap() == pre.history_cap()
    &&& post.states_seq().len() == pre.states_seq().len()
    &&& match outcome {
        None => {
            &&& first_due(pre.states_seq()) is None
            &&& forall|j: int|
                0 <= j < pre.states_seq().len() ==> unserviced_step(
                    pre.states_seq()[j],
                    post.states_seq()[j],
                )
            &&& post.history_seq() == pre.history_seq()
        },
        Some(res) => {
            &&& first_due(pre.states_seq()) is Some
            &&& {
                let i = first_due(pre.states_seq()).unwrap();
                &&& forall|j: int|
                    0 <= j < pre.states_seq().len() && j != i ==> unserviced_step(
                        pre.states_seq()[j],
                        post.states_seq()[j],
                    )
                &&& match res {
                    FetchResult::Failure => {
                        &&& post.states_seq()[i] == pre.states_seq()[i]
                        &&& post.history_seq() == pre.history_seq()
                    },
                    FetchResult::Success(page) => {
                        &&& post.states_seq()[i].countdown
                            == pre.sources_seq()[i].refresh_interval
                        &&& post.states_seq()[i].last_status@ == page_status(page.items@)
                        &&& post.history_seq() == folded(
                            pre.history_seq(),
                            pre.history_cap(),
                            page_events(page.items@, i as usize),
                        )
                    },
                }
            }
        },
    }
}

/// At most one fetch is issued per tick across the whole registry: a tick
/// carries at most one fetch outcome, and every source other than the single
/// first-due one keeps its status untouched and its countdown never grows.
pub proof fn lemma_at_most_one_serviced(pre: App, post: App, outcome: Option<FetchResult>)
    requires
        ticked(pre, post, outcome),
    ensures
        forall|j: int|
            0 <= j < pre.states_seq().len() && first_due(pre.states_seq()) != Some(j) ==> ((
            #[trigger] post.states_seq()[j]).last_status == pre.states_seq()[j].last_status
                && post.states_seq()[j].countdown <= pre.states_seq()[j].countdown),
{
}

/// After a successful fetch the serviced source's countdown equals its
/// refresh interval; after a failed fetch it stays at zero, so the source is
/// retried on the very next tick.
pub proof fn lemma_countdown_after_fetch(pre: App, post: App, outcome: Option<FetchResult>)
    requires
        ticked(pre, post, outcome),
        outcome is Some,
    ensures
        ({
            let i = first_due(pre.states_seq()).unwrap();
            match outcome.unwrap() {
                FetchResult::Success(page) => post.states_seq()[i].countdown
                    == pre.sources_seq()[i].refresh_interval,
                FetchResult::Failure => post.states_seq()[i].countdown == 0,
            }
        }),
{
    lemma_first_due_properties(pre.states_seq());
}

/// The dashboard core: the registry (with the user's cursor over it), the
/// per-source polling state, and the shared recent-events history.
pub struct App {
    sources: SelectionList<Source>,
    states: Vec<SourceState>,
    history: RecentEventHistory,
}

impl App {
    /// The registered sources, in registration order.
    pub closed spec fn sources_seq(&self) -> Seq<Source> {
        self.sources.items_seq()
    }

    /// The per-source states, parallel to `sources_seq`.
    pub closed spec fn states_seq(&self) -> Seq<SourceState> {
        self.states@
    }

    /// The recent events, oldest first.
    pub closed spec fn history_seq(&self) -> Seq<RecentEvent> {
        self.history.events_seq()
    }

    /// The capacity bound of the history.
    pub closed spec fn history_cap(&self) -> usize {
        self.history.cap_spec()
    }

    /// The cursor over the registry.
    pub closed spec fn cursor_spec(&self) -> Option<usize> {
        self.sources.cursor_spec()
    }

    /// Every source has a state, every countdown respects its source's
    /// refresh interval, the history respects its capacity and order, and the
    /// cursor is `None` or a valid registry index.
    pub open spec fn wf(&self) -> bool {
        &&& self.states_seq().len() == self.sources_seq().len()
        &&& forall|j: int|
            0 <= j < self.states_seq().len() ==> (#[trigger] self.states_seq()[j]).countdown
                <= self.sources_seq()[j].refresh_interval
        &&& self.history_cap() == RECENT_CAP
        &&& self.history_seq().len() <= self.history_cap()
        &&& sorted(self.history_seq())
        &&& match self.cursor_spec() {
            None => true,
            Some(c) => c < self.sources_seq().len(),
        }
    }

    /// A dashboard over the given registry: every source starts due (its
    /// countdown at zero) with the "unknown" status, the history is empty and
    /// nothing is selected.
    pub fn new(sources: Vec<Source>) -> (r: App)
        ensures
            r.wf(),
            r.sources_seq() == sources@,
            r.cursor_spec() is None,
            r.history_seq() == Seq::<RecentEvent>::empty(),
            r.states_seq().len() == sources@.len(),
            forall|j: int|
                0 <= j < sources@.len() ==> (#[trigger] r.states_seq()[j]).countdown == 0
                    && r.states_seq()[j].last_status@ == "unknown"@,
    {
        let n = sources.len();
        let mut states: Vec<SourceState> = Vec::new();
        let mut k: usize = 0;
        while k < n
            invariant
                k <= n,
                states@.len() == k,
                forall|j: int|
                    0 <= j < k ==> (#[trigger] states@[j]).countdown == 0
                        && states@[j].last_status@ == "unknown"@,
            decreases n - k,
        {
            states.push(SourceState { last_status: "unknown".to_owned(), countdown: 0 });
            k = k + 1;
        }
        App {
            sources: SelectionList::from_items(sources),
            states,
            history: RecentEventHistory::new(RECENT_CAP),
        }
    }

    pub fn n_sources(&self) -> (r: usize)
        ensures
            r == self.sources_seq().len(),
    {
        self.sources.len()
    }

    pub fn source(&self, i: usize) -> (r: &Source)
        requires
            i < self.sources_seq().len(),
        ensures
            *r == self.sources_seq()[i as int],
    {
        self.sources.get(i)
    }

    pub fn countdown(&self, i: usize) -> (r: u64)
        requires
            i < self.states_seq().len(),
        ensures
            r == self.states_seq()[i as int].countdown,
    {
        self.states[i].countdown
    }

    pub fn last_status(&self, i: usize) -> (r: &String)
        requires
            i < self.states_seq().len(),
        ensures
            *r == self.states_seq()[i as int].last_status,
    {
        &self.states[i].last_status
    }

    pub fn cursor(&self) -> (r: Option<usize>)
        ensures
            r == self.cursor_spec(),
    {
        self.sources.cursor()
    }

    /// The recent-events history, for read-only display.
    pub fn history(&self) -> (r: &RecentEventHistory)
        ensures
            r.events_seq() == self.history_seq(),
            r.cap_spec() == self.history_cap(),
    {
        &self.history
    }

    /// The display label of source `i`, disambiguated within the registry.
    pub fn label(&self, i: usize) -> (r: String)
        requires
            i < self.sources_seq().len(),
        ensures
            r@ == label_of(self.sources_seq(), i as int),
    {
        display_label(self.sources.items_ref(), i)
    }

    /// The source the next tick would service: the first due one, if any.
    pub fn due_index(&self) -> (r: Option<usize>)
        ensures
            match r {
                None => first_due(self.states_seq()) is None,
                Some(i) => first_due(self.states_seq()) == Some(i as int),
            },
    {
        let n = self.states.len();
        let mut k: usize = 0;
        while k < n
            invariant
                k <= n,
                n == self.states_seq().len(),
                forall|j: int| 0 <= j < k ==> self.states_seq()[j].countdown > 0,
            decreases n - k,
        {
            if self.states[k].countdown == 0 {
                proof {
                    lemma_first_due_unique(self.states_seq(), k as int);
                }
                return Some(k);
            }
            k = k + 1;
        }
        proof {
            lemma_first_due_unique(self.states_seq(), n as int);
        }
        None
    }

    /// Make every source due at once: each countdown drops to zero, so the
    /// following ticks re-poll the whole registry, still one source per tick.
    pub fn force_refresh_all(&mut self)
        requires
            old(self).wf(),
        ensures
            final(self).wf(),
            final(self).sources_seq() == old(self).sources_seq(),
            final(self).cursor_spec() == old(self).cursor_spec(),
            final(self).history_seq() == old(self).history_seq(),
            final(self).history_cap() == old(self).history_cap(),
            final(self).states_seq().len() == old(self).states_seq().len(),
            forall|j: int|
                0 <= j < old(self).states_seq().len() ==> (#[trigger] final(self).states_seq()[j]).countdown == 0 && final(self).states_seq()[j].last_status == old(self).states_seq()[j].last_status,
    {
        let n = self.states.len();
        let mut k: usize = 0;
        while k < n
            invariant
                k <= n,
                n == self.states_seq().len(),
                self.sources == old(self).sources,
                self.history == old(self).history,
                self.states_seq().len() == old(self).states_seq().len(),
                forall|j: int|
                    0 <= j < k ==> (#[trigger] self.states_seq()[j]).countdown == 0
                        && self.states_seq()[j].last_status == old(self).states_seq()[j].last_status,
                forall|j: int|
                    k <= j < n ==> #[trigger] self.states_seq()[j] == old(self).states_seq()[j],
            decreases n - k,
        {
            let status = self.states[k].last_status.clone();
            self.states[k] = SourceState { last_status: status, countdown: 0 };
            k = k + 1;
        }
    }

    /// Fold one fetched page into the dashboard: the newest item's label (or
    /// the "unknown" sentinel for an empty page) becomes the source's status,
    /// and every item is inserted into the recent-events history in page
    /// order, evicting the chronologically oldest entry whenever an insertion
    /// would exceed the capacity.
    pub fn fold(&mut self, source: usize, page: &Page)
        requires
            old(self).wf(),
            source < old(self).states_seq().len(),
        ensures
            final(self).wf(),
            final(self).sources_seq() == old(self).sources_seq(),
            final(self).cursor_spec() == old(self).cursor_spec(),
            final(self).history_cap() == old(self).history_cap(),
            final(self).states_seq().len() == old(self).states_seq().len(),
            forall|j: int|
                0 <= j < old(self).states_seq().len() && j != source ==> final(self).states_seq()[j] == old(self).states_seq()[j],
            final(self).states_seq()[source as int].countdown == old(self).states_seq()[source as int].countdown,
            final(self).states_seq()[source as int].last_status@ == page_status(page.items@),
            final(self).history_seq() == folded(
                old(self).history_seq(),
                old(self).history_cap(),
                page_events(page.items@, source),
            ),
    {
        let ghost pre = *self;
        let ghost pe = page_events(page.items@, source);
        let new_status = if page.items.len() > 0 {
            page.items[0].status.clone()
        } else {
            "unknown".to_owned()
        };
        let cd = self.states[source].countdown;
        self.states[source] = SourceState { last_status: new_status, countdown: cd };
        let ghost mid = self.states@;
        let n = page.items.len();
        let mut k: usize = 0;
        proof {
            assert(pe.skip(0) =~= pe);
        }
        while k < n
            invariant
                k <= n,
                n == page.items@.len(),
                pe == page_events(page.items@, source),
                pe.len() == n,
                self.sources == pre.sources,
                self.states@ == mid,
                mid.len() == pre.states_seq().len(),
                source < mid.len(),
                forall|j: int| 0 <= j < mid.len() && j != source ==> mid[j] == pre.states_seq()[j],
                mid[source as int].countdown == pre.states_seq()[source as int].countdown,
                mid[source as int].last_status@ == page_status(page.items@),
                self.history.cap_spec() == pre.history_cap(),
                self.history.wf(),
                folded(self.history.events_seq(), pre.history_cap(), pe.skip(k as int)) == folded(
                    pre.history_seq(),
                    pre.history_cap(),
                    pe,
                ),
            decreases n - k,
        {
            let it_time = page.items[k].completed_at;
            let it_status = page.items[k].status.clone();
            let e = RecentEvent { timestamp: it_time, source, status: it_status };
            proof {
                assert(pe.skip(k as int)[0] == pe[k as int]);
                assert(pe[k as int] == e);
                assert(pe.skip(k as int).drop_first() =~= pe.skip(k as int + 1));
            }
            self.history.insert(e);
            k = k + 1;
        }
        proof {
            assert(pe.skip(n as int) =~= Seq::<RecentEvent>::empty());
        }
    }

    /// Advance scheduling time by one tick. The caller first asks
    /// `due_index` which source (if any) to fetch, performs that at most one
    /// fetch, and hands the outcome in: `None` exactly when no source was
    /// due. The serviced source's countdown resets to its refresh interval on
    /// success and stays at zero on failure; every other source's positive
    /// countdown drops by one.
    pub fn tick(&mut self, outcome: Option<FetchResult>)
        requires
            old(self).wf(),
            (outcome is Some) <==> (first_due(old(self).states_seq()) is Some),
        ensures
            final(self).wf(),
            ticked(*old(self), *final(self), outcome),
    {
        let ghost pre = *self;
        let due = self.due_index();
        proof {
            lemma_first_due_properties(pre.states_seq());
        }
        let n = self.states.len();
        let mut k: usize = 0;
        while k < n
            invariant
                k <= n,
                n == pre.states_seq().len(),
                self.sources == pre.sources,
                self.history == pre.history,
                self.states_seq().len() == n,
                (match due {
                    None => first_due(pre.states_seq()) is None,
                    Some(i) => first_due(pre.states_seq()) == Some(i as int),
                }),
                forall|j: int|
                    0 <= j < k && (due is None || due.unwrap() != j)
                        ==> unserviced_step(
                        pre.states_seq()[j],
                        #[trigger] self.states_seq()[j],
                    ),
                forall|j: int|
                    0 <= j < k && due == Some(j as usize) ==> #[trigger] self.states_seq()[j]
                        == pre.states_seq()[j],
                forall|j: int|
                    k <= j < n ==> #[trigger] self.states_seq()[j] == pre.states_seq()[j],
                forall|j: int|
                    0 <= j < n ==> (#[trigger] self.states_seq()[j]).countdown
                        <= pre.sources_seq()[j].refresh_interval,
            decreases n - k,
        {
            let serviced = match due {
                Some(i) => i == k,
                None => false,
            };
            if !serviced {
                let c = self.states[k].countdown;
                if c > 0 {
                    let status = self.states[k].last_status.clone();
                    self.states[k] = SourceState { last_status: status, countdown: c - 1 };
                }
            }
            k = k + 1;
        }
        match outcome {
            None => {},
            Some(res) => {
                let i: usize = match due {
                    Some(i) => i,
                    None => {
                        proof {
                            assert(false);
                        }
                        0
                    },
                };
                match res {
                    FetchResult::Failure => {},
                    FetchResult::Success(page) => {
                        self.fold(i, &page);
                        let status = self.states[i].last_status.clone();
                        let interval = self.sources.get(i).refresh_interval;
                        self.states[i] = SourceState {
                            last_status: status,
                            countdown: interval,
                        };
                    },
                }
            },
        }
    }

    /// One user key: `j`/`k` move the cursor, `g`/`G` jump to the ends, `r`
    /// forces a full refresh, and the activation key returns the registry
    /// index to open externally (the cursor, when something is selected).
    /// Every other key is ignored.
    pub fn on_key(&mut self, c: char) -> (r: Option<usize>)
        requires
            old(self).wf(),
        ensures
            final(self).wf(),
            final(self).sources_seq() == old(self).sources_seq(),
            final(self).history_seq() == old(self).history_seq(),
            final(self).history_cap() == old(self).history_cap(),
            final(self).states_seq().len() == old(self).states_seq().len(),
            c == '\n' ==> final(self).states_seq() == old(self).states_seq() && final(self).cursor_spec() == old(self).cursor_spec() && r == old(self).cursor_spec(),
            c == 'G' ==> final(self).states_seq() == old(self).states_seq() && final(self).cursor_spec() == last_spec(old(self).sources_seq().len()) && r is None,
            c == 'g' ==> final(self).states_seq() == old(self).states_seq() && final(self).cursor_spec() == first_spec(old(self).sources_seq().len()) && r is None,
            c == 'j' ==> final(self).states_seq() == old(self).states_seq() && final(self).cursor_spec() == next_spec(old(self).sources_seq().len(), old(self).cursor_spec())
                && r is None,
            c == 'k' ==> final(self).states_seq() == old(self).states_seq() && final(self).cursor_spec() == prev_spec(old(self).sources_seq().len(), old(self).cursor_spec())
                && r is None,
            c == 'r' ==> final(self).cursor_spec() == old(self).cursor_spec() && r is None && (
            forall|j: int|
                0 <= j < old(self).states_seq().len() ==> (#[trigger] final(self).states_seq()[j]).countdown == 0 && final(self).states_seq()[j].last_status == old(self).states_seq()[j].last_status),
            !(c == '\n' || c == 'G' || c == 'g' || c == 'j' || c == 'k' || c == 'r') ==> final(self).states_seq() == old(self).states_seq() && final(self).cursor_spec() == old(self).cursor_spec() && r is None,
    {
        if c == '\n' {
            self.sources.cursor()
        } else if c == 'G' {
            self.sources.last();
            None
        } else if c == 'g' {
            self.sources.first();
            None
        } else if c == 'j' {
            self.sources.next();
            None
        } else if c == 'k' {
            self.sources.prev();
            None
        } else if c == 'r' {
            self.force_refresh_all();
            None
        } else {
            None
        }
    }
}

} // verus!
