//! A fixed-capacity, chronologically ordered collection of recently completed
//! runs, with oldest-first eviction.
//!
//! Events are kept sorted by completion timestamp, ascending; an event whose
//! timestamp equals an existing one is placed after it, so eviction is
//! deterministic even when timestamps collide. Each insertion that would push
//! the size past the capacity removes the single chronologically oldest entry.

use vstd::prelude::*;

verus! {

/// One completed run: when it finished, which registered source (by its index
/// in the registry) it belongs to, and its status label.
pub struct RecentEvent {
    pub timestamp: u64,
    pub source: usize,
    pub status: String,
}

/// Timestamps never decrease along the sequence.
pub open spec fn sorted(h: Seq<RecentEvent>) -> bool {
    forall|i: int, j: int| 0 <= i <= j < h.len() ==> h[i].timestamp <= h[j].timestamp
}

/// Where a new event with timestamp `t` belongs in `h`: directly after every
/// event that finished at or before `t`.
pub open spec fn insert_pos(h: Seq<RecentEvent>, t: u64) -> int
    decreases h.len(),
{
    if h.len() == 0 {
        0
    } else if h[0].timestamp > t {
        0
    } else {
        1 + insert_pos(h.drop_first(), t)
    }
}

/// The sequence after one insertion: the event goes to its chronological
/// position, and the oldest entry is evicted when the capacity would be
/// exceeded.
pub open spec fn inserted(h: Seq<RecentEvent>, cap: usize, e: RecentEvent) -> Seq<RecentEvent> {
    let grown = h.insert(insert_pos(h, e.timestamp), e);
    if grown.len() > cap {
        grown.drop_first()
    } else {
        grown
    }
}

/// The sequence after folding in a whole batch of events, one insertion (and
/// so one possible eviction) per event, in batch order.
pub open spec fn folded(h: Seq<RecentEvent>, cap: usize, events: Seq<RecentEvent>) -> Seq<
    RecentEvent,
>
    decreases events.len(),
{
    if events.len() == 0 {
        h
    } else {
        folded(inserted(h, cap, events[0]), cap, events.drop_first())
    }
}

/// `insert_pos` splits any sequence into a prefix at or before `t` and, when
/// the sequence is sorted, a suffix strictly after `t`.
pub proof fn lemma_insert_pos_properties(h: Seq<RecentEvent>, t: u64)
    ensures
        0 <= insert_pos(h, t) <= h.len(),
        forall|j: int| 0 <= j < insert_pos(h, t) ==> h[j].timestamp <= t,
        sorted(h) ==> forall|j: int| insert_pos(h, t) <= j < h.len() ==> h[j].timestamp > t,
    decreases h.len(),
{
    if h.len() == 0 {
    } else if h[0].timestamp > t {
        assert(sorted(h) ==> forall|j: int|
            0 <= j < h.len() ==> (#[trigger] h[j]).timestamp >= h[0].timestamp);
    } else {
        lemma_insert_pos_properties(h.drop_first(), t);
        let d = h.drop_first();
        let ip = insert_pos(h, t);
        assert(forall|j: int| 0 <= j < d.len() ==> d[j] == h[j + 1]);
        assert(ip == 1 + insert_pos(d, t));
        assert forall|j: int| 0 <= j < ip implies h[j].timestamp <= t by {
            if j > 0 {
                assert(h[j] == d[j - 1]);
            }
        }
        if sorted(h) {
            assert(sorted(d));
            assert forall|j: int| ip <= j < h.len() implies h[j].timestamp > t by {
                assert(h[j] == d[j - 1]);
            }
        }
    }
}

/// In a sorted sequence the insertion point is pinned by its prefix/suffix
/// shape: a forward scan that stops at the first later timestamp finds it.
pub proof fn lemma_insert_pos_unique(h: Seq<RecentEvent>, t: u64, p: int)
    requires
        sorted(h),
        0 <= p <= h.len(),
        forall|j: int| 0 <= j < p ==> h[j].timestamp <= t,
        p < h.len() ==> h[p].timestamp > t,
    ensures
        insert_pos(h, t) == p,
{
    lemma_insert_pos_properties(h, t);
    let ip = insert_pos(h, t);
    if ip < p {
        assert(h[ip].timestamp <= t);
        assert(h[ip].timestamp > t);
    }
    if ip > p {
        assert(h[p].timestamp <= t);
        assert(h[p].timestamp > t);
    }
}

/// Inserting at the chronological position keeps the sequence sorted.
pub proof fn lemma_sorted_after_insert(h: Seq<RecentEvent>, e: RecentEvent)
    requires
        sorted(h),
    ensures
        sorted(h.insert(insert_pos(h, e.timestamp), e)),
{
    let p = insert_pos(h, e.timestamp);
    lemma_insert_pos_properties(h, e.timestamp);
    h.insert_ensures(p, e);
    let g = h.insert(p, e);
    assert forall|i: int, j: int| 0 <= i <= j < g.len() implies g[i].timestamp
        <= g[j].timestamp by {
        if i < p {
            assert(g[i] == h[i]);
        }
        if j < p {
            assert(g[j] == h[j]);
        }
        if i > p {
            assert(g[i] == h[i - 1]);
        }
        if j > p {
            assert(g[j] == h[j - 1]);
        }
    }
}

/// A sorted sequence stays sorted when its first element is dropped.
pub proof fn lemma_sorted_drop_first(h: Seq<RecentEvent>)
    requires
        sorted(h),
        h.len() > 0,
    ensures
        sorted(h.drop_first()),
{
    assert(forall|j: int| 0 <= j < h.drop_first().len() ==> h.drop_first()[j] == h[j + 1]);
}


/// Membership in a sequence after a positional insertion: exactly the old
/// members plus the new element.
pub proof fn lemma_insert_contains(h: Seq<RecentEvent>, p: int, e: RecentEvent)
    requires
        0 <= p <= h.len(),
    ensures
        forall|x: RecentEvent| #[trigger]
            h.insert(p, e).contains(x) <==> (h.contains(x) || x == e),
{
    h.insert_ensures(p, e);
    let g = h.insert(p, e);
    assert forall|x: RecentEvent| #[trigger] g.contains(x) implies (h.contains(x) || x == e) by {
        let i = choose|i: int| 0 <= i < g.len() && g[i] == x;
        if i < p {
            assert(h[i] == x);
        } else if i > p {
            assert(h[i - 1] == x);
        }
    }
    assert forall|x: RecentEvent| h.contains(x) || x == e implies #[trigger] g.contains(x) by {
        if h.contains(x) {
            let i = choose|i: int| 0 <= i < h.len() && h[i] == x;
            if i < p {
                assert(g[i] == x);
            } else {
                assert(g[i + 1] == x);
            }
        } else {
            assert(g[p] == x);
        }
    }
}

/// Membership after dropping the first element implies membership before.
pub proof fn lemma_drop_first_contains(h: Seq<RecentEvent>)
    requires
        h.len() > 0,
    ensures
        forall|x: RecentEvent| #[trigger] h.drop_first().contains(x) ==> h.contains(x),
{
    let d = h.drop_first();
    assert forall|x: RecentEvent| #[trigger] d.contains(x) implies h.contains(x) by {
        let i = choose|i: int| 0 <= i < d.len() && d[i] == x;
        assert(h[i + 1] == x);
    }
}

/// One insertion never evicts more than the single chronologically oldest
/// entry: the result stays sorted and within capacity, it holds only the old
/// events and the new one, it holds all of them when there is room, and
/// whatever it dropped is at least as old as everything it kept.
pub proof fn lemma_inserted_shape(h: Seq<RecentEvent>, cap: usize, e: RecentEvent)
    requires
        cap >= 1,
        sorted(h),
        h.len() <= cap,
    ensures
        ({
            let r = inserted(h, cap, e);
            &&& sorted(r)
            &&& r.len() == (if h.len() < cap {
                h.len() + 1
            } else {
                cap as nat
            })
            &&& (forall|x: RecentEvent| #[trigger] r.contains(x) ==> h.contains(x) || x == e)
            &&& (h.len() < cap ==> forall|x: RecentEvent|
                h.contains(x) || x == e ==> #[trigger] r.contains(x))
            &&& (h.len() < cap ==> r.contains(e))
            &&& (forall|x: RecentEvent, y: RecentEvent|
                (#[trigger] h.contains(x) || x == e) && !r.contains(x) && #[trigger] r.contains(y)
                    ==> x.timestamp <= y.timestamp)
            &&& (forall|y: RecentEvent|
                !r.contains(e) && #[trigger] r.contains(y) ==> e.timestamp <= y.timestamp)
        }),
{
    let t = e.timestamp;
    let p = insert_pos(h, t);
    lemma_insert_pos_properties(h, t);
    lemma_sorted_after_insert(h, e);
    let g = h.insert(p, e);
    let r = inserted(h, cap, e);
    h.insert_ensures(p, e);
    lemma_insert_contains(h, p, e);
    if g.len() > cap {
        lemma_sorted_drop_first(g);
        lemma_drop_first_contains(g);
        assert forall|x: RecentEvent, y: RecentEvent|
            (h.contains(x) || x == e) && !r.contains(x) && r.contains(y)
                implies x.timestamp <= y.timestamp by {
            assert(g.contains(x));
            let i = choose|i: int| 0 <= i < g.len() && g[i] == x;
            if i > 0 {
                assert(r[i - 1] == x);
                assert(r.contains(x));
            }
            assert(x == g[0]);
            let jy = choose|j: int| 0 <= j < r.len() && r[j] == y;
            assert(g[jy + 1] == y);
        }
    }
}

/// The result of a fold, taken one event at a time from the left, equals one
/// more insertion applied to the fold of everything before it.
pub proof fn lemma_folded_push(h: Seq<RecentEvent>, cap: usize, es: Seq<RecentEvent>, e: RecentEvent)
    ensures
        folded(h, cap, es.push(e)) == inserted(folded(h, cap, es), cap, e),
    decreases es.len(),
{
    if es.len() == 0 {
        assert(es.push(e)[0] == e);
        assert(es.push(e).drop_first() =~= Seq::<RecentEvent>::empty());
        assert(folded(h, cap, es.push(e)) == folded(inserted(h, cap, e), cap, Seq::<RecentEvent>::empty()));
        assert(folded(h, cap, es) == h);
    } else {
        assert(es.push(e)[0] == es[0]);
        assert(es.push(e).drop_first() =~= es.drop_first().push(e));
        lemma_folded_push(inserted(h, cap, es[0]), cap, es.drop_first(), e);
    }
}


/// Folding batch after batch is the same as folding their concatenation, so
/// the shape of the history after any sequence of ticks is the shape after
/// one fold of all events those ticks contributed, in order.
pub proof fn lemma_folded_concat(
    h: Seq<RecentEvent>,
    cap: usize,
    batch: Seq<RecentEvent>,
    rest: Seq<RecentEvent>,
)
    ensures
        folded(folded(h, cap, batch), cap, rest) == folded(h, cap, batch + rest),
    decreases batch.len(),
{
    if batch.len() == 0 {
        assert(batch + rest =~= rest);
    } else {
        assert((batch + rest)[0] == batch[0]);
        assert((batch + rest).drop_first() =~= batch.drop_first() + rest);
        lemma_folded_concat(inserted(h, cap, batch[0]), cap, batch.drop_first(), rest);
    }
}

/// Folding any batch of events into an empty history keeps exactly the
/// newest: the result is in chronological order; it holds every inserted
/// event while the capacity allows and exactly `cap` of them afterwards; it
/// holds nothing that was not inserted; and any inserted event that is
/// missing is at least as old as everything that remains (so with distinct
/// timestamps, precisely the `cap` chronologically newest events survive,
/// whatever the order of insertion).
pub proof fn lemma_folded_keeps_newest(events: Seq<RecentEvent>, cap: usize)
    requires
        cap >= 1,
    ensures
        ({
            let h = folded(Seq::<RecentEvent>::empty(), cap, events);
            &&& sorted(h)
            &&& h.len() == (if events.len() <= cap {
                events.len() as int
            } else {
                cap as int
            })
            &&& (forall|x: RecentEvent| #[trigger] h.contains(x) ==> events.contains(x))
            &&& (events.len() <= cap ==> forall|i: int|
                0 <= i < events.len() ==> h.contains(#[trigger] events[i]))
            &&& (forall|i: int, x: RecentEvent|
                0 <= i < events.len() && !h.contains(#[trigger] events[i]) && #[trigger] h.contains(
                    x,
                ) ==> events[i].timestamp <= x.timestamp)
        }),
    decreases events.len(),
{
    let empty = Seq::<RecentEvent>::empty();
    if events.len() == 0 {
        assert(folded(empty, cap, events) == empty);
    } else {
        let es = events.drop_last();
        let e = events.last();
        assert(es.push(e) =~= events);
        lemma_folded_keeps_newest(es, cap);
        let h0 = folded(empty, cap, es);
        lemma_folded_push(empty, cap, es, e);
        lemma_inserted_shape(h0, cap, e);
        let h1 = inserted(h0, cap, e);
        assert(h1 == folded(empty, cap, events));
        assert(forall|i: int| 0 <= i < es.len() ==> events[i] == es[i]);
        assert(events[events.len() - 1] == e);

        assert forall|x: RecentEvent| #[trigger] h1.contains(x) implies events.contains(x) by {
            if x == e {
                assert(events[events.len() - 1] == x);
            } else {
                assert(h0.contains(x));
                assert(es.contains(x));
                let i = choose|i: int| 0 <= i < es.len() && es[i] == x;
                assert(events[i] == x);
            }
        }
        if events.len() <= cap {
            assert(h0.len() < cap);
            assert forall|i: int| 0 <= i < events.len() implies h1.contains(
                #[trigger] events[i],
            ) by {
                if i < es.len() {
                    assert(h0.contains(es[i]));
                } else {
                    assert(events[i] == e);
                }
            }
        }
        assert forall|i: int, x: RecentEvent|
            0 <= i < events.len() && !h1.contains(#[trigger] events[i]) && #[trigger] h1.contains(
                x,
            ) implies events[i].timestamp <= x.timestamp by {
            let d = events[i];
            if i < es.len() && h0.contains(d) {
                // kept before, dropped by this insertion: the shape lemma bounds it
                assert(d.timestamp <= x.timestamp);
            } else if i < es.len() {
                // dropped in an earlier round: older than all of h0,
                // and older than e too, else e would have displaced it
                assert(!h0.contains(es[i]));
                assert(es.len() > cap);
                assert(h0.len() == cap);
                if x == e {
                    if d.timestamp > e.timestamp {
                        // d is at most everything in h0, so e would be strictly
                        // older than all of h0 and could not itself survive
                        assert(forall|y: RecentEvent| #[trigger] h0.contains(y)
                            ==> d.timestamp <= y.timestamp);
                        let pe = insert_pos(h0, e.timestamp);
                        lemma_insert_pos_properties(h0, e.timestamp);
                        let g = h0.insert(pe, e);
                        h0.insert_ensures(pe, e);
                        if pe > 0 {
                            assert(h0.contains(h0[0]));
                            assert(h0[0].timestamp <= e.timestamp);
                            assert(d.timestamp <= h0[0].timestamp);
                            assert(false);
                        }
                        // pe == 0: e sits at the front and is the evicted one
                        assert(g.len() > cap);
                        assert(h1 =~= g.drop_first());
                        assert(h1.contains(e));
                        let je = choose|j: int| 0 <= j < h1.len() && h1[j] == e;
                        assert(g[je + 1] == e);
                        assert(h0[je] == e);
                        assert(h0.contains(e));
                        assert(d.timestamp <= e.timestamp);
                        assert(false);
                    }
                } else {
                    assert(h0.contains(x) || x == e);
                    assert(h0.contains(x));
                    assert(d.timestamp <= x.timestamp);
                }
            } else {
                // the event inserted this round was itself evicted
                assert(d == e);
                assert(d.timestamp <= x.timestamp);
            }
        }
    }
}

pub struct RecentEventHistory {
    cap: usize,
    events: Vec<RecentEvent>,
}

impl RecentEventHistory {
    /// The events, oldest first.
    pub closed spec fn events_seq(&self) -> Seq<RecentEvent> {
        self.events@
    }

    /// The capacity bound the history was built with.
    pub closed spec fn cap_spec(&self) -> usize {
        self.cap
    }

    /// The size never exceeds the capacity and the order is chronological.
    pub open spec fn wf(&self) -> bool {
        &&& self.cap_spec() >= 1
        &&& self.events_seq().len() <= self.cap_spec()
        &&& sorted(self.events_seq())
    }

    /// An empty history with the given capacity bound.
    pub fn new(cap: usize) -> (r: Self)
        requires
            cap >= 1,
        ensures
            r.wf(),
            r.cap_spec() == cap,
            r.events_seq() == Seq::<RecentEvent>::empty(),
    {
        let r = RecentEventHistory { cap, events: Vec::new() };
        proof {
            assert(r.events_seq() =~= Seq::<RecentEvent>::empty());
        }
        r
    }

    pub fn len(&self) -> (r: usize)
        ensures
            r == self.events_seq().len(),
    {
        self.events.len()
    }

    pub fn get(&self, i: usize) -> (r: &RecentEvent)
        requires
            i < self.events_seq().len(),
        ensures
            *r == self.events_seq()[i as int],
    {
        &self.events[i]
    }

    /// Insert one completed run, evicting the chronologically oldest entry
    /// when the history is already at capacity.
    pub fn insert(&mut self, e: RecentEvent)
        requires
            old(self).wf(),
        ensures
            final(self).wf(),
            final(self).cap_spec() == old(self).cap_spec(),
            final(self).events_seq() == inserted(
                old(self).events_seq(),
                old(self).cap_spec(),
                e,
            ),
    {
        let ghost h0 = self.events@;
        let t = e.timestamp;
        let mut p: usize = 0;
        while p < self.events.len() && self.events[p].timestamp <= t
            invariant
                self == old(self),
                p <= self.events@.len(),
                forall|j: int| 0 <= j < p ==> self.events@[j].timestamp <= t,
            decreases self.events@.len() - p,
        {
            p = p + 1;
        }
        proof {
            lemma_insert_pos_unique(h0, t, p as int);
            lemma_sorted_after_insert(h0, e);
        }
        self.events.insert(p, e);
        if self.events.len() > self.cap {
            proof {
                lemma_sorted_drop_first(self.events@);
                assert(self.events@.remove(0) =~= self.events@.drop_first());
            }
            self.events.remove(0);
        }
    }
}

} // verus!
