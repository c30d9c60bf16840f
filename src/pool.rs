use vstd::prelude::*;

use crate::filter::{fits_spec, Filter, FilterView};
use crate::report::Tram;

verus! {

/// The per-connection state of a subscriber: its filter (none admits every
/// report) and whether its connection has irrecoverably failed.
pub struct UserState {
    pub filter: Option<Filter>,
    pub dead: bool,
}

impl UserState {
    /// A live subscriber without a filter.
    pub fn new() -> (u: UserState)
        ensures
            u.filter is None,
            !u.dead,
    {
        UserState { filter: None, dead: false }
    }
}

/// The abstract state of one subscriber.
pub struct SubscriberView {
    pub id: u64,
    pub filter: Option<FilterView>,
    pub dead: bool,
}

/// One registered subscriber, known to the transport by its `id`.
pub struct Subscriber {
    pub id: u64,
    pub state: UserState,
}

impl View for Subscriber {
    type V = SubscriberView;

    open spec fn view(&self) -> SubscriberView {
        SubscriberView {
            id: self.id,
            filter: match self.state.filter {
                Some(f) => Some(f@),
                None => None,
            },
            dead: self.state.dead,
        }
    }
}

/// Whether a subscriber with filter `filter` (none admits everything) wants
/// `t`.
pub open spec fn admits(filter: Option<FilterView>, t: Tram) -> bool {
    match filter {
        None => true,
        Some(f) => fits_spec(f, t),
    }
}

/// Whether a publish pass sends `t` to subscriber `s`.
pub open spec fn delivers(s: SubscriberView, t: Tram) -> bool {
    !s.dead && admits(s.filter, t)
}

/// No subscriber of `subs` is dead.
pub open spec fn all_live(subs: Seq<SubscriberView>) -> bool {
    forall|i: int| 0 <= i < subs.len() ==> !(#[trigger] subs[i]).dead
}

/// The subscribers of `subs` that are not dead, in their order.
pub open spec fn live(subs: Seq<SubscriberView>) -> Seq<SubscriberView>
    decreases subs.len(),
{
    if subs.len() == 0 {
        Seq::empty()
    } else {
        let rest = live(subs.drop_last());
        if subs.last().dead {
            rest
        } else {
            rest.push(subs.last())
        }
    }
}

/// Subscriber ids increase in registration order and stay below `next`.
pub open spec fn ids_ordered(subs: Seq<SubscriberView>, next: u64) -> bool {
    &&& forall|i: int, j: int| 0 <= i < j < subs.len() ==> subs[i].id < subs[j].id
    &&& forall|i: int| 0 <= i < subs.len() ==> #[trigger] subs[i].id < next
}

/// What one publish pass observed of one subscriber's connection.
pub enum Outcome {
    /// Every write and read completed; no filter update arrived.
    Alive,
    /// Every write and read completed and the subscriber sent a new filter.
    Refiltered(Filter),
    /// A write or read failed or ran past its deadline.
    Failed,
}

/// The abstract form of an [`Outcome`].
pub enum OutcomeView {
    Alive,
    Refiltered(FilterView),
    Failed,
}

impl View for Outcome {
    type V = OutcomeView;

    open spec fn view(&self) -> OutcomeView {
        match self {
            Outcome::Alive => OutcomeView::Alive,
            Outcome::Refiltered(f) => OutcomeView::Refiltered(f@),
            Outcome::Failed => OutcomeView::Failed,
        }
    }
}

/// Subscriber `s` after a pass that observed `o`.
pub open spec fn observe(s: SubscriberView, o: OutcomeView) -> SubscriberView {
    match o {
        OutcomeView::Alive => s,
        OutcomeView::Refiltered(f) => SubscriberView { filter: Some(f), ..s },
        OutcomeView::Failed => SubscriberView { dead: true, ..s },
    }
}

/// The first `n` subscribers of `subs` after observing their outcomes, the
/// others as they were.
pub open spec fn observe_prefix(subs: Seq<SubscriberView>, outs: Seq<OutcomeView>, n: int) -> Seq<
    SubscriberView,
> {
    Seq::new(subs.len(), |j: int| if j < n { observe(subs[j], outs[j]) } else { subs[j] })
}

/// The pool after a publish pass: each subscriber observes its outcome, and
/// the dead are removed.
pub open spec fn after_pass(subs: Seq<SubscriberView>, outs: Seq<OutcomeView>) -> Seq<SubscriberView> {
    live(observe_prefix(subs, outs, subs.len() as int))
}

/// The live subscriber connections, in registration order.
pub struct ConnectionPool {
    subscribers: Vec<Subscriber>,
    next_id: u64,
}

impl View for ConnectionPool {
    type V = Seq<SubscriberView>;

    closed spec fn view(&self) -> Seq<SubscriberView> {
        self.subscribers@.map_values(|s: Subscriber| s@)
    }
}

impl ConnectionPool {
    /// The id the next registered subscriber receives.
    pub closed spec fn next_id(&self) -> u64 {
        self.next_id
    }

    /// Ids are unique: they increase in registration order.
    pub open spec fn ordered(&self) -> bool {
        ids_ordered(self@, self.next_id())
    }

    /// Ids are unique, and between publish passes every registered
    /// subscriber is live.
    pub open spec fn wf(&self) -> bool {
        self.ordered() && all_live(self@)
    }

    /// A pool without subscribers.
    pub fn new() -> (p: ConnectionPool)
        ensures
            p.wf(),
            p@ == Seq::<SubscriberView>::empty(),
    {
        let p = ConnectionPool { subscribers: Vec::new(), next_id: 0 };
        assert(p@ =~= Seq::<SubscriberView>::empty());
        p
    }

    /// The number of registered subscribers.
    pub fn len(&self) -> (n: usize)
        ensures
            n == self@.len(),
    {
        self.subscribers.len()
    }

    /// The id of the subscriber at `index`.
    pub fn id_at(&self, index: usize) -> (id: u64)
        requires
            index < self@.len(),
        ensures
            id == self@[index as int].id,
    {
        self.subscribers[index].id
    }

    /// Registers a live subscriber without a filter at the end of the pool
    /// and returns its id; `None`, with the pool unchanged, once ids are
    /// exhausted.
    pub fn push(&mut self) -> (r: Option<u64>)
        requires
            old(self).wf(),
        ensures
            final(self).wf(),
            match r {
                Some(id) => final(self)@ == old(self)@.push(
                    SubscriberView { id, filter: None, dead: false },
                ),
                None => final(self)@ == old(self)@,
            },
            r is None <==> old(self).next_id() == u64::MAX,
    {
        if self.next_id == u64::MAX {
            return None;
        }
        let id = self.next_id;
        self.subscribers.push(Subscriber { id, state: UserState::new() });
        self.next_id = id + 1;
        assert(self@ =~= old(self)@.push(SubscriberView { id, filter: None, dead: false }));
        Some(id)
    }

    /// For each subscriber in order, whether a publish pass sends `t` to it.
    /// Every subscriber is live, so it receives `t` exactly when its filter
    /// admits `t`.
    pub fn recipients(&self, t: &Tram) -> (r: Vec<bool>)
        requires
            self.wf(),
        ensures
            r@.len() == self@.len(),
            forall|i: int| 0 <= i < r@.len() ==> r@[i] == delivers(#[trigger] self@[i], *t),
            forall|i: int| 0 <= i < r@.len() ==> r@[i] == admits(#[trigger] self@[i].filter, *t),
    {
        let mut r: Vec<bool> = Vec::new();
        let mut i: usize = 0;
        while i < self.subscribers.len()
            invariant
                self.wf(),
                i <= self@.len(),
                r@.len() == i,
                forall|j: int| 0 <= j < i ==> r@[j] == delivers(#[trigger] self@[j], *t),
            decreases self@.len() - i,
        {
            let s = &self.subscribers[i];
            let d = !s.state.dead && match &s.state.filter {
                None => true,
                Some(f) => f.fits(t),
            };
            r.push(d);
            i = i + 1;
        }
        r
    }

    /// Replaces the filter of the subscriber at `index` with one it sent.
    pub fn set_filter(&mut self, index: usize, filter: Filter)
        requires
            old(self).ordered(),
            index < old(self)@.len(),
        ensures
            final(self).ordered(),
            old(self).wf() ==> final(self).wf(),
            final(self)@ == old(self)@.update(
                index as int,
                SubscriberView { filter: Some(filter@), ..old(self)@[index as int] },
            ),
    {
        let ghost before = self.subscribers@;
        let mut subs = Vec::new();
        std::mem::swap(&mut subs, &mut self.subscribers);
        let mut s = subs.remove(index);
        s.state.filter = Some(filter);
        subs.insert(index, s);
        std::mem::swap(&mut subs, &mut self.subscribers);
        assert(self.subscribers@ == before.update(index as int, s));
        assert(self@ =~= old(self)@.update(
            index as int,
            SubscriberView { filter: Some(filter@), ..old(self)@[index as int] },
        ));
    }

    /// Marks the subscriber at `index` dead after a failed or timed-out read
    /// or write.
    fn mark_dead(&mut self, index: usize)
        requires
            old(self).ordered(),
            index < old(self)@.len(),
        ensures
            final(self).ordered(),
            final(self)@ == old(self)@.update(
                index as int,
                SubscriberView { dead: true, ..old(self)@[index as int] },
            ),
    {
        let ghost before = self.subscribers@;
        let mut subs = Vec::new();
        std::mem::swap(&mut subs, &mut self.subscribers);
        let mut s = subs.remove(index);
        s.state.dead = true;
        subs.insert(index, s);
        std::mem::swap(&mut subs, &mut self.subscribers);
        assert(self.subscribers@ == before.update(index as int, s));
        assert(self@ =~= old(self)@.update(
            index as int,
            SubscriberView { dead: true, ..old(self)@[index as int] },
        ));
    }

    /// Completes a publish pass: each subscriber, in order, observes the
    /// outcome of its writes and reads (a new filter replaces the old one, a
    /// failure marks it dead), then every dead subscriber is removed.
    pub fn finish_publish(&mut self, outcomes: Vec<Outcome>)
        requires
            old(self).wf(),
            outcomes@.len() == old(self)@.len(),
        ensures
            final(self).wf(),
            final(self)@ == after_pass(old(self)@, outcomes@.map_values(|o: Outcome| o@)),
    {
        let ghost before = self@;
        let ghost outs = outcomes@.map_values(|o: Outcome| o@);
        let ghost src = outcomes@;
        let n = outcomes.len();
        let mut i: usize = 0;
        for o in it: outcomes.into_iter()
            invariant
                it.seq() == src,
                i == it.index(),
                n == src.len(),
                src.len() == before.len(),
                outs == src.map_values(|o: Outcome| o@),
                self.ordered(),
                self@ == observe_prefix(before, outs, i as int),
        {
            proof {
                assert(it.seq()[it.index()] == o);
            }
            assert(i < n);
            match o {
                Outcome::Alive => {},
                Outcome::Refiltered(f) => {
                    self.set_filter(i, f);
                },
                Outcome::Failed => {
                    self.mark_dead(i);
                },
            }
            assert(self@ =~= observe_prefix(before, outs, i + 1));
            i = i + 1;
        }
        self.remove_dead();
    }

    /// Removes every dead subscriber, keeping the order of the others.
    fn remove_dead(&mut self)
        requires
            old(self).ordered(),
        ensures
            final(self).wf(),
            final(self)@ == live(old(self)@),
    {
        let ghost before = self@;
        let mut old_subs = Vec::new();
        std::mem::swap(&mut old_subs, &mut self.subscribers);
        let ghost src = old_subs@;
        assert(src.map_values(|s: Subscriber| s@) == before);
        let mut kept: Vec<Subscriber> = Vec::new();
        for s in it: old_subs.into_iter()
            invariant
                it.seq() == src,
                kept@.map_values(|s: Subscriber| s@) == live(before.take(it.index())),
                before == src.map_values(|s: Subscriber| s@),
        {
            proof {
                assert(it.seq()[it.index()] == s);
                assert(before.take(it.index() + 1).drop_last() =~= before.take(it.index()));
            }
            if !s.state.dead {
                kept.push(s);
                assert(kept@.map_values(|s: Subscriber| s@) =~= live(before.take(it.index() + 1)));
            }
        }
        assert(before.take(before.len() as int) =~= before);
        self.subscribers = kept;
        proof {
            lemma_live_ordered(before, self.next_id);
        }
    }
}

/// Dropping dead subscribers keeps ids ordered.
pub proof fn lemma_live_ordered(subs: Seq<SubscriberView>, next: u64)
    requires
        ids_ordered(subs, next),
    ensures
        ids_ordered(live(subs), next),
        forall|i: int|
            0 <= i < live(subs).len() ==> !(#[trigger] live(subs)[i]).dead && subs.contains(live(subs)[i]),
    decreases subs.len(),
{
    if subs.len() > 0 {
        let init = subs.drop_last();
        assert(ids_ordered(init, next));
        lemma_live_ordered(init, next);
        let rest = live(init);
        if !subs.last().dead {
            assert forall|i: int| 0 <= i < rest.len() implies rest[i].id < subs.last().id by {
                assert(init.contains(rest[i]));
                let k = choose|k: int| 0 <= k < init.len() && init[k] == rest[i];
                assert(subs[k] == init[k]);
            }
        }
        assert forall|i: int| 0 <= i < live(subs).len() implies subs.contains(#[trigger] live(subs)[i]) by {
            if i < rest.len() {
                assert(init.contains(rest[i]));
                let k = choose|k: int| 0 <= k < init.len() && init[k] == rest[i];
                assert(subs[k] == init[k]);
            } else {
                assert(subs[subs.len() - 1] == subs.last());
            }
        }
    }
}

/// Once dead subscribers have been removed, no remaining subscriber carries
/// the id of one that was dead.
pub proof fn lemma_dead_absent(subs: Seq<SubscriberView>, next: u64, i: int)
    requires
        ids_ordered(subs, next),
        0 <= i < subs.len(),
        subs[i].dead,
    ensures
        forall|j: int| 0 <= j < live(subs).len() ==> (#[trigger] live(subs)[j]).id != subs[i].id,
{
    lemma_live_ordered(subs, next);
    assert forall|j: int| 0 <= j < live(subs).len() implies (#[trigger] live(subs)[j]).id != subs[i].id by {
        let x = live(subs)[j];
        let k = choose|k: int| 0 <= k < subs.len() && subs[k] == x;
        if k != i && x.id == subs[i].id {
            if k < i {
                assert(subs[k].id < subs[i].id);
            } else {
                assert(subs[i].id < subs[k].id);
            }
        }
    }
}

/// A subscriber whose write or read failed or ran past its deadline during a
/// publish pass is absent from the pool when the pass completes, so the next
/// pass does not reach it.
pub proof fn lemma_failed_evicted(subs: Seq<SubscriberView>, next: u64, outs: Seq<OutcomeView>, i: int)
    requires
        ids_ordered(subs, next),
        outs.len() == subs.len(),
        0 <= i < subs.len(),
        outs[i] is Failed,
    ensures
        forall|j: int|
            0 <= j < after_pass(subs, outs).len() ==> (#[trigger] after_pass(subs, outs)[j]).id != subs[i].id,
{
    let m = observe_prefix(subs, outs, subs.len() as int);
    assert(ids_ordered(m, next));
    assert(m[i].dead);
    lemma_dead_absent(m, next, i);
}

} // verus!
