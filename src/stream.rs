use vstd::prelude::*;

use crate::registry::Pending;

verus! {

/// What a result stream holds: the number of tasks in flight and the results
/// delivered so far, in order of delivery.
pub struct StreamState<T> {
    pub in_flight: nat,
    pub items: Seq<T>,
}

/// One step in the life of a submitted task, as the result stream sees it.
pub enum StreamEvent<T> {
    /// The task starts: one more in flight.
    Start,
    /// The task delivers its result.
    Deliver(T),
    /// The task finishes: one fewer in flight, never below zero.
    Finish,
}

/// The state after one event.
pub open spec fn step<T>(s: StreamState<T>, e: StreamEvent<T>) -> StreamState<T> {
    match e {
        StreamEvent::Start => StreamState { in_flight: s.in_flight + 1, items: s.items },
        StreamEvent::Deliver(x) => StreamState { in_flight: s.in_flight, items: s.items.push(x) },
        StreamEvent::Finish => StreamState {
            in_flight: if s.in_flight > 0 {
                (s.in_flight - 1) as nat
            } else {
                0
            },
            items: s.items,
        },
    }
}

/// The state after a sequence of events, applied in order.
pub open spec fn run<T>(s: StreamState<T>, evs: Seq<StreamEvent<T>>) -> StreamState<T>
    decreases evs.len(),
{
    if evs.len() == 0 {
        s
    } else {
        step(run(s, evs.drop_last()), evs.last())
    }
}

/// How many events of `evs` start a task.
pub open spec fn starts<T>(evs: Seq<StreamEvent<T>>) -> nat
    decreases evs.len(),
{
    if evs.len() == 0 {
        0
    } else {
        starts(evs.drop_last()) + if evs.last() is Start {
            1nat
        } else {
            0nat
        }
    }
}

/// How many events of `evs` finish a task.
pub open spec fn finishes<T>(evs: Seq<StreamEvent<T>>) -> nat
    decreases evs.len(),
{
    if evs.len() == 0 {
        0
    } else {
        finishes(evs.drop_last()) + if evs.last() is Finish {
            1nat
        } else {
            0nat
        }
    }
}

/// The results that `evs` deliver, in order.
pub open spec fn delivered<T>(evs: Seq<StreamEvent<T>>) -> Seq<T>
    decreases evs.len(),
{
    if evs.len() == 0 {
        Seq::empty()
    } else {
        match evs.last() {
            StreamEvent::Deliver(x) => delivered(evs.drop_last()).push(x),
            _ => delivered(evs.drop_last()),
        }
    }
}

/// No prefix of `evs` finishes more tasks than were in flight before it
/// plus those it started: every task finishes only after it started.
pub open spec fn well_bracketed<T>(in_flight: nat, evs: Seq<StreamEvent<T>>) -> bool {
    forall|k: int| 0 <= k <= evs.len() ==> finishes(#[trigger] evs.take(k)) <= in_flight + starts(evs.take(k))
}

/// Over any interleaving of task events in which no task finishes before it
/// starts, the stream counts exactly the tasks started and not finished, and
/// holds the earlier results followed by the delivered ones.
pub proof fn lemma_run_counts<T>(s: StreamState<T>, evs: Seq<StreamEvent<T>>)
    requires
        well_bracketed(s.in_flight, evs),
    ensures
        run(s, evs).in_flight + finishes(evs) == s.in_flight + starts(evs),
        run(s, evs).items == s.items + delivered(evs),
    decreases evs.len(),
{
    if evs.len() == 0 {
        assert(s.items + Seq::<T>::empty() =~= s.items);
    } else {
        let pre = evs.drop_last();
        assert forall|k: int| 0 <= k <= pre.len() implies finishes(#[trigger] pre.take(k))
            <= s.in_flight + starts(pre.take(k)) by {
            assert(pre.take(k) =~= evs.take(k));
        }
        lemma_run_counts(s, pre);
        assert(evs.take(evs.len() as int) =~= evs);
        match evs.last() {
            StreamEvent::Deliver(x) => {
                assert(s.items + delivered(pre).push(x) =~= (s.items + delivered(pre)).push(x));
            },
            _ => {},
        }
    }
}

/// Delivery: when every one of `n` tasks starts, delivers one result and
/// finishes, in any well-bracketed interleaving, on a stream with nothing in
/// flight, the stream ends with nothing in flight and exactly `n` more results.
pub proof fn lemma_delivery<T>(s: StreamState<T>, evs: Seq<StreamEvent<T>>, n: nat)
    requires
        s.in_flight == 0,
        well_bracketed(s.in_flight, evs),
        starts(evs) == n,
        finishes(evs) == n,
        delivered(evs).len() == n,
    ensures
        run(s, evs).in_flight == 0,
        run(s, evs).items.len() == s.items.len() + n,
        run(s, evs).items.subrange(s.items.len() as int, (s.items.len() + n) as int) == delivered(evs),
{
    lemma_run_counts(s, evs);
    assert(run(s, evs).items.subrange(s.items.len() as int, (s.items.len() + n) as int) =~= delivered(evs));
}

/// Delivery at a full drain: when a full drain hands out the registered
/// tasks, and each of them starts, delivers one result and finishes, in any
/// well-bracketed interleaving on a stream that had nothing in flight, the
/// stream ends with nothing in flight, so it reports empty, and holds one new
/// result for each registered task.
pub proof fn lemma_full_drain_delivers<H, T>(
    registered: Seq<Pending<H>>,
    drained: Seq<Pending<H>>,
    s: StreamState<T>,
    evs: Seq<StreamEvent<T>>,
)
    requires
        drained.to_multiset() == registered.to_multiset(),
        s.in_flight == 0,
        well_bracketed(s.in_flight, evs),
        starts(evs) == drained.len(),
        finishes(evs) == drained.len(),
        delivered(evs).len() == drained.len(),
    ensures
        run(s, evs).in_flight == 0,
        run(s, evs).items.len() == s.items.len() + registered.len(),
        run(s, evs).items.subrange(s.items.len() as int, (s.items.len() + registered.len()) as int)
            == delivered(evs),
{
    drained.to_multiset_ensures();
    registered.to_multiset_ensures();
    lemma_delivery(s, evs, drained.len());
}

/// Accumulates completed results and counts the tasks in flight.
pub struct ResultStream<T> {
    in_flight: usize,
    items: Vec<T>,
}

impl<T> View for ResultStream<T> {
    type V = StreamState<T>;

    closed spec fn view(&self) -> StreamState<T> {
        StreamState { in_flight: self.in_flight as nat, items: self.items@ }
    }
}

impl<T> ResultStream<T> {
    /// An empty stream with nothing in flight.
    pub fn new() -> (r: ResultStream<T>)
        ensures
            r@.in_flight == 0,
            r@.items.len() == 0,
    {
        ResultStream { in_flight: 0, items: Vec::new() }
    }

    /// Marks one more task in flight.
    pub fn increment(&mut self)
        requires
            old(self)@.in_flight < usize::MAX,
        ensures
            final(self)@ == step(old(self)@, StreamEvent::Start),
    {
        self.in_flight = self.in_flight + 1;
    }

    /// Records one completed result.
    pub fn insert_item(&mut self, item: T)
        ensures
            final(self)@ == step(old(self)@, StreamEvent::Deliver(item)),
    {
        self.items.push(item);
    }

    /// Marks one fewer task in flight; a count already at zero stays there.
    pub fn decrement_task_count(&mut self)
        ensures
            final(self)@ == step(old(self)@, StreamEvent::<T>::Finish),
    {
        if self.in_flight > 0 {
            self.in_flight = self.in_flight - 1;
        }
    }

    /// The number of tasks in flight.
    pub fn task_count(&self) -> (r: usize)
        ensures
            r == self@.in_flight,
    {
        self.in_flight
    }

    /// Whether no task is in flight.
    pub fn is_empty(&self) -> (r: bool)
        ensures
            r == (self@.in_flight == 0),
    {
        self.in_flight == 0
    }

    /// Discards what the stream tracks: nothing is in flight and no result is held.
    pub fn cancel_tasks(&mut self)
        ensures
            final(self)@.in_flight == 0,
            final(self)@.items.len() == 0,
    {
        self.in_flight = 0;
        self.items.clear();
    }

    /// The results delivered so far, in order of delivery.
    pub fn items(&self) -> (r: &Vec<T>)
        ensures
            r@ == self@.items,
    {
        &self.items
    }

    /// The number of results held.
    pub fn len(&self) -> (r: usize)
        ensures
            r == self@.items.len(),
    {
        self.items.len()
    }
}

} // verus!
