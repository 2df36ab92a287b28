//! The collection window of one query: which answers are merged, and when
//! collection stops.

use vstd::prelude::*;
use crate::merge::{
    lemma_merge_concat, lemma_merge_urls_distinct, merge, merge_into, reversed, urls_distinct,
};
use crate::record::{records, Embryo, EmbryoList, Props};
use crate::registry::{texts, FilterRegistry};

verus! {

/// Why collection stopped.
#[derive(Clone, Copy, Debug, PartialEq, Eq, Structural)]
pub enum StopReason {
    /// Every call of the run has ended.
    Drained,
    /// The global deadline elapsed first. This is no error.
    DeadlineExceeded,
    /// The configured number of answers has been merged.
    MaxResponses,
}

/// What the collector is told.
#[derive(Clone, Debug, PartialEq, Eq)]
pub enum RunEvent {
    /// A call ended with an answer.
    Response(EmbryoList),
    /// A call ended without an answer.
    CallEnded,
    /// The global deadline elapsed.
    DeadlineElapsed,
}

/// The mathematical value of a `RunEvent`.
pub enum Arrival {
    Response(Seq<Props>),
    CallEnded,
    DeadlineElapsed,
}

impl View for RunEvent {
    type V = Arrival;

    open spec fn view(&self) -> Arrival {
        match *self {
            RunEvent::Response(list) => Arrival::Response(list@),
            RunEvent::CallEnded => Arrival::CallEnded,
            RunEvent::DeadlineElapsed => Arrival::DeadlineElapsed,
        }
    }
}

impl RunEvent {
    /// The event for a call that has ended: its answer if it published
    /// one, else the bare fact that it ended.
    pub fn of_call(answer: Option<EmbryoList>) -> (event: RunEvent)
        ensures
            event == (match answer {
                Some(list) => RunEvent::Response(list),
                None => RunEvent::CallEnded,
            }),
    {
        match answer {
            Some(list) => RunEvent::Response(list),
            None => RunEvent::CallEnded,
        }
    }
}

/// The mathematical value of an `AggregationRun`.
pub struct RunView {
    /// The endpoints to invoke: the registry as it was when the run began.
    pub targets: Seq<Seq<char>>,
    /// The records merged so far, in arrival order.
    pub merged: Seq<Props>,
    /// How many answers have been merged.
    pub received: nat,
    /// How many calls have not ended yet.
    pub pending: nat,
    /// After how many answers collection stops, if bounded.
    pub max_response: Option<nat>,
    /// Why collection stopped, once it has.
    pub stop: Option<StopReason>,
}

/// The bound as a number.
pub open spec fn limit_of(max_response: Option<usize>) -> Option<nat> {
    match max_response {
        Some(m) => Some(m as nat),
        None => None,
    }
}

/// Whether collection is over once `received` answers are merged and
/// `pending` calls are outstanding. The answer bound is looked at first.
pub open spec fn stop_after(received: nat, pending: nat, max_response: Option<nat>) -> Option<
    StopReason,
> {
    if max_response == Some(received) {
        Some(StopReason::MaxResponses)
    } else if pending == 0 {
        Some(StopReason::Drained)
    } else {
        None
    }
}

/// A run that has just begun on `targets`.
pub open spec fn opening(targets: Seq<Seq<char>>, max_response: Option<nat>) -> RunView {
    RunView {
        targets,
        merged: Seq::empty(),
        received: 0,
        pending: targets.len(),
        max_response,
        stop: stop_after(0, targets.len(), max_response),
    }
}

/// The run after one event. A stopped run ignores every event. Otherwise
/// the deadline stops it, a call that ends is counted, and an answer is
/// merged and counted.
pub open spec fn step(v: RunView, ev: Arrival) -> RunView {
    if v.stop is Some {
        v
    } else {
        match ev {
            Arrival::DeadlineElapsed => RunView {
                stop: Some(StopReason::DeadlineExceeded),
                ..v
            },
            Arrival::CallEnded => {
                let pending = (v.pending - 1) as nat;
                RunView { pending, stop: stop_after(v.received, pending, v.max_response), ..v }
            },
            Arrival::Response(list) => {
                let pending = (v.pending - 1) as nat;
                let received = v.received + 1;
                RunView {
                    merged: merge(v.merged, list),
                    received,
                    pending,
                    stop: stop_after(received, pending, v.max_response),
                    ..v
                }
            },
        }
    }
}

/// The run after the events `events`, first to last.
pub open spec fn step_all(v: RunView, events: Seq<Arrival>) -> RunView
    decreases events.len(),
{
    if events.len() == 0 {
        v
    } else {
        step(step_all(v, events.drop_last()), events.last())
    }
}

/// What holds of a run in every state.
pub open spec fn coherent(v: RunView) -> bool {
    &&& v.targets.no_duplicates()
    &&& v.received + v.pending <= v.targets.len()
    &&& v.stop is None ==> v.pending > 0
    &&& v.max_response matches Some(m) ==> v.received <= m && (v.received == m ==> v.stop is Some)
    &&& urls_distinct(v.merged)
}

/// A run that has just begun is coherent.
pub proof fn lemma_opening_coherent(targets: Seq<Seq<char>>, max_response: Option<nat>)
    requires
        targets.no_duplicates(),
    ensures
        coherent(opening(targets, max_response)),
{
}

/// Every event keeps a run coherent: the counters stay within the number of
/// targets, the answer bound is never passed, and no `url` occurs twice.
pub proof fn lemma_step_coherent(v: RunView, ev: Arrival)
    requires
        coherent(v),
    ensures
        coherent(step(v, ev)),
{
    if v.stop is None {
        match ev {
            Arrival::Response(list) => {
                lemma_merge_urls_distinct(v.merged, list);
            },
            _ => {},
        }
    }
}

/// The targets of a run are fixed when it begins: no event changes them.
pub proof fn lemma_targets_fixed(v: RunView, events: Seq<Arrival>)
    ensures
        step_all(v, events).targets == v.targets,
        step_all(v, events).max_response == v.max_response,
    decreases events.len(),
{
    if events.len() > 0 {
        lemma_targets_fixed(v, events.drop_last());
    }
}

/// Once collection has stopped, whatever arrives later is ignored.
pub proof fn lemma_stopped_ignores(v: RunView, later: Seq<Arrival>)
    requires
        v.stop is Some,
    ensures
        step_all(v, later) == v,
    decreases later.len(),
{
    if later.len() > 0 {
        lemma_stopped_ignores(v, later.drop_last());
    }
}

/// The deadline ends collection at once, with what was merged so far.
pub proof fn lemma_deadline_stops(v: RunView)
    ensures
        step(v, Arrival::DeadlineElapsed).stop is Some,
        step(v, Arrival::DeadlineElapsed).merged == v.merged,
{
}

/// After the deadline nothing is merged any more, whatever arrives.
pub proof fn lemma_deadline_is_final(v: RunView, later: Seq<Arrival>)
    ensures
        step_all(step(v, Arrival::DeadlineElapsed), later).merged == v.merged,
{
    lemma_stopped_ignores(step(v, Arrival::DeadlineElapsed), later);
}

/// Collection ends by itself: once as many events have been taken as calls
/// were outstanding, the run has stopped.
pub proof fn lemma_run_drains(v: RunView, events: Seq<Arrival>)
    requires
        coherent(v),
        events.len() >= v.pending,
    ensures
        step_all(v, events).stop is Some,
{
    lemma_pending_counts_down(v, events);
}

/// While a run listens, each event it took has ended one call.
pub proof fn lemma_pending_counts_down(v: RunView, events: Seq<Arrival>)
    requires
        coherent(v),
    ensures
        coherent(step_all(v, events)),
        step_all(v, events).stop is None ==> step_all(v, events).pending + events.len()
            == v.pending,
    decreases events.len(),
{
    if events.len() > 0 {
        lemma_pending_counts_down(v, events.drop_last());
        lemma_step_coherent(step_all(v, events.drop_last()), events.last());
    }
}

/// With the bound reached, collection is over: answers that arrive after
/// the bound-th merged answer add nothing.
pub proof fn lemma_bound_reached_stops(v: RunView, later: Seq<Arrival>)
    requires
        coherent(v),
        v.max_response == Some(v.received),
    ensures
        v.stop is Some,
        step_all(v, later).merged == v.merged,
{
    lemma_stopped_ignores(v, later);
}

/// The records of the answers among `events` that reach the merge, in
/// arrival order: those that arrive while the run still listens.
pub open spec fn taken(v: RunView, events: Seq<Arrival>) -> Seq<Props>
    decreases events.len(),
{
    if events.len() == 0 {
        Seq::empty()
    } else {
        let before = step_all(v, events.drop_last());
        let earlier = taken(v, events.drop_last());
        match events.last() {
            Arrival::Response(list) => if before.stop is None {
                earlier + list
            } else {
                earlier
            },
            _ => earlier,
        }
    }
}

/// Answers are folded in arrival order: what a run has merged is the merge
/// of the answers it took, one after the other, into what it had.
pub proof fn lemma_merged_in_arrival_order(v: RunView, events: Seq<Arrival>)
    ensures
        step_all(v, events).merged == merge(v.merged, taken(v, events)),
    decreases events.len(),
{
    if events.len() > 0 {
        let front = events.drop_last();
        lemma_merged_in_arrival_order(v, front);
        let before = step_all(v, front);
        match events.last() {
            Arrival::Response(list) => {
                if before.stop is None {
                    lemma_merge_concat(v.merged, taken(v, front), list);
                }
            },
            _ => {},
        }
    }
}

/// The context of one query: the endpoints to invoke, the records merged so
/// far, and the counters that decide when collection is over.
pub struct AggregationRun {
    targets: Vec<String>,
    merged: Vec<Embryo>,
    received: usize,
    pending: usize,
    max_response: Option<usize>,
    stop: Option<StopReason>,
}

impl View for AggregationRun {
    type V = RunView;

    closed spec fn view(&self) -> RunView {
        RunView {
            targets: texts(self.targets@),
            merged: records(self.merged@),
            received: self.received as nat,
            pending: self.pending as nat,
            max_response: limit_of(self.max_response),
            stop: self.stop,
        }
    }
}

impl AggregationRun {
    /// The run's value is coherent.
    pub open spec fn wf(&self) -> bool {
        coherent(self@)
    }

    /// Begins a run: copies the members of `registry` as they are now.
    /// Later changes to the registry do not reach the run.
    pub fn begin(registry: &FilterRegistry, max_response: Option<usize>) -> (run: Self)
        requires
            registry.wf(),
        ensures
            run.wf(),
            run@.targets.to_set() == registry@,
            run@ == opening(run@.targets, limit_of(max_response)),
    {
        let targets = registry.snapshot();
        let pending: usize = targets.len();
        let stop = if max_response == Some(0usize) {
            Some(StopReason::MaxResponses)
        } else if pending == 0 {
            Some(StopReason::Drained)
        } else {
            None
        };
        let run = AggregationRun {
            targets,
            merged: Vec::new(),
            received: 0,
            pending,
            max_response,
            stop,
        };
        proof {
            assert(records(run.merged@) =~= Seq::<Props>::empty());
        }
        run
    }

    /// The endpoints to invoke, each exactly once.
    pub fn targets(&self) -> (t: &Vec<String>)
        ensures
            texts(t@) == self@.targets,
    {
        &self.targets
    }

    /// Why collection stopped, or `None` while it goes on.
    pub fn stopped(&self) -> (s: Option<StopReason>)
        ensures
            s == self@.stop,
    {
        self.stop
    }

    /// How many answers have been merged.
    pub fn received(&self) -> (n: usize)
        ensures
            n == self@.received,
    {
        self.received
    }

    /// How many calls have not ended yet.
    pub fn pending(&self) -> (n: usize)
        ensures
            n == self@.pending,
    {
        self.pending
    }

    /// Takes one event. Returns whether collection goes on.
    pub fn on_event(&mut self, event: RunEvent) -> (listening: bool)
        requires
            old(self).wf(),
        ensures
            final(self).wf(),
            final(self)@ == step(old(self)@, event@),
            final(self)@.targets == old(self)@.targets,
            listening == (final(self)@.stop is None),
    {
        proof {
            lemma_step_coherent(self@, event@);
        }
        let total: usize = self.targets.len();
        if self.stop.is_some() {
            return false;
        }
        assert(self.received + self.pending <= total);
        match event {
            RunEvent::DeadlineElapsed => {
                self.stop = Some(StopReason::DeadlineExceeded);
            },
            RunEvent::CallEnded => {
                self.pending = self.pending - 1;
                self.stop = self.stop_now();
            },
            RunEvent::Response(list) => {
                merge_into(&mut self.merged, list.embryo_list);
                self.pending = self.pending - 1;
                self.received = self.received + 1;
                self.stop = self.stop_now();
            },
        }
        self.stop.is_none()
    }

    fn stop_now(&self) -> (s: Option<StopReason>)
        ensures
            s == stop_after(self@.received, self@.pending, self@.max_response),
    {
        let full = match self.max_response {
            Some(m) => m == self.received,
            None => false,
        };
        if full {
            Some(StopReason::MaxResponses)
        } else if self.pending == 0 {
            Some(StopReason::Drained)
        } else {
            None
        }
    }

    /// Takes the events of `events` in order, as far as collection goes on.
    pub fn on_events(&mut self, events: Vec<RunEvent>) -> (listening: bool)
        requires
            old(self).wf(),
        ensures
            final(self).wf(),
            final(self)@ == step_all(old(self)@, arrivals(events@)),
            listening == (final(self)@.stop is None),
    {
        let ghost start = self@;
        let ghost all = arrivals(events@);
        let n: usize = events.len();
        let mut stack: Vec<RunEvent> = reversed(events);
        let mut done: usize = 0;
        assert(all.take(0) =~= Seq::<Arrival>::empty());
        while stack.len() > 0
            invariant
                done + stack@.len() == n,
                n == all.len(),
                forall|k: int| 0 <= k < stack@.len() ==> (#[trigger] stack@[k])@ == all[n - 1 - k],
                self.wf(),
                self@ == step_all(start, all.take(done as int)),
            decreases stack@.len(),
        {
            match stack.pop() {
                Some(e) => {
                    proof {
                        assert(e@ == all[done as int]);
                        assert(all.take(done + 1).drop_last() =~= all.take(done as int));
                        assert(all.take(done + 1).last() == all[done as int]);
                    }
                    let _more: bool = self.on_event(e);
                    done = done + 1;
                },
                None => {},
            }
        }
        assert(all.take(n as int) =~= all);
        self.stop.is_none()
    }

    /// Ends the run and hands out what was merged, whether or not
    /// collection had stopped.
    pub fn finish(self) -> (list: EmbryoList)
        ensures
            list@ == self@.merged,
    {
        EmbryoList { embryo_list: self.merged }
    }
}

/// The values of a sequence of events.
pub open spec fn arrivals(events: Seq<RunEvent>) -> Seq<Arrival> {
    Seq::new(events.len(), |i: int| events[i]@)
}

} // verus!
