//! The scatter-gather episode: one query is fanned out to a set of workers,
//! each reply or failure is fed back to a single serialized intake point, and
//! the episode terminates exactly once — either when every worker has been
//! heard from (`Complete`) or when the deadline signal arrives (`Timeout`).
//! Replies arriving after termination are discarded.
//!
//! This module holds the whole decision logic of an episode as plain data and
//! transition functions; the surrounding program supplies the concurrency
//! (tasks, channels, a timer) and feeds the serialized event stream in.

use vstd::prelude::*;

use crate::assoc::assoc_contains;
use crate::assoc::assoc_distinct;
use crate::assoc::assoc_keys;
use crate::assoc::assoc_lookup;
use crate::assoc::lemma_assoc_at;
use crate::assoc::lemma_assoc_iff;
use crate::assoc::lemma_keys_contains_push;
use crate::assoc::lemma_keys_contains_push_inv;

verus! {

/// A successful worker reply: the worker's identity and the results it found.
pub struct ResultsTop {
    pub api: String,
    pub top: Vec<String>,
}

/// One signal consumed at the coordinator's serialized intake point.
pub enum Event {
    /// A worker replied successfully.
    Reply(ResultsTop),
    /// A worker's capability call failed; it still counts toward completeness.
    Failure(String),
    /// The timer's single deadline signal.
    TimeOut,
}

/// How an episode ended.
#[derive(Debug, Clone, Copy, PartialEq, Eq, Structural)]
pub enum Outcome {
    /// Every worker was heard from before the deadline.
    Complete,
    /// The deadline arrived first.
    Timeout,
}

/// The worker set was malformed: two workers carried the same identifier.
#[derive(Debug, Clone, Copy, PartialEq, Eq, Structural)]
pub enum ConfigError {
    DuplicateWorkerId,
}

/// The mathematical image of an `Event`.
pub ghost enum EventModel {
    Reply { api: Seq<char>, top: Seq<Seq<char>> },
    Failure { api: Seq<char> },
    TimeOut,
}

/// The mathematical state of one episode.
pub ghost struct EpisodeModel {
    /// The identifiers of all workers of this episode, in dispatch order.
    pub expected: Seq<Seq<char>>,
    /// The aggregation mapping, as (identifier, results) pairs in arrival order.
    pub results: Seq<(Seq<char>, Seq<Seq<char>>)>,
    /// The identifiers heard from so far, successes and failures alike.
    pub replied: Seq<Seq<char>>,
    /// `None` while the episode is running, set exactly once at termination.
    pub outcome: Option<Outcome>,
}

/// `x` occurs in `ids`.
pub open spec fn contains_id(ids: Seq<Seq<char>>, x: Seq<char>) -> bool {
    assoc_contains(ids, x)
}

/// No identifier occurs twice.
pub open spec fn distinct_ids(ids: Seq<Seq<char>>) -> bool {
    assoc_distinct(ids)
}

/// The keys of the aggregation mapping, in arrival order.
pub open spec fn result_keys(rs: Seq<(Seq<char>, Seq<Seq<char>>)>) -> Seq<Seq<char>> {
    assoc_keys(rs)
}

/// The value stored under `k`, if any.
pub open spec fn lookup(rs: Seq<(Seq<char>, Seq<Seq<char>>)>, k: Seq<char>) -> Option<
    Seq<Seq<char>>,
> {
    assoc_lookup(rs, k)
}

impl EpisodeModel {
    /// The state right after dispatch: nothing heard, and an empty worker set
    /// terminates on the spot with an empty mapping.
    pub open spec fn init(expected: Seq<Seq<char>>) -> EpisodeModel {
        EpisodeModel {
            expected: expected,
            results: Seq::empty(),
            replied: Seq::empty(),
            outcome: if expected.len() == 0 {
                Some(Outcome::Complete)
            } else {
                None
            },
        }
    }

    pub open spec fn terminated(self) -> bool {
        self.outcome is Some
    }

    /// A reply or failure from `api` is taken into account only while the
    /// episode runs, only for a worker of this episode, and only once: a
    /// second signal from a worker already heard from is discarded and the
    /// first result kept.  Each worker replies at most once per episode, so
    /// the case never arises in a well-formed episode; discarding (rather
    /// than overwriting) keeps the reply counter in step with the mapping,
    /// which the exactly-once termination rule rests on.
    pub open spec fn accepts(self, api: Seq<char>) -> bool {
        &&& !self.terminated()
        &&& contains_id(self.expected, api)
        &&& !contains_id(self.replied, api)
    }

    /// The first-writer-wins transition of the serialized intake point.
    /// A terminated episode absorbs every further signal unchanged.
    pub open spec fn step(self, e: EventModel) -> EpisodeModel {
        if self.terminated() {
            self
        } else {
            match e {
                EventModel::Reply { api, top } => {
                    if self.accepts(api) {
                        EpisodeModel {
                            expected: self.expected,
                            results: self.results.push((api, top)),
                            replied: self.replied.push(api),
                            outcome: if self.replied.len() + 1 == self.expected.len() {
                                Some(Outcome::Complete)
                            } else {
                                None
                            },
                        }
                    } else {
                        self
                    }
                },
                EventModel::Failure { api } => {
                    if self.accepts(api) {
                        EpisodeModel {
                            expected: self.expected,
                            results: self.results,
                            replied: self.replied.push(api),
                            outcome: if self.replied.len() + 1 == self.expected.len() {
                                Some(Outcome::Complete)
                            } else {
                                None
                            },
                        }
                    } else {
                        self
                    }
                },
                EventModel::TimeOut => EpisodeModel {
                    expected: self.expected,
                    results: self.results,
                    replied: self.replied,
                    outcome: Some(Outcome::Timeout),
                },
            }
        }
    }

    /// Folding a whole serialized event stream through `step`.
    pub open spec fn run(self, events: Seq<EventModel>) -> EpisodeModel
        decreases events.len(),
    {
        if events.len() == 0 {
            self
        } else {
            self.step(events[0]).run(events.drop_first())
        }
    }

    /// Well-formedness, established by `init` and preserved by `step`.
    pub open spec fn wf(self) -> bool {
        &&& distinct_ids(self.expected)
        &&& distinct_ids(self.replied)
        &&& (forall|i: int|
            0 <= i < self.replied.len() ==> contains_id(self.expected, self.replied[i]))
        &&& (forall|i: int|
            0 <= i < self.results.len() ==> contains_id(self.replied, self.results[i].0))
        &&& distinct_ids(result_keys(self.results))
        &&& self.results.len() <= self.replied.len()
        &&& self.replied.len() <= self.expected.len()
        &&& (self.outcome is None ==> self.replied.len() < self.expected.len())
    }
}

impl View for ResultsTop {
    type V = EventModel;

    open spec fn view(&self) -> EventModel {
        EventModel::Reply { api: self.api@, top: self.top.deep_view() }
    }
}

impl View for Event {
    type V = EventModel;

    open spec fn view(&self) -> EventModel {
        match self {
            Event::Reply(r) => EventModel::Reply { api: r.api@, top: r.top.deep_view() },
            Event::Failure(api) => EventModel::Failure { api: api@ },
            Event::TimeOut => EventModel::TimeOut,
        }
    }
}

impl DeepView for Event {
    type V = EventModel;

    open spec fn deep_view(&self) -> EventModel {
        self.view()
    }
}

/// The aggregation state of one episode, owned and mutated by a single
/// logical thread of control.
pub struct Coordinator {
    /// The identifiers of all workers of this episode.
    pub expected: Vec<String>,
    /// The aggregation mapping: one entry per worker that replied
    /// successfully before termination, in arrival order.
    pub results: Vec<(String, Vec<String>)>,
    /// The identifiers already heard from, successes and failures alike.
    pub replied: Vec<String>,
    /// `None` while the episode runs; written exactly once.
    pub outcome: Option<Outcome>,
}

impl View for Coordinator {
    type V = EpisodeModel;

    open spec fn view(&self) -> EpisodeModel {
        EpisodeModel {
            expected: self.expected.deep_view(),
            results: self.results.deep_view(),
            replied: self.replied.deep_view(),
            outcome: self.outcome,
        }
    }
}

/// Whether `x` occurs in `v`.
fn contains_string(v: &Vec<String>, x: &String) -> (r: bool)
    ensures
        r == contains_id(v.deep_view(), x@),
{
    let mut i: usize = 0;
    while i < v.len()
        invariant
            0 <= i <= v.len(),
            forall|j: int| 0 <= j < i ==> v.deep_view()[j] != x@,
        decreases v.len() - i,
    {
        if v[i] == *x {
            assert(v.deep_view()[i as int] == x@);
            return true;
        }
        i += 1;
    }
    false
}

impl Coordinator {
    /// Starts an episode for the given worker set.  Fails, before anything is
    /// dispatched, when two workers carry the same identifier; an empty
    /// worker set terminates immediately with an empty mapping.
    pub fn new(worker_set: Vec<String>) -> (r: Result<Coordinator, ConfigError>)
        ensures
            r is Ok <==> distinct_ids(worker_set.deep_view()),
            r matches Ok(c) ==> c@ == EpisodeModel::init(worker_set.deep_view()) && c@.wf(),
    {
        let ghost ids = worker_set.deep_view();
        let mut i: usize = 0;
        while i < worker_set.len()
            invariant
                0 <= i <= worker_set.len(),
                ids == worker_set.deep_view(),
                forall|p: int, q: int| 0 <= p < q < i ==> ids[p] != ids[q],
            decreases worker_set.len() - i,
        {
            let mut j: usize = 0;
            while j < i
                invariant
                    0 <= j <= i < worker_set.len(),
                    ids == worker_set.deep_view(),
                    forall|q: int| 0 <= q < j ==> ids[q] != ids[i as int],
                decreases i - j,
            {
                if worker_set[j] == worker_set[i] {
                    assert(ids[j as int] == ids[i as int]);
                    return Err(ConfigError::DuplicateWorkerId);
                }
                j += 1;
            }
            i += 1;
        }
        let outcome = if worker_set.len() == 0 {
            Some(Outcome::Complete)
        } else {
            None
        };
        let c = Coordinator { expected: worker_set, results: Vec::new(), replied: Vec::new(), outcome };
        assert(c@.results =~= Seq::<(Seq<char>, Seq<Seq<char>>)>::empty());
        assert(c@.replied =~= Seq::<Seq<char>>::empty());
        Ok(c)
    }

    pub fn is_terminated(&self) -> (r: bool)
        ensures
            r == self@.terminated(),
    {
        self.outcome.is_some()
    }

    /// A successful reply reaching the intake point: recorded and counted if
    /// the episode still runs and this worker has not been heard from yet,
    /// silently discarded otherwise.
    pub fn on_reply(&mut self, reply: ResultsTop)
        requires
            old(self)@.wf(),
        ensures
            final(self)@ == old(self)@.step(reply@),
            final(self)@.wf(),
    {
        let ghost m0 = self@;
        let ghost ev = reply@;
        if self.outcome.is_some() {
            return;
        }
        if !contains_string(&self.expected, &reply.api) {
            return;
        }
        if contains_string(&self.replied, &reply.api) {
            return;
        }
        let api_copy = reply.api.clone();
        self.results.push((reply.api, reply.top));
        self.replied.push(api_copy);
        if self.replied.len() == self.expected.len() {
            self.outcome = Some(Outcome::Complete);
        }
        proof {
            let m1 = m0.step(ev);
            assert(self@.results =~= m1.results);
            assert(self@.replied =~= m1.replied);
            lemma_step_preserves_wf(m0, ev);
        }
    }

    /// A worker's failure reaching the intake point: it counts toward
    /// completeness but adds no entry to the mapping.
    pub fn on_failure(&mut self, api: String)
        requires
            old(self)@.wf(),
        ensures
            final(self)@ == old(self)@.step(EventModel::Failure { api: api@ }),
            final(self)@.wf(),
    {
        let ghost m0 = self@;
        let ghost ev = EventModel::Failure { api: api@ };
        if self.outcome.is_some() {
            return;
        }
        if !contains_string(&self.expected, &api) {
            return;
        }
        if contains_string(&self.replied, &api) {
            return;
        }
        self.replied.push(api);
        if self.replied.len() == self.expected.len() {
            self.outcome = Some(Outcome::Complete);
        }
        proof {
            let m1 = m0.step(ev);
            assert(self@.replied =~= m1.replied);
            lemma_step_preserves_wf(m0, ev);
        }
    }

    /// The deadline signal reaching the intake point: terminates the episode
    /// with whatever has arrived so far, or is discarded if it already ended.
    pub fn on_timeout(&mut self)
        requires
            old(self)@.wf(),
        ensures
            final(self)@ == old(self)@.step(EventModel::TimeOut),
            final(self)@.wf(),
    {
        let ghost m0 = self@;
        if self.outcome.is_some() {
            return;
        }
        self.outcome = Some(Outcome::Timeout);
        proof {
            lemma_step_preserves_wf(m0, EventModel::TimeOut);
        }
    }

    /// The single serialized intake point: every signal of the episode goes
    /// through here, one at a time.
    pub fn step(&mut self, event: Event)
        requires
            old(self)@.wf(),
        ensures
            final(self)@ == old(self)@.step(event@),
            final(self)@.wf(),
    {
        match event {
            Event::Reply(r) => self.on_reply(r),
            Event::Failure(api) => self.on_failure(api),
            Event::TimeOut => self.on_timeout(),
        }
    }

    /// Hands the aggregation mapping out; only a terminated episode may be
    /// read, as the caller is meant to synchronize on completion first.
    pub fn into_results(self) -> (r: Vec<(String, Vec<String>)>)
        requires
            self@.terminated(),
        ensures
            r.deep_view() == self@.results,
    {
        self.results
    }
}

/// The signal a worker emits for its capability's outcome: a tagged reply
/// on success, a tagged failure otherwise — a broken source never aborts
/// the episode, it just counts as heard from.
pub fn worker_event(api: String, outcome: Result<Vec<String>, String>) -> (r: Event)
    ensures
        r@ == match outcome {
            Ok(top) => EventModel::Reply { api: api@, top: top.deep_view() },
            Err(_) => EventModel::Failure { api: api@ },
        },
{
    match outcome {
        Ok(top) => Event::Reply(ResultsTop { api, top }),
        Err(_) => Event::Failure(api),
    }
}

/// Runs one whole episode over an already serialized event stream: events are
/// consumed in order until termination, and everything after that is
/// discarded.  Returns the aggregation mapping, or the configuration error
/// for a malformed worker set.
pub fn run_episode(worker_set: Vec<String>, events: Vec<Event>) -> (r: Result<
    Vec<(String, Vec<String>)>,
    ConfigError,
>)
    ensures
        r is Ok <==> distinct_ids(worker_set.deep_view()),
        r matches Ok(rs) ==> rs.deep_view() == EpisodeModel::init(worker_set.deep_view()).run(
            events.deep_view(),
        ).results,
{
    let ghost ids = worker_set.deep_view();
    let ghost evs = events.deep_view();
    let mut c = match Coordinator::new(worker_set) {
        Ok(c) => c,
        Err(e) => {
            return Err(e);
        },
    };
    proof {
        assert(events.deep_view() =~= events_view(events@));
    }
    let mut remaining = events;
    let ghost mut done: Seq<EventModel> = Seq::empty();
    while remaining.len() > 0
        invariant
            c@.wf(),
            c@ == EpisodeModel::init(ids).run(done),
            evs == done + events_view(remaining@),
        decreases remaining.len(),
    {
        let event = remaining.remove(0);
        proof {
            lemma_run_push(EpisodeModel::init(ids), done, event@);
            done = done.push(event@);
            assert(evs =~= done + events_view(remaining@));
        }
        c.step(event);
    }
    proof {
        assert(evs =~= done);
    }
    Ok(c.results)
}

/// The event stream seen through its mathematical image, element by element.
pub open spec fn events_view(s: Seq<Event>) -> Seq<EventModel> {
    s.map_values(|e: Event| e@)
}

/// The single mutable cell between the concurrent episode and its caller:
/// written exactly once by the coordinator at termination, read by the caller
/// only after it has synchronized with episode completion.  Both rules are
/// enforced structurally, by contract.
pub struct ResultSink {
    pub value: Option<AggregationResult>,
}

/// The aggregation handed to the caller: one entry per worker that replied
/// successfully before termination, in arrival order.
pub type AggregationResult = Vec<(String, Vec<String>)>;

impl ResultSink {
    pub fn new() -> (s: ResultSink)
        ensures
            s.value is None,
    {
        ResultSink { value: None }
    }

    /// The coordinator's single write at termination; a second write is ruled
    /// out by the precondition.
    pub fn write(&mut self, result: AggregationResult)
        requires
            old(self).value is None,
        ensures
            final(self).value == Some(result),
    {
        self.value = Some(result);
    }

    /// The caller's read, legal only once the episode is known to have ended
    /// and the sink is known to be filled.
    pub fn read(&self) -> (r: &AggregationResult)
        requires
            self.value is Some,
        ensures
            self.value == Some(*r),
    {
        match &self.value {
            Some(r) => r,
            None => unreached(),
        }
    }
}

/// `step` preserves well-formedness.
proof fn lemma_step_preserves_wf(m: EpisodeModel, e: EventModel)
    requires
        m.wf(),
    ensures
        m.step(e).wf(),
{
    let m1 = m.step(e);
    match e {
        EventModel::Reply { api, top } => {
            if m.accepts(api) {
                assert(result_keys(m1.results) =~= result_keys(m.results).push(api));
                assert(forall|i: int|
                    0 <= i < m.results.len() ==> result_keys(m.results)[i] == m.results[i].0);
                assert forall|i: int| 0 <= i < m1.results.len() implies contains_id(
                    m1.replied,
                    m1.results[i].0,
                ) by {
                    if i < m.results.len() {
                        lemma_keys_contains_push(m.replied, m.results[i].0, api);
                    } else {
                        assert(m1.replied[m.replied.len() as int] == api);
                    }
                }
                assert forall|i: int| 0 <= i < m1.replied.len() implies contains_id(
                    m1.expected,
                    m1.replied[i],
                ) by {}
            }
        },
        EventModel::Failure { api } => {
            if m.accepts(api) {
                assert forall|i: int| 0 <= i < m1.results.len() implies contains_id(
                    m1.replied,
                    m1.results[i].0,
                ) by {
                    lemma_keys_contains_push(m.replied, m.results[i].0, api);
                }
            }
        },
        EventModel::TimeOut => {},
    }
}

/// Appending one event to a stream folds as one extra `step`.
proof fn lemma_run_push(m: EpisodeModel, events: Seq<EventModel>, e: EventModel)
    ensures
        m.run(events.push(e)) == m.run(events).step(e),
    decreases events.len(),
{
    if events.len() == 0 {
        assert(events.push(e).drop_first() =~= Seq::<EventModel>::empty());
        assert(events.push(e)[0] == e);
        assert(m.run(events.push(e)) == m.step(e).run(events.push(e).drop_first()));
        assert(m.run(events) == m);
    } else {
        assert(events.push(e)[0] == events[0]);
        assert(events.push(e).drop_first() =~= events.drop_first().push(e));
        lemma_run_push(m.step(events[0]), events.drop_first(), e);
        assert(m.run(events.push(e)) == m.step(events[0]).run(events.push(e).drop_first()));
        assert(m.run(events) == m.step(events[0]).run(events.drop_first()));
    }
}

/// Folding a concatenated stream is folding the two parts in turn.
proof fn lemma_run_concat(m: EpisodeModel, a: Seq<EventModel>, b: Seq<EventModel>)
    ensures
        m.run(a + b) == m.run(a).run(b),
    decreases a.len(),
{
    if a.len() == 0 {
        assert(a + b =~= b);
    } else {
        assert((a + b)[0] == a[0]);
        assert((a + b).drop_first() =~= a.drop_first() + b);
        lemma_run_concat(m.step(a[0]), a.drop_first(), b);
        assert(m.run(a + b) == m.step((a + b)[0]).run((a + b).drop_first()));
        assert(m.run(a) == m.step(a[0]).run(a.drop_first()));
    }
}

/// The identifier carried by a reply event.
pub open spec fn reply_api(e: EventModel) -> Seq<char> {
    match e {
        EventModel::Reply { api, top } => api,
        EventModel::Failure { api } => api,
        EventModel::TimeOut => Seq::empty(),
    }
}

/// The result list carried by a reply event.
pub open spec fn reply_top(e: EventModel) -> Seq<Seq<char>> {
    match e {
        EventModel::Reply { api, top } => top,
        EventModel::Failure { api: _ } => Seq::empty(),
        EventModel::TimeOut => Seq::empty(),
    }
}

/// A stream of signals — successful replies or failures — from pairwise
/// different workers of the episode, none of which has been heard from yet.
pub open spec fn fresh_signals(m: EpisodeModel, events: Seq<EventModel>) -> bool {
    &&& forall|k: int| 0 <= k < events.len() ==> events[k] is Reply || events[k] is Failure
    &&& forall|k: int, l: int|
        0 <= k < l < events.len() ==> reply_api(events[k]) != reply_api(events[l])
    &&& forall|k: int| 0 <= k < events.len() ==> contains_id(m.expected, reply_api(events[k]))
    &&& forall|k: int| 0 <= k < events.len() ==> !contains_id(m.replied, reply_api(events[k]))
}

/// A stream of fresh signals that are all successful replies.
pub open spec fn fresh_replies(m: EpisodeModel, events: Seq<EventModel>) -> bool {
    &&& fresh_signals(m, events)
    &&& forall|k: int| 0 <= k < events.len() ==> events[k] is Reply
}

/// The mapping entries a stream of signals contributes: one per successful
/// reply, in stream order; failures contribute none.
pub open spec fn reply_entries(events: Seq<EventModel>) -> Seq<(Seq<char>, Seq<Seq<char>>)>
    decreases events.len(),
{
    if events.len() == 0 {
        Seq::empty()
    } else {
        (if events[0] is Reply {
            seq![(reply_api(events[0]), reply_top(events[0]))]
        } else {
            Seq::empty()
        }) + reply_entries(events.drop_first())
    }
}

/// On a stream of successful replies alone, the contributed entries are the
/// replies' pairs in order.
proof fn lemma_reply_entries_all(events: Seq<EventModel>)
    requires
        forall|k: int| 0 <= k < events.len() ==> events[k] is Reply,
    ensures
        reply_entries(events) =~= events.map_values(
            |e: EventModel| (reply_api(e), reply_top(e)),
        ),
    decreases events.len(),
{
    let pair_of = |e: EventModel| (reply_api(e), reply_top(e));
    if events.len() > 0 {
        assert(forall|k: int| 0 <= k < events.drop_first().len() ==> events.drop_first()[k]
            == events[k + 1]);
        lemma_reply_entries_all(events.drop_first());
        assert(forall|k: int|
            0 <= k < events.len() ==> events.map_values(pair_of)[k] == pair_of(
                #[trigger] events[k],
            ));
        assert(forall|k: int|
            0 <= k < events.drop_first().len() ==> events.drop_first().map_values(pair_of)[k]
                == pair_of(#[trigger] events.drop_first()[k]));
    }
}

/// A key of the contributed entries is some successful reply's identifier.
proof fn lemma_reply_entries_member(events: Seq<EventModel>, x: Seq<char>)
    requires
        contains_id(result_keys(reply_entries(events)), x),
    ensures
        exists|k: int|
            0 <= k < events.len() && events[k] is Reply && reply_api(#[trigger] events[k]) == x,
    decreases events.len(),
{
    assert(events.len() > 0);
    let head: Seq<(Seq<char>, Seq<Seq<char>>)> = if events[0] is Reply {
        seq![(reply_api(events[0]), reply_top(events[0]))]
    } else {
        Seq::empty()
    };
    let rest = reply_entries(events.drop_first());
    assert(reply_entries(events) == head + rest);
    let i = choose|i: int|
        0 <= i < result_keys(reply_entries(events)).len() && result_keys(
            reply_entries(events),
        )[i] == x;
    assert(result_keys(reply_entries(events))[i] == reply_entries(events)[i].0);
    if i < head.len() {
        assert(events[0] is Reply && reply_api(events[0]) == x);
    } else {
        assert(reply_entries(events)[i] == rest[i - head.len()]);
        assert(result_keys(rest)[i - head.len()] == rest[i - head.len()].0);
        lemma_reply_entries_member(events.drop_first(), x);
        let k = choose|k: int|
            0 <= k < events.drop_first().len() && events.drop_first()[k] is Reply && reply_api(
                #[trigger] events.drop_first()[k],
            ) == x;
        assert(events[k + 1] == events.drop_first()[k]);
    }
}

/// A successful reply's entry is what the lookup of its identifier finds
/// among the contributed entries.
proof fn lemma_reply_entries_lookup(events: Seq<EventModel>, k: int)
    requires
        forall|p: int, q: int|
            0 <= p < q < events.len() ==> reply_api(events[p]) != reply_api(events[q]),
        0 <= k < events.len(),
        events[k] is Reply,
    ensures
        lookup(reply_entries(events), reply_api(events[k])) == Some(reply_top(events[k])),
    decreases events.len(),
{
    let head: Seq<(Seq<char>, Seq<Seq<char>>)> = if events[0] is Reply {
        seq![(reply_api(events[0]), reply_top(events[0]))]
    } else {
        Seq::empty()
    };
    let rest = reply_entries(events.drop_first());
    assert(reply_entries(events) == head + rest);
    assert(forall|p: int| 0 <= p < events.drop_first().len() ==> events.drop_first()[p]
        == events[p + 1]);
    if k == 0 {
        assert((head + rest)[0] == (reply_api(events[0]), reply_top(events[0])));
    } else {
        lemma_reply_entries_lookup(events.drop_first(), k - 1);
        if events[0] is Reply {
            assert((head + rest)[0] == (reply_api(events[0]), reply_top(events[0])));
            assert(reply_api(events[0]) != reply_api(events[k]));
            assert((head + rest).drop_first() =~= rest);
        } else {
            assert(head + rest =~= rest);
        }
    }
}

/// A running episode absorbs a stream of fresh signals one by one: each
/// successful reply adds its entry to the mapping, every signal adds its
/// identifier to the count, and the episode completes exactly when the
/// count reaches the worker set.
proof fn lemma_absorb_signals(m: EpisodeModel, events: Seq<EventModel>)
    requires
        m.wf(),
        !m.terminated(),
        fresh_signals(m, events),
        m.replied.len() + events.len() <= m.expected.len(),
    ensures
        m.run(events).wf(),
        m.run(events).expected == m.expected,
        m.run(events).results == m.results + reply_entries(events),
        m.run(events).replied == m.replied + events.map_values(|e: EventModel| reply_api(e)),
        m.run(events).outcome == if m.replied.len() + events.len() == m.expected.len() {
            Some(Outcome::Complete)
        } else {
            None::<Outcome>
        },
    decreases events.len(),
{
    let api_of = |e: EventModel| reply_api(e);
    if events.len() == 0 {
        assert(m.results + reply_entries(events) =~= m.results);
        assert(m.replied + events.map_values(api_of) =~= m.replied);
    } else {
        let e0 = events[0];
        let rest = events.drop_first();
        let api = reply_api(e0);
        assert(m.accepts(api));
        let m1 = m.step(e0);
        lemma_step_preserves_wf(m, e0);
        let ghost head: Seq<(Seq<char>, Seq<Seq<char>>)> = if e0 is Reply {
            seq![(reply_api(e0), reply_top(e0))]
        } else {
            Seq::empty()
        };
        assert(m1.results =~= m.results + head);
        if rest.len() == 0 {
            assert(m.run(events) == m1.run(rest));
            assert(m1.run(rest) == m1);
            assert(reply_entries(events) == head + reply_entries(rest));
            assert(reply_entries(rest) =~= Seq::<(Seq<char>, Seq<Seq<char>>)>::empty());
            assert(head + reply_entries(rest) =~= head);
            assert(m1.results =~= m.results + reply_entries(events));
            assert(m1.replied =~= m.replied + events.map_values(api_of)) by {
                assert(events.map_values(api_of)[0] == api_of(e0));
            }
        } else {
            assert(!m1.terminated());
            assert(fresh_signals(m1, rest)) by {
                assert forall|k: int| 0 <= k < rest.len() implies !contains_id(
                    m1.replied,
                    reply_api(rest[k]),
                ) by {
                    assert(rest[k] == events[k + 1]);
                    if contains_id(m1.replied, reply_api(rest[k])) {
                        lemma_keys_contains_push_inv(m.replied, reply_api(rest[k]), api);
                    }
                }
                assert forall|k: int| 0 <= k < rest.len() implies (rest[k] is Reply
                    || rest[k] is Failure) && contains_id(m1.expected, reply_api(rest[k])) by {
                    assert(rest[k] == events[k + 1]);
                }
                assert forall|k: int, l: int| 0 <= k < l < rest.len() implies reply_api(rest[k])
                    != reply_api(rest[l]) by {
                    assert(rest[k] == events[k + 1]);
                    assert(rest[l] == events[l + 1]);
                }
            }
            lemma_absorb_signals(m1, rest);
            assert(m.run(events) == m1.run(rest));
            assert(m1.run(rest).results =~= m.results + reply_entries(events)) by {
                assert(m1.run(rest).results == m1.results + reply_entries(rest));
                assert(reply_entries(events) == head + reply_entries(rest));
            }
            assert(m1.run(rest).replied =~= m.replied + events.map_values(api_of)) by {
                assert(m1.run(rest).replied == m1.replied + rest.map_values(api_of));
                assert(forall|k: int|
                    0 <= k < rest.len() ==> rest.map_values(api_of)[k] == api_of(
                        #[trigger] rest[k],
                    ));
                assert(forall|k: int| 0 <= k < rest.len() ==> rest[k] == events[k + 1]);
                assert(forall|k: int|
                    0 <= k < events.len() ==> events.map_values(api_of)[k] == api_of(
                        #[trigger] events[k],
                    ));
            }
        }
    }
}

/// Once an episode has terminated, no further signal changes anything:
/// one event is absorbed unchanged, and so is any whole stream.  Together
/// with `ResultSink::write`'s single-write contract this is the
/// exactly-once termination rule: the aggregation decision fires once and
/// the mapping is never overwritten afterwards.
pub proof fn lemma_termination_is_final(m: EpisodeModel, events: Seq<EventModel>)
    requires
        m.terminated(),
    ensures
        forall|e: EventModel| #[trigger] m.step(e) == m,
        m.run(events) == m,
    decreases events.len(),
{
    if events.len() > 0 {
        lemma_termination_is_final(m, events.drop_first());
    }
}

/// An empty worker set completes on the spot: whatever events arrive later,
/// the episode stands terminated with the `Complete` outcome and an empty
/// mapping, without having waited for any signal.
pub proof fn lemma_empty_worker_set(events: Seq<EventModel>)
    ensures
        EpisodeModel::init(Seq::empty()).run(events) == EpisodeModel::init(Seq::empty()),
        EpisodeModel::init(Seq::empty()).run(events).outcome == Some(Outcome::Complete),
        EpisodeModel::init(Seq::empty()).run(events).results == Seq::<(
            Seq<char>,
            Seq<Seq<char>>,
        )>::empty(),
{
    lemma_termination_is_final(EpisodeModel::init(Seq::empty()), events);
}

/// When the deadline signal is the first thing the intake point sees, the
/// episode ends with an empty mapping, whatever arrives afterwards.
pub proof fn lemma_timeout_before_any_reply(expected: Seq<Seq<char>>, events: Seq<EventModel>)
    requires
        events.len() > 0,
        events[0] == EventModel::TimeOut,
    ensures
        EpisodeModel::init(expected).run(events).terminated(),
        EpisodeModel::init(expected).run(events).results == Seq::<(
            Seq<char>,
            Seq<Seq<char>>,
        )>::empty(),
        expected.len() > 0 ==> EpisodeModel::init(expected).run(events).outcome == Some(
            Outcome::Timeout,
        ),
{
    let m = EpisodeModel::init(expected);
    let m1 = m.step(events[0]);
    lemma_termination_is_final(m1, events.drop_first());
    assert(m.run(events) == m1.run(events.drop_first()));
}

/// When every worker of the episode replies successfully before the deadline
/// — one fresh reply each, and the deadline signal no earlier than the last
/// reply — the mapping holds exactly one entry per worker, each equal to
/// that worker's produced result, and the outcome is `Complete`.  Signals
/// after the last reply, the timer's included, change nothing.
pub proof fn lemma_all_workers_reply(
    expected: Seq<Seq<char>>,
    replies: Seq<EventModel>,
    tail: Seq<EventModel>,
)
    requires
        distinct_ids(expected),
        fresh_replies(EpisodeModel::init(expected), replies),
        replies.len() == expected.len(),
        forall|i: int|
            0 <= i < expected.len() ==> exists|k: int|
                0 <= k < replies.len() && reply_api(#[trigger] replies[k]) == #[trigger] expected[i],
    ensures
        ({
            let f = EpisodeModel::init(expected).run(replies + tail);
            &&& f.outcome == Some(Outcome::Complete)
            &&& f.results.len() == expected.len()
            &&& forall|k: int|
                0 <= k < replies.len() ==> f.results[k] == (
                    reply_api(#[trigger] replies[k]),
                    reply_top(replies[k]),
                )
            &&& forall|k: int|
                0 <= k < replies.len() ==> lookup(f.results, reply_api(#[trigger] replies[k]))
                    == Some(reply_top(replies[k]))
            &&& forall|i: int|
                0 <= i < expected.len() ==> lookup(f.results, #[trigger] expected[i]) is Some
        }),
{
    let m = EpisodeModel::init(expected);
    let pair_of = |e: EventModel| (reply_api(e), reply_top(e));
    lemma_run_concat(m, replies, tail);
    if expected.len() == 0 {
        assert(expected =~= Seq::<Seq<char>>::empty());
        lemma_empty_worker_set(replies + tail);
        assert(replies + tail =~= tail);
    } else {
        lemma_absorb_signals(m, replies);
        lemma_reply_entries_all(replies);
        let g = m.run(replies);
        assert(g.results =~= replies.map_values(pair_of));
        lemma_termination_is_final(g, tail);
        let f = m.run(replies + tail);
        assert(f == g);
        assert(forall|k: int|
            0 <= k < replies.len() ==> f.results[k] == pair_of(#[trigger] replies[k]));
        assert forall|k: int| 0 <= k < replies.len() implies lookup(
            f.results,
            reply_api(#[trigger] replies[k]),
        ) == Some(reply_top(replies[k])) by {
            assert(distinct_ids(result_keys(f.results))) by {
                lemma_step_wf_run(m, replies);
            }
            lemma_assoc_at(f.results, k);
        }
        assert forall|i: int| 0 <= i < expected.len() implies lookup(
            f.results,
            #[trigger] expected[i],
        ) is Some by {
            let k = choose|k: int|
                0 <= k < replies.len() && reply_api(#[trigger] replies[k]) == expected[i];
            assert(lookup(f.results, reply_api(replies[k])) == Some(reply_top(replies[k])));
        }
    }
}

/// When every worker of the episode is heard from before the deadline —
/// each exactly once, some successfully and some through a failed
/// capability call — the episode completes: the mapping holds exactly the
/// successful replies' entries, each worker that failed has no entry, and
/// whatever arrives afterwards changes nothing.
pub proof fn lemma_all_workers_heard(
    expected: Seq<Seq<char>>,
    events: Seq<EventModel>,
    tail: Seq<EventModel>,
)
    requires
        distinct_ids(expected),
        fresh_signals(EpisodeModel::init(expected), events),
        events.len() == expected.len(),
    ensures
        ({
            let f = EpisodeModel::init(expected).run(events + tail);
            &&& f.outcome == Some(Outcome::Complete)
            &&& f.results == reply_entries(events)
            &&& forall|k: int|
                0 <= k < events.len() && (#[trigger] events[k]) is Reply ==> lookup(
                    f.results,
                    reply_api(events[k]),
                ) == Some(reply_top(events[k]))
            &&& forall|k: int|
                0 <= k < events.len() && (#[trigger] events[k]) is Failure ==> lookup(
                    f.results,
                    reply_api(events[k]),
                ) is None
        }),
{
    let m = EpisodeModel::init(expected);
    lemma_run_concat(m, events, tail);
    if expected.len() == 0 {
        assert(expected =~= Seq::<Seq<char>>::empty());
        lemma_empty_worker_set(events + tail);
        assert(m.run(events + tail).results =~= reply_entries(events));
    } else {
        lemma_absorb_signals(m, events);
        let g = m.run(events);
        lemma_termination_is_final(g, tail);
        let f = m.run(events + tail);
        assert(f == g);
        assert(f.results =~= reply_entries(events));
        assert forall|k: int| 0 <= k < events.len() && (#[trigger] events[k]) is Reply implies
            lookup(f.results, reply_api(events[k])) == Some(reply_top(events[k])) by {
            lemma_reply_entries_lookup(events, k);
        }
        assert forall|k: int| 0 <= k < events.len() && (#[trigger] events[k]) is Failure implies
            lookup(f.results, reply_api(events[k])) is None by {
            if lookup(f.results, reply_api(events[k])) is Some {
                lemma_assoc_iff(f.results, reply_api(events[k]));
                lemma_reply_entries_member(events, reply_api(events[k]));
                let l = choose|l: int|
                    0 <= l < events.len() && events[l] is Reply && reply_api(
                        #[trigger] events[l],
                    ) == reply_api(events[k]);
                assert(l != k);
                if l < k {
                    assert(reply_api(events[l]) != reply_api(events[k]));
                } else {
                    assert(reply_api(events[k]) != reply_api(events[l]));
                }
            }
        }
    }
}

/// `run` preserves well-formedness.
proof fn lemma_step_wf_run(m: EpisodeModel, events: Seq<EventModel>)
    requires
        m.wf(),
    ensures
        m.run(events).wf(),
    decreases events.len(),
{
    if events.len() > 0 {
        lemma_step_preserves_wf(m, events[0]);
        lemma_step_wf_run(m.step(events[0]), events.drop_first());
    }
}

/// When a strict subset of the workers replies in time and the deadline then
/// expires, the mapping holds exactly the entries of the workers that
/// replied, omits every other worker, and the outcome is `Timeout`.  Late
/// replies arriving after the deadline are discarded.
pub proof fn lemma_partial_replies_then_timeout(
    expected: Seq<Seq<char>>,
    replies: Seq<EventModel>,
    tail: Seq<EventModel>,
)
    requires
        distinct_ids(expected),
        fresh_replies(EpisodeModel::init(expected), replies),
        replies.len() < expected.len(),
    ensures
        ({
            let f = EpisodeModel::init(expected).run(
                replies + seq![EventModel::TimeOut] + tail,
            );
            &&& f.outcome == Some(Outcome::Timeout)
            &&& f.results.len() == replies.len()
            &&& forall|k: int|
                0 <= k < replies.len() ==> f.results[k] == (
                    reply_api(#[trigger] replies[k]),
                    reply_top(replies[k]),
                )
            &&& forall|k: int|
                0 <= k < replies.len() ==> lookup(f.results, reply_api(#[trigger] replies[k]))
                    == Some(reply_top(replies[k]))
            &&& forall|w: Seq<char>|
                contains_id(expected, w) && !contains_id(
                    replies.map_values(|e: EventModel| reply_api(e)),
                    w,
                ) ==> lookup(f.results, w) is None
        }),
{
    let m = EpisodeModel::init(expected);
    let pair_of = |e: EventModel| (reply_api(e), reply_top(e));
    let api_of = |e: EventModel| reply_api(e);
    lemma_run_concat(m, replies + seq![EventModel::TimeOut], tail);
    lemma_run_concat(m, replies, seq![EventModel::TimeOut]);
    lemma_absorb_signals(m, replies);
    lemma_reply_entries_all(replies);
    let g = m.run(replies);
    assert(!g.terminated());
    let h = g.run(seq![EventModel::TimeOut]);
    assert(h == g.step(EventModel::TimeOut)) by {
        let one = seq![EventModel::TimeOut];
        assert(one.len() == 1);
        assert(one[0] == EventModel::TimeOut);
        assert(one.drop_first() =~= Seq::<EventModel>::empty());
        assert(g.run(one) == g.step(one[0]).run(one.drop_first()));
    }
    lemma_termination_is_final(h, tail);
    let f = m.run(replies + seq![EventModel::TimeOut] + tail);
    assert(f == h);
    assert(f.results =~= replies.map_values(pair_of));
    assert(forall|k: int|
        0 <= k < replies.len() ==> f.results[k] == pair_of(#[trigger] replies[k]));
    assert(distinct_ids(result_keys(f.results))) by {
        lemma_step_wf_run(m, replies);
        lemma_termination_is_final(g.step(EventModel::TimeOut), tail);
        lemma_step_preserves_wf(g, EventModel::TimeOut);
    }
    assert forall|k: int| 0 <= k < replies.len() implies lookup(
        f.results,
        reply_api(#[trigger] replies[k]),
    ) == Some(reply_top(replies[k])) by {
        lemma_assoc_at(f.results, k);
    }
    assert forall|w: Seq<char>|
        contains_id(expected, w) && !contains_id(replies.map_values(api_of), w) implies lookup(
        f.results,
        w,
    ) is None by {
        assert(!contains_id(result_keys(f.results), w)) by {
            if contains_id(result_keys(f.results), w) {
                let i = choose|i: int|
                    0 <= i < result_keys(f.results).len() && result_keys(f.results)[i] == w;
                assert(f.results[i] == pair_of(replies[i]));
                assert(replies.map_values(api_of)[i] == api_of(replies[i]));
            }
        }
        lemma_assoc_iff(f.results, w);
    }
}

} // verus!
