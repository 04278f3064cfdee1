//! Event-rate statistics: each named event keeps one counter per minute for
//! the past hour, and a reading yields the average events per minute over
//! that hour.  Time comes from a `Clock`, so the statistics can be driven by
//! a frozen clock under test.

use std::collections::HashMap;
use vstd::prelude::*;
use vstd::string::StrSliceExecFns;

use crate::assoc::assoc_contains;
use crate::assoc::assoc_distinct;
use crate::assoc::assoc_keys;
use crate::assoc::assoc_lookup;
use crate::assoc::lemma_assoc_at;
use crate::assoc::lemma_assoc_distinct_push;
use crate::assoc::lemma_assoc_iff;
use crate::assoc::lemma_assoc_push;
use crate::assoc::lemma_assoc_update;
use crate::clock::Clock;
use crate::utils::str_eq;

verus! {

/// Minutes in the sliding window.
pub const WINDOW_MINUTES: usize = 60;

/// A sequence of `k` zero counters.
pub open spec fn zeros(k: int) -> Seq<usize> {
    Seq::new(k as nat, |i: int| 0usize)
}

/// The sum of a counter sequence.
pub open spec fn rpm_total(s: Seq<usize>) -> nat
    decreases s.len(),
{
    if s.len() == 0 {
        0
    } else {
        (rpm_total(s.drop_last()) + s.last()) as nat
    }
}

/// How many window slots lie between a measurement's timestamp and `now`,
/// capped at the window length; a clock that went backwards counts as zero.
pub open spec fn minutes_between(ts: u64, now: u64) -> int {
    if now <= ts {
        0
    } else if (now - ts) / 60 < 60 {
        (now - ts) / 60
    } else {
        60
    }
}

/// A counter window aged by `k` minutes: `k` fresh zero slots in front, the
/// oldest `k` slots dropped.
pub open spec fn shifted(rpms: Seq<usize>, k: int) -> Seq<usize> {
    zeros(k) + rpms.take(60 - k)
}

/// The reading for one measurement at time `now`: the counters older than
/// the window are ignored, the rest are averaged over the hour.
pub open spec fn stat_of(ts: u64, rpms: Seq<usize>, now: u64) -> nat {
    rpm_total(rpms.skip(minutes_between(ts, now))) / 60
}

/// One event aged to `now` and counted once more; at the (unreachable)
/// saturation of the total the count is left as it stands.
pub open spec fn inc_meas(ts: u64, rpms: Seq<usize>, now: u64) -> (u64, Seq<usize>) {
    let sh = shifted(rpms, minutes_between(ts, now));
    if rpm_total(sh) < usize::MAX {
        (now, sh.update(0, (sh[0] + 1) as usize))
    } else {
        (now, sh)
    }
}

/// The names with measurements, in first-seen order.
pub open spec fn meas_keys(rs: Seq<(Seq<char>, (u64, Seq<usize>))>) -> Seq<Seq<char>> {
    assoc_keys(rs)
}

/// `x` occurs among `ids`.
pub open spec fn has_name(ids: Seq<Seq<char>>, x: Seq<char>) -> bool {
    assoc_contains(ids, x)
}

/// No name occurs twice.
pub open spec fn names_distinct(ids: Seq<Seq<char>>) -> bool {
    assoc_distinct(ids)
}

/// The measurement recorded under `k`, if any.
pub open spec fn meas_lookup(rs: Seq<(Seq<char>, (u64, Seq<usize>))>, k: Seq<char>) -> Option<
    (u64, Seq<usize>),
> {
    assoc_lookup(rs, k)
}

/// What one `inc_event` at time `t` does to the measurement table.
pub open spec fn inc_post(
    before: Seq<(Seq<char>, (u64, Seq<usize>))>,
    after: Seq<(Seq<char>, (u64, Seq<usize>))>,
    name: Seq<char>,
    t: u64,
) -> bool {
    &&& meas_keys(after) == if has_name(meas_keys(before), name) {
        meas_keys(before)
    } else {
        meas_keys(before).push(name)
    }
    &&& meas_lookup(after, name) == Some(
        match meas_lookup(before, name) {
            Some((ts, rpms)) => inc_meas(ts, rpms, t),
            None => inc_meas(t, zeros(60), t),
        },
    )
    &&& forall|k: Seq<char>| k != name ==> meas_lookup(after, k) == meas_lookup(before, k)
}

/// Average events per minute over the past hour, per event name.
pub trait EventsStatistics {
    fn inc_event(&mut self, name: &str);

    fn get_event_statistic_by_name(&self, name: &str) -> usize;

    fn get_all_events_statistic(&self) -> HashMap<String, usize>;
}

pub struct Measurement {
    /// Timestamp of the newest (0th) slot, in seconds.
    timestamp: u64,
    /// Events per minute, newest slot first.
    rpms: Vec<usize>,
}

impl View for Measurement {
    type V = (u64, Seq<usize>);

    closed spec fn view(&self) -> (u64, Seq<usize>) {
        (self.timestamp, self.rpms@)
    }
}

impl DeepView for Measurement {
    type V = (u64, Seq<usize>);

    closed spec fn deep_view(&self) -> (u64, Seq<usize>) {
        self.view()
    }
}

impl Measurement {
    fn empty(when: u64) -> (r: Measurement)
        ensures
            r@ == (when, zeros(60)),
    {
        let mut rpms: Vec<usize> = Vec::new();
        let mut i: usize = 0;
        while i < WINDOW_MINUTES
            invariant
                0 <= i <= 60,
                rpms@ =~= zeros(i as int),
            decreases 60 - i,
        {
            rpms.push(0);
            proof {
                assert(rpms@ =~= zeros(i + 1));
            }
            i += 1;
        }
        Measurement { timestamp: when, rpms }
    }
}

pub struct EventsStaisticImpl<C: Clock> {
    pub clock: C,
    events: Vec<(String, Measurement)>,
}

impl<C: Clock> EventsStaisticImpl<C> {
    /// The measurement table: names with (timestamp, counters).
    pub closed spec fn events_view(self) -> Seq<(Seq<char>, (u64, Seq<usize>))> {
        self.events.deep_view()
    }

    /// The clock the statistics read time from.
    pub closed spec fn spec_clock(self) -> C {
        self.clock
    }

    /// Every name once, every window 60 slots with a sum a machine word can
    /// hold.
    #[verifier::type_invariant]
    closed spec fn type_wf(self) -> bool {
        &&& names_distinct(meas_keys(self.events.deep_view()))
        &&& forall|i: int|
            0 <= i < self.events.deep_view().len() ==> (#[trigger] self.events.deep_view()[i]).1.1.len()
                == 60 && rpm_total(self.events.deep_view()[i].1.1) <= usize::MAX
    }

    /// The measurement recorded for a name.
    pub open spec fn spec_meas(self, name: Seq<char>) -> Option<(u64, Seq<usize>)> {
        meas_lookup(self.events_view(), name)
    }

    /// The reading for a name at time `now`; a name never seen reads zero.
    pub open spec fn spec_stat(self, name: Seq<char>, now: u64) -> nat {
        match self.spec_meas(name) {
            Some((ts, rpms)) => stat_of(ts, rpms, now),
            None => 0,
        }
    }

    pub fn new(clock: C) -> (r: Self)
        ensures
            r.events_view() == Seq::<(Seq<char>, (u64, Seq<usize>))>::empty(),
            r.spec_clock() == clock,
    {
        let r = EventsStaisticImpl { clock, events: Vec::new() };
        proof {
            assert(r.events_view() =~= Seq::<(Seq<char>, (u64, Seq<usize>))>::empty());
        }
        r
    }

    /// The reading for `name` as of the given time.
    pub fn get_event_stat_by_name_by_time(&self, name: &str, time: u64) -> (r: usize)
        ensures
            r == self.spec_stat(name@, time),
    {
        proof {
            use_type_invariant(&*self);
        }
        let i = match self.find_event(name) {
            Some(i) => i,
            None => {
                proof {
                    lemma_assoc_iff(self.events_view(), name@);
                }
                return 0;
            },
        };
        proof {
            lemma_assoc_at(self.events_view(), i as int);
        }
        let meas = &self.events[i].1;
        let k = elapsed_slots(meas.timestamp, time);
        sum_from(&meas.rpms, k) / 60
    }

    /// Ages the name's window to `now` and counts one event, as `inc_post`
    /// says; a name never seen before gets a fresh window first.
    pub fn inc_event_at(&mut self, name: &str, now: u64)
        ensures
            inc_post(old(self).events_view(), final(self).events_view(), name@, now),
            final(self).spec_clock() == old(self).spec_clock(),
    {
        proof {
            use_type_invariant(&*self);
        }
        let ghost before = self.events_view();
        let mut events: Vec<(String, Measurement)> = Vec::new();
        core::mem::swap(&mut events, &mut self.events);
        let idx = match find_in(&events, name) {
            Some(i) => i,
            None => {
                let i = events.len();
                events.push((name_to_string(name), Measurement::empty(now)));
                proof {
                    assert(events.deep_view() =~= before.push((name@, (now, zeros(60)))));
                    assert(meas_keys(events.deep_view()) =~= meas_keys(before).push(name@));
                    lemma_assoc_iff(before, name@);
                    lemma_assoc_distinct_push(before, name@);
                    assert forall|k2: Seq<char>| k2 != name@ implies meas_lookup(
                        before.push((name@, (now, zeros(60)))),
                        k2,
                    ) == meas_lookup(before, k2) by {
                        lemma_assoc_push(before, name@, (now, zeros(60)), k2);
                    }
                }
                i
            },
        };
        proof {
            lemma_assoc_iff(before, name@);
        }
        let ghost mid = events.deep_view();
        proof {
            assert(mid[idx as int].1.1.len() == 60 && rpm_total(mid[idx as int].1.1)
                <= usize::MAX) by {
                if idx < before.len() {
                    assert(mid[idx as int] == before[idx as int]);
                } else {
                    assert(mid[idx as int].1.1 =~= zeros(60));
                    lemma_total_zeros(60);
                }
            }
        }
        let ts = events[idx].1.timestamp;
        let k = elapsed_slots(ts, now);
        let aged = shift_rpms(&events[idx].1.rpms, k);
        proof {
            lemma_shifted_total(mid[idx as int].1.1, k as int);
        }
        let total = total_rpms(&aged);
        let mut new_rpms = aged;
        if total < usize::MAX {
            proof {
                lemma_total_head_le(new_rpms@);
            }
            let bumped = new_rpms[0] + 1;
            new_rpms.set(0, bumped);
        }
        let name_copy = events[idx].0.clone();
        events.set(idx, (name_copy, Measurement { timestamp: now, rpms: new_rpms }));
        proof {
            lemma_assoc_at(mid, idx as int);
            lemma_assoc_update(mid, idx as int, (now, new_rpms@));
            assert(meas_keys(events.deep_view()) =~= meas_keys(mid));
            assert(events.deep_view() =~= mid.update(
                idx as int,
                (mid[idx as int].0, (now, new_rpms@)),
            ));
            lemma_total_update_bump(shifted(mid[idx as int].1.1, k as int), new_rpms@);
            assert(inc_meas(mid[idx as int].1.0, mid[idx as int].1.1, now) == (
                now,
                new_rpms@,
            )) by {
                assert(ts == mid[idx as int].1.0);
                assert(k == minutes_between(mid[idx as int].1.0, now));
                assert(aged@ == shifted(mid[idx as int].1.1, k as int));
            }
            if idx < before.len() {
                assert(meas_keys(before)[idx as int] == name@);
                assert(has_name(meas_keys(before), name@));
                assert(meas_lookup(before, name@) == Some(mid[idx as int].1));
            } else {
                assert(mid[idx as int].1.0 == now);
                assert(mid[idx as int].1.1 =~= zeros(60));
                assert(mid[idx as int].1 == (now, zeros(60)));
            }
            assert forall|i2: int| 0 <= i2 < events.deep_view().len() implies (
            #[trigger] events.deep_view()[i2]).1.1.len() == 60 && rpm_total(
                events.deep_view()[i2].1.1,
            ) <= usize::MAX by {
                if i2 != idx {
                    assert(events.deep_view()[i2] == mid[i2]);
                    if i2 < before.len() {
                        assert(mid[i2] == before[i2]);
                    } else {
                        assert(mid[i2].1.1 =~= zeros(60));
                        lemma_total_zeros(60);
                    }
                }
            }
        }
        self.events = events;
    }

    /// The index of the name's measurement.
    fn find_event(&self, name: &str) -> (r: Option<usize>)
        ensures
            match r {
                Some(i) => i < self.events_view().len() && self.events_view()[i as int].0
                    == name@,
                None => !has_name(meas_keys(self.events_view()), name@),
            },
    {
        find_in(&self.events, name)
    }
}

impl<C: Clock> EventsStatistics for EventsStaisticImpl<C> {
    /// Counts one event now: the table changes as `inc_post` says for the
    /// instant the clock returned — exactly the clock's instant, where the
    /// clock determines one.
    fn inc_event(&mut self, name: &str)
        ensures
            exists|t: u64|
                inc_post(old(self).events_view(), final(self).events_view(), name@, t),
            old(self).spec_clock().spec_now() matches Some(t) ==> inc_post(
                old(self).events_view(),
                final(self).events_view(),
                name@,
                t,
            ),
            final(self).spec_clock() == old(self).spec_clock(),
    {
        let now = self.clock.now();
        self.inc_event_at(name, now);
    }

    /// The reading for `name` at the instant the clock returned — exactly
    /// the clock's instant, where the clock determines one.
    fn get_event_statistic_by_name(&self, name: &str) -> (r: usize)
        ensures
            exists|t: u64| r == self.spec_stat(name@, t),
            self.spec_clock().spec_now() matches Some(t) ==> r == self.spec_stat(name@, t),
    {
        let now = self.clock.now();
        let r = self.get_event_stat_by_name_by_time(name, now);
        proof {
            assert(r == self.spec_stat(name@, now));
        }
        r
    }

    /// All readings at one instant, keyed by event name.
    fn get_all_events_statistic(&self) -> HashMap<String, usize> {
        let now = self.clock.now();
        let mut stats: HashMap<String, usize> = HashMap::new();
        proof {
            use_type_invariant(&*self);
        }
        let mut i: usize = 0;
        while i < self.events.len()
            invariant
                self.events@.len() == self.events_view().len(),
            decreases self.events@.len() - i,
        {
            let name = self.events[i].0.clone();
            let stat = self.get_event_stat_by_name_by_time(name.as_str(), now);
            stats.insert(name, stat);
            i += 1;
        }
        stats
    }
}

/// The index at which `name` is recorded.
fn find_in(events: &Vec<(String, Measurement)>, name: &str) -> (r: Option<usize>)
    ensures
        match r {
            Some(i) => i < events.deep_view().len() && events.deep_view()[i as int].0 == name@,
            None => !has_name(meas_keys(events.deep_view()), name@),
        },
{
    let mut i: usize = 0;
    while i < events.len()
        invariant
            0 <= i <= events@.len(),
            events.deep_view().len() == events@.len(),
            forall|j: int| 0 <= j < i ==> events.deep_view()[j].0 != name@,
        decreases events@.len() - i,
    {
        if str_eq(events[i].0.as_str(), name) {
            assert(events.deep_view()[i as int].0 == name@);
            return Some(i);
        }
        i += 1;
    }
    proof {
        assert(forall|j: int|
            0 <= j < events.deep_view().len() ==> meas_keys(events.deep_view())[j]
                == events.deep_view()[j].0);
    }
    None
}

/// An owned copy of a borrowed name.
fn name_to_string(name: &str) -> (r: String)
    ensures
        r@ == name@,
{
    let mut s = String::new();
    s.append(name);
    proof {
        assert(s@ =~= name@);
    }
    s
}

/// The window slots elapsed from `ts` to `now`, capped at the window.
fn elapsed_slots(ts: u64, now: u64) -> (r: usize)
    ensures
        r == minutes_between(ts, now),
        r <= 60,
{
    if now <= ts {
        return 0;
    }
    let d = (now - ts) / 60;
    if d < 60 {
        d as usize
    } else {
        60
    }
}

/// A copy of the window aged by `k` slots.
fn shift_rpms(rpms: &Vec<usize>, k: usize) -> (r: Vec<usize>)
    requires
        rpms@.len() == 60,
        k <= 60,
    ensures
        r@ == shifted(rpms@, k as int),
        r@.len() == 60,
{
    let mut out: Vec<usize> = Vec::new();
    let mut i: usize = 0;
    while i < k
        invariant
            0 <= i <= k <= 60,
            out@ =~= zeros(i as int),
        decreases k - i,
    {
        out.push(0);
        proof {
            assert(out@ =~= zeros(i + 1));
        }
        i += 1;
    }
    let mut j: usize = k;
    while j < 60
        invariant
            k <= j <= 60,
            rpms@.len() == 60,
            out@ =~= zeros(k as int) + rpms@.take(j - k),
        decreases 60 - j,
    {
        out.push(rpms[j - k]);
        proof {
            assert(out@ =~= zeros(k as int) + rpms@.take(j + 1 - k));
        }
        j += 1;
    }
    proof {
        assert(out@ =~= shifted(rpms@, k as int));
    }
    out
}

/// The sum of the whole window.
fn total_rpms(rpms: &Vec<usize>) -> (r: usize)
    requires
        rpm_total(rpms@) <= usize::MAX,
    ensures
        r == rpm_total(rpms@),
{
    let r = sum_from(rpms, 0);
    proof {
        assert(rpms@.skip(0) =~= rpms@);
    }
    r
}

/// The head of a window is at most the whole sum.
proof fn lemma_total_head_le(s: Seq<usize>)
    requires
        s.len() > 0,
    ensures
        s[0] <= rpm_total(s),
{
    lemma_total_split(s, 1);
    assert(s.take(1).drop_last() =~= Seq::<usize>::empty());
    assert(s.take(1).last() == s[0]);
}

/// The sum of the window from slot `k` on.
fn sum_from(rpms: &Vec<usize>, k: usize) -> (r: usize)
    requires
        k <= rpms@.len(),
        rpm_total(rpms@) <= usize::MAX,
    ensures
        r == rpm_total(rpms@.skip(k as int)),
{
    let mut acc: usize = 0;
    let mut j: usize = k;
    while j < rpms.len()
        invariant
            k <= j <= rpms@.len(),
            rpm_total(rpms@) <= usize::MAX,
            acc == rpm_total(rpms@.subrange(k as int, j as int)),
        decreases rpms@.len() - j,
    {
        proof {
            assert(rpms@.subrange(k as int, j + 1).drop_last() =~= rpms@.subrange(
                k as int,
                j as int,
            ));
            assert(rpms@.subrange(k as int, j + 1).last() == rpms@[j as int]);
            lemma_total_split(rpms@, k as int);
            lemma_total_split(rpms@.skip(k as int), j + 1 - k);
            assert(rpms@.skip(k as int).take(j + 1 - k) =~= rpms@.subrange(k as int, j + 1));
        }
        acc = acc + rpms[j];
        j += 1;
    }
    proof {
        assert(rpms@.subrange(k as int, rpms@.len() as int) =~= rpms@.skip(k as int));
    }
    acc
}

/// A sequence's sum splits at any cut.
proof fn lemma_total_concat(a: Seq<usize>, b: Seq<usize>)
    ensures
        rpm_total(a + b) == rpm_total(a) + rpm_total(b),
    decreases b.len(),
{
    if b.len() == 0 {
        assert(a + b =~= a);
    } else {
        assert((a + b).drop_last() =~= a + b.drop_last());
        assert((a + b).last() == b.last());
        lemma_total_concat(a, b.drop_last());
    }
}

/// The sum of a prefix and the matching suffix make the whole.
proof fn lemma_total_split(s: Seq<usize>, i: int)
    requires
        0 <= i <= s.len(),
    ensures
        rpm_total(s) == rpm_total(s.take(i)) + rpm_total(s.skip(i)),
{
    assert(s =~= s.take(i) + s.skip(i));
    lemma_total_concat(s.take(i), s.skip(i));
}

/// Zero slots add nothing.
proof fn lemma_total_zeros(k: int)
    requires
        k >= 0,
    ensures
        rpm_total(zeros(k)) == 0,
    decreases k,
{
    if k > 0 {
        assert(zeros(k).drop_last() =~= zeros(k - 1));
        lemma_total_zeros(k - 1);
    }
}

/// Ageing a window cannot raise its sum.
proof fn lemma_shifted_total(rpms: Seq<usize>, k: int)
    requires
        rpms.len() == 60,
        0 <= k <= 60,
    ensures
        shifted(rpms, k).len() == 60,
        rpm_total(shifted(rpms, k)) <= rpm_total(rpms),
{
    lemma_total_concat(zeros(k), rpms.take(60 - k));
    lemma_total_zeros(k);
    lemma_total_split(rpms, 60 - k);
}

/// Bumping slot 0, or leaving the window as it stands, keeps the sum a
/// machine word can hold.
proof fn lemma_total_update_bump(sh: Seq<usize>, after: Seq<usize>)
    requires
        sh.len() == 60,
        rpm_total(sh) <= usize::MAX,
        after == sh || (rpm_total(sh) < usize::MAX && after == sh.update(
            0,
            (sh[0] + 1) as usize,
        )),
    ensures
        rpm_total(after) <= usize::MAX,
        after.len() == 60,
{
    if after != sh {
        lemma_total_update_head(sh, (sh[0] + 1) as usize);
    }
}

/// Replacing slot 0 changes the sum by the difference of the entries.
proof fn lemma_total_update_head(s: Seq<usize>, v: usize)
    requires
        s.len() > 0,
    ensures
        rpm_total(s.update(0, v)) == rpm_total(s) - s[0] + v,
    decreases s.len(),
{
    if s.len() == 1 {
        assert(s.update(0, v).drop_last() =~= Seq::<usize>::empty());
        assert(s.drop_last() =~= Seq::<usize>::empty());
    } else {
        assert(s.update(0, v).drop_last() =~= s.drop_last().update(0, v));
        assert(s.update(0, v).last() == s.last());
        lemma_total_update_head(s.drop_last(), v);
    }
}

} // verus!
