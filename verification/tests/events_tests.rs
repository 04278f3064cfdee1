use search_aggregator::clock::Clock;
use search_aggregator::clock::FrozenClock;
use search_aggregator::events_statistics::EventsStaisticImpl;
use search_aggregator::events_statistics::EventsStatistics;

fn happen<C: Clock>(es: &mut EventsStaisticImpl<C>, event: &str, n: usize) {
    for _ in 0..n {
        es.inc_event(event);
    }
}

#[test]
fn events_statistics_test1() {
    let mut es = EventsStaisticImpl::new(FrozenClock::new(0));
    happen(&mut es, "hello", 60);
    assert_eq!(1, es.get_event_statistic_by_name("hello"))
}

#[test]
fn events_statistics_test2() {
    let mut es = EventsStaisticImpl::new(FrozenClock::new(0));
    for _ in 0..60 {
        es.clock.skip_minutes(1);
        happen(&mut es, "hello", 2);
    }
    assert_eq!(2, es.get_event_statistic_by_name("hello"));
    es.clock.skip_minutes(30);
    assert_eq!(1, es.get_event_statistic_by_name("hello"));
    es.clock.skip_minutes(30);
    assert_eq!(0, es.get_event_statistic_by_name("hello"));
}

#[test]
fn events_statistics_test3() {
    let mut es = EventsStaisticImpl::new(FrozenClock::new(0));
    happen(&mut es, "hello", 60);
    happen(&mut es, "yes", 120);
    assert_eq!(1, es.get_event_statistic_by_name("hello"));
    assert_eq!(2, es.get_event_statistic_by_name("yes"));
}

#[test]
fn events_statistics_unknown_event_reads_zero() {
    let es = EventsStaisticImpl::new(FrozenClock::new(0));
    assert_eq!(0, es.get_event_statistic_by_name("nothing"));
}

#[test]
fn events_statistics_by_time_ignores_old_slots() {
    let mut es = EventsStaisticImpl::new(FrozenClock::new(1000));
    happen(&mut es, "hello", 120);
    // All 120 events sit in the newest slot: 120 / 60 = 2 per minute.
    assert_eq!(2, es.get_event_stat_by_name_by_time("hello", 1000));
    // A reading half an hour later starts at slot 30 and misses them.
    assert_eq!(0, es.get_event_stat_by_name_by_time("hello", 1000 + 30 * 60));
    // After a full hour every slot lies outside the window.
    assert_eq!(0, es.get_event_stat_by_name_by_time("hello", 1000 + 60 * 60));
}

#[test]
fn events_statistics_all_readings() {
    let mut es = EventsStaisticImpl::new(FrozenClock::new(0));
    happen(&mut es, "hello", 60);
    happen(&mut es, "yes", 120);
    let all = es.get_all_events_statistic();
    assert_eq!(Some(&1), all.get("hello"));
    assert_eq!(Some(&2), all.get("yes"));
    assert_eq!(2, all.len());
}

#[test]
fn frozen_clock_is_driven_by_hand() {
    let mut clock = FrozenClock::new(5);
    assert_eq!(5, clock.get());
    clock.set(100);
    assert_eq!(100, clock.now());
    clock.skip_minutes(2);
    assert_eq!(220, clock.get());
}
