use search_aggregator::coordinator::run_episode;
use search_aggregator::coordinator::ConfigError;
use search_aggregator::coordinator::Coordinator;
use search_aggregator::coordinator::Event;
use search_aggregator::coordinator::Outcome;
use search_aggregator::coordinator::ResultSink;
use search_aggregator::coordinator::ResultsTop;

fn to_string_vec(top: [&str; 5]) -> Vec<String> {
    top.into_iter().map(|s| s.to_string()).collect()
}

fn reply(api: &str, top: Vec<String>) -> Event {
    Event::Reply(ResultsTop {
        api: api.to_string(),
        top,
    })
}

fn workers(names: [&str; 2]) -> Vec<String> {
    names.into_iter().map(|s| s.to_string()).collect()
}

/// Both workers reply before the deadline: the mapping holds both tops.
#[test]
fn test_full_results() {
    let yandex_top = ["Ya", "Ya", "a", "n", "d"];
    let google_top = ["Go", "Go", "g", "l", "e"];
    let events = vec![
        reply("Yandex", to_string_vec(yandex_top)),
        reply("Google", to_string_vec(google_top)),
        Event::TimeOut,
    ];
    let results = run_episode(workers(["Yandex", "Google"]), events).unwrap();
    assert_eq!(
        vec![
            ("Yandex".to_string(), to_string_vec(yandex_top)),
            ("Google".to_string(), to_string_vec(google_top)),
        ],
        results
    );
}

/// Only the fast worker beats the deadline: the slow one's late reply is
/// discarded.
#[test]
fn test_half_results() {
    let yandex_top = ["Ya", "Ya", "a", "n", "d"];
    let google_top = ["Go", "Go", "g", "l", "e"];
    let events = vec![
        reply("Yandex", to_string_vec(yandex_top)),
        Event::TimeOut,
        reply("Google", to_string_vec(google_top)),
    ];
    let results = run_episode(workers(["Yandex", "Google"]), events).unwrap();
    assert_eq!(
        vec![("Yandex".to_string(), to_string_vec(yandex_top))],
        results
    );
}

/// The deadline beats both workers: the mapping is empty.
#[test]
fn test_empty_results() {
    let yandex_top = ["Ya", "Ya", "a", "n", "d"];
    let google_top = ["Go", "Go", "g", "l", "e"];
    let events = vec![
        Event::TimeOut,
        reply("Yandex", to_string_vec(yandex_top)),
        reply("Google", to_string_vec(google_top)),
    ];
    let results = run_episode(workers(["Yandex", "Google"]), events).unwrap();
    assert_eq!(Vec::<(String, Vec<String>)>::new(), results);
}

/// Worker "A" replies within 100ms, "B" needs 5000ms, the deadline is
/// 3000ms: only "A" contributes.
#[test]
fn scenario_fast_a_slow_b_deadline_between() {
    let events = vec![
        reply("A", vec!["a1".to_string(), "a2".to_string()]),
        Event::TimeOut,
        reply("B", vec!["b1".to_string()]),
    ];
    let results = run_episode(workers(["A", "B"]), events).unwrap();
    assert_eq!(
        vec![(
            "A".to_string(),
            vec!["a1".to_string(), "a2".to_string()]
        )],
        results
    );
}

/// Same workers with a 200ms deadline: "A"'s 100ms still beats it, "B" is
/// far too slow.
#[test]
fn scenario_fast_a_slow_b_short_deadline() {
    let events = vec![
        reply("A", vec!["a1".to_string(), "a2".to_string()]),
        Event::TimeOut,
        reply("B", vec!["b1".to_string()]),
    ];
    let results = run_episode(workers(["A", "B"]), events).unwrap();
    assert_eq!(
        vec![(
            "A".to_string(),
            vec!["a1".to_string(), "a2".to_string()]
        )],
        results
    );
}

/// A worker whose capability call fails leaves no entry, and the episode
/// still completes rather than hanging.
#[test]
fn scenario_failing_worker_completes_episode() {
    let mut c = Coordinator::new(vec!["A".to_string()]).unwrap();
    assert!(!c.is_terminated());
    c.step(Event::Failure("A".to_string()));
    assert!(c.is_terminated());
    assert_eq!(Some(Outcome::Complete), c.outcome);
    assert_eq!(Vec::<(String, Vec<String>)>::new(), c.into_results());
}

/// An empty worker set terminates at once, consuming no event.
#[test]
fn empty_worker_set_completes_immediately() {
    let c = Coordinator::new(Vec::new()).unwrap();
    assert!(c.is_terminated());
    assert_eq!(Some(Outcome::Complete), c.outcome);
    assert_eq!(Vec::<(String, Vec<String>)>::new(), c.into_results());
}

/// A duplicated worker identifier is a configuration error; nothing runs.
#[test]
fn duplicate_worker_id_is_refused() {
    let r = run_episode(workers(["A", "A"]), vec![Event::TimeOut]);
    assert_eq!(Err(ConfigError::DuplicateWorkerId), r);
}

/// Termination fires exactly once: after the deadline, further replies and
/// further deadline signals change nothing.
#[test]
fn termination_is_final() {
    let mut c = Coordinator::new(workers(["A", "B"])).unwrap();
    c.step(reply("A", vec!["a1".to_string()]));
    assert!(!c.is_terminated());
    c.step(Event::TimeOut);
    assert!(c.is_terminated());
    assert_eq!(Some(Outcome::Timeout), c.outcome);
    c.step(reply("B", vec!["b1".to_string()]));
    c.step(Event::TimeOut);
    assert_eq!(Some(Outcome::Timeout), c.outcome);
    assert_eq!(
        vec![("A".to_string(), vec!["a1".to_string()])],
        c.into_results()
    );
}

/// Every worker heard from, failures included, completes the episode early.
#[test]
fn all_replies_complete_before_deadline() {
    let mut c = Coordinator::new(workers(["A", "B"])).unwrap();
    c.step(reply("B", vec!["b1".to_string()]));
    c.step(Event::Failure("A".to_string()));
    assert!(c.is_terminated());
    assert_eq!(Some(Outcome::Complete), c.outcome);
    assert_eq!(
        vec![("B".to_string(), vec!["b1".to_string()])],
        c.into_results()
    );
}

/// A reply from a worker that already replied, or from a stranger, is
/// discarded.
#[test]
fn duplicate_and_unknown_replies_are_discarded() {
    let mut c = Coordinator::new(workers(["A", "B"])).unwrap();
    c.step(reply("A", vec!["a1".to_string()]));
    c.step(reply("A", vec!["a2".to_string()]));
    c.step(reply("C", vec!["c1".to_string()]));
    assert!(!c.is_terminated());
    c.step(Event::TimeOut);
    assert_eq!(
        vec![("A".to_string(), vec!["a1".to_string()])],
        c.into_results()
    );
}

/// The sink carries the finished aggregation across to the caller.
#[test]
fn sink_hands_the_result_over() {
    let mut sink = ResultSink::new();
    assert!(sink.value.is_none());
    sink.write(vec![("A".to_string(), vec!["a1".to_string()])]);
    assert_eq!(
        &vec![("A".to_string(), vec!["a1".to_string()])],
        sink.read()
    );
}
