use filter_aggregator::call::{settle_call, CallOutcome};
use filter_aggregator::delivery::{plan_delivery, Delivery};
use filter_aggregator::record::{Embryo, EmbryoList};
use filter_aggregator::registry::FilterRegistry;
use filter_aggregator::run::{AggregationRun, RunEvent, StopReason};

fn record(pairs: &[(&str, &str)]) -> Embryo {
    Embryo::new(pairs.iter().map(|(n, v)| (n.to_string(), v.to_string())).collect())
}

fn list(urls: &[&str]) -> EmbryoList {
    EmbryoList::new(urls.iter().map(|u| record(&[("url", u)])).collect())
}

fn registry_of(urls: &[&str]) -> FilterRegistry {
    let mut r = FilterRegistry::new();
    for u in urls {
        r.register(u.to_string());
    }
    r
}

#[test]
fn run_on_empty_registry_is_drained_at_once() {
    let run = AggregationRun::begin(&FilterRegistry::new(), None);
    assert!(run.targets().is_empty());
    assert_eq!(run.stopped(), Some(StopReason::Drained));
    assert_eq!(run.pending(), 0);
    assert_eq!(run.finish(), EmbryoList::new(Vec::new()));
}

#[test]
fn run_with_zero_bound_merges_nothing() {
    let r = registry_of(&["http://f1"]);
    let mut run = AggregationRun::begin(&r, Some(0));
    assert_eq!(run.stopped(), Some(StopReason::MaxResponses));
    assert!(!run.on_event(RunEvent::Response(list(&["a"]))));
    assert_eq!(run.received(), 0);
    assert_eq!(run.finish(), EmbryoList::new(Vec::new()));
}

#[test]
fn run_targets_are_the_members_at_begin() {
    let mut r = registry_of(&["http://f1", "http://f2"]);
    let mut run = AggregationRun::begin(&r, None);
    r.register("http://f3".to_string());
    r.unregister("http://f1");
    let mut targets = run.targets().clone();
    targets.sort();
    assert_eq!(targets, vec!["http://f1".to_string(), "http://f2".to_string()]);
    assert_eq!(run.pending(), 2);
    run.on_event(RunEvent::Response(list(&["a"])));
    let mut targets = run.targets().clone();
    targets.sort();
    assert_eq!(targets, vec!["http://f1".to_string(), "http://f2".to_string()]);
}

#[test]
fn run_drains_when_every_call_has_ended() {
    let r = registry_of(&["http://f1", "http://f2", "http://f3"]);
    let mut run = AggregationRun::begin(&r, None);
    assert_eq!(run.stopped(), None);
    assert!(run.on_event(RunEvent::Response(list(&["a", "b"]))));
    assert!(run.on_event(RunEvent::CallEnded));
    assert_eq!(run.pending(), 1);
    assert_eq!(run.received(), 1);
    assert!(!run.on_event(RunEvent::Response(list(&["b", "c"]))));
    assert_eq!(run.stopped(), Some(StopReason::Drained));
    assert_eq!(run.received(), 2);
    assert_eq!(run.pending(), 0);
    assert_eq!(run.finish(), list(&["a", "b", "c"]));
}

#[test]
fn deadline_ends_collection_with_an_empty_list() {
    let r = registry_of(&["http://slow1", "http://slow2"]);
    let mut run = AggregationRun::begin(&r, None);
    assert!(!run.on_event(RunEvent::DeadlineElapsed));
    assert_eq!(run.stopped(), Some(StopReason::DeadlineExceeded));
    assert!(!run.on_event(RunEvent::Response(list(&["late"]))));
    assert_eq!(run.pending(), 2);
    assert_eq!(run.finish(), EmbryoList::new(Vec::new()));
}

#[test]
fn deadline_ends_collection_with_a_partial_list() {
    let r = registry_of(&["http://fast", "http://slow"]);
    let mut run = AggregationRun::begin(&r, None);
    assert!(run.on_event(RunEvent::Response(list(&["a"]))));
    assert!(!run.on_event(RunEvent::DeadlineElapsed));
    assert!(!run.on_event(RunEvent::Response(list(&["b"]))));
    assert_eq!(run.stopped(), Some(StopReason::DeadlineExceeded));
    assert_eq!(run.finish(), list(&["a"]));
}

#[test]
fn answers_after_the_bound_are_ignored() {
    let r = registry_of(&["http://f1", "http://f2", "http://f3"]);
    let mut run = AggregationRun::begin(&r, Some(2));
    assert!(run.on_event(RunEvent::Response(list(&["a"]))));
    assert!(!run.on_event(RunEvent::Response(list(&["b"]))));
    assert_eq!(run.stopped(), Some(StopReason::MaxResponses));
    assert!(!run.on_event(RunEvent::Response(list(&["c", "d"]))));
    assert_eq!(run.received(), 2);
    assert_eq!(run.pending(), 1);
    assert_eq!(run.finish(), list(&["a", "b"]));
}

#[test]
fn bound_is_looked_at_before_the_drain() {
    let r = registry_of(&["http://f1"]);
    let mut run = AggregationRun::begin(&r, Some(1));
    assert!(!run.on_event(RunEvent::Response(list(&["a"]))));
    assert_eq!(run.stopped(), Some(StopReason::MaxResponses));
}

#[test]
fn calls_without_answer_do_not_count_toward_the_bound() {
    let r = registry_of(&["http://f1", "http://f2", "http://f3"]);
    let mut run = AggregationRun::begin(&r, Some(1));
    assert!(run.on_event(RunEvent::CallEnded));
    assert!(run.on_event(RunEvent::CallEnded));
    assert_eq!(run.received(), 0);
    assert!(!run.on_event(RunEvent::Response(list(&["a"]))));
    assert_eq!(run.finish(), list(&["a"]));
}

#[test]
fn on_events_takes_events_in_order() {
    let r = registry_of(&["http://f1", "http://f2", "http://f3"]);
    let mut run = AggregationRun::begin(&r, None);
    let first = EmbryoList::new(vec![record(&[("url", "b"), ("v", "1")])]);
    let second = EmbryoList::new(vec![record(&[("url", "b"), ("v", "2")]), record(&[("url", "a")])]);
    let listening = run.on_events(vec![
        RunEvent::Response(first),
        RunEvent::Response(second),
        RunEvent::DeadlineElapsed,
        RunEvent::Response(list(&["z"])),
    ]);
    assert!(!listening);
    assert_eq!(run.stopped(), Some(StopReason::DeadlineExceeded));
    assert_eq!(
        run.finish(),
        EmbryoList::new(vec![record(&[("url", "b"), ("v", "1")]), record(&[("url", "a")])])
    );
}

#[test]
fn on_events_with_no_event_changes_nothing() {
    let r = registry_of(&["http://f1"]);
    let mut run = AggregationRun::begin(&r, None);
    assert!(run.on_events(Vec::new()));
    assert_eq!(run.pending(), 1);
    assert_eq!(run.received(), 0);
}

#[test]
fn finish_before_stop_hands_out_what_was_merged() {
    let r = registry_of(&["http://f1", "http://f2"]);
    let mut run = AggregationRun::begin(&r, None);
    run.on_event(RunEvent::Response(list(&["a"])));
    assert_eq!(run.stopped(), None);
    assert_eq!(run.finish(), list(&["a"]));
}

#[test]
fn scenario_fast_filter_answers_and_silent_filter_is_evicted() {
    let mut registry = registry_of(&["http://f1", "http://f2"]);
    let mut run = AggregationRun::begin(&registry, None);
    let mut targets = run.targets().clone();
    targets.sort();
    assert_eq!(targets, vec!["http://f1".to_string(), "http://f2".to_string()]);

    let answer = settle_call(&mut registry, "http://f1", CallOutcome::Succeeded(list(&["a"])));
    assert!(run.on_event(RunEvent::of_call(answer)));

    let answer = settle_call(&mut registry, "http://f2", CallOutcome::TimedOut);
    assert!(!run.on_event(RunEvent::of_call(answer)));
    assert_eq!(run.stopped(), Some(StopReason::Drained));

    let merged = run.finish();
    assert_eq!(
        merged,
        EmbryoList {
            embryo_list: vec![Embryo { properties: vec![("url".to_string(), "a".to_string())] }]
        }
    );
    assert!(!registry.contains("http://f2"));
    assert!(registry.contains("http://f1"));

    let next = AggregationRun::begin(&registry, None);
    assert_eq!(next.targets(), &vec!["http://f1".to_string()]);
}

#[test]
fn delivery_goes_back_to_the_caller_without_callback() {
    let d = plan_delivery(None, list(&["a"]));
    assert_eq!(d, Delivery::Respond(list(&["a"])));
    assert_eq!(d.reply(), Some(&list(&["a"])));
}

#[test]
fn delivery_goes_to_the_callback_when_named() {
    let d = plan_delivery(Some("http://embox".to_string()), list(&["a", "b"]));
    assert_eq!(
        d,
        Delivery::Forward { callback: "http://embox".to_string(), body: list(&["a", "b"]) }
    );
    assert_eq!(d.reply(), None);
}

#[test]
fn event_of_a_call_is_its_answer_or_its_end() {
    assert_eq!(RunEvent::of_call(Some(list(&["a"]))), RunEvent::Response(list(&["a"])));
    assert_eq!(RunEvent::of_call(None), RunEvent::CallEnded);
}
