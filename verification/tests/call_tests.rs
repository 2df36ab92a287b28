use filter_aggregator::call::{
    budget, decimal, frame_payload, plan_call, plan_calls, settle_call, CallOutcome, CallState,
    EngineConfig, FilterCall, Query,
};
use filter_aggregator::record::{Embryo, EmbryoList};
use filter_aggregator::registry::FilterRegistry;

fn config(t_call: u64) -> EngineConfig {
    EngineConfig { t_call, t_global: 15, max_response: None }
}

fn query(value: &str) -> Query {
    Query { value: value.to_string(), budget_hint: None, callback: None }
}

fn one_record_list() -> EmbryoList {
    EmbryoList::new(vec![Embryo::new(vec![("url".to_string(), "a".to_string())])])
}

fn two_filters() -> FilterRegistry {
    let mut r = FilterRegistry::new();
    r.register("http://f1".to_string());
    r.register("http://f2".to_string());
    r
}

#[test]
fn decimal_writes_exact_digits() {
    assert_eq!(decimal(0), "0");
    assert_eq!(decimal(7), "7");
    assert_eq!(decimal(9), "9");
    assert_eq!(decimal(10), "10");
    assert_eq!(decimal(14), "14");
    assert_eq!(decimal(100), "100");
    assert_eq!(decimal(1234567890), "1234567890");
    assert_eq!(decimal(u64::MAX), "18446744073709551615");
}

#[test]
fn budget_is_one_second_less_than_the_call_timeout() {
    assert_eq!(budget(&config(10)), 9);
    assert_eq!(budget(&config(5)), 4);
    assert_eq!(budget(&config(15)), 14);
    assert_eq!(budget(&config(1)), 0);
    assert_eq!(budget(&config(0)), 0);
    assert_eq!(budget(&config(u64::MAX)), u64::MAX - 1);
}

#[test]
fn plan_call_carries_value_and_budget() {
    let call = plan_call(&"http://f1".to_string(), &query("rust verification"), &config(10));
    assert_eq!(call.endpoint, "http://f1");
    assert_eq!(call.value, "rust verification");
    assert_eq!(call.timeout, "9");
}

#[test]
fn plan_calls_makes_one_call_per_target_in_order() {
    let targets = vec!["http://f1".to_string(), "http://f2".to_string(), "http://f3".to_string()];
    let calls = plan_calls(&targets, &query("q"), &config(5));
    assert_eq!(calls.len(), 3);
    for (call, target) in calls.iter().zip(targets.iter()) {
        assert_eq!(&call.endpoint, target);
        assert_eq!(call.value, "q");
        assert_eq!(call.timeout, "4");
    }
    assert!(plan_calls(&Vec::new(), &query("q"), &config(5)).is_empty());
}

#[test]
fn timeout_evicts_the_endpoint() {
    let mut r = two_filters();
    let answer = settle_call(&mut r, "http://f2", CallOutcome::TimedOut);
    assert_eq!(answer, None);
    assert!(!r.contains("http://f2"));
    assert!(r.contains("http://f1"));
    assert_eq!(r.len(), 1);
}

#[test]
fn transport_error_evicts_the_endpoint() {
    let mut r = two_filters();
    let answer = settle_call(&mut r, "http://f1", CallOutcome::TransportError);
    assert_eq!(answer, None);
    assert!(!r.contains("http://f1"));
    assert_eq!(r.snapshot(), vec!["http://f2".to_string()]);
}

#[test]
fn malformed_response_keeps_the_endpoint() {
    let mut r = two_filters();
    let answer = settle_call(&mut r, "http://f1", CallOutcome::MalformedResponse);
    assert_eq!(answer, None);
    assert!(r.contains("http://f1"));
    assert_eq!(r.len(), 2);
}

#[test]
fn success_publishes_the_answer_and_keeps_the_endpoint() {
    let mut r = two_filters();
    let answer = settle_call(&mut r, "http://f1", CallOutcome::Succeeded(one_record_list()));
    assert_eq!(answer, Some(one_record_list()));
    assert_eq!(r.len(), 2);
}

#[test]
fn evicted_endpoint_stays_out_until_registered_again() {
    let mut r = two_filters();
    settle_call(&mut r, "http://f2", CallOutcome::TimedOut);
    r.register("http://f3".to_string());
    r.unregister("http://f1");
    assert!(!r.contains("http://f2"));
    assert!(!r.snapshot().contains(&"http://f2".to_string()));
    r.register("http://f2".to_string());
    assert!(r.contains("http://f2"));
}

#[test]
fn failure_of_an_endpoint_already_gone_changes_nothing() {
    let mut r = two_filters();
    r.unregister("http://f2");
    settle_call(&mut r, "http://f2", CallOutcome::TransportError);
    assert_eq!(r.snapshot(), vec!["http://f1".to_string()]);
}

#[test]
fn call_is_dispatched_once_and_ends_once() {
    assert_eq!(CallState::Idle.dispatch(), Some(CallState::InFlight));
    assert_eq!(CallState::InFlight.dispatch(), None);
    assert_eq!(CallState::Succeeded.dispatch(), None);
    assert_eq!(CallState::TimedOut.dispatch(), None);
    assert_eq!(CallState::Idle.complete(&CallOutcome::TimedOut), None);
    assert_eq!(CallState::TimedOut.complete(&CallOutcome::TimedOut), None);
    assert_eq!(CallState::InFlight.complete(&CallOutcome::TimedOut), Some(CallState::TimedOut));
    assert_eq!(
        CallState::InFlight.complete(&CallOutcome::TransportError),
        Some(CallState::TransportError)
    );
    assert_eq!(
        CallState::InFlight.complete(&CallOutcome::MalformedResponse),
        Some(CallState::MalformedResponse)
    );
    assert_eq!(
        CallState::InFlight.complete(&CallOutcome::Succeeded(one_record_list())),
        Some(CallState::Succeeded)
    );
}

#[test]
fn only_unreachable_states_evict() {
    assert!(CallState::TimedOut.evicts());
    assert!(CallState::TransportError.evicts());
    assert!(!CallState::Succeeded.evicts());
    assert!(!CallState::MalformedResponse.evicts());
    assert!(!CallState::Idle.evicts());
    assert!(!CallState::InFlight.evicts());
}

#[test]
fn frame_payload_places_the_literals() {
    assert_eq!(frame_payload("\"q\"", "\"9\""), "{\"value\":\"q\",\"timeout\":\"9\"}");
    assert_eq!(frame_payload("", ""), "{\"value\":,\"timeout\":}");
}

#[test]
fn payload_is_a_json_object_of_two_strings() {
    let call = plan_call(&"http://f1".to_string(), &query("rust verification"), &config(10));
    assert_eq!(
        call.payload(),
        Some("{\"value\":\"rust verification\",\"timeout\":\"9\"}".to_string())
    );
}

#[test]
fn payload_escapes_what_json_wants_escaped() {
    let call = plan_call(&"http://f1".to_string(), &query("say \"hi\"\\\n"), &config(5));
    assert_eq!(
        call.payload(),
        Some("{\"value\":\"say \\\"hi\\\"\\\\\\n\",\"timeout\":\"4\"}".to_string())
    );
}

#[test]
fn payload_of_an_empty_query() {
    let call = FilterCall {
        endpoint: "http://f1".to_string(),
        value: String::new(),
        timeout: "0".to_string(),
    };
    assert_eq!(call.payload(), Some("{\"value\":\"\",\"timeout\":\"0\"}".to_string()));
}
