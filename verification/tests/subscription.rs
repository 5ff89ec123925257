use convex_ffi::subscription::{feed_event, perform, select};
use convex_ffi::{Action, Callback, Engine, Event, FunctionResult, Phase, Subscription, Value, WireValue};
use std::cell::RefCell;

fn value_update(n: i64) -> Event {
    Event::Update(FunctionResult::Value(WireValue::Int64(n)))
}

fn error_update(message: &str) -> Event {
    Event::Update(FunctionResult::ErrorMessage(message.to_string()))
}

struct Recorder {
    seen: RefCell<Vec<Value>>,
}

impl Callback for Recorder {
    fn update(&self, value: Value) {
        self.seen.borrow_mut().push(value);
    }
}

fn run(events: Vec<Event>) -> (Vec<Value>, Vec<String>, Phase) {
    let recorder = Recorder { seen: RefCell::new(Vec::new()) };
    let mut reported = Vec::new();
    let mut engine = Engine::new();
    for event in events {
        let (value, message, _) = perform(engine.step(event));
        if let Some(value) = value {
            recorder.update(value);
        }
        reported.extend(message);
    }
    (recorder.seen.into_inner(), reported, engine.phase())
}

#[test]
fn cancelling_twice_fires_once() {
    let mut handle = Subscription::new("trigger");
    assert_eq!(handle.cancel(), Some("trigger"));
    assert_eq!(handle.cancel(), None);
    assert_eq!(handle.cancel(), None);
}

#[test]
fn cancelling_after_the_feed_ended_does_nothing() {
    let mut engine = Engine::new();
    assert_eq!(engine.step(value_update(1)), Action::Deliver(Value::Int { value: 1 }));
    assert_eq!(engine.step(Event::FeedEnded), Action::Stop);
    assert_eq!(engine.phase(), Phase::Cancelled);
    assert_eq!(engine.step(Event::CancelRequested), Action::Ignore);
    assert_eq!(engine.step(Event::CancelRequested), Action::Ignore);
    assert_eq!(engine.phase(), Phase::Cancelled);
    assert!(!engine.is_active());
}

#[test]
fn nothing_is_delivered_after_a_cancellation() {
    let (seen, reported, phase) = run(vec![
        value_update(1),
        Event::CancelRequested,
        value_update(2),
        error_update("late"),
        value_update(3),
    ]);
    assert_eq!(seen, vec![Value::Int { value: 1 }]);
    assert!(reported.is_empty());
    assert_eq!(phase, Phase::Cancelled);
}

#[test]
fn a_server_error_does_not_end_the_subscription() {
    let mut engine = Engine::new();
    assert_eq!(engine.step(error_update("oops")), Action::Report("oops".to_string()));
    assert!(engine.is_active());
    assert_eq!(engine.step(value_update(5)), Action::Deliver(Value::Int { value: 5 }));
    assert!(engine.is_active());

    let (seen, reported, phase) = run(vec![error_update("oops"), value_update(5)]);
    assert_eq!(seen, vec![Value::Int { value: 5 }]);
    assert_eq!(reported, vec!["oops".to_string()]);
    assert_eq!(phase, Phase::Active);
}

#[test]
fn values_are_delivered_in_the_order_of_the_feed() {
    let (seen, _, _) = run(vec![value_update(3), value_update(1), value_update(2)]);
    assert_eq!(seen, vec![Value::Int { value: 3 }, Value::Int { value: 1 }, Value::Int { value: 2 }]);
}

#[test]
fn a_cancellation_goes_before_an_update_that_is_ready_too() {
    assert_eq!(select(true, Some(value_update(1))), Some(Event::CancelRequested));
    assert_eq!(select(true, None), Some(Event::CancelRequested));
    assert_eq!(select(false, Some(value_update(1))), Some(value_update(1)));
    assert_eq!(select(false, None), None);
}

#[test]
fn the_end_of_the_feed_is_an_event_of_its_own() {
    assert_eq!(feed_event(None), Event::FeedEnded);
    let item = FunctionResult::ErrorMessage("e".to_string());
    assert_eq!(feed_event(Some(item)), error_update("e"));
}

#[test]
fn only_a_delivery_owes_the_callback_a_value() {
    assert_eq!(perform(Action::Stop), (None, None, false));
    assert_eq!(perform(Action::Ignore), (None, None, false));
    assert_eq!(perform(Action::Report("m".to_string())), (None, Some("m".to_string()), true));
    assert_eq!(perform(Action::Deliver(Value::Null)), (Some(Value::Null), None, true));
    let seven = Value::Int { value: 7 };
    assert_eq!(perform(Action::Deliver(seven.clone())), (Some(seven), None, true));
}

#[test]
fn an_error_and_then_a_value_call_the_callback_once() {
    let (seen, reported, phase) = run(vec![error_update("boom"), value_update(7)]);
    assert_eq!(seen, vec![Value::Int { value: 7 }]);
    assert_eq!(reported, vec!["boom".to_string()]);
    assert_eq!(phase, Phase::Active);
}

#[test]
fn delivered_sets_are_canonical() {
    let mut engine = Engine::new();
    let update = Event::Update(FunctionResult::Value(WireValue::SetOf(vec![
        WireValue::Int64(2),
        WireValue::Int64(1),
    ])));
    let expected = Value::SetOf {
        value: convex_ffi::ValueSet::from_vec(vec![Value::Int { value: 1 }, Value::Int { value: 2 }]),
    };
    assert_eq!(engine.step(update), Action::Deliver(expected));
}
