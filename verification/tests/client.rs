use convex_ffi::{
    function_result, CallKind, CallOutcome, Client, FunctionResult, Request, SubscribeError,
    Value, ValueObject, WireValue,
};

fn args() -> ValueObject {
    ValueObject::from_vec(vec![("n".to_string(), Value::Int { value: 1 })])
}

fn all_four(client: &Client<u32>) -> Vec<Result<Request, SubscribeError>> {
    vec![
        client.query("f".to_string(), args()),
        client.mutation("f".to_string(), args()),
        client.action("f".to_string(), args()),
        client.subscribe("f".to_string(), args()),
    ]
}

#[test]
fn a_new_handle_refuses_every_call() {
    let client: Client<u32> = Client::new("https://example.convex.cloud".to_string());
    assert!(!client.is_connected());
    assert_eq!(client.deployment_url(), "https://example.convex.cloud");
    assert_eq!(client.client(), Err(SubscribeError::NoActiveConnection));
    for result in all_four(&client) {
        assert_eq!(result, Err(SubscribeError::NoActiveConnection));
    }
}

#[test]
fn a_connected_handle_prepares_every_call() {
    let mut client: Client<u32> = Client::new("url".to_string());
    assert!(client.connect(Some(7)));
    assert!(client.is_connected());
    assert_eq!(client.client(), Ok(&7));
    let kinds = [CallKind::Query, CallKind::Mutation, CallKind::Action, CallKind::Subscribe];
    for (result, kind) in all_four(&client).into_iter().zip(kinds) {
        let expected = Request {
            kind,
            path: "f".to_string(),
            args: vec![("n".to_string(), WireValue::Int64(1))],
        };
        assert_eq!(result, Ok(expected));
    }
}

#[test]
fn a_closed_handle_refuses_every_call_again() {
    let mut client: Client<u32> = Client::new("url".to_string());
    client.connect(Some(1));
    assert_eq!(client.close(), Some(1));
    assert!(!client.is_connected());
    for result in all_four(&client) {
        assert_eq!(result, Err(SubscribeError::NoActiveConnection));
    }
    assert_eq!(client.close(), None);
    assert!(!client.is_connected());
}

#[test]
fn a_failed_connect_leaves_no_session() {
    let mut client: Client<u32> = Client::new("url".to_string());
    assert!(!client.connect(None));
    assert!(!client.is_connected());
    client.connect(Some(1));
    assert!(!client.connect(None));
    assert!(!client.is_connected());
    assert_eq!(client.deployment_url(), "url");
}

#[test]
fn a_call_after_a_successful_connect_is_prepared() {
    let mut client: Client<u32> = Client::new("url".to_string());
    assert!(client.connect(Some(9)));
    assert!(client.subscribe("f".to_string(), ValueObject::new()).is_ok());
    assert!(client.client().is_ok());
    assert!(!client.connect(None));
    assert_eq!(
        client.query("f".to_string(), ValueObject::new()),
        Err(SubscribeError::NoActiveConnection)
    );
}

#[test]
fn a_new_session_replaces_the_old_one() {
    let mut client: Client<u32> = Client::new("url".to_string());
    client.connect(Some(1));
    client.connect(Some(2));
    assert_eq!(client.client(), Ok(&2));
}

#[test]
fn an_answer_becomes_a_value_or_a_typed_error() {
    let value = CallOutcome::Answered(FunctionResult::Value(WireValue::SetOf(vec![
        WireValue::Int64(2),
        WireValue::Int64(1),
    ])));
    let expected = Value::SetOf {
        value: convex_ffi::ValueSet::from_vec(vec![Value::Int { value: 1 }, Value::Int { value: 2 }]),
    };
    assert_eq!(function_result(value), Ok(expected));
    let failed = CallOutcome::Answered(FunctionResult::ErrorMessage("boom".to_string()));
    assert_eq!(
        function_result(failed),
        Err(SubscribeError::RemoteFunctionError { message: "boom".to_string() })
    );
    let lost = CallOutcome::Failed("socket closed".to_string());
    assert_eq!(
        function_result(lost),
        Err(SubscribeError::TransportError { message: "socket closed".to_string() })
    );
}

#[test]
fn errors_say_what_happened() {
    assert_eq!(SubscribeError::NoActiveConnection.message(), "No client set");
    let remote = SubscribeError::RemoteFunctionError { message: "bad input".to_string() };
    assert_eq!(remote.message(), "bad input");
    let transport = SubscribeError::TransportError { message: "timeout".to_string() };
    assert_eq!(transport.message(), "timeout");
}
