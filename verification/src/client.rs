//! The connection handle: at most one live session, and the rule that every
//! call needs one.

use vstd::prelude::*;
use vstd::string::StringExecFns;
use crate::canonical::{canonical, wf};
use crate::model::Model;
use crate::value::{Value, ValueObject};
use crate::wire::{to_bridge, to_convex_args, wire_fields_model, WireValue};

verus! {

/// Why a call to the backend gave no value.
#[derive(Debug, PartialEq, Eq)]
pub enum SubscribeError {
    /// The handle holds no live session: `connect` has to succeed first.
    NoActiveConnection,
    /// The backend ran the function, and the function reported an error.
    RemoteFunctionError { message: String },
    /// The request did not reach the backend, or its answer did not arrive.
    TransportError { message: String },
}

impl SubscribeError {
    /// The error in words: the message of the function or of the transport,
    /// or that no client is set.
    pub fn message(&self) -> (text: String)
        ensures
            text@ == match *self {
                SubscribeError::NoActiveConnection => "No client set"@,
                SubscribeError::RemoteFunctionError { message } => message@,
                SubscribeError::TransportError { message } => message@,
            },
    {
        match self {
            SubscribeError::NoActiveConnection => String::from_str("No client set"),
            SubscribeError::RemoteFunctionError { message } => message.clone(),
            SubscribeError::TransportError { message } => message.clone(),
        }
    }
}

/// What the backend's client answers to a call or pushes on a feed.
#[derive(Debug, PartialEq, Eq)]
pub enum FunctionResult {
    /// The value that the function returned.
    Value(WireValue),
    /// The message of a function that did not complete.
    ErrorMessage(String),
}

/// How a call ended: with the backend's answer, or without one.
#[derive(Debug, PartialEq, Eq)]
pub enum CallOutcome {
    Answered(FunctionResult),
    /// The transport failed, with its own words for it.
    Failed(String),
}

/// The kind of a call to the backend.
#[derive(Clone, Copy, Debug, PartialEq, Eq, Structural)]
pub enum CallKind {
    Query,
    Mutation,
    Action,
    Subscribe,
}

/// A call that may go out: the session is live, and the arguments are in
/// the form that the backend's client takes.
#[derive(Debug, PartialEq, Eq)]
pub struct Request {
    pub kind: CallKind,
    pub path: String,
    pub args: Vec<(String, WireValue)>,
}

/// What becomes of a call of kind `kind` to the function `path` with the
/// arguments `args` on a handle: with a live session it is prepared as it
/// was asked for, without one it is refused.
pub open spec fn prepared(
    connected: bool,
    kind: CallKind,
    path: Seq<char>,
    args: Seq<(Seq<char>, Model)>,
    r: Result<Request, SubscribeError>,
) -> bool {
    match r {
        Ok(q) => connected && q.kind == kind && q.path@ == path && wire_fields_model(q.args@)
            == args,
        Err(e) => !connected && e == SubscribeError::NoActiveConnection,
    }
}

/// On a handle without a live session, as a new one or one that was closed,
/// every call of every kind is refused for want of a connection.
pub proof fn lemma_no_session_guard(
    kind: CallKind,
    path: Seq<char>,
    args: Seq<(Seq<char>, Model)>,
    r: Result<Request, SubscribeError>,
)
    requires
        prepared(false, kind, path, args, r),
    ensures
        r == Err::<Request, SubscribeError>(SubscribeError::NoActiveConnection),
{
}

/// On a handle with a live session no call is refused.
pub proof fn lemma_session_admits(
    kind: CallKind,
    path: Seq<char>,
    args: Seq<(Seq<char>, Model)>,
    r: Result<Request, SubscribeError>,
)
    requires
        prepared(true, kind, path, args, r),
    ensures
        r is Ok,
{
}

/// The handle to the backend: the address it was made for, and the live
/// session where there is one.
pub struct Client<S> {
    deployment_url: String,
    session: Option<S>,
}

impl<S> Client<S> {
    /// The session that the handle holds.
    pub closed spec fn live_session(&self) -> Option<S> {
        self.session
    }

    /// Whether the handle holds a live session.
    pub open spec fn connected(&self) -> bool {
        self.live_session() is Some
    }

    /// The address that the handle was made for.
    pub closed spec fn url(&self) -> Seq<char> {
        self.deployment_url@
    }

    /// A handle for `deployment_url`, without a session: nothing is contacted.
    pub fn new(deployment_url: String) -> (c: Client<S>)
        ensures
            c.live_session() is None,
            !c.connected(),
            c.url() == deployment_url@,
    {
        Client { deployment_url, session: None }
    }

    /// The address that the handle was made for.
    pub fn deployment_url(&self) -> (url: &String)
        ensures
            url@ == self.url(),
    {
        &self.deployment_url
    }

    /// Whether the handle holds a live session.
    pub fn is_connected(&self) -> (live: bool)
        ensures
            live == self.connected(),
    {
        self.session.is_some()
    }

    /// Takes the outcome of an attempt to reach the backend: a session that
    /// was established becomes the live one, in place of any before it; a
    /// failed attempt leaves the handle without a session. Tells whether the
    /// handle is connected now.
    pub fn connect(&mut self, attempt: Option<S>) -> (live: bool)
        ensures
            final(self).live_session() == attempt,
            final(self).connected() == (attempt is Some),
            final(self).url() == old(self).url(),
            live == attempt is Some,
    {
        let live = attempt.is_some();
        self.session = attempt;
        live
    }

    /// Gives up the live session, if there is one, and hands it back to be
    /// discarded.
    pub fn close(&mut self) -> (session: Option<S>)
        ensures
            final(self).live_session() is None,
            !final(self).connected(),
            final(self).url() == old(self).url(),
            session == old(self).live_session(),
    {
        self.session.take()
    }

    /// The live session, exactly where the handle holds one, and else the
    /// error of a handle without one. The handle is left as it is.
    pub fn client(&self) -> (r: Result<&S, SubscribeError>)
        ensures
            r is Ok <==> self.connected(),
            match r {
                Ok(s) => self.live_session() == Some(*s),
                Err(e) => self.live_session() is None && e == SubscribeError::NoActiveConnection,
            },
    {
        match &self.session {
            Some(s) => Ok(s),
            None => Err(SubscribeError::NoActiveConnection),
        }
    }

    /// The call of kind `kind`, where the handle holds a live session.
    fn request(&self, kind: CallKind, path: String, args: ValueObject) -> (r: Result<
        Request,
        SubscribeError,
    >)
        ensures
            prepared(self.connected(), kind, path@, args@, r),
    {
        if self.session.is_some() {
            Ok(Request { kind, path, args: to_convex_args(args) })
        } else {
            Err(SubscribeError::NoActiveConnection)
        }
    }

    /// Prepares a query of the function `path` with the named arguments
    /// `args`. Without a live session it is refused.
    pub fn query(&self, path: String, args: ValueObject) -> (r: Result<Request, SubscribeError>)
        ensures
            prepared(self.connected(), CallKind::Query, path@, args@, r),
    {
        self.request(CallKind::Query, path, args)
    }

    /// Prepares a mutation by the function `path` with the named arguments
    /// `args`. Without a live session it is refused.
    pub fn mutation(&self, path: String, args: ValueObject) -> (r: Result<Request, SubscribeError>)
        ensures
            prepared(self.connected(), CallKind::Mutation, path@, args@, r),
    {
        self.request(CallKind::Mutation, path, args)
    }

    /// Prepares an action of the function `path` with the named arguments
    /// `args`. Without a live session it is refused.
    pub fn action(&self, path: String, args: ValueObject) -> (r: Result<Request, SubscribeError>)
        ensures
            prepared(self.connected(), CallKind::Action, path@, args@, r),
    {
        self.request(CallKind::Action, path, args)
    }

    /// Prepares a subscription to the function `path` with the named
    /// arguments `args`. Without a live session it is refused.
    pub fn subscribe(&self, path: String, args: ValueObject) -> (r: Result<
        Request,
        SubscribeError,
    >)
        ensures
            prepared(self.connected(), CallKind::Subscribe, path@, args@, r),
    {
        self.request(CallKind::Subscribe, path, args)
    }
}

/// What the caller of a query, a mutation or an action gets for the way the
/// call ended: the value in its bridge form, or the function's or the
/// transport's message as an error.
pub fn function_result(outcome: CallOutcome) -> (r: Result<Value, SubscribeError>)
    ensures
        match outcome {
            CallOutcome::Answered(FunctionResult::Value(w)) => r matches Ok(v) && v@ == canonical(
                w@,
            ) && wf(v@),
            CallOutcome::Answered(FunctionResult::ErrorMessage(m)) => r matches Err(
                SubscribeError::RemoteFunctionError { message },
            ) && message@ == m@,
            CallOutcome::Failed(m) => r matches Err(SubscribeError::TransportError { message })
                && message@ == m@,
        },
{
    match outcome {
        CallOutcome::Answered(FunctionResult::Value(w)) => Ok(to_bridge(w)),
        CallOutcome::Answered(FunctionResult::ErrorMessage(message)) => Err(
            SubscribeError::RemoteFunctionError { message },
        ),
        CallOutcome::Failed(message) => Err(SubscribeError::TransportError { message }),
    }
}

} // verus!
