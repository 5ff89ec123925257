//! The life of a subscription: the handle that cancels it, and the engine
//! that turns what the feed brings into calls of the callback.

use vstd::prelude::*;
use crate::canonical::{canonical, wf};
use crate::client::FunctionResult;
use crate::model::Model;
use crate::value::Value;
use crate::wire::to_bridge;

verus! {

// ---------------------------------------------------------------------------
// The handle
// ---------------------------------------------------------------------------

/// The handle to one live feed. It holds the one trigger that cancels the
/// feed until the trigger is taken to be fired.
pub struct Subscription<T> {
    trigger: Option<T>,
}

impl<T> Subscription<T> {
    /// The trigger, while it has not been taken.
    pub closed spec fn trigger(&self) -> Option<T> {
        self.trigger
    }

    /// Whether the trigger is still to be fired.
    pub open spec fn armed(&self) -> bool {
        self.trigger() is Some
    }

    /// The handle of a feed that `trigger` cancels.
    pub fn new(trigger: T) -> (s: Subscription<T>)
        ensures
            s.trigger() == Some(trigger),
    {
        Subscription { trigger: Some(trigger) }
    }

    /// Cancels the feed. The first call hands out the trigger, to be fired;
    /// every later call hands out nothing and changes nothing.
    pub fn cancel(&mut self) -> (fire: Option<T>)
        ensures
            (fire, final(self).trigger()) == cancelled(old(self).trigger()),
    {
        self.trigger.take()
    }
}

/// What a cancellation makes of the trigger that the handle holds: what is
/// handed out to be fired, and what the handle holds afterwards.
pub open spec fn cancelled<T>(trigger: Option<T>) -> (Option<T>, Option<T>) {
    (trigger, None)
}

/// Cancelling is idempotent: whatever the handle held, a second cancellation
/// hands out nothing to fire, and leaves the handle as the first one left it.
pub proof fn lemma_cancel_idempotent<T>(trigger: Option<T>)
    ensures
        cancelled(cancelled(trigger).1) == (None::<T>, cancelled(trigger).1),
{
}

// ---------------------------------------------------------------------------
// The engine
// ---------------------------------------------------------------------------

/// Whether the task of a subscription still serves its feed.
#[derive(Clone, Copy, Debug, PartialEq, Eq, Structural)]
pub enum Phase {
    /// The task runs, and the callback may be called.
    Active,
    /// The task is over: the last state.
    Cancelled,
}

/// What can happen to the task of a subscription.
#[derive(Debug, PartialEq, Eq)]
pub enum Event {
    /// The trigger was fired.
    CancelRequested,
    /// The feed brought a result.
    Update(FunctionResult),
    /// The feed is exhausted.
    FeedEnded,
}

/// What the task does in answer to an event.
#[derive(Debug, PartialEq, Eq)]
pub enum Action {
    /// Call the callback with this value.
    Deliver(Value),
    /// Record this message of the server; call nothing and go on.
    Report(String),
    /// Leave the loop.
    Stop,
    /// Nothing: the task was over already.
    Ignore,
}

/// An event, by what it carries.
pub enum EventModel {
    CancelRequested,
    Value(Model),
    ErrorMessage(Seq<char>),
    FeedEnded,
}

/// An action, by what it carries.
pub enum ActionModel {
    Deliver(Model),
    Report(Seq<char>),
    Stop,
    Ignore,
}

impl View for Event {
    type V = EventModel;

    open spec fn view(&self) -> EventModel {
        match *self {
            Event::CancelRequested => EventModel::CancelRequested,
            Event::Update(FunctionResult::Value(w)) => EventModel::Value(w@),
            Event::Update(FunctionResult::ErrorMessage(m)) => EventModel::ErrorMessage(m@),
            Event::FeedEnded => EventModel::FeedEnded,
        }
    }
}

impl View for Action {
    type V = ActionModel;

    open spec fn view(&self) -> ActionModel {
        match *self {
            Action::Deliver(v) => ActionModel::Deliver(v@),
            Action::Report(m) => ActionModel::Report(m@),
            Action::Stop => ActionModel::Stop,
            Action::Ignore => ActionModel::Ignore,
        }
    }
}

/// The phase after an event.
pub open spec fn next_phase(phase: Phase, event: EventModel) -> Phase {
    match (phase, event) {
        (Phase::Active, EventModel::Value(_)) => Phase::Active,
        (Phase::Active, EventModel::ErrorMessage(_)) => Phase::Active,
        _ => Phase::Cancelled,
    }
}

/// The action in answer to an event.
pub open spec fn action_for(phase: Phase, event: EventModel) -> ActionModel {
    match (phase, event) {
        (Phase::Cancelled, _) => ActionModel::Ignore,
        (Phase::Active, EventModel::Value(m)) => ActionModel::Deliver(canonical(m)),
        (Phase::Active, EventModel::ErrorMessage(s)) => ActionModel::Report(s),
        (Phase::Active, _) => ActionModel::Stop,
    }
}

/// Of a cancellation and an update that are ready at the same moment, the
/// cancellation goes first.
pub fn select(cancel_ready: bool, update_ready: Option<Event>) -> (chosen: Option<Event>)
    ensures
        cancel_ready ==> chosen == Some(Event::CancelRequested),
        !cancel_ready ==> chosen == update_ready,
{
    if cancel_ready {
        Some(Event::CancelRequested)
    } else {
        update_ready
    }
}

/// The event that the next item of the feed stands for.
pub fn feed_event(item: Option<FunctionResult>) -> (event: Event)
    ensures
        event == match item {
            Some(result) => Event::Update(result),
            None => Event::FeedEnded,
        },
{
    match item {
        Some(result) => Event::Update(result),
        None => Event::FeedEnded,
    }
}

/// The task of one subscription, as the state that decides what it does.
pub struct Engine {
    phase: Phase,
}

impl View for Engine {
    type V = Phase;

    closed spec fn view(&self) -> Phase {
        self.phase
    }
}

impl Engine {
    /// The engine of a subscription that has just begun.
    pub fn new() -> (e: Engine)
        ensures
            e@ == Phase::Active,
    {
        Engine { phase: Phase::Active }
    }

    /// The phase that the task is in.
    pub fn phase(&self) -> (p: Phase)
        ensures
            p == self@,
    {
        self.phase
    }

    /// Whether the task still serves its feed.
    pub fn is_active(&self) -> (active: bool)
        ensures
            active == (self@ == Phase::Active),
    {
        match self.phase {
            Phase::Active => true,
            Phase::Cancelled => false,
        }
    }

    /// Takes an event and says what to do. While the task is active, a value
    /// is to be delivered in its bridge form, a message of the server is to
    /// be recorded and the task goes on, and a cancellation or the end of
    /// the feed stops the task. Once the task is over nothing is done.
    pub fn step(&mut self, event: Event) -> (action: Action)
        ensures
            final(self)@ == next_phase(old(self)@, event@),
            action@ == action_for(old(self)@, event@),
            action matches Action::Deliver(v) ==> wf(v@),
    {
        match self.phase {
            Phase::Cancelled => Action::Ignore,
            Phase::Active => match event {
                Event::Update(FunctionResult::Value(w)) => Action::Deliver(to_bridge(w)),
                Event::Update(FunctionResult::ErrorMessage(message)) => Action::Report(message),
                Event::CancelRequested => {
                    self.phase = Phase::Cancelled;
                    Action::Stop
                },
                Event::FeedEnded => {
                    self.phase = Phase::Cancelled;
                    Action::Stop
                },
            },
        }
    }
}

/// The one capability that a subscriber hands over: to be told each value.
/// The engine only says when it is to be used: the task that owns the
/// callback makes the call.
pub trait Callback {
    fn update(&self, value: Value);
}

/// What the task owes for an action: the value to hand to the callback, the
/// message to record, and whether the task goes on. A value is owed for a
/// delivery and for nothing else.
pub fn perform(action: Action) -> (owed: (Option<Value>, Option<String>, bool))
    ensures
        owed == match action {
            Action::Deliver(value) => (Some(value), None::<String>, true),
            Action::Report(message) => (None::<Value>, Some(message), true),
            Action::Stop => (None::<Value>, None::<String>, false),
            Action::Ignore => (None::<Value>, None::<String>, false),
        },
{
    match action {
        Action::Deliver(value) => (Some(value), None, true),
        Action::Report(message) => (None, Some(message), true),
        Action::Stop => (None, None, false),
        Action::Ignore => (None, None, false),
    }
}

// ---------------------------------------------------------------------------
// Runs of events
// ---------------------------------------------------------------------------

/// The phase after the first `n` of `events`, from `phase` on.
pub open spec fn phase_after(phase: Phase, events: Seq<EventModel>, n: int) -> Phase
    decreases n,
{
    if n <= 0 {
        phase
    } else {
        next_phase(phase_after(phase, events, n - 1), events[n - 1])
    }
}

/// The action in answer to the event at position `i` of a run that began in
/// `phase`.
pub open spec fn action_at(phase: Phase, events: Seq<EventModel>, i: int) -> ActionModel {
    action_for(phase_after(phase, events, i), events[i])
}

/// Whether an event ends the task.
pub open spec fn ends(event: EventModel) -> bool {
    event is CancelRequested || event is FeedEnded
}

/// The task is active after `n` events exactly if it began active and none
/// of them ended it.
pub proof fn lemma_phase_after(phase: Phase, events: Seq<EventModel>, n: int)
    requires
        0 <= n <= events.len(),
    ensures
        phase_after(phase, events, n) == Phase::Active <==> (phase == Phase::Active && forall|
            i: int,
        | 0 <= i < n ==> !ends(#[trigger] events[i])),
    decreases n,
{
    if n > 0 {
        lemma_phase_after(phase, events, n - 1);
    }
}

/// Once a cancellation was requested or the feed has ended, no later event
/// leads to a call of the callback, whatever was on its way: every later
/// event is ignored.
pub proof fn lemma_nothing_after_the_end(events: Seq<EventModel>, i: int, j: int)
    requires
        0 <= i < j < events.len(),
        ends(events[i]),
    ensures
        action_at(Phase::Active, events, j) == ActionModel::Ignore,
        !(action_at(Phase::Active, events, j) is Deliver),
{
    lemma_phase_after(Phase::Active, events, j);
}

/// Until the task ends, every value of the feed is delivered and every
/// message of the server is recorded, each at its place in the run; a
/// message of the server does not end the task.
pub proof fn lemma_served_until_the_end(events: Seq<EventModel>, j: int)
    requires
        0 <= j < events.len(),
        forall|i: int| 0 <= i < j ==> !ends(#[trigger] events[i]),
    ensures
        events[j] matches EventModel::Value(m) ==> action_at(Phase::Active, events, j)
            == ActionModel::Deliver(canonical(m)),
        events[j] matches EventModel::ErrorMessage(s) ==> action_at(Phase::Active, events, j)
            == ActionModel::Report(s) && phase_after(Phase::Active, events, j + 1)
            == Phase::Active,
        ends(events[j]) ==> action_at(Phase::Active, events, j) == ActionModel::Stop,
{
    lemma_phase_after(Phase::Active, events, j);
}

/// A cancellation that finds the task over, as after the feed has ended or
/// after an earlier cancellation, does nothing and changes nothing.
pub proof fn lemma_cancel_after_the_end()
    ensures
        next_phase(Phase::Cancelled, EventModel::CancelRequested) == Phase::Cancelled,
        action_for(Phase::Cancelled, EventModel::CancelRequested) == ActionModel::Ignore,
{
}

} // verus!
