//! Value marshaling and subscription lifecycle rules for a bridge between a
//! remote backend and a foreign runtime.
//!
//! The crate holds the decisions of the bridge as plain functions with
//! machine-checked contracts:
//!
//! - `model`, `order`, `canonical`: what a value is, the canonical order over
//!   values with the proof that it is a strict total order, and sets and maps
//!   as sequences in that order;
//! - `value`, `compare`, `relations`: the values themselves, with sets and
//!   maps that keep the order by themselves, and the comparison of values;
//! - `format`, `primitives`, `codec`, `laws`: the byte format in which values
//!   cross the boundary, the functions that write and read it, and the proofs
//!   that what was written is read back and that truncated bytes are refused;
//! - `type_meta`: the tag sequences that announce the shape of each type;
//! - `wire`: the conversion from and to the values of the backend's client;
//! - `client`, `subscription`: the state machines of the connection handle
//!   and of a subscription;
//! - `bundle`: the plan of the tool that packages the bridge.
//!
//! Nothing here waits or performs input or output: the program around the
//! library does, and asks the library what to do next.

pub mod bundle;
pub mod canonical;
pub mod client;
pub mod codec;
pub mod compare;
pub mod format;
pub mod laws;
pub mod model;
pub mod order;
pub mod primitives;
pub mod relations;
pub mod subscription;
pub mod type_meta;
pub mod value;
pub mod wire;

pub use crate::bundle::SwiftCommand;
pub use crate::client::{
    function_result, CallKind, CallOutcome, Client, FunctionResult, Request, SubscribeError,
};
pub use crate::compare::{compare, Order};
pub use crate::format::CodecError;
pub use crate::subscription::{Action, Callback, Engine, Event, Phase, Subscription};
pub use crate::value::{Value, ValueMap, ValueObject, ValueSet};
pub use crate::wire::{to_bridge, to_convex_args, to_wire, WireValue};
