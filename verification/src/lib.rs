//! Rule-driven filesystem automation: change events are matched against watch
//! rules, coalesced per target, checked against a condition tree and turned
//! into one filesystem operation per settled target.
//!
//! The stages, in the order an event passes them:
//!
//! - [`rules`] matches an event against the rule set and makes one request
//!   for each path and rule that applies;
//! - [`dispatcher`] routes each request to the debounce process of its key,
//!   of which there is at most one;
//! - [`debounce`] is the state machine of such a process, which lets a burst
//!   of events settle;
//! - [`conditions`] evaluates the condition tree of the rule against the file
//!   as it is when the burst has settled;
//! - [`actions`] says which operation the rule's action amounts to.
//!
//! The library performs no input or output. It is told of events and of the
//! time, and answers with what to do.

pub mod actions;
pub mod conditions;
pub mod debounce;
pub mod dispatcher;
pub mod kinds;
pub mod paths;
pub mod protocol;
pub mod rules;
pub mod trusted;
