//! Observers of state changes. An observer turns a transition into the
//! line it wants published (the caller prints or sends it).
use vstd::prelude::*;
use vstd::string::StringExecFns;
use crate::book::{event_debug, state_debug, BookEvent, BookState};

verus! {

/// Reacts to a transition from `from` to `to` on `event`.
pub trait StateObserver {
    /// The line to publish for this transition, if any.
    fn on_state_change(&self, from: &BookState, to: &BookState, event: &BookEvent) -> Option<String>;
}

/// Logs every transition.
#[derive(Debug)]
pub struct TransitionLogger;

pub open spec fn log_line(from: BookState, to: BookState, event: BookEvent) -> Seq<char> {
    "LOGGER: Transition occurred: "@ + state_debug(from) + " --("@ + event_debug(event) + ")--> "@ + state_debug(to)
}

impl TransitionLogger {
    pub fn message(from: &BookState, to: &BookState, event: &BookEvent) -> (r: String)
        ensures
            r@ == log_line(*from, *to, *event),
    {
        let f = from.debug_text();
        let e = event.debug_text();
        let t = to.debug_text();
        String::from_str("LOGGER: Transition occurred: ").concat(f.as_str()).concat(" --(").concat(e.as_str()).concat(
            ")--> ",
        ).concat(t.as_str())
    }
}

impl StateObserver for TransitionLogger {
    fn on_state_change(&self, from: &BookState, to: &BookState, event: &BookEvent) -> Option<String> {
        Some(TransitionLogger::message(from, to, event))
    }
}

/// Announces check-outs after a reservation, returns, and finished repairs.
#[derive(Debug)]
pub struct NotificationService;

pub open spec fn notice(from: BookState, to: BookState, event: BookEvent) -> Option<Seq<char>> {
    if from is Reserved && to is CheckedOut && event is CheckOut {
        Some("NOTIFICATION: Book has been checked out!"@)
    } else if from is CheckedOut && to is Available && event is Return {
        Some("NOTIFICATION: Book has been returned!"@)
    } else if from is UnderRepair && to is Available && event is CompleteRepair {
        Some("NOTIFICATION: Book has been repaired!"@)
    } else {
        None
    }
}

impl NotificationService {
    pub fn message(from: &BookState, to: &BookState, event: &BookEvent) -> (r: Option<String>)
        ensures
            r is None <==> notice(*from, *to, *event) is None,
            r is Some ==> r->0@ == notice(*from, *to, *event)->0,
    {
        match (from, to, event) {
            (BookState::Reserved(_), BookState::CheckedOut(_), BookEvent::CheckOut(_)) => Some(
                String::from_str("NOTIFICATION: Book has been checked out!"),
            ),
            (BookState::CheckedOut(_), BookState::Available, BookEvent::Return) => Some(
                String::from_str("NOTIFICATION: Book has been returned!"),
            ),
            (BookState::UnderRepair, BookState::Available, BookEvent::CompleteRepair) => Some(
                String::from_str("NOTIFICATION: Book has been repaired!"),
            ),
            _ => None,
        }
    }
}

impl StateObserver for NotificationService {
    fn on_state_change(&self, from: &BookState, to: &BookState, event: &BookEvent) -> Option<String> {
        NotificationService::message(from, to, event)
    }
}

} // verus!
