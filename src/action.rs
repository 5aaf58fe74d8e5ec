//! The one-at-a-time slot of a background action: at most one request is in
//! flight, a second is refused, and its outcome is read without blocking.
use vstd::prelude::*;
use crate::channel::{Received, receive_now};

verus! {

/// What a finished action reports: a success message or an error text.
pub type ActionOutcome = Result<String, String>;

/// The status shown when an action's worker went away without reporting.
pub open spec fn lost_action_text() -> Seq<char> {
    "Action failed unexpectedly"@
}

/// The status shown when a request is refused because one is in flight.
pub open spec fn busy_text() -> Seq<char> {
    "An action is already in progress..."@
}

pub fn busy_message() -> (r: String)
    ensures
        r@ == busy_text(),
{
    String::from_str("An action is already in progress...")
}

/// The pending-action slot: idle, or in flight with the channel its
/// worker reports on.
pub struct ActionSlot {
    pub receiver: Option<std::sync::mpsc::Receiver<ActionOutcome>>,
}

/// The status message one read of the channel gives, if any: the message
/// of either outcome, or the lost-action text when the worker is gone.
pub open spec fn settled_message(event: Received<ActionOutcome>) -> Option<Seq<char>> {
    match event {
        Received::Item(Ok(m)) => Some(m@),
        Received::Item(Err(m)) => Some(m@),
        Received::Empty => None,
        Received::Closed => Some(lost_action_text()),
    }
}

/// What `submit` does: a request is taken only by an idle slot, and a
/// refused one changes nothing.
pub open spec fn submitted(
    before: ActionSlot,
    after: ActionSlot,
    accepted: bool,
    rx: std::sync::mpsc::Receiver<ActionOutcome>,
) -> bool {
    &&& accepted == (before.receiver is None)
    &&& accepted ==> after.receiver == Some(rx)
    &&& !accepted ==> after == before
}

impl ActionSlot {
    /// An idle slot.
    pub fn new() -> (r: Self)
        ensures
            r.receiver is None,
    {
        ActionSlot { receiver: None }
    }

    /// Whether an action is in flight.
    pub fn in_progress(&self) -> (r: bool)
        ensures
            r == self.receiver is Some,
    {
        self.receiver.is_some()
    }

    /// Takes a new request whose worker will report on `rx`; refused, with
    /// the slot unchanged, while another is in flight.
    pub fn submit(&mut self, rx: std::sync::mpsc::Receiver<ActionOutcome>) -> (accepted: bool)
        ensures
            submitted(*old(self), *final(self), accepted, rx),
    {
        if self.receiver.is_some() {
            return false;
        }
        self.receiver = Some(rx);
        true
    }

    /// Applies one read of the channel: any outcome, or a closed channel,
    /// ends the action and gives the status message; an empty read changes
    /// nothing.
    pub fn settle(&mut self, event: Received<ActionOutcome>) -> (msg: Option<String>)
        ensures
            match msg {
                Some(m) => settled_message(event) == Some(m@),
                None => settled_message(event) is None,
            },
            event is Empty ==> *final(self) == *old(self),
            !(event is Empty) ==> final(self).receiver is None,
    {
        match event {
            Received::Item(Ok(m)) => {
                self.receiver = None;
                Some(m)
            },
            Received::Item(Err(m)) => {
                self.receiver = None;
                Some(m)
            },
            Received::Empty => None,
            Received::Closed => {
                self.receiver = None;
                Some(String::from_str("Action failed unexpectedly"))
            },
        }
    }

    /// Reads the channel once without blocking; `None` while idle or while
    /// the action is still running.
    pub fn poll(&mut self) -> (msg: Option<String>)
        ensures
            old(self).receiver is None ==> msg is None && *final(self) == *old(self),
            msg is None ==> *final(self) == *old(self),
            msg is Some ==> final(self).receiver is None,
    {
        let event = match &self.receiver {
            Some(rx) => receive_now(rx),
            None => {
                return None;
            },
        };
        self.settle(event)
    }
}

/// A request submitted while another is in flight is refused and leaves the
/// in-flight one in place: the same channel, so the outcome read later is
/// the in-flight action's own.
pub proof fn lemma_refused_submit_keeps_action(
    before: ActionSlot,
    after: ActionSlot,
    accepted: bool,
    rx: std::sync::mpsc::Receiver<ActionOutcome>,
)
    requires
        before.receiver is Some,
        submitted(before, after, accepted, rx),
    ensures
        !accepted,
        after.receiver == before.receiver,
{
}

} // verus!
