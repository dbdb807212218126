//! The messages of one app-server turn request, as a state machine.
//!
//! A turn is over when both the response to the request and the `turn/completed`
//! notification have arrived, in either order. An error in the response, in the
//! completion, or in any other notification fails the turn; an `error`
//! notification is held back and fails the turn at its end. A turn interrupted by
//! the user ends as interrupted when it completes.

use vstd::prelude::*;
use crate::protocol::turn_text;
use crate::text::is_blank;

verus! {

/// What one message of the app server says about the turn.
pub enum TurnMessage {
    /// The response to the turn request, with its error if it has one.
    Response(Option<serde_json::Value>),
    /// A piece of the agent's message as it streams.
    AgentDelta(String),
    /// The text that a completed item adds to the agent's message.
    ItemCompleted(String),
    /// `turn/completed`, with its error if it has one.
    TurnCompleted(Option<serde_json::Value>),
    /// An `error` notification.
    ErrorNotice(Option<serde_json::Value>),
    /// Any other notification that carries an error.
    OtherError(serde_json::Value),
    /// A message that does not concern the turn's outcome.
    Other,
}

/// What the caller does after a message.
pub enum TurnProgress {
    /// Read the next message.
    Continue,
    /// The turn succeeded with this text.
    Finish(String),
    /// The turn failed with this error.
    Fail(serde_json::Value),
    /// The user interrupted the turn.
    Interrupted,
}

/// What has been seen of a turn so far.
pub struct TurnRequestState {
    pub saw_response: bool,
    pub saw_completed: bool,
    pub text: String,
    pub completed_text: String,
    pub turn_id: Option<String>,
    pub pending_error: Option<serde_json::Value>,
    pub interrupted: bool,
}

/// The text of a finished turn.
pub open spec fn finished_text(text: Seq<char>, completed: Seq<char>) -> Seq<char> {
    if is_blank(text) {
        completed
    } else {
        text
    }
}

impl TurnRequestState {
    pub fn new() -> (r: TurnRequestState)
        ensures
            !r.saw_response,
            !r.saw_completed,
            r.text@.len() == 0,
            r.completed_text@.len() == 0,
            r.turn_id is None,
            r.pending_error is None,
            !r.interrupted,
    {
        TurnRequestState {
            saw_response: false,
            saw_completed: false,
            text: String::new(),
            completed_text: String::new(),
            turn_id: None,
            pending_error: None,
            interrupted: false,
        }
    }

    /// Notes the id of the turn once the app server reports it started.
    pub fn turn_started(&mut self, turn_id: String)
        ensures
            *final(self) == (TurnRequestState { turn_id: Some(turn_id), ..*old(self) }),
    {
        self.turn_id = Some(turn_id);
    }

    /// Notes that the user interrupted the turn.
    pub fn interrupt(&mut self)
        ensures
            *final(self) == (TurnRequestState { interrupted: true, ..*old(self) }),
    {
        self.interrupted = true;
    }

    /// Takes one message and decides whether the turn goes on, finished or failed.
    pub fn on_message(&mut self, message: TurnMessage) -> (r: TurnProgress)
        ensures
            final(self).turn_id == old(self).turn_id,
            final(self).interrupted == old(self).interrupted,
            match message {
                TurnMessage::Response(error) => match error {
                    Some(e) => r == TurnProgress::Fail(e),
                    None => match old(self).pending_error {
                        Some(p) => r == TurnProgress::Fail(p) && final(self).pending_error is None,
                        None => {
                            &&& final(self).saw_response
                            &&& final(self).saw_completed == old(self).saw_completed
                            &&& final(self).text == old(self).text
                            &&& final(self).completed_text == old(self).completed_text
                            &&& old(self).saw_completed ==> (r matches TurnProgress::Finish(t) && t@
                                == finished_text(old(self).text@, old(self).completed_text@))
                            &&& !old(self).saw_completed ==> r is Continue
                        },
                    },
                },
                TurnMessage::AgentDelta(d) => {
                    &&& r is Continue
                    &&& final(self).text@ == old(self).text@ + d@
                    &&& final(self).completed_text == old(self).completed_text
                    &&& final(self).saw_response == old(self).saw_response
                    &&& final(self).saw_completed == old(self).saw_completed
                    &&& final(self).pending_error == old(self).pending_error
                },
                TurnMessage::ItemCompleted(c) => {
                    &&& r is Continue
                    &&& final(self).completed_text@ == old(self).completed_text@ + c@
                    &&& final(self).text == old(self).text
                    &&& final(self).saw_response == old(self).saw_response
                    &&& final(self).saw_completed == old(self).saw_completed
                    &&& final(self).pending_error == old(self).pending_error
                },
                TurnMessage::TurnCompleted(error) => if old(self).interrupted {
                    r is Interrupted
                } else {
                    match error {
                        Some(e) => r == TurnProgress::Fail(e),
                        None => match old(self).pending_error {
                            Some(p) => r == TurnProgress::Fail(p) && final(self).pending_error is None,
                            None => {
                                &&& final(self).saw_completed
                                &&& final(self).saw_response == old(self).saw_response
                                &&& final(self).text == old(self).text
                                &&& final(self).completed_text == old(self).completed_text
                                &&& old(self).saw_response ==> (r matches TurnProgress::Finish(t)
                                    && t@ == finished_text(old(self).text@, old(self).completed_text@))
                                &&& !old(self).saw_response ==> r is Continue
                            },
                        },
                    }
                },
                TurnMessage::ErrorNotice(error) => {
                    &&& r is Continue
                    &&& final(self).pending_error == match error {
                        Some(e) => Some(e),
                        None => old(self).pending_error,
                    }
                    &&& final(self).saw_response == old(self).saw_response
                    &&& final(self).saw_completed == old(self).saw_completed
                    &&& final(self).text == old(self).text
                    &&& final(self).completed_text == old(self).completed_text
                },
                TurnMessage::OtherError(e) => r == TurnProgress::Fail(e),
                TurnMessage::Other => r is Continue && *final(self) == *old(self),
            },
    {
        match message {
            TurnMessage::Response(error) => {
                let error = match error {
                    Some(e) => Some(e),
                    None => self.pending_error.take(),
                };
                if let Some(e) = error {
                    return TurnProgress::Fail(e);
                }
                self.saw_response = true;
                if self.saw_completed {
                    return self.finish();
                }
                TurnProgress::Continue
            },
            TurnMessage::AgentDelta(d) => {
                self.text.append(d.as_str());
                TurnProgress::Continue
            },
            TurnMessage::ItemCompleted(c) => {
                self.completed_text.append(c.as_str());
                TurnProgress::Continue
            },
            TurnMessage::TurnCompleted(error) => {
                if self.interrupted {
                    return TurnProgress::Interrupted;
                }
                let error = match error {
                    Some(e) => Some(e),
                    None => self.pending_error.take(),
                };
                if let Some(e) = error {
                    return TurnProgress::Fail(e);
                }
                self.saw_completed = true;
                if self.saw_response {
                    return self.finish();
                }
                TurnProgress::Continue
            },
            TurnMessage::ErrorNotice(error) => {
                if let Some(e) = error {
                    self.pending_error = Some(e);
                }
                TurnProgress::Continue
            },
            TurnMessage::OtherError(e) => TurnProgress::Fail(e),
            TurnMessage::Other => TurnProgress::Continue,
        }
    }

    fn finish(&mut self) -> (r: TurnProgress)
        ensures
            r matches TurnProgress::Finish(t) && t@ == finished_text(old(self).text@, old(self).completed_text@),
            final(self).saw_response == old(self).saw_response,
            final(self).saw_completed == old(self).saw_completed,
            final(self).turn_id == old(self).turn_id,
            final(self).interrupted == old(self).interrupted,
            final(self).pending_error == old(self).pending_error,
            final(self).text == old(self).text,
            final(self).completed_text == old(self).completed_text,
    {
        let t = turn_text(self.text.clone(), self.completed_text.clone());
        TurnProgress::Finish(t)
    }
}

} // verus!
