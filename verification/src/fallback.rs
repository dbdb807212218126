//! Falling back from one evaluator model to the next.
//!
//! An expectation is asked of the models in order. A technical failure of a model
//! moves on to the next one; any other failure ends the interrogation with its
//! message. When every model failed, the error lists each model with its failure.

use vstd::prelude::*;
use crate::protocol::{is_model_technical_failure, join_semicolon, join_semicolon_text, EvaluatorError};
use crate::sessions::{model_key_spec, model_label, opt_str_view, InterrogationState};

verus! {

/// Where the fallback over the models stands.
pub struct ModelFallback {
    /// The models to ask, in order.
    pub models: Vec<Option<String>>,
    /// The position of the model to ask next.
    pub index: usize,
    /// One line for each model that failed technically so far.
    pub failures: Vec<String>,
}

/// What to do next.
pub enum FallbackStep {
    /// Ask the model at this position.
    Ask(usize),
    /// Every model failed technically: the interrogation fails with this message.
    Exhausted(String),
}

pub open spec fn model_view(m: Option<String>) -> Option<Seq<char>> {
    match m {
        Some(s) => Some(s@),
        None => None,
    }
}

/// The line that records the technical failure of `model`.
pub open spec fn failure_line(model: Option<Seq<char>>, message: Seq<char>) -> Seq<char> {
    model_key_spec(model) + ": "@ + message
}

/// The error once every model failed.
pub open spec fn exhausted_message(failures: Seq<String>) -> Seq<char> {
    "all evaluator models failed: "@ + join_semicolon(failures)
}

fn model_ref(m: &Option<String>) -> (r: Option<&str>)
    ensures
        opt_str_view(r) == model_view(*m),
{
    match m {
        Some(s) => Some(s.as_str()),
        None => None,
    }
}

impl ModelFallback {
    /// A fallback that starts with the first of `models`.
    pub fn new(models: Vec<Option<String>>) -> (r: ModelFallback)
        ensures
            r.models == models,
            r.index == 0,
            r.failures@.len() == 0,
    {
        ModelFallback { models, index: 0, failures: Vec::new() }
    }

    /// The next model to ask, or the final error when none is left.
    pub fn next_step(&self) -> (r: FallbackStep)
        ensures
            self.index < self.models@.len() ==> r == FallbackStep::Ask(self.index),
            self.index >= self.models@.len() ==> (r matches FallbackStep::Exhausted(m) && m@
                == exhausted_message(self.failures@)),
    {
        if self.index < self.models.len() {
            FallbackStep::Ask(self.index)
        } else {
            let mut m = String::from_str("all evaluator models failed: ");
            let joined = join_semicolon_text(&self.failures);
            m.append(joined.as_str());
            FallbackStep::Exhausted(m)
        }
    }

    /// Records that the model at the current position failed with `err`. A failure
    /// that is not technical ends the interrogation with its message. A technical
    /// one moves on; where another model follows, the failed one is marked
    /// unavailable in `state` for the rest of the run.
    pub fn record_failure(&mut self, state: &mut InterrogationState, err: &EvaluatorError) -> (r: Result<(), String>)
        requires
            old(self).index < old(self).models@.len(),
        ensures
            err.kind is None ==> (r matches Err(m) && m@ == err.message@ && *final(self) == *old(
                self,
            ) && *final(state) == *old(state)),
            err.kind is Some ==> {
                &&& r is Ok
                &&& final(self).models == old(self).models
                &&& final(self).index == old(self).index + 1
                &&& final(self).failures@.len() == old(self).failures@.len() + 1
                &&& final(self).failures@.drop_last() == old(self).failures@
                &&& final(self).failures@.last()@ == failure_line(
                    model_view(old(self).models@[old(self).index as int]),
                    err.message@,
                )
                &&& old(self).index + 1 < old(self).models@.len() ==> final(state).unavailable()
                    == old(state).unavailable().insert(
                    model_key_spec(model_view(old(self).models@[old(self).index as int])),
                )
                &&& old(self).index + 1 >= old(self).models@.len() ==> *final(state) == *old(
                    state,
                )
                &&& final(state).sessions_by_scope == old(state).sessions_by_scope
                &&& final(state).session_instructions == old(state).session_instructions
            },
    {
        if !is_model_technical_failure(err) {
            return Err(err.message.clone());
        }
        let i = self.index;
        let last = self.models.len() - 1;
        let model = model_ref(&self.models[i]);
        if i < last {
            state.mark_model_unavailable(model);
        }
        let mut line = String::from_str(model_label(model));
        line.append(": ");
        line.append(err.message_str());
        self.failures.push(line);
        self.index = i + 1;
        Ok(())
    }
}

} // verus!
