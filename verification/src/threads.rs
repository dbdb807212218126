//! One evaluator turn in a reused thread, as a state machine.
//!
//! Threads are reused per enforced scope. A turn asks the thread kept for its
//! scope or starts one; when a reused thread fails because its context window is
//! full, the threads are forgotten and the turn starts a new one and asks again,
//! once. After the turn the threads that the runner retired are dropped, and the
//! thread is kept for its scope unless it was retired itself.

use vstd::prelude::*;
use crate::protocol::{is_context_window_failure, EvaluatorError, EvaluatorFailureKind};
use crate::scope::scope_views;
use crate::sessions::{
    clear_thread_sessions_after_failure, drop_retired, evaluator_session_key, fail_after_session_error,
    is_retired, retire_thread_sessions_after_turn, session_key_spec, InterrogationState,
};
use crate::turns::{find_turn, has_key, key_pos, keys_unique, lemma_push_new_key, lemma_replace_value};

verus! {

/// The value that an association list holds for `k`.
pub open spec fn entry_get(e: Seq<(String, String)>, k: Seq<char>) -> Option<Seq<char>> {
    if has_key(e, k) {
        Some(e[key_pos(e, k)].1@)
    } else {
        None
    }
}

/// The value for `key`, if the list holds one.
pub fn entry_lookup(e: &Vec<(String, String)>, key: &str) -> (r: Option<String>)
    requires
        keys_unique(e@),
    ensures
        match r {
            Some(v) => entry_get(e@, key@) == Some(v@),
            None => entry_get(e@, key@) is None,
        },
{
    match find_turn(e, key) {
        Some(i) => Some(e[i].1.clone()),
        None => None,
    }
}

/// Sets the value for `key`.
pub fn entry_insert(e: &mut Vec<(String, String)>, key: String, value: String)
    requires
        keys_unique(old(e)@),
    ensures
        keys_unique(final(e)@),
        forall|k: Seq<char>| #[trigger] entry_get(final(e)@, k) == if k == key@ {
            Some(value@)
        } else {
            entry_get(old(e)@, k)
        },
{
    match find_turn(e, key.as_str()) {
        Some(i) => {
            let ghost x = (key, value);
            proof {
                lemma_replace_value(e@, i as int, x);
            }
            e.set(i, (key, value));
            assert(e@ == old(e)@.update(i as int, x));
            assert forall|k: Seq<char>| #[trigger] entry_get(e@, k) == if k == x.0@ {
                Some(x.1@)
            } else {
                entry_get(old(e)@, k)
            } by {
                if k == x.0@ {
                    assert(key_pos(e@, k) == i);
                }
            }
        },
        None => {
            let ghost x = (key, value);
            proof {
                lemma_push_new_key(e@, x);
            }
            e.push((key, value));
            assert(e@ == old(e)@.push(x));
        },
    }
}

/// Where a turn stands.
#[derive(Clone, Copy, Debug, PartialEq, Eq, Structural)]
pub enum ThreadStage {
    /// A thread is being started; `retry` after a full context window.
    AwaitStart { retry: bool },
    /// The thread is being asked.
    AwaitAnswer { retry: bool },
    /// The runner's retired threads are being collected.
    AwaitRetired,
    Done,
}

/// What came of the last action.
pub enum ThreadEvent {
    /// The new thread, or why it could not be started.
    Started(Result<String, EvaluatorError>),
    /// `None` when the thread answered, else the error.
    Answered(Option<EvaluatorError>),
    /// The threads that the runner retired.
    Retired(Vec<String>),
}

/// What the caller does next.
pub enum ThreadAction {
    /// Start a thread with the turn's developer instructions.
    StartSession,
    /// Ask this thread.
    Ask(String),
    /// Hand over the runner's retired threads.
    CollectRetired,
    /// The turn is over: the answer stands, or the turn failed with this error.
    Finished(Result<(), EvaluatorError>),
}

/// A turn in progress.
pub struct ThreadTurn {
    pub session_key: String,
    pub session_id: String,
    pub had_existing_session: bool,
    pub stage: ThreadStage,
}

/// The event that the stage waits for.
pub open spec fn thread_expects(stage: ThreadStage, event: ThreadEvent) -> bool {
    match stage {
        ThreadStage::AwaitStart { .. } => event is Started,
        ThreadStage::AwaitAnswer { .. } => event is Answered,
        ThreadStage::AwaitRetired => event is Retired,
        ThreadStage::Done => false,
    }
}

/// `new` is `old` after a session error: an error of a known kind forgets the threads.
pub open spec fn after_session_error(old: InterrogationState, new: InterrogationState, err: EvaluatorError) -> bool {
    &&& new.wf()
    &&& err.kind is Some ==> new.sessions_by_scope@.len() == 0 && new.session_instructions@.len() == 0
    &&& err.kind is None ==> new == old
    &&& new.unavailable_models == old.unavailable_models
}

/// What one step does.
pub open spec fn thread_step_post(
    turn: ThreadTurn,
    state: InterrogationState,
    instructions: Seq<char>,
    event: ThreadEvent,
    new_turn: ThreadTurn,
    new_state: InterrogationState,
    action: ThreadAction,
) -> bool {
    match turn.stage {
        ThreadStage::AwaitStart { retry } => match event {
            ThreadEvent::Started(Err(e)) => {
                &&& after_session_error(state, new_state, e)
                &&& new_turn.stage == ThreadStage::Done
                &&& action == ThreadAction::Finished(Err(e))
            },
            ThreadEvent::Started(Ok(id)) => {
                &&& new_state.wf()
                &&& new_state.unavailable_models == state.unavailable_models
                &&& forall|k: Seq<char>| #[trigger] entry_get(new_state.session_instructions@, k) == if k == id@ {
                    Some(instructions)
                } else {
                    entry_get(state.session_instructions@, k)
                }
                &&& forall|k: Seq<char>| #[trigger] entry_get(new_state.sessions_by_scope@, k) == if k == turn.session_key@ {
                    Some(id@)
                } else {
                    entry_get(state.sessions_by_scope@, k)
                }
                &&& new_turn.session_id == id
                &&& new_turn.session_key == turn.session_key
                &&& new_turn.had_existing_session == turn.had_existing_session
                &&& new_turn.stage == ThreadStage::AwaitAnswer { retry }
                &&& action matches ThreadAction::Ask(s) && s@ == id@
            },
            _ => false,
        },
        ThreadStage::AwaitAnswer { retry } => match event {
            ThreadEvent::Answered(None) => {
                &&& new_state == state
                &&& new_turn == (ThreadTurn { stage: ThreadStage::AwaitRetired, ..turn })
                &&& action is CollectRetired
            },
            ThreadEvent::Answered(Some(e)) => if !retry && turn.had_existing_session && e.kind
                == Some(EvaluatorFailureKind::ContextWindow) {
                &&& new_state.wf()
                &&& new_state.sessions_by_scope@.len() == 0
                &&& new_state.session_instructions@.len() == 0
                &&& new_state.unavailable_models == state.unavailable_models
                &&& new_turn == (ThreadTurn { stage: ThreadStage::AwaitStart { retry: true }, ..turn })
                &&& action is StartSession
            } else {
                &&& after_session_error(state, new_state, e)
                &&& new_turn.stage == ThreadStage::Done
                &&& action == ThreadAction::Finished(Err(e))
            },
            _ => false,
        },
        ThreadStage::AwaitRetired => match event {
            ThreadEvent::Retired(retired) => {
                let dropped = drop_retired(state.sessions_by_scope@, retired@, true);
                &&& new_state.wf()
                &&& new_state.session_instructions@ == drop_retired(
                    state.session_instructions@,
                    retired@,
                    false,
                )
                &&& new_state.unavailable_models == state.unavailable_models
                &&& is_retired(retired@, turn.session_id@) ==> new_state.sessions_by_scope@ == dropped
                &&& !is_retired(retired@, turn.session_id@) ==> forall|k: Seq<char>|
                    #[trigger] entry_get(new_state.sessions_by_scope@, k) == if k == turn.session_key@ {
                        Some(turn.session_id@)
                    } else {
                        entry_get(dropped, k)
                    }
                &&& new_turn.stage == ThreadStage::Done
                &&& action == ThreadAction::Finished(Ok::<(), EvaluatorError>(()))
            },
            _ => false,
        },
        ThreadStage::Done => false,
    }
}

impl ThreadTurn {
    /// Begins a turn under `scope`: asks the thread kept for the scope, or starts one.
    pub fn begin(state: &InterrogationState, scope: &Vec<String>) -> (r: (ThreadTurn, ThreadAction))
        requires
            state.wf(),
            forall|i: int| 0 <= i < scope@.len() ==> crate::output::utf8_len(#[trigger] scope@[i]@) <= usize::MAX,
        ensures
            r.0.session_key@ == session_key_spec(scope_views(scope@)),
            match entry_get(state.sessions_by_scope@, r.0.session_key@) {
                Some(id) => r.0.had_existing_session && r.0.session_id@ == id && r.0.stage
                    == ThreadStage::AwaitAnswer { retry: false } && (r.1 matches ThreadAction::Ask(s)
                    && s@ == id),
                None => !r.0.had_existing_session && r.0.stage == ThreadStage::AwaitStart {
                    retry: false,
                } && r.1 is StartSession,
            },
    {
        let key = evaluator_session_key(scope);
        match entry_lookup(&state.sessions_by_scope, key.as_str()) {
            Some(id) => {
                let ask = id.clone();
                (
                    ThreadTurn {
                        session_key: key,
                        session_id: id,
                        had_existing_session: true,
                        stage: ThreadStage::AwaitAnswer { retry: false },
                    },
                    ThreadAction::Ask(ask),
                )
            },
            None => (
                ThreadTurn {
                    session_key: key,
                    session_id: String::new(),
                    had_existing_session: false,
                    stage: ThreadStage::AwaitStart { retry: false },
                },
                ThreadAction::StartSession,
            ),
        }
    }

    /// Takes the event that the stage waits for; `instructions` are the developer
    /// instructions a new thread starts with.
    pub fn step(&mut self, state: &mut InterrogationState, instructions: &str, event: ThreadEvent) -> (action: ThreadAction)
        requires
            old(state).wf(),
            thread_expects(old(self).stage, event),
        ensures
            thread_step_post(*old(self), *old(state), instructions@, event, *final(self), *final(state), action),
    {
        match self.stage {
            ThreadStage::AwaitStart { retry } => match event {
                ThreadEvent::Started(Err(e)) => {
                    self.stage = ThreadStage::Done;
                    ThreadAction::Finished(fail_after_session_error(state, e))
                },
                ThreadEvent::Started(Ok(id)) => {
                    entry_insert(&mut state.session_instructions, id.clone(), String::from_str(instructions));
                    entry_insert(&mut state.sessions_by_scope, self.session_key.clone(), id.clone());
                    let ask = id.clone();
                    self.session_id = id;
                    self.stage = ThreadStage::AwaitAnswer { retry };
                    ThreadAction::Ask(ask)
                },
                _ => {
                    proof {
                        assert(false);
                    }
                    ThreadAction::CollectRetired
                },
            },
            ThreadStage::AwaitAnswer { retry } => match event {
                ThreadEvent::Answered(None) => {
                    self.stage = ThreadStage::AwaitRetired;
                    ThreadAction::CollectRetired
                },
                ThreadEvent::Answered(Some(e)) => {
                    if !retry && self.had_existing_session && is_context_window_failure(&e) {
                        clear_thread_sessions_after_failure(state);
                        self.stage = ThreadStage::AwaitStart { retry: true };
                        ThreadAction::StartSession
                    } else {
                        self.stage = ThreadStage::Done;
                        ThreadAction::Finished(fail_after_session_error(state, e))
                    }
                },
                _ => {
                    proof {
                        assert(false);
                    }
                    ThreadAction::CollectRetired
                },
            },
            ThreadStage::AwaitRetired => match event {
                ThreadEvent::Retired(retired) => {
                    let ghost old_sessions = state.sessions_by_scope@;
                    let gone = retire_thread_sessions_after_turn(state, retired, self.session_id.as_str());
                    if !gone {
                        entry_insert(&mut state.sessions_by_scope, self.session_key.clone(), self.session_id.clone());
                    }
                    self.stage = ThreadStage::Done;
                    ThreadAction::Finished(Ok(()))
                },
                _ => {
                    proof {
                        assert(false);
                    }
                    ThreadAction::CollectRetired
                },
            },
            ThreadStage::Done => {
                proof {
                    assert(false);
                }
                ThreadAction::CollectRetired
            },
        }
    }
}

/// The developer instructions logged for a reused thread: those it was started
/// with, or `fallback` when none were kept.
pub fn thread_reuse_log(state: &InterrogationState, session_id: &str, fallback: &str) -> (r: String)
    requires
        state.wf(),
    ensures
        r@ == match entry_get(state.session_instructions@, session_id@) {
            Some(i) => i,
            None => fallback@,
        },
{
    match entry_lookup(&state.session_instructions, session_id) {
        Some(i) => i,
        None => String::from_str(fallback),
    }
}

} // verus!
