//! A whole chat request: how it is sent, and how often it is tried.
//!
//! A request that is sent as a single completion is tried again when an attempt fails; one that is
//! sent in segments is tried once.
use crate::action::{ActionText, ChatAction, ChatEvent, EventText};
use crate::direct::{account_action, direct_awaits, direct_start, direct_step, DirectRun, DirectText};
use crate::error::{CoreError, ErrorText};
use crate::prompt::{history_split, native_blocks, prompt_chunks};
use crate::request::{ChatRequest, RequestText};
use crate::segmented::{
    segmented_awaits, segmented_start, segmented_step, SegmentedRun, SegmentedText,
};
use vstd::prelude::*;

verus! {

/// How often a request is tried that is sent as a single completion.
pub const MAX_ATTEMPTS: usize = 3;

/// How long to wait before the next attempt, in milliseconds.
pub const RETRY_DELAY_MS: u64 = 500;

/// How a request is sent.
#[derive(Debug, PartialEq, Eq)]
pub enum Plan {
    /// As a single completion with this prompt, after this history has been uploaded as a file.
    /// There is nothing to upload if the history is empty.
    Single { inline_prompt: String, history: String },
    /// In segments of at most this many characters.
    Segments { chunk_size: usize },
}

/// What a plan says.
pub enum PlanText {
    Single { inline_prompt: Seq<char>, history: Seq<char> },
    Segments { chunk_size: int },
}

impl View for Plan {
    type V = PlanText;

    open spec fn view(&self) -> PlanText {
        match self {
            Plan::Single { inline_prompt, history } => PlanText::Single {
                inline_prompt: inline_prompt@,
                history: history@,
            },
            Plan::Segments { chunk_size } => PlanText::Segments { chunk_size: *chunk_size as int },
        }
    }
}

/// The plan that sends a prompt as it is.
pub open spec fn direct_plan(prompt: Seq<char>) -> PlanText {
    PlanText::Single { inline_prompt: prompt, history: seq![] }
}

/// The plan that uploads the history of a prompt.
pub open spec fn history_plan(prompt: Seq<char>) -> PlanText {
    let (inline_prompt, history) = history_split(prompt, native_blocks(prompt));
    PlanText::Single { inline_prompt, history }
}

/// The plan that sends a prompt in segments.
pub open spec fn segments_plan(chunk_size: int) -> PlanText {
    PlanText::Segments { chunk_size }
}

/// What is to be done next.
#[derive(Debug, PartialEq, Eq)]
pub enum RunAction {
    /// What the attempt at hand asks for. `Fail` and `Respond` end the request.
    Do(ChatAction),
    /// The attempt has failed: first mark the account as faulty, then delete the session, each
    /// where it is given, and then wait before the next attempt.
    TryAgain {
        mark_error: Option<String>,
        delete_session: Option<(String, String)>,
        error: CoreError,
        delay_ms: u64,
    },
}

/// What an action of a request says.
pub enum RunActionText {
    Do(ActionText),
    TryAgain {
        mark_error: Option<Seq<char>>,
        delete_session: Option<(Seq<char>, Seq<char>)>,
        error: ErrorText,
        delay_ms: u64,
    },
}

impl View for RunAction {
    type V = RunActionText;

    open spec fn view(&self) -> RunActionText {
        match self {
            RunAction::Do(action) => RunActionText::Do(action@),
            RunAction::TryAgain { mark_error, delete_session, error, delay_ms } => {
                RunActionText::TryAgain {
                    mark_error: match mark_error {
                        Some(id) => Some(id@),
                        None => None,
                    },
                    delete_session: match delete_session {
                        Some((token, id)) => Some((token@, id@)),
                        None => None,
                    },
                    error: error@,
                    delay_ms: *delay_ms,
                }
            },
        }
    }
}

/// What came of an action.
#[derive(Debug, PartialEq, Eq)]
pub enum RunEvent {
    /// What came of what the attempt at hand asked for.
    Done(ChatEvent),
    /// The wait before the next attempt is over.
    Waited,
}

/// What an event of a request says.
pub enum RunEventText {
    Done(EventText),
    Waited,
}

impl View for RunEvent {
    type V = RunEventText;

    open spec fn view(&self) -> RunEventText {
        match self {
            RunEvent::Done(event) => RunEventText::Done(event@),
            RunEvent::Waited => RunEventText::Waited,
        }
    }
}

/// How far an attempt has come.
pub enum AttemptText {
    Direct(DirectText),
    Segmented(SegmentedText),
}

/// How far a request has come.
pub struct ChatText {
    pub req: RequestText,
    pub plan: PlanText,
    /// The attempt at hand, or the one that is waited for, counted from 0.
    pub attempt: int,
    /// Whether the next attempt is waited for.
    pub waiting: bool,
    pub run: AttemptText,
}

/// An attempt that has not begun.
pub open spec fn attempt_start(req: RequestText, request_id: Seq<char>, plan: PlanText) -> AttemptText {
    match plan {
        PlanText::Single { inline_prompt, history } => AttemptText::Direct(
            direct_start(req, inline_prompt, history),
        ),
        PlanText::Segments { chunk_size } => AttemptText::Segmented(
            segmented_start(req, request_id, prompt_chunks(req.prompt, chunk_size)),
        ),
    }
}

/// A request that has not begun.
pub open spec fn chat_start(req: RequestText, request_id: Seq<char>, plan: PlanText) -> ChatText {
    ChatText {
        req,
        plan,
        attempt: 0,
        waiting: false,
        run: attempt_start(req, request_id, plan),
    }
}

/// Whether an event answers the action that the attempt gave last.
pub open spec fn attempt_awaits(run: AttemptText, event: EventText) -> bool {
    match run {
        AttemptText::Direct(s) => direct_awaits(s, event),
        AttemptText::Segmented(s) => segmented_awaits(s, event),
    }
}

/// Whether an event answers the action that the request gave last.
pub open spec fn chat_awaits(s: ChatText, event: RunEventText) -> bool {
    match event {
        RunEventText::Done(event) => !s.waiting && attempt_awaits(s.run, event),
        RunEventText::Waited => s.waiting,
    }
}

/// What comes of an event that the attempt awaits.
pub open spec fn attempt_step(run: AttemptText, event: EventText) -> (AttemptText, ActionText) {
    match run {
        AttemptText::Direct(s) => {
            let (s2, action) = direct_step(s, event);
            (AttemptText::Direct(s2), action)
        },
        AttemptText::Segmented(s) => {
            let (s2, action) = segmented_step(s, event);
            (AttemptText::Segmented(s2), action)
        },
    }
}

/// Whether a failed attempt is followed by another.
pub open spec fn tries_again(s: ChatText) -> bool {
    s.plan is Single && s.attempt + 1 < MAX_ATTEMPTS
}

/// What comes of an event that the request awaits. A later attempt does not wait for an account.
pub open spec fn chat_step(s: ChatText, event: RunEventText) -> (ChatText, RunActionText) {
    match event {
        RunEventText::Done(event) => {
            let (run, action) = attempt_step(s.run, event);
            match action {
                ActionText::Fail { mark_error, delete_session, error } if tries_again(s) => (
                    ChatText { attempt: s.attempt + 1, waiting: true, run, ..s },
                    RunActionText::TryAgain {
                        mark_error,
                        delete_session,
                        error,
                        delay_ms: RETRY_DELAY_MS,
                    },
                ),
                _ => (ChatText { run, ..s }, RunActionText::Do(action)),
            }
        },
        RunEventText::Waited => (
            ChatText { waiting: false, run: attempt_start(s.req, seq![], s.plan), ..s },
            RunActionText::Do(account_action(false)),
        ),
    }
}

/// An attempt at a request.
#[derive(Debug)]
enum Attempt<'a> {
    Direct(DirectRun<'a>),
    Segmented(SegmentedRun<'a>),
}

impl<'a> Attempt<'a> {
    spec fn text(&self) -> AttemptText {
        match self {
            Attempt::Direct(run) => AttemptText::Direct(run@),
            Attempt::Segmented(run) => AttemptText::Segmented(run@),
        }
    }

    spec fn wf(&self) -> bool {
        match self {
            Attempt::Direct(run) => run.wf(),
            Attempt::Segmented(run) => run.wf(),
        }
    }

    fn step(&mut self, event: ChatEvent) -> (r: ChatAction)
        requires
            old(self).wf(),
            attempt_awaits(old(self).text(), event@),
        ensures
            final(self).wf(),
            (final(self).text(), r@) == attempt_step(old(self).text(), event@),
    {
        match self {
            Attempt::Direct(run) => run.step(event),
            Attempt::Segmented(run) => run.step(event),
        }
    }
}

/// A chat request.
#[derive(Debug)]
pub struct ChatRun<'a> {
    req: &'a ChatRequest,
    plan: &'a Plan,
    attempt: usize,
    waiting: bool,
    run: Attempt<'a>,
}

impl<'a> View for ChatRun<'a> {
    type V = ChatText;

    closed spec fn view(&self) -> ChatText {
        ChatText {
            req: self.req@,
            plan: self.plan@,
            attempt: self.attempt as int,
            waiting: self.waiting,
            run: self.run.text(),
        }
    }
}

impl<'a> ChatRun<'a> {
    /// What holds of every request: its attempts are of the kind that the plan asks for, there are
    /// no more than allowed, and another one is waited for only where the plan allows it.
    pub closed spec fn wf(&self) -> bool {
        &&& self.run.wf()
        &&& self.attempt < MAX_ATTEMPTS
        &&& self.waiting ==> self.plan is Single
        &&& self.run is Direct <==> self.plan is Single
    }

    /// Begins a request that is sent as planned.
    pub fn start(req: &'a ChatRequest, request_id: &'a str, plan: &'a Plan) -> (r: (
        ChatRun<'a>,
        RunAction,
    ))
        requires
            plan is Segments ==> plan->chunk_size > 0 && req@.prompt.len() > 0,
        ensures
            r.0.wf(),
            r.0@ == chat_start(req@, request_id@, plan@),
            r.1@ == RunActionText::Do(account_action(true)),
    {
        match plan {
            Plan::Single { inline_prompt, history } => {
                let (run, action) = DirectRun::start(
                    req,
                    inline_prompt.as_str(),
                    history.as_str(),
                    true,
                );
                let run = Attempt::Direct(run);
                (ChatRun { req, plan, attempt: 0, waiting: false, run }, RunAction::Do(action))
            },
            Plan::Segments { chunk_size } => {
                let (run, action) = SegmentedRun::start(req, request_id, *chunk_size);
                let run = Attempt::Segmented(run);
                (ChatRun { req, plan, attempt: 0, waiting: false, run }, RunAction::Do(action))
            },
        }
    }

    fn after_failure(
        &mut self,
        mark_error: Option<String>,
        delete_session: Option<(String, String)>,
        error: CoreError,
    ) -> (r: RunAction)
        requires
            old(self).wf(),
            !old(self)@.waiting,
        ensures
            final(self).wf(),
            ({
                let failure = ChatAction::Fail { mark_error, delete_session, error };
                let again = RunAction::TryAgain {
                    mark_error,
                    delete_session,
                    error,
                    delay_ms: RETRY_DELAY_MS,
                };
                if tries_again(old(self)@) {
                    &&& final(self)@ == (ChatText {
                        attempt: old(self)@.attempt + 1,
                        waiting: true,
                        ..old(self)@
                    })
                    &&& r@ == again@
                } else {
                    final(self)@ == old(self)@ && r@ == RunActionText::Do(failure@)
                }
            }),
    {
        let again = match self.plan {
            Plan::Single { .. } => self.attempt + 1 < MAX_ATTEMPTS,
            Plan::Segments { .. } => false,
        };
        if again {
            self.attempt = self.attempt + 1;
            self.waiting = true;
            RunAction::TryAgain { mark_error, delete_session, error, delay_ms: RETRY_DELAY_MS }
        } else {
            RunAction::Do(ChatAction::Fail { mark_error, delete_session, error })
        }
    }

    /// Takes the event that answers the last action and says what is to be done next.
    pub fn step(&mut self, event: RunEvent) -> (r: RunAction)
        requires
            old(self).wf(),
            chat_awaits(old(self)@, event@),
        ensures
            final(self).wf(),
            (final(self)@, r@) == chat_step(old(self)@, event@),
    {
        match event {
            RunEvent::Done(event) => match self.run.step(event) {
                ChatAction::Fail { mark_error, delete_session, error } => {
                    self.after_failure(mark_error, delete_session, error)
                },
                action => RunAction::Do(action),
            },
            RunEvent::Waited => {
                self.waiting = false;
                match self.plan {
                    Plan::Single { inline_prompt, history } => {
                        let (run, action) = DirectRun::start(
                            self.req,
                            inline_prompt.as_str(),
                            history.as_str(),
                            false,
                        );
                        self.run = Attempt::Direct(run);
                        RunAction::Do(action)
                    },
                    // A request in segments is tried once, so nothing is waited for.
                    Plan::Segments { .. } => RunAction::Do(
                        ChatAction::AcquireAccount { wait_ms: None },
                    ),
                }
            },
        }
    }
}

} // verus!
