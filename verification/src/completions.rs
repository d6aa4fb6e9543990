//! Chat requests: which way a request takes, and the sessions that are under way.
use crate::chat::{direct_plan, history_plan, segments_plan, Plan, PlanText};
use crate::guard::GuardedStream;
use crate::prompt::split_history_prompt;
use crate::request::{ActiveSession, ChatRequest, RequestText, SessionText};
use crate::sessions::{cleanup_of, ActiveSessions, Cleanup};
use crate::text::{chars_of, same_text};
use vstd::prelude::*;
use vstd::string::*;

verus! {

/// How many characters a prompt may have where nothing is configured for a model.
pub const DEFAULT_CHARACTER_LIMIT: usize = 163_840;

/// The first place at or after `from` at which a model stands in a list.
pub open spec fn model_position(models: Seq<String>, model: Seq<char>, from: int) -> Option<int>
    decreases models.len() - from,
{
    if from >= models.len() {
        None
    } else if models[from]@ == model {
        Some(from)
    } else {
        model_position(models, model, from + 1)
    }
}

/// How many characters a prompt for a model may have.
pub open spec fn character_limit(models: Seq<String>, limits: Seq<u32>, model: Seq<char>) -> int {
    match model_position(models, model, 0) {
        Some(i) if i < limits.len() => limits[i] as int,
        _ => DEFAULT_CHARACTER_LIMIT as int,
    }
}

/// How many characters are sent at once: three quarters of the limit.
pub open spec fn inline_threshold(limit: int) -> int {
    limit * 75 / 100
}

/// The way that a request takes.
#[derive(Debug, Clone, Copy, PartialEq, Eq)]
pub enum Route {
    /// The prompt is sent as it is.
    Direct,
    /// The prompt is too long, and its history is uploaded as a file.
    HistoryFile,
    /// The prompt is too long, and it is sent in segments.
    Segments,
}

/// The way of a request with this many characters.
pub open spec fn route_of(characters: int, threshold: int, model: Seq<char>) -> Route {
    if characters <= threshold {
        Route::Direct
    } else if model == "expert"@ {
        Route::Segments
    } else {
        Route::HistoryFile
    }
}

/// How a request is sent where this many characters are sent at once.
pub open spec fn plan_of(req: RequestText, threshold: int) -> PlanText {
    match route_of(req.prompt.len() as int, threshold, req.model_type) {
        Route::Direct => direct_plan(req.prompt),
        Route::HistoryFile => history_plan(req.prompt),
        Route::Segments => segments_plan(threshold),
    }
}

/// The models, their limits, and the sessions that have a response under way.
#[derive(Debug)]
pub struct Completions {
    active_sessions: ActiveSessions,
    model_types: Vec<String>,
    input_character_limits: Vec<u32>,
}

impl Completions {
    /// The sessions that have a response under way.
    pub closed spec fn sessions(&self) -> Map<Seq<char>, SessionText> {
        self.active_sessions@
    }

    /// The models.
    pub closed spec fn models(&self) -> Seq<String> {
        self.model_types@
    }

    /// The limits, which belong to the models in the same place.
    pub closed spec fn limits(&self) -> Seq<u32> {
        self.input_character_limits@
    }

    /// The list of sessions is in order.
    pub closed spec fn wf(&self) -> bool {
        self.active_sessions.wf()
    }

    /// How many characters of a prompt for a model are sent at once.
    pub open spec fn threshold(&self, model: Seq<char>) -> int {
        inline_threshold(character_limit(self.models(), self.limits(), model))
    }

    /// No session is under way.
    pub fn new(model_types: Vec<String>, input_character_limits: Vec<u32>) -> (r: Completions)
        ensures
            r.wf(),
            r.models() == model_types@,
            r.limits() == input_character_limits@,
            r.sessions() == Map::<Seq<char>, SessionText>::empty(),
    {
        Completions {
            active_sessions: ActiveSessions::new(),
            model_types,
            input_character_limits,
        }
    }

    /// How many characters a prompt for a model may have: what is configured for the first model
    /// of that name, and a default where nothing is.
    pub fn input_character_limit_for(&self, model_type: &str) -> (r: usize)
        ensures
            r == character_limit(self.models(), self.limits(), model_type@),
    {
        let wanted = chars_of(model_type);
        for i in 0..self.model_types.len()
            invariant
                wanted@ == model_type@,
                model_position(self.models(), model_type@, 0) == model_position(
                    self.models(),
                    model_type@,
                    i as int,
                ),
        {
            let model = chars_of(self.model_types[i].as_str());
            if same_text(model.as_slice(), wanted.as_slice()) {
                return if i < self.input_character_limits.len() {
                    self.input_character_limits[i] as usize
                } else {
                    DEFAULT_CHARACTER_LIMIT
                };
            }
        }
        DEFAULT_CHARACTER_LIMIT
    }

    /// How many characters of a prompt for a model are sent at once.
    pub fn inline_characters(&self, model_type: &str) -> (r: usize)
        ensures
            r == self.threshold(model_type@),
    {
        let limit = self.input_character_limit_for(model_type);
        (limit as u64 * 75 / 100) as usize
    }

    /// The way that a request takes: a prompt that is longer than three quarters of the limit goes
    /// in segments to the model `expert`, and with its history in a file to any other.
    pub fn route(&self, req: &ChatRequest) -> (r: Route)
        ensures
            r == route_of(
                req@.prompt.len() as int,
                self.threshold(req@.model_type),
                req@.model_type,
            ),
    {
        let threshold = self.inline_characters(req.model_type.as_str());
        if req.prompt.as_str().unicode_len() <= threshold {
            return Route::Direct;
        }
        let model = chars_of(req.model_type.as_str());
        if same_text(model.as_slice(), chars_of("expert").as_slice()) {
            Route::Segments
        } else {
            Route::HistoryFile
        }
    }

    /// How a request is sent. `ChatRun` carries the plan out.
    pub fn v0_chat(&self, req: &ChatRequest) -> (r: Plan)
        ensures
            r@ == plan_of(req@, self.threshold(req@.model_type)),
    {
        match self.route(req) {
            Route::Direct => {
                let history = String::new();
                proof {
                    assert(history@ =~= seq![]);
                }
                Plan::Single { inline_prompt: req.prompt.clone(), history }
            },
            Route::HistoryFile => self.v0_chat_oversized_file(req),
            Route::Segments => self.v0_chat_oversized_chunk(req),
        }
    }

    /// How a request is sent whose prompt is too long, with its history in a file.
    pub fn v0_chat_oversized_file(&self, req: &ChatRequest) -> (r: Plan)
        ensures
            r@ == history_plan(req@.prompt),
    {
        let (inline_prompt, history) = split_history_prompt(req.prompt.as_str());
        Plan::Single { inline_prompt, history }
    }

    /// How a request is sent whose prompt is too long, in segments.
    pub fn v0_chat_oversized_chunk(&self, req: &ChatRequest) -> (r: Plan)
        ensures
            r@ == segments_plan(self.threshold(req@.model_type)),
    {
        Plan::Segments { chunk_size: self.inline_characters(req.model_type.as_str()) }
    }

    /// Notes that a session has a response under way.
    pub fn register(&mut self, session: ActiveSession)
        requires
            old(self).wf(),
        ensures
            final(self).wf(),
            final(self).sessions() == old(self).sessions().insert(session@.session_id, session@),
            final(self).models() == old(self).models(),
            final(self).limits() == old(self).limits(),
    {
        self.active_sessions.insert(session);
    }

    /// Gives a response up: takes its session off the list and says how it is cleaned up.
    pub fn release<S, G, C, R>(&mut self, response: &GuardedStream<S, G, C, R>) -> (r: Cleanup)
        requires
            old(self).wf(),
        ensures
            final(self).wf(),
            final(self).sessions() == old(self).sessions().remove(response.session().session_id),
            final(self).models() == old(self).models(),
            final(self).limits() == old(self).limits(),
            r@ == cleanup_of(response.session(), response.finished),
    {
        response.release(&mut self.active_sessions)
    }

    /// Gives up all sessions that are left, and says how each of them is cleaned up: its response
    /// is stopped and it is deleted. The order is of no account.
    pub fn shutdown(&mut self) -> (r: Vec<Cleanup>)
        requires
            old(self).wf(),
        ensures
            final(self).wf(),
            final(self).sessions() == Map::<Seq<char>, SessionText>::empty(),
            final(self).models() == old(self).models(),
            final(self).limits() == old(self).limits(),
            forall|i: int|
                0 <= i < r@.len() ==> old(self).sessions().dom().contains(
                    (#[trigger] r@[i])@.session_id,
                ) && r@[i]@ == cleanup_of(old(self).sessions()[r@[i]@.session_id], false),
            forall|i: int, j: int|
                0 <= i < j < r@.len() ==> (#[trigger] r@[i])@.session_id != (
                #[trigger] r@[j])@.session_id,
            forall|id: Seq<char>| #[trigger]
                old(self).sessions().dom().contains(id) ==> exists|i: int|
                    0 <= i < r@.len() && (#[trigger] r@[i])@.session_id == id,
    {
        self.active_sessions.drain()
    }
}

} // verus!
