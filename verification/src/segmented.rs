//! A request whose prompt is too long for one completion and is sent in segments.
//!
//! All segments go into one session. Each but the last asks the model only to acknowledge it, and
//! is left until the model has finished; its response message becomes the parent of the next
//! segment. The last one asks for the answer, and its response is passed on.
use crate::action::{
    fail, fail_marking, give_up, opening_action, ActionText, ChatAction, ChatEvent, EventText, Work,
    WorkText, ACCOUNT_WAIT_MS, COMPLETION_PATH,
};
use crate::direct::account_action;
use crate::error::{CoreError, ErrorText};
use crate::opening::{opening_step, Opening, OpeningText, Verdict};
use crate::prompt::{
    final_head, final_position, head_position, intermediate_head, prompt_chunks,
    split_prompt_chunks, strings, with_head, wrap_final_chunk, wrap_intermediate_chunk,
};
use crate::prompt_laws::law_chunks_hold_the_prompt;
use crate::request::{ChatRequest, CompletionPayload, PayloadText, RequestText};
use crate::watch::{
    natural_step, segment_label, Progress, ProgressText, Segment, Watch, WatchText,
};
use vstd::prelude::*;
use vstd::string::*;

verus! {

/// What a run waits for.
#[derive(Debug, Clone, Copy, PartialEq, Eq)]
pub enum SegmentedPhase {
    Account,
    Session,
    Pow,
    Completion,
    Segment,
    Opening,
    Ended,
}

/// How far a run has come.
pub struct SegmentedText {
    pub req: RequestText,
    pub request_id: Seq<char>,
    /// The chunks of the prompt.
    pub chunks: Seq<Seq<char>>,
    /// The chunk that is being sent.
    pub index: int,
    /// The response message to the chunk before.
    pub parent: Option<i64>,
    pub work: WorkText,
    pub phase: SegmentedPhase,
    /// The stream of a segment that is not the last one.
    pub watch: WatchText,
    /// The opening of the response to the last segment.
    pub opening: OpeningText,
}

/// A watch on the stream of the segment that follows `index` others.
pub open spec fn segment_watch(request_id: Seq<char>, index: int, chunks: int) -> WatchText {
    WatchText { buf: seq![], ready: None, label: segment_label(request_id, index + 1, chunks - 1) }
}

/// A run that has not begun.
pub open spec fn segmented_start(
    req: RequestText,
    request_id: Seq<char>,
    chunks: Seq<Seq<char>>,
) -> SegmentedText {
    SegmentedText {
        req,
        request_id,
        chunks,
        index: 0,
        parent: None,
        work: WorkText { account_id: seq![], token: seq![], session_id: seq![] },
        phase: SegmentedPhase::Account,
        watch: segment_watch(request_id, 0, chunks.len() as int),
        opening: OpeningText { buf: seq![], text: seq![] },
    }
}

/// Whether an event answers the action that the run gave last.
pub open spec fn segmented_awaits(s: SegmentedText, event: EventText) -> bool {
    match s.phase {
        SegmentedPhase::Account => event is NoAccount || event is Account,
        SegmentedPhase::Session => event is SessionCreated || event is CallFailed,
        SegmentedPhase::Pow => event is PowComputed || event is CallFailed,
        SegmentedPhase::Completion => event is StreamOpened || event is CallFailed,
        SegmentedPhase::Segment => event is Stream,
        SegmentedPhase::Opening => event is Stream,
        SegmentedPhase::Ended => false,
    }
}

/// Chunk `i` as it is sent: with a note on its place, unless it is the only one.
pub open spec fn segment_prompt(chunks: Seq<Seq<char>>, i: int) -> Seq<char> {
    let total = chunks.len() as int;
    if i + 1 < total {
        with_head(chunks[i], head_position(chunks[i]), intermediate_head(i + 1, total))
    } else if total > 1 {
        with_head(chunks[i], final_position(chunks[i]), final_head(total))
    } else {
        chunks[i]
    }
}

/// What is sent for the chunk at hand. The features that the request asks for are used for the
/// last chunk only.
pub open spec fn segment_payload(s: SegmentedText) -> PayloadText {
    let last = s.index + 1 >= s.chunks.len();
    PayloadText {
        chat_session_id: s.work.session_id,
        parent_message_id: s.parent,
        model_type: s.req.model_type,
        prompt: segment_prompt(s.chunks, s.index),
        ref_file_ids: seq![],
        thinking_enabled: last && s.req.thinking_enabled,
        search_enabled: last && s.req.search_enabled,
        preempt: false,
    }
}

/// The proof of work for the chunk at hand is computed.
pub open spec fn pow_action(s: SegmentedText) -> ActionText {
    ActionText::ComputePow { token: s.work.token, target_path: COMPLETION_PATH@ }
}

/// What comes of an event that the run awaits.
pub open spec fn segmented_step(s: SegmentedText, event: EventText) -> (SegmentedText, ActionText) {
    let ended = SegmentedText { phase: SegmentedPhase::Ended, ..s };
    match event {
        EventText::NoAccount => (ended, fail(ErrorText::Overloaded)),
        EventText::Account { account_id, token } => (
            SegmentedText {
                work: WorkText { account_id, token, ..s.work },
                phase: SegmentedPhase::Session,
                ..s
            },
            ActionText::CreateSession { token },
        ),
        EventText::SessionCreated(session_id) => {
            let s2 = SegmentedText {
                work: WorkText { session_id, ..s.work },
                phase: SegmentedPhase::Pow,
                ..s
            };
            (s2, pow_action(s2))
        },
        EventText::PowComputed(pow_header) => (
            SegmentedText { phase: SegmentedPhase::Completion, ..s },
            ActionText::Complete {
                token: s.work.token,
                pow_header,
                payload: segment_payload(s),
            },
        ),
        EventText::StreamOpened => if s.index + 1 < s.chunks.len() {
            (
                SegmentedText {
                    phase: SegmentedPhase::Segment,
                    watch: segment_watch(s.request_id, s.index, s.chunks.len() as int),
                    ..s
                },
                ActionText::ReadStream,
            )
        } else {
            (
                SegmentedText { phase: SegmentedPhase::Opening, ..s },
                ActionText::ReadStream,
            )
        },
        EventText::Stream(event) => if s.phase == SegmentedPhase::Segment {
            let (watch, progress) = natural_step(s.watch, event);
            match progress {
                ProgressText::Pending => (SegmentedText { watch, ..s }, ActionText::ReadStream),
                ProgressText::Done(id, _) => {
                    let s2 = SegmentedText {
                        watch,
                        index: s.index + 1,
                        parent: Some(id),
                        phase: SegmentedPhase::Pow,
                        ..s
                    };
                    (s2, pow_action(s2))
                },
                ProgressText::Failed(e) => (
                    SegmentedText { watch, phase: SegmentedPhase::Ended, ..s },
                    give_up(s.work, false, e),
                ),
            }
        } else {
            let (opening, verdict) = opening_step(s.opening, event, true);
            (
                SegmentedText {
                    opening,
                    phase: if verdict is Pending {
                        SegmentedPhase::Opening
                    } else {
                        SegmentedPhase::Ended
                    },
                    ..s
                },
                opening_action(s.work, opening, verdict),
            )
        },
        EventText::CallFailed(e) => (
            ended,
            if s.phase == SegmentedPhase::Session {
                fail_marking(s.work.account_id, e)
            } else {
                give_up(s.work, true, e)
            },
        ),
        // Nothing is uploaded, so neither of these is awaited.
        EventText::Uploaded(_) | EventText::UploadFailed(_) => (s, ActionText::ReadStream),
    }
}

/// A request whose prompt is sent in segments.
#[derive(Debug)]
pub struct SegmentedRun<'a> {
    req: &'a ChatRequest,
    request_id: &'a str,
    chunks: Vec<String>,
    index: usize,
    parent: Option<i64>,
    work: Work,
    phase: SegmentedPhase,
    watch: Watch,
    opening: Opening,
}

impl<'a> View for SegmentedRun<'a> {
    type V = SegmentedText;

    closed spec fn view(&self) -> SegmentedText {
        SegmentedText {
            req: self.req@,
            request_id: self.request_id@,
            chunks: strings(self.chunks@),
            index: self.index as int,
            parent: self.parent,
            work: self.work@,
            phase: self.phase,
            watch: self.watch@,
            opening: self.opening@,
        }
    }
}

impl<'a> SegmentedRun<'a> {
    /// What holds of every run: the chunk that is being sent is one of the prompt, and one whose
    /// stream is watched is not the last.
    pub closed spec fn wf(&self) -> bool {
        &&& self.index < self.chunks@.len()
        &&& self.phase == SegmentedPhase::Segment ==> self.index + 1 < self.chunks@.len()
    }

    /// Begins a run with the prompt cut into chunks of at most `chunk_size` characters.
    pub fn start(req: &'a ChatRequest, request_id: &'a str, chunk_size: usize) -> (r: (
        SegmentedRun<'a>,
        ChatAction,
    ))
        requires
            chunk_size > 0,
            req@.prompt.len() > 0,
        ensures
            r.0.wf(),
            r.0@ == segmented_start(
                req@,
                request_id@,
                prompt_chunks(req@.prompt, chunk_size as int),
            ),
            r.1@ == account_action(true),
    {
        let chunks = split_prompt_chunks(req.prompt.as_str(), chunk_size);
        proof {
            law_chunks_hold_the_prompt(req@.prompt, chunk_size as int);
            assert(strings(chunks@).len() == chunks@.len());
        }
        let segment = Segment {
            request_id: request_id.to_owned(),
            index: 1,
            total: chunks.len() - 1,
        };
        let run = SegmentedRun {
            req,
            request_id,
            chunks,
            index: 0,
            parent: None,
            work: Work::new(),
            phase: SegmentedPhase::Account,
            watch: Watch::new(segment),
            opening: Opening::new(),
        };
        (run, ChatAction::AcquireAccount { wait_ms: Some(ACCOUNT_WAIT_MS) })
    }

    fn pow_action(&self) -> (r: ChatAction)
        ensures
            r@ == pow_action(self@),
    {
        ChatAction::ComputePow {
            token: self.work.token.clone(),
            target_path: COMPLETION_PATH.to_owned(),
        }
    }

    fn payload(&self) -> (r: CompletionPayload)
        requires
            self.wf(),
        ensures
            r@ == segment_payload(self@),
    {
        let total: usize = self.chunks.len();
        let last = self.index + 1 >= total;
        let chunk = self.chunks[self.index].as_str();
        let prompt = if !last {
            wrap_intermediate_chunk(chunk, self.index + 1, total)
        } else if total > 1 {
            wrap_final_chunk(chunk, total)
        } else {
            chunk.to_owned()
        };
        let ref_file_ids: Vec<String> = Vec::new();
        proof {
            assert(strings(ref_file_ids@) =~= seq![]);
        }
        CompletionPayload {
            chat_session_id: self.work.session_id.clone(),
            parent_message_id: self.parent,
            model_type: self.req.model_type.clone(),
            prompt,
            ref_file_ids,
            thinking_enabled: last && self.req.thinking_enabled,
            search_enabled: last && self.req.search_enabled,
            preempt: false,
        }
    }

    /// Takes the event that answers the last action and says what is to be done next.
    pub fn step(&mut self, event: ChatEvent) -> (r: ChatAction)
        requires
            old(self).wf(),
            segmented_awaits(old(self)@, event@),
        ensures
            final(self).wf(),
            (final(self)@, r@) == segmented_step(old(self)@, event@),
    {
        assert(self.index < self.chunks.len());
        match event {
            ChatEvent::NoAccount => {
                self.phase = SegmentedPhase::Ended;
                ChatAction::Fail {
                    mark_error: None,
                    delete_session: None,
                    error: CoreError::Overloaded,
                }
            },
            ChatEvent::Account { account_id, token } => {
                self.work.account_id = account_id;
                self.work.token = token.clone();
                self.phase = SegmentedPhase::Session;
                ChatAction::CreateSession { token }
            },
            ChatEvent::SessionCreated(session_id) => {
                self.work.session_id = session_id;
                self.phase = SegmentedPhase::Pow;
                self.pow_action()
            },
            ChatEvent::PowComputed(pow_header) => {
                let payload = self.payload();
                self.phase = SegmentedPhase::Completion;
                ChatAction::Complete { token: self.work.token.clone(), pow_header, payload }
            },
            ChatEvent::StreamOpened => {
                if self.index + 1 < self.chunks.len() {
                    let segment = Segment {
                        request_id: self.request_id.to_owned(),
                        index: self.index + 1,
                        total: self.chunks.len() - 1,
                    };
                    self.watch = Watch::new(segment);
                    self.phase = SegmentedPhase::Segment;
                } else {
                    self.phase = SegmentedPhase::Opening;
                }
                ChatAction::ReadStream
            },
            ChatEvent::Stream(event) => match self.phase {
                SegmentedPhase::Segment => match self.watch.wait_natural_close(event) {
                    Progress::Pending => ChatAction::ReadStream,
                    Progress::Done(id, _) => {
                        self.index = self.index + 1;
                        self.parent = Some(id);
                        self.phase = SegmentedPhase::Pow;
                        self.pow_action()
                    },
                    Progress::Failed(error) => {
                        self.phase = SegmentedPhase::Ended;
                        self.work.give_up(false, error)
                    },
                },
                _ => {
                    let verdict = self.opening.step(event, true);
                    self.phase = match verdict {
                        Verdict::Pending => SegmentedPhase::Opening,
                        _ => SegmentedPhase::Ended,
                    };
                    self.work.after_opening(verdict, &self.opening.buf)
                },
            },
            ChatEvent::CallFailed(error) => {
                let in_session = match self.phase {
                    SegmentedPhase::Session => false,
                    _ => true,
                };
                self.phase = SegmentedPhase::Ended;
                if in_session {
                    self.work.give_up(true, error)
                } else {
                    self.work.fail_marking(error)
                }
            },
            ChatEvent::Uploaded(_) | ChatEvent::UploadFailed(_) => ChatAction::ReadStream,
        }
    }
}

} // verus!
