//! One attempt at a request that is sent as a single completion.
//!
//! The attempt takes an account, creates a session, uploads the history and the files of the
//! request, computes the proof of work, starts the completion and reads its opening.
use crate::action::{
    fail, fail_marking, give_up, opening_action, ActionText, ChatAction, ChatEvent, EventText, Work,
    WorkText, ACCOUNT_WAIT_MS, COMPLETION_PATH,
};
use crate::error::{CoreError, ErrorText};
use crate::opening::{opening_step, Opening, OpeningText, Verdict};
use crate::prompt::strings;
use crate::request::{ChatRequest, CompletionPayload, PayloadText, RequestText};
use vstd::prelude::*;
use vstd::slice::slice_to_vec;
use vstd::string::*;
use vstd::utf8::encode_utf8;

verus! {

/// The name under which the history is uploaded.
pub const SESSION_HISTORY_FILE: &'static str = "EMPTY.txt";

/// What an attempt waits for.
#[derive(Debug, Clone, Copy, PartialEq, Eq)]
pub enum DirectPhase {
    Account,
    Session,
    History,
    File,
    Pow,
    Completion,
    Opening,
    Ended,
}

/// How far an attempt has come.
pub struct DirectText {
    /// The request.
    pub req: RequestText,
    /// The prompt that is sent if the history could be uploaded.
    pub inline_prompt: Seq<char>,
    /// The history, which is not uploaded if it is empty.
    pub history: Seq<char>,
    pub work: WorkText,
    /// The files uploaded so far.
    pub ref_file_ids: Seq<Seq<char>>,
    pub history_upload_failed: bool,
    /// The file of the request that is being uploaded.
    pub file: int,
    pub phase: DirectPhase,
    pub opening: OpeningText,
}

/// An attempt that has not begun.
pub open spec fn direct_start(
    req: RequestText,
    inline_prompt: Seq<char>,
    history: Seq<char>,
) -> DirectText {
    DirectText {
        req,
        inline_prompt,
        history,
        work: WorkText { account_id: seq![], token: seq![], session_id: seq![] },
        ref_file_ids: seq![],
        history_upload_failed: false,
        file: 0,
        phase: DirectPhase::Account,
        opening: OpeningText { buf: seq![], text: seq![] },
    }
}

/// How an attempt takes its account: the first one waits for it, a later one does not.
pub open spec fn account_action(first_try: bool) -> ActionText {
    ActionText::AcquireAccount {
        wait_ms: if first_try {
            Some(ACCOUNT_WAIT_MS)
        } else {
            None
        },
    }
}

/// Whether an event answers the action that the attempt gave last.
pub open spec fn direct_awaits(s: DirectText, event: EventText) -> bool {
    match s.phase {
        DirectPhase::Account => event is NoAccount || event is Account,
        DirectPhase::Session => event is SessionCreated || event is CallFailed,
        DirectPhase::History => event is Uploaded || event is UploadFailed,
        DirectPhase::File => event is Uploaded || event is UploadFailed,
        DirectPhase::Pow => event is PowComputed || event is CallFailed,
        DirectPhase::Completion => event is StreamOpened || event is CallFailed,
        DirectPhase::Opening => event is Stream,
        DirectPhase::Ended => false,
    }
}

/// The next file of the request is uploaded; after the last one the proof of work is computed.
pub open spec fn upload_from(s: DirectText, i: int) -> (DirectText, ActionText) {
    if i < s.req.files.len() {
        (
            DirectText { file: i, phase: DirectPhase::File, ..s },
            ActionText::UploadFile {
                token: s.work.token,
                filename: s.req.files[i].filename,
                content_type: s.req.files[i].content_type,
                content: s.req.files[i].content,
            },
        )
    } else {
        (
            DirectText { file: i, phase: DirectPhase::Pow, ..s },
            ActionText::ComputePow { token: s.work.token, target_path: COMPLETION_PATH@ },
        )
    }
}

/// What is sent: the inline prompt with the uploaded files, or the full prompt where the history
/// could not be uploaded.
pub open spec fn direct_payload(s: DirectText) -> PayloadText {
    PayloadText {
        chat_session_id: s.work.session_id,
        parent_message_id: None,
        model_type: s.req.model_type,
        prompt: if s.history_upload_failed {
            s.req.prompt
        } else {
            s.inline_prompt
        },
        ref_file_ids: s.ref_file_ids,
        thinking_enabled: s.req.thinking_enabled,
        search_enabled: s.req.search_enabled,
        preempt: false,
    }
}

/// The error that ends an attempt when a file of the request cannot be uploaded.
pub open spec fn file_error(filename: Seq<char>, reason: Seq<char>) -> ErrorText {
    ErrorText::ProviderError("外部文件上传失败 ("@ + filename + "): "@ + reason)
}

/// What comes of an event that the attempt awaits.
pub open spec fn direct_step(s: DirectText, event: EventText) -> (DirectText, ActionText) {
    let ended = DirectText { phase: DirectPhase::Ended, ..s };
    match event {
        EventText::NoAccount => (ended, fail(ErrorText::Overloaded)),
        EventText::Account { account_id, token } => (
            DirectText {
                work: WorkText { account_id, token, ..s.work },
                phase: DirectPhase::Session,
                ..s
            },
            ActionText::CreateSession { token },
        ),
        EventText::SessionCreated(session_id) => {
            let s2 = DirectText { work: WorkText { session_id, ..s.work }, ..s };
            if s.history.len() > 0 {
                (
                    DirectText { phase: DirectPhase::History, ..s2 },
                    ActionText::UploadFile {
                        token: s.work.token,
                        filename: SESSION_HISTORY_FILE@,
                        content_type: "text/plain"@,
                        content: encode_utf8(s.history),
                    },
                )
            } else {
                upload_from(s2, 0)
            }
        },
        EventText::Uploaded(id) => upload_from(
            DirectText { ref_file_ids: s.ref_file_ids.push(id), ..s },
            if s.phase == DirectPhase::History {
                0
            } else {
                s.file + 1
            },
        ),
        EventText::UploadFailed(reason) => if s.phase == DirectPhase::History {
            upload_from(DirectText { history_upload_failed: true, ..s }, 0)
        } else {
            (ended, give_up(s.work, false, file_error(s.req.files[s.file].filename, reason)))
        },
        EventText::PowComputed(pow_header) => (
            DirectText { phase: DirectPhase::Completion, ..s },
            ActionText::Complete {
                token: s.work.token,
                pow_header,
                payload: direct_payload(s),
            },
        ),
        EventText::StreamOpened => (
            DirectText { phase: DirectPhase::Opening, ..s },
            ActionText::ReadStream,
        ),
        EventText::Stream(event) => {
            let (opening, verdict) = opening_step(s.opening, event, false);
            (
                DirectText {
                    opening,
                    phase: if verdict is Pending {
                        DirectPhase::Opening
                    } else {
                        DirectPhase::Ended
                    },
                    ..s
                },
                opening_action(s.work, opening, verdict),
            )
        },
        EventText::CallFailed(e) => (
            ended,
            if s.phase == DirectPhase::Session {
                fail_marking(s.work.account_id, e)
            } else {
                give_up(s.work, true, e)
            },
        ),
    }
}

/// One attempt at a request that is sent as a single completion.
#[derive(Debug)]
pub struct DirectRun<'a> {
    req: &'a ChatRequest,
    inline_prompt: &'a str,
    history: &'a str,
    work: Work,
    ref_file_ids: Vec<String>,
    history_upload_failed: bool,
    file: usize,
    phase: DirectPhase,
    opening: Opening,
}

impl<'a> View for DirectRun<'a> {
    type V = DirectText;

    closed spec fn view(&self) -> DirectText {
        DirectText {
            req: self.req@,
            inline_prompt: self.inline_prompt@,
            history: self.history@,
            work: self.work@,
            ref_file_ids: strings(self.ref_file_ids@),
            history_upload_failed: self.history_upload_failed,
            file: self.file as int,
            phase: self.phase,
            opening: self.opening@,
        }
    }
}

fn copy_strings(v: &Vec<String>) -> (r: Vec<String>)
    ensures
        strings(r@) == strings(v@),
{
    let mut r: Vec<String> = Vec::new();
    for i in 0..v.len()
        invariant
            strings(r@) == strings(v@).take(i as int),
    {
        let ghost before = r@;
        r.push(v[i].clone());
        assert(r@ =~= before.push(v@[i as int]));
        assert(strings(r@) =~= strings(before).push(v@[i as int]@));
        assert(strings(r@) =~= strings(v@).take(i + 1));
    }
    assert(strings(v@).take(v@.len() as int) =~= strings(v@));
    r
}

impl<'a> DirectRun<'a> {
    /// What holds of every attempt: the file that is being uploaded is one of the request.
    pub closed spec fn wf(&self) -> bool {
        self.phase == DirectPhase::File ==> self.file < self.req.files@.len()
    }

    /// Begins an attempt. The history is uploaded first if there is any, and `inline_prompt` is
    /// sent in place of the full prompt if that succeeds.
    pub fn start(
        req: &'a ChatRequest,
        inline_prompt: &'a str,
        history_content: &'a str,
        first_try: bool,
    ) -> (r: (DirectRun<'a>, ChatAction))
        ensures
            r.0.wf(),
            r.0@ == direct_start(req@, inline_prompt@, history_content@),
            r.1@ == account_action(first_try),
    {
        let run = DirectRun {
            req,
            inline_prompt,
            history: history_content,
            work: Work::new(),
            ref_file_ids: Vec::new(),
            history_upload_failed: false,
            file: 0,
            phase: DirectPhase::Account,
            opening: Opening::new(),
        };
        proof {
            assert(strings(run.ref_file_ids@) =~= seq![]);
        }
        let wait_ms = if first_try {
            Some(ACCOUNT_WAIT_MS)
        } else {
            None
        };
        (run, ChatAction::AcquireAccount { wait_ms })
    }

    fn upload_from(&mut self, i: usize) -> (r: ChatAction)
        ensures
            final(self).wf(),
            (final(self)@, r@) == upload_from(old(self)@, i as int),
    {
        self.file = i;
        if i < self.req.files.len() {
            self.phase = DirectPhase::File;
            ChatAction::UploadFile {
                token: self.work.token.clone(),
                filename: self.req.files[i].filename.clone(),
                content_type: self.req.files[i].content_type.clone(),
                content: slice_to_vec(self.req.files[i].content.as_slice()),
            }
        } else {
            self.phase = DirectPhase::Pow;
            ChatAction::ComputePow {
                token: self.work.token.clone(),
                target_path: COMPLETION_PATH.to_owned(),
            }
        }
    }

    /// Takes the event that answers the last action and says what is to be done next.
    pub fn step(&mut self, event: ChatEvent) -> (r: ChatAction)
        requires
            old(self).wf(),
            direct_awaits(old(self)@, event@),
        ensures
            final(self).wf(),
            (final(self)@, r@) == direct_step(old(self)@, event@),
    {
        match event {
            ChatEvent::NoAccount => {
                self.phase = DirectPhase::Ended;
                ChatAction::Fail {
                    mark_error: None,
                    delete_session: None,
                    error: CoreError::Overloaded,
                }
            },
            ChatEvent::Account { account_id, token } => {
                self.work.account_id = account_id;
                self.work.token = token.clone();
                self.phase = DirectPhase::Session;
                ChatAction::CreateSession { token }
            },
            ChatEvent::SessionCreated(session_id) => {
                self.work.session_id = session_id;
                if !self.history.is_empty() {
                    self.phase = DirectPhase::History;
                    ChatAction::UploadFile {
                        token: self.work.token.clone(),
                        filename: SESSION_HISTORY_FILE.to_owned(),
                        content_type: "text/plain".to_owned(),
                        content: self.history.as_bytes_vec(),
                    }
                } else {
                    self.upload_from(0)
                }
            },
            ChatEvent::Uploaded(id) => {
                let next: usize = match self.phase {
                    DirectPhase::History => 0,
                    _ => {
                        assert(self.file < self.req.files.len());
                        self.file + 1
                    },
                };
                self.ref_file_ids.push(id);
                proof {
                    assert(strings(self.ref_file_ids@) =~= strings(old(self).ref_file_ids@).push(id@));
                }
                self.upload_from(next)
            },
            ChatEvent::UploadFailed(reason) => match self.phase {
                DirectPhase::History => {
                    self.history_upload_failed = true;
                    self.upload_from(0)
                },
                _ => {
                    self.phase = DirectPhase::Ended;
                    let mut message = String::new();
                    message.append("外部文件上传失败 (");
                    message.append(self.req.files[self.file].filename.as_str());
                    message.append("): ");
                    message.append(reason.as_str());
                    proof {
                        assert(message@ =~= "外部文件上传失败 ("@
                            + self.req.files@[self.file as int].filename@ + "): "@ + reason@);
                    }
                    self.work.give_up(false, CoreError::ProviderError(message))
                },
            },
            ChatEvent::PowComputed(pow_header) => {
                self.phase = DirectPhase::Completion;
                let prompt = if self.history_upload_failed {
                    self.req.prompt.clone()
                } else {
                    self.inline_prompt.to_owned()
                };
                ChatAction::Complete {
                    token: self.work.token.clone(),
                    pow_header,
                    payload: CompletionPayload {
                        chat_session_id: self.work.session_id.clone(),
                        parent_message_id: None,
                        model_type: self.req.model_type.clone(),
                        prompt,
                        ref_file_ids: copy_strings(&self.ref_file_ids),
                        thinking_enabled: self.req.thinking_enabled,
                        search_enabled: self.req.search_enabled,
                        preempt: false,
                    },
                }
            },
            ChatEvent::StreamOpened => {
                self.phase = DirectPhase::Opening;
                ChatAction::ReadStream
            },
            ChatEvent::Stream(event) => {
                let verdict = self.opening.step(event, false);
                self.phase = match verdict {
                    Verdict::Pending => DirectPhase::Opening,
                    _ => DirectPhase::Ended,
                };
                self.work.after_opening(verdict, &self.opening.buf)
            },
            ChatEvent::CallFailed(error) => {
                let in_session = match self.phase {
                    DirectPhase::Session => false,
                    _ => true,
                };
                self.phase = DirectPhase::Ended;
                if in_session {
                    self.work.give_up(true, error)
                } else {
                    self.work.fail_marking(error)
                }
            },
        }
    }
}

} // verus!
