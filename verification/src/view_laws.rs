//! The views of the data show every field as it is, each in its own place.
use crate::action::{ActionText, ChatAction, ChatEvent, EventText, Work};
use crate::chat::{Plan, PlanText, RunAction, RunActionText, RunEvent, RunEventText};
use crate::error::{error_text, CoreError, ErrorText};
use crate::opening::{Opening, Verdict, VerdictText};
use crate::outside::found_string;
use crate::prompt::{block_texts, strings, ChatBlock};
use crate::request::{ActiveSession, ChatRequest, CompletionPayload, FilePayload};
use crate::sessions::Cleanup;
use crate::text::texts;
use crate::upload::{FileStatus, UploadAction, UploadActionText, UploadEvent, UploadEventText};
use crate::watch::{
    close_outcome, segment_label, Progress, ProgressText, Scan, ScanText, Segment, StreamEvent,
    StreamText,
};
use vstd::prelude::*;

verus! {

/// A list of strings shows the text of each in its place.
pub proof fn law_lists_show_their_items(
    list: Seq<String>,
    parts: Seq<Vec<char>>,
    blocks: Seq<ChatBlock>,
    i: int,
)
    ensures
        strings(list).len() == list.len(),
        0 <= i < list.len() ==> strings(list)[i] == list[i]@,
        texts(parts).len() == parts.len(),
        0 <= i < parts.len() ==> texts(parts)[i] == parts[i]@,
        block_texts(blocks).len() == blocks.len(),
        0 <= i < blocks.len() ==> block_texts(blocks)[i] == blocks[i]@,
{
}

/// A block shows its role and its content.
pub proof fn law_block_shows_its_fields(b: ChatBlock)
    ensures
        b@.role == b.role@,
        b@.content == b.content@,
{
}

/// A request shows what it asks for, and its files in order.
pub proof fn law_request_shows_its_fields(r: ChatRequest, f: FilePayload, i: int)
    ensures
        f@.filename == f.filename@,
        f@.content == f.content@,
        f@.content_type == f.content_type@,
        r@.prompt == r.prompt@,
        r@.thinking_enabled == r.thinking_enabled,
        r@.search_enabled == r.search_enabled,
        r@.model_type == r.model_type@,
        r@.files.len() == r.files@.len(),
        0 <= i < r.files@.len() ==> r@.files[i] == r.files@[i]@,
{
}

/// The payload of a completion shows what it says.
pub proof fn law_payload_shows_its_fields(p: CompletionPayload)
    ensures
        p@.chat_session_id == p.chat_session_id@,
        p@.parent_message_id == p.parent_message_id,
        p@.model_type == p.model_type@,
        p@.prompt == p.prompt@,
        p@.ref_file_ids == strings(p.ref_file_ids@),
        p@.thinking_enabled == p.thinking_enabled,
        p@.search_enabled == p.search_enabled,
        p@.preempt == p.preempt,
{
}

/// A session, what it is worked with and how it is cleaned up show what they say.
pub proof fn law_session_shows_its_fields(s: ActiveSession, w: Work, c: Cleanup)
    ensures
        s@.token == s.token@,
        s@.session_id == s.session_id@,
        s@.message_id == s.message_id,
        w@.account_id == w.account_id@,
        w@.token == w.token@,
        w@.session_id == w.session_id@,
        c@.token == c.token@,
        c@.session_id == c.session_id@,
        c@.stop is None <==> c.stop is None,
        c.stop matches Some(payload) ==> c@.stop == Some(
            (payload.chat_session_id@, payload.message_id),
        ),
{
}

/// An error shows its kind and its message.
pub proof fn law_error_shows_its_message(e: CoreError)
    ensures
        match e {
            CoreError::Overloaded => e@ == ErrorText::Overloaded,
            CoreError::ProviderError(s) => e@ == ErrorText::ProviderError(s@),
            CoreError::Stream(s) => e@ == ErrorText::Stream(s@),
            CoreError::ProofOfWorkFailed(s) => e@ == ErrorText::ProofOfWorkFailed(s@),
        },
        error_text(Some(e)) == Some(e@),
        error_text(None) is None,
        close_outcome(None) is None,
        close_outcome(Some(Ok(()))) == Some(Ok::<(), ErrorText>(())),
        close_outcome(Some(Err(e))) == Some(Err::<(), ErrorText>(e@)),
{
}

/// What a lookup found shows as it is.
pub proof fn law_lookup_shows_what_was_found(s: String)
    ensures
        found_string(None) is None,
        found_string(Some(None)) == Some(None::<Seq<char>>),
        found_string(Some(Some(s))) == Some(Some(s@)),
{
}

/// What came from a stream, and what was made of it, show what they say.
pub proof fn law_stream_shows_what_came(
    e: StreamEvent,
    s: Scan,
    p: Progress,
    v: Verdict,
    o: Opening,
    g: Segment,
)
    ensures
        match e {
            StreamEvent::Chunk(bytes) => e@ == StreamText::Chunk(bytes@),
            StreamEvent::Failed(message) => e@ == StreamText::Failed(message@),
            StreamEvent::End => e@ == StreamText::End,
        },
        match s {
            Scan::Running(ready) => s@ == ScanText::Running(ready),
            Scan::Done(id) => s@ == ScanText::Done(id),
            Scan::Failed(error) => s@ == ScanText::Failed(error@),
        },
        match p {
            Progress::Pending => p@ == ProgressText::Pending,
            Progress::Done(id, bytes) => p@ == ProgressText::Done(id, bytes@),
            Progress::Failed(error) => p@ == ProgressText::Failed(error@),
        },
        match v {
            Verdict::Pending => v@ == VerdictText::Pending,
            Verdict::Ready(id) => v@ == VerdictText::Ready(id),
            Verdict::Refused(error) => v@ == VerdictText::Refused(error@),
            Verdict::Broken(error, blame) => v@ == VerdictText::Broken(error@, blame),
        },
        o@.buf == o.buf@,
        o@.text == o.text@,
        g@ == segment_label(g.request_id@, g.index as int, g.total as int),
{
}

/// What a text that may be absent says.
pub open spec fn text_of(s: Option<String>) -> Option<Seq<char>> {
    match s {
        Some(s) => Some(s@),
        None => None,
    }
}

/// What a session that may be absent says: its token and its id.
pub open spec fn pair_of(s: Option<(String, String)>) -> Option<(Seq<char>, Seq<char>)> {
    match s {
        Some(s) => Some((s.0@, s.1@)),
        None => None,
    }
}

/// An action shows what it asks for.
pub proof fn law_action_shows_what_it_asks_for(a: ChatAction, r: RunAction)
    ensures
        match a {
            ChatAction::AcquireAccount { wait_ms } => a@ == (ActionText::AcquireAccount {
                wait_ms,
            }),
            ChatAction::CreateSession { token } => a@ == (ActionText::CreateSession {
                token: token@,
            }),
            ChatAction::UploadFile { token, filename, content_type, content } => {
                &&& a@ is UploadFile
                &&& a@->UploadFile_token == token@
                &&& a@->filename == filename@
                &&& a@->content_type == content_type@
                &&& a@->content == content@
            },
            ChatAction::ComputePow { token, target_path } => {
                &&& a@ is ComputePow
                &&& a@->ComputePow_token == token@
                &&& a@->target_path == target_path@
            },
            ChatAction::Complete { token, pow_header, payload } => {
                &&& a@ is Complete
                &&& a@->Complete_token == token@
                &&& a@->pow_header == pow_header@
                &&& a@->payload == payload@
            },
            ChatAction::ReadStream => a@ == ActionText::ReadStream,
            ChatAction::Fail { mark_error, delete_session, error } => {
                &&& a@ is Fail
                &&& a@->mark_error == text_of(mark_error)
                &&& a@->delete_session == pair_of(delete_session)
                &&& a@->error == error@
            },
            ChatAction::Respond { session, account_id, replay } => {
                &&& a@ is Respond
                &&& a@->session == session@
                &&& a@->account_id == account_id@
                &&& a@->replay == replay@
            },
        },
        match r {
            RunAction::Do(action) => r@ == RunActionText::Do(action@),
            RunAction::TryAgain { mark_error, delete_session, error, delay_ms } => {
                &&& r@ is TryAgain
                &&& r@->mark_error == text_of(mark_error)
                &&& r@->delete_session == pair_of(delete_session)
                &&& r@->error == error@
                &&& r@->delay_ms == delay_ms
            },
        },
{
}

/// An event shows what came of an action.
pub proof fn law_event_shows_what_came(e: ChatEvent, r: RunEvent, p: Plan)
    ensures
        match e {
            ChatEvent::NoAccount => e@ == EventText::NoAccount,
            ChatEvent::Account { account_id, token } => {
                &&& e@ is Account
                &&& e@->account_id == account_id@
                &&& e@->token == token@
            },
            ChatEvent::SessionCreated(id) => e@ == EventText::SessionCreated(id@),
            ChatEvent::Uploaded(id) => e@ == EventText::Uploaded(id@),
            ChatEvent::UploadFailed(reason) => e@ == EventText::UploadFailed(reason@),
            ChatEvent::PowComputed(header) => e@ == EventText::PowComputed(header@),
            ChatEvent::StreamOpened => e@ == EventText::StreamOpened,
            ChatEvent::Stream(event) => e@ == EventText::Stream(event@),
            ChatEvent::CallFailed(error) => e@ == EventText::CallFailed(error@),
        },
        match r {
            RunEvent::Done(event) => r@ == RunEventText::Done(event@),
            RunEvent::Waited => r@ == RunEventText::Waited,
        },
        match p {
            Plan::Single { inline_prompt, history } => {
                &&& p@ is Single
                &&& p@->inline_prompt == inline_prompt@
                &&& p@->history == history@
            },
            Plan::Segments { chunk_size } => p@ == (PlanText::Segments {
                chunk_size: chunk_size as int,
            }),
        },
{
}

/// The actions and events of an upload show what they say.
pub proof fn law_upload_shows_what_it_says(a: UploadAction, e: UploadEvent, f: FileStatus)
    ensures
        f@.status == f.status@,
        f@.file_name == f.file_name@,
        match a {
            UploadAction::ComputePow { token, target_path } => {
                &&& a@ is ComputePow
                &&& a@->ComputePow_token == token@
                &&& a@->target_path == target_path@
            },
            UploadAction::Upload { token, pow_header, filename, content_type, content } => {
                &&& a@ is Upload
                &&& a@->Upload_token == token@
                &&& a@->pow_header == pow_header@
                &&& a@->filename == filename@
                &&& a@->content_type == content_type@
                &&& a@->content == content@
            },
            UploadAction::FetchFile { token, file_id } => {
                &&& a@ is FetchFile
                &&& a@->FetchFile_token == token@
                &&& a@->file_id == file_id@
            },
            UploadAction::Sleep { millis } => a@ == (UploadActionText::Sleep { millis }),
            UploadAction::Finish(Ok(id)) => a@ == UploadActionText::Finish(Ok(id@)),
            UploadAction::Finish(Err(error)) => a@ == UploadActionText::Finish(Err(error@)),
        },
        match e {
            UploadEvent::PowComputed(header) => e@ == UploadEventText::PowComputed(header@),
            UploadEvent::Uploaded(id) => e@ == UploadEventText::Uploaded(id@),
            UploadEvent::Fetched(Some(file)) => e@ == UploadEventText::Fetched(Some(file@)),
            UploadEvent::Fetched(None) => e@ == UploadEventText::Fetched(None),
            UploadEvent::Woke => e@ == UploadEventText::Woke,
            UploadEvent::CallFailed(error) => e@ == UploadEventText::CallFailed(error@),
        },
{
}

} // verus!
