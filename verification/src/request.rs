//! Requests, responses and the payloads that are sent to the provider.
use crate::prompt::strings;
use vstd::prelude::*;

verus! {

/// A file that comes with a request.
#[derive(Debug, Clone, PartialEq, Eq)]
pub struct FilePayload {
    pub filename: String,
    pub content: Vec<u8>,
    pub content_type: String,
}

/// What a file holds.
pub struct FileText {
    pub filename: Seq<char>,
    pub content: Seq<u8>,
    pub content_type: Seq<char>,
}

impl View for FilePayload {
    type V = FileText;

    open spec fn view(&self) -> FileText {
        FileText {
            filename: self.filename@,
            content: self.content@,
            content_type: self.content_type@,
        }
    }
}

/// A chat request.
#[derive(Debug, Clone, PartialEq, Eq)]
pub struct ChatRequest {
    pub prompt: String,
    pub thinking_enabled: bool,
    pub search_enabled: bool,
    pub model_type: String,
    pub files: Vec<FilePayload>,
}

/// What a request asks.
pub struct RequestText {
    pub prompt: Seq<char>,
    pub thinking_enabled: bool,
    pub search_enabled: bool,
    pub model_type: Seq<char>,
    pub files: Seq<FileText>,
}

impl View for ChatRequest {
    type V = RequestText;

    open spec fn view(&self) -> RequestText {
        RequestText {
            prompt: self.prompt@,
            thinking_enabled: self.thinking_enabled,
            search_enabled: self.search_enabled,
            model_type: self.model_type@,
            files: self.files@.map_values(|f: FilePayload| f@),
        }
    }
}

/// The response to a request: the stream of its events and the account that answers.
#[derive(Debug)]
pub struct ChatResponse<S> {
    pub stream: S,
    pub account_id: String,
}

/// The payload of a completion call.
#[derive(Debug, PartialEq, Eq)]
pub struct CompletionPayload {
    pub chat_session_id: String,
    pub parent_message_id: Option<i64>,
    pub model_type: String,
    pub prompt: String,
    pub ref_file_ids: Vec<String>,
    pub thinking_enabled: bool,
    pub search_enabled: bool,
    pub preempt: bool,
}

/// What a completion payload says.
pub struct PayloadText {
    pub chat_session_id: Seq<char>,
    pub parent_message_id: Option<i64>,
    pub model_type: Seq<char>,
    pub prompt: Seq<char>,
    pub ref_file_ids: Seq<Seq<char>>,
    pub thinking_enabled: bool,
    pub search_enabled: bool,
    pub preempt: bool,
}

impl View for CompletionPayload {
    type V = PayloadText;

    open spec fn view(&self) -> PayloadText {
        PayloadText {
            chat_session_id: self.chat_session_id@,
            parent_message_id: self.parent_message_id,
            model_type: self.model_type@,
            prompt: self.prompt@,
            ref_file_ids: strings(self.ref_file_ids@),
            thinking_enabled: self.thinking_enabled,
            search_enabled: self.search_enabled,
            preempt: self.preempt,
        }
    }
}

/// The payload of a call that stops a response.
#[derive(Debug, PartialEq, Eq)]
pub struct StopStreamPayload {
    pub chat_session_id: String,
    pub message_id: i64,
}

/// A session with a response under way.
#[derive(Debug, PartialEq, Eq)]
pub struct ActiveSession {
    pub token: String,
    pub session_id: String,
    pub message_id: i64,
}

/// What is known of a session with a response under way.
pub struct SessionText {
    pub token: Seq<char>,
    pub session_id: Seq<char>,
    pub message_id: i64,
}

impl View for ActiveSession {
    type V = SessionText;

    open spec fn view(&self) -> SessionText {
        SessionText {
            token: self.token@,
            session_id: self.session_id@,
            message_id: self.message_id,
        }
    }
}

} // verus!
