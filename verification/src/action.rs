//! What a chat run asks to be done, and what it is told in return.
//!
//! A run decides; it performs nothing itself. Whoever drives it performs the action that the run
//! gave last and answers with the event that came of it, until the action is `Fail` or `Respond`.
use crate::error::{CoreError, ErrorText};
use crate::opening::{OpeningText, Verdict, VerdictText};
use crate::request::{
    ActiveSession, CompletionPayload, PayloadText, SessionText,
};
use crate::watch::{StreamEvent, StreamText};
use vstd::prelude::*;

verus! {

/// The path for which the proof of work of a completion is computed.
pub const COMPLETION_PATH: &'static str = "/api/v0/chat/completion";

/// How long the first attempt waits for a free account, in milliseconds.
pub const ACCOUNT_WAIT_MS: u64 = 30_000;

/// What is to be done next.
#[derive(Debug, PartialEq, Eq)]
pub enum ChatAction {
    /// Take a free account, waiting for one as long as given, or not at all.
    AcquireAccount { wait_ms: Option<u64> },
    /// Create a session.
    CreateSession { token: String },
    /// Upload a file and wait until it has been processed.
    UploadFile { token: String, filename: String, content_type: String, content: Vec<u8> },
    /// Compute the proof of work for a path.
    ComputePow { token: String, target_path: String },
    /// Start a completion.
    Complete { token: String, pow_header: String, payload: CompletionPayload },
    /// Read on from the stream of the completion started last.
    ReadStream,
    /// Give up: first mark the account as faulty, then delete the session, each where it is given.
    Fail {
        mark_error: Option<String>,
        delete_session: Option<(String, String)>,
        error: CoreError,
    },
    /// Register the session and pass the response on, beginning with the bytes read already.
    Respond { session: ActiveSession, account_id: String, replay: Vec<u8> },
}

/// What an action says. The session to delete is given by its token and its id.
pub enum ActionText {
    AcquireAccount { wait_ms: Option<u64> },
    CreateSession { token: Seq<char> },
    UploadFile {
        token: Seq<char>,
        filename: Seq<char>,
        content_type: Seq<char>,
        content: Seq<u8>,
    },
    ComputePow { token: Seq<char>, target_path: Seq<char> },
    Complete { token: Seq<char>, pow_header: Seq<char>, payload: PayloadText },
    ReadStream,
    Fail {
        mark_error: Option<Seq<char>>,
        delete_session: Option<(Seq<char>, Seq<char>)>,
        error: ErrorText,
    },
    Respond { session: SessionText, account_id: Seq<char>, replay: Seq<u8> },
}

impl View for ChatAction {
    type V = ActionText;

    open spec fn view(&self) -> ActionText {
        match self {
            ChatAction::AcquireAccount { wait_ms } => ActionText::AcquireAccount {
                wait_ms: *wait_ms,
            },
            ChatAction::CreateSession { token } => ActionText::CreateSession { token: token@ },
            ChatAction::UploadFile { token, filename, content_type, content } => {
                ActionText::UploadFile {
                    token: token@,
                    filename: filename@,
                    content_type: content_type@,
                    content: content@,
                }
            },
            ChatAction::ComputePow { token, target_path } => ActionText::ComputePow {
                token: token@,
                target_path: target_path@,
            },
            ChatAction::Complete { token, pow_header, payload } => ActionText::Complete {
                token: token@,
                pow_header: pow_header@,
                payload: payload@,
            },
            ChatAction::ReadStream => ActionText::ReadStream,
            ChatAction::Fail { mark_error, delete_session, error } => ActionText::Fail {
                mark_error: match mark_error {
                    Some(id) => Some(id@),
                    None => None,
                },
                delete_session: match delete_session {
                    Some((token, id)) => Some((token@, id@)),
                    None => None,
                },
                error: error@,
            },
            ChatAction::Respond { session, account_id, replay } => ActionText::Respond {
                session: session@,
                account_id: account_id@,
                replay: replay@,
            },
        }
    }
}

/// What came of an action.
#[derive(Debug, PartialEq, Eq)]
pub enum ChatEvent {
    /// No account is free.
    NoAccount,
    /// This account has been taken.
    Account { account_id: String, token: String },
    /// A session with this id has been created.
    SessionCreated(String),
    /// The file has been uploaded and processed; this is its id.
    Uploaded(String),
    /// The file could not be uploaded, for this reason.
    UploadFailed(String),
    /// The proof of work has been computed; this is the header that carries it.
    PowComputed(String),
    /// The completion has been started.
    StreamOpened,
    /// This came from the stream.
    Stream(StreamEvent),
    /// Creating the session, computing the proof of work or starting the completion failed.
    CallFailed(CoreError),
}

/// What an event says.
pub enum EventText {
    NoAccount,
    Account { account_id: Seq<char>, token: Seq<char> },
    SessionCreated(Seq<char>),
    Uploaded(Seq<char>),
    UploadFailed(Seq<char>),
    PowComputed(Seq<char>),
    StreamOpened,
    Stream(StreamText),
    CallFailed(ErrorText),
}

impl View for ChatEvent {
    type V = EventText;

    open spec fn view(&self) -> EventText {
        match self {
            ChatEvent::NoAccount => EventText::NoAccount,
            ChatEvent::Account { account_id, token } => EventText::Account {
                account_id: account_id@,
                token: token@,
            },
            ChatEvent::SessionCreated(id) => EventText::SessionCreated(id@),
            ChatEvent::Uploaded(id) => EventText::Uploaded(id@),
            ChatEvent::UploadFailed(reason) => EventText::UploadFailed(reason@),
            ChatEvent::PowComputed(header) => EventText::PowComputed(header@),
            ChatEvent::StreamOpened => EventText::StreamOpened,
            ChatEvent::Stream(event) => EventText::Stream(event@),
            ChatEvent::CallFailed(e) => EventText::CallFailed(e@),
        }
    }
}

/// Giving up before there is an account.
pub open spec fn fail(error: ErrorText) -> ActionText {
    ActionText::Fail { mark_error: None, delete_session: None, error }
}

/// Giving up before there is a session, and marking the account as faulty.
pub open spec fn fail_marking(account_id: Seq<char>, error: ErrorText) -> ActionText {
    ActionText::Fail { mark_error: Some(account_id), delete_session: None, error }
}

/// The account and the session that a run works with.
pub struct WorkText {
    pub account_id: Seq<char>,
    pub token: Seq<char>,
    pub session_id: Seq<char>,
}

/// Giving up once there is a session, which is deleted. The account is marked as faulty where it is
/// to blame.
pub open spec fn give_up(w: WorkText, blame: bool, error: ErrorText) -> ActionText {
    ActionText::Fail {
        mark_error: if blame {
            Some(w.account_id)
        } else {
            None
        },
        delete_session: Some((w.token, w.session_id)),
        error,
    }
}

/// What is to be done after the opening of the response has been judged. The account is to blame
/// for a hint that is a rate limit.
pub open spec fn opening_action(w: WorkText, o: OpeningText, verdict: VerdictText) -> ActionText {
    match verdict {
        VerdictText::Pending => ActionText::ReadStream,
        VerdictText::Ready(id) => ActionText::Respond {
            session: SessionText { token: w.token, session_id: w.session_id, message_id: id },
            account_id: w.account_id,
            replay: o.buf,
        },
        VerdictText::Refused(e) => give_up(w, e is Overloaded, e),
        VerdictText::Broken(e, blame) => give_up(w, blame, e),
    }
}

/// The account and the session that a run works with.
#[derive(Debug)]
pub struct Work {
    pub account_id: String,
    pub token: String,
    pub session_id: String,
}

impl View for Work {
    type V = WorkText;

    open spec fn view(&self) -> WorkText {
        WorkText {
            account_id: self.account_id@,
            token: self.token@,
            session_id: self.session_id@,
        }
    }
}

impl Work {
    /// No account and no session yet.
    pub fn new() -> (r: Work)
        ensures
            r@ == (WorkText { account_id: seq![], token: seq![], session_id: seq![] }),
    {
        let r = Work {
            account_id: String::new(),
            token: String::new(),
            session_id: String::new(),
        };
        proof {
            assert(r@.account_id =~= seq![]);
            assert(r@.token =~= seq![]);
            assert(r@.session_id =~= seq![]);
        }
        r
    }

    /// Gives up before there is a session, and marks the account as faulty.
    pub fn fail_marking(&self, error: CoreError) -> (r: ChatAction)
        ensures
            r@ == fail_marking(self@.account_id, error@),
    {
        ChatAction::Fail {
            mark_error: Some(self.account_id.clone()),
            delete_session: None,
            error,
        }
    }

    /// Gives up and deletes the session. The account is marked as faulty where it is to blame.
    pub fn give_up(&self, blame: bool, error: CoreError) -> (r: ChatAction)
        ensures
            r@ == give_up(self@, blame, error@),
    {
        let mark_error = if blame {
            Some(self.account_id.clone())
        } else {
            None
        };
        ChatAction::Fail {
            mark_error,
            delete_session: Some((self.token.clone(), self.session_id.clone())),
            error,
        }
    }

    /// What is to be done after the opening of the response has been judged.
    pub fn after_opening(&self, verdict: Verdict, received: &Vec<u8>) -> (r: ChatAction)
        ensures
            forall|o: OpeningText|
                o.buf == received@ ==> r@ == #[trigger] opening_action(self@, o, verdict@),
    {
        match verdict {
            Verdict::Pending => ChatAction::ReadStream,
            Verdict::Ready(message_id) => ChatAction::Respond {
                session: ActiveSession {
                    token: self.token.clone(),
                    session_id: self.session_id.clone(),
                    message_id,
                },
                account_id: self.account_id.clone(),
                replay: vstd::slice::slice_to_vec(received.as_slice()),
            },
            Verdict::Refused(error) => {
                let blame = match error {
                    CoreError::Overloaded => true,
                    _ => false,
                };
                self.give_up(blame, error)
            },
            Verdict::Broken(error, blame) => self.give_up(blame, error),
        }
    }
}

} // verus!
