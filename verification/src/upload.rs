//! Uploading one file and waiting until it has been processed.
use crate::error::{CoreError, ErrorText};
use crate::text::{chars_of, same_text};
use vstd::prelude::*;
use vstd::slice::slice_to_vec;
use vstd::string::*;

verus! {

/// The path for which the proof of work of an upload is computed.
pub const UPLOAD_PATH: &'static str = "/api/v0/file/upload_file";

/// How long to wait between two looks at a file, in milliseconds.
pub const UPLOAD_POLL_INTERVAL_MS: u64 = 2000;

/// How often to look at a file before giving up.
pub const UPLOAD_POLL_MAX_RETRIES: usize = 30;

/// What the provider says of an uploaded file.
#[derive(Debug, PartialEq, Eq)]
pub struct FileStatus {
    pub status: String,
    pub file_name: String,
}

/// What a file status says.
pub struct StatusText {
    pub status: Seq<char>,
    pub file_name: Seq<char>,
}

impl View for FileStatus {
    type V = StatusText;

    open spec fn view(&self) -> StatusText {
        StatusText { status: self.status@, file_name: self.file_name@ }
    }
}

/// What is to be done next.
#[derive(Debug, PartialEq, Eq)]
pub enum UploadAction {
    /// Compute the proof of work for a path.
    ComputePow { token: String, target_path: String },
    /// Upload the file.
    Upload {
        token: String,
        pow_header: String,
        filename: String,
        content_type: String,
        content: Vec<u8>,
    },
    /// Ask for the state of the file.
    FetchFile { token: String, file_id: String },
    /// Wait.
    Sleep { millis: u64 },
    /// The upload is over: the id of the file, or why it failed.
    Finish(Result<String, CoreError>),
}

/// What an upload action says.
pub enum UploadActionText {
    ComputePow { token: Seq<char>, target_path: Seq<char> },
    Upload {
        token: Seq<char>,
        pow_header: Seq<char>,
        filename: Seq<char>,
        content_type: Seq<char>,
        content: Seq<u8>,
    },
    FetchFile { token: Seq<char>, file_id: Seq<char> },
    Sleep { millis: u64 },
    Finish(Result<Seq<char>, ErrorText>),
}

impl View for UploadAction {
    type V = UploadActionText;

    open spec fn view(&self) -> UploadActionText {
        match self {
            UploadAction::ComputePow { token, target_path } => UploadActionText::ComputePow {
                token: token@,
                target_path: target_path@,
            },
            UploadAction::Upload { token, pow_header, filename, content_type, content } => {
                UploadActionText::Upload {
                    token: token@,
                    pow_header: pow_header@,
                    filename: filename@,
                    content_type: content_type@,
                    content: content@,
                }
            },
            UploadAction::FetchFile { token, file_id } => UploadActionText::FetchFile {
                token: token@,
                file_id: file_id@,
            },
            UploadAction::Sleep { millis } => UploadActionText::Sleep { millis: *millis },
            UploadAction::Finish(Ok(id)) => UploadActionText::Finish(Ok(id@)),
            UploadAction::Finish(Err(e)) => UploadActionText::Finish(Err(e@)),
        }
    }
}

/// What came of an upload action.
#[derive(Debug, PartialEq, Eq)]
pub enum UploadEvent {
    /// The proof of work has been computed; this is the header that carries it.
    PowComputed(String),
    /// The file has been uploaded; this is its id.
    Uploaded(String),
    /// The provider answered with the state of the file, or did not list it.
    Fetched(Option<FileStatus>),
    /// The wait is over.
    Woke,
    /// A call failed.
    CallFailed(CoreError),
}

/// What an upload event says.
pub enum UploadEventText {
    PowComputed(Seq<char>),
    Uploaded(Seq<char>),
    Fetched(Option<StatusText>),
    Woke,
    CallFailed(ErrorText),
}

impl View for UploadEvent {
    type V = UploadEventText;

    open spec fn view(&self) -> UploadEventText {
        match self {
            UploadEvent::PowComputed(header) => UploadEventText::PowComputed(header@),
            UploadEvent::Uploaded(id) => UploadEventText::Uploaded(id@),
            UploadEvent::Fetched(Some(file)) => UploadEventText::Fetched(Some(file@)),
            UploadEvent::Fetched(None) => UploadEventText::Fetched(None),
            UploadEvent::Woke => UploadEventText::Woke,
            UploadEvent::CallFailed(e) => UploadEventText::CallFailed(e@),
        }
    }
}

/// What an upload waits for.
#[derive(Debug, Clone, Copy, PartialEq, Eq)]
pub enum UploadPhase {
    Pow,
    Upload,
    Fetch,
    Sleep,
    Ended,
}

/// How far an upload has come.
pub struct UploadText {
    pub token: Seq<char>,
    pub filename: Seq<char>,
    pub content_type: Seq<char>,
    pub content: Seq<u8>,
    pub file_id: Seq<char>,
    /// How often the file has been looked at in vain.
    pub polls: int,
    pub phase: UploadPhase,
}

/// An upload that has not begun.
pub open spec fn upload_start(
    token: Seq<char>,
    filename: Seq<char>,
    content_type: Seq<char>,
    content: Seq<u8>,
) -> UploadText {
    UploadText {
        token,
        filename,
        content_type,
        content,
        file_id: seq![],
        polls: 0,
        phase: UploadPhase::Pow,
    }
}

/// Whether an event answers the action that the upload gave last.
pub open spec fn upload_awaits(s: UploadText, event: UploadEventText) -> bool {
    match s.phase {
        UploadPhase::Pow => event is PowComputed || event is CallFailed,
        UploadPhase::Upload => event is Uploaded || event is CallFailed,
        UploadPhase::Fetch => event is Fetched || event is CallFailed,
        UploadPhase::Sleep => event is Woke,
        UploadPhase::Ended => false,
    }
}

/// What a look at the file decides: nothing as long as it is being processed or not listed.
pub open spec fn file_outcome(file_id: Seq<char>, file: Option<StatusText>) -> Option<
    Result<Seq<char>, ErrorText>,
> {
    match file {
        Some(file) => if file.status == "SUCCESS"@ {
            Some(Ok(file_id))
        } else if file.status == "FAILED"@ {
            Some(Err(ErrorText::ProviderError("文件上传失败: "@ + file.file_name)))
        } else {
            None
        },
        None => None,
    }
}

/// What comes of an event that the upload awaits.
pub open spec fn upload_step(s: UploadText, event: UploadEventText) -> (
    UploadText,
    UploadActionText,
) {
    let ended = UploadText { phase: UploadPhase::Ended, ..s };
    match event {
        UploadEventText::PowComputed(pow_header) => (
            UploadText { phase: UploadPhase::Upload, ..s },
            UploadActionText::Upload {
                token: s.token,
                pow_header,
                filename: s.filename,
                content_type: s.content_type,
                content: s.content,
            },
        ),
        UploadEventText::Uploaded(file_id) => (
            UploadText { file_id, phase: UploadPhase::Fetch, ..s },
            UploadActionText::FetchFile { token: s.token, file_id },
        ),
        UploadEventText::Fetched(file) => match file_outcome(s.file_id, file) {
            Some(outcome) => (ended, UploadActionText::Finish(outcome)),
            None => (
                UploadText { phase: UploadPhase::Sleep, ..s },
                UploadActionText::Sleep { millis: UPLOAD_POLL_INTERVAL_MS },
            ),
        },
        UploadEventText::Woke => if s.polls + 1 < UPLOAD_POLL_MAX_RETRIES {
            (
                UploadText { polls: s.polls + 1, phase: UploadPhase::Fetch, ..s },
                UploadActionText::FetchFile { token: s.token, file_id: s.file_id },
            )
        } else {
            (
                UploadText { polls: s.polls + 1, ..ended },
                UploadActionText::Finish(Err(ErrorText::ProviderError("文件处理超时"@))),
            )
        },
        UploadEventText::CallFailed(e) => (ended, UploadActionText::Finish(Err(e))),
    }
}

/// The upload of one file.
#[derive(Debug)]
pub struct UploadRun<'a> {
    token: &'a str,
    filename: &'a str,
    content_type: &'a str,
    content: &'a [u8],
    file_id: String,
    polls: usize,
    phase: UploadPhase,
}

impl<'a> View for UploadRun<'a> {
    type V = UploadText;

    closed spec fn view(&self) -> UploadText {
        UploadText {
            token: self.token@,
            filename: self.filename@,
            content_type: self.content_type@,
            content: self.content@,
            file_id: self.file_id@,
            polls: self.polls as int,
            phase: self.phase,
        }
    }
}

impl<'a> UploadRun<'a> {
    /// What holds of every upload that is not over: the file may be looked at once more.
    pub closed spec fn wf(&self) -> bool {
        self.phase != UploadPhase::Ended ==> self.polls < UPLOAD_POLL_MAX_RETRIES
    }

    /// Begins an upload.
    pub fn start(
        token: &'a str,
        filename: &'a str,
        content_type: &'a str,
        content: &'a [u8],
    ) -> (r: (UploadRun<'a>, UploadAction))
        ensures
            r.0.wf(),
            r.0@ == upload_start(token@, filename@, content_type@, content@),
            r.1@ == (UploadActionText::ComputePow { token: token@, target_path: UPLOAD_PATH@ }),
    {
        let run = UploadRun {
            token,
            filename,
            content_type,
            content,
            file_id: String::new(),
            polls: 0,
            phase: UploadPhase::Pow,
        };
        proof {
            assert(run.file_id@ =~= seq![]);
        }
        let action = UploadAction::ComputePow {
            token: token.to_owned(),
            target_path: UPLOAD_PATH.to_owned(),
        };
        (run, action)
    }

    fn look(&self, file: Option<FileStatus>) -> (r: Option<Result<String, CoreError>>)
        ensures
            match (r, file_outcome(
                self@.file_id,
                match file {
                    Some(f) => Some(f@),
                    None => None,
                },
            )) {
                (None, None) => true,
                (Some(Ok(id)), Some(Ok(t))) => id@ == t,
                (Some(Err(e)), Some(Err(t))) => e@ == t,
                _ => false,
            },
    {
        let file = match file {
            Some(file) => file,
            None => {
                return None;
            },
        };
        let status = chars_of(file.status.as_str());
        if same_text(status.as_slice(), chars_of("SUCCESS").as_slice()) {
            return Some(Ok(self.file_id.clone()));
        }
        if same_text(status.as_slice(), chars_of("FAILED").as_slice()) {
            let mut message = String::new();
            message.append("文件上传失败: ");
            message.append(file.file_name.as_str());
            proof {
                assert(message@ =~= "文件上传失败: "@ + file.file_name@);
            }
            return Some(Err(CoreError::ProviderError(message)));
        }
        None
    }

    /// Takes the event that answers the last action and says what is to be done next.
    pub fn step(&mut self, event: UploadEvent) -> (r: UploadAction)
        requires
            old(self).wf(),
            upload_awaits(old(self)@, event@),
        ensures
            final(self).wf(),
            (final(self)@, r@) == upload_step(old(self)@, event@),
    {
        match event {
            UploadEvent::PowComputed(pow_header) => {
                self.phase = UploadPhase::Upload;
                UploadAction::Upload {
                    token: self.token.to_owned(),
                    pow_header,
                    filename: self.filename.to_owned(),
                    content_type: self.content_type.to_owned(),
                    content: slice_to_vec(self.content),
                }
            },
            UploadEvent::Uploaded(file_id) => {
                self.file_id = file_id.clone();
                self.phase = UploadPhase::Fetch;
                UploadAction::FetchFile { token: self.token.to_owned(), file_id }
            },
            UploadEvent::Fetched(file) => match self.look(file) {
                Some(outcome) => {
                    self.phase = UploadPhase::Ended;
                    UploadAction::Finish(outcome)
                },
                None => {
                    self.phase = UploadPhase::Sleep;
                    UploadAction::Sleep { millis: UPLOAD_POLL_INTERVAL_MS }
                },
            },
            UploadEvent::Woke => {
                self.polls = self.polls + 1;
                if self.polls < UPLOAD_POLL_MAX_RETRIES {
                    self.phase = UploadPhase::Fetch;
                    UploadAction::FetchFile {
                        token: self.token.to_owned(),
                        file_id: self.file_id.clone(),
                    }
                } else {
                    self.phase = UploadPhase::Ended;
                    UploadAction::Finish(Err(CoreError::ProviderError("文件处理超时".to_owned())))
                }
            },
            UploadEvent::CallFailed(e) => {
                self.phase = UploadPhase::Ended;
                UploadAction::Finish(Err(e))
            },
        }
    }
}

} // verus!
