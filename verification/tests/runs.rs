use completions::action::{ChatAction, ChatEvent, ACCOUNT_WAIT_MS, COMPLETION_PATH};
use completions::direct::{DirectRun, SESSION_HISTORY_FILE};
use completions::error::CoreError;
use completions::request::{ActiveSession, ChatRequest, CompletionPayload, FilePayload};
use completions::segmented::SegmentedRun;
use completions::upload::{
    FileStatus, UploadAction, UploadEvent, UploadRun, UPLOAD_PATH, UPLOAD_POLL_INTERVAL_MS,
    UPLOAD_POLL_MAX_RETRIES,
};
use completions::watch::StreamEvent;

const READY: &str =
    "event: ready\ndata: {\"request_message_id\":1,\"response_message_id\":42}\n\n";
const UPDATE: &str = "event: update_session\n\n";

fn s(text: &str) -> String {
    text.to_string()
}

fn request(prompt: &str, files: &[&str]) -> ChatRequest {
    ChatRequest {
        prompt: s(prompt),
        thinking_enabled: true,
        search_enabled: true,
        model_type: s("default"),
        files: files
            .iter()
            .map(|name| FilePayload {
                filename: s(name),
                content: name.as_bytes().to_vec(),
                content_type: s("text/markdown"),
            })
            .collect(),
    }
}

fn account() -> ChatEvent {
    ChatEvent::Account { account_id: s("acc"), token: s("tok") }
}

fn chunk(text: &str) -> ChatEvent {
    ChatEvent::Stream(StreamEvent::Chunk(text.as_bytes().to_vec()))
}

fn pow() -> ChatAction {
    ChatAction::ComputePow { token: s("tok"), target_path: s("/api/v0/chat/completion") }
}

fn fail(mark: bool, delete: bool, error: CoreError) -> ChatAction {
    ChatAction::Fail {
        mark_error: if mark { Some(s("acc")) } else { None },
        delete_session: if delete { Some((s("tok"), s("ses"))) } else { None },
        error,
    }
}

fn respond(replay: &str) -> ChatAction {
    ChatAction::Respond {
        session: ActiveSession { token: s("tok"), session_id: s("ses"), message_id: 42 },
        account_id: s("acc"),
        replay: replay.as_bytes().to_vec(),
    }
}

fn upload_of(name: &str) -> ChatAction {
    ChatAction::UploadFile {
        token: s("tok"),
        filename: s(name),
        content_type: s("text/markdown"),
        content: name.as_bytes().to_vec(),
    }
}

fn payload(prompt: &str, files: &[&str]) -> CompletionPayload {
    CompletionPayload {
        chat_session_id: s("ses"),
        parent_message_id: None,
        model_type: s("default"),
        prompt: s(prompt),
        ref_file_ids: files.iter().map(|f| s(f)).collect(),
        thinking_enabled: true,
        search_enabled: true,
        preempt: false,
    }
}

/// An attempt that has its session and waits for the proof of work.
fn at_pow(req: &ChatRequest) -> DirectRun<'_> {
    let (mut run, _) = DirectRun::start(req, &req.prompt, "", true);
    run.step(account());
    assert_eq!(run.step(ChatEvent::SessionCreated(s("ses"))), pow());
    run
}

/// An attempt that reads the opening of its response.
fn at_opening(req: &ChatRequest) -> DirectRun<'_> {
    let mut run = at_pow(req);
    run.step(ChatEvent::PowComputed(s("pow")));
    assert_eq!(run.step(ChatEvent::StreamOpened), ChatAction::ReadStream);
    run
}

#[test]
fn first_attempt_waits_for_an_account() {
    let req = request("p", &[]);
    assert_eq!(ACCOUNT_WAIT_MS, 30_000);
    assert_eq!(
        DirectRun::start(&req, "p", "", true).1,
        ChatAction::AcquireAccount { wait_ms: Some(30_000) }
    );
    assert_eq!(
        DirectRun::start(&req, "p", "", false).1,
        ChatAction::AcquireAccount { wait_ms: None }
    );
}

#[test]
fn attempt_with_everything() {
    let req = request("full", &["a.md", "b.md"]);
    let (mut run, _) = DirectRun::start(&req, "inline", "历史", true);
    assert_eq!(run.step(account()), ChatAction::CreateSession { token: s("tok") });
    assert_eq!(
        run.step(ChatEvent::SessionCreated(s("ses"))),
        ChatAction::UploadFile {
            token: s("tok"),
            filename: s("EMPTY.txt"),
            content_type: s("text/plain"),
            content: "历史".as_bytes().to_vec(),
        }
    );
    assert_eq!(SESSION_HISTORY_FILE, "EMPTY.txt");
    assert_eq!(run.step(ChatEvent::Uploaded(s("h"))), upload_of("a.md"));
    assert_eq!(run.step(ChatEvent::Uploaded(s("f1"))), upload_of("b.md"));
    assert_eq!(run.step(ChatEvent::Uploaded(s("f2"))), pow());
    assert_eq!(COMPLETION_PATH, "/api/v0/chat/completion");
    assert_eq!(
        run.step(ChatEvent::PowComputed(s("pow"))),
        ChatAction::Complete {
            token: s("tok"),
            pow_header: s("pow"),
            payload: payload("inline", &["h", "f1", "f2"]),
        }
    );
    assert_eq!(run.step(ChatEvent::StreamOpened), ChatAction::ReadStream);
    assert_eq!(run.step(chunk(READY)), ChatAction::ReadStream);
    assert_eq!(
        run.step(chunk("event: update_session\n\nmore")),
        respond(&format!("{}event: update_session\n\nmore", READY))
    );
}

#[test]
fn failed_history_upload_falls_back_to_the_full_prompt() {
    let req = request("full", &["a.md"]);
    let (mut run, _) = DirectRun::start(&req, "inline", "history", false);
    run.step(account());
    run.step(ChatEvent::SessionCreated(s("ses")));
    assert_eq!(run.step(ChatEvent::UploadFailed(s("boom"))), upload_of("a.md"));
    assert_eq!(run.step(ChatEvent::Uploaded(s("f"))), pow());
    assert_eq!(
        run.step(ChatEvent::PowComputed(s("pow"))),
        ChatAction::Complete {
            token: s("tok"),
            pow_header: s("pow"),
            payload: payload("full", &["f"]),
        }
    );
}

#[test]
fn failed_file_upload_ends_the_attempt() {
    let req = request("full", &["a.md", "b.md"]);
    let (mut run, _) = DirectRun::start(&req, "full", "", true);
    run.step(account());
    assert_eq!(run.step(ChatEvent::SessionCreated(s("ses"))), upload_of("a.md"));
    run.step(ChatEvent::Uploaded(s("f")));
    assert_eq!(
        run.step(ChatEvent::UploadFailed(s("boom"))),
        fail(
            false,
            true,
            CoreError::ProviderError(s("外部文件上传失败 (b.md): boom"))
        )
    );
}

#[test]
fn no_account_is_overload() {
    let req = request("p", &[]);
    let (mut run, _) = DirectRun::start(&req, "p", "", true);
    assert_eq!(run.step(ChatEvent::NoAccount), fail(false, false, CoreError::Overloaded));
}

#[test]
fn failed_calls_mark_the_account_and_delete_the_session() {
    let req = request("p", &[]);
    let error = || CoreError::Stream(s("net"));
    let (mut run, _) = DirectRun::start(&req, "p", "", true);
    run.step(account());
    assert_eq!(run.step(ChatEvent::CallFailed(error())), fail(true, false, error()));
    let mut run = at_pow(&req);
    assert_eq!(run.step(ChatEvent::CallFailed(error())), fail(true, true, error()));
    let mut run = at_pow(&req);
    run.step(ChatEvent::PowComputed(s("pow")));
    assert_eq!(run.step(ChatEvent::CallFailed(error())), fail(true, true, error()));
}

#[test]
fn rate_limit_marks_and_deletes() {
    let req = request("p", &[]);
    let mut run = at_opening(&req);
    assert_eq!(
        run.step(chunk(&format!("{}event: hint\ndata: rate_limit\n\n", READY))),
        fail(true, true, CoreError::Overloaded)
    );
}

#[test]
fn other_hint_deletes_only() {
    let req = request("p", &[]);
    let mut run = at_opening(&req);
    assert_eq!(
        run.step(chunk(&format!("{}event: hint\ndata: input_exceeds_limit\n\n", READY))),
        fail(
            false,
            true,
            CoreError::ProviderError(s("输入内容超长，请缩短后重试"))
        )
    );
}

#[test]
fn broken_direct_streams() {
    let req = request("p", &[]);
    let mut run = at_opening(&req);
    assert_eq!(
        run.step(ChatEvent::Stream(StreamEvent::Failed(s("reset")))),
        fail(false, true, CoreError::Stream(s("reset")))
    );
    let mut run = at_opening(&req);
    run.step(chunk("{\"data\":{\"biz_code\":5,\"biz_msg\":\"mute\"}}"));
    assert_eq!(
        run.step(ChatEvent::Stream(StreamEvent::End)),
        fail(true, true, CoreError::ProviderError(s("biz_code=5, mute")))
    );
    let mut run = at_opening(&req);
    run.step(chunk("{\"code\":40301}"));
    assert_eq!(
        run.step(ChatEvent::Stream(StreamEvent::End)),
        fail(false, true, CoreError::Stream(s("空 SSE 流 (已收到 14 字节)")))
    );
}

fn segment_payload(prompt: &str, parent: Option<i64>, last: bool) -> ChatAction {
    ChatAction::Complete {
        token: s("tok"),
        pow_header: s("pow"),
        payload: CompletionPayload {
            chat_session_id: s("ses"),
            parent_message_id: parent,
            model_type: s("default"),
            prompt: s(prompt),
            ref_file_ids: vec![],
            thinking_enabled: last,
            search_enabled: last,
            preempt: false,
        },
    }
}

fn note(i: usize, n: usize) -> String {
    format!(
        "（这是一个多段对话的第 {}/{} 段，看到这句话时请不要阅读下文，禁止思考，直接回复\"收到第 {} 段\"，请等我全部输入完毕再进行思考回答。）\n\n",
        i, n, i
    )
}

fn final_note(n: usize) -> String {
    format!(
        "（这是分段对话的最后一段（第 {}/{} 段）。前面所有段是连贯的同一段对话历史，请将所有片段视为完整上下文，并基于此正常回答下面的问题。）\n\n",
        n, n
    )
}

fn ready(id: i64) -> String {
    format!("event: ready\ndata: {{\"request_message_id\":0,\"response_message_id\":{}}}\n\n", id)
}

#[test]
fn segments_are_sent_one_after_the_other() {
    let req = request("abcdefg", &["ignored.md"]);
    let (mut run, first) = SegmentedRun::start(&req, "r", 3);
    assert_eq!(first, ChatAction::AcquireAccount { wait_ms: Some(30_000) });
    assert_eq!(run.step(account()), ChatAction::CreateSession { token: s("tok") });
    assert_eq!(run.step(ChatEvent::SessionCreated(s("ses"))), pow());
    assert_eq!(
        run.step(ChatEvent::PowComputed(s("pow"))),
        segment_payload(&format!("{}abc", note(1, 3)), None, false)
    );
    assert_eq!(run.step(ChatEvent::StreamOpened), ChatAction::ReadStream);
    assert_eq!(run.step(chunk(&ready(10))), ChatAction::ReadStream);
    assert_eq!(run.step(chunk("event: close\n\n")), pow());
    assert_eq!(
        run.step(ChatEvent::PowComputed(s("pow"))),
        segment_payload(&format!("{}def", note(2, 3)), Some(10), false)
    );
    run.step(ChatEvent::StreamOpened);
    run.step(chunk(&ready(20)));
    assert_eq!(run.step(ChatEvent::Stream(StreamEvent::End)), pow());
    assert_eq!(
        run.step(ChatEvent::PowComputed(s("pow"))),
        segment_payload(&format!("{}g", final_note(3)), Some(20), true)
    );
    run.step(ChatEvent::StreamOpened);
    assert_eq!(run.step(chunk(READY)), ChatAction::ReadStream);
    assert_eq!(run.step(chunk(UPDATE)), respond(&format!("{}{}", READY, UPDATE)));
}

#[test]
fn single_segment_has_no_note() {
    let req = request("abc", &[]);
    let (mut run, _) = SegmentedRun::start(&req, "r", 3);
    run.step(account());
    run.step(ChatEvent::SessionCreated(s("ses")));
    assert_eq!(run.step(ChatEvent::PowComputed(s("pow"))), segment_payload("abc", None, true));
}

/// A run in two segments that waits for its first proof of work.
fn two_segments(req: &ChatRequest) -> SegmentedRun<'_> {
    let (mut run, _) = SegmentedRun::start(req, "r", 3);
    run.step(account());
    run.step(ChatEvent::SessionCreated(s("ses")));
    run
}

#[test]
fn failed_calls_between_segments_mark_and_delete() {
    let req = request("abcdef", &[]);
    let error = || CoreError::ProofOfWorkFailed(s("no"));
    let (mut run, _) = SegmentedRun::start(&req, "r", 3);
    run.step(account());
    assert_eq!(run.step(ChatEvent::CallFailed(error())), fail(true, false, error()));
    let mut run = two_segments(&req);
    assert_eq!(run.step(ChatEvent::CallFailed(error())), fail(true, true, error()));
    let mut run = two_segments(&req);
    run.step(ChatEvent::PowComputed(s("pow")));
    assert_eq!(run.step(ChatEvent::CallFailed(error())), fail(true, true, error()));
    let (mut run, _) = SegmentedRun::start(&req, "r", 3);
    assert_eq!(run.step(ChatEvent::NoAccount), fail(false, false, CoreError::Overloaded));
}

#[test]
fn failed_segment_ends_the_run() {
    let req = request("abcdef", &[]);
    let mut run = two_segments(&req);
    run.step(ChatEvent::PowComputed(s("pow")));
    run.step(ChatEvent::StreamOpened);
    assert_eq!(
        run.step(chunk("event: hint\ndata: rate_limit\n\n")),
        fail(false, true, CoreError::Overloaded)
    );
    let mut run = two_segments(&req);
    run.step(ChatEvent::PowComputed(s("pow")));
    run.step(ChatEvent::StreamOpened);
    assert_eq!(
        run.step(ChatEvent::Stream(StreamEvent::End)),
        fail(
            false,
            true,
            CoreError::Stream(s("req=r 分块 1/1 自然结束前流断（已收 0 字节）"))
        )
    );
}

/// A run in two segments that reads the opening of its response.
fn last_segment(req: &ChatRequest) -> SegmentedRun<'_> {
    let mut run = two_segments(req);
    run.step(ChatEvent::PowComputed(s("pow")));
    run.step(ChatEvent::StreamOpened);
    assert_eq!(run.step(chunk(&format!("{}event: close\n\n", READY))), pow());
    run.step(ChatEvent::PowComputed(s("pow")));
    run.step(ChatEvent::StreamOpened);
    run
}

#[test]
fn broken_last_segments() {
    let req = request("abcdef", &[]);
    let mut run = last_segment(&req);
    run.step(chunk("{\"code\":40301,\"msg\":\"p\"}"));
    assert_eq!(
        run.step(ChatEvent::Stream(StreamEvent::End)),
        fail(true, true, CoreError::ProviderError(s("INVALID_POW_RESPONSE: p")))
    );
    let mut run = last_segment(&req);
    assert_eq!(
        run.step(chunk(&format!("{}event: hint\ndata: rate_limit\n\n", READY))),
        fail(true, true, CoreError::Overloaded)
    );
    let mut run = last_segment(&req);
    assert_eq!(
        run.step(ChatEvent::Stream(StreamEvent::End)),
        fail(false, true, CoreError::Stream(s("空 SSE 流 (已收到 0 字节)")))
    );
}

fn status(status: &str) -> UploadEvent {
    UploadEvent::Fetched(Some(FileStatus { status: s(status), file_name: s("n.md") }))
}

fn fetch() -> UploadAction {
    UploadAction::FetchFile { token: s("tok"), file_id: s("id") }
}

fn uploaded() -> UploadRun<'static> {
    let (mut run, first) = UploadRun::start("tok", "n.md", "text/plain", b"abc");
    assert_eq!(
        first,
        UploadAction::ComputePow { token: s("tok"), target_path: s("/api/v0/file/upload_file") }
    );
    assert_eq!(
        run.step(UploadEvent::PowComputed(s("pow"))),
        UploadAction::Upload {
            token: s("tok"),
            pow_header: s("pow"),
            filename: s("n.md"),
            content_type: s("text/plain"),
            content: b"abc".to_vec(),
        }
    );
    assert_eq!(run.step(UploadEvent::Uploaded(s("id"))), fetch());
    run
}

#[test]
fn upload_ends_with_success() {
    assert_eq!(UPLOAD_PATH, "/api/v0/file/upload_file");
    let mut run = uploaded();
    assert_eq!(run.step(status("PENDING")), UploadAction::Sleep { millis: 2000 });
    assert_eq!(run.step(UploadEvent::Woke), fetch());
    assert_eq!(run.step(UploadEvent::Fetched(None)), UploadAction::Sleep { millis: 2000 });
    assert_eq!(run.step(UploadEvent::Woke), fetch());
    assert_eq!(run.step(status("SUCCESS")), UploadAction::Finish(Ok(s("id"))));
}

#[test]
fn upload_ends_with_failure() {
    let mut run = uploaded();
    assert_eq!(
        run.step(status("FAILED")),
        UploadAction::Finish(Err(CoreError::ProviderError(s("文件上传失败: n.md"))))
    );
}

#[test]
fn upload_times_out_after_thirty_looks() {
    assert_eq!((UPLOAD_POLL_INTERVAL_MS, UPLOAD_POLL_MAX_RETRIES), (2000, 30));
    let mut run = uploaded();
    for look in 1..=30 {
        assert_eq!(run.step(status("PARSING")), UploadAction::Sleep { millis: 2000 });
        let next = run.step(UploadEvent::Woke);
        if look < 30 {
            assert_eq!(next, fetch());
        } else {
            assert_eq!(
                next,
                UploadAction::Finish(Err(CoreError::ProviderError(s("文件处理超时"))))
            );
        }
    }
}

#[test]
fn failed_call_ends_the_upload() {
    let (mut run, _) = UploadRun::start("tok", "n.md", "text/plain", b"abc");
    assert_eq!(
        run.step(UploadEvent::CallFailed(CoreError::Overloaded)),
        UploadAction::Finish(Err(CoreError::Overloaded))
    );
    let mut run = uploaded();
    assert_eq!(
        run.step(UploadEvent::CallFailed(CoreError::Overloaded)),
        UploadAction::Finish(Err(CoreError::Overloaded))
    );
}
