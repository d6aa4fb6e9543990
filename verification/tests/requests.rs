use completions::action::{ChatAction, ChatEvent};
use completions::chat::{ChatRun, Plan, RunAction, RunEvent, MAX_ATTEMPTS, RETRY_DELAY_MS};
use completions::completions::{Completions, Route, DEFAULT_CHARACTER_LIMIT};
use completions::error::CoreError;
use completions::guard::{GuardedStream, Polled};
use completions::request::{ActiveSession, ChatRequest, ChatResponse, StopStreamPayload};
use completions::sessions::{cleanup_session, ActiveSessions, Cleanup};
use completions::watch::StreamEvent;

fn s(text: &str) -> String {
    text.to_string()
}

fn request(prompt: &str, model: &str) -> ChatRequest {
    ChatRequest {
        prompt: s(prompt),
        thinking_enabled: false,
        search_enabled: false,
        model_type: s(model),
        files: vec![],
    }
}

fn chats() -> Completions {
    Completions::new(
        vec![s("default"), s("expert"), s("default"), s("unlimited")],
        vec![100, 10, 5],
    )
}

#[test]
fn limits_belong_to_the_first_model_of_a_name() {
    let c = chats();
    assert_eq!(c.input_character_limit_for("default"), 100);
    assert_eq!(c.input_character_limit_for("expert"), 10);
    assert_eq!(c.input_character_limit_for("unlimited"), 163_840);
    assert_eq!(c.input_character_limit_for("vision"), 163_840);
    assert_eq!(DEFAULT_CHARACTER_LIMIT, 163_840);
}

#[test]
fn three_quarters_are_sent_at_once() {
    let c = chats();
    assert_eq!(c.inline_characters("default"), 75);
    assert_eq!(c.inline_characters("expert"), 7);
    assert_eq!(c.inline_characters("vision"), 122_880);
    let c = Completions::new(vec![s("m"), s("n")], vec![u32::MAX, 1]);
    assert_eq!(c.inline_characters("m"), 3_221_225_471);
    assert_eq!(c.inline_characters("n"), 0);
}

#[test]
fn routes_depend_on_length_and_model() {
    let c = chats();
    assert_eq!(c.route(&request(&"字".repeat(75), "default")), Route::Direct);
    assert_eq!(c.route(&request(&"字".repeat(76), "default")), Route::HistoryFile);
    assert_eq!(c.route(&request(&"字".repeat(7), "expert")), Route::Direct);
    assert_eq!(c.route(&request(&"字".repeat(8), "expert")), Route::Segments);
}

#[test]
fn plans_follow_the_routes() {
    let c = chats();
    assert_eq!(
        c.v0_chat(&request("hi", "default")),
        Plan::Single { inline_prompt: s("hi"), history: s("") }
    );
    let prompt = format!("<｜User｜>{}\n<｜Assistant｜>", "x".repeat(80));
    let split = Plan::Single {
        inline_prompt: s("<｜Assistant｜>\n"),
        history: format!(
            "[file content end]\n\n<｜User｜>{}\n[file name]: IGNORE\n[file content begin]\n",
            "x".repeat(80)
        ),
    };
    let req = request(&prompt, "default");
    assert_eq!(c.v0_chat(&req), split);
    assert_eq!(c.v0_chat_oversized_file(&req), split);
    let req = request("12345678", "expert");
    assert_eq!(c.v0_chat(&req), Plan::Segments { chunk_size: 7 });
    assert_eq!(c.v0_chat_oversized_chunk(&req), Plan::Segments { chunk_size: 7 });
}

#[test]
fn single_request_is_tried_three_times() {
    let c = chats();
    let req = request("hi", "default");
    let plan = c.v0_chat(&req);
    let (mut run, mut action) = ChatRun::start(&req, "r", &plan);
    assert_eq!((MAX_ATTEMPTS, RETRY_DELAY_MS), (3, 500));
    for attempt in 0..3 {
        let wait_ms = if attempt == 0 { Some(30_000) } else { None };
        assert_eq!(action, RunAction::Do(ChatAction::AcquireAccount { wait_ms }));
        action = run.step(RunEvent::Done(ChatEvent::NoAccount));
        if attempt < 2 {
            assert_eq!(
                action,
                RunAction::TryAgain {
                    mark_error: None,
                    delete_session: None,
                    error: CoreError::Overloaded,
                    delay_ms: 500,
                }
            );
            action = run.step(RunEvent::Waited);
        }
    }
    assert_eq!(
        action,
        RunAction::Do(ChatAction::Fail {
            mark_error: None,
            delete_session: None,
            error: CoreError::Overloaded,
        })
    );
}

#[test]
fn second_attempt_may_succeed() {
    let c = chats();
    let req = request("hi", "default");
    let plan = c.v0_chat(&req);
    let (mut run, _) = ChatRun::start(&req, "r", &plan);
    let account = |n: &str| {
        RunEvent::Done(ChatEvent::Account { account_id: s(n), token: format!("t{}", n) })
    };
    run.step(account("1"));
    assert_eq!(
        run.step(RunEvent::Done(ChatEvent::CallFailed(CoreError::Stream(s("x"))))),
        RunAction::TryAgain {
            mark_error: Some(s("1")),
            delete_session: None,
            error: CoreError::Stream(s("x")),
            delay_ms: 500,
        }
    );
    run.step(RunEvent::Waited);
    run.step(account("2"));
    run.step(RunEvent::Done(ChatEvent::SessionCreated(s("ses"))));
    run.step(RunEvent::Done(ChatEvent::PowComputed(s("pow"))));
    run.step(RunEvent::Done(ChatEvent::StreamOpened));
    let bytes = b"event: ready\n\nevent: update_session\n\n".to_vec();
    assert_eq!(
        run.step(RunEvent::Done(ChatEvent::Stream(StreamEvent::Chunk(bytes.clone())))),
        RunAction::Do(ChatAction::Respond {
            session: ActiveSession { token: s("t2"), session_id: s("ses"), message_id: 2 },
            account_id: s("2"),
            replay: bytes,
        })
    );
}

#[test]
fn request_in_segments_is_tried_once() {
    let c = chats();
    let req = request("12345678", "expert");
    let plan = c.v0_chat(&req);
    let (mut run, _) = ChatRun::start(&req, "r", &plan);
    run.step(RunEvent::Done(ChatEvent::Account { account_id: s("a"), token: s("t") }));
    run.step(RunEvent::Done(ChatEvent::SessionCreated(s("ses"))));
    assert_eq!(
        run.step(RunEvent::Done(ChatEvent::CallFailed(CoreError::Overloaded))),
        RunAction::Do(ChatAction::Fail {
            mark_error: Some(s("a")),
            delete_session: Some((s("t"), s("ses"))),
            error: CoreError::Overloaded,
        })
    );
}

fn session(id: &str, message_id: i64) -> ActiveSession {
    ActiveSession { token: format!("tok-{}", id), session_id: s(id), message_id }
}

fn stopped(id: &str, message_id: i64) -> Cleanup {
    Cleanup {
        token: format!("tok-{}", id),
        session_id: s(id),
        stop: Some(StopStreamPayload { chat_session_id: s(id), message_id }),
    }
}

fn guarded(id: &str, message_id: i64) -> GuardedStream<&'static str, u8, u8, ()> {
    GuardedStream::new("stream", 1, 2, format!("tok-{}", id), s(id), message_id, ())
}

#[test]
fn sessions_are_kept_by_id() {
    let mut list = ActiveSessions::new();
    list.insert(session("a", 1));
    list.insert(session("b", 2));
    list.insert(session("a", 3));
    list.remove("c");
    assert_eq!(list.drain(), [stopped("a", 3), stopped("b", 2)]);
    assert!(list.drain().is_empty());
    list.insert(session("a", 1));
    list.insert(session("b", 2));
    list.insert(session("c", 3));
    list.remove("b");
    assert_eq!(list.drain(), [stopped("a", 1), stopped("c", 3)]);
}

#[test]
fn unfinished_response_is_stopped_first() {
    assert_eq!(cleanup_session("tok-a", "a", 7, false), stopped("a", 7));
    assert_eq!(
        cleanup_session("tok-a", "a", 7, true),
        Cleanup { token: s("tok-a"), session_id: s("a"), stop: None }
    );
}

#[test]
fn released_response_leaves_the_list() {
    let mut c = chats();
    c.register(session("a", 1));
    c.register(session("b", 2));
    assert_eq!(c.release(&guarded("a", 1)), stopped("a", 1));
    assert_eq!(c.shutdown(), [stopped("b", 2)]);
    assert!(c.shutdown().is_empty());
}

#[test]
fn guarded_stream_notes_its_end() {
    let mut g = guarded("a", 1);
    assert!(!g.finished);
    assert_eq!(g.poll_next::<u8>(Polled::Pending), Polled::Pending);
    assert_eq!(g.poll_next(Polled::Item(5u8)), Polled::Item(5));
    assert_eq!(
        g.poll_next::<u8>(Polled::Failed(s("reset"))),
        Polled::Failed(CoreError::Stream(s("reset")))
    );
    assert!(!g.finished);
    assert_eq!(g.poll_next::<u8>(Polled::End), Polled::End);
    assert!(g.finished);
    let mut list = ActiveSessions::new();
    assert_eq!(g.release(&mut list).stop, None);
    assert_eq!((g.stream, g.guard, g.client), ("stream", 1, 2));
}

#[test]
fn response_names_its_account() {
    let response = ChatResponse { stream: guarded("a", 1), account_id: s("acc") };
    assert_eq!(response.account_id, "acc");
    assert_eq!(response.stream.session_id, "a");
}
