//! What each call of a run carries, told by the request and by the events alone.
use crate::action::{ActionText, EventText};
use crate::direct::{account_action, direct_awaits, direct_start, DirectPhase};
use crate::error::ErrorText;
use crate::outside::lossy_text;
use crate::request::{FileText, RequestText};
use crate::run_laws::{
    account_token, completions, created_session, direct_accepts, direct_trace,
    lemma_direct_invariant, lemma_segmented_invariant, received, segmented_accepts,
    segmented_trace, upload_failed, uploaded_files,
};
use crate::segmented::{segmented_awaits, segmented_start, SegmentedPhase};
use crate::sse::{
    business_error_in, hint_error, json_error, looks_like_json, ready_ids, two_events,
};
use crate::text::{decimal, split_on};
use crate::watch::{
    blank_line, natural_scan, segment_label, stream_events, ScanText, StreamText,
};
use vstd::prelude::*;
use vstd::utf8::encode_utf8;

verus! {

/// The account that was taken last.
pub open spec fn account_name(events: Seq<EventText>) -> Seq<char>
    decreases events.len(),
{
    if events.len() == 0 {
        seq![]
    } else {
        match events.last() {
            EventText::Account { account_id, .. } => account_id,
            _ => account_name(events.drop_last()),
        }
    }
}

/// The text that came from the stream that was opened last, each piece decoded by itself.
pub open spec fn received_text(events: Seq<EventText>) -> Seq<char>
    decreases events.len(),
{
    if events.len() == 0 {
        seq![]
    } else {
        let before = received_text(events.drop_last());
        match events.last() {
            EventText::StreamOpened => seq![],
            EventText::Stream(StreamText::Chunk(bytes)) => before + lossy_text(bytes),
            _ => before,
        }
    }
}

/// The files that actions ask to be uploaded, in order.
pub open spec fn uploads(actions: Seq<ActionText>) -> Seq<FileText>
    decreases actions.len(),
{
    if actions.len() == 0 {
        seq![]
    } else {
        let before = uploads(actions.drop_last());
        match actions.last() {
            ActionText::UploadFile { filename, content_type, content, .. } => before.push(
                FileText { filename, content, content_type },
            ),
            _ => before,
        }
    }
}

/// The files that belong to a request: its history, where there is any, and then its own, as they
/// are.
pub open spec fn files_of(req: RequestText, history: Seq<char>) -> Seq<FileText> {
    (if history.len() > 0 {
        seq![
            FileText {
                filename: "EMPTY.txt"@,
                content: encode_utf8(history),
                content_type: "text/plain"@,
            },
        ]
    } else {
        seq![]
    }) + req.files
}

/// Whether an event answers an action.
pub open spec fn answers(action: ActionText, event: EventText) -> bool {
    match action {
        ActionText::AcquireAccount { .. } => event is NoAccount || event is Account,
        ActionText::CreateSession { .. } => event is SessionCreated || event is CallFailed,
        ActionText::UploadFile { .. } => event is Uploaded || event is UploadFailed,
        ActionText::ComputePow { .. } => event is PowComputed || event is CallFailed,
        ActionText::Complete { .. } => event is StreamOpened || event is CallFailed,
        ActionText::ReadStream => event is Stream,
        ActionText::Fail { .. } => false,
        ActionText::Respond { .. } => false,
    }
}

/// The action that was given last: at first, to take an account.
pub open spec fn last_action(actions: Seq<ActionText>) -> ActionText {
    if actions.len() == 0 {
        ActionText::AcquireAccount { wait_ms: None }
    } else {
        actions.last()
    }
}

/// The first attempt waits half a minute for an account, a later one does not wait.
pub proof fn law_first_attempt_waits(first_try: bool)
    ensures
        account_action(first_try) == (ActionText::AcquireAccount {
            wait_ms: if first_try {
                Some(30_000u64)
            } else {
                None
            },
        }),
{
}

spec fn direct_calls(
    req: RequestText,
    inline_prompt: Seq<char>,
    history: Seq<char>,
    events: Seq<EventText>,
) -> bool {
    let (s, actions) = direct_trace(direct_start(req, inline_prompt, history), events);
    let all = files_of(req, history);
    let sent = uploads(actions);
    let own = if history.len() > 0 {
        1int
    } else {
        0int
    };
    &&& s.work.account_id == account_name(events)
    &&& s.opening.text == received_text(events)
    &&& sent.len() <= all.len()
    &&& sent == all.take(sent.len() as int)
    &&& s.phase == DirectPhase::Account || s.phase == DirectPhase::Session ==> sent.len() == 0
    &&& s.phase == DirectPhase::History ==> sent.len() == 1 && own == 1
    &&& s.phase == DirectPhase::File ==> sent.len() == own + s.file + 1
    &&& s.phase == DirectPhase::Pow || s.phase == DirectPhase::Completion || s.phase
        == DirectPhase::Opening ==> sent.len() == all.len()
    &&& s.phase != DirectPhase::Opening && s.phase != DirectPhase::Ended ==> received_text(events)
        == Seq::<char>::empty()
    &&& match last_action(actions) {
        ActionText::AcquireAccount { .. } => s.phase == DirectPhase::Account,
        ActionText::CreateSession { .. } => s.phase == DirectPhase::Session,
        ActionText::UploadFile { .. } => s.phase == DirectPhase::History || s.phase
            == DirectPhase::File,
        ActionText::ComputePow { .. } => s.phase == DirectPhase::Pow,
        ActionText::Complete { .. } => s.phase == DirectPhase::Completion,
        ActionText::ReadStream => s.phase == DirectPhase::Opening,
        _ => s.phase == DirectPhase::Ended,
    }
}

proof fn lemma_direct_calls(
    req: RequestText,
    inline_prompt: Seq<char>,
    history: Seq<char>,
    events: Seq<EventText>,
)
    requires
        direct_accepts(direct_start(req, inline_prompt, history), events),
    ensures
        direct_calls(req, inline_prompt, history, events),
    decreases events.len(),
{
    let start = direct_start(req, inline_prompt, history);
    let all = files_of(req, history);
    let (s2, a2) = direct_trace(start, events);
    lemma_direct_invariant(start, events);
    if events.len() == 0 {
        assert(uploads(a2) =~= all.take(0));
    } else {
        let front = events.drop_last();
        lemma_direct_calls(req, inline_prompt, history, front);
        lemma_direct_invariant(start, front);
        let (s1, a1) = direct_trace(start, front);
        assert(a2.drop_last() =~= a1);
        let n = uploads(a1).len() as int;
        if a2.last() is UploadFile {
            assert(uploads(a2).last() == all[n]);
            assert(uploads(a2) =~= all.take(n + 1));
        }
        assert(received_text(front) + Seq::<char>::empty() =~= received_text(front));
    }
}

/// An attempt waits for the answer to the action that it gave last, and for nothing else.
pub proof fn law_attempt_waits_for_the_answer(
    req: RequestText,
    inline_prompt: Seq<char>,
    history: Seq<char>,
    events: Seq<EventText>,
    event: EventText,
)
    requires
        direct_accepts(direct_start(req, inline_prompt, history), events),
    ensures
        ({
            let (s, actions) = direct_trace(direct_start(req, inline_prompt, history), events);
            direct_awaits(s, event) <==> answers(last_action(actions), event)
        }),
{
    lemma_direct_calls(req, inline_prompt, history, events);
}

/// The history and the files of a request are uploaded in order, each once, under its own name and
/// type and with its own content. A completion is started only when all of them have been.
pub proof fn law_files_are_uploaded_as_they_are(
    req: RequestText,
    inline_prompt: Seq<char>,
    history: Seq<char>,
    events: Seq<EventText>,
)
    requires
        direct_accepts(direct_start(req, inline_prompt, history), events),
        events.len() > 0,
    ensures
        ({
            let actions = direct_trace(direct_start(req, inline_prompt, history), events).1;
            let all = files_of(req, history);
            let sent = uploads(actions);
            &&& sent.len() <= all.len()
            &&& forall|i: int| 0 <= i < sent.len() ==> #[trigger] sent[i] == all[i]
            &&& actions.last() is ComputePow || actions.last() is Complete || actions.last()
                is Respond ==> sent.len() == all.len()
        }),
{
    lemma_direct_calls(req, inline_prompt, history, events);
    lemma_direct_calls(req, inline_prompt, history, events.drop_last());
    let start = direct_start(req, inline_prompt, history);
    assert(direct_trace(start, events).1.drop_last() =~= direct_trace(
        start,
        events.drop_last(),
    ).1);
}

/// Every call is made with the token of the account, and a completion carries what the request
/// asks for: its model, its features, the prompt, and no parent.
pub proof fn law_direct_calls_carry_the_request(
    req: RequestText,
    inline_prompt: Seq<char>,
    history: Seq<char>,
    events: Seq<EventText>,
)
    requires
        direct_accepts(direct_start(req, inline_prompt, history), events),
        events.len() > 0,
    ensures
        match direct_trace(direct_start(req, inline_prompt, history), events).1.last() {
            ActionText::AcquireAccount { .. } => false,
            ActionText::CreateSession { token } => token == account_token(events),
            ActionText::UploadFile { token, .. } => token == account_token(events),
            ActionText::ComputePow { token, target_path } => {
                &&& token == account_token(events)
                &&& target_path == "/api/v0/chat/completion"@
            },
            ActionText::Complete { token, pow_header, payload } => {
                &&& token == account_token(events)
                &&& events.last() == EventText::PowComputed(pow_header)
                &&& payload.chat_session_id == created_session(events)
                &&& payload.parent_message_id is None
                &&& payload.model_type == req.model_type
                &&& payload.thinking_enabled == req.thinking_enabled
                &&& payload.search_enabled == req.search_enabled
                &&& !payload.preempt
                &&& payload.ref_file_ids == uploaded_files(events)
                &&& payload.prompt == if upload_failed(events) {
                    req.prompt
                } else {
                    inline_prompt
                }
            },
            ActionText::Respond { session, account_id, replay } => {
                &&& session.token == account_token(events)
                &&& session.session_id == created_session(events)
                &&& account_id == account_name(events)
                &&& replay == received(events)
                &&& two_events(received_text(events)) matches Some((first, _))
                &&& session.message_id == ready_ids(first).1
            },
            ActionText::ReadStream => true,
            ActionText::Fail { .. } => true,
        },
{
    let start = direct_start(req, inline_prompt, history);
    lemma_direct_calls(req, inline_prompt, history, events);
    lemma_direct_invariant(start, events);
    lemma_direct_calls(req, inline_prompt, history, events.drop_last());
    lemma_direct_invariant(start, events.drop_last());
}

/// What an attempt does next, event by event: it goes on from the account to the session, to the
/// uploads, to the proof of work and to the completion, and then reads until the opening of the
/// response is there.
pub proof fn law_direct_run_goes_on(
    req: RequestText,
    inline_prompt: Seq<char>,
    history: Seq<char>,
    events: Seq<EventText>,
)
    requires
        direct_accepts(direct_start(req, inline_prompt, history), events),
        events.len() > 0,
    ensures
        ({
            let start = direct_start(req, inline_prompt, history);
            let sent = uploads(direct_trace(start, events.drop_last()).1).len();
            let action = direct_trace(start, events).1.last();
            let next = if sent < files_of(req, history).len() {
                action is UploadFile
            } else {
                action is ComputePow
            };
            match events.last() {
                EventText::NoAccount => action is Fail,
                EventText::Account { .. } => action is CreateSession,
                EventText::SessionCreated(_) => next,
                EventText::Uploaded(_) => next,
                EventText::UploadFailed(_) => if history.len() > 0 && sent == 1 {
                    next
                } else {
                    action is Fail
                },
                EventText::PowComputed(_) => action is Complete,
                EventText::StreamOpened => action is ReadStream,
                EventText::Stream(StreamText::Chunk(_)) => match two_events(
                    received_text(events),
                ) {
                    None => action is ReadStream,
                    Some((_, second)) => if hint_error(second) is Some {
                        action is Fail
                    } else {
                        action is Respond
                    },
                },
                EventText::Stream(_) => action is Fail,
                EventText::CallFailed(_) => action is Fail,
            }
        }),
{
    let start = direct_start(req, inline_prompt, history);
    lemma_direct_calls(req, inline_prompt, history, events);
    lemma_direct_calls(req, inline_prompt, history, events.drop_last());
    lemma_direct_invariant(start, events.drop_last());
}

/// The error that ended the opening of a response, and whether the account is to blame for it,
/// where the stream gave this text and these bytes before its last event.
pub open spec fn opening_failure(
    text: Seq<char>,
    bytes: Seq<u8>,
    event: StreamText,
    json_errors: bool,
    error: ErrorText,
    blamed: bool,
) -> bool {
    let raw = lossy_text(bytes);
    match event {
        StreamText::Chunk(_) => {
            &&& two_events(text) matches Some((_, second))
            &&& hint_error(second) == Some(error)
            &&& blamed == (error is Overloaded)
        },
        StreamText::Failed(message) => error == ErrorText::Stream(message) && !blamed,
        StreamText::End => if business_error_in(raw) is Some {
            error == business_error_in(raw)->0 && blamed
        } else if json_errors && looks_like_json(raw) {
            error == json_error(raw) && blamed
        } else {
            error == ErrorText::Stream(
                "空 SSE 流 (已收到 "@ + decimal(bytes.len() as int) + " 字节)"@,
            ) && !blamed
        },
    }
}

/// Why an attempt fails, and whether the account is marked: without an account it is overloaded; a
/// failed call is the fault of the account; a file that cannot be uploaded is named; and the opening
/// of the response tells the rest.
pub proof fn law_direct_failure_tells_why(
    req: RequestText,
    inline_prompt: Seq<char>,
    history: Seq<char>,
    events: Seq<EventText>,
)
    requires
        direct_accepts(direct_start(req, inline_prompt, history), events),
        events.len() > 0,
    ensures
        ({
            let start = direct_start(req, inline_prompt, history);
            let sent = uploads(direct_trace(start, events.drop_last()).1);
            direct_trace(start, events).1.last() matches ActionText::Fail {
                mark_error,
                error,
                ..
            } ==> {
                &&& mark_error is Some ==> mark_error == Some(account_name(events))
                &&& match events.last() {
                    EventText::NoAccount => error == ErrorText::Overloaded && mark_error is None,
                    EventText::CallFailed(e) => error == e && mark_error is Some,
                    EventText::UploadFailed(reason) => {
                        &&& sent.len() > 0
                        &&& error == ErrorText::ProviderError(
                            "外部文件上传失败 ("@ + sent.last().filename + "): "@ + reason,
                        )
                        &&& mark_error is None
                    },
                    EventText::Stream(event) => opening_failure(
                        received_text(events),
                        received(events),
                        event,
                        false,
                        error,
                        mark_error is Some,
                    ),
                    _ => false,
                }
            }
        }),
{
    let start = direct_start(req, inline_prompt, history);
    let front = events.drop_last();
    lemma_direct_calls(req, inline_prompt, history, events);
    lemma_direct_calls(req, inline_prompt, history, front);
    lemma_direct_invariant(start, events);
    lemma_direct_invariant(start, front);
    let (s1, a1) = direct_trace(start, front);
    if events.last() is UploadFailed && s1.phase == DirectPhase::File {
        let sent = uploads(a1);
        let all = files_of(req, history);
        assert(sent.last() == all[sent.len() - 1]);
        assert(all[sent.len() - 1] == req.files[s1.file]);
    }
}

spec fn segmented_calls(
    req: RequestText,
    request_id: Seq<char>,
    chunks: Seq<Seq<char>>,
    events: Seq<EventText>,
) -> bool {
    let (s, actions) = segmented_trace(segmented_start(req, request_id, chunks), events);
    &&& s.work.account_id == account_name(events)
    &&& s.work.token == account_token(events)
    &&& s.phase == SegmentedPhase::Opening ==> s.opening.text == received_text(events)
    &&& s.phase != SegmentedPhase::Opening && s.phase != SegmentedPhase::Ended ==> s.opening.text
        == Seq::<char>::empty()
    &&& s.phase == SegmentedPhase::Segment ==> {
        let label = segment_label(request_id, s.index + 1, chunks.len() - 1);
        &&& s.watch.buf == received(events)
        &&& s.watch.label == label
        &&& natural_scan(stream_events(received(events)), None, label) == ScanText::Running(
            s.watch.ready,
        )
    }
    &&& match last_action(actions) {
        ActionText::AcquireAccount { .. } => s.phase == SegmentedPhase::Account,
        ActionText::CreateSession { .. } => s.phase == SegmentedPhase::Session,
        ActionText::UploadFile { .. } => false,
        ActionText::ComputePow { .. } => s.phase == SegmentedPhase::Pow,
        ActionText::Complete { .. } => s.phase == SegmentedPhase::Completion,
        ActionText::ReadStream => s.phase == SegmentedPhase::Segment || s.phase
            == SegmentedPhase::Opening,
        _ => s.phase == SegmentedPhase::Ended,
    }
}

proof fn lemma_segmented_calls(
    req: RequestText,
    request_id: Seq<char>,
    chunks: Seq<Seq<char>>,
    events: Seq<EventText>,
)
    requires
        chunks.len() > 0,
        segmented_accepts(segmented_start(req, request_id, chunks), events),
    ensures
        segmented_calls(req, request_id, chunks, events),
    decreases events.len(),
{
    let start = segmented_start(req, request_id, chunks);
    lemma_segmented_invariant(start, events);
    if events.len() > 0 {
        let front = events.drop_last();
        lemma_segmented_calls(req, request_id, chunks, front);
        lemma_segmented_invariant(start, front);
        let none: Seq<u8> = seq![];
        assert(stream_events(none) =~= seq![]) by {
            assert(split_on(none, blank_line()) =~= seq![none]);
        }
        assert(received(front) + none =~= received(front));
        assert(received_text(front) + Seq::<char>::empty() =~= received_text(front));
    }
}

/// A run waits for the answer to the action that it gave last, and for nothing else.
pub proof fn law_segments_wait_for_the_answer(
    req: RequestText,
    request_id: Seq<char>,
    chunks: Seq<Seq<char>>,
    events: Seq<EventText>,
    event: EventText,
)
    requires
        chunks.len() > 0,
        segmented_accepts(segmented_start(req, request_id, chunks), events),
    ensures
        ({
            let (s, actions) = segmented_trace(segmented_start(req, request_id, chunks), events);
            segmented_awaits(s, event) <==> answers(last_action(actions), event)
        }),
{
    lemma_segmented_calls(req, request_id, chunks, events);
}

/// Every call is made with the token of the account, and the response belongs to the message that
/// the opening of the last stream names.
pub proof fn law_segmented_calls_carry_the_request(
    req: RequestText,
    request_id: Seq<char>,
    chunks: Seq<Seq<char>>,
    events: Seq<EventText>,
)
    requires
        chunks.len() > 0,
        segmented_accepts(segmented_start(req, request_id, chunks), events),
        events.len() > 0,
    ensures
        match segmented_trace(segmented_start(req, request_id, chunks), events).1.last() {
            ActionText::AcquireAccount { .. } => false,
            ActionText::UploadFile { .. } => false,
            ActionText::CreateSession { token } => token == account_token(events),
            ActionText::ComputePow { token, target_path } => {
                &&& token == account_token(events)
                &&& target_path == "/api/v0/chat/completion"@
            },
            ActionText::Complete { token, pow_header, .. } => {
                &&& token == account_token(events)
                &&& events.last() == EventText::PowComputed(pow_header)
            },
            ActionText::Respond { session, account_id, replay } => {
                &&& session.token == account_token(events)
                &&& session.session_id == created_session(events)
                &&& account_id == account_name(events)
                &&& replay == received(events)
                &&& two_events(received_text(events)) matches Some((first, _))
                &&& session.message_id == ready_ids(first).1
            },
            ActionText::ReadStream => true,
            ActionText::Fail { .. } => true,
        },
{
    let start = segmented_start(req, request_id, chunks);
    lemma_segmented_calls(req, request_id, chunks, events);
    lemma_segmented_calls(req, request_id, chunks, events.drop_last());
    lemma_segmented_invariant(start, events);
    lemma_segmented_invariant(start, events.drop_last());
}

/// What a run in segments does next, event by event. While segments are left, the stream of a
/// segment is read until the model has finished, and then the next one is sent; the stream of the
/// last one is read until the opening of the response is there.
pub proof fn law_segmented_run_goes_on(
    req: RequestText,
    request_id: Seq<char>,
    chunks: Seq<Seq<char>>,
    events: Seq<EventText>,
)
    requires
        chunks.len() > 0,
        segmented_accepts(segmented_start(req, request_id, chunks), events),
        events.len() > 0,
    ensures
        ({
            let start = segmented_start(req, request_id, chunks);
            let sent = completions(segmented_trace(start, events.drop_last()).1).len() as int;
            let action = segmented_trace(start, events).1.last();
            let label = segment_label(request_id, sent, chunks.len() - 1);
            let scan = natural_scan(stream_events(received(events)), None, label);
            match events.last() {
                EventText::NoAccount => action is Fail,
                EventText::Account { .. } => action is CreateSession,
                EventText::SessionCreated(_) => action is ComputePow,
                EventText::PowComputed(_) => action is Complete,
                EventText::StreamOpened => action is ReadStream,
                EventText::Stream(event) => if sent < chunks.len() {
                    match event {
                        StreamText::Chunk(_) => match scan {
                            ScanText::Running(_) => action is ReadStream,
                            ScanText::Done(_) => action is ComputePow,
                            ScanText::Failed(_) => action is Fail,
                        },
                        StreamText::Failed(_) => action is Fail,
                        StreamText::End => if !looks_like_json(lossy_text(received(events)))
                            && scan is Running && scan->Running_0 is Some {
                            action is ComputePow
                        } else {
                            action is Fail
                        },
                    }
                } else {
                    match event {
                        StreamText::Chunk(_) => match two_events(received_text(events)) {
                            None => action is ReadStream,
                            Some((_, second)) => if hint_error(second) is Some {
                                action is Fail
                            } else {
                                action is Respond
                            },
                        },
                        _ => action is Fail,
                    }
                },
                EventText::CallFailed(_) => action is Fail,
                _ => false,
            }
        }),
{
    let start = segmented_start(req, request_id, chunks);
    let front = events.drop_last();
    lemma_segmented_calls(req, request_id, chunks, events);
    lemma_segmented_calls(req, request_id, chunks, front);
    lemma_segmented_invariant(start, events);
    lemma_segmented_invariant(start, front);
}

/// Why a run in segments fails, and whether the account is marked.
pub proof fn law_segmented_failure_tells_why(
    req: RequestText,
    request_id: Seq<char>,
    chunks: Seq<Seq<char>>,
    events: Seq<EventText>,
)
    requires
        chunks.len() > 0,
        segmented_accepts(segmented_start(req, request_id, chunks), events),
        events.len() > 0,
    ensures
        ({
            let start = segmented_start(req, request_id, chunks);
            let sent = completions(segmented_trace(start, events.drop_last()).1).len() as int;
            let label = segment_label(request_id, sent, chunks.len() - 1);
            let raw = lossy_text(received(events));
            segmented_trace(start, events).1.last() matches ActionText::Fail {
                mark_error,
                error,
                ..
            } ==> {
                &&& mark_error is Some ==> mark_error == Some(account_name(events))
                &&& match events.last() {
                    EventText::NoAccount => error == ErrorText::Overloaded && mark_error is None,
                    EventText::CallFailed(e) => error == e && mark_error is Some,
                    EventText::Stream(event) => if sent < chunks.len() {
                        &&& mark_error is None
                        &&& match event {
                            StreamText::Chunk(_) => natural_scan(
                                stream_events(received(events)),
                                None,
                                label,
                            ) == ScanText::Failed(error),
                            StreamText::Failed(message) => error == ErrorText::Stream(message),
                            StreamText::End => error == if looks_like_json(raw) {
                                json_error(raw)
                            } else {
                                ErrorText::Stream(
                                    label + " 自然结束前流断（已收 "@ + decimal(
                                        received(events).len() as int,
                                    ) + " 字节）"@,
                                )
                            },
                        }
                    } else {
                        opening_failure(
                            received_text(events),
                            received(events),
                            event,
                            true,
                            error,
                            mark_error is Some,
                        )
                    },
                    _ => false,
                }
            }
        }),
{
    let start = segmented_start(req, request_id, chunks);
    let front = events.drop_last();
    lemma_segmented_calls(req, request_id, chunks, events);
    lemma_segmented_calls(req, request_id, chunks, front);
    lemma_segmented_invariant(start, events);
    lemma_segmented_invariant(start, front);
}

} // verus!
