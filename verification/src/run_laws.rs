//! What holds of whole runs, whatever events they are given.
use crate::action::{opening_action, ActionText, EventText, WorkText};
use crate::direct::{direct_awaits, direct_start, direct_step, DirectPhase, DirectText};
use crate::error::ErrorText;
use crate::opening::{OpeningText, VerdictText};
use crate::prompt::{
    final_head, final_position, head_position, intermediate_head, prompt_chunks,
};
use crate::prompt_laws::{
    joined, law_chunks_hold_the_prompt, law_head_leaves_the_chunk,
};
use crate::request::{PayloadText, RequestText, SessionText};
use crate::segmented::{
    segment_prompt, segmented_awaits, segmented_start, segmented_step, SegmentedPhase,
    SegmentedText,
};
use crate::sessions::cleanup_of;
use crate::upload::{
    upload_awaits, upload_start, upload_step, UploadActionText, UploadEventText, UploadPhase,
    UploadText, UPLOAD_POLL_MAX_RETRIES,
};
use crate::watch::{natural_step, ProgressText, StreamText};
use vstd::prelude::*;

verus! {

/// The bytes that came from the stream that was opened last.
pub open spec fn received(events: Seq<EventText>) -> Seq<u8>
    decreases events.len(),
{
    if events.len() == 0 {
        seq![]
    } else {
        let before = received(events.drop_last());
        match events.last() {
            EventText::StreamOpened => seq![],
            EventText::Stream(StreamText::Chunk(bytes)) => before + bytes,
            _ => before,
        }
    }
}

/// The session that was created last.
pub open spec fn created_session(events: Seq<EventText>) -> Seq<char>
    decreases events.len(),
{
    if events.len() == 0 {
        seq![]
    } else {
        match events.last() {
            EventText::SessionCreated(id) => id,
            _ => created_session(events.drop_last()),
        }
    }
}

/// The files that were uploaded, in order.
pub open spec fn uploaded_files(events: Seq<EventText>) -> Seq<Seq<char>>
    decreases events.len(),
{
    if events.len() == 0 {
        seq![]
    } else {
        let before = uploaded_files(events.drop_last());
        match events.last() {
            EventText::Uploaded(id) => before.push(id),
            _ => before,
        }
    }
}

/// Whether a session was created.
pub open spec fn has_session(events: Seq<EventText>) -> bool {
    exists|i: int| 0 <= i < events.len() && (#[trigger] events[i]) is SessionCreated
}

/// The session that a failure after these events has to delete: the one that was created, if one
/// was, with the token of its account.
pub open spec fn session_to_delete(events: Seq<EventText>) -> Option<(Seq<char>, Seq<char>)> {
    if has_session(events) {
        Some((account_token(events), created_session(events)))
    } else {
        None
    }
}

proof fn lemma_has_session(events: Seq<EventText>)
    requires
        events.len() > 0,
    ensures
        has_session(events) == (events.last() is SessionCreated || has_session(
            events.drop_last(),
        )),
{
    let front = events.drop_last();
    if has_session(front) {
        let i = choose|i: int| 0 <= i < front.len() && (#[trigger] front[i]) is SessionCreated;
        assert(events[i] is SessionCreated);
    }
    if has_session(events) && !(events.last() is SessionCreated) {
        let i = choose|i: int| 0 <= i < events.len() && (#[trigger] events[i]) is SessionCreated;
        assert(front[i] is SessionCreated);
    }
}

/// The token of the account that was taken last.
pub open spec fn account_token(events: Seq<EventText>) -> Seq<char>
    decreases events.len(),
{
    if events.len() == 0 {
        seq![]
    } else {
        match events.last() {
            EventText::Account { token, .. } => token,
            _ => account_token(events.drop_last()),
        }
    }
}

/// Whether an upload failed.
pub open spec fn upload_failed(events: Seq<EventText>) -> bool
    decreases events.len(),
{
    events.len() > 0 && (events.last() is UploadFailed || upload_failed(events.drop_last()))
}

/// Whether an action ends a run.
pub open spec fn ends_run(action: ActionText) -> bool {
    action is Fail || action is Respond
}

/// How many sessions actions ask for.
pub open spec fn sessions_asked(actions: Seq<ActionText>) -> int
    decreases actions.len(),
{
    if actions.len() == 0 {
        0
    } else {
        sessions_asked(actions.drop_last()) + if actions.last() is CreateSession {
            1int
        } else {
            0int
        }
    }
}

/// The payloads of the completions that actions ask for, in order.
pub open spec fn completions(actions: Seq<ActionText>) -> Seq<PayloadText>
    decreases actions.len(),
{
    if actions.len() == 0 {
        seq![]
    } else {
        let before = completions(actions.drop_last());
        match actions.last() {
            ActionText::Complete { payload, .. } => before.push(payload),
            _ => before,
        }
    }
}

// A request that is sent as a single completion.

/// Where events lead an attempt, and the actions that it answers them with.
pub open spec fn direct_trace(s: DirectText, events: Seq<EventText>) -> (
    DirectText,
    Seq<ActionText>,
)
    decreases events.len(),
{
    if events.len() == 0 {
        (s, seq![])
    } else {
        let (s1, actions) = direct_trace(s, events.drop_last());
        let (s2, action) = direct_step(s1, events.last());
        (s2, actions.push(action))
    }
}

/// Whether every event answers the action before it.
pub open spec fn direct_accepts(s: DirectText, events: Seq<EventText>) -> bool
    decreases events.len(),
{
    events.len() == 0 || {
        &&& direct_accepts(s, events.drop_last())
        &&& direct_awaits(direct_trace(s, events.drop_last()).0, events.last())
    }
}

/// What holds of an attempt after any events.
pub open spec fn direct_invariant(start: DirectText, events: Seq<EventText>) -> bool {
    let (s, actions) = direct_trace(start, events);
    let early = s.phase == DirectPhase::Account || s.phase == DirectPhase::Session;
    let uploading = early || s.phase == DirectPhase::History;
    &&& s.req == start.req
    &&& s.inline_prompt == start.inline_prompt
    &&& s.history == start.history
    &&& actions.len() == events.len()
    &&& s.opening.buf == received(events)
    &&& s.work.session_id == created_session(events)
    &&& s.work.token == account_token(events)
    &&& s.ref_file_ids == uploaded_files(events)
    &&& sessions_asked(actions) == (if s.phase == DirectPhase::Account {
        0int
    } else if s.phase == DirectPhase::Ended && sessions_asked(actions) == 0 {
        0int
    } else {
        1int
    })
    &&& s.phase != DirectPhase::Ended ==> s.history_upload_failed == upload_failed(events)
    &&& s.phase == DirectPhase::Ended <==> (events.len() > 0 && ends_run(actions.last()))
    &&& s.phase != DirectPhase::Ended ==> has_session(events) == !early
    &&& uploading ==> uploaded_files(events).len() == 0 && !s.history_upload_failed
    &&& s.phase == DirectPhase::History ==> s.history.len() > 0
    &&& s.phase == DirectPhase::File ==> 0 <= s.file < s.req.files.len()
    &&& (s.phase == DirectPhase::File || s.phase == DirectPhase::Pow || s.phase
        == DirectPhase::Completion || s.phase == DirectPhase::Opening) ==> {
        &&& 0 <= s.file <= s.req.files.len()
        &&& s.phase != DirectPhase::File ==> s.file == s.req.files.len()
        &&& s.ref_file_ids.len() == s.file + (if s.history.len() > 0 && !s.history_upload_failed {
            1int
        } else {
            0int
        })
    }
    &&& (s.phase == DirectPhase::Completion || s.phase == DirectPhase::Opening || uploading
        || s.phase == DirectPhase::File || s.phase == DirectPhase::Pow || s.phase
        == DirectPhase::Ended)
    &&& s.phase != DirectPhase::Opening && s.phase != DirectPhase::Ended ==> received(events)
        == Seq::<u8>::empty()
}

/// Every attempt keeps to this.
pub proof fn lemma_direct_invariant(start: DirectText, events: Seq<EventText>)
    requires
        start == direct_start(start.req, start.inline_prompt, start.history),
        direct_accepts(start, events),
    ensures
        direct_invariant(start, events),
    decreases events.len(),
{
    if events.len() > 0 {
        let front = events.drop_last();
        lemma_direct_invariant(start, front);
        lemma_has_session(events);
        let (s1, a1) = direct_trace(start, front);
        let (s2, a2) = direct_trace(start, events);
        assert(a2.drop_last() =~= a1);
        assert(received(front) + Seq::<u8>::empty() =~= received(front));
    }
}

/// An attempt goes on until it fails or responds, and no longer.
pub proof fn law_direct_run_ends(
    req: RequestText,
    inline_prompt: Seq<char>,
    history: Seq<char>,
    events: Seq<EventText>,
)
    requires
        direct_accepts(direct_start(req, inline_prompt, history), events),
        events.len() > 0,
    ensures
        ({
            let (s, actions) = direct_trace(direct_start(req, inline_prompt, history), events);
            ends_run(actions.last()) <==> forall|e: EventText| !#[trigger] direct_awaits(s, e)
        }),
{
    let start = direct_start(req, inline_prompt, history);
    lemma_direct_invariant(start, events);
    let (s, actions) = direct_trace(start, events);
    if s.phase != DirectPhase::Ended {
        let e = match s.phase {
            DirectPhase::Account => EventText::NoAccount,
            DirectPhase::History => EventText::Uploaded(seq![]),
            DirectPhase::File => EventText::Uploaded(seq![]),
            DirectPhase::Opening => EventText::Stream(StreamText::End),
            _ => EventText::CallFailed(ErrorText::Overloaded),
        };
        assert(direct_awaits(s, e));
    }
}

/// An attempt asks for one session at most, and works in the one that it was given: completions
/// are started in it, and the response belongs to it.
pub proof fn law_direct_run_has_one_session(
    req: RequestText,
    inline_prompt: Seq<char>,
    history: Seq<char>,
    events: Seq<EventText>,
)
    requires
        direct_accepts(direct_start(req, inline_prompt, history), events),
        events.len() > 0,
    ensures
        ({
            let (s, actions) = direct_trace(direct_start(req, inline_prompt, history), events);
            &&& sessions_asked(actions) <= 1
            &&& actions.last() matches ActionText::Complete { payload, .. }
                ==> payload.chat_session_id == created_session(events)
            &&& actions.last() matches ActionText::Respond { session, .. } ==> session.session_id
                == created_session(events)
        }),
{
    let start = direct_start(req, inline_prompt, history);
    lemma_direct_invariant(start, events);
    lemma_direct_invariant(start, events.drop_last());
}

/// No byte is lost: a response begins with all the bytes that have been read of its stream.
pub proof fn law_direct_response_is_complete(
    req: RequestText,
    inline_prompt: Seq<char>,
    history: Seq<char>,
    events: Seq<EventText>,
)
    requires
        direct_accepts(direct_start(req, inline_prompt, history), events),
        events.len() > 0,
    ensures
        direct_trace(
            direct_start(req, inline_prompt, history),
            events,
        ).1.last() matches ActionText::Respond { replay, .. } ==> replay == received(events),
{
    let start = direct_start(req, inline_prompt, history);
    lemma_direct_invariant(start, events);
    lemma_direct_invariant(start, events.drop_last());
}

/// A completion refers to every file that was uploaded, in the order of the uploads, the history
/// first. Where the history could not be uploaded, the full prompt is sent in place of the short
/// one, and only the files of the request are referred to.
pub proof fn law_direct_completion_carries_everything(
    req: RequestText,
    inline_prompt: Seq<char>,
    history: Seq<char>,
    events: Seq<EventText>,
)
    requires
        direct_accepts(direct_start(req, inline_prompt, history), events),
        events.len() > 0,
    ensures
        direct_trace(
            direct_start(req, inline_prompt, history),
            events,
        ).1.last() matches ActionText::Complete { payload, .. } ==> {
            &&& payload.ref_file_ids == uploaded_files(events)
            &&& payload.ref_file_ids.len() == req.files.len() + (if history.len() > 0
                && !upload_failed(events) {
                1int
            } else {
                0int
            })
            &&& payload.prompt == (if upload_failed(events) {
                req.prompt
            } else {
                inline_prompt
            })
            &&& upload_failed(events) ==> history.len() > 0
        },
{
    let start = direct_start(req, inline_prompt, history);
    lemma_direct_invariant(start, events);
    lemma_direct_invariant(start, events.drop_last());
    lemma_direct_failed_upload(start, events);
}

proof fn lemma_direct_failed_upload(start: DirectText, events: Seq<EventText>)
    requires
        start == direct_start(start.req, start.inline_prompt, start.history),
        direct_accepts(start, events),
    ensures
        direct_trace(start, events).0.history_upload_failed ==> start.history.len() > 0,
    decreases events.len(),
{
    if events.len() > 0 {
        lemma_direct_failed_upload(start, events.drop_last());
        lemma_direct_invariant(start, events.drop_last());
    }
}

// A request whose prompt is sent in segments.

/// Where events lead a run, and the actions that it answers them with.
pub open spec fn segmented_trace(s: SegmentedText, events: Seq<EventText>) -> (
    SegmentedText,
    Seq<ActionText>,
)
    decreases events.len(),
{
    if events.len() == 0 {
        (s, seq![])
    } else {
        let (s1, actions) = segmented_trace(s, events.drop_last());
        let (s2, action) = segmented_step(s1, events.last());
        (s2, actions.push(action))
    }
}

/// Whether every event answers the action before it.
pub open spec fn segmented_accepts(s: SegmentedText, events: Seq<EventText>) -> bool
    decreases events.len(),
{
    events.len() == 0 || {
        &&& segmented_accepts(s, events.drop_last())
        &&& segmented_awaits(segmented_trace(s, events.drop_last()).0, events.last())
    }
}

/// What is sent for chunk `j` of a request.
pub open spec fn sends_chunk(
    req: RequestText,
    chunks: Seq<Seq<char>>,
    session_id: Seq<char>,
    payload: PayloadText,
    j: int,
) -> bool {
    &&& payload.prompt == segment_prompt(chunks, j)
    &&& payload.chat_session_id == session_id
    &&& payload.model_type == req.model_type
    &&& payload.parent_message_id is None <==> j == 0
    &&& payload.thinking_enabled == (j + 1 == chunks.len() && req.thinking_enabled)
    &&& payload.search_enabled == (j + 1 == chunks.len() && req.search_enabled)
    &&& payload.ref_file_ids.len() == 0
    &&& !payload.preempt
}

/// What holds of a run after any events.
pub open spec fn segmented_invariant(start: SegmentedText, events: Seq<EventText>) -> bool {
    let (s, actions) = segmented_trace(start, events);
    let sent = completions(actions);
    let early = s.phase == SegmentedPhase::Account || s.phase == SegmentedPhase::Session;
    &&& s.req == start.req
    &&& s.chunks == start.chunks
    &&& s.request_id == start.request_id
    &&& 0 <= s.index < s.chunks.len()
    &&& s.parent is None <==> s.index == 0
    &&& early ==> s.index == 0
    &&& s.phase == SegmentedPhase::Segment ==> s.index + 1 < s.chunks.len()
    &&& s.phase == SegmentedPhase::Opening ==> s.index + 1 == s.chunks.len()
    &&& actions.len() == events.len()
    &&& s.work.session_id == created_session(events)
    &&& s.work.token == account_token(events)
    &&& sessions_asked(actions) == (if s.phase == SegmentedPhase::Account {
        0int
    } else if s.phase == SegmentedPhase::Ended && sessions_asked(actions) == 0 {
        0int
    } else {
        1int
    })
    &&& s.phase == SegmentedPhase::Ended <==> (events.len() > 0 && ends_run(actions.last()))
    &&& s.phase != SegmentedPhase::Ended ==> has_session(events) == !early
    &&& (early || s.phase == SegmentedPhase::Pow) ==> sent.len() == s.index
    &&& (s.phase == SegmentedPhase::Completion || s.phase == SegmentedPhase::Segment || s.phase
        == SegmentedPhase::Opening) ==> sent.len() == s.index + 1
    &&& s.index <= sent.len() <= s.index + 1
    &&& forall|j: int|
        0 <= j < sent.len() ==> sends_chunk(
            s.req,
            s.chunks,
            s.work.session_id,
            #[trigger] sent[j],
            j,
        )
    &&& s.phase == SegmentedPhase::Opening ==> s.opening.buf == received(events)
    &&& s.phase != SegmentedPhase::Opening && s.phase != SegmentedPhase::Ended ==> s.opening.buf
        == Seq::<u8>::empty()
}

/// Every run keeps to this.
pub proof fn lemma_segmented_invariant(start: SegmentedText, events: Seq<EventText>)
    requires
        start == segmented_start(start.req, start.request_id, start.chunks),
        start.chunks.len() > 0,
        segmented_accepts(start, events),
    ensures
        segmented_invariant(start, events),
    decreases events.len(),
{
    if events.len() > 0 {
        let front = events.drop_last();
        lemma_segmented_invariant(start, front);
        lemma_has_session(events);
        let (s1, a1) = segmented_trace(start, front);
        let (s2, a2) = segmented_trace(start, events);
        assert(a2.drop_last() =~= a1);
        assert(received(front) + Seq::<u8>::empty() =~= received(front));
        let sent1 = completions(a1);
        let sent2 = completions(a2);
        assert forall|j: int| 0 <= j < sent2.len() implies sends_chunk(
            s2.req,
            s2.chunks,
            s2.work.session_id,
            #[trigger] sent2[j],
            j,
        ) by {
            if j < sent1.len() {
                assert(sent2[j] == sent1[j]);
            }
        }
    }
}

/// A run goes on until it fails or responds, and no longer.
pub proof fn law_segmented_run_ends(
    req: RequestText,
    request_id: Seq<char>,
    chunks: Seq<Seq<char>>,
    events: Seq<EventText>,
)
    requires
        chunks.len() > 0,
        segmented_accepts(segmented_start(req, request_id, chunks), events),
        events.len() > 0,
    ensures
        ({
            let (s, actions) = segmented_trace(segmented_start(req, request_id, chunks), events);
            ends_run(actions.last()) <==> forall|e: EventText| !#[trigger] segmented_awaits(s, e)
        }),
{
    let start = segmented_start(req, request_id, chunks);
    lemma_segmented_invariant(start, events);
    let (s, actions) = segmented_trace(start, events);
    if s.phase != SegmentedPhase::Ended {
        let e = match s.phase {
            SegmentedPhase::Account => EventText::NoAccount,
            SegmentedPhase::Segment => EventText::Stream(StreamText::End),
            SegmentedPhase::Opening => EventText::Stream(StreamText::End),
            _ => EventText::CallFailed(ErrorText::Overloaded),
        };
        assert(segmented_awaits(s, e));
    }
}

/// The segments are sent in order, each once and all into one session. Only the first has no
/// parent, and only the last uses the features that the request asks for. A run that responds has
/// sent all of them.
pub proof fn law_segments_are_sent_in_order(
    req: RequestText,
    request_id: Seq<char>,
    chunks: Seq<Seq<char>>,
    events: Seq<EventText>,
)
    requires
        chunks.len() > 0,
        segmented_accepts(segmented_start(req, request_id, chunks), events),
        events.len() > 0,
    ensures
        ({
            let (s, actions) = segmented_trace(segmented_start(req, request_id, chunks), events);
            let sent = completions(actions);
            &&& sessions_asked(actions) <= 1
            &&& sent.len() <= chunks.len()
            &&& forall|j: int|
                0 <= j < sent.len() ==> sends_chunk(
                    req,
                    chunks,
                    created_session(events),
                    #[trigger] sent[j],
                    j,
                )
            &&& actions.last() matches ActionText::Respond { session, .. } ==> sent.len()
                == chunks.len() && session.session_id == created_session(events)
        }),
{
    let start = segmented_start(req, request_id, chunks);
    lemma_segmented_invariant(start, events);
    lemma_segmented_invariant(start, events.drop_last());
    let (s1, a1) = segmented_trace(start, events.drop_last());
    let (s2, a2) = segmented_trace(start, events);
    assert(a2.drop_last() =~= a1);
}

/// No byte is lost: a response begins with all the bytes that have been read of its stream.
pub proof fn law_segmented_response_is_complete(
    req: RequestText,
    request_id: Seq<char>,
    chunks: Seq<Seq<char>>,
    events: Seq<EventText>,
)
    requires
        chunks.len() > 0,
        segmented_accepts(segmented_start(req, request_id, chunks), events),
        events.len() > 0,
    ensures
        segmented_trace(
            segmented_start(req, request_id, chunks),
            events,
        ).1.last() matches ActionText::Respond { replay, .. } ==> replay == received(events),
{
    let start = segmented_start(req, request_id, chunks);
    lemma_segmented_invariant(start, events);
    lemma_segmented_invariant(start, events.drop_last());
}

/// A segment continues the conversation where the one before it ended: its parent is the response
/// message of that segment.
pub proof fn law_parent_is_the_previous_response(
    s: SegmentedText,
    event: StreamText,
    pow_header: Seq<char>,
)
    requires
        s.phase == SegmentedPhase::Segment,
    ensures
        natural_step(s.watch, event).1 matches ProgressText::Done(id, _) ==> {
            let (s2, waits) = segmented_step(s, EventText::Stream(event));
            let (s3, sends) = segmented_step(s2, EventText::PowComputed(pow_header));
            &&& waits is ComputePow
            &&& sends matches ActionText::Complete { payload, .. }
            &&& payload.parent_message_id == Some(id)
            &&& payload.prompt == segment_prompt(s.chunks, s.index + 1)
        },
{
}

/// The segments hold the whole prompt: each has the note that names its place, without the note it
/// is a chunk, and the chunks put together in order are the prompt.
pub proof fn law_segments_carry_the_prompt(prompt: Seq<char>, size: int, j: int)
    requires
        0 <= j < prompt_chunks(prompt, size).len(),
    ensures
        ({
            let chunks = prompt_chunks(prompt, size);
            let total = chunks.len() as int;
            let sent = segment_prompt(chunks, j);
            let (at, head) = if j + 1 < total {
                (head_position(chunks[j]), intermediate_head(j + 1, total))
            } else if total > 1 {
                (final_position(chunks[j]), final_head(total))
            } else {
                (0, seq![])
            };
            &&& sent.subrange(at, at + head.len()) == head
            &&& sent.take(at) + sent.skip(at + head.len()) == chunks[j]
            &&& joined(chunks) == prompt
        }),
{
    let chunks = prompt_chunks(prompt, size);
    let total = chunks.len() as int;
    law_chunks_hold_the_prompt(prompt, size);
    law_head_leaves_the_chunk(
        chunks[j],
        head_position(chunks[j]),
        intermediate_head(j + 1, total),
    );
    law_head_leaves_the_chunk(chunks[j], final_position(chunks[j]), final_head(total));
    assert(chunks[j].take(0) + chunks[j].skip(0) =~= chunks[j]);
    assert(chunks[j].subrange(0, 0) =~= seq![]);
}

// What is tidied up.

/// A request that the provider turns down with a hint marks the account as faulty exactly where the
/// hint is a rate limit.
pub proof fn law_rate_limit_marks_the_account(w: WorkText, o: OpeningText, e: ErrorText)
    ensures
        opening_action(w, o, VerdictText::Refused(e)) == (ActionText::Fail {
            mark_error: if e == ErrorText::Overloaded {
                Some(w.account_id)
            } else {
                None
            },
            delete_session: Some((w.token, w.session_id)),
            error: e,
        }),
{
}

/// An attempt that fails leaves no session behind: however it fails, the session that was created
/// is deleted, and only where none was created is there nothing to delete.
pub proof fn law_failed_attempt_deletes_its_session(
    req: RequestText,
    inline_prompt: Seq<char>,
    history: Seq<char>,
    events: Seq<EventText>,
)
    requires
        direct_accepts(direct_start(req, inline_prompt, history), events),
        events.len() > 0,
    ensures
        direct_trace(
            direct_start(req, inline_prompt, history),
            events,
        ).1.last() matches ActionText::Fail { delete_session, .. } ==> delete_session
            == session_to_delete(events),
{
    let start = direct_start(req, inline_prompt, history);
    lemma_direct_invariant(start, events);
    lemma_direct_invariant(start, events.drop_last());
    lemma_has_session(events);
}

/// A run in segments that fails leaves no session behind: however it fails, the session that was
/// created is deleted, and only where none was created is there nothing to delete. A failed call
/// marks the account as faulty.
pub proof fn law_failed_segments_delete_their_session(
    req: RequestText,
    request_id: Seq<char>,
    chunks: Seq<Seq<char>>,
    events: Seq<EventText>,
)
    requires
        chunks.len() > 0,
        segmented_accepts(segmented_start(req, request_id, chunks), events),
        events.len() > 0,
    ensures
        segmented_trace(
            segmented_start(req, request_id, chunks),
            events,
        ).1.last() matches ActionText::Fail { mark_error, delete_session, .. } ==> {
            &&& delete_session == session_to_delete(events)
            &&& events.last() is CallFailed ==> mark_error is Some
        },
{
    let start = segmented_start(req, request_id, chunks);
    lemma_segmented_invariant(start, events);
    lemma_segmented_invariant(start, events.drop_last());
    lemma_has_session(events);
}

/// The session of a response that is passed on is deleted when the response is given up, and the
/// list of sessions is then what it was without that session.
pub proof fn law_response_session_is_tidied_up(
    sessions: Map<Seq<char>, SessionText>,
    session: SessionText,
    finished: bool,
)
    ensures
        sessions.insert(session.session_id, session).remove(session.session_id) == sessions.remove(
            session.session_id,
        ),
        cleanup_of(session, finished).session_id == session.session_id,
        cleanup_of(session, finished).token == session.token,
        cleanup_of(session, finished).stop is None <==> finished,
{
    assert(sessions.insert(session.session_id, session).remove(session.session_id)
        =~= sessions.remove(session.session_id));
}

// Uploads.

/// Where events lead an upload, and the actions that it answers them with.
pub open spec fn upload_trace(s: UploadText, events: Seq<UploadEventText>) -> (
    UploadText,
    Seq<UploadActionText>,
)
    decreases events.len(),
{
    if events.len() == 0 {
        (s, seq![])
    } else {
        let (s1, actions) = upload_trace(s, events.drop_last());
        let (s2, action) = upload_step(s1, events.last());
        (s2, actions.push(action))
    }
}

/// Whether every event answers the action before it.
pub open spec fn upload_accepts(s: UploadText, events: Seq<UploadEventText>) -> bool
    decreases events.len(),
{
    events.len() == 0 || {
        &&& upload_accepts(s, events.drop_last())
        &&& upload_awaits(upload_trace(s, events.drop_last()).0, events.last())
    }
}

/// How often actions look at the file.
pub open spec fn looks(actions: Seq<UploadActionText>) -> int
    decreases actions.len(),
{
    if actions.len() == 0 {
        0
    } else {
        looks(actions.drop_last()) + if actions.last() is FetchFile {
            1int
        } else {
            0int
        }
    }
}

/// The file that was uploaded.
pub open spec fn uploaded_file(events: Seq<UploadEventText>) -> Seq<char>
    decreases events.len(),
{
    if events.len() == 0 {
        seq![]
    } else {
        match events.last() {
            UploadEventText::Uploaded(id) => id,
            _ => uploaded_file(events.drop_last()),
        }
    }
}

spec fn upload_invariant(start: UploadText, events: Seq<UploadEventText>) -> bool {
    let (s, actions) = upload_trace(start, events);
    &&& s.file_id == uploaded_file(events)
    &&& 0 <= s.polls <= UPLOAD_POLL_MAX_RETRIES
    &&& s.phase != UploadPhase::Ended ==> s.polls < UPLOAD_POLL_MAX_RETRIES
    &&& (s.phase == UploadPhase::Pow || s.phase == UploadPhase::Upload) ==> looks(actions) == 0
        && s.polls == 0
    &&& (s.phase == UploadPhase::Fetch || s.phase == UploadPhase::Sleep) ==> looks(actions)
        == s.polls + 1
    &&& looks(actions) <= UPLOAD_POLL_MAX_RETRIES
    &&& actions.len() == events.len()
}

proof fn lemma_upload_invariant(start: UploadText, events: Seq<UploadEventText>)
    requires
        start == upload_start(start.token, start.filename, start.content_type, start.content),
        upload_accepts(start, events),
    ensures
        upload_invariant(start, events),
    decreases events.len(),
{
    if events.len() > 0 {
        let front = events.drop_last();
        lemma_upload_invariant(start, front);
        assert(upload_trace(start, events).1.drop_last() =~= upload_trace(start, front).1);
    }
}

/// A file is looked at thirty times at most. An upload succeeds only when the provider reports
/// success, and then gives the id of the file that was uploaded; it times out only after the
/// thirtieth look.
pub proof fn law_upload_is_patient_but_not_forever(
    token: Seq<char>,
    filename: Seq<char>,
    content_type: Seq<char>,
    content: Seq<u8>,
    events: Seq<UploadEventText>,
)
    requires
        upload_accepts(upload_start(token, filename, content_type, content), events),
        events.len() > 0,
    ensures
        ({
            let actions = upload_trace(
                upload_start(token, filename, content_type, content),
                events,
            ).1;
            &&& looks(actions) <= 30
            &&& actions.last() matches UploadActionText::Finish(Ok(id)) ==> {
                &&& id == uploaded_file(events)
                &&& events.last() matches UploadEventText::Fetched(Some(file))
                &&& file.status == "SUCCESS"@
            }
            &&& actions.last() is Finish && events.last() is Woke ==> looks(actions) == 30
        }),
{
    let start = upload_start(token, filename, content_type, content);
    lemma_upload_invariant(start, events);
    lemma_upload_invariant(start, events.drop_last());
    assert(upload_trace(start, events).1.drop_last() =~= upload_trace(
        start,
        events.drop_last(),
    ).1);
}

} // verus!
