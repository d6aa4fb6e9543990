//! What holds of a whole request, whatever events it is given.
use crate::action::{ActionText, EventText};
use crate::call_laws::{
    answers, law_attempt_waits_for_the_answer, law_segments_wait_for_the_answer,
};
use crate::chat::{
    chat_awaits, chat_start, chat_step, AttemptText, ChatText, PlanText, RunActionText,
    RunEventText, RETRY_DELAY_MS,
};
use crate::completions::{plan_of, route_of, Route};
use crate::direct::{account_action, direct_start};
use crate::prompt::prompt_chunks;
use crate::prompt_laws::law_oversized_prompt_is_several_chunks;
use crate::request::RequestText;
use crate::run_laws::{
    created_session, direct_accepts, direct_trace, law_direct_completion_carries_everything,
    law_direct_response_is_complete, law_direct_run_has_one_session,
    law_failed_attempt_deletes_its_session, law_failed_segments_delete_their_session,
    law_segmented_response_is_complete, law_segments_are_sent_in_order, received,
    segmented_accepts, segmented_trace, session_to_delete,
};
use crate::segmented::segmented_start;
use vstd::prelude::*;

verus! {

/// Where events lead a request, and the actions that it answers them with.
pub open spec fn chat_trace(s: ChatText, events: Seq<RunEventText>) -> (
    ChatText,
    Seq<RunActionText>,
)
    decreases events.len(),
{
    if events.len() == 0 {
        (s, seq![])
    } else {
        let (s1, actions) = chat_trace(s, events.drop_last());
        let (s2, action) = chat_step(s1, events.last());
        (s2, actions.push(action))
    }
}

/// Whether every event answers the action before it.
pub open spec fn chat_accepts(s: ChatText, events: Seq<RunEventText>) -> bool
    decreases events.len(),
{
    events.len() == 0 || {
        &&& chat_accepts(s, events.drop_last())
        &&& chat_awaits(chat_trace(s, events.drop_last()).0, events.last())
    }
}

/// The events of the attempt at hand.
pub open spec fn attempt_events(events: Seq<RunEventText>) -> Seq<EventText>
    decreases events.len(),
{
    if events.len() == 0 {
        seq![]
    } else {
        match events.last() {
            RunEventText::Done(event) => attempt_events(events.drop_last()).push(event),
            RunEventText::Waited => seq![],
        }
    }
}

/// How often actions ask for another attempt.
pub open spec fn retries(actions: Seq<RunActionText>) -> int
    decreases actions.len(),
{
    if actions.len() == 0 {
        0
    } else {
        retries(actions.drop_last()) + if actions.last() is TryAgain {
            1int
        } else {
            0int
        }
    }
}

/// Whether the attempt at hand is where its own events lead it.
spec fn attempt_stands(
    req: RequestText,
    request_id: Seq<char>,
    plan: PlanText,
    run: AttemptText,
    events: Seq<EventText>,
) -> bool {
    match plan {
        PlanText::Single { inline_prompt, history } => {
            let start = direct_start(req, inline_prompt, history);
            direct_accepts(start, events) && run == AttemptText::Direct(
                direct_trace(start, events).0,
            )
        },
        PlanText::Segments { chunk_size } => {
            let start = segmented_start(req, request_id, prompt_chunks(req.prompt, chunk_size));
            segmented_accepts(start, events) && run == AttemptText::Segmented(
                segmented_trace(start, events).0,
            )
        },
    }
}

spec fn chat_invariant(
    req: RequestText,
    request_id: Seq<char>,
    plan: PlanText,
    events: Seq<RunEventText>,
) -> bool {
    let (s, actions) = chat_trace(chat_start(req, request_id, plan), events);
    &&& s.req == req
    &&& s.plan == plan
    &&& actions.len() == events.len()
    &&& 0 <= s.attempt < 3
    &&& plan is Segments ==> s.attempt == 0 && !s.waiting
    &&& retries(actions) == s.attempt
    &&& attempt_stands(req, request_id, plan, s.run, attempt_events(events))
}

proof fn lemma_chat_invariant(
    req: RequestText,
    request_id: Seq<char>,
    plan: PlanText,
    events: Seq<RunEventText>,
)
    requires
        chat_accepts(chat_start(req, request_id, plan), events),
    ensures
        chat_invariant(req, request_id, plan, events),
    decreases events.len(),
{
    if events.len() > 0 {
        let front = events.drop_last();
        lemma_chat_invariant(req, request_id, plan, front);
        let start = chat_start(req, request_id, plan);
        let (s1, a1) = chat_trace(start, front);
        let (s2, a2) = chat_trace(start, events);
        assert(a2.drop_last() =~= a1);
        let before = attempt_events(front);
        match events.last() {
            RunEventText::Done(event) => {
                assert(before.push(event).drop_last() =~= before);
                assert(before.push(event).last() == event);
            },
            RunEventText::Waited => {},
        }
    }
}

/// The action that an attempt answers its last event with.
pub open spec fn attempt_action(
    req: RequestText,
    request_id: Seq<char>,
    plan: PlanText,
    events: Seq<EventText>,
) -> ActionText {
    match plan {
        PlanText::Single { inline_prompt, history } => direct_trace(
            direct_start(req, inline_prompt, history),
            events,
        ).1.last(),
        PlanText::Segments { chunk_size } => segmented_trace(
            segmented_start(req, request_id, prompt_chunks(req.prompt, chunk_size)),
            events,
        ).1.last(),
    }
}

/// A request that is sent as a single completion is tried three times before it fails; one that is
/// sent in segments is tried once. Every attempt after the first takes an account without waiting
/// for one.
pub proof fn law_three_attempts(
    req: RequestText,
    request_id: Seq<char>,
    plan: PlanText,
    events: Seq<RunEventText>,
)
    requires
        chat_accepts(chat_start(req, request_id, plan), events),
        events.len() > 0,
    ensures
        ({
            let actions = chat_trace(chat_start(req, request_id, plan), events).1;
            &&& retries(actions) <= 2
            &&& plan is Segments ==> retries(actions) == 0
            &&& actions.last() matches RunActionText::Do(action) ==> action is Fail && plan is Single
                ==> retries(actions) == 2
            &&& events.last() is Waited ==> actions.last() == RunActionText::Do(
                account_action(false),
            )
        }),
{
    lemma_chat_invariant(req, request_id, plan, events);
    lemma_chat_invariant(req, request_id, plan, events.drop_last());
    let start = chat_start(req, request_id, plan);
    assert(chat_trace(start, events).1.drop_last() =~= chat_trace(start, events.drop_last()).1);
}

/// The attempts of a request do not depend on each other: what a request does is what the attempt
/// at hand, given its own events only, does. The one exception is a failure that is followed by
/// another attempt, and that one is tidied up after as the attempt asks, and then waited after.
pub proof fn law_attempts_are_independent(
    req: RequestText,
    request_id: Seq<char>,
    plan: PlanText,
    events: Seq<RunEventText>,
)
    requires
        chat_accepts(chat_start(req, request_id, plan), events),
        events.len() > 0,
        events.last() is Done,
    ensures
        ({
            let own = attempt_action(req, request_id, plan, attempt_events(events));
            match chat_trace(chat_start(req, request_id, plan), events).1.last() {
                RunActionText::Do(action) => action == own,
                RunActionText::TryAgain { mark_error, delete_session, error, delay_ms } => {
                    &&& own == (ActionText::Fail { mark_error, delete_session, error })
                    &&& delay_ms == RETRY_DELAY_MS
                },
            }
        }),
{
    let front = events.drop_last();
    lemma_chat_invariant(req, request_id, plan, front);
    let event = events.last()->Done_0;
    let before = attempt_events(front);
    assert(before.push(event).drop_last() =~= before);
    assert(before.push(event).last() == event);
}

/// A request waits for half a second behind a failed attempt, and else for the answer to the action
/// that it gave last, and for nothing else.
pub proof fn law_request_waits_for_the_answer(
    req: RequestText,
    request_id: Seq<char>,
    plan: PlanText,
    events: Seq<RunEventText>,
    event: RunEventText,
)
    requires
        plan matches PlanText::Segments { chunk_size } ==> prompt_chunks(
            req.prompt,
            chunk_size,
        ).len() > 0,
        chat_accepts(chat_start(req, request_id, plan), events),
    ensures
        ({
            let (s, actions) = chat_trace(chat_start(req, request_id, plan), events);
            let last = if actions.len() == 0 {
                RunActionText::Do(ActionText::AcquireAccount { wait_ms: None })
            } else {
                actions.last()
            };
            &&& chat_awaits(s, event) <==> match (last, event) {
                (RunActionText::Do(action), RunEventText::Done(e)) => answers(action, e),
                (RunActionText::TryAgain { .. }, RunEventText::Waited) => true,
                _ => false,
            }
            &&& last matches RunActionText::TryAgain { delay_ms, .. } ==> delay_ms == 500
        }),
{
    let start = chat_start(req, request_id, plan);
    lemma_chat_invariant(req, request_id, plan, events);
    lemma_chat_waits(req, request_id, plan, events);
    let own = attempt_events(events);
    let (s, actions) = chat_trace(start, events);
    if let RunEventText::Done(e) = event {
        match plan {
            PlanText::Single { inline_prompt, history } => {
                law_attempt_waits_for_the_answer(req, inline_prompt, history, own, e);
            },
            PlanText::Segments { chunk_size } => {
                let chunks = prompt_chunks(req.prompt, chunk_size);
                law_segments_wait_for_the_answer(req, request_id, chunks, own, e);
            },
        }
    }
    if events.len() > 0 && events.last() is Done {
        law_attempts_are_independent(req, request_id, plan, events);
    }
    lemma_attempt_lengths(req, request_id, plan, own);
}

proof fn lemma_attempt_lengths(
    req: RequestText,
    request_id: Seq<char>,
    plan: PlanText,
    events: Seq<EventText>,
)
    ensures
        plan matches PlanText::Single { inline_prompt, history } ==> direct_trace(
            direct_start(req, inline_prompt, history),
            events,
        ).1.len() == events.len(),
        plan matches PlanText::Segments { chunk_size } ==> segmented_trace(
            segmented_start(req, request_id, prompt_chunks(req.prompt, chunk_size)),
            events,
        ).1.len() == events.len(),
    decreases events.len(),
{
    if events.len() > 0 {
        lemma_attempt_lengths(req, request_id, plan, events.drop_last());
    }
}

proof fn lemma_chat_waits(
    req: RequestText,
    request_id: Seq<char>,
    plan: PlanText,
    events: Seq<RunEventText>,
)
    requires
        chat_accepts(chat_start(req, request_id, plan), events),
    ensures
        ({
            let (s, actions) = chat_trace(chat_start(req, request_id, plan), events);
            s.waiting <==> actions.len() > 0 && actions.last() is TryAgain
        }),
    decreases events.len(),
{
    if events.len() > 0 {
        lemma_chat_waits(req, request_id, plan, events.drop_last());
    }
}

/// No byte is lost: the response to a request begins with all the bytes that have been read of its
/// stream, and it belongs to the session that was created for it.
pub proof fn law_chat_response_is_complete(
    req: RequestText,
    request_id: Seq<char>,
    plan: PlanText,
    events: Seq<RunEventText>,
)
    requires
        plan matches PlanText::Segments { chunk_size } ==> prompt_chunks(
            req.prompt,
            chunk_size,
        ).len() > 0,
        chat_accepts(chat_start(req, request_id, plan), events),
        events.len() > 0,
    ensures
        chat_trace(chat_start(req, request_id, plan), events).1.last() matches RunActionText::Do(
            ActionText::Respond { session, replay, .. },
        ) ==> {
            &&& replay == received(attempt_events(events))
            &&& session.session_id == created_session(attempt_events(events))
        },
{
    lemma_chat_invariant(req, request_id, plan, events);
    if events.last() is Done {
        law_attempts_are_independent(req, request_id, plan, events);
        let own = attempt_events(events);
        match plan {
            PlanText::Single { inline_prompt, history } => {
                law_direct_response_is_complete(req, inline_prompt, history, own);
                law_direct_run_has_one_session(req, inline_prompt, history, own);
            },
            PlanText::Segments { chunk_size } => {
                let chunks = prompt_chunks(req.prompt, chunk_size);
                law_segmented_response_is_complete(req, request_id, chunks, own);
                law_segments_are_sent_in_order(req, request_id, chunks, own);
            },
        }
    }
}

/// A request leaves no session behind where it fails, and none between its attempts: whenever an
/// attempt fails, the session that was created for it is deleted.
pub proof fn law_failures_leave_no_session(
    req: RequestText,
    request_id: Seq<char>,
    plan: PlanText,
    events: Seq<RunEventText>,
)
    requires
        plan matches PlanText::Segments { chunk_size } ==> prompt_chunks(
            req.prompt,
            chunk_size,
        ).len() > 0,
        chat_accepts(chat_start(req, request_id, plan), events),
        events.len() > 0,
    ensures
        match chat_trace(chat_start(req, request_id, plan), events).1.last() {
            RunActionText::Do(ActionText::Fail { delete_session, .. }) => delete_session
                == session_to_delete(attempt_events(events)),
            RunActionText::TryAgain { delete_session, .. } => delete_session == session_to_delete(
                attempt_events(events),
            ),
            _ => true,
        },
{
    lemma_chat_invariant(req, request_id, plan, events);
    if events.last() is Done {
        law_attempts_are_independent(req, request_id, plan, events);
        let own = attempt_events(events);
        match plan {
            PlanText::Single { inline_prompt, history } => {
                law_failed_attempt_deletes_its_session(req, inline_prompt, history, own);
            },
            PlanText::Segments { chunk_size } => {
                let chunks = prompt_chunks(req.prompt, chunk_size);
                law_failed_segments_delete_their_session(req, request_id, chunks, own);
            },
        }
    }
}

/// A prompt that fits is sent whole and at once, in every attempt, with the files of the request
/// and no other.
pub proof fn law_fitting_prompt_is_sent_whole(
    req: RequestText,
    request_id: Seq<char>,
    threshold: int,
    events: Seq<RunEventText>,
)
    requires
        req.prompt.len() <= threshold,
        chat_accepts(chat_start(req, request_id, plan_of(req, threshold)), events),
        events.len() > 0,
    ensures
        chat_trace(
            chat_start(req, request_id, plan_of(req, threshold)),
            events,
        ).1.last() matches RunActionText::Do(ActionText::Complete { payload, .. }) ==> {
            &&& payload.prompt == req.prompt
            &&& payload.ref_file_ids.len() == req.files.len()
        },
{
    let plan = plan_of(req, threshold);
    lemma_chat_invariant(req, request_id, plan, events);
    if events.last() is Done {
        law_attempts_are_independent(req, request_id, plan, events);
        law_direct_completion_carries_everything(
            req,
            req.prompt,
            seq![],
            attempt_events(events),
        );
    }
}

/// A prompt that is too long for the model `expert` is sent in two segments at least.
pub proof fn law_segments_plan_needs_segments(req: RequestText, threshold: int)
    requires
        threshold > 0,
        route_of(req.prompt.len() as int, threshold, req.model_type) == Route::Segments,
    ensures
        plan_of(req, threshold) == (PlanText::Segments { chunk_size: threshold }),
        prompt_chunks(req.prompt, threshold).len() >= 2,
{
    law_oversized_prompt_is_several_chunks(req.prompt, threshold);
}

} // verus!
