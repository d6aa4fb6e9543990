//! What each call of an upload carries, told by the file and by the events alone.
use crate::error::ErrorText;
use crate::run_laws::{looks, upload_accepts, upload_trace, uploaded_file};
use crate::upload::{
    upload_awaits, upload_start, UploadActionText, UploadEventText, UploadPhase,
};
use vstd::prelude::*;

verus! {

/// Whether an event answers an action.
pub open spec fn answers_upload(action: UploadActionText, event: UploadEventText) -> bool {
    match action {
        UploadActionText::ComputePow { .. } => event is PowComputed || event is CallFailed,
        UploadActionText::Upload { .. } => event is Uploaded || event is CallFailed,
        UploadActionText::FetchFile { .. } => event is Fetched || event is CallFailed,
        UploadActionText::Sleep { .. } => event is Woke,
        UploadActionText::Finish(_) => false,
    }
}

/// The action that was given last: at first, to compute the proof of work.
pub open spec fn last_upload_action(actions: Seq<UploadActionText>) -> UploadActionText {
    if actions.len() == 0 {
        UploadActionText::ComputePow { token: seq![], target_path: seq![] }
    } else {
        actions.last()
    }
}

spec fn upload_calls(
    token: Seq<char>,
    filename: Seq<char>,
    content_type: Seq<char>,
    content: Seq<u8>,
    events: Seq<UploadEventText>,
) -> bool {
    let (s, actions) = upload_trace(upload_start(token, filename, content_type, content), events);
    &&& s.token == token
    &&& s.filename == filename
    &&& s.content_type == content_type
    &&& s.content == content
    &&& s.file_id == uploaded_file(events)
    &&& s.phase == UploadPhase::Pow || s.phase == UploadPhase::Upload ==> looks(actions) == 0
        && s.polls == 0
    &&& s.phase == UploadPhase::Fetch || s.phase == UploadPhase::Sleep ==> looks(actions)
        == s.polls + 1
    &&& match last_upload_action(actions) {
        UploadActionText::ComputePow { .. } => s.phase == UploadPhase::Pow,
        UploadActionText::Upload { .. } => s.phase == UploadPhase::Upload,
        UploadActionText::FetchFile { .. } => s.phase == UploadPhase::Fetch,
        UploadActionText::Sleep { .. } => s.phase == UploadPhase::Sleep,
        UploadActionText::Finish(_) => s.phase == UploadPhase::Ended,
    }
}

proof fn lemma_upload_calls(
    token: Seq<char>,
    filename: Seq<char>,
    content_type: Seq<char>,
    content: Seq<u8>,
    events: Seq<UploadEventText>,
)
    requires
        upload_accepts(upload_start(token, filename, content_type, content), events),
    ensures
        upload_calls(token, filename, content_type, content, events),
    decreases events.len(),
{
    if events.len() > 0 {
        let start = upload_start(token, filename, content_type, content);
        let front = events.drop_last();
        lemma_upload_calls(token, filename, content_type, content, front);
        assert(upload_trace(start, events).1.drop_last() =~= upload_trace(start, front).1);
    }
}

/// An upload waits for the answer to the action that it gave last, and for nothing else.
pub proof fn law_upload_waits_for_the_answer(
    token: Seq<char>,
    filename: Seq<char>,
    content_type: Seq<char>,
    content: Seq<u8>,
    events: Seq<UploadEventText>,
    event: UploadEventText,
)
    requires
        upload_accepts(upload_start(token, filename, content_type, content), events),
    ensures
        ({
            let (s, actions) = upload_trace(
                upload_start(token, filename, content_type, content),
                events,
            );
            upload_awaits(s, event) <==> answers_upload(last_upload_action(actions), event)
        }),
{
    lemma_upload_calls(token, filename, content_type, content, events);
}

/// What an upload does, event by event: the file is uploaded as it is, looked at every two seconds
/// until the provider has processed it or refused it, and given up after thirty looks.
pub proof fn law_upload_goes_on(
    token: Seq<char>,
    filename: Seq<char>,
    content_type: Seq<char>,
    content: Seq<u8>,
    events: Seq<UploadEventText>,
)
    requires
        upload_accepts(upload_start(token, filename, content_type, content), events),
        events.len() > 0,
    ensures
        ({
            let start = upload_start(token, filename, content_type, content);
            let before = looks(upload_trace(start, events.drop_last()).1);
            let action = upload_trace(start, events).1.last();
            let look = UploadActionText::FetchFile { token, file_id: uploaded_file(events) };
            let wait = UploadActionText::Sleep { millis: 2000u64 };
            match events.last() {
                UploadEventText::PowComputed(pow_header) => action == (UploadActionText::Upload {
                    token,
                    pow_header,
                    filename,
                    content_type,
                    content,
                }),
                UploadEventText::Uploaded(_) => action == look,
                UploadEventText::Fetched(None) => action == wait,
                UploadEventText::Fetched(Some(file)) => {
                    &&& file.status == "SUCCESS"@ ==> action == UploadActionText::Finish(
                        Ok(uploaded_file(events)),
                    )
                    &&& file.status == "FAILED"@ && file.status != "SUCCESS"@ ==> action
                        == UploadActionText::Finish(
                        Err(ErrorText::ProviderError("文件上传失败: "@ + file.file_name)),
                    )
                    &&& file.status != "SUCCESS"@ && file.status != "FAILED"@ ==> action == wait
                },
                UploadEventText::Woke => if before < 30 {
                    action == look
                } else {
                    action == UploadActionText::Finish(
                        Err(ErrorText::ProviderError("文件处理超时"@)),
                    )
                },
                UploadEventText::CallFailed(e) => action == UploadActionText::Finish(Err(e)),
            }
        }),
{
    lemma_upload_calls(token, filename, content_type, content, events);
    lemma_upload_calls(token, filename, content_type, content, events.drop_last());
}

} // verus!
