//! The opening of a response: its first two events, which say whether the response is on its way.
//!
//! The first event names the response message, the second may be a hint that the request was
//! turned down. All bytes are kept so that the response can be passed on from its beginning.
use crate::error::{CoreError, ErrorText};
use crate::outside::{lossy_text, text_lossy};
use crate::sse::{
    begins_with_brace, business_error_in, check_hint, find_business_error, hint_error, json_error,
    looks_like_json, parse_json_error, parse_ready_message_ids, ready_ids, split_two_events,
    two_events,
};
use crate::text::{decimal, push_count};
use crate::watch::{push_bytes, reads_utf8, StreamEvent, StreamText};
use vstd::prelude::*;
use vstd::string::*;
use vstd::utf8::{encode_utf8_decode_utf8, encode_utf8_valid_utf8};

verus! {

/// What the opening of a response amounts to.
#[derive(Debug, PartialEq, Eq)]
pub enum Verdict {
    /// More of the stream is needed.
    Pending,
    /// The response is on its way; this is its message.
    Ready(i64),
    /// The provider turned the request down with a hint.
    Refused(CoreError),
    /// The stream broke off or was none. The account is to blame where the flag is set.
    Broken(CoreError, bool),
}

/// What a verdict says.
pub enum VerdictText {
    Pending,
    Ready(i64),
    Refused(ErrorText),
    Broken(ErrorText, bool),
}

impl View for Verdict {
    type V = VerdictText;

    open spec fn view(&self) -> VerdictText {
        match self {
            Verdict::Pending => VerdictText::Pending,
            Verdict::Ready(id) => VerdictText::Ready(*id),
            Verdict::Refused(e) => VerdictText::Refused(e@),
            Verdict::Broken(e, blame) => VerdictText::Broken(e@, *blame),
        }
    }
}

/// What has been received of a response: its bytes, and their text taken piece by piece.
pub struct OpeningText {
    pub buf: Seq<u8>,
    pub text: Seq<char>,
}

/// What the text received so far amounts to: nothing until two events are complete.
pub open spec fn opening_verdict(text: Seq<char>) -> VerdictText {
    match two_events(text) {
        None => VerdictText::Pending,
        Some((first, second)) => match hint_error(second) {
            Some(e) => VerdictText::Refused(e),
            None => VerdictText::Ready(ready_ids(first).1),
        },
    }
}

/// Judges the text received so far.
pub fn judge_opening(text: &str) -> (r: Verdict)
    ensures
        r@ == opening_verdict(text@),
{
    match split_two_events(text) {
        None => Verdict::Pending,
        Some((first, second)) => {
            proof {
                encode_utf8_valid_utf8(first@);
                encode_utf8_decode_utf8(first@);
            }
            match check_hint(second) {
                Some(e) => Verdict::Refused(e),
                None => Verdict::Ready(parse_ready_message_ids(first.as_bytes()).1),
            }
        },
    }
}

/// What a stream amounts to that ended before its opening was complete: a business error blames
/// the account, and so does, where `json_errors` is set, any other JSON response.
pub open spec fn ended_verdict(raw: Seq<char>, received: int, json_errors: bool) -> VerdictText {
    match business_error_in(raw) {
        Some(e) => VerdictText::Broken(e, true),
        None => if json_errors && looks_like_json(raw) {
            VerdictText::Broken(json_error(raw), true)
        } else {
            VerdictText::Broken(
                ErrorText::Stream("空 SSE 流 (已收到 "@ + decimal(received) + " 字节)"@),
                false,
            )
        },
    }
}

/// Judges a stream that ended before its opening was complete.
pub fn judge_ended(raw: &str, received: usize, json_errors: bool) -> (r: Verdict)
    ensures
        r@ == ended_verdict(raw@, received as int, json_errors),
{
    if let Some(e) = find_business_error(raw) {
        return Verdict::Broken(e, true);
    }
    if json_errors && begins_with_brace(raw) {
        return Verdict::Broken(parse_json_error(raw), true);
    }
    let mut message = String::new();
    message.append("空 SSE 流 (已收到 ");
    push_count(&mut message, received);
    message.append(" 字节)");
    proof {
        assert(message@ =~= "空 SSE 流 (已收到 "@ + decimal(received as int) + " 字节)"@);
    }
    Verdict::Broken(CoreError::Stream(message), false)
}

/// What comes of the next stream event.
pub open spec fn opening_step(o: OpeningText, event: StreamText, json_errors: bool) -> (
    OpeningText,
    VerdictText,
) {
    match event {
        StreamText::Chunk(bytes) => {
            let o2 = OpeningText { buf: o.buf + bytes, text: o.text + lossy_text(bytes) };
            (o2, opening_verdict(o2.text))
        },
        StreamText::Failed(message) => (
            o,
            VerdictText::Broken(ErrorText::Stream(message), false),
        ),
        StreamText::End => (
            o,
            ended_verdict(lossy_text(o.buf), o.buf.len() as int, json_errors),
        ),
    }
}

/// The opening of a response, as far as it has been received.
#[derive(Debug)]
pub struct Opening {
    pub buf: Vec<u8>,
    pub text: String,
}

impl View for Opening {
    type V = OpeningText;

    open spec fn view(&self) -> OpeningText {
        OpeningText { buf: self.buf@, text: self.text@ }
    }
}

impl Opening {
    /// The opening of a response of which nothing has been received.
    pub fn new() -> (r: Opening)
        ensures
            r@ == (OpeningText { buf: seq![], text: seq![] }),
    {
        let r = Opening { buf: Vec::new(), text: String::new() };
        proof {
            assert(r@.buf =~= seq![]);
            assert(r@.text =~= seq![]);
        }
        r
    }

    /// Takes the next event of the stream.
    pub fn step(&mut self, event: StreamEvent, json_errors: bool) -> (r: Verdict)
        ensures
            (final(self)@, r@) == opening_step(old(self)@, event@, json_errors),
            event@ matches StreamText::Chunk(bytes) ==> reads_utf8(bytes),
            event@ is End ==> reads_utf8(final(self)@.buf),
    {
        match event {
            StreamEvent::Chunk(bytes) => {
                push_bytes(&mut self.buf, &bytes);
                let piece = text_lossy(bytes.as_slice());
                self.text.append(piece.as_str());
                judge_opening(self.text.as_str())
            },
            StreamEvent::Failed(message) => Verdict::Broken(CoreError::Stream(message), false),
            StreamEvent::End => {
                let raw = text_lossy(self.buf.as_slice());
                judge_ended(raw.as_str(), self.buf.len(), json_errors)
            },
        }
    }
}

} // verus!
