//! Watching the response stream of a segment until the segment is done with.
//!
//! Bytes arrive in pieces of any size, which may end anywhere, even inside a character. All of them
//! are kept, and the events that are complete by then are judged anew with every piece. Events are
//! told apart by their bytes and each is decoded by itself: a line feed is a byte of its own in
//! UTF-8, so an empty line ends a character as well as an event.
use crate::error::{CoreError, ErrorText};
use crate::outside::{lossy_text, text_lossy};
use crate::prompt::strings;
use crate::sse::{
    begins_with_brace, check_hint, event_is, hint_error, is_event, json_error, looks_like_json,
    parse_json_error, parse_ready_message_ids, ready_ids,
};
use crate::text::{
    chars_of, contains_text, decimal, find_from, has_text, push_count, split_on,
};
use vstd::prelude::*;
use vstd::slice::{slice_subrange, slice_to_vec};
use vstd::string::*;
use vstd::utf8::{decode_utf8, encode_utf8_decode_utf8, encode_utf8_valid_utf8, valid_utf8};

verus! {

/// What reading from a response stream gives: a piece of it, an error, or its end.
#[derive(Debug, PartialEq, Eq)]
pub enum StreamEvent {
    Chunk(Vec<u8>),
    Failed(String),
    End,
}

/// What a stream event says.
pub enum StreamText {
    Chunk(Seq<u8>),
    Failed(Seq<char>),
    End,
}

impl View for StreamEvent {
    type V = StreamText;

    open spec fn view(&self) -> StreamText {
        match self {
            StreamEvent::Chunk(bytes) => StreamText::Chunk(bytes@),
            StreamEvent::Failed(message) => StreamText::Failed(message@),
            StreamEvent::End => StreamText::End,
        }
    }
}

/// The segment of a request that a stream answers, as error messages name it.
#[derive(Debug, PartialEq, Eq)]
pub struct Segment {
    pub request_id: String,
    pub index: usize,
    pub total: usize,
}

/// How error messages name a segment.
pub open spec fn segment_label(request_id: Seq<char>, index: int, total: int) -> Seq<char> {
    "req="@ + request_id + " 分块 "@ + decimal(index) + "/"@ + decimal(total)
}

impl View for Segment {
    type V = Seq<char>;

    open spec fn view(&self) -> Seq<char> {
        segment_label(self.request_id@, self.index as int, self.total as int)
    }
}

impl Segment {
    fn message(&self) -> (r: String)
        ensures
            r@ == self@,
    {
        let mut r = String::new();
        r.append("req=");
        r.append(self.request_id.as_str());
        r.append(" 分块 ");
        push_count(&mut r, self.index);
        r.append("/");
        push_count(&mut r, self.total);
        proof {
            assert(r@ =~= self@);
        }
        r
    }

    fn error(&self, what: &str) -> (r: CoreError)
        ensures
            r@ == ErrorText::Stream(self@ + what@),
    {
        let mut message = self.message();
        message.append(what);
        CoreError::Stream(message)
    }
}

/// The bytes of an empty line: the line feed that ends the line before it, and its own.
pub open spec fn blank_line() -> Seq<u8> {
    seq![10u8, 10u8]
}

/// The events of a stream that are complete, as bytes: each is followed by an empty line.
pub open spec fn event_bytes(bytes: Seq<u8>) -> Seq<Seq<u8>> {
    split_on(bytes, blank_line()).drop_last()
}

/// The events of a stream that are complete, as texts.
pub open spec fn stream_events(bytes: Seq<u8>) -> Seq<Seq<char>> {
    event_bytes(bytes).map_values(|event: Seq<u8>| lossy_text(event))
}

/// Bytes that are UTF-8 are read as the text that they encode.
pub open spec fn reads_utf8(bytes: Seq<u8>) -> bool {
    valid_utf8(bytes) ==> lossy_text(bytes) == decode_utf8(bytes)
}

/// Every complete event of a stream that is UTF-8 is read as the text that it encodes.
pub open spec fn reads_utf8_events(bytes: Seq<u8>) -> bool {
    forall|i: int| 0 <= i < event_bytes(bytes).len() ==> reads_utf8(#[trigger] event_bytes(bytes)[i])
}

/// The events of a text that are complete: each is followed by an empty line.
pub open spec fn complete_events(text: Seq<char>) -> Seq<Seq<char>> {
    split_on(text, "\n\n"@).drop_last()
}

fn find_blank_line(s: &[u8]) -> (r: Option<usize>)
    ensures
        r matches Some(i) ==> find_from(s@, blank_line(), 0) == Some(i as int) && i + 2
            <= s@.len(),
        r is None ==> find_from(s@, blank_line(), 0) is None,
{
    let len: usize = s.len();
    if len < 2 {
        return None;
    }
    for i in 0..len - 1
        invariant
            len == s@.len(),
            2 <= len,
            find_from(s@, blank_line(), 0) == find_from(s@, blank_line(), i as int),
    {
        assert(s@.subrange(i as int, i + 2).len() == 2);
        if s[i] == 10 && s[i + 1] == 10 {
            assert(s@.subrange(i as int, i + 2) =~= blank_line());
            return Some(i);
        }
        assert(s@.subrange(i as int, i + 2)[0] == s@[i as int]);
        assert(s@.subrange(i as int, i + 2)[1] == s@[i + 1]);
    }
    None
}

fn events_in(bytes: &[u8]) -> (r: Vec<String>)
    ensures
        strings(r@) == stream_events(bytes@),
        reads_utf8_events(bytes@),
{
    let mut r: Vec<String> = Vec::new();
    let mut rest: &[u8] = bytes;
    let ghost mut seen: Seq<Seq<u8>> = seq![];
    proof {
        assert(seen + split_on(bytes@, blank_line()) =~= split_on(bytes@, blank_line()));
        assert(strings(r@) =~= seen.map_values(|event: Seq<u8>| lossy_text(event)));
    }
    loop
        invariant
            split_on(bytes@, blank_line()) == seen + split_on(rest@, blank_line()),
            strings(r@) == seen.map_values(|event: Seq<u8>| lossy_text(event)),
            forall|i: int| 0 <= i < seen.len() ==> reads_utf8(#[trigger] seen[i]),
        decreases rest@.len(),
    {
        match find_blank_line(rest) {
            Some(i) => {
                let len: usize = rest.len();
                let event = slice_subrange(rest, 0, i);
                let text = text_lossy(event);
                let ghost before = strings(r@);
                let ghost whole = rest@;
                rest = slice_subrange(rest, i + 2, len);
                r.push(text);
                proof {
                    assert(strings(r@) =~= before.push(text@));
                    assert(event@ =~= whole.take(i as int));
                    assert(rest@ =~= whole.skip(i + 2));
                    assert(seen + (seq![event@] + split_on(rest@, blank_line())) =~= seen.push(
                        event@,
                    ) + split_on(rest@, blank_line()));
                    assert(seen.push(event@).map_values(|e: Seq<u8>| lossy_text(e)) =~= before.push(
                        text@,
                    ));
                    seen = seen.push(event@);
                }
            },
            None => {
                proof {
                    assert(split_on(bytes@, blank_line()) =~= seen.push(rest@));
                    assert(event_bytes(bytes@) =~= seen);
                }
                return r;
            },
        }
    }
}

/// The response message that a stream announces: the ready events before it are overruled.
pub open spec fn ready_after(event: Seq<char>, ready: Option<i64>) -> Option<i64> {
    if event_is(event, "ready"@) {
        Some(ready_ids(event).1)
    } else {
        ready
    }
}

fn note_ready(event: &str, ready: Option<i64>) -> (r: Option<i64>)
    ensures
        r == ready_after(event@, ready),
{
    if is_event(event, "ready") {
        proof {
            encode_utf8_valid_utf8(event@);
            encode_utf8_decode_utf8(event@);
        }
        Some(parse_ready_message_ids(event.as_bytes()).1)
    } else {
        ready
    }
}

/// What the events of a stream amount to so far.
#[derive(Debug, PartialEq, Eq)]
pub enum Scan {
    /// Nothing is decided; the response message is known once a ready event has come.
    Running(Option<i64>),
    /// The segment is done with; this is its response message.
    Done(i64),
    /// The segment has failed.
    Failed(CoreError),
}

/// What a scan says.
pub enum ScanText {
    Running(Option<i64>),
    Done(i64),
    Failed(ErrorText),
}

impl View for Scan {
    type V = ScanText;

    open spec fn view(&self) -> ScanText {
        match self {
            Scan::Running(ready) => ScanText::Running(*ready),
            Scan::Done(id) => ScanText::Done(*id),
            Scan::Failed(e) => ScanText::Failed(e@),
        }
    }
}

/// Whether an event says that the model has finished, by its status or by closing the stream.
pub open spec fn ends_response(event: Seq<char>) -> bool {
    ||| has_text(event, "\"quasi_status\""@) && has_text(event, "\"FINISHED\""@)
    ||| event_is(event, "close"@)
}

fn is_end(event: &str) -> (r: bool)
    ensures
        r == ends_response(event@),
{
    let chars = chars_of(event);
    let finished = contains_text(chars.as_slice(), chars_of("\"quasi_status\"").as_slice())
        && contains_text(chars.as_slice(), chars_of("\"FINISHED\"").as_slice());
    finished || is_event(event, "close")
}

/// What events amount to while the model is left to finish by itself, where `ready` has been
/// announced before them: the first hint that is an error fails the segment, and the first event
/// that ends the response settles it, if the response message is known by then.
pub open spec fn natural_scan(events: Seq<Seq<char>>, ready: Option<i64>, label: Seq<char>) -> ScanText
    decreases events.len(),
{
    if events.len() == 0 {
        ScanText::Running(ready)
    } else {
        let event = events.first();
        let rest = events.drop_first();
        let known = ready_after(event, ready);
        if event.len() == 0 {
            natural_scan(rest, ready, label)
        } else {
            match hint_error(event) {
                Some(e) => ScanText::Failed(e),
                None => if !ends_response(event) {
                    natural_scan(rest, known, label)
                } else {
                    match known {
                        Some(id) => ScanText::Done(id),
                        None => ScanText::Failed(
                            ErrorText::Stream(label + " FINISHED 前未收到 ready 事件"@),
                        ),
                    }
                },
            }
        }
    }
}

/// Judges the events that have been received while the model is left to finish by itself.
pub fn scan_for_end(events: &Vec<String>, segment: &Segment) -> (r: Scan)
    ensures
        r@ == natural_scan(strings(events@), None, segment@),
{
    let ghost all = strings(events@);
    let mut ready: Option<i64> = None;
    proof {
        assert(all.skip(0) =~= all);
    }
    for i in 0..events.len()
        invariant
            all == strings(events@),
            natural_scan(all, None, segment@) == natural_scan(all.skip(i as int), ready, segment@),
    {
        let event = events[i].as_str();
        proof {
            assert(all.skip(i as int).first() == events@[i as int]@);
            assert(all.skip(i as int).drop_first() =~= all.skip(i + 1));
        }
        if !event.is_empty() {
            if let Some(e) = check_hint(event) {
                return Scan::Failed(e);
            }
            ready = note_ready(event, ready);
            if is_end(event) {
                return match ready {
                    Some(id) => Scan::Done(id),
                    None => Scan::Failed(segment.error(" FINISHED 前未收到 ready 事件")),
                };
            }
        }
    }
    Scan::Running(ready)
}

/// What events amount to while the session is awaited to be stored: the first hint that is an
/// error fails the segment, and an update of the session settles it once the response message is
/// known.
pub open spec fn update_scan(events: Seq<Seq<char>>, ready: Option<i64>) -> ScanText
    decreases events.len(),
{
    if events.len() == 0 {
        ScanText::Running(ready)
    } else {
        let event = events.first();
        let rest = events.drop_first();
        let known = ready_after(event, ready);
        if event.len() == 0 {
            update_scan(rest, ready)
        } else {
            match hint_error(event) {
                Some(e) => ScanText::Failed(e),
                None => match known {
                    Some(id) if event_is(event, "update_session"@) => ScanText::Done(id),
                    _ => update_scan(rest, known),
                },
            }
        }
    }
}

/// Judges the events that have been received while the session is awaited to be stored, where
/// `announced` has been announced before.
pub fn scan_for_update(events: &Vec<String>, announced: Option<i64>) -> (r: Scan)
    ensures
        r@ == update_scan(strings(events@), announced),
{
    let ghost all = strings(events@);
    let mut ready: Option<i64> = announced;
    proof {
        assert(all.skip(0) =~= all);
    }
    for i in 0..events.len()
        invariant
            all == strings(events@),
            update_scan(all, announced) == update_scan(all.skip(i as int), ready),
    {
        let event = events[i].as_str();
        proof {
            assert(all.skip(i as int).first() == events@[i as int]@);
            assert(all.skip(i as int).drop_first() =~= all.skip(i + 1));
        }
        if !event.is_empty() {
            if let Some(e) = check_hint(event) {
                return Scan::Failed(e);
            }
            ready = note_ready(event, ready);
            if let Some(id) = ready {
                if is_event(event, "update_session") {
                    return Scan::Done(id);
                }
            }
        }
    }
    Scan::Running(ready)
}

/// Whether one of the events closes the stream.
pub open spec fn closes(events: Seq<Seq<char>>) -> bool {
    exists|i: int| 0 <= i < events.len() && event_is(#[trigger] events[i], "close"@)
}

/// Whether one of the events that have been received closes the stream.
pub fn scan_for_close(events: &Vec<String>) -> (r: bool)
    ensures
        r == closes(strings(events@)),
{
    for i in 0..events.len()
        invariant
            forall|j: int| 0 <= j < i ==> !event_is(#[trigger] strings(events@)[j], "close"@),
    {
        assert(strings(events@)[i as int] == events@[i as int]@);
        if is_event(events[i].as_str(), "close") {
            return true;
        }
    }
    proof {
        assert(events@.len() == strings(events@).len());
    }
    false
}

/// How far waiting for a segment has come.
#[derive(Debug, PartialEq, Eq)]
pub enum Progress {
    /// More of the stream is needed.
    Pending,
    /// The segment is done with: its response message and all bytes received.
    Done(i64, Vec<u8>),
    /// The segment has failed.
    Failed(CoreError),
}

/// What a progress says.
pub enum ProgressText {
    Pending,
    Done(i64, Seq<u8>),
    Failed(ErrorText),
}

impl View for Progress {
    type V = ProgressText;

    open spec fn view(&self) -> ProgressText {
        match self {
            Progress::Pending => ProgressText::Pending,
            Progress::Done(id, bytes) => ProgressText::Done(*id, bytes@),
            Progress::Failed(e) => ProgressText::Failed(e@),
        }
    }
}

/// A stream that is watched: what has been received of it, the response message announced so far,
/// and the name of its segment.
pub struct WatchText {
    pub buf: Seq<u8>,
    pub ready: Option<i64>,
    pub label: Seq<char>,
}

/// A watch with what a scan of everything received amounts to.
pub open spec fn after_scan(w: WatchText, buf: Seq<u8>, scan: ScanText) -> (WatchText, ProgressText) {
    match scan {
        ScanText::Running(ready) => (WatchText { buf, ready, ..w }, ProgressText::Pending),
        ScanText::Done(id) => (WatchText { buf, ready: Some(id), ..w }, ProgressText::Done(id, buf)),
        ScanText::Failed(e) => (WatchText { buf, ..w }, ProgressText::Failed(e)),
    }
}

/// Waiting for the model to finish by itself: what comes of the next stream event. A stream that
/// ends unfinished is taken for finished if the response message is known.
pub open spec fn natural_step(w: WatchText, event: StreamText) -> (WatchText, ProgressText) {
    match event {
        StreamText::Chunk(bytes) => after_scan(
            w,
            w.buf + bytes,
            natural_scan(stream_events(w.buf + bytes), None, w.label),
        ),
        StreamText::Failed(message) => (w, ProgressText::Failed(ErrorText::Stream(message))),
        StreamText::End => (
            w,
            if looks_like_json(lossy_text(w.buf)) {
                ProgressText::Failed(json_error(lossy_text(w.buf)))
            } else {
                match w.ready {
                    Some(id) => ProgressText::Done(id, w.buf),
                    None => ProgressText::Failed(
                        ErrorText::Stream(
                            w.label + " 自然结束前流断（已收 "@ + decimal(w.buf.len() as int)
                                + " 字节）"@,
                        ),
                    ),
                }
            },
        ),
    }
}

/// Waiting for the session to be stored: what comes of the next stream event.
pub open spec fn update_step(w: WatchText, event: StreamText) -> (WatchText, ProgressText) {
    match event {
        StreamText::Chunk(bytes) => after_scan(
            w,
            w.buf + bytes,
            update_scan(stream_events(w.buf + bytes), w.ready),
        ),
        StreamText::Failed(message) => (w, ProgressText::Failed(ErrorText::Stream(message))),
        StreamText::End => (
            w,
            if looks_like_json(lossy_text(w.buf)) {
                ProgressText::Failed(json_error(lossy_text(w.buf)))
            } else {
                ProgressText::Failed(ErrorText::Stream(w.label + " 收到空流"@))
            },
        ),
    }
}

/// Waiting for the stream to be closed: what comes of the next stream event.
pub open spec fn close_step(w: WatchText, event: StreamText) -> (
    WatchText,
    Option<Result<(), ErrorText>>,
) {
    match event {
        StreamText::Chunk(bytes) => (
            WatchText { buf: w.buf + bytes, ..w },
            if closes(stream_events(w.buf + bytes)) {
                Some(Ok(()))
            } else {
                None
            },
        ),
        StreamText::Failed(message) => (w, Some(Err(ErrorText::Stream(message)))),
        StreamText::End => (w, Some(Err(ErrorText::Stream(w.label + " 流在 close 前结束"@)))),
    }
}

/// What the outcome of waiting for a close says.
pub open spec fn close_outcome(r: Option<Result<(), CoreError>>) -> Option<Result<(), ErrorText>> {
    match r {
        None => None,
        Some(Ok(())) => Some(Ok(())),
        Some(Err(e)) => Some(Err(e@)),
    }
}

/// Appends bytes to those received before.
pub(crate) fn push_bytes(buf: &mut Vec<u8>, bytes: &Vec<u8>)
    ensures
        final(buf)@ == old(buf)@ + bytes@,
{
    buf.extend_from_slice(bytes.as_slice());
    assert(buf@ =~= old(buf)@ + bytes@);
}

/// A stream of one segment that is watched.
#[derive(Debug)]
pub struct Watch {
    buf: Vec<u8>,
    ready: Option<i64>,
    segment: Segment,
}

impl View for Watch {
    type V = WatchText;

    closed spec fn view(&self) -> WatchText {
        WatchText { buf: self.buf@, ready: self.ready, label: self.segment@ }
    }
}

impl Watch {
    /// A watch on a stream of which nothing has been received.
    pub fn new(segment: Segment) -> (r: Watch)
        ensures
            r@ == (WatchText { buf: seq![], ready: None, label: segment@ }),
    {
        Watch { buf: Vec::new(), ready: None, segment }
    }

    /// A watch on a stream of which `received` has been received already.
    pub fn resume(received: Vec<u8>, segment: Segment) -> (r: Watch)
        ensures
            r@ == (WatchText { buf: received@, ready: None, label: segment@ }),
    {
        Watch { buf: received, ready: None, segment }
    }

    fn take_in(&mut self, scan: Scan) -> (r: Progress)
        ensures
            (final(self)@, r@) == after_scan(old(self)@, old(self)@.buf, scan@),
    {
        match scan {
            Scan::Running(ready) => {
                self.ready = ready;
                Progress::Pending
            },
            Scan::Done(id) => {
                self.ready = Some(id);
                Progress::Done(id, slice_to_vec(self.buf.as_slice()))
            },
            Scan::Failed(e) => Progress::Failed(e),
        }
    }

    /// Takes the next event of the stream while the model is left to finish by itself.
    pub fn wait_natural_close(&mut self, event: StreamEvent) -> (r: Progress)
        ensures
            (final(self)@, r@) == natural_step(old(self)@, event@),
            event@ is Chunk ==> reads_utf8_events(final(self)@.buf),
            event@ is End ==> reads_utf8(final(self)@.buf),
    {
        match event {
            StreamEvent::Chunk(bytes) => {
                push_bytes(&mut self.buf, &bytes);
                let events = events_in(self.buf.as_slice());
                let scan = scan_for_end(&events, &self.segment);
                self.take_in(scan)
            },
            StreamEvent::Failed(message) => Progress::Failed(CoreError::Stream(message)),
            StreamEvent::End => {
                let raw = text_lossy(self.buf.as_slice());
                if begins_with_brace(raw.as_str()) {
                    return Progress::Failed(parse_json_error(raw.as_str()));
                }
                match self.ready {
                    Some(id) => Progress::Done(id, slice_to_vec(self.buf.as_slice())),
                    None => {
                        let mut message = self.segment.message();
                        message.append(" 自然结束前流断（已收 ");
                        push_count(&mut message, self.buf.len());
                        message.append(" 字节）");
                        Progress::Failed(CoreError::Stream(message))
                    },
                }
            },
        }
    }

    /// Takes the next event of the stream while the session is awaited to be stored.
    pub fn wait_ready_and_update(&mut self, event: StreamEvent) -> (r: Progress)
        ensures
            (final(self)@, r@) == update_step(old(self)@, event@),
            event@ is Chunk ==> reads_utf8_events(final(self)@.buf),
            event@ is End ==> reads_utf8(final(self)@.buf),
    {
        match event {
            StreamEvent::Chunk(bytes) => {
                push_bytes(&mut self.buf, &bytes);
                let events = events_in(self.buf.as_slice());
                let scan = scan_for_update(&events, self.ready);
                self.take_in(scan)
            },
            StreamEvent::Failed(message) => Progress::Failed(CoreError::Stream(message)),
            StreamEvent::End => {
                let raw = text_lossy(self.buf.as_slice());
                if begins_with_brace(raw.as_str()) {
                    return Progress::Failed(parse_json_error(raw.as_str()));
                }
                Progress::Failed(self.segment.error(" 收到空流"))
            },
        }
    }

    /// Whether what has been received closes the stream.
    pub fn is_closed(&self) -> (r: bool)
        ensures
            r == closes(stream_events(self@.buf)),
            reads_utf8_events(self@.buf),
    {
        scan_for_close(&events_in(self.buf.as_slice()))
    }

    /// Takes the next event of a stream that has not been closed yet. Nothing is decided as long
    /// as the result is `None`.
    pub fn wait_close(&mut self, event: StreamEvent) -> (r: Option<Result<(), CoreError>>)
        ensures
            final(self)@ == close_step(old(self)@, event@).0,
            close_outcome(r) == close_step(old(self)@, event@).1,
            event@ is Chunk ==> reads_utf8_events(final(self)@.buf),
    {
        match event {
            StreamEvent::Chunk(bytes) => {
                push_bytes(&mut self.buf, &bytes);
                if self.is_closed() {
                    Some(Ok(()))
                } else {
                    None
                }
            },
            StreamEvent::Failed(message) => Some(Err(CoreError::Stream(message))),
            StreamEvent::End => Some(Err(self.segment.error(" 流在 close 前结束"))),
        }
    }
}

} // verus!
