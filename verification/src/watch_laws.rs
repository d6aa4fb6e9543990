//! What holds of watching a stream, however its bytes are divided.
use crate::error::ErrorText;
use crate::opening::{opening_step, opening_verdict, OpeningText, VerdictText};
use crate::outside::lossy_text;
use crate::sse::{
    business_error_in, event_is, hint_error, json_error, looks_like_json, ready_ids, two_events,
};
use crate::text::{
    decimal, find_from, has_text, lemma_find_from, lemma_find_from_is, occurs_at, split_on,
};
use crate::text_laws::law_split_at_the_first_separator;
use crate::watch::{
    blank_line, close_step, closes, complete_events, event_bytes, natural_scan, natural_step,
    reads_utf8_events, ready_after, segment_label, stream_events, update_scan, update_step,
    ProgressText, ScanText, StreamText, WatchText,
};
use vstd::prelude::*;
use vstd::utf8::{
    decode_utf8, decode_utf8_encode_utf8, decode_utf8_split, encode_utf8, encode_utf8_decode_utf8,
    is_char_boundary, is_char_boundary_iff_not_is_continuation_byte, pop_first_scalar, valid_utf8,
    valid_utf8_split,
};

verus! {

proof fn lemma_find_in_longer<T>(s: Seq<T>, t: Seq<T>, p: Seq<T>)
    ensures
        find_from(s, p, 0) matches Some(i) ==> find_from(s + t, p, 0) == Some(i),
{
    lemma_find_from(s, p, 0);
    match find_from(s, p, 0) {
        Some(i) => {
            let u = s + t;
            assert(u.subrange(i, i + p.len()) =~= s.subrange(i, i + p.len()));
            assert forall|j: int| 0 <= j < i implies !occurs_at(u, p, j) by {
                assert(u.subrange(j, j + p.len()) =~= s.subrange(j, j + p.len()));
                assert(!occurs_at(s, p, j));
            }
            lemma_find_from_is(u, p, 0, i);
        },
        None => {},
    }
}

proof fn lemma_split_in_longer<T>(s: Seq<T>, t: Seq<T>, p: Seq<T>)
    requires
        p.len() > 0,
    ensures
        split_on(s, p).len() > 0,
        split_on(s, p).len() <= split_on(s + t, p).len(),
        split_on(s + t, p).take(split_on(s, p).len() - 1) == split_on(s, p).drop_last(),
    decreases s.len(),
{
    lemma_find_from(s, p, 0);
    lemma_find_from(s + t, p, 0);
    match find_from(s, p, 0) {
        Some(i) => {
            lemma_find_in_longer(s, t, p);
            let rest = s.skip(i + p.len());
            lemma_split_in_longer(rest, t, p);
            assert((s + t).skip(i + p.len()) =~= rest + t);
            assert((s + t).take(i) =~= s.take(i));
            assert(split_on(s + t, p) == seq![s.take(i)] + split_on(rest + t, p));
            let n = split_on(rest, p).len();
            assert((seq![s.take(i)] + split_on(rest + t, p)).take(n as int) =~= seq![s.take(i)]
                + split_on(rest + t, p).take(n - 1));
            assert((seq![s.take(i)] + split_on(rest, p)).drop_last() =~= seq![s.take(i)]
                + split_on(rest, p).drop_last());
        },
        None => {
            assert(split_on(s + t, p).take(0) =~= split_on(s, p).drop_last());
            assert(split_on(s + t, p).len() > 0);
        },
    }
}

/// An event that is complete stays as it is: with more bytes the events seen before are still the
/// first ones.
pub proof fn law_complete_events_stay(bytes: Seq<u8>, more: Seq<u8>)
    ensures
        stream_events(bytes).len() <= stream_events(bytes + more).len(),
        stream_events(bytes + more).take(stream_events(bytes).len() as int) == stream_events(bytes),
{
    lemma_split_in_longer(bytes, more, blank_line());
    let n = event_bytes(bytes).len() as int;
    let all = split_on(bytes + more, blank_line());
    assert(event_bytes(bytes + more).take(n) =~= all.take(n));
    assert forall|i: int| 0 <= i < n implies stream_events(bytes + more)[i] == stream_events(
        bytes,
    )[i] by {
        assert(event_bytes(bytes + more).take(n)[i] == event_bytes(bytes)[i]);
    }
    assert(stream_events(bytes + more).take(n) =~= stream_events(bytes));
}

/// A stream that has been closed stays closed.
pub proof fn law_closed_stays_closed(bytes: Seq<u8>, more: Seq<u8>)
    ensures
        closes(stream_events(bytes)) ==> closes(stream_events(bytes + more)),
{
    law_complete_events_stay(bytes, more);
    let some = stream_events(bytes);
    if closes(some) {
        let i = choose|i: int| 0 <= i < some.len() && event_is(#[trigger] some[i], "close"@);
        let all = stream_events(bytes + more);
        assert(all.take(some.len() as int)[i] == all[i]);
        assert(event_is(all[i], "close"@));
    }
}

/// What the opening of a response amounts to is settled by its first two events: no text after
/// them changes it.
pub proof fn law_opening_is_settled_once(text: Seq<char>, more: Seq<char>)
    ensures
        opening_verdict(text) !is Pending ==> opening_verdict(text + more) == opening_verdict(text),
{
    reveal_strlit("\n\n");
    lemma_split_in_longer(text, more, "\n\n"@);
    let parts = split_on(text, "\n\n"@);
    let all = split_on(text + more, "\n\n"@);
    if parts.len() >= 3 {
        assert(all.take(parts.len() - 1)[0] == parts.drop_last()[0]);
        assert(all.take(parts.len() - 1)[1] == parts.drop_last()[1]);
    }
}

/// A scan taken up where an earlier one left off.
pub open spec fn then_natural(
    before: ScanText,
    events: Seq<Seq<char>>,
    label: Seq<char>,
) -> ScanText {
    match before {
        ScanText::Running(ready) => natural_scan(events, ready, label),
        _ => before,
    }
}

proof fn lemma_natural_scan_add(
    a: Seq<Seq<char>>,
    b: Seq<Seq<char>>,
    ready: Option<i64>,
    label: Seq<char>,
)
    ensures
        natural_scan(a + b, ready, label) == then_natural(natural_scan(a, ready, label), b, label),
    decreases a.len(),
{
    if a.len() == 0 {
        assert(a + b =~= b);
    } else {
        let event = a.first();
        assert((a + b).first() == event);
        assert((a + b).drop_first() =~= a.drop_first() + b);
        lemma_natural_scan_add(a.drop_first(), b, ready, label);
        lemma_natural_scan_add(a.drop_first(), b, ready_after(event, ready), label);
    }
}

/// Bytes may arrive in any pieces: judging them as a whole gives what judging the first of them and
/// then the events that the rest completes gives. In particular what is decided once stays decided.
pub proof fn law_scanning_in_parts(bytes: Seq<u8>, more: Seq<u8>, label: Seq<char>)
    ensures
        natural_scan(stream_events(bytes + more), None, label) == then_natural(
            natural_scan(stream_events(bytes), None, label),
            stream_events(bytes + more).skip(stream_events(bytes).len() as int),
            label,
        ),
        natural_scan(stream_events(bytes), None, label) !is Running ==> natural_scan(
            stream_events(bytes + more),
            None,
            label,
        ) == natural_scan(stream_events(bytes), None, label),
{
    law_complete_events_stay(bytes, more);
    let all = stream_events(bytes + more);
    let n = stream_events(bytes).len() as int;
    assert(all =~= all.take(n) + all.skip(n));
    lemma_natural_scan_add(all.take(n), all.skip(n), None, label);
}

/// How waiting for the model to finish by itself ends when the stream gives these pieces and then
/// ends: reading stops at the first piece that decides.
pub open spec fn natural_outcome(w: WatchText, pieces: Seq<Seq<u8>>) -> ProgressText
    decreases pieces.len(),
{
    if pieces.len() == 0 {
        natural_step(w, StreamText::End).1
    } else {
        let (w2, progress) = natural_step(w, StreamText::Chunk(pieces.first()));
        if progress is Pending {
            natural_outcome(w2, pieces.drop_first())
        } else {
            progress
        }
    }
}

/// Whether two outcomes agree: both are done with the same response message, or both have failed
/// with the same error.
pub open spec fn agree(a: ProgressText, b: ProgressText) -> bool {
    match (a, b) {
        (ProgressText::Done(m, _), ProgressText::Done(n, _)) => m == n,
        (ProgressText::Failed(e), ProgressText::Failed(f)) => e == f,
        _ => false,
    }
}

/// How waiting ends when all bytes arrive in one piece.
spec fn outcome_at_once(label: Seq<char>, bytes: Seq<u8>) -> ProgressText {
    natural_outcome(WatchText { buf: seq![], ready: None, label }, seq![bytes])
}

proof fn lemma_outcome_at_once(w: WatchText, pieces: Seq<Seq<u8>>)
    requires
        natural_scan(stream_events(w.buf), None, w.label) == ScanText::Running(w.ready),
    ensures
        agree(natural_outcome(w, pieces), outcome_at_once(w.label, w.buf + pieces.flatten())),
    decreases pieces.len(),
{
    let whole = w.buf + pieces.flatten();
    reveal_with_fuel(natural_outcome, 2);
    assert(seq![whole].drop_first() =~= seq![]);
    assert(Seq::<u8>::empty() + whole =~= whole);
    if pieces.len() == 0 {
        assert(whole =~= w.buf);
    } else {
        let piece = pieces.first();
        let rest = pieces.drop_first();
        let (w2, progress) = natural_step(w, StreamText::Chunk(piece));
        assert(whole =~= w2.buf + rest.flatten());
        if progress is Pending {
            lemma_outcome_at_once(w2, rest);
        } else {
            law_scanning_in_parts(w2.buf, rest.flatten(), w.label);
        }
    }
}

/// Where the bytes of a stream are cut has no say in the outcome: two streams with the same bytes,
/// cut into pieces in any two ways, even inside characters, end the waiting for the model alike.
pub proof fn law_cuts_have_no_say(label: Seq<char>, a: Seq<Seq<u8>>, b: Seq<Seq<u8>>)
    requires
        a.flatten() == b.flatten(),
    ensures
        ({
            let fresh = WatchText { buf: seq![], ready: None, label };
            agree(natural_outcome(fresh, a), natural_outcome(fresh, b))
        }),
{
    let fresh = WatchText { buf: seq![], ready: None, label };
    assert(stream_events(fresh.buf) =~= seq![]) by {
        assert(split_on(fresh.buf, blank_line()) =~= seq![fresh.buf]);
    }
    lemma_outcome_at_once(fresh, a);
    lemma_outcome_at_once(fresh, b);
}

/// An event is complete as soon as an empty line follows it, and the events behind it are told
/// apart in the same way. Each is decoded by itself.
pub proof fn law_event_ends_at_a_blank_line(event: Seq<u8>, blank: Seq<u8>, rest: Seq<u8>)
    requires
        blank == seq![10u8, 10u8],
        forall|j: int| 0 <= j < event.len() ==> !#[trigger] occurs_at(event + blank, blank, j),
    ensures
        stream_events(event + blank + rest) == seq![lossy_text(event)] + stream_events(rest),
        stream_events(event) == Seq::<Seq<char>>::empty(),
{
    assert(blank =~= blank_line());
    law_split_at_the_first_separator(event, blank, rest);
    assert(split_on(rest, blank).len() > 0);
    assert(event_bytes(event + blank + rest) =~= seq![event] + event_bytes(rest));
    assert(stream_events(event + blank + rest) =~= seq![lossy_text(event)] + stream_events(rest));
    assert(stream_events(event) =~= seq![]);
}

/// What one more event changes while the model is left to finish by itself. What is decided stays
/// decided; else a hint that is an error fails the segment, an event that says that the model has
/// finished, or that closes the stream, settles it with the message that the last ready event
/// announced, and fails it where none was announced.
pub proof fn law_next_event_settles(
    events: Seq<Seq<char>>,
    event: Seq<char>,
    ready: Option<i64>,
    label: Seq<char>,
)
    ensures
        natural_scan(Seq::<Seq<char>>::empty(), ready, label) == ScanText::Running(ready),
        ({
            let known = |r: Option<i64>|
                if event_is(event, "ready"@) {
                    Some(ready_ids(event).1)
                } else {
                    r
                };
            let finished = has_text(event, "\"quasi_status\""@) && has_text(
                event,
                "\"FINISHED\""@,
            );
            let after = natural_scan(events.push(event), ready, label);
            match natural_scan(events, ready, label) {
                ScanText::Running(r) => if event.len() == 0 {
                    after == ScanText::Running(r)
                } else if hint_error(event) is Some {
                    after == ScanText::Failed(hint_error(event)->0)
                } else if !finished && !event_is(event, "close"@) {
                    after == ScanText::Running(known(r))
                } else if known(r) is Some {
                    after == ScanText::Done(known(r)->0)
                } else {
                    after == ScanText::Failed(
                        ErrorText::Stream(label + " FINISHED 前未收到 ready 事件"@),
                    )
                },
                before => after == before,
            }
        }),
{
    let one = seq![event];
    assert(events.push(event) =~= events + one);
    lemma_natural_scan_add(events, one, ready, label);
    assert(one.drop_first() =~= seq![]);
    reveal_with_fuel(natural_scan, 3);
}

/// A scan for the update of the session, taken up where an earlier one left off.
spec fn then_update(before: ScanText, events: Seq<Seq<char>>) -> ScanText {
    match before {
        ScanText::Running(ready) => update_scan(events, ready),
        _ => before,
    }
}

proof fn lemma_update_scan_add(a: Seq<Seq<char>>, b: Seq<Seq<char>>, ready: Option<i64>)
    ensures
        update_scan(a + b, ready) == then_update(update_scan(a, ready), b),
    decreases a.len(),
{
    if a.len() == 0 {
        assert(a + b =~= b);
    } else {
        let event = a.first();
        assert((a + b).first() == event);
        assert((a + b).drop_first() =~= a.drop_first() + b);
        lemma_update_scan_add(a.drop_first(), b, ready);
        lemma_update_scan_add(a.drop_first(), b, ready_after(event, ready));
    }
}

/// What one more event changes while the session is awaited to be stored. What is decided stays
/// decided; else a hint that is an error fails the segment, and an update of the session settles it
/// with the message that the last ready event announced, once there is one.
pub proof fn law_next_event_updates(
    events: Seq<Seq<char>>,
    event: Seq<char>,
    ready: Option<i64>,
)
    ensures
        update_scan(Seq::<Seq<char>>::empty(), ready) == ScanText::Running(ready),
        ({
            let known = |r: Option<i64>|
                if event_is(event, "ready"@) {
                    Some(ready_ids(event).1)
                } else {
                    r
                };
            let after = update_scan(events.push(event), ready);
            match update_scan(events, ready) {
                ScanText::Running(r) => if event.len() == 0 {
                    after == ScanText::Running(r)
                } else if hint_error(event) is Some {
                    after == ScanText::Failed(hint_error(event)->0)
                } else if known(r) is Some && event_is(event, "update_session"@) {
                    after == ScanText::Done(known(r)->0)
                } else {
                    after == ScanText::Running(known(r))
                },
                before => after == before,
            }
        }),
{
    let one = seq![event];
    assert(events.push(event) =~= events + one);
    lemma_update_scan_add(events, one, ready);
    assert(one.drop_first() =~= seq![]);
    reveal_with_fuel(update_scan, 3);
}

/// One event that closes the stream is enough, and nothing else closes it.
pub proof fn law_close_event_closes(events: Seq<Seq<char>>, event: Seq<char>)
    ensures
        !closes(Seq::<Seq<char>>::empty()),
        closes(events.push(event)) <==> closes(events) || event_is(event, "close"@),
{
    let all = events.push(event);
    if closes(events) {
        let i = choose|i: int| 0 <= i < events.len() && event_is(#[trigger] events[i], "close"@);
        assert(all[i] == events[i]);
    }
    if event_is(event, "close"@) {
        assert(all[events.len() as int] == event);
    }
    if closes(all) {
        let i = choose|i: int| 0 <= i < all.len() && event_is(#[trigger] all[i], "close"@);
        if i < events.len() {
            assert(all[i] == events[i]);
        }
    }
}

/// How a segment is named in error messages.
pub proof fn law_segment_is_named(request_id: Seq<char>, index: int, total: int)
    ensures
        segment_label(request_id, index, total) == "req="@ + request_id + (" 分块 "@ + decimal(index)
            + ("/"@ + decimal(total))),
{
    assert(segment_label(request_id, index, total) =~= "req="@ + request_id + (" 分块 "@ + decimal(
        index,
    ) + ("/"@ + decimal(total))));
}

/// Waiting for the model to finish: every byte is kept, all events that are complete by then
/// decide, and the end of the stream decides where they do not.
pub proof fn law_waiting_for_the_end(w: WatchText, bytes: Seq<u8>, message: Seq<char>)
    ensures
        ({
            let buf = w.buf + bytes;
            let (w2, progress) = natural_step(w, StreamText::Chunk(bytes));
            &&& w2.buf == buf
            &&& w2.label == w.label
            &&& match natural_scan(stream_events(buf), None, w.label) {
                ScanText::Running(ready) => progress is Pending && w2.ready == ready,
                ScanText::Done(id) => progress == ProgressText::Done(id, buf),
                ScanText::Failed(e) => progress == ProgressText::Failed(e),
            }
        }),
        natural_step(w, StreamText::Failed(message)).1 == ProgressText::Failed(
            ErrorText::Stream(message),
        ),
        natural_step(w, StreamText::End).1 == if looks_like_json(lossy_text(w.buf)) {
            ProgressText::Failed(json_error(lossy_text(w.buf)))
        } else if w.ready is Some {
            ProgressText::Done(w.ready->0, w.buf)
        } else {
            ProgressText::Failed(
                ErrorText::Stream(
                    w.label + " 自然结束前流断（已收 "@ + decimal(w.buf.len() as int) + " 字节）"@,
                ),
            )
        },
{
}

/// Waiting for the session to be stored: every byte is kept, all events that are complete by then
/// decide, and a stream that ends before has failed.
pub proof fn law_waiting_for_the_update(w: WatchText, bytes: Seq<u8>, message: Seq<char>)
    ensures
        ({
            let buf = w.buf + bytes;
            let (w2, progress) = update_step(w, StreamText::Chunk(bytes));
            &&& w2.buf == buf
            &&& w2.label == w.label
            &&& match update_scan(stream_events(buf), w.ready) {
                ScanText::Running(ready) => progress is Pending && w2.ready == ready,
                ScanText::Done(id) => progress == ProgressText::Done(id, buf),
                ScanText::Failed(e) => progress == ProgressText::Failed(e),
            }
        }),
        update_step(w, StreamText::Failed(message)).1 == ProgressText::Failed(
            ErrorText::Stream(message),
        ),
        update_step(w, StreamText::End).1 == ProgressText::Failed(
            if looks_like_json(lossy_text(w.buf)) {
                json_error(lossy_text(w.buf))
            } else {
                ErrorText::Stream(w.label + " 收到空流"@)
            },
        ),
{
}

/// Waiting for the stream to be closed: every byte is kept, one complete event that closes the
/// stream is success, and a stream that ends before has failed.
pub proof fn law_waiting_for_the_close(w: WatchText, bytes: Seq<u8>, message: Seq<char>)
    ensures
        ({
            let (w2, outcome) = close_step(w, StreamText::Chunk(bytes));
            &&& w2.buf == w.buf + bytes
            &&& w2.label == w.label
            &&& outcome is None <==> !closes(stream_events(w.buf + bytes))
            &&& outcome is Some ==> outcome == Some(Ok::<(), ErrorText>(()))
        }),
        close_step(w, StreamText::Failed(message)).1 == Some(
            Err::<(), ErrorText>(ErrorText::Stream(message)),
        ),
        close_step(w, StreamText::End).1 == Some(
            Err::<(), ErrorText>(ErrorText::Stream(w.label + " 流在 close 前结束"@)),
        ),
{
}

/// The opening of a response: every byte is kept, and nothing is decided before two events are
/// complete. The second may be a hint that is an error; else the first names the response message.
pub proof fn law_opening_is_judged_by_two_events(o: OpeningText, bytes: Seq<u8>, json_errors: bool)
    ensures
        ({
            let (o2, verdict) = opening_step(o, StreamText::Chunk(bytes), json_errors);
            &&& o2.buf == o.buf + bytes
            &&& o2.text == o.text + lossy_text(bytes)
            &&& match two_events(o2.text) {
                None => verdict is Pending,
                Some((first, second)) => match hint_error(second) {
                    Some(e) => verdict == VerdictText::Refused(e),
                    None => verdict == VerdictText::Ready(ready_ids(first).1),
                },
            }
        }),
{
}

/// A response whose stream fails or ends before its opening is complete: a business error is to be
/// blamed on the account, and so is any other JSON response where that is asked for. Else the
/// number of bytes is reported.
pub proof fn law_broken_opening_is_told(o: OpeningText, message: Seq<char>, json_errors: bool)
    ensures
        opening_step(o, StreamText::Failed(message), json_errors).1 == VerdictText::Broken(
            ErrorText::Stream(message),
            false,
        ),
        opening_step(o, StreamText::End, json_errors).1 == if business_error_in(lossy_text(o.buf))
            is Some {
            VerdictText::Broken(business_error_in(lossy_text(o.buf))->0, true)
        } else if json_errors && looks_like_json(lossy_text(o.buf)) {
            VerdictText::Broken(json_error(lossy_text(o.buf)), true)
        } else {
            VerdictText::Broken(
                ErrorText::Stream("空 SSE 流 (已收到 "@ + decimal(o.buf.len() as int) + " 字节)"@),
                false,
            )
        },
{
}

proof fn lemma_encode_add(a: Seq<char>, b: Seq<char>)
    ensures
        encode_utf8(a + b) == encode_utf8(a) + encode_utf8(b),
        encode_utf8(a).len() >= a.len(),
    decreases a.len(),
{
    if a.len() == 0 {
        assert(a + b =~= b);
        assert(encode_utf8(a) + encode_utf8(b) =~= encode_utf8(b));
    } else {
        assert((a + b).drop_first() =~= a.drop_first() + b);
        lemma_encode_add(a.drop_first(), b);
        assert(encode_utf8(a + b) =~= encode_utf8(a) + encode_utf8(b));
    }
}

proof fn lemma_encode_blank_line()
    ensures
        encode_utf8("\n\n"@) == blank_line(),
        "\n\n"@.len() == 2,
{
    reveal_strlit("\n\n");
    reveal_with_fuel(encode_utf8, 3);
    let c: u32 = 10;
    assert((c & 0x7F) as u8 == 10u8) by (bit_vector)
        requires
            c == 10u32,
    ;
    assert(encode_utf8("\n\n"@) =~= blank_line());
}

/// An empty line in a text stands behind the bytes of what precedes it.
proof fn lemma_blank_line_in_bytes(bytes: Seq<u8>, j: int)
    requires
        valid_utf8(bytes),
        occurs_at(decode_utf8(bytes), "\n\n"@, j),
    ensures
        occurs_at(bytes, blank_line(), encode_utf8(decode_utf8(bytes).take(j)).len() as int),
{
    let text = decode_utf8(bytes);
    lemma_encode_blank_line();
    decode_utf8_encode_utf8(bytes);
    let before = text.take(j);
    let after = text.skip(j + 2);
    assert(text =~= before + "\n\n"@ + after);
    lemma_encode_add(before, "\n\n"@);
    lemma_encode_add(before + "\n\n"@, after);
    let p = encode_utf8(before).len() as int;
    assert(bytes.subrange(p, p + 2) =~= blank_line());
}

/// A text is cut at its first empty line as its bytes are.
proof fn lemma_first_blank_line(bytes: Seq<u8>)
    requires
        valid_utf8(bytes),
    ensures
        find_from(bytes, blank_line(), 0) matches Some(i) ==> {
            &&& valid_utf8(bytes.take(i))
            &&& valid_utf8(bytes.skip(i + 2))
            &&& decode_utf8(bytes) == decode_utf8(bytes.take(i)) + "\n\n"@ + decode_utf8(
                bytes.skip(i + 2),
            )
            &&& find_from(decode_utf8(bytes), "\n\n"@, 0) == Some(
                decode_utf8(bytes.take(i)).len() as int,
            )
        },
        find_from(bytes, blank_line(), 0) is None ==> find_from(decode_utf8(bytes), "\n\n"@, 0)
            is None,
{
    let text = decode_utf8(bytes);
    lemma_encode_blank_line();
    lemma_find_from(bytes, blank_line(), 0);
    lemma_find_from(text, "\n\n"@, 0);
    match find_from(bytes, blank_line(), 0) {
        None => {
            if let Some(j) = find_from(text, "\n\n"@, 0) {
                lemma_blank_line_in_bytes(bytes, j);
            }
        },
        Some(i) => {
            assert(bytes.subrange(i, i + 2)[0] == bytes[i]);
            assert(bytes.subrange(i, i + 2)[1] == bytes[i + 1]);
            is_char_boundary_iff_not_is_continuation_byte(bytes, i);
            valid_utf8_split(bytes, i);
            decode_utf8_split(bytes, i);
            assert(bytes.subrange(0, i) =~= bytes.take(i));
            let first = decode_utf8(bytes.take(i));
            let n = first.len() as int;
            let tail = bytes.subrange(i, bytes.len() as int);
            let rest = bytes.skip(i + 2);
            let next = pop_first_scalar(tail);
            assert(next =~= tail.subrange(1, tail.len() as int));
            assert(next[0] == 10);
            assert(valid_utf8(next));
            assert(valid_utf8(pop_first_scalar(next)));
            assert(is_char_boundary(pop_first_scalar(next), 0));
            assert(is_char_boundary(next, 1));
            assert(is_char_boundary(tail, 2));
            valid_utf8_split(tail, 2);
            decode_utf8_split(tail, 2);
            assert(tail.subrange(0, 2) =~= blank_line());
            assert(tail.subrange(2, tail.len() as int) =~= rest);
            encode_utf8_decode_utf8("\n\n"@);
            assert(text =~= first + "\n\n"@ + decode_utf8(rest));
            assert(text.subrange(n, n + 2) =~= "\n\n"@);
            assert forall|j: int| 0 <= j < n implies !occurs_at(text, "\n\n"@, j) by {
                if occurs_at(text, "\n\n"@, j) {
                    lemma_blank_line_in_bytes(bytes, j);
                    decode_utf8_encode_utf8(bytes.take(i));
                    assert(first =~= text.take(j) + first.skip(j));
                    lemma_encode_add(text.take(j), first.skip(j));
                    lemma_encode_add(first.skip(j), seq![]);
                }
            }
            lemma_find_from_is(text, "\n\n"@, 0, n);
        },
    }
}

proof fn lemma_split_text_as_bytes(bytes: Seq<u8>)
    requires
        valid_utf8(bytes),
    ensures
        split_on(decode_utf8(bytes), "\n\n"@) == split_on(bytes, blank_line()).map_values(
            |part: Seq<u8>| decode_utf8(part),
        ),
        forall|i: int|
            0 <= i < split_on(bytes, blank_line()).len() ==> valid_utf8(
                #[trigger] split_on(bytes, blank_line())[i],
            ),
        split_on(bytes, blank_line()).len() > 0,
    decreases bytes.len(),
{
    let text = decode_utf8(bytes);
    let parts = split_on(bytes, blank_line());
    lemma_first_blank_line(bytes);
    lemma_find_from(bytes, blank_line(), 0);
    lemma_encode_blank_line();
    match find_from(bytes, blank_line(), 0) {
        Some(i) => {
            let first = bytes.take(i);
            let rest = bytes.skip(i + 2);
            let n = decode_utf8(first).len() as int;
            lemma_split_text_as_bytes(rest);
            assert(parts == seq![first] + split_on(rest, blank_line()));
            assert(text.take(n) =~= decode_utf8(first));
            assert(text.skip(n + 2) =~= decode_utf8(rest));
            assert(split_on(text, "\n\n"@) =~= parts.map_values(
                |part: Seq<u8>| decode_utf8(part),
            ));
            assert forall|k: int| 0 <= k < parts.len() implies valid_utf8(#[trigger] parts[k]) by {
                if k > 0 {
                    assert(parts[k] == split_on(rest, blank_line())[k - 1]);
                }
            }
        },
        None => {
            assert(split_on(text, "\n\n"@) =~= parts.map_values(
                |part: Seq<u8>| decode_utf8(part),
            ));
        },
    }
}

/// The events of a stream that is UTF-8 are those of its text: telling them apart by their bytes
/// and decoding each by itself gives what decoding all bytes and then splitting the text gives.
pub proof fn law_events_are_those_of_the_text(bytes: Seq<u8>)
    requires
        valid_utf8(bytes),
        reads_utf8_events(bytes),
    ensures
        stream_events(bytes) == complete_events(decode_utf8(bytes)),
{
    lemma_split_text_as_bytes(bytes);
    let parts = split_on(bytes, blank_line());
    let events = event_bytes(bytes);
    assert forall|i: int| 0 <= i < events.len() implies stream_events(bytes)[i] == complete_events(
        decode_utf8(bytes),
    )[i] by {
        assert(events[i] == parts[i]);
    }
    assert(stream_events(bytes) =~= complete_events(decode_utf8(bytes)));
}

} // verus!
