//! Server-sent events and the JSON that they carry.
use crate::error::{error_text, CoreError, ErrorText};
use crate::outside::{
    found_string, json_integer, json_integer_at, json_string, json_string_at, text_of_utf8,
};
use crate::text::{
    chars_of, contains_text, decimal, find, find_from, has_text, lemma_find_from,
    lemma_find_from_is, lines, lines_of, occurs_at, push_decimal, same_text, split_on, stands_at,
    string_of, texts, trim, trimmed, without_prefix,
};
use vstd::prelude::*;
use vstd::slice::slice_subrange;
use vstd::string::*;
use vstd::utf8::{decode_utf8, valid_utf8};

verus! {

/// The first two events of a text that holds two complete ones. An event is complete when an empty
/// line follows it.
pub open spec fn two_events(text: Seq<char>) -> Option<(Seq<char>, Seq<char>)> {
    let parts = split_on(text, "\n\n"@);
    if parts.len() >= 3 {
        Some((parts[0], parts[1]))
    } else {
        None
    }
}

proof fn lemma_find_after(s: Seq<char>, p: Seq<char>, k: int)
    requires
        0 <= k <= s.len(),
    ensures
        find_from(s.skip(k), p, 0) matches Some(i) ==> find_from(s, p, k) == Some(i + k),
        find_from(s.skip(k), p, 0) is None ==> find_from(s, p, k) is None,
{
    let t = s.skip(k);
    lemma_find_from(t, p, 0);
    lemma_find_from(s, p, k);
    assert forall|j: int| 0 <= j implies occurs_at(t, p, j) == occurs_at(s, p, j + k) by {
        if j + p.len() <= t.len() {
            assert(t.subrange(j, j + p.len()) =~= s.subrange(j + k, j + k + p.len()));
        }
    }
    match find_from(t, p, 0) {
        Some(i) => {
            assert forall|j: int| k <= j < i + k implies !occurs_at(s, p, j) by {
                assert(occurs_at(t, p, j - k) == occurs_at(s, p, j - k + k));
            }
            lemma_find_from_is(s, p, k, i + k);
        },
        None => match find_from(s, p, k) {
            Some(i) => {
                assert(occurs_at(t, p, i - k) == occurs_at(s, p, i - k + k));
            },
            None => {},
        },
    }
}

/// The first two events of a text, as soon as both are complete.
pub fn split_two_events(buf: &str) -> (r: Option<(&str, &str)>)
    ensures
        r is Some == two_events(buf@) is Some,
        r matches Some((first, second)) ==> two_events(buf@) == Some((first@, second@)),
{
    let chars = chars_of(buf);
    let separator = chars_of("\n\n");
    let ghost s = buf@;
    let ghost p = "\n\n"@;
    proof {
        reveal_strlit("\n\n");
        reveal_with_fuel(split_on, 3);
    }
    let first: usize = match find(chars.as_slice(), separator.as_slice(), 0) {
        Some(i) => i,
        None => {
            return None;
        },
    };
    assert(first + 2 <= chars.len());
    let second: usize = match find(chars.as_slice(), separator.as_slice(), first + 2) {
        Some(i) => i,
        None => {
            proof {
                lemma_find_after(s, p, first + 2);
            }
            return None;
        },
    };
    proof {
        let rest = s.skip(first + 2);
        lemma_find_after(s, p, first + 2);
        lemma_find_from(rest, p, 0);
        let i = find_from(rest, p, 0)->0;
        assert(i == second - first - 2);
        assert(s.subrange(0, first as int) =~= s.take(first as int));
        assert(s.subrange(first + 2, second as int) =~= rest.take(i));
        assert(split_on(s, p) =~= seq![s.take(first as int)] + (seq![rest.take(i)] + split_on(
            rest.skip(i + 2),
            p,
        )));
        assert(split_on(rest.skip(i + 2), p).len() > 0);
    }
    Some((buf.substring_char(0, first), buf.substring_char(first + 2, second)))
}

/// Whether a line gives its event this name.
pub open spec fn line_names_event(line: Seq<char>, name: Seq<char>) -> bool {
    match without_prefix(trimmed(line), "event:"@) {
        Some(value) => trimmed(value) == name,
        None => false,
    }
}

/// Whether an event has this name.
pub open spec fn event_is(event: Seq<char>, name: Seq<char>) -> bool {
    exists|i: int|
        0 <= i < lines_of(event).len() && line_names_event(#[trigger] lines_of(event)[i], name)
}

/// Whether an event has this name.
pub fn is_event(event: &str, name: &str) -> (r: bool)
    ensures
        r == event_is(event@, name@),
{
    let all = lines(chars_of(event).as_slice());
    let field = chars_of("event:");
    let wanted = chars_of(name);
    for i in 0..all.len()
        invariant
            texts(all@) == lines_of(event@),
            field@ == "event:"@,
            wanted@ == name@,
            forall|j: int| 0 <= j < i ==> !line_names_event(#[trigger] lines_of(event@)[j], name@),
    {
        assert(lines_of(event@)[i as int] == all@[i as int]@);
        let line = trim(all[i].as_slice());
        if stands_at(line, field.as_slice(), 0) {
            let value = trim(slice_subrange(line, field.len(), line.len()));
            proof {
                assert(line@.skip(field@.len() as int) =~= line@.subrange(
                    field@.len() as int,
                    line@.len() as int,
                ));
            }
            if same_text(value, wanted.as_slice()) {
                return true;
            }
        }
    }
    proof {
        assert(all@.len() == lines_of(event@).len());
    }
    false
}

/// The error that a hint event announces.
pub open spec fn hint_error(event: Seq<char>) -> Option<ErrorText> {
    if !event_is(event, "hint"@) {
        None
    } else if has_text(event, "rate_limit"@) {
        Some(ErrorText::Overloaded)
    } else if has_text(event, "input_exceeds_limit"@) {
        Some(ErrorText::ProviderError("输入内容超长，请缩短后重试"@))
    } else {
        None
    }
}

/// The error that an event announces if it is a hint: a rate limit is `Overloaded`, an input that
/// is too long a `ProviderError`.
pub fn check_hint(event_block: &str) -> (r: Option<CoreError>)
    ensures
        error_text(r) == hint_error(event_block@),
{
    if !is_event(event_block, "hint") {
        return None;
    }
    let chars = chars_of(event_block);
    if contains_text(chars.as_slice(), chars_of("rate_limit").as_slice()) {
        return Some(CoreError::Overloaded);
    }
    if contains_text(chars.as_slice(), chars_of("input_exceeds_limit").as_slice()) {
        return Some(CoreError::ProviderError("输入内容超长，请缩短后重试".to_owned()));
    }
    None
}

/// The message ids that the two lookups in a ready event give, if both found an integer.
pub open spec fn found_ids(request: Option<Option<i64>>, response: Option<Option<i64>>) -> Option<
    (i64, i64),
> {
    match (request, response) {
        (Some(Some(r)), Some(Some(s))) => Some((r, s)),
        _ => None,
    }
}

/// The message ids that a data line carries.
pub open spec fn line_ids(line: Seq<char>) -> Option<(i64, i64)> {
    match without_prefix(line, "data: "@) {
        Some(data) => found_ids(
            json_integer(data, "/request_message_id"@),
            json_integer(data, "/response_message_id"@),
        ),
        None => None,
    }
}

/// The message ids of the first line that carries them, and `(1, 2)` where no line does.
pub open spec fn first_ids(lines: Seq<Seq<char>>) -> (i64, i64)
    decreases lines.len(),
{
    if lines.len() == 0 {
        (1, 2)
    } else {
        match line_ids(lines.first()) {
            Some(ids) => ids,
            None => first_ids(lines.drop_first()),
        }
    }
}

/// The ids of the request and the response message that a ready event gives.
pub open spec fn ready_ids(event: Seq<char>) -> (i64, i64) {
    first_ids(lines_of(event))
}

/// The message ids that the two lookups in a ready event give, if both found an integer.
pub fn message_ids(request: Option<Option<i64>>, response: Option<Option<i64>>) -> (r: Option<
    (i64, i64),
>)
    ensures
        r == found_ids(request, response),
{
    match (request, response) {
        (Some(Some(r)), Some(Some(s))) => Some((r, s)),
        _ => None,
    }
}

fn ids_in_line(line: &[char]) -> (r: Option<(i64, i64)>)
    ensures
        r == line_ids(line@),
{
    let field = chars_of("data: ");
    if !stands_at(line, field.as_slice(), 0) {
        return None;
    }
    let data = string_of(slice_subrange(line, field.len(), line.len()));
    proof {
        assert(line@.skip(field@.len() as int) =~= line@.subrange(
            field@.len() as int,
            line@.len() as int,
        ));
    }
    message_ids(
        json_integer_at(data.as_str(), "/request_message_id"),
        json_integer_at(data.as_str(), "/response_message_id"),
    )
}

/// The ids of the request and the response message that a ready event gives. Where the event is
/// not UTF-8, or no data line carries both, they are 1 and 2.
pub fn parse_ready_message_ids(chunk: &[u8]) -> (r: (i64, i64))
    ensures
        r == (if valid_utf8(chunk@) {
            ready_ids(decode_utf8(chunk@))
        } else {
            (1, 2)
        }),
{
    let text = match text_of_utf8(chunk) {
        Some(text) => text,
        None => {
            return (1, 2);
        },
    };
    let all = lines(chars_of(text).as_slice());
    let ghost rest = lines_of(text@);
    proof {
        assert(rest.skip(0) =~= rest);
    }
    for i in 0..all.len()
        invariant
            texts(all@) == rest,
            rest == lines_of(decode_utf8(chunk@)),
            valid_utf8(chunk@),
            first_ids(rest) == first_ids(rest.skip(i as int)),
    {
        proof {
            assert(rest.skip(i as int).first() == all@[i as int]@);
            assert(rest.skip(i as int).drop_first() =~= rest.skip(i + 1));
        }
        if let Some(ids) = ids_in_line(all[i].as_slice()) {
            return ids;
        }
    }
    (1, 2)
}

/// The error that a JSON error response with this code and message stands for.
pub open spec fn code_error_text(code: int, msg: Seq<char>) -> ErrorText {
    if code == 1001 || code == 1201 {
        ErrorText::Overloaded
    } else if code == 40301 {
        ErrorText::ProviderError("INVALID_POW_RESPONSE: "@ + msg)
    } else {
        ErrorText::ProviderError("API error code="@ + decimal(code) + ": "@ + msg)
    }
}

/// The beginning of a text, of at most 200 characters.
pub open spec fn excerpt(s: Seq<char>) -> Seq<char> {
    if s.len() > 200 {
        s.take(200)
    } else {
        s
    }
}

/// The error that a response stands for in which a code and a message have been looked up. One in
/// which no code was found is reported with its beginning.
pub open spec fn lookup_error(
    raw: Seq<char>,
    code: Option<Option<i64>>,
    msg: Option<Option<Seq<char>>>,
) -> ErrorText {
    match code {
        Some(Some(code)) => code_error_text(
            code as int,
            match msg {
                Some(Some(msg)) => msg,
                _ => "unknown"@,
            },
        ),
        _ => ErrorText::Stream("无法解析的响应: "@ + excerpt(raw)),
    }
}

/// The error that a response stands for which is JSON and no stream of events.
pub open spec fn json_error(text: Seq<char>) -> ErrorText {
    let raw = trimmed(text);
    lookup_error(raw, json_integer(raw, "/code"@), json_string(raw, "/msg"@))
}

/// The error that a JSON error response with this code and message stands for: codes 1001 and 1201
/// are a rate limit, 40301 is a refused proof of work, and any other is reported with its message.
pub fn code_error(code: i64, msg: &str) -> (r: CoreError)
    ensures
        r@ == code_error_text(code as int, msg@),
{
    if code == 1001 || code == 1201 {
        return CoreError::Overloaded;
    }
    let mut text = String::new();
    if code == 40301 {
        text.append("INVALID_POW_RESPONSE: ");
    } else {
        text.append("API error code=");
        push_decimal(&mut text, code);
        text.append(": ");
    }
    text.append(msg);
    proof {
        assert(text@ =~= if code == 40301 {
            "INVALID_POW_RESPONSE: "@ + msg@
        } else {
            "API error code="@ + decimal(code as int) + ": "@ + msg@
        });
    }
    CoreError::ProviderError(text)
}

/// The error that a response stands for in which a code and a message have been looked up. One in
/// which no code was found is reported with its first 200 characters.
pub fn error_of_lookups(
    raw: &str,
    code: Option<Option<i64>>,
    msg: Option<Option<String>>,
) -> (r: CoreError)
    ensures
        r@ == lookup_error(raw@, code, found_string(msg)),
{
    if let Some(Some(code)) = code {
        return match msg {
            Some(Some(msg)) => code_error(code, msg.as_str()),
            _ => code_error(code, "unknown"),
        };
    }
    let chars = chars_of(raw);
    let n: usize = if chars.len() > 200 {
        200
    } else {
        chars.len()
    };
    let shown = string_of(slice_subrange(chars.as_slice(), 0, n));
    let mut message = String::new();
    message.append("无法解析的响应: ");
    message.append(shown.as_str());
    proof {
        assert(shown@ =~= excerpt(raw@));
        assert(message@ =~= "无法解析的响应: "@ + excerpt(raw@));
    }
    CoreError::Stream(message)
}

/// The error that a response stands for which is JSON and no stream of events.
pub fn parse_json_error(text: &str) -> (r: CoreError)
    ensures
        r@ == json_error(text@),
{
    let raw = string_of(trim(chars_of(text).as_slice()));
    let code = json_integer_at(raw.as_str(), "/code");
    let msg = json_string_at(raw.as_str(), "/msg");
    error_of_lookups(raw.as_str(), code, msg)
}

/// The first of the lines that is a JSON document.
pub open spec fn first_document(lines: Seq<Seq<char>>) -> Option<Seq<char>>
    decreases lines.len(),
{
    if lines.len() == 0 {
        None
    } else if json_integer(lines.first(), "/data/biz_code"@) is Some {
        Some(lines.first())
    } else {
        first_document(lines.drop_first())
    }
}

/// The error that a business code and message stand for.
pub open spec fn business_error_text(code: int, msg: Seq<char>) -> ErrorText {
    ErrorText::ProviderError("biz_code="@ + decimal(code) + ", "@ + msg)
}

/// The business error of a line in which a code and a message have been looked up. The message is
/// empty where none was found.
pub open spec fn lookup_business_error(
    code: Option<Option<i64>>,
    msg: Option<Option<Seq<char>>>,
) -> Option<ErrorText> {
    match code {
        Some(Some(code)) => Some(
            business_error_text(
                code as int,
                match msg {
                    Some(Some(msg)) => msg,
                    _ => seq![],
                },
            ),
        ),
        _ => None,
    }
}

/// The business error that a response carries: its first line that is JSON gives the code and the
/// message.
pub open spec fn business_error_in(raw: Seq<char>) -> Option<ErrorText> {
    match first_document(lines_of(raw)) {
        Some(line) => lookup_business_error(
            json_integer(line, "/data/biz_code"@),
            json_string(line, "/data/biz_msg"@),
        ),
        None => None,
    }
}

/// The error that a business code and message stand for.
pub fn business_error(code: i64, msg: &str) -> (r: CoreError)
    ensures
        r@ == business_error_text(code as int, msg@),
{
    let mut text = String::new();
    text.append("biz_code=");
    push_decimal(&mut text, code);
    text.append(", ");
    text.append(msg);
    proof {
        assert(text@ =~= "biz_code="@ + decimal(code as int) + ", "@ + msg@);
    }
    CoreError::ProviderError(text)
}

/// The business error of a line in which a code and a message have been looked up.
pub fn business_error_of_lookups(
    code: Option<Option<i64>>,
    msg: Option<Option<String>>,
) -> (r: Option<CoreError>)
    ensures
        error_text(r) == lookup_business_error(code, found_string(msg)),
{
    match code {
        Some(Some(code)) => {
            let msg = match msg {
                Some(Some(msg)) => msg,
                _ => String::new(),
            };
            Some(business_error(code, msg.as_str()))
        },
        _ => None,
    }
}

/// The business error that a response carries which is JSON and no stream of events.
pub fn find_business_error(raw: &str) -> (r: Option<CoreError>)
    ensures
        error_text(r) == business_error_in(raw@),
{
    let all = lines(chars_of(raw).as_slice());
    let ghost rest = lines_of(raw@);
    proof {
        assert(rest.skip(0) =~= rest);
    }
    for i in 0..all.len()
        invariant
            texts(all@) == rest,
            rest == lines_of(raw@),
            first_document(rest) == first_document(rest.skip(i as int)),
    {
        proof {
            assert(rest.skip(i as int).first() == all@[i as int]@);
            assert(rest.skip(i as int).drop_first() =~= rest.skip(i + 1));
        }
        let line = string_of(all[i].as_slice());
        let code = json_integer_at(line.as_str(), "/data/biz_code");
        if code.is_some() {
            let msg = json_string_at(line.as_str(), "/data/biz_msg");
            return business_error_of_lookups(code, msg);
        }
    }
    None
}

/// Whether a response begins with a brace, apart from white space.
pub open spec fn looks_like_json(raw: Seq<char>) -> bool {
    trimmed(raw).len() > 0 && trimmed(raw)[0] == '{'
}

/// Whether a response begins with a brace, apart from white space.
pub fn begins_with_brace(raw: &str) -> (r: bool)
    ensures
        r == looks_like_json(raw@),
{
    let chars = chars_of(raw);
    let text = trim(chars.as_slice());
    text.len() > 0 && text[0] == '{'
}

} // verus!
