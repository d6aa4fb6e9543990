//! What events and error responses amount to, told by their texts.
use crate::error::ErrorText;
use crate::outside::{json_integer, json_string};
use crate::sse::{
    business_error_in, event_is, excerpt, first_document, first_ids, hint_error, json_error,
    line_ids, line_names_event, looks_like_json, ready_ids, two_events,
};
use crate::text::{
    decimal, has_text, lines_of, occurs_at, split_on, trimmed, without_prefix,
};
use crate::text_laws::{law_prefix_is_taken_off, law_split_at_the_first_separator};
use vstd::prelude::*;

verus! {

/// Whether a text ends where an empty line first follows it.
pub open spec fn ends_at_blank_line(a: Seq<char>) -> bool {
    forall|j: int| 0 <= j < a.len() ==> !#[trigger] occurs_at(a + "\n\n"@, "\n\n"@, j)
}

/// The first two events of a text stand before its first two empty lines.
pub proof fn law_two_events_end_at_blank_lines(a: Seq<char>, b: Seq<char>, rest: Seq<char>)
    requires
        ends_at_blank_line(a),
        ends_at_blank_line(b),
    ensures
        two_events(a + "\n\n"@ + (b + "\n\n"@ + rest)) == Some((a, b)),
        two_events(a + "\n\n"@ + b) is None,
        two_events(a) is None,
{
    reveal_strlit("\n\n");
    let p = "\n\n"@;
    law_split_at_the_first_separator(a, p, b + p + rest);
    law_split_at_the_first_separator(b, p, rest);
    law_split_at_the_first_separator(a, p, b);
    assert(split_on(rest, p).len() > 0);
    let parts = split_on(a + p + (b + p + rest), p);
    assert(parts[0] == a);
    assert(parts[1] == b);
}

/// An event has the name that one of its lines gives it behind `event:`. White space around the
/// line and around the name does not count.
pub proof fn law_event_is_named_by_a_line(event: Seq<char>, name: Seq<char>)
    ensures
        event_is(event, name) <==> exists|i: int, value: Seq<char>|
            #![trigger lines_of(event)[i], trimmed(value)]
            0 <= i < lines_of(event).len() && trimmed(lines_of(event)[i]) == "event:"@ + value
                && trimmed(value) == name,
{
    let lines = lines_of(event);
    if event_is(event, name) {
        let i = choose|i: int|
            0 <= i < lines.len() && line_names_event(#[trigger] lines[i], name);
        let value = without_prefix(trimmed(lines[i]), "event:"@)->0;
        law_prefix_is_taken_off(trimmed(lines[i]), "event:"@, value);
        assert(trimmed(value) == name);
    }
    if exists|i: int, value: Seq<char>|
        #![trigger lines[i], trimmed(value)]
        0 <= i < lines.len() && trimmed(lines[i]) == "event:"@ + value && trimmed(value) == name {
        let (i, value) = choose|i: int, value: Seq<char>|
            #![trigger lines[i], trimmed(value)]
            0 <= i < lines.len() && trimmed(lines[i]) == "event:"@ + value && trimmed(value)
                == name;
        law_prefix_is_taken_off(trimmed(lines[i]), "event:"@, value);
        assert(line_names_event(lines[i], name));
    }
}

/// Only a hint is an error: a rate limit comes before an input that is too long, and any other hint
/// is none.
pub proof fn law_hints_are_errors(event: Seq<char>)
    ensures
        hint_error(event) == Some(ErrorText::Overloaded) <==> event_is(event, "hint"@) && has_text(
            event,
            "rate_limit"@,
        ),
        hint_error(event) == Some(ErrorText::ProviderError("输入内容超长，请缩短后重试"@)) <==> event_is(
            event,
            "hint"@,
        ) && !has_text(event, "rate_limit"@) && has_text(event, "input_exceeds_limit"@),
        hint_error(event) is None <==> !event_is(event, "hint"@) || (!has_text(
            event,
            "rate_limit"@,
        ) && !has_text(event, "input_exceeds_limit"@)),
{
}

/// A line carries the ids of two messages where it is a data line whose JSON holds both.
pub proof fn law_line_carries_ids(line: Seq<char>, data: Seq<char>, r: i64, s: i64)
    ensures
        line == "data: "@ + data ==> (line_ids(line) == Some((r, s)) <==> json_integer(
            data,
            "/request_message_id"@,
        ) == Some(Some(r)) && json_integer(data, "/response_message_id"@) == Some(Some(s))),
        line_ids(line) is Some ==> exists|d: Seq<char>| line == #[trigger] ("data: "@ + d),
{
    law_prefix_is_taken_off(line, "data: "@, data);
    if line_ids(line) is Some {
        let d = without_prefix(line, "data: "@)->0;
        law_prefix_is_taken_off(line, "data: "@, d);
        assert(line == "data: "@ + d);
    }
}

/// The first line that carries ids decides, and where none does, they are 1 and 2.
pub proof fn law_first_line_with_ids_decides(event: Seq<char>)
    ensures
        ({
            let lines = lines_of(event);
            ||| {
                &&& ready_ids(event) == (1i64, 2i64)
                &&& forall|i: int| 0 <= i < lines.len() ==> line_ids(#[trigger] lines[i]) is None
            }
            ||| exists|k: int|
                {
                    &&& 0 <= k < lines.len()
                    &&& line_ids(#[trigger] lines[k]) == Some(ready_ids(event))
                    &&& forall|i: int| 0 <= i < k ==> line_ids(#[trigger] lines[i]) is None
                }
        }),
{
    lemma_first_ids(lines_of(event));
}

proof fn lemma_first_ids(lines: Seq<Seq<char>>)
    ensures
        ({
            ||| {
                &&& first_ids(lines) == (1i64, 2i64)
                &&& forall|i: int| 0 <= i < lines.len() ==> line_ids(#[trigger] lines[i]) is None
            }
            ||| exists|k: int|
                {
                    &&& 0 <= k < lines.len()
                    &&& line_ids(#[trigger] lines[k]) == Some(first_ids(lines))
                    &&& forall|i: int| 0 <= i < k ==> line_ids(#[trigger] lines[i]) is None
                }
        }),
    decreases lines.len(),
{
    if lines.len() > 0 {
        if line_ids(lines[0]) is Some {
            assert(line_ids(lines[0]) == Some(first_ids(lines)));
        } else {
            let rest = lines.drop_first();
            lemma_first_ids(rest);
            assert forall|i: int| 0 < i < lines.len() implies lines[i] == rest[i - 1] by {}
            if exists|k: int|
                {
                    &&& 0 <= k < rest.len()
                    &&& line_ids(#[trigger] rest[k]) == Some(first_ids(rest))
                    &&& forall|i: int| 0 <= i < k ==> line_ids(#[trigger] rest[i]) is None
                } {
                let k = choose|k: int|
                    {
                        &&& 0 <= k < rest.len()
                        &&& line_ids(#[trigger] rest[k]) == Some(first_ids(rest))
                        &&& forall|i: int| 0 <= i < k ==> line_ids(#[trigger] rest[i]) is None
                    };
                assert(lines[k + 1] == rest[k]);
                assert forall|i: int| 0 <= i < k + 1 implies line_ids(#[trigger] lines[i])
                    is None by {
                    if i > 0 {
                        assert(lines[i] == rest[i - 1]);
                    }
                }
            }
        }
    }
}

/// An error response is told by its code: 1001 and 1201 are a rate limit, 40301 is a refused proof
/// of work, any other is reported with its number and message, and a response without a code with
/// its first 200 characters.
pub proof fn law_error_response_is_told_by_its_code(text: Seq<char>)
    ensures
        ({
            let raw = trimmed(text);
            let msg = match json_string(raw, "/msg"@) {
                Some(Some(msg)) => msg,
                _ => "unknown"@,
            };
            match json_integer(raw, "/code"@) {
                Some(Some(code)) => {
                    &&& json_error(text) == ErrorText::Overloaded <==> code == 1001 || code == 1201
                    &&& code == 40301 ==> json_error(text) == ErrorText::ProviderError(
                        "INVALID_POW_RESPONSE: "@ + msg,
                    )
                    &&& code != 40301 && code != 1001 && code != 1201 ==> json_error(text)
                        == ErrorText::ProviderError(
                        "API error code="@ + decimal(code as int) + ": "@ + msg,
                    )
                },
                _ => json_error(text) == ErrorText::Stream(
                    "无法解析的响应: "@ + raw.take(
                        if raw.len() < 200 {
                            raw.len() as int
                        } else {
                            200
                        },
                    ),
                ),
            }
        }),
{
    let raw = trimmed(text);
    assert(excerpt(raw) =~= raw.take(
        if raw.len() < 200 {
            raw.len() as int
        } else {
            200
        },
    ));
}

proof fn lemma_first_document(lines: Seq<Seq<char>>)
    ensures
        first_document(lines) is None ==> forall|i: int|
            0 <= i < lines.len() ==> json_integer(#[trigger] lines[i], "/data/biz_code"@) is None,
        first_document(lines) matches Some(line) ==> exists|k: int|
            {
                &&& 0 <= k < lines.len()
                &&& line == #[trigger] lines[k]
                &&& json_integer(line, "/data/biz_code"@) is Some
                &&& forall|i: int|
                    0 <= i < k ==> json_integer(#[trigger] lines[i], "/data/biz_code"@) is None
            },
    decreases lines.len(),
{
    if lines.len() > 0 {
        if json_integer(lines[0], "/data/biz_code"@) is Some {
            assert(lines.first() == lines[0]);
        } else {
            let rest = lines.drop_first();
            lemma_first_document(rest);
            assert forall|i: int| 0 < i < lines.len() implies lines[i] == rest[i - 1] by {}
            if let Some(line) = first_document(rest) {
                let k = choose|k: int|
                    {
                        &&& 0 <= k < rest.len()
                        &&& line == #[trigger] rest[k]
                        &&& json_integer(line, "/data/biz_code"@) is Some
                        &&& forall|i: int|
                            0 <= i < k ==> json_integer(#[trigger] rest[i], "/data/biz_code"@)
                                is None
                    };
                assert(lines[k + 1] == rest[k]);
                assert forall|i: int| 0 <= i < k + 1 implies json_integer(
                    #[trigger] lines[i],
                    "/data/biz_code"@,
                ) is None by {
                    if i > 0 {
                        assert(lines[i] == rest[i - 1]);
                    }
                }
            }
        }
    }
}

/// A business error is told by the first line that is JSON: its code and its message, which is
/// empty where there is none. A response in which that line has no code carries none.
pub proof fn law_business_error_is_told_by_the_first_document(raw: Seq<char>, k: int)
    requires
        0 <= k < lines_of(raw).len(),
        json_integer(lines_of(raw)[k], "/data/biz_code"@) is Some,
        forall|i: int|
            0 <= i < k ==> json_integer(#[trigger] lines_of(raw)[i], "/data/biz_code"@) is None,
    ensures
        business_error_in(raw) == match json_integer(lines_of(raw)[k], "/data/biz_code"@) {
            Some(Some(code)) => Some(
                ErrorText::ProviderError(
                    "biz_code="@ + decimal(code as int) + ", "@ + match json_string(
                        lines_of(raw)[k],
                        "/data/biz_msg"@,
                    ) {
                        Some(Some(msg)) => msg,
                        _ => seq![],
                    },
                ),
            ),
            _ => None,
        },
{
    let lines = lines_of(raw);
    lemma_first_document(lines);
    match first_document(lines) {
        None => {
            assert(json_integer(lines[k], "/data/biz_code"@) is None);
        },
        Some(line) => {
            let m = choose|m: int|
                {
                    &&& 0 <= m < lines.len()
                    &&& line == #[trigger] lines[m]
                    &&& json_integer(line, "/data/biz_code"@) is Some
                    &&& forall|i: int|
                        0 <= i < m ==> json_integer(#[trigger] lines[i], "/data/biz_code"@) is None
                };
            if m < k {
                assert(json_integer(lines[m], "/data/biz_code"@) is None);
            }
            if k < m {
                assert(json_integer(lines[k], "/data/biz_code"@) is None);
            }
        },
    }
}

/// A response without a line that is JSON carries no business error.
pub proof fn law_no_business_error_without_json(raw: Seq<char>)
    requires
        forall|i: int|
            0 <= i < lines_of(raw).len() ==> json_integer(
                #[trigger] lines_of(raw)[i],
                "/data/biz_code"@,
            ) is None,
    ensures
        business_error_in(raw) is None,
{
    lemma_first_document(lines_of(raw));
}

/// A response is taken for JSON exactly where it begins with a brace, apart from white space.
pub proof fn law_json_begins_with_a_brace(raw: Seq<char>)
    ensures
        looks_like_json(raw) <==> exists|rest: Seq<char>| trimmed(raw) == #[trigger] (seq!['{']
            + rest),
{
    let t = trimmed(raw);
    if looks_like_json(raw) {
        assert(t =~= seq!['{'] + t.skip(1));
    }
}

} // verus!
