//! When a refused request is sent once more in another form.

use crate::json::{member, parse, parsed, signed, text, Json, JsonNode};
use crate::text::{
    chars_of, contains, contains_text, lemma_contains_middle, parse_signed, signed_value,
};
use vstd::prelude::*;

verus! {

/// The code of the error with which some gateways refuse every request without streaming.
pub const NON_STREAM_REFUSED: i64 = 11101;

/// The status is one of success.
pub open spec fn is_success(status: u16) -> bool {
    200 <= status < 300
}

/// The number that an error code is, or that its text writes.
pub open spec fn code_number(code: JsonNode) -> Option<int> {
    match signed(code) {
        Some(n) => Some(n),
        None => match text(code) {
            Some(written) => match signed_value(written) {
                Some(n) => if i64::MIN <= n <= i64::MAX {
                    Some(n)
                } else {
                    None
                },
                None => None,
            },
            None => None,
        },
    }
}

/// The error that a body tells of: its member `error`, or the whole of it.
pub open spec fn error_part(body: JsonNode) -> JsonNode {
    match member(body, "error"@) {
        Some(error) => error,
        None => body,
    }
}

/// The number of the error that a body tells of.
pub open spec fn error_number(body: JsonNode) -> Option<int> {
    match member(error_part(body), "code"@) {
        Some(code) => code_number(code),
        None => None,
    }
}

/// The body of a refusal, read as `value` where it is JSON, says that requests without streaming
/// are not supported.
pub open spec fn refuses_non_stream(value: Option<JsonNode>, body: Seq<char>) -> bool {
    ||| value is Some && error_number(value->0) == Some(NON_STREAM_REFUSED as int)
    ||| contains(body, "Non-stream chat request is currently not supported"@)
}

/// The number of the error that a body tells of.
pub fn error_number_of(body: &Json) -> (number: Option<i64>)
    ensures
        match number {
            Some(n) => error_number(body@) == Some(n as int),
            None => error_number(body@) is None,
        },
{
    let error: &Json = match body.get("error") {
        Some(error) => error,
        None => body,
    };
    match error.get("code") {
        Some(code) => match code.as_i64() {
            Some(n) => Some(n),
            None => match code.as_str() {
                Some(written) => parse_signed(written),
                None => None,
            },
        },
        None => None,
    }
}

/// Whether the body of a refusal, read as `value` where it is JSON, says that requests without
/// streaming are not supported.
pub fn says_stream_only(value: &Option<Json>, body: &str) -> (yes: bool)
    ensures
        yes == refuses_non_stream(
            match value {
                Some(value) => Some(value@),
                None => None,
            },
            body@,
        ),
{
    let chars: Vec<char> = chars_of(body);
    let coded: bool = match value {
        Some(value) => match error_number_of(value) {
            Some(n) => n == NON_STREAM_REFUSED,
            None => false,
        },
        None => false,
    };
    coded || contains_text(&chars, "Non-stream chat request is currently not supported")
}

/// Whether a refused request is worth sending once more, with streaming.
pub fn requires_streaming_retry(status: u16, body: &str) -> (yes: bool)
    ensures
        yes == (status == 400 && refuses_non_stream(parsed(body@), body@)),
{
    if status != 400 {
        return false;
    }
    says_stream_only(&parse(body), body)
}

// When a request is sent once more.

/// A refusal of requests without streaming is known by its code, in the error of the reply or in the
/// reply itself, as a number or written out, and by its words.
pub proof fn law_stream_only_refusals_are_known(
    value: JsonNode,
    error: JsonNode,
    code: Seq<char>,
    a: Seq<char>,
    b: Seq<char>,
    body: Seq<char>,
)
    ensures
        member(value, "error"@) == Some(error) && member(error, "code"@) == Some(
            JsonNode::Unsigned(11101),
        ) ==> refuses_non_stream(Some(value), body),
        member(value, "error"@) == Some(error) && member(error, "code"@) == Some(
            JsonNode::Text(code),
        ) && signed_value(code) == Some(11101int) ==> refuses_non_stream(Some(value), body),
        member(value, "error"@) is None && member(value, "code"@) == Some(JsonNode::Unsigned(11101))
            ==> refuses_non_stream(Some(value), body),
        refuses_non_stream(None, a + "Non-stream chat request is currently not supported"@ + b),
{
    lemma_contains_middle(a, "Non-stream chat request is currently not supported"@, b);
}

/// No other reply is such a refusal: none with another code or without one, where the words are
/// missing.
pub proof fn law_other_replies_are_no_such_refusals(
    value: JsonNode,
    error: JsonNode,
    n: nat,
    body: Seq<char>,
)
    requires
        !contains(body, "Non-stream chat request is currently not supported"@),
        n != 11101,
    ensures
        !refuses_non_stream(None, body),
        member(value, "error"@) == Some(error) && member(error, "code"@) == Some(
            JsonNode::Unsigned(n),
        ) ==> !refuses_non_stream(Some(value), body),
        member(value, "error"@) == Some(error) && member(error, "code"@) is None
            ==> !refuses_non_stream(Some(value), body),
        member(value, "error"@) is None && member(value, "code"@) is None ==> !refuses_non_stream(
            Some(value),
            body,
        ),
{
}

/// The statuses of success are the two hundreds.
pub proof fn law_statuses_of_success(status: u16)
    ensures
        is_success(status) <==> status / 100 == 2,
{
}

} // verus!
