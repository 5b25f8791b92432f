//! Server-sent events of chat completion endpoints.

use crate::json::{
    get_of, item_at, item_of, member, member_of, parse, parsed, str_of, text_of, Json, JsonNode,
};
use crate::text::{
    chars_of, is_blank, is_white, lines, lines_of, same_chars, starts_with, string_of,
    strip_prefix, strip_prefix_text, trim, trim_chars, trim_start, trim_start_chars, views,
};
use vstd::prelude::*;

verus! {

/// The data of a line, where the line carries any.
pub open spec fn data_field(line: Seq<char>) -> Option<Seq<char>> {
    match strip_prefix(trim_start(line), "data:"@) {
        Some(data) => Some(trim(data)),
        None => None,
    }
}

/// The data of those of the given lines that carry any, in order.
pub open spec fn data_of(all: Seq<Seq<char>>) -> Seq<Seq<char>>
    decreases all.len(),
{
    if all.len() == 0 {
        Seq::empty()
    } else {
        match data_field(all.last()) {
            Some(data) => data_of(all.drop_last()).push(data),
            None => data_of(all.drop_last()),
        }
    }
}

/// The data is an event, and not the mark of the end or of nothing.
pub open spec fn is_event(data: Seq<char>) -> bool {
    data.len() > 0 && data != "[DONE]"@
}

/// The text that an event adds to the answer: `choices[0].delta.content`.
pub open spec fn delta_text(event: JsonNode) -> Seq<char> {
    match text_of(
        member_of(member_of(item_of(member(event, "choices"@), 0), "delta"@), "content"@),
    ) {
        Some(text) => text,
        None => Seq::empty(),
    }
}

/// What a stream amounts to: the text of its events one after another, or the first event that
/// stops it.
pub enum StreamRead {
    Text(Seq<char>),
    /// An event was no JSON.
    Invalid,
    /// An event told of an error, with its code and its message.
    Rejected(Seq<char>, Seq<char>),
}

/// The code of an error event.
pub open spec fn error_code(error: JsonNode) -> Seq<char> {
    match text_of(member(error, "code"@)) {
        Some(code) => code,
        None => "unknown_error"@,
    }
}

/// The message of an error event.
pub open spec fn error_message(error: JsonNode) -> Seq<char> {
    match text_of(member(error, "message"@)) {
        Some(message) => message,
        None => "(no message)"@,
    }
}

/// A stream that has given `text` so far reads one more event. Where `heed_errors` holds, an
/// event that tells of an error stops the stream.
pub open spec fn after_event(text: Seq<char>, event: JsonNode, heed_errors: bool) -> StreamRead {
    match member(event, "error"@) {
        Some(error) => if heed_errors {
            StreamRead::Rejected(error_code(error), error_message(error))
        } else {
            StreamRead::Text(text + delta_text(event))
        },
        None => StreamRead::Text(text + delta_text(event)),
    }
}

/// A stream reads the data of one more line.
pub open spec fn after_data(read: StreamRead, data: Seq<char>, heed_errors: bool) -> StreamRead {
    match read {
        StreamRead::Text(text) => if !is_event(data) {
            read
        } else {
            match parsed(data) {
                Some(event) => after_event(text, event, heed_errors),
                None => StreamRead::Invalid,
            }
        },
        _ => read,
    }
}

/// What the data of the given lines amounts to.
pub open spec fn stream_read(all: Seq<Seq<char>>, heed_errors: bool) -> StreamRead
    decreases all.len(),
{
    if all.len() == 0 {
        StreamRead::Text(Seq::empty())
    } else {
        after_data(stream_read(all.drop_last(), heed_errors), all.last(), heed_errors)
    }
}

/// Lines without data can stand anywhere in a stream and change nothing.
pub proof fn law_other_lines_are_ignored(
    before: Seq<Seq<char>>,
    line: Seq<char>,
    after: Seq<Seq<char>>,
)
    requires
        data_field(line) is None,
    ensures
        data_of(before.push(line) + after) == data_of(before + after),
    decreases after.len(),
{
    let with = before.push(line) + after;
    let without = before + after;
    if after.len() == 0 {
        assert(with =~= before.push(line));
        assert(with.drop_last() =~= before);
        assert(without =~= before);
    } else {
        law_other_lines_are_ignored(before, line, after.drop_last());
        assert(with.drop_last() =~= before.push(line) + after.drop_last());
        assert(without.drop_last() =~= before + after.drop_last());
    }
}

/// Once an event has stopped a stream, nothing that follows changes what it amounts to.
pub proof fn law_first_stop_wins(
    before: Seq<Seq<char>>,
    after: Seq<Seq<char>>,
    heed_errors: bool,
)
    requires
        !(stream_read(before, heed_errors) is Text),
    ensures
        stream_read(before + after, heed_errors) == stream_read(before, heed_errors),
    decreases after.len(),
{
    if after.len() == 0 {
        assert(before + after =~= before);
    } else {
        law_first_stop_wins(before, after.drop_last(), heed_errors);
        assert((before + after).drop_last() =~= before + after.drop_last());
    }
}

/// A stream that is not stopped gives the text of its first part and then that of the rest.
pub proof fn law_stream_text_is_joined(
    before: Seq<Seq<char>>,
    after: Seq<Seq<char>>,
    heed_errors: bool,
)
    requires
        stream_read(before, heed_errors) is Text,
        stream_read(after, heed_errors) is Text,
    ensures
        stream_read(before + after, heed_errors) == StreamRead::Text(
            stream_read(before, heed_errors)->Text_0 + stream_read(after, heed_errors)->Text_0,
        ),
    decreases after.len(),
{
    let first = stream_read(before, heed_errors)->Text_0;
    if after.len() == 0 {
        assert(before + after =~= before);
        assert(first + Seq::<char>::empty() =~= first);
    } else {
        let init = after.drop_last();
        assert(stream_read(init, heed_errors) is Text);
        law_stream_text_is_joined(before, init, heed_errors);
        assert((before + after).drop_last() =~= before + init);
        let middle = stream_read(init, heed_errors)->Text_0;
        if is_event(after.last()) && parsed(after.last()) is Some {
            let delta = delta_text(parsed(after.last())->0);
            assert(first + (middle + delta) =~= (first + middle) + delta);
        }
    }
}

/// What a stream amounts to, as a value.
#[derive(Debug, Clone, PartialEq, Eq)]
pub enum StreamOutcome {
    Text(String),
    Invalid,
    Rejected { code: String, message: String },
}

impl View for StreamOutcome {
    type V = StreamRead;

    open spec fn view(&self) -> StreamRead {
        match self {
            StreamOutcome::Text(text) => StreamRead::Text(text@),
            StreamOutcome::Invalid => StreamRead::Invalid,
            StreamOutcome::Rejected { code, message } => StreamRead::Rejected(code@, message@),
        }
    }
}

/// The data of each line of a payload that carries any.
pub fn data_lines(payload: &str) -> (all: Vec<Vec<char>>)
    ensures
        views(all@) == data_of(lines(payload@)),
{
    let chars: Vec<char> = chars_of(payload);
    let list: Vec<Vec<char>> = lines_of(&chars);
    let mut all: Vec<Vec<char>> = Vec::new();
    let mut i: usize = 0;
    assert(views(all@) =~= data_of(views(list@).take(0)));
    while i < list.len()
        invariant
            i <= list@.len(),
            views(all@) == data_of(views(list@).take(i as int)),
        decreases list@.len() - i,
    {
        assert(views(list@).take(i + 1).drop_last() =~= views(list@).take(i as int));
        assert(views(list@).take(i + 1).last() == list@[i as int]@);
        let ghost before = all@;
        match strip_prefix_text(trim_start_chars(&list[i]), "data:") {
            Some(data) => {
                all.push(crate::text::copy_chars(trim_chars(data)));
                assert(views(all@) =~= views(before).push(trim(data@)));
            },
            None => {},
        }
        i = i + 1;
    }
    assert(views(list@).take(list@.len() as int) =~= views(list@));
    all
}

/// The text that an event adds to the answer.
pub fn delta_content(event: &Json) -> (text: String)
    ensures
        text@ == delta_text(event@),
{
    match str_of(get_of(get_of(item_at(event.get("choices"), 0), "delta"), "content")) {
        Some(text) => text.to_owned(),
        None => String::new(),
    }
}

/// Reads one event after `text`.
pub fn read_event(text: String, event: &Json, heed_errors: bool) -> (outcome: StreamOutcome)
    ensures
        outcome@ == after_event(text@, event@, heed_errors),
{
    match event.get("error") {
        Some(error) => if heed_errors {
            let code: String = match str_of(error.get("code")) {
                Some(code) => code.to_owned(),
                None => "unknown_error".to_owned(),
            };
            let message: String = match str_of(error.get("message")) {
                Some(message) => message.to_owned(),
                None => "(no message)".to_owned(),
            };
            return StreamOutcome::Rejected { code, message };
        },
        None => {},
    }
    let mut joined: String = text;
    joined.append(delta_content(event).as_str());
    StreamOutcome::Text(joined)
}

/// Reads the events of a stream, given the data of its lines.
pub fn read_stream(all: &Vec<Vec<char>>, heed_errors: bool) -> (outcome: StreamOutcome)
    ensures
        outcome@ == stream_read(views(all@), heed_errors),
{
    let mut text: String = String::new();
    let mut i: usize = 0;
    let done: Vec<char> = chars_of("[DONE]");
    assert(views(all@).take(0) =~= Seq::empty());
    while i < all.len()
        invariant
            i <= all@.len(),
            done@ == "[DONE]"@,
            StreamRead::Text(text@) == stream_read(views(all@).take(i as int), heed_errors),
        decreases all@.len() - i,
    {
        let ghost next = views(all@).take(i + 1);
        assert(next.drop_last() =~= views(all@).take(i as int));
        assert(next.last() == all@[i as int]@);
        assert(views(all@) =~= next + views(all@).skip(i + 1));
        if all[i].len() > 0 && !same_chars(&all[i], &done) {
            let data: String = string_of(&all[i]);
            let outcome: StreamOutcome = match parse(data.as_str()) {
                Some(event) => read_event(text, &event, heed_errors),
                None => StreamOutcome::Invalid,
            };
            match outcome {
                StreamOutcome::Text(joined) => {
                    text = joined;
                },
                stopped => {
                    proof {
                        law_first_stop_wins(next, views(all@).skip(i + 1), heed_errors);
                    }
                    return stopped;
                },
            }
        }
        i = i + 1;
    }
    assert(views(all@).take(all@.len() as int) =~= views(all@));
    StreamOutcome::Text(text)
}

// What a stream says.

/// A piece of an answer is added to what was read before, character for character, white space
/// included. An event without one adds nothing.
pub proof fn law_pieces_are_added_as_they_are(
    before: Seq<char>,
    event: JsonNode,
    choices: Seq<JsonNode>,
    delta: JsonNode,
    piece: Seq<char>,
    heed_errors: bool,
)
    requires
        member(event, "error"@) is None || !heed_errors,
    ensures
        member(event, "choices"@) == Some(JsonNode::Array(choices)) && choices.len() > 0 && member(
            choices[0],
            "delta"@,
        ) == Some(delta) && member(delta, "content"@) == Some(JsonNode::Text(piece)) ==> after_event(
            before,
            event,
            heed_errors,
        ) == StreamRead::Text(before + piece),
        member(event, "choices"@) is None ==> after_event(before, event, heed_errors)
            == StreamRead::Text(before),
        member(event, "choices"@) == Some(JsonNode::Array(choices)) && choices.len() == 0
            ==> after_event(before, event, heed_errors) == StreamRead::Text(before),
        member(event, "choices"@) == Some(JsonNode::Array(choices)) && choices.len() > 0 && member(
            choices[0],
            "delta"@,
        ) is None ==> after_event(before, event, heed_errors) == StreamRead::Text(before),
        member(event, "choices"@) == Some(JsonNode::Array(choices)) && choices.len() > 0 && member(
            choices[0],
            "delta"@,
        ) == Some(delta) && (member(delta, "content"@) is None || member(delta, "content"@)->0 !is Text)
            ==> after_event(before, event, heed_errors) == StreamRead::Text(before),
{
    assert(before + Seq::empty() =~= before);
}

/// An error in a stream that heeds errors ends it, with the code and the message that it tells.
pub proof fn law_errors_are_told(
    before: Seq<char>,
    event: JsonNode,
    error: JsonNode,
    code: Seq<char>,
    message: Seq<char>,
)
    requires
        member(event, "error"@) == Some(error),
    ensures
        member(error, "code"@) == Some(JsonNode::Text(code)) && member(error, "message"@) == Some(
            JsonNode::Text(message),
        ) ==> after_event(before, event, true) == StreamRead::Rejected(code, message),
        after_event(before, event, true) is Rejected,
        member(error, "code"@) is None ==> after_event(before, event, true)->Rejected_0
            == "unknown_error"@,
        member(error, "message"@) is None ==> after_event(before, event, true)->Rejected_1
            == "(no message)"@,
{
}

/// The data of a line stands behind its mark, trimmed. A line without the mark has none.
pub proof fn law_data_stands_behind_its_mark(before: Seq<char>, data: Seq<char>, line: Seq<char>)
    requires
        is_blank(before),
    ensures
        data_field(before + "data:"@ + data) == Some(trim(data)),
        line.len() > 0 && !is_white(line[0]) && line[0] != 'd' ==> data_field(line) is None,
        data_field(Seq::empty()) is None,
{
    reveal_strlit("data:");
    let marked = "data:"@ + data;
    let s = before + "data:"@ + data;
    assert(s =~= before + marked);
    lemma_trim_start_of_blank(before, marked);
    assert(marked.subrange(0, 5) =~= "data:"@);
    assert(marked.skip(5) =~= data);
    if line.len() > 0 && !is_white(line[0]) && line[0] != 'd' {
        if starts_with(line, "data:"@) {
            assert(line.subrange(0, 5)[0] == line[0]);
        }
    }
}

proof fn lemma_trim_start_of_blank(before: Seq<char>, rest: Seq<char>)
    requires
        is_blank(before),
        rest.len() > 0,
        !is_white(rest[0]),
    ensures
        trim_start(before + rest) == rest,
    decreases before.len(),
{
    let s = before + rest;
    if before.len() > 0 {
        assert(s[0] == before[0]);
        assert(s.skip(1) =~= before.skip(1) + rest);
        assert forall|i: int| 0 <= i < before.skip(1).len() implies is_white(
            #[trigger] before.skip(1)[i],
        ) by {
            assert(is_white(before[i + 1]));
        }
        lemma_trim_start_of_blank(before.skip(1), rest);
    } else {
        assert(s =~= rest);
    }
}

/// The data of lines is that of each of them, in order.
pub proof fn law_data_comes_in_order(before: Seq<Seq<char>>, line: Seq<char>, after: Seq<Seq<char>>)
    ensures
        data_field(line) matches Some(data) ==> data_of(before.push(line) + after) == data_of(
            before,
        ).push(data) + data_of(after),
        data_of(before + after) == data_of(before) + data_of(after),
    decreases after.len(),
{
    if after.len() == 0 {
        assert(before.push(line) + after =~= before.push(line));
        assert(before.push(line).drop_last() =~= before);
        assert(before + after =~= before);
        assert(data_of(before) + data_of(after) =~= data_of(before));
        if let Some(data) = data_field(line) {
            assert(data_of(before).push(data) + data_of(after) =~= data_of(before).push(data));
        }
    } else {
        law_data_comes_in_order(before, line, after.drop_last());
        assert((before.push(line) + after).drop_last() =~= before.push(line) + after.drop_last());
        assert((before + after).drop_last() =~= before + after.drop_last());
        if let Some(data) = data_field(line) {
            assert(data_of(before.push(line) + after) =~= data_of(before).push(data) + data_of(after));
        }
        assert(data_of(before + after) =~= data_of(before) + data_of(after));
    }
}

/// The end mark and empty data change nothing, data that is no JSON ends a stream, and other data is
/// an event.
pub proof fn law_data_is_read_in_turn(
    all: Seq<Seq<char>>,
    data: Seq<char>,
    before: Seq<char>,
    heed_errors: bool,
)
    requires
        stream_read(all, heed_errors) == StreamRead::Text(before),
    ensures
        data.len() == 0 || data == "[DONE]"@ ==> stream_read(all.push(data), heed_errors)
            == StreamRead::Text(before),
        data.len() > 0 && data != "[DONE]"@ ==> match parsed(data) {
            Some(event) => stream_read(all.push(data), heed_errors) == after_event(
                before,
                event,
                heed_errors,
            ),
            None => stream_read(all.push(data), heed_errors) == StreamRead::Invalid,
        },
        stream_read(Seq::empty(), heed_errors) == StreamRead::Text(Seq::empty()),
{
    assert(all.push(data).drop_last() =~= all);
}

/// A line without the mark holds no data, and what an error says other than as text is not told.
pub proof fn law_other_lines_hold_no_data(
    line: Seq<char>,
    before: Seq<char>,
    event: JsonNode,
    error: JsonNode,
)
    ensures
        line.len() > 0 && !is_white(line[0]) && !starts_with(line, "data:"@) ==> data_field(
            line,
        ) is None,
        member(event, "error"@) == Some(error) && member(error, "code"@) is Some && member(
            error,
            "code"@,
        )->0 !is Text ==> after_event(before, event, true)->Rejected_0 == "unknown_error"@,
        member(event, "error"@) == Some(error) && member(error, "message"@) is Some && member(
            error,
            "message"@,
        )->0 !is Text ==> after_event(before, event, true)->Rejected_1 == "(no message)"@,
{
}

} // verus!
