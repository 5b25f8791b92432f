//! What is shown and logged of the tools that the model calls.

use crate::json::{member, nodes, parse, parsed, str_of, text, text_of, Json, JsonNode};
use crate::text::{
    chars_of, decimal, decimal_of, is_ascii_alnum, is_ascii_alphanumeric, is_white, join,
    join_texts, lead, lemma_trim, lemma_trim_part, prefix, prefix_chars, same_text,
    string_of, texts, trim, trim_chars,
};
use crate::app::search_policy::MAX_SEARCH_QUERY_CHARS;
use vstd::prelude::*;

verus! {

// Texts for a log.

/// How much of a text is logged.
pub const MAX_LOG_CONTENT_CHARS: usize = 2_000;

/// A character that would break a line of a log.
pub open spec fn breaks_line(c: char) -> bool {
    c == '\r' || c == '\n' || c == '\t'
}

/// A text on one line.
pub open spec fn flat(s: Seq<char>) -> Seq<char> {
    Seq::new(
        s.len(),
        |i: int|
            if breaks_line(s[i]) {
                ' '
            } else {
                s[i]
            },
    )
}

/// A text on one line, cut after `max` characters with dots in place of the rest.
pub open spec fn logged(s: Seq<char>, max: nat) -> Seq<char> {
    if s.len() <= max {
        flat(s)
    } else {
        flat(s).take(max as int) + "..."@
    }
}

/// A text on one line, cut after `max_chars` characters.
pub fn safe_log_text(value: &str, max_chars: usize) -> (line: String)
    ensures
        line@ == logged(value@, max_chars as nat),
{
    let chars: Vec<char> = chars_of(value);
    let mut line: String = String::new();
    let mut i: usize = 0;
    while i < chars.len() && i < max_chars
        invariant
            i <= chars@.len(),
            i <= max_chars,
            line@ == flat(chars@).take(i as int),
        decreases chars@.len() - i,
    {
        let c: char = chars[i];
        line.push(
            if c == '\r' || c == '\n' || c == '\t' {
                ' '
            } else {
                c
            },
        );
        assert(line@ =~= flat(chars@).take(i + 1));
        i = i + 1;
    }
    if i < chars.len() {
        line.append("...");
    } else {
        assert(flat(chars@).take(i as int) =~= flat(chars@));
    }
    line
}

/// What is logged stays on one line and is bounded.
pub proof fn law_logged_text_is_one_bounded_line(s: Seq<char>, max: nat)
    ensures
        logged(s, max).len() <= max + 3,
        forall|i: int| 0 <= i < logged(s, max).len() ==> !breaks_line(#[trigger] logged(s, max)[i]),
{
    reveal_strlit("...");
}

// Identifiers of runs and calls.

/// How long an identifier is at most.
pub const MAX_TRACE_ID_CHARS: usize = 120;

/// The character may stand in an identifier.
pub open spec fn is_id_char(c: char) -> bool {
    is_ascii_alnum(c) || c == '-' || c == '_'
}

/// The characters of `s` that may stand in an identifier.
pub open spec fn id_chars(s: Seq<char>) -> Seq<char>
    decreases s.len(),
{
    if s.len() == 0 {
        Seq::empty()
    } else if is_id_char(s.last()) {
        id_chars(s.drop_last()).push(s.last())
    } else {
        id_chars(s.drop_last())
    }
}

/// The identifier that a text is made into, if anything of it can stand in one.
pub open spec fn trace_id_of(s: Seq<char>) -> Option<Seq<char>> {
    let id = prefix(id_chars(trim(s)), MAX_TRACE_ID_CHARS as nat);
    if id.len() == 0 {
        None
    } else {
        Some(id)
    }
}

/// The text of an optional one.
pub open spec fn opt_view(s: Option<&str>) -> Option<Seq<char>> {
    match s {
        Some(s) => Some(s@),
        None => None,
    }
}

/// The identifier that an optional text is made into.
pub open spec fn given_trace_id(s: Option<Seq<char>>) -> Option<Seq<char>> {
    match s {
        Some(s) => trace_id_of(s),
        None => None,
    }
}

proof fn lemma_id_chars(s: Seq<char>)
    ensures
        id_chars(s).len() <= s.len(),
        forall|i: int| 0 <= i < id_chars(s).len() ==> is_id_char(#[trigger] id_chars(s)[i]),
        (forall|i: int| 0 <= i < s.len() ==> is_id_char(#[trigger] s[i])) ==> id_chars(s) == s,
    decreases s.len(),
{
    if s.len() > 0 {
        lemma_id_chars(s.drop_last());
        if forall|i: int| 0 <= i < s.len() ==> is_id_char(#[trigger] s[i]) {
            assert forall|i: int| 0 <= i < s.drop_last().len() implies is_id_char(
                #[trigger] s.drop_last()[i],
            ) by {
                assert(s.drop_last()[i] == s[i]);
            }
            assert(s.drop_last().push(s.last()) =~= s);
        }
    } else {
        assert(id_chars(s) =~= s);
    }
}

/// An identifier holds only letters, digits, hyphens and underscores of ASCII, at least one and at
/// most a bounded number, so that nothing in it can forge a line of a log.
pub proof fn law_trace_ids_are_safe(s: Seq<char>)
    ensures
        trace_id_of(s) matches Some(id) ==> {
            &&& 1 <= id.len() <= MAX_TRACE_ID_CHARS
            &&& forall|i: int| 0 <= i < id.len() ==> is_id_char(#[trigger] id[i])
        },
{
    lemma_id_chars(trim(s));
}

/// An identifier is made into itself.
pub proof fn law_trace_ids_are_stable(s: Seq<char>)
    requires
        trace_id_of(s) is Some,
    ensures
        trace_id_of(trace_id_of(s)->0) == trace_id_of(s),
{
    let id = trace_id_of(s)->0;
    law_trace_ids_are_safe(s);
    assert(is_id_char(id[0]));
    assert(is_id_char(id[id.len() - 1]));
    assert(trim(id) == id);
    lemma_id_chars(id);
}

/// The identifier that a text is made into.
pub fn normalized_trace_id(trace_id: Option<&str>) -> (id: Option<String>)
    ensures
        match id {
            Some(id) => given_trace_id(opt_view(trace_id)) == Some(id@),
            None => given_trace_id(opt_view(trace_id)) is None,
        },
{
    let given: &str = match trace_id {
        Some(given) => given,
        None => return None,
    };
    let chars: Vec<char> = chars_of(given);
    let trimmed: &[char] = trim_chars(&chars);
    let mut kept: Vec<char> = Vec::new();
    let mut i: usize = 0;
    assert(trimmed@.take(0).len() == 0);
    while i < trimmed.len()
        invariant
            i <= trimmed@.len(),
            kept@ == id_chars(trimmed@.take(i as int)),
        decreases trimmed@.len() - i,
    {
        assert(trimmed@.take(i + 1).drop_last() =~= trimmed@.take(i as int));
        let c: char = trimmed[i];
        if is_ascii_alphanumeric(c) || c == '-' || c == '_' {
            kept.push(c);
        }
        i = i + 1;
    }
    assert(trimmed@.take(trimmed@.len() as int) =~= trimmed@);
    let bounded: &[char] = prefix_chars(&kept, MAX_TRACE_ID_CHARS);
    if bounded.len() == 0 {
        None
    } else {
        Some(string_of(bounded))
    }
}

/// The identifier of a call: that of the run, the number of the step and that of the call.
pub open spec fn call_trace_id(run_id: Seq<char>, step: nat, call_id: Seq<char>) -> Seq<char> {
    run_id + "-tool-"@ + decimal(step) + "-"@ + match trace_id_of(call_id) {
        Some(id) => id,
        None => "call"@,
    }
}

/// The identifier of a call.
pub fn tool_trace_id(run_id: &str, step: usize, call_id: &str) -> (id: String)
    ensures
        id@ == call_trace_id(run_id@, step as nat, call_id@),
{
    let call: String = match normalized_trace_id(Some(call_id)) {
        Some(call) => call,
        None => "call".to_owned(),
    };
    let number: String = decimal_of(step as u64);
    let mut id: String = run_id.to_owned();
    id.append("-tool-");
    id.append(number.as_str());
    id.append("-");
    id.append(call.as_str());
    id
}

// What a call shows.

/// The query that a call of the search tool shows, given the value of its arguments.
pub open spec fn shown_query(name: Seq<char>, value: Option<JsonNode>) -> Option<Seq<char>> {
    if name != "web_search"@ || value is None {
        None
    } else {
        match text_of(member(value->0, "query"@)) {
            Some(query) => if trim(query).len() == 0 {
                None
            } else {
                Some(logged(trim(query), MAX_SEARCH_QUERY_CHARS as nat))
            },
            None => None,
        }
    }
}

/// The query that a call of the search tool shows, given the value of its arguments.
pub fn query_shown(tool_name: &str, value: Option<Json>) -> (query: Option<String>)
    ensures
        ({
            let shown = shown_query(
                tool_name@,
                match value {
                    Some(value) => Some(value@),
                    None => None,
                },
            );
            match query {
                Some(query) => shown == Some(query@),
                None => shown is None,
            }
        }),
{
    if !same_text(tool_name, "web_search") {
        return None;
    }
    match value {
        Some(value) => match str_of(value.get("query")) {
            Some(query) => {
                let trimmed: String = crate::text::trim_text(query);
                if crate::text::char_count(trimmed.as_str()) == 0 {
                    None
                } else {
                    Some(safe_log_text(trimmed.as_str(), MAX_SEARCH_QUERY_CHARS))
                }
            },
            None => None,
        },
        None => None,
    }
}

/// The query that a call of the search tool shows.
pub fn tool_query(tool_name: &str, raw_arguments: &str) -> (query: Option<String>)
    ensures
        match query {
            Some(query) => shown_query(tool_name@, parsed(raw_arguments@)) == Some(query@),
            None => shown_query(tool_name@, parsed(raw_arguments@)) is None,
        },
{
    query_shown(tool_name, parse(raw_arguments))
}

/// The label of a tool.
pub open spec fn label_of(tool_name: Seq<char>) -> Seq<char> {
    if tool_name == "web_search"@ {
        "搜索网页"@
    } else {
        "使用工具"@
    }
}

/// The label of a tool.
pub fn tool_label(tool_name: &str) -> (label: &'static str)
    ensures
        label@ == label_of(tool_name@),
{
    if same_text(tool_name, "web_search") {
        "搜索网页"
    } else {
        "使用工具"
    }
}

/// The trimmed text, where there is one that is not blank.
pub open spec fn some_text(node: Option<JsonNode>) -> Option<Seq<char>> {
    match text_of(node) {
        Some(s) => if trim(s).len() == 0 {
            None
        } else {
            Some(trim(s))
        },
        None => None,
    }
}

/// The lines that a search result is shown with: its title, or else its address, and its address.
pub open spec fn source_lines(result: JsonNode) -> Option<Seq<char>> {
    match some_text(member(result, "url"@)) {
        Some(url) => {
            let title = match some_text(member(result, "title"@)) {
                Some(title) => title,
                None => url,
            };
            Some(logged(title, 180) + "\n"@ + logged(url, 500))
        },
        None => None,
    }
}

/// The lines of those results that can be shown, in order.
pub open spec fn all_source_lines(results: Seq<JsonNode>) -> Seq<Seq<char>>
    decreases results.len(),
{
    if results.len() == 0 {
        Seq::empty()
    } else {
        match source_lines(results.last()) {
            Some(lines) => all_source_lines(results.drop_last()).push(lines),
            None => all_source_lines(results.drop_last()),
        }
    }
}

/// The first five results, or all where there are fewer.
pub open spec fn first_five(results: Seq<JsonNode>) -> Seq<JsonNode> {
    if results.len() <= 5 {
        results
    } else {
        results.take(5)
    }
}

/// What is shown of the output of a tool: its error, or the sources that it found.
pub open spec fn summary_of(output: JsonNode) -> Option<Seq<char>> {
    match text_of(member(output, "error"@)) {
        Some(error) => Some(logged(error, MAX_LOG_CONTENT_CHARS as nat)),
        None => match member(output, "results"@) {
            Some(JsonNode::Array(results)) => {
                let shown = all_source_lines(first_five(results));
                if results.len() == 0 {
                    Some("没有找到可用结果"@)
                } else if shown.len() == 0 {
                    None
                } else {
                    Some(join(shown, "\n\n"@))
                }
            },
            _ => None,
        },
    }
}

fn some_text_of(json: Option<&Json>) -> (found: Option<String>)
    ensures
        match found {
            Some(s) => some_text(crate::json::node_of(json)) == Some(s@),
            None => some_text(crate::json::node_of(json)) is None,
        },
{
    match str_of(json) {
        Some(s) => {
            let chars: Vec<char> = chars_of(s);
            let trimmed: &[char] = trim_chars(&chars);
            if trimmed.len() == 0 {
                None
            } else {
                Some(string_of(trimmed))
            }
        },
        None => None,
    }
}

fn source_lines_of(result: &Json) -> (lines: Option<String>)
    ensures
        match lines {
            Some(lines) => source_lines(result@) == Some(lines@),
            None => source_lines(result@) is None,
        },
{
    match some_text_of(result.get("url")) {
        Some(url) => {
            let title: String = match some_text_of(result.get("title")) {
                Some(title) => title,
                None => url.clone(),
            };
            let mut lines: String = safe_log_text(title.as_str(), 180);
            lines.append("\n");
            lines.append(safe_log_text(url.as_str(), 500).as_str());
            Some(lines)
        },
        None => None,
    }
}

/// What is shown of the output of a tool.
pub fn tool_result_summary(output: &Json) -> (summary: Option<String>)
    ensures
        match summary {
            Some(summary) => summary_of(output@) == Some(summary@),
            None => summary_of(output@) is None,
        },
{
    match str_of(output.get("error")) {
        Some(error) => return Some(safe_log_text(error, MAX_LOG_CONTENT_CHARS)),
        None => {},
    }
    let results: &Vec<Json> = match output.get("results") {
        Some(results) => match results.as_array() {
            Some(results) => results,
            None => return None,
        },
        None => return None,
    };
    if results.len() == 0 {
        return Some("没有找到可用结果".to_owned());
    }
    let count: usize = if results.len() <= 5 {
        results.len()
    } else {
        5
    };
    let ghost first = first_five(nodes(results@));
    let mut shown: Vec<String> = Vec::new();
    let mut i: usize = 0;
    assert(texts(shown@) =~= all_source_lines(first.take(0)));
    while i < count
        invariant
            i <= count,
            count <= results@.len(),
            first == nodes(results@).take(count as int),
            texts(shown@) == all_source_lines(first.take(i as int)),
        decreases count - i,
    {
        assert(first.take(i + 1).drop_last() =~= first.take(i as int));
        assert(first.take(i + 1).last() == results@[i as int]@);
        let ghost before = shown@;
        match source_lines_of(&results[i]) {
            Some(lines) => {
                shown.push(lines);
                assert(texts(shown@) =~= texts(before).push(lines@));
            },
            None => {},
        }
        i = i + 1;
    }
    assert(first.take(count as int) =~= first);
    if shown.len() == 0 {
        assert(all_source_lines(first).len() == 0);
        None
    } else {
        assert(all_source_lines(first).len() > 0);
        Some(join_texts(&shown, "\n\n"))
    }
}

/// Tells the overlay that a tool has been called or has answered.
#[derive(Debug, Clone)]
pub struct AgentToolTraceEvent {
    pub run_id: String,
    pub trace_id: String,
    pub name: String,
    pub label: String,
    pub status: String,
    pub query: Option<String>,
    pub content: Option<String>,
    pub created_at: u64,
    pub completed_at: Option<u64>,
}

// Timing.

/// The number, or a mark where there is none.
pub open spec fn number_or(n: Option<nat>, none: Seq<char>) -> Seq<char> {
    match n {
        Some(n) => decimal(n),
        None => none,
    }
}

/// The time from `from` to `to`, none where the clock went back.
pub open spec fn since(from: u64, to: u64) -> nat {
    if to <= from {
        0
    } else {
        (to - from) as nat
    }
}

/// The line that records how long a request took, and how long its first byte took where it was
/// streamed.
pub fn request_timing_line(
    model: &str,
    started_at: u64,
    first_byte_at: Option<u64>,
    now: u64,
    outcome: &str,
) -> (line: String)
    ensures
        line@ == "[agent-llm] timing model="@ + logged(model@, 80) + " outcome="@ + outcome@
            + " total_ms="@ + decimal(since(started_at, now)) + " ttft_ms="@ + number_or(
            match first_byte_at {
                Some(at) => Some(since(started_at, at)),
                None => None,
            },
            "n/a"@,
        ),
{
    let mut line: String = "[agent-llm] timing model=".to_owned();
    line.append(safe_log_text(model, 80).as_str());
    line.append(" outcome=");
    line.append(outcome);
    line.append(" total_ms=");
    line.append(decimal_of(now.saturating_sub(started_at)).as_str());
    line.append(" ttft_ms=");
    match first_byte_at {
        Some(at) => line.append(decimal_of(at.saturating_sub(started_at)).as_str()),
        None => line.append("n/a"),
    }
    line
}

// What is shown and logged.

/// A text is logged on one line, character for character but for what would break the line, and is
/// cut and marked as cut only where it is too long.
pub proof fn law_texts_are_logged_as_they_are(s: Seq<char>, max: nat, i: int)
    ensures
        s.len() <= max ==> logged(s, max).len() == s.len(),
        s.len() > max ==> logged(s, max).len() == max + 3 && logged(s, max).skip(max as int) == "..."@,
        0 <= i < s.len() && i < max && (s[i] == '\r' || s[i] == '\n' || s[i] == '\t') ==> logged(
            s,
            max,
        )[i] == ' ',
        0 <= i < s.len() && i < max && s[i] != '\r' && s[i] != '\n' && s[i] != '\t' ==> logged(
            s,
            max,
        )[i] == s[i],
{
    reveal_strlit("...");
    assert("..."@.len() == 3);
    if s.len() > max {
        assert(logged(s, max).skip(max as int) =~= "..."@);
    }
}

/// An identifier keeps the letters, digits, hyphens and underscores of what was given for it, in
/// order, and nothing else.
pub proof fn law_identifiers_keep_what_is_safe(a: Seq<char>, c: char, b: Seq<char>)
    ensures
        id_chars(a + b) == id_chars(a) + id_chars(b),
        is_ascii_alnum(c) || c == '-' || c == '_' ==> id_chars(seq![c]) == seq![c],
        !(is_ascii_alnum(c) || c == '-' || c == '_') ==> id_chars(seq![c]).len() == 0,
    decreases b.len(),
{
    let none = Seq::<char>::empty();
    assert(id_chars(none) =~= none);
    assert(seq![c].drop_last() =~= none);
    assert(none.push(c) =~= seq![c]);
    if b.len() == 0 {
        assert(a + b =~= a);
        assert(id_chars(a) + id_chars(b) =~= id_chars(a));
    } else {
        law_identifiers_keep_what_is_safe(a, c, b.drop_last());
        assert((a + b).drop_last() =~= a + b.drop_last());
        assert(id_chars(a + b) =~= id_chars(a) + id_chars(b));
    }
}

/// A safe identifier of at most a hundred and twenty characters stays as it was given.
pub proof fn law_safe_identifiers_stay(s: Seq<char>)
    requires
        1 <= s.len() <= 120,
        forall|i: int|
            0 <= i < s.len() ==> (is_ascii_alnum(#[trigger] s[i]) || s[i] == '-' || s[i] == '_'),
    ensures
        trace_id_of(s) == Some(s),
{
    lemma_all_id_chars(s);
    lemma_trim(s);
    lemma_trim_part(s);
    assert(!is_white(s[0]) && !is_white(s[s.len() - 1]));
    assert(lead(s) == 0);
    assert(trim(s).len() == s.len());
}

proof fn lemma_all_id_chars(s: Seq<char>)
    requires
        forall|i: int|
            0 <= i < s.len() ==> (is_ascii_alnum(#[trigger] s[i]) || s[i] == '-' || s[i] == '_'),
    ensures
        id_chars(s) == s,
    decreases s.len(),
{
    if s.len() > 0 {
        assert forall|i: int| 0 <= i < s.drop_last().len() implies (is_ascii_alnum(
            #[trigger] s.drop_last()[i],
        ) || s.drop_last()[i] == '-' || s.drop_last()[i] == '_') by {
            assert(s.drop_last()[i] == s[i]);
        }
        lemma_all_id_chars(s.drop_last());
        assert(s.last() == s[s.len() - 1]);
        assert(s.drop_last().push(s.last()) =~= s);
    } else {
        assert(id_chars(s) =~= s);
    }
}

/// The identifier of a call names its run, its step and the call.
pub proof fn law_calls_are_named_after_their_runs(
    run_id: Seq<char>,
    step: nat,
    call_id: Seq<char>,
)
    ensures
        trace_id_of(call_id) is None ==> call_trace_id(run_id, step, call_id) == run_id + "-tool-"@
            + decimal(step) + "-"@ + "call"@,
        trace_id_of(call_id) matches Some(id) ==> call_trace_id(run_id, step, call_id) == run_id
            + "-tool-"@ + decimal(step) + "-"@ + id,
{
}

/// The query of a search is shown, trimmed and on one line. Other tools show none.
pub proof fn law_queries_are_shown(name: Seq<char>, value: JsonNode, query: Seq<char>)
    ensures
        name != "web_search"@ ==> shown_query(name, Some(value)) is None,
        shown_query(name, None) is None,
        member(value, "query"@) == Some(JsonNode::Text(query)) && trim(query).len() > 0 ==> shown_query(
            "web_search"@,
            Some(value),
        ) == Some(logged(trim(query), 300)),
        member(value, "query"@) == Some(JsonNode::Text(query)) && trim(query).len() == 0 ==> shown_query(
            "web_search"@,
            Some(value),
        ) is None,
        label_of("web_search"@) == "搜索网页"@,
        name != "web_search"@ ==> label_of(name) == "使用工具"@,
{
}

/// A source is shown by its title and, on the next line, its address; by its address alone twice where
/// it has no title; and not at all where it has no address.
pub proof fn law_sources_are_shown_with_their_addresses(
    result: JsonNode,
    title: Seq<char>,
    url: Seq<char>,
)
    requires
        trim(url).len() > 0,
        trim(title).len() > 0,
    ensures
        member(result, "url"@) == Some(JsonNode::Text(url)) && member(result, "title"@) == Some(
            JsonNode::Text(title),
        ) ==> source_lines(result) == Some(
            logged(trim(title), 180) + "\n"@ + logged(trim(url), 500),
        ),
        member(result, "url"@) == Some(JsonNode::Text(url)) && member(result, "title"@) is None
            ==> source_lines(result) == Some(logged(trim(url), 180) + "\n"@ + logged(trim(url), 500)),
        member(result, "url"@) is None ==> source_lines(result) is None,
{
}

/// Sources are shown each on its own, in order, and those without an address are left out.
pub proof fn law_sources_are_shown_in_order(a: Seq<JsonNode>, result: JsonNode, b: Seq<JsonNode>)
    ensures
        all_source_lines(a + b) == all_source_lines(a) + all_source_lines(b),
        source_lines(result) is None ==> all_source_lines(seq![result]).len() == 0,
        source_lines(result) matches Some(lines) ==> all_source_lines(seq![result]) == seq![lines],
    decreases b.len(),
{
    let none = Seq::<JsonNode>::empty();
    assert(all_source_lines(none) =~= Seq::<Seq<char>>::empty());
    assert(seq![result].drop_last() =~= none);
    assert(seq![result].last() == result);
    if let Some(lines) = source_lines(result) {
        assert(Seq::<Seq<char>>::empty().push(lines) =~= seq![lines]);
    }
    if b.len() == 0 {
        assert(a + b =~= a);
        assert(all_source_lines(a) + all_source_lines(b) =~= all_source_lines(a));
    } else {
        law_sources_are_shown_in_order(a, result, b.drop_last());
        assert((a + b).drop_last() =~= a + b.drop_last());
        assert(all_source_lines(a + b) =~= all_source_lines(a) + all_source_lines(b));
    }
}

/// What is shown of an output: its error, or else the first five of its results, or that there are
/// none.
pub proof fn law_outputs_are_summed_up(
    output: JsonNode,
    error: Seq<char>,
    results: Seq<JsonNode>,
)
    ensures
        member(output, "error"@) == Some(JsonNode::Text(error)) ==> summary_of(output) == Some(
            logged(error, 2_000),
        ),
        member(output, "error"@) is None && member(output, "results"@) == Some(
            JsonNode::Array(results),
        ) ==> {
            let first = if results.len() <= 5 {
                results
            } else {
                results.take(5)
            };
            &&& results.len() == 0 ==> summary_of(output) == Some("没有找到可用结果"@)
            &&& all_source_lines(first).len() > 0 ==> summary_of(output) == Some(
                join(all_source_lines(first), "\n\n"@),
            )
            &&& results.len() > 0 && all_source_lines(first).len() == 0 ==> summary_of(output) is None
        },
        member(output, "error"@) is None && member(output, "results"@) is None ==> summary_of(
            output,
        ) is None,
{
    assert(all_source_lines(Seq::<JsonNode>::empty()).len() == 0);
    if results.len() == 0 {
        assert(results =~= Seq::<JsonNode>::empty());
    }
}

/// A time that has passed is the difference, and none where the clock went back.
pub proof fn law_times_are_differences(from: u64, to: u64)
    ensures
        to >= from ==> since(from, to) == to - from,
        to < from ==> since(from, to) == 0,
{
}

/// A run that was given an identifier keeps it, one that was given none has none, and a number that is
/// not known is told by its stand-in.
pub proof fn law_what_is_given_is_kept(id: Seq<char>, n: nat, none: Seq<char>)
    ensures
        given_trace_id(Some(id)) == trace_id_of(id),
        given_trace_id(None) is None,
        number_or(Some(n), none) == decimal(n),
        number_or(None, none) == none,
{
}

/// An identifier keeps its first hundred and twenty characters, and one without any safe character is
/// none.
pub proof fn law_long_identifiers_are_cut(s: Seq<char>)
    ensures
        id_chars(trim(s)).len() > 120 ==> trace_id_of(s) == Some(id_chars(trim(s)).take(120)),
        0 < id_chars(trim(s)).len() <= 120 ==> trace_id_of(s) == Some(id_chars(trim(s))),
        id_chars(trim(s)).len() == 0 ==> trace_id_of(s) is None,
{
}

} // verus!
