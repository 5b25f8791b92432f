//! What may be searched for on the web, and when a search is called for.

use crate::json::{member, parse, parsed, text, text_of, unsigned, Json, JsonNode};
use crate::providers::llm::{ChatMessage, ChatRole};
use crate::text::{
    alphanumeric, char_count, char_lowercase, chars_of, contains, contains_chars,
    contains_text, count_before, find, find_chars, find_last, find_last_chars, is_blank,
    is_white, is_whitespace, law_last_occurrence_is_found, lemma_contains_middle,
    lemma_find_behind, lemma_find_from, lemma_len_before, lemma_trim, len_before, lowercase,
    lowercase_of, occurs_at, prefix, prefix_chars, starts_with, starts_with_text, string_of,
    texts, trim, trim_chars, views, words, words_of,
};
use vstd::prelude::*;
use vstd::slice::slice_subrange;

verus! {

// Comparing texts loosely.

/// `s` in lower case and without its white space.
pub open spec fn overlap(s: Seq<char>) -> Seq<char>
    decreases s.len(),
{
    if s.len() == 0 {
        Seq::empty()
    } else if is_white(s.last()) {
        overlap(s.drop_last())
    } else {
        overlap(s.drop_last()) + char_lowercase(s.last())
    }
}

/// What is compared of two texts one after the other is what is compared of each.
pub proof fn law_overlap_of_joined_texts(a: Seq<char>, b: Seq<char>)
    ensures
        overlap(a + b) == overlap(a) + overlap(b),
    decreases b.len(),
{
    if b.len() == 0 {
        assert(a + b =~= a);
        assert(overlap(a) + overlap(b) =~= overlap(a));
    } else {
        law_overlap_of_joined_texts(a, b.drop_last());
        assert((a + b).drop_last() =~= a + b.drop_last());
        assert(overlap(a + b) =~= overlap(a) + overlap(b));
    }
}

/// A passage of a text is a passage of what is compared of it, whatever white space it holds.
pub proof fn law_overlap_keeps_passages(s: Seq<char>, passage: Seq<char>)
    requires
        contains(s, passage),
    ensures
        contains(overlap(s), overlap(passage)),
{
    let i = choose|i: int| occurs_at(s, passage, i);
    let before = s.take(i);
    let after = s.skip(i + passage.len());
    assert(s =~= before + passage + after);
    law_overlap_of_joined_texts(before + passage, after);
    law_overlap_of_joined_texts(before, passage);
    crate::text::lemma_contains_middle(overlap(before), overlap(passage), overlap(after));
}

/// The lower case of a text without its white space.
pub fn normalize_for_overlap(value: &[char]) -> (normalized: Vec<char>)
    ensures
        normalized@ == overlap(value@),
{
    let mut normalized: Vec<char> = Vec::new();
    let mut i: usize = 0;
    assert(value@.take(0).len() == 0);
    while i < value.len()
        invariant
            i <= value@.len(),
            normalized@ == overlap(value@.take(i as int)),
        decreases value@.len() - i,
    {
        assert(value@.take(i + 1).drop_last() =~= value@.take(i as int));
        if !is_whitespace(value[i]) {
            let mut lower: Vec<char> = lowercase_of(value[i]);
            normalized.append(&mut lower);
        }
        i = i + 1;
    }
    assert(value@.take(value@.len() as int) =~= value@);
    normalized
}

// Passages marked as selected.

/// The trimmed texts between `open` and the next `close`, in order, without the blank ones.
pub open spec fn tagged(s: Seq<char>, open: Seq<char>, close: Seq<char>) -> Seq<Seq<char>>
    decreases s.len(),
{
    match find(s, open) {
        Some(start) => {
            let rest = s.skip(start + open.len());
            match find(rest, close) {
                Some(end) => {
                    let value = trim(rest.take(end));
                    let after = rest.skip(end + close.len());
                    proof {
                        lemma_find_from(s, open, 0);
                        lemma_find_from(rest, close, 0);
                    }
                    if open.len() == 0 {
                        Seq::empty()
                    } else if value.len() == 0 {
                        tagged(after, open, close)
                    } else {
                        seq![value] + tagged(after, open, close)
                    }
                },
                None => Seq::empty(),
            }
        },
        None => Seq::empty(),
    }
}

/// The texts between the tags of the given name.
pub open spec fn tagged_values(s: Seq<char>, tag: Seq<char>) -> Seq<Seq<char>> {
    tagged(s, "<"@ + tag + ">"@, "</"@ + tag + ">"@)
}

/// The texts between the tags of the given name, trimmed and not blank.
pub fn extract_tagged_values(text: &str, tag: &str) -> (values: Vec<String>)
    ensures
        texts(values@) == tagged_values(text@, tag@),
{
    let mut open: String = "<".to_owned();
    open.append(tag);
    open.append(">");
    let mut close: String = "</".to_owned();
    close.append(tag);
    close.append(">");
    let open: Vec<char> = chars_of(open.as_str());
    let close: Vec<char> = chars_of(close.as_str());
    assert(open@.len() > 0) by {
        reveal_strlit("<");
    }
    let chars: Vec<char> = chars_of(text);
    let mut values: Vec<String> = Vec::new();
    let mut from: usize = 0;
    assert(chars@.skip(0) =~= chars@);
    assert(texts(values@) + tagged(chars@, open@, close@) =~= tagged(chars@, open@, close@));
    loop
        invariant
            from <= chars@.len(),
            open@.len() > 0,
            texts(values@) + tagged(chars@.skip(from as int), open@, close@) == tagged(
                chars@,
                open@,
                close@,
            ),
        ensures
            texts(values@) == tagged(chars@, open@, close@),
        decreases chars@.len() - from,
    {
        let ghost s = chars@.skip(from as int);
        assert(chars@.subrange(from as int, chars@.len() as int) =~= s);
        let part: &[char] = slice_subrange(&chars, from, chars.len());
        proof {
            lemma_find_from(s, open@, 0);
        }
        match find_chars(part, &open, 0) {
            Some(start) => {
                let after_open: usize = from + start + open.len();
                let ghost rest = s.skip(start + open@.len());
                assert(chars@.subrange(after_open as int, chars@.len() as int) =~= rest);
                let inner: &[char] = slice_subrange(&chars, after_open, chars.len());
                proof {
                    lemma_find_from(rest, close@, 0);
                }
                match find_chars(inner, &close, 0) {
                    Some(end) => {
                        assert(inner@.subrange(0, end as int) =~= rest.take(end as int));
                        let value: &[char] = trim_chars(slice_subrange(inner, 0, end));
                        let ghost before = values@;
                        if value.len() > 0 {
                            values.push(string_of(value));
                            assert(texts(values@) =~= texts(before).push(value@));
                        }
                        let next: usize = after_open + end + close.len();
                        assert(rest.skip(end + close@.len()) =~= chars@.skip(next as int));
                        assert(texts(values@) + tagged(chars@.skip(next as int), open@, close@)
                            =~= texts(before) + tagged(s, open@, close@));
                        from = next;
                    },
                    None => {
                        assert(texts(values@) + tagged(s, open@, close@) =~= texts(values@));
                        break;
                    },
                }
            },
            None => {
                assert(texts(values@) + tagged(s, open@, close@) =~= texts(values@));
                break;
            },
        }
    }
    values
}

// Private data in a query.

/// A text in lower case names a credential.
pub open spec fn names_credential(lower: Seq<char>) -> bool {
    contains(lower, "authorization:"@) || contains(lower, "api_key"@) || contains(lower, "apikey"@)
        || contains(lower, "bearer "@)
}

/// Whether a text in lower case names a credential.
pub fn mentions_credential(lower: &str) -> (yes: bool)
    ensures
        yes == names_credential(lower@),
{
    let chars: Vec<char> = chars_of(lower);
    contains_text(&chars, "authorization:") || contains_text(&chars, "api_key") || contains_text(
        &chars,
        "apikey",
    ) || contains_text(&chars, "bearer ")
}

/// The character is part of a token, and not a mark around it.
pub open spec fn in_token(c: char) -> bool {
    alphanumeric(c) || c == '-' || c == '@' || c == '.'
}

/// `s` without the first characters that are not kept.
pub open spec fn skip_marks(s: Seq<char>, kept: Seq<bool>) -> (Seq<char>, Seq<bool>)
    decreases s.len(),
{
    if s.len() > 0 && kept.len() > 0 && !kept[0] {
        skip_marks(s.skip(1), kept.skip(1))
    } else {
        (s, kept)
    }
}

/// `s` without the last characters that are not kept.
pub open spec fn drop_marks(s: Seq<char>, kept: Seq<bool>) -> Seq<char>
    decreases s.len(),
{
    if s.len() > 0 && kept.len() > 0 && !kept.last() {
        drop_marks(s.drop_last(), kept.drop_last())
    } else {
        s
    }
}

/// `s` without the characters at both ends that are not kept, where `kept` tells which ones are.
pub open spec fn without_marks(s: Seq<char>, kept: Seq<bool>) -> Seq<char> {
    let rest = skip_marks(s, kept);
    drop_marks(rest.0, rest.1)
}

/// Which characters of `s` are part of a token.
pub open spec fn token_flags(s: Seq<char>) -> Seq<bool> {
    s.map_values(|c: char| in_token(c))
}

/// A token, without the marks around it, has the shape of a key or of a mail address.
pub open spec fn is_private_token(token: Seq<char>) -> bool {
    let at = len_before(token, '@');
    ||| starts_with(token, "sk-"@)
    ||| starts_with(token, "exa-"@)
    ||| 0 < at < token.len() && token.skip(at as int + 1).contains('.')
}

/// Drops the characters at both ends that are not kept.
pub fn trim_marks<'a>(token: &'a [char], kept: &[bool]) -> (inner: &'a [char])
    requires
        token@.len() == kept@.len(),
    ensures
        inner@ == without_marks(token@, kept@),
{
    let mut from: usize = 0;
    assert(token@.skip(0) =~= token@);
    assert(kept@.skip(0) =~= kept@);
    while from < token.len() && !kept[from]
        invariant
            from <= token@.len(),
            token@.len() == kept@.len(),
            skip_marks(token@, kept@) == skip_marks(
                token@.skip(from as int),
                kept@.skip(from as int),
            ),
        decreases token@.len() - from,
    {
        assert(token@.skip(from as int).skip(1) =~= token@.skip(from + 1));
        assert(kept@.skip(from as int).skip(1) =~= kept@.skip(from + 1));
        from = from + 1;
    }
    let ghost s = token@.skip(from as int);
    let ghost k = kept@.skip(from as int);
    let mut to: usize = token.len();
    assert(s.take(s.len() as int) =~= s);
    assert(k.take(k.len() as int) =~= k);
    while to > from && !kept[to - 1]
        invariant
            from <= to <= token@.len(),
            token@.len() == kept@.len(),
            s == token@.skip(from as int),
            k == kept@.skip(from as int),
            drop_marks(s, k) == drop_marks(s.take(to - from), k.take(to - from)),
        decreases to,
    {
        assert(s.take(to - from).drop_last() =~= s.take(to - from - 1));
        assert(k.take(to - from).drop_last() =~= k.take(to - from - 1));
        to = to - 1;
    }
    assert(token@.subrange(from as int, to as int) =~= s.take(to - from));
    slice_subrange(token, from, to)
}

/// Whether a token, without the marks around it, has the shape of a key or of a mail address.
pub fn looks_private(token: &[char]) -> (yes: bool)
    ensures
        yes == is_private_token(token@),
{
    if starts_with_text(token, "sk-") || starts_with_text(token, "exa-") {
        return true;
    }
    assert(token@.skip(0) =~= token@);
    let at: usize = count_before(token, 0, '@');
    if at == 0 || at == token.len() {
        return false;
    }
    let ghost domain = token@.skip(at + 1);
    let mut i: usize = at + 1;
    while i < token.len()
        invariant
            at == len_before(token@, '@'),
            0 < at < i <= token@.len(),
            domain == token@.skip(at + 1),
            forall|j: int| 0 <= j < i - at - 1 ==> domain[j] != '.',
        decreases token@.len() - i,
    {
        if token[i] == '.' {
            assert(domain[i - at - 1] == '.');
            return true;
        }
        i = i + 1;
    }
    false
}

/// The query names a credential, or holds a word that has the shape of a key or of a mail address.
pub open spec fn is_sensitive(query: Seq<char>) -> bool {
    ||| names_credential(lowercase(query))
    ||| exists|i: int|
        0 <= i < words(query).len() && is_private_token(
            without_marks(#[trigger] words(query)[i], token_flags(words(query)[i])),
        )
}

/// Which characters of a word are part of a token.
fn flags_of(word: &[char]) -> (flags: Vec<bool>)
    ensures
        flags@ == token_flags(word@),
{
    let mut flags: Vec<bool> = Vec::new();
    let mut i: usize = 0;
    while i < word.len()
        invariant
            i <= word@.len(),
            flags@.len() == i,
            forall|j: int| 0 <= j < i ==> flags@[j] == in_token(word@[j]),
        decreases word@.len() - i,
    {
        let c: char = word[i];
        flags.push(c.is_alphanumeric() || c == '-' || c == '@' || c == '.');
        i = i + 1;
    }
    assert(flags@ =~= token_flags(word@));
    flags
}

/// Whether a query holds private data.
pub fn contains_sensitive_token(query: &str) -> (yes: bool)
    ensures
        yes == is_sensitive(query@),
{
    let lower: String = query.to_lowercase();
    if mentions_credential(lower.as_str()) {
        return true;
    }
    let chars: Vec<char> = chars_of(query);
    let list: Vec<Vec<char>> = words_of(&chars);
    let ghost all = words(query@);
    let mut i: usize = 0;
    while i < list.len()
        invariant
            i <= list@.len(),
            all == words(query@),
            views(list@) == all,
            forall|j: int|
                0 <= j < i ==> !is_private_token(
                    without_marks(#[trigger] all[j], token_flags(all[j])),
                ),
        decreases list@.len() - i,
    {
        assert(all[i as int] == list@[i as int]@);
        let flags: Vec<bool> = flags_of(&list[i]);
        if looks_private(trim_marks(&list[i], &flags)) {
            return true;
        }
        i = i + 1;
    }
    false
}

// The policy.

/// What must not reach a search engine: the passages that the user selected, and long passages of
/// the conversation.
#[derive(Debug)]
pub struct SearchPolicy {
    pub selected_texts: Vec<String>,
    pub message_texts: Vec<String>,
}

/// The contents of messages.
pub open spec fn contents(messages: Seq<ChatMessage>) -> Seq<Seq<char>> {
    messages.map_values(|message: ChatMessage| message.content@)
}

/// The selected passages of texts, in order.
pub open spec fn selections(all: Seq<Seq<char>>) -> Seq<Seq<char>>
    decreases all.len(),
{
    if all.len() == 0 {
        Seq::empty()
    } else {
        selections(all.drop_last()) + tagged_values(all.last(), "selected_text"@)
    }
}

/// A shorter query is no selected passage to speak of.
pub const MIN_SELECTED_CHARS: usize = 12;

/// A shorter passage of the conversation is no large one.
pub const MIN_PASSAGE_CHARS: usize = 48;

/// The query is part of a selected passage, or holds one.
pub open spec fn quotes_selection(query: Seq<char>, selected: Seq<Seq<char>>) -> bool {
    exists|i: int|
        0 <= i < selected.len() && (contains(#[trigger] selected[i], query) || contains(
            query,
            selected[i],
        ))
}

/// The query is a passage of one of the texts.
pub open spec fn is_passage(query: Seq<char>, all: Seq<Seq<char>>) -> bool {
    exists|i: int| 0 <= i < all.len() && contains(#[trigger] all[i], query)
}

/// Why a query is refused.
pub enum Refusal {
    Private,
    Selected,
    Verbatim,
}

/// Why a query is refused, if it is, given what is compared of it and of the texts.
pub open spec fn refusal(
    sensitive: bool,
    query: Seq<char>,
    selected: Seq<Seq<char>>,
    messages: Seq<Seq<char>>,
) -> Option<Refusal> {
    if sensitive {
        Some(Refusal::Private)
    } else if query.len() >= MIN_SELECTED_CHARS && quotes_selection(query, selected) {
        Some(Refusal::Selected)
    } else if query.len() >= MIN_PASSAGE_CHARS && is_passage(query, messages) {
        Some(Refusal::Verbatim)
    } else {
        None
    }
}

/// What the model is told of a refusal.
pub open spec fn refusal_text(refusal: Refusal) -> Seq<char> {
    match refusal {
        Refusal::Private => "web_search query contains private or credential-shaped data."@,
        Refusal::Selected => "web_search query contains selected private text."@,
        Refusal::Verbatim => "web_search query contains a large verbatim private passage."@,
    }
}

/// The verdict is the given one.
pub open spec fn is_verdict(verdict: Result<(), String>, refusal: Option<Refusal>) -> bool {
    match refusal {
        Some(refusal) => verdict is Err && verdict->Err_0@ == refusal_text(refusal),
        None => verdict is Ok,
    }
}

/// What is compared of each text.
pub open spec fn overlaps(all: Seq<Seq<char>>) -> Seq<Seq<char>> {
    all.map_values(|s: Seq<char>| overlap(s))
}

impl SearchPolicy {
    /// Why the policy refuses a query, if it does.
    pub open spec fn refuses(&self, query: Seq<char>) -> Option<Refusal> {
        refusal(
            is_sensitive(query),
            overlap(query),
            overlaps(texts(self.selected_texts@)),
            overlaps(texts(self.message_texts@)),
        )
    }

    /// The policy that guards the given conversation.
    pub open spec fn guards(&self, messages: Seq<ChatMessage>) -> bool {
        &&& texts(self.selected_texts@) == selections(contents(messages))
        &&& texts(self.message_texts@) == contents(messages)
    }

    /// The policy that guards a conversation.
    pub fn from_messages(messages: &Vec<ChatMessage>) -> (policy: SearchPolicy)
        ensures
            policy.guards(messages@),
    {
        let mut selected_texts: Vec<String> = Vec::new();
        let mut message_texts: Vec<String> = Vec::new();
        let mut i: usize = 0;
        assert(texts(selected_texts@) =~= selections(contents(messages@).take(0)));
        assert(texts(message_texts@) =~= contents(messages@).take(0));
        while i < messages.len()
            invariant
                i <= messages@.len(),
                texts(selected_texts@) == selections(contents(messages@).take(i as int)),
                texts(message_texts@) == contents(messages@).take(i as int),
            decreases messages@.len() - i,
        {
            let ghost selected_before = selected_texts@;
            let ghost messages_before = message_texts@;
            let mut found: Vec<String> = extract_tagged_values(
                messages[i].content.as_str(),
                "selected_text",
            );
            let ghost new = found@;
            selected_texts.append(&mut found);
            message_texts.push(messages[i].content.clone());
            assert(contents(messages@).take(i + 1).drop_last() =~= contents(messages@).take(
                i as int,
            ));
            assert(texts(selected_texts@) =~= texts(selected_before) + texts(new));
            assert(texts(message_texts@) =~= contents(messages@).take(i + 1));
            i = i + 1;
        }
        assert(contents(messages@).take(messages@.len() as int) =~= contents(messages@));
        SearchPolicy { selected_texts, message_texts }
    }

    /// Whether a query may be searched for.
    pub fn validate(&self, query: &str) -> (verdict: Result<(), String>)
        ensures
            is_verdict(verdict, self.refuses(query@)),
    {
        let chars: Vec<char> = chars_of(query);
        let normalized: Vec<char> = normalize_for_overlap(&chars);
        let selected: Vec<Vec<char>> = normalize_all(&self.selected_texts);
        let messages: Vec<Vec<char>> = normalize_all(&self.message_texts);
        judge_query(contains_sensitive_token(query), &normalized, &selected, &messages)
    }
}

/// What is compared of each text.
fn normalize_all(list: &Vec<String>) -> (all: Vec<Vec<char>>)
    ensures
        views(all@) == overlaps(texts(list@)),
{
    let mut all: Vec<Vec<char>> = Vec::new();
    let mut i: usize = 0;
    while i < list.len()
        invariant
            i <= list@.len(),
            all@.len() == i,
            forall|j: int| 0 <= j < i ==> (#[trigger] all@[j])@ == overlap(list@[j]@),
        decreases list@.len() - i,
    {
        let chars: Vec<char> = chars_of(list[i].as_str());
        all.push(normalize_for_overlap(&chars));
        i = i + 1;
    }
    assert(views(all@) =~= overlaps(texts(list@)));
    all
}

/// Judges a query, given whether it holds private data and what is compared of it, of the selected
/// passages and of the messages.
pub fn judge_query(
    sensitive: bool,
    query: &Vec<char>,
    selected: &Vec<Vec<char>>,
    messages: &Vec<Vec<char>>,
) -> (verdict: Result<(), String>)
    ensures
        is_verdict(verdict, refusal(sensitive, query@, views(selected@), views(messages@))),
{
    if sensitive {
        return Err("web_search query contains private or credential-shaped data.".to_owned());
    }
    if query.len() >= MIN_SELECTED_CHARS {
        let mut i: usize = 0;
        while i < selected.len()
            invariant
                i <= selected@.len(),
                query@.len() >= MIN_SELECTED_CHARS,
                !sensitive,
                forall|j: int|
                    0 <= j < i ==> !contains(#[trigger] views(selected@)[j], query@) && !contains(
                        query@,
                        views(selected@)[j],
                    ),
            decreases selected@.len() - i,
        {
            assert(views(selected@)[i as int] == selected@[i as int]@);
            if contains_chars(&selected[i], query) || contains_chars(query, &selected[i]) {
                assert(quotes_selection(query@, views(selected@)));
                return Err("web_search query contains selected private text.".to_owned());
            }
            i = i + 1;
        }
        assert(!quotes_selection(query@, views(selected@)));
    }
    if query.len() >= MIN_PASSAGE_CHARS {
        let mut i: usize = 0;
        while i < messages.len()
            invariant
                i <= messages@.len(),
                query@.len() >= MIN_PASSAGE_CHARS,
                !sensitive,
                !(query@.len() >= MIN_SELECTED_CHARS && quotes_selection(
                    query@,
                    views(selected@),
                )),
                forall|j: int| 0 <= j < i ==> !contains(#[trigger] views(messages@)[j], query@),
            decreases messages@.len() - i,
        {
            assert(views(messages@)[i as int] == messages@[i as int]@);
            if contains_chars(&messages[i], query) {
                assert(is_passage(query@, views(messages@)));
                return Err(
                    "web_search query contains a large verbatim private passage.".to_owned(),
                );
            }
            i = i + 1;
        }
        assert(!is_passage(query@, views(messages@)));
    }
    Ok(())
}

/// A query that is a passage of a message, or of a selected passage, is refused once what is
/// compared of it is long enough, however its white space is laid out.
pub proof fn law_passages_are_refused(policy: SearchPolicy, query: Seq<char>, i: int)
    requires
        ({
            ||| 0 <= i < policy.message_texts@.len() && contains(
                policy.message_texts@[i]@,
                query,
            ) && overlap(query).len() >= MIN_PASSAGE_CHARS
            ||| 0 <= i < policy.selected_texts@.len() && contains(
                policy.selected_texts@[i]@,
                query,
            ) && overlap(query).len() >= MIN_SELECTED_CHARS
        }),
    ensures
        policy.refuses(query) is Some,
{
    let selected = overlaps(texts(policy.selected_texts@));
    let messages = overlaps(texts(policy.message_texts@));
    if 0 <= i < policy.message_texts@.len() && contains(policy.message_texts@[i]@, query) {
        law_overlap_keeps_passages(policy.message_texts@[i]@, query);
        assert(messages[i] == overlap(policy.message_texts@[i]@));
    }
    if 0 <= i < policy.selected_texts@.len() && contains(policy.selected_texts@[i]@, query) {
        law_overlap_keeps_passages(policy.selected_texts@[i]@, query);
        assert(selected[i] == overlap(policy.selected_texts@[i]@));
    }
}

/// A query that quotes a selected passage whole is refused once what is compared of it is long
/// enough.
pub proof fn law_quoted_selection_is_refused(policy: SearchPolicy, query: Seq<char>, i: int)
    requires
        0 <= i < policy.selected_texts@.len(),
        contains(query, policy.selected_texts@[i]@),
        overlap(query).len() >= MIN_SELECTED_CHARS,
    ensures
        policy.refuses(query) is Some,
{
    let selected = overlaps(texts(policy.selected_texts@));
    law_overlap_keeps_passages(query, policy.selected_texts@[i]@);
    assert(selected[i] == overlap(policy.selected_texts@[i]@));
}

// Arguments of a search.

/// How many results are asked for where the model does not say.
pub const DEFAULT_SEARCH_LIMIT: u8 = 3;

/// The longest query.
pub const MAX_SEARCH_QUERY_CHARS: usize = 300;

/// The arguments of a search.
#[derive(Debug, PartialEq, Eq)]
pub struct SearchArguments {
    pub query: String,
    pub limit: u8,
}

/// The query that the arguments hold: trimmed, and of two characters at least.
pub open spec fn query_of(value: JsonNode) -> Option<Seq<char>> {
    match text_of(member(value, "query"@)) {
        Some(query) => if trim(query).len() >= 2 {
            Some(prefix(trim(query), MAX_SEARCH_QUERY_CHARS as nat))
        } else {
            None
        },
        None => None,
    }
}

/// The number of results that the arguments ask for, from one to five.
pub open spec fn limit_of(value: JsonNode) -> int {
    match member(value, "limit"@) {
        Some(limit) => match unsigned(limit) {
            Some(n) => if n < 1 {
                1
            } else if n > 5 {
                5
            } else {
                n as int
            },
            None => DEFAULT_SEARCH_LIMIT as int,
        },
        None => DEFAULT_SEARCH_LIMIT as int,
    }
}

/// `arguments` is what the value, where the text was one, asks for.
pub open spec fn reads_as(
    value: Option<JsonNode>,
    arguments: Result<SearchArguments, String>,
) -> bool {
    match value {
        Some(value) => match query_of(value) {
            Some(query) => arguments is Ok && arguments->Ok_0.query@ == query
                && arguments->Ok_0.limit == limit_of(value),
            None => arguments is Err && arguments->Err_0@
                == "web_search query must contain at least two characters."@,
        },
        None => arguments is Err && arguments->Err_0@
            == "web_search arguments were not valid JSON."@,
    }
}

/// Reads the arguments of a search, given the value that their text holds.
pub fn search_arguments_of(value: Option<Json>) -> (arguments: Result<SearchArguments, String>)
    ensures
        reads_as(
            match value {
                Some(value) => Some(value@),
                None => None,
            },
            arguments,
        ),
{
    let value: Json = match value {
        Some(value) => value,
        None => return Err("web_search arguments were not valid JSON.".to_owned()),
    };
    let query: Option<&str> = crate::json::str_of(value.get("query"));
    let query: String = match query {
        Some(query) => {
            let chars: Vec<char> = chars_of(query);
            let trimmed: &[char] = trim_chars(&chars);
            if trimmed.len() < 2 {
                return Err("web_search query must contain at least two characters.".to_owned());
            }
            string_of(prefix_chars(trimmed, MAX_SEARCH_QUERY_CHARS))
        },
        None => return Err("web_search query must contain at least two characters.".to_owned()),
    };
    let limit: u8 = match value.get("limit") {
        Some(limit) => match limit.as_u64() {
            Some(n) => if n < 1 {
                1
            } else if n > 5 {
                5
            } else {
                n as u8
            },
            None => DEFAULT_SEARCH_LIMIT,
        },
        None => DEFAULT_SEARCH_LIMIT,
    };
    Ok(SearchArguments { query, limit })
}

/// Reads the arguments of a search.
pub fn parse_search_arguments(raw_arguments: &str) -> (arguments: Result<SearchArguments, String>)
    ensures
        reads_as(parsed(raw_arguments@), arguments),
{
    search_arguments_of(parse(raw_arguments))
}

/// Arguments that are read are bounded.
pub proof fn law_search_arguments_are_bounded(
    value: Option<JsonNode>,
    arguments: Result<SearchArguments, String>,
)
    requires
        reads_as(value, arguments),
        arguments is Ok,
    ensures
        2 <= arguments->Ok_0.query@.len() <= MAX_SEARCH_QUERY_CHARS,
        1 <= arguments->Ok_0.limit <= 5,
{
}

// When a search is called for.

/// How old, in days, a result may be where current information is asked for.
pub const CURRENT_INFORMATION_FRESHNESS_DAYS: u16 = 14;

/// Whether an answer needs a search first.
#[derive(Debug, Clone, Copy, PartialEq, Eq, Structural)]
pub enum SearchRequirement {
    Optional,
    Required { freshness_days: Option<u16> },
}

impl SearchRequirement {
    /// Whether a search has to be made.
    pub fn is_required(self) -> (yes: bool)
        ensures
            yes == (self is Required),
    {
        match self {
            SearchRequirement::Optional => false,
            SearchRequirement::Required { .. } => true,
        }
    }

    /// How old a result may be.
    pub open spec fn freshness(self) -> Option<u16> {
        match self {
            SearchRequirement::Optional => None,
            SearchRequirement::Required { freshness_days } => freshness_days,
        }
    }

    /// How many days old what is found may be.
    pub fn freshness_days(self) -> (days: Option<u16>)
        ensures
            days == self.freshness(),
    {
        match self {
            SearchRequirement::Optional => None,
            SearchRequirement::Required { freshness_days } => freshness_days,
        }
    }
}

/// The place of the last message of the user.
pub open spec fn last_user(messages: Seq<ChatMessage>) -> Option<int>
    decreases messages.len(),
{
    if messages.len() == 0 {
        None
    } else if messages.last().role == ChatRole::User {
        Some(messages.len() - 1)
    } else {
        last_user(messages.drop_last())
    }
}

/// Finds the last message of the user.
pub fn last_user_message(messages: &Vec<ChatMessage>) -> (found: Option<&ChatMessage>)
    ensures
        match found {
            Some(message) => {
                &&& last_user(messages@) is Some
                &&& 0 <= last_user(messages@)->0 < messages@.len()
                &&& *message == messages@[last_user(messages@)->0]
            },
            None => last_user(messages@) is None,
        },
{
    let mut n: usize = messages.len();
    assert(messages@.take(n as int) =~= messages@);
    while n > 0
        invariant
            n <= messages@.len(),
            last_user(messages@) == last_user(messages@.take(n as int)),
        decreases n,
    {
        if messages[n - 1].role == ChatRole::User {
            return Some(&messages[n - 1]);
        }
        assert(messages@.take(n as int).drop_last() =~= messages@.take(n - 1));
        n = n - 1;
    }
    None
}

/// The number of characters of the last message of the user, or none where there is no such
/// message.
pub open spec fn last_user_chars(messages: Seq<ChatMessage>) -> nat {
    match last_user(messages) {
        Some(i) => messages[i].content@.len(),
        None => 0,
    }
}

/// The number of characters of the last message of the user.
pub fn last_user_message_chars(messages: &Vec<ChatMessage>) -> (count: usize)
    ensures
        count == last_user_chars(messages@),
{
    match last_user_message(messages) {
        Some(message) => char_count(message.content.as_str()),
        None => 0,
    }
}

/// What is asked in a message: what follows the last mark of a spoken request, or the whole.
pub open spec fn spoken_request(message: Seq<char>) -> Seq<char> {
    let mark = "Current spoken request:\n"@;
    match find_last(message, mark) {
        Some(i) => trim(message.skip(i + mark.len())),
        None => trim(message),
    }
}

/// What is asked in a message.
pub fn current_spoken_request(message: &str) -> (request: String)
    ensures
        request@ == spoken_request(message@),
{
    let chars: Vec<char> = chars_of(message);
    let mark: Vec<char> = chars_of("Current spoken request:\n");
    proof {
        lemma_find_last_from(chars@, mark@, chars@.len() - mark@.len());
    }
    match find_last_chars(&chars, &mark) {
        Some(i) => {
            assert(occurs_at(chars@, mark@, i as int));
            assert(chars@.len() == chars.len());
            let from: usize = i + mark.len();
            assert(chars@.subrange(from as int, chars@.len() as int) =~= chars@.skip(from as int));
            string_of(trim_chars(slice_subrange(&chars, from, chars.len())))
        },
        None => string_of(trim_chars(&chars)),
    }
}

proof fn lemma_find_last_from(s: Seq<char>, p: Seq<char>, from: int)
    ensures
        crate::text::find_last_from(s, p, from) matches Some(i) ==> occurs_at(s, p, i),
    decreases from + 1,
{
    if from < 0 || occurs_at(s, p, from) {
    } else {
        lemma_find_last_from(s, p, from - 1);
    }
}

/// A request in lower case asks for a search.
pub open spec fn asks_for_search(request: Seq<char>) -> bool {
    ||| contains(request, "搜"@)
    ||| contains(request, "查询"@)
    ||| contains(request, "查一下"@)
    ||| contains(request, "查一查"@)
    ||| contains(request, "上网"@)
    ||| contains(request, "网上"@)
    ||| contains(request, "联网"@)
    ||| contains(request, "web search"@)
    ||| contains(request, "search "@)
    ||| contains(request, "look up"@)
    ||| contains(request, "find online"@)
    ||| contains(request, "check online"@)
    ||| contains(request, "browse the web"@)
}

/// A request in lower case asks for what is current by its very words.
pub open spec fn asks_for_news(request: Seq<char>) -> bool {
    ||| contains(request, "最新"@)
    ||| contains(request, "新闻"@)
    ||| contains(request, "今日"@)
    ||| contains(request, "刚刚"@)
    ||| contains(request, "实时"@)
    ||| contains(request, "时事"@)
    ||| contains(request, "latest"@)
    ||| contains(request, "breaking news"@)
    ||| contains(request, "today's news"@)
    ||| contains(request, "todays news"@)
    ||| contains(request, "up-to-date"@)
}

/// A request in lower case speaks of the present.
pub open spec fn speaks_of_now(request: Seq<char>) -> bool {
    ||| contains(request, "最近"@)
    ||| contains(request, "今天"@)
    ||| contains(request, "recent"@)
    ||| contains(request, "today"@)
    ||| contains(request, "current"@)
}

/// A request in lower case speaks of facts that change.
pub open spec fn speaks_of_changing_facts(request: Seq<char>) -> bool {
    ||| contains(request, "情况"@)
    ||| contains(request, "发生"@)
    ||| contains(request, "进展"@)
    ||| contains(request, "消息"@)
    ||| contains(request, "比赛"@)
    ||| contains(request, "赛事"@)
    ||| contains(request, "发布"@)
    ||| contains(request, "更新"@)
    ||| contains(request, "价格"@)
    ||| contains(request, "排名"@)
    ||| contains(request, "结果"@)
    ||| contains(request, "status"@)
    ||| contains(request, "happened"@)
    ||| contains(request, "news"@)
    ||| contains(request, "release"@)
    ||| contains(request, "version"@)
    ||| contains(request, "price"@)
    ||| contains(request, "score"@)
    ||| contains(request, "ranking"@)
    ||| contains(request, "result"@)
}

/// A request in lower case asks for current information.
pub open spec fn is_current(request: Seq<char>) -> bool {
    asks_for_news(request) || (speaks_of_now(request) && speaks_of_changing_facts(request))
}

/// What a request in lower case requires.
pub open spec fn requirement(request: Seq<char>) -> SearchRequirement {
    if is_current(request) {
        SearchRequirement::Required { freshness_days: Some(CURRENT_INFORMATION_FRESHNESS_DAYS) }
    } else if asks_for_search(request) {
        SearchRequirement::Required { freshness_days: None }
    } else {
        SearchRequirement::Optional
    }
}

/// What a conversation requires: what the last message of the user asks for.
pub open spec fn conversation_requirement(messages: Seq<ChatMessage>) -> SearchRequirement {
    match last_user(messages) {
        Some(i) => requirement(lowercase(spoken_request(messages[i].content@))),
        None => SearchRequirement::Optional,
    }
}

/// What a request, given in lower case, requires.
pub fn requirement_of(request: &str) -> (required: SearchRequirement)
    ensures
        required == requirement(request@),
{
    let r: Vec<char> = chars_of(request);
    let explicit_search: bool = contains_text(&r, "搜") || contains_text(&r, "查询")
        || contains_text(&r, "查一下") || contains_text(&r, "查一查") || contains_text(&r, "上网")
        || contains_text(&r, "网上") || contains_text(&r, "联网") || contains_text(
        &r,
        "web search",
    ) || contains_text(&r, "search ") || contains_text(&r, "look up") || contains_text(
        &r,
        "find online",
    ) || contains_text(&r, "check online") || contains_text(&r, "browse the web");
    let directly_current: bool = contains_text(&r, "最新") || contains_text(&r, "新闻")
        || contains_text(&r, "今日") || contains_text(&r, "刚刚") || contains_text(&r, "实时")
        || contains_text(&r, "时事") || contains_text(&r, "latest") || contains_text(
        &r,
        "breaking news",
    ) || contains_text(&r, "today's news") || contains_text(&r, "todays news") || contains_text(
        &r,
        "up-to-date",
    );
    let now: bool = contains_text(&r, "最近") || contains_text(&r, "今天") || contains_text(
        &r,
        "recent",
    ) || contains_text(&r, "today") || contains_text(&r, "current");
    let facts: bool = contains_text(&r, "情况") || contains_text(&r, "发生") || contains_text(
        &r,
        "进展",
    ) || contains_text(&r, "消息") || contains_text(&r, "比赛") || contains_text(&r, "赛事")
        || contains_text(&r, "发布") || contains_text(&r, "更新") || contains_text(&r, "价格")
        || contains_text(&r, "排名") || contains_text(&r, "结果") || contains_text(&r, "status")
        || contains_text(&r, "happened") || contains_text(&r, "news") || contains_text(
        &r,
        "release",
    ) || contains_text(&r, "version") || contains_text(&r, "price") || contains_text(&r, "score")
        || contains_text(&r, "ranking") || contains_text(&r, "result");
    if directly_current || (now && facts) {
        SearchRequirement::Required { freshness_days: Some(CURRENT_INFORMATION_FRESHNESS_DAYS) }
    } else if explicit_search {
        SearchRequirement::Required { freshness_days: None }
    } else {
        SearchRequirement::Optional
    }
}

/// What a conversation requires.
pub fn detect_search_requirement(messages: &Vec<ChatMessage>) -> (required: SearchRequirement)
    ensures
        required == conversation_requirement(messages@),
{
    match last_user_message(messages) {
        Some(message) => {
            let request: String = current_spoken_request(message.content.as_str());
            let lower: String = request.as_str().to_lowercase();
            requirement_of(lower.as_str())
        },
        None => SearchRequirement::Optional,
    }
}

/// A search that current information requires is limited to fresh results, and no other is.
pub proof fn law_only_current_requests_are_fresh(request: Seq<char>)
    ensures
        requirement(request).freshness() is Some <==> is_current(request),
        requirement(request) is Required <==> is_current(request) || asks_for_search(request),
{
}

// What is compared and what is refused.

/// Each character is compared in lower case, and white space is not compared at all.
pub proof fn law_overlap_of_characters(c: char)
    ensures
        is_white(c) ==> overlap(seq![c]).len() == 0,
        !is_white(c) ==> overlap(seq![c]) == char_lowercase(c),
        overlap(Seq::empty()).len() == 0,
{
    assert(seq![c].drop_last() =~= Seq::<char>::empty());
    assert(overlap(Seq::<char>::empty()) =~= Seq::<char>::empty());
    assert(Seq::<char>::empty() + char_lowercase(c) =~= char_lowercase(c));
}

/// What stands between two marks is found, trimmed, and what follows is looked through on its own.
/// Nothing is found where there is no mark.
pub proof fn law_tagged_values_are_found(
    a: Seq<char>,
    value: Seq<char>,
    b: Seq<char>,
    tag: Seq<char>,
)
    requires
        !a.contains('<'),
        !value.contains('<'),
    ensures
        is_blank(value) ==> tagged_values(
            a + "<"@ + tag + ">"@ + value + "</"@ + tag + ">"@ + b,
            tag,
        ) == tagged_values(b, tag),
        !is_blank(value) ==> tagged_values(
            a + "<"@ + tag + ">"@ + value + "</"@ + tag + ">"@ + b,
            tag,
        ) == seq![trim(value)] + tagged_values(b, tag),
        tagged_values(a, tag).len() == 0,
{
    reveal_strlit("<");
    reveal_strlit(">");
    reveal_strlit("</");
    let open = "<"@ + tag + ">"@;
    let close = "</"@ + tag + ">"@;
    let rest = value + close + b;
    let s = a + "<"@ + tag + ">"@ + value + "</"@ + tag + ">"@ + b;
    assert(s =~= a + open + rest);
    lemma_find_behind(a, open, rest);
    assert(s.skip((a.len() + open.len()) as int) =~= rest);
    lemma_find_behind(value, close, b);
    assert(rest =~= value + close + b);
    assert(rest.take(value.len() as int) =~= value);
    assert(rest.skip((value.len() + close.len()) as int) =~= b);
    lemma_trim(value);
    lemma_find_from(a, open, 0);
    if let Some(i) = find(a, open) {
        assert(a.subrange(i, i + open.len())[0] == a[i]);
        assert(a.contains('<'));
    }
}

/// The selections of a conversation are those of its messages, in order, and a policy knows every
/// message as it is.
pub proof fn law_policies_know_the_conversation(
    policy: SearchPolicy,
    messages: Seq<ChatMessage>,
    a: Seq<Seq<char>>,
    content: Seq<char>,
    i: int,
)
    ensures
        policy.guards(messages) && 0 <= i < messages.len() ==> policy.message_texts@.len()
            == messages.len() && policy.message_texts@[i]@ == messages[i].content@,
        policy.guards(messages) ==> texts(policy.selected_texts@) == selections(contents(messages)),
        selections(a.push(content)) == selections(a) + tagged_values(content, "selected_text"@),
        selections(Seq::empty()).len() == 0,
        contents(messages).len() == messages.len(),
        0 <= i < messages.len() ==> contents(messages)[i] == messages[i].content@,
{
    assert(a.push(content).drop_last() =~= a);
    if policy.guards(messages) && 0 <= i < messages.len() {
        assert(texts(policy.message_texts@).len() == contents(messages).len());
        assert(texts(policy.message_texts@)[i] == contents(messages)[i]);
    }
}

/// A query with a key in it is private, and so is one that speaks of a credential, whatever stands
/// around it.
pub proof fn law_credentials_are_private(a: Seq<char>, b: Seq<char>)
    ensures
        names_credential(a + "authorization:"@ + b),
        names_credential(a + "api_key"@ + b),
        names_credential(a + "apikey"@ + b),
        names_credential(a + "bearer "@ + b),
        is_private_token("sk-"@ + b),
        is_private_token("exa-"@ + b),
{
    lemma_contains_middle(a, "authorization:"@, b);
    lemma_contains_middle(a, "api_key"@, b);
    lemma_contains_middle(a, "apikey"@, b);
    lemma_contains_middle(a, "bearer "@, b);
    assert(("sk-"@ + b).subrange(0, "sk-"@.len() as int) =~= "sk-"@);
    assert(("exa-"@ + b).subrange(0, "exa-"@.len() as int) =~= "exa-"@);
}

/// An address is private: a name, the sign, and behind it something with a dot. A token without the
/// sign and without the start of a key is not.
pub proof fn law_addresses_are_private(name: Seq<char>, host: Seq<char>, token: Seq<char>)
    requires
        name.len() > 0,
        !name.contains('@'),
        host.contains('.'),
    ensures
        is_private_token(name.push('@') + host),
        !token.contains('@') && !starts_with(token, "sk-"@) && !starts_with(token, "exa-"@)
            ==> !is_private_token(token),
{
    let s = name.push('@') + host;
    lemma_len_before(s, '@');
    assert(s[name.len() as int] == '@');
    let n = len_before(s, '@');
    if n < name.len() {
        assert(s[n as int] == name[n as int]);
        assert(name.contains('@'));
    }
    assert(n == name.len());
    assert(s.skip(n as int + 1) =~= host);
    lemma_len_before(token, '@');
    if len_before(token, '@') < token.len() {
        assert(token[len_before(token, '@') as int] == '@');
    }
}

/// Marks around a token are not looked at, and nothing but marks at its ends is left out.
pub proof fn law_marks_around_a_token_are_dropped(
    a: Seq<char>,
    token: Seq<char>,
    b: Seq<char>,
    kept: Seq<bool>,
)
    requires
        kept.len() == a.len() + token.len() + b.len(),
        token.len() > 0,
        forall|i: int| 0 <= i < a.len() ==> !#[trigger] kept[i],
        forall|i: int| a.len() + token.len() <= i < kept.len() ==> !#[trigger] kept[i],
        kept[a.len() as int],
        kept[a.len() + token.len() - 1],
    ensures
        without_marks(a + token + b, kept) == token,
    decreases a.len() + b.len(),
{
    lemma_skip_marks(a, token + b, kept);
    assert(a + token + b =~= a + (token + b));
    lemma_drop_marks(token, b, kept.skip(a.len() as int));
}

proof fn lemma_skip_marks(a: Seq<char>, rest: Seq<char>, kept: Seq<bool>)
    requires
        kept.len() == a.len() + rest.len(),
        rest.len() > 0,
        forall|i: int| 0 <= i < a.len() ==> !#[trigger] kept[i],
        kept[a.len() as int],
    ensures
        skip_marks(a + rest, kept) == (rest, kept.skip(a.len() as int)),
    decreases a.len(),
{
    if a.len() == 0 {
        assert(a + rest =~= rest);
        assert(kept.skip(0) =~= kept);
    } else {
        assert(!kept[0]);
        assert((a + rest).skip(1) =~= a.skip(1) + rest);
        assert forall|i: int| 0 <= i < a.skip(1).len() implies !#[trigger] kept.skip(1)[i] by {
            assert(!kept[i + 1]);
        }
        lemma_skip_marks(a.skip(1), rest, kept.skip(1));
        assert(kept.skip(1).skip(a.skip(1).len() as int) =~= kept.skip(a.len() as int));
    }
}

proof fn lemma_drop_marks(token: Seq<char>, b: Seq<char>, kept: Seq<bool>)
    requires
        kept.len() == token.len() + b.len(),
        token.len() > 0,
        forall|i: int| token.len() <= i < kept.len() ==> !#[trigger] kept[i],
        kept[token.len() - 1],
    ensures
        drop_marks(token + b, kept) == token,
    decreases b.len(),
{
    if b.len() == 0 {
        assert(token + b =~= token);
        assert(kept.last() == kept[token.len() - 1]);
    } else {
        assert(!kept[kept.len() - 1]);
        assert((token + b).drop_last() =~= token + b.drop_last());
        assert forall|i: int| token.len() <= i < kept.drop_last().len() implies !#[trigger] kept.drop_last()[i] by {
            assert(!kept[i]);
        }
        lemma_drop_marks(token, b.drop_last(), kept.drop_last());
    }
}

/// A character is part of a token where it is a letter or a digit, or one of three signs, and a query
/// is sensitive as soon as one of its words is private once its marks are off.
pub proof fn law_sensitive_words_make_a_query_sensitive(
    query: Seq<char>,
    i: int,
    c: char,
    w: Seq<char>,
    k: int,
)
    ensures
        in_token(c) <==> alphanumeric(c) || c == '-' || c == '@' || c == '.',
        token_flags(w).len() == w.len(),
        0 <= k < w.len() ==> token_flags(w)[k] == in_token(w[k]),
        0 <= i < words(query).len() && is_private_token(
            without_marks(words(query)[i], token_flags(words(query)[i])),
        ) ==> is_sensitive(query),
        names_credential(lowercase(query)) ==> is_sensitive(query),
{
}

/// A query is refused for one of three reasons and for no other: it is private; or it is of twelve
/// characters or more and shares a whole text with a selection; or it is of forty-eight or more and
/// stands in a message.
pub proof fn law_queries_are_refused_for_a_reason(
    sensitive: bool,
    query: Seq<char>,
    selected: Seq<Seq<char>>,
    messages: Seq<Seq<char>>,
)
    ensures
        ({
            let verdict = refusal(sensitive, query, selected, messages);
            let quoted = query.len() >= 12 && exists|i: int|
                0 <= i < selected.len() && (contains(#[trigger] selected[i], query) || contains(
                    query,
                    selected[i],
                ));
            let copied = query.len() >= 48 && exists|i: int|
                0 <= i < messages.len() && contains(#[trigger] messages[i], query);
            &&& sensitive ==> verdict == Some(Refusal::Private)
            &&& !sensitive && quoted ==> verdict == Some(Refusal::Selected)
            &&& !sensitive && !quoted && copied ==> verdict == Some(Refusal::Verbatim)
            &&& !sensitive && !quoted && !copied ==> verdict is None
        }),
        refusal_text(Refusal::Private)
            == "web_search query contains private or credential-shaped data."@,
        refusal_text(Refusal::Selected) == "web_search query contains selected private text."@,
        refusal_text(Refusal::Verbatim)
            == "web_search query contains a large verbatim private passage."@,
{
}

/// The query of a call is the one that it names, trimmed and cut after three hundred characters; one
/// of fewer than two is none. The limit is the one that it names, within one and five, and three
/// where it names none.
pub proof fn law_arguments_are_read_as_given(value: JsonNode, query: Seq<char>, n: nat)
    ensures
        member(value, "query"@) == Some(JsonNode::Text(query)) && 2 <= trim(query).len() <= 300
            ==> query_of(value) == Some(trim(query)),
        member(value, "query"@) == Some(JsonNode::Text(query)) && trim(query).len() > 300 ==> query_of(
            value,
        ) == Some(trim(query).take(300)),
        member(value, "query"@) == Some(JsonNode::Text(query)) && trim(query).len() < 2 ==> query_of(
            value,
        ) is None,
        member(value, "query"@) is None ==> query_of(value) is None,
        member(value, "limit"@) == Some(JsonNode::Unsigned(n)) && 1 <= n <= 5 ==> limit_of(value)
            == n,
        member(value, "limit"@) == Some(JsonNode::Unsigned(n)) && n > 5 ==> limit_of(value) == 5,
        member(value, "limit"@) == Some(JsonNode::Unsigned(0)) ==> limit_of(value) == 1,
        member(value, "limit"@) is None ==> limit_of(value) == 3,
{
}

/// The last message of the user is one of the user, and none of the user follows it.
pub proof fn law_the_last_user_message_is_found(messages: Seq<ChatMessage>)
    ensures
        match last_user(messages) {
            Some(i) => {
                &&& 0 <= i < messages.len()
                &&& messages[i].role == ChatRole::User
                &&& forall|j: int|
                    i < j < messages.len() ==> (#[trigger] messages[j]).role != ChatRole::User
                &&& last_user_chars(messages) == messages[i].content@.len()
            },
            None => last_user_chars(messages) == 0 && forall|j: int|
                0 <= j < messages.len() ==> (#[trigger] messages[j]).role != ChatRole::User,
        },
    decreases messages.len(),
{
    if messages.len() > 0 {
        law_the_last_user_message_is_found(messages.drop_last());
        assert forall|j: int| 0 <= j < messages.len() - 1 implies messages.drop_last()[j]
            == #[trigger] messages[j] by {}
    }
}

/// What is spoken now follows its mark, the last one where there are several, and is all of a message
/// without the mark.
pub proof fn law_the_spoken_request_follows_its_mark(before: Seq<char>, request: Seq<char>)
    ensures
        ({
            let mark = "Current spoken request:\n"@;
            &&& !contains(mark.skip(1) + request, mark) ==> spoken_request(before + mark + request)
                == trim(request)
            &&& !contains(request, mark) ==> spoken_request(request) == trim(request)
        }),
{
    let mark = "Current spoken request:\n"@;
    reveal_strlit("Current spoken request:\n");
    let s = before + mark + request;
    law_last_occurrence_is_found(s, mark);
    law_last_occurrence_is_found(request, mark);
    lemma_contains_middle(before, mark, request);
    if !contains(mark.skip(1) + request, mark) {
        let i = find_last(s, mark)->0;
        assert(s.subrange(before.len() as int, (before.len() + mark.len()) as int) =~= mark);
        assert(occurs_at(s, mark, before.len() as int));
        if i > before.len() {
            let tail = mark.skip(1) + request;
            let k = i - before.len() - 1;
            assert(tail.subrange(k, k + mark.len()) =~= s.subrange(i, i + mark.len()));
            assert(occurs_at(tail, mark, k));
        }
        assert(i == before.len());
        assert(s.skip(i + mark.len()) =~= request);
    }
}

/// A request for news, or one about the present and about what changes, has to be searched for and
/// wants what is at most fourteen days old. One that only asks for a search has to be searched for.
/// Any other may be.
pub proof fn law_which_requests_are_searched_for(request: Seq<char>)
    ensures
        ({
            let news = {
                                ||| contains(request, "最新"@)
                ||| contains(request, "新闻"@)
                ||| contains(request, "今日"@)
                ||| contains(request, "刚刚"@)
                ||| contains(request, "实时"@)
                ||| contains(request, "时事"@)
                ||| contains(request, "latest"@)
                ||| contains(request, "breaking news"@)
                ||| contains(request, "today's news"@)
                ||| contains(request, "todays news"@)
                ||| contains(request, "up-to-date"@)
            };
            let now = {
                                ||| contains(request, "最近"@)
                ||| contains(request, "今天"@)
                ||| contains(request, "recent"@)
                ||| contains(request, "today"@)
                ||| contains(request, "current"@)
            };
            let changing = {
                                ||| contains(request, "情况"@)
                ||| contains(request, "发生"@)
                ||| contains(request, "进展"@)
                ||| contains(request, "消息"@)
                ||| contains(request, "比赛"@)
                ||| contains(request, "赛事"@)
                ||| contains(request, "发布"@)
                ||| contains(request, "更新"@)
                ||| contains(request, "价格"@)
                ||| contains(request, "排名"@)
                ||| contains(request, "结果"@)
                ||| contains(request, "status"@)
                ||| contains(request, "happened"@)
                ||| contains(request, "news"@)
                ||| contains(request, "release"@)
                ||| contains(request, "version"@)
                ||| contains(request, "price"@)
                ||| contains(request, "score"@)
                ||| contains(request, "ranking"@)
                ||| contains(request, "result"@)
            };
            let search = {
                                ||| contains(request, "搜"@)
                ||| contains(request, "查询"@)
                ||| contains(request, "查一下"@)
                ||| contains(request, "查一查"@)
                ||| contains(request, "上网"@)
                ||| contains(request, "网上"@)
                ||| contains(request, "联网"@)
                ||| contains(request, "web search"@)
                ||| contains(request, "search "@)
                ||| contains(request, "look up"@)
                ||| contains(request, "find online"@)
                ||| contains(request, "check online"@)
                ||| contains(request, "browse the web"@)
            };
            let told = requirement(request);
            &&& news || (now && changing) ==> told == (SearchRequirement::Required {
                freshness_days: Some(14),
            })
            &&& !news && !(now && changing) && search ==> told == (SearchRequirement::Required {
                freshness_days: None,
            })
            &&& !news && !(now && changing) && !search ==> told == SearchRequirement::Optional
        }),
{
}



/// What has to be searched for follows from the last message of the user alone.
pub proof fn law_the_last_request_decides(
    before: Seq<ChatMessage>,
    asked: ChatMessage,
    after: Seq<ChatMessage>,
)
    requires
        asked.role == ChatRole::User,
        forall|i: int| 0 <= i < after.len() ==> (#[trigger] after[i]).role != ChatRole::User,
    ensures
        conversation_requirement(before + seq![asked] + after) == requirement(
            lowercase(spoken_request(asked.content@)),
        ),
        conversation_requirement(after) is Optional,
        SearchRequirement::Optional.freshness() is None,
        forall|days: Option<u16>|
            (SearchRequirement::Required { freshness_days: days }).freshness() == days,
{
    let all = before + seq![asked] + after;
    law_the_last_user_message_is_found(all);
    law_the_last_user_message_is_found(after);
    let n = before.len() as int;
    assert(all[n] == asked);
    let i = last_user(all)->0;
    assert(last_user(all) is Some);
    if i > n {
        assert(all[i] == after[i - n - 1]);
    }
    assert(i == n);
}

/// A query is let through where there is nothing against it, and refused with the reason otherwise.
pub proof fn law_verdicts_follow_the_refusal(verdict: Result<(), String>, refusal: Option<Refusal>)
    requires
        is_verdict(verdict, refusal),
    ensures
        refusal is None ==> verdict is Ok,
        refusal == Some(Refusal::Private) ==> (verdict matches Err(message) && message@
            == "web_search query contains private or credential-shaped data."@),
        refusal == Some(Refusal::Selected) ==> (verdict matches Err(message) && message@
            == "web_search query contains selected private text."@),
        refusal == Some(Refusal::Verbatim) ==> (verdict matches Err(message) && message@
            == "web_search query contains a large verbatim private passage."@),
{
}

/// Nothing but these makes a query sensitive: words that name a credential, and tokens in the shape of
/// a key or of an address.
pub proof fn law_other_queries_are_not_sensitive(query: Seq<char>, token: Seq<char>, i: int)
    ensures
        names_credential(query) <==> (contains(query, "authorization:"@) || contains(query, "api_key"@)
            || contains(query, "apikey"@) || contains(query, "bearer "@)),
        is_sensitive(query) ==> names_credential(lowercase(query)) || exists|k: int|
            0 <= k < words(query).len() && is_private_token(
                without_marks(#[trigger] words(query)[k], token_flags(words(query)[k])),
            ),
        is_private_token(token) ==> starts_with(token, "sk-"@) || starts_with(token, "exa-"@) || (
        token.contains('@') && token.contains('.') && token[0] != '@'),
        token.len() > 0 && token[0] == '@' && !starts_with(token, "sk-"@) && !starts_with(token, "exa-"@)
            ==> !is_private_token(token),
{
    lemma_len_before(token, '@');
    let n = len_before(token, '@') as int;
    if 0 < n < token.len() && token.skip(n + 1).contains('.') {
        assert(token[n] == '@');
        let host = token.skip(n + 1);
        let k = choose|k: int| 0 <= k < host.len() && host[k] == '.';
        assert(token[n + 1 + k] == '.');
    }
}

/// Arguments are read whole: the query without the white space around it, and as many results as were
/// asked for, from one to five, or three.
pub proof fn law_arguments_are_read_whole(
    value: JsonNode,
    query: Seq<char>,
    n: nat,
    arguments: Result<SearchArguments, String>,
)
    ensures
        reads_as(Some(value), arguments) && member(value, "query"@) == Some(JsonNode::Text(query)) && 2
            <= trim(query).len() <= 300 ==> {
            &&& arguments is Ok
            &&& arguments->Ok_0.query@ == trim(query)
            &&& member(value, "limit"@) == Some(JsonNode::Unsigned(n)) && 1 <= n <= 5
                ==> arguments->Ok_0.limit == n
            &&& member(value, "limit"@) == Some(JsonNode::Unsigned(n)) && n > 5
                ==> arguments->Ok_0.limit == 5
            &&& member(value, "limit"@) is None ==> arguments->Ok_0.limit == 3
        },
        reads_as(Some(value), arguments) && member(value, "query"@) is None ==> arguments is Err
            && arguments->Err_0@ == "web_search query must contain at least two characters."@,
        reads_as(None, arguments) ==> arguments is Err && arguments->Err_0@
            == "web_search arguments were not valid JSON."@,
{
    law_arguments_are_read_as_given(value, query, n);
}

} // verus!
