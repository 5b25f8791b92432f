//! The knowledge base: documents of the user, cut into passages that are looked up by their words.
//!
//! The scores by which passages are ranked are not computed here. This module cuts and counts;
//! a score comes back as the bits of a number that is not negative, whose order is the order of
//! the numbers.

use crate::text::{
    ascii_lower, ascii_lower_chars, ascii_lowered, blank, chars_of, is_ascii_alnum,
    is_ascii_alphanumeric, is_blank, is_white, join, join_texts, lead, lemma_len_before,
    lemma_trim, lemma_trim_part, len_before, lines, lines_of, prefix, prefix_chars,
    same_chars, same_text, starts_with, starts_with_text, string_of, texts, trim,
    trim_chars, views, without_return,
};
use vstd::prelude::*;
use vstd::slice::slice_subrange;

verus! {

/// The longest passage.
pub const MAX_CHUNK_CHARS: usize = 800;

/// The longest passage that is shown to the model.
pub const MAX_EVIDENCE_CHARS: usize = 400;

/// The bits, in single precision, of the least score that is no noise: eight hundredths.
pub const MIN_EVIDENCE_SCORE: u32 = 0x3da3_d70a;

/// What is known of a document.
#[derive(Debug, Clone)]
pub struct KnowledgeDoc {
    pub name: String,
    pub size: usize,
    pub chunk_count: usize,
    pub updated_at_ms: u64,
}

/// A passage that answers to a question.
#[derive(Debug, Clone)]
pub struct KnowledgeHit {
    pub doc: String,
    pub text: String,
    /// The bits of its score in single precision.
    pub score: u32,
}

/// A passage of a document.
#[derive(Debug, Clone)]
pub struct Chunk {
    pub doc: String,
    pub text: String,
}

// Cutting a document into passages.

/// `s` cut into pieces of `max` characters, the last one of what is left.
pub open spec fn split(s: Seq<char>, max: nat) -> Seq<Seq<char>>
    decreases s.len(),
{
    if s.len() == 0 || max == 0 {
        Seq::empty()
    } else if s.len() <= max {
        seq![s]
    } else {
        seq![s.take(max as int)] + split(s.skip(max as int), max)
    }
}

/// The pieces of a passage, one of the whole where it is short enough.
pub open spec fn pieces(current: Seq<char>) -> Seq<Seq<char>> {
    let passage = trim(current);
    if passage.len() == 0 {
        Seq::empty()
    } else if passage.len() > MAX_CHUNK_CHARS {
        split(passage, MAX_CHUNK_CHARS as nat)
    } else {
        seq![passage]
    }
}

/// A line that starts a passage.
pub open spec fn is_heading(line: Seq<char>) -> bool {
    trim(line).len() > 0 && trim(line)[0] == '#'
}

/// The passages so far and the one that is being gathered, after one more line. A heading ends the
/// passage before it and starts its own; a blank line ends the passage before it.
pub open spec fn after_line(
    state: (Seq<Seq<char>>, Seq<char>),
    line: Seq<char>,
) -> (Seq<Seq<char>>, Seq<char>) {
    let ended = (is_heading(line) || is_blank(line)) && !is_blank(state.1);
    let chunks = if ended {
        state.0 + pieces(state.1)
    } else {
        state.0
    };
    let current = if ended {
        Seq::empty()
    } else {
        state.1
    };
    if is_blank(line) {
        (chunks, current)
    } else if is_heading(line) {
        (chunks, trim(line))
    } else if current.len() == 0 {
        (chunks, line)
    } else {
        (chunks, current + "\n"@ + line)
    }
}

/// The passages so far and the one that is being gathered, after the given lines.
pub open spec fn after_lines(all: Seq<Seq<char>>) -> (Seq<Seq<char>>, Seq<char>)
    decreases all.len(),
{
    if all.len() == 0 {
        (Seq::empty(), Seq::empty())
    } else {
        after_line(after_lines(all.drop_last()), all.last())
    }
}

/// Those of the given texts that are not blank.
pub open spec fn not_blank(all: Seq<Seq<char>>) -> Seq<Seq<char>>
    decreases all.len(),
{
    if all.len() == 0 {
        Seq::empty()
    } else if is_blank(all.last()) {
        not_blank(all.drop_last())
    } else {
        not_blank(all.drop_last()).push(all.last())
    }
}

/// The passages of a document.
pub open spec fn chunks_of(content: Seq<char>) -> Seq<Seq<char>> {
    let end = after_lines(lines(content));
    not_blank(end.0 + pieces(end.1))
}

/// Cuts a text into pieces of at most `max` characters.
pub fn split_by_chars(text: &[char], max: usize) -> (list: Vec<Vec<char>>)
    requires
        max > 0,
    ensures
        views(list@) == split(text@, max as nat),
{
    let mut list: Vec<Vec<char>> = Vec::new();
    let mut from: usize = 0;
    assert(text@.skip(0) =~= text@);
    assert(views(list@) + split(text@, max as nat) =~= split(text@, max as nat));
    while from < text.len()
        invariant
            max > 0,
            from <= text@.len(),
            views(list@) + split(text@.skip(from as int), max as nat) == split(
                text@,
                max as nat,
            ),
        decreases text@.len() - from,
    {
        let ghost rest = text@.skip(from as int);
        let ghost before = list@;
        let to: usize = if text.len() - from <= max {
            text.len()
        } else {
            from + max
        };
        let piece: Vec<char> = crate::text::copy_chars(slice_subrange(text, from, to));
        assert(piece@ =~= rest.take(to - from));
        list.push(piece);
        assert(views(list@) =~= views(before).push(piece@));
        assert(text@.skip(to as int) =~= rest.skip(to - from));
        if to == text.len() {
            assert(rest.take(to - from) =~= rest);
            assert(split(text@.skip(to as int), max as nat).len() == 0);
        }
        assert(views(list@) + split(text@.skip(to as int), max as nat) =~= views(before) + split(
            rest,
            max as nat,
        ));
        from = to;
    }
    assert(views(list@) + split(text@.skip(from as int), max as nat) =~= views(list@));
    list
}

/// Ends the passage that is being gathered.
fn push_chunk(chunks: &mut Vec<Vec<char>>, current: &Vec<char>)
    ensures
        views(final(chunks)@) == views(old(chunks)@) + pieces(current@),
{
    let ghost before = chunks@;
    let passage: &[char] = trim_chars(current);
    if passage.len() == 0 {
        assert(views(before) + pieces(current@) =~= views(before));
        return;
    }
    if passage.len() > MAX_CHUNK_CHARS {
        let mut list: Vec<Vec<char>> = split_by_chars(passage, MAX_CHUNK_CHARS);
        let ghost added = list@;
        chunks.append(&mut list);
        assert(views(chunks@) =~= views(before) + views(added));
    } else {
        chunks.push(crate::text::copy_chars(passage));
        assert(views(chunks@) =~= views(before) + pieces(current@));
    }
}

/// Cuts a document into passages.
pub fn chunk_text(content: &str) -> (chunks: Vec<String>)
    ensures
        texts(chunks@) == chunks_of(content@),
{
    let chars: Vec<char> = chars_of(content);
    let list: Vec<Vec<char>> = lines_of(&chars);
    let ghost all = lines(content@);
    let mut found: Vec<Vec<char>> = Vec::new();
    let mut current: Vec<char> = Vec::new();
    let mut i: usize = 0;
    assert(views(found@) =~= Seq::empty());
    while i < list.len()
        invariant
            i <= list@.len(),
            all == views(list@),
            after_lines(all.take(i as int)) == (views(found@), current@),
        decreases list@.len() - i,
    {
        assert(all.take(i + 1).drop_last() =~= all.take(i as int));
        assert(all.take(i + 1).last() == list@[i as int]@);
        let ghost line = list@[i as int]@;
        let trimmed: &[char] = trim_chars(&list[i]);
        proof {
            lemma_trim(line);
            lemma_trim(current@);
        }
        let heading: bool = trimmed.len() > 0 && trimmed[0] == '#';
        let empty: bool = trimmed.len() == 0;
        if (heading || empty) && trim_chars(&current).len() > 0 {
            push_chunk(&mut found, &current);
            current = Vec::new();
        }
        if empty {
        } else if heading {
            current = crate::text::copy_chars(trimmed);
        } else {
            if current.len() > 0 {
                current.push('\n');
                assert("\n"@ =~= seq!['\n']) by {
                    reveal_strlit("\n");
                }
            }
            let ghost so_far = current@;
            current.extend_from_slice(&list[i]);
            assert(current@ =~= so_far + line);
        }
        assert(after_lines(all.take(i + 1)).1 =~= current@);
        i = i + 1;
    }
    assert(all.take(list@.len() as int) =~= all);
    push_chunk(&mut found, &current);
    let mut chunks: Vec<String> = Vec::new();
    let mut k: usize = 0;
    assert(texts(chunks@) =~= not_blank(views(found@).take(0)));
    while k < found.len()
        invariant
            k <= found@.len(),
            texts(chunks@) == not_blank(views(found@).take(k as int)),
        decreases found@.len() - k,
    {
        assert(views(found@).take(k + 1).drop_last() =~= views(found@).take(k as int));
        assert(views(found@).take(k + 1).last() == found@[k as int]@);
        proof {
            lemma_trim(found@[k as int]@);
        }
        let ghost before = chunks@;
        if trim_chars(&found[k]).len() > 0 {
            chunks.push(string_of(&found[k]));
            assert(texts(chunks@) =~= texts(before).push(found@[k as int]@));
        }
        k = k + 1;
    }
    assert(views(found@).take(found@.len() as int) =~= views(found@));
    chunks
}

/// Every text of the list is at most so long.
pub open spec fn all_within(all: Seq<Seq<char>>, max: nat) -> bool {
    forall|i: int| 0 <= i < all.len() ==> (#[trigger] all[i]).len() <= max
}

/// The pieces of a text are at most so long, and make up the text.
pub proof fn law_split_loses_nothing(s: Seq<char>, max: nat)
    requires
        max > 0,
    ensures
        all_within(split(s, max), max),
        concat(split(s, max)) == s,
    decreases s.len(),
{
    if s.len() == 0 {
        assert(concat(split(s, max)) =~= s);
    } else if s.len() <= max {
        lemma_concat_first(s, Seq::empty());
        assert(seq![s] + Seq::<Seq<char>>::empty() =~= seq![s]);
        assert(s + concat(Seq::empty()) =~= s);
    } else {
        let rest = s.skip(max as int);
        law_split_loses_nothing(rest, max);
        lemma_concat_first(s.take(max as int), split(rest, max));
        assert(s.take(max as int) + rest =~= s);
        assert forall|i: int| 0 <= i < split(s, max).len() implies (#[trigger] split(
            s,
            max,
        )[i]).len() <= max by {
            if i > 0 {
                assert(split(s, max)[i] == split(rest, max)[i - 1]);
            }
        }
    }
}

/// Texts one after another.
pub open spec fn concat(all: Seq<Seq<char>>) -> Seq<char>
    decreases all.len(),
{
    if all.len() == 0 {
        Seq::empty()
    } else {
        concat(all.drop_last()) + all.last()
    }
}

proof fn lemma_concat_first(first: Seq<char>, rest: Seq<Seq<char>>)
    ensures
        concat(seq![first] + rest) == first + concat(rest),
    decreases rest.len(),
{
    let all = seq![first] + rest;
    if rest.len() == 0 {
        assert(all.drop_last().len() == 0);
        assert(concat(all.drop_last()) =~= Seq::empty());
        assert(concat(rest) =~= Seq::empty());
        assert(all.last() == first);
        assert(concat(all) =~= first + concat(rest));
    } else {
        lemma_concat_first(first, rest.drop_last());
        assert(all.drop_last() =~= seq![first] + rest.drop_last());
        assert(concat(all) =~= first + concat(rest));
    }
}

proof fn lemma_pieces_are_bounded(current: Seq<char>)
    ensures
        all_within(pieces(current), MAX_CHUNK_CHARS as nat),
{
    law_split_loses_nothing(trim(current), MAX_CHUNK_CHARS as nat);
}

proof fn lemma_lines_are_bounded(all: Seq<Seq<char>>)
    ensures
        all_within(after_lines(all).0, MAX_CHUNK_CHARS as nat),
    decreases all.len(),
{
    if all.len() > 0 {
        lemma_lines_are_bounded(all.drop_last());
        let state = after_lines(all.drop_last());
        lemma_pieces_are_bounded(state.1);
        let joined = state.0 + pieces(state.1);
        assert forall|i: int| 0 <= i < joined.len() implies (#[trigger] joined[i]).len()
            <= MAX_CHUNK_CHARS by {
            if i >= state.0.len() {
                assert(joined[i] == pieces(state.1)[i - state.0.len()]);
            }
        }
    }
}

proof fn lemma_not_blank(all: Seq<Seq<char>>, max: nat)
    requires
        all_within(all, max),
    ensures
        all_within(not_blank(all), max),
        forall|i: int| 0 <= i < not_blank(all).len() ==> !is_blank(#[trigger] not_blank(all)[i]),
    decreases all.len(),
{
    if all.len() > 0 {
        assert forall|i: int| 0 <= i < all.drop_last().len() implies (#[trigger] all.drop_last()[i]).len()
            <= max by {
            assert(all.drop_last()[i] == all[i]);
        }
        lemma_not_blank(all.drop_last(), max);
        assert(all.last() == all[all.len() - 1]);
    }
}

/// Every passage says something, and is at most so long.
pub proof fn law_chunks_are_bounded(content: Seq<char>)
    ensures
        forall|i: int|
            0 <= i < chunks_of(content).len() ==> !is_blank(#[trigger] chunks_of(content)[i])
                && chunks_of(content)[i].len() <= MAX_CHUNK_CHARS,
{
    let end = after_lines(lines(content));
    lemma_lines_are_bounded(lines(content));
    lemma_pieces_are_bounded(end.1);
    let joined = end.0 + pieces(end.1);
    assert forall|i: int| 0 <= i < joined.len() implies (#[trigger] joined[i]).len()
        <= MAX_CHUNK_CHARS by {
        if i >= end.0.len() {
            assert(joined[i] == pieces(end.1)[i - end.0.len()]);
        }
    }
    lemma_not_blank(joined, MAX_CHUNK_CHARS as nat);
}

/// What a text says: its characters but for white space, in order.
pub open spec fn ink(s: Seq<char>) -> Seq<char>
    decreases s.len(),
{
    if s.len() == 0 {
        Seq::empty()
    } else if is_white(s.last()) {
        ink(s.drop_last())
    } else {
        ink(s.drop_last()).push(s.last())
    }
}

proof fn lemma_ink_add(a: Seq<char>, b: Seq<char>)
    ensures
        ink(a + b) == ink(a) + ink(b),
    decreases b.len(),
{
    if b.len() == 0 {
        assert(a + b =~= a);
        assert(ink(a) + ink(b) =~= ink(a));
    } else {
        lemma_ink_add(a, b.drop_last());
        assert((a + b).drop_last() =~= a + b.drop_last());
        assert(ink(a + b) =~= ink(a) + ink(b));
    }
}

proof fn lemma_ink_blank(s: Seq<char>)
    requires
        is_blank(s),
    ensures
        ink(s) == Seq::<char>::empty(),
    decreases s.len(),
{
    if s.len() > 0 {
        assert(is_white(s[s.len() - 1]));
        assert forall|i: int| 0 <= i < s.drop_last().len() implies is_white(
            #[trigger] s.drop_last()[i],
        ) by {
            assert(is_white(s[i]));
        }
        lemma_ink_blank(s.drop_last());
    }
}

proof fn lemma_ink_trim(s: Seq<char>)
    ensures
        ink(trim(s)) == ink(s),
{
    lemma_trim_part(s);
    let end = lead(s) + trim(s).len();
    let head = s.take(lead(s));
    let tail = s.skip(end);
    assert(s =~= head + trim(s) + tail);
    lemma_ink_add(head + trim(s), tail);
    lemma_ink_add(head, trim(s));
    assert forall|i: int| 0 <= i < head.len() implies is_white(#[trigger] head[i]) by {
        assert(head[i] == s[i]);
    }
    assert forall|i: int| 0 <= i < tail.len() implies is_white(#[trigger] tail[i]) by {
        assert(tail[i] == s[end + i]);
    }
    lemma_ink_blank(head);
    lemma_ink_blank(tail);
    assert(ink(s) =~= ink(trim(s)));
}

proof fn lemma_concat_add(a: Seq<Seq<char>>, b: Seq<Seq<char>>)
    ensures
        concat(a + b) == concat(a) + concat(b),
    decreases b.len(),
{
    if b.len() == 0 {
        assert(a + b =~= a);
        assert(concat(a) + concat(b) =~= concat(a));
    } else {
        lemma_concat_add(a, b.drop_last());
        assert((a + b).drop_last() =~= a + b.drop_last());
        assert(concat(a + b) =~= concat(a) + concat(b));
    }
}

proof fn lemma_ink_lines(s: Seq<char>)
    ensures
        ink(concat(lines(s))) == ink(s),
    decreases s.len(),
{
    lemma_len_before(s, '\n');
    let n = len_before(s, '\n');
    if s.len() == 0 {
        assert(concat(lines(s)) =~= s);
    } else if n >= s.len() {
        lemma_concat_first(s, Seq::empty());
        assert(seq![s] + Seq::<Seq<char>>::empty() =~= seq![s]);
        assert(concat(lines(s)) =~= s);
    } else {
        let line = s.take(n as int);
        let rest = s.skip(n as int + 1);
        lemma_ink_lines(rest);
        lemma_concat_first(without_return(line), lines(rest));
        lemma_ink_add(without_return(line), concat(lines(rest)));
        assert(ink(without_return(line)) == ink(line));
        assert(s =~= line.push('\n') + rest);
        lemma_ink_add(line.push('\n'), rest);
        assert(line.push('\n').drop_last() =~= line);
    }
}

proof fn lemma_ink_pieces(current: Seq<char>)
    ensures
        ink(concat(pieces(current))) == ink(current),
{
    lemma_ink_trim(current);
    let passage = trim(current);
    if passage.len() == 0 {
        assert(concat(pieces(current)) =~= passage);
    } else if passage.len() > MAX_CHUNK_CHARS {
        law_split_loses_nothing(passage, MAX_CHUNK_CHARS as nat);
    } else {
        lemma_concat_first(passage, Seq::empty());
        assert(seq![passage] + Seq::<Seq<char>>::empty() =~= seq![passage]);
        assert(concat(pieces(current)) =~= passage);
    }
}

proof fn lemma_ink_after_lines(all: Seq<Seq<char>>)
    ensures
        ink(concat(after_lines(all).0)) + ink(after_lines(all).1) == ink(concat(all)),
    decreases all.len(),
{
    if all.len() == 0 {
        assert(ink(concat(all)) =~= Seq::empty());
    } else {
        let state = after_lines(all.drop_last());
        let line = all.last();
        let ended = (is_heading(line) || is_blank(line)) && !is_blank(state.1);
        lemma_ink_after_lines(all.drop_last());
        lemma_ink_add(concat(all.drop_last()), line);
        lemma_ink_trim(line);
        if is_blank(line) {
            lemma_ink_blank(line);
        }
        if is_blank(state.1) {
            lemma_ink_blank(state.1);
        }
        if ended {
            lemma_concat_add(state.0, pieces(state.1));
            lemma_ink_pieces(state.1);
            lemma_ink_add(concat(state.0), concat(pieces(state.1)));
        } else {
            reveal_strlit("\n");
            lemma_ink_add(state.1 + "\n"@, line);
            lemma_ink_add(state.1, "\n"@);
            lemma_ink_blank("\n"@);
        }
        assert(ink(concat(after_lines(all).0)) + ink(after_lines(all).1) =~= ink(concat(all)));
    }
}

proof fn lemma_ink_not_blank(all: Seq<Seq<char>>)
    ensures
        ink(concat(not_blank(all))) == ink(concat(all)),
    decreases all.len(),
{
    if all.len() > 0 {
        let rest = all.drop_last();
        lemma_ink_not_blank(rest);
        lemma_ink_add(concat(rest), all.last());
        if is_blank(all.last()) {
            lemma_ink_blank(all.last());
            assert(ink(concat(rest)) + ink(all.last()) =~= ink(concat(rest)));
        } else {
            lemma_ink_add(concat(not_blank(rest)), all.last());
            assert(not_blank(all).drop_last() =~= not_blank(rest));
        }
    }
}

/// The passages of a document say all that it says, in its order: no character is lost, made up or
/// moved but for white space.
pub proof fn law_chunks_lose_nothing(content: Seq<char>)
    ensures
        ink(concat(chunks_of(content))) == ink(content),
{
    let end = after_lines(lines(content));
    lemma_ink_lines(content);
    lemma_ink_after_lines(lines(content));
    lemma_ink_pieces(end.1);
    lemma_concat_add(end.0, pieces(end.1));
    lemma_ink_add(concat(end.0), concat(pieces(end.1)));
    lemma_ink_not_blank(end.0 + pieces(end.1));
}

/// No line but the first is a heading: the first character behind a line feed that is not white is
/// no hash.
pub open spec fn goes_on(s: Seq<char>) -> bool {
    forall|i: int, k: int|
        0 <= i < k < s.len() && #[trigger] s[i] == '\n' && #[trigger] s[k] == '#' ==> exists|j: int|
            i < j < k && !is_white(#[trigger] s[j])
}

/// All texts of the list go on as they start.
pub open spec fn all_go_on(all: Seq<Seq<char>>) -> bool {
    forall|i: int| 0 <= i < all.len() ==> goes_on(#[trigger] all[i])
}

proof fn lemma_part_goes_on(s: Seq<char>, from: int, to: int)
    requires
        0 <= from <= to <= s.len(),
        goes_on(s),
    ensures
        goes_on(s.subrange(from, to)),
{
    let part = s.subrange(from, to);
    assert forall|i: int, k: int|
        0 <= i < k < part.len() && #[trigger] part[i] == '\n' && #[trigger] part[k]
            == '#' implies exists|j: int| i < j < k && !is_white(#[trigger] part[j]) by {
        assert(s[from + i] == '\n' && s[from + k] == '#');
        let j = choose|j: int| from + i < j < from + k && !is_white(#[trigger] s[j]);
        assert(part[j - from] == s[j]);
    }
}

proof fn lemma_split_goes_on(s: Seq<char>, max: nat)
    requires
        goes_on(s),
    ensures
        all_go_on(split(s, max)),
    decreases s.len(),
{
    if s.len() > max && max > 0 {
        let rest = s.skip(max as int);
        assert(s.take(max as int) =~= s.subrange(0, max as int));
        lemma_part_goes_on(s, 0, max as int);
        lemma_part_goes_on(s, max as int, s.len() as int);
        assert(rest =~= s.subrange(max as int, s.len() as int));
        lemma_split_goes_on(rest, max);
        assert forall|i: int| 0 <= i < split(s, max).len() implies goes_on(
            #[trigger] split(s, max)[i],
        ) by {
            if i > 0 {
                assert(split(s, max)[i] == split(rest, max)[i - 1]);
            }
        }
    }
}

proof fn lemma_pieces_go_on(current: Seq<char>)
    requires
        goes_on(current),
    ensures
        all_go_on(pieces(current)),
{
    lemma_trim_part(current);
    lemma_part_goes_on(current, lead(current), lead(current) + trim(current).len());
    lemma_split_goes_on(trim(current), MAX_CHUNK_CHARS as nat);
}

/// No line holds a line feed.
proof fn lemma_lines_have_no_feed(s: Seq<char>)
    ensures
        forall|n: int, i: int|
            0 <= n < lines(s).len() && 0 <= i < lines(s)[n].len() ==> #[trigger] lines(s)[n][i]
                != '\n',
    decreases s.len(),
{
    lemma_len_before(s, '\n');
    let m = len_before(s, '\n');
    if s.len() > 0 && m < s.len() {
        let rest = s.skip(m as int + 1);
        lemma_lines_have_no_feed(rest);
        assert forall|n: int, i: int|
            0 <= n < lines(s).len() && 0 <= i < lines(s)[n].len() implies #[trigger] lines(
            s,
        )[n][i] != '\n' by {
            if n > 0 {
                assert(lines(s)[n] == lines(rest)[n - 1]);
                assert(lines(rest)[n - 1][i] != '\n');
            } else {
                assert(lines(s)[0] == without_return(s.take(m as int)));
                assert(lines(s)[0][i] == s[i]);
            }
        }
    }
}

/// A line that is no heading goes on with what stands before it.
proof fn lemma_line_goes_on(current: Seq<char>, line: Seq<char>)
    requires
        goes_on(current),
        !is_heading(line),
        forall|i: int| 0 <= i < line.len() ==> line[i] != '\n',
    ensures
        goes_on(current + "\n"@ + line),
{
    reveal_strlit("\n");
    let s = current + "\n"@ + line;
    let start = current.len() + 1;
    lemma_trim_part(line);
    lemma_trim(line);
    assert forall|i: int, k: int|
        0 <= i < k < s.len() && #[trigger] s[i] == '\n' && #[trigger] s[k]
            == '#' implies exists|j: int| i < j < k && !is_white(#[trigger] s[j]) by {
        if k < current.len() {
            assert(current[i] == '\n' && current[k] == '#');
            let j = choose|j: int| i < j < k && !is_white(#[trigger] current[j]);
            assert(s[j] == current[j]);
        } else {
            assert(k >= start);
            assert(line[k - start] == '#');
            if i >= start {
                assert(line[i - start] == '\n');
            }
            assert(!is_white('#'));
            assert(lead(line) <= k - start);
            assert(trim(line)[0] == line[lead(line)]);
            assert(lead(line) < k - start);
            assert(s[start + lead(line)] == line[lead(line)]);
        }
    }
}

proof fn lemma_lines_go_on(all: Seq<Seq<char>>)
    requires
        forall|n: int, i: int|
            0 <= n < all.len() && 0 <= i < all[n].len() ==> #[trigger] all[n][i] != '\n',
    ensures
        all_go_on(after_lines(all).0),
        goes_on(after_lines(all).1),
    decreases all.len(),
{
    if all.len() > 0 {
        let rest = all.drop_last();
        let line = all.last();
        assert forall|n: int, i: int|
            0 <= n < rest.len() && 0 <= i < rest[n].len() implies #[trigger] rest[n][i] != '\n' by {
            assert(all[n][i] != '\n');
        }
        assert forall|i: int| 0 <= i < line.len() implies line[i] != '\n' by {
            assert(all[all.len() - 1][i] != '\n');
        }
        lemma_lines_go_on(rest);
        let state = after_lines(rest);
        lemma_pieces_go_on(state.1);
        let joined = state.0 + pieces(state.1);
        assert forall|i: int| 0 <= i < joined.len() implies goes_on(#[trigger] joined[i]) by {
            if i >= state.0.len() {
                assert(joined[i] == pieces(state.1)[i - state.0.len()]);
            }
        }
        assert(goes_on(line));
        lemma_trim_part(line);
        lemma_part_goes_on(line, lead(line), lead(line) + trim(line).len());
        if !is_heading(line) {
            lemma_line_goes_on(state.1, line);
        }
    }
}

/// A heading only starts a passage: within one, no line behind the first is a heading.
pub proof fn law_headings_start_chunks(content: Seq<char>)
    ensures
        all_go_on(chunks_of(content)),
{
    lemma_lines_have_no_feed(content);
    lemma_lines_go_on(lines(content));
    let end = after_lines(lines(content));
    lemma_pieces_go_on(end.1);
    let joined = end.0 + pieces(end.1);
    assert forall|i: int| 0 <= i < joined.len() implies goes_on(#[trigger] joined[i]) by {
        if i >= end.0.len() {
            assert(joined[i] == pieces(end.1)[i - end.0.len()]);
        }
    }
    lemma_not_blank_goes_on(joined);
}

proof fn lemma_not_blank_goes_on(all: Seq<Seq<char>>)
    requires
        all_go_on(all),
    ensures
        all_go_on(not_blank(all)),
    decreases all.len(),
{
    if all.len() > 0 {
        assert forall|i: int| 0 <= i < all.drop_last().len() implies goes_on(
            #[trigger] all.drop_last()[i],
        ) by {
            assert(all.drop_last()[i] == all[i]);
        }
        lemma_not_blank_goes_on(all.drop_last());
        assert(all.last() == all[all.len() - 1]);
    }
}

// Cutting a text into terms.

/// The ideographs of Chinese, Japanese and Korean.
pub open spec fn is_cjk(c: char) -> bool {
    let n = c as int;
    (0x4e00 <= n <= 0x9fff) || (0x3400 <= n <= 0x4dbf) || (0x20000 <= n <= 0x2a6df)
}

/// Whether a character is an ideograph.
pub fn is_cjk_char(c: char) -> (yes: bool)
    ensures
        yes == is_cjk(c),
{
    let n: u32 = c as u32;
    (0x4e00 <= n && n <= 0x9fff) || (0x3400 <= n && n <= 0x4dbf) || (0x20000 <= n && n <= 0x2a6df)
}

/// How many ASCII letters and digits `s` starts with.
pub open spec fn word_run(s: Seq<char>) -> nat
    decreases s.len(),
{
    if s.len() > 0 && is_ascii_alnum(s[0]) {
        1 + word_run(s.skip(1))
    } else {
        0
    }
}

/// How many ideographs `s` starts with.
pub open spec fn cjk_run(s: Seq<char>) -> nat
    decreases s.len(),
{
    if s.len() > 0 && is_cjk(s[0]) {
        1 + cjk_run(s.skip(1))
    } else {
        0
    }
}

/// A run is part of the text, and all of it is of its kind.
pub proof fn lemma_runs(s: Seq<char>)
    ensures
        word_run(s) <= s.len(),
        cjk_run(s) <= s.len(),
        forall|i: int| 0 <= i < word_run(s) ==> is_ascii_alnum(#[trigger] s[i]),
        forall|i: int| 0 <= i < cjk_run(s) ==> is_cjk(#[trigger] s[i]),
    decreases s.len(),
{
    if s.len() > 0 {
        lemma_runs(s.skip(1));
        assert forall|i: int| 0 <= i < word_run(s) implies is_ascii_alnum(#[trigger] s[i]) by {
            if i > 0 {
                assert(s.skip(1)[i - 1] == s[i]);
            }
        }
        assert forall|i: int| 0 <= i < cjk_run(s) implies is_cjk(#[trigger] s[i]) by {
            if i > 0 {
                assert(s.skip(1)[i - 1] == s[i]);
            }
        }
    }
}

/// Each character of `s`, followed by the pair that it makes with the next one.
pub open spec fn grams(s: Seq<char>) -> Seq<Seq<char>>
    decreases s.len(),
{
    if s.len() == 0 {
        Seq::empty()
    } else if s.len() == 1 {
        seq![seq![s[0]]]
    } else {
        seq![seq![s[0]], seq![s[0], s[1]]] + grams(s.skip(1))
    }
}

/// The terms of a text: words of at least three ASCII letters and digits, in small letters, and
/// the single ideographs and pairs of them. All else separates.
pub open spec fn terms(s: Seq<char>) -> Seq<Seq<char>>
    decreases s.len(),
{
    if s.len() == 0 {
        Seq::empty()
    } else if is_ascii_alnum(s[0]) {
        let n = word_run(s);
        proof {
            lemma_runs(s);
        }
        if n >= 3 {
            seq![ascii_lowered(s.take(n as int))] + terms(s.skip(n as int))
        } else {
            terms(s.skip(n as int))
        }
    } else if is_cjk(s[0]) {
        let n = cjk_run(s);
        proof {
            lemma_runs(s);
        }
        grams(s.take(n as int)) + terms(s.skip(n as int))
    } else {
        terms(s.skip(1))
    }
}

/// The characters and pairs of a run of ideographs.
fn push_grams(tokens: &mut Vec<String>, run: &[char])
    ensures
        texts(final(tokens)@) == texts(old(tokens)@) + grams(run@),
{
    let ghost start = tokens@;
    let mut j: usize = 0;
    assert(run@.skip(0) =~= run@);
    while j < run.len()
        invariant
            j <= run@.len(),
            texts(tokens@) + grams(run@.skip(j as int)) == texts(start) + grams(run@),
        decreases run@.len() - j,
    {
        let ghost rest = run@.skip(j as int);
        let ghost before = tokens@;
        let mut single: String = String::new();
        single.push(run[j]);
        assert(single@ =~= seq![rest[0]]);
        tokens.push(single);
        assert(texts(tokens@) =~= texts(before).push(seq![rest[0]]));
        assert(rest.skip(1) =~= run@.skip(j + 1));
        if j + 1 < run.len() {
            let ghost middle = tokens@;
            let mut pair: String = String::new();
            pair.push(run[j]);
            pair.push(run[j + 1]);
            assert(pair@ =~= seq![rest[0], rest[1]]);
            tokens.push(pair);
            assert(texts(tokens@) =~= texts(middle).push(seq![rest[0], rest[1]]));
        } else {
            assert(grams(run@.skip(j + 1)).len() == 0);
        }
        assert(texts(tokens@) + grams(run@.skip(j + 1)) =~= texts(before) + grams(rest));
        j = j + 1;
    }
    assert(texts(tokens@) + grams(run@.skip(j as int)) =~= texts(tokens@));
}

/// The terms of a text.
pub fn tokenize(text: &str) -> (tokens: Vec<String>)
    ensures
        texts(tokens@) == terms(text@),
{
    let chars: Vec<char> = chars_of(text);
    let mut tokens: Vec<String> = Vec::new();
    let mut i: usize = 0;
    assert(chars@.skip(0) =~= chars@);
    assert(texts(tokens@) + terms(chars@) =~= terms(chars@));
    while i < chars.len()
        invariant
            i <= chars@.len(),
            texts(tokens@) + terms(chars@.skip(i as int)) == terms(chars@),
        decreases chars@.len() - i,
    {
        let ghost rest = chars@.skip(i as int);
        let ghost before = tokens@;
        proof {
            lemma_runs(rest);
        }
        if is_ascii_alphanumeric(chars[i]) {
            let start: usize = i;
            let mut end: usize = i;
            while end < chars.len() && is_ascii_alphanumeric(chars[end])
                invariant
                    start <= end <= chars@.len(),
                    rest == chars@.skip(start as int),
                    word_run(rest) == end - start + word_run(chars@.skip(end as int)),
                decreases chars@.len() - end,
            {
                assert(chars@.skip(end as int).skip(1) =~= chars@.skip(end + 1));
                end = end + 1;
            }
            let word: &[char] = slice_subrange(&chars, start, end);
            assert(word@ =~= rest.take(end - start));
            assert(rest.skip(end - start) =~= chars@.skip(end as int));
            if word.len() >= 3 {
                let lower: Vec<char> = ascii_lower_chars(word);
                tokens.push(string_of(&lower));
                assert(texts(tokens@) =~= texts(before).push(lower@));
            }
            assert(texts(tokens@) + terms(chars@.skip(end as int)) =~= texts(before) + terms(
                rest,
            ));
            assert(end > i);
            i = end;
        } else if is_cjk_char(chars[i]) {
            let start: usize = i;
            let mut end: usize = i;
            while end < chars.len() && is_cjk_char(chars[end])
                invariant
                    start <= end <= chars@.len(),
                    rest == chars@.skip(start as int),
                    cjk_run(rest) == end - start + cjk_run(chars@.skip(end as int)),
                decreases chars@.len() - end,
            {
                assert(chars@.skip(end as int).skip(1) =~= chars@.skip(end + 1));
                end = end + 1;
            }
            let run: &[char] = slice_subrange(&chars, start, end);
            assert(run@ =~= rest.take(end - start));
            assert(rest.skip(end - start) =~= chars@.skip(end as int));
            push_grams(&mut tokens, run);
            assert(texts(tokens@) + terms(chars@.skip(end as int)) =~= texts(before) + terms(
                rest,
            ));
            assert(end > i);
            i = end;
        } else {
            assert(rest.skip(1) =~= chars@.skip(i + 1));
            i = i + 1;
        }
    }
    assert(texts(tokens@) + terms(chars@.skip(i as int)) =~= texts(tokens@));
    tokens
}

/// A term is a word of at least three ASCII letters and digits without capitals, or one ideograph
/// or two.
pub open spec fn is_term(t: Seq<char>) -> bool {
    ||| t.len() >= 3 && forall|i: int|
        0 <= i < t.len() ==> is_ascii_alnum(#[trigger] t[i]) && !('A' <= t[i] <= 'Z')
    ||| 1 <= t.len() <= 2 && forall|i: int| 0 <= i < t.len() ==> is_cjk(#[trigger] t[i])
}

proof fn lemma_grams_are_terms(s: Seq<char>)
    requires
        forall|i: int| 0 <= i < s.len() ==> is_cjk(#[trigger] s[i]),
    ensures
        forall|k: int| 0 <= k < grams(s).len() ==> is_term(#[trigger] grams(s)[k]),
    decreases s.len(),
{
    if s.len() > 1 {
        assert forall|i: int| 0 <= i < s.skip(1).len() implies is_cjk(#[trigger] s.skip(1)[i]) by {
            assert(s.skip(1)[i] == s[i + 1]);
        }
        lemma_grams_are_terms(s.skip(1));
        assert forall|k: int| 0 <= k < grams(s).len() implies is_term(#[trigger] grams(s)[k]) by {
            if k >= 2 {
                assert(grams(s)[k] == grams(s.skip(1))[k - 2]);
            } else {
                assert(is_cjk(s[0]) && is_cjk(s[1]));
            }
        }
    } else if s.len() == 1 {
        assert(is_cjk(s[0]));
    }
}

/// Every term of a text has the shape of one.
pub proof fn law_terms_are_well_shaped(s: Seq<char>)
    ensures
        forall|k: int| 0 <= k < terms(s).len() ==> is_term(#[trigger] terms(s)[k]),
    decreases s.len(),
{
    if s.len() > 0 {
        lemma_runs(s);
        if is_ascii_alnum(s[0]) {
            let n = word_run(s);
            law_terms_are_well_shaped(s.skip(n as int));
            if n >= 3 {
                let word = ascii_lowered(s.take(n as int));
                assert forall|i: int| 0 <= i < word.len() implies is_ascii_alnum(
                    #[trigger] word[i],
                ) && !('A' <= word[i] <= 'Z') by {
                    assert(is_ascii_alnum(s[i]));
                    assert(word[i] == ascii_lower(s[i]));
                }
                assert forall|k: int| 0 <= k < terms(s).len() implies is_term(
                    #[trigger] terms(s)[k],
                ) by {
                    if k > 0 {
                        assert(terms(s)[k] == terms(s.skip(n as int))[k - 1]);
                    } else {
                        assert(terms(s)[k] == word);
                    }
                }
            } else {
                assert(terms(s) == terms(s.skip(n as int)));
            }
        } else if is_cjk(s[0]) {
            let n = cjk_run(s);
            law_terms_are_well_shaped(s.skip(n as int));
            let run = s.take(n as int);
            assert forall|i: int| 0 <= i < run.len() implies is_cjk(#[trigger] run[i]) by {
                assert(run[i] == s[i]);
            }
            lemma_grams_are_terms(run);
            let first = grams(run);
            assert forall|k: int| 0 <= k < terms(s).len() implies is_term(
                #[trigger] terms(s)[k],
            ) by {
                if k < first.len() {
                    assert(terms(s)[k] == first[k]);
                } else {
                    assert(terms(s)[k] == terms(s.skip(n as int))[k - first.len()]);
                }
            }
        } else {
            law_terms_are_well_shaped(s.skip(1));
            assert(terms(s) == terms(s.skip(1)));
        }
    }
}

/// A character that is part of no term.
pub open spec fn is_separator(c: char) -> bool {
    !is_ascii_alnum(c) && !is_cjk(c)
}

/// A run ends at a separator.
proof fn lemma_runs_end(a: Seq<char>, sep: char, b: Seq<char>)
    requires
        is_separator(sep),
    ensures
        word_run(a.push(sep) + b) == word_run(a),
        cjk_run(a.push(sep) + b) == cjk_run(a),
    decreases a.len(),
{
    let s = a.push(sep) + b;
    if a.len() > 0 {
        lemma_runs_end(a.skip(1), sep, b);
        assert(s.skip(1) =~= a.skip(1).push(sep) + b);
        assert(s[0] == a[0]);
    } else {
        assert(s[0] == sep);
    }
}

/// The terms of a text around a separator are those of its parts, in order.
pub proof fn law_terms_of_parts(a: Seq<char>, sep: char, b: Seq<char>)
    requires
        is_separator(sep),
    ensures
        terms(a.push(sep) + b) == terms(a) + terms(b),
    decreases a.len(),
{
    let s = a.push(sep) + b;
    if a.len() == 0 {
        assert(s[0] == sep);
        assert(s.skip(1) =~= b);
        assert(terms(a) + terms(b) =~= terms(b));
    } else {
        assert(s[0] == a[0]);
        lemma_runs(a);
        lemma_runs_end(a, sep, b);
        let n = if is_ascii_alnum(a[0]) {
            word_run(a)
        } else if is_cjk(a[0]) {
            cjk_run(a)
        } else {
            1
        };
        law_terms_of_parts(a.skip(n as int), sep, b);
        assert(s.skip(n as int) =~= a.skip(n as int).push(sep) + b);
        assert(s.take(n as int) =~= a.take(n as int));
        assert(terms(s) =~= terms(a) + terms(b));
    }
}

// Counting terms.

/// How often `t` stands in `all`.
pub open spec fn occurrences(all: Seq<Seq<char>>, t: Seq<char>) -> nat
    decreases all.len(),
{
    if all.len() == 0 {
        0
    } else {
        occurrences(all.drop_last(), t) + if all.last() == t {
            1nat
        } else {
            0
        }
    }
}

/// The count that a table has for a term; none where it does not hold the term.
pub open spec fn table_count(table: Seq<(String, usize)>, t: Seq<char>) -> nat
    decreases table.len(),
{
    if table.len() == 0 {
        0
    } else if table.last().0@ == t {
        table.last().1 as nat
    } else {
        table_count(table.drop_last(), t)
    }
}

/// The table holds no term twice, and no term without a count.
pub open spec fn is_table(table: Seq<(String, usize)>) -> bool {
    &&& forall|i: int, j: int|
        0 <= i < j < table.len() ==> (#[trigger] table[i]).0@ != (#[trigger] table[j]).0@
    &&& forall|i: int| 0 <= i < table.len() ==> (#[trigger] table[i]).1 > 0
}

proof fn lemma_table_at(table: Seq<(String, usize)>, i: int)
    requires
        is_table(table),
        0 <= i < table.len(),
    ensures
        table_count(table, table[i].0@) == table[i].1,
    decreases table.len(),
{
    if i < table.len() - 1 {
        lemma_table_prefix(table);
        lemma_table_at(table.drop_last(), i);
        assert(table.drop_last()[i] == table[i]);
        assert(table[i].0@ != table[table.len() - 1].0@);
    }
}

proof fn lemma_table_prefix(table: Seq<(String, usize)>)
    requires
        is_table(table),
        table.len() > 0,
    ensures
        is_table(table.drop_last()),
{
    let init = table.drop_last();
    assert forall|i: int, j: int| 0 <= i < j < init.len() implies (#[trigger] init[i]).0@ != (
    #[trigger] init[j]).0@ by {
        assert(table[i].0@ != table[j].0@);
    }
    assert forall|i: int| 0 <= i < init.len() implies (#[trigger] init[i]).1 > 0 by {
        assert(table[i].1 > 0);
    }
}

proof fn lemma_table_absent(table: Seq<(String, usize)>, t: Seq<char>)
    requires
        forall|i: int| 0 <= i < table.len() ==> (#[trigger] table[i]).0@ != t,
    ensures
        table_count(table, t) == 0,
    decreases table.len(),
{
    if table.len() > 0 {
        assert(table[table.len() - 1].0@ != t);
        assert forall|i: int| 0 <= i < table.drop_last().len() implies (#[trigger] table.drop_last()[i]).0@
            != t by {
            assert(table[i].0@ != t);
        }
        lemma_table_absent(table.drop_last(), t);
    }
}

proof fn lemma_table_update(table: Seq<(String, usize)>, i: int, entry: (String, usize), t: Seq<char>)
    requires
        is_table(table),
        0 <= i < table.len(),
        entry.0@ == table[i].0@,
        entry.1 > 0,
    ensures
        is_table(table.update(i, entry)),
        table_count(table.update(i, entry), t) == if t == entry.0@ {
            entry.1 as nat
        } else {
            table_count(table, t)
        },
    decreases table.len(),
{
    let changed = table.update(i, entry);
    assert forall|a: int, b: int| 0 <= a < b < changed.len() implies (#[trigger] changed[a]).0@ != (
    #[trigger] changed[b]).0@ by {
        assert(table[a].0@ != table[b].0@);
    }
    assert forall|a: int| 0 <= a < changed.len() implies (#[trigger] changed[a]).1 > 0 by {
        assert(table[a].1 > 0);
    }
    if i == table.len() - 1 {
        assert(changed.drop_last() =~= table.drop_last());
    } else {
        lemma_table_prefix(table);
        lemma_table_update(table.drop_last(), i, entry, t);
        assert(changed.drop_last() =~= table.drop_last().update(i, entry));
        assert(table[i].0@ != table[table.len() - 1].0@);
    }
}

/// Counts one more occurrence of a term.
fn count_term(table: &mut Vec<(String, usize)>, term: &String)
    requires
        is_table(old(table)@),
        table_count(old(table)@, term@) < usize::MAX,
    ensures
        is_table(final(table)@),
        forall|t: Seq<char>| #[trigger]
            table_count(final(table)@, t) == table_count(old(table)@, t) + if t == term@ {
                1nat
            } else {
                0
            },
{
    let ghost before = table@;
    let mut i: usize = 0;
    while i < table.len()
        invariant
            i <= table@.len(),
            table@ == before,
            before == old(table)@,
            is_table(before),
            table_count(before, term@) < usize::MAX,
            forall|j: int| 0 <= j < i ==> (#[trigger] before[j]).0@ != term@,
        decreases table@.len() - i,
    {
        if same_text(table[i].0.as_str(), term.as_str()) {
            proof {
                lemma_table_at(before, i as int);
            }
            let entry: (String, usize) = (term.clone(), table[i].1 + 1);
            table.set(i, entry);
            proof {
                assert forall|t: Seq<char>| #[trigger] table_count(table@, t) == table_count(
                    before,
                    t,
                ) + if t == term@ {
                    1nat
                } else {
                    0
                } by {
                    lemma_table_update(before, i as int, entry, t);
                }
                lemma_table_update(before, i as int, entry, term@);
            }
            return;
        }
        i = i + 1;
    }
    table.push((term.clone(), 1));
    proof {
        lemma_table_absent(before, term@);
        assert(table@.drop_last() =~= before);
        assert forall|a: int, b: int| 0 <= a < b < table@.len() implies (#[trigger] table@[a]).0@
            != (#[trigger] table@[b]).0@ by {
            assert(before[a].0@ != term@);
            if b < before.len() {
                assert(before[a].0@ != before[b].0@);
            }
        }
        assert forall|a: int| 0 <= a < table@.len() implies (#[trigger] table@[a]).1 > 0 by {
            if a < before.len() {
                assert(before[a].1 > 0);
            }
        }
    }
}

/// What a table has for a term.
fn lookup(table: &Vec<(String, usize)>, term: &str) -> (count: usize)
    requires
        is_table(table@),
    ensures
        count == table_count(table@, term@),
{
    let mut i: usize = 0;
    while i < table.len()
        invariant
            i <= table@.len(),
            is_table(table@),
            forall|j: int| 0 <= j < i ==> (#[trigger] table@[j]).0@ != term@,
        decreases table@.len() - i,
    {
        if same_text(table[i].0.as_str(), term) {
            proof {
                lemma_table_at(table@, i as int);
            }
            return table[i].1;
        }
        i = i + 1;
    }
    proof {
        lemma_table_absent(table@, term@);
    }
    0
}

proof fn lemma_occurrences_bounded(all: Seq<Seq<char>>, t: Seq<char>)
    ensures
        occurrences(all, t) <= all.len(),
    decreases all.len(),
{
    if all.len() > 0 {
        lemma_occurrences_bounded(all.drop_last(), t);
    }
}

/// Counts terms.
pub fn count_terms(tokens: &Vec<String>) -> (table: Vec<(String, usize)>)
    ensures
        is_table(table@),
        forall|t: Seq<char>| #[trigger]
            table_count(table@, t) == occurrences(texts(tokens@), t),
{
    let mut table: Vec<(String, usize)> = Vec::new();
    let mut i: usize = 0;
    let ghost all = texts(tokens@);
    while i < tokens.len()
        invariant
            i <= tokens@.len(),
            all == texts(tokens@),
            is_table(table@),
            forall|t: Seq<char>| #[trigger]
                table_count(table@, t) == occurrences(all.take(i as int), t),
        decreases tokens@.len() - i,
    {
        assert(all.take(i + 1).drop_last() =~= all.take(i as int));
        assert(all.take(i + 1).last() == tokens@[i as int]@);
        proof {
            lemma_occurrences_bounded(all.take(i as int), tokens@[i as int]@);
        }
        count_term(&mut table, &tokens[i]);
        i = i + 1;
    }
    assert(all.take(tokens@.len() as int) =~= all);
    table
}

/// What is counted of a passage.
pub struct DocStat {
    /// The place of the passage.
    pub id: usize,
    /// How often each of its terms stands in it.
    pub tf: Vec<(String, usize)>,
    /// How many terms it has.
    pub len: usize,
}

/// What is counted of all passages.
pub struct Bm25Index {
    pub docs: Vec<DocStat>,
    /// In how many passages each term stands.
    pub df: Vec<(String, usize)>,
    /// How many terms all passages have.
    pub total_terms: u128,
}

/// The terms of each passage.
pub open spec fn chunk_terms(chunks: Seq<Chunk>) -> Seq<Seq<Seq<char>>> {
    chunks.map_values(|chunk: Chunk| terms(chunk.text@))
}

/// In how many of the given lists of terms `t` stands.
pub open spec fn documents_with(all: Seq<Seq<Seq<char>>>, t: Seq<char>) -> nat
    decreases all.len(),
{
    if all.len() == 0 {
        0
    } else {
        documents_with(all.drop_last(), t) + if occurrences(all.last(), t) > 0 {
            1nat
        } else {
            0
        }
    }
}

/// How many terms the given lists have together.
pub open spec fn total_len(all: Seq<Seq<Seq<char>>>) -> nat
    decreases all.len(),
{
    if all.len() == 0 {
        0
    } else {
        total_len(all.drop_last()) + all.last().len()
    }
}

proof fn lemma_documents_bounded(all: Seq<Seq<Seq<char>>>, t: Seq<char>)
    ensures
        documents_with(all, t) <= all.len(),
    decreases all.len(),
{
    if all.len() > 0 {
        lemma_documents_bounded(all.drop_last(), t);
    }
}

/// The statistics of a passage with the given terms.
pub open spec fn is_stat(stat: DocStat, id: int, passage: Seq<Seq<char>>) -> bool {
    &&& stat.id == id
    &&& stat.len == passage.len()
    &&& is_table(stat.tf@)
    &&& forall|t: Seq<char>| #[trigger] table_count(stat.tf@, t) == occurrences(passage, t)
}

/// Counts, for each term of a passage, one more passage that holds it.
fn count_document(df: &mut Vec<(String, usize)>, tf: &Vec<(String, usize)>)
    requires
        is_table(old(df)@),
        is_table(tf@),
        forall|t: Seq<char>| #[trigger] table_count(old(df)@, t) < usize::MAX,
    ensures
        is_table(final(df)@),
        forall|t: Seq<char>| #[trigger]
            table_count(final(df)@, t) == table_count(old(df)@, t) + if table_count(tf@, t) > 0 {
                1nat
            } else {
                0
            },
{
    let ghost before = df@;
    let mut i: usize = 0;
    while i < tf.len()
        invariant
            i <= tf@.len(),
            is_table(df@),
            is_table(tf@),
            forall|t: Seq<char>| #[trigger] table_count(before, t) < usize::MAX,
            forall|t: Seq<char>| #[trigger]
                table_count(df@, t) == table_count(before, t) + if in_first(tf@, i as int, t) {
                    1nat
                } else {
                    0
                },
        decreases tf@.len() - i,
    {
        let ghost middle = df@;
        proof {
            if in_first(tf@, i as int, tf@[i as int].0@) {
                let j = choose|j: int| 0 <= j < i && tf@[j].0@ == tf@[i as int].0@;
                assert(tf@[j].0@ != tf@[i as int].0@);
            }
            assert(table_count(before, tf@[i as int].0@) < usize::MAX);
        }
        count_term(df, &tf[i].0);
        proof {
            assert forall|t: Seq<char>| #[trigger] table_count(df@, t) == table_count(before, t)
                + if in_first(tf@, i + 1, t) {
                1nat
            } else {
                0
            } by {
                assert(table_count(df@, t) == table_count(middle, t) + if t
                    == tf@[i as int].0@ {
                    1nat
                } else {
                    0
                });
                if in_first(tf@, i as int, t) {
                    let j = choose|j: int| 0 <= j < i && tf@[j].0@ == t;
                    assert(0 <= j < i + 1 && tf@[j].0@ == t);
                    assert(tf@[j].0@ != tf@[i as int].0@);
                } else if t == tf@[i as int].0@ {
                    assert(in_first(tf@, i + 1, t));
                }
            }
        }
        i = i + 1;
    }
    proof {
        assert forall|t: Seq<char>| in_first(tf@, tf@.len() as int, t) == (table_count(tf@, t)
            > 0) by {
            if in_first(tf@, tf@.len() as int, t) {
                let j = choose|j: int| 0 <= j < tf@.len() && tf@[j].0@ == t;
                lemma_table_at(tf@, j);
                assert(tf@[j].1 > 0);
            } else {
                lemma_table_absent(tf@, t);
            }
        }
    }
}

/// `t` is one of the first `n` terms of a table.
pub open spec fn in_first(table: Seq<(String, usize)>, n: int, t: Seq<char>) -> bool {
    exists|j: int| 0 <= j < n && (#[trigger] table[j]).0@ == t
}

impl Bm25Index {
    /// The statistics of the given passages.
    pub open spec fn counts(&self, chunks: Seq<Chunk>) -> bool {
        let all = chunk_terms(chunks);
        &&& self.docs@.len() == chunks.len()
        &&& forall|i: int| 0 <= i < all.len() ==> is_stat(#[trigger] self.docs@[i], i, all[i])
        &&& is_table(self.df@)
        &&& forall|t: Seq<char>| #[trigger]
            table_count(self.df@, t) == documents_with(all, t)
        &&& self.total_terms == total_len(all)
    }

    /// Counts the terms of passages.
    pub fn new(chunks: &Vec<Chunk>) -> (index: Bm25Index)
        ensures
            index.counts(chunks@),
    {
        let mut docs: Vec<DocStat> = Vec::new();
        let mut df: Vec<(String, usize)> = Vec::new();
        let mut total_terms: u128 = 0;
        let ghost all = chunk_terms(chunks@);
        let mut id: usize = 0;
        while id < chunks.len()
            invariant
                id <= chunks@.len(),
                all == chunk_terms(chunks@),
                docs@.len() == id,
                forall|i: int| 0 <= i < id ==> is_stat(#[trigger] docs@[i], i, all[i]),
                is_table(df@),
                forall|t: Seq<char>| #[trigger]
                    table_count(df@, t) == documents_with(all.take(id as int), t),
                total_terms == total_len(all.take(id as int)),
                total_terms <= id * 0xffff_ffff_ffff_ffff,
            decreases chunks@.len() - id,
        {
            assert(all.take(id + 1).drop_last() =~= all.take(id as int));
            let tokens: Vec<String> = tokenize(chunks[id].text.as_str());
            assert(texts(tokens@) == all[id as int]);
            let len: usize = tokens.len();
            assert(all[id as int].len() == len);
            let tf: Vec<(String, usize)> = count_terms(&tokens);
            proof {
                assert forall|t: Seq<char>| #[trigger] table_count(df@, t) < usize::MAX by {
                    lemma_documents_bounded(all.take(id as int), t);
                }
                assert(id * 0xffff_ffff_ffff_ffff <= 0xffff_ffff_ffff_fffe
                    * 0xffff_ffff_ffff_ffff) by (nonlinear_arith)
                    requires
                        id <= 0xffff_ffff_ffff_fffe,
                ;
                assert((id + 1) * 0xffff_ffff_ffff_ffff == id * 0xffff_ffff_ffff_ffff
                    + 0xffff_ffff_ffff_ffff) by (nonlinear_arith);
            }
            count_document(&mut df, &tf);
            total_terms = total_terms + len as u128;
            docs.push(DocStat { id, tf, len });
            id = id + 1;
        }
        assert(all.take(chunks@.len() as int) =~= all);
        Bm25Index { docs, df, total_terms }
    }

    /// How often a term stands in a passage.
    pub fn term_frequency(&self, doc: usize, term: &str) -> (count: usize)
        requires
            doc < self.docs@.len(),
            is_table(self.docs@[doc as int].tf@),
        ensures
            count == table_count(self.docs@[doc as int].tf@, term@),
    {
        lookup(&self.docs[doc].tf, term)
    }

    /// In how many passages a term stands.
    pub fn document_frequency(&self, term: &str) -> (count: usize)
        requires
            is_table(self.df@),
        ensures
            count == table_count(self.df@, term@),
    {
        lookup(&self.df, term)
    }
}

/// No term stands in more passages than there are, and one that is said to stand in none is counted
/// in none.
pub proof fn law_document_frequency_is_bounded(index: Bm25Index, chunks: Seq<Chunk>, t: Seq<char>)
    requires
        index.counts(chunks),
    ensures
        table_count(index.df@, t) <= chunks.len(),
        table_count(index.df@, t) == 0 ==> forall|i: int|
            0 <= i < chunks.len() ==> table_count(#[trigger] index.docs@[i].tf@, t) == 0,
{
    let all = chunk_terms(chunks);
    lemma_documents_bounded(all, t);
    if documents_with(all, t) == 0 {
        lemma_no_document_has(all, t);
        assert forall|i: int| 0 <= i < chunks.len() implies table_count(
            #[trigger] index.docs@[i].tf@,
            t,
        ) == 0 by {
            assert(is_stat(index.docs@[i], i, all[i]));
            assert(occurrences(all[i], t) == 0);
        }
    }
}

proof fn lemma_no_document_has(all: Seq<Seq<Seq<char>>>, t: Seq<char>)
    requires
        documents_with(all, t) == 0,
    ensures
        forall|i: int| 0 <= i < all.len() ==> occurrences(#[trigger] all[i], t) == 0,
    decreases all.len(),
{
    if all.len() > 0 {
        lemma_no_document_has(all.drop_last(), t);
        assert forall|i: int| 0 <= i < all.len() implies occurrences(#[trigger] all[i], t) == 0 by {
            if i < all.len() - 1 {
                assert(all.drop_last()[i] == all[i]);
            }
        }
    }
}

// Ranking.

/// The order of `a` and `b` in a ranking: the larger key first, and of equal keys the earlier one.
pub open spec fn ranks_before(keys: Seq<u64>, a: usize, b: usize) -> bool {
    keys[a as int] > keys[b as int] || (keys[a as int] == keys[b as int] && a < b)
}

/// `order` holds each place of `keys` once, in the order of their ranking.
pub open spec fn is_ranking(keys: Seq<u64>, order: Seq<usize>) -> bool {
    &&& order.len() == keys.len()
    &&& forall|i: int| 0 <= i < order.len() ==> (#[trigger] order[i]) < keys.len()
    &&& forall|i: int, j: int|
        0 <= i < j < order.len() ==> ranks_before(keys, #[trigger] order[i], #[trigger] order[j])
    &&& forall|id: int| 0 <= id < keys.len() ==> #[trigger] is_ranked(order, id)
}

/// The place stands somewhere in a ranking.
pub open spec fn is_ranked(order: Seq<usize>, id: int) -> bool {
    exists|i: int| 0 <= i < order.len() && (#[trigger] order[i]) == id
}

/// Ranks places by their keys, the largest first; of equal keys the earlier place comes first.
pub fn rank(keys: &Vec<u64>) -> (order: Vec<usize>)
    ensures
        is_ranking(keys@, order@),
{
    let mut order: Vec<usize> = Vec::new();
    let mut id: usize = 0;
    while id < keys.len()
        invariant
            id <= keys@.len(),
            order@.len() == id,
            forall|i: int| 0 <= i < order@.len() ==> (#[trigger] order@[i]) < id,
            forall|i: int, j: int|
                0 <= i < j < order@.len() ==> ranks_before(
                    keys@,
                    #[trigger] order@[i],
                    #[trigger] order@[j],
                ),
            forall|k: int| 0 <= k < id ==> #[trigger] is_ranked(order@, k),
        decreases keys@.len() - id,
    {
        let ghost before = order@;
        let mut at: usize = order.len();
        while at > 0 && keys[order[at - 1]] < keys[id]
            invariant
                at <= order@.len(),
                order@ == before,
                id < keys@.len(),
                forall|i: int| 0 <= i < before.len() ==> (#[trigger] before[i]) < id,
                forall|i: int|
                    at <= i < before.len() ==> keys@[(#[trigger] before[i]) as int]
                        < keys@[id as int],
            decreases at,
        {
            at = at - 1;
        }
        order.insert(at, id);
        proof {
            assert forall|i: int| 0 <= i < order@.len() implies (#[trigger] order@[i]) < id + 1 by {
                if i < at {
                    assert(order@[i] == before[i]);
                } else if i > at {
                    assert(order@[i] == before[i - 1]);
                }
            }
            assert forall|i: int, j: int| 0 <= i < j < order@.len() implies ranks_before(
                keys@,
                #[trigger] order@[i],
                #[trigger] order@[j],
            ) by {
                if j < at {
                    assert(ranks_before(keys@, before[i], before[j]));
                } else if j == at {
                    assert(order@[i] == before[i]);
                    if at > 0 {
                        assert(keys@[before[at - 1] as int] >= keys@[id as int]);
                        if i < at - 1 {
                            assert(ranks_before(keys@, before[i], before[at - 1]));
                        }
                    }
                } else if i == at {
                    assert(order@[j] == before[j - 1]);
                } else if i < at {
                    assert(ranks_before(keys@, before[i], before[j - 1]));
                } else {
                    assert(ranks_before(keys@, before[i - 1], before[j - 1]));
                }
            }
            assert forall|k: int| 0 <= k < id + 1 implies #[trigger] is_ranked(order@, k) by {
                if k == id {
                    assert(order@[at as int] == k);
                } else {
                    assert(is_ranked(before, k));
                    let i = choose|i: int| 0 <= i < before.len() && (#[trigger] before[i]) == k;
                    if i < at {
                        assert(order@[i] == k);
                    } else {
                        assert(order@[i + 1] == k);
                    }
                }
            }
        }
        id = id + 1;
    }
    order
}

// Evidence.

/// The passages of a ranking whose score is no noise, in order.
pub open spec fn relevant(ranked: Seq<(usize, u32)>) -> Seq<(usize, u32)>
    decreases ranked.len(),
{
    if ranked.len() == 0 {
        Seq::empty()
    } else if ranked.last().1 >= MIN_EVIDENCE_SCORE {
        relevant(ranked.drop_last()).push(ranked.last())
    } else {
        relevant(ranked.drop_last())
    }
}

/// The hit shows the given passage with its score.
pub open spec fn is_hit(hit: KnowledgeHit, chunks: Seq<Chunk>, ranked: (usize, u32)) -> bool {
    &&& hit.doc@ == chunks[ranked.0 as int].doc@
    &&& hit.text@ == prefix(chunks[ranked.0 as int].text@, MAX_EVIDENCE_CHARS as nat)
    &&& hit.score == ranked.1
}

/// The first `max` characters of a text.
pub fn truncate_chars(text: &str, max_chars: usize) -> (kept: String)
    ensures
        kept@ == prefix(text@, max_chars as nat),
{
    let chars: Vec<char> = chars_of(text);
    string_of(prefix_chars(&chars, max_chars))
}

/// The best passages of a ranking: at most `top_k` of those whose score is no noise.
pub fn select_hits(ranked: &Vec<(usize, u32)>, chunks: &Vec<Chunk>, top_k: usize) -> (hits: Vec<
    KnowledgeHit,
>)
    requires
        forall|i: int| 0 <= i < ranked@.len() ==> (#[trigger] ranked@[i]).0 < chunks@.len(),
    ensures
        hits@.len() == if relevant(ranked@).len() <= top_k {
            relevant(ranked@).len()
        } else {
            top_k as nat
        },
        forall|i: int|
            0 <= i < hits@.len() ==> is_hit(#[trigger] hits@[i], chunks@, relevant(ranked@)[i]),
{
    let mut hits: Vec<KnowledgeHit> = Vec::new();
    let mut i: usize = 0;
    while i < ranked.len() && hits.len() < top_k
        invariant
            i <= ranked@.len(),
            forall|k: int| 0 <= k < ranked@.len() ==> (#[trigger] ranked@[k]).0 < chunks@.len(),
            hits@.len() <= top_k,
            hits@.len() == relevant(ranked@.take(i as int)).len(),
            forall|k: int|
                0 <= k < hits@.len() ==> is_hit(
                    #[trigger] hits@[k],
                    chunks@,
                    relevant(ranked@.take(i as int))[k],
                ),
        decreases ranked@.len() - i,
    {
        assert(ranked@.take(i + 1).drop_last() =~= ranked@.take(i as int));
        let (id, score): (usize, u32) = ranked[i];
        if score >= MIN_EVIDENCE_SCORE {
            assert(ranked@[i as int].0 < chunks@.len());
            hits.push(
                KnowledgeHit {
                    doc: chunks[id].doc.clone(),
                    text: truncate_chars(chunks[id].text.as_str(), MAX_EVIDENCE_CHARS),
                    score,
                },
            );
        }
        i = i + 1;
    }
    proof {
        lemma_relevant_prefix(ranked@, i as int);
        assert(ranked@.take(ranked@.len() as int) =~= ranked@);
    }
    hits
}

proof fn lemma_relevant_prefix(ranked: Seq<(usize, u32)>, n: int)
    requires
        0 <= n <= ranked.len(),
    ensures
        relevant(ranked.take(n)).len() <= relevant(ranked).len(),
        forall|k: int|
            0 <= k < relevant(ranked.take(n)).len() ==> relevant(ranked.take(n))[k]
                == #[trigger] relevant(ranked)[k],
    decreases ranked.len() - n,
{
    if n == ranked.len() {
        assert(ranked.take(n) =~= ranked);
    } else {
        lemma_relevant_prefix(ranked, n + 1);
        assert(ranked.take(n + 1).drop_last() =~= ranked.take(n));
        assert forall|k: int| 0 <= k < relevant(ranked.take(n)).len() implies relevant(
            ranked.take(n),
        )[k] == #[trigger] relevant(ranked)[k] by {
            assert(relevant(ranked.take(n + 1))[k] == relevant(ranked)[k]);
        }
    }
}

/// How a hit is shown: the name of its document and its text.
pub open spec fn shown_hit(hit: KnowledgeHit) -> Seq<char> {
    "【"@ + hit.doc@ + "】\n"@ + hit.text@
}

/// How hits are shown.
pub open spec fn shown_hits(hits: Seq<KnowledgeHit>) -> Seq<Seq<char>> {
    hits.map_values(|hit: KnowledgeHit| shown_hit(hit))
}

/// What is shown to the model of the passages that answer to a question; nothing where none does.
pub fn retrieve_context(hits: &Vec<KnowledgeHit>) -> (context: Option<String>)
    ensures
        context is Some <==> hits@.len() > 0,
        context matches Some(context) ==> context@ == join(shown_hits(hits@), "\n\n---\n\n"@),
{
    if hits.len() == 0 {
        return None;
    }
    let mut parts: Vec<String> = Vec::new();
    let mut i: usize = 0;
    while i < hits.len()
        invariant
            i <= hits@.len(),
            parts@.len() == i,
            forall|k: int| 0 <= k < i ==> (#[trigger] parts@[k])@ == shown_hit(hits@[k]),
        decreases hits@.len() - i,
    {
        let mut part: String = "【".to_owned();
        part.append(hits[i].doc.as_str());
        part.append("】\n");
        part.append(hits[i].text.as_str());
        parts.push(part);
        i = i + 1;
    }
    assert(texts(parts@) =~= shown_hits(hits@));
    Some(join_texts(&parts, "\n\n---\n\n"))
}

// Names of documents.

/// A character parts a path. A slash does on every system, but not in a path of Windows that is to
/// be taken verbatim; a backslash does on Windows.
pub open spec fn parts(c: char, slash: bool, backslash: bool) -> bool {
    (slash && c == '/') || (backslash && c == '\\')
}

/// The place of the last character of `s` that parts it, counted from one; zero where there is none.
pub open spec fn slash_end(s: Seq<char>, slash: bool, backslash: bool) -> nat
    decreases s.len(),
{
    if s.len() == 0 {
        0
    } else if parts(s.last(), slash, backslash) {
        s.len()
    } else {
        slash_end(s.drop_last(), slash, backslash)
    }
}

/// The place of the first character from `from` on that parts `s`; its end where there is none.
pub open spec fn part_end(s: Seq<char>, from: int, slash: bool, backslash: bool) -> int
    decreases s.len() - from,
{
    if from >= s.len() {
        s.len() as int
    } else if parts(s[from], slash, backslash) {
        from
    } else {
        part_end(s, from + 1, slash, backslash)
    }
}

/// The last part of a path that is not empty, unless it is one dot or two. One dot is passed over
/// where the path is not to be taken verbatim.
pub open spec fn last_of(path: Seq<char>, slash: bool, backslash: bool) -> Option<Seq<char>>
    decreases path.len(),
{
    let n = slash_end(path, slash, backslash);
    let part = path.skip(n as int);
    proof {
        lemma_slash_end(path, slash, backslash);
    }
    if part.len() == 0 || (slash && part == "."@) {
        if n == 0 {
            None
        } else {
            last_of(path.take(n - 1), slash, backslash)
        }
    } else if part == "."@ || part == ".."@ {
        None
    } else {
        Some(part)
    }
}

/// A path of Windows starts with the letter of a drive and a colon.
pub open spec fn has_drive(path: Seq<char>) -> bool {
    path.len() >= 2 && path[1] == ':' && ('a' <= path[0] <= 'z' || 'A' <= path[0] <= 'Z')
}

/// A path of Windows is to be taken verbatim.
pub open spec fn is_verbatim(path: Seq<char>) -> bool {
    starts_with(path, "\\\\?\\"@)
}

/// The end of the two parts of `path` that start at `from`.
pub open spec fn second_end(path: Seq<char>, from: int, slash: bool) -> int {
    let first = part_end(path, from, slash, true);
    if first < path.len() {
        part_end(path, first + 1, slash, true)
    } else {
        first
    }
}

/// The length of what stands before the parts of a path of Windows: a drive as in `C:`, a share as in
/// `\\server\share`, a device as in `\\.\COM1`, or a verbatim prefix as in `\\?\name` and
/// `\\?\UNC\server\share`.
pub open spec fn prefix_end(path: Seq<char>) -> int {
    if has_drive(path) {
        2
    } else if starts_with(path, "\\\\?\\UNC\\"@) {
        second_end(path, 8, false)
    } else if is_verbatim(path) {
        part_end(path, 4, false, true)
    } else if path.len() >= 2 && parts(path[0], true, true) && parts(path[1], true, true) {
        let server = part_end(path, 2, true, true);
        let share = second_end(path, 2, true);
        if path.subrange(2, server) == "."@ || (server > 2 && share > server + 1) {
            share
        } else {
            0
        }
    } else {
        0
    }
}

/// The last part of a path, unless it would itself lead out of a folder. On Windows a part with a
/// drive would, and so would one with a slash, which a verbatim path can have.
pub open spec fn last_part(path: Seq<char>, on_windows: bool) -> Option<Seq<char>> {
    if !on_windows {
        last_of(path, true, false)
    } else {
        match last_of(path.skip(prefix_end(path)), !is_verbatim(path), true) {
            Some(part) => if has_drive(part) || part.contains('/') {
                None
            } else {
                Some(part)
            },
            None => None,
        }
    }
}

/// Behind the last character that parts a text there is none, and it is one.
pub proof fn lemma_slash_end(s: Seq<char>, slash: bool, backslash: bool)
    ensures
        slash_end(s, slash, backslash) <= s.len(),
        forall|i: int|
            slash_end(s, slash, backslash) <= i < s.len() ==> !parts(s[i], slash, backslash),
        slash_end(s, slash, backslash) > 0 ==> parts(
            s[slash_end(s, slash, backslash) - 1],
            slash,
            backslash,
        ),
    decreases s.len(),
{
    if s.len() > 0 && !parts(s.last(), slash, backslash) {
        lemma_slash_end(s.drop_last(), slash, backslash);
        assert forall|i: int| slash_end(s, slash, backslash) <= i < s.len() implies !parts(
            s[i],
            slash,
            backslash,
        ) by {
            if i < s.len() - 1 {
                assert(s.drop_last()[i] == s[i]);
            }
        }
    }
}

/// Whether a character parts a path.
fn parts_path(c: char, slash: bool, backslash: bool) -> (yes: bool)
    ensures
        yes == parts(c, slash, backslash),
{
    (slash && c == '/') || (backslash && c == '\\')
}

/// The end of the part of a path of Windows that starts at `from`.
fn end_of_part(chars: &[char], from: usize, slash: bool) -> (end: usize)
    requires
        from <= chars@.len(),
    ensures
        end == part_end(chars@, from as int, slash, true),
        from <= end <= chars@.len(),
{
    let mut end: usize = from;
    while end < chars.len() && !parts_path(chars[end], slash, true)
        invariant
            from <= end <= chars@.len(),
            part_end(chars@, from as int, slash, true) == part_end(
                chars@,
                end as int,
                slash,
                true,
            ),
        decreases chars@.len() - end,
    {
        end = end + 1;
    }
    end
}

/// The end of the two parts of a path of Windows that start at `from`.
fn end_of_second(chars: &[char], from: usize, slash: bool) -> (end: usize)
    requires
        from <= chars@.len(),
    ensures
        end == second_end(chars@, from as int, slash),
        end <= chars@.len(),
{
    let first: usize = end_of_part(chars, from, slash);
    if first < chars.len() {
        end_of_part(chars, first + 1, slash)
    } else {
        first
    }
}

/// Whether a path of Windows starts with a drive.
fn starts_with_drive(chars: &[char]) -> (yes: bool)
    ensures
        yes == has_drive(chars@),
{
    chars.len() >= 2 && chars[1] == ':' && (('a' <= chars[0] && chars[0] <= 'z') || ('A'
        <= chars[0] && chars[0] <= 'Z'))
}

/// The length of what stands before the parts of a path of Windows.
fn end_of_prefix(chars: &[char]) -> (end: usize)
    ensures
        end == prefix_end(chars@),
        end <= chars@.len(),
{
    proof {
        reveal_strlit("\\\\?\\UNC\\");
        reveal_strlit("\\\\?\\");
    }
    if starts_with_drive(chars) {
        2
    } else if starts_with_text(chars, "\\\\?\\UNC\\") {
        end_of_second(chars, 8, false)
    } else if starts_with_text(chars, "\\\\?\\") {
        end_of_part(chars, 4, false)
    } else if chars.len() >= 2 && parts_path(chars[0], true, true) && parts_path(
        chars[1],
        true,
        true,
    ) {
        let server: usize = end_of_part(chars, 2, true);
        let share: usize = end_of_second(chars, 2, true);
        let dot: Vec<char> = chars_of(".");
        if same_chars(slice_subrange(chars, 2, server), &dot) || (server > 2 && share > server
            && share - server > 1) {
            share
        } else {
            0
        }
    } else {
        0
    }
}

/// The last part of a path that is not empty.
fn part_at_end(chars: &[char], slash: bool, backslash: bool) -> (found: Option<&[char]>)
    ensures
        match last_of(chars@, slash, backslash) {
            Some(part) => found is Some && found->0@ == part,
            None => found is None,
        },
{
    let dot: Vec<char> = chars_of(".");
    let dots: Vec<char> = chars_of("..");
    let mut end: usize = chars.len();
    assert(chars@.take(end as int) =~= chars@);
    loop
        invariant
            end <= chars@.len(),
            dot@ == "."@,
            dots@ == ".."@,
            last_of(chars@.take(end as int), slash, backslash) == last_of(
                chars@,
                slash,
                backslash,
            ),
        decreases end,
    {
        let ghost path = chars@.take(end as int);
        let mut start: usize = end;
        assert(path.take(end as int) =~= path);
        while start > 0 && !parts_path(chars[start - 1], slash, backslash)
            invariant
                start <= end <= chars@.len(),
                path == chars@.take(end as int),
                slash_end(path, slash, backslash) == slash_end(
                    path.take(start as int),
                    slash,
                    backslash,
                ),
            decreases start,
        {
            assert(path.take(start as int).drop_last() =~= path.take(start - 1));
            start = start - 1;
        }
        assert(slash_end(path, slash, backslash) == start);
        let part: &[char] = slice_subrange(chars, start, end);
        assert(part@ =~= path.skip(start as int));
        if part.len() == 0 || (slash && same_chars(part, &dot)) {
            if start == 0 {
                return None;
            }
            assert(path.take(start - 1) =~= chars@.take(start - 1));
            end = start - 1;
        } else if same_chars(part, &dot) || same_chars(part, &dots) {
            return None;
        } else {
            return Some(part);
        }
    }
}

/// The name under which a document is kept: the last part of the path that was given for it.
pub fn safe_file_name(name: &str, on_windows: bool) -> (base: Result<String, String>)
    ensures
        match last_part(name@, on_windows) {
            Some(part) => base is Ok && base->Ok_0@ == part,
            None => base is Err && base->Err_0@ == "无效的文件名。"@,
        },
{
    let chars: Vec<char> = chars_of(name);
    let (rest, slash): (&[char], bool) = if on_windows {
        let start: usize = end_of_prefix(&chars);
        let rest: &[char] = slice_subrange(&chars, start, chars.len());
        assert(rest@ =~= name@.skip(prefix_end(name@)));
        (rest, !starts_with_text(&chars, "\\\\?\\"))
    } else {
        (chars.as_slice(), true)
    };
    match part_at_end(rest, slash, on_windows) {
        Some(part) => {
            if on_windows && (starts_with_drive(part) || has_slash(part)) {
                Err("无效的文件名。".to_owned())
            } else {
                Ok(string_of(part))
            }
        },
        None => Err("无效的文件名。".to_owned()),
    }
}

/// Whether a text holds a slash.
fn has_slash(chars: &[char]) -> (yes: bool)
    ensures
        yes == chars@.contains('/'),
{
    let mut i: usize = 0;
    while i < chars.len()
        invariant
            i <= chars@.len(),
            forall|k: int| 0 <= k < i ==> chars@[k] != '/',
        decreases chars@.len() - i,
    {
        if chars[i] == '/' {
            assert(chars@[i as int] == '/');
            return true;
        }
        i = i + 1;
    }
    false
}

/// What is found at the end of a path is a part: it is not empty, nothing in it parts it, and it is
/// neither one dot nor two.
proof fn lemma_last_of(path: Seq<char>, slash: bool, backslash: bool)
    ensures
        last_of(path, slash, backslash) matches Some(part) ==> {
            &&& part.len() > 0
            &&& forall|i: int| 0 <= i < part.len() ==> !parts(part[i], slash, backslash)
            &&& part != "."@
            &&& part != ".."@
        },
    decreases path.len(),
{
    lemma_slash_end(path, slash, backslash);
    let n = slash_end(path, slash, backslash);
    let part = path.skip(n as int);
    if part.len() == 0 || (slash && part == "."@) {
        if n > 0 {
            lemma_last_of(path.take(n - 1), slash, backslash);
        }
    } else {
        assert forall|i: int| 0 <= i < part.len() implies !parts(part[i], slash, backslash) by {
            assert(part[i] == path[n + i]);
        }
    }
}

/// A name never leads out of the folder that it is kept in: it is not empty, holds no slash, and
/// is neither one dot nor two. On Windows it holds no backslash and names no drive either.
pub proof fn law_names_stay_in_the_folder(name: Seq<char>, on_windows: bool)
    ensures
        last_part(name, on_windows) matches Some(part) ==> {
            &&& part.len() > 0
            &&& !part.contains('/')
            &&& part != "."@
            &&& part != ".."@
            &&& on_windows ==> !part.contains('\\') && !has_drive(part)
        },
{
    if on_windows {
        lemma_last_of(name.skip(prefix_end(name)), !is_verbatim(name), true);
    } else {
        lemma_last_of(name, true, false);
    }
}

/// A name is kept as it is when it is given again.
pub proof fn law_names_are_stable(name: Seq<char>, on_windows: bool)
    requires
        last_part(name, on_windows) is Some,
    ensures
        last_part(last_part(name, on_windows)->0, on_windows) == last_part(name, on_windows),
{
    let part = last_part(name, on_windows)->0;
    law_names_stay_in_the_folder(name, on_windows);
    reveal_strlit("\\\\?\\UNC\\");
    reveal_strlit("\\\\?\\");
    assert(forall|i: int| 0 <= i < part.len() ==> part.contains(#[trigger] part[i]));
    if on_windows {
        assert(!parts(part[0], true, true));
        assert(!is_verbatim(part) && !starts_with(part, "\\\\?\\UNC\\"@)) by {
            assert("\\\\?\\"@[0] == '\\' && "\\\\?\\UNC\\"@[0] == '\\');
        }
        assert(prefix_end(part) == 0);
    }
    lemma_slash_end(part, true, on_windows);
    assert(slash_end(part, true, on_windows) == 0);
    assert(part.skip(0) =~= part);
}

/// The name under which a document is kept, unless the document says nothing.
pub fn document_name(name: &str, content: &str, on_windows: bool) -> (base: Result<String, String>)
    ensures
        match last_part(name@, on_windows) {
            Some(part) => if is_blank(content@) {
                base is Err && base->Err_0@ == "文档内容为空。"@
            } else {
                base is Ok && base->Ok_0@ == part
            },
            None => base is Err && base->Err_0@ == "无效的文件名。"@,
        },
{
    let base: String = match safe_file_name(name, on_windows) {
        Ok(base) => base,
        Err(message) => return Err(message),
    };
    if blank(content) {
        return Err("文档内容为空。".to_owned());
    }
    Ok(base)
}

/// What is told of a document that is not there.
pub fn missing_document(name: &str) -> (message: String)
    ensures
        message@ == "文档 "@ + name@ + " 不存在。"@,
{
    let mut message: String = "文档 ".to_owned();
    message.append(name);
    message.append(" 不存在。");
    message
}

// What the terms of a text are.

/// Between two texts no run of letters and digits, and none of ideographs, goes on.
pub open spec fn stands_apart(a: Seq<char>, b: Seq<char>) -> bool {
    a.len() > 0 && b.len() > 0 ==> !(is_ascii_alnum(a.last()) && is_ascii_alnum(b[0])) && !(is_cjk(
        a.last(),
    ) && is_cjk(b[0]))
}

proof fn lemma_runs_apart(a: Seq<char>, b: Seq<char>)
    requires
        a.len() > 0,
        stands_apart(a, b),
    ensures
        word_run(a + b) == word_run(a),
        cjk_run(a + b) == cjk_run(a),
    decreases a.len(),
{
    let s = a + b;
    assert(s[0] == a[0]);
    assert(s.skip(1) =~= a.skip(1) + b);
    if a.len() > 1 {
        lemma_runs_apart(a.skip(1), b);
    } else {
        assert(a.skip(1) + b =~= b);
        assert(word_run(a.skip(1)) == 0 && cjk_run(a.skip(1)) == 0);
    }
}

/// The terms of texts that stand apart are those of each, in order.
pub proof fn law_terms_of_texts_that_stand_apart(a: Seq<char>, b: Seq<char>)
    requires
        stands_apart(a, b),
    ensures
        terms(a + b) == terms(a) + terms(b),
        terms(Seq::empty()) == Seq::<Seq<char>>::empty(),
    decreases a.len(),
{
    let s = a + b;
    if a.len() == 0 {
        assert(s =~= b);
        assert(terms(a) + terms(b) =~= terms(b));
    } else {
        assert(s[0] == a[0]);
        lemma_runs(a);
        lemma_runs_apart(a, b);
        let n = if is_ascii_alnum(a[0]) {
            word_run(a)
        } else if is_cjk(a[0]) {
            cjk_run(a)
        } else {
            1
        };
        law_terms_of_texts_that_stand_apart(a.skip(n as int), b);
        assert(s.skip(n as int) =~= a.skip(n as int) + b);
        assert(s.take(n as int) =~= a.take(n as int));
        assert(terms(s) =~= terms(a) + terms(b));
    }
}

proof fn lemma_whole_word(w: Seq<char>)
    requires
        forall|i: int| 0 <= i < w.len() ==> is_ascii_alnum(#[trigger] w[i]),
    ensures
        word_run(w) == w.len(),
    decreases w.len(),
{
    if w.len() > 0 {
        assert(is_ascii_alnum(w[0]));
        assert forall|i: int| 0 <= i < w.skip(1).len() implies is_ascii_alnum(#[trigger] w.skip(1)[i]) by {
            assert(is_ascii_alnum(w[i + 1]));
        }
        lemma_whole_word(w.skip(1));
    }
}

proof fn lemma_whole_run(w: Seq<char>)
    requires
        forall|i: int| 0 <= i < w.len() ==> is_cjk(#[trigger] w[i]),
    ensures
        cjk_run(w) == w.len(),
    decreases w.len(),
{
    if w.len() > 0 {
        assert(is_cjk(w[0]));
        assert forall|i: int| 0 <= i < w.skip(1).len() implies is_cjk(#[trigger] w.skip(1)[i]) by {
            assert(is_cjk(w[i + 1]));
        }
        lemma_whole_run(w.skip(1));
    }
}

/// Every word of three or more ASCII letters and digits is one term, wherever it stands and however
/// long it is: all of it, in small letters. A shorter one is none.
pub proof fn law_words_are_terms(a: Seq<char>, word: Seq<char>, b: Seq<char>)
    requires
        forall|i: int|
            0 <= i < word.len() ==> (48 <= #[trigger] word[i] as int <= 57 || 65 <= word[i] as int
                <= 90 || 97 <= word[i] as int <= 122),
        a.len() > 0 ==> !is_ascii_alnum(a.last()),
        b.len() > 0 ==> !is_ascii_alnum(b[0]),
        word.len() > 0,
    ensures
        word.len() >= 3 ==> {
            let all = terms(a + word + b);
            let n = terms(a).len() as int;
            &&& all.len() == n + 1 + terms(b).len()
            &&& all.take(n) == terms(a)
            &&& all.skip(n + 1) == terms(b)
            &&& all[n].len() == word.len()
            &&& forall|i: int|
                0 <= i < word.len() ==> #[trigger] all[n][i] as int == if 65 <= word[i] as int <= 90 {
                    word[i] as int + 32
                } else {
                    word[i] as int
                }
        },
        word.len() < 3 ==> terms(a + word + b) == terms(a) + terms(b),
{
    assert forall|i: int| 0 <= i < word.len() implies is_ascii_alnum(#[trigger] word[i]) by {}
    lemma_whole_word(word);
    assert(word.take(word.len() as int) =~= word);
    assert(word.skip(word.len() as int).len() == 0);
    assert(is_ascii_alnum(word[0]) && is_ascii_alnum(word.last()));
    assert(terms(word.skip(word.len() as int)).len() == 0);
    assert((a + word).last() == word.last());
    law_terms_of_texts_that_stand_apart(a, word);
    law_terms_of_texts_that_stand_apart(a + word, b);
    if word.len() >= 3 {
        assert(terms(word) =~= seq![ascii_lowered(word)]);
        let all = terms(a + word + b);
        let n = terms(a).len() as int;
        assert(all[n] == ascii_lowered(word));
        assert(all.take(n) =~= terms(a));
        assert(all.skip(n + 1) =~= terms(b));
    } else {
        assert(terms(word).len() == 0);
        assert(terms(a + word + b) =~= terms(a) + terms(b));
    }
}

proof fn lemma_grams(s: Seq<char>)
    ensures
        grams(s).len() == if s.len() == 0 {
            0
        } else {
            2 * s.len() - 1
        },
        forall|i: int| 0 <= i < s.len() ==> #[trigger] grams(s)[2 * i] == seq![s[i]],
        forall|i: int| 0 <= i < s.len() - 1 ==> #[trigger] grams(s)[2 * i + 1] == seq![s[i], s[i + 1]],
    decreases s.len(),
{
    if s.len() > 1 {
        let rest = s.skip(1);
        lemma_grams(rest);
        assert forall|i: int| 0 <= i < s.len() implies #[trigger] grams(s)[2 * i] == seq![s[i]] by {
            if i > 0 {
                assert(grams(s)[2 * i] == grams(rest)[2 * (i - 1)]);
            }
        }
        assert forall|i: int| 0 <= i < s.len() - 1 implies #[trigger] grams(s)[2 * i + 1] == seq![
            s[i],
            s[i + 1],
        ] by {
            if i > 0 {
                assert(grams(s)[2 * i + 1] == grams(rest)[2 * (i - 1) + 1]);
            }
        }
    }
}

/// Every ideograph of a run is a term, and so is every pair of neighbours in it, wherever the run
/// stands, and nothing else of the run is.
pub proof fn law_ideographs_are_terms(a: Seq<char>, run: Seq<char>, b: Seq<char>, i: int)
    requires
        forall|k: int| 0 <= k < run.len() ==> is_cjk(#[trigger] run[k]),
        a.len() > 0 ==> !is_cjk(a.last()),
        b.len() > 0 ==> !is_cjk(b[0]),
        0 <= i < run.len(),
    ensures
        ({
            let all = terms(a + run + b);
            let n = terms(a).len() as int;
            &&& all.len() == n + 2 * run.len() - 1 + terms(b).len()
            &&& all.take(n) == terms(a)
            &&& all.skip(n + 2 * run.len() - 1) == terms(b)
            &&& all[n + 2 * i] == seq![run[i]]
            &&& i + 1 < run.len() ==> all[n + 2 * i + 1] == seq![run[i], run[i + 1]]
        }),
{
    lemma_whole_run(run);
    lemma_grams(run);
    assert(is_cjk(run[0]) && is_cjk(run.last()));
    assert(run.take(run.len() as int) =~= run);
    assert(run.skip(run.len() as int).len() == 0);
    assert(terms(run.skip(run.len() as int)).len() == 0);
    assert(!is_ascii_alnum(run[0]) && !is_ascii_alnum(run.last()));
    assert(terms(run) =~= grams(run));
    assert((a + run).last() == run.last());
    law_terms_of_texts_that_stand_apart(a, run);
    law_terms_of_texts_that_stand_apart(a + run, b);
    let all = terms(a + run + b);
    let n = terms(a).len() as int;
    assert(all.take(n) =~= terms(a));
    assert(all.skip(n + 2 * run.len() - 1) =~= terms(b));
    assert(all[n + 2 * i] == grams(run)[2 * i]);
    if i + 1 < run.len() {
        assert(all[n + 2 * i + 1] == grams(run)[2 * i + 1]);
    }
}

/// The ideographs: the common ones, and those of the first two extensions.
pub proof fn law_which_characters_are_ideographs(c: char)
    ensures
        is_cjk(c) <==> (19968 <= c as int <= 40959 || 13312 <= c as int <= 19903 || 131072 <= c as int
            <= 173791),
{
}

// What is counted.

/// Terms are counted one by one, each as often as it stands.
pub proof fn law_terms_are_counted(
    a: Seq<Seq<char>>,
    b: Seq<Seq<char>>,
    t: Seq<char>,
    other: Seq<char>,
)
    ensures
        occurrences(a + b, t) == occurrences(a, t) + occurrences(b, t),
        occurrences(seq![t], t) == 1,
        other != t ==> occurrences(seq![other], t) == 0,
        occurrences(Seq::empty(), t) == 0,
    decreases b.len(),
{
    assert(occurrences(Seq::<Seq<char>>::empty(), t) == 0);
    assert(seq![t].drop_last() =~= Seq::<Seq<char>>::empty());
    assert(seq![other].drop_last() =~= Seq::<Seq<char>>::empty());
    assert(seq![t].last() == t && seq![other].last() == other);
    if b.len() == 0 {
        assert(a + b =~= a);
    } else {
        law_terms_are_counted(a, b.drop_last(), t, other);
        assert((a + b).drop_last() =~= a + b.drop_last());
    }
}

/// Passages with a term are counted one by one, each once however often it has the term, and so are
/// all their terms.
pub proof fn law_passages_are_counted(
    a: Seq<Seq<Seq<char>>>,
    passage: Seq<Seq<char>>,
    b: Seq<Seq<Seq<char>>>,
    t: Seq<char>,
)
    ensures
        documents_with(a + b, t) == documents_with(a, t) + documents_with(b, t),
        passage.contains(t) ==> documents_with(seq![passage], t) == 1,
        !passage.contains(t) ==> documents_with(seq![passage], t) == 0,
        total_len(a + b) == total_len(a) + total_len(b),
        total_len(seq![passage]) == passage.len(),
    decreases b.len(),
{
    lemma_occurs(passage, t);
    let none = Seq::<Seq<Seq<char>>>::empty();
    assert(documents_with(none, t) == 0 && total_len(none) == 0);
    assert(seq![passage].drop_last() =~= none);
    assert(seq![passage].last() == passage);
    if b.len() == 0 {
        assert(a + b =~= a);
    } else {
        law_passages_are_counted(a, passage, b.drop_last(), t);
        assert((a + b).drop_last() =~= a + b.drop_last());
    }
}

proof fn lemma_occurs(all: Seq<Seq<char>>, t: Seq<char>)
    ensures
        occurrences(all, t) > 0 <==> all.contains(t),
    decreases all.len(),
{
    if all.len() > 0 {
        lemma_occurs(all.drop_last(), t);
        if all.contains(t) {
            let i = choose|i: int| 0 <= i < all.len() && all[i] == t;
            if i < all.len() - 1 {
                assert(all.drop_last()[i] == t);
            }
        }
        if all.drop_last().contains(t) {
            let i = choose|i: int| 0 <= i < all.drop_last().len() && all.drop_last()[i] == t;
            assert(all[i] == t);
        }
        if all.last() == t {
            assert(all[all.len() - 1] == t);
        }
    }
}

/// A count is looked up by its term, and a term that is not there has none.
pub proof fn law_counts_are_looked_up(table: Seq<(String, usize)>, i: int, t: Seq<char>)
    requires
        is_table(table),
    ensures
        0 <= i < table.len() && table[i].0@ == t ==> table_count(table, t) == table[i].1,
        (forall|j: int| 0 <= j < table.len() ==> (#[trigger] table[j]).0@ != t) ==> table_count(
            table,
            t,
        ) == 0,
    decreases table.len(),
{
    if table.len() > 0 {
        let rest = table.drop_last();
        assert forall|a: int, b: int| 0 <= a < b < rest.len() implies (#[trigger] rest[a]).0@
            != (#[trigger] rest[b]).0@ by {
            assert(table[a].0@ != table[b].0@);
        }
        assert forall|a: int| 0 <= a < rest.len() implies (#[trigger] rest[a]).1 > 0 by {
            assert(table[a].1 > 0);
        }
        law_counts_are_looked_up(rest, i, t);
        if 0 <= i < table.len() - 1 {
            assert(rest[i] == table[i]);
            assert(table[i].0@ != table[table.len() - 1].0@);
        }
        if forall|j: int| 0 <= j < table.len() ==> (#[trigger] table[j]).0@ != t {
            assert(table[table.len() - 1].0@ != t);
            assert forall|j: int| 0 <= j < rest.len() implies (#[trigger] rest[j]).0@ != t by {
                assert(table[j].0@ != t);
            }
        }
    }
}

// What is found.

/// A ranking puts every passage in its place once: the better before the worse, and the earlier
/// before the later where they are equally good.
pub proof fn law_the_best_come_first(keys: Seq<u64>, order: Seq<usize>, i: int, j: int)
    requires
        is_ranking(keys, order),
        0 <= i < j < order.len(),
    ensures
        keys[order[i] as int] >= keys[order[j] as int],
        keys[order[i] as int] == keys[order[j] as int] ==> order[i] < order[j],
        order[i] != order[j],
        order.len() == keys.len(),
{
    assert(ranks_before(keys, order[i], order[j]));
}

/// What is relevant is told by the score alone, for each passage on its own: eight hundredths or
/// more. The order stays.
pub proof fn law_noise_is_left_out(
    a: Seq<(usize, u32)>,
    ranked: (usize, u32),
    b: Seq<(usize, u32)>,
)
    ensures
        relevant(a + b) == relevant(a) + relevant(b),
        ranked.1 >= 0x3da3_d70a ==> relevant(seq![ranked]) == seq![ranked],
        ranked.1 < 0x3da3_d70a ==> relevant(seq![ranked]).len() == 0,
    decreases b.len(),
{
    let none = Seq::<(usize, u32)>::empty();
    assert(relevant(none) =~= none);
    assert(seq![ranked].drop_last() =~= none);
    assert(seq![ranked].last() == ranked);
    assert(none.push(ranked) =~= seq![ranked]);
    if b.len() == 0 {
        assert(a + b =~= a);
        assert(relevant(a) + relevant(b) =~= relevant(a));
    } else {
        law_noise_is_left_out(a, ranked, b.drop_last());
        assert((a + b).drop_last() =~= a + b.drop_last());
        assert(relevant(a + b) =~= relevant(a) + relevant(b));
    }
}

/// A hit quotes its passage from the start, four hundred characters at most, and names the document
/// of that passage.
pub proof fn law_hits_quote_their_passages(
    hit: KnowledgeHit,
    chunks: Seq<Chunk>,
    ranked: (usize, u32),
)
    requires
        is_hit(hit, chunks, ranked),
        ranked.0 < chunks.len(),
    ensures
        ({
            let chunk = chunks[ranked.0 as int];
            &&& hit.doc@ == chunk.doc@
            &&& hit.score == ranked.1
            &&& chunk.text@.len() <= 400 ==> hit.text@ == chunk.text@
            &&& chunk.text@.len() > 400 ==> hit.text@ == chunk.text@.take(400)
            &&& shown_hit(hit) == "【"@ + chunk.doc@ + "】\n"@ + hit.text@
        }),
{
}

// Where passages end.

/// The passages of lines.
pub open spec fn passages(all: Seq<Seq<char>>) -> Seq<Seq<char>> {
    let end = after_lines(all);
    not_blank(end.0 + pieces(end.1))
}

proof fn lemma_gathered(all: Seq<Seq<char>>)
    ensures
        after_lines(all).1.len() == 0 || !is_blank(after_lines(all).1),
    decreases all.len(),
{
    if all.len() > 0 {
        lemma_gathered(all.drop_last());
        let state = after_lines(all.drop_last());
        let line = all.last();
        lemma_trim(line);
        if !is_blank(line) {
            let k = choose|k: int| 0 <= k < line.len() && !is_white(line[k]);
            let both = state.1 + "\n"@ + line;
            assert(both[(state.1 + "\n"@).len() + k] == line[k]);
            if is_heading(line) {
                assert(!is_white(trim(line)[0]));
            }
        }
    }
}

proof fn lemma_not_blank_add(a: Seq<Seq<char>>, b: Seq<Seq<char>>)
    ensures
        not_blank(a + b) == not_blank(a) + not_blank(b),
    decreases b.len(),
{
    if b.len() == 0 {
        assert(a + b =~= a);
        assert(not_blank(a) + not_blank(b) =~= not_blank(a));
    } else {
        lemma_not_blank_add(a, b.drop_last());
        assert((a + b).drop_last() =~= a + b.drop_last());
        assert(not_blank(a + b) =~= not_blank(a) + not_blank(b));
    }
}

/// Once nothing is being gathered, what follows is cut on its own.
proof fn lemma_after_a_gap(all: Seq<Seq<char>>, rest: Seq<Seq<char>>)
    requires
        after_lines(all).1.len() == 0,
    ensures
        after_lines(all + rest).0 == after_lines(all).0 + after_lines(rest).0,
        after_lines(all + rest).1 == after_lines(rest).1,
    decreases rest.len(),
{
    if rest.len() == 0 {
        assert(all + rest =~= all);
        assert(after_lines(all).0 + after_lines(rest).0 =~= after_lines(all).0);
        assert(after_lines(all).1 =~= after_lines(rest).1);
    } else {
        lemma_after_a_gap(all, rest.drop_last());
        assert((all + rest).drop_last() =~= all + rest.drop_last());
        assert((all + rest).last() == rest.last());
        let state = after_lines(rest.drop_last());
        assert((after_lines(all).0 + state.0) + pieces(state.1) =~= after_lines(all).0 + (state.0
            + pieces(state.1)));
    }
}

/// A blank line parts passages: those before it and those after it are cut each on their own.
pub proof fn law_blank_lines_part_passages(
    before: Seq<Seq<char>>,
    blank_line: Seq<char>,
    after: Seq<Seq<char>>,
    content: Seq<char>,
)
    requires
        is_blank(blank_line),
    ensures
        passages(before.push(blank_line) + after) == passages(before) + passages(after),
        chunks_of(content) == passages(lines(content)),
{
    let all = before.push(blank_line);
    lemma_gathered(before);
    assert(all.drop_last() =~= before);
    let state = after_lines(before);
    lemma_trim(blank_line);
    assert(after_lines(all) == after_line(state, blank_line));
    assert(state.1.len() == 0 ==> is_blank(state.1));
    assert(after_lines(all).1.len() == 0);
    lemma_after_a_gap(all, after);
    let end = after_lines(after);
    if state.1.len() == 0 {
        assert(trim(state.1).len() == 0);
        assert(state.0 + pieces(state.1) =~= state.0);
    }
    assert(after_lines(all).0 == state.0 + pieces(state.1));
    assert((state.0 + pieces(state.1) + end.0) + pieces(end.1) =~= (state.0 + pieces(state.1)) + (
    end.0 + pieces(end.1)));
    lemma_not_blank_add(state.0 + pieces(state.1), end.0 + pieces(end.1));
}

/// Lines that follow each other without a gap and without a heading are one passage, as they stand,
/// where it is short enough. A heading is the start of the passage below it.
pub proof fn law_paragraphs_are_kept_whole(all: Seq<Seq<char>>)
    requires
        all.len() > 0,
        forall|i: int| 0 <= i < all.len() ==> !is_blank(#[trigger] all[i]),
        forall|i: int| 0 < i < all.len() ==> !is_heading(#[trigger] all[i]),
        trim(join(all, "\n"@)).len() <= 800,
    ensures
        !is_heading(all[0]) ==> passages(all) == seq![trim(join(all, "\n"@))],
        is_heading(all[0]) && all[0] == trim(all[0]) ==> passages(all) == seq![
            trim(join(all, "\n"@)),
        ],
{
    if !is_heading(all[0]) || all[0] == trim(all[0]) {
        lemma_one_paragraph(all);
        let text = join(all, "\n"@);
        lemma_gathered(all);
        lemma_trim(text);
        assert(after_lines(all).0 + pieces(text) =~= seq![trim(text)]);
        lemma_trim_part(text);
        let one = seq![trim(text)];
        assert(one.last() == trim(text));
        assert(!is_blank(trim(text))) by {
            assert(!is_white(trim(text)[0]));
        }
        assert(one.drop_last().len() == 0);
        assert(not_blank(one.drop_last()).len() == 0);
        assert(not_blank(one) =~= one);
    }
}

proof fn lemma_one_paragraph(all: Seq<Seq<char>>)
    requires
        all.len() > 0,
        forall|i: int| 0 <= i < all.len() ==> !is_blank(#[trigger] all[i]),
        forall|i: int| 0 < i < all.len() ==> !is_heading(#[trigger] all[i]),
        !is_heading(all[0]) || all[0] == trim(all[0]),
    ensures
        after_lines(all).0.len() == 0,
        after_lines(all).1 == join(all, "\n"@),
        after_lines(all).1.len() > 0,
    decreases all.len(),
{
    let rest = all.drop_last();
    assert(!is_blank(all[all.len() - 1]));
    if all.len() == 1 {
        assert(after_lines(rest).0.len() == 0 && after_lines(rest).1.len() == 0);
        assert(all.last() == all[0]);
        assert(is_blank(after_lines(rest).1));
        assert(after_lines(all).0 =~= Seq::empty());
    } else {
        assert forall|i: int| 0 <= i < rest.len() implies !is_blank(#[trigger] rest[i]) by {
            assert(!is_blank(all[i]));
        }
        assert forall|i: int| 0 < i < rest.len() implies !is_heading(#[trigger] rest[i]) by {
            assert(!is_heading(all[i]));
        }
        lemma_one_paragraph(rest);
        assert(!is_heading(all[all.len() - 1]));
    }
}

// Where a name comes from.

/// The name of a document is what follows the last slash of its path, whatever stands before it.
pub proof fn law_names_follow_the_last_slash(folder: Seq<char>, name: Seq<char>)
    requires
        name.len() > 0,
        !name.contains('/'),
        name != "."@,
        name != ".."@,
    ensures
        last_part(name, false) == Some(name),
        last_part(folder.push('/') + name, false) == Some(name),
        !name.contains('\\') && !has_drive(name) ==> last_part(name, true) == Some(name),
{
    let path = folder.push('/') + name;
    lemma_slash_end(path, true, false);
    lemma_slash_end(name, true, false);
    lemma_slash_end(name, true, true);
    assert(forall|i: int| 0 <= i < name.len() ==> name.contains(#[trigger] name[i]));
    assert(parts(path[folder.len() as int], true, false));
    assert(slash_end(path, true, false) == folder.len() + 1) by {
        let n = slash_end(path, true, false);
        if n > folder.len() + 1 {
            assert(path[n - 1] == name[n - 1 - folder.len() - 1]);
        }
    }
    assert(path.skip(folder.len() as int + 1) =~= name);
    assert(name.skip(0) =~= name);
    assert(slash_end(name, true, false) == 0);
    if !name.contains('\\') && !has_drive(name) {
        reveal_strlit("\\\\?\\UNC\\");
        reveal_strlit("\\\\?\\");
        assert(!parts(name[0], true, true));
        assert(!is_verbatim(name) && !starts_with(name, "\\\\?\\UNC\\"@)) by {
            assert("\\\\?\\"@[0] == '\\' && "\\\\?\\UNC\\"@[0] == '\\');
        }
        assert(prefix_end(name) == 0);
        assert(slash_end(name, true, true) == 0);
    }
}

proof fn lemma_last_after(folder: Seq<char>, sep: char, name: Seq<char>, slash: bool, backslash: bool)
    requires
        parts(sep, slash, backslash),
        name.len() > 0,
        forall|i: int| 0 <= i < name.len() ==> !parts(#[trigger] name[i], slash, backslash),
        name != "."@,
        name != ".."@,
    ensures
        last_of(name, slash, backslash) == Some(name),
        last_of(folder.push(sep) + name, slash, backslash) == Some(name),
        last_of((folder.push(sep) + name).push(sep), slash, backslash) == Some(name),
{
    let path = folder.push(sep) + name;
    lemma_slash_end(path, slash, backslash);
    lemma_slash_end(name, slash, backslash);
    assert(path[folder.len() as int] == sep);
    assert(slash_end(path, slash, backslash) == folder.len() + 1) by {
        let n = slash_end(path, slash, backslash);
        if n > folder.len() + 1 {
            assert(path[n - 1] == name[n - 1 - folder.len() - 1]);
        }
    }
    assert(path.skip(folder.len() as int + 1) =~= name);
    assert(slash_end(name, slash, backslash) == 0);
    assert(name.skip(0) =~= name);
    let longer = path.push(sep);
    assert(slash_end(longer, slash, backslash) == longer.len());
    assert(longer.take(longer.len() - 1) =~= path);
}

proof fn lemma_part_ends(s: Seq<char>, from: int, end: int, slash: bool)
    requires
        0 <= from <= end <= s.len(),
        forall|i: int| from <= i < end ==> !parts(#[trigger] s[i], slash, true),
        end < s.len() ==> parts(s[end], slash, true),
    ensures
        part_end(s, from, slash, true) == end,
    decreases end - from,
{
    if from < end {
        assert(!parts(s[from], slash, true));
        lemma_part_ends(s, from + 1, end, slash);
    }
}

/// A slash at the end does not hide the name before it, nor does a folder that stands for itself;
/// what stands for the folder above has no name, and neither has nothing.
pub proof fn law_names_are_found_before_a_slash(folder: Seq<char>, name: Seq<char>)
    requires
        name.len() > 0,
        !name.contains('/'),
        name != "."@,
        name != ".."@,
    ensures
        last_part((folder.push('/') + name).push('/'), false) == Some(name),
        last_part((folder.push('/') + name).push('/').push('.'), false) == Some(name),
        last_part(folder.push('/') + ".."@, false) is None,
        last_part(Seq::empty(), false) is None,
        last_part(Seq::empty(), true) is None,
{
    assert(forall|i: int| 0 <= i < name.len() ==> name.contains(#[trigger] name[i]));
    lemma_last_after(folder, '/', name, true, false);
    let path = (folder.push('/') + name).push('/');
    let dotted = path.push('.');
    reveal_strlit(".");
    reveal_strlit("..");
    lemma_slash_end(dotted, true, false);
    assert(slash_end(dotted, true, false) == path.len()) by {
        assert(dotted[path.len() - 1] == '/');
    }
    assert(dotted.skip(path.len() as int) =~= "."@);
    assert(dotted.take(path.len() - 1) =~= folder.push('/') + name);
    let above = folder.push('/') + ".."@;
    lemma_slash_end(above, true, false);
    assert(slash_end(above, true, false) == folder.len() + 1) by {
        let n = slash_end(above, true, false);
        assert(above[folder.len() as int] == '/');
        if n > folder.len() + 1 {
            assert(above[n - 1] == ".."@[n - 1 - folder.len() - 1]);
        }
    }
    assert(above.skip(folder.len() as int + 1) =~= ".."@);
    let none = Seq::<char>::empty();
    reveal_strlit("\\\\?\\UNC\\");
    reveal_strlit("\\\\?\\");
    assert(prefix_end(none) == 0);
    assert(none.skip(0) =~= none);
}

/// With drives and backslashes, the name is what follows the last separator of either kind, and what
/// follows the drive where there is none. What starts with a drive is no name.
pub proof fn law_names_follow_the_drive(letter: char, folder: Seq<char>, sep: char, name: Seq<char>)
    requires
        'a' <= letter <= 'z' || 'A' <= letter <= 'Z',
        sep == '/' || sep == '\\',
        name.len() > 0,
        !name.contains('/'),
        !name.contains('\\'),
        name != "."@,
        name != ".."@,
    ensures
        !has_drive(name) ==> last_part(seq![letter, ':'] + name, true) == Some(name),
        !has_drive(name) ==> last_part(seq![letter, ':'] + folder.push(sep) + name, true) == Some(name),
        has_drive(name) ==> last_part(seq![letter, ':'] + folder.push(sep) + name, true) is None,
        last_part(seq![letter, ':'], true) is None,
        has_drive(seq![letter, ':'] + name),
{
    assert(forall|i: int| 0 <= i < name.len() ==> name.contains(#[trigger] name[i]));
    lemma_last_after(folder, sep, name, true, true);
    let drive = seq![letter, ':'];
    let short = drive + name;
    let long = drive + folder.push(sep) + name;
    assert(short[0] == letter && short[1] == ':');
    assert(long[0] == letter && long[1] == ':');
    assert(short.skip(2) =~= name);
    assert(long.skip(2) =~= folder.push(sep) + name);
    assert(drive.skip(2) =~= Seq::<char>::empty());
    lemma_not_verbatim(short);
    lemma_not_verbatim(long);
    lemma_not_verbatim(drive);
}

proof fn lemma_not_verbatim(path: Seq<char>)
    requires
        path.len() > 0,
        path[0] != '\\',
    ensures
        !is_verbatim(path),
{
    reveal_strlit("\\\\?\\");
    if is_verbatim(path) {
        assert(path.subrange(0, 4)[0] == "\\\\?\\"@[0]);
    }
}

/// The name of a file on a share follows the share, and a share by itself has none.
pub proof fn law_names_follow_the_share(
    server: Seq<char>,
    share: Seq<char>,
    folder: Seq<char>,
    name: Seq<char>,
)
    requires
        server.len() > 0,
        share.len() > 0,
        name.len() > 0,
        !server.contains('/') && !server.contains('\\'),
        !share.contains('/') && !share.contains('\\'),
        !name.contains('/') && !name.contains('\\'),
        server != "?"@,
        name != "."@,
        name != ".."@,
        !has_drive(name),
    ensures
        last_part(seq!['\\', '\\'] + server + seq!['\\'] + share, true) is None,
        last_part(seq!['\\', '\\'] + server + seq!['\\'] + share + folder_of(folder) + name, true) == Some(
            name,
        ),
{
    let root = seq!['\\', '\\'] + server + seq!['\\'] + share;
    let tail = folder_of(folder) + name;
    let path = root + folder_of(folder) + name;
    assert(path =~= root + tail);
    lemma_share(server, share, Seq::empty());
    lemma_share(server, share, tail);
    assert(root + Seq::<char>::empty() =~= root);
    assert(root.skip(root.len() as int) =~= Seq::<char>::empty());
    assert(path.skip(root.len() as int) =~= tail);
    assert(forall|i: int| 0 <= i < name.len() ==> name.contains(#[trigger] name[i]));
    let inner = seq!['\\'] + folder;
    assert(tail =~= inner.push('\\') + name);
    lemma_last_after(inner, '\\', name, true, true);
}

/// A folder below a share, with what parts it from the share and from what is in it.
pub open spec fn folder_of(folder: Seq<char>) -> Seq<char> {
    seq!['\\'] + folder + seq!['\\']
}

proof fn lemma_share(server: Seq<char>, share: Seq<char>, tail: Seq<char>)
    requires
        server.len() > 0,
        share.len() > 0,
        !server.contains('/') && !server.contains('\\'),
        !share.contains('/') && !share.contains('\\'),
        server != "?"@,
        tail.len() > 0 ==> tail[0] == '\\',
    ensures
        ({
            let root = seq!['\\', '\\'] + server + seq!['\\'] + share;
            &&& prefix_end(root + tail) == root.len()
            &&& !is_verbatim(root + tail)
        }),
{
    let root = seq!['\\', '\\'] + server + seq!['\\'] + share;
    let path = root + tail;
    let a = 2 + server.len() as int;
    let b = a + 1 + share.len() as int;
    assert(path[0] == '\\' && path[1] == '\\' && path[a] == '\\');
    assert(forall|i: int| 0 <= i < server.len() ==> server.contains(#[trigger] server[i]));
    assert(forall|i: int| 0 <= i < share.len() ==> share.contains(#[trigger] share[i]));
    assert forall|i: int| 2 <= i < a implies !parts(#[trigger] path[i], true, true) by {
        assert(path[i] == server[i - 2]);
    }
    assert forall|i: int| a + 1 <= i < b implies !parts(#[trigger] path[i], true, true) by {
        assert(path[i] == share[i - a - 1]);
    }
    assert(b == root.len());
    if tail.len() > 0 {
        assert(path[b] == tail[0]);
    }
    lemma_part_ends(path, 2, a, true);
    lemma_part_ends(path, a + 1, b, true);
    reveal_strlit("\\\\?\\UNC\\");
    reveal_strlit("\\\\?\\");
    reveal_strlit("?");
    if is_verbatim(path) {
        let head = path.subrange(0, 4);
        assert(head[2] == '?' && head[3] == '\\');
        assert(path[2] == server[0]);
        if server.len() > 1 {
            assert(path[3] == server[1]);
        }
        assert(server =~= "?"@);
    }
    if starts_with(path, "\\\\?\\UNC\\"@) {
        assert(path.subrange(0, 8)[2] == '?' && path.subrange(0, 8)[3] == '\\');
        assert(path[2] == server[0]);
        if server.len() > 1 {
            assert(path[3] == server[1]);
        }
        assert(server =~= "?"@);
    }
}

proof fn lemma_after_the_same(a: Seq<Seq<char>>, b: Seq<Seq<char>>, more: Seq<Seq<char>>, rest: Seq<
    Seq<char>,
>)
    requires
        after_lines(a).0 == more + after_lines(b).0,
        after_lines(a).1 == after_lines(b).1,
    ensures
        after_lines(a + rest).0 == more + after_lines(b + rest).0,
        after_lines(a + rest).1 == after_lines(b + rest).1,
    decreases rest.len(),
{
    if rest.len() == 0 {
        assert(a + rest =~= a);
        assert(b + rest =~= b);
    } else {
        let init = rest.drop_last();
        lemma_after_the_same(a, b, more, init);
        assert((a + rest).drop_last() =~= a + init);
        assert((b + rest).drop_last() =~= b + init);
        assert((a + rest).last() == rest.last());
        assert((b + rest).last() == rest.last());
        let state = after_lines(b + init);
        assert((more + state.0) + pieces(state.1) =~= more + (state.0 + pieces(state.1)));
    }
}

/// A heading starts a passage of its own: what stands before it is no part of it. The white space
/// around a heading makes no difference.
pub proof fn law_headings_part_passages(
    before: Seq<Seq<char>>,
    heading: Seq<char>,
    after: Seq<Seq<char>>,
)
    requires
        is_heading(heading),
    ensures
        passages(before.push(heading) + after) == passages(before) + passages(
            seq![heading] + after,
        ),
        passages(seq![heading] + after) == passages(seq![trim(heading)] + after),
{
    let none = Seq::<Seq<char>>::empty();
    let one = seq![heading];
    let plain = seq![trim(heading)];
    let all = before.push(heading);
    let state = after_lines(before);
    lemma_gathered(before);
    lemma_trim(heading);
    lemma_trim_part(heading);
    assert(all.drop_last() =~= before);
    assert(one.drop_last() =~= none);
    assert(plain.drop_last() =~= none);
    assert(all.last() == heading && one.last() == heading && plain.last() == trim(heading));
    assert(after_lines(none).0.len() == 0 && after_lines(none).1.len() == 0);
    assert(is_blank(after_lines(none).1));
    lemma_trim(trim(heading));
    let ended = state.0 + pieces(state.1);
    if state.1.len() == 0 {
        assert(is_blank(state.1));
        assert(trim(state.1).len() == 0);
        assert(ended =~= state.0);
    }
    assert(after_lines(all) == after_line(state, heading));
    assert(after_lines(one).0 =~= none && after_lines(plain).0 =~= none);
    assert(ended + none =~= ended);
    assert(none + none =~= none);
    lemma_after_the_same(all, one, ended, after);
    lemma_after_the_same(one, plain, none, after);
    let end = after_lines(one + after);
    assert((ended + end.0) + pieces(end.1) =~= ended + (end.0 + pieces(end.1)));
    lemma_not_blank_add(ended, end.0 + pieces(end.1));
    let same = after_lines(plain + after);
    assert(none + same.0 =~= same.0);
}

/// A passage of more than eight hundred characters is cut after every eight hundredth, and pieces that
/// say nothing are left out.
pub proof fn law_long_passages_are_cut(all: Seq<Seq<char>>, a: Seq<char>, b: Seq<char>, max: nat)
    requires
        all.len() > 0,
        forall|i: int| 0 <= i < all.len() ==> !is_blank(#[trigger] all[i]),
        forall|i: int| 0 <= i < all.len() ==> !is_heading(#[trigger] all[i]),
        max > 0,
    ensures
        trim(join(all, "\n"@)).len() > 800 ==> passages(all) == not_blank(
            split(trim(join(all, "\n"@)), 800),
        ),
        a.len() == max && b.len() > 0 ==> split(a + b, max) == seq![a] + split(b, max),
        0 < a.len() <= max ==> split(a, max) == seq![a],
        split(Seq::empty(), max).len() == 0,
{
    lemma_one_paragraph(all);
    let text = join(all, "\n"@);
    if trim(text).len() > 800 {
        assert(after_lines(all).0 + pieces(text) =~= pieces(text));
    }
    if a.len() == max {
        assert((a + b).take(max as int) =~= a);
        assert((a + b).skip(max as int) =~= b);
    }
}

/// Pieces that say nothing are left out, and all others stay in order.
pub proof fn law_blank_pieces_are_left_out(a: Seq<Seq<char>>, piece: Seq<char>, b: Seq<Seq<char>>)
    ensures
        not_blank(a + b) == not_blank(a) + not_blank(b),
        is_blank(piece) ==> not_blank(seq![piece]).len() == 0,
        !is_blank(piece) ==> not_blank(seq![piece]) == seq![piece],
{
    lemma_not_blank_add(a, b);
    let none = Seq::<Seq<char>>::empty();
    assert(seq![piece].drop_last() =~= none);
    assert(seq![piece].last() == piece);
    assert(not_blank(none) =~= none);
    assert(none.push(piece) =~= seq![piece]);
}

/// A heading is a line whose first mark, after white space, is a number sign.
pub proof fn law_what_a_heading_is(before: Seq<char>, mark: char, rest: Seq<char>)
    requires
        is_blank(before),
        !is_white(mark),
    ensures
        is_heading(before + seq![mark] + rest) <==> mark == '#',
        !is_heading(before),
{
    let s = before + seq![mark] + rest;
    lemma_trim(s);
    lemma_trim(before);
    lemma_trim_part(s);
    let n = before.len() as int;
    assert(s[n] == mark);
    assert(trim(s).len() > 0);
    let k = lead(s);
    assert(k == n) by {
        if k < n {
            assert(trim(s)[0] == s[k]);
            assert(s[k] == before[k]);
        }
    }
    assert(trim(s)[0] == s[n]);
}

/// What was found is shown in the order in which it was found.
pub proof fn law_hits_are_shown_in_order(hits: Seq<KnowledgeHit>, i: int)
    ensures
        shown_hits(hits).len() == hits.len(),
        0 <= i < hits.len() ==> shown_hits(hits)[i] == "【"@ + hits[i].doc@ + "】\n"@
            + hits[i].text@,
{
}

} // verus!
