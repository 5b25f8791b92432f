//! A guard against transcripts that are a loop of the decoder.
//!
//! On audio that it cannot make sense of, a recogniser may repeat the same few characters until
//! it runs out of room. Such a transcript says nothing, and is told from speech by how much of it
//! one repeating unit covers.

use crate::text::{chars_of, is_white, is_whitespace};
use vstd::prelude::*;

verus! {

/// How much of a text one repeating unit covers, and where it starts. All counts are in
/// significant characters.
#[derive(Debug, Clone, Copy, PartialEq, Eq, Structural)]
pub struct RepetitionSpan {
    /// Where the run starts.
    pub start: usize,
    /// The length of the repeating unit.
    pub period: usize,
    /// How many characters the run covers.
    pub covered: usize,
    /// How many characters the text has. The run covers `covered / significant` of it.
    pub significant: usize,
}

/// The character is white space or punctuation, which a loop repeats with varying care.
pub open spec fn is_mark(c: char) -> bool {
    ||| is_white(c)
    ||| c == '，' || c == '。' || c == '！' || c == '？' || c == '、' || c == '；' || c == '：'
    ||| c == ',' || c == '.' || c == '!' || c == '?' || c == ';' || c == ':'
    ||| c == '"' || c == '\'' || c == '“' || c == '”' || c == '《' || c == '》'
    ||| c == '（' || c == '）' || c == '(' || c == ')' || c == '【' || c == '】' || c == '[' || c == ']'
    ||| c == '…' || c == '—' || c == '-' || c == '~' || c == '～'
}

/// Whether a character is neither white space nor punctuation.
pub fn is_significant(character: char) -> (yes: bool)
    ensures
        yes == !is_mark(character),
{
    if is_whitespace(character) {
        return false;
    }
    !matches!(
        character,
        '，' | '。' | '！' | '？' | '、' | '；' | '：' | ',' | '.' | '!' | '?' | ';' | ':' | '"'
            | '\'' | '“' | '”' | '《' | '》' | '（' | '）' | '(' | ')' | '【' | '】' | '[' | ']'
            | '…' | '—' | '-' | '~' | '～'
    )
}

/// The significant characters of `s`.
pub open spec fn significant(s: Seq<char>) -> Seq<char>
    decreases s.len(),
{
    if s.len() == 0 {
        Seq::empty()
    } else if is_mark(s.last()) {
        significant(s.drop_last())
    } else {
        significant(s.drop_last()).push(s.last())
    }
}

/// White space and punctuation can stand anywhere and change nothing.
pub proof fn law_marks_are_ignored(before: Seq<char>, c: char, after: Seq<char>)
    requires
        is_mark(c),
    ensures
        significant(before.push(c) + after) == significant(before + after),
    decreases after.len(),
{
    let with = before.push(c) + after;
    let without = before + after;
    if after.len() == 0 {
        assert(with =~= before.push(c));
        assert(with.drop_last() =~= before);
        assert(without =~= before);
    } else {
        law_marks_are_ignored(before, c, after.drop_last());
        assert(with.drop_last() =~= before.push(c) + after.drop_last());
        assert(without.drop_last() =~= before + after.drop_last());
    }
}

/// The `n` characters from `start` on are repeated `period` characters later.
pub open spec fn is_run(s: Seq<char>, period: int, start: int, n: int) -> bool {
    &&& 0 <= start
    &&& 0 <= n
    &&& start + n + period <= s.len()
    &&& forall|i: int| start <= i < start + n ==> #[trigger] s[i] == s[i + period]
}

/// The run is the longest one of its period, and the first of that length.
pub open spec fn is_longest_run(s: Seq<char>, period: int, start: int, n: int) -> bool {
    &&& is_run(s, period, start, n)
    &&& forall|a: int, m: int| #[trigger]
        is_run(s, period, a, m) && m > 0 ==> m < n || (m == n && start <= a)
}

/// The longest unit that is looked for.
pub open spec fn max_period(n: nat) -> nat {
    if n / 3 < 64 {
        n / 3
    } else {
        64
    }
}

/// A shorter text is too short to tell: one repeated word is no loop.
pub const MIN_LOOP_CHARS: usize = 8;

/// The span describes the longest loop in the significant characters `s`: with its unit it covers
/// at least as much as any other, and no shorter unit covers as much.
pub open spec fn is_repetition(s: Seq<char>, span: RepetitionSpan) -> bool {
    &&& span.significant == s.len()
    &&& if s.len() < MIN_LOOP_CHARS || no_runs(s) {
        span.start == 0 && span.period == 0 && span.covered == 0
    } else {
        &&& 1 <= span.period <= max_period(s.len())
        &&& span.period < span.covered
        &&& is_longest_run(
            s,
            span.period as int,
            span.start as int,
            span.covered - span.period,
        )
        &&& forall|p: int, a: int, m: int| #[trigger]
            is_run(s, p, a, m) && m > 0 && 1 <= p <= max_period(s.len()) ==> m + p < span.covered
                || (m + p == span.covered && span.period <= p)
    }
}

/// Nothing in `s` is repeated at a distance that is looked for.
pub open spec fn no_runs(s: Seq<char>) -> bool {
    forall|p: int, a: int, m: int|
        1 <= p <= max_period(s.len()) && m > 0 ==> !(#[trigger] is_run(s, p, a, m))
}

/// The significant characters of a text.
pub fn significant_chars(text: &str) -> (kept: Vec<char>)
    ensures
        kept@ == significant(text@),
{
    let chars: Vec<char> = chars_of(text);
    let mut kept: Vec<char> = Vec::new();
    let mut i: usize = 0;
    assert(chars@.take(0).len() == 0);
    while i < chars.len()
        invariant
            i <= chars@.len(),
            kept@ == significant(chars@.take(i as int)),
        decreases chars@.len() - i,
    {
        assert(chars@.take(i + 1).drop_last() =~= chars@.take(i as int));
        if is_significant(chars[i]) {
            kept.push(chars[i]);
        }
        i = i + 1;
    }
    assert(chars@.take(chars@.len() as int) =~= chars@);
    kept
}

/// The longest run of the given period, by its start and its length.
fn longest_run(sequence: &Vec<char>, period: usize) -> (run: (usize, usize))
    requires
        1 <= period <= sequence@.len(),
    ensures
        is_longest_run(sequence@, period as int, run.0 as int, run.1 as int),
        run.1 == 0 ==> run.0 == 0,
{
    let ghost s = sequence@;
    let ghost p = period as int;
    let end: usize = sequence.len() - period;
    let mut best_len: usize = 0;
    let mut best_start: usize = 0;
    let mut run_start: Option<usize> = None;
    let mut index: usize = 0;
    while index < end
        invariant
            index <= end,
            s == sequence@,
            p == period,
            1 <= period,
            end + period == sequence.len(),
            s.len() == sequence.len(),
            is_run(s, p, best_start as int, best_len as int),
            best_len == 0 ==> best_start == 0,
            match run_start {
                Some(a) => {
                    &&& a < index
                    &&& is_run(s, p, a as int, index - a)
                    &&& a > 0 ==> s[a - 1] != s[a - 1 + p]
                    &&& best_start + best_len <= a
                },
                None => {
                    &&& index > 0 ==> s[index - 1] != s[index - 1 + p]
                    &&& best_start + best_len <= index
                },
            },
            forall|a: int, m: int| #[trigger]
                is_run(s, p, a, m) && m > 0 && a + m <= (match run_start {
                    Some(open) => open as int,
                    None => index as int,
                }) ==> m < best_len || (m == best_len && best_start <= a),
        decreases end - index,
    {
        if sequence[index] == sequence[index + period] {
            if run_start.is_none() {
                run_start = Some(index);
            }
            proof {
                let a = run_start->0;
                assert(is_run(s, p, a as int, index + 1 - a));
            }
        } else {
            let ghost open = match run_start {
                Some(a) => a as int,
                None => index as int,
            };
            let ghost before = (best_start, best_len);
            if let Some(start) = run_start {
                let run_length: usize = index - start;
                if run_length > best_len {
                    best_len = run_length;
                    best_start = start;
                }
                run_start = None;
            }
            proof {
                assert forall|a: int, m: int| #[trigger]
                    is_run(s, p, a, m) && m > 0 && a + m <= index + 1 implies m < best_len || (m
                    == best_len && best_start <= a) by {
                    if a + m == index + 1 {
                        assert(s[index as int] == s[index + p]);
                    }
                    if a + m > open {
                        if a < open {
                            assert(s[open - 1] == s[open - 1 + p]);
                        }
                        assert(open <= a);
                    }
                }
            }
        }
        index = index + 1;
    }
    let ghost open = match run_start {
        Some(a) => a as int,
        None => end as int,
    };
    if let Some(start) = run_start {
        let run_length: usize = end - start;
        if run_length > best_len {
            best_len = run_length;
            best_start = start;
        }
    }
    proof {
        assert forall|a: int, m: int| #[trigger] is_run(s, p, a, m) && m > 0 implies m < best_len
            || (m == best_len && best_start <= a) by {
            if a + m > open {
                if a < open {
                    assert(s[open - 1] == s[open - 1 + p]);
                }
            }
        }
    }
    (best_start, best_len)
}

/// Finds the longest loop anywhere in a text. Of units that cover equally much the shortest is
/// taken, which is the one that is repeated.
pub fn analyse(text: &str) -> (span: RepetitionSpan)
    ensures
        is_repetition(significant(text@), span),
{
    let sequence: Vec<char> = significant_chars(text);
    let ghost s = sequence@;
    let length: usize = sequence.len();
    let mut best: RepetitionSpan = RepetitionSpan {
        start: 0,
        period: 0,
        covered: 0,
        significant: length,
    };
    if length < MIN_LOOP_CHARS {
        return best;
    }
    let limit: usize = if length / 3 < 64 {
        length / 3
    } else {
        64
    };
    let mut period: usize = 1;
    while period <= limit
        invariant
            s == sequence@,
            length == s.len(),
            length >= MIN_LOOP_CHARS,
            limit == max_period(s.len()),
            1 <= period <= limit + 1,
            best.significant == length,
            best.covered == 0 ==> best.start == 0 && best.period == 0,
            best.covered > 0 ==> {
                &&& 1 <= best.period < period
                &&& best.period < best.covered
                &&& is_longest_run(
                    s,
                    best.period as int,
                    best.start as int,
                    best.covered - best.period,
                )
            },
            forall|p: int, a: int, m: int| #[trigger]
                is_run(s, p, a, m) && m > 0 && 1 <= p < period ==> m + p < best.covered || (m + p
                    == best.covered && best.period <= p),
        decreases limit + 1 - period,
    {
        let (start, len): (usize, usize) = longest_run(&sequence, period);
        let ghost before = best;
        if len > 0 && len + period > best.covered {
            best = RepetitionSpan {
                start,
                period,
                covered: len + period,
                significant: length,
            };
        }
        proof {
            assert forall|p: int, a: int, m: int| #[trigger]
                is_run(s, p, a, m) && m > 0 && 1 <= p < period + 1 implies m + p < best.covered
                || (m + p == best.covered && best.period <= p) by {
                if p == period {
                    assert(m <= len);
                } else {
                    assert(m + p <= before.covered);
                }
            }
        }
        period = period + 1;
    }
    proof {
        if best.covered > 0 {
            assert(is_run(
                s,
                best.period as int,
                best.start as int,
                best.covered - best.period,
            ));
            assert(!no_runs(s));
        } else {
            assert(no_runs(s));
        }
    }
    best
}

/// How much of a text one repeating unit covers: so many of so many significant characters.
pub fn repetition_ratio(text: &str) -> (ratio: (usize, usize))
    ensures
        exists|span: RepetitionSpan| #[trigger]
            is_repetition(significant(text@), span) && ratio == (span.covered, span.significant),
{
    let span: RepetitionSpan = analyse(text);
    (span.covered, span.significant)
}

/// A transcript of `n` significant characters, `covered` of which one repeating unit covers, is a
/// loop: three fifths of it are, or two fifths of a long one.
pub open spec fn is_loop(covered: nat, n: nat) -> bool {
    n >= 12 && (5 * covered >= 3 * n || (n >= 150 && 5 * covered >= 2 * n))
}

/// A text is a loop of the decoder.
pub open spec fn degenerate(text: Seq<char>) -> bool {
    exists|span: RepetitionSpan| #[trigger]
        is_repetition(significant(text), span) && is_loop(
            span.covered as nat,
            span.significant as nat,
        )
}

/// The longest loop of a text is described in one way only.
pub proof fn law_repetition_is_unique(s: Seq<char>, a: RepetitionSpan, b: RepetitionSpan)
    requires
        is_repetition(s, a),
        is_repetition(s, b),
    ensures
        a == b,
{
    if s.len() < MIN_LOOP_CHARS || no_runs(s) {
    } else {
        assert(is_run(s, a.period as int, a.start as int, a.covered - a.period));
        assert(is_run(s, b.period as int, b.start as int, b.covered - b.period));
    }
}

/// Whether a transcript is a loop of the decoder rather than speech.
pub fn is_degenerate(text: &str) -> (yes: bool)
    ensures
        yes == degenerate(text@),
{
    let span: RepetitionSpan = analyse(text);
    proof {
        if degenerate(text@) {
            let other = choose|other: RepetitionSpan| #[trigger]
                is_repetition(significant(text@), other) && is_loop(
                    other.covered as nat,
                    other.significant as nat,
                );
            law_repetition_is_unique(significant(text@), span, other);
        }
    }
    let covered: u128 = span.covered as u128;
    let n: u128 = span.significant as u128;
    n >= 12 && (5 * covered >= 3 * n || (n >= 150 && 5 * covered >= 2 * n))
}

/// A text that does nothing but repeat a unit, three times at least, is a loop, whatever marks
/// stand in it.
pub proof fn law_pure_loops_are_degenerate(text: Seq<char>, span: RepetitionSpan, period: int)
    requires
        is_repetition(significant(text), span),
        significant(text).len() >= 12,
        1 <= period <= max_period(significant(text).len()),
        is_run(significant(text), period, 0, significant(text).len() - period),
    ensures
        span.covered == span.significant,
        degenerate(text),
{
    let s = significant(text);
    let n = s.len() - period;
    assert(is_run(s, period, 0, n) && n > 0);
    assert(is_run(s, span.period as int, span.start as int, span.covered - span.period));
    assert(is_loop(span.covered as nat, span.significant as nat));
}

// What counts in a transcript.

/// What counts is kept in order, each character on its own.
pub proof fn law_what_counts_is_kept(a: Seq<char>, c: char, b: Seq<char>)
    ensures
        significant(a + b) == significant(a) + significant(b),
        !is_mark(c) ==> significant(seq![c]) == seq![c],
        is_mark(c) ==> significant(seq![c]).len() == 0,
    decreases b.len(),
{
    let none = Seq::<char>::empty();
    assert(significant(none) =~= none);
    assert(seq![c].drop_last() =~= none);
    assert(none.push(c) =~= seq![c]);
    if b.len() == 0 {
        assert(a + b =~= a);
        assert(significant(a) + significant(b) =~= significant(a));
    } else {
        law_what_counts_is_kept(a, c, b.drop_last());
        assert((a + b).drop_last() =~= a + b.drop_last());
        assert(significant(a + b) =~= significant(a) + significant(b));
    }
}

/// Letters, digits and ideographs count; white space and the usual marks of sentences do not.
pub proof fn law_which_characters_count(c: char)
    ensures
        48 <= c as int <= 57 || 65 <= c as int <= 90 || 97 <= c as int <= 122 ==> !is_mark(c),
        0x4e00 <= c as int <= 0x9fff ==> !is_mark(c),
        is_white(c) || c == '，' || c == '。' || c == '！' || c == '？' || c == ',' || c == '.' || c == '!'
            || c == '?' || c == '、' || c == '…' || c == '-' || c == '~' ==> is_mark(c),
{
}

/// A text is a loop exactly where one unit covers three fifths of it, or two fifths of a text of a
/// hundred and fifty characters or more, and never where it has fewer than twelve.
pub proof fn law_how_much_makes_a_loop(covered: nat, n: nat)
    ensures
        n < 12 ==> !is_loop(covered, n),
        12 <= n < 150 ==> (is_loop(covered, n) <==> 10 * covered >= 6 * n),
        n >= 150 ==> (is_loop(covered, n) <==> 10 * covered >= 4 * n),
{
}

/// A run repeats its unit to its end, no run covers more than the one that is told, and of two that
/// cover as much the one of the shorter unit is told.
pub proof fn law_the_longest_loop_is_told(
    s: Seq<char>,
    span: RepetitionSpan,
    period: int,
    start: int,
    n: int,
)
    requires
        is_repetition(s, span),
        s.len() >= 8,
        1 <= period <= 64,
        3 * period <= s.len(),
        0 <= start,
        n > 0,
        start + n + period <= s.len(),
        forall|i: int| start <= i < start + n ==> #[trigger] s[i] == s[i + period],
    ensures
        span.covered >= n + period,
        span.covered == n + period ==> span.period <= period,
        span.start + span.covered <= s.len(),
        forall|i: int|
            span.start <= i < span.start + span.covered - span.period ==> #[trigger] s[i] == s[i
                + span.period],
        span.significant == s.len(),
{
    assert(is_run(s, period, start, n));
    assert(period <= max_period(s.len()));
    assert(!no_runs(s));
    assert(is_run(s, span.period as int, span.start as int, span.covered - span.period));
}

/// What does not count is white space, punctuation, quotation marks, brackets, dots and dashes, and
/// nothing else.
pub proof fn law_nothing_else_is_left_out(c: char)
    ensures
        is_mark(c) <==> is_white(c) || seq![
            '，', '。', '！', '？', '、', '；', '：', ',', '.', '!', '?', ';', ':', '"', '\'', '“', '”', '《',
            '》', '（', '）', '(', ')', '【', '】', '[', ']', '…', '—', '-', '~', '～',
        ].contains(c),
{
    let marks = seq![
        '，', '。', '！', '？', '、', '；', '：', ',', '.', '!', '?', ';', ':', '"', '\'', '“', '”', '《', '》',
        '（', '）', '(', ')', '【', '】', '[', ']', '…', '—', '-', '~', '～',
    ];
    assert(marks.len() == 32);
    assert(marks[0] == '，' && marks[1] == '。' && marks[2] == '！' && marks[3] == '？');
    assert(marks[4] == '、' && marks[5] == '；' && marks[6] == '：' && marks[7] == ',');
    assert(marks[8] == '.' && marks[9] == '!' && marks[10] == '?' && marks[11] == ';');
    assert(marks[12] == ':' && marks[13] == '"' && marks[14] == '\'' && marks[15] == '“');
    assert(marks[16] == '”' && marks[17] == '《' && marks[18] == '》' && marks[19] == '（');
    assert(marks[20] == '）' && marks[21] == '(' && marks[22] == ')' && marks[23] == '【');
    assert(marks[24] == '】' && marks[25] == '[' && marks[26] == ']' && marks[27] == '…');
    assert(marks[28] == '—' && marks[29] == '-' && marks[30] == '~' && marks[31] == '～');
}

/// There is no loop in fewer than eight characters, nor where no character comes again at any distance
/// of up to sixty-four characters and up to a third of the text.
pub proof fn law_texts_without_loops(s: Seq<char>, span: RepetitionSpan)
    requires
        is_repetition(s, span),
        s.len() < 8 || forall|i: int, j: int|
            0 <= i < j < s.len() && j - i <= 64 && 3 * (j - i) <= s.len() ==> #[trigger] s[i]
                != #[trigger] s[j],
    ensures
        span.start == 0 && span.period == 0 && span.covered == 0,
        span.significant == s.len(),
{
    if s.len() >= 8 {
        assert forall|p: int, a: int, m: int| 1 <= p <= max_period(s.len()) && m > 0 implies !(
        #[trigger] is_run(s, p, a, m)) by {
            if is_run(s, p, a, m) {
                assert(s[a] == s[a + p]);
                assert(3 * p <= s.len());
            }
        }
        assert(no_runs(s));
    }
}

} // verus!
