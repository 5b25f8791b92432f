//! Operations on text.
//!
//! A text is the sequence of its characters. The specification functions of this module say what
//! each operation means on such sequences; the functions compute it.

use vstd::prelude::*;
use vstd::slice::slice_subrange;

verus! {

/// `String::push` appends one character to the end of the string.
pub assume_specification[ String::push ](s: &mut String, c: char)
    ensures
        final(s)@ == old(s)@.push(c),
;

// Characters.

/// The characters with the Unicode property `White_Space`.
pub open spec fn is_white(c: char) -> bool {
    let n = c as int;
    ||| 0x9 <= n <= 0xd
    ||| n == 0x20
    ||| n == 0x85
    ||| n == 0xa0
    ||| n == 0x1680
    ||| 0x2000 <= n <= 0x200a
    ||| n == 0x2028
    ||| n == 0x2029
    ||| n == 0x202f
    ||| n == 0x205f
    ||| n == 0x3000
}

/// Whether a character is white space.
pub fn is_whitespace(c: char) -> (yes: bool)
    ensures
        yes == is_white(c),
{
    let n: u32 = c as u32;
    (0x9 <= n && n <= 0xd) || n == 0x20 || n == 0x85 || n == 0xa0 || n == 0x1680 || (0x2000 <= n
        && n <= 0x200a) || n == 0x2028 || n == 0x2029 || n == 0x202f || n == 0x205f || n == 0x3000
}

/// The ASCII letters and digits.
pub open spec fn is_ascii_alnum(c: char) -> bool {
    ('a' <= c <= 'z') || ('A' <= c <= 'Z') || ('0' <= c <= '9')
}

/// Whether a character is an ASCII letter or digit.
pub fn is_ascii_alphanumeric(c: char) -> (yes: bool)
    ensures
        yes == is_ascii_alnum(c),
{
    ('a' <= c && c <= 'z') || ('A' <= c && c <= 'Z') || ('0' <= c && c <= '9')
}

/// A character with an ASCII capital made small.
pub open spec fn ascii_lower(c: char) -> char {
    if 'A' <= c <= 'Z' {
        (c as int + 32) as char
    } else {
        c
    }
}

/// Makes an ASCII capital small.
pub fn to_ascii_lower(c: char) -> (lower: char)
    ensures
        lower == ascii_lower(c),
{
    if 'A' <= c && c <= 'Z' {
        let byte: u8 = c as u8;
        (byte + 32) as char
    } else {
        c
    }
}

// Whole texts.

/// The characters of a text.
pub fn chars_of(text: &str) -> (chars: Vec<char>)
    ensures
        chars@ == text@,
{
    let mut chars: Vec<char> = Vec::new();
    for c in iter: text.chars()
        invariant
            iter.seq() == text@,
            chars@ == text@.take(iter.index()),
    {
        chars.push(c);
    }
    chars
}

/// The text made of the given characters.
pub fn string_of(chars: &[char]) -> (text: String)
    ensures
        text@ == chars@,
{
    let mut text: String = String::new();
    let mut i: usize = 0;
    while i < chars.len()
        invariant
            i <= chars.len(),
            text@ == chars@.take(i as int),
        decreases chars.len() - i,
    {
        text.push(chars[i]);
        i = i + 1;
    }
    assert(chars@.take(chars.len() as int) == chars@);
    text
}

/// A copy of a run of characters.
pub fn copy_chars(chars: &[char]) -> (copy: Vec<char>)
    ensures
        copy@ == chars@,
{
    let mut copy: Vec<char> = Vec::new();
    copy.extend_from_slice(chars);
    assert(copy@ =~= chars@);
    copy
}

/// Whether two runs of characters are the same.
pub fn same_chars(a: &[char], b: &[char]) -> (same: bool)
    ensures
        same == (a@ == b@),
{
    if a.len() != b.len() {
        return false;
    }
    let mut i: usize = 0;
    while i < a.len()
        invariant
            i <= a.len(),
            a.len() == b.len(),
            forall|j: int| 0 <= j < i ==> a@[j] == b@[j],
        decreases a.len() - i,
    {
        if a[i] != b[i] {
            return false;
        }
        i = i + 1;
    }
    assert(a@ =~= b@);
    true
}

/// Whether two texts are the same.
pub fn same_text(a: &str, b: &str) -> (same: bool)
    ensures
        same == (a@ == b@),
{
    let left: Vec<char> = chars_of(a);
    let right: Vec<char> = chars_of(b);
    same_chars(&left, &right)
}

/// A text with its ASCII capitals made small.
pub open spec fn ascii_lowered(s: Seq<char>) -> Seq<char> {
    Seq::new(s.len(), |i: int| ascii_lower(s[i]))
}

/// Makes the ASCII capitals of a text small.
pub fn ascii_lower_chars(chars: &[char]) -> (lower: Vec<char>)
    ensures
        lower@ == ascii_lowered(chars@),
{
    let mut lower: Vec<char> = Vec::new();
    let mut i: usize = 0;
    while i < chars.len()
        invariant
            i <= chars.len(),
            lower@.len() == i,
            forall|j: int| 0 <= j < i ==> lower@[j] == ascii_lower(chars@[j]),
        decreases chars.len() - i,
    {
        lower.push(to_ascii_lower(chars[i]));
        i = i + 1;
    }
    assert(lower@ =~= ascii_lowered(chars@));
    lower
}

/// Whether two texts are the same but for the case of ASCII letters.
pub fn same_ignoring_ascii_case(a: &str, b: &str) -> (same: bool)
    ensures
        same == (ascii_lowered(a@) == ascii_lowered(b@)),
{
    let left: Vec<char> = chars_of(a);
    let right: Vec<char> = chars_of(b);
    same_chars(&ascii_lower_chars(&left), &ascii_lower_chars(&right))
}

/// The number of characters of a text.
pub fn char_count(text: &str) -> (count: usize)
    ensures
        count == text@.len(),
{
    let chars: Vec<char> = chars_of(text);
    chars.len()
}

/// The first `max` characters of `s`, or all of them where there are fewer.
pub open spec fn prefix(s: Seq<char>, max: nat) -> Seq<char> {
    if s.len() <= max {
        s
    } else {
        s.take(max as int)
    }
}

/// Keeps at most the first `max` characters.
pub fn prefix_chars(chars: &[char], max: usize) -> (kept: &[char])
    ensures
        kept@ == prefix(chars@, max as nat),
{
    if chars.len() <= max {
        chars
    } else {
        slice_subrange(chars, 0, max)
    }
}

// White space at the ends.

/// `s` without the white space at its start.
pub open spec fn trim_start(s: Seq<char>) -> Seq<char>
    decreases s.len(),
{
    if s.len() > 0 && is_white(s[0]) {
        trim_start(s.skip(1))
    } else {
        s
    }
}

/// `s` without the white space at its end.
pub open spec fn trim_end(s: Seq<char>) -> Seq<char>
    decreases s.len(),
{
    if s.len() > 0 && is_white(s.last()) {
        trim_end(s.drop_last())
    } else {
        s
    }
}

/// `s` without the white space at both ends.
pub open spec fn trim(s: Seq<char>) -> Seq<char> {
    trim_end(trim_start(s))
}

/// `s` holds nothing but white space.
pub open spec fn is_blank(s: Seq<char>) -> bool {
    forall|i: int| 0 <= i < s.len() ==> is_white(#[trigger] s[i])
}

/// What trimming the start leaves: an end of the text that starts with no white space, all that
/// went being white.
pub proof fn lemma_trim_start(s: Seq<char>)
    ensures
        trim_start(s).len() <= s.len(),
        trim_start(s) == s.skip(s.len() - trim_start(s).len()),
        trim_start(s).len() > 0 ==> !is_white(trim_start(s)[0]),
        forall|i: int| 0 <= i < s.len() - trim_start(s).len() ==> is_white(#[trigger] s[i]),
    decreases s.len(),
{
    if s.len() > 0 && is_white(s[0]) {
        lemma_trim_start(s.skip(1));
        let t = trim_start(s.skip(1));
        assert(s.skip(1).skip(s.skip(1).len() - t.len()) =~= s.skip(s.len() - t.len()));
        assert forall|i: int| 0 <= i < s.len() - t.len() implies is_white(#[trigger] s[i]) by {
            if i > 0 {
                assert(s.skip(1)[i - 1] == s[i]);
            }
        }
    } else {
        assert(s.skip(0) =~= s);
    }
}

/// What trimming the end leaves: a start of the text that ends with no white space, all that went
/// being white.
pub proof fn lemma_trim_end(s: Seq<char>)
    ensures
        trim_end(s).len() <= s.len(),
        trim_end(s) == s.take(trim_end(s).len() as int),
        trim_end(s).len() > 0 ==> !is_white(trim_end(s).last()),
        forall|i: int| trim_end(s).len() <= i < s.len() ==> is_white(#[trigger] s[i]),
    decreases s.len(),
{
    if s.len() > 0 && is_white(s.last()) {
        lemma_trim_end(s.drop_last());
        let t = trim_end(s.drop_last());
        assert(s.drop_last().take(t.len() as int) =~= s.take(t.len() as int));
        assert forall|i: int| t.len() <= i < s.len() implies is_white(#[trigger] s[i]) by {
            if i < s.len() - 1 {
                assert(s.drop_last()[i] == s[i]);
            }
        }
    } else {
        assert(s.take(s.len() as int) =~= s);
    }
}

/// What trimming leaves: no white space at either end, and nothing exactly where the text was
/// blank.
pub proof fn lemma_trim(s: Seq<char>)
    ensures
        trim(s).len() <= s.len(),
        trim(s).len() > 0 ==> !is_white(trim(s)[0]) && !is_white(trim(s).last()),
        trim(s).len() == 0 <==> is_blank(s),
        trim(s).len() == s.len() ==> trim(s) == s,
{
    lemma_trim_start(s);
    let t = trim_start(s);
    lemma_trim_end(t);
    if is_blank(s) && t.len() > 0 {
        assert(t[0] == s[s.len() - t.len()]);
    }
    if trim(s).len() == 0 {
        assert forall|i: int| 0 <= i < s.len() implies is_white(#[trigger] s[i]) by {
            if i >= s.len() - t.len() {
                assert(s[i] == t[i - (s.len() - t.len())]);
            }
        }
    }
    if trim(s).len() == s.len() {
        assert(s.skip(0) =~= s);
        assert(t.take(t.len() as int) =~= t);
    }
}

/// How many characters trimming takes off the start.
pub open spec fn lead(s: Seq<char>) -> int {
    s.len() - trim_start(s).len()
}

/// What trimming leaves is a part of the text, and all around it is white. Trimming it again changes
/// nothing.
pub proof fn lemma_trim_part(s: Seq<char>)
    ensures
        0 <= lead(s) <= lead(s) + trim(s).len() <= s.len(),
        trim(s) == s.subrange(lead(s), lead(s) + trim(s).len()),
        forall|i: int| 0 <= i < lead(s) ==> is_white(#[trigger] s[i]),
        forall|i: int| lead(s) + trim(s).len() <= i < s.len() ==> is_white(#[trigger] s[i]),
        trim(trim(s)) == trim(s),
{
    lemma_trim_start(s);
    let t = trim_start(s);
    lemma_trim_end(t);
    assert(trim(s) =~= s.subrange(lead(s), lead(s) + trim(s).len()));
    assert forall|i: int| lead(s) + trim(s).len() <= i < s.len() implies is_white(#[trigger] s[i]) by {
        assert(t[i - lead(s)] == s[i]);
    }
    lemma_trim(s);
}

/// Drops the white space at the start.
pub fn trim_start_chars(chars: &[char]) -> (kept: &[char])
    ensures
        kept@ == trim_start(chars@),
{
    let mut from: usize = 0;
    assert(chars@.skip(0) =~= chars@);
    while from < chars.len() && is_whitespace(chars[from])
        invariant
            from <= chars.len(),
            trim_start(chars@) == trim_start(chars@.skip(from as int)),
        decreases chars.len() - from,
    {
        assert(chars@.skip(from as int).skip(1) =~= chars@.skip(from + 1));
        from = from + 1;
    }
    assert(chars@.subrange(from as int, chars.len() as int) =~= chars@.skip(from as int));
    slice_subrange(chars, from, chars.len())
}

/// Drops the white space at the end.
pub fn trim_end_chars(chars: &[char]) -> (kept: &[char])
    ensures
        kept@ == trim_end(chars@),
{
    let mut to: usize = chars.len();
    assert(chars@.take(chars.len() as int) =~= chars@);
    while to > 0 && is_whitespace(chars[to - 1])
        invariant
            to <= chars.len(),
            trim_end(chars@) == trim_end(chars@.take(to as int)),
        decreases to,
    {
        assert(chars@.take(to as int).drop_last() =~= chars@.take(to - 1));
        to = to - 1;
    }
    assert(chars@.subrange(0, to as int) =~= chars@.take(to as int));
    slice_subrange(chars, 0, to)
}

/// Drops the white space at both ends.
pub fn trim_chars(chars: &[char]) -> (kept: &[char])
    ensures
        kept@ == trim(chars@),
{
    trim_end_chars(trim_start_chars(chars))
}

/// The text without the white space at both ends.
pub fn trim_text(text: &str) -> (kept: String)
    ensures
        kept@ == trim(text@),
{
    let chars: Vec<char> = chars_of(text);
    string_of(trim_chars(&chars))
}

/// Whether a text holds nothing but white space.
pub fn blank(text: &str) -> (yes: bool)
    ensures
        yes == is_blank(text@),
{
    let chars: Vec<char> = chars_of(text);
    proof {
        lemma_trim(text@);
    }
    trim_chars(&chars).len() == 0
}

// Finding.

/// `p` stands in `s` at position `i`.
pub open spec fn occurs_at(s: Seq<char>, p: Seq<char>, i: int) -> bool {
    0 <= i && i + p.len() <= s.len() && s.subrange(i, i + p.len()) == p
}

/// `p` stands somewhere in `s`.
pub open spec fn contains(s: Seq<char>, p: Seq<char>) -> bool {
    exists|i: int| occurs_at(s, p, i)
}

/// `s` starts with `p`.
pub open spec fn starts_with(s: Seq<char>, p: Seq<char>) -> bool {
    occurs_at(s, p, 0)
}

/// `s` ends with `p`.
pub open spec fn ends_with(s: Seq<char>, p: Seq<char>) -> bool {
    occurs_at(s, p, s.len() - p.len())
}

/// The first position from `from` on at which `p` stands in `s`.
pub open spec fn find_from(s: Seq<char>, p: Seq<char>, from: int) -> Option<int>
    decreases s.len() + 1 - from,
{
    if from < 0 || from + p.len() > s.len() {
        None
    } else if occurs_at(s, p, from) {
        Some(from)
    } else {
        find_from(s, p, from + 1)
    }
}

/// The first position at which `p` stands in `s`.
pub open spec fn find(s: Seq<char>, p: Seq<char>) -> Option<int> {
    find_from(s, p, 0)
}

/// The last position at most `from` at which `p` stands in `s`.
pub open spec fn find_last_from(s: Seq<char>, p: Seq<char>, from: int) -> Option<int>
    decreases from + 1,
{
    if from < 0 {
        None
    } else if occurs_at(s, p, from) {
        Some(from)
    } else {
        find_last_from(s, p, from - 1)
    }
}

/// The last position at which `p` stands in `s`.
pub open spec fn find_last(s: Seq<char>, p: Seq<char>) -> Option<int> {
    find_last_from(s, p, s.len() - p.len())
}

/// What is found is the first occurrence from `from` on, and nothing is found exactly where there
/// is none.
pub proof fn lemma_find_from(s: Seq<char>, p: Seq<char>, from: int)
    requires
        0 <= from,
    ensures
        match find_from(s, p, from) {
            Some(i) => from <= i && occurs_at(s, p, i) && forall|j: int|
                from <= j < i ==> !occurs_at(s, p, j),
            None => forall|j: int| from <= j ==> !occurs_at(s, p, j),
        },
    decreases s.len() + 1 - from,
{
    if from + p.len() > s.len() {
    } else if occurs_at(s, p, from) {
    } else {
        lemma_find_from(s, p, from + 1);
    }
}

/// A text holds another exactly where a search finds it.
pub proof fn lemma_find_contains(s: Seq<char>, p: Seq<char>)
    ensures
        find(s, p) is Some <==> contains(s, p),
{
    lemma_find_from(s, p, 0);
}

/// Where a text is found that starts and ends with no white space, before and after trimming.
pub proof fn lemma_find_trimmed(s: Seq<char>, p: Seq<char>)
    requires
        p.len() > 0,
        !is_white(p[0]),
        !is_white(p.last()),
    ensures
        find(trim(s), p) == match find(s, p) {
            Some(i) => Some(i - lead(s)),
            None => None,
        },
{
    let t = trim(s);
    lemma_trim_part(s);
    lemma_find_from(s, p, 0);
    lemma_find_from(t, p, 0);
    assert forall|i: int| occurs_at(s, p, i) implies occurs_at(t, p, i - lead(s)) by {
        let part = s.subrange(i, i + p.len());
        assert(part[0] == s[i] && part[p.len() - 1] == s[i + p.len() - 1]);
        assert(t.subrange(i - lead(s), i - lead(s) + p.len()) =~= part);
    }
    assert forall|i: int| occurs_at(t, p, i) implies occurs_at(s, p, i + lead(s)) by {
        assert(s.subrange(i + lead(s), i + lead(s) + p.len()) =~= t.subrange(i, i + p.len()));
    }
    match find(s, p) {
        Some(i) => {
            assert(occurs_at(t, p, i - lead(s)));
            let j = find(t, p)->0;
            assert(occurs_at(s, p, j + lead(s)));
        },
        None => {
            if find(t, p) is Some {
                assert(occurs_at(s, p, find(t, p)->0 + lead(s)));
            }
        },
    }
}

/// White space at the end of a text does not change where another is found that ends with none.
pub proof fn lemma_find_before_white(s: Seq<char>, n: int, p: Seq<char>)
    requires
        0 <= n <= s.len(),
        p.len() > 0,
        !is_white(p.last()),
        forall|i: int| n <= i < s.len() ==> is_white(#[trigger] s[i]),
    ensures
        find(s.take(n), p) == find(s, p),
{
    let t = s.take(n);
    lemma_find_from(s, p, 0);
    lemma_find_from(t, p, 0);
    assert forall|i: int| occurs_at(s, p, i) implies occurs_at(t, p, i) by {
        let part = s.subrange(i, i + p.len());
        assert(part[p.len() - 1] == s[i + p.len() - 1]);
        assert(t.subrange(i, i + p.len()) =~= part);
    }
    assert forall|i: int| occurs_at(t, p, i) implies occurs_at(s, p, i) by {
        assert(s.subrange(i, i + p.len()) =~= t.subrange(i, i + p.len()));
    }
    match find(s, p) {
        Some(i) => {
            assert(occurs_at(t, p, i));
            assert(occurs_at(s, p, find(t, p)->0));
        },
        None => {
            if find(t, p) is Some {
                assert(occurs_at(s, p, find(t, p)->0));
            }
        },
    }
}

/// A text that lacks a character of another does not hold the other.
pub proof fn lemma_lacks_char(s: Seq<char>, p: Seq<char>, k: int)
    requires
        0 <= k < p.len(),
        forall|j: int| 0 <= j < s.len() ==> s[j] != p[k],
    ensures
        !contains(s, p),
{
    assert forall|i: int| !occurs_at(s, p, i) by {
        if occurs_at(s, p, i) {
            assert(s.subrange(i, i + p.len())[k] == s[i + k]);
        }
    }
}

/// A text between two others is part of the whole.
pub proof fn lemma_contains_middle(a: Seq<char>, p: Seq<char>, b: Seq<char>)
    ensures
        contains(a + p + b, p),
{
    let s = a + p + b;
    assert(s.subrange(a.len() as int, (a.len() + p.len()) as int) =~= p);
    assert(occurs_at(s, p, a.len() as int));
}

/// Whether `pattern` stands in `chars` at position `at`.
pub fn matches_at(chars: &[char], pattern: &[char], at: usize) -> (yes: bool)
    ensures
        yes == occurs_at(chars@, pattern@, at as int),
{
    if at > chars.len() || chars.len() - at < pattern.len() {
        return false;
    }
    let mut i: usize = 0;
    while i < pattern.len()
        invariant
            i <= pattern.len(),
            at + pattern.len() <= chars.len(),
            forall|j: int| 0 <= j < i ==> chars@[at + j] == pattern@[j],
        decreases pattern.len() - i,
    {
        if chars[at + i] != pattern[i] {
            assert(chars@.subrange(at as int, at + pattern.len())[i as int] != pattern@[i as int]);
            return false;
        }
        i = i + 1;
    }
    assert(chars@.subrange(at as int, at + pattern.len()) =~= pattern@);
    true
}

/// Finds the first occurrence of `pattern` from `from` on.
pub fn find_chars(chars: &[char], pattern: &[char], from: usize) -> (found: Option<usize>)
    ensures
        match found {
            Some(i) => find_from(chars@, pattern@, from as int) == Some(i as int),
            None => find_from(chars@, pattern@, from as int) is None,
        },
{
    let mut at: usize = from;
    while at <= chars.len() && pattern.len() <= chars.len() - at
        invariant
            from <= at,
            find_from(chars@, pattern@, from as int) == find_from(chars@, pattern@, at as int),
        decreases chars.len() + 1 - at,
    {
        if matches_at(chars, pattern, at) {
            return Some(at);
        }
        if at == chars.len() {
            assert(find_from(chars@, pattern@, at + 1) is None);
            return None;
        }
        at = at + 1;
    }
    None
}

/// Finds the last occurrence of `pattern`.
pub fn find_last_chars(chars: &[char], pattern: &[char]) -> (found: Option<usize>)
    ensures
        match found {
            Some(i) => find_last(chars@, pattern@) == Some(i as int),
            None => find_last(chars@, pattern@) is None,
        },
{
    if pattern.len() > chars.len() {
        return None;
    }
    let mut at: usize = chars.len() - pattern.len();
    loop
        invariant
            at + pattern.len() <= chars.len(),
            find_last(chars@, pattern@) == find_last_from(chars@, pattern@, at as int),
        decreases at,
    {
        if matches_at(chars, pattern, at) {
            return Some(at);
        }
        if at == 0 {
            assert(find_last_from(chars@, pattern@, -1) is None);
            return None;
        }
        at = at - 1;
    }
}

/// Whether `pattern` stands somewhere in `chars`.
pub fn contains_chars(chars: &[char], pattern: &[char]) -> (yes: bool)
    ensures
        yes == contains(chars@, pattern@),
{
    proof {
        lemma_find_contains(chars@, pattern@);
    }
    find_chars(chars, pattern, 0).is_some()
}

/// Whether the text `pattern` stands somewhere in `chars`.
pub fn contains_text(chars: &[char], pattern: &str) -> (yes: bool)
    ensures
        yes == contains(chars@, pattern@),
{
    let pattern: Vec<char> = chars_of(pattern);
    contains_chars(chars, &pattern)
}

/// Whether `chars` starts with the text `pattern`.
pub fn starts_with_text(chars: &[char], pattern: &str) -> (yes: bool)
    ensures
        yes == starts_with(chars@, pattern@),
{
    let pattern: Vec<char> = chars_of(pattern);
    matches_at(chars, &pattern, 0)
}

/// `s` without `p` at its start; nothing where it starts otherwise.
pub open spec fn strip_prefix(s: Seq<char>, p: Seq<char>) -> Option<Seq<char>> {
    if starts_with(s, p) {
        Some(s.skip(p.len() as int))
    } else {
        None
    }
}

/// `s` without `p` at its end; nothing where it ends otherwise.
pub open spec fn strip_suffix(s: Seq<char>, p: Seq<char>) -> Option<Seq<char>> {
    if ends_with(s, p) {
        Some(s.take(s.len() - p.len()))
    } else {
        None
    }
}

/// What follows `pattern` where `chars` starts with it.
pub fn strip_prefix_text<'a>(chars: &'a [char], pattern: &str) -> (rest: Option<&'a [char]>)
    ensures
        match rest {
            Some(rest) => strip_prefix(chars@, pattern@) == Some(rest@),
            None => strip_prefix(chars@, pattern@) is None,
        },
{
    let pattern: Vec<char> = chars_of(pattern);
    if matches_at(chars, &pattern, 0) {
        assert(chars@.subrange(pattern@.len() as int, chars@.len() as int) =~= chars@.skip(
            pattern@.len() as int,
        ));
        Some(slice_subrange(chars, pattern.len(), chars.len()))
    } else {
        None
    }
}

/// What stands before `pattern` where `chars` ends with it.
pub fn strip_suffix_text<'a>(chars: &'a [char], pattern: &str) -> (rest: Option<&'a [char]>)
    ensures
        match rest {
            Some(rest) => strip_suffix(chars@, pattern@) == Some(rest@),
            None => strip_suffix(chars@, pattern@) is None,
        },
{
    let pattern: Vec<char> = chars_of(pattern);
    if pattern.len() <= chars.len() && matches_at(chars, &pattern, chars.len() - pattern.len()) {
        assert(chars@.subrange(0, chars@.len() - pattern@.len()) =~= chars@.take(
            chars@.len() - pattern@.len(),
        ));
        Some(slice_subrange(chars, 0, chars.len() - pattern.len()))
    } else {
        None
    }
}

// Lines and words.

/// The number of characters of `s` before the first `c`, or of all of `s` where it holds none.
pub open spec fn len_before(s: Seq<char>, c: char) -> nat
    decreases s.len(),
{
    if s.len() == 0 || s[0] == c {
        0
    } else {
        1 + len_before(s.skip(1), c)
    }
}

/// What stands before the first `c`: no `c` is in it, and one follows it unless the text ends.
pub proof fn lemma_len_before(s: Seq<char>, c: char)
    ensures
        len_before(s, c) <= s.len(),
        len_before(s, c) < s.len() ==> s[len_before(s, c) as int] == c,
        forall|i: int| 0 <= i < len_before(s, c) ==> s[i] != c,
    decreases s.len(),
{
    if s.len() == 0 || s[0] == c {
    } else {
        lemma_len_before(s.skip(1), c);
        assert forall|i: int| 0 <= i < len_before(s, c) implies s[i] != c by {
            if i > 0 {
                assert(s.skip(1)[i - 1] == s[i]);
            }
        }
    }
}

/// A line that a line feed ended, without the carriage return before it.
pub open spec fn without_return(line: Seq<char>) -> Seq<char> {
    if line.len() > 0 && line.last() == '\r' {
        line.drop_last()
    } else {
        line
    }
}

/// The lines of `s`. A line ends with a line feed, or with a carriage return and a line feed; the
/// last one may end with the text.
pub open spec fn lines(s: Seq<char>) -> Seq<Seq<char>>
    decreases s.len(),
{
    let n = len_before(s, '\n');
    if s.len() == 0 {
        Seq::empty()
    } else if n >= s.len() {
        seq![s]
    } else {
        seq![without_return(s.take(n as int))] + lines(s.skip(n as int + 1))
    }
}

/// The number of characters before the first `c`, counted from `from`.
pub fn count_before(chars: &[char], from: usize, c: char) -> (count: usize)
    requires
        from <= chars.len(),
    ensures
        count == len_before(chars@.skip(from as int), c),
        from + count <= chars.len(),
{
    let mut at: usize = from;
    while at < chars.len() && chars[at] != c
        invariant
            from <= at <= chars.len(),
            len_before(chars@.skip(from as int), c) == at - from + len_before(
                chars@.skip(at as int),
                c,
            ),
        decreases chars.len() - at,
    {
        assert(chars@.skip(at as int).skip(1) =~= chars@.skip(at + 1));
        at = at + 1;
    }
    at - from
}

/// The texts of a list.
pub open spec fn views(list: Seq<Vec<char>>) -> Seq<Seq<char>> {
    list.map_values(|line: Vec<char>| line@)
}

/// The lines of a text.
pub fn lines_of(chars: &[char]) -> (list: Vec<Vec<char>>)
    ensures
        views(list@) == lines(chars@),
{
    let mut list: Vec<Vec<char>> = Vec::new();
    let mut from: usize = 0;
    assert(chars@.skip(0) =~= chars@);
    assert(views(list@) + lines(chars@) =~= lines(chars@));
    while from < chars.len()
        invariant
            from <= chars.len(),
            views(list@) + lines(chars@.skip(from as int)) == lines(chars@),
        decreases chars.len() - from,
    {
        let ghost rest = chars@.skip(from as int);
        let ghost before = list@;
        let count: usize = count_before(chars, from, '\n');
        let mut end: usize = from + count;
        let ended: bool = end < chars.len();
        assert(chars@.subrange(from as int, end as int) =~= rest.take(count as int));
        if ended && end > from && chars[end - 1] == '\r' {
            assert(chars@.subrange(from as int, end - 1) =~= rest.take(count as int).drop_last());
            end = end - 1;
        }
        let line: Vec<char> = copy_chars(slice_subrange(chars, from, end));
        let ghost shown = line@;
        list.push(line);
        assert(views(list@) =~= views(before).push(shown));
        if ended {
            assert(shown == without_return(rest.take(count as int)));
            assert(rest.skip(count as int + 1) =~= chars@.skip(from + count + 1));
            assert(views(list@) + lines(chars@.skip(from + count + 1)) =~= views(before) + lines(
                rest,
            ));
            from = from + count + 1;
        } else {
            assert(rest.take(count as int) =~= rest);
            assert(chars@.skip(chars@.len() as int).len() == 0);
            assert(views(list@) + lines(chars@.skip(chars@.len() as int)) =~= views(before)
                + lines(rest));
            from = chars.len();
        }
    }
    assert(chars@.skip(from as int).len() == 0);
    assert(views(list@) + lines(chars@.skip(from as int)) =~= views(list@));
    list
}

/// The number of characters of `s` before its first white space.
pub open spec fn word_len(s: Seq<char>) -> nat
    decreases s.len(),
{
    if s.len() == 0 || is_white(s[0]) {
        0
    } else {
        1 + word_len(s.skip(1))
    }
}

/// A word is part of the text, and where the text starts with no white space it is not empty.
pub proof fn lemma_word_len(s: Seq<char>)
    ensures
        word_len(s) <= s.len(),
        s.len() > 0 && !is_white(s[0]) ==> word_len(s) > 0,
    decreases s.len(),
{
    if s.len() == 0 || is_white(s[0]) {
    } else {
        lemma_word_len(s.skip(1));
    }
}

/// The words of `s`: what stands between its runs of white space.
pub open spec fn words(s: Seq<char>) -> Seq<Seq<char>>
    decreases s.len(),
{
    let t = trim_start(s);
    if t.len() == 0 {
        Seq::empty()
    } else {
        proof {
            lemma_trim_start(s);
            lemma_word_len(t);
        }
        seq![t.take(word_len(t) as int)] + words(t.skip(word_len(t) as int))
    }
}

/// The words of a text.
pub fn words_of(chars: &[char]) -> (list: Vec<Vec<char>>)
    ensures
        views(list@) == words(chars@),
{
    let mut list: Vec<Vec<char>> = Vec::new();
    let mut from: usize = 0;
    assert(chars@.skip(0) =~= chars@);
    assert(views(list@) + words(chars@) =~= words(chars@));
    loop
        invariant
            from <= chars.len(),
            views(list@) + words(chars@.skip(from as int)) == words(chars@),
        decreases chars.len() - from,
    {
        let ghost rest = chars@.skip(from as int);
        assert(chars@.subrange(from as int, chars@.len() as int) =~= rest);
        let tail: &[char] = trim_start_chars(slice_subrange(chars, from, chars.len()));
        proof {
            lemma_trim_start(rest);
        }
        if tail.len() == 0 {
            assert(views(list@) + words(rest) =~= views(list@));
            return list;
        }
        let mut count: usize = 0;
        assert(tail@.skip(0) =~= tail@);
        while count < tail.len() && !is_whitespace(tail[count])
            invariant
                count <= tail.len(),
                word_len(tail@) == count + word_len(tail@.skip(count as int)),
            decreases tail.len() - count,
        {
            assert(tail@.skip(count as int).skip(1) =~= tail@.skip(count + 1));
            count = count + 1;
        }
        proof {
            lemma_word_len(tail@);
        }
        let ghost before = list@;
        assert(tail@.subrange(0, count as int) =~= tail@.take(count as int));
        list.push(copy_chars(slice_subrange(tail, 0, count)));
        assert(views(list@) =~= views(before).push(tail@.take(count as int)));
        let next: usize = chars.len() - (tail.len() - count);
        assert(tail@.skip(count as int) =~= chars@.skip(next as int));
        assert(views(list@) + words(chars@.skip(next as int)) =~= views(before) + words(rest));
        from = next;
    }
}

// Numerals.

/// The digit of value `d`.
pub open spec fn digit(d: nat) -> char {
    if d < 10 {
        ('0' as int + d) as char
    } else {
        ('a' as int + d - 10) as char
    }
}

/// The numeral of `n` in the given base, the most significant digit first.
pub open spec fn numeral(n: nat, base: nat) -> Seq<char>
    decreases n,
{
    if base < 2 || n < base {
        seq![digit(n)]
    } else {
        proof {
            vstd::arithmetic::div_mod::lemma_div_decreases(n as int, base as int);
        }
        numeral(n / base, base).push(digit(n % base))
    }
}

/// The decimal numeral of `n`.
pub open spec fn decimal(n: nat) -> Seq<char> {
    numeral(n, 10)
}

fn digit_char(d: u8) -> (c: char)
    requires
        d < 16,
    ensures
        c == digit(d as nat),
{
    let byte: u8 = if d < 10 {
        48 + d
    } else {
        87 + d
    };
    byte as char
}

/// Writes `n` in the given base.
pub fn numeral_of(n: u128, base: u8) -> (text: String)
    requires
        2 <= base <= 16,
    ensures
        text@ == numeral(n as nat, base as nat),
    decreases n,
{
    let radix: u128 = base as u128;
    if n < radix {
        let mut text: String = String::new();
        text.push(digit_char(n as u8));
        assert(text@ =~= seq![digit(n as nat)]);
        text
    } else {
        proof {
            vstd::arithmetic::div_mod::lemma_div_decreases(n as int, base as int);
        }
        let mut text: String = numeral_of(n / radix, base);
        text.push(digit_char((n % radix) as u8));
        text
    }
}

/// Writes `n` in decimal.
pub fn decimal_of(n: u64) -> (text: String)
    ensures
        text@ == decimal(n as nat),
{
    numeral_of(n as u128, 10)
}

/// The decimal digits.
pub open spec fn is_digit(c: char) -> bool {
    '0' <= c <= '9'
}

/// `s` is one digit or more, and nothing else.
pub open spec fn is_digits(s: Seq<char>) -> bool {
    s.len() > 0 && forall|i: int| 0 <= i < s.len() ==> is_digit(#[trigger] s[i])
}

/// The number that the digits of `s` write in decimal.
pub open spec fn digits_value(s: Seq<char>) -> int
    decreases s.len(),
{
    if s.len() == 0 {
        0
    } else {
        10 * digits_value(s.drop_last()) + (s.last() as int - '0' as int)
    }
}

/// The number that `s` writes in decimal, after at most one sign.
pub open spec fn signed_value(s: Seq<char>) -> Option<int> {
    if s.len() > 0 && s[0] == '-' {
        if is_digits(s.skip(1)) {
            Some(-digits_value(s.skip(1)))
        } else {
            None
        }
    } else {
        unsigned_value(s)
    }
}

/// The number that `s` writes in decimal, after at most one plus sign.
pub open spec fn unsigned_value(s: Seq<char>) -> Option<int> {
    let body = if s.len() > 0 && s[0] == '+' {
        s.skip(1)
    } else {
        s
    };
    if is_digits(body) {
        Some(digits_value(body))
    } else {
        None
    }
}

proof fn lemma_digits_value_grows(s: Seq<char>, n: int)
    requires
        is_digits(s),
        0 <= n <= s.len(),
    ensures
        0 <= digits_value(s.take(n)) <= digits_value(s),
    decreases s.len(), s.len() - n,
{
    if n == s.len() {
        assert(s.take(n) =~= s);
        if n > 1 {
            lemma_digits_value_grows(s.drop_last(), n - 1);
            assert(s.drop_last().take(n - 1) =~= s.drop_last());
        } else {
            assert(s.drop_last().len() == 0);
        }
        assert(is_digit(s[s.len() - 1]));
    } else if n == 0 {
        assert(s.take(0).len() == 0);
        lemma_digits_value_grows(s, s.len() as int);
        assert(s.take(s.len() as int) =~= s);
    } else {
        lemma_digits_value_grows(s.drop_last(), n);
        assert(s.drop_last().take(n) =~= s.take(n));
        assert(is_digit(s[s.len() - 1]));
    }
}

/// Reads digits as a number of at most 64 bits.
fn digits_of(chars: &[char]) -> (value: Option<u64>)
    ensures
        match value {
            Some(n) => is_digits(chars@) && digits_value(chars@) == n,
            None => !is_digits(chars@) || digits_value(chars@) > u64::MAX,
        },
{
    if chars.len() == 0 {
        return None;
    }
    let mut k: usize = 0;
    while k < chars.len()
        invariant
            k <= chars.len(),
            forall|i: int| 0 <= i < k ==> is_digit(#[trigger] chars@[i]),
        decreases chars.len() - k,
    {
        if chars[k] < '0' || '9' < chars[k] {
            assert(!is_digit(chars@[k as int]));
            return None;
        }
        k = k + 1;
    }
    let mut i: usize = 0;
    let mut value: u64 = 0;
    while i < chars.len()
        invariant
            i <= chars.len(),
            is_digits(chars@),
            value == digits_value(chars@.take(i as int)),
        decreases chars.len() - i,
    {
        assert(is_digit(chars@[i as int]));
        let d: u64 = (chars[i] as u32 - 48) as u64;
        proof {
            assert(chars@.take(i + 1).drop_last() =~= chars@.take(i as int));
            lemma_digits_value_grows(chars@, i + 1);
        }
        if value > (u64::MAX - d) / 10 {
            return None;
        }
        value = 10 * value + d;
        i = i + 1;
    }
    assert(chars@.take(chars@.len() as int) =~= chars@);
    Some(value)
}

/// Reads a decimal number with at most one sign that fits a signed number of 64 bits.
pub fn parse_signed(text: &str) -> (value: Option<i64>)
    ensures
        match value {
            Some(n) => signed_value(text@) == Some(n as int),
            None => match signed_value(text@) {
                Some(n) => n < i64::MIN || n > i64::MAX,
                None => true,
            },
        },
{
    let chars: Vec<char> = chars_of(text);
    if chars.len() > 0 && chars[0] == '-' {
        assert(chars@.subrange(1, chars@.len() as int) =~= chars@.skip(1));
        match digits_of(slice_subrange(&chars, 1, chars.len())) {
            Some(n) => if n <= 0x7fff_ffff_ffff_ffff {
                Some(-(n as i64))
            } else if n == 0x8000_0000_0000_0000 {
                Some(i64::MIN)
            } else {
                None
            },
            None => None,
        }
    } else {
        match parse_unsigned(text) {
            Some(n) => if n <= 0x7fff_ffff_ffff_ffff {
                Some(n as i64)
            } else {
                None
            },
            None => None,
        }
    }
}

/// Reads a decimal number with at most one plus sign that fits 64 bits.
pub fn parse_unsigned(text: &str) -> (value: Option<u64>)
    ensures
        match value {
            Some(n) => unsigned_value(text@) == Some(n as int),
            None => match unsigned_value(text@) {
                Some(n) => n > u64::MAX,
                None => true,
            },
        },
{
    let chars: Vec<char> = chars_of(text);
    if chars.len() > 0 && chars[0] == '+' {
        assert(chars@.subrange(1, chars@.len() as int) =~= chars@.skip(1));
        digits_of(slice_subrange(&chars, 1, chars.len()))
    } else {
        digits_of(&chars)
    }
}

// Joining.

/// The texts of `list` one after another, with `between` between each two.
pub open spec fn join(list: Seq<Seq<char>>, between: Seq<char>) -> Seq<char>
    decreases list.len(),
{
    if list.len() == 0 {
        Seq::empty()
    } else if list.len() == 1 {
        list[0]
    } else {
        join(list.drop_last(), between) + between + list.last()
    }
}

/// The texts of a list of strings.
pub open spec fn texts(list: Seq<String>) -> Seq<Seq<char>> {
    list.map_values(|s: String| s@)
}

/// Joins texts with `between` between each two.
pub fn join_texts(list: &Vec<String>, between: &str) -> (joined: String)
    ensures
        joined@ == join(texts(list@), between@),
{
    let mut joined: String = String::new();
    let mut i: usize = 0;
    assert(texts(list@).take(0) =~= Seq::empty());
    while i < list.len()
        invariant
            i <= list.len(),
            joined@ == join(texts(list@).take(i as int), between@),
        decreases list.len() - i,
    {
        let ghost before = joined@;
        if i > 0 {
            joined.append(between);
        }
        joined.append(list[i].as_str());
        assert(texts(list@).take(i + 1).drop_last() =~= texts(list@).take(i as int));
        assert(texts(list@).take(i + 1).last() == list@[i as int]@);
        assert(joined@ =~= join(texts(list@).take(i + 1), between@));
        i = i + 1;
    }
    assert(texts(list@).take(list@.len() as int) =~= texts(list@));
    joined
}

/// Two texts, one after the other.
pub fn join_two(a: &str, b: &str) -> (joined: String)
    ensures
        joined@ == a@ + b@,
{
    let mut joined: String = String::new();
    joined.append(a);
    joined.append(b);
    assert(joined@ =~= a@ + b@);
    joined
}

// Letter case beyond ASCII.

/// The lower case of a text, as `str::to_lowercase` gives it.
pub uninterp spec fn lowercase(s: Seq<char>) -> Seq<char>;

/// The lower case of a character, as `char::to_lowercase` gives it.
pub uninterp spec fn char_lowercase(c: char) -> Seq<char>;

/// Whether a character is a letter or a number, as `char::is_alphanumeric` tells.
pub uninterp spec fn alphanumeric(c: char) -> bool;

/// The ASCII characters.
pub open spec fn is_ascii_char(c: char) -> bool {
    (c as int) < 128
}

/// `str::to_lowercase` maps a text to its Unicode lower case, which depends on the text alone. Of
/// an ASCII text only the capitals change.
pub assume_specification[ str::to_lowercase ](s: &str) -> (lower: String)
    ensures
        lower@ == lowercase(s@),
        (forall|i: int| 0 <= i < s@.len() ==> is_ascii_char(#[trigger] s@[i])) ==> lower@
            == ascii_lowered(s@),
;

/// `char::is_alphanumeric` tells whether a character is alphabetic or numeric in Unicode, which
/// depends on the character alone. Of the ASCII characters these are the letters and the digits.
pub assume_specification[ char::is_alphanumeric ](c: char) -> (yes: bool)
    ensures
        yes == alphanumeric(c),
        is_ascii_char(c) ==> yes == is_ascii_alnum(c),
;

/// `char::to_lowercase` gives the Unicode lower case of a character, one character or more, which
/// depends on the character alone. Of the ASCII characters only the capitals change.
#[verifier::external_body]
pub(crate) fn lowercase_of(c: char) -> (lower: Vec<char>)
    ensures
        lower@ == char_lowercase(c),
        lower@.len() >= 1,
        is_ascii_char(c) ==> lower@ == seq![ascii_lower(c)],
{
    c.to_lowercase().collect()
}

// What these functions give.

/// The ASCII letters and digits, and what a letter is in small.
pub proof fn law_ascii_letters_and_digits(c: char)
    ensures
        is_ascii_alnum(c) <==> (48 <= c as int <= 57 || 65 <= c as int <= 90 || 97 <= c as int <= 122),
        65 <= c as int <= 90 ==> ascii_lower(c) as int == c as int + 32,
        !(65 <= c as int <= 90) ==> ascii_lower(c) == c,
        is_digit(c) <==> 48 <= c as int <= 57,
        is_ascii_char(c) <==> (c as int) < 128,
{
}

/// A text in small letters is as long as it was, and each of its characters is that of its place in
/// small.
pub proof fn law_small_letters_stay_in_place(s: Seq<char>, i: int)
    requires
        0 <= i < s.len(),
    ensures
        ascii_lowered(s).len() == s.len(),
        'A' <= s[i] <= 'Z' ==> ascii_lowered(s)[i] as int == s[i] as int + 32,
        !('A' <= s[i] <= 'Z') ==> ascii_lowered(s)[i] == s[i],
        ascii_lowered(ascii_lowered(s)) == ascii_lowered(s),
{
    assert(ascii_lowered(ascii_lowered(s)) =~= ascii_lowered(s));
}

/// White space is blank, tabulators and line ends are, and no letter, digit or other mark of ASCII is.
pub proof fn law_white_space(c: char)
    ensures
        c == ' ' || c == '\t' || c == '\n' || c == '\r' || c as int == 0x3000 ==> is_white(c),
        33 <= c as int <= 126 ==> !is_white(c),
        0x4e00 <= c as int <= 0x9fff ==> !is_white(c),
{
}

/// A text is cut after so many characters where it has more, and is whole otherwise.
pub proof fn law_prefixes_are_starts(s: Seq<char>, max: nat)
    ensures
        s.len() <= max ==> prefix(s, max) == s,
        s.len() > max ==> prefix(s, max).len() == max,
        forall|i: int| 0 <= i < prefix(s, max).len() ==> #[trigger] prefix(s, max)[i] == s[i],
{
}

/// Texts are joined in order, with the text between any two of them and none at the ends.
pub proof fn law_joined_texts(list: Seq<Seq<char>>, last: Seq<char>, between: Seq<char>)
    ensures
        join(Seq::empty(), between) == Seq::<char>::empty(),
        join(seq![last], between) == last,
        list.len() > 0 ==> join(list.push(last), between) == join(list, between) + between + last,
{
    assert(list.push(last).drop_last() =~= list);
}

/// What stands before and after what was stripped, and that nothing is stripped that is not there.
pub proof fn law_stripped_texts(s: Seq<char>, p: Seq<char>)
    ensures
        strip_prefix(p + s, p) == Some(s),
        strip_suffix(s + p, p) == Some(s),
        strip_prefix(s, p) matches Some(rest) ==> s == p + rest,
        strip_suffix(s, p) matches Some(rest) ==> s == rest + p,
{
    assert((p + s).subrange(0, p.len() as int) =~= p);
    assert((p + s).skip(p.len() as int) =~= s);
    assert((s + p).subrange(s.len() as int, (s.len() + p.len()) as int) =~= p);
    assert((s + p).take(s.len() as int) =~= s);
    if let Some(rest) = strip_prefix(s, p) {
        assert(s =~= p + rest) by {
            assert(s.subrange(0, p.len() as int) == p);
        }
    }
    if let Some(rest) = strip_suffix(s, p) {
        assert(s =~= rest + p) by {
            assert(s.subrange(s.len() - p.len(), s.len() as int) == p);
        }
    }
}

/// A text holds every one of its parts, and what it holds is one of its parts.
pub proof fn law_texts_hold_their_parts(a: Seq<char>, p: Seq<char>, b: Seq<char>, s: Seq<char>)
    ensures
        contains(a + p + b, p),
        starts_with(p + b, p),
        ends_with(a + p, p),
        contains(s, p) ==> exists|x: Seq<char>, y: Seq<char>| s == #[trigger] (x + p + y),
{
    lemma_contains_middle(a, p, b);
    assert((p + b).subrange(0, p.len() as int) =~= p);
    assert((a + p).subrange(a.len() as int, (a.len() + p.len()) as int) =~= p);
    if contains(s, p) {
        let i = choose|i: int| occurs_at(s, p, i);
        let x = s.take(i);
        let y = s.skip(i + p.len());
        assert(s =~= x + p + y) by {
            assert(s.subrange(i, i + p.len()) == p);
        }
    }
}

/// What is found last is the last occurrence, and nothing is found exactly where there is none.
pub proof fn law_last_occurrence_is_found(s: Seq<char>, p: Seq<char>)
    ensures
        match find_last(s, p) {
            Some(i) => occurs_at(s, p, i) && forall|j: int| i < j ==> !occurs_at(s, p, j),
            None => !contains(s, p),
        },
{
    lemma_find_last_from(s, p, s.len() - p.len());
}

proof fn lemma_find_last_from(s: Seq<char>, p: Seq<char>, from: int)
    ensures
        match find_last_from(s, p, from) {
            Some(i) => i <= from && occurs_at(s, p, i) && forall|j: int|
                i < j <= from ==> !occurs_at(s, p, j),
            None => forall|j: int| j <= from ==> !occurs_at(s, p, j),
        },
    decreases from + 1,
{
    if from >= 0 && !occurs_at(s, p, from) {
        lemma_find_last_from(s, p, from - 1);
    }
}

/// A line feed parts lines, with or without a carriage return before it, and what follows it is cut
/// into lines on its own. A text without line feeds is one line.
pub proof fn law_lines_are_parted_by_feeds(line: Seq<char>, rest: Seq<char>)
    requires
        !line.contains('\n'),
    ensures
        line.len() > 0 ==> lines(line) == seq![line],
        lines(Seq::empty()) == Seq::<Seq<char>>::empty(),
        line.len() == 0 || line.last() != '\r' ==> lines(line.push('\n') + rest) == seq![line] + lines(
            rest,
        ),
        lines(line.push('\r').push('\n') + rest) == seq![line] + lines(rest),
{
    assert forall|i: int| 0 <= i < line.len() implies line[i] != '\n' by {
        if line[i] == '\n' {
            assert(line.contains('\n'));
        }
    }
    lemma_len_before(line, '\n');
    let n = len_before(line, '\n');
    assert(n == line.len()) by {
        if n < line.len() {
            assert(line[n as int] == '\n');
        }
    }
    let one = line.push('\n') + rest;
    lemma_feed_at(one, line.len() as int);
    assert(one.take(line.len() as int) =~= line);
    assert(one.skip(line.len() as int + 1) =~= rest);
    let two = line.push('\r').push('\n') + rest;
    lemma_feed_at(two, line.len() as int + 1);
    assert(two.take(line.len() as int + 1) =~= line.push('\r'));
    assert(line.push('\r').drop_last() =~= line);
    assert(two.skip(line.len() as int + 2) =~= rest);
}

proof fn lemma_feed_at(s: Seq<char>, n: int)
    requires
        0 <= n < s.len(),
        s[n] == '\n',
        forall|i: int| 0 <= i < n ==> s[i] != '\n',
    ensures
        len_before(s, '\n') == n,
{
    lemma_len_before(s, '\n');
}

/// White space parts words, and nothing else does: the words of a text around white space are those
/// of its parts, and a text without white space is one word.
pub proof fn law_words_are_parted_by_white_space(a: Seq<char>, c: char, b: Seq<char>)
    requires
        is_white(c),
        forall|i: int| 0 <= i < a.len() ==> !is_white(#[trigger] a[i]),
    ensures
        a.len() > 0 ==> words(a) == seq![a],
        words(a.push(c) + b) == words(a) + words(b),
        words(Seq::empty()) == Seq::<Seq<char>>::empty(),
{
    let s = a.push(c) + b;
    lemma_word_run(a);
    assert(trim_start(Seq::<char>::empty()).len() == 0);
    if a.len() > 0 {
        assert(!is_white(a[0]));
        assert(a.take(a.len() as int) =~= a);
        assert(words(a.skip(a.len() as int)).len() == 0) by {
            assert(a.skip(a.len() as int).len() == 0);
        }
        assert(words(a) =~= seq![a]);
        assert(s[0] == a[0]);
        lemma_word_stops(s, a.len() as int);
        assert(s.take(a.len() as int) =~= a);
        assert(s.skip(a.len() as int).skip(1) =~= b);
        assert(trim_start(s.skip(a.len() as int)) == trim_start(b));
        assert(words(s.skip(a.len() as int)) == words(b));
        assert(words(s) =~= words(a) + words(b));
    } else {
        assert(s[0] == c);
        assert(s.skip(1) =~= b);
        assert(words(s) == words(b));
        assert(words(a) + words(b) =~= words(b));
    }
}

proof fn lemma_word_run(a: Seq<char>)
    requires
        forall|i: int| 0 <= i < a.len() ==> !is_white(#[trigger] a[i]),
    ensures
        word_len(a) == a.len(),
    decreases a.len(),
{
    if a.len() > 0 {
        assert(!is_white(a[0]));
        assert forall|i: int| 0 <= i < a.skip(1).len() implies !is_white(#[trigger] a.skip(1)[i]) by {
            assert(!is_white(a[i + 1]));
        }
        lemma_word_run(a.skip(1));
    }
}

proof fn lemma_word_stops(s: Seq<char>, n: int)
    requires
        0 <= n < s.len(),
        is_white(s[n]),
        forall|i: int| 0 <= i < n ==> !is_white(#[trigger] s[i]),
    ensures
        word_len(s) == n,
    decreases n,
{
    if n > 0 {
        assert(!is_white(s[0]));
        assert forall|i: int| 0 <= i < n - 1 implies !is_white(#[trigger] s.skip(1)[i]) by {
            assert(!is_white(s[i + 1]));
        }
        lemma_word_stops(s.skip(1), n - 1);
    }
}

/// A number that is written out is read back as it was, with or without a sign.
pub proof fn law_numbers_are_read_back(n: nat)
    ensures
        is_digits(decimal(n)),
        digits_value(decimal(n)) == n,
        unsigned_value(decimal(n)) == Some(n as int),
        signed_value(decimal(n)) == Some(n as int),
        signed_value(seq!['-'] + decimal(n)) == Some(-(n as int)),
        unsigned_value(seq!['+'] + decimal(n)) == Some(n as int),
        unsigned_value(seq!['-'] + decimal(n)) is None,
{
    lemma_decimal(n);
    let s = decimal(n);
    assert(is_digit(s[0]));
    assert((seq!['-'] + s).skip(1) =~= s);
    assert((seq!['+'] + s).skip(1) =~= s);
    assert((seq!['-'] + s)[0] == '-');
}

proof fn lemma_decimal(n: nat)
    ensures
        is_digits(decimal(n)),
        digits_value(decimal(n)) == n,
    decreases n,
{
    if n < 10 {
        assert(decimal(n) =~= seq![digit(n)]);
        assert(decimal(n).drop_last().len() == 0);
        assert(digits_value(decimal(n).drop_last()) == 0);
    } else {
        lemma_decimal(n / 10);
        assert(decimal(n) == decimal(n / 10).push(digit(n % 10)));
        assert(decimal(n).drop_last() =~= decimal(n / 10));
        assert forall|i: int| 0 <= i < decimal(n).len() implies is_digit(#[trigger] decimal(n)[i]) by {
            if i < decimal(n / 10).len() {
                assert(decimal(n)[i] == decimal(n / 10)[i]);
            }
        }
    }
}

/// A number in any base is that of its digits, the last one telling what is left over.
pub proof fn law_digits_make_up_the_number(n: nat, base: nat)
    requires
        2 <= base <= 16,
    ensures
        n < base ==> numeral(n, base) == seq![digit(n)],
        n >= base ==> numeral(n, base) == numeral(n / base, base).push(digit(n % base)),
        n < 10 ==> digit(n) as int == '0' as int + n,
        10 <= n < 16 ==> digit(n) as int == 'a' as int + n - 10,
{
}

/// A text is found behind another one that lacks its first character.
pub proof fn lemma_find_behind(a: Seq<char>, p: Seq<char>, b: Seq<char>)
    requires
        p.len() > 0,
        !a.contains(p[0]),
    ensures
        find(a + p + b, p) == Some(a.len() as int),
        find(a, p) is None,
{
    let s = a + p + b;
    let n = a.len() as int;
    assert(occurs_at(s, p, n)) by {
        assert(s.subrange(n, n + p.len()) =~= p);
    }
    assert forall|j: int| 0 <= j < n implies !occurs_at(s, p, j) by {
        if occurs_at(s, p, j) {
            let part = s.subrange(j, j + p.len());
            assert(part == p);
            assert(part[0] == s[j]);
            assert(a[j] == p[0]);
            assert(a.contains(p[0]));
        }
    }
    lemma_find_from(s, p, 0);
    let found = find(s, p);
    assert(found is Some);
    assert(found->0 == n);
    lemma_find_from(a, p, 0);
    if let Some(j) = find(a, p) {
        assert(a.subrange(j, j + p.len())[0] == a[j]);
        assert(a.contains(p[0]));
    }
}

/// A text is trimmed to what stands between the white space at its ends.
pub proof fn law_trimmed_texts(before: Seq<char>, kept: Seq<char>, after: Seq<char>)
    requires
        is_blank(before),
        is_blank(after),
        kept.len() > 0,
        !is_white(kept[0]),
        !is_white(kept.last()),
    ensures
        trim(before + kept + after) == kept,
        trim(before) == Seq::<char>::empty(),
{
    let s = before + kept + after;
    let n = lead(s);
    let t = trim(s);
    lemma_trim_part(s);
    lemma_trim(s);
    lemma_trim(before);
    assert(s[before.len() as int] == kept[0]);
    let end = (before.len() + kept.len()) as int;
    assert(s[end - 1] == kept.last());
    assert(!is_white(s[before.len() as int]) && !is_white(s[end - 1]));
    assert(t.len() > 0);
    if n < before.len() {
        assert(s[n] == before[n]);
        assert(t[0] == s[n]);
    }
    if n + t.len() > end {
        let last = n + t.len() - 1;
        assert(t.last() == s[last]);
        assert(s[last] == after[last - end]);
    }
    assert(n == before.len() && n + t.len() == end);
    assert(t =~= kept);
    assert(trim(before) =~= Seq::<char>::empty());
}

/// White space is what separates words, lines and paragraphs in any script, and nothing else.
pub proof fn law_all_white_space(c: char)
    ensures
        is_white(c) <==> {
            ||| 9 <= c as int <= 13
            ||| c as int == 32
            ||| c as int == 133
            ||| c as int == 160
            ||| c as int == 5760
            ||| 8192 <= c as int <= 8202
            ||| c as int == 8232
            ||| c as int == 8233
            ||| c as int == 8239
            ||| c as int == 8287
            ||| c as int == 12288
        },
{
}

/// A list of texts is the list of what they hold, each in its place.
pub proof fn law_lists_hold_their_texts(list: Seq<String>, lines: Seq<Vec<char>>, i: int)
    ensures
        texts(list).len() == list.len(),
        0 <= i < list.len() ==> texts(list)[i] == list[i]@,
        views(lines).len() == lines.len(),
        0 <= i < lines.len() ==> views(lines)[i] == lines[i]@,
{
}

/// A number is made of digits alone, with a sign before them at most; each further digit makes it ten
/// times as large and adds itself.
pub proof fn law_what_is_a_number(s: Seq<char>, c: char, i: int)
    ensures
        unsigned_value(s) is Some && 0 <= i < s.len() ==> 48 <= s[i] as int <= 57 || (i == 0 && s[0]
            == '+' && s.len() > 1),
        signed_value(s) is Some && 0 <= i < s.len() ==> 48 <= s[i] as int <= 57 || (i == 0 && (s[0]
            == '+' || s[0] == '-') && s.len() > 1),
        unsigned_value(Seq::empty()) is None && signed_value(Seq::empty()) is None,
        is_digits(s) ==> unsigned_value(s) == Some(digits_value(s)),
        is_digits(s) && 48 <= c as int <= 57 ==> unsigned_value(s.push(c)) == Some(
            10 * digits_value(s) + (c as int - 48),
        ),
{
    if unsigned_value(s) is Some && 0 <= i < s.len() {
        if s[0] == '+' {
            assert(s.skip(1).len() > 0);
            if i > 0 {
                assert(s.skip(1)[i - 1] == s[i]);
            }
        }
    }
    if s.len() > 0 && s[0] == '-' && is_digits(s.skip(1)) && 0 < i < s.len() {
        assert(s.skip(1)[i - 1] == s[i]);
    }
    if is_digits(s) {
        assert(is_digit(s[0]));
        if 48 <= c as int <= 57 {
            let t = s.push(c);
            assert(t[0] == s[0]);
            assert forall|k: int| 0 <= k < t.len() implies is_digit(#[trigger] t[k]) by {
                if k < s.len() {
                    assert(t[k] == s[k]);
                    assert(is_digit(s[k]));
                }
            }
            assert(t.drop_last() =~= s);
        }
    }
}

} // verus!
