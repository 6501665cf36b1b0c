//! Text as a sequence of characters: the searches and tests that the error rules are made of.
use vstd::prelude::*;
use vstd::slice::slice_subrange;

verus! {

/// `pattern` stands in `text` at position `at`.
pub open spec fn occurs_at(text: Seq<char>, pattern: Seq<char>, at: int) -> bool {
    &&& 0 <= at
    &&& at + pattern.len() <= text.len()
    &&& text.subrange(at, at + pattern.len()) == pattern
}

/// `pattern` stands somewhere in `text`.
pub open spec fn contains_text(text: Seq<char>, pattern: Seq<char>) -> bool {
    exists|at: int| occurs_at(text, pattern, at)
}

/// `at` is the first position at which `pattern` stands in `text`.
pub open spec fn first_at(text: Seq<char>, pattern: Seq<char>, at: int) -> bool {
    &&& occurs_at(text, pattern, at)
    &&& forall|earlier: int| earlier < at ==> !occurs_at(text, pattern, earlier)
}

/// What stands before and after the first occurrence of `separator`, if it occurs.
pub open spec fn split_once_text(text: Seq<char>, separator: Seq<char>) -> Option<
    (Seq<char>, Seq<char>),
> {
    if contains_text(text, separator) {
        let at = choose|at: int| first_at(text, separator, at);
        Some((text.take(at), text.skip(at + separator.len())))
    } else {
        None
    }
}

/// What follows `prefix`, if `text` begins with it.
pub open spec fn after_prefix(text: Seq<char>, prefix: Seq<char>) -> Option<Seq<char>> {
    if prefix.is_prefix_of(text) {
        Some(text.skip(prefix.len() as int))
    } else {
        None
    }
}

/// The characters with the Unicode property `White_Space`.
pub open spec fn white_space(c: char) -> bool {
    ||| '\u{9}' <= c <= '\u{d}'
    ||| c == ' '
    ||| c == '\u{85}'
    ||| c == '\u{a0}'
    ||| c == '\u{1680}'
    ||| '\u{2000}' <= c <= '\u{200a}'
    ||| c == '\u{2028}'
    ||| c == '\u{2029}'
    ||| c == '\u{202f}'
    ||| c == '\u{205f}'
    ||| c == '\u{3000}'
}

/// `text` without the white space at its end.
pub open spec fn trim_end(text: Seq<char>) -> Seq<char>
    decreases text.len(),
{
    if text.len() > 0 && white_space(text.last()) {
        trim_end(text.drop_last())
    } else {
        text
    }
}

/// `text` without the white space at its start.
pub open spec fn trim_start(text: Seq<char>) -> Seq<char>
    decreases text.len(),
{
    if text.len() > 0 && white_space(text.first()) {
        trim_start(text.drop_first())
    } else {
        text
    }
}

/// `text` without the white space at either end.
pub open spec fn trimmed(text: Seq<char>) -> Seq<char> {
    trim_end(trim_start(text))
}

/// The character with an ASCII capital replaced by its small letter.
pub open spec fn ascii_lower(c: char) -> char {
    if 'A' <= c <= 'Z' {
        ((c as u32) + 32) as char
    } else {
        c
    }
}

/// The two texts are the same but for the case of ASCII letters.
pub open spec fn same_ignoring_ascii_case(a: Seq<char>, b: Seq<char>) -> bool {
    &&& a.len() == b.len()
    &&& forall|i: int| 0 <= i < a.len() ==> ascii_lower(#[trigger] a[i]) == ascii_lower(b[i])
}

pub open spec fn decimal_digit(c: char) -> bool {
    '0' <= c <= '9'
}

/// At least one character, and each a decimal digit.
pub open spec fn all_digits(text: Seq<char>) -> bool {
    &&& text.len() > 0
    &&& forall|i: int| 0 <= i < text.len() ==> decimal_digit(#[trigger] text[i])
}

/// The number that a row of decimal digits writes.
pub open spec fn decimal_value(digits: Seq<char>) -> nat
    decreases digits.len(),
{
    if digits.len() == 0 {
        0
    } else {
        decimal_value(digits.drop_last()) * 10 + ((digits.last() as int) - ('0' as int)) as nat
    }
}

/// The text writes a `u64`: digits, after at most one plus sign, whose value fits.
pub open spec fn writes_u64(text: Seq<char>) -> bool {
    let digits = if text.len() > 0 && text[0] == '+' {
        text.skip(1)
    } else {
        text
    };
    all_digits(digits) && decimal_value(digits) <= u64::MAX
}

/// The characters of `text`.
pub fn chars_of(text: &str) -> (chars: Vec<char>)
    ensures
        chars@ == text@,
{
    let mut chars: Vec<char> = Vec::new();
    for c in it: text.chars()
        invariant
            chars@ == it.seq().take(it.index()),
            it.seq() == text@,
    {
        chars.push(c);
    }
    chars
}

/// There is at most one first position.
pub proof fn lemma_first_at_is_unique(text: Seq<char>, pattern: Seq<char>, a: int, b: int)
    requires
        first_at(text, pattern, a),
        first_at(text, pattern, b),
    ensures
        a == b,
{
}

/// Splitting at a known first position.
pub proof fn lemma_split_at_first(text: Seq<char>, separator: Seq<char>, at: int)
    requires
        first_at(text, separator, at),
    ensures
        split_once_text(text, separator) == Some(
            (text.take(at), text.skip(at + separator.len())),
        ),
{
    let chosen = choose|at: int| first_at(text, separator, at);
    lemma_first_at_is_unique(text, separator, chosen, at);
}

/// Whether `pattern` stands in `text` at `at`.
fn stands_at(text: &[char], pattern: &[char], at: usize) -> (result: bool)
    ensures
        result == occurs_at(text@, pattern@, at as int),
{
    if at > text.len() || pattern.len() > text.len() - at {
        return false;
    }
    let mut i: usize = 0;
    while i < pattern.len()
        invariant
            i <= pattern.len(),
            at + pattern.len() <= text.len(),
            forall|j: int| 0 <= j < i ==> text@[at + j] == #[trigger] pattern@[j],
        decreases pattern.len() - i,
    {
        if text[at + i] != pattern[i] {
            proof {
                let window = text@.subrange(at as int, at + pattern@.len());
                assert(window[i as int] == text@[at + i]);
            }
            return false;
        }
        i += 1;
    }
    assert(text@.subrange(at as int, at + pattern@.len()) =~= pattern@);
    true
}

/// The first position at which `pattern` stands in `text`.
pub fn find(text: &[char], pattern: &[char]) -> (found: Option<usize>)
    ensures
        match found {
            Some(at) => first_at(text@, pattern@, at as int),
            None => !contains_text(text@, pattern@),
        },
{
    let mut at: usize = 0;
    loop
        invariant
            at <= text.len(),
            forall|earlier: int| earlier < at ==> !occurs_at(text@, pattern@, earlier),
        decreases text.len() - at,
    {
        if stands_at(text, pattern, at) {
            return Some(at);
        }
        if at == text.len() {
            assert(forall|other: int| !occurs_at(text@, pattern@, other));
            return None;
        }
        at += 1;
    }
}

/// Whether `pattern` stands somewhere in `text`.
pub fn contains(text: &str, pattern: &str) -> (result: bool)
    ensures
        result == contains_text(text@, pattern@),
{
    let text_chars = chars_of(text);
    let pattern_chars = chars_of(pattern);
    match find(text_chars.as_slice(), pattern_chars.as_slice()) {
        Some(at) => {
            assert(occurs_at(text@, pattern@, at as int));
            true
        },
        None => false,
    }
}

/// What stands before and after the first `separator` in `text`.
pub fn split_once<'a>(text: &'a [char], separator: &str) -> (parts: Option<
    (&'a [char], &'a [char]),
>)
    ensures
        match (parts, split_once_text(text@, separator@)) {
            (Some(parts), Some(expected)) => parts.0@ == expected.0 && parts.1@ == expected.1,
            (None, None) => true,
            _ => false,
        },
{
    let separator_chars = chars_of(separator);
    match find(text, separator_chars.as_slice()) {
        Some(at) => {
            proof {
                lemma_split_at_first(text@, separator@, at as int);
            }
            let length: usize = text.len();
            assert(at + separator_chars.len() <= length);
            let before = slice_subrange(text, 0, at);
            let after = slice_subrange(text, at + separator_chars.len(), length);
            assert(before@ =~= text@.take(at as int));
            assert(after@ =~= text@.skip(at + separator@.len()));
            Some((before, after))
        },
        None => None,
    }
}

/// What follows `prefix` at the start of `text`.
pub fn strip_prefix<'a>(text: &'a [char], prefix: &str) -> (rest: Option<&'a [char]>)
    ensures
        match (rest, after_prefix(text@, prefix@)) {
            (Some(rest), Some(expected)) => rest@ == expected,
            (None, None) => true,
            _ => false,
        },
{
    let prefix_chars = chars_of(prefix);
    if stands_at(text, prefix_chars.as_slice(), 0) {
        assert(prefix@ =~= text@.subrange(0, prefix@.len() as int));
        let rest = slice_subrange(text, prefix_chars.len(), text.len());
        assert(rest@ =~= text@.skip(prefix@.len() as int));
        Some(rest)
    } else {
        None
    }
}

/// Whether `c` is white space.
pub fn is_white_space(c: char) -> (result: bool)
    ensures
        result == white_space(c),
{
    ('\u{9}' <= c && c <= '\u{d}') || c == ' ' || c == '\u{85}' || c == '\u{a0}' || c == '\u{1680}'
        || ('\u{2000}' <= c && c <= '\u{200a}') || c == '\u{2028}' || c == '\u{2029}'
        || c == '\u{202f}' || c == '\u{205f}' || c == '\u{3000}'
}

/// `text` without the white space at either end.
pub fn trim<'a>(text: &'a [char]) -> (result: &'a [char])
    ensures
        result@ == trimmed(text@),
{
    let mut start: usize = 0;
    assert(text@.skip(0) =~= text@);
    while start < text.len() && is_white_space(text[start])
        invariant
            start <= text.len(),
            trim_start(text@) == trim_start(text@.skip(start as int)),
        decreases text.len() - start,
    {
        assert(text@.skip(start as int).drop_first() =~= text@.skip(start + 1));
        start += 1;
    }
    let ghost body = text@.skip(start as int);
    assert(trim_start(text@) == body);
    let mut end: usize = text.len();
    assert(body.take(end - start) =~= body);
    while start < end && is_white_space(text[end - 1])
        invariant
            start <= end <= text.len(),
            body == text@.skip(start as int),
            trim_end(body) == trim_end(body.take(end - start)),
        decreases end - start,
    {
        assert(body.take(end - start).drop_last() =~= body.take(end - start - 1));
        end -= 1;
    }
    let result = slice_subrange(text, start, end);
    assert(result@ =~= body.take(end - start));
    result
}

/// `c` with an ASCII capital replaced by its small letter.
fn to_ascii_lower(c: char) -> (lower: char)
    ensures
        lower == ascii_lower(c),
{
    if 'A' <= c && c <= 'Z' {
        let code: u8 = c as u8;
        (code + 32) as char
    } else {
        c
    }
}

/// Whether the two texts are the same but for the case of ASCII letters.
pub fn eq_ignore_ascii_case(a: &[char], b: &str) -> (result: bool)
    ensures
        result == same_ignoring_ascii_case(a@, b@),
{
    let other = chars_of(b);
    if a.len() != other.len() {
        return false;
    }
    let mut i: usize = 0;
    while i < a.len()
        invariant
            i <= a.len() == other.len(),
            other@ == b@,
            forall|j: int| 0 <= j < i ==> ascii_lower(#[trigger] a@[j]) == ascii_lower(b@[j]),
        decreases a.len() - i,
    {
        if to_ascii_lower(a[i]) != to_ascii_lower(other[i]) {
            return false;
        }
        i += 1;
    }
    true
}

/// A longer row of digits writes no smaller number.
proof fn lemma_decimal_value_grows(digits: Seq<char>, n: int)
    requires
        0 <= n <= digits.len(),
        forall|i: int| 0 <= i < digits.len() ==> decimal_digit(#[trigger] digits[i]),
    ensures
        decimal_value(digits.take(n)) <= decimal_value(digits),
    decreases digits.len() - n,
{
    if n == digits.len() {
        assert(digits.take(n) =~= digits);
    } else {
        assert(digits.take(n + 1).drop_last() =~= digits.take(n));
        lemma_decimal_value_grows(digits, n + 1);
    }
}

/// Whether the text writes a `u64`.
pub fn parses_as_u64(text: &[char]) -> (result: bool)
    ensures
        result == writes_u64(text@),
{
    let start: usize = if text.len() > 0 && text[0] == '+' {
        1
    } else {
        0
    };
    if start == text.len() {
        return false;
    }
    let ghost digits = text@.skip(start as int);
    assert(start == 0 ==> digits =~= text@);
    let mut value: u64 = 0;
    let mut i: usize = start;
    while i < text.len()
        invariant
            start <= i <= text.len(),
            digits == text@.skip(start as int),
            writes_u64(text@) == (all_digits(digits) && decimal_value(digits) <= u64::MAX),
            forall|j: int| 0 <= j < i - start ==> decimal_digit(#[trigger] digits[j]),
            value == decimal_value(digits.take(i - start)),
        decreases text.len() - i,
    {
        let c = text[i];
        assert(c == digits[i - start]);
        if !('0' <= c && c <= '9') {
            return false;
        }
        let digit: u64 = (c as u64) - 48;
        let ghost longer = digits.take(i - start + 1);
        assert(longer.drop_last() =~= digits.take(i - start));
        assert(decimal_value(longer) == value * 10 + digit);
        if value > (u64::MAX - digit) / 10 {
            proof {
                if all_digits(digits) {
                    lemma_decimal_value_grows(digits, i - start + 1);
                }
            }
            return false;
        }
        value = value * 10 + digit;
        i += 1;
    }
    assert(digits.take(i - start) =~= digits);
    true
}

} // verus!
