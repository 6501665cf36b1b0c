//! What the searches and tests on text find, told from the texts themselves.
use crate::text::{
    after_prefix, all_digits, ascii_lower, contains_text, decimal_digit, decimal_value, first_at,
    lemma_split_at_first, occurs_at, same_ignoring_ascii_case, split_once_text, trimmed,
    white_space, writes_u64,
};
use vstd::arithmetic::power::{lemma_pow0, lemma_pow1, lemma_pow_adds, pow};
use vstd::prelude::*;

verus! {

/// A text contains a pattern where it can be written as something, the pattern, and something.
pub proof fn law_contained_text_has_a_before_and_an_after(text: Seq<char>, pattern: Seq<char>)
    ensures
        contains_text(text, pattern) <==> exists|before: Seq<char>, after: Seq<char>|
            text == #[trigger] (before + pattern + after),
{
    if contains_text(text, pattern) {
        let at = choose|at: int| occurs_at(text, pattern, at);
        let before = text.take(at);
        let after = text.skip(at + pattern.len());
        assert forall|i: int| 0 <= i < pattern.len() implies text[at + i] == pattern[i] by {
            assert(text.subrange(at, at + pattern.len())[i] == text[at + i]);
        }
        assert(text =~= before + pattern + after);
    }
    if exists|before: Seq<char>, after: Seq<char>| text == #[trigger] (before + pattern + after) {
        let (before, after) = choose|before: Seq<char>, after: Seq<char>|
            text == #[trigger] (before + pattern + after);
        let at = before.len() as int;
        assert(text.subrange(at, at + pattern.len()) =~= pattern);
        assert(occurs_at(text, pattern, at));
    }
}

/// A pattern stands at a position where that many characters stand before it and the rest behind
/// it; the first position is the one before which there is no other.
pub proof fn law_positions_count_what_stands_before(
    text: Seq<char>,
    pattern: Seq<char>,
    at: int,
)
    ensures
        occurs_at(text, pattern, at) <==> exists|before: Seq<char>, after: Seq<char>|
            text == #[trigger] (before + pattern + after) && before.len() == at,
        first_at(text, pattern, at) <==> occurs_at(text, pattern, at) && forall|
            before: Seq<char>,
            after: Seq<char>,
        |
            text == #[trigger] (before + pattern + after) ==> at <= before.len(),
{
    if occurs_at(text, pattern, at) {
        assert forall|i: int| 0 <= i < pattern.len() implies text[at + i] == pattern[i] by {
            assert(text.subrange(at, at + pattern.len())[i] == text[at + i]);
        }
        assert(text =~= text.take(at) + pattern + text.skip(at + pattern.len()));
    }
    assert forall|before: Seq<char>, after: Seq<char>|
        text == #[trigger] (before + pattern + after) implies occurs_at(
        text,
        pattern,
        before.len() as int,
    ) by {
        let there = before.len() as int;
        assert(text.subrange(there, there + pattern.len()) =~= pattern);
    }
    assert forall|earlier: int| occurs_at(text, pattern, earlier) implies text == #[trigger] (
    text.take(earlier) + pattern + text.skip(earlier + pattern.len())) by {
        assert forall|i: int| 0 <= i < pattern.len() implies text[earlier + i] == pattern[i] by {
            assert(text.subrange(earlier, earlier + pattern.len())[i] == text[earlier + i]);
        }
        assert(text =~= text.take(earlier) + pattern + text.skip(earlier + pattern.len()));
    }
    if occurs_at(text, pattern, at) && forall|before: Seq<char>, after: Seq<char>|
        text == #[trigger] (before + pattern + after) ==> at <= before.len() {
        assert forall|earlier: int| earlier < at implies !occurs_at(text, pattern, earlier) by {
            if occurs_at(text, pattern, earlier) {
                let before = text.take(earlier);
                assert(text == before + pattern + text.skip(earlier + pattern.len()));
                assert(before.len() == earlier);
            }
        }
    }
}

/// Where a pattern occurs, it has a first occurrence.
proof fn lemma_first_exists(text: Seq<char>, pattern: Seq<char>, at: int)
    requires
        occurs_at(text, pattern, at),
    ensures
        exists|first: int| first_at(text, pattern, first),
    decreases at,
{
    if exists|earlier: int| earlier < at && occurs_at(text, pattern, earlier) {
        let earlier = choose|earlier: int| earlier < at && occurs_at(text, pattern, earlier);
        lemma_first_exists(text, pattern, earlier);
    } else {
        assert(first_at(text, pattern, at));
    }
}

/// A text is split where it contains the separator, and at its first occurrence: the parts and the
/// separator make up the text again, and no shorter part stands before a separator.
pub proof fn law_split_is_at_the_first_separator(text: Seq<char>, separator: Seq<char>)
    ensures
        split_once_text(text, separator) is None <==> !contains_text(text, separator),
        split_once_text(text, separator) matches Some((before, after)) ==> {
            &&& text == before + separator + after
            &&& forall|shorter: Seq<char>, longer: Seq<char>|
                text == #[trigger] (shorter + separator + longer) ==> before.len() <= shorter.len()
        },
{
    if contains_text(text, separator) {
        let some = choose|at: int| occurs_at(text, separator, at);
        lemma_first_exists(text, separator, some);
        let at = choose|at: int| first_at(text, separator, at);
        lemma_split_at_first(text, separator, at);
        assert forall|i: int| 0 <= i < separator.len() implies text[at + i] == separator[i] by {
            assert(text.subrange(at, at + separator.len())[i] == text[at + i]);
        }
        assert(text =~= text.take(at) + separator + text.skip(at + separator.len()));
        assert forall|shorter: Seq<char>, longer: Seq<char>|
            text == #[trigger] (shorter + separator + longer) implies at <= shorter.len() by {
            let there = shorter.len() as int;
            assert(text.subrange(there, there + separator.len()) =~= separator);
            assert(occurs_at(text, separator, there));
        }
    }
}

/// What follows a prefix is what has to be put behind it to get the text.
pub proof fn law_prefix_and_rest_make_up_the_text(
    text: Seq<char>,
    prefix: Seq<char>,
    rest: Seq<char>,
)
    ensures
        after_prefix(text, prefix) == Some(rest) <==> text == prefix + rest,
{
    if text == prefix + rest {
        assert(prefix =~= text.subrange(0, prefix.len() as int));
        assert(text.skip(prefix.len() as int) =~= rest);
    }
    if after_prefix(text, prefix) == Some(rest) {
        assert forall|i: int| 0 <= i < prefix.len() implies text[i] == prefix[i] by {
            assert(text.subrange(0, prefix.len() as int)[i] == text[i]);
        }
        assert(text =~= prefix + rest);
    }
}

/// The white-space characters by their code points.
pub proof fn law_white_space_by_code_point(c: char)
    ensures
        white_space(c) <==> seq![
            0x09u32, 0x0a, 0x0b, 0x0c, 0x0d, 0x20, 0x85, 0xa0, 0x1680, 0x2000, 0x2001, 0x2002,
            0x2003, 0x2004, 0x2005, 0x2006, 0x2007, 0x2008, 0x2009, 0x200a, 0x2028, 0x2029, 0x202f,
            0x205f, 0x3000,
        ].contains(c as u32),
{
    let points = seq![
        0x09u32, 0x0a, 0x0b, 0x0c, 0x0d, 0x20, 0x85, 0xa0, 0x1680, 0x2000, 0x2001, 0x2002,
        0x2003, 0x2004, 0x2005, 0x2006, 0x2007, 0x2008, 0x2009, 0x200a, 0x2028, 0x2029, 0x202f,
        0x205f, 0x3000,
    ];
    let point = c as u32;
    if 0x09 <= point <= 0x0d {
        assert(points[point - 0x09] == point);
    } else if 0x2000 <= point <= 0x200a {
        assert(points[9 + point - 0x2000] == point);
    } else {
        assert(points[5] == 0x20 && points[6] == 0x85 && points[7] == 0xa0 && points[8] == 0x1680);
        assert(points[20] == 0x2028 && points[21] == 0x2029 && points[22] == 0x202f);
        assert(points[23] == 0x205f && points[24] == 0x3000);
    }
}

/// A text of nothing but white space is trimmed to nothing.
pub proof fn law_blank_text_is_trimmed_away(text: Seq<char>)
    requires
        forall|i: int| 0 <= i < text.len() ==> white_space(#[trigger] text[i]),
    ensures
        trimmed(text) == Seq::<char>::empty(),
    decreases text.len(),
{
    if text.len() > 0 {
        assert(text.first() == text[0]);
        let shorter = text.drop_first();
        assert forall|i: int| 0 <= i < shorter.len() implies white_space(#[trigger] shorter[i]) by {
            assert(shorter[i] == text[i + 1]);
        }
        law_blank_text_is_trimmed_away(shorter);
    } else {
        assert(trimmed(text) =~= Seq::empty());
    }
}

/// Each of the 26 capital letters has its small letter, and nothing else changes.
pub proof fn law_only_capital_letters_are_lowered(c: char, k: int)
    ensures
        0 <= k < 26 ==> ascii_lower("ABCDEFGHIJKLMNOPQRSTUVWXYZ"@[k])
            == "abcdefghijklmnopqrstuvwxyz"@[k],
        !"ABCDEFGHIJKLMNOPQRSTUVWXYZ"@.contains(c) ==> ascii_lower(c) == c,
{
    reveal_strlit("ABCDEFGHIJKLMNOPQRSTUVWXYZ");
    reveal_strlit("abcdefghijklmnopqrstuvwxyz");
    let capitals = "ABCDEFGHIJKLMNOPQRSTUVWXYZ"@;
    if 'A' <= c <= 'Z' {
        let at = c as int - 'A' as int;
        lemma_capital(at);
        assert(capitals[at] == c);
    }
    if 0 <= k < 26 {
        lemma_capital(k);
    }
}

/// The letters stand in the order of their code points.
proof fn lemma_capital(k: int)
    requires
        0 <= k < 26,
    ensures
        "ABCDEFGHIJKLMNOPQRSTUVWXYZ"@.len() == 26,
        "ABCDEFGHIJKLMNOPQRSTUVWXYZ"@[k] as int == 65 + k,
        "abcdefghijklmnopqrstuvwxyz"@[k] as int == 97 + k,
{
    reveal_strlit("ABCDEFGHIJKLMNOPQRSTUVWXYZ");
    reveal_strlit("abcdefghijklmnopqrstuvwxyz");
}

/// Two texts are the same but for case where they are equally long and each character of one is
/// lowered to what the other's is lowered to.
pub proof fn law_case_is_the_only_difference(a: Seq<char>, b: Seq<char>)
    ensures
        same_ignoring_ascii_case(a, b) <==> a.map_values(|c: char| ascii_lower(c))
            == b.map_values(|c: char| ascii_lower(c)),
{
    let lower = |c: char| ascii_lower(c);
    if same_ignoring_ascii_case(a, b) {
        assert(a.map_values(lower) =~= b.map_values(lower));
    }
    if a.map_values(lower) == b.map_values(lower) {
        assert(a.len() == a.map_values(lower).len());
        assert(b.len() == b.map_values(lower).len());
        assert forall|i: int| 0 <= i < a.len() implies ascii_lower(#[trigger] a[i]) == ascii_lower(
            b[i],
        ) by {
            assert(a.map_values(lower)[i] == b.map_values(lower)[i]);
        }
    }
}

/// The ten digits, and the number that each writes.
pub proof fn law_digits_by_their_value(c: char, k: int)
    ensures
        decimal_digit(c) <==> "0123456789"@.contains(c),
        0 <= k < 10 ==> decimal_value(seq!["0123456789"@[k]]) == k,
{
    reveal_strlit("0123456789");
    let digits = "0123456789"@;
    if decimal_digit(c) {
        assert(digits[c as int - '0' as int] == c);
    }
    if 0 <= k < 10 {
        let one = seq![digits[k]];
        assert(one.drop_last() =~= Seq::empty());
        assert(decimal_value(one.drop_last()) == 0);
        assert(one.last() as int == 48 + k);
    }
}

/// A row of digits writes its first part, moved up by as many places as its second part has, and
/// its second part.
pub proof fn law_digits_are_read_by_place(high: Seq<char>, low: Seq<char>)
    requires
        forall|i: int| 0 <= i < low.len() ==> decimal_digit(#[trigger] low[i]),
    ensures
        decimal_value(high + low) == decimal_value(high) * pow(10, low.len()) + decimal_value(low),
    decreases low.len(),
{
    if low.len() == 0 {
        assert(high + low =~= high);
        lemma_pow0(10);
    } else {
        let shorter = low.drop_last();
        assert((high + low).drop_last() =~= high + shorter);
        assert forall|i: int| 0 <= i < shorter.len() implies decimal_digit(#[trigger] shorter[i]) by {
            assert(shorter[i] == low[i]);
        }
        law_digits_are_read_by_place(high, shorter);
        assert(decimal_digit(low[low.len() - 1]));
        lemma_pow_adds(10, shorter.len(), 1);
        lemma_pow1(10);
        let p = pow(10, shorter.len());
        let h = decimal_value(high) as int;
        assert((h * p) * 10 == h * (p * 10)) by (nonlinear_arith);
    }
}

/// A text writes a `u64` where it is a row of digits, behind a plus sign or not, whose value is not
/// above the largest.
pub proof fn law_written_numbers(text: Seq<char>)
    ensures
        writes_u64(text) <==> exists|digits: Seq<char>|
            {
                &&& text == digits || text == #[trigger] (seq!['+'] + digits)
                &&& digits.len() > 0
                &&& forall|i: int| 0 <= i < digits.len() ==> '0' <= #[trigger] digits[i] <= '9'
                &&& decimal_value(digits) <= 18_446_744_073_709_551_615
            },
{
    if writes_u64(text) {
        if text[0] == '+' {
            let digits = text.skip(1);
            assert(text =~= seq!['+'] + digits);
            assert forall|i: int| 0 <= i < digits.len() implies '0' <= #[trigger] digits[i] <= '9' by {
                assert(decimal_digit(digits[i]));
            }
        } else {
            assert forall|i: int| 0 <= i < text.len() implies '0' <= #[trigger] text[i] <= '9' by {
                assert(decimal_digit(text[i]));
            }
            assert((seq!['+'] + text)[0] == '+');
        }
    }
    if exists|digits: Seq<char>|
        {
            &&& text == digits || text == #[trigger] (seq!['+'] + digits)
            &&& digits.len() > 0
            &&& forall|i: int| 0 <= i < digits.len() ==> '0' <= #[trigger] digits[i] <= '9'
            &&& decimal_value(digits) <= 18_446_744_073_709_551_615
        } {
        let digits = choose|digits: Seq<char>|
            {
                &&& text == digits || text == #[trigger] (seq!['+'] + digits)
                &&& digits.len() > 0
                &&& forall|i: int| 0 <= i < digits.len() ==> '0' <= #[trigger] digits[i] <= '9'
                &&& decimal_value(digits) <= 18_446_744_073_709_551_615
            };
        assert(all_digits(digits));
        if text == digits {
            assert('0' <= digits[0] <= '9');
        } else {
            assert(text[0] == '+');
            assert(text.skip(1) =~= digits);
        }
    }
}

} // verus!
