//! Reading text: characters, whitespace-separated fields, decimal numbers.

use vstd::prelude::*;
use vstd::std_specs::iter::IteratorSpec;

verus! {

/// The characters of `text`, in order.
pub fn to_chars(text: &str) -> (chars: Vec<char>)
    ensures
        chars@ == text@,
{
    let mut chars: Vec<char> = Vec::new();
    for c in it: text.chars()
        invariant
            chars@ == it.seq().take(it.index() as int),
            it.seq() == text@,
    {
        chars.push(c);
        assert(chars@ =~= it.seq().take(it.index() + 1));
    }
    assert(chars@ =~= text@);
    chars
}

/// Whether `c` separates fields: the characters that Unicode classes as
/// white space.
pub open spec fn is_space(c: char) -> bool {
    let code = c as u32;
    ||| 0x09 <= code <= 0x0d
    ||| code == 0x20
    ||| code == 0x85
    ||| code == 0xa0
    ||| code == 0x1680
    ||| 0x2000 <= code <= 0x200a
    ||| code == 0x2028
    ||| code == 0x2029
    ||| code == 0x202f
    ||| code == 0x205f
    ||| code == 0x3000
}

/// Whether `c` separates fields.
pub fn separates(c: char) -> (space: bool)
    ensures
        space == is_space(c),
{
    let code: u32 = c as u32;
    (0x09 <= code && code <= 0x0d) || code == 0x20 || code == 0x85 || code == 0xa0 || code == 0x1680
        || (0x2000 <= code && code <= 0x200a) || code == 0x2028 || code == 0x2029 || code == 0x202f
        || code == 0x205f || code == 0x3000
}

/// The first position at or after `from` that holds no white space, or the
/// length of `text` if there is none.
pub open spec fn field_start(text: Seq<char>, from: int) -> int
    decreases text.len() - from,
{
    if 0 <= from < text.len() && is_space(text[from]) {
        field_start(text, from + 1)
    } else {
        from
    }
}

/// The first position at or after `from` that holds white space, or the
/// length of `text` if there is none.
pub open spec fn field_end(text: Seq<char>, from: int) -> int
    decreases text.len() - from,
{
    if 0 <= from < text.len() && !is_space(text[from]) {
        field_end(text, from + 1)
    } else {
        from
    }
}

/// The fields of `text` that begin at or after `from`: the maximal runs of
/// characters that are not white space, as pairs of the position where a run
/// begins and the position just behind it.
pub open spec fn spans_from(text: Seq<char>, from: int) -> Seq<(int, int)>
    decreases text.len() - from,
{
    let start = field_start(text, from);
    let end = field_end(text, start);
    if 0 <= from <= start < end <= text.len() {
        spans_from(text, end).insert(0, (start, end))
    } else {
        Seq::empty()
    }
}

/// The fields of `text`, in order: what is left when it is split at white
/// space and the empty pieces are dropped.
pub open spec fn fields(text: Seq<char>) -> Seq<Seq<char>> {
    spans_from(text, 0).map_values(|span: (int, int)| text.subrange(span.0, span.1))
}

/// The scan for the start of a field stays within the text and moves on.
pub proof fn lemma_field_start(text: Seq<char>, from: int)
    requires
        0 <= from <= text.len(),
    ensures
        from <= field_start(text, from) <= text.len(),
        field_start(text, from) < text.len() ==> !is_space(text[field_start(text, from)]),
    decreases text.len() - from,
{
    if from < text.len() && is_space(text[from]) {
        lemma_field_start(text, from + 1);
    }
}

/// The scan for the end of a field stays within the text, and passes at
/// least the character it starts at where that is no white space.
pub proof fn lemma_field_end(text: Seq<char>, from: int)
    requires
        0 <= from <= text.len(),
    ensures
        from <= field_end(text, from) <= text.len(),
        from < text.len() && !is_space(text[from]) ==> from < field_end(text, from),
        forall|i: int| from <= i < field_end(text, from) ==> !is_space(#[trigger] text[i]),
    decreases text.len() - from,
{
    if from < text.len() && !is_space(text[from]) {
        lemma_field_end(text, from + 1);
    }
}

/// Whether `span` is the position of field number `k` of `text`.
pub open spec fn spans_at(span: (usize, usize), text: Seq<char>, k: int) -> bool {
    &&& span.0 == spans_from(text, 0)[k].0
    &&& span.1 == spans_from(text, 0)[k].1
    &&& span.0 < span.1 <= text.len()
}

/// The positions of the fields of `text`, in order.
pub fn split_fields(text: &Vec<char>) -> (spans: Vec<(usize, usize)>)
    ensures
        spans@.len() == spans_from(text@, 0).len(),
        forall|k: int| 0 <= k < spans@.len() ==> spans_at(#[trigger] spans@[k], text@, k),
{
    let mut spans: Vec<(usize, usize)> = Vec::new();
    let mut at: usize = 0;
    let ghost mut found: Seq<(int, int)> = Seq::empty();
    loop
        invariant
            0 <= at <= text@.len(),
            spans@.len() == found.len(),
            spans_from(text@, 0) == found + spans_from(text@, at as int),
            forall|k: int|
                0 <= k < spans@.len() ==> (#[trigger] spans@[k]).0 == found[k].0 && spans@[k].1
                    == found[k].1 && spans@[k].0 < spans@[k].1 <= text@.len(),
        decreases text@.len() - at,
    {
        let ghost from = at as int;
        let mut start: usize = at;
        while start < text.len() && separates(text[start])
            invariant
                at <= start <= text@.len(),
                field_start(text@, at as int) == field_start(text@, start as int),
            decreases text@.len() - start,
        {
            start += 1;
        }
        proof {
            lemma_field_start(text@, from);
        }
        if start >= text.len() {
            proof {
                assert(spans_from(text@, from) =~= Seq::<(int, int)>::empty());
                assert(found + spans_from(text@, from) =~= found);
            }
            return spans;
        }
        let mut end: usize = start;
        while end < text.len() && !separates(text[end])
            invariant
                start <= end <= text@.len(),
                field_end(text@, start as int) == field_end(text@, end as int),
            decreases text@.len() - end,
        {
            end += 1;
        }
        proof {
            lemma_field_end(text@, start as int);
            assert(spans_from(text@, from) == spans_from(text@, end as int).insert(
                0,
                (start as int, end as int),
            ));
            assert(found + spans_from(text@, end as int).insert(0, (start as int, end as int))
                =~= found.push((start as int, end as int)) + spans_from(text@, end as int));
            found = found.push((start as int, end as int));
        }
        spans.push((start, end));
        at = end;
    }
}

/// Whether `c` is one of the ten decimal digits.
pub open spec fn is_digit(c: char) -> bool {
    '0' <= c <= '9'
}

/// The number that a decimal digit stands for.
pub open spec fn digit_value(c: char) -> nat {
    (c as u32 - '0' as u32) as nat
}

/// Every character of `text` is a decimal digit.
pub open spec fn all_digits(text: Seq<char>) -> bool {
    forall|i: int| 0 <= i < text.len() ==> is_digit(#[trigger] text[i])
}

/// The number that a run of decimal digits stands for; zero for none.
pub open spec fn digits_value(text: Seq<char>) -> nat
    decreases text.len(),
{
    if text.len() == 0 {
        0
    } else {
        10 * digits_value(text.drop_last()) + digit_value(text.last())
    }
}

/// The number that `text` stands for as an unsigned decimal numeral with an
/// optional leading plus sign, if it is one and does not exceed `limit`.
pub open spec fn unsigned_of(text: Seq<char>, limit: nat) -> Option<nat> {
    let digits = if text.len() > 0 && text[0] == '+' {
        text.skip(1)
    } else {
        text
    };
    if digits.len() > 0 && all_digits(digits) && digits_value(digits) <= limit {
        Some(digits_value(digits))
    } else {
        None
    }
}

/// A run of digits stands for at least as much as any of its beginnings.
pub proof fn lemma_digits_value_grows(text: Seq<char>, k: int)
    requires
        0 <= k <= text.len(),
    ensures
        digits_value(text.take(k)) <= digits_value(text),
    decreases text.len(),
{
    if k < text.len() {
        lemma_digits_value_grows(text.drop_last(), k);
        assert(text.drop_last().take(k) =~= text.take(k));
    } else {
        assert(text.take(k) =~= text);
    }
}

/// The number that a run of decimal digits stands for, if `text` is one and
/// the number does not exceed `limit`.
pub open spec fn digits_within(text: Seq<char>, limit: nat) -> Option<u64> {
    if all_digits(text) && digits_value(text) <= limit {
        Some(digits_value(text) as u64)
    } else {
        None
    }
}

/// Reads the digits of `text` between `from` and `to` as a number, if they
/// are digits and the number does not exceed `limit`.
pub fn read_digits(text: &Vec<char>, from: usize, to: usize, limit: u64) -> (value: Option<u64>)
    requires
        from <= to <= text@.len(),
    ensures
        value == digits_within(text@.subrange(from as int, to as int), limit as nat),
{
    let ghost run = text@.subrange(from as int, to as int);
    let mut value: u64 = 0;
    let mut at: usize = from;
    assert(run.take(0) =~= Seq::<char>::empty());
    while at < to
        invariant
            from <= at <= to <= text@.len(),
            run == text@.subrange(from as int, to as int),
            all_digits(run.take(at - from)),
            value == digits_value(run.take(at - from)),
            value <= limit,
        decreases to - at,
    {
        let c: char = text[at];
        assert(run[at - from] == c);
        let ghost longer = run.take(at - from + 1);
        proof {
            assert(longer.drop_last() =~= run.take(at - from));
            assert(longer.last() == c);
        }
        if !('0' <= c && c <= '9') {
            assert(!is_digit(run[at - from]));
            return None;
        }
        let digit: u64 = (c as u32 - '0' as u32) as u64;
        if digit > limit || value > (limit - digit) / 10 {
            proof {
                lemma_digits_value_grows(run, at - from + 1);
            }
            return None;
        }
        value = value * 10 + digit;
        at += 1;
        assert forall|i: int| 0 <= i < longer.len() implies is_digit(#[trigger] longer[i]) by {
            if i < at - from - 1 {
                assert(run.take(at - from - 1)[i] == longer[i]);
            }
        }
    }
    assert(run.take(to - from) =~= run);
    Some(value)
}

/// Reads the characters of `text` between `from` and `to` as an unsigned
/// decimal numeral with an optional leading plus sign.
pub fn read_unsigned(text: &Vec<char>, from: usize, to: usize, limit: u64) -> (value: Option<u64>)
    requires
        from <= to <= text@.len(),
    ensures
        value matches Some(n) ==> unsigned_of(
            text@.subrange(from as int, to as int),
            limit as nat,
        ) == Some(n as nat),
        value is None ==> unsigned_of(text@.subrange(from as int, to as int), limit as nat) is None,
{
    let ghost whole = text@.subrange(from as int, to as int);
    let start = if from < to && text[from] == '+' {
        from + 1
    } else {
        from
    };
    proof {
        if from < to {
            assert(whole[0] == text@[from as int]);
        }
        if start > from {
            assert(whole.skip(1) =~= text@.subrange(start as int, to as int));
        }
    }
    if start == to {
        return None;
    }
    read_digits(text, start, to, limit)
}

/// Whether the characters of `text` are those of `word`.
pub fn spells(text: &Vec<char>, word: &str) -> (same: bool)
    ensures
        same == (text@ == word@),
{
    let letters = to_chars(word);
    if letters.len() != text.len() {
        return false;
    }
    let mut at: usize = 0;
    while at < text.len()
        invariant
            0 <= at <= text@.len(),
            letters@.len() == text@.len(),
            letters@ == word@,
            text@.take(at as int) == letters@.take(at as int),
        decreases text@.len() - at,
    {
        if text[at] != letters[at] {
            return false;
        }
        assert(text@.take(at + 1) =~= text@.take(at as int).push(text@[at as int]));
        assert(letters@.take(at + 1) =~= letters@.take(at as int).push(letters@[at as int]));
        at += 1;
    }
    assert(text@.take(at as int) =~= text@);
    assert(letters@.take(at as int) =~= letters@);
    true
}

/// Whether two texts hold the same characters.
pub fn same_text(left: &str, right: &str) -> (same: bool)
    ensures
        same == (left@ == right@),
{
    let letters = to_chars(left);
    spells(&letters, right)
}

} // verus!
