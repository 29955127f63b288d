//! Durations as a record writes them: a decimal numeral of seconds with an
//! optional sign and an optional exponent, or one of the words for an
//! unbounded or an undefined value.
//!
//! ```text
//! duration ::= sign? ( "inf" | "infinity" | "nan" | number )
//! number   ::= ( digit+ | digit+ "." digit* | digit* "." digit+ ) exponent?
//! exponent ::= "e" sign? digit+
//! ```
//! Letters count in either case.

use crate::text::{all_digits, digit_value, digits_value, is_digit, to_chars};
use vstd::prelude::*;

verus! {

/// How long a flow lasted.
#[derive(Debug, Clone, Copy, PartialEq, Eq, Structural)]
pub enum Duration {
    /// A length of time in whole microseconds, what is less than one being
    /// cut off. `micros` stands at the greatest 64-bit number for every
    /// length beyond it.
    Finite { negative: bool, micros: u64 },
    /// A length beyond every number.
    Infinite { negative: bool },
    /// No length at all.
    NotANumber,
}

/// The greatest size of an exponent that is told from a greater one.
pub const EXPONENT_CAP: u128 = 1_000_000_000_000_000_000_000_000_000_000;

/// Whether `c` is a plus or a minus sign.
pub open spec fn is_sign(c: char) -> bool {
    c == '+' || c == '-'
}

/// Whether `c` is the lower-case letter `letter` in either case.
pub open spec fn same_letter(c: char, letter: char) -> bool {
    c == letter || ('A' <= c <= 'Z' && c as u32 + 32 == letter as u32)
}

/// Whether `text` spells the lower-case `word`, in whatever case.
pub open spec fn spells_word(text: Seq<char>, word: Seq<char>) -> bool {
    &&& text.len() == word.len()
    &&& forall|i: int| 0 <= i < text.len() ==> same_letter(#[trigger] text[i], word[i])
}

/// The first position at or after `from` that holds no digit, or the length
/// of `text` if there is none.
pub open spec fn digits_end(text: Seq<char>, from: int) -> int
    decreases text.len() - from,
{
    if 0 <= from < text.len() && is_digit(text[from]) {
        digits_end(text, from + 1)
    } else {
        from
    }
}

/// The digits behind a decimal point at `at`; none where no point is there.
pub open spec fn fraction_at(text: Seq<char>, at: int) -> Seq<char> {
    if 0 <= at < text.len() && text[at] == '.' {
        text.subrange(at + 1, digits_end(text, at + 1))
    } else {
        Seq::empty()
    }
}

/// The position behind a decimal point at `at` and the digits that follow
/// it; `at` itself where no point is there.
pub open spec fn fraction_end(text: Seq<char>, at: int) -> int {
    if 0 <= at < text.len() && text[at] == '.' {
        digits_end(text, at + 1)
    } else {
        at
    }
}

/// The exponent that `text` holds from `at` to its end: zero where nothing
/// is left, the number behind an `e` where that is all that is left, and
/// nothing otherwise.
pub open spec fn exponent_at(text: Seq<char>, at: int) -> Option<int> {
    if at == text.len() {
        Some(0)
    } else if 0 <= at < text.len() && same_letter(text[at], 'e') {
        let start = if at + 1 < text.len() && is_sign(text[at + 1]) {
            at + 2
        } else {
            at + 1
        };
        let digits = text.subrange(start, text.len() as int);
        if digits.len() > 0 && all_digits(digits) {
            if text[at + 1] == '-' {
                Some(-(digits_value(digits) as int))
            } else {
                Some(digits_value(digits) as int)
            }
        } else {
            None
        }
    } else {
        None
    }
}

/// The number that the first `places` digits of `digits` stand for, a
/// missing digit counting as zero.
pub open spec fn leading_value(digits: Seq<char>, places: nat) -> nat
    decreases places,
{
    if places == 0 {
        0
    } else {
        10 * leading_value(digits, (places - 1) as nat) + if places - 1 < digits.len() {
            digit_value(digits[places - 1])
        } else {
            0
        }
    }
}

/// The whole part of the number that `digits` stand for with a decimal
/// point behind the first `places` of them.
pub open spec fn scaled(digits: Seq<char>, places: int) -> nat {
    if places <= 0 {
        0
    } else {
        leading_value(digits, places as nat)
    }
}

/// The microseconds in the seconds that `text` gives from `from` on as a
/// decimal number, cut off to a whole number; nothing where no such number
/// stands there.
pub open spec fn decimal_at(text: Seq<char>, from: int) -> Option<nat> {
    let point = digits_end(text, from);
    let whole = text.subrange(from, point);
    let fraction = fraction_at(text, point);
    match exponent_at(text, fraction_end(text, point)) {
        Some(exponent) => if whole.len() + fraction.len() > 0 {
            Some(scaled(whole + fraction, whole.len() + exponent + 6))
        } else {
            None
        },
        None => None,
    }
}

/// `n` as a 64-bit number, the greatest such number for every larger `n`.
pub open spec fn saturated(n: nat) -> u64 {
    if n <= u64::MAX {
        n as u64
    } else {
        u64::MAX
    }
}

/// The duration that `text` stands for, if it is written as one.
pub open spec fn duration_of(text: Seq<char>) -> Option<Duration> {
    let signed = text.len() > 0 && is_sign(text[0]);
    let negative = text.len() > 0 && text[0] == '-';
    let start: int = if signed {
        1
    } else {
        0
    };
    let body = text.skip(start);
    if spells_word(body, "inf"@) || spells_word(body, "infinity"@) {
        Some(Duration::Infinite { negative })
    } else if spells_word(body, "nan"@) {
        Some(Duration::NotANumber)
    } else {
        match decimal_at(text, start) {
            Some(micros) => Some(Duration::Finite { negative, micros: saturated(micros) }),
            None => None,
        }
    }
}

/// Ten to the power of `n`.
pub open spec fn pow10(n: nat) -> nat
    decreases n,
{
    if n == 0 {
        1
    } else {
        10 * pow10((n - 1) as nat)
    }
}

/// More places give a number that is no smaller.
pub proof fn lemma_leading_value_grows(digits: Seq<char>, fewer: nat, more: nat)
    requires
        fewer <= more,
    ensures
        leading_value(digits, fewer) <= leading_value(digits, more),
    decreases more,
{
    if fewer < more {
        lemma_leading_value_grows(digits, fewer, (more - 1) as nat);
    }
}

/// Behind the last digit, zero stays zero however many places are added.
pub proof fn lemma_zero_stays(digits: Seq<char>, fewer: nat, more: nat)
    requires
        digits.len() <= fewer <= more,
        leading_value(digits, fewer) == 0,
    ensures
        leading_value(digits, more) == 0,
    decreases more,
{
    if fewer < more {
        lemma_zero_stays(digits, fewer, (more - 1) as nat);
    }
}

/// Each further place multiplies a number that is not zero by ten at least.
pub proof fn lemma_places_multiply(digits: Seq<char>, places: nat, further: nat)
    requires
        leading_value(digits, places) >= 1,
    ensures
        leading_value(digits, places + further) >= pow10(further),
    decreases further,
{
    if further > 0 {
        lemma_places_multiply(digits, places, (further - 1) as nat);
        assert(places + further - 1 == places + (further - 1) as nat);
    }
}

/// Twenty places behind the last digit and more, the number is zero or
/// beyond 64 bits, whatever the count of places.
pub proof fn lemma_far_places_agree(digits: Seq<char>, fewer: nat, more: nat)
    requires
        digits.len() + 20 <= fewer <= more,
    ensures
        saturated(leading_value(digits, fewer)) == saturated(leading_value(digits, more)),
{
    let len = digits.len();
    if leading_value(digits, len) == 0 {
        lemma_zero_stays(digits, len, fewer);
        lemma_zero_stays(digits, len, more);
    } else {
        lemma_places_multiply(digits, len, 20);
        reveal_with_fuel(pow10, 21);
        assert(pow10(20) == 100_000_000_000_000_000_000nat);
        lemma_leading_value_grows(digits, len + 20, fewer);
        lemma_leading_value_grows(digits, len + 20, more);
    }
}

/// The position behind the digits that begin at `from`.
fn skip_digits(text: &Vec<char>, from: usize) -> (end: usize)
    requires
        from <= text@.len(),
    ensures
        end == digits_end(text@, from as int),
        from <= end <= text@.len(),
        all_digits(text@.subrange(from as int, end as int)),
{
    let mut end: usize = from;
    while end < text.len() && '0' <= text[end] && text[end] <= '9'
        invariant
            from <= end <= text@.len(),
            digits_end(text@, from as int) == digits_end(text@, end as int),
            forall|i: int| from <= i < end ==> is_digit(#[trigger] text@[i]),
        decreases text@.len() - end,
    {
        end += 1;
    }
    end
}

/// Whether `text` from `from` on spells the lower-case `word`, in whatever
/// case.
fn spells_word_from(text: &Vec<char>, from: usize, word: &str) -> (same: bool)
    requires
        from <= text@.len(),
    ensures
        same == spells_word(text@.skip(from as int), word@),
{
    let letters = to_chars(word);
    if letters.len() != text.len() - from {
        return false;
    }
    let ghost body = text@.skip(from as int);
    let mut at: usize = 0;
    while at < letters.len()
        invariant
            from <= text@.len(),
            at <= letters@.len(),
            letters@ == word@,
            letters@.len() == text@.len() - from,
            text@.len() <= usize::MAX,
            body == text@.skip(from as int),
            forall|i: int| 0 <= i < at ==> same_letter(#[trigger] body[i], word@[i]),
        decreases letters@.len() - at,
    {
        let c: char = text[from + at];
        let letter: char = letters[at];
        assert(body[at as int] == c);
        if !(c == letter || ('A' <= c && c <= 'Z' && c as u32 + 32 == letter as u32)) {
            assert(!same_letter(body[at as int], word@[at as int]));
            return false;
        }
        at += 1;
    }
    true
}

/// `exponent` where its size is at most the cap, and the cap with its sign
/// otherwise.
pub open spec fn capped_exponent(exponent: int) -> int {
    if exponent > EXPONENT_CAP {
        EXPONENT_CAP as int
    } else if exponent < -EXPONENT_CAP {
        -EXPONENT_CAP
    } else {
        exponent
    }
}

/// The number that the digits of `text` between `from` and `to` stand for,
/// the cap standing for every number beyond it; nothing where another
/// character is among them.
fn read_capped(text: &Vec<char>, from: usize, to: usize) -> (value: Option<u128>)
    requires
        from <= to <= text@.len(),
    ensures
        value is Some <==> all_digits(text@.subrange(from as int, to as int)),
        value matches Some(n) ==> n == capped_exponent(
            digits_value(text@.subrange(from as int, to as int)) as int,
        ),
{
    let ghost run = text@.subrange(from as int, to as int);
    let mut value: u128 = 0;
    let mut at: usize = from;
    assert(run.take(0) =~= Seq::<char>::empty());
    while at < to
        invariant
            from <= at <= to <= text@.len(),
            run == text@.subrange(from as int, to as int),
            all_digits(run.take(at - from)),
            value == capped_exponent(digits_value(run.take(at - from)) as int),
        decreases to - at,
    {
        let c: char = text[at];
        assert(run[at - from] == c);
        let ghost longer = run.take(at - from + 1);
        proof {
            assert(longer.drop_last() =~= run.take(at - from));
            assert(longer.last() == c);
        }
        if !('0' <= c && c <= '9') {
            assert(!is_digit(run[at - from]));
            return None;
        }
        let digit: u128 = (c as u32 - '0' as u32) as u128;
        let wider: u128 = value * 10 + digit;
        value = if wider > EXPONENT_CAP {
            EXPONENT_CAP
        } else {
            wider
        };
        at += 1;
        assert forall|i: int| 0 <= i < longer.len() implies is_digit(#[trigger] longer[i]) by {
            if i < at - from - 1 {
                assert(run.take(at - from - 1)[i] == longer[i]);
            }
        }
    }
    assert(run.take(to - from) =~= run);
    Some(value)
}

/// The exponent that `text` holds from `at` to its end, held to the cap.
fn read_exponent(text: &Vec<char>, at: usize) -> (exponent: Option<i128>)
    requires
        at <= text@.len(),
    ensures
        exponent is Some <==> exponent_at(text@, at as int) is Some,
        exponent matches Some(e) ==> e == capped_exponent(exponent_at(text@, at as int).unwrap()),
{
    let len: usize = text.len();
    if at == len {
        return Some(0);
    }
    let mark: char = text[at];
    if !(mark == 'e' || mark == 'E') {
        return None;
    }
    let start: usize = if at + 1 < len && (text[at + 1] == '+' || text[at + 1] == '-') {
        at + 2
    } else {
        at + 1
    };
    if start == len {
        return None;
    }
    match read_capped(text, start, len) {
        Some(size) => {
            assert(text@.subrange(start as int, len as int)[0] == text@[start as int]);
            if text[at + 1] == '-' {
                Some(-(size as i128))
            } else {
                Some(size as i128)
            }
        },
        None => None,
    }
}

/// Adds the characters of `text` between `from` and `to` to `digits`.
fn append_range(digits: &mut Vec<char>, text: &Vec<char>, from: usize, to: usize)
    requires
        from <= to <= text@.len(),
    ensures
        final(digits)@ == old(digits)@ + text@.subrange(from as int, to as int),
{
    let mut at: usize = from;
    assert(text@.subrange(from as int, from as int) =~= Seq::<char>::empty());
    assert(digits@ + Seq::<char>::empty() =~= digits@);
    while at < to
        invariant
            from <= at <= to <= text@.len(),
            digits@ == old(digits)@ + text@.subrange(from as int, at as int),
        decreases to - at,
    {
        digits.push(text[at]);
        assert(text@.subrange(from as int, at + 1) =~= text@.subrange(from as int, at as int).push(
            text@[at as int],
        ));
        at += 1;
        assert(digits@ =~= old(digits)@ + text@.subrange(from as int, at as int));
    }
}

/// The whole part of the number that `digits` stand for with a decimal
/// point behind the first `places` of them, held to 64 bits.
pub fn scale(digits: &Vec<char>, places: i128) -> (whole: u64)
    requires
        all_digits(digits@),
    ensures
        whole == saturated(scaled(digits@, places as int)),
{
    if places <= 0 {
        return 0;
    }
    let len: usize = digits.len();
    let mut whole: u64 = 0;
    let mut place: i128 = 0;
    while place < places
        invariant
            0 <= place <= places,
            len == digits@.len(),
            all_digits(digits@),
            whole == saturated(leading_value(digits@, place as nat)),
        decreases places - place,
    {
        if whole == u64::MAX {
            proof {
                lemma_leading_value_grows(digits@, place as nat, places as nat);
            }
            return u64::MAX;
        }
        if whole == 0 && place >= len as i128 {
            proof {
                lemma_zero_stays(digits@, place as nat, places as nat);
            }
            return 0;
        }
        let mut digit: u64 = 0;
        if place < len as i128 {
            let c: char = digits[place as usize];
            assert(is_digit(digits@[place as int]));
            digit = (c as u32 - '0' as u32) as u64;
        }
        let wider: u128 = whole as u128 * 10 + digit as u128;
        assert(wider == leading_value(digits@, (place + 1) as nat));
        whole = if wider > u64::MAX as u128 {
            u64::MAX
        } else {
            wider as u64
        };
        place += 1;
    }
    whole
}

/// Reads a duration.
///
/// A number of seconds becomes whole microseconds; an exponent moves the
/// decimal point exactly, however large it is.
pub fn read_duration(text: &str) -> (duration: Option<Duration>)
    ensures
        duration == duration_of(text@),
{
    let chars = to_chars(text);
    let len: usize = chars.len();
    let start: usize = if len > 0 && (chars[0] == '+' || chars[0] == '-') {
        1
    } else {
        0
    };
    let negative: bool = len > 0 && chars[0] == '-';
    if spells_word_from(&chars, start, "inf") || spells_word_from(&chars, start, "infinity") {
        return Some(Duration::Infinite { negative });
    }
    if spells_word_from(&chars, start, "nan") {
        return Some(Duration::NotANumber);
    }
    let point: usize = skip_digits(&chars, start);
    let behind: usize = if point < len && chars[point] == '.' {
        point + 1
    } else {
        point
    };
    let end: usize = if behind > point {
        skip_digits(&chars, behind)
    } else {
        point
    };
    let ghost whole = chars@.subrange(start as int, point as int);
    let ghost fraction = fraction_at(chars@, point as int);
    assert(fraction =~= chars@.subrange(behind as int, end as int));
    assert(end == fraction_end(chars@, point as int));
    let exponent: i128 = match read_exponent(&chars, end) {
        Some(exponent) => exponent,
        None => {
            return None;
        },
    };
    if point - start + (end - behind) == 0 {
        return None;
    }
    let mut digits: Vec<char> = Vec::new();
    append_range(&mut digits, &chars, start, point);
    append_range(&mut digits, &chars, behind, end);
    assert(digits@ =~= whole + fraction);
    let places: i128 = (point - start) as i128 + exponent + 6;
    proof {
        let exact = exponent_at(chars@, end as int).unwrap();
        let wanted = whole.len() + exact + 6;
        if exact > EXPONENT_CAP {
            lemma_far_places_agree(digits@, places as nat, wanted as nat);
        }
        assert(saturated(scaled(digits@, places as int)) == saturated(scaled(digits@, wanted)));
    }
    let micros: u64 = scale(&digits, places);
    Some(Duration::Finite { negative, micros })
}

} // verus!
