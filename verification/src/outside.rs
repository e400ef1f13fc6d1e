//! What the library takes from the standard library, the clock and the random
//! number generator, with what it relies on.

use vstd::prelude::*;

verus! {

/// The characters with the Unicode property White_Space.
pub open spec fn is_white_space(c: char) -> bool {
    ||| '\u{9}' <= c <= '\u{d}'
    ||| c == ' '
    ||| c == '\u{85}'
    ||| c == '\u{a0}'
    ||| c == '\u{1680}'
    ||| '\u{2000}' <= c <= '\u{200a}'
    ||| c == '\u{2028}'
    ||| c == '\u{2029}'
    ||| c == '\u{202f}'
    ||| c == '\u{205f}'
    ||| c == '\u{3000}'
}

/// `text` without the white space at its start.
pub open spec fn trimmed_start(text: Seq<char>) -> Seq<char>
    decreases text.len(),
{
    if text.len() > 0 && is_white_space(text.first()) {
        trimmed_start(text.drop_first())
    } else {
        text
    }
}

/// `text` without the white space at its end.
pub open spec fn trimmed_end(text: Seq<char>) -> Seq<char>
    decreases text.len(),
{
    if text.len() > 0 && is_white_space(text.last()) {
        trimmed_end(text.drop_last())
    } else {
        text
    }
}

/// `text` without the white space at its start and at its end.
pub open spec fn trimmed(text: Seq<char>) -> Seq<char> {
    trimmed_end(trimmed_start(text))
}

/// `str::trim` removes the characters with the Unicode property White_Space from
/// both ends of a string and nothing else.
pub assume_specification[ str::trim ](text: &str) -> (inner: &str)
    ensures
        inner@ == trimmed(text@),
;

/// A lower-case hexadecimal digit.
pub open spec fn is_lower_hex(c: char) -> bool {
    '0' <= c <= '9' || 'a' <= c <= 'f'
}

/// A decimal digit.
pub open spec fn is_digit(c: char) -> bool {
    '0' <= c <= '9'
}

/// The text of a random UUID: five groups of lower-case hexadecimal digits,
/// joined by hyphens, with the version digit 4 and one of the variant digits.
pub open spec fn is_random_uuid(text: Seq<char>) -> bool {
    &&& text.len() == 36
    &&& text[8] == '-' && text[13] == '-' && text[18] == '-' && text[23] == '-'
    &&& text[14] == '4'
    &&& text[19] == '8' || text[19] == '9' || text[19] == 'a' || text[19] == 'b'
    &&& forall|i: int|
        0 <= i < 36 && i != 8 && i != 13 && i != 18 && i != 23 ==> is_lower_hex(#[trigger] text[i])
}

/// `uuid::Uuid::new_v4`, with the text that the value displays as.
///
/// Whatever bits are drawn, the text has the shape of a random UUID. That two
/// calls give different texts is likely and is not claimed. The call panics where
/// the operating system gives no random bytes.
#[verifier::external_body]
pub(crate) fn random_uuid() -> (text: String)
    ensures
        is_random_uuid(text@),
{
    uuid::Uuid::new_v4().to_string()
}

/// Nothing but decimal digits.
pub open spec fn is_number(text: Seq<char>) -> bool {
    forall|i: int| 0 <= i < text.len() ==> is_digit(#[trigger] text[i])
}

/// What decimal digits are worth.
pub open spec fn number(digits: Seq<char>) -> int
    decreases digits.len(),
{
    if digits.len() == 0 {
        0
    } else {
        10 * number(digits.drop_last()) + (digits.last() as int - '0' as int)
    }
}

/// The two characters of `text` from `at` on are digits, worth `low` to `high`.
pub open spec fn has_two_digits(text: Seq<char>, at: int, low: int, high: int) -> bool {
    let digits = text.subrange(at, at + 2);
    is_number(digits) && low <= number(digits) <= high
}

/// How many days the month number `month` has in the year `year`.
pub open spec fn days_in_month(year: int, month: int) -> int {
    if month == 2 {
        if year % 4 == 0 && (year % 100 != 0 || year % 400 == 0) {
            29
        } else {
            28
        }
    } else if month == 4 || month == 6 || month == 9 || month == 11 {
        30
    } else {
        31
    }
}

/// An RFC 3339 time in UTC whose year is `year` and is written in `width`
/// characters: year, month and day, `T`, the time of day, an optional fraction of
/// three, six or nine digits that is no longer than it has to be, and the offset.
pub open spec fn is_time_in_year(text: Seq<char>, width: int, year: int) -> bool {
    let end = text.len() - 6;
    let fraction = end - (width + 15);
    &&& fraction == 0 || fraction == 4 || fraction == 7 || fraction == 10
    &&& text[width] == '-'
    &&& has_two_digits(text, width + 1, 1, 12)
    &&& text[width + 3] == '-'
    &&& has_two_digits(
        text,
        width + 4,
        1,
        days_in_month(year, number(text.subrange(width + 1, width + 3))),
    )
    &&& text[width + 6] == 'T'
    &&& has_two_digits(text, width + 7, 0, 23)
    &&& text[width + 9] == ':'
    &&& has_two_digits(text, width + 10, 0, 59)
    &&& text[width + 12] == ':'
    &&& has_two_digits(text, width + 13, 0, 59)
    &&& fraction > 0 ==> {
        &&& text[width + 15] == '.'
        &&& is_number(text.subrange(width + 16, end))
        &&& number(text.subrange(end - 3, end)) > 0
    }
    &&& text.subrange(end, text.len() as int) == "+00:00"@
}

/// The first `width` characters of `text` are a year from 1970 on: four digits up
/// to 9999, and a plus sign with the digits from then on.
pub open spec fn starts_with_year(text: Seq<char>, width: int, year: int) -> bool {
    ||| {
        &&& width == 4
        &&& is_number(text.subrange(0, 4))
        &&& year == number(text.subrange(0, 4))
        &&& 1970 <= year
    }
    ||| {
        &&& 6 <= width
        &&& text[0] == '+'
        &&& is_number(text.subrange(1, width))
        &&& year == number(text.subrange(1, width))
        &&& text[1] != '0'
    }
}

/// An RFC 3339 time in UTC, from 1970 on.
pub open spec fn is_utc_time(text: Seq<char>) -> bool {
    exists|width: int, year: int|
        0 <= width <= text.len() && #[trigger] starts_with_year(text, width, year)
            && is_time_in_year(text, width, year)
}

/// `chrono::Utc::now`, written by `DateTime::to_rfc3339`.
///
/// The text is an RFC 3339 time in UTC with the numeric offset. A year past 9999
/// has a plus sign in front. Which time it is depends on the clock, and the call
/// panics where the clock stands before 1970 or past the last date that chrono can
/// hold.
#[verifier::external_body]
pub(crate) fn utc_now() -> (text: String)
    ensures
        is_utc_time(text@),
{
    chrono::Utc::now().to_rfc3339()
}

/// Trimmed text begins and ends with something that is no white space, or is
/// empty.
pub proof fn law_trimmed_has_no_outer_white_space(text: Seq<char>)
    ensures
        trimmed(text).len() > 0 ==> !is_white_space(trimmed(text).first()) && !is_white_space(
            trimmed(text).last(),
        ),
{
    lemma_trimmed_start(text);
    lemma_trimmed_end(trimmed_start(text));
}

/// What is left starts with something that is no white space.
proof fn lemma_trimmed_start(text: Seq<char>)
    ensures
        trimmed_start(text).len() > 0 ==> !is_white_space(trimmed_start(text).first()),
    decreases text.len(),
{
    if text.len() > 0 && is_white_space(text.first()) {
        lemma_trimmed_start(text.drop_first());
    }
}

/// What is left ends with something that is no white space, and starts as the
/// whole does.
proof fn lemma_trimmed_end(text: Seq<char>)
    ensures
        trimmed_end(text).len() > 0 ==> !is_white_space(trimmed_end(text).last())
            && trimmed_end(text).first() == text.first(),
    decreases text.len(),
{
    if text.len() > 0 && is_white_space(text.last()) {
        lemma_trimmed_end(text.drop_last());
    }
}

} // verus!
