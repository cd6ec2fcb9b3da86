//! Text helpers: comparison, joining and the writing of numbers.

use vstd::prelude::*;
use vstd::string::{StringExecFns, StrSliceExecFns};

verus! {

/// The character of a decimal digit.
pub open spec fn digit_char(d: nat) -> char {
    if d == 0 {
        '0'
    } else if d == 1 {
        '1'
    } else if d == 2 {
        '2'
    } else if d == 3 {
        '3'
    } else if d == 4 {
        '4'
    } else if d == 5 {
        '5'
    } else if d == 6 {
        '6'
    } else if d == 7 {
        '7'
    } else if d == 8 {
        '8'
    } else {
        '9'
    }
}

/// A number in decimal notation, without sign or leading zeros.
pub open spec fn decimal_digits(n: nat) -> Seq<char>
    decreases n,
{
    if n < 10 {
        seq![digit_char(n)]
    } else {
        decimal_digits(n / 10).push(digit_char(n % 10))
    }
}

/// Compares two strings, `str::eq` of the standard library: they are equal
/// exactly when they hold the same characters.
#[verifier::external_body]
pub(crate) fn same_text(a: &str, b: &str) -> (r: bool)
    ensures
        r == (a@ == b@),
{
    a == b
}

/// The character of a decimal digit.
fn decimal_digit(d: u64) -> (r: char)
    requires
        d < 10,
    ensures
        r == digit_char(d as nat),
{
    if d == 0 {
        '0'
    } else if d == 1 {
        '1'
    } else if d == 2 {
        '2'
    } else if d == 3 {
        '3'
    } else if d == 4 {
        '4'
    } else if d == 5 {
        '5'
    } else if d == 6 {
        '6'
    } else if d == 7 {
        '7'
    } else if d == 8 {
        '8'
    } else {
        '9'
    }
}

/// Writes a number in decimal, without sign or leading zeros.
pub fn decimal_text(n: u64) -> (r: String)
    ensures
        r@ == decimal_digits(n as nat),
    decreases n,
{
    if n < 10 {
        let mut text = String::new();
        push_char(&mut text, decimal_digit(n));
        assert(text@ =~= seq![digit_char(n as nat)]);
        text
    } else {
        let mut text = decimal_text(n / 10);
        push_char(&mut text, decimal_digit(n % 10));
        text
    }
}

/// Joins two pieces of text.
pub fn join(a: &str, b: &str) -> (r: String)
    ensures
        r@ == a@ + b@,
{
    String::from_str(a).concat(b)
}

/// The value of a decimal digit, or nothing for another character.
pub open spec fn digit_value(c: char) -> Option<nat> {
    if '0' <= c <= '9' {
        Some((c as nat - '0' as nat) as nat)
    } else {
        None
    }
}

/// The value of a hexadecimal digit, in either case, or nothing for another
/// character.
pub open spec fn hex_digit_value(c: char) -> Option<nat> {
    if '0' <= c <= '9' {
        Some((c as nat - '0' as nat) as nat)
    } else if 'a' <= c <= 'f' {
        Some((c as nat - 'a' as nat + 10) as nat)
    } else if 'A' <= c <= 'F' {
        Some((c as nat - 'A' as nat + 10) as nat)
    } else {
        None
    }
}

/// The value of a digit in a radix of 10 or 16.
pub open spec fn radix_digit(c: char, radix: nat) -> Option<nat> {
    if radix == 16 {
        hex_digit_value(c)
    } else {
        digit_value(c)
    }
}

/// The number that a sequence of digits denotes; nothing where a character
/// is no digit. The empty sequence denotes zero.
pub open spec fn digits_value(digits: Seq<char>, radix: nat) -> Option<nat>
    decreases digits.len(),
{
    if digits.len() == 0 {
        Some(0)
    } else {
        match (digits_value(digits.drop_last(), radix), radix_digit(digits.last(), radix)) {
            (Some(high), Some(low)) => Some(high * radix + low),
            _ => None,
        }
    }
}

/// The number that a text denotes in a radix of 10 or 16: one digit at
/// least, after an optional plus sign.
pub open spec fn number_value(text: Seq<char>, radix: nat) -> Option<nat> {
    let digits = if text.len() > 0 && text[0] == '+' {
        text.skip(1)
    } else {
        text
    };
    if digits.len() == 0 {
        None
    } else {
        digits_value(digits, radix)
    }
}

/// The number that a text denotes, where it is at most `max`.
pub open spec fn bounded_number(text: Seq<char>, radix: nat, max: nat) -> Option<u64> {
    match number_value(text, radix) {
        Some(v) => if v <= max {
            Some(v as u64)
        } else {
            None
        },
        None => None,
    }
}

/// The value of a sequence of digits never falls when digits are added.
pub proof fn lemma_digits_value_grows(digits: Seq<char>, radix: nat, n: int)
    requires
        radix == 10 || radix == 16,
        0 <= n <= digits.len(),
        digits_value(digits, radix).is_some(),
    ensures
        digits_value(digits.take(n), radix).is_some(),
        digits_value(digits.take(n), radix).unwrap() <= digits_value(digits, radix).unwrap(),
    decreases digits.len(),
{
    if n == digits.len() {
        assert(digits.take(n) =~= digits);
    } else {
        lemma_digits_value_grows(digits.drop_last(), radix, n);
        assert(digits.drop_last().take(n) =~= digits.take(n));
        let high = digits_value(digits.drop_last(), radix).unwrap();
        assert(high * radix >= high) by (nonlinear_arith)
            requires
                radix >= 1,
                high >= 0,
        ;
    }
}

/// Reads a digit in a radix of 10 or 16.
fn read_digit(c: char, radix: u64) -> (r: Option<u64>)
    requires
        radix == 10 || radix == 16,
    ensures
        r.is_some() == radix_digit(c, radix as nat).is_some(),
        r matches Some(d) ==> d == radix_digit(c, radix as nat).unwrap() && d < radix,
{
    if c >= '0' && c <= '9' {
        Some((c as u64) - ('0' as u64))
    } else if radix == 16 && c >= 'a' && c <= 'f' {
        Some((c as u64) - ('a' as u64) + 10)
    } else if radix == 16 && c >= 'A' && c <= 'F' {
        Some((c as u64) - ('A' as u64) + 10)
    } else {
        None
    }
}

/// Reads a number of at most `max` in a radix of 10 or 16: digits after an
/// optional plus sign. Anything else, and a number above `max`, gives
/// nothing.
pub fn parse_number(text: &str, radix: u64, max: u64) -> (r: Option<u64>)
    requires
        radix == 10 || radix == 16,
    ensures
        r == bounded_number(text@, radix as nat, max as nat),
{
    let len = text.unicode_len();
    let first: usize = if len > 0 && text.get_char(0) == '+' {
        1
    } else {
        0
    };
    if first == len {
        return None;
    }
    let ghost digits = text@.skip(first as int);
    let mut value: u64 = 0;
    let mut i: usize = first;
    proof {
        assert(digits.take(0) =~= Seq::<char>::empty());
        assert(text@.skip(0) =~= text@);
        assert(number_value(text@, radix as nat) == digits_value(digits, radix as nat));
    }
    while i < len
        invariant
            radix == 10 || radix == 16,
            first <= i <= len,
            len == text@.len(),
            digits == text@.skip(first as int),
            number_value(text@, radix as nat) == digits_value(digits, radix as nat),
            digits_value(digits.take(i - first), radix as nat) == Some(value as nat),
            value <= max,
        decreases len - i,
    {
        let c = text.get_char(i);
        let ghost longer = digits.take(i - first + 1);
        proof {
            assert(longer.drop_last() =~= digits.take(i - first));
            assert(longer.last() == c);
            if digits_value(digits, radix as nat).is_some() {
                lemma_digits_value_grows(digits, radix as nat, i - first + 1);
            }
        }
        match read_digit(c, radix) {
            Some(d) => {
                assert(digits_value(longer, radix as nat) == Some((value * radix + d) as nat));
                if d > max || value > (max - d) / radix {
                    proof {
                        assert(value * radix + d > max) by (nonlinear_arith)
                            requires
                                d > max || value > (max - d) / (radix as int),
                                radix > 0,
                                d >= 0,
                                value >= 0,
                        ;
                    }
                    return None;
                }
                assert(value * radix + d <= max) by (nonlinear_arith)
                    requires
                        value <= (max - d) / (radix as int),
                        radix > 0,
                        d <= max,
                ;
                value = value * radix + d;
            },
            None => {
                assert(digits_value(longer, radix as nat).is_none());
                return None;
            },
        }
        i += 1;
    }
    assert(digits.take(i - first) =~= digits);
    Some(value)
}

/// The part of a text behind its last slash: the whole text where it has
/// none.
pub open spec fn last_segment_of(text: Seq<char>) -> Seq<char>
    decreases text.len(),
{
    if text.len() == 0 {
        text
    } else if text.last() == '/' {
        Seq::empty()
    } else {
        last_segment_of(text.drop_last()).push(text.last())
    }
}

/// The position behind the last slash of a text.
pub open spec fn last_segment_start(text: Seq<char>) -> int
    decreases text.len(),
{
    if text.len() == 0 {
        0
    } else if text.last() == '/' {
        text.len() as int
    } else {
        last_segment_start(text.drop_last())
    }
}

/// The last segment is what lies behind the position that
/// `last_segment_start` gives.
pub proof fn lemma_last_segment(text: Seq<char>)
    ensures
        0 <= last_segment_start(text) <= text.len(),
        last_segment_of(text) == text.skip(last_segment_start(text)),
    decreases text.len(),
{
    if text.len() == 0 {
        assert(text.skip(0) =~= text);
    } else if text.last() == '/' {
        assert(text.skip(text.len() as int) =~= Seq::<char>::empty());
    } else {
        lemma_last_segment(text.drop_last());
        let at = last_segment_start(text.drop_last());
        assert(text.drop_last().skip(at).push(text.last()) =~= text.skip(at));
    }
}

/// Cuts out the part of a text behind its last slash.
pub fn last_segment(text: &str) -> (r: String)
    ensures
        r@ == last_segment_of(text@),
{
    let len = text.unicode_len();
    let mut start: usize = len;
    assert(text@.take(len as int) =~= text@);
    while start > 0 && text.get_char(start - 1) != '/'
        invariant
            start <= len,
            len == text@.len(),
            last_segment_start(text@) == last_segment_start(text@.take(start as int)),
        decreases start,
    {
        proof {
            let taken = text@.take(start as int);
            assert(taken.drop_last() =~= text@.take(start - 1));
            assert(taken.last() == text@[start - 1]);
        }
        start -= 1;
    }
    proof {
        lemma_last_segment(text@);
        if start > 0 {
            assert(text@.take(start as int).last() == text@[start - 1]);
        }
        assert(start == last_segment_start(text@));
        assert(text@.subrange(start as int, len as int) =~= text@.skip(start as int));
    }
    String::from_str(text.substring_char(start, len))
}

/// Whether a text holds another as a contiguous part.
pub open spec fn holds_text(text: Seq<char>, part: Seq<char>) -> bool {
    exists|i: int| 0 <= i && i + part.len() <= text.len() && #[trigger] text.subrange(i, i + part.len()) == part
}

/// Searches a text for a part.
pub fn text_contains(text: &str, part: &str) -> (r: bool)
    ensures
        r == holds_text(text@, part@),
{
    let n = text.unicode_len();
    let m = part.unicode_len();
    if m > n {
        return false;
    }
    if m == 0 {
        assert(text@.subrange(0int, 0int + part@.len()) =~= part@);
        return true;
    }
    let mut i: usize = 0;
    while i <= n - m
        invariant
            0 < m <= n,
            n == text@.len(),
            m == part@.len(),
            i <= n - m + 1,
            forall|j: int| 0 <= j < i ==> #[trigger] text@.subrange(j, j + m) != part@,
        decreases n - m + 1 - i,
    {
        if same_text(text.substring_char(i, i + m), part) {
            return true;
        }
        i += 1;
    }
    false
}

/// Whether a character is whitespace: whether it has the property
/// White_Space of Unicode. These are the controls U+0009 to U+000D, the
/// space, U+0085, the no-break space, U+1680, the spaces U+2000 to U+200A,
/// the line and the paragraph separator, U+202F, U+205F and U+3000.
pub open spec fn is_white_space(c: char) -> bool {
    let n = c as u32;
    ||| 0x09 <= n <= 0x0D
    ||| n == 0x20
    ||| n == 0x85
    ||| n == 0xA0
    ||| n == 0x1680
    ||| 0x2000 <= n <= 0x200A
    ||| n == 0x2028
    ||| n == 0x2029
    ||| n == 0x202F
    ||| n == 0x205F
    ||| n == 0x3000
}

/// The number of whitespace characters that a text begins with.
pub open spec fn leading_blanks(text: Seq<char>) -> nat
    decreases text.len(),
{
    if text.len() > 0 && is_white_space(text[0]) {
        1 + leading_blanks(text.drop_first())
    } else {
        0
    }
}

/// The number of whitespace characters that a text ends with.
pub open spec fn trailing_blanks(text: Seq<char>) -> nat
    decreases text.len(),
{
    if text.len() > 0 && is_white_space(text.last()) {
        1 + trailing_blanks(text.drop_last())
    } else {
        0
    }
}

/// What is left of a text when the whitespace at both ends is taken away:
/// first the whitespace that it begins with, then the whitespace that the
/// rest ends with.
pub open spec fn trimmed_text(text: Seq<char>) -> Seq<char> {
    let rest = text.skip(leading_blanks(text) as int);
    rest.take(rest.len() - trailing_blanks(rest))
}

/// Takes the whitespace at both ends of a text away, `str::trim` of the
/// standard library, which removes the characters with the property
/// White_Space of Unicode from both ends.
#[verifier::external_body]
pub(crate) fn trimmed(text: &str) -> (r: &str)
    ensures
        r@ == trimmed_text(text@),
{
    text.trim()
}

/// The character of a hexadecimal digit, in upper case.
pub open spec fn hex_char(d: nat) -> char {
    if d < 10 {
        digit_char(d)
    } else if d == 10 {
        'A'
    } else if d == 11 {
        'B'
    } else if d == 12 {
        'C'
    } else if d == 13 {
        'D'
    } else if d == 14 {
        'E'
    } else {
        'F'
    }
}

/// A number in upper-case hexadecimal notation, without leading zeros.
pub open spec fn hex_digits(n: nat) -> Seq<char>
    decreases n,
{
    if n < 16 {
        seq![hex_char(n)]
    } else {
        hex_digits(n / 16).push(hex_char(n % 16))
    }
}

/// Appends a character to a text, `String::push` of the standard library.
#[verifier::external_body]
pub(crate) fn push_char(text: &mut String, c: char)
    ensures
        final(text)@ == old(text)@.push(c),
{
    text.push(c)
}

/// The upper-case hexadecimal digit of a number below 16.
fn hex_digit(d: u32) -> (r: char)
    requires
        d < 16,
    ensures
        r == hex_char(d as nat),
{
    if d == 0 {
        '0'
    } else if d == 1 {
        '1'
    } else if d == 2 {
        '2'
    } else if d == 3 {
        '3'
    } else if d == 4 {
        '4'
    } else if d == 5 {
        '5'
    } else if d == 6 {
        '6'
    } else if d == 7 {
        '7'
    } else if d == 8 {
        '8'
    } else if d == 9 {
        '9'
    } else if d == 10 {
        'A'
    } else if d == 11 {
        'B'
    } else if d == 12 {
        'C'
    } else if d == 13 {
        'D'
    } else if d == 14 {
        'E'
    } else {
        'F'
    }
}

/// Writes a number in upper-case hexadecimal, without leading zeros.
pub fn hex_text(n: u32) -> (r: String)
    ensures
        r@ == hex_digits(n as nat),
    decreases n,
{
    if n < 16 {
        let mut text = String::new();
        push_char(&mut text, hex_digit(n));
        assert(text@ =~= seq![hex_char(n as nat)]);
        text
    } else {
        let mut text = hex_text(n / 16);
        push_char(&mut text, hex_digit(n % 16));
        text
    }
}

} // verus!
