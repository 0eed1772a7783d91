//! Decimal numerals: reading integers from text and writing them back.

use vstd::prelude::*;
use vstd::string::{StrSliceExecFns, StringExecFns};

verus! {

/// Whether `c` is one of the ten ASCII digits.
pub open spec fn is_digit(c: char) -> bool {
    '0' <= c <= '9'
}

/// The value of a digit.
pub open spec fn digit_value(c: char) -> int {
    c as int - '0' as int
}

/// The digit that stands for `d`, for `d` from 0 to 9.
pub open spec fn digit_char(d: int) -> char {
    ('0' as int + d) as char
}

/// Whether `s` consists of digits only.
pub open spec fn all_digits(s: Seq<char>) -> bool {
    forall|i: int| 0 <= i < s.len() ==> is_digit(#[trigger] s[i])
}

/// The number that a run of digits denotes in base ten.
pub open spec fn digits_value(s: Seq<char>) -> int
    decreases s.len(),
{
    if s.len() == 0 {
        0
    } else {
        digits_value(s.drop_last()) * 10 + digit_value(s.last())
    }
}

/// The number that a run of at least one digit denotes; `None` for anything
/// else.
pub open spec fn unsigned_value(s: Seq<char>) -> Option<int> {
    if s.len() > 0 && all_digits(s) {
        Some(digits_value(s))
    } else {
        None
    }
}

/// The number that a numeral denotes: digits, with `+` allowed in front, and
/// `-` too where `signed` admits it. No blanks, no separators, nothing else.
pub open spec fn numeral_value(s: Seq<char>, signed: bool) -> Option<int> {
    if s.len() > 0 && s[0] == '+' {
        unsigned_value(s.drop_first())
    } else if signed && s.len() > 0 && s[0] == '-' {
        match unsigned_value(s.drop_first()) {
            Some(magnitude) => Some(-magnitude),
            None => None,
        }
    } else {
        unsigned_value(s)
    }
}

/// What `s` reads as a signed 64-bit integer: its value, if it is a numeral
/// and the value fits.
pub open spec fn parsed_i64(s: Seq<char>) -> Option<i64> {
    match numeral_value(s, true) {
        Some(value) => if i64::MIN <= value <= i64::MAX {
            Some(value as i64)
        } else {
            None
        },
        None => None,
    }
}

/// What `s` reads as an unsigned 32-bit integer: its value, if it is a
/// numeral without `-` and the value fits.
pub open spec fn parsed_u32(s: Seq<char>) -> Option<u32> {
    match numeral_value(s, false) {
        Some(value) => if value <= u32::MAX {
            Some(value as u32)
        } else {
            None
        },
        None => None,
    }
}

/// The digits of a natural number, without leading zeros.
pub open spec fn nat_decimal(n: nat) -> Seq<char>
    decreases n,
{
    if n < 10 {
        seq![digit_char(n as int)]
    } else {
        nat_decimal(n / 10).push(digit_char((n % 10) as int))
    }
}

/// The decimal numeral of an integer: its digits, with `-` in front of a
/// negative one.
pub open spec fn decimal(n: int) -> Seq<char> {
    if n < 0 {
        seq!['-'] + nat_decimal((-n) as nat)
    } else {
        nat_decimal(n as nat)
    }
}

/// A run of digits denotes at least what any of its beginnings denotes.
proof fn lemma_digits_value_grows(s: Seq<char>, n: int)
    requires
        all_digits(s),
        0 <= n <= s.len(),
    ensures
        0 <= digits_value(s.take(n)) <= digits_value(s),
    decreases s.len(),
{
    if n == s.len() {
        assert(s.take(n) == s);
        if s.len() > 0 {
            lemma_digits_value_grows(s.drop_last(), n - 1);
            assert(s.drop_last().take(n - 1) == s.drop_last());
        }
    } else {
        assert(s.drop_last().take(n) == s.take(n));
        lemma_digits_value_grows(s.drop_last(), n);
    }
}

/// Reads the digits of `text` from position `from` to its end. The result is
/// the number they denote if there is at least one of them, all are digits,
/// and the number does not exceed `limit`.
fn parse_digits(text: &str, from: usize, limit: u64) -> (value: Option<u64>)
    requires
        text.is_ascii(),
        from <= text@.len(),
        limit <= 0x8000_0000_0000_0000,
    ensures
        match value {
            Some(number) => number <= limit && unsigned_value(text@.skip(from as int)) == Some(
                number as int,
            ),
            None => match unsigned_value(text@.skip(from as int)) {
                Some(number) => number > limit,
                None => true,
            },
        },
{
    let length = text.unicode_len();
    let ghost digits = text@.skip(from as int);
    if from == length {
        return None;
    }
    let mut total: u64 = 0;
    let mut i: usize = from;
    while i < length
        invariant
            text.is_ascii(),
            length == text@.len(),
            digits == text@.skip(from as int),
            from <= i <= length,
            limit <= 0x8000_0000_0000_0000,
            all_digits(digits.take(i - from)),
            total == digits_value(digits.take(i - from)),
            total <= limit,
        decreases length - i,
    {
        let byte = text.get_ascii(i);
        let ghost c = text@[i as int];
        assert(digits[i - from] == c);
        assert(c as int == byte as int);
        if byte < 48 || byte > 57 {
            assert(!is_digit(digits[i - from]));
            return None;
        }
        let ghost seen = digits.take(i - from);
        let ghost more = digits.take(i - from + 1);
        assert(more.drop_last() == seen);
        assert(more.last() == c);
        assert(all_digits(more)) by {
            assert forall|k: int| 0 <= k < more.len() implies is_digit(#[trigger] more[k]) by {
                if k < seen.len() {
                    assert(more[k] == seen[k]);
                }
            }
        }
        let next: u128 = total as u128 * 10 + (byte - 48) as u128;
        if next > limit as u128 {
            proof {
                if all_digits(digits) {
                    lemma_digits_value_grows(digits, i - from + 1);
                }
            }
            return None;
        }
        total = next as u64;
        i += 1;
    }
    assert(digits.take(length - from) == digits);
    Some(total)
}

/// A text with a character beyond ASCII is no numeral.
proof fn lemma_numeral_is_ascii(s: Seq<char>, signed: bool)
    requires
        !vstd::utf8::is_ascii_chars(s),
    ensures
        numeral_value(s, signed) is None,
{
    let at = choose|i: int| 0 <= i < s.len() && !('\0' <= #[trigger] s[i] <= '\u{7f}');
    assert(!is_digit(s[at]));
    if at > 0 {
        assert(s.drop_first()[at - 1] == s[at]);
    }
}

/// Reads a signed 64-bit integer as `str::parse::<i64>` does: decimal
/// digits with an optional sign in front, and nothing else.
pub fn parse_i64(text: &str) -> (value: Option<i64>)
    ensures
        value == parsed_i64(text@),
{
    if !text.is_ascii() {
        proof {
            lemma_numeral_is_ascii(text@, true);
        }
        return None;
    }
    let length = text.unicode_len();
    if length == 0 {
        return None;
    }
    let first = text.get_ascii(0);
    assert(text@[0] as int == first as int);
    assert(text@.skip(1) == text@.drop_first());
    assert(text@.skip(0) == text@);
    if first == 45 {
        match parse_digits(text, 1, 0x8000_0000_0000_0000) {
            Some(magnitude) => {
                if magnitude == 0x8000_0000_0000_0000 {
                    Some(i64::MIN)
                } else {
                    Some(-(magnitude as i64))
                }
            },
            None => None,
        }
    } else if first == 43 {
        match parse_digits(text, 1, 0x7fff_ffff_ffff_ffff) {
            Some(magnitude) => Some(magnitude as i64),
            None => None,
        }
    } else {
        match parse_digits(text, 0, 0x7fff_ffff_ffff_ffff) {
            Some(magnitude) => Some(magnitude as i64),
            None => None,
        }
    }
}

/// Reads an unsigned 32-bit integer as `str::parse::<u32>` does: decimal
/// digits with an optional `+` in front, and nothing else.
pub fn parse_u32(text: &str) -> (value: Option<u32>)
    ensures
        value == parsed_u32(text@),
{
    if !text.is_ascii() {
        proof {
            lemma_numeral_is_ascii(text@, false);
        }
        return None;
    }
    let length = text.unicode_len();
    if length == 0 {
        return None;
    }
    let first = text.get_ascii(0);
    assert(text@[0] as int == first as int);
    assert(text@.skip(1) == text@.drop_first());
    assert(text@.skip(0) == text@);
    let from: usize = if first == 43 {
        1
    } else {
        0
    };
    match parse_digits(text, from, 0xffff_ffff) {
        Some(magnitude) => Some(magnitude as u32),
        None => None,
    }
}

/// The text of one digit.
fn digit_text(d: u64) -> (text: &'static str)
    requires
        d < 10,
    ensures
        text@ == seq![digit_char(d as int)],
{
    proof {
        reveal_strlit("0");
        reveal_strlit("1");
        reveal_strlit("2");
        reveal_strlit("3");
        reveal_strlit("4");
        reveal_strlit("5");
        reveal_strlit("6");
        reveal_strlit("7");
        reveal_strlit("8");
        reveal_strlit("9");
    }
    if d == 0 {
        "0"
    } else if d == 1 {
        "1"
    } else if d == 2 {
        "2"
    } else if d == 3 {
        "3"
    } else if d == 4 {
        "4"
    } else if d == 5 {
        "5"
    } else if d == 6 {
        "6"
    } else if d == 7 {
        "7"
    } else if d == 8 {
        "8"
    } else {
        "9"
    }
}

/// Writes a natural number in decimal.
pub fn u64_to_string(n: u64) -> (text: String)
    ensures
        text@ == nat_decimal(n as nat),
    decreases n,
{
    if n < 10 {
        String::from_str(digit_text(n))
    } else {
        u64_to_string(n / 10).concat(digit_text(n % 10))
    }
}

/// Writes an integer in decimal, as `{}` formats it.
pub fn i64_to_string(n: i64) -> (text: String)
    ensures
        text@ == decimal(n as int),
{
    if n < 0 {
        let magnitude: u64 = (-(n + 1)) as u64 + 1;
        let digits = u64_to_string(magnitude);
        proof {
            reveal_strlit("-");
        }
        assert("-"@ == seq!['-']);
        String::from_str("-").concat(digits.as_str())
    } else {
        u64_to_string(n as u64)
    }
}

/// The digits of a natural number are digits, at least one, and denote it.
pub proof fn lemma_nat_decimal_denotes(n: nat)
    ensures
        nat_decimal(n).len() > 0,
        all_digits(nat_decimal(n)),
        digits_value(nat_decimal(n)) == n,
    decreases n,
{
    if n < 10 {
        let digits = nat_decimal(n);
        assert(digits.drop_last() == Seq::<char>::empty());
        assert(digits_value(digits.drop_last()) == 0);
        assert(digits.last() == digit_char(n as int));
    } else {
        let front = nat_decimal(n / 10);
        let digits = front.push(digit_char((n % 10) as int));
        lemma_nat_decimal_denotes(n / 10);
        assert(digits.drop_last() == front);
        assert(digits.last() == digit_char((n % 10) as int));
        assert forall|i: int| 0 <= i < digits.len() implies is_digit(#[trigger] digits[i]) by {
            if i < front.len() {
                assert(digits[i] == front[i]);
            }
        }
    }
}

/// What is written reads back: the numeral of a 64-bit integer is read as
/// that integer.
pub proof fn lemma_decimal_reads_back(n: i64)
    ensures
        parsed_i64(decimal(n as int)) == Some(n),
{
    let text = decimal(n as int);
    if n < 0 {
        let digits = nat_decimal((-n) as nat);
        lemma_nat_decimal_denotes((-n) as nat);
        assert(text[0] == '-');
        assert(text.drop_first() == digits);
    } else {
        lemma_nat_decimal_denotes(n as nat);
        assert(is_digit(text[0]));
    }
}

} // verus!
