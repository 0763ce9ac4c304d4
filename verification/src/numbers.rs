//! Decimal numbers in texts.
use vstd::prelude::*;
use crate::strings::text_of;

verus! {

/// The decimal digit of a number below ten.
pub open spec fn digit_char(digit: int) -> char {
    (48 + digit) as u8 as char
}

/// The value of a decimal digit.
pub open spec fn digit_value(c: char) -> int {
    c as u32 - 48
}

pub open spec fn is_digit(c: char) -> bool {
    48 <= c as u32 <= 57
}

/// A number as decimal digits, without leading zeros.
pub open spec fn decimal(n: nat) -> Seq<char>
    decreases n,
{
    if n < 10 {
        seq![digit_char(n as int)]
    } else {
        decimal(n / 10).push(digit_char((n % 10) as int))
    }
}

pub open spec fn all_digits(text: Seq<char>) -> bool {
    forall|i: int| 0 <= i < text.len() ==> is_digit(#[trigger] text[i])
}

/// The number that a sequence of digits stands for.
pub open spec fn digits_value(text: Seq<char>) -> nat
    decreases text.len(),
{
    if text.len() == 0 {
        0
    } else {
        (10 * digits_value(text.drop_last()) + digit_value(text.last())) as nat
    }
}

/// The number that a text stands for: digits, at least one, behind an optional
/// plus sign.
pub open spec fn number_of(text: Seq<char>) -> Option<nat> {
    let digits = if text.len() > 0 && text[0] == '+' {
        text.skip(1)
    } else {
        text
    };
    if digits.len() > 0 && all_digits(digits) {
        Some(digits_value(digits))
    } else {
        None
    }
}

/// The number that a text stands for, where it is at most `max`.
pub open spec fn number_up_to(text: Seq<char>, max: nat) -> Option<nat> {
    match number_of(text) {
        Some(n) => if n <= max {
            Some(n)
        } else {
            None
        },
        None => None,
    }
}

proof fn lemma_digit(digit: int)
    requires
        0 <= digit < 10,
    ensures
        is_digit(digit_char(digit)),
        digit_value(digit_char(digit)) == digit,
        digit_char(digit) != '+',
{
}

/// A number reads back from its decimal digits.
pub proof fn lemma_decimal_round_trip(n: nat)
    ensures
        all_digits(decimal(n)),
        decimal(n).len() > 0,
        decimal(n)[0] != '+',
        digits_value(decimal(n)) == n,
        number_of(decimal(n)) == Some(n),
    decreases n,
{
    lemma_digit((n % 10) as int);
    if n < 10 {
        assert(decimal(n).drop_last() =~= seq![]);
        assert(digits_value(decimal(n).drop_last()) == 0);
    } else {
        lemma_decimal_round_trip(n / 10);
        let head = decimal(n / 10);
        let whole = head.push(digit_char((n % 10) as int));
        assert(whole.drop_last() =~= head);
        assert forall|i: int| 0 <= i < whole.len() implies is_digit(#[trigger] whole[i]) by {
            if i < head.len() {
                assert(whole[i] == head[i]);
            }
        }
        assert(whole[0] == head[0]);
    }
}

proof fn lemma_value_grows(text: Seq<char>, i: int)
    requires
        all_digits(text),
        0 <= i <= text.len(),
    ensures
        digits_value(text.take(i)) <= digits_value(text),
    decreases text.len() - i,
{
    if i < text.len() {
        lemma_value_grows(text, i + 1);
        let more = text.take(i + 1);
        assert(more.drop_last() =~= text.take(i));
        assert(is_digit(text[i]));
        assert(more.last() == text[i]);
    } else {
        assert(text.take(i) =~= text);
    }
}

fn char_of_digit(digit: u64) -> (c: char)
    requires
        digit < 10,
    ensures
        c == digit_char(digit as int),
{
    (48 + digit as u8) as char
}

/// The decimal digits of a number.
pub fn to_decimal(n: u64) -> (text: String)
    ensures
        text@ == decimal(n as nat),
{
    let mut digits: Vec<char> = Vec::new();
    let mut left: u64 = n;
    while left >= 10
        invariant
            decimal(left as nat) + digits@.reverse() == decimal(n as nat),
        decreases left,
    {
        let ghost before = digits@;
        digits.push(char_of_digit(left % 10));
        assert(digits@.reverse() =~= seq![digit_char((left % 10) as int)] + before.reverse());
        assert(decimal((left / 10) as nat) + digits@.reverse() =~= decimal(left as nat)
            + before.reverse());
        left = left / 10;
    }
    let ghost before = digits@;
    digits.push(char_of_digit(left));
    assert(digits@.reverse() =~= decimal(left as nat) + before.reverse());
    let mut chars: Vec<char> = Vec::new();
    let mut i: usize = digits.len();
    while i > 0
        invariant
            i <= digits@.len(),
            chars@ == digits@.reverse().take(digits@.len() - i),
        decreases i,
    {
        i -= 1;
        chars.push(digits[i]);
        assert(chars@ =~= digits@.reverse().take(digits@.len() - i));
    }
    assert(chars@ =~= digits@.reverse());
    text_of(chars.as_slice())
}

/// Reads a number of at most `max`, as `str::parse` reads unsigned numbers.
pub fn parse_number_chars(chars: &[char], max: u64) -> (number: Option<u64>)
    ensures
        match number {
            Some(n) => number_up_to(chars@, max as nat) == Some(n as nat),
            None => number_up_to(chars@, max as nat) is None,
        },
{
    proof {
        lemma_unsigned_is_number(chars@, max as nat);
    }
    match parse_unsigned(chars, max) {
        Ok(n) => Some(n),
        Err(_) => None,
    }
}

// ---------------------------------------------------------------------------
// Parsing with reasons
// ---------------------------------------------------------------------------

/// Why a text is not a number.
#[derive(Clone, Copy, Debug, PartialEq, Eq)]
pub enum ParseFailure {
    Empty,
    InvalidDigit,
    TooLarge,
    TooSmall,
}

impl ParseFailure {
    /// The failure in the words of the standard library.
    pub fn message(&self) -> (text: &'static str)
        ensures
            text@ == failure_text(*self),
    {
        match self {
            ParseFailure::Empty => "cannot parse integer from empty string",
            ParseFailure::InvalidDigit => "invalid digit found in string",
            ParseFailure::TooLarge => "number too large to fit in target type",
            ParseFailure::TooSmall => "number too small to fit in target type",
        }
    }
}

pub open spec fn failure_text(failure: ParseFailure) -> Seq<char> {
    match failure {
        ParseFailure::Empty => "cannot parse integer from empty string"@,
        ParseFailure::InvalidDigit => "invalid digit found in string"@,
        ParseFailure::TooLarge => "number too large to fit in target type"@,
        ParseFailure::TooSmall => "number too small to fit in target type"@,
    }
}

/// Reads digits from the left behind a number that is there already, up to the
/// first thing that is wrong.
pub open spec fn scan_digits(digits: Seq<char>, value: nat, max: nat) -> Result<nat, ParseFailure>
    decreases digits.len(),
{
    if digits.len() == 0 {
        Ok(value)
    } else if !is_digit(digits[0]) {
        Err(ParseFailure::InvalidDigit)
    } else {
        let more = (10 * value + digit_value(digits[0])) as nat;
        if more > max {
            Err(ParseFailure::TooLarge)
        } else {
            scan_digits(digits.skip(1), more, max)
        }
    }
}

/// A text as an unsigned number of at most `max`.
pub open spec fn unsigned_of(text: Seq<char>, max: nat) -> Result<nat, ParseFailure> {
    if text.len() == 0 {
        Err(ParseFailure::Empty)
    } else if text.len() == 1 && (text[0] == '+' || text[0] == '-') {
        Err(ParseFailure::InvalidDigit)
    } else if text[0] == '+' {
        scan_digits(text.skip(1), 0, max)
    } else {
        scan_digits(text, 0, max)
    }
}

/// A text as a signed number of 32 bits.
pub open spec fn signed32_of(text: Seq<char>) -> Result<int, ParseFailure> {
    if text.len() > 1 && text[0] == '-' {
        match scan_digits(text.skip(1), 0, 0x8000_0000) {
            Ok(magnitude) => Ok(-magnitude),
            Err(ParseFailure::TooLarge) => Err(ParseFailure::TooSmall),
            Err(failure) => Err(failure),
        }
    } else {
        match unsigned_of(text, 0x7FFF_FFFF) {
            Ok(value) => Ok(value as int),
            Err(failure) => Err(failure),
        }
    }
}

proof fn lemma_scan_is_value(done: Seq<char>, digits: Seq<char>, max: nat)
    requires
        all_digits(done),
        digits_value(done) <= max,
    ensures
        match scan_digits(digits, digits_value(done), max) {
            Ok(n) => all_digits(done + digits) && n == digits_value(done + digits) && n <= max,
            Err(_) => !(all_digits(done + digits) && digits_value(done + digits) <= max),
        },
    decreases digits.len(),
{
    let whole = done + digits;
    if digits.len() == 0 {
        assert(whole =~= done);
    } else {
        assert(whole[done.len() as int] == digits[0]);
        if is_digit(digits[0]) {
            let more = done.push(digits[0]);
            assert(more.drop_last() =~= done);
            assert(more + digits.skip(1) =~= whole);
            assert(whole.take(more.len() as int) =~= more);
            if digits_value(more) <= max {
                lemma_scan_is_value(more, digits.skip(1), max);
            } else if all_digits(whole) {
                lemma_value_grows(whole, more.len() as int);
            }
        }
    }
}

/// Both ways to read an unsigned number agree on what is one, and on its value.
pub proof fn lemma_unsigned_is_number(text: Seq<char>, max: nat)
    ensures
        match unsigned_of(text, max) {
            Ok(n) => number_up_to(text, max) == Some(n),
            Err(_) => number_up_to(text, max) is None,
        },
{
    let digits = if text.len() > 0 && text[0] == '+' {
        text.skip(1)
    } else {
        text
    };
    let none: Seq<char> = seq![];
    assert(digits_value(none) == 0);
    lemma_scan_is_value(none, digits, max);
    assert(none + digits =~= digits);
    if text.len() == 1 && text[0] == '-' {
        assert(!is_digit(digits[0]));
    }
}

fn scan(chars: &[char], start: usize, max: u64) -> (value: Result<u64, ParseFailure>)
    requires
        start <= chars@.len(),
    ensures
        match value {
            Ok(n) => scan_digits(chars@.skip(start as int), 0, max as nat) == Ok::<
                nat,
                ParseFailure,
            >(n as nat),
            Err(failure) => scan_digits(chars@.skip(start as int), 0, max as nat) == Err::<
                nat,
                ParseFailure,
            >(failure),
        },
{
    let total: usize = chars.len();
    let mut value: u64 = 0;
    let mut i: usize = start;
    while i < total
        invariant
            start <= i <= total == chars@.len(),
            scan_digits(chars@.skip(start as int), 0, max as nat) == scan_digits(
                chars@.skip(i as int),
                value as nat,
                max as nat,
            ),
        decreases total - i,
    {
        let ghost rest = chars@.skip(i as int);
        assert(rest.skip(1) =~= chars@.skip(i + 1));
        let code: u32 = chars[i] as u32;
        if code < 48 || code > 57 {
            return Err(ParseFailure::InvalidDigit);
        }
        let digit: u64 = (code - 48) as u64;
        if digit > max || value > (max - digit) / 10 {
            return Err(ParseFailure::TooLarge);
        }
        value = value * 10 + digit;
        i += 1;
    }
    Ok(value)
}

/// Reads an unsigned number of at most `max`, or says what is wrong.
pub fn parse_unsigned(chars: &[char], max: u64) -> (value: Result<u64, ParseFailure>)
    ensures
        match value {
            Ok(n) => unsigned_of(chars@, max as nat) == Ok::<nat, ParseFailure>(n as nat) && n <= max,
            Err(failure) => unsigned_of(chars@, max as nat) == Err::<nat, ParseFailure>(failure),
        },
{
    proof {
        lemma_unsigned_is_number(chars@, max as nat);
        assert(chars@.skip(0) =~= chars@);
    }
    if chars.len() == 0 {
        Err(ParseFailure::Empty)
    } else if chars.len() == 1 && (chars[0] == '+' || chars[0] == '-') {
        Err(ParseFailure::InvalidDigit)
    } else if chars[0] == '+' {
        scan(chars, 1, max)
    } else {
        scan(chars, 0, max)
    }
}

/// Reads a signed number of 32 bits, or says what is wrong.
pub fn parse_signed32(chars: &[char]) -> (value: Result<i32, ParseFailure>)
    ensures
        match value {
            Ok(n) => signed32_of(chars@) == Ok::<int, ParseFailure>(n as int),
            Err(failure) => signed32_of(chars@) == Err::<int, ParseFailure>(failure),
        },
{
    if chars.len() > 1 && chars[0] == '-' {
        match scan(chars, 1, 0x8000_0000) {
            Ok(magnitude) => {
                proof {
                    let none: Seq<char> = seq![];
                    assert(digits_value(none) == 0);
                    lemma_scan_is_value(none, chars@.skip(1), 0x8000_0000);
                }
                Ok((-(magnitude as i64)) as i32)
            },
            Err(ParseFailure::TooLarge) => Err(ParseFailure::TooSmall),
            Err(failure) => Err(failure),
        }
    } else {
        match parse_unsigned(chars, 0x7FFF_FFFF) {
            Ok(value) => Ok(value as i32),
            Err(failure) => Err(failure),
        }
    }
}

/// The digits are the ten that everybody knows, and stand for their numbers.
pub proof fn lemma_digits_are_the_usual_ones(c: char)
    ensures
        is_digit(c) <==> '0' <= c && c <= '9',
        digit_char(0) == '0',
        digit_char(1) == '1',
        digit_char(2) == '2',
        digit_char(3) == '3',
        digit_char(4) == '4',
        digit_char(5) == '5',
        digit_char(6) == '6',
        digit_char(7) == '7',
        digit_char(8) == '8',
        digit_char(9) == '9',
{
}

/// A number is written from its highest place to its lowest: behind the digits of its
/// tens stands the digit of its ones, and no number but zero begins with a zero.
pub proof fn lemma_decimal_places(tens: nat, ones: nat)
    requires
        ones < 10,
    ensures
        tens > 0 ==> decimal(10 * tens + ones) == decimal(tens).push(digit_char(ones as int)),
        decimal(ones) == seq![digit_char(ones as int)],
        tens > 0 ==> decimal(tens)[0] != '0',
    decreases tens,
{
    assert((10 * tens + ones) / 10 == tens && (10 * tens + ones) % 10 == ones);
    if tens >= 10 {
        lemma_decimal_places(tens / 10, tens % 10);
        assert(tens == 10 * (tens / 10) + tens % 10);
        lemma_decimal_round_trip(tens / 10);
    }
}

/// One more digit is one more place.
pub proof fn lemma_value_of_one_more_digit(text: Seq<char>, c: char)
    requires
        '0' <= c,
        c <= '9',
    ensures
        digits_value(text.push(c)) == 10 * digits_value(text) + (c as u32 - '0' as u32),
        digits_value(Seq::<char>::empty()) == 0,
{
    assert(text.push(c).drop_last() =~= text);
}

/// A number is read from digits alone, with or without a plus sign, and only where it
/// does not exceed the limit.
pub proof fn lemma_numbers_are_digits(digits: Seq<char>, max: nat)
    requires
        digits.len() > 0,
        forall|i: int| 0 <= i < digits.len() ==> '0' <= #[trigger] digits[i] && digits[i] <= '9',
    ensures
        number_of(digits) == Some(digits_value(digits)),
        number_of(seq!['+'] + digits) == Some(digits_value(digits)),
        digits_value(digits) <= max ==> number_up_to(digits, max) == Some(digits_value(digits)),
        digits_value(digits) > max ==> number_up_to(digits, max) is None,
{
    assert((seq!['+'] + digits).skip(1) =~= digits);
    assert(digits[0] != '+');
    assert(all_digits(digits));
}

/// A text with anything but digits behind the sign is no number, nor is one without
/// digits.
pub proof fn lemma_other_texts_are_no_numbers(text: Seq<char>, i: int, max: nat)
    requires
        0 <= i < text.len() ==> !('0' <= text[i] && text[i] <= '9') && !(i == 0 && text[i] == '+'),
        0 <= i < text.len() || text.len() == 0 || text == seq!['+'],
    ensures
        number_of(text) is None,
        number_up_to(text, max) is None,
        unsigned_of(text, max) is Err,
{
    lemma_unsigned_is_number(text, max);
    if 0 <= i < text.len() {
        lemma_digits_are_the_usual_ones(text[i]);
        if text[0] == '+' {
            assert(text.skip(1)[i - 1] == text[i]);
            assert(!is_digit(text.skip(1)[i - 1]));
        } else {
            assert(!is_digit(text[i]));
        }
    } else if text.len() > 0 {
        assert(text[0] == '+' && text.skip(1).len() == 0);
    }
}

/// Why a text is no number: it is empty, it is a sign alone, or the first thing wrong
/// with it is a character that is no digit or a value above the limit.
pub proof fn lemma_failures_say_what_is_wrong(digits: Seq<char>, max: nat)
    ensures
        unsigned_of(Seq::<char>::empty(), max) == Err::<nat, _>(ParseFailure::Empty),
        unsigned_of(seq!['+'], max) == Err::<nat, _>(ParseFailure::InvalidDigit),
        unsigned_of(seq!['-'], max) == Err::<nat, _>(ParseFailure::InvalidDigit),
        digits.len() > 0 && !('0' <= digits[0] && digits[0] <= '9') && digits[0] != '+'
            ==> unsigned_of(digits, max) == Err::<nat, _>(ParseFailure::InvalidDigit),
        digits.len() > 0 && (forall|i: int|
            0 <= i < digits.len() ==> '0' <= #[trigger] digits[i] && digits[i] <= '9')
            && digits_value(digits) > max ==> unsigned_of(digits, max) == Err::<nat, _>(
            ParseFailure::TooLarge,
        ),
{
    if digits.len() > 0 {
        lemma_digits_are_the_usual_ones(digits[0]);
    }
    if digits.len() > 0 && (forall|i: int|
        0 <= i < digits.len() ==> '0' <= #[trigger] digits[i] && digits[i] <= '9') {
        let none: Seq<char> = seq![];
        assert(digits_value(none) == 0);
        assert(none + digits =~= digits);
        lemma_scan_is_value(none, digits, max);
        lemma_scan_of_digits(digits, 0, max);
        assert(digits[0] != '+' && digits[0] != '-');
    }
}

proof fn lemma_scan_of_digits(digits: Seq<char>, value: nat, max: nat)
    requires
        forall|i: int| 0 <= i < digits.len() ==> '0' <= #[trigger] digits[i] && digits[i] <= '9',
    ensures
        scan_digits(digits, value, max) is Err ==> scan_digits(digits, value, max) == Err::<
            nat,
            ParseFailure,
        >(ParseFailure::TooLarge),
    decreases digits.len(),
{
    if digits.len() > 0 {
        assert(is_digit(digits[0]));
        let rest = digits.skip(1);
        assert forall|i: int| 0 <= i < rest.len() implies '0' <= #[trigger] rest[i] && rest[i]
            <= '9' by {
            assert(rest[i] == digits[i + 1]);
        }
        lemma_scan_of_digits(rest, (10 * value + digit_value(digits[0])) as nat, max);
    }
}

/// A signed number is an unsigned one, or the opposite of one behind a minus sign, and
/// fits 32 bits.
pub proof fn lemma_signed_numbers(digits: Seq<char>)
    requires
        digits.len() > 0,
        forall|i: int| 0 <= i < digits.len() ==> '0' <= #[trigger] digits[i] && digits[i] <= '9',
    ensures
        digits_value(digits) <= 0x7FFF_FFFF ==> signed32_of(digits) == Ok::<int, ParseFailure>(
            digits_value(digits) as int,
        ),
        digits_value(digits) > 0x7FFF_FFFF ==> signed32_of(digits) == Err::<int, ParseFailure>(
            ParseFailure::TooLarge,
        ),
        digits_value(digits) <= 0x8000_0000 ==> signed32_of(seq!['-'] + digits) == Ok::<
            int,
            ParseFailure,
        >(-(digits_value(digits) as int)),
        digits_value(digits) > 0x8000_0000 ==> signed32_of(seq!['-'] + digits) == Err::<
            int,
            ParseFailure,
        >(ParseFailure::TooSmall),
{
    let none: Seq<char> = seq![];
    assert(digits_value(none) == 0);
    assert(none + digits =~= digits);
    assert((seq!['-'] + digits).skip(1) =~= digits);
    assert(all_digits(digits));
    assert(digits[0] != '+' && digits[0] != '-');
    lemma_scan_is_value(none, digits, 0x7FFF_FFFF);
    lemma_scan_is_value(none, digits, 0x8000_0000);
    lemma_scan_of_digits(digits, 0, 0x7FFF_FFFF);
    lemma_scan_of_digits(digits, 0, 0x8000_0000);
}

/// Each failure has its own words.
pub proof fn lemma_failures_have_their_words(failure: ParseFailure)
    ensures
        failure is Empty <==> failure_text(failure) == "cannot parse integer from empty string"@,
        failure is InvalidDigit <==> failure_text(failure) == "invalid digit found in string"@,
        failure is TooLarge <==> failure_text(failure) == "number too large to fit in target type"@,
        failure is TooSmall <==> failure_text(failure) == "number too small to fit in target type"@,
{
    reveal_strlit("cannot parse integer from empty string");
    reveal_strlit("invalid digit found in string");
    reveal_strlit("number too large to fit in target type");
    reveal_strlit("number too small to fit in target type");
    assert("cannot parse integer from empty string"@[0] == 'c');
    assert("invalid digit found in string"@[0] == 'i');
    assert("number too large to fit in target type"@[11] == 'l');
    assert("number too small to fit in target type"@[11] == 's');
    assert("number too large to fit in target type"@[0] == 'n');
    assert("number too small to fit in target type"@[0] == 'n');
}

} // verus!
