//! Whole numbers in decimal notation: reading them and writing them.

use vstd::arithmetic::power::pow;
use vstd::prelude::*;
use vstd::string::*;

verus! {

/// Why a text is not a number.
#[derive(Clone, Copy, Debug, PartialEq, Eq, Structural)]
pub enum NumberError {
    /// The text is empty.
    Empty,
    /// The text holds something that is not a digit.
    InvalidDigit,
    /// The number is larger than the largest that is allowed.
    TooLarge,
    /// The number is smaller than the smallest that is allowed.
    TooSmall,
}

impl NumberError {
    /// What to tell the user.
    pub fn message(&self) -> (message: &'static str)
        ensures
            message@ == match self {
                NumberError::Empty => "cannot parse integer from empty string"@,
                NumberError::InvalidDigit => "invalid digit found in string"@,
                NumberError::TooLarge => "number too large to fit in target type"@,
                NumberError::TooSmall => "number too small to fit in target type"@,
            },
    {
        match self {
            NumberError::Empty => "cannot parse integer from empty string",
            NumberError::InvalidDigit => "invalid digit found in string",
            NumberError::TooLarge => "number too large to fit in target type",
            NumberError::TooSmall => "number too small to fit in target type",
        }
    }
}

/// Whether `c` is one of the ten ASCII digits.
pub open spec fn is_digit(c: char) -> bool {
    '0' <= c <= '9'
}

/// The value of an ASCII digit.
pub open spec fn digit_value(c: char) -> nat {
    (c as int - '0' as int) as nat
}

/// The ASCII digit of value `d`.
pub open spec fn digit_char(d: nat) -> char {
    ('0' as int + d) as char
}

/// Whether `text` holds nothing but ASCII digits.
pub open spec fn all_digits(text: Seq<char>) -> bool {
    forall|i: int| 0 <= i < text.len() ==> is_digit(#[trigger] text[i])
}

/// The number that a row of digits stands for.
pub open spec fn value(digits: Seq<char>) -> nat
    decreases digits.len(),
{
    if digits.len() == 0 {
        0
    } else {
        value(digits.drop_last()) * 10 + digit_value(digits.last())
    }
}

/// The digits of `n`, without leading zeros.
pub open spec fn digits(n: nat) -> Seq<char>
    decreases n,
{
    if n < 10 {
        seq![digit_char(n)]
    } else {
        digits(n / 10).push(digit_char(n % 10))
    }
}

/// `n` in decimal notation.
pub open spec fn decimal(n: int) -> Seq<char> {
    if n < 0 {
        seq!['-'] + digits((-n) as nat)
    } else {
        digits(n as nat)
    }
}

/// Reading `text` digit by digit, up to the first that cannot be taken in: one
/// that is no digit, or that takes the number above `max`.
pub open spec fn read_digits(text: Seq<char>, max: nat) -> Result<nat, NumberError>
    decreases text.len(),
{
    if text.len() == 0 {
        Ok(0)
    } else {
        match read_digits(text.drop_last(), max) {
            Err(error) => Err(error),
            Ok(n) => if !is_digit(text.last()) {
                Err(NumberError::InvalidDigit)
            } else if n * 10 + digit_value(text.last()) > max {
                Err(NumberError::TooLarge)
            } else {
                Ok(n * 10 + digit_value(text.last()))
            },
        }
    }
}

/// Reading `text` as a number that may start with a plus sign.
pub open spec fn read_number(text: Seq<char>, max: nat) -> Result<nat, NumberError> {
    if text.len() == 0 {
        Err(NumberError::Empty)
    } else if text[0] == '+' {
        if text.len() == 1 {
            Err(NumberError::InvalidDigit)
        } else {
            read_digits(text.skip(1), max)
        }
    } else {
        read_digits(text, max)
    }
}

/// Reading `text` as a number that may start with a plus or a minus sign and that
/// fits in 64 bits.
pub open spec fn read_signed(text: Seq<char>) -> Result<int, NumberError> {
    if text.len() == 0 {
        Err(NumberError::Empty)
    } else if text[0] == '+' || text[0] == '-' {
        if text.len() == 1 {
            Err(NumberError::InvalidDigit)
        } else if text[0] == '+' {
            match read_digits(text.skip(1), i64::MAX as nat) {
                Ok(n) => Ok(n as int),
                Err(error) => Err(error),
            }
        } else {
            match read_digits(text.skip(1), (-i64::MIN) as nat) {
                Ok(n) => Ok(-n),
                Err(NumberError::TooLarge) => Err(NumberError::TooSmall),
                Err(error) => Err(error),
            }
        }
    } else {
        match read_digits(text, i64::MAX as nat) {
            Ok(n) => Ok(n as int),
            Err(error) => Err(error),
        }
    }
}

/// A row of digits is read as the number it stands for, exactly when that is
/// not above `max`; nothing else is read.
pub proof fn law_digits_are_read(text: Seq<char>, max: nat)
    ensures
        read_digits(text, max) is Ok <==> all_digits(text) && value(text) <= max,
        read_digits(text, max) is Ok ==> read_digits(text, max) == Ok::<nat, NumberError>(
            value(text),
        ),
        all_digits(text) && value(text) > max ==> read_digits(text, max) == Err::<nat, NumberError>(
            NumberError::TooLarge,
        ),
    decreases text.len(),
{
    if text.len() > 0 {
        let earlier = text.drop_last();
        law_digits_are_read(earlier, max);
        assert(text == earlier.push(text.last()));
        assert(all_digits(text) <==> all_digits(earlier) && is_digit(text.last())) by {
            if all_digits(text) {
                assert(forall|i: int| 0 <= i < earlier.len() ==> earlier[i] == text[i]);
                assert(is_digit(text[text.len() - 1]));
            }
        }
    }
}

/// The digits of a number are digits, at least one, and stand for the number.
pub proof fn law_digits_stand_for_number(n: nat)
    ensures
        all_digits(digits(n)),
        digits(n).len() > 0,
        value(digits(n)) == n,
    decreases n,
{
    if n < 10 {
        reveal_with_fuel(value, 2);
    } else {
        law_digits_stand_for_number(n / 10);
        assert(digits(n).drop_last() == digits(n / 10));
    }
}

/// A number that is written and then read is the same number.
pub proof fn law_written_number_is_read_back(n: nat, max: nat)
    requires
        n <= max,
    ensures
        read_number(digits(n), max) == Ok::<nat, NumberError>(n),
{
    law_digits_stand_for_number(n);
    law_digits_are_read(digits(n), max);
    assert(is_digit(digits(n)[0]));
}

/// A signed number that is written and then read is the same number.
pub proof fn law_written_signed_number_is_read_back(n: i64)
    ensures
        read_signed(decimal(n as int)) == Ok::<int, NumberError>(n as int),
{
    if n < 0 {
        let magnitude = (-n) as nat;
        law_digits_stand_for_number(magnitude);
        law_digits_are_read(digits(magnitude), (-i64::MIN) as nat);
        assert(decimal(n as int).skip(1) == digits(magnitude));
    } else {
        law_digits_stand_for_number(n as nat);
        law_digits_are_read(digits(n as nat), i64::MAX as nat);
        assert(is_digit(digits(n as nat)[0]));
    }
}

/// Reads the digits of `text` from position `start` on.
fn read_digits_from(text: &Vec<char>, start: usize, max: u64) -> (number: Result<u64, NumberError>)
    requires
        start <= text.len(),
    ensures
        match number {
            Ok(n) => read_digits(text@.skip(start as int), max as nat) == Ok::<nat, NumberError>(
                n as nat,
            ),
            Err(e) => read_digits(text@.skip(start as int), max as nat) == Err::<nat, NumberError>(
                e,
            ),
        },
{
    let ghost rest = text@.skip(start as int);
    let mut n: u64 = 0;
    let mut i: usize = start;
    assert(rest.take(0).len() == 0);
    while i < text.len()
        invariant
            start <= i <= text.len(),
            rest == text@.skip(start as int),
            read_digits(rest.take(i - start), max as nat) == Ok::<nat, NumberError>(n as nat),
        decreases text.len() - i,
    {
        let c = text[i];
        proof {
            let next = rest.take(i + 1 - start);
            assert(next.drop_last() == rest.take(i - start));
            assert(next.last() == c);
            lemma_error_stays(rest, i + 1 - start, max as nat);
        }
        if c < '0' || c > '9' {
            return Err(NumberError::InvalidDigit);
        }
        let d: u64 = (c as u32 - '0' as u32) as u64;
        if n > max / 10 || d > max - n * 10 {
            return Err(NumberError::TooLarge);
        }
        n = n * 10 + d;
        i = i + 1;
    }
    assert(rest.take(i - start) == rest);
    Ok(n)
}

/// What cannot be read up to some position cannot be read at all.
proof fn lemma_error_stays(text: Seq<char>, n: int, max: nat)
    requires
        0 <= n <= text.len(),
    ensures
        read_digits(text.take(n), max) is Err ==> read_digits(text, max) == read_digits(
            text.take(n),
            max,
        ),
    decreases text.len(),
{
    if n == text.len() {
        assert(text.take(n) == text);
    } else {
        lemma_error_stays(text.drop_last(), n, max);
        assert(text.drop_last().take(n) == text.take(n));
    }
}

/// The characters of `text`, one by one.
fn characters(text: &str) -> (chars: Vec<char>)
    ensures
        chars@ == text@,
{
    let mut chars: Vec<char> = Vec::new();
    for c in it: text.chars()
        invariant
            chars@ == it.seq().take(it.index()),
            it.seq() == text@,
    {
        chars.push(c);
    }
    chars
}

/// Reads a number of at most `max`, which may start with a plus sign.
pub fn parse_number(text: &str, max: u64) -> (number: Result<u64, NumberError>)
    ensures
        match number {
            Ok(n) => read_number(text@, max as nat) == Ok::<nat, NumberError>(n as nat),
            Err(e) => read_number(text@, max as nat) == Err::<nat, NumberError>(e),
        },
{
    let chars = characters(text);
    if chars.len() == 0 {
        Err(NumberError::Empty)
    } else if chars[0] == '+' {
        if chars.len() == 1 {
            Err(NumberError::InvalidDigit)
        } else {
            read_digits_from(&chars, 1, max)
        }
    } else {
        assert(chars@.skip(0) == text@);
        read_digits_from(&chars, 0, max)
    }
}

/// Reads a number that fits in 64 bits, which may start with a plus or a minus sign.
pub fn parse_signed(text: &str) -> (number: Result<i64, NumberError>)
    ensures
        match number {
            Ok(n) => read_signed(text@) == Ok::<int, NumberError>(n as int),
            Err(e) => read_signed(text@) == Err::<int, NumberError>(e),
        },
{
    let chars = characters(text);
    if chars.len() == 0 {
        return Err(NumberError::Empty);
    }
    let signed = chars[0] == '+' || chars[0] == '-';
    if signed && chars.len() == 1 {
        return Err(NumberError::InvalidDigit);
    }
    if chars[0] == '-' {
        proof {
            law_digits_are_read(text@.skip(1), (-i64::MIN) as nat);
        }
        match read_digits_from(&chars, 1, 0x8000_0000_0000_0000) {
            Ok(magnitude) => Ok((-(magnitude as i128)) as i64),
            Err(NumberError::TooLarge) => Err(NumberError::TooSmall),
            Err(error) => Err(error),
        }
    } else {
        let start: usize = if signed { 1 } else { 0 };
        proof {
            assert(text@.skip(0) == text@);
            law_digits_are_read(text@.skip(start as int), i64::MAX as nat);
        }
        match read_digits_from(&chars, start, i64::MAX as u64) {
            Ok(n) => Ok(n as i64),
            Err(error) => Err(error),
        }
    }
}

/// The digit of value `d`, as a text.
fn digit_text(d: u64) -> (text: &'static str)
    requires
        d < 10,
    ensures
        text@ == seq![digit_char(d as nat)],
{
    proof {
        reveal_strlit("0");
        reveal_strlit("1");
        reveal_strlit("2");
        reveal_strlit("3");
        reveal_strlit("4");
        reveal_strlit("5");
        reveal_strlit("6");
        reveal_strlit("7");
        reveal_strlit("8");
        reveal_strlit("9");
    }
    match d {
        0 => "0",
        1 => "1",
        2 => "2",
        3 => "3",
        4 => "4",
        5 => "5",
        6 => "6",
        7 => "7",
        8 => "8",
        _ => "9",
    }
}

/// Writes `n` in decimal notation.
pub fn write_number(n: u64) -> (text: String)
    ensures
        text@ == digits(n as nat),
    decreases n,
{
    if n < 10 {
        let text = String::from_str(digit_text(n));
        assert(text@ == digits(n as nat));
        text
    } else {
        let mut text = write_number(n / 10);
        text.append(digit_text(n % 10));
        assert(text@ == digits(n as nat / 10).push(digit_char(n as nat % 10)));
        text
    }
}

/// Writes `n` in decimal notation, with a minus sign where it is negative.
pub fn write_signed(n: i64) -> (text: String)
    ensures
        text@ == decimal(n as int),
{
    if n < 0 {
        proof {
            reveal_strlit("-");
        }
        let mut text = String::from_str("-");
        let magnitude: u64 = (-(n as i128)) as u64;
        text.append(write_number(magnitude).as_str());
        assert(text@ == decimal(n as int));
        text
    } else {
        write_number(n as u64)
    }
}

/// The digits are the ten characters from 0 to 9, and the value of each is its
/// place in that row.
pub proof fn law_ten_digits(c: char)
    ensures
        is_digit(c) <==> "0123456789"@.contains(c),
        is_digit(c) ==> digit_value(c) < 10 && "0123456789"@[digit_value(c) as int] == c
            && digit_char(digit_value(c)) == c,
{
    reveal_strlit("0123456789");
    let row = "0123456789"@;
    assert(forall|i: int| 0 <= i < 10 ==> #[trigger] row[i] as int == '0' as int + i);
    if is_digit(c) {
        assert(row[digit_value(c) as int] == c);
    }
}

/// Each digit counts ten times what it would count one place further to the right: a
/// row of digits stands for what its front stands for, moved by as many places as
/// follow, and what the rest stands for.
pub proof fn law_digits_count_by_place(front: Seq<char>, rest: Seq<char>)
    ensures
        value(front + rest) == value(front) * pow(10, rest.len()) + value(rest),
    decreases rest.len(),
{
    reveal(pow);
    if rest.len() == 0 {
        assert(front + rest == front);
    } else {
        let shorter = rest.drop_last();
        law_digits_count_by_place(front, shorter);
        assert((front + rest).drop_last() == front + shorter);
        let f = value(front) as int;
        let p = pow(10, shorter.len());
        assert(pow(10, rest.len()) == 10 * p);
        assert((f * p) * 10 == f * (10 * p)) by (nonlinear_arith);
    }
}

/// A single digit stands for its value.
pub proof fn law_one_digit_stands_for_its_value(c: char)
    requires
        is_digit(c),
    ensures
        "0123456789"@[value(seq![c]) as int] == c,
        value(seq![c]) < 10,
        value(seq![]) == 0,
{
    law_ten_digits(c);
    assert(seq![c].drop_last() =~= Seq::<char>::empty());
    reveal_with_fuel(value, 2);
}

/// A number has one notation: a row of digits that does not start with a needless
/// zero is what is written for the number that it stands for.
pub proof fn law_number_is_written_one_way(text: Seq<char>)
    requires
        text.len() > 0,
        all_digits(text),
        text[0] == '0' ==> text.len() == 1,
    ensures
        digits(value(text)) == text,
        text.len() > 1 ==> value(text) >= 10,
    decreases text.len(),
{
    let shorter = text.drop_last();
    let d = digit_value(text.last());
    assert(is_digit(text[text.len() - 1]));
    assert(digit_char(d) == text.last());
    assert(text == shorter.push(text.last()));
    if shorter.len() == 0 {
        reveal_with_fuel(value, 2);
        assert(shorter =~= Seq::<char>::empty());
        assert(digits(value(text)) =~= text);
    } else {
        assert(all_digits(shorter)) by {
            assert(forall|i: int| 0 <= i < shorter.len() ==> shorter[i] == text[i]);
        }
        law_number_is_written_one_way(shorter);
        assert(is_digit(text[0]));
        if shorter.len() == 1 {
            assert(shorter.drop_last() =~= Seq::<char>::empty());
            reveal_with_fuel(value, 3);
            assert(value(shorter) == digit_value(text[0]));
        }
        assert(value(shorter) >= 1);
        assert(value(text) / 10 == value(shorter));
        assert(value(text) % 10 == d);
    }
}

/// A number is written without needless zeros, and with a minus sign exactly where it
/// is negative.
pub proof fn law_numbers_are_written_plainly(n: int)
    ensures
        n < 0 ==> decimal(n) == seq!['-'] + digits((-n) as nat),
        n >= 0 ==> decimal(n) == digits(n as nat),
        n > 0 ==> digits(n as nat)[0] != '0',
        digits(0) == seq!['0'],
    decreases n,
{
    if n >= 10 {
        law_numbers_are_written_plainly(n / 10);
        law_digits_stand_for_number((n / 10) as nat);
    }
}

/// Reading fails at the first character that cannot be taken in: because it is no
/// digit, or because the number gets too large with it.
pub proof fn law_reading_fails_at_first_obstacle(text: Seq<char>, k: int, max: nat)
    requires
        0 <= k < text.len(),
        all_digits(text.take(k)),
        value(text.take(k)) <= max,
    ensures
        !is_digit(text[k]) ==> read_digits(text, max) == Err::<nat, NumberError>(
            NumberError::InvalidDigit,
        ),
        is_digit(text[k]) && value(text.take(k + 1)) > max ==> read_digits(text, max) == Err::<
            nat,
            NumberError,
        >(NumberError::TooLarge),
{
    law_digits_are_read(text.take(k), max);
    let next = text.take(k + 1);
    assert(next.drop_last() == text.take(k));
    assert(next.last() == text[k]);
    lemma_error_stays(text, k + 1, max);
}

/// An unsigned number may have one plus sign in front, and is read as without it. There
/// has to be at least one digit, and nothing but digits.
pub proof fn law_unsigned_number_may_have_a_plus_sign(text: Seq<char>, max: nat)
    ensures
        text.len() == 0 ==> read_number(text, max) == Err::<nat, NumberError>(NumberError::Empty),
        text.len() == 0 ==> read_number(seq!['+'] + text, max) == Err::<nat, NumberError>(
            NumberError::InvalidDigit,
        ),
        text.len() > 0 && text[0] != '+' ==> read_number(seq!['+'] + text, max) == read_number(
            text,
            max,
        ),
        text.len() > 0 && text[0] == '+' ==> read_number(seq!['+'] + text, max) == Err::<
            nat,
            NumberError,
        >(NumberError::InvalidDigit),
        text.len() > 0 && all_digits(text) && value(text) <= max ==> read_number(text, max) == Ok::<
            nat,
            NumberError,
        >(value(text)),
        text.len() > 0 && all_digits(text) && value(text) > max ==> read_number(text, max) == Err::<
            nat,
            NumberError,
        >(NumberError::TooLarge),
        text.len() > 0 && !all_digits(text) && text[0] != '+' ==> read_number(text, max) is Err,
        text.len() > 0 && !is_digit(text[0]) && text[0] != '+' ==> read_number(text, max) == Err::<
            nat,
            NumberError,
        >(NumberError::InvalidDigit),
{
    assert((seq!['+'] + text).skip(1) == text);
    law_digits_are_read(text, max);
    if text.len() > 0 {
        assert(all_digits(text) ==> is_digit(text[0]));
        law_reading_fails_at_first_obstacle(text, 0, max);
    }
}

/// A signed number is read by its digits and its sign, within the range of 64 bits:
/// a minus sign turns the number round, and what is then too small is told so.
pub proof fn law_signed_number_is_read_by_sign_and_digits(text: Seq<char>)
    requires
        text.len() > 0,
        all_digits(text),
    ensures
        value(text) <= i64::MAX ==> read_signed(text) == Ok::<int, NumberError>(value(text) as int),
        value(text) > i64::MAX ==> read_signed(text) == Err::<int, NumberError>(
            NumberError::TooLarge,
        ),
        read_signed(seq!['+'] + text) == read_signed(text),
        value(text) <= -i64::MIN ==> read_signed(seq!['-'] + text) == Ok::<int, NumberError>(
            -(value(text) as int),
        ),
        value(text) > -i64::MIN ==> read_signed(seq!['-'] + text) == Err::<int, NumberError>(
            NumberError::TooSmall,
        ),
        read_signed(seq![]) == Err::<int, NumberError>(NumberError::Empty),
        read_signed(seq!['+']) == Err::<int, NumberError>(NumberError::InvalidDigit),
        read_signed(seq!['-']) == Err::<int, NumberError>(NumberError::InvalidDigit),
{
    assert((seq!['+'] + text).skip(1) == text);
    assert((seq!['-'] + text).skip(1) == text);
    assert(is_digit(text[0]));
    law_digits_are_read(text, i64::MAX as nat);
    law_digits_are_read(text, (-i64::MIN) as nat);
}

/// A text that holds anything but digits behind at most one sign is not read as a
/// signed number; where the digits before that are not too many, it is told that
/// there is an invalid digit.
pub proof fn law_signed_number_holds_digits_only(text: Seq<char>, k: int)
    requires
        0 <= k < text.len(),
        !is_digit(text[k]),
        all_digits(text.take(k)),
        value(text.take(k)) <= i64::MAX,
        k == 0 ==> text[0] != '+' && text[0] != '-',
    ensures
        read_signed(text) == Err::<int, NumberError>(NumberError::InvalidDigit),
        read_signed(seq!['+'] + text) == Err::<int, NumberError>(NumberError::InvalidDigit),
        read_signed(seq!['-'] + text) == Err::<int, NumberError>(NumberError::InvalidDigit),
{
    assert((seq!['+'] + text).skip(1) == text);
    assert((seq!['-'] + text).skip(1) == text);
    if k > 0 {
        assert(is_digit(text.take(k)[0]));
    }
    law_reading_fails_at_first_obstacle(text, k, i64::MAX as nat);
    law_reading_fails_at_first_obstacle(text, k, (-i64::MIN) as nat);
}

/// Whatever follows, an unsigned number fails at the first character that cannot be
/// taken in.
pub proof fn law_unsigned_number_fails_at_first_obstacle(text: Seq<char>, k: int, max: nat)
    requires
        0 <= k < text.len(),
        all_digits(text.take(k)),
        value(text.take(k)) <= max,
        text[0] != '+',
    ensures
        !is_digit(text[k]) ==> read_number(text, max) == Err::<nat, NumberError>(
            NumberError::InvalidDigit,
        ),
        is_digit(text[k]) && value(text.take(k + 1)) > max ==> read_number(text, max) == Err::<
            nat,
            NumberError,
        >(NumberError::TooLarge),
{
    law_reading_fails_at_first_obstacle(text, k, max);
}

/// Whatever follows, a signed number fails at the first digit with which it leaves the
/// range of 64 bits.
pub proof fn law_signed_number_stays_in_range(text: Seq<char>, k: int)
    requires
        0 < k <= text.len(),
        all_digits(text.take(k)),
    ensures
        value(text.take(k)) > i64::MAX ==> read_signed(text) == Err::<int, NumberError>(
            NumberError::TooLarge,
        ),
        value(text.take(k)) > i64::MAX ==> read_signed(seq!['+'] + text) == Err::<int, NumberError>(
            NumberError::TooLarge,
        ),
        value(text.take(k)) > -i64::MIN ==> read_signed(seq!['-'] + text) == Err::<
            int,
            NumberError,
        >(NumberError::TooSmall),
{
    assert((seq!['+'] + text).skip(1) == text);
    assert((seq!['-'] + text).skip(1) == text);
    assert(is_digit(text.take(k)[0]));
    law_digits_are_read(text.take(k), i64::MAX as nat);
    law_digits_are_read(text.take(k), (-i64::MIN) as nat);
    lemma_error_stays(text, k, i64::MAX as nat);
    lemma_error_stays(text, k, (-i64::MIN) as nat);
}

} // verus!
