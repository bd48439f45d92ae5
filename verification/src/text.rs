//! Decimal numerals: writing and reading unsigned integers.
use vstd::prelude::*;

verus! {

/// The character of one decimal digit.
pub open spec fn digit_char(digit: int) -> char {
    (digit + 48) as char
}

/// The decimal numeral of `value`, without leading zeros.
pub open spec fn decimal(value: nat) -> Seq<char>
    decreases value,
{
    if value < 10 {
        seq![digit_char(value as int)]
    } else {
        decimal(value / 10).push(digit_char((value % 10) as int))
    }
}

/// Appends the numeral of one digit.
fn append_digit(text: &mut String, digit: u64)
    requires
        digit < 10,
    ensures
        final(text)@ == old(text)@.push(digit_char(digit as int)),
{
    proof {
        reveal_strlit("0");
        reveal_strlit("1");
        reveal_strlit("2");
        reveal_strlit("3");
        reveal_strlit("4");
        reveal_strlit("5");
        reveal_strlit("6");
        reveal_strlit("7");
        reveal_strlit("8");
        reveal_strlit("9");
    }
    let numeral: &str = if digit == 0 {
        "0"
    } else if digit == 1 {
        "1"
    } else if digit == 2 {
        "2"
    } else if digit == 3 {
        "3"
    } else if digit == 4 {
        "4"
    } else if digit == 5 {
        "5"
    } else if digit == 6 {
        "6"
    } else if digit == 7 {
        "7"
    } else if digit == 8 {
        "8"
    } else {
        "9"
    };
    assert(numeral@ =~= seq![digit_char(digit as int)]);
    text.append(numeral);
    assert(text@ =~= old(text)@.push(digit_char(digit as int)));
}

/// Appends the decimal numeral of `value`.
pub fn append_decimal(text: &mut String, value: u64)
    ensures
        final(text)@ == old(text)@ + decimal(value as nat),
    decreases value,
{
    if value >= 10 {
        append_decimal(text, value / 10);
    }
    append_digit(text, value % 10);
    assert(text@ =~= old(text)@ + decimal(value as nat));
}

/// Why a text is not the numeral of a `u64`.
#[derive(Debug, Clone, Copy, PartialEq, Eq, Structural)]
pub enum ParseIntError {
    /// The text is empty.
    Empty,
    /// A character is not a decimal digit.
    InvalidDigit,
    /// The number exceeds `u64::MAX`.
    PosOverflow,
}

impl ParseIntError {
    /// The sentence that describes the error.
    pub open spec fn spec_message(self) -> Seq<char> {
        match self {
            ParseIntError::Empty => "cannot parse integer from empty string"@,
            ParseIntError::InvalidDigit => "invalid digit found in string"@,
            ParseIntError::PosOverflow => "number too large to fit in target type"@,
        }
    }

    /// The sentence that describes the error.
    pub fn message(&self) -> (text: &'static str)
        ensures
            text@ == self.spec_message(),
    {
        match self {
            ParseIntError::Empty => "cannot parse integer from empty string",
            ParseIntError::InvalidDigit => "invalid digit found in string",
            ParseIntError::PosOverflow => "number too large to fit in target type",
        }
    }
}

/// Whether `c` is one of the ten ASCII decimal digits.
pub open spec fn is_digit(c: char) -> bool {
    48 <= c as int <= 57
}

/// The number that a sequence of decimal digits denotes.
pub open spec fn digits_value(digits: Seq<char>) -> nat
    decreases digits.len(),
{
    if digits.len() == 0 {
        0
    } else {
        digits_value(digits.drop_last()) * 10 + (digits.last() as int - 48) as nat
    }
}

/// How many characters at the start of `text` are decimal digits.
pub open spec fn leading_digits(text: Seq<char>) -> nat
    decreases text.len(),
{
    if text.len() == 0 || !is_digit(text[0]) {
        0
    } else {
        1 + leading_digits(text.skip(1))
    }
}

/// `text` without the plus sign that may precede the digits.
pub open spec fn unsigned_part(text: Seq<char>) -> Seq<char> {
    if text.len() > 1 && text[0] == '+' {
        text.skip(1)
    } else {
        text
    }
}

/// The number that `text` denotes: decimal digits after an optional plus sign.
/// Digits beyond `u64::MAX` are reported before a character that is no digit
/// further on.
pub open spec fn parsed(text: Seq<char>) -> Result<u64, ParseIntError> {
    let digits = unsigned_part(text);
    let leading = leading_digits(digits);
    let value = digits_value(digits.take(leading as int));
    if text.len() == 0 {
        Err(ParseIntError::Empty)
    } else if value > u64::MAX {
        Err(ParseIntError::PosOverflow)
    } else if leading < digits.len() {
        Err(ParseIntError::InvalidDigit)
    } else {
        Ok(value as u64)
    }
}

/// The digits at the start of a text end where a character is no digit.
proof fn lemma_leading_digits(text: Seq<char>, count: nat)
    requires
        count <= text.len(),
        forall|i: int| 0 <= i < count ==> is_digit(text[i]),
        count == text.len() || !is_digit(text[count as int]),
    ensures
        leading_digits(text) == count,
    decreases text.len(),
{
    if count > 0 {
        let rest = text.skip(1);
        assert forall|i: int| 0 <= i < count - 1 implies is_digit(rest[i]) by {
            assert(rest[i] == text[i + 1]);
        }
        if count < text.len() {
            assert(rest[count - 1] == text[count as int]);
        }
        lemma_leading_digits(rest, (count - 1) as nat);
    }
}

/// At least `count` characters are counted as leading digits when they are digits.
proof fn lemma_leading_digits_at_least(text: Seq<char>, count: nat)
    requires
        count <= text.len(),
        forall|i: int| 0 <= i < count ==> is_digit(text[i]),
    ensures
        count <= leading_digits(text) <= text.len(),
    decreases text.len(),
{
    if text.len() > 0 && is_digit(text[0]) {
        let rest = text.skip(1);
        let less: nat = if count > 0 { (count - 1) as nat } else { 0 };
        assert forall|i: int| 0 <= i < less implies is_digit(rest[i]) by {
            assert(rest[i] == text[i + 1]);
        }
        lemma_leading_digits_at_least(rest, less);
    }
}

/// More digits never make the denoted number smaller.
proof fn lemma_digits_value_grows(digits: Seq<char>, short: nat, long: nat)
    requires
        short <= long <= digits.len(),
    ensures
        digits_value(digits.take(short as int)) <= digits_value(digits.take(long as int)),
    decreases long,
{
    if short < long {
        lemma_digits_value_grows(digits, short, (long - 1) as nat);
        assert(digits.take(long as int).drop_last() =~= digits.take(long - 1));
    }
}

/// The characters of `text`, one by one.
fn characters(text: &str) -> (chars: Vec<char>)
    ensures
        chars@ == text@,
{
    let mut chars: Vec<char> = Vec::new();
    for c in iter: text.chars()
        invariant
            iter.seq() == text@,
            chars@ == text@.take(iter.index() as int),
    {
        chars.push(c);
        assert(chars@ =~= text@.take(iter.index() + 1));
    }
    assert(text@.take(text@.len() as int) =~= text@);
    chars
}

/// Reads the number that `text` denotes.
pub fn parse_u64(text: &str) -> (number: Result<u64, ParseIntError>)
    ensures
        number == parsed(text@),
{
    let chars = characters(text);
    if chars.len() == 0 {
        return Err(ParseIntError::Empty);
    }
    let start: usize = if chars.len() > 1 && chars[0] == '+' { 1 } else { 0 };
    let ghost digits = unsigned_part(text@);
    assert(digits =~= text@.skip(start as int));
    let mut value: u64 = 0;
    let mut index: usize = start;
    assert(digits.take(0).len() == 0);
    while index < chars.len()
        invariant
            chars@ == text@,
            text@.len() > 0,
            start <= index <= chars.len(),
            digits == unsigned_part(text@),
            digits == text@.skip(start as int),
            forall|i: int| 0 <= i < index - start ==> is_digit(digits[i]),
            value == digits_value(digits.take(index - start)),
        decreases chars.len() - index,
    {
        let c = chars[index];
        let ghost seen = index - start;
        assert(digits[seen] == c);
        let code: u32 = c as u32;
        proof {
            vstd::utf8::char_u32_cast(c, code);
        }
        if code < 48 || code > 57 {
            proof {
                lemma_leading_digits(digits, seen as nat);
            }
            return Err(ParseIntError::InvalidDigit);
        }
        let digit: u64 = (code - 48) as u64;
        assert(digits.take(seen + 1).drop_last() =~= digits.take(seen));
        assert(digits_value(digits.take(seen + 1)) == value * 10 + digit);
        if value > u64::MAX / 10 || value * 10 > u64::MAX - digit {
            proof {
                lemma_leading_digits_at_least(digits, (seen + 1) as nat);
                lemma_digits_value_grows(digits, (seen + 1) as nat, leading_digits(digits));
            }
            return Err(ParseIntError::PosOverflow);
        }
        value = value * 10 + digit;
        index = index + 1;
    }
    proof {
        lemma_leading_digits(digits, digits.len());
        assert(digits.take(digits.len() as int) =~= digits);
    }
    Ok(value)
}

/// The numeral of a number is made of digits and denotes that number.
proof fn lemma_decimal_digits(value: nat)
    ensures
        decimal(value).len() > 0,
        forall|i: int| 0 <= i < decimal(value).len() ==> is_digit(decimal(value)[i]),
        digits_value(decimal(value)) == value,
    decreases value,
{
    if value < 10 {
        let numeral = decimal(value);
        assert(numeral.drop_last() =~= Seq::<char>::empty());
        assert(digits_value(numeral.drop_last()) == 0);
    } else {
        lemma_decimal_digits(value / 10);
        assert(decimal(value).drop_last() =~= decimal(value / 10));
    }
}

/// Reading back the numeral of a number gives that number.
pub proof fn decimal_parses_back(value: u64)
    ensures
        parsed(decimal(value as nat)) == Ok::<u64, ParseIntError>(value),
{
    let text = decimal(value as nat);
    lemma_decimal_digits(value as nat);
    assert(is_digit(text[0]));
    lemma_leading_digits(text, text.len());
    assert(text.take(text.len() as int) =~= text);
}

/// What is counted as leading digits are digits, and what follows them is none.
proof fn lemma_leading_digits_end(text: Seq<char>)
    ensures
        leading_digits(text) <= text.len(),
        forall|i: int| 0 <= i < leading_digits(text) ==> is_digit(#[trigger] text[i]),
        leading_digits(text) < text.len() ==> !is_digit(text[leading_digits(text) as int]),
    decreases text.len(),
{
    if text.len() > 0 && is_digit(text[0]) {
        let rest = text.skip(1);
        lemma_leading_digits_end(rest);
        assert forall|i: int| 0 <= i < leading_digits(text) implies is_digit(
            #[trigger] text[i],
        ) by {
            if i > 0 {
                assert(rest[i - 1] == text[i]);
            }
        }
        if leading_digits(text) < text.len() {
            assert(rest[leading_digits(rest) as int] == text[leading_digits(text) as int]);
        }
    }
}

/// A text is read character by character. A digit alone, or behind a plus sign, is
/// its own value. Each further digit multiplies the number by ten and adds to it, as
/// long as the result fits; any other character makes the text invalid. A text that
/// is refused stays refused for the same reason.
pub proof fn text_is_read_digit_by_digit(text: Seq<char>, c: char)
    ensures
        ({
            let digit = c as int - 48;
            let alone = if 0 <= digit <= 9 {
                Ok(digit as u64)
            } else {
                Err(ParseIntError::InvalidDigit)
            };
            &&& parsed(Seq::<char>::empty()) == Err::<u64, ParseIntError>(ParseIntError::Empty)
            &&& parsed(seq![c]) == alone
            &&& parsed(seq!['+', c]) == alone
            &&& text.len() > 0 && text != seq!['+'] ==> parsed(text.push(c)) == (match parsed(text) {
                Err(error) => Err(error),
                Ok(number) => if !(0 <= digit <= 9) {
                    Err(ParseIntError::InvalidDigit)
                } else if number * 10 + digit > u64::MAX {
                    Err(ParseIntError::PosOverflow)
                } else {
                    Ok((number * 10 + digit) as u64)
                },
            })
        }),
{
    let digit = c as int - 48;
    lemma_single(seq![c], c);
    assert(unsigned_part(seq![c]) == seq![c]);
    assert(unsigned_part(seq!['+', c]) =~= seq![c]);
    if text.len() > 0 && text != seq!['+'] {
        let digits = unsigned_part(text);
        let longer = text.push(c);
        assert(unsigned_part(longer) =~= digits.push(c)) by {
            if text.len() == 1 && text[0] == '+' {
                assert(text =~= seq!['+']);
            }
        }
        lemma_leading_digits_end(digits);
        let leading = leading_digits(digits);
        assert forall|i: int| 0 <= i < digits.len() implies digits.push(c)[i] == #[trigger] digits[
            i
        ] by {}
        if leading < digits.len() {
            lemma_leading_digits(digits.push(c), leading);
            assert(digits.push(c).take(leading as int) =~= digits.take(leading as int));
        } else {
            assert(digits.take(leading as int) =~= digits);
            if is_digit(c) {
                lemma_leading_digits(digits.push(c), leading + 1);
                assert(digits.push(c).take((leading + 1) as int) =~= digits.push(c));
                assert(digits.push(c).drop_last() =~= digits);
            } else {
                lemma_leading_digits(digits.push(c), leading);
                assert(digits.push(c).take(leading as int) =~= digits);
            }
        }
    }
}

/// The digits of a single character.
proof fn lemma_single(text: Seq<char>, c: char)
    requires
        text == seq![c],
    ensures
        is_digit(c) ==> leading_digits(text) == 1 && digits_value(text.take(1)) == c as int - 48,
        !is_digit(c) ==> leading_digits(text) == 0 && digits_value(text.take(0)) == 0,
{
    if is_digit(c) {
        lemma_leading_digits(text, 1);
        assert(text.take(1) =~= text);
        assert(text.drop_last() =~= Seq::<char>::empty());
        assert(digits_value(text.drop_last()) == 0);
    } else {
        lemma_leading_digits(text, 0);
        assert(text.take(0) =~= Seq::<char>::empty());
    }
}

/// A numeral is made of digits, and starts with a zero only if it is that of zero.
pub proof fn decimal_has_no_leading_zero(value: nat)
    ensures
        decimal(value).len() > 0,
        forall|i: int|
            0 <= i < decimal(value).len() ==> 48 <= #[trigger] decimal(value)[i] as int <= 57,
        decimal(value)[0] as int == 48 <==> value == 0,
        decimal(value).len() == 1 <==> value < 10,
    decreases value,
{
    lemma_decimal_digits(value);
    assert forall|i: int| 0 <= i < decimal(value).len() implies 48 <= #[trigger] decimal(
        value,
    )[i] as int <= 57 by {
        assert(is_digit(decimal(value)[i]));
    }
    if value >= 10 {
        decimal_has_no_leading_zero(value / 10);
    }
}

} // verus!
