use vstd::prelude::*;
use vstd::string::StringExecFns;

verus! {

/// Why a text is not a 32-bit signed decimal number.
#[derive(Debug, Clone, Copy, PartialEq, Eq, Structural)]
pub enum IntErrorKind {
    /// The text is empty.
    Empty,
    /// A character is not a decimal digit, or a sign stands alone.
    InvalidDigit,
    /// The number is above the largest 32-bit signed integer.
    PosOverflow,
    /// The number is below the smallest 32-bit signed integer.
    NegOverflow,
}

/// Whether `c` is one of `0` to `9`.
pub open spec fn is_digit(c: char) -> bool {
    0x30 <= c as u32 <= 0x39
}

/// The number that the digit `c` stands for.
pub open spec fn digit_value(c: char) -> int {
    c as u32 - 0x30
}

/// The number that a sequence of decimal digits stands for.
pub open spec fn decimal_value(digits: Seq<char>) -> int
    decreases digits.len(),
{
    if digits.len() == 0 {
        0
    } else {
        10 * decimal_value(digits.drop_last()) + digit_value(digits.last())
    }
}

/// The number that digits stand for behind a sign.
pub open spec fn signed_value(negative: bool, digits: Seq<char>) -> int {
    if negative {
        -decimal_value(digits)
    } else {
        decimal_value(digits)
    }
}

/// Whether `v` is a 32-bit signed integer.
pub open spec fn in_i32(v: int) -> bool {
    i32::MIN <= v <= i32::MAX
}

/// The error for a number that is out of range on the side of its sign.
pub open spec fn overflow_kind(negative: bool) -> IntErrorKind {
    if negative {
        IntErrorKind::NegOverflow
    } else {
        IntErrorKind::PosOverflow
    }
}

/// Reads `digits` from position `k` on, left to right. The first character
/// that is no digit, or with which the number leaves the 32-bit range, decides
/// the error; at one position the wrong character comes first.
pub open spec fn scan_digits(negative: bool, digits: Seq<char>, k: int) -> Result<
    int,
    IntErrorKind,
>
    decreases digits.len() - k,
{
    if k < 0 || k >= digits.len() {
        Ok(signed_value(negative, digits))
    } else if !is_digit(digits[k]) {
        Err(IntErrorKind::InvalidDigit)
    } else if !in_i32(signed_value(negative, digits.take(k + 1))) {
        Err(overflow_kind(negative))
    } else {
        scan_digits(negative, digits, k + 1)
    }
}

/// Whether `s` begins with a sign.
pub open spec fn has_sign(s: Seq<char>) -> bool {
    s.len() > 0 && (s[0] == '+' || s[0] == '-')
}

/// The digits of `s`: all of it but a leading sign.
pub open spec fn digits_of(s: Seq<char>) -> Seq<char> {
    if has_sign(s) {
        s.drop_first()
    } else {
        s
    }
}

/// What `s` is as a 32-bit signed decimal number: an optional `+` or `-`,
/// then one or more digits, nothing else.
pub open spec fn parse_i32_text(s: Seq<char>) -> Result<int, IntErrorKind> {
    if s.len() == 0 {
        Err(IntErrorKind::Empty)
    } else if digits_of(s).len() == 0 {
        Err(IntErrorKind::InvalidDigit)
    } else {
        scan_digits(s[0] == '-', digits_of(s), 0)
    }
}

/// Whether every character of `digits` is a decimal digit.
pub open spec fn all_digits(digits: Seq<char>) -> bool {
    forall|i: int| 0 <= i < digits.len() ==> is_digit(#[trigger] digits[i])
}

/// Whether `s` is the text of a 32-bit signed decimal number.
pub open spec fn is_i32_text(s: Seq<char>) -> bool {
    &&& digits_of(s).len() > 0
    &&& all_digits(digits_of(s))
    &&& in_i32(signed_value(s[0] == '-', digits_of(s)))
}

/// The number of a beginning of digits is not negative and not above the
/// number of the whole.
pub proof fn lemma_decimal_value_grows(digits: Seq<char>, k: int)
    requires
        all_digits(digits),
        0 <= k <= digits.len(),
    ensures
        0 <= decimal_value(digits.take(k)) <= decimal_value(digits),
    decreases digits.len(),
{
    if digits.len() == 0 {
        assert(digits.take(k) == digits);
    } else {
        let init = digits.drop_last();
        assert(is_digit(digits[digits.len() - 1]));
        assert(all_digits(init)) by {
            assert forall|i: int| 0 <= i < init.len() implies is_digit(#[trigger] init[i]) by {
                assert(is_digit(digits[i]));
            }
        }
        lemma_decimal_value_grows(init, init.len() as int);
        assert(init.take(init.len() as int) == init);
        if k == digits.len() {
            assert(digits.take(k) == digits);
        } else {
            lemma_decimal_value_grows(init, k);
            assert(init.take(k) == digits.take(k));
        }
    }
}

/// Reading from position `k` on succeeds exactly where only digits follow
/// and the number stays in range with each of them.
proof fn lemma_scan_digits(negative: bool, digits: Seq<char>, k: int)
    requires
        0 <= k <= digits.len(),
    ensures
        scan_digits(negative, digits, k) is Ok <==> (forall|i: int|
            k <= i < digits.len() ==> is_digit(#[trigger] digits[i])) && (forall|j: int|
            k < j <= digits.len() ==> in_i32(signed_value(negative, #[trigger] digits.take(j)))),
        scan_digits(negative, digits, k) is Ok ==> scan_digits(negative, digits, k)->Ok_0
            == signed_value(negative, digits),
        scan_digits(negative, digits, k) != Err::<int, IntErrorKind>(IntErrorKind::Empty),
    decreases digits.len() - k,
{
    if k < digits.len() {
        lemma_scan_digits(negative, digits, k + 1);
    }
}

/// A text reads as a number exactly where it is an optional sign and one or
/// more digits whose number, with the sign, is a 32-bit signed integer; and
/// it reads as that number.
pub proof fn lemma_parse_i32_text(s: Seq<char>)
    ensures
        parse_i32_text(s) is Ok <==> is_i32_text(s),
        parse_i32_text(s) is Ok ==> parse_i32_text(s)->Ok_0 == signed_value(
            s[0] == '-',
            digits_of(s),
        ),
        s.len() == 0 <==> parse_i32_text(s) == Err::<int, IntErrorKind>(IntErrorKind::Empty),
{
    let digits = digits_of(s);
    let negative = s[0] == '-';
    if s.len() > 0 && digits.len() > 0 {
        lemma_scan_digits(negative, digits, 0);
        if is_i32_text(s) {
            assert forall|j: int| 0 < j <= digits.len() implies in_i32(
                signed_value(negative, #[trigger] digits.take(j)),
            ) by {
                lemma_decimal_value_grows(digits, j);
            }
        }
        if parse_i32_text(s) is Ok {
            assert(digits.take(digits.len() as int) == digits);
        }
    }
}

/// What [`parse_i32`] returns for the text `s`.
pub open spec fn parsed_as(s: Seq<char>, r: Result<i32, IntErrorKind>) -> bool {
    match r {
        Ok(v) => parse_i32_text(s) == Ok::<int, IntErrorKind>(v as int),
        Err(kind) => parse_i32_text(s) == Err::<int, IntErrorKind>(kind),
    }
}

/// Reads `s` as a 32-bit signed decimal number.
pub fn parse_i32(s: &[char]) -> (r: Result<i32, IntErrorKind>)
    ensures
        parsed_as(s@, r),
{
    let len = s.len();
    if len == 0 {
        return Err(IntErrorKind::Empty);
    }
    let signed = s[0] == '+' || s[0] == '-';
    let negative = s[0] == '-';
    let digits = if signed {
        vstd::slice::slice_subrange(s, 1, len)
    } else {
        s
    };
    let n = digits.len();
    if n == 0 {
        return Err(IntErrorKind::InvalidDigit);
    }
    let mut acc: i64 = 0;
    let mut k: usize = 0;
    while k < n
        invariant
            k <= n == digits@.len(),
            acc == signed_value(negative, digits@.take(k as int)),
            in_i32(acc as int),
            parse_i32_text(s@) == scan_digits(negative, digits@, k as int),
        decreases n - k,
    {
        let c: u32 = digits[k] as u32;
        if c < 0x30 || c > 0x39 {
            return Err(IntErrorKind::InvalidDigit);
        }
        let d: i64 = (c - 0x30) as i64;
        assert(digits@.take(k + 1).drop_last() == digits@.take(k as int));
        let next: i64 = if negative {
            acc * 10 - d
        } else {
            acc * 10 + d
        };
        if next < -2147483648 || next > 2147483647 {
            return Err(if negative {
                IntErrorKind::NegOverflow
            } else {
                IntErrorKind::PosOverflow
            });
        }
        acc = next;
        k += 1;
    }
    assert(digits@.take(n as int) == digits@);
    Ok(acc as i32)
}

/// The character that writes the digit `d`.
pub open spec fn digit_char(d: int) -> char {
    if d == 0 {
        '0'
    } else if d == 1 {
        '1'
    } else if d == 2 {
        '2'
    } else if d == 3 {
        '3'
    } else if d == 4 {
        '4'
    } else if d == 5 {
        '5'
    } else if d == 6 {
        '6'
    } else if d == 7 {
        '7'
    } else if d == 8 {
        '8'
    } else {
        '9'
    }
}

/// The decimal digits of `n`, which is not negative, without leading zeros.
pub open spec fn decimal_text(n: int) -> Seq<char>
    decreases n,
{
    if n < 10 {
        seq![digit_char(n)]
    } else {
        decimal_text(n / 10).push(digit_char(n % 10))
    }
}

/// The decimal text of `v`, with a minus sign where it is negative.
pub open spec fn int_text(v: int) -> Seq<char> {
    if v < 0 {
        seq!['-'] + decimal_text(-v)
    } else {
        decimal_text(v)
    }
}

/// The decimal text of `v` as a change: with a plus sign where it is above
/// zero, a minus sign where it is below, and `0` where there is none.
pub open spec fn signed_text(v: int) -> Seq<char> {
    if v > 0 {
        seq!['+'] + decimal_text(v)
    } else {
        int_text(v)
    }
}

/// The decimal digits of a number are digits, at least one, and stand for
/// the number.
pub proof fn lemma_decimal_text(n: int)
    requires
        0 <= n,
    ensures
        decimal_text(n).len() > 0,
        all_digits(decimal_text(n)),
        decimal_value(decimal_text(n)) == n,
    decreases n,
{
    let text = decimal_text(n);
    if n < 10 {
        assert(text.drop_last() == Seq::<char>::empty());
        assert(text.last() == digit_char(n));
        assert(decimal_value(text.drop_last()) == 0);
    } else {
        lemma_decimal_text(n / 10);
        let init = decimal_text(n / 10);
        assert(text.drop_last() == init);
        assert(text.last() == digit_char(n % 10));
        assert forall|i: int| 0 <= i < text.len() implies is_digit(#[trigger] text[i]) by {
            if i < init.len() {
                assert(text[i] == init[i]);
            }
        }
    }
}

/// A number that was written is read back: the decimal text of a 32-bit
/// integer reads as that integer.
pub proof fn lemma_int_text_round_trip(v: int)
    requires
        in_i32(v),
    ensures
        parse_i32_text(int_text(v)) == Ok::<int, IntErrorKind>(v),
{
    let text = int_text(v);
    if v < 0 {
        lemma_decimal_text(-v);
        assert(text[0] == '-');
        assert(text.drop_first() == decimal_text(-v));
    } else {
        lemma_decimal_text(v);
        assert(is_digit(text[0]));
    }
    lemma_parse_i32_text(text);
}

/// Appends the decimal digits of `n` to `out`.
pub fn push_decimal(out: &mut String, n: u64)
    ensures
        final(out)@ == old(out)@ + decimal_text(n as int),
    decreases n,
{
    if n >= 10 {
        push_decimal(out, n / 10);
    }
    let digit = match n % 10 {
        0 => '0',
        1 => '1',
        2 => '2',
        3 => '3',
        4 => '4',
        5 => '5',
        6 => '6',
        7 => '7',
        8 => '8',
        _ => '9',
    };
    out.push(digit);
    assert(out@ == old(out)@ + decimal_text(n as int));
}

/// Appends the decimal text of `v` to `out`.
pub fn push_int(out: &mut String, v: i32)
    ensures
        final(out)@ == old(out)@ + int_text(v as int),
{
    if v < 0 {
        out.append("-");
        proof {
            reveal_strlit("-");
            assert("-"@ == seq!['-']);
        }
        push_decimal(out, (-(v as i64)) as u64);
        assert(out@ == old(out)@ + int_text(v as int));
    } else {
        push_decimal(out, v as u64);
    }
}

/// Appends the decimal text of `v` as a change: see [`signed_text`].
pub fn push_signed(out: &mut String, v: i32)
    ensures
        final(out)@ == old(out)@ + signed_text(v as int),
{
    if v > 0 {
        out.append("+");
        proof {
            reveal_strlit("+");
            assert("+"@ == seq!['+']);
        }
        push_decimal(out, v as u64);
        assert(out@ == old(out)@ + signed_text(v as int));
    } else {
        push_int(out, v);
    }
}

impl IntErrorKind {
    /// The words of [`IntErrorKind::reason`].
    pub open spec fn reason_text(self) -> Seq<char> {
        match self {
            IntErrorKind::Empty => "cannot parse integer from empty string"@,
            IntErrorKind::InvalidDigit => "invalid digit found in string"@,
            IntErrorKind::PosOverflow => "number too large to fit in target type"@,
            IntErrorKind::NegOverflow => "number too small to fit in target type"@,
        }
    }

    /// Says in words why the text is no number.
    pub fn reason(&self) -> (text: &'static str)
        ensures
            text@ == self.reason_text(),
    {
        match self {
            IntErrorKind::Empty => "cannot parse integer from empty string",
            IntErrorKind::InvalidDigit => "invalid digit found in string",
            IntErrorKind::PosOverflow => "number too large to fit in target type",
            IntErrorKind::NegOverflow => "number too small to fit in target type",
        }
    }
}

} // verus!
