//! Integers as text.
//!
//! Stickers hold text; ratings, play counts & timestamps are integers written in base ten.

use vstd::prelude::*;

use crate::text;

verus! {

/// Why a text is not an integer of the type wanted.
#[derive(Clone, Copy, Debug, PartialEq, Eq, Structural)]
pub enum ParseError {
    /// The text is empty
    Empty,
    /// The text holds something other than a digit where a digit is wanted
    InvalidDigit,
    /// The integer is too large
    PosOverflow,
    /// The integer is too small
    NegOverflow,
}

impl DeepView for ParseError {
    type V = ParseError;

    open spec fn deep_view(&self) -> ParseError {
        *self
    }
}

/// The words in which a [`ParseError`] is reported.
pub open spec fn message_of(e: ParseError) -> Seq<char> {
    match e {
        ParseError::Empty => "cannot parse integer from empty string"@,
        ParseError::InvalidDigit => "invalid digit found in string"@,
        ParseError::PosOverflow => "number too large to fit in target type"@,
        ParseError::NegOverflow => "number too small to fit in target type"@,
    }
}

/// The name of a [`ParseError`].
pub open spec fn name_of(e: ParseError) -> Seq<char> {
    match e {
        ParseError::Empty => "Empty"@,
        ParseError::InvalidDigit => "InvalidDigit"@,
        ParseError::PosOverflow => "PosOverflow"@,
        ParseError::NegOverflow => "NegOverflow"@,
    }
}

impl ParseError {
    /// The name of the error.
    pub fn name(&self) -> (r: &'static str)
        ensures
            r@ == name_of(*self),
    {
        match self {
            ParseError::Empty => "Empty",
            ParseError::InvalidDigit => "InvalidDigit",
            ParseError::PosOverflow => "PosOverflow",
            ParseError::NegOverflow => "NegOverflow",
        }
    }

    /// The words in which the error is reported.
    pub fn message(&self) -> (r: String)
        ensures
            r@ == message_of(*self),
    {
        match self {
            ParseError::Empty => text::owned("cannot parse integer from empty string"),
            ParseError::InvalidDigit => text::owned("invalid digit found in string"),
            ParseError::PosOverflow => text::owned("number too large to fit in target type"),
            ParseError::NegOverflow => text::owned("number too small to fit in target type"),
        }
    }
}

// ---------------------------------------------------------------------------------------------
// Reading
// ---------------------------------------------------------------------------------------------

/// Whether `c` is a decimal digit.
pub open spec fn is_digit(c: char) -> bool {
    '0' <= c <= '9'
}

/// The value of a decimal digit.
pub open spec fn digit(c: char) -> int {
    c as int - '0' as int
}

/// Whether every character is a decimal digit.
pub open spec fn all_digits(s: Seq<char>) -> bool {
    forall|i: int| 0 <= i < s.len() ==> is_digit(#[trigger] s[i])
}

/// The number that the digits write in base ten.
pub open spec fn value(s: Seq<char>) -> int
    decreases s.len(),
{
    if s.len() == 0 {
        0
    } else {
        value(s.drop_last()) * 10 + digit(s.last())
    }
}

/// What comes of reading the digits from index `i` on, those before having come to `acc`: digits are
/// taken one by one, away from zero, and the first that is no digit or leads out of `lo..=hi` ends
/// the matter.
pub open spec fn read_digits(
    s: Seq<char>,
    i: int,
    acc: int,
    negative: bool,
    lo: int,
    hi: int,
) -> Result<int, ParseError>
    decreases s.len() - i,
{
    if i >= s.len() {
        Ok(acc)
    } else if !is_digit(s[i]) {
        Err(ParseError::InvalidDigit)
    } else if negative {
        let next = acc * 10 - digit(s[i]);
        if next < lo {
            Err(ParseError::NegOverflow)
        } else {
            read_digits(s, i + 1, next, negative, lo, hi)
        }
    } else {
        let next = acc * 10 + digit(s[i]);
        if next > hi {
            Err(ParseError::PosOverflow)
        } else {
            read_digits(s, i + 1, next, negative, lo, hi)
        }
    }
}

/// The integer between `lo` and `hi` that a text writes: digits, with a plus sign before them
/// perhaps, or a minus sign where `lo` is negative.
pub open spec fn parsed(s: Seq<char>, lo: int, hi: int) -> Result<int, ParseError> {
    if s.len() == 0 {
        Err(ParseError::Empty)
    } else if s.len() == 1 && (s[0] == '+' || s[0] == '-') {
        Err(ParseError::InvalidDigit)
    } else if s[0] == '+' {
        read_digits(s, 1, 0, false, lo, hi)
    } else if s[0] == '-' && lo < 0 {
        read_digits(s, 1, 0, true, lo, hi)
    } else {
        read_digits(s, 0, 0, false, lo, hi)
    }
}

/// The integer between `lo` and `hi` that the characters write.
fn parse_within(v: &[char], lo: i128, hi: i128) -> (r: Result<i128, ParseError>)
    requires
        -0x1_0000_0000_0000_0000 <= lo <= 0,
        0 <= hi <= 0x1_0000_0000_0000_0000,
    ensures
        (match r {
            Ok(n) => Ok::<int, ParseError>(n as int),
            Err(e) => Err(e),
        }) == parsed(v@, lo as int, hi as int),
        r is Ok ==> lo <= r->Ok_0 <= hi,
{
    if v.len() == 0 {
        return Err(ParseError::Empty);
    }
    if v.len() == 1 && (v[0] == '+' || v[0] == '-') {
        return Err(ParseError::InvalidDigit);
    }
    let negative: bool = v[0] == '-' && lo < 0;
    let start: usize = if v[0] == '+' || negative {
        1
    } else {
        0
    };
    let mut i: usize = start;
    let mut acc: i128 = 0;
    while i < v.len()
        invariant
            -0x1_0000_0000_0000_0000 <= lo <= 0,
            0 <= hi <= 0x1_0000_0000_0000_0000,
            start <= i <= v@.len(),
            lo <= acc <= hi,
            negative ==> acc <= 0,
            !negative ==> acc >= 0,
            parsed(v@, lo as int, hi as int) == read_digits(
                v@,
                i as int,
                acc as int,
                negative,
                lo as int,
                hi as int,
            ),
        decreases v@.len() - i,
    {
        let c = v[i];
        if c < '0' || c > '9' {
            return Err(ParseError::InvalidDigit);
        }
        let d: i128 = (c as u32 - '0' as u32) as i128;
        if negative {
            let next: i128 = acc * 10 - d;
            if next < lo {
                return Err(ParseError::NegOverflow);
            }
            acc = next;
        } else {
            let next: i128 = acc * 10 + d;
            if next > hi {
                return Err(ParseError::PosOverflow);
            }
            acc = next;
        }
        i = i + 1;
    }
    Ok(acc)
}

/// The `u8` that the text writes.
pub fn parse_u8(s: &str) -> (r: Result<u8, ParseError>)
    ensures
        (match r {
            Ok(n) => Ok::<int, ParseError>(n as int),
            Err(e) => Err(e),
        }) == parsed(s@, 0, 255),
{
    let v = text::chars_of(s);
    match parse_within(&v, 0, 255) {
        Ok(n) => Ok(n as u8),
        Err(e) => Err(e),
    }
}

/// The `u16` that the text writes.
pub fn parse_u16(s: &str) -> (r: Result<u16, ParseError>)
    ensures
        (match r {
            Ok(n) => Ok::<int, ParseError>(n as int),
            Err(e) => Err(e),
        }) == parsed(s@, 0, 65535),
{
    let v = text::chars_of(s);
    match parse_within(&v, 0, 65535) {
        Ok(n) => Ok(n as u16),
        Err(e) => Err(e),
    }
}

/// The `u64` that the text writes.
pub fn parse_u64(s: &str) -> (r: Result<u64, ParseError>)
    ensures
        (match r {
            Ok(n) => Ok::<int, ParseError>(n as int),
            Err(e) => Err(e),
        }) == parsed(s@, 0, u64::MAX as int),
{
    let v = text::chars_of(s);
    match parse_within(&v, 0, 0xffff_ffff_ffff_ffff) {
        Ok(n) => Ok(n as u64),
        Err(e) => Err(e),
    }
}

/// The `i64` that the text writes.
pub fn parse_i64(s: &str) -> (r: Result<i64, ParseError>)
    ensures
        (match r {
            Ok(n) => Ok::<int, ParseError>(n as int),
            Err(e) => Err(e),
        }) == parsed(s@, i64::MIN as int, i64::MAX as int),
{
    let v = text::chars_of(s);
    match parse_within(&v, -0x8000_0000_0000_0000, 0x7fff_ffff_ffff_ffff) {
        Ok(n) => Ok(n as i64),
        Err(e) => Err(e),
    }
}

/// The `usize` that the text writes.
pub fn parse_usize(s: &str) -> (r: Result<usize, ParseError>)
    ensures
        (match r {
            Ok(n) => Ok::<int, ParseError>(n as int),
            Err(e) => Err(e),
        }) == parsed(s@, 0, usize::MAX as int),
{
    let v = text::chars_of(s);
    match parse_within(&v, 0, usize::MAX as i128) {
        Ok(n) => Ok(n as usize),
        Err(e) => Err(e),
    }
}

/// The `i32` that the characters write.
pub fn parse_i32(v: &[char]) -> (r: Result<i32, ParseError>)
    ensures
        (match r {
            Ok(n) => Ok::<int, ParseError>(n as int),
            Err(e) => Err(e),
        }) == parsed(v@, i32::MIN as int, i32::MAX as int),
{
    match parse_within(v, -0x8000_0000, 0x7fff_ffff) {
        Ok(n) => Ok(n as i32),
        Err(e) => Err(e),
    }
}

/// The `u32` that the characters write.
pub fn parse_u32(v: &[char]) -> (r: Result<u32, ParseError>)
    ensures
        (match r {
            Ok(n) => Ok::<int, ParseError>(n as int),
            Err(e) => Err(e),
        }) == parsed(v@, 0, u32::MAX as int),
{
    match parse_within(v, 0, 0xffff_ffff) {
        Ok(n) => Ok(n as u32),
        Err(e) => Err(e),
    }
}

// ---------------------------------------------------------------------------------------------
// Writing
// ---------------------------------------------------------------------------------------------

/// The character of a decimal digit.
pub open spec fn digit_char(d: int) -> char {
    (d + '0' as int) as char
}

/// The digits of a natural number in base ten, without leading zeros.
pub open spec fn decimal(n: nat) -> Seq<char>
    decreases n,
{
    if n < 10 {
        seq![digit_char(n as int)]
    } else {
        decimal(n / 10).push(digit_char((n % 10) as int))
    }
}

/// An integer in base ten, with a minus sign before it where it is negative.
pub open spec fn signed_decimal(n: int) -> Seq<char> {
    if n < 0 {
        seq!['-'] + decimal((-n) as nat)
    } else {
        decimal(n as nat)
    }
}

/// The character of a decimal digit.
fn to_digit_char(d: u64) -> (c: char)
    requires
        d < 10,
    ensures
        c == digit_char(d as int),
{
    match d {
        0 => '0',
        1 => '1',
        2 => '2',
        3 => '3',
        4 => '4',
        5 => '5',
        6 => '6',
        7 => '7',
        8 => '8',
        _ => '9',
    }
}

/// `n` in base ten.
pub fn write_u64(n: u64) -> (r: String)
    ensures
        r@ == decimal(n as nat),
    decreases n,
{
    if n < 10 {
        let mut r = String::new();
        r.push(to_digit_char(n));
        assert(r@ =~= decimal(n as nat));
        r
    } else {
        let mut r = write_u64(n / 10);
        r.push(to_digit_char(n % 10));
        r
    }
}

/// `n` in base ten.
pub fn write_usize(n: usize) -> (r: String)
    ensures
        r@ == decimal(n as nat),
{
    write_u64(n as u64)
}

/// `n` in base ten.
pub fn write_i64(n: i64) -> (r: String)
    ensures
        r@ == signed_decimal(n as int),
{
    if n < 0 {
        let m: u64 = (-(n as i128)) as u64;
        let digits = write_u64(m);
        let mut r = String::new();
        r.push('-');
        r.append(digits.as_str());
        assert(r@ =~= signed_decimal(n as int));
        r
    } else {
        write_u64(n as u64)
    }
}

/// The first `n` bytes in base ten, each between `start` & `end`.
pub open spec fn byte_items(bytes: Seq<u8>, n: int, start: Seq<char>, end: Seq<char>) -> Seq<char>
    decreases n,
{
    if n <= 0 {
        Seq::empty()
    } else {
        byte_items(bytes, n - 1, start, end) + start + decimal(bytes[n - 1] as nat) + end
    }
}

/// A list of bytes on one line.
pub open spec fn byte_list(bytes: Seq<u8>) -> Seq<char> {
    if bytes.len() == 0 {
        "[]"@
    } else {
        "["@ + decimal(bytes[0] as nat) + byte_items(
            bytes.skip(1),
            bytes.len() - 1,
            ", "@,
            Seq::empty(),
        ) + "]"@
    }
}

/// A list of bytes, one to a line.
pub open spec fn byte_lines(bytes: Seq<u8>) -> Seq<char> {
    if bytes.len() == 0 {
        "[]"@
    } else {
        "[\n"@ + byte_items(bytes, bytes.len() as int, "    "@, ",\n"@) + "]"@
    }
}

/// The bytes in base ten, each between `start` & `end`.
fn write_byte_items(bytes: &[u8], from: usize, start: &str, end: &str) -> (r: String)
    requires
        from <= bytes@.len(),
    ensures
        r@ == byte_items(bytes@.skip(from as int), bytes@.len() - from, start@, end@),
{
    let ghost rest = bytes@.skip(from as int);
    let mut r = String::new();
    let mut i: usize = from;
    while i < bytes.len()
        invariant
            rest == bytes@.skip(from as int),
            from <= i <= bytes@.len(),
            r@ == byte_items(rest, i - from, start@, end@),
        decreases bytes@.len() - i,
    {
        assert(rest[i - from] == bytes@[i as int]);
        r.append(start);
        r.append(write_u64(bytes[i] as u64).as_str());
        r.append(end);
        i = i + 1;
    }
    r
}

/// A list of bytes on one line.
pub fn write_byte_list(bytes: &[u8]) -> (r: String)
    ensures
        r@ == byte_list(bytes@),
{
    if bytes.len() == 0 {
        return text::owned("[]");
    }
    proof {
        reveal_strlit("");
        assert(""@ =~= Seq::<char>::empty());
    }
    let mut r = text::join2("[", write_u64(bytes[0] as u64).as_str());
    r.append(write_byte_items(bytes, 1, ", ", "").as_str());
    r.append("]");
    r
}

/// A list of bytes, one to a line.
pub fn write_byte_lines(bytes: &[u8]) -> (r: String)
    ensures
        r@ == byte_lines(bytes@),
{
    if bytes.len() == 0 {
        return text::owned("[]");
    }
    assert(bytes@.skip(0) =~= bytes@);
    text::join3("[\n", write_byte_items(bytes, 0, "    ", ",\n").as_str(), "]")
}

// ---------------------------------------------------------------------------------------------
// Reading what was written
// ---------------------------------------------------------------------------------------------

/// Digits are read to their value, provided that it is within bounds.
proof fn lemma_read_digits(s: Seq<char>, i: int, lo: int, hi: int)
    requires
        0 <= i <= s.len(),
        all_digits(s),
        value(s) <= hi,
    ensures
        read_digits(s, i, value(s.take(i)), false, lo, hi) == Ok::<int, ParseError>(value(s)),
        value(s.take(i)) <= value(s),
    decreases s.len() - i,
{
    if i < s.len() {
        lemma_read_digits(s, i + 1, lo, hi);
        let t = s.take(i + 1);
        assert(t.drop_last() =~= s.take(i));
        assert(t.last() == s[i]);
        lemma_value_bounds(s.take(i));
        assert(is_digit(s[i]));
    } else {
        assert(s.take(i) =~= s);
    }
}

/// The value of digits is not negative.
proof fn lemma_value_bounds(s: Seq<char>)
    requires
        all_digits(s),
    ensures
        value(s) >= 0,
    decreases s.len(),
{
    if s.len() > 0 {
        assert(all_digits(s.drop_last()));
        lemma_value_bounds(s.drop_last());
        assert(is_digit(s.last()));
    }
}

/// Digits that leave the bounds, or a character that is no digit, stop the reading.
proof fn lemma_read_fails(s: Seq<char>, i: int, acc: int, lo: int, hi: int)
    requires
        0 <= i <= s.len(),
        0 <= acc,
        all_digits(s.take(i)),
        acc == value(s.take(i)),
        acc <= hi,
        !(all_digits(s) && value(s) <= hi),
    ensures
        read_digits(s, i, acc, false, lo, hi) is Err,
    decreases s.len() - i,
{
    if i >= s.len() {
        assert(s.take(i) =~= s);
    } else if is_digit(s[i]) {
        let t = s.take(i + 1);
        assert(t.drop_last() =~= s.take(i));
        assert(t.last() == s[i]);
        assert forall|j: int| 0 <= j < t.len() implies is_digit(#[trigger] t[j]) by {
            if j < i {
                assert(s.take(i)[j] == t[j]);
            }
        }
        if acc * 10 + digit(s[i]) <= hi {
            lemma_read_fails(s, i + 1, acc * 10 + digit(s[i]), lo, hi);
        }
    }
}

/// The digits that a number is written with, and their value.
pub proof fn lemma_decimal(n: nat)
    ensures
        decimal(n).len() > 0,
        all_digits(decimal(n)),
        value(decimal(n)) == n,
    decreases n,
{
    if n < 10 {
        assert(decimal(n).drop_last() =~= Seq::empty());
        assert(decimal(n).last() == digit_char(n as int));
        assert(value(Seq::empty()) == 0);
    } else {
        lemma_decimal(n / 10);
        assert(decimal(n).drop_last() =~= decimal(n / 10));
        assert(decimal(n).last() == digit_char((n % 10) as int));
        assert forall|i: int| 0 <= i < decimal(n).len() implies is_digit(
            #[trigger] decimal(n)[i],
        ) by {
            if i < decimal(n / 10).len() {
                assert(decimal(n)[i] == decimal(n / 10)[i]);
            }
        }
    }
}

/// An unsigned integer is read from a text exactly when the text is one or more digits, with a plus
/// sign before them perhaps, whose value is no more than the greatest allowed; it is that value.
pub proof fn law_parsed_unsigned(s: Seq<char>, hi: int)
    requires
        hi >= 0,
    ensures
        ({
            let digits = if s.len() > 0 && s[0] == '+' {
                s.skip(1)
            } else {
                s
            };
            let ok = digits.len() > 0 && all_digits(digits) && value(digits) <= hi;
            &&& parsed(s, 0, hi) is Ok <==> ok
            &&& ok ==> parsed(s, 0, hi) == Ok::<int, ParseError>(value(digits))
        }),
{
    if s.len() > 0 {
        let start: int = if s[0] == '+' {
            1
        } else {
            0
        };
        let digits = s.skip(start);
        assert(s.skip(0) =~= s);
        lemma_read_skip(s, start, 0, 0, hi);
        assert(digits.take(0) =~= Seq::empty());
        assert(value(Seq::empty()) == 0);
        if digits.len() > 0 {
            if all_digits(digits) && value(digits) <= hi {
                lemma_read_digits(digits, 0, 0, hi);
                assert(is_digit(digits[0]));
            } else {
                lemma_read_fails(digits, 0, 0, 0, hi);
            }
        }
    }
}

/// Reading from an index on is reading what is left there.
proof fn lemma_read_skip(s: Seq<char>, k: int, i: int, acc: int, hi: int)
    requires
        0 <= k <= s.len(),
        0 <= i <= s.len() - k,
    ensures
        read_digits(s.skip(k), i, acc, false, 0, hi) == read_digits(s, k + i, acc, false, 0, hi),
    decreases s.len() - k - i,
{
    if i < s.len() - k {
        assert(s.skip(k)[i] == s[k + i]);
        lemma_read_skip(s, k, i + 1, acc * 10 + digit(s[k + i]), hi);
    }
}

/// A number is read back from the text that it is written as.
pub proof fn law_parsed_decimal(n: nat, hi: int)
    requires
        n <= hi,
    ensures
        parsed(decimal(n), 0, hi) == Ok::<int, ParseError>(n as int),
{
    lemma_decimal(n);
    assert(is_digit(decimal(n)[0]));
    law_parsed_unsigned(decimal(n), hi);
}

/// Reading the digits of a number, from one on which the others follow.
proof fn lemma_read_negative(s: Seq<char>, i: int, lo: int, hi: int)
    requires
        1 <= i <= s.len(),
        all_digits(s.skip(1)),
    ensures
        ({
            let all = -value(s.skip(1));
            let got = read_digits(s, i, -value(s.subrange(1, i)), true, lo, hi);
            &&& lo <= all ==> got == Ok::<int, ParseError>(all)
            &&& got is Ok ==> got == Ok::<int, ParseError>(all)
        }),
    decreases s.len() - i,
{
    let digits = s.skip(1);
    assert(s.subrange(1, s.len() as int) =~= digits);
    if i < s.len() {
        let (a, b) = (s.subrange(1, i), s.subrange(1, i + 1));
        assert(b.drop_last() =~= a);
        assert(b.last() == s[i]);
        assert(s[i] == digits[i - 1]);
        assert(is_digit(digits[i - 1]));
        lemma_read_negative(s, i + 1, lo, hi);
        lemma_value_grows(digits, i, digits.len() as int);
        assert(digits.take(i) =~= b);
        assert(digits.take(digits.len() as int) =~= digits);
    } else {
        assert(s.subrange(1, i) =~= digits);
    }
}

proof fn lemma_value_grows(s: Seq<char>, i: int, j: int)
    requires
        0 <= i <= j <= s.len(),
        all_digits(s),
    ensures
        0 <= value(s.take(i)) <= value(s.take(j)),
    decreases j,
{
    if i < j {
        lemma_value_grows(s, i, j - 1);
        let t = s.take(j);
        assert(t.drop_last() =~= s.take(j - 1));
        assert(is_digit(s[j - 1]));
    } else if i > 0 {
        lemma_value_grows(s, i - 1, j - 1);
        let t = s.take(i);
        assert(t.drop_last() =~= s.take(i - 1));
        assert(is_digit(s[i - 1]));
    }
}

/// A number, negative or not, is read back from the text that it is written as, if it is within the bounds;
/// else none is.
pub proof fn law_signed(n: int, lo: int, hi: int)
    requires
        lo <= 0 <= hi,
    ensures
        lo <= n <= hi ==> parsed(signed_decimal(n), lo, hi) == Ok::<int, ParseError>(n),
        parsed(signed_decimal(n), lo, hi) is Ok ==> lo <= n <= hi && parsed(
            signed_decimal(n),
            lo,
            hi,
        ) == Ok::<int, ParseError>(n),
{
    let s = signed_decimal(n);
    if n < 0 {
        let digits = decimal((-n) as nat);
        lemma_decimal((-n) as nat);
        assert(s.skip(1) =~= digits);
        assert(s[0] == '-');
        assert(s.subrange(1, 1) =~= Seq::empty());
        assert(value(Seq::empty()) == 0);
        if lo < 0 {
            lemma_read_negative(s, 1, lo, hi);
            if n < lo {
                lemma_read_bounded(s, 1, 0, lo, hi);
            }
        }
    } else {
        lemma_decimal(n as nat);
        assert(is_digit(s[0]));
        law_parsed_unsigned(s, hi);
        assert(parsed(s, 0, hi) == read_digits(s, 0, 0, false, 0, hi));
        lemma_read_above(s, 0, 0, lo, hi);
    }
}

/// What is read is not below the bound.
proof fn lemma_read_bounded(s: Seq<char>, i: int, acc: int, lo: int, hi: int)
    requires
        lo <= acc,
    ensures
        read_digits(s, i, acc, true, lo, hi) matches Ok(n) ==> lo <= n,
    decreases s.len() - i,
{
    if i < s.len() && is_digit(s[i]) && acc * 10 - digit(s[i]) >= lo {
        lemma_read_bounded(s, i + 1, acc * 10 - digit(s[i]), lo, hi);
    }
}

/// The lower bound does not matter to a number that is not negative.
pub(crate) proof fn lemma_read_above(s: Seq<char>, i: int, acc: int, lo: int, hi: int)
    ensures
        read_digits(s, i, acc, false, lo, hi) == read_digits(s, i, acc, false, 0, hi),
    decreases s.len() - i,
{
    if i < s.len() {
        lemma_read_above(s, i + 1, acc * 10 + digit(s[i]), lo, hi);
    }
}

} // verus!
