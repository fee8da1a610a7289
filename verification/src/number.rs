//! Numbers in text: reading decimal and hexadecimal digits, and writing them.

use vstd::prelude::*;
use vstd::slice::slice_subrange;
use vstd::utf8::is_scalar;

verus! {

/// Why a text is not a number of the wanted range.
#[derive(Clone, Copy, Debug, PartialEq, Eq, Structural)]
pub enum NumberError {
    /// The text is empty.
    Empty,
    /// A character is no digit, or a sign stands alone.
    InvalidDigit,
    /// The number is above the largest one wanted.
    TooLarge,
}

/// `char::from_u32`: the character with the code `i`, where `i` is a Unicode
/// scalar value, and nothing otherwise.
pub assume_specification[ char::from_u32 ](i: u32) -> (r: Option<char>)
    ensures
        r == scalar(i),
;

/// The character with the code `i`, where there is one.
pub open spec fn scalar(i: u32) -> Option<char> {
    if is_scalar(i) {
        Some(i as char)
    } else {
        None
    }
}

// ---------------------------------------------------------------------------
// Reading
// ---------------------------------------------------------------------------

/// The value of the digit `c` in base `radix`, which is at most sixteen.
pub open spec fn digit_value(c: char, radix: int) -> Option<int> {
    let v = if '0' <= c <= '9' {
        c as int - '0' as int
    } else if 'a' <= c <= 'f' {
        c as int - 'a' as int + 10
    } else if 'A' <= c <= 'F' {
        c as int - 'A' as int + 10
    } else {
        radix
    };
    if v < radix {
        Some(v)
    } else {
        None
    }
}

/// The number that the digits `d` write in base `radix`, read from the left:
/// the first character that is no digit, or the first digit that takes the
/// number above `max`, decides the error.
pub open spec fn parse_digits(d: Seq<char>, radix: int, max: int) -> Result<int, NumberError>
    decreases d.len(),
{
    if d.len() == 0 {
        Ok(0)
    } else {
        match parse_digits(d.drop_last(), radix, max) {
            Err(e) => Err(e),
            Ok(v) => match digit_value(d.last(), radix) {
                None => Err(NumberError::InvalidDigit),
                Some(x) => if v * radix + x > max {
                    Err(NumberError::TooLarge)
                } else {
                    Ok(v * radix + x)
                },
            },
        }
    }
}

/// The number from 0 to `max` that `s` writes in base `radix`, after an
/// optional plus sign.
pub open spec fn parse_natural(s: Seq<char>, radix: int, max: int) -> Result<int, NumberError> {
    if s.len() == 0 {
        Err(NumberError::Empty)
    } else if s.len() == 1 && (s[0] == '+' || s[0] == '-') {
        Err(NumberError::InvalidDigit)
    } else if s[0] == '+' {
        parse_digits(s.skip(1), radix, max)
    } else {
        parse_digits(s, radix, max)
    }
}

/// The decimal number from `min` to `max` that `s` writes, after an optional sign.
pub open spec fn parse_integer(s: Seq<char>, min: int, max: int) -> Option<int> {
    if s.len() > 1 && s[0] == '-' {
        match parse_digits(s.skip(1), 10, -min) {
            Ok(v) => Some(-v),
            Err(_) => None,
        }
    } else {
        match parse_natural(s, 10, max) {
            Ok(v) => Some(v),
            Err(_) => None,
        }
    }
}

/// The value of the hexadecimal digit `c`.
pub fn hex_digit(c: char) -> (r: Option<u32>)
    ensures
        r is Some <==> digit_value(c, 16) is Some,
        r is Some ==> r->0 == digit_value(c, 16)->0,
        r is Some ==> r->0 < 16,
{
    if '0' <= c && c <= '9' {
        Some(c as u32 - '0' as u32)
    } else if 'a' <= c && c <= 'f' {
        Some(c as u32 - 'a' as u32 + 10)
    } else if 'A' <= c && c <= 'F' {
        Some(c as u32 - 'A' as u32 + 10)
    } else {
        None
    }
}

/// An error in the first digits is the error of all of them.
pub proof fn lemma_parse_digits_error(d: Seq<char>, n: int, radix: int, max: int)
    requires
        0 <= n <= d.len(),
        parse_digits(d.take(n), radix, max) is Err,
    ensures
        parse_digits(d, radix, max) == parse_digits(d.take(n), radix, max),
    decreases d.len() - n,
{
    if n == d.len() {
        assert(d.take(n) =~= d);
    } else {
        assert(d.take(n + 1).drop_last() =~= d.take(n));
        lemma_parse_digits_error(d, n + 1, radix, max);
    }
}

/// What digits write lies in the wanted range.
pub proof fn lemma_parse_digits_range(d: Seq<char>, radix: int, max: int)
    requires
        0 < radix,
        0 <= max,
    ensures
        parse_digits(d, radix, max) matches Ok(v) ==> 0 <= v <= max,
    decreases d.len(),
{
    if d.len() > 0 {
        lemma_parse_digits_range(d.drop_last(), radix, max);
        match parse_digits(d.drop_last(), radix, max) {
            Ok(v) => {
                assert(v * radix >= 0) by (nonlinear_arith)
                    requires
                        v >= 0,
                        radix > 0,
                ;
            },
            Err(_) => {},
        }
    }
}

/// The model of a number that may be missing.
pub open spec fn number_view(r: Result<u64, NumberError>) -> Result<int, NumberError> {
    match r {
        Ok(v) => Ok(v as int),
        Err(e) => Err(e),
    }
}

fn digits(d: &[char], radix: u64, max: u64) -> (r: Result<u64, NumberError>)
    requires
        radix == 10 || radix == 16,
    ensures
        number_view(r) == parse_digits(d@, radix as int, max as int),
{
    let mut value: u64 = 0;
    for i in 0..d.len()
        invariant
            radix == 10 || radix == 16,
            value <= max,
            parse_digits(d@.take(i as int), radix as int, max as int) == Ok::<int, NumberError>(
                value as int,
            ),
    {
        proof {
            assert(d@.take(i + 1).drop_last() =~= d@.take(i as int));
            assert(d@.take(i + 1).last() == d@[i as int]);
            if parse_digits(d@.take(i + 1), radix as int, max as int) is Err {
                lemma_parse_digits_error(d@, i + 1, radix as int, max as int);
            }
        }
        match hex_digit(d[i]) {
            None => {
                return Err(NumberError::InvalidDigit);
            },
            Some(x) => {
                let x = x as u64;
                if x >= radix {
                    return Err(NumberError::InvalidDigit);
                }
                let next: u128 = value as u128 * radix as u128 + x as u128;
                if next > max as u128 {
                    return Err(NumberError::TooLarge);
                }
                value = next as u64;
            },
        }
    }
    assert(d@.take(d@.len() as int) =~= d@);
    Ok(value)
}

/// The number from 0 to `max` that `s` writes in base 10 or 16, after an
/// optional plus sign.
pub fn natural(s: &[char], radix: u64, max: u64) -> (r: Result<u64, NumberError>)
    requires
        radix == 10 || radix == 16,
    ensures
        number_view(r) == parse_natural(s@, radix as int, max as int),
        r is Ok ==> r->Ok_0 <= max,
{
    proof {
        lemma_parse_digits_range(s@, radix as int, max as int);
        lemma_parse_digits_range(s@.skip(1), radix as int, max as int);
    }
    if s.len() == 0 {
        Err(NumberError::Empty)
    } else if s.len() == 1 && (s[0] == '+' || s[0] == '-') {
        Err(NumberError::InvalidDigit)
    } else if s[0] == '+' {
        digits(slice_subrange(s, 1, s.len()), radix, max)
    } else {
        digits(s, radix, max)
    }
}

/// The decimal number in the range of `i64` that `s` writes, after an optional sign.
pub fn integer(s: &[char]) -> (r: Option<i64>)
    ensures
        r is Some <==> parse_integer(s@, i64::MIN as int, i64::MAX as int) is Some,
        r is Some ==> r->0 == parse_integer(s@, i64::MIN as int, i64::MAX as int)->0,
{
    if s.len() > 1 && s[0] == '-' {
        match digits(slice_subrange(s, 1, s.len()), 10, 0x8000_0000_0000_0000) {
            Ok(v) => {
                proof {
                    lemma_parse_digits_range(s@.skip(1), 10, 0x8000_0000_0000_0000);
                }
                Some((0 - v as i128) as i64)
            },
            Err(_) => None,
        }
    } else {
        match natural(s, 10, 0x7fff_ffff_ffff_ffff) {
            Ok(v) => Some(v as i64),
            Err(_) => None,
        }
    }
}

// ---------------------------------------------------------------------------
// Writing
// ---------------------------------------------------------------------------

/// The digit with the value `v`, which is below sixteen; letters are uppercase.
pub open spec fn digit_char(v: int) -> char {
    if v < 10 {
        ('0' as int + v) as char
    } else {
        ('A' as int + v - 10) as char
    }
}

/// `n` written in base `radix`, without leading zeros.
pub open spec fn written(n: int, radix: int) -> Seq<char>
    decreases n,
    when n >= 0 && radix > 1
{
    proof {
        if n >= radix {
            assert(n / radix < n) by (nonlinear_arith)
                requires
                    n >= radix,
                    radix > 1,
            ;
            assert(n / radix >= 0) by (nonlinear_arith)
                requires
                    n >= radix,
                    radix > 1,
            ;
        }
    }
    if n < radix {
        seq![digit_char(n)]
    } else {
        written(n / radix, radix).push(digit_char(n % radix))
    }
}

/// `n` in decimal.
pub open spec fn decimal(n: int) -> Seq<char> {
    written(n, 10)
}

/// `s` with zeros put in front until it has at least `width` characters.
pub open spec fn zero_padded(s: Seq<char>, width: int) -> Seq<char>
    decreases width - s.len(),
{
    if s.len() >= width {
        s
    } else {
        zero_padded(seq!['0'] + s, width)
    }
}

fn digit_of(v: u64) -> (c: char)
    requires
        v < 16,
    ensures
        c == digit_char(v as int),
{
    if v < 10 {
        (0x30 + v as u8) as char
    } else {
        (0x41 + (v as u8 - 10)) as char
    }
}

/// `n` written in base 10 or 16, without leading zeros.
pub fn write_number(n: u64, radix: u64) -> (out: Vec<char>)
    requires
        radix == 10 || radix == 16,
    ensures
        out@ == written(n as int, radix as int),
    decreases n,
{
    if n < radix {
        let mut out: Vec<char> = Vec::new();
        out.push(digit_of(n));
        assert(out@ =~= written(n as int, radix as int));
        out
    } else {
        let mut out = write_number(n / radix, radix);
        out.push(digit_of(n % radix));
        out
    }
}

/// `n` in decimal.
pub fn write_decimal(n: u64) -> (out: Vec<char>)
    ensures
        out@ == decimal(n as int),
{
    write_number(n, 10)
}

/// `s` with zeros put in front until it has at least `width` characters.
pub fn pad_zeros(s: Vec<char>, width: usize) -> (out: Vec<char>)
    ensures
        out@ == zero_padded(s@, width as int),
{
    let mut out = s;
    while out.len() < width
        invariant
            zero_padded(out@, width as int) == zero_padded(s@, width as int),
        decreases width - out@.len(),
    {
        let ghost before = out@;
        out.insert(0, '0');
        assert(out@ =~= seq!['0'] + before);
    }
    out
}

// ---------------------------------------------------------------------------
// Laws
// ---------------------------------------------------------------------------

/// A number in decimal has digits, and nothing else.
pub proof fn lemma_decimal_digits(n: int)
    requires
        0 <= n,
    ensures
        decimal(n).len() > 0,
        forall|i: int| 0 <= i < decimal(n).len() ==> '0' <= #[trigger] decimal(n)[i] <= '9',
    decreases n,
{
    if n >= 10 {
        lemma_decimal_digits(n / 10);
        let head = decimal(n / 10);
        assert forall|i: int| 0 <= i < decimal(n).len() implies '0' <= #[trigger] decimal(n)[i]
            <= '9' by {
            if i < head.len() {
                assert(decimal(n)[i] == head[i]);
            }
        }
    }
}

proof fn lemma_digits_of_decimal(n: int, max: int)
    requires
        0 <= n <= max,
    ensures
        parse_digits(decimal(n), 10, max) == Ok::<int, NumberError>(n),
    decreases n,
{
    let d = decimal(n);
    if n < 10 {
        assert(d.drop_last() =~= seq![]);
        assert(parse_digits(d.drop_last(), 10, max) == Ok::<int, NumberError>(0));
    } else {
        lemma_digits_of_decimal(n / 10, max);
        assert(d.drop_last() =~= decimal(n / 10));
    }
}

/// A number comes back from its decimal form.
pub proof fn lemma_decimal_round_trip(n: int, max: int)
    requires
        0 <= n <= max,
    ensures
        parse_natural(decimal(n), 10, max) == Ok::<int, NumberError>(n),
{
    lemma_digits_of_decimal(n, max);
    lemma_decimal_digits(n);
}

proof fn lemma_digits_too_large(n: int, max: int)
    requires
        0 <= max < n,
    ensures
        parse_digits(decimal(n), 10, max) == Err::<int, _>(NumberError::TooLarge),
    decreases n,
{
    let d = decimal(n);
    if n < 10 {
        assert(d.drop_last() =~= seq![]);
        assert(parse_digits(d.drop_last(), 10, max) == Ok::<int, NumberError>(0));
    } else {
        assert(d.drop_last() =~= decimal(n / 10));
        if n / 10 > max {
            lemma_digits_too_large(n / 10, max);
        } else {
            lemma_digits_of_decimal(n / 10, max);
        }
    }
}

/// A number above the largest one is too large, and no text is empty but the empty one.
pub proof fn lemma_number_errors(n: int, max: int)
    requires
        0 <= max < n,
    ensures
        parse_natural(decimal(n), 10, max) == Err::<int, _>(NumberError::TooLarge),
        parse_natural(seq![], 10, max) == Err::<int, _>(NumberError::Empty),
        parse_natural(seq!['+'], 10, max) == Err::<int, _>(NumberError::InvalidDigit),
        parse_natural(seq!['-'], 10, max) == Err::<int, _>(NumberError::InvalidDigit),
{
    lemma_digits_too_large(n, max);
    lemma_decimal_digits(n);
    let d = decimal(n);
    assert('0' <= d[0] <= '9');
}

/// A plus sign before a number changes nothing.
pub proof fn lemma_plus_sign(n: int, max: int)
    requires
        0 <= n <= max,
    ensures
        parse_natural(seq!['+'] + decimal(n), 10, max) == Ok::<int, NumberError>(n),
{
    lemma_digits_of_decimal(n, max);
    lemma_decimal_digits(n);
    assert((seq!['+'] + decimal(n)).skip(1) =~= decimal(n));
}

/// The last digit of a number is its remainder by ten, and those before it write the
/// tenth of it.
pub proof fn lemma_decimal_steps(n: int)
    requires
        0 <= n,
    ensures
        n < 10 ==> decimal(n).len() == 1 && decimal(n)[0] as int == '0' as int + n,
        n >= 10 ==> decimal(n).drop_last() == decimal(n / 10) && decimal(n).last() as int
            == '0' as int + n % 10,
{
    if n >= 10 {
        assert(decimal(n).drop_last() =~= decimal(n / 10));
    }
}

} // verus!
