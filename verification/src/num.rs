//! Decimal integers: reading them the way `str::parse` does for unsigned
//! types, and writing them out.
use vstd::prelude::*;

verus! {

/// Why a text is not an unsigned integer of the wanted width.
#[derive(Debug, Clone, Copy, PartialEq, Eq, Structural)]
pub enum IntErrorKind {
    /// The text is empty.
    Empty,
    /// A character is not a decimal digit (or a lone sign).
    InvalidDigit,
    /// The value does not fit.
    PosOverflow,
}

/// Whether `c` is a decimal digit.
pub open spec fn is_digit(c: char) -> bool {
    '0' <= c && c <= '9'
}

/// The value of a decimal digit.
pub open spec fn digit_value(c: char) -> int {
    (c as int) - ('0' as int)
}

/// Reads the digits of `s` from the front, starting from the value `acc`;
/// each step checks the digit first, then the product, then the sum.
pub open spec fn scan_digits(s: Seq<char>, acc: int, max: int) -> Result<int, IntErrorKind>
    decreases s.len(),
{
    if s.len() == 0 {
        Ok(acc)
    } else if !is_digit(s[0]) {
        Err(IntErrorKind::InvalidDigit)
    } else if acc * 10 > max {
        Err(IntErrorKind::PosOverflow)
    } else if acc * 10 + digit_value(s[0]) > max {
        Err(IntErrorKind::PosOverflow)
    } else {
        scan_digits(s.drop_first(), acc * 10 + digit_value(s[0]), max)
    }
}

/// The unsigned integer (at most `max`) that `s` spells: an optional `+`
/// followed by decimal digits.
pub open spec fn parse_unsigned_spec(s: Seq<char>, max: int) -> Result<int, IntErrorKind> {
    if s.len() == 0 {
        Err(IntErrorKind::Empty)
    } else if s.len() == 1 && (s[0] == '+' || s[0] == '-') {
        Err(IntErrorKind::InvalidDigit)
    } else if s[0] == '+' {
        scan_digits(s.drop_first(), 0, max)
    } else {
        scan_digits(s, 0, max)
    }
}

/// The `u64` that `s` spells, as `str::parse::<u64>` reads it.
pub open spec fn parse_u64_spec(s: Seq<char>) -> Result<int, IntErrorKind> {
    parse_unsigned_spec(s, u64::MAX as int)
}

/// The `usize` that `s` spells, as `str::parse::<usize>` reads it.
pub open spec fn parse_usize_spec(s: Seq<char>) -> Result<int, IntErrorKind> {
    parse_unsigned_spec(s, usize::MAX as int)
}

proof fn lemma_scan_bounded(s: Seq<char>, acc: int, max: int)
    requires
        0 <= acc <= max,
    ensures
        scan_digits(s, acc, max) matches Ok(v) ==> 0 <= v <= max,
    decreases s.len(),
{
    if s.len() > 0 && is_digit(s[0]) && acc * 10 <= max && acc * 10 + digit_value(s[0]) <= max {
        lemma_scan_bounded(s.drop_first(), acc * 10 + digit_value(s[0]), max);
    }
}

fn scan_digits_exec(s: &Vec<char>, start: usize, max: u64) -> (r: Result<u64, IntErrorKind>)
    requires
        start <= s@.len(),
    ensures
        match scan_digits(s@.skip(start as int), 0, max as int) {
            Ok(v) => r == Ok::<u64, IntErrorKind>(v as u64) && 0 <= v <= max,
            Err(e) => r == Err::<u64, IntErrorKind>(e),
        },
{
    let mut acc: u64 = 0;
    let mut i: usize = start;
    let n: usize = s.len();
    while i < n
        invariant
            n == s@.len(),
            start <= i <= n,
            acc <= max,
            scan_digits(s@.skip(start as int), 0, max as int) == scan_digits(
                s@.skip(i as int),
                acc as int,
                max as int,
            ),
        decreases n - i,
    {
        let c: char = s[i];
        assert(s@.skip(i as int)[0] == c);
        assert(s@.skip(i as int).drop_first() =~= s@.skip(i as int + 1));
        if !('0' <= c && c <= '9') {
            return Err(IntErrorKind::InvalidDigit);
        }
        if acc > max / 10 {
            return Err(IntErrorKind::PosOverflow);
        }
        let d: u64 = (c as u64) - ('0' as u64);
        if d > max - acc * 10 {
            return Err(IntErrorKind::PosOverflow);
        }
        acc = acc * 10 + d;
        i = i + 1;
    }
    assert(s@.skip(i as int) =~= Seq::<char>::empty());
    proof {
        lemma_scan_bounded(s@.skip(start as int), 0, max as int);
    }
    Ok(acc)
}

fn parse_unsigned(s: &str, max: u64) -> (r: Result<u64, IntErrorKind>)
    ensures
        match parse_unsigned_spec(s@, max as int) {
            Ok(v) => r == Ok::<u64, IntErrorKind>(v as u64) && 0 <= v <= max,
            Err(e) => r == Err::<u64, IntErrorKind>(e),
        },
{
    let cs = crate::text::chars_of(s);
    if cs.len() == 0 {
        return Err(IntErrorKind::Empty);
    }
    if cs.len() == 1 && (cs[0] == '+' || cs[0] == '-') {
        return Err(IntErrorKind::InvalidDigit);
    }
    if cs[0] == '+' {
        assert(cs@.skip(1) =~= cs@.drop_first());
        scan_digits_exec(&cs, 1, max)
    } else {
        assert(cs@.skip(0) =~= cs@);
        scan_digits_exec(&cs, 0, max)
    }
}

/// Reads a `u64` as `str::parse::<u64>` does.
pub fn parse_u64(s: &str) -> (r: Result<u64, IntErrorKind>)
    ensures
        match parse_u64_spec(s@) {
            Ok(v) => r == Ok::<u64, IntErrorKind>(v as u64),
            Err(e) => r == Err::<u64, IntErrorKind>(e),
        },
{
    parse_unsigned(s, u64::MAX)
}

/// Reads a `usize` as `str::parse::<usize>` does.
pub fn parse_usize(s: &str) -> (r: Result<usize, IntErrorKind>)
    ensures
        match parse_usize_spec(s@) {
            Ok(v) => r == Ok::<usize, IntErrorKind>(v as usize),
            Err(e) => r == Err::<usize, IntErrorKind>(e),
        },
{
    match parse_unsigned(s, usize::MAX as u64) {
        Ok(v) => Ok(v as usize),
        Err(e) => Err(e),
    }
}

/// The message that `ParseIntError` displays for each kind.
pub open spec fn int_error_text(k: IntErrorKind) -> Seq<char> {
    match k {
        IntErrorKind::Empty => "cannot parse integer from empty string"@,
        IntErrorKind::InvalidDigit => "invalid digit found in string"@,
        IntErrorKind::PosOverflow => "number too large to fit in target type"@,
    }
}

impl IntErrorKind {
    /// The message shown for this kind of error.
    pub fn message(&self) -> (s: String)
        ensures
            s@ == int_error_text(*self),
    {
        match self {
            IntErrorKind::Empty => "cannot parse integer from empty string".to_owned(),
            IntErrorKind::InvalidDigit => "invalid digit found in string".to_owned(),
            IntErrorKind::PosOverflow => "number too large to fit in target type".to_owned(),
        }
    }
}

/// The character of the decimal digit `d`.
pub open spec fn digit_char(d: int) -> char {
    (('0' as int) + d) as char
}

/// The decimal digits of `n`, most significant first, without leading zeros.
pub open spec fn decimal(n: nat) -> Seq<char>
    decreases n,
{
    if n < 10 {
        seq![digit_char(n as int)]
    } else {
        decimal(n / 10).push(digit_char((n % 10) as int))
    }
}

/// Appends the decimal digits of `n` to `out`.
pub fn push_decimal(out: &mut String, n: u64)
    ensures
        final(out)@ == old(out)@ + decimal(n as nat),
    decreases n,
{
    if n >= 10 {
        push_decimal(out, n / 10);
    }
    let d: u8 = (n % 10) as u8;
    let c: char = (48u8 + d) as char;
    assert(c == digit_char((n % 10) as int));
    crate::text::push_char(out, c);
    proof {
        if n < 10 {
            assert(old(out)@ + decimal(n as nat) =~= old(out)@.push(c));
        } else {
            assert(decimal(n as nat) == decimal((n / 10) as nat).push(c));
        }
    }
}

} // verus!
