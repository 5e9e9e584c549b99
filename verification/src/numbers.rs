use vstd::prelude::*;
use vstd::string::*;

verus! {

/// Why a string is not a decimal integer of the wanted type.
#[derive(Debug, Clone, Copy, PartialEq, Eq)]
pub enum IntErrorKind {
    /// The string is empty.
    Empty,
    /// A character is not a decimal digit (or the string is a lone sign).
    InvalidDigit,
    /// The number is above the greatest value of the type.
    PosOverflow,
    /// The number is below the least value of the type.
    NegOverflow,
}

/// The text by which Rust describes a failed integer parse.
pub open spec fn int_error_text(k: IntErrorKind) -> Seq<char> {
    match k {
        IntErrorKind::Empty => "cannot parse integer from empty string"@,
        IntErrorKind::InvalidDigit => "invalid digit found in string"@,
        IntErrorKind::PosOverflow => "number too large to fit in target type"@,
        IntErrorKind::NegOverflow => "number too small to fit in target type"@,
    }
}

impl IntErrorKind {
    /// The description of the error, as Rust words it.
    pub fn description(&self) -> (r: String)
        ensures
            r@ == int_error_text(*self),
    {
        match self {
            IntErrorKind::Empty => String::from_str("cannot parse integer from empty string"),
            IntErrorKind::InvalidDigit => String::from_str("invalid digit found in string"),
            IntErrorKind::PosOverflow => String::from_str("number too large to fit in target type"),
            IntErrorKind::NegOverflow => String::from_str("number too small to fit in target type"),
        }
    }
}

/// Whether `c` is one of the ASCII digits `0` to `9`.
pub open spec fn is_digit(c: char) -> bool {
    '0' <= c <= '9'
}

/// The value of an ASCII digit.
pub open spec fn digit_value(c: char) -> int {
    c as int - '0' as int
}

/// The ASCII digit of a value below ten.
pub open spec fn digit_char(d: nat) -> char {
    (d + '0' as nat) as char
}

/// Reads the digits `s` after the digits read so far, of value `acc`,
/// from left to right; the first character that is not a digit is an
/// `InvalidDigit` error, and a value going above `max` an overflow
/// (reported as `Ok(None)` here).
pub open spec fn read_digits(s: Seq<char>, acc: int, max: int) -> Result<Option<int>, IntErrorKind>
    decreases s.len(),
{
    if s.len() == 0 {
        Ok(Some(acc))
    } else if !is_digit(s[0]) {
        Err(IntErrorKind::InvalidDigit)
    } else if acc * 10 + digit_value(s[0]) > max {
        Ok(None)
    } else {
        read_digits(s.drop_first(), acc * 10 + digit_value(s[0]), max)
    }
}

/// The outcome of reading `s` as a decimal integer between `min` and `max`
/// the way Rust's `str::parse` does: an optional sign (`-` only when `signed`),
/// then at least one digit.
pub open spec fn parse_int(s: Seq<char>, signed: bool, min: int, max: int) -> Result<int, IntErrorKind> {
    if s.len() == 0 {
        Err(IntErrorKind::Empty)
    } else if s.len() == 1 && (s[0] == '+' || s[0] == '-') {
        Err(IntErrorKind::InvalidDigit)
    } else if signed && s[0] == '-' {
        match read_digits(s.drop_first(), 0, -min) {
            Ok(Some(v)) => Ok(-v),
            Ok(None) => Err(IntErrorKind::NegOverflow),
            Err(e) => Err(e),
        }
    } else {
        let digits = if s[0] == '+' { s.drop_first() } else { s };
        match read_digits(digits, 0, max) {
            Ok(Some(v)) => Ok(v),
            Ok(None) => Err(IntErrorKind::PosOverflow),
            Err(e) => Err(e),
        }
    }
}

/// `s` read as a `u16`.
pub open spec fn parse_u16_spec(s: Seq<char>) -> Result<int, IntErrorKind> {
    parse_int(s, false, 0, 0xffff)
}

/// `s` read as an `i32`.
pub open spec fn parse_i32_spec(s: Seq<char>) -> Result<int, IntErrorKind> {
    parse_int(s, true, -0x8000_0000, 0x7fff_ffff)
}

proof fn lemma_read_digits_range(s: Seq<char>, acc: int, max: int)
    requires
        0 <= acc <= max,
    ensures
        read_digits(s, acc, max) matches Ok(Some(v)) ==> 0 <= v <= max,
    decreases s.len(),
{
    if s.len() > 0 && is_digit(s[0]) && acc * 10 + digit_value(s[0]) <= max {
        lemma_read_digits_range(s.drop_first(), acc * 10 + digit_value(s[0]), max);
    }
}

/// A parsed integer lies between the bounds of its type.
pub proof fn lemma_parse_int_range(s: Seq<char>, signed: bool, min: int, max: int)
    requires
        min <= 0 <= max,
    ensures
        parse_int(s, signed, min, max) matches Ok(v) ==> min <= v <= max,
{
    if s.len() > 0 {
        lemma_read_digits_range(s.drop_first(), 0, -min);
        lemma_read_digits_range(s.drop_first(), 0, max);
        lemma_read_digits_range(s, 0, max);
    }
}

/// The decimal digits of `n`, without leading zeros.
pub open spec fn decimal(n: nat) -> Seq<char>
    decreases n,
{
    if n < 10 {
        seq![digit_char(n)]
    } else {
        decimal(n / 10).push(digit_char(n % 10))
    }
}

/// The decimal writing of an integer, with a `-` before a negative one.
pub open spec fn signed_decimal(n: int) -> Seq<char> {
    if n < 0 {
        seq!['-'] + decimal((-n) as nat)
    } else {
        decimal(n as nat)
    }
}

/// The characters of `s`.
pub fn chars_of(s: &str) -> (v: Vec<char>)
    ensures
        v@ == s@,
{
    let mut v: Vec<char> = Vec::new();
    for c in it: s.chars()
        invariant
            it.seq() == s@,
            v@ == s@.take(it.index()),
    {
        assert(s@.take(it.index() + 1) == s@.take(it.index()).push(c));
        v.push(c);
    }
    assert(s@.take(s@.len() as int) == s@);
    v
}

/// Reads digits from position `i` of `cs`, as `read_digits` does, with
/// bound `max`.
fn read_digits_exec(cs: &Vec<char>, start: usize, max: u64) -> (r: Result<Option<u64>, IntErrorKind>)
    requires
        start <= cs.len(),
        max < 0x1_0000_0000,
    ensures
        match (r, read_digits(cs@.skip(start as int), 0, max as int)) {
            (Ok(Some(a)), Ok(Some(b))) => a == b,
            (Ok(None), Ok(None)) => true,
            (Err(a), Err(b)) => a == b,
            _ => false,
        },
        r matches Ok(Some(a)) ==> a <= max,
{
    let mut acc: u64 = 0;
    let mut i = start;
    while i < cs.len()
        invariant
            start <= i <= cs.len(),
            acc <= max,
            max < 0x1_0000_0000,
            read_digits(cs@.skip(start as int), 0, max as int) == read_digits(cs@.skip(i as int), acc as int, max as int),
        decreases cs.len() - i,
    {
        let c = cs[i];
        assert(cs@.skip(i as int)[0] == c);
        assert(cs@.skip(i as int).drop_first() == cs@.skip(i + 1));
        if !('0' <= c && c <= '9') {
            return Err(IntErrorKind::InvalidDigit);
        }
        let d = (c as u32 - '0' as u32) as u64;
        let next = acc * 10 + d;
        if next > max {
            return Ok(None);
        }
        acc = next;
        i = i + 1;
    }
    assert(cs@.skip(i as int).len() == 0);
    Ok(Some(acc))
}

/// Reads `s` as a decimal `u16`, as `s.parse::<u16>()` does.
pub fn parse_u16(s: &str) -> (r: Result<u16, IntErrorKind>)
    ensures
        match r {
            Ok(v) => parse_u16_spec(s@) == Ok::<int, IntErrorKind>(v as int),
            Err(e) => parse_u16_spec(s@) == Err::<int, IntErrorKind>(e),
        },
{
    let cs = chars_of(s);
    if cs.len() == 0 {
        return Err(IntErrorKind::Empty);
    }
    if cs.len() == 1 && (cs[0] == '+' || cs[0] == '-') {
        return Err(IntErrorKind::InvalidDigit);
    }
    let start: usize = if cs[0] == '+' { 1 } else { 0 };
    proof {
        if cs@[0] == '+' {
            assert(cs@.skip(1) == cs@.drop_first());
        } else {
            assert(cs@.skip(0) == cs@);
        }
    }
    match read_digits_exec(&cs, start, 0xffff) {
        Ok(Some(v)) => Ok(v as u16),
        Ok(None) => Err(IntErrorKind::PosOverflow),
        Err(e) => Err(e),
    }
}

/// Reads `s` as a decimal `i32`, as `s.parse::<i32>()` does.
pub fn parse_i32(s: &str) -> (r: Result<i32, IntErrorKind>)
    ensures
        match r {
            Ok(v) => parse_i32_spec(s@) == Ok::<int, IntErrorKind>(v as int),
            Err(e) => parse_i32_spec(s@) == Err::<int, IntErrorKind>(e),
        },
{
    let cs = chars_of(s);
    if cs.len() == 0 {
        return Err(IntErrorKind::Empty);
    }
    if cs.len() == 1 && (cs[0] == '+' || cs[0] == '-') {
        return Err(IntErrorKind::InvalidDigit);
    }
    if cs[0] == '-' {
        assert(cs@.skip(1) == cs@.drop_first());
        match read_digits_exec(&cs, 1, 0x8000_0000) {
            Ok(Some(v)) => Ok((0 - (v as i64)) as i32),
            Ok(None) => Err(IntErrorKind::NegOverflow),
            Err(e) => Err(e),
        }
    } else {
        let start: usize = if cs[0] == '+' { 1 } else { 0 };
        proof {
            if cs@[0] == '+' {
                assert(cs@.skip(1) == cs@.drop_first());
            } else {
                assert(cs@.skip(0) == cs@);
            }
        }
        match read_digits_exec(&cs, start, 0x7fff_ffff) {
            Ok(Some(v)) => Ok(v as i32),
            Ok(None) => Err(IntErrorKind::PosOverflow),
            Err(e) => Err(e),
        }
    }
}

/// The one-digit string of a value below ten.
pub(crate) fn digit_str(d: u64) -> (r: &'static str)
    requires
        d < 10,
    ensures
        r@ == seq![digit_char(d as nat)],
{
    proof {
        reveal_strlit("0");
        reveal_strlit("1");
        reveal_strlit("2");
        reveal_strlit("3");
        reveal_strlit("4");
        reveal_strlit("5");
        reveal_strlit("6");
        reveal_strlit("7");
        reveal_strlit("8");
        reveal_strlit("9");
    }
    let r = if d == 0 {
        "0"
    } else if d == 1 {
        "1"
    } else if d == 2 {
        "2"
    } else if d == 3 {
        "3"
    } else if d == 4 {
        "4"
    } else if d == 5 {
        "5"
    } else if d == 6 {
        "6"
    } else if d == 7 {
        "7"
    } else if d == 8 {
        "8"
    } else {
        "9"
    };
    assert(r@ =~= seq![digit_char(d as nat)]);
    r
}

/// The decimal writing of `n`.
pub fn decimal_string(n: u64) -> (s: String)
    ensures
        s@ == decimal(n as nat),
    decreases n,
{
    if n < 10 {
        String::from_str(digit_str(n))
    } else {
        let mut s = decimal_string(n / 10);
        s.append(digit_str(n % 10));
        s
    }
}

/// The decimal writing of `n`, with a `-` before a negative number.
pub fn signed_decimal_string(n: i64) -> (s: String)
    ensures
        s@ == signed_decimal(n as int),
{
    if n < 0 {
        let magnitude: u64 = if n == i64::MIN { 0x8000_0000_0000_0000 } else { (0 - n) as u64 };
        let digits = decimal_string(magnitude);
        proof {
            reveal_strlit("-");
        }
        let s = String::from_str("-").concat(digits.as_str());
        assert(s@ =~= seq!['-'] + decimal((-n) as nat));
        s
    } else {
        decimal_string(n as u64)
    }
}

} // verus!
