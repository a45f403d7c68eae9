use vstd::prelude::*;
use crate::text::is_digit;

verus! {

/// Why a decimal integer could not be read.
#[derive(Clone, Copy, Debug, PartialEq, Eq, Structural)]
pub enum IntErrorKind {
    Empty,
    InvalidDigit,
    PosOverflow,
    NegOverflow,
}

/// The message that describes each kind of failure.
pub open spec fn int_error_text(k: IntErrorKind) -> Seq<char> {
    match k {
        IntErrorKind::Empty => "cannot parse integer from empty string"@,
        IntErrorKind::InvalidDigit => "invalid digit found in string"@,
        IntErrorKind::PosOverflow => "number too large to fit in target type"@,
        IntErrorKind::NegOverflow => "number too small to fit in target type"@,
    }
}

impl IntErrorKind {
    /// The message for this kind of failure.
    pub fn message(&self) -> (r: String)
        ensures
            r@ == int_error_text(*self),
    {
        match self {
            IntErrorKind::Empty => String::from_str("cannot parse integer from empty string"),
            IntErrorKind::InvalidDigit => String::from_str("invalid digit found in string"),
            IntErrorKind::PosOverflow => String::from_str("number too large to fit in target type"),
            IntErrorKind::NegOverflow => String::from_str("number too small to fit in target type"),
        }
    }
}

/// The value of a decimal digit.
pub open spec fn digit_value(c: char) -> int {
    c as int - '0' as int
}

/// Reads digits left to right onto `acc` (subtracting when `negative`); the first character
/// that is not a digit, or the first step outside `[min, max]`, decides the error.
pub open spec fn read_digits(d: Seq<char>, acc: int, negative: bool, min: int, max: int) -> Result<int, IntErrorKind>
    decreases d.len(),
{
    if d.len() == 0 {
        Ok(acc)
    } else if !is_digit(d[0]) {
        Err(IntErrorKind::InvalidDigit)
    } else {
        let next = if negative { acc * 10 - digit_value(d[0]) } else { acc * 10 + digit_value(d[0]) };
        if next > max {
            Err(IntErrorKind::PosOverflow)
        } else if next < min {
            Err(IntErrorKind::NegOverflow)
        } else {
            read_digits(d.drop_first(), next, negative, min, max)
        }
    }
}

/// Reading a decimal integer in `[min, max]`: an optional `+` (or `-` when `signed`) and digits.
pub open spec fn read_int(s: Seq<char>, signed: bool, min: int, max: int) -> Result<int, IntErrorKind> {
    if s.len() == 0 {
        Err(IntErrorKind::Empty)
    } else if (s[0] == '+' || s[0] == '-') && s.len() == 1 {
        Err(IntErrorKind::InvalidDigit)
    } else if s[0] == '+' {
        read_digits(s.drop_first(), 0, false, min, max)
    } else if s[0] == '-' && signed {
        read_digits(s.drop_first(), 0, true, min, max)
    } else {
        read_digits(s, 0, false, min, max)
    }
}

/// Reading an `i64`.
pub open spec fn read_i64(s: Seq<char>) -> Result<int, IntErrorKind> {
    read_int(s, true, i64::MIN as int, i64::MAX as int)
}

/// Reading a `usize`.
pub open spec fn read_usize(s: Seq<char>) -> Result<int, IntErrorKind> {
    read_int(s, false, 0, usize::MAX as int)
}

/// Reads digits from `start` as `read_digits` does, with the bounds of `i64`.
fn digits_i64(s: &Vec<char>, start: usize, negative: bool) -> (r: Result<i64, IntErrorKind>)
    requires
        start <= s@.len(),
    ensures
        match r {
            Ok(x) => read_digits(s@.skip(start as int), 0, negative, i64::MIN as int, i64::MAX as int)
                == Ok::<int, IntErrorKind>(x as int),
            Err(e) => read_digits(s@.skip(start as int), 0, negative, i64::MIN as int, i64::MAX as int)
                == Err::<int, IntErrorKind>(e),
        },
{
    let ghost target = read_digits(s@.skip(start as int), 0, negative, i64::MIN as int, i64::MAX as int);
    let mut acc: i64 = 0;
    let mut i = start;
    while i < s.len()
        invariant
            start <= i <= s@.len(),
            target == read_digits(s@.skip(start as int), 0, negative, i64::MIN as int, i64::MAX as int),
            target == read_digits(s@.skip(i as int), acc as int, negative, i64::MIN as int, i64::MAX as int),
        decreases s@.len() - i,
    {
        let c = s[i];
        assert(s@.skip(i as int)[0] == c);
        assert(s@.skip(i as int).drop_first() =~= s@.skip(i + 1));
        if !('0' <= c && c <= '9') {
            return Err(IntErrorKind::InvalidDigit);
        }
        let d: i128 = (c as u32 - '0' as u32) as i128;
        let next: i128 = if negative { (acc as i128) * 10 - d } else { (acc as i128) * 10 + d };
        if next > i64::MAX as i128 {
            return Err(IntErrorKind::PosOverflow);
        }
        if next < i64::MIN as i128 {
            return Err(IntErrorKind::NegOverflow);
        }
        acc = next as i64;
        i = i + 1;
    }
    assert(s@.skip(i as int).len() == 0);
    Ok(acc)
}

/// Reads an `i64` written in decimal, as `str::parse::<i64>` does.
pub fn parse_i64(s: &str) -> (r: Result<i64, IntErrorKind>)
    ensures
        match r {
            Ok(x) => read_i64(s@) == Ok::<int, IntErrorKind>(x as int),
            Err(e) => read_i64(s@) == Err::<int, IntErrorKind>(e),
        },
{
    let v = crate::text::chars_of(s);
    proof {
        assert(v@.skip(0) =~= v@);
        if v@.len() > 0 {
            assert(v@.skip(1) =~= v@.drop_first());
        }
    }
    if v.len() == 0 {
        return Err(IntErrorKind::Empty);
    }
    if (v[0] == '+' || v[0] == '-') && v.len() == 1 {
        return Err(IntErrorKind::InvalidDigit);
    }
    if v[0] == '+' {
        digits_i64(&v, 1, false)
    } else if v[0] == '-' {
        digits_i64(&v, 1, true)
    } else {
        digits_i64(&v, 0, false)
    }
}

/// Reads a `usize` written in decimal, as `str::parse::<usize>` does.
pub fn parse_usize(s: &str) -> (r: Result<usize, IntErrorKind>)
    ensures
        match r {
            Ok(x) => read_usize(s@) == Ok::<int, IntErrorKind>(x as int),
            Err(e) => read_usize(s@) == Err::<int, IntErrorKind>(e),
        },
{
    let v = crate::text::chars_of(s);
    if v.len() == 0 {
        return Err(IntErrorKind::Empty);
    }
    if (v[0] == '+' || v[0] == '-') && v.len() == 1 {
        return Err(IntErrorKind::InvalidDigit);
    }
    let start: usize = if v[0] == '+' { 1 } else { 0 };
    proof {
        assert(v@.skip(0) =~= v@);
        assert(v@.skip(1) =~= v@.drop_first());
    }
    let ghost target = read_digits(v@.skip(start as int), 0, false, 0, usize::MAX as int);
    assert(read_usize(s@) == target);
    let mut acc: usize = 0;
    let mut i = start;
    while i < v.len()
        invariant
            start <= i <= v@.len(),
            target == read_digits(v@.skip(start as int), 0, false, 0, usize::MAX as int),
            target == read_digits(v@.skip(i as int), acc as int, false, 0, usize::MAX as int),
            read_usize(s@) == target,
        decreases v@.len() - i,
    {
        let c = v[i];
        assert(v@.skip(i as int)[0] == c);
        assert(v@.skip(i as int).drop_first() =~= v@.skip(i + 1));
        if !('0' <= c && c <= '9') {
            return Err(IntErrorKind::InvalidDigit);
        }
        let d: u128 = (c as u32 - '0' as u32) as u128;
        let next: u128 = (acc as u128) * 10 + d;
        if next > usize::MAX as u128 {
            return Err(IntErrorKind::PosOverflow);
        }
        acc = next as usize;
        i = i + 1;
    }
    assert(v@.skip(i as int).len() == 0);
    Ok(acc)
}

} // verus!
