//! Decimal and hexadecimal text of machine integers, and back.

use vstd::prelude::*;
use vstd::string::*;

use crate::text::to_chars;

verus! {

/// The sum of two counts, or the greatest one where it does not fit.
pub open spec fn capped(a: u64, b: u64) -> u64 {
    if a + b <= u64::MAX {
        (a + b) as u64
    } else {
        u64::MAX
    }
}

/// The character of a decimal digit.
pub open spec fn digit(n: int) -> char {
    ('0' as int + n) as char
}

/// The decimal digits of `n`, without leading zeros.
pub open spec fn decimal_of(n: nat) -> Seq<char>
    decreases n,
{
    if n < 10 {
        seq![digit(n as int)]
    } else {
        decimal_of(n / 10).push(digit((n % 10) as int))
    }
}

/// The decimal text of an integer.
pub open spec fn int_text(n: int) -> Seq<char> {
    if n < 0 {
        "-"@ + decimal_of((-n) as nat)
    } else {
        decimal_of(n as nat)
    }
}

/// The decimal text of `n`.
pub fn decimal(n: u64) -> (r: String)
    ensures
        r@ == decimal_of(n as nat),
        r@ == int_text(n as int),
    decreases n,
{
    let mut r = if n < 10 {
        String::new()
    } else {
        decimal(n / 10)
    };
    r.push((48 + (n % 10) as u8) as char);
    proof {
        if n < 10 {
            assert(r@ =~= seq![digit(n as int)]);
        }
    }
    r
}

/// The decimal text of `n`.
pub fn decimal_usize(n: usize) -> (r: String)
    ensures
        r@ == decimal_of(n as nat),
{
    decimal(n as u64)
}

/// The decimal text of a signed integer.
pub fn decimal_i64(n: i64) -> (r: String)
    ensures
        r@ == int_text(n as int),
{
    if n >= 0 {
        decimal(n as u64)
    } else {
        // The magnitude of the least `i64` does not fit an `i64`.
        let magnitude: u64 = (-(n + 1)) as u64 + 1;
        let digits = decimal(magnitude);
        "-".to_owned().concat(&digits)
    }
}

/// Whether `c` is one of the ten decimal digits.
pub open spec fn is_digit(c: char) -> bool {
    '0' <= c <= '9'
}

/// The value of a run of decimal digits; `None` where another character stands.
pub open spec fn digits_value(s: Seq<char>) -> Option<nat>
    decreases s.len(),
{
    if s.len() == 0 {
        Some(0)
    } else if is_digit(s.last()) && digits_value(s.drop_last()) is Some {
        Some((10 * digits_value(s.drop_last())->0 + (s.last() as int - '0' as int)) as nat)
    } else {
        None
    }
}

/// The value of an unsigned decimal number: an optional `+` and at least one
/// digit.
pub open spec fn unsigned_value(s: Seq<char>) -> Option<nat> {
    let body = if s.len() > 0 && s[0] == '+' {
        s.skip(1)
    } else {
        s
    };
    if body.len() == 0 {
        None
    } else {
        digits_value(body)
    }
}

/// The value of a signed decimal number: an optional sign and at least one
/// digit.
pub open spec fn signed_value(s: Seq<char>) -> Option<int> {
    if s.len() > 0 && s[0] == '-' {
        if s.len() == 1 {
            None
        } else {
            match digits_value(s.skip(1)) {
                Some(n) => Some(-n),
                None => None,
            }
        }
    } else {
        match unsigned_value(s) {
            Some(n) => Some(n as int),
            None => None,
        }
    }
}

/// What parsing `s` as a `u64` gives.
pub open spec fn u64_of(s: Seq<char>) -> Option<u64> {
    match unsigned_value(s) {
        Some(n) => if n <= u64::MAX {
            Some(n as u64)
        } else {
            None
        },
        None => None,
    }
}

/// What parsing `s` as an `i64` gives.
pub open spec fn i64_of(s: Seq<char>) -> Option<i64> {
    match signed_value(s) {
        Some(n) => if i64::MIN <= n <= i64::MAX {
            Some(n as i64)
        } else {
            None
        },
        None => None,
    }
}

/// A number is at least the number its leading digits make.
proof fn digits_value_grows(s: Seq<char>, k: int)
    requires
        0 <= k <= s.len(),
    ensures
        digits_value(s) is Some ==> digits_value(s.take(k)) is Some && digits_value(s)->0
            >= digits_value(s.take(k))->0,
    decreases s.len(),
{
    if k == s.len() {
        assert(s.take(k) =~= s);
    } else {
        digits_value_grows(s.drop_last(), k);
        assert(s.drop_last().take(k) =~= s.take(k));
    }
}

/// The value of `a[from..]` where it fits a `u64`.
fn digits_from(a: &Vec<char>, from: usize) -> (r: Option<u64>)
    requires
        from <= a@.len(),
    ensures
        match digits_value(a@.skip(from as int)) {
            Some(n) => if n <= u64::MAX {
                r == Some(n as u64)
            } else {
                r is None
            },
            None => r is None,
        },
{
    let ghost s = a@.skip(from as int);
    let mut value: u64 = 0;
    let mut i: usize = from;
    proof {
        assert(s.take(0) =~= Seq::<char>::empty());
    }
    while i < a.len()
        invariant
            from <= i <= a@.len(),
            digits_value(s.take(i - from)) == Some(value as nat),
        decreases a@.len() - i,
    {
        let c = a[i];
        let ghost k = i - from;
        proof {
            assert(s.take(k + 1).drop_last() =~= s.take(k));
            assert(s.take(k + 1).last() == c);
            digits_value_grows(s, k + 1);
        }
        if !('0' <= c && c <= '9') {
            return None;
        }
        let d: u64 = (c as u64) - 48;
        if value > (u64::MAX - d) / 10 {
            return None;
        }
        value = 10 * value + d;
        i = i + 1;
    }
    proof {
        assert(s.take(s.len() as int) =~= s);
    }
    Some(value)
}

/// Parses an unsigned decimal number.
pub fn parse_u64(s: &str) -> (r: Option<u64>)
    ensures
        r == u64_of(s@),
{
    let a = to_chars(s);
    proof {
        assert(a@.skip(0) =~= a@);
    }
    let from: usize = if a.len() > 0 && a[0] == '+' {
        1
    } else {
        0
    };
    if from == a.len() {
        None
    } else {
        digits_from(&a, from)
    }
}

/// Parses a signed decimal number.
pub fn parse_i64(s: &str) -> (r: Option<i64>)
    ensures
        r == i64_of(s@),
{
    let a = to_chars(s);
    if a.len() > 0 && a[0] == '-' {
        if a.len() == 1 {
            return None;
        }
        match digits_from(&a, 1) {
            Some(n) => if n <= 0x7fff_ffff_ffff_ffff {
                Some(-(n as i64))
            } else if n == 0x8000_0000_0000_0000 {
                Some(i64::MIN)
            } else {
                None
            },
            None => None,
        }
    } else {
        match parse_u64(s) {
            Some(n) => if n <= 0x7fff_ffff_ffff_ffff {
                Some(n as i64)
            } else {
                None
            },
            None => None,
        }
    }
}

/// The decimal text of a natural number is made of digits and has its value.
pub proof fn decimal_has_value(n: nat)
    ensures
        digits_value(decimal_of(n)) == Some(n),
        decimal_of(n).len() > 0,
        forall|i: int| 0 <= i < decimal_of(n).len() ==> is_digit(#[trigger] decimal_of(n)[i]),
    decreases n,
{
    if n < 10 {
        assert(decimal_of(n).drop_last() =~= Seq::<char>::empty());
        assert(digits_value(decimal_of(n).drop_last()) == Some(0nat));
    } else {
        decimal_has_value(n / 10);
        assert(decimal_of(n).drop_last() =~= decimal_of(n / 10));
    }
}

/// Parsing the decimal text of a number gives the number back.
pub proof fn parse_undoes_decimal(n: u64)
    ensures
        u64_of(decimal_of(n as nat)) == Some(n),
{
    decimal_has_value(n as nat);
    assert(is_digit(decimal_of(n as nat)[0]));
}

/// Parsing the decimal text of a signed number gives the number back.
pub proof fn parse_undoes_signed_decimal(n: i64)
    ensures
        i64_of(int_text(n as int)) == Some(n),
{
    let m = if n < 0 { -n } else { n as int };
    decimal_has_value(m as nat);
    reveal_strlit("-");
    if n < 0 {
        assert(int_text(n as int).skip(1) =~= decimal_of(m as nat));
        assert(int_text(n as int)[0] == '-');
    } else {
        assert(is_digit(decimal_of(n as nat)[0]));
    }
}

/// The character of a lower-case hexadecimal digit.
pub open spec fn hex_digit(n: int) -> char {
    if n < 10 {
        ('0' as int + n) as char
    } else {
        ('a' as int + n - 10) as char
    }
}

/// The `width` low hexadecimal digits of `n`, most significant first.
pub open spec fn hex_of(n: nat, width: nat) -> Seq<char>
    decreases width,
{
    if width == 0 {
        Seq::empty()
    } else {
        hex_of(n / 16, (width - 1) as nat).push(hex_digit((n % 16) as int))
    }
}

pub proof fn hex_len(n: nat, width: nat)
    ensures
        hex_of(n, width).len() == width,
    decreases width,
{
    if width > 0 {
        hex_len(n / 16, (width - 1) as nat);
    }
}

/// The `width` low hexadecimal digits of `n`.
pub fn hex(n: u64, width: u32) -> (r: String)
    ensures
        r@ == hex_of(n as nat, width as nat),
    decreases width,
{
    if width == 0 {
        return String::new();
    }
    let mut r = hex(n / 16, width - 1);
    let d: u8 = (n % 16) as u8;
    if d < 10 {
        r.push((48 + d) as char);
    } else {
        r.push((97 + (d - 10)) as char);
    }
    r
}

} // verus!
