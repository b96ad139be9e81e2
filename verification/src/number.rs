//! Numbers written as text and read back, and seconds as the clock cookie shows them.

use vstd::prelude::*;
use vstd::slice::slice_subrange;

verus! {

// ---------------------------------------------------------------------------
// Writing
// ---------------------------------------------------------------------------

/// The character of a decimal digit.
pub open spec fn digit_char(d: nat) -> char {
    (48 + d) as char
}

/// A number in decimal, without leading zeros.
pub open spec fn decimal(n: nat) -> Seq<char>
    decreases n,
{
    if n < 10 {
        seq![digit_char(n)]
    } else {
        decimal(n / 10).push(digit_char(n % 10))
    }
}

/// A signed number in decimal.
pub open spec fn decimal_int(n: int) -> Seq<char> {
    if n < 0 {
        seq!['-'] + decimal((-n) as nat)
    } else {
        decimal(n as nat)
    }
}

/// A number below 1000 in three digits.
pub open spec fn three_digits(n: nat) -> Seq<char> {
    seq![digit_char(n / 100), digit_char(n / 10 % 10), digit_char(n % 10)]
}

/// The character of a decimal digit.
pub fn digit(d: u8) -> (r: char)
    requires
        d < 10,
    ensures
        r == digit_char(d as nat),
{
    (48 + d) as char
}

/// Appends `n` in decimal to `out`.
pub fn push_decimal(n: u64, out: &mut String)
    ensures
        final(out)@ == old(out)@ + decimal(n as nat),
    decreases n,
{
    if n >= 10 {
        push_decimal(n / 10, out);
    }
    out.push(digit((n % 10) as u8));
}

/// `n` in decimal, with a sign where it is negative.
pub fn signed_text(n: i64) -> (r: String)
    ensures
        r@ == decimal_int(n as int),
{
    let mut out = String::new();
    if n < 0 {
        out.push('-');
        let size: u64 = if n == i64::MIN {
            9_223_372_036_854_775_808
        } else {
            (-n) as u64
        };
        push_decimal(size, &mut out);
    } else {
        push_decimal(n as u64, &mut out);
    }
    out
}

// ---------------------------------------------------------------------------
// Reading
// ---------------------------------------------------------------------------

/// The value of a digit in the given radix, letters standing for the digits from ten on.
pub open spec fn digit_value(c: char, radix: nat) -> Option<nat> {
    let n = c as u32;
    let v: int = if 48 <= n <= 57 {
        n - 48
    } else if 97 <= n <= 122 {
        n - 87
    } else if 65 <= n <= 90 {
        n - 55
    } else {
        radix as int
    };
    if v < radix {
        Some(v as nat)
    } else {
        None
    }
}

/// The number that a row of digits stands for; nothing where some character is no digit.
pub open spec fn digits_value(s: Seq<char>, radix: nat) -> Option<nat>
    decreases s.len(),
{
    if s.len() == 0 {
        Some(0)
    } else {
        match (digits_value(s.drop_last(), radix), digit_value(s.last(), radix)) {
            (Some(high), Some(low)) => Some(high * radix + low),
            _ => None,
        }
    }
}

/// The digits of an unsigned number, behind its optional plus sign.
pub open spec fn unsigned_digits(s: Seq<char>) -> Seq<char> {
    if s.len() > 0 && s[0] == '+' {
        s.skip(1)
    } else {
        s
    }
}

/// An unsigned number of at most `max`: an optional plus sign and at least one digit.
pub open spec fn parse_unsigned(s: Seq<char>, radix: nat, max: nat) -> Option<nat> {
    let digits = unsigned_digits(s);
    match digits_value(digits, radix) {
        Some(n) => if digits.len() > 0 && n <= max {
            Some(n)
        } else {
            None
        },
        None => None,
    }
}

/// The value of a digit in the given radix.
pub fn value_of_digit(c: char, radix: u32) -> (r: Option<u32>)
    requires
        radix <= 36,
    ensures
        match r {
            Some(v) => digit_value(c, radix as nat) == Some(v as nat) && v < radix,
            None => digit_value(c, radix as nat) is None,
        },
{
    let n: u32 = c as u32;
    let v: u32 = if 48 <= n && n <= 57 {
        n - 48
    } else if 97 <= n && n <= 122 {
        n - 87
    } else if 65 <= n && n <= 90 {
        n - 55
    } else {
        radix
    };
    if v < radix {
        Some(v)
    } else {
        None
    }
}

/// More digits never make a number smaller.
pub proof fn lemma_digits_grow(s: Seq<char>, radix: nat, k: int)
    requires
        0 <= k <= s.len(),
        radix >= 1,
    ensures
        digits_value(s, radix) matches Some(n) ==> (digits_value(s.take(k), radix) matches Some(m)
            && m <= n),
    decreases s.len(),
{
    if k == s.len() {
        assert(s.take(k) =~= s);
    } else {
        lemma_digits_grow(s.drop_last(), radix, k);
        assert(s.drop_last().take(k) =~= s.take(k));
        if digits_value(s, radix) is Some {
            let high = digits_value(s.drop_last(), radix)->0;
            assert(high <= high * radix) by (nonlinear_arith)
                requires
                    radix >= 1,
            ;
        }
    }
}

/// Reads an unsigned number of at most `max` in the given radix.
pub fn read_unsigned(s: &[char], radix: u32, max: u64) -> (r: Option<u64>)
    requires
        2 <= radix <= 36,
    ensures
        match r {
            Some(n) => parse_unsigned(s@, radix as nat, max as nat) == Some(n as nat),
            None => parse_unsigned(s@, radix as nat, max as nat) is None,
        },
{
    let digits: &[char] = if s.len() > 0 && s[0] == '+' {
        let rest = slice_subrange(s, 1, s.len());
        assert(rest@ =~= s@.skip(1));
        rest
    } else {
        s
    };
    if digits.len() == 0 {
        return None;
    }
    let mut n: u64 = 0;
    let mut i: usize = 0;
    let ghost base = radix as nat;
    while i < digits.len()
        invariant
            i <= digits@.len(),
            2 <= radix <= 36,
            base == radix as nat,
            n <= max,
            digits@ == unsigned_digits(s@),
            digits_value(digits@.take(i as int), base) == Some(n as nat),
        decreases digits@.len() - i,
    {
        proof {
            lemma_digits_grow(digits@, base, i + 1);
            assert(digits@.take(i + 1).drop_last() =~= digits@.take(i as int));
            assert(digits@.take(i + 1).last() == digits@[i as int]);
        }
        match value_of_digit(digits[i], radix) {
            None => {
                return None;
            },
            Some(v) => {
                assert(n * radix <= 0xffff_ffff_ffff_ffff * 36) by (nonlinear_arith)
                    requires
                        n <= 0xffff_ffff_ffff_ffff,
                        radix <= 36,
                ;
                let wide: u128 = (n as u128) * (radix as u128) + (v as u128);
                if wide > max as u128 {
                    return None;
                }
                n = wide as u64;
            },
        }
        i += 1;
    }
    assert(digits@.take(digits@.len() as int) =~= digits@);
    Some(n)
}

/// Reads a decimal `u32`.
pub fn read_u32(s: &[char]) -> (r: Option<u32>)
    ensures
        match r {
            Some(n) => parse_unsigned(s@, 10, u32::MAX as nat) == Some(n as nat),
            None => parse_unsigned(s@, 10, u32::MAX as nat) is None,
        },
{
    match read_unsigned(s, 10, u32::MAX as u64) {
        Some(n) => Some(n as u32),
        None => None,
    }
}

/// Reads a hexadecimal `usize`.
pub fn read_hex(s: &[char]) -> (r: Option<usize>)
    ensures
        match r {
            Some(n) => parse_unsigned(s@, 16, usize::MAX as nat) == Some(n as nat),
            None => parse_unsigned(s@, 16, usize::MAX as nat) is None,
        },
{
    match read_unsigned(s, 16, usize::MAX as u64) {
        Some(n) => Some(n as usize),
        None => None,
    }
}

/// Every character of a number in decimal is one of the ten digits.
pub proof fn lemma_decimal_is_digits(n: nat)
    ensures
        decimal(n).len() > 0,
        forall|i: int| 0 <= i < decimal(n).len() ==> '0' <= #[trigger] decimal(n)[i] <= '9',
    decreases n,
{
    if n >= 10 {
        lemma_decimal_is_digits(n / 10);
    }
}

/// A number written in decimal is read back as itself.
pub proof fn law_decimal_reads_back(n: nat, max: nat)
    requires
        n <= max,
    ensures
        digits_value(decimal(n), 10) == Some(n),
        parse_unsigned(decimal(n), 10, max) == Some(n),
    decreases n,
{
    lemma_decimal_is_digits(n);
    if n >= 10 {
        law_decimal_reads_back(n / 10, max);
        assert(decimal(n).drop_last() =~= decimal(n / 10));
    } else {
        assert(decimal(n).drop_last() =~= Seq::<char>::empty());
        assert(digits_value(Seq::<char>::empty(), 10) == Some(0nat));
    }
    assert(decimal(n).last() == digit_char(n % 10));
    assert(digit_value(digit_char(n % 10), 10) == Some(n % 10));
    assert('0' <= decimal(n)[0]);
}

/// Decimal numbers are written with the ten digits, the highest place first: a number below
/// ten is its digit, and a further digit at the end makes ten times as much and the digit.
pub proof fn law_decimal_places(n: nat, d: nat)
    requires
        d < 10,
    ensures
        decimal(d) == seq!["0123456789"@[d as int]],
        n > 0 ==> decimal(10 * n + d) == decimal(n) + seq!["0123456789"@[d as int]],
{
    reveal_strlit("0123456789");
    assert(digit_char(d) == "0123456789"@[d as int]);
    if n > 0 {
        assert((10 * n + d) / 10 == n);
        assert((10 * n + d) % 10 == d);
        assert(decimal(10 * n + d) =~= decimal(n) + seq!["0123456789"@[d as int]]);
    }
}

/// Three digits are the hundreds, the tens and the ones.
pub proof fn law_three_digits(a: nat, b: nat, c: nat)
    requires
        a < 10,
        b < 10,
        c < 10,
    ensures
        three_digits(100 * a + 10 * b + c) == decimal(a) + decimal(b) + decimal(c),
{
    let n = 100 * a + 10 * b + c;
    assert(n / 100 == a);
    assert(n / 10 == 10 * a + b);
    assert(n / 10 % 10 == b);
    assert(n % 10 == c);
    assert(three_digits(n) =~= decimal(a) + decimal(b) + decimal(c));
}

/// A signed number is written as its size, behind a minus sign where it is negative.
pub proof fn law_signed_decimal(n: nat)
    ensures
        decimal_int(n as int) == decimal(n),
        n > 0 ==> decimal_int(-(n as int)) == seq!['-'] + decimal(n),
{
}

/// The sixteen hexadecimal digits have the values from 0 to 15 in their order, as small
/// letters and as capitals, and no other character is a digit.
pub proof fn law_hex_digits(c: char, k: int)
    requires
        0 <= k < 16,
    ensures
        c == "0123456789abcdef"@[k] || c == "0123456789ABCDEF"@[k] <==> digit_value(c, 16) == Some(
            k as nat,
        ),
        digit_value(c, 16) matches Some(v) ==> v < 16,
{
    reveal_strlit("0123456789abcdef");
    reveal_strlit("0123456789ABCDEF");
}

/// The ten decimal digits have the values from 0 to 9 in their order, and no other character
/// is a digit.
pub proof fn law_decimal_digits(c: char, k: int)
    requires
        0 <= k < 10,
    ensures
        c == "0123456789"@[k] <==> digit_value(c, 10) == Some(k as nat),
        digit_value(c, 10) matches Some(v) ==> v < 10,
{
    reveal_strlit("0123456789");
}

/// A number in hexadecimal, with small letters and without leading zeros.
pub open spec fn hexadecimal(n: nat) -> Seq<char>
    decreases n,
{
    if n < 16 {
        seq!["0123456789abcdef"@[n as int]]
    } else {
        hexadecimal(n / 16).push("0123456789abcdef"@[(n % 16) as int])
    }
}

/// A number written in hexadecimal is read back as itself, up to the largest one allowed, and
/// not beyond; all its characters are hexadecimal digits.
pub proof fn law_hexadecimal_reads_back(n: nat, max: nat)
    ensures
        digits_value(hexadecimal(n), 16) == Some(n),
        parse_unsigned(hexadecimal(n), 16, max) == (if n <= max {
            Some(n)
        } else {
            None
        }),
        hexadecimal(n).len() > 0,
        forall|i: int|
            0 <= i < hexadecimal(n).len() ==> digit_value(#[trigger] hexadecimal(n)[i], 16) is Some,
    decreases n,
{
    let s = hexadecimal(n);
    law_hex_digits("0123456789abcdef"@[(n % 16) as int], (n % 16) as int);
    if n >= 16 {
        law_hexadecimal_reads_back(n / 16, max);
        assert(s.drop_last() =~= hexadecimal(n / 16));
    } else {
        assert(n % 16 == n);
        assert(s.drop_last() =~= Seq::<char>::empty());
        assert(digits_value(Seq::<char>::empty(), 16) == Some(0nat));
    }
    assert(s.last() == "0123456789abcdef"@[(n % 16) as int]);
    assert(digit_value('+', 16) is None);
    assert(digit_value(s[0], 16) is Some);
}

/// A decimal number above the largest one allowed is not read, and a plus sign before a
/// number changes nothing.
pub proof fn law_decimal_limits(n: nat, max: nat)
    ensures
        parse_unsigned(decimal(n), 10, max) == (if n <= max {
            Some(n)
        } else {
            None
        }),
        parse_unsigned(seq!['+'] + decimal(n), 10, max) == parse_unsigned(decimal(n), 10, max),
{
    law_decimal_reads_back(n, n);
    lemma_decimal_is_digits(n);
    assert('0' <= decimal(n)[0]);
    assert((seq!['+'] + decimal(n)).skip(1) =~= decimal(n));
}

/// A text with a character that is no digit is no number.
pub proof fn law_only_digits_make_a_number(x: Seq<char>, c: char, y: Seq<char>, radix: nat)
    requires
        radix >= 1,
        digit_value(c, radix) is None,
    ensures
        digits_value(x.push(c) + y, radix) is None,
{
    let s = x.push(c) + y;
    lemma_digits_grow(s, radix, x.len() as int + 1);
    assert(s.take(x.len() as int + 1) =~= x.push(c));
    assert(x.push(c).last() == c);
}

// ---------------------------------------------------------------------------
// Seconds from milliseconds
// ---------------------------------------------------------------------------

/// The integer nearest to `num / den`; of two equally near ones the even one.
pub open spec fn round_half_even(num: nat, den: nat) -> nat
    recommends
        den > 0,
{
    let q = num / den;
    let r = num % den;
    if 2 * r > den || (2 * r == den && q % 2 == 1) {
        q + 1
    } else {
        q
    }
}

/// The spacing of double-precision numbers around the integer `n`, but at least one.
pub open spec fn double_spacing(n: nat) -> nat
    decreases n,
{
    if n < 0x20_0000_0000_0000 {
        1
    } else {
        2 * double_spacing(n / 2)
    }
}

/// The double-precision number nearest to an integer.
pub open spec fn nearest_double(n: nat) -> nat {
    let unit = double_spacing(n);
    round_half_even(n, unit) * unit
}

/// The milliseconds that are seen when `ms / 1000` is divided in double precision and
/// written with three decimals.
///
/// Below 2^43 seconds doubles lie less than a millisecond apart and nothing is lost.
/// From there on their spacing is a multiple of 1/512 of a second, so the quotient is
/// taken in that unit.
pub open spec fn shown_millis(ms: u64) -> nat {
    if ms < 8_796_093_022_208_000 {
        ms as nat
    } else {
        let m = nearest_double(ms as nat);
        let unit = double_spacing(m * 512 / 1000);
        let quotient = round_half_even(m * 512, 1000 * unit) * unit;
        round_half_even(quotient * 1000, 512)
    }
}

/// Seconds with three decimals.
pub open spec fn seconds(ms: u64) -> Seq<char> {
    let shown = shown_millis(ms);
    decimal(shown / 1000) + seq!['.'] + three_digits(shown % 1000)
}

/// The integer nearest to `num / den`, ties to the even one.
fn rounded(num: u128, den: u128) -> (r: u128)
    requires
        0 < den <= 0x1_0000_0000_0000_0000,
        num <= 0x1_0000_0000_0000_0000_0000_0000,
    ensures
        r == round_half_even(num as nat, den as nat),
        r <= num + 1,
{
    let q: u128 = num / den;
    let rem: u128 = num % den;
    proof {
        assert(q <= num) by (nonlinear_arith)
            requires
                q == num / den,
                den > 0,
        ;
    }
    if 2 * rem > den || (2 * rem == den && q % 2 == 1) {
        q + 1
    } else {
        q
    }
}

/// The spacing of double-precision numbers around `n`, but at least one.
fn spacing(n: u128) -> (r: u128)
    ensures
        r == double_spacing(n as nat),
        r >= 1,
        r == 1 || r * 0x10_0000_0000_0000 <= n,
    decreases n,
{
    if n < 0x20_0000_0000_0000 {
        1
    } else {
        let half: u128 = spacing(n / 2);
        2 * half
    }
}

/// Rounding to a multiple of `unit` moves a number by less than `unit`.
proof fn lemma_rounded_multiple(n: nat, unit: nat)
    requires
        unit > 0,
    ensures
        round_half_even(n, unit) * unit <= n + unit,
        round_half_even(n, unit) * unit + unit > n,
{
    let q = n / unit;
    vstd::arithmetic::div_mod::lemma_fundamental_div_mod(n as int, unit as int);
    assert(q * unit == unit * q) by (nonlinear_arith);
    assert((q + 1) * unit == q * unit + unit) by (nonlinear_arith);
}

/// The milliseconds that `ms / 1000` shows with three decimals.
fn millis_shown(ms: u64) -> (r: u128)
    ensures
        r == shown_millis(ms),
        r < 0x2_0000_0000_0000_0000,
{
    if ms < 8_796_093_022_208_000 {
        return ms as u128;
    }
    let n: u128 = ms as u128;
    let grain: u128 = spacing(n);
    let whole: u128 = rounded(n, grain);
    proof {
        lemma_rounded_multiple(n as nat, grain as nat);
        assert(grain <= 0x1000) by (nonlinear_arith)
            requires
                grain == 1 || grain * 0x10_0000_0000_0000 <= n,
                n <= 0xffff_ffff_ffff_ffff,
        ;
    }
    let m: u128 = whole * grain;
    let unit: u128 = spacing(m * 512 / 1000);
    proof {
        assert(m <= 0x1_0000_0000_0000_1000);
        assert(unit <= 0x1_0000) by (nonlinear_arith)
            requires
                unit == 1 || unit * 0x10_0000_0000_0000 <= m * 512 / 1000,
                m <= 0x1_0000_0000_0000_1000,
        ;
    }
    let count: u128 = rounded(m * 512, 1000 * unit);
    proof {
        assert(count * unit <= m * 512 / 1000 + 2 * unit) by {
            lemma_quotient_near((m * 512) as nat, unit as nat);
        }
    }
    let quotient: u128 = count * unit;
    let shown: u128 = rounded(quotient * 1000, 512);
    proof {
        lemma_rounded_multiple((quotient * 1000) as nat, 512);
    }
    shown
}

/// Dividing by `1000 * unit` and scaling back by `unit` stays near the division by 1000.
proof fn lemma_quotient_near(a: nat, unit: nat)
    requires
        unit > 0,
    ensures
        round_half_even(a, 1000 * unit) * unit <= a / 1000 + 2 * unit,
{
    let q = a / (1000 * unit);
    vstd::arithmetic::div_mod::lemma_div_denominator(a as int, 1000, unit as int);
    vstd::arithmetic::div_mod::lemma_fundamental_div_mod((a / 1000) as int, unit as int);
    assert(q == (a / 1000) / unit);
    assert(q * unit == unit * q) by (nonlinear_arith);
    assert((q + 1) * unit == q * unit + unit) by (nonlinear_arith);
}

/// Milliseconds as seconds with three decimals.
pub fn seconds_text(ms: u64) -> (r: String)
    ensures
        r@ == seconds(ms),
{
    let shown: u128 = millis_shown(ms);
    let whole: u64 = (shown / 1000) as u64;
    let part: u64 = (shown % 1000) as u64;
    let mut out = String::new();
    push_decimal(whole, &mut out);
    out.push('.');
    out.push(digit((part / 100) as u8));
    out.push(digit((part / 10 % 10) as u8));
    out.push(digit((part % 10) as u8));
    assert(out@ =~= seconds(ms));
    out
}

/// Up to 2^43 seconds the text shows the milliseconds themselves.
pub proof fn law_seconds_exact(ms: u64)
    requires
        ms < 8_796_093_022_208_000,
    ensures
        seconds(ms) == decimal((ms / 1000) as nat) + seq!['.'] + three_digits((ms % 1000) as nat),
{
}

} // verus!
