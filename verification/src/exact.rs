//! Exact rational numbers: every numeric value of the
//! guaranteed subset is an arbitrary-precision rational, never a float.
//!
//! A value holds its numerator and denominator as two's-complement
//! little-endian byte strings, so the library can state and check what each
//! operation computes; the arithmetic itself is done by `num-rational`.

use num_bigint::BigInt;
use num_rational::BigRational;
use vstd::prelude::*;

verus! {

// ==========================================================================
// The mathematical model
// ==========================================================================

/// The unsigned value of a little-endian byte string.
pub open spec fn le_bytes_value(s: Seq<u8>) -> nat
    decreases s.len(),
{
    if s.len() == 0 {
        0
    } else {
        s[0] as nat + 256 * le_bytes_value(s.drop_first())
    }
}

/// `256` to the power `n`.
pub open spec fn pow256(n: nat) -> nat
    decreases n,
{
    if n == 0 {
        1
    } else {
        256 * pow256((n - 1) as nat)
    }
}

/// `10` to the power `n`.
pub open spec fn pow10(n: nat) -> nat
    decreases n,
{
    if n == 0 {
        1
    } else {
        10 * pow10((n - 1) as nat)
    }
}

/// The value of a two's-complement little-endian byte string: the top bit of
/// the last byte is the sign. The empty string is zero.
pub open spec fn twos_value(s: Seq<u8>) -> int {
    if s.len() > 0 && s.last() >= 128 {
        le_bytes_value(s) - pow256(s.len())
    } else {
        le_bytes_value(s) as int
    }
}

pub open spec fn abs(x: int) -> nat {
    if x < 0 {
        (-x) as nat
    } else {
        x as nat
    }
}

/// The greatest common divisor (Euclid).
pub open spec fn gcd(a: nat, b: nat) -> nat
    decreases b,
{
    if b == 0 {
        a
    } else {
        gcd(b, a % b)
    }
}

/// The lowest-terms form of `n / d` with a positive denominator.
pub open spec fn reduce(n: int, d: int) -> (int, int) {
    let g = gcd(abs(n), abs(d)) as int;
    if d < 0 {
        (-(n / g), -(d / g))
    } else {
        (n / g, d / g)
    }
}

/// Division truncating toward zero, as on Rust integers.
pub open spec fn tdiv(a: int, b: int) -> int {
    let q = (abs(a) / abs(b)) as int;
    if (a < 0) != (b < 0) {
        -q
    } else {
        q
    }
}

/// The remainder of [`tdiv`]: it takes the dividend's sign.
pub open spec fn trem(a: int, b: int) -> int {
    a - b * tdiv(a, b)
}

/// The value of a string of ASCII decimal digits, most significant first.
pub open spec fn digits_value(s: Seq<u8>) -> nat
    decreases s.len(),
{
    if s.len() == 0 {
        0
    } else {
        digits_value(s.drop_last()) * 10 + (s.last() - 48) as nat
    }
}

pub open spec fn is_ascii_digit_byte(b: u8) -> bool {
    48 <= b <= 57
}

pub open spec fn all_ascii_digit_bytes(s: Seq<u8>) -> bool {
    forall|i: int| 0 <= i < s.len() ==> is_ascii_digit_byte(#[trigger] s[i])
}

/// The decimal digit character of `d` (`0 <= d < 10`).
pub open spec fn digit_char(d: nat) -> char {
    if d == 0 {
        '0'
    } else if d == 1 {
        '1'
    } else if d == 2 {
        '2'
    } else if d == 3 {
        '3'
    } else if d == 4 {
        '4'
    } else if d == 5 {
        '5'
    } else if d == 6 {
        '6'
    } else if d == 7 {
        '7'
    } else if d == 8 {
        '8'
    } else {
        '9'
    }
}

/// The decimal spelling of a natural number, without leading zeros.
pub open spec fn nat_decimal(n: nat) -> Seq<char>
    decreases n,
{
    if n < 10 {
        seq![digit_char(n)]
    } else {
        nat_decimal(n / 10).push(digit_char(n % 10))
    }
}

/// The decimal spelling of an integer: `-` then the digits of the magnitude.
pub open spec fn int_decimal(v: int) -> Seq<char> {
    if v < 0 {
        seq!['-'] + nat_decimal(abs(v))
    } else {
        nat_decimal(abs(v))
    }
}

/// An exact rational value of the guaranteed subset.
#[derive(Debug, Clone, PartialEq, Eq)]
pub struct ExactValue {
    num: Vec<u8>,
    den: Vec<u8>,
}

impl ExactValue {
    /// The numerator.
    pub closed spec fn numer(&self) -> int {
        twos_value(self.num@)
    }

    /// The denominator.
    pub closed spec fn denom(&self) -> int {
        twos_value(self.den@)
    }

    /// A usable value: its denominator is positive.
    pub open spec fn wf(&self) -> bool {
        self.denom() > 0
    }

    /// The value as a `(numerator, denominator)` pair.
    pub open spec fn pair(&self) -> (int, int) {
        (self.numer(), self.denom())
    }
}

/// Exact equality of two rationals given as pairs with positive denominators.
pub open spec fn rat_eq(a: (int, int), b: (int, int)) -> bool {
    a.0 * b.1 == b.0 * a.1
}

/// Strict order of two rationals given as pairs with positive denominators.
pub open spec fn rat_lt(a: (int, int), b: (int, int)) -> bool {
    a.0 * b.1 < b.0 * a.1
}

pub open spec fn rat_add(a: (int, int), b: (int, int)) -> (int, int) {
    reduce(a.0 * b.1 + b.0 * a.1, a.1 * b.1)
}

pub open spec fn rat_sub(a: (int, int), b: (int, int)) -> (int, int) {
    reduce(a.0 * b.1 - b.0 * a.1, a.1 * b.1)
}

pub open spec fn rat_mul(a: (int, int), b: (int, int)) -> (int, int) {
    reduce(a.0 * b.0, a.1 * b.1)
}

pub open spec fn rat_div(a: (int, int), b: (int, int)) -> (int, int) {
    reduce(a.0 * b.1, a.1 * b.0)
}

// ==========================================================================
// The calls into num-bigint / num-rational
// ==========================================================================

/// `BigRational::new` over two's-complement byte strings
/// (`BigInt::from_signed_bytes_le` / `to_signed_bytes_le`): the
/// lowest-terms form of `n / d` with a positive denominator.
#[verifier::external_body]
fn ratio_new(n: &[u8], d: &[u8]) -> (r: ExactValue)
    requires
        twos_value(d@) != 0,
    ensures
        r.pair() == reduce(twos_value(n@), twos_value(d@)),
        r.wf(),
{
    let r = BigRational::new(BigInt::from_signed_bytes_le(n), BigInt::from_signed_bytes_le(d));
    ExactValue { num: r.numer().to_signed_bytes_le(), den: r.denom().to_signed_bytes_le() }
}

/// `BigRational` addition: the lowest-terms sum.
#[verifier::external_body]
fn ratio_add(a: &ExactValue, b: &ExactValue) -> (r: ExactValue)
    requires
        a.wf(),
        b.wf(),
    ensures
        r.pair() == rat_add(a.pair(), b.pair()),
        r.wf(),
{
    let x = BigRational::new_raw(BigInt::from_signed_bytes_le(&a.num), BigInt::from_signed_bytes_le(&a.den));
    let y = BigRational::new_raw(BigInt::from_signed_bytes_le(&b.num), BigInt::from_signed_bytes_le(&b.den));
    let r = x + y;
    ExactValue { num: r.numer().to_signed_bytes_le(), den: r.denom().to_signed_bytes_le() }
}

/// `BigRational` subtraction: the lowest-terms difference.
#[verifier::external_body]
fn ratio_sub(a: &ExactValue, b: &ExactValue) -> (r: ExactValue)
    requires
        a.wf(),
        b.wf(),
    ensures
        r.pair() == rat_sub(a.pair(), b.pair()),
        r.wf(),
{
    let x = BigRational::new_raw(BigInt::from_signed_bytes_le(&a.num), BigInt::from_signed_bytes_le(&a.den));
    let y = BigRational::new_raw(BigInt::from_signed_bytes_le(&b.num), BigInt::from_signed_bytes_le(&b.den));
    let r = x - y;
    ExactValue { num: r.numer().to_signed_bytes_le(), den: r.denom().to_signed_bytes_le() }
}

/// `BigRational` multiplication: the lowest-terms product.
#[verifier::external_body]
fn ratio_mul(a: &ExactValue, b: &ExactValue) -> (r: ExactValue)
    requires
        a.wf(),
        b.wf(),
    ensures
        r.pair() == rat_mul(a.pair(), b.pair()),
        r.wf(),
{
    let x = BigRational::new_raw(BigInt::from_signed_bytes_le(&a.num), BigInt::from_signed_bytes_le(&a.den));
    let y = BigRational::new_raw(BigInt::from_signed_bytes_le(&b.num), BigInt::from_signed_bytes_le(&b.den));
    let r = x * y;
    ExactValue { num: r.numer().to_signed_bytes_le(), den: r.denom().to_signed_bytes_le() }
}

/// `BigRational` division by a non-zero value: the lowest-terms quotient.
#[verifier::external_body]
fn ratio_div(a: &ExactValue, b: &ExactValue) -> (r: ExactValue)
    requires
        a.wf(),
        b.wf(),
        b.numer() != 0,
    ensures
        r.pair() == rat_div(a.pair(), b.pair()),
        r.wf(),
{
    let x = BigRational::new_raw(BigInt::from_signed_bytes_le(&a.num), BigInt::from_signed_bytes_le(&a.den));
    let y = BigRational::new_raw(BigInt::from_signed_bytes_le(&b.num), BigInt::from_signed_bytes_le(&b.den));
    let r = x / y;
    ExactValue { num: r.numer().to_signed_bytes_le(), den: r.denom().to_signed_bytes_le() }
}

/// `BigRational` negation: the numerator changes sign.
#[verifier::external_body]
fn ratio_neg(a: &ExactValue) -> (r: ExactValue)
    requires
        a.wf(),
    ensures
        r.pair() == (-a.numer(), a.denom()),
        r.wf(),
{
    let x = BigRational::new_raw(BigInt::from_signed_bytes_le(&a.num), BigInt::from_signed_bytes_le(&a.den));
    let r = -x;
    ExactValue { num: r.numer().to_signed_bytes_le(), den: r.denom().to_signed_bytes_le() }
}

/// `BigRational`'s `<`: the exact order of the two values.
#[verifier::external_body]
fn ratio_lt(a: &ExactValue, b: &ExactValue) -> (r: bool)
    requires
        a.wf(),
        b.wf(),
    ensures
        r == rat_lt(a.pair(), b.pair()),
{
    let x = BigRational::new_raw(BigInt::from_signed_bytes_le(&a.num), BigInt::from_signed_bytes_le(&a.den));
    let y = BigRational::new_raw(BigInt::from_signed_bytes_le(&b.num), BigInt::from_signed_bytes_le(&b.den));
    x < y
}

/// `BigRational`'s `==`: exact equality of the two values.
#[verifier::external_body]
fn ratio_eq(a: &ExactValue, b: &ExactValue) -> (r: bool)
    requires
        a.wf(),
        b.wf(),
    ensures
        r == rat_eq(a.pair(), b.pair()),
{
    let x = BigRational::new_raw(BigInt::from_signed_bytes_le(&a.num), BigInt::from_signed_bytes_le(&a.den));
    let y = BigRational::new_raw(BigInt::from_signed_bytes_le(&b.num), BigInt::from_signed_bytes_le(&b.den));
    x == y
}

/// `BigInt` division, truncating toward zero.
#[verifier::external_body]
fn bigint_tdiv(a: &[u8], b: &[u8]) -> (r: Vec<u8>)
    requires
        twos_value(b@) != 0,
    ensures
        twos_value(r@) == tdiv(twos_value(a@), twos_value(b@)),
{
    (BigInt::from_signed_bytes_le(a) / BigInt::from_signed_bytes_le(b)).to_signed_bytes_le()
}

/// `BigInt` remainder: it takes the dividend's sign.
#[verifier::external_body]
fn bigint_trem(a: &[u8], b: &[u8]) -> (r: Vec<u8>)
    requires
        twos_value(b@) != 0,
    ensures
        twos_value(r@) == trem(twos_value(a@), twos_value(b@)),
{
    (BigInt::from_signed_bytes_le(a) % BigInt::from_signed_bytes_le(b)).to_signed_bytes_le()
}

/// `BigInt::parse_bytes` in radix 10 over a non-empty string of ASCII digits.
#[verifier::external_body]
fn bigint_parse_decimal(digits: &[u8]) -> (r: Option<Vec<u8>>)
    requires
        digits@.len() > 0,
        all_ascii_digit_bytes(digits@),
    ensures
        r is Some,
        r matches Some(bytes) ==> twos_value(bytes@) == digits_value(digits@),
{
    match BigInt::parse_bytes(digits, 10) {
        Some(v) => Some(v.to_signed_bytes_le()),
        None => None,
    }
}

/// `BigInt`'s `Display`: the decimal spelling.
#[verifier::external_body]
fn bigint_to_decimal(a: &[u8]) -> (r: String)
    ensures
        r@ == int_decimal(twos_value(a@)),
{
    BigInt::from_signed_bytes_le(a).to_string()
}

/// `BigInt::from(i64)`, as two's-complement bytes.
#[verifier::external_body]
fn bigint_from_i64(v: i64) -> (r: Vec<u8>)
    ensures
        twos_value(r@) == v as int,
{
    BigInt::from(v).to_signed_bytes_le()
}

/// `i64::try_from(BigInt)`: the value when it fits.
#[verifier::external_body]
fn bigint_to_i64(a: &[u8]) -> (r: Option<i64>)
    ensures
        r matches Some(v) ==> v as int == twos_value(a@),
        r is None <==> !(i64::MIN <= twos_value(a@) <= i64::MAX),
{
    i64::try_from(BigInt::from_signed_bytes_le(a)).ok()
}

/// `u64::try_from(BigInt)`: the value when it fits.
#[verifier::external_body]
fn bigint_to_u64(a: &[u8]) -> (r: Option<u64>)
    ensures
        r matches Some(v) ==> v as int == twos_value(a@),
        r is None <==> !(0 <= twos_value(a@) <= u64::MAX),
{
    u64::try_from(BigInt::from_signed_bytes_le(a)).ok()
}

/// `BigRational::is_integer`: whether the denominator is one.
#[verifier::external_body]
fn ratio_is_integer(a: &ExactValue) -> (r: bool)
    requires
        a.wf(),
    ensures
        r == (a.denom() == 1),
{
    BigRational::new_raw(BigInt::from_signed_bytes_le(&a.num), BigInt::from_signed_bytes_le(&a.den)).is_integer()
}

/// `BigInt` negation.
#[verifier::external_body]
fn bigint_neg(a: &[u8]) -> (r: Vec<u8>)
    ensures
        twos_value(r@) == -twos_value(a@),
{
    (-BigInt::from_signed_bytes_le(a)).to_signed_bytes_le()
}

/// `BigInt` multiplication.
#[verifier::external_body]
fn bigint_mul(a: &[u8], b: &[u8]) -> (r: Vec<u8>)
    ensures
        twos_value(r@) == twos_value(a@) * twos_value(b@),
{
    (BigInt::from_signed_bytes_le(a) * BigInt::from_signed_bytes_le(b)).to_signed_bytes_le()
}

// ==========================================================================
// Decimal literals
// ==========================================================================

pub open spec fn is_digit_char(c: char) -> bool {
    '0' <= c <= '9'
}

pub open spec fn all_digit_chars(s: Seq<char>) -> bool {
    forall|i: int| 0 <= i < s.len() ==> is_digit_char(#[trigger] s[i])
}

/// The ASCII bytes of a string of ASCII characters.
pub open spec fn ascii_bytes(s: Seq<char>) -> Seq<u8> {
    s.map_values(|c: char| c as u8)
}

/// The index of the first `c` in `s`, or `-1`.
pub open spec fn first_index(s: Seq<char>, c: char) -> int
    decreases s.len(),
{
    if s.len() == 0 {
        -1
    } else if s[0] == c {
        0
    } else {
        let rest = first_index(s.drop_first(), c);
        if rest < 0 {
            -1
        } else {
            rest + 1
        }
    }
}

/// The parts of a decimal literal: the sign, the digits before the first
/// `.`, the text after it, and whether there is a `.` at all.
pub open spec fn decimal_parts(s: Seq<char>) -> (bool, Seq<char>, Seq<char>, bool) {
    let neg = s.len() > 0 && s[0] == '-';
    let body = if neg {
        s.drop_first()
    } else {
        s
    };
    let k = first_index(body, '.');
    if k < 0 {
        (neg, body, Seq::<char>::empty(), false)
    } else {
        (neg, body.take(k), body.skip(k + 1), true)
    }
}

/// The exact value a decimal literal spells: an optional `-`, one or more
/// digits, and optionally `.` followed by one or more digits. `None` for any
/// other text.
pub open spec fn decimal_literal_value(s: Seq<char>) -> Option<(int, int)> {
    let (neg, int_part, frac_part, has_dot) = decimal_parts(s);
    if int_part.len() > 0 && all_digit_chars(int_part) && all_digit_chars(frac_part) && (!has_dot
        || frac_part.len() > 0) {
        let magnitude = digits_value(ascii_bytes(int_part + frac_part)) as int;
        Some(reduce(if neg { -magnitude } else { magnitude }, pow10(frac_part.len()) as int))
    } else {
        None
    }
}

/// A found index lies inside the sequence and holds `c`; nothing before it
/// does.
pub proof fn lemma_first_index_bound(s: Seq<char>, c: char)
    ensures
        -1 <= first_index(s, c) < s.len(),
        first_index(s, c) >= 0 ==> s[first_index(s, c)] == c,
        forall|j: int| 0 <= j < s.len() && (first_index(s, c) < 0 || j < first_index(s, c)) ==> s[j] != c,
    decreases s.len(),
{
    if s.len() > 0 {
        lemma_first_index_bound(s.drop_first(), c);
        assert forall|j: int| 0 < j < s.len() implies s[j] == s.drop_first()[j - 1] by {}
    }
}

pub proof fn lemma_first_index(s: Seq<char>, c: char, m: int)
    requires
        0 <= m <= s.len(),
        forall|j: int| 0 <= j < m ==> s[j] != c,
        m < s.len() ==> s[m] == c,
    ensures
        first_index(s, c) == if m < s.len() {
            m
        } else {
            -1
        },
    decreases s.len(),
{
    if s.len() > 0 && m > 0 {
        assert forall|j: int| 0 <= j < m - 1 implies s.drop_first()[j] != c by {
            assert(s.drop_first()[j] == s[j + 1]);
        }
        lemma_first_index(s.drop_first(), c, m - 1);
    }
}

proof fn lemma_pow10_digits(k: nat)
    ensures
        digits_value(seq![49u8] + Seq::new(k, |i: int| 48u8)) == pow10(k),
    decreases k,
{
    let s = seq![49u8] + Seq::new(k, |i: int| 48u8);
    if k == 0 {
        assert(s.drop_last() =~= Seq::<u8>::empty());
        assert(s.last() == 49u8);
        assert(digits_value(Seq::<u8>::empty()) == 0);
    } else {
        assert(s.last() == 48u8);
        lemma_pow10_digits((k - 1) as nat);
        assert(s.drop_last() =~= seq![49u8] + Seq::new((k - 1) as nat, |i: int| 48u8));
    }
}

proof fn lemma_twos_one()
    ensures
        twos_value(seq![1u8]) == 1,
        twos_value(seq![0u8]) == 0,
{
    reveal_with_fuel(le_bytes_value, 2);
    assert(seq![1u8].drop_first() =~= Seq::<u8>::empty());
    assert(seq![0u8].drop_first() =~= Seq::<u8>::empty());
}

impl ExactValue {
    /// Parses a decimal literal (`-`, digits, `.`, digits) into its exact
    /// value; `None` for any other text.
    pub fn parse(text: &str) -> (r: Option<ExactValue>)
        ensures
            r matches Some(v) ==> v.wf() && decimal_literal_value(text@) == Some(v.pair()),
            r is None <==> decimal_literal_value(text@) is None,
    {
        let cs = crate::chars::str_to_chars(text);
        ExactValue::parse_chars(&cs)
    }

    /// [`ExactValue::parse`] over the characters of the text.
    pub fn parse_chars(cs: &Vec<char>) -> (r: Option<ExactValue>)
        ensures
            r matches Some(v) ==> v.wf() && decimal_literal_value(cs@) == Some(v.pair()),
            r is None <==> decimal_literal_value(cs@) is None,
    {
        let (neg, int_part, frac_part, has_dot) = literal_parts(cs);
        if int_part.len() == 0 || (has_dot && frac_part.len() == 0) || !all_digits(&int_part)
            || !all_digits(&frac_part) {
            return None;
        }
        let mut digits = ascii_digit_bytes(&int_part);
        let mut rest = ascii_digit_bytes(&frac_part);
        digits.append(&mut rest);
        assert(digits@ =~= ascii_bytes(int_part@ + frac_part@));
        assert(all_ascii_digit_bytes(digits@));
        let frac_len: usize = frac_part.len();
        // The magnitude and the power of ten under it.
        let magnitude = match bigint_parse_decimal(digits.as_slice()) {
            Some(m) => m,
            None => {
                return None;
            },
        };
        let numerator = if neg {
            bigint_neg(magnitude.as_slice())
        } else {
            magnitude
        };
        let mut scale: Vec<u8> = Vec::new();
        scale.push(49u8);
        let mut z: usize = 0;
        while z < frac_len
            invariant
                z <= frac_len,
                scale@ =~= seq![49u8] + Seq::new(z as nat, |i: int| 48u8),
            decreases frac_len - z,
        {
            scale.push(48u8);
            z = z + 1;
        }
        assert(all_ascii_digit_bytes(scale@));
        let denominator = match bigint_parse_decimal(scale.as_slice()) {
            Some(d) => d,
            None => {
                return None;
            },
        };
        proof {
            lemma_pow10_digits(frac_len as nat);
            lemma_pow10_positive(frac_len as nat);
        }
        Some(ratio_new(numerator.as_slice(), denominator.as_slice()))
    }
}

/// The sign, the integer part, the fraction part, and whether a `.` is
/// present ([`decimal_parts`]).
fn literal_parts(cs: &Vec<char>) -> (r: (bool, Vec<char>, Vec<char>, bool))
    ensures
        (r.0, r.1@, r.2@, r.3) == decimal_parts(cs@),
{
    let neg = cs.len() > 0 && cs[0] == '-';
    let start: usize = if neg {
        1
    } else {
        0
    };
    let ghost body = if neg {
        cs@.drop_first()
    } else {
        cs@
    };
    assert(body =~= cs@.skip(start as int));
    let mut k: usize = start;
    while k < cs.len() && cs[k] != '.'
        invariant
            start <= k <= cs.len(),
            forall|j: int| start <= j < k ==> cs@[j] != '.',
        decreases cs.len() - k,
    {
        k = k + 1;
    }
    proof {
        lemma_first_index(body, '.', k - start);
    }
    let int_part = slice_chars(cs, start, k);
    if k < cs.len() {
        let frac_part = slice_chars(cs, k + 1, cs.len());
        assert(int_part@ =~= body.take(k - start));
        assert(frac_part@ =~= body.skip(k - start + 1));
        (neg, int_part, frac_part, true)
    } else {
        assert(int_part@ =~= body);
        (neg, int_part, Vec::new(), false)
    }
}

/// The characters `cs[from..to]`.
fn slice_chars(cs: &Vec<char>, from: usize, to: usize) -> (r: Vec<char>)
    requires
        from <= to <= cs.len(),
    ensures
        r@ == cs@.subrange(from as int, to as int),
{
    let mut r: Vec<char> = Vec::new();
    let mut i = from;
    while i < to
        invariant
            from <= i <= to <= cs.len(),
            r@ =~= cs@.subrange(from as int, i as int),
        decreases to - i,
    {
        r.push(cs[i]);
        i = i + 1;
    }
    r
}

/// Whether every character is an ASCII digit.
fn all_digits(cs: &Vec<char>) -> (r: bool)
    ensures
        r == all_digit_chars(cs@),
{
    let mut i: usize = 0;
    while i < cs.len()
        invariant
            i <= cs.len(),
            forall|j: int| 0 <= j < i ==> is_digit_char(#[trigger] cs@[j]),
        decreases cs.len() - i,
    {
        let c = cs[i];
        if !('0' <= c && c <= '9') {
            assert(!is_digit_char(cs@[i as int]));
            return false;
        }
        i = i + 1;
    }
    true
}

/// The ASCII bytes of a string of digits.
fn ascii_digit_bytes(cs: &Vec<char>) -> (r: Vec<u8>)
    requires
        all_digit_chars(cs@),
    ensures
        r@ == ascii_bytes(cs@),
        all_ascii_digit_bytes(r@),
{
    let mut r: Vec<u8> = Vec::new();
    let mut i: usize = 0;
    while i < cs.len()
        invariant
            i <= cs.len(),
            all_digit_chars(cs@),
            r@ =~= ascii_bytes(cs@.take(i as int)),
            all_ascii_digit_bytes(r@),
        decreases cs.len() - i,
    {
        let c = cs[i];
        assert(is_digit_char(cs@[i as int]));
        r.push(c as u8);
        i = i + 1;
    }
    assert(cs@.take(cs.len() as int) =~= cs@);
    r
}

pub(crate) proof fn lemma_pow10_positive(n: nat)
    ensures
        pow10(n) >= 1,
    decreases n,
{
    if n > 0 {
        lemma_pow10_positive((n - 1) as nat);
    }
}

// ==========================================================================
// Decimal rendering
// ==========================================================================

/// The least `k` in `k..=limit` with `n * 10^k` divisible by `d`.
pub open spec fn decimal_scale(n: int, d: int, k: nat, limit: nat) -> Option<nat>
    decreases limit + 1 - k,
{
    if k > limit {
        None
    } else if trem(n * pow10(k), d) == 0 {
        Some(k)
    } else {
        decimal_scale(n, d, k + 1, limit)
    }
}

pub open spec fn zeros(n: nat) -> Seq<char> {
    Seq::new(n, |i: int| '0')
}

/// `m / 10^k` written in positional notation with exactly `k` fraction
/// digits (none and no `.` when `k` is zero).
pub open spec fn fixed_point(m: int, k: nat) -> Seq<char> {
    let digits = nat_decimal(abs(m));
    let padded = if digits.len() <= k {
        zeros((k + 1 - digits.len()) as nat) + digits
    } else {
        digits
    };
    let body = if k == 0 {
        padded
    } else {
        padded.take(padded.len() - k) + seq!['.'] + padded.skip(padded.len() - k)
    };
    if m < 0 {
        seq!['-'] + body
    } else {
        body
    }
}

/// The canonical decimal text of `n / d` (`d > 0`): the terminating decimal
/// with the fewest fraction digits, found among at most four fraction digits
/// per digit of `d`; otherwise the fraction `n/d`.
pub open spec fn decimal_text(n: int, d: int) -> Seq<char> {
    let limit = 4 * nat_decimal(abs(d)).len();
    let fraction = int_decimal(n) + seq!['/'] + int_decimal(d);
    if limit > usize::MAX {
        fraction
    } else {
        match decimal_scale(n, d, 0, limit) {
            Some(k) => fixed_point(tdiv(n * pow10(k), d), k),
            None => fraction,
        }
    }
}

proof fn lemma_nat_decimal_first(n: nat)
    ensures
        nat_decimal(n).len() > 0,
        nat_decimal(n)[0] != '-',
    decreases n,
{
    if n >= 10 {
        lemma_nat_decimal_first(n / 10);
    }
}

impl ExactValue {
    /// The exact value zero.
    pub fn zero() -> (r: ExactValue)
        ensures
            r.wf(),
            r.pair() == (0int, 1int),
    {
        proof {
            lemma_twos_one();
        }
        let r = ExactValue { num: vec![0u8], den: vec![1u8] };
        assert(r.num@ =~= seq![0u8]);
        assert(r.den@ =~= seq![1u8]);
        r
    }

    /// A copy of the value.
    pub fn copy(&self) -> (r: ExactValue)
        ensures
            r.pair() == self.pair(),
    {
        let mut num: Vec<u8> = Vec::new();
        let mut i: usize = 0;
        while i < self.num.len()
            invariant
                i <= self.num.len(),
                num@ =~= self.num@.take(i as int),
            decreases self.num.len() - i,
        {
            num.push(self.num[i]);
            i = i + 1;
        }
        let mut den: Vec<u8> = Vec::new();
        let mut j: usize = 0;
        while j < self.den.len()
            invariant
                j <= self.den.len(),
                den@ =~= self.den@.take(j as int),
            decreases self.den.len() - j,
        {
            den.push(self.den[j]);
            j = j + 1;
        }
        assert(num@ =~= self.num@);
        assert(den@ =~= self.den@);
        ExactValue { num, den }
    }

    /// The canonical decimal text of the value ([`decimal_text`]).
    pub fn to_decimal_string(&self) -> (r: String)
        requires
            self.wf(),
        ensures
            r@ == decimal_text(self.numer(), self.denom()),
    {
        let ghost n = self.numer();
        let ghost d = self.denom();
        let dtext = bigint_to_decimal(&self.den);
        let dchars = crate::chars::str_to_chars(dtext.as_str());
        let len = dchars.len();
        if len > usize::MAX / 4 {
            return self.fraction_text();
        }
        let limit: usize = 4 * len;
        assert(limit == 4 * nat_decimal(abs(d)).len());
        let ten = bigint_from_i64(10);
        let zero = ExactValue::zero();
        let mut k: usize = 0;
        let mut scaled = self.copy().num;
        assert(pow10(0) == 1);
        while k <= limit
            invariant
                k <= limit + 1,
                limit == 4 * nat_decimal(abs(d)).len(),
                limit <= usize::MAX,
                n == self.numer(),
                d == self.denom(),
                d > 0,
                twos_value(scaled@) == n * pow10(k as nat),
                twos_value(ten@) == 10,
                zero.wf(),
                zero.pair() == (0int, 1int),
                decimal_scale(n, d, 0, limit as nat) == decimal_scale(n, d, k as nat, limit as nat),
            decreases limit + 1 - k,
        {
            let rem = bigint_trem(scaled.as_slice(), self.den.as_slice());
            proof {
                lemma_twos_one();
            }
            let rem_value = ExactValue { num: rem, den: vec![1u8] };
            assert(rem_value.den@ =~= seq![1u8]);
            if ratio_eq(&rem_value, &zero) {
                let m = bigint_tdiv(scaled.as_slice(), self.den.as_slice());
                return fixed_point_text(&m, k);
            }
            let next = bigint_mul(scaled.as_slice(), ten.as_slice());
            proof {
                assert(pow10((k + 1) as nat) == 10 * pow10(k as nat));
                assert(n * pow10(k as nat) * 10 == n * (10 * pow10(k as nat))) by (nonlinear_arith);
            }
            scaled = next;
            k = k + 1;
        }
        self.fraction_text()
    }

    /// `numerator/denominator`.
    fn fraction_text(&self) -> (r: String)
        ensures
            r@ == int_decimal(self.numer()) + seq!['/'] + int_decimal(self.denom()),
    {
        let ntext = bigint_to_decimal(&self.num);
        let dtext = bigint_to_decimal(&self.den);
        let mut cs = crate::chars::str_to_chars(ntext.as_str());
        cs.push('/');
        let mut ds = crate::chars::str_to_chars(dtext.as_str());
        cs.append(&mut ds);
        crate::chars::chars_to_string(cs)
    }
}

/// [`fixed_point`] of the integer `m`.
#[verifier::spinoff_prover]
#[verifier::rlimit(50)]
fn fixed_point_text(m: &Vec<u8>, k: usize) -> (r: String)
    requires
        k < usize::MAX,
    ensures
        r@ == fixed_point(twos_value(m@), k as nat),
{
    let ghost v = twos_value(m@);
    let text = bigint_to_decimal(m.as_slice());
    let cs = crate::chars::str_to_chars(text.as_str());
    proof {
        lemma_nat_decimal_first(abs(v));
    }
    let negative = cs.len() > 0 && cs[0] == '-';
    assert(negative == (v < 0));
    let digits = if negative {
        slice_chars(&cs, 1, cs.len())
    } else {
        slice_chars(&cs, 0, cs.len())
    };
    assert(digits@ =~= nat_decimal(abs(v)));
    let mut padded: Vec<char> = Vec::new();
    if digits.len() <= k {
        let mut z: usize = 0;
        while z + digits.len() <= k
            invariant
                digits.len() <= k < usize::MAX,
                z + digits.len() <= k + 1,
                padded@ =~= zeros(z as nat),
            decreases k + 1 - digits.len() - z,
        {
            padded.push('0');
            z = z + 1;
        }
    }
    let mut i: usize = 0;
    let ghost prefix = padded@;
    while i < digits.len()
        invariant
            i <= digits.len(),
            padded@ =~= prefix + digits@.take(i as int),
        decreases digits.len() - i,
    {
        padded.push(digits[i]);
        i = i + 1;
    }
    assert(padded@ =~= prefix + digits@);
    let mut out: Vec<char> = Vec::new();
    if negative {
        out.push('-');
    }
    let split = padded.len() - k;
    let mut j: usize = 0;
    let ghost head = out@;
    while j < padded.len()
        invariant
            j <= padded.len(),
            split == padded.len() - k,
            k > 0 ==> (j <= split ==> out@ =~= head + padded@.take(j as int)),
            k > 0 ==> (j > split ==> out@ =~= head + padded@.take(split as int) + seq!['.']
                + padded@.subrange(split as int, j as int)),
            k == 0 ==> out@ =~= head + padded@.take(j as int),
        decreases padded.len() - j,
    {
        if k > 0 && j == split {
            out.push('.');
        }
        out.push(padded[j]);
        j = j + 1;
    }
    proof {
        if k > 0 {
            assert(padded@.subrange(split as int, padded.len() as int) =~= padded@.skip(split as int));
        }
    }
    crate::chars::chars_to_string(out)
}

// ==========================================================================
// Arithmetic
// ==========================================================================

impl ExactValue {
    /// The exact sum.
    pub fn add(&self, other: &ExactValue) -> (r: ExactValue)
        requires
            self.wf(),
            other.wf(),
        ensures
            r.wf(),
            r.pair() == rat_add(self.pair(), other.pair()),
    {
        ratio_add(self, other)
    }

    /// The exact difference.
    pub fn sub(&self, other: &ExactValue) -> (r: ExactValue)
        requires
            self.wf(),
            other.wf(),
        ensures
            r.wf(),
            r.pair() == rat_sub(self.pair(), other.pair()),
    {
        ratio_sub(self, other)
    }

    /// The exact product.
    pub fn mul(&self, other: &ExactValue) -> (r: ExactValue)
        requires
            self.wf(),
            other.wf(),
        ensures
            r.wf(),
            r.pair() == rat_mul(self.pair(), other.pair()),
    {
        ratio_mul(self, other)
    }

    /// The exact quotient by a non-zero value.
    pub fn div(&self, other: &ExactValue) -> (r: ExactValue)
        requires
            self.wf(),
            other.wf(),
            other.numer() != 0,
        ensures
            r.wf(),
            r.pair() == rat_div(self.pair(), other.pair()),
    {
        ratio_div(self, other)
    }

    /// The value with its sign flipped.
    pub fn neg(&self) -> (r: ExactValue)
        requires
            self.wf(),
        ensures
            r.wf(),
            r.pair() == (-self.numer(), self.denom()),
    {
        ratio_neg(self)
    }

    /// Whether `self < other`, exactly.
    pub fn lt(&self, other: &ExactValue) -> (r: bool)
        requires
            self.wf(),
            other.wf(),
        ensures
            r == rat_lt(self.pair(), other.pair()),
    {
        ratio_lt(self, other)
    }

    /// Whether the two values are equal, exactly.
    pub fn equals(&self, other: &ExactValue) -> (r: bool)
        requires
            self.wf(),
            other.wf(),
        ensures
            r == rat_eq(self.pair(), other.pair()),
    {
        ratio_eq(self, other)
    }

    /// Whether the value is zero.
    pub fn is_zero(&self) -> (r: bool)
        requires
            self.wf(),
        ensures
            r == (self.numer() == 0),
    {
        let zero = ExactValue::zero();
        ratio_eq(self, &zero)
    }

    /// Whether the value is an integer (its lowest-terms denominator is one).
    pub fn is_integer(&self) -> (r: bool)
        requires
            self.wf(),
        ensures
            r == (self.denom() == 1),
    {
        ratio_is_integer(self)
    }

    /// The integer `v`.
    pub fn from_i64(v: i64) -> (r: ExactValue)
        ensures
            r.wf(),
            r.pair() == (v as int, 1int),
    {
        proof {
            lemma_twos_one();
        }
        let r = ExactValue { num: bigint_from_i64(v), den: vec![1u8] };
        assert(r.den@ =~= seq![1u8]);
        r
    }

    /// The lowest-terms form of `n / d`.
    pub fn from_ratio_i64(n: i64, d: i64) -> (r: ExactValue)
        requires
            d != 0,
        ensures
            r.wf(),
            r.pair() == reduce(n as int, d as int),
    {
        let nb = bigint_from_i64(n);
        let db = bigint_from_i64(d);
        ratio_new(nb.as_slice(), db.as_slice())
    }

    /// The quotient of two integers, truncated toward zero.
    pub fn integer_tdiv(&self, other: &ExactValue) -> (r: ExactValue)
        requires
            self.wf(),
            other.wf(),
            self.denom() == 1,
            other.denom() == 1,
            other.numer() != 0,
        ensures
            r.wf(),
            r.pair() == (tdiv(self.numer(), other.numer()), 1int),
    {
        proof {
            lemma_twos_one();
        }
        let r = ExactValue { num: bigint_tdiv(&self.num, &other.num), den: vec![1u8] };
        assert(r.den@ =~= seq![1u8]);
        r
    }

    /// The remainder of two integers; it takes the dividend's sign.
    pub fn integer_trem(&self, other: &ExactValue) -> (r: ExactValue)
        requires
            self.wf(),
            other.wf(),
            self.denom() == 1,
            other.denom() == 1,
            other.numer() != 0,
        ensures
            r.wf(),
            r.pair() == (trem(self.numer(), other.numer()), 1int),
    {
        proof {
            lemma_twos_one();
        }
        let r = ExactValue { num: bigint_trem(&self.num, &other.num), den: vec![1u8] };
        assert(r.den@ =~= seq![1u8]);
        r
    }

    /// The value as an `i64`, when it is an integer in range.
    pub fn to_i64(&self) -> (r: Option<i64>)
        requires
            self.wf(),
        ensures
            r matches Some(v) ==> self.denom() == 1 && v as int == self.numer(),
            r is None <==> (self.denom() != 1 || !(i64::MIN <= self.numer() <= i64::MAX)),
    {
        if !self.is_integer() {
            return None;
        }
        bigint_to_i64(&self.num)
    }

    /// The value as a `u64`, when it is an integer in range.
    pub fn to_u64(&self) -> (r: Option<u64>)
        requires
            self.wf(),
        ensures
            r matches Some(v) ==> self.denom() == 1 && v as int == self.numer(),
            r is None <==> (self.denom() != 1 || !(0 <= self.numer() <= u64::MAX)),
    {
        if !self.is_integer() {
            return None;
        }
        bigint_to_u64(&self.num)
    }
}

/// The characters `cs[from..to]`.
pub fn slice_chars_pub(cs: &Vec<char>, from: usize, to: usize) -> (r: Vec<char>)
    requires
        from <= to <= cs.len(),
    ensures
        r@ == cs@.subrange(from as int, to as int),
{
    slice_chars(cs, from, to)
}

} // verus!
