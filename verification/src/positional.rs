//! Why the canonical text of a decimal literal's value is positional, and
//! why that text reads back as the same value.
//!
//! A decimal literal with `f` fraction digits has the value `m / 10^f`; in
//! lowest terms its denominator divides `10^f`, so it is `2^x · 5^y`. The
//! value is then integral at scale `max(x, y)`, and `2^max(x, y)` is at most
//! the denominator — so that scale lies within the four fraction digits per
//! denominator digit that [`decimal_text`] searches. A positional text
//! `m / 10^k` reads back as that fraction in lowest terms.

use vstd::prelude::*;

use vstd::arithmetic::div_mod::{lemma_fundamental_div_mod, lemma_mul_mod_noop};

use crate::exact::{
    abs, all_digit_chars, ascii_bytes, decimal_literal_value, decimal_parts, decimal_scale, decimal_text,
    digit_char, digits_value, fixed_point, gcd, is_digit_char, lemma_first_index, lemma_first_index_bound,
    nat_decimal, pow10, rat_eq, reduce, tdiv, trem, zeros,
};

verus! {

pub open spec fn two_pow(n: nat) -> nat
    decreases n,
{
    if n == 0 {
        1
    } else {
        2 * two_pow((n - 1) as nat)
    }
}

pub open spec fn five_pow(n: nat) -> nat
    decreases n,
{
    if n == 0 {
        1
    } else {
        5 * five_pow((n - 1) as nat)
    }
}

/// `n / d` is written in positional notation: at some scale `k` it is
/// integral, and its canonical text is that integer with `k` fraction
/// digits.
pub open spec fn positional(n: int, d: int) -> bool {
    exists|k: nat|
        #![trigger pow10(k)]
        trem(n * pow10(k), d) == 0 && decimal_text(n, d) == fixed_point(tdiv(n * pow10(k), d), k)
}

proof fn lemma_pows_positive(n: nat)
    ensures
        two_pow(n) >= 1,
        five_pow(n) >= 1,
        pow10(n) >= 1,
        two_pow(n) <= five_pow(n),
    decreases n,
{
    if n > 0 {
        lemma_pows_positive((n - 1) as nat);
    }
}

proof fn lemma_pow10_split(n: nat)
    ensures
        pow10(n) == two_pow(n) * five_pow(n),
    decreases n,
{
    if n == 0 {
        assert(pow10(0) == 1);
        assert(two_pow(0) == 1);
        assert(five_pow(0) == 1);
    } else {
        lemma_pow10_split((n - 1) as nat);
        let a = two_pow((n - 1) as nat);
        let b = five_pow((n - 1) as nat);
        assert(two_pow(n) == 2 * a);
        assert(five_pow(n) == 5 * b);
        assert(pow10(n) == 10 * pow10((n - 1) as nat));
        assert(pow10(n) == two_pow(n) * five_pow(n)) by (nonlinear_arith)
            requires
                two_pow(n) == 2 * a,
                five_pow(n) == 5 * b,
                pow10(n) == 10 * (a * b),
        ;
    }
}

proof fn lemma_two_pow_add(a: nat, b: nat)
    ensures
        two_pow(a + b) == two_pow(a) * two_pow(b),
    decreases b,
{
    if b == 0 {
        assert(two_pow(0) == 1);
        assert(a + b == a);
    } else {
        lemma_two_pow_add(a, (b - 1) as nat);
        assert((a + b - 1) as nat == a + ((b - 1) as nat));
        assert(two_pow(a + b) == 2 * two_pow((a + b - 1) as nat));
        let x = two_pow(a);
        let y = two_pow((b - 1) as nat);
        assert(two_pow(a + b) == two_pow(a) * two_pow(b)) by (nonlinear_arith)
            requires
                two_pow(a + b) == 2 * (x * y),
                two_pow(b) == 2 * y,
                two_pow(a) == x,
        ;
    }
}

proof fn lemma_five_pow_add(a: nat, b: nat)
    ensures
        five_pow(a + b) == five_pow(a) * five_pow(b),
    decreases b,
{
    if b == 0 {
        assert(five_pow(0) == 1);
        assert(a + b == a);
    } else {
        lemma_five_pow_add(a, (b - 1) as nat);
        assert((a + b - 1) as nat == a + ((b - 1) as nat));
        assert(five_pow(a + b) == 5 * five_pow((a + b - 1) as nat));
        let x = five_pow(a);
        let y = five_pow((b - 1) as nat);
        assert(five_pow(a + b) == five_pow(a) * five_pow(b)) by (nonlinear_arith)
            requires
                five_pow(a + b) == 5 * (x * y),
                five_pow(b) == 5 * y,
                five_pow(a) == x,
        ;
    }
}

proof fn lemma_two_pow_increasing(i: nat, j: nat)
    requires
        i < j,
    ensures
        two_pow(i) < two_pow(j),
    decreases j,
{
    lemma_pows_positive((j - 1) as nat);
    if i < j - 1 {
        lemma_two_pow_increasing(i, (j - 1) as nat);
    }
}

proof fn lemma_five_pow_odd(n: nat)
    ensures
        five_pow(n) % 2 == 1,
    decreases n,
{
    if n > 0 {
        lemma_five_pow_odd((n - 1) as nat);
        let x = five_pow((n - 1) as nat);
        assert((5 * x) % 2 == 1) by (nonlinear_arith)
            requires
                x % 2 == 1,
        ;
    }
}

proof fn lemma_two_pow_not_fifth(n: nat)
    ensures
        two_pow(n) % 5 != 0,
    decreases n,
{
    if n > 0 {
        lemma_two_pow_not_fifth((n - 1) as nat);
        let x = two_pow((n - 1) as nat);
        assert((2 * x) % 5 != 0) by (nonlinear_arith)
            requires
                x % 5 != 0,
        ;
    }
}

proof fn lemma_halves(d: nat, e: nat)
    requires
        d % 2 == 1,
        (d * e) % 2 == 0,
    ensures
        e % 2 == 0,
{
    lemma_mul_mod_noop(d as int, e as int, 2);
    let s = e % 2;
    assert(s == 0) by (nonlinear_arith)
        requires
            0 <= s < 2,
            ((1 * s) % 2) == 0,
    ;
}

proof fn lemma_fifths(d: nat, e: nat)
    requires
        d % 5 != 0,
        (d * e) % 5 == 0,
    ensures
        e % 5 == 0,
{
    lemma_mul_mod_noop(d as int, e as int, 5);
    let r = d % 5;
    let s = e % 5;
    assert(s == 0) by (nonlinear_arith)
        requires
            1 <= r < 5,
            0 <= s < 5,
            ((r * s) % 5) == 0,
    ;
}

/// A divisor of `2^a · 5^b` that is divisible by neither 2 nor 5 is 1.
#[verifier::spinoff_prover]
proof fn lemma_coprime_divisor(d: nat, e: nat, a: nat, b: nat)
    requires
        d * e == two_pow(a) * five_pow(b),
        d % 2 == 1,
        d % 5 != 0,
    ensures
        d == 1,
    decreases a + b,
{
    if a > 0 {
        let rest = two_pow((a - 1) as nat) * five_pow(b);
        assert(d * e == 2 * rest) by (nonlinear_arith)
            requires
                d * e == two_pow(a) * five_pow(b),
                two_pow(a) == 2 * two_pow((a - 1) as nat),
                rest == two_pow((a - 1) as nat) * five_pow(b),
        ;
        assert((d * e) % 2 == 0);
        lemma_halves(d, e);
        lemma_fundamental_div_mod(e as int, 2);
        let e2 = e / 2;
        assert(d * e2 == rest) by (nonlinear_arith)
            requires
                d * e == 2 * rest,
                e == 2 * e2,
        ;
        lemma_coprime_divisor(d, e2, (a - 1) as nat, b);
    } else if b > 0 {
        let rest = two_pow(a) * five_pow((b - 1) as nat);
        assert(d * e == 5 * rest) by (nonlinear_arith)
            requires
                d * e == two_pow(a) * five_pow(b),
                five_pow(b) == 5 * five_pow((b - 1) as nat),
                rest == two_pow(a) * five_pow((b - 1) as nat),
        ;
        assert((d * e) % 5 == 0);
        lemma_fifths(d, e);
        lemma_fundamental_div_mod(e as int, 5);
        let e5 = e / 5;
        assert(d * e5 == rest) by (nonlinear_arith)
            requires
                d * e == 5 * rest,
                e == 5 * e5,
        ;
        lemma_coprime_divisor(d, e5, a, (b - 1) as nat);
    } else {
        assert(two_pow(0) == 1 && five_pow(0) == 1);
        assert(d == 1) by (nonlinear_arith)
            requires
                d * e == 1 * 1,
        ;
    }
}

/// A divisor of `2^a · 5^b` is `2^x · 5^y` with `x <= a` and `y <= b`.
#[verifier::spinoff_prover]
proof fn lemma_divisor_of_two_five(d: nat, e: nat, a: nat, b: nat) -> (r: (nat, nat))
    requires
        d * e == two_pow(a) * five_pow(b),
    ensures
        r.0 <= a,
        r.1 <= b,
        d == two_pow(r.0) * five_pow(r.1),
    decreases a + b,
{
    lemma_pows_positive(a);
    lemma_pows_positive(b);
    if d % 2 == 0 {
        lemma_fundamental_div_mod(d as int, 2);
        let d2 = d / 2;
        if a == 0 {
            lemma_five_pow_odd(b);
            assert(two_pow(0) == 1);
            assert(d * e == 2 * (d2 * e)) by (nonlinear_arith)
                requires
                    d == 2 * d2,
            ;
            assert(five_pow(b) == two_pow(a) * five_pow(b)) by (nonlinear_arith)
                requires
                    two_pow(a) == 1,
            ;
            assert(false);
        }
        let rest = two_pow((a - 1) as nat) * five_pow(b);
        assert(d2 * e == rest) by (nonlinear_arith)
            requires
                d * e == two_pow(a) * five_pow(b),
                two_pow(a) == 2 * two_pow((a - 1) as nat),
                rest == two_pow((a - 1) as nat) * five_pow(b),
                d == 2 * d2,
        ;
        let (x, y) = lemma_divisor_of_two_five(d2, e, (a - 1) as nat, b);
        assert(two_pow(x + 1) == 2 * two_pow(x));
        assert(d == two_pow(x + 1) * five_pow(y)) by (nonlinear_arith)
            requires
                d == 2 * d2,
                d2 == two_pow(x) * five_pow(y),
                two_pow(x + 1) == 2 * two_pow(x),
        ;
        (x + 1, y)
    } else if d % 5 == 0 {
        lemma_fundamental_div_mod(d as int, 5);
        let d5 = d / 5;
        if b == 0 {
            lemma_two_pow_not_fifth(a);
            assert(five_pow(0) == 1);
            assert(d * e == 5 * (d5 * e)) by (nonlinear_arith)
                requires
                    d == 5 * d5,
            ;
            assert(two_pow(a) == two_pow(a) * five_pow(b)) by (nonlinear_arith)
                requires
                    five_pow(b) == 1,
            ;
            assert(false);
        }
        let rest = two_pow(a) * five_pow((b - 1) as nat);
        assert(d5 * e == rest) by (nonlinear_arith)
            requires
                d * e == two_pow(a) * five_pow(b),
                five_pow(b) == 5 * five_pow((b - 1) as nat),
                rest == two_pow(a) * five_pow((b - 1) as nat),
                d == 5 * d5,
        ;
        let (x, y) = lemma_divisor_of_two_five(d5, e, a, (b - 1) as nat);
        assert(five_pow(y + 1) == 5 * five_pow(y));
        assert(d == two_pow(x) * five_pow(y + 1)) by (nonlinear_arith)
            requires
                d == 5 * d5,
                d5 == two_pow(x) * five_pow(y),
                five_pow(y + 1) == 5 * five_pow(y),
        ;
        (x, y + 1)
    } else {
        lemma_coprime_divisor(d, e, a, b);
        assert(two_pow(0) == 1 && five_pow(0) == 1);
        assert(d == two_pow(0) * five_pow(0)) by (nonlinear_arith)
            requires
                d == 1,
                two_pow(0) == 1,
                five_pow(0) == 1,
        ;
        (0, 0)
    }
}

/// `2^x · 5^y` divides `10^max(x, y)`, and `2^max(x, y)` is at most it.
proof fn lemma_scale_of(x: nat, y: nat) -> (q: nat)
    ensures
        pow10(if x >= y { x } else { y }) == two_pow(x) * five_pow(y) * q,
        two_pow(if x >= y { x } else { y }) <= two_pow(x) * five_pow(y),
{
    let k: nat = if x >= y { x } else { y };
    lemma_pow10_split(k);
    lemma_two_pow_add(x, (k - x) as nat);
    lemma_five_pow_add(y, (k - y) as nat);
    assert(x + ((k - x) as nat) == k);
    assert(y + ((k - y) as nat) == k);
    let q = two_pow((k - x) as nat) * five_pow((k - y) as nat);
    assert(pow10(k) == two_pow(x) * five_pow(y) * q) by (nonlinear_arith)
        requires
            pow10(k) == two_pow(k) * five_pow(k),
            two_pow(k) == two_pow(x) * two_pow((k - x) as nat),
            five_pow(k) == five_pow(y) * five_pow((k - y) as nat),
            q == two_pow((k - x) as nat) * five_pow((k - y) as nat),
    ;
    lemma_pows_positive(x);
    lemma_pows_positive(y);
    if k == x {
        assert(two_pow(k) <= two_pow(x) * five_pow(y)) by (nonlinear_arith)
            requires
                k == x,
                five_pow(y) >= 1,
        ;
    } else {
        assert(two_pow(k) <= two_pow(x) * five_pow(y)) by (nonlinear_arith)
            requires
                k == y,
                two_pow(y) <= five_pow(y),
                two_pow(x) >= 1,
        ;
    }
    q
}

proof fn lemma_below_digits(n: nat)
    ensures
        n < pow10(nat_decimal(n).len()),
    decreases n,
{
    if n >= 10 {
        lemma_below_digits(n / 10);
        let l = nat_decimal(n / 10).len();
        assert(nat_decimal(n).len() == l + 1);
        assert(pow10(l + 1) == 10 * pow10(l));
        assert(n < 10 * pow10(l)) by (nonlinear_arith)
            requires
                n / 10 < pow10(l),
        ;
    } else {
        assert(pow10(0) == 1);
        assert(pow10(1) == 10);
    }
}

proof fn lemma_digits_at_most(n: nat, m: nat)
    requires
        n < pow10(m),
        m >= 1,
    ensures
        nat_decimal(n).len() <= m,
    decreases n,
{
    if n >= 10 {
        if m == 1 {
            assert(pow10(0) == 1);
            assert(pow10(1) == 10);
        }
        assert(m >= 2);
        assert(pow10(m) == 10 * pow10((m - 1) as nat));
        assert(n / 10 < pow10((m - 1) as nat)) by (nonlinear_arith)
            requires
                n < 10 * pow10((m - 1) as nat),
        ;
        lemma_digits_at_most(n / 10, (m - 1) as nat);
    }
}

proof fn lemma_ten_below_sixteen(l: nat)
    ensures
        pow10(l) <= two_pow(4 * l),
    decreases l,
{
    if l > 0 {
        lemma_ten_below_sixteen((l - 1) as nat);
        let m = (4 * (l - 1)) as nat;
        assert(4 * l == m + 4);
        assert(two_pow(m + 4) == 2 * two_pow(m + 3));
        assert(two_pow(m + 3) == 2 * two_pow(m + 2));
        assert(two_pow(m + 2) == 2 * two_pow(m + 1));
        assert(two_pow(m + 1) == 2 * two_pow(m));
        assert(pow10(l) == 10 * pow10((l - 1) as nat));
    } else {
        assert(pow10(0) == 1 && two_pow(0) == 1);
    }
}

/// A multiple of a positive `d` leaves no truncated remainder.
proof fn lemma_exact_quotient(x: int, d: int, c: int)
    requires
        d > 0,
        x == d * c,
    ensures
        tdiv(x, d) == c,
        trem(x, d) == 0,
{
    vstd::arithmetic::div_mod::lemma_div_by_multiple(abs(c) as int, d);
    assert(abs(x) == abs(c) * d) by (nonlinear_arith)
        requires
            x == d * c,
            d > 0,
            abs(x) == (if x < 0 { -x } else { x }),
            abs(c) == (if c < 0 { -c } else { c }),
    ;
    assert((x < 0) == (c < 0)) by (nonlinear_arith)
        requires
            x == d * c,
            d > 0,
    ;
}

/// The search for a scale finds one whenever there is one within its range.
proof fn lemma_scale_found(n: int, d: int, k: nat, limit: nat, j: nat)
    requires
        k <= j <= limit,
        trem(n * pow10(j), d) == 0,
    ensures
        decimal_scale(n, d, k, limit) matches Some(r) && trem(n * pow10(r), d) == 0,
    decreases limit + 1 - k,
{
    if trem(n * pow10(k), d) != 0 {
        lemma_scale_found(n, d, k + 1, limit, j);
    }
}

proof fn lemma_gcd_divides(a: nat, b: nat)
    requires
        a > 0 || b > 0,
    ensures
        gcd(a, b) > 0,
        a % gcd(a, b) == 0,
        b % gcd(a, b) == 0,
    decreases b,
{
    if b == 0 {
        vstd::arithmetic::div_mod::lemma_mod_self_0(a as int);
        vstd::arithmetic::div_mod::lemma_small_mod(0, a);
    } else {
        let r = a % b;
        lemma_gcd_divides(b, r);
        let g = gcd(b, r);
        lemma_fundamental_div_mod(a as int, b as int);
        lemma_fundamental_div_mod(b as int, g as int);
        lemma_fundamental_div_mod(r as int, g as int);
        let c = (b / g) * (a / b) + r / g;
        assert(a == c * g) by (nonlinear_arith)
            requires
                a == b * (a / b) + r,
                b == g * (b / g),
                r == g * (r / g),
                c == (b / g) * (a / b) + r / g,
        ;
        vstd::arithmetic::div_mod::lemma_mod_multiples_basic(c as int, g as int);
    }
}

proof fn lemma_fraction_within(s: Seq<char>)
    ensures
        decimal_parts(s).2.len() <= s.len(),
{
    let neg = s.len() > 0 && s[0] == '-';
    let body = if neg {
        s.drop_first()
    } else {
        s
    };
    lemma_first_index_bound(body, '.');
}

/// The value a decimal literal spells is written positionally.
#[verifier::spinoff_prover]
pub proof fn lemma_literal_positional(s: Seq<char>)
    requires
        decimal_literal_value(s) is Some,
        s.len() < 0x3fff_ffff,
    ensures
        decimal_literal_value(s) matches Some(v) && positional(v.0, v.1) && v.1 > 0,
{
    let (neg, int_part, frac_part, has_dot) = decimal_parts(s);
    let f = frac_part.len();
    lemma_fraction_within(s);
    let v = decimal_literal_value(s)->0;
    let m = v.0;
    let magnitude = crate::exact::digits_value(crate::exact::ascii_bytes(int_part + frac_part)) as int;
    let top = if neg {
        -magnitude
    } else {
        magnitude
    };
    lemma_pows_positive(f);
    let p = pow10(f) as int;
    assert(v == reduce(top, p));
    lemma_gcd_divides(abs(top), abs(p));
    let g = gcd(abs(top), abs(p)) as int;
    let d = p / g;
    assert(v.1 == d);
    lemma_fundamental_div_mod(p, g);
    assert(d > 0) by (nonlinear_arith)
        requires
            p == g * d,
            p > 0,
            g > 0,
    ;
    lemma_pow10_split(f);
    assert(d * g == two_pow(f) * five_pow(f)) by (nonlinear_arith)
        requires
            p == g * d,
            p == pow10(f),
            pow10(f) == two_pow(f) * five_pow(f),
    ;
    let (x, y) = lemma_divisor_of_two_five(d as nat, g as nat, f, f);
    let k: nat = if x >= y {
        x
    } else {
        y
    };
    let q = lemma_scale_of(x, y);
    let l = nat_decimal(d as nat).len();
    assert(abs(d) == d);
    lemma_below_digits(d as nat);
    lemma_ten_below_sixteen(l);
    if k >= 4 * l {
        if k > 4 * l {
            lemma_two_pow_increasing(4 * l, k);
        }
        assert(false);
    }
    assert(d <= pow10(f)) by (nonlinear_arith)
        requires
            p == g * d,
            p == pow10(f),
            g >= 1,
            d >= 1,
    ;
    assert(pow10(f + 1) == 10 * pow10(f));
    lemma_digits_at_most(d as nat, f + 1);
    assert(4 * l <= usize::MAX);
    assert(m * pow10(k) == d * (m * q)) by (nonlinear_arith)
        requires
            pow10(k) == d * q,
    ;
    lemma_exact_quotient(m * pow10(k), d, m * q);
    lemma_scale_found(m, d, 0, 4 * l, k);
    let r = decimal_scale(m, d, 0, 4 * l)->0;
    assert(decimal_text(m, d) == fixed_point(tdiv(m * pow10(r), d), r));
    assert(trem(m * pow10(r), d) == 0);
}

/// Zero is written positionally.
pub proof fn lemma_zero_positional()
    ensures
        positional(0, 1),
{
    assert(pow10(0) == 1);
    lemma_exact_quotient(0, 1, 0);
    assert(nat_decimal(1) =~= seq!['1']);
    lemma_scale_found(0, 1, 0, 4, 0);
    assert(decimal_text(0, 1) == fixed_point(tdiv(0int * pow10(0), 1), 0));
}

// ==========================================================================
// Reading a positional text back
// ==========================================================================

proof fn lemma_digit_byte(d: nat)
    requires
        d < 10,
    ensures
        digit_char(d) as u8 == 48 + d,
        is_digit_char(digit_char(d)),
{
}

proof fn lemma_decimal_digits(n: nat)
    ensures
        all_digit_chars(nat_decimal(n)),
        nat_decimal(n).len() > 0,
        digits_value(ascii_bytes(nat_decimal(n))) == n,
    decreases n,
{
    let s = nat_decimal(n);
    if n < 10 {
        lemma_digit_byte(n);
        assert(ascii_bytes(s).drop_last() =~= Seq::<u8>::empty());
        assert(ascii_bytes(s).last() == digit_char(n) as u8);
        assert(digits_value(Seq::<u8>::empty()) == 0);
        assert(digits_value(ascii_bytes(s)) == digits_value(ascii_bytes(s).drop_last()) * 10 + (ascii_bytes(
            s,
        ).last() - 48) as nat);
    } else {
        lemma_decimal_digits(n / 10);
        let p = nat_decimal(n / 10);
        lemma_digit_byte(n % 10);
        assert(s == p.push(digit_char(n % 10)));
        assert(ascii_bytes(s).drop_last() =~= ascii_bytes(p));
        assert(ascii_bytes(s).last() == digit_char(n % 10) as u8);
        assert forall|i: int| 0 <= i < s.len() implies is_digit_char(#[trigger] s[i]) by {
            if i < p.len() {
                assert(s[i] == p[i]);
            }
        }
        assert(digits_value(ascii_bytes(s)) == digits_value(ascii_bytes(s).drop_last()) * 10 + (ascii_bytes(
            s,
        ).last() - 48) as nat);
        assert(n == (n / 10) * 10 + n % 10);
    }
}

proof fn lemma_zeros_read_zero(j: nat)
    ensures
        digits_value(ascii_bytes(zeros(j))) == 0,
        all_digit_chars(zeros(j)),
    decreases j,
{
    if j > 0 {
        lemma_zeros_read_zero((j - 1) as nat);
        assert(ascii_bytes(zeros(j)).drop_last() =~= ascii_bytes(zeros((j - 1) as nat)));
        assert(ascii_bytes(zeros(j)).last() == '0' as u8);
    } else {
        assert(ascii_bytes(zeros(0)) =~= Seq::<u8>::empty());
    }
}

proof fn lemma_leading_zeros(j: nat, s: Seq<char>)
    ensures
        digits_value(ascii_bytes(zeros(j) + s)) == digits_value(ascii_bytes(s)),
    decreases s.len(),
{
    if s.len() == 0 {
        assert(zeros(j) + s =~= zeros(j));
        assert(ascii_bytes(s) =~= Seq::<u8>::empty());
        lemma_zeros_read_zero(j);
    } else {
        lemma_leading_zeros(j, s.drop_last());
        assert((zeros(j) + s).drop_last() =~= zeros(j) + s.drop_last());
        assert(ascii_bytes(zeros(j) + s).drop_last() =~= ascii_bytes(zeros(j) + s.drop_last()));
        assert(ascii_bytes(s).drop_last() =~= ascii_bytes(s.drop_last()));
        assert(ascii_bytes(zeros(j) + s).last() == ascii_bytes(s).last());
    }
}

/// A positional text reads back as the value it writes: `m / 10^k`, in
/// lowest terms.
#[verifier::spinoff_prover]
proof fn lemma_fixed_point_reads_back(m: int, k: nat)
    ensures
        decimal_literal_value(fixed_point(m, k)) == Some(reduce(m, pow10(k) as int)),
{
    let digits = nat_decimal(abs(m));
    lemma_decimal_digits(abs(m));
    let padded = if digits.len() <= k {
        zeros((k + 1 - digits.len()) as nat) + digits
    } else {
        digits
    };
    let len = padded.len();
    if digits.len() <= k {
        lemma_zeros_read_zero((k + 1 - digits.len()) as nat);
        lemma_leading_zeros((k + 1 - digits.len()) as nat, digits);
        assert forall|i: int| 0 <= i < len implies is_digit_char(#[trigger] padded[i]) by {
            let z = zeros((k + 1 - digits.len()) as nat);
            if i < z.len() {
                assert(padded[i] == z[i]);
            } else {
                assert(padded[i] == digits[i - z.len()]);
            }
        }
    }
    assert(all_digit_chars(padded));
    assert(digits_value(ascii_bytes(padded)) == abs(m));
    assert(len >= k + 1);
    let body = if k == 0 {
        padded
    } else {
        padded.take(len - k) + seq!['.'] + padded.skip(len - k)
    };
    let text = fixed_point(m, k);
    assert(text == if m < 0 {
        seq!['-'] + body
    } else {
        body
    });
    assert(is_digit_char(body[0]));
    let (neg, int_part, frac_part, has_dot) = decimal_parts(text);
    assert(neg == (m < 0));
    if m < 0 {
        assert(text.drop_first() =~= body);
    }
    if k == 0 {
        lemma_first_index(body, '.', body.len() as int);
        assert(int_part == padded);
        assert(frac_part =~= Seq::<char>::empty());
        assert(int_part + frac_part =~= padded);
    } else {
        assert forall|j: int| 0 <= j < len - k implies body[j] != '.' by {
            assert(body[j] == padded[j]);
        }
        lemma_first_index(body, '.', len - k);
        assert(int_part =~= padded.take(len - k));
        assert(frac_part =~= padded.skip(len - k));
        assert(int_part + frac_part =~= padded);
        assert forall|i: int| 0 <= i < frac_part.len() implies is_digit_char(#[trigger] frac_part[i]) by {
            assert(frac_part[i] == padded[i + len - k]);
        }
    }
    assert(all_digit_chars(int_part));
    assert(frac_part.len() == k);
    assert((if neg { -(abs(m) as int) } else { abs(m) as int }) == m);
}

/// Reducing a fraction over a positive denominator keeps it positive.
pub(crate) proof fn lemma_reduce_den_positive(n: int, d: int)
    requires
        d > 0,
    ensures
        reduce(n, d).1 > 0,
{
    lemma_gcd_divides(abs(n), abs(d));
    let g = gcd(abs(n), abs(d)) as int;
    lemma_fundamental_div_mod(d, g);
    assert(d / g > 0) by (nonlinear_arith)
        requires
            d == g * (d / g) + d % g,
            d % g == 0,
            g > 0,
            d > 0,
    ;
}

/// Reducing a fraction keeps its value.
#[verifier::spinoff_prover]
pub(crate) proof fn lemma_reduce_keeps_value(a: int, b: int, n: int, d: int)
    requires
        b > 0,
        a * d == n * b,
    ensures
        rat_eq(reduce(a, b), (n, d)),
{
    lemma_gcd_divides(abs(a), abs(b));
    let g = gcd(abs(a), abs(b)) as int;
    lemma_fundamental_div_mod(b, g);
    vstd::arithmetic::div_mod::lemma_mod_multiples_basic(0, g);
    assert(abs(a) % (g as nat) == 0);
    assert(a % g == 0) by {
        lemma_fundamental_div_mod(abs(a) as int, g);
        let q = (abs(a) as int) / g;
        if a < 0 {
            assert(a == g * (-q)) by (nonlinear_arith)
                requires
                    abs(a) as int == g * q + 0,
                    abs(a) as int == -a,
            ;
            vstd::arithmetic::div_mod::lemma_mod_multiples_basic(-q, g);
            assert(a == (-q) * g) by (nonlinear_arith)
                requires
                    a == g * (-q),
            ;
        } else {
            vstd::arithmetic::div_mod::lemma_mod_multiples_basic(q, g);
            assert(a == q * g) by (nonlinear_arith)
                requires
                    abs(a) as int == g * q + 0,
                    abs(a) as int == a,
            ;
        }
    }
    lemma_fundamental_div_mod(a, g);
    let a1 = a / g;
    let b1 = b / g;
    assert(a1 * d == n * b1) by (nonlinear_arith)
        requires
            a == g * a1 + 0,
            b == g * b1 + 0,
            a * d == n * b,
            g > 0,
    ;
}

/// A positional text with a fraction part holds a `.`.
proof fn lemma_fraction_has_point(m: int, k: nat)
    requires
        k > 0,
    ensures
        fixed_point(m, k).contains('.'),
{
    let digits = nat_decimal(abs(m));
    lemma_decimal_digits(abs(m));
    let padded = if digits.len() <= k {
        zeros((k + 1 - digits.len()) as nat) + digits
    } else {
        digits
    };
    let len = padded.len();
    let body = padded.take(len - k) + seq!['.'] + padded.skip(len - k);
    assert(body[len - k] == '.');
    if m < 0 {
        assert((seq!['-'] + body)[len - k + 1] == '.');
    }
}

/// An integer's text with `.0` appended is the text of the same value at
/// one fraction digit.
proof fn lemma_point_zero(m: int)
    ensures
        fixed_point(m, 0) + ".0"@ == fixed_point(10 * m, 1),
{
    reveal_strlit(".0");
    let digits = nat_decimal(abs(m));
    lemma_decimal_digits(abs(m));
    assert(fixed_point(m, 0) == if m < 0 {
        seq!['-'] + digits
    } else {
        digits
    });
    if m == 0 {
        assert(nat_decimal(0) =~= seq!['0']);
        assert(zeros(1) =~= seq!['0']);
        assert(zeros(1) + nat_decimal(0) =~= seq!['0', '0']);
        assert(fixed_point(0, 1) =~= seq!['0', '.', '0']);
        assert(fixed_point(0, 0) + ".0"@ =~= seq!['0', '.', '0']);
    } else {
        assert(abs(10 * m) == 10 * abs(m));
        assert(nat_decimal(10 * abs(m)) == nat_decimal(abs(m)).push(digit_char(0))) by {
            assert((10 * abs(m)) / 10 == abs(m));
            assert((10 * abs(m)) % 10 == 0);
        }
        let tens = nat_decimal(abs(10 * m));
        assert(tens.len() == digits.len() + 1);
        assert(tens.take(tens.len() - 1) =~= digits);
        assert(tens.skip(tens.len() - 1) =~= seq!['0']);
        assert(fixed_point(10 * m, 1) == if 10 * m < 0 {
            seq!['-'] + (digits + seq!['.'] + seq!['0'])
        } else {
            digits + seq!['.'] + seq!['0']
        });
        if m < 0 {
            assert(fixed_point(10 * m, 1) =~= fixed_point(m, 0) + ".0"@);
        } else {
            assert(fixed_point(10 * m, 1) =~= fixed_point(m, 0) + ".0"@);
        }
    }
}

/// The canonical text of a positional value reads back as the same value;
/// so does that text with `.0` appended, when it has no fraction part.
#[verifier::spinoff_prover]
pub proof fn lemma_positional_reads_back(n: int, d: int)
    requires
        d > 0,
        positional(n, d),
    ensures
        decimal_literal_value(decimal_text(n, d)) matches Some(v) && rat_eq(v, (n, d)),
        !decimal_text(n, d).contains('.') ==> (decimal_literal_value(decimal_text(n, d) + ".0"@) matches Some(v)
            && rat_eq(v, (n, d))),
{
    let k = choose|k: nat|
        #![trigger pow10(k)]
        trem(n * pow10(k), d) == 0 && decimal_text(n, d) == fixed_point(tdiv(n * pow10(k), d), k);
    let m = tdiv(n * pow10(k), d);
    assert(n * pow10(k) == d * m);
    lemma_fixed_point_reads_back(m, k);
    lemma_pows_positive(k);
    assert(m * d == n * pow10(k)) by (nonlinear_arith)
        requires
            n * pow10(k) == d * m,
    ;
    lemma_reduce_keeps_value(m, pow10(k) as int, n, d);
    if !decimal_text(n, d).contains('.') {
        if k > 0 {
            lemma_fraction_has_point(m, k);
        }
        assert(k == 0);
        assert(pow10(0) == 1);
        lemma_point_zero(m);
        lemma_fixed_point_reads_back(10 * m, 1);
        assert(pow10(1) == 10) by {
            assert(pow10(0) == 1);
        }
        assert((10 * m) * d == n * 10) by (nonlinear_arith)
            requires
                m * d == n * 1,
        ;
        lemma_reduce_keeps_value(10 * m, 10, n, d);
    }
}

} // verus!
