use crate::amount::Amount;
use crate::decimal::{
    digits_value, is_decimal_literal, lemma_literal_amount, lemma_pow10_grows, lemma_pow10_max,
    literal_amount, pow10, Literal, MAX_SCALE,
};
use crate::text::{all_in, is_digit, lemma_run_len_unique, CharClass};
use vstd::prelude::*;

verus! {

/// The character of the digit `d`.
pub open spec fn digit_char(d: int) -> char {
    (d + '0' as u8) as u8 as char
}

/// The decimal digits of `n`, without leading zeros.
pub open spec fn digits_of(n: nat) -> Seq<char>
    decreases n,
{
    if n < 10 {
        seq![digit_char(n as int)]
    } else {
        digits_of(n / 10).push(digit_char((n % 10) as int))
    }
}

/// The last `k` decimal digits of `n`, with leading zeros.
pub open spec fn padded(n: nat, k: nat) -> Seq<char>
    decreases k,
{
    if k == 0 {
        Seq::empty()
    } else {
        padded(n / 10, (k - 1) as nat).push(digit_char((n % 10) as int))
    }
}

/// The first exponent from `k` on, and at most the largest that the library
/// forms, whose power of ten is a multiple of `d`.
pub open spec fn scale_from(d: int, k: nat) -> nat
    decreases MAX_SCALE + 1 - k,
{
    if k >= MAX_SCALE || pow10(k) % d == 0 {
        k
    } else {
        scale_from(d, k + 1)
    }
}

/// `-` for a negative number, nothing for another.
pub open spec fn sign_text(n: int) -> Seq<char> {
    if n < 0 {
        seq!['-']
    } else {
        Seq::empty()
    }
}

impl Amount {
    /// The amount is a whole number of some power of ten below the line: its
    /// denominator divides the largest power of ten that the library forms.
    pub open spec fn is_decimal(self) -> bool {
        self.wf() && pow10(MAX_SCALE as nat) % (self.spec_denom() as int) == 0
    }

    /// The number of digits after the point that the amount needs.
    pub open spec fn scale(self) -> nat {
        scale_from(self.spec_denom() as int, 0)
    }

    /// The amount without its sign, in units of ten to the minus `scale()`.
    pub open spec fn scaled(self) -> nat {
        (vstd::math::abs(self.spec_numer() as int) * (pow10(self.scale()) / (
        self.spec_denom() as int))) as nat
    }

    /// The amount as a decimal literal with as few digits after the point as
    /// it needs.
    pub open spec fn decimal_text(self) -> Seq<char> {
        let k = self.scale();
        let whole = digits_of((self.scaled() / (pow10(k) as nat)) as nat);
        if k == 0 {
            sign_text(self.spec_numer() as int) + whole
        } else {
            sign_text(self.spec_numer() as int) + whole + seq!['.'] + padded(
                self.scaled() % (pow10(k) as nat),
                k,
            )
        }
    }

    /// The amount as numerator, `/` and denominator.
    pub open spec fn fraction_text(self) -> Seq<char> {
        sign_text(self.spec_numer() as int) + digits_of(
            vstd::math::abs(self.spec_numer() as int) as nat,
        ) + seq!['/'] + digits_of(self.spec_denom() as nat)
    }

    /// The amount as text: a decimal literal where it has one, else a
    /// fraction.
    pub open spec fn text(self) -> Seq<char> {
        if self.is_decimal() {
            self.decimal_text()
        } else {
            self.fraction_text()
        }
    }
}

/// The character of a digit is that digit.
pub proof fn lemma_digit_char(d: int)
    requires
        0 <= d < 10,
    ensures
        is_digit(digit_char(d)),
        digit_char(d) as int - '0' as int == d,
        digit_char(d) != '-',
        digit_char(d) != '.',
{
}

/// The digits of a number are digits and spell the number.
pub proof fn lemma_digits_of(n: nat)
    ensures
        digits_of(n).len() > 0,
        all_in(digits_of(n), CharClass::Digit),
        digits_value(digits_of(n)) == n,
    decreases n,
{
    if n < 10 {
        lemma_digit_char(n as int);
        let s = digits_of(n);
        assert(s.drop_last() =~= Seq::<char>::empty());
        assert(digits_value(s.drop_last()) == 0);
    } else {
        lemma_digits_of(n / 10);
        lemma_digit_char((n % 10) as int);
        let s = digits_of(n);
        assert(s.drop_last() =~= digits_of(n / 10));
    }
}

/// Digits padded to `k` places are `k` digits, and after other digits they
/// add the number below ten to the `k`.
pub proof fn lemma_padded(before: Seq<char>, n: nat, k: nat)
    ensures
        padded(n, k).len() == k,
        all_in(padded(n, k), CharClass::Digit),
        digits_value(before + padded(n, k)) == digits_value(before) * pow10(k) + n % (pow10(
            k,
        ) as nat),
    decreases k,
{
    lemma_pow10_grows(0, k);
    if k == 0 {
        assert(before + padded(n, k) =~= before);
    } else {
        let j = (k - 1) as nat;
        lemma_padded(before, n / 10, j);
        lemma_pow10_grows(0, j);
        lemma_digit_char((n % 10) as int);
        let s = before + padded(n, k);
        assert(s.drop_last() =~= before + padded(n / 10, j));
        assert(s.last() == digit_char((n % 10) as int));
        let p = pow10(j);
        vstd::arithmetic::div_mod::lemma_breakdown(n as int, 10, p);
        assert(pow10(k) == 10 * p);
        let a = digits_value(before);
        let b = ((n as int) / 10) % p;
        let c = (n as int) % 10;
        assert(10 * (a * p + b) + c == a * (10 * p) + (10 * b + c)) by (nonlinear_arith);
    }
}

/// The scale found is one whose power of ten the denominator divides.
pub proof fn lemma_scale_from(d: int, k: nat)
    requires
        d > 0,
        k <= MAX_SCALE,
        pow10(MAX_SCALE as nat) % d == 0,
    ensures
        k <= scale_from(d, k) <= MAX_SCALE,
        pow10(scale_from(d, k)) % d == 0,
    decreases MAX_SCALE + 1 - k,
{
    if k >= MAX_SCALE || pow10(k) % d == 0 {
    } else {
        lemma_scale_from(d, k + 1);
    }
}

/// The decimal text of an amount is a decimal literal of the same value,
/// with as many digits after the point as the amount needs.
pub proof fn decimal_text_reads_back(a: Amount)
    requires
        a.is_decimal(),
    ensures
        is_decimal_literal(a.decimal_text()),
        Literal::of(a.decimal_text()).scale() == a.scale(),
        Literal::of(a.decimal_text()).numer() == if a.spec_numer() < 0 {
            -(a.scaled() as int)
        } else {
            a.scaled() as int
        },
        Literal::of(a.decimal_text()).value() == a.value(),
{
    let n = a.spec_numer() as int;
    let d = a.spec_denom() as int;
    let k = a.scale();
    lemma_scale_from(d, 0);
    lemma_pow10_grows(0, k);
    let p = pow10(k);
    let q = p / d;
    vstd::arithmetic::div_mod::lemma_fundamental_div_mod(p, d);
    assert(q * d == p) by (nonlinear_arith)
        requires
            p == d * q + 0,
    ;
    assert(q > 0) by (nonlinear_arith)
        requires
            q * d == p,
            p > 0,
            d > 0,
    ;
    let size = vstd::math::abs(n);
    assert(size * q >= 0) by (nonlinear_arith)
        requires
            size >= 0,
            q > 0,
    ;
    let m = a.scaled() as int;
    assert(m == size * q);
    let w = m / p;
    let f = m % p;
    vstd::arithmetic::div_mod::lemma_fundamental_div_mod(m, p);
    vstd::arithmetic::div_mod::lemma_div_pos_is_pos(m, p);
    vstd::arithmetic::div_mod::lemma_mod_bound(m, p);
    vstd::arithmetic::div_mod::lemma_small_mod(f as nat, p as nat);
    let whole = digits_of(w as nat);
    let frac = padded(f as nat, k);
    lemma_digits_of(w as nat);
    lemma_padded(whole, f as nat, k);
    let t = a.decimal_text();
    let sign = sign_text(n);
    let body = if k == 0 {
        whole
    } else {
        whole + seq!['.'] + frac
    };
    assert(t =~= sign + body);
    assert(CharClass::Digit.holds(whole[0]));
    let lit = Literal::of(t);
    assert(lit.negative == (n < 0));
    let read = if lit.negative {
        t.skip(1)
    } else {
        t
    };
    assert(read =~= body);
    assert(body.take(whole.len() as int) =~= whole);
    lemma_run_len_unique(body, CharClass::Digit, whole.len() as int);
    assert(lit.whole =~= whole);
    if k == 0 {
        assert(lit.rest =~= Seq::<char>::empty());
        assert(whole + lit.fraction() =~= whole + frac);
    } else {
        assert(lit.rest =~= seq!['.'] + frac);
        assert(lit.rest.skip(1) =~= frac);
    }
    assert(lit.fraction() =~= frac);
    assert(digits_value(whole + frac) == w * p + f);
    assert(w * p + f == m) by (nonlinear_arith)
        requires
            m == p * w + f,
    ;
    let signed = lit.numer();
    assert(signed == n * q) by (nonlinear_arith)
        requires
            m == size * q,
            size == if n < 0 {
                -n
            } else {
                n
            },
            signed == if n < 0 {
                -m
            } else {
                m
            },
    ;
    let nr = n as real;
    let qr = q as real;
    let dr = d as real;
    assert((n * q) as real == (n as real) * (q as real)) by (nonlinear_arith);
    assert((q * d) as real == (q as real) * (d as real)) by (nonlinear_arith);
    assert((nr * qr) / (qr * dr) == nr / dr) by (nonlinear_arith)
        requires
            qr > 0real,
            dr > 0real,
    ;
}

/// A decimal literal that fits is read as an exact fraction whose text is a
/// decimal literal again, of the same value.
pub proof fn decimal_round_trip(literal: Seq<char>)
    requires
        is_decimal_literal(literal),
        Literal::of(literal).fits(),
    ensures
        literal_amount(literal) is Ok,
        is_decimal_literal(literal_amount(literal)->Ok_0.text()),
        Literal::of(literal_amount(literal)->Ok_0.text()).value() == Literal::of(literal).value(),
{
    lemma_literal_amount(literal);
    decimal_text_reads_back(literal_amount(literal)->Ok_0);
}

/// Appends the decimal digits of `n`, without leading zeros.
fn push_digits(out: &mut String, n: u128)
    ensures
        final(out)@ == old(out)@ + digits_of(n as nat),
    decreases n,
{
    if n >= 10 {
        push_digits(out, n / 10);
    }
    let ghost before = out@;
    out.push(digit_of((n % 10) as u8));
    proof {
        if n >= 10 {
            assert(out@ =~= old(out)@ + digits_of((n / 10) as nat).push(
                digit_char((n % 10) as int),
            ));
        } else {
            assert(out@ =~= old(out)@ + seq![digit_char(n as int)]);
        }
    }
}

/// Appends the last `k` decimal digits of `n`, with leading zeros.
fn push_padded(out: &mut String, n: u128, k: usize)
    ensures
        final(out)@ == old(out)@ + padded(n as nat, k as nat),
    decreases k,
{
    if k == 0 {
        assert(out@ =~= old(out)@ + Seq::<char>::empty());
    } else {
        push_padded(out, n / 10, k - 1);
        out.push(digit_of((n % 10) as u8));
        assert(out@ =~= old(out)@ + padded((n / 10) as nat, (k - 1) as nat).push(
            digit_char((n % 10) as int),
        ));
    }
}

/// The character of the digit `d`.
fn digit_of(d: u8) -> (c: char)
    requires
        d < 10,
    ensures
        c == digit_char(d as int),
{
    (d + 48u8) as char
}

/// The number without its sign.
fn magnitude(n: i64) -> (m: u128)
    ensures
        m == vstd::math::abs(n as int),
{
    let wide = n as i128;
    if wide < 0 {
        (-wide) as u128
    } else {
        wide as u128
    }
}

/// The amount as text: a decimal literal with as few digits after the point
/// as the amount needs, or numerator, `/` and denominator where no decimal
/// literal has its value.
pub fn format_amount(amount: &Amount) -> (r: String)
    ensures
        r@ == amount.text(),
        amount.is_decimal() ==> is_decimal_literal(r@) && Literal::of(r@).value()
            == amount.value(),
{
    let n = amount.numer();
    let d = amount.denom();
    let mut out = String::new();
    if n < 0 {
        out.push('-');
    }
    assert(out@ =~= sign_text(n as int));
    proof {
        lemma_pow10_max();
    }
    if 1_000_000_000_000_000_000i64 % d != 0 {
        push_digits(&mut out, magnitude(n));
        out.push('/');
        push_digits(&mut out, d as u128);
        assert(out@ =~= amount.fraction_text());
        return out;
    }
    proof {
        decimal_text_reads_back(*amount);
        lemma_scale_from(d as int, 0);
    }
    let mut k: usize = 0;
    let mut p: i64 = 1;
    while k < MAX_SCALE && p % d != 0
        invariant
            k <= MAX_SCALE,
            p == pow10(k as nat),
            d > 0,
            scale_from(d as int, 0) == scale_from(d as int, k as nat),
        decreases MAX_SCALE - k,
    {
        proof {
            lemma_pow10_max();
            lemma_pow10_grows((k + 1) as nat, MAX_SCALE as nat);
        }
        p = p * 10;
        k += 1;
    }
    proof {
        lemma_pow10_grows(0, k as nat);
        vstd::arithmetic::div_mod::lemma_fundamental_div_mod(p as int, d as int);
        assert(1 <= p / d <= p) by (nonlinear_arith)
            requires
                p > 0,
                d > 0,
                p % d == 0,
                p == d * (p / d) + p % d,
        ;
        lemma_pow10_max();
        lemma_pow10_grows(k as nat, MAX_SCALE as nat);
    }
    let size = magnitude(n);
    let unit = (p / d) as u128;
    assert(size * unit <= 0x8000_0000_0000_0000 * 1_000_000_000_000_000_000) by (nonlinear_arith)
        requires
            size <= 0x8000_0000_0000_0000,
            unit <= 1_000_000_000_000_000_000,
    ;
    let scaled: u128 = size * unit;
    let whole = scaled / (p as u128);
    let part = scaled % (p as u128);
    push_digits(&mut out, whole);
    if k > 0 {
        out.push('.');
        push_padded(&mut out, part, k);
    }
    assert(out@ =~= amount.decimal_text());
    out
}

} // verus!
