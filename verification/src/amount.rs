use num::rational::Ratio;
use num::CheckedAdd;
use vstd::prelude::*;

verus! {

/// An exact fraction with a positive denominator.
///
/// The parts are private: an amount is made by [`Amount::new`],
/// [`Amount::from_integer`] or by arithmetic on other amounts, and every
/// amount made so is in lowest terms.
#[derive(Clone, Copy, Debug, PartialEq, Eq, Structural)]
pub struct Amount {
    numer: i64,
    denom: i64,
}

/// `x` is a value of `i64`.
pub open spec fn fits_i64(x: int) -> bool {
    i64::MIN <= x <= i64::MAX
}

/// The greatest common divisor of `a` and `b`; of zero and zero, zero.
pub open spec fn gcd(a: nat, b: nat) -> nat
    decreases b,
{
    if b == 0 {
        a
    } else {
        gcd(b, a % b)
    }
}

impl Amount {
    #[verifier::type_invariant]
    spec fn positive_denominator(self) -> bool {
        self.denom > 0
    }

    /// The fraction with these parts.
    pub closed spec fn of_parts(numer: i64, denom: i64) -> Amount {
        Amount { numer, denom }
    }

    /// The part above the line.
    pub closed spec fn spec_numer(self) -> i64 {
        self.numer
    }

    /// The part below the line.
    pub closed spec fn spec_denom(self) -> i64 {
        self.denom
    }

    /// The denominator is positive.
    pub open spec fn wf(self) -> bool {
        self.spec_denom() > 0
    }

    /// The rational number that the fraction stands for.
    pub open spec fn value(self) -> real {
        (self.spec_numer() as real) / (self.spec_denom() as real)
    }

    /// Numerator and denominator have no common divisor above one.
    pub open spec fn is_reduced(self) -> bool {
        forall|k: int|
            k > 1 ==> !(#[trigger] (self.spec_numer() as int % k) == 0 && self.spec_denom() as int
                % k == 0)
    }

    /// `numer` and `denom` are the parts of this fraction, both times one
    /// positive number.
    pub open spec fn divides(self, numer: int, denom: int) -> bool {
        exists|g: int|
            g > 0 && numer == #[trigger] (self.spec_numer() * g) && denom == self.spec_denom() * g
    }

    /// The fraction is `numer / denom` in lowest terms: its parts are those
    /// two divided by their greatest common divisor.
    pub open spec fn is_lowest_of(self, numer: int, denom: int) -> bool {
        let g = gcd(vstd::math::abs(numer) as nat, denom as nat) as int;
        self.spec_numer() == numer / g && self.spec_denom() == denom / g
    }

    /// `numer / denom` in lowest terms: both parts divided by their greatest
    /// common divisor.
    pub open spec fn reduced_of(numer: int, denom: int) -> Amount {
        let g = gcd(vstd::math::abs(numer) as nat, denom as nat) as int;
        Amount::of_parts((numer / g) as i64, (denom / g) as i64)
    }

    /// The least common multiple of the two denominators: the denominator
    /// that the machine adds over.
    pub open spec fn common_denom(self, other: Amount) -> int {
        let g = gcd(self.spec_denom() as nat, other.spec_denom() as nat) as int;
        ((self.spec_denom() as int) / g) * other.spec_denom()
    }

    /// The numerator of this fraction over the common denominator.
    pub open spec fn scaled_numer(self, other: Amount) -> int {
        (self.common_denom(other) / (self.spec_denom() as int)) * self.spec_numer()
    }

    /// The machine's addition overflows: the common denominator, one of the
    /// two numerators over it, or their sum leaves `i64`.
    pub open spec fn sum_overflows(self, other: Amount) -> bool {
        let l = self.common_denom(other);
        let x = self.scaled_numer(other);
        let y = (l / (other.spec_denom() as int)) * other.spec_numer();
        !(fits_i64(l) && fits_i64(x) && fits_i64(y) && fits_i64(x + y))
    }

    /// The sum of the two numerators over the common denominator.
    pub open spec fn common_sum(self, other: Amount) -> int {
        let l = self.common_denom(other);
        self.scaled_numer(other) + (l / (other.spec_denom() as int)) * other.spec_numer()
    }

    /// The sum in lowest terms; `None` where the machine's addition
    /// overflows.
    pub open spec fn sum_of(self, other: Amount) -> Option<Amount> {
        if self.sum_overflows(other) {
            None
        } else {
            Some(Amount::reduced_of(self.common_sum(other), self.common_denom(other)))
        }
    }

    /// Cross products small enough that the machine sum cannot overflow.
    pub open spec fn sum_fits(self, other: Amount) -> bool {
        &&& self.spec_denom() * other.spec_denom() <= i64::MAX
        &&& vstd::math::abs(self.spec_numer() as int) * other.spec_denom() + vstd::math::abs(
            other.spec_numer() as int,
        ) * self.spec_denom() <= i64::MAX
    }

    /// The negation as the machine computes it: `None` where the numerator
    /// has no opposite in `i64`.
    pub open spec fn neg_of(self) -> Option<Amount> {
        if self.spec_numer() == i64::MIN {
            None
        } else {
            Some(Amount::of_parts((-self.spec_numer()) as i64, self.spec_denom()))
        }
    }

    /// What [`Amount::new`] makes of two integers.
    pub open spec fn built(numer: i64, denom: i64) -> Option<Amount> {
        if denom > 0 {
            Some(Amount::reduced_of(numer as int, denom as int))
        } else if denom < 0 && numer > i64::MIN && denom > i64::MIN {
            Some(Amount::reduced_of(-numer, -denom))
        } else {
            None
        }
    }

    /// `numer / denom` in lowest terms.
    ///
    /// Calls `Ratio::new` of `num`. The contract claims that it divides both
    /// parts by their greatest common divisor.
    #[verifier::external_body]
    fn ratio_reduce(numer: i64, denom: i64) -> (r: Amount)
        requires
            denom > 0,
        ensures
            r.is_lowest_of(numer as int, denom as int),
    {
        let q = Ratio::new(numer, denom);
        Amount { numer: *q.numer(), denom: *q.denom() }
    }

    /// The sum of two fractions with positive denominators, or `None` on
    /// overflow.
    ///
    /// Calls `checked_add` of `num`'s `Ratio<i64>`. The contract claims that
    /// it multiplies with checks up to the least common multiple of the
    /// denominators, adds the numerators with a check, fails where a check
    /// fails and else gives the sum over that multiple in lowest terms.
    #[verifier::external_body]
    fn ratio_sum(self, other: Amount) -> (r: Option<Amount>)
        requires
            self.wf(),
            other.wf(),
        ensures
            r is None <==> self.sum_overflows(other),
            r matches Some(s) ==> s.is_lowest_of(self.common_sum(other), self.common_denom(other)),
    {
        let a = Ratio::new_raw(self.numer, self.denom);
        let b = Ratio::new_raw(other.numer, other.denom);
        match a.checked_add(&b) {
            Some(q) => Some(Amount { numer: *q.numer(), denom: *q.denom() }),
            None => None,
        }
    }

    /// `numer / denom` in lowest terms, for a positive `denom`.
    pub(crate) fn reduce(numer: i64, denom: i64) -> (r: Amount)
        requires
            denom > 0,
        ensures
            r == Amount::reduced_of(numer as int, denom as int),
            r.wf(),
            r.is_reduced(),
            r.divides(numer as int, denom as int),
            r.value() == (numer as real) / (denom as real),
    {
        let r = Amount::ratio_reduce(numer, denom);
        proof {
            lemma_lowest(r, numer as int, denom as int);
        }
        r
    }

    /// The fraction `numer / denom` in lowest terms, with the sign above the
    /// line; `None` where `denom` is zero or the sign cannot be moved.
    pub fn new(numer: i64, denom: i64) -> (r: Option<Amount>)
        ensures
            r == Amount::built(numer, denom),
            r is Some <==> denom > 0 || (denom < 0 && numer > i64::MIN && denom > i64::MIN),
            r matches Some(a) ==> a.wf() && a.is_reduced() && a.value() == (numer as real) / (
            denom as real),
    {
        if denom > 0 {
            Some(Amount::reduce(numer, denom))
        } else if denom < 0 && numer > i64::MIN && denom > i64::MIN {
            let r = Amount::reduce(-numer, -denom);
            proof {
                let n = numer as real;
                let d = denom as real;
                assert((-numer) as real == -n);
                assert((-denom) as real == -d);
                assert((-n) / (-d) == n / d) by (nonlinear_arith)
                    requires
                        d < 0real,
                ;
            }
            Some(r)
        } else {
            None
        }
    }

    /// The whole number `n` as a fraction.
    pub fn from_integer(n: i64) -> (r: Amount)
        ensures
            r == Amount::of_parts(n, 1),
            r.spec_numer() == n,
            r.spec_denom() == 1,
            r.wf(),
            r.is_reduced(),
            r.value() == n as real,
    {
        let r = Amount { numer: n, denom: 1 };
        assert((n as real) / 1real == n as real) by (nonlinear_arith);
        assert forall|k: int| k > 1 implies !(#[trigger] (n as int % k) == 0 && 1int % k == 0) by {
            vstd::arithmetic::div_mod::lemma_small_mod(1, k as nat);
        }
        r
    }

    /// The fraction zero.
    pub fn zero() -> (r: Amount)
        ensures
            r == Amount::of_parts(0, 1),
            r.spec_numer() == 0,
            r.spec_denom() == 1,
            r.wf(),
            r.is_reduced(),
            r.value() == 0real,
    {
        Amount::from_integer(0)
    }

    /// The part above the line.
    #[verifier::when_used_as_spec(spec_numer)]
    pub fn numer(self) -> (r: i64)
        ensures
            r == self.spec_numer(),
    {
        self.numer
    }

    /// The part below the line, which is positive.
    #[verifier::when_used_as_spec(spec_denom)]
    pub fn denom(self) -> (r: i64)
        ensures
            r == self.spec_denom(),
            r > 0,
    {
        proof {
            use_type_invariant(&self);
        }
        self.denom
    }

    /// The sum of two amounts in lowest terms, or `None` on overflow.
    pub fn checked_add(self, other: Amount) -> (r: Option<Amount>)
        ensures
            r == self.sum_of(other),
            r matches Some(s) ==> s.wf() && s.is_reduced() && s.value() == self.value()
                + other.value(),
            self.sum_fits(other) ==> r is Some,
    {
        proof {
            use_type_invariant(&self);
            use_type_invariant(&other);
        }
        let r = self.ratio_sum(other);
        proof {
            if let Some(s) = r {
                assert(s == self.sum_of(other)->0);
                lemma_sum_of(self, other);
            }
            if self.sum_fits(other) {
                lemma_sum_fits(self, other);
            }
        }
        r
    }

    /// The amount with the opposite sign, or `None` where the numerator has
    /// no opposite in `i64`.
    pub fn checked_neg(self) -> (r: Option<Amount>)
        ensures
            r == self.neg_of(),
            r is Some <==> self.spec_numer() > i64::MIN,
            r matches Some(s) ==> s.spec_numer() == -self.spec_numer() && s.spec_denom()
                == self.spec_denom() && s.wf() && s.value() == -self.value() && (self.is_reduced()
                ==> s.is_reduced()),
    {
        proof {
            use_type_invariant(&self);
        }
        if self.numer == i64::MIN {
            None
        } else {
            proof {
                lemma_neg_of(self);
            }
            Some(Amount { numer: -self.numer, denom: self.denom })
        }
    }
}

/// `x` is `g` times a whole number.
pub open spec fn is_multiple(x: int, g: int) -> bool {
    x % g == 0
}

/// A multiple of `g` is `g` times its quotient by `g`.
pub proof fn lemma_multiple_split(x: int, g: int)
    requires
        g > 0,
        is_multiple(x, g),
    ensures
        x == g * (x / g),
{
    vstd::arithmetic::div_mod::lemma_fundamental_div_mod(x, g);
}

/// `g` times a whole number is a multiple of `g`, and its quotient by `g` is
/// that number.
pub proof fn lemma_multiple_made(k: int, g: int)
    requires
        g > 0,
    ensures
        is_multiple(g * k, g),
        (g * k) / g == k,
{
    vstd::arithmetic::div_mod::lemma_mod_multiples_basic(k, g);
    vstd::arithmetic::div_mod::lemma_div_multiples_vanish(k, g);
    assert(k * g == g * k) by (nonlinear_arith);
}

/// The greatest common divisor divides both numbers, and is positive unless
/// both are zero.
pub proof fn lemma_gcd_divides(a: nat, b: nat)
    requires
        a > 0 || b > 0,
    ensures
        gcd(a, b) > 0,
        is_multiple(a as int, gcd(a, b) as int),
        is_multiple(b as int, gcd(a, b) as int),
    decreases b,
{
    if b == 0 {
        lemma_multiple_made(1, a as int);
        lemma_multiple_made(0, a as int);
    } else {
        let r = a % b;
        lemma_gcd_divides(b, r);
        let g = gcd(a, b) as int;
        lemma_multiple_split(b as int, g);
        lemma_multiple_split(r as int, g);
        vstd::arithmetic::div_mod::lemma_fundamental_div_mod(a as int, b as int);
        let q = (a as int) / (b as int);
        let bk = (b as int) / g;
        let rk = (r as int) / g;
        assert(a == g * (bk * q + rk)) by (nonlinear_arith)
            requires
                a == b * q + r,
                b == g * bk,
                r == g * rk,
        ;
        lemma_multiple_made(bk * q + rk, g);
    }
}

/// Every common divisor of two numbers divides their greatest common
/// divisor.
pub proof fn lemma_gcd_greatest(a: nat, b: nat, c: int)
    requires
        c > 0,
        is_multiple(a as int, c),
        is_multiple(b as int, c),
    ensures
        is_multiple(gcd(a, b) as int, c),
    decreases b,
{
    if b > 0 {
        let r = a % b;
        lemma_multiple_split(a as int, c);
        lemma_multiple_split(b as int, c);
        vstd::arithmetic::div_mod::lemma_fundamental_div_mod(a as int, b as int);
        let q = (a as int) / (b as int);
        let ak = (a as int) / c;
        let bk = (b as int) / c;
        assert(r == c * (ak - bk * q)) by (nonlinear_arith)
            requires
                a == b * q + r,
                a == c * ak,
                b == c * bk,
        ;
        lemma_multiple_made(ak - bk * q, c);
        lemma_gcd_greatest(b, r, c);
    }
}

/// A common factor of two numbers is a factor of their greatest common
/// divisor.
pub proof fn lemma_gcd_scales(a: nat, b: nat, c: nat)
    requires
        c > 0,
    ensures
        gcd(c * a, c * b) == c * gcd(a, b),
    decreases b,
{
    if b == 0 {
        assert(c * b == 0) by (nonlinear_arith)
            requires
                b == 0,
        ;
    } else {
        vstd::arithmetic::div_mod::lemma_truncate_middle(a as int, c as int, b as int);
        assert(c * b > 0) by (nonlinear_arith)
            requires
                c > 0,
                b > 0,
        ;
        assert(c * a >= 0) by (nonlinear_arith)
            requires
                c > 0,
                a >= 0,
        ;
        let r = a % b;
        assert(((c * a) as nat) % ((c * b) as nat) == c * r);
        lemma_gcd_scales(b, r, c);
    }
}

/// A fraction whose parts are both multiplied by one positive number has the
/// same lowest terms.
pub proof fn lemma_reduced_scaled(numer: int, denom: int, c: int)
    requires
        denom > 0,
        c > 0,
    ensures
        Amount::reduced_of(c * numer, c * denom) == Amount::reduced_of(numer, denom),
{
    let size = vstd::math::abs(numer);
    let g = gcd(size as nat, denom as nat) as int;
    lemma_gcd_divides(size as nat, denom as nat);
    lemma_gcd_scales(size as nat, denom as nat, c as nat);
    assert(vstd::math::abs(c * numer) == c * size) by (nonlinear_arith)
        requires
            c > 0,
            size == if numer < 0 {
                -numer
            } else {
                numer
            },
    ;
    assert(c * denom > 0) by (nonlinear_arith)
        requires
            c > 0,
            denom > 0,
    ;
    let big = gcd(vstd::math::abs(c * numer) as nat, (c * denom) as nat) as int;
    assert(big == c * g);
    assert(big > 0) by (nonlinear_arith)
        requires
            big == c * g,
            c > 0,
            g > 0,
    ;
    if numer < 0 {
        lemma_multiple_of_opposite(numer, g);
    }
    lemma_multiple_split(numer, g);
    lemma_multiple_split(denom, g);
    let n = numer / g;
    let d = denom / g;
    assert(c * numer == big * n && c * denom == big * d) by (nonlinear_arith)
        requires
            numer == g * n,
            denom == g * d,
            big == c * g,
    ;
    lemma_multiple_made(n, big);
    lemma_multiple_made(d, big);
}

/// A number and its opposite are multiples of the same numbers.
pub proof fn lemma_multiple_of_opposite(x: int, g: int)
    requires
        g > 0,
        is_multiple(-x, g),
    ensures
        is_multiple(x, g),
        x / g == -((-x) / g),
{
    lemma_multiple_split(-x, g);
    let k = (-x) / g;
    assert(x == g * (-k)) by (nonlinear_arith)
        requires
            -x == g * k,
    ;
    lemma_multiple_made(-k, g);
}

/// A fraction that is `numer / denom` in lowest terms has a positive
/// denominator, no common divisor left, the parts of `numer / denom` divided
/// by one number, and its value.
pub proof fn lemma_lowest(r: Amount, numer: int, denom: int)
    requires
        denom > 0,
        r.is_lowest_of(numer, denom),
    ensures
        r.wf(),
        r.is_reduced(),
        r.divides(numer, denom),
        r.value() == (numer as real) / (denom as real),
{
    let size = vstd::math::abs(numer);
    let g = gcd(size as nat, denom as nat) as int;
    lemma_gcd_divides(size as nat, denom as nat);
    if numer < 0 {
        lemma_multiple_of_opposite(numer, g);
    }
    lemma_multiple_split(numer, g);
    lemma_multiple_split(denom, g);
    let n = r.spec_numer() as int;
    let d = r.spec_denom() as int;
    assert(d > 0) by (nonlinear_arith)
        requires
            denom == g * d,
            denom > 0,
            g > 0,
    ;
    assert(numer == n * g && denom == d * g) by (nonlinear_arith)
        requires
            numer == g * n,
            denom == g * d,
    ;
    assert forall|k: int| k > 1 implies !(#[trigger] (n % k) == 0 && d % k == 0) by {
        if n % k == 0 && d % k == 0 {
            lemma_multiple_split(n, k);
            lemma_multiple_split(d, k);
            let c = g * k;
            let nk = n / k;
            let dk = d / k;
            assert(c > g) by (nonlinear_arith)
                requires
                    c == g * k,
                    g > 0,
                    k > 1,
            ;
            assert(numer == c * nk && denom == c * dk) by (nonlinear_arith)
                requires
                    numer == g * n,
                    denom == g * d,
                    n == k * nk,
                    d == k * dk,
                    c == g * k,
            ;
            lemma_multiple_made(nk, c);
            lemma_multiple_made(dk, c);
            if numer < 0 {
                assert(-numer == c * (-nk)) by (nonlinear_arith)
                    requires
                        numer == c * nk,
                ;
                lemma_multiple_made(-nk, c);
            }
            lemma_gcd_greatest(size as nat, denom as nat, c);
            vstd::arithmetic::div_mod::lemma_small_mod(g as nat, c as nat);
        }
    }
    assert((numer as real) / (denom as real) == (n as real) / (d as real)) by {
        assert((n * g) as real == (n as real) * (g as real)) by (nonlinear_arith);
        assert((d * g) as real == (d as real) * (g as real)) by (nonlinear_arith);
        let nr = n as real;
        let dr = d as real;
        let gr = g as real;
        assert((nr * gr) / (dr * gr) == nr / dr) by (nonlinear_arith)
            requires
                gr > 0real,
                dr > 0real,
        ;
    }
}

/// Of two numbers that fit in `i64`, the second positive, the fraction in
/// lowest terms has parts that fit.
pub proof fn lemma_reduced_of(numer: i64, denom: i64)
    requires
        denom > 0,
    ensures
        Amount::reduced_of(numer as int, denom as int).is_lowest_of(numer as int, denom as int),
{
    let size = vstd::math::abs(numer as int);
    let g = gcd(size as nat, denom as nat) as int;
    lemma_gcd_divides(size as nat, denom as nat);
    if numer < 0 {
        lemma_multiple_of_opposite(numer as int, g);
    }
    lemma_multiple_split(numer as int, g);
    lemma_multiple_split(denom as int, g);
    let n = (numer as int) / g;
    let d = (denom as int) / g;
    assert(-size <= n <= size && 0 <= d <= denom) by (nonlinear_arith)
        requires
            numer == g * n,
            denom == g * d,
            g >= 1,
            denom > 0,
            size == if numer < 0 {
                -numer
            } else {
                numer as int
            },
    ;
}

/// The common denominator is a positive multiple of both denominators: of
/// each by the other divided by their greatest common divisor.
pub proof fn lemma_common_denom(a: Amount, b: Amount)
    requires
        a.wf(),
        b.wf(),
    ensures
        ({
            let g = gcd(a.spec_denom() as nat, b.spec_denom() as nat) as int;
            let p = (a.spec_denom() as int) / g;
            let q = (b.spec_denom() as int) / g;
            &&& g > 0 && p > 0 && q > 0
            &&& a.spec_denom() == g * p
            &&& b.spec_denom() == g * q
            &&& a.common_denom(b) == g * p * q
            &&& a.common_denom(b) / (a.spec_denom() as int) == q
            &&& a.common_denom(b) / (b.spec_denom() as int) == p
        }),
{
    let ad = a.spec_denom() as int;
    let bd = b.spec_denom() as int;
    let g = gcd(ad as nat, bd as nat) as int;
    lemma_gcd_divides(ad as nat, bd as nat);
    lemma_multiple_split(ad, g);
    lemma_multiple_split(bd, g);
    let p = ad / g;
    let q = bd / g;
    assert(p > 0 && q > 0) by (nonlinear_arith)
        requires
            ad == g * p,
            bd == g * q,
            ad > 0,
            bd > 0,
            g > 0,
    ;
    let l = a.common_denom(b);
    assert(l == g * p * q && l == ad * q && l == bd * p) by (nonlinear_arith)
        requires
            l == p * bd,
            ad == g * p,
            bd == g * q,
    ;
    lemma_multiple_made(q, ad);
    lemma_multiple_made(p, bd);
}

/// A sum that the machine forms is the exact sum, in lowest terms and with
/// a positive denominator.
pub proof fn lemma_sum_of(a: Amount, b: Amount)
    requires
        a.wf(),
        b.wf(),
        a.sum_of(b) is Some,
    ensures
        a.sum_of(b)->0.wf(),
        a.sum_of(b)->0.is_reduced(),
        a.sum_of(b)->0.value() == a.value() + b.value(),
{
    let s = a.sum_of(b)->0;
    let an = a.spec_numer() as int;
    let ad = a.spec_denom() as int;
    let bn = b.spec_numer() as int;
    let bd = b.spec_denom() as int;
    lemma_common_denom(a, b);
    let g = gcd(ad as nat, bd as nat) as int;
    let p = ad / g;
    let q = bd / g;
    let l = a.common_denom(b);
    let n = a.common_sum(b);
    assert(l > 0) by (nonlinear_arith)
        requires
            l == g * p * q,
            g > 0,
            p > 0,
            q > 0,
    ;
    lemma_reduced_of(n as i64, l as i64);
    lemma_lowest(s, n, l);
    assert((n as real) / (l as real) == (an as real) / (ad as real) + (bn as real) / (bd as real))
        by {
        assert((q * an + p * bn) as real == (q as real) * (an as real) + (p as real) * (
        bn as real)) by (nonlinear_arith);
        assert((g * p * q) as real == (g as real) * (p as real) * (q as real))
            by (nonlinear_arith);
        assert((g * p) as real == (g as real) * (p as real)) by (nonlinear_arith);
        assert((g * q) as real == (g as real) * (q as real)) by (nonlinear_arith);
        let anr = an as real;
        let bnr = bn as real;
        let gr = g as real;
        let pr = p as real;
        let qr = q as real;
        assert((qr * anr + pr * bnr) / (gr * pr * qr) == anr / (gr * pr) + bnr / (gr * qr))
            by (nonlinear_arith)
            requires
                gr > 0real,
                pr > 0real,
                qr > 0real,
        ;
    }
}

/// Where the cross products of two fractions fit in `i64`, the machine's
/// addition does not overflow.
pub proof fn lemma_sum_fits(a: Amount, b: Amount)
    requires
        a.wf(),
        b.wf(),
        a.sum_fits(b),
    ensures
        !a.sum_overflows(b),
{
    let an = a.spec_numer() as int;
    let ad = a.spec_denom() as int;
    let bn = b.spec_numer() as int;
    let bd = b.spec_denom() as int;
    lemma_common_denom(a, b);
    let g = gcd(ad as nat, bd as nat) as int;
    let p = ad / g;
    let q = bd / g;
    let l = a.common_denom(b);
    let x = q * an;
    let y = p * bn;
    let sa = vstd::math::abs(an);
    let sb = vstd::math::abs(bn);
    assert(0 < l <= ad * bd) by (nonlinear_arith)
        requires
            l == g * p * q,
            ad == g * p,
            bd == g * q,
            g > 0,
            p > 0,
            q > 0,
    ;
    assert(-(sa * bd) <= x <= sa * bd) by (nonlinear_arith)
        requires
            x == q * an,
            bd == g * q,
            g >= 1,
            q > 0,
            sa == if an < 0 {
                -an
            } else {
                an
            },
    ;
    assert(-(sb * ad) <= y <= sb * ad) by (nonlinear_arith)
        requires
            y == p * bn,
            ad == g * p,
            g >= 1,
            p > 0,
            sb == if bn < 0 {
                -bn
            } else {
                bn
            },
    ;
    assert(sa * bd >= 0 && sb * ad >= 0) by (nonlinear_arith)
        requires
            sa >= 0,
            sb >= 0,
            ad > 0,
            bd > 0,
    ;
}

/// The parts of a fraction made of parts are those parts.
pub proof fn lemma_of_parts(numer: i64, denom: i64)
    ensures
        Amount::of_parts(numer, denom).spec_numer() == numer,
        Amount::of_parts(numer, denom).spec_denom() == denom,
{
}

/// Negation changes the sign of the value, keeps the denominator positive
/// and keeps lowest terms.
pub proof fn lemma_neg_of(a: Amount)
    requires
        a.wf(),
        a.neg_of() is Some,
    ensures
        a.neg_of()->0.wf(),
        a.neg_of()->0.value() == -a.value(),
        a.is_reduced() ==> a.neg_of()->0.is_reduced(),
{
    let an = a.spec_numer() as real;
    let ad = a.spec_denom() as real;
    let b = a.neg_of()->0;
    assert(b.spec_numer() as real == -an);
    assert((-an) / ad == -(an / ad)) by (nonlinear_arith)
        requires
            ad > 0real,
    ;
    if a.is_reduced() {
        assert forall|k: int| k > 1 implies !(#[trigger] (b.spec_numer() as int % k) == 0
            && b.spec_denom() as int % k == 0) by {
            let n = a.spec_numer() as int;
            if (-n) % k == 0 {
                vstd::arithmetic::div_mod::lemma_fundamental_div_mod(-n, k);
                let q = (-n) / k;
                assert(n == (-q) * k) by (nonlinear_arith)
                    requires
                        -n == k * q,
                ;
                vstd::arithmetic::div_mod::lemma_mod_multiples_basic(-q, k);
            }
        }
    }
}

} // verus!
