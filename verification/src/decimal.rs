use crate::amount::Amount;
use crate::text::{all_in, chars_of, lemma_run_len, run_len, scan, CharClass};
use vstd::prelude::*;

verus! {

/// Why a text is not turned into an amount.
#[derive(Clone, Copy, Debug, PartialEq, Eq, Structural)]
pub enum DecimalError {
    /// The text is not of the form `-?digits(.digits)?`.
    Malformed,
    /// The numerator or the power of ten leaves `i64`.
    Overflow,
}

/// The largest number of digits after the point whose power of ten fits in
/// `i64`.
pub const MAX_SCALE: usize = 18;

/// Ten to the power `k`.
pub open spec fn pow10(k: nat) -> int
    decreases k,
{
    if k == 0 {
        1
    } else {
        10 * pow10((k - 1) as nat)
    }
}

/// The number that the decimal digits `s` spell.
pub open spec fn digits_value(s: Seq<char>) -> int
    decreases s.len(),
{
    if s.len() == 0 {
        0
    } else {
        10 * digits_value(s.drop_last()) + (s.last() as int - '0' as int)
    }
}

/// A decimal literal taken apart.
pub struct Literal {
    pub negative: bool,
    /// The digits before the point.
    pub whole: Seq<char>,
    /// What follows the digits before the point.
    pub rest: Seq<char>,
}

impl Literal {
    /// The parts of `s`: an optional `-`, the longest run of digits, the rest.
    pub open spec fn of(s: Seq<char>) -> Literal {
        let negative = s.len() > 0 && s[0] == '-';
        let body = if negative {
            s.skip(1)
        } else {
            s
        };
        let n = run_len(body, CharClass::Digit) as int;
        Literal { negative, whole: body.take(n), rest: body.skip(n) }
    }

    /// The digits after the point.
    pub open spec fn fraction(self) -> Seq<char> {
        if self.rest.len() == 0 {
            self.rest
        } else {
            self.rest.skip(1)
        }
    }

    /// Digits, then nothing more or a point and digits.
    pub open spec fn valid(self) -> bool {
        &&& self.whole.len() > 0
        &&& self.rest.len() > 0 ==> {
            &&& self.rest[0] == '.'
            &&& self.rest.len() > 1
            &&& all_in(self.rest.skip(1), CharClass::Digit)
        }
    }

    /// The literal's value times ten to the number of digits after the point.
    pub open spec fn numer(self) -> int {
        let magnitude = digits_value(self.whole + self.fraction());
        if self.negative {
            -magnitude
        } else {
            magnitude
        }
    }

    /// The number of digits after the point.
    pub open spec fn scale(self) -> nat {
        self.fraction().len()
    }

    /// The rational number that the literal denotes.
    pub open spec fn value(self) -> real {
        (self.numer() as real) / (pow10(self.scale()) as real)
    }

    /// Numerator and power of ten both fit in `i64`.
    pub open spec fn fits(self) -> bool {
        &&& self.scale() <= MAX_SCALE
        &&& i64::MIN <= self.numer() <= i64::MAX
    }
}

/// `s` has the form `-?digits(.digits)?`.
pub open spec fn is_decimal_literal(s: Seq<char>) -> bool {
    Literal::of(s).valid()
}

/// The numerator and the power of ten under the line that the text `s`
/// spells, or why it spells none.
pub open spec fn literal_fraction(s: Seq<char>) -> Result<(i64, i64), DecimalError> {
    let lit = Literal::of(s);
    if !lit.valid() {
        Err(DecimalError::Malformed)
    } else if !lit.fits() {
        Err(DecimalError::Overflow)
    } else {
        Ok((lit.numer() as i64, pow10(lit.scale()) as i64))
    }
}

/// The amount that the text `s` is read as, or why it is not read.
pub open spec fn literal_amount(s: Seq<char>) -> Result<Amount, DecimalError> {
    match literal_fraction(s) {
        Err(e) => Err(e),
        Ok((numer, denom)) => Ok(Amount::reduced_of(numer as int, denom as int)),
    }
}

/// The digits of a prefix spell no more than the digits of the whole.
pub proof fn lemma_digits_value_grows(s: Seq<char>, n: int)
    requires
        all_in(s, CharClass::Digit),
        0 <= n <= s.len(),
    ensures
        0 <= digits_value(s.take(n)) <= digits_value(s),
    decreases s.len() - n,
{
    if n == s.len() {
        assert(s.take(n) =~= s);
        lemma_digits_value_nonneg(s);
    } else {
        lemma_digits_value_grows(s, n + 1);
        assert(s.take(n + 1).drop_last() =~= s.take(n));
        assert(CharClass::Digit.holds(s[n]));
        assert(s.take(n + 1).last() == s[n]);
        lemma_digits_value_nonneg(s.take(n));
    }
}

/// Digits spell a number that is not negative.
pub proof fn lemma_digits_value_nonneg(s: Seq<char>)
    requires
        all_in(s, CharClass::Digit),
    ensures
        0 <= digits_value(s),
    decreases s.len(),
{
    if s.len() > 0 {
        assert(CharClass::Digit.holds(s[s.len() - 1]));
        lemma_digits_value_nonneg(s.drop_last());
    }
}

/// Powers of ten are positive and grow with the exponent.
pub proof fn lemma_pow10_grows(a: nat, b: nat)
    requires
        a <= b,
    ensures
        0 < pow10(a) <= pow10(b),
    decreases b,
{
    if b == 0 {
    } else if a == b {
        lemma_pow10_grows((a - 1) as nat, (b - 1) as nat);
    } else {
        lemma_pow10_grows(a, (b - 1) as nat);
    }
}

/// The power of a sum of exponents is the product of the powers.
pub proof fn lemma_pow10_adds(a: nat, b: nat)
    ensures
        pow10(a + b) == pow10(a) * pow10(b),
    decreases a,
{
    if a > 0 {
        lemma_pow10_adds((a - 1) as nat, b);
        assert(pow10(a + b) == 10 * pow10((a - 1 + b) as nat));
        assert(10 * (pow10((a - 1) as nat) * pow10(b)) == (10 * pow10((a - 1) as nat)) * pow10(b))
            by (nonlinear_arith);
    }
}

/// The largest power of ten that the library forms.
pub proof fn lemma_pow10_max()
    ensures
        pow10(MAX_SCALE as nat) == 1_000_000_000_000_000_000,
{
    reveal_with_fuel(pow10, 20);
}

/// Ten to the power `k`, for a `k` whose power fits.
pub fn power_of_ten(k: usize) -> (r: i64)
    requires
        k <= MAX_SCALE,
    ensures
        r == pow10(k as nat),
        r > 0,
{
    let mut r: i64 = 1;
    let mut i: usize = 0;
    while i < k
        invariant
            i <= k <= MAX_SCALE,
            r == pow10(i as nat),
        decreases k - i,
    {
        proof {
            lemma_pow10_max();
            lemma_pow10_grows((i + 1) as nat, MAX_SCALE as nat);
        }
        r = r * 10;
        i += 1;
    }
    proof {
        lemma_pow10_grows(0, k as nat);
    }
    r
}

/// Spells on from `acc`, the number of the digits `seen`, with the digits
/// `chars[from..to]`; `None` where the number passes two to the power 63.
fn accumulate(chars: &Vec<char>, from: usize, to: usize, acc: u64, Ghost(seen): Ghost<Seq<char>>) -> (r:
    Option<u64>)
    requires
        from <= to <= chars.len(),
        all_in(seen, CharClass::Digit),
        all_in(chars@.subrange(from as int, to as int), CharClass::Digit),
        acc == digits_value(seen),
        acc <= 0x8000_0000_0000_0000,
    ensures
        match r {
            Some(m) => m == digits_value(seen + chars@.subrange(from as int, to as int)) && m
                <= 0x8000_0000_0000_0000,
            None => digits_value(seen + chars@.subrange(from as int, to as int))
                > 0x8000_0000_0000_0000,
        },
{
    let ghost part = chars@.subrange(from as int, to as int);
    let ghost all = seen + part;
    let mut m: u64 = acc;
    let mut i: usize = from;
    assert(seen + part.take(0) =~= seen);
    while i < to
        invariant
            from <= i <= to <= chars.len(),
            part == chars@.subrange(from as int, to as int),
            all == seen + part,
            all_in(all, CharClass::Digit),
            m == digits_value(seen + part.take(i - from)),
            m <= 0x8000_0000_0000_0000,
        decreases to - i,
    {
        let c = chars[i];
        proof {
            let next = seen + part.take(i + 1 - from);
            assert(next.drop_last() =~= seen + part.take(i - from));
            assert(next.last() == c);
            assert(CharClass::Digit.holds(all[seen.len() + i - from]));
            assert(all[seen.len() + i - from] == part[i - from]);
            assert(next =~= all.take(seen.len() + i + 1 - from));
            lemma_digits_value_grows(all, seen.len() + i + 1 - from);
        }
        let d: u64 = (c as u32 - '0' as u32) as u64;
        if m > 0x0ccc_cccc_cccc_cccc {
            return None;
        }
        let wide: u64 = m * 10;
        if wide > 0x8000_0000_0000_0000 - d {
            return None;
        }
        m = wide + d;
        i += 1;
    }
    assert(part.take(to - from) =~= part);
    Some(m)
}

/// The places where the parts of a decimal literal begin: the digits before
/// the point, the end of them, and the digits after the point. `None` where
/// the text is no decimal literal.
fn literal_shape(chars: &Vec<char>) -> (r: Option<(usize, usize, usize)>)
    ensures
        r is Some <==> is_decimal_literal(chars@),
        r matches Some((start, dot, first)) ==> {
            &&& start <= dot <= first <= chars.len()
            &&& Literal::of(chars@).negative == (start == 1)
            &&& Literal::of(chars@).whole == chars@.subrange(start as int, dot as int)
            &&& Literal::of(chars@).fraction() == chars@.subrange(
                first as int,
                chars.len() as int,
            )
            &&& all_in(Literal::of(chars@).whole, CharClass::Digit)
            &&& all_in(Literal::of(chars@).fraction(), CharClass::Digit)
        },
{
    let len = chars.len();
    let negative = len > 0 && chars[0] == '-';
    let start: usize = if negative {
        1
    } else {
        0
    };
    let ghost lit = Literal::of(chars@);
    let ghost body = chars@.skip(start as int);
    assert(body == if negative { chars@.skip(1) } else { chars@ }) by {
        assert(chars@.skip(0) =~= chars@);
    }
    let dot = scan(chars, start, CharClass::Digit);
    proof {
        lemma_run_len(body, CharClass::Digit);
        assert(lit.whole =~= chars@.subrange(start as int, dot as int));
        assert(lit.rest =~= chars@.skip(dot as int));
    }
    if dot == start {
        return None;
    }
    let mut first: usize = len;
    if dot < len {
        if chars[dot] != '.' {
            return None;
        }
        first = dot + 1;
        let end = scan(chars, first, CharClass::Digit);
        proof {
            let tail = chars@.skip(first as int);
            assert(lit.rest.skip(1) =~= tail);
            lemma_run_len(tail, CharClass::Digit);
            if end == len {
                assert(tail.take(tail.len() as int) =~= tail);
            } else {
                assert(!CharClass::Digit.holds(tail[end - first]));
            }
        }
        if end != len || first == len {
            return None;
        }
    }
    assert(lit.valid());
    assert(lit.fraction() =~= chars@.subrange(first as int, len as int));
    Some((start, dot, first))
}

/// A fraction whose parts divide a number and a power of ten has a decimal
/// text.
pub proof fn lemma_reduced_is_decimal(amount: Amount, numer: int, scale: nat)
    requires
        scale <= MAX_SCALE,
        amount.wf(),
        amount.divides(numer, pow10(scale)),
    ensures
        amount.is_decimal(),
{
    lemma_pow10_max();
    lemma_pow10_grows(scale, MAX_SCALE as nat);
    let denom = pow10(scale);
    let d = amount.spec_denom() as int;
    let g = choose|g: int|
        g > 0 && numer == #[trigger] (amount.spec_numer() * g) && pow10(scale) == d * g;
    lemma_pow10_adds(scale, (MAX_SCALE - scale) as nat);
    let more = pow10((MAX_SCALE - scale) as nat);
    assert(pow10(MAX_SCALE as nat) == (g * more) * d) by (nonlinear_arith)
        requires
            pow10(MAX_SCALE as nat) == denom * more,
            denom == d * g,
    ;
    vstd::arithmetic::div_mod::lemma_mod_multiples_basic(g * more, d);
}

/// A decimal literal that fits is read as an amount with a positive
/// denominator, in lowest terms, with a decimal text and the value of the
/// literal.
pub proof fn lemma_literal_amount(s: Seq<char>)
    requires
        is_decimal_literal(s),
        Literal::of(s).fits(),
    ensures
        literal_amount(s) is Ok,
        literal_amount(s)->Ok_0.wf(),
        literal_amount(s)->Ok_0.is_reduced(),
        literal_amount(s)->Ok_0.is_decimal(),
        literal_amount(s)->Ok_0.value() == Literal::of(s).value(),
{
    let lit = Literal::of(s);
    let numer = lit.numer();
    let denom = pow10(lit.scale());
    lemma_pow10_max();
    lemma_pow10_grows(0, lit.scale());
    lemma_pow10_grows(lit.scale(), MAX_SCALE as nat);
    let a = literal_amount(s)->Ok_0;
    crate::amount::lemma_reduced_of(numer as i64, denom as i64);
    crate::amount::lemma_lowest(a, numer, denom);
    lemma_reduced_is_decimal(a, numer, lit.scale());
}

/// Two decimal literals that fit and have the same value are read as the
/// same amount.
pub proof fn same_value_same_amount(s: Seq<char>, t: Seq<char>)
    requires
        is_decimal_literal(s),
        is_decimal_literal(t),
        Literal::of(s).fits(),
        Literal::of(t).fits(),
        Literal::of(s).value() == Literal::of(t).value(),
    ensures
        literal_amount(s) == literal_amount(t),
    decreases
            if Literal::of(s).scale() <= Literal::of(t).scale() {
                0int
            } else {
                1int
            },
{
    let a = Literal::of(s);
    let b = Literal::of(t);
    if a.scale() > b.scale() {
        same_value_same_amount(t, s);
    } else {
        let c = pow10((b.scale() - a.scale()) as nat);
        let d = pow10(a.scale());
        let e = pow10(b.scale());
        lemma_pow10_max();
        lemma_pow10_grows(0, a.scale());
        lemma_pow10_grows(0, (b.scale() - a.scale()) as nat);
        lemma_pow10_grows(a.scale(), MAX_SCALE as nat);
        lemma_pow10_grows(b.scale(), MAX_SCALE as nat);
        lemma_pow10_adds(a.scale(), (b.scale() - a.scale()) as nat);
        assert(e == d * c);
        let m = a.numer();
        let n = b.numer();
        assert(m * e == n * d) by {
            assert((m * e) as real == (m as real) * (e as real)) by (nonlinear_arith);
            assert((n * d) as real == (n as real) * (d as real)) by (nonlinear_arith);
            let mr = m as real;
            let nr = n as real;
            let dr = d as real;
            let er = e as real;
            assert(mr * er == nr * dr) by (nonlinear_arith)
                requires
                    mr / dr == nr / er,
                    dr > 0real,
                    er > 0real,
            ;
        }
        assert(n == c * m) by (nonlinear_arith)
            requires
                m * e == n * d,
                e == d * c,
                d > 0,
        ;
        assert(e == c * d) by (nonlinear_arith)
            requires
                e == d * c,
        ;
        crate::amount::lemma_reduced_scaled(m, d, c);
    }
}

/// A zero after the last digit behind the point makes a decimal literal of
/// the same value, and so of the same amount where both fit.
pub proof fn trailing_zero_keeps_amount(s: Seq<char>)
    requires
        is_decimal_literal(s),
        Literal::of(s).rest.len() > 0,
    ensures
        is_decimal_literal(s.push('0')),
        Literal::of(s.push('0')).rest.len() > 0,
        Literal::of(s.push('0')).value() == Literal::of(s).value(),
        Literal::of(s).fits() && Literal::of(s.push('0')).fits() ==> literal_amount(s.push('0'))
            == literal_amount(s),
{
    let t = s.push('0');
    let a = Literal::of(s);
    let b = Literal::of(t);
    let body = if a.negative {
        s.skip(1)
    } else {
        s
    };
    let longer = if b.negative {
        t.skip(1)
    } else {
        t
    };
    assert(a.negative == b.negative);
    assert(longer =~= body.push('0'));
    let n = run_len(body, CharClass::Digit) as int;
    lemma_run_len(body, CharClass::Digit);
    assert(a.rest =~= body.skip(n));
    assert(n < body.len());
    assert(body[n] == a.rest[0]);
    assert(longer.take(n) =~= body.take(n));
    crate::text::lemma_run_len_unique(longer, CharClass::Digit, n);
    assert(b.whole =~= a.whole);
    assert(b.rest =~= a.rest.push('0'));
    assert(b.rest.skip(1) =~= a.rest.skip(1).push('0'));
    assert(b.fraction() =~= a.fraction().push('0'));
    let digits = b.whole + b.fraction();
    assert(digits.drop_last() =~= a.whole + a.fraction());
    assert(digits.last() == '0');
    assert(b.numer() == 10 * a.numer());
    assert(pow10(b.scale()) == 10 * pow10(a.scale()));
    lemma_pow10_grows(0, a.scale());
    let m = a.numer();
    let d = pow10(a.scale());
    assert(((10 * m) as real) / ((10 * d) as real) == (m as real) / (d as real)) by {
        assert((10 * m) as real == 10real * (m as real)) by (nonlinear_arith);
        assert((10 * d) as real == 10real * (d as real)) by (nonlinear_arith);
        let mr = m as real;
        let dr = d as real;
        assert((10real * mr) / (10real * dr) == mr / dr) by (nonlinear_arith)
            requires
                dr > 0real,
        ;
    }
    if a.fits() && b.fits() {
        same_value_same_amount(t, s);
    }
}

/// A point and a zero after a decimal literal without a point make a decimal
/// literal of the same value, and so of the same amount where both fit.
pub proof fn point_zero_keeps_amount(s: Seq<char>)
    requires
        is_decimal_literal(s),
        Literal::of(s).rest.len() == 0,
    ensures
        is_decimal_literal(s + seq!['.', '0']),
        Literal::of(s + seq!['.', '0']).rest.len() > 0,
        Literal::of(s + seq!['.', '0']).value() == Literal::of(s).value(),
        Literal::of(s).fits() && Literal::of(s + seq!['.', '0']).fits() ==> literal_amount(
            s + seq!['.', '0'],
        ) == literal_amount(s),
{
    let t = s + seq!['.', '0'];
    let a = Literal::of(s);
    let b = Literal::of(t);
    let body = if a.negative {
        s.skip(1)
    } else {
        s
    };
    let longer = if b.negative {
        t.skip(1)
    } else {
        t
    };
    assert(a.negative == b.negative);
    assert(longer =~= body + seq!['.', '0']);
    let n = run_len(body, CharClass::Digit) as int;
    lemma_run_len(body, CharClass::Digit);
    assert(a.rest =~= body.skip(n));
    assert(n == body.len());
    assert(longer.take(n) =~= body.take(n));
    assert(longer[n] == '.');
    crate::text::lemma_run_len_unique(longer, CharClass::Digit, n);
    assert(b.whole =~= a.whole);
    assert(b.rest =~= seq!['.', '0']);
    assert(b.rest.skip(1) =~= seq!['0']);
    assert(b.fraction() =~= seq!['0']);
    assert(a.fraction() =~= Seq::<char>::empty());
    let digits = b.whole + b.fraction();
    assert(digits.drop_last() =~= a.whole + a.fraction());
    assert(digits.last() == '0');
    assert(b.numer() == 10 * a.numer());
    assert(b.scale() == 1 && a.scale() == 0);
    assert(pow10(1) == 10 * pow10(0));
    let m = a.numer();
    assert(((10 * m) as real) / (10int as real) == (m as real) / (1int as real)) by {
        assert((10 * m) as real == 10real * (m as real)) by (nonlinear_arith);
        let mr = m as real;
        assert((10real * mr) / 10real == mr / 1real) by (nonlinear_arith);
    }
    if a.fits() && b.fits() {
        same_value_same_amount(t, s);
    }
}

/// `s`, a point and `k` zeros.
pub open spec fn with_zero_fraction(s: Seq<char>, k: nat) -> Seq<char> {
    s + seq!['.'] + Seq::new(k, |i: int| '0')
}

/// A point and zeros after a decimal literal without a point make a decimal
/// literal of the same value, and so of the same amount where both fit.
pub proof fn zero_fraction_keeps_amount(s: Seq<char>, k: nat)
    requires
        is_decimal_literal(s),
        Literal::of(s).rest.len() == 0,
        k >= 1,
    ensures
        is_decimal_literal(with_zero_fraction(s, k)),
        Literal::of(with_zero_fraction(s, k)).rest.len() > 0,
        Literal::of(with_zero_fraction(s, k)).value() == Literal::of(s).value(),
        Literal::of(s).fits() && Literal::of(with_zero_fraction(s, k)).fits() ==> literal_amount(
            with_zero_fraction(s, k),
        ) == literal_amount(s),
    decreases k,
{
    let t = with_zero_fraction(s, k);
    if k == 1 {
        assert(t =~= s + seq!['.', '0']);
        point_zero_keeps_amount(s);
    } else {
        let shorter = with_zero_fraction(s, (k - 1) as nat);
        zero_fraction_keeps_amount(s, (k - 1) as nat);
        assert(t =~= shorter.push('0'));
        trailing_zero_keeps_amount(shorter);
    }
    if Literal::of(s).fits() && Literal::of(t).fits() {
        same_value_same_amount(t, s);
    }
}

/// The numerator and the power of ten under the line that the decimal
/// literal `value` spells, unreduced: `12.345` is `12345` over `1000`.
///
/// A text of another form is malformed; a numerator or a power of ten that
/// leaves `i64` is an overflow.
pub fn literal_parts(value: &str) -> (r: Result<(i64, i64), DecimalError>)
    ensures
        r == literal_fraction(value@),
        r matches Ok((numer, denom)) ==> numer == Literal::of(value@).numer() && denom == pow10(
            Literal::of(value@).scale(),
        ) && denom > 0,
{
    proof {
        lemma_pow10_grows(0, Literal::of(value@).scale());
    }
    let chars = chars_of(value);
    let len = chars.len();
    let ghost lit = Literal::of(chars@);
    let (start, dot, first) = match literal_shape(&chars) {
        None => {
            return Err(DecimalError::Malformed);
        },
        Some(shape) => shape,
    };
    if len - first > MAX_SCALE {
        return Err(DecimalError::Overflow);
    }
    let ghost none = Seq::<char>::empty();
    assert(none + lit.whole =~= lit.whole);
    let magnitude = match accumulate(&chars, start, dot, 0, Ghost(none)) {
        None => {
            proof {
                assert(all_in(lit.whole + lit.fraction(), CharClass::Digit));
                assert((lit.whole + lit.fraction()).take(lit.whole.len() as int) =~= lit.whole);
                lemma_digits_value_grows(lit.whole + lit.fraction(), lit.whole.len() as int);
            }
            return Err(DecimalError::Overflow);
        },
        Some(m) => match accumulate(&chars, first, len, m, Ghost(lit.whole)) {
            None => {
                return Err(DecimalError::Overflow);
            },
            Some(m) => m,
        },
    };
    let negative = start == 1;
    let numer: i64 = if negative {
        if magnitude == 0x8000_0000_0000_0000 {
            i64::MIN
        } else {
            -(magnitude as i64)
        }
    } else {
        if magnitude == 0x8000_0000_0000_0000 {
            return Err(DecimalError::Overflow);
        }
        magnitude as i64
    };
    Ok((numer, power_of_ten(len - first)))
}

/// The exact fraction that the decimal literal `value` denotes, in lowest
/// terms.
///
/// The digits after the point give the power of ten under the line, the sign
/// goes with the numerator: `12.345` is `12345 / 1000`, reduced. A text of
/// another form is malformed; a numerator or a power of ten that leaves `i64`
/// is an overflow.
pub fn create_rational(value: &str) -> (r: Result<Amount, DecimalError>)
    ensures
        r == literal_amount(value@),
        r matches Ok(a) ==> a.wf() && a.is_reduced() && a.is_decimal() && a.value() == Literal::of(
            value@,
        ).value(),
{
    match literal_parts(value) {
        Err(e) => Err(e),
        Ok((numer, denom)) => {
            let amount = Amount::reduce(numer, denom);
            proof {
                lemma_reduced_is_decimal(amount, numer as int, Literal::of(value@).scale());
            }
            Ok(amount)
        },
    }
}

} // verus!
