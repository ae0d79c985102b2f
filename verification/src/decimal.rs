//! An exact scaled-decimal numeric type for monetary and quantity figures.
//!
//! A value is a sign, a little-endian sequence of base-10 mantissa digits,
//! and a scale giving the number of fractional digits; the represented
//! number is `mantissa / 10^scale`. All operations are exact: no binary
//! floating point is involved anywhere.

use vstd::prelude::*;

verus! {

/// Mathematical content of a [`Decimal`]: sign, little-endian base-10
/// mantissa digits, and the number of fractional digits.
#[verifier::ext_equal]
pub struct DecModel {
    pub neg: bool,
    pub digits: Seq<u8>,
    pub scale: nat,
}

/// `10^n`.
pub open spec fn pow10(n: nat) -> nat
    decreases n,
{
    if n == 0 {
        1
    } else {
        10 * pow10((n - 1) as nat)
    }
}

/// Numeric value of a little-endian digit sequence.
pub open spec fn mant(s: Seq<u8>) -> nat
    decreases s.len(),
{
    if s.len() == 0 {
        0
    } else {
        s[0] as nat + 10 * mant(s.drop_first())
    }
}

/// All entries are base-10 digits.
pub open spec fn all_digits(s: Seq<u8>) -> bool {
    forall|i: int| 0 <= i < s.len() ==> s[i] < 10
}

/// Well-formedness of a decimal model: at least one integer-part digit,
/// digits in range, no leading zero beyond the first integer digit, and
/// a zero mantissa is never negative.
pub open spec fn dec_wf(m: DecModel) -> bool {
    &&& m.digits.len() >= 1
    &&& m.scale < m.digits.len()
    &&& all_digits(m.digits)
    &&& m.digits.len() > m.scale + 1 ==> m.digits.last() != 0
    &&& m.neg ==> mant(m.digits) != 0
}

/// Signed mantissa of a model.
pub open spec fn ival(m: DecModel) -> int {
    if m.neg {
        -(mant(m.digits) as int)
    } else {
        mant(m.digits) as int
    }
}

/// Two models denote the same number: `a/10^sa == b/10^sb`, cleared of
/// denominators.
pub open spec fn same_value(a: DecModel, b: DecModel) -> bool {
    ival(a) * pow10(b.scale) == ival(b) * pow10(a.scale)
}

pub proof fn lemma_pow10_pos(n: nat)
    ensures
        pow10(n) >= 1,
    decreases n,
{
    if n > 0 {
        lemma_pow10_pos((n - 1) as nat);
    }
}

/// Appending a digit at the most-significant end adds `d * 10^len`.
pub proof fn lemma_mant_push(s: Seq<u8>, d: u8)
    ensures
        mant(s.push(d)) == mant(s) + d * pow10(s.len()),
    decreases s.len(),
{
    if s.len() == 0 {
        assert(s.push(d).drop_first() =~= Seq::<u8>::empty());
        assert(mant(s.push(d)) == d + 10 * mant(Seq::<u8>::empty()));
        assert(pow10(s.len()) == 1);
        assert(d * 1 == d) by (nonlinear_arith);
        assert(mant(s) == 0);
    } else {
        assert(s.push(d).drop_first() =~= s.drop_first().push(d));
        lemma_mant_push(s.drop_first(), d);
        let t = s.drop_first();
        assert(s.push(d)[0] == s[0]);
        assert(mant(s.push(d)) == s[0] as nat + 10 * mant(t.push(d)));
        assert(mant(t.push(d)) == mant(t) + d * pow10(t.len()));
        assert(10 * (mant(t) + d * pow10(t.len())) == 10 * mant(t) + d * (10 * pow10(t.len())))
            by (nonlinear_arith);
        assert(t.len() == (s.len() - 1) as nat);
        assert(pow10(s.len()) == 10 * pow10((s.len() - 1) as nat));
        assert(mant(s.push(d)) == s[0] as nat + 10 * mant(t) + d * pow10(s.len()));
        assert(mant(s) == s[0] as nat + 10 * mant(t));
    }
}

/// A digit sequence has value zero exactly when every digit is zero.
pub proof fn lemma_mant_zero(s: Seq<u8>)
    ensures
        (mant(s) == 0) <==> (forall|i: int| 0 <= i < s.len() ==> s[i] == 0),
    decreases s.len(),
{
    if s.len() > 0 {
        lemma_mant_zero(s.drop_first());
        if mant(s) == 0 {
            assert forall|i: int| 0 <= i < s.len() implies s[i] == 0 by {
                if i > 0 {
                    assert(s.drop_first()[i - 1] == s[i]);
                }
            }
        } else {
            if forall|i: int| 0 <= i < s.len() ==> s[i] == 0 {
                assert(forall|i: int| 0 <= i < s.drop_first().len() ==> s.drop_first()[i] == 0);
            }
        }
    }
}

/// The value of an `n`-digit sequence is below `10^n`.
pub proof fn lemma_mant_bound(s: Seq<u8>)
    requires
        all_digits(s),
    ensures
        mant(s) < pow10(s.len()),
    decreases s.len(),
{
    if s.len() == 0 {
    } else {
        assert(all_digits(s.drop_first()));
        lemma_mant_bound(s.drop_first());
        assert(s[0] < 10);
        assert(mant(s.drop_first()) + 1 <= pow10((s.len() - 1) as nat));
        assert(10 * (mant(s.drop_first()) + 1) <= 10 * pow10((s.len() - 1) as nat))
            by (nonlinear_arith)
            requires
                mant(s.drop_first()) + 1 <= pow10((s.len() - 1) as nat),
        ;
    }
}

/// A sequence whose most-significant digit is nonzero has value at least
/// `10^(n-1)`.
pub proof fn lemma_mant_lower(s: Seq<u8>)
    requires
        s.len() >= 1,
        s.last() != 0,
    ensures
        mant(s) >= pow10((s.len() - 1) as nat),
    decreases s.len(),
{
    assert(s =~= s.drop_last().push(s.last()));
    lemma_mant_push(s.drop_last(), s.last());
    lemma_pow10_pos((s.len() - 1) as nat);
    assert(s.last() * pow10((s.len() - 1) as nat) >= pow10((s.len() - 1) as nat))
        by (nonlinear_arith)
        requires
            s.last() >= 1,
            pow10((s.len() - 1) as nat) >= 1,
    ;
}

/// Splitting a digit sequence at position `i` splits its value.
pub proof fn lemma_mant_split(s: Seq<u8>, i: int)
    requires
        0 <= i <= s.len(),
    ensures
        mant(s) == mant(s.take(i)) + pow10(i as nat) * mant(s.skip(i)),
    decreases i,
{
    if i == 0 {
        assert(s.take(0) =~= Seq::<u8>::empty());
        assert(s.skip(0) =~= s);
        assert(pow10(0) == 1);
        assert(1 * mant(s.skip(0)) == mant(s.skip(0))) by (nonlinear_arith);
    } else {
        lemma_mant_split(s, i - 1);
        let hi = s.skip(i - 1);
        assert(hi.len() > 0);
        assert(hi[0] == s[i - 1]);
        assert(hi.drop_first() =~= s.skip(i));
        assert(mant(hi) == s[i - 1] as nat + 10 * mant(s.skip(i)));
        assert(s.take(i) =~= s.take(i - 1).push(s[i - 1]));
        lemma_mant_push(s.take(i - 1), s[i - 1]);
        assert(mant(s.take(i)) == mant(s.take(i - 1)) + s[i - 1] * pow10((i - 1) as nat));
        assert(mant(s) == mant(s.take(i - 1)) + pow10((i - 1) as nat) * (s[i - 1] as nat + 10
            * mant(s.skip(i))));
        assert(pow10((i - 1) as nat) * (s[i - 1] as nat + 10 * mant(s.skip(i))) == s[i - 1]
            * pow10((i - 1) as nat) + (10 * pow10((i - 1) as nat)) * mant(s.skip(i)))
            by (nonlinear_arith);
        assert(pow10(i as nat) == 10 * pow10((i - 1) as nat));
        assert(pow10(i as nat) * mant(s.skip(i)) == (10 * pow10((i - 1) as nat)) * mant(s.skip(i)));
    }
}

/// Prefixing `k` zero digits multiplies the value by `10^k`.
pub proof fn lemma_mant_shift(zeros: Seq<u8>, s: Seq<u8>)
    requires
        forall|i: int| 0 <= i < zeros.len() ==> zeros[i] == 0,
    ensures
        mant(zeros + s) == pow10(zeros.len()) * mant(s),
    decreases zeros.len(),
{
    if zeros.len() == 0 {
        assert(zeros + s =~= s);
        assert(pow10(0) * mant(s) == mant(s)) by (nonlinear_arith);
    } else {
        assert((zeros + s).drop_first() =~= zeros.drop_first() + s);
        lemma_mant_shift(zeros.drop_first(), s);
        assert(mant(zeros + s) == 0 + 10 * (pow10((zeros.len() - 1) as nat) * mant(s)));
        assert(10 * (pow10((zeros.len() - 1) as nat) * mant(s)) == (10 * pow10(
            (zeros.len() - 1) as nat,
        )) * mant(s)) by (nonlinear_arith);
    }
}

/// Dropping a most-significant zero digit keeps the value.
pub proof fn lemma_mant_drop_last_zero(s: Seq<u8>)
    requires
        s.len() >= 1,
        s.last() == 0,
    ensures
        mant(s) == mant(s.drop_last()),
{
    assert(s =~= s.drop_last().push(s.last()));
    lemma_mant_push(s.drop_last(), s.last());
    assert(0 * pow10(s.drop_last().len()) == 0) by (nonlinear_arith);
}

/// The digit of `s` at position `i`, taking positions past the end as zero.
pub open spec fn digit_at(s: Seq<u8>, i: int) -> u8 {
    if 0 <= i < s.len() {
        s[i]
    } else {
        0
    }
}

/// Value contributed by the digits at positions `i` and above, in units of
/// `10^i`.
pub open spec fn mant_from(s: Seq<u8>, i: int) -> nat
    decreases s.len() - i,
{
    if 0 <= i < s.len() {
        digit_at(s, i) as nat + 10 * mant_from(s, i + 1)
    } else {
        0
    }
}

pub proof fn lemma_mant_from_unfold(s: Seq<u8>, i: int)
    requires
        0 <= i,
    ensures
        mant_from(s, i) == digit_at(s, i) as nat + 10 * mant_from(s, i + 1),
{
    if i >= s.len() {
        assert(mant_from(s, i) == 0);
        assert(mant_from(s, i + 1) == 0);
        assert(digit_at(s, i) == 0);
    }
}

pub proof fn lemma_mant_from_skip(s: Seq<u8>, i: int)
    requires
        0 <= i <= s.len(),
    ensures
        mant_from(s, i) == mant(s.skip(i)),
    decreases s.len() - i,
{
    if i == s.len() {
        assert(s.skip(i) =~= Seq::<u8>::empty());
    } else {
        lemma_mant_from_skip(s, i + 1);
        assert(s.skip(i).len() > 0);
        assert(s.skip(i)[0] == s[i]);
        assert(s.skip(i).drop_first() =~= s.skip(i + 1));
    }
}

/// The whole value splits into the digits below `i` and those at `i` and
/// above, even when `i` lies past the end.
pub proof fn lemma_mant_split_pad(s: Seq<u8>, i: int)
    requires
        0 <= i,
    ensures
        mant(s) == mant(s.take(if i <= s.len() {
            i
        } else {
            s.len() as int
        })) + pow10(i as nat) * mant_from(s, i),
{
    if i <= s.len() {
        lemma_mant_split(s, i);
        lemma_mant_from_skip(s, i);
    } else {
        assert(s.take(s.len() as int) =~= s);
        assert(mant_from(s, i) == 0);
        assert(pow10(i as nat) * 0 == 0) by (nonlinear_arith);
    }
}

/// If the digit streams agree at position `i` and above and differ in `i`'s
/// favour... precisely: a strictly smaller tail at `i` forces a strictly
/// smaller value overall.
pub proof fn lemma_mag_lt(a: Seq<u8>, b: Seq<u8>, i: int)
    requires
        all_digits(a),
        0 <= i,
        mant_from(a, i) < mant_from(b, i),
    ensures
        mant(a) < mant(b),
{
    lemma_mant_split_pad(a, i);
    lemma_mant_split_pad(b, i);
    let la = if i <= a.len() { i } else { a.len() as int };
    assert(all_digits(a.take(la)));
    lemma_mant_bound(a.take(la));
    lemma_pow10_pos(i as nat);
    let p = pow10(i as nat);
    lemma_pow10_mono(a.take(la).len(), i as nat);
    assert(mant(a.take(la)) < p);
    assert(mant(a) < p + p * mant_from(a, i));
    assert(p + p * mant_from(a, i) <= p * mant_from(b, i)) by (nonlinear_arith)
        requires
            p >= 1,
            mant_from(a, i) < mant_from(b, i),
    ;
    assert(mant(b) >= p * mant_from(b, i));
}

pub proof fn lemma_pow10_mono(a: nat, b: nat)
    requires
        a <= b,
    ensures
        pow10(a) <= pow10(b),
    decreases b,
{
    if a < b {
        lemma_pow10_mono(a, (b - 1) as nat);
        lemma_pow10_pos((b - 1) as nat);
    }
}

/// Digit streams that agree at position `i` and above have values that
/// differ only below `10^i`; agreement everywhere gives equality.
pub proof fn lemma_mag_eq(a: Seq<u8>, b: Seq<u8>)
    requires
        mant_from(a, 0) == mant_from(b, 0),
    ensures
        mant(a) == mant(b),
{
    lemma_mant_from_skip(a, 0);
    lemma_mant_from_skip(b, 0);
    assert(a.skip(0) =~= a);
    assert(b.skip(0) =~= b);
}

/// Value of the digits strictly below position `i`.
pub open spec fn mant_low(s: Seq<u8>, i: int) -> nat {
    mant(s.take(if i <= s.len() {
        i
    } else {
        s.len() as int
    }))
}

pub proof fn lemma_mant_low_step(s: Seq<u8>, i: int)
    requires
        0 <= i,
    ensures
        mant_low(s, i + 1) == mant_low(s, i) + digit_at(s, i) * pow10(i as nat),
{
    if i < s.len() {
        assert(s.take(i + 1) =~= s.take(i).push(s[i]));
        lemma_mant_push(s.take(i), s[i]);
    } else {
        assert(digit_at(s, i) == 0);
        assert(0 * pow10(i as nat) == 0) by (nonlinear_arith);
    }
}

pub proof fn lemma_mant_low_end(s: Seq<u8>, i: int)
    requires
        i >= s.len(),
    ensures
        mant_low(s, i) == mant(s),
{
    assert(s.take(s.len() as int) =~= s);
    if i == s.len() {
        assert(s.take(i) =~= s);
    }
}

/// Strip most-significant zero digits, keeping at least one digit above
/// the fractional part.
pub open spec fn strip_hi(d: Seq<u8>, scale: nat) -> Seq<u8>
    decreases d.len(),
{
    if d.len() > scale + 1 && d.last() == 0 {
        strip_hi(d.drop_last(), scale)
    } else {
        d
    }
}

/// The canonical model made from raw digits: stripped of leading zeros,
/// with a zero mantissa never negative.
pub open spec fn norm_model(digits: Seq<u8>, scale: nat, neg: bool) -> DecModel {
    let d = strip_hi(digits, scale);
    DecModel { neg: neg && mant(d) != 0, digits: d, scale }
}

/// The larger of two scales.
pub open spec fn scale_max(a: nat, b: nat) -> nat {
    if a >= b {
        a
    } else {
        b
    }
}

/// An exact signed decimal number: little-endian base-10 mantissa digits
/// and a count of fractional digits. See [`DecModel`] for the
/// mathematical reading.
pub struct Decimal {
    digits: Vec<u8>,
    scale: usize,
    neg: bool,
}

impl View for Decimal {
    type V = DecModel;

    closed spec fn view(&self) -> DecModel {
        DecModel { neg: self.neg, digits: self.digits@, scale: self.scale as nat }
    }
}

#[verifier::loop_isolation(false)]
fn copy_digits(src: &Vec<u8>) -> (r: Vec<u8>)
    ensures
        r@ == src@,
{
    let mut r: Vec<u8> = Vec::new();
    let mut i: usize = 0;
    while i < src.len()
        invariant
            i <= src.len(),
            r@ == src@.take(i as int),
        decreases src.len() - i,
    {
        r.push(src[i]);
        proof {
            assert(r@ =~= src@.take(i + 1));
        }
        i += 1;
    }
    proof {
        assert(r@ =~= src@);
    }
    r
}

/// Canonicalize raw parts into a well-formed decimal.
#[verifier::loop_isolation(false)]
fn normalized(digits: Vec<u8>, scale: usize, neg: bool) -> (r: Decimal)
    requires
        all_digits(digits@),
        digits@.len() > scale,
    ensures
        r.wf(),
        r@ == norm_model(digits@, scale as nat, neg),
        mant(r@.digits) == mant(digits@),
        r@.scale == scale,
{
    let mut d = digits;
    let ghost orig = d@;
    while d.len() > scale + 1 && d[d.len() - 1] == 0
        invariant
            all_digits(d@),
            d@.len() > scale,
            strip_hi(d@, scale as nat) == strip_hi(orig, scale as nat),
            mant(d@) == mant(orig),
        decreases d@.len(),
    {
        proof {
            lemma_mant_drop_last_zero(d@);
        }
        d.pop();
    }
    let mut i: usize = 0;
    let mut allz = true;
    while i < d.len()
        invariant
            i <= d@.len(),
            allz == (forall|t: int| 0 <= t < i ==> d@[t] == 0),
        decreases d@.len() - i,
    {
        if d[i] != 0 {
            allz = false;
        }
        i += 1;
    }
    proof {
        lemma_mant_zero(d@);
        assert(strip_hi(d@, scale as nat) == d@);
    }
    Decimal { digits: d, scale, neg: neg && !allz }
}

impl Decimal {
    /// Structural well-formedness; all public operations keep it.
    pub open spec fn wf(self) -> bool {
        dec_wf(self@)
    }

    /// An identical copy.
    pub fn duplicate(&self) -> (r: Decimal)
        ensures
            r@ == self@,
    {
        Decimal { digits: copy_digits(&self.digits), scale: self.scale, neg: self.neg }
    }

    /// The whole number `v`, at scale zero.
    #[verifier::loop_isolation(false)]
    pub fn from_u64(v: u64) -> (r: Decimal)
        ensures
            r.wf(),
            r@.scale == 0,
            ival(r@) == v as int,
    {
        let mut digits: Vec<u8> = Vec::new();
        let mut x: u64 = v;
        proof {
            assert(pow10(digits@.len()) == 1);
            assert(x * 1 == x) by (nonlinear_arith);
        }
        while x > 0
            invariant
                all_digits(digits@),
                mant(digits@) + x * pow10(digits@.len()) == v,
            decreases x,
        {
            let ghost len = digits@.len();
            let ghost p = pow10(len);
            let d: u8 = (x % 10) as u8;
            proof {
                lemma_mant_push(digits@, d);
                assert((x / 10) * pow10(len + 1) == (x / 10) * (10 * p)) by {
                    assert(pow10(len + 1) == 10 * pow10(len));
                }
                assert((x / 10) * (10 * p) == (10 * (x / 10)) * p) by (nonlinear_arith);
                assert(d * p + (10 * (x / 10)) * p == (d + 10 * (x / 10)) * p) by (nonlinear_arith);
                assert(d + 10 * (x / 10) == x);
                assert((d + 10 * (x / 10)) * p == x * p);
            }
            digits.push(d);
            x = x / 10;
        }
        proof {
            assert(x * pow10(digits@.len()) == 0) by (nonlinear_arith)
                requires
                    x == 0,
            ;
        }
        if digits.len() == 0 {
            digits.push(0);
            proof {
                assert(digits@ =~= seq![0u8]);
                assert(mant(digits@) == 0 + 10 * mant(digits@.drop_first()));
                assert(digits@.drop_first() =~= Seq::<u8>::empty());
            }
        }
        normalized(digits, 0, false)
    }

    /// The whole number `v`, at scale zero, with its sign.
    pub fn from_i64(v: i64) -> (r: Decimal)
        ensures
            r.wf(),
            r@.scale == 0,
            ival(r@) == v as int,
    {
        let neg = v < 0;
        let mag: u64 = if v < 0 {
            (-(v as i128)) as u64
        } else {
            v as u64
        };
        let base = Self::from_u64(mag);
        if neg {
            proof {
                assert(mant(base@.digits) == mag);
            }
            Decimal { digits: base.digits, scale: base.scale, neg: true }
        } else {
            base
        }
    }

    /// Zero at scale zero.
    pub fn zero() -> (r: Decimal)
        ensures
            r.wf(),
            r@.scale == 0,
            ival(r@) == 0,
    {
        Decimal::from_u64(0)
    }
}

impl Default for Decimal {
    /// The default decimal is exactly zero.
    fn default() -> (r: Decimal)
        ensures
            r.wf(),
            r@.scale == 0,
            ival(r@) == 0,
    {
        Decimal::from_u64(0)
    }
}

/// Multiply by `10^k`: `k` fresh zero digits below the existing ones.
#[verifier::loop_isolation(false)]
fn shift(digits: &Vec<u8>, k: usize) -> (r: Vec<u8>)
    requires
        all_digits(digits@),
        digits@.len() + k <= usize::MAX,
    ensures
        all_digits(r@),
        r@.len() == digits@.len() + k,
        mant(r@) == pow10(k as nat) * mant(digits@),
    decreases k,
{
    let mut r: Vec<u8> = Vec::new();
    let mut i: usize = 0;
    while i < k
        invariant
            i <= k,
            r@.len() == i,
            forall|t: int| 0 <= t < i ==> r@[t] == 0,
        decreases k - i,
    {
        r.push(0);
        i += 1;
    }
    let ghost zeros = r@;
    let mut j: usize = 0;
    while j < digits.len()
        invariant
            j <= digits@.len(),
            r@ == zeros + digits@.take(j as int),
            zeros.len() == k,
            forall|t: int| 0 <= t < k ==> zeros[t] == 0,
        decreases digits@.len() - j,
    {
        r.push(digits[j]);
        proof {
            assert(r@ =~= zeros + digits@.take(j + 1));
        }
        j += 1;
    }
    proof {
        assert(r@ =~= zeros + digits@);
        lemma_mant_shift(zeros, digits@);
        assert(all_digits(r@));
    }
    r
}

/// Digit-wise magnitude comparison, most-significant first.
#[verifier::loop_isolation(false)]
fn mag_cmp(a: &Vec<u8>, b: &Vec<u8>) -> (r: i8)
    requires
        all_digits(a@),
        all_digits(b@),
    ensures
        r == -1 || r == 0 || r == 1,
        (r == -1) <==> mant(a@) < mant(b@),
        (r == 1) <==> mant(a@) > mant(b@),
        (r == 0) <==> mant(a@) == mant(b@),
{
    let n = if a.len() >= b.len() {
        a.len()
    } else {
        b.len()
    };
    let mut i = n;
    while i > 0
        invariant
            i <= n,
            n >= a@.len(),
            n >= b@.len(),
            mant_from(a@, i as int) == mant_from(b@, i as int),
        decreases i,
    {
        i = i - 1;
        let da = if i < a.len() {
            a[i]
        } else {
            0
        };
        let db = if i < b.len() {
            b[i]
        } else {
            0
        };
        proof {
            lemma_mant_from_unfold(a@, i as int);
            lemma_mant_from_unfold(b@, i as int);
            assert(digit_at(a@, i as int) == da);
            assert(digit_at(b@, i as int) == db);
        }
        if da < db {
            proof {
                lemma_mag_lt(a@, b@, i as int);
            }
            return -1;
        }
        if da > db {
            proof {
                lemma_mag_lt(b@, a@, i as int);
            }
            return 1;
        }
    }
    proof {
        lemma_mag_eq(a@, b@);
    }
    0
}

/// Digit-wise magnitude addition with carry.
#[verifier::loop_isolation(false)]
fn mag_add(a: &Vec<u8>, b: &Vec<u8>) -> (r: Vec<u8>)
    requires
        all_digits(a@),
        all_digits(b@),
        a@.len() < usize::MAX,
        b@.len() < usize::MAX,
    ensures
        all_digits(r@),
        mant(r@) == mant(a@) + mant(b@),
        r@.len() >= a@.len(),
        r@.len() >= b@.len(),
{
    let n = if a.len() >= b.len() {
        a.len()
    } else {
        b.len()
    };
    let mut r: Vec<u8> = Vec::new();
    let mut carry: u8 = 0;
    let mut i: usize = 0;
    while i < n
        invariant
            i <= n,
            n >= a@.len(),
            n >= b@.len(),
            carry <= 1,
            r@.len() == i,
            all_digits(r@),
            mant(r@) + carry * pow10(i as int as nat) == mant_low(a@, i as int) + mant_low(
                b@,
                i as int,
            ),
        decreases n - i,
    {
        let da = if i < a.len() {
            a[i]
        } else {
            0
        };
        let db = if i < b.len() {
            b[i]
        } else {
            0
        };
        let d = da + db + carry;
        let ghost p = pow10(i as nat);
        proof {
            lemma_mant_low_step(a@, i as int);
            lemma_mant_low_step(b@, i as int);
            lemma_mant_push(r@, d % 10);
            assert(pow10((i + 1) as nat) == 10 * p);
            assert((d / 10) * (10 * p) == (10 * (d / 10)) * p) by (nonlinear_arith);
            assert((d % 10) * p + (10 * (d / 10)) * p == ((d % 10) + 10 * (d / 10)) * p)
                by (nonlinear_arith);
            assert((d % 10) + 10 * (d / 10) == d);
            assert(d * p == (da + db + carry) * p);
            assert((da + db + carry) * p == da * p + db * p + carry * p) by (nonlinear_arith);
            assert(digit_at(a@, i as int) == da);
            assert(digit_at(b@, i as int) == db);
        }
        r.push(d % 10);
        carry = d / 10;
        i += 1;
    }
    proof {
        lemma_mant_low_end(a@, i as int);
        lemma_mant_low_end(b@, i as int);
    }
    if carry > 0 {
        proof {
            lemma_mant_push(r@, carry);
        }
        r.push(carry);
    } else {
        proof {
            assert(carry * pow10(i as nat) == 0) by (nonlinear_arith)
                requires
                    carry == 0,
            ;
        }
    }
    r
}

/// Digit-wise magnitude subtraction with borrow; the subtrahend must not
/// exceed the minuend.
#[verifier::loop_isolation(false)]
fn mag_sub(a: &Vec<u8>, b: &Vec<u8>) -> (r: Vec<u8>)
    requires
        all_digits(a@),
        all_digits(b@),
        mant(b@) <= mant(a@),
    ensures
        all_digits(r@),
        mant(r@) == mant(a@) - mant(b@),
        r@.len() >= a@.len(),
        r@.len() >= b@.len(),
{
    let n = if a.len() >= b.len() {
        a.len()
    } else {
        b.len()
    };
    let mut r: Vec<u8> = Vec::new();
    let mut borrow: u8 = 0;
    let mut i: usize = 0;
    while i < n
        invariant
            i <= n,
            n >= a@.len(),
            n >= b@.len(),
            borrow <= 1,
            r@.len() == i,
            all_digits(r@),
            mant(r@) as int == mant_low(a@, i as int) - mant_low(b@, i as int) + (
            borrow as int) * pow10(i as nat),
        decreases n - i,
    {
        let da: i16 = if i < a.len() {
            a[i] as i16
        } else {
            0
        };
        let db: i16 = if i < b.len() {
            b[i] as i16
        } else {
            0
        };
        let t: i16 = da - db - (borrow as i16);
        let (x, nb): (u8, u8) = if t < 0 {
            ((t + 10) as u8, 1)
        } else {
            (t as u8, 0)
        };
        let ghost p = pow10(i as nat);
        proof {
            lemma_mant_low_step(a@, i as int);
            lemma_mant_low_step(b@, i as int);
            lemma_mant_push(r@, x);
            assert(pow10((i + 1) as nat) == 10 * p);
            assert(digit_at(a@, i as int) == da);
            assert(digit_at(b@, i as int) == db);
            assert(x == da - db - borrow + 10 * nb);
            assert((x as int) * p == (da - db - borrow + 10 * (nb as int)) * p);
            assert((da - db - borrow + 10 * (nb as int)) * p == da * p - db * p - (borrow as int)
                * p + (nb as int) * (10 * p)) by (nonlinear_arith);
        }
        r.push(x);
        borrow = nb;
        i += 1;
    }
    proof {
        lemma_mant_low_end(a@, i as int);
        lemma_mant_low_end(b@, i as int);
        if borrow != 0 {
            lemma_mant_bound(r@);
            assert(r@.len() == n);
            assert(mant(r@) < pow10(n as nat));
            assert(mant(r@) as int == mant(a@) - mant(b@) + 1 * pow10(n as nat));
            assert(1 * pow10(n as nat) == pow10(n as nat)) by (nonlinear_arith);
            assert(false);
        }
        assert((0int) * pow10(n as nat) == 0) by (nonlinear_arith);
    }
    r
}


impl Decimal {
    /// Three-way comparison of the represented numbers, across scales.
    pub fn cmp_value(&self, other: &Decimal) -> (r: i8)
        requires
            self.wf(),
            other.wf(),
            self@.digits.len() + other@.scale <= usize::MAX,
            other@.digits.len() + self@.scale <= usize::MAX,
        ensures
            r == -1 || r == 0 || r == 1,
            (r == -1) <==> ival(self@) * pow10(other@.scale) < ival(other@) * pow10(self@.scale),
            (r == 0) <==> same_value(self@, other@),
            (r == 1) <==> ival(self@) * pow10(other@.scale) > ival(other@) * pow10(self@.scale),
    {
        let ghost la = ival(self@) * pow10(other@.scale);
        let ghost lb = ival(other@) * pow10(self@.scale);
        let ghost ma = mant(self@.digits);
        let ghost mb = mant(other@.digits);
        let ghost pa = pow10(other@.scale);
        let ghost pb = pow10(self@.scale);
        if self.neg != other.neg {
            proof {
                lemma_pow10_pos(self@.scale);
                lemma_pow10_pos(other@.scale);
                if self.neg {
                    assert(la < 0) by (nonlinear_arith)
                        requires
                            la == ival(self@) * pow10(other@.scale),
                            ival(self@) < 0,
                            pow10(other@.scale) >= 1,
                    ;
                    assert(lb >= 0) by (nonlinear_arith)
                        requires
                            lb == ival(other@) * pow10(self@.scale),
                            ival(other@) >= 0,
                            pow10(self@.scale) >= 1,
                    ;
                } else {
                    assert(lb < 0) by (nonlinear_arith)
                        requires
                            lb == ival(other@) * pow10(self@.scale),
                            ival(other@) < 0,
                            pow10(self@.scale) >= 1,
                    ;
                    assert(la >= 0) by (nonlinear_arith)
                        requires
                            la == ival(self@) * pow10(other@.scale),
                            ival(self@) >= 0,
                            pow10(other@.scale) >= 1,
                    ;
                }
            }
            if self.neg {
                -1
            } else {
                1
            }
        } else {
            let da = shift(&self.digits, other.scale);
            let db = shift(&other.digits, self.scale);
            let c = mag_cmp(&da, &db);
            proof {
                assert(mant(da@) == pa * ma);
                assert(mant(db@) == pb * mb);
                assert(pa * ma == ma * pa) by (nonlinear_arith);
                assert(pb * mb == mb * pb) by (nonlinear_arith);
                if self.neg {
                    assert(la == (-(ma as int)) * pa);
                    assert((-(ma as int)) * pa == -(ma as int * pa)) by (nonlinear_arith);
                    assert(lb == (-(mb as int)) * pb);
                    assert((-(mb as int)) * pb == -(mb as int * pb)) by (nonlinear_arith);
                    assert(ma as int * pa == (ma * pa) as int) by (nonlinear_arith);
                    assert(mb as int * pb == (mb * pb) as int) by (nonlinear_arith);
                } else {
                    assert(la == ma as int * pa);
                    assert(lb == mb as int * pb);
                    assert(ma as int * pa == (ma * pa) as int) by (nonlinear_arith);
                    assert(mb as int * pb == (mb * pb) as int) by (nonlinear_arith);
                }
            }
            if self.neg {
                if c == -1 {
                    1
                } else if c == 1 {
                    -1
                } else {
                    0
                }
            } else {
                c
            }
        }
    }

    /// The two decimals represent the same number.
    pub fn eq_value(&self, other: &Decimal) -> (r: bool)
        requires
            self.wf(),
            other.wf(),
            self@.digits.len() + other@.scale <= usize::MAX,
            other@.digits.len() + self@.scale <= usize::MAX,
        ensures
            r <==> same_value(self@, other@),
    {
        self.cmp_value(other) == 0
    }

    /// This decimal represents a strictly smaller number than `other`.
    pub fn lt_value(&self, other: &Decimal) -> (r: bool)
        requires
            self.wf(),
            other.wf(),
            self@.digits.len() + other@.scale <= usize::MAX,
            other@.digits.len() + self@.scale <= usize::MAX,
        ensures
            r <==> ival(self@) * pow10(other@.scale) < ival(other@) * pow10(self@.scale),
    {
        self.cmp_value(other) == -1
    }

    /// The additive inverse, at the same scale.
    pub fn neg_value(&self) -> (r: Decimal)
        requires
            self.wf(),
        ensures
            r.wf(),
            r@.scale == self@.scale,
            r@.digits == self@.digits,
            ival(r@) == -ival(self@),
    {
        let mut i: usize = 0;
        let mut allz = true;
        #[verifier::loop_isolation(false)]
        while i < self.digits.len()
            invariant
                i <= self.digits@.len(),
                allz == (forall|t: int| 0 <= t < i ==> self.digits@[t] == 0),
            decreases self.digits@.len() - i,
        {
            if self.digits[i] != 0 {
                allz = false;
            }
            i += 1;
        }
        proof {
            lemma_mant_zero(self@.digits);
        }
        Decimal { digits: copy_digits(&self.digits), scale: self.scale, neg: !self.neg && !allz }
    }

    /// Exact sum. The result's scale is the larger operand scale, and the
    /// stated equation fixes the represented number exactly.
    pub fn add(&self, other: &Decimal) -> (r: Decimal)
        requires
            self.wf(),
            other.wf(),
            self@.digits.len() + other@.scale <= usize::MAX - 1,
            other@.digits.len() + self@.scale <= usize::MAX - 1,
        ensures
            r.wf(),
            r@.scale == scale_max(self@.scale, other@.scale),
            ival(r@) == ival(self@) * pow10((r@.scale - self@.scale) as nat) + ival(other@)
                * pow10((r@.scale - other@.scale) as nat),
    {
        let s: usize = if self.scale >= other.scale {
            self.scale
        } else {
            other.scale
        };
        let ka = s - self.scale;
        let kb = s - other.scale;
        let da = shift(&self.digits, ka);
        let db = shift(&other.digits, kb);
        let ghost aa = pow10(ka as nat) * mant(self@.digits);
        let ghost bb = pow10(kb as nat) * mant(other@.digits);
        proof {
            assert(da@.len() > s);
            assert(db@.len() > s);
            assert(pow10(ka as nat) * mant(self@.digits) == mant(self@.digits) * pow10(
                ka as nat,
            )) by (nonlinear_arith);
            assert(pow10(kb as nat) * mant(other@.digits) == mant(other@.digits) * pow10(
                kb as nat,
            )) by (nonlinear_arith);
            assert((-(mant(self@.digits) as int)) * pow10(ka as nat) == -(mant(self@.digits) as int
                * pow10(ka as nat))) by (nonlinear_arith);
            assert((-(mant(other@.digits) as int)) * pow10(kb as nat) == -(mant(
                other@.digits,
            ) as int * pow10(kb as nat))) by (nonlinear_arith);
            assert(mant(self@.digits) as int * pow10(ka as nat) == (mant(self@.digits) * pow10(
                ka as nat,
            )) as int) by (nonlinear_arith);
            assert(mant(other@.digits) as int * pow10(kb as nat) == (mant(other@.digits) * pow10(
                kb as nat,
            )) as int) by (nonlinear_arith);
        }
        if self.neg == other.neg {
            let sum = mag_add(&da, &db);
            normalized(sum, s, self.neg)
        } else {
            let c = mag_cmp(&da, &db);
            if c >= 0 {
                let diff = mag_sub(&da, &db);
                normalized(diff, s, self.neg)
            } else {
                let diff = mag_sub(&db, &da);
                normalized(diff, s, other.neg)
            }
        }
    }

    /// Exact difference, as [`Decimal::add`] of the negated second operand.
    pub fn sub(&self, other: &Decimal) -> (r: Decimal)
        requires
            self.wf(),
            other.wf(),
            self@.digits.len() + other@.scale <= usize::MAX - 1,
            other@.digits.len() + self@.scale <= usize::MAX - 1,
        ensures
            r.wf(),
            r@.scale == scale_max(self@.scale, other@.scale),
            ival(r@) == ival(self@) * pow10((r@.scale - self@.scale) as nat) - ival(other@)
                * pow10((r@.scale - other@.scale) as nat),
    {
        let n = other.neg_value();
        let r = self.add(&n);
        proof {
            assert((-ival(other@)) * pow10((r@.scale - other@.scale) as nat) == -(ival(other@)
                * pow10((r@.scale - other@.scale) as nat))) by (nonlinear_arith);
        }
        r
    }
}

/// The integer part of a model: the mantissa digits above the scale.
pub open spec fn int_part(m: DecModel) -> nat {
    mant(m.digits.skip(m.scale as int))
}

proof fn lemma_pow10_20()
    ensures
        pow10(20) == 0x5_6bc7_5e2d_6310_0000,
{
    assert(pow10(0) == 1);
    assert(pow10(1) == 10);
    assert(pow10(2) == 100);
    assert(pow10(3) == 1000);
    assert(pow10(4) == 10000);
    assert(pow10(5) == 100000);
    assert(pow10(6) == 1000000);
    assert(pow10(7) == 10000000);
    assert(pow10(8) == 100000000);
    assert(pow10(9) == 1000000000);
    assert(pow10(10) == 10000000000);
    assert(pow10(11) == 100000000000);
    assert(pow10(12) == 1000000000000);
    assert(pow10(13) == 10000000000000);
    assert(pow10(14) == 100000000000000);
    assert(pow10(15) == 1000000000000000);
    assert(pow10(16) == 10000000000000000);
    assert(pow10(17) == 100000000000000000);
    assert(pow10(18) == 1000000000000000000);
    assert(pow10(19) == 10000000000000000000);
    assert(pow10(20) == 100000000000000000000);
}

impl Decimal {
    /// The integer part (truncation toward zero) as a `u64`; `None` for
    /// negative values and for integer parts that do not fit.
    #[verifier::loop_isolation(false)]
    pub fn to_u64(&self) -> (r: Option<u64>)
        requires
            self.wf(),
        ensures
            self@.neg ==> r is None,
            !self@.neg && int_part(self@) <= u64::MAX ==> r == Some(int_part(self@) as u64),
            !self@.neg && int_part(self@) > u64::MAX ==> r is None,
    {
        if self.neg {
            return None;
        }
        let ghost ip = self@.digits.skip(self@.scale as int);
        if self.digits.len() - self.scale > 20 {
            proof {
                assert(ip.last() == self@.digits.last());
                lemma_mant_lower(ip);
                lemma_pow10_mono(20, (ip.len() - 1) as nat);
                lemma_pow10_20();
            }
            return None;
        }
        let mut acc: u128 = 0;
        let mut i = self.digits.len();
        proof {
            lemma_pow10_20();
            lemma_pow10_mono((self@.digits.len() - i) as nat, 20);
        }
        while i > self.scale
            invariant
                self@.scale <= i <= self@.digits.len(),
                acc == mant_from(self@.digits, i as int),
                acc < pow10((self@.digits.len() - i) as nat),
                pow10((self@.digits.len() - i) as nat) <= pow10(20),
        decreases i,
        {
            i = i - 1;
            let d = self.digits[i];
            proof {
                lemma_mant_from_unfold(self@.digits, i as int);
                lemma_mant_bound(self@.digits.skip(i as int));
                lemma_mant_from_skip(self@.digits, i as int);
                lemma_pow10_mono((self@.digits.len() - i) as nat, 20);
                lemma_pow10_20();
            }
            acc = acc * 10 + (d as u128);
        }
        proof {
            lemma_mant_from_skip(self@.digits, self@.scale as int);
        }
        if acc <= 0xffff_ffff_ffff_ffff {
            Some(acc as u64)
        } else {
            None
        }
    }
}

/// The ten decimal digit characters.
pub open spec fn is_digit_char(c: char) -> bool {
    c == '0' || c == '1' || c == '2' || c == '3' || c == '4' || c == '5' || c == '6' || c == '7'
        || c == '8' || c == '9'
}

/// Digit value of a character; ten marks a non-digit.
pub open spec fn digit_val(c: char) -> u8 {
    if c == '0' {
        0
    } else if c == '1' {
        1
    } else if c == '2' {
        2
    } else if c == '3' {
        3
    } else if c == '4' {
        4
    } else if c == '5' {
        5
    } else if c == '6' {
        6
    } else if c == '7' {
        7
    } else if c == '8' {
        8
    } else if c == '9' {
        9
    } else {
        10
    }
}

/// Character for a digit value; values past nine give `'9'`.
pub open spec fn digit_char(d: u8) -> char {
    if d == 0 {
        '0'
    } else if d == 1 {
        '1'
    } else if d == 2 {
        '2'
    } else if d == 3 {
        '3'
    } else if d == 4 {
        '4'
    } else if d == 5 {
        '5'
    } else if d == 6 {
        '6'
    } else if d == 7 {
        '7'
    } else if d == 8 {
        '8'
    } else {
        '9'
    }
}

pub(crate) fn digit_of(c: char) -> (r: u8)
    ensures
        r == digit_val(c),
        (r < 10) == is_digit_char(c),
{
    if c == '0' {
        0
    } else if c == '1' {
        1
    } else if c == '2' {
        2
    } else if c == '3' {
        3
    } else if c == '4' {
        4
    } else if c == '5' {
        5
    } else if c == '6' {
        6
    } else if c == '7' {
        7
    } else if c == '8' {
        8
    } else if c == '9' {
        9
    } else {
        10
    }
}

fn char_of(d: u8) -> (r: char)
    requires
        d < 10,
    ensures
        r == digit_char(d),
{
    if d == 0 {
        '0'
    } else if d == 1 {
        '1'
    } else if d == 2 {
        '2'
    } else if d == 3 {
        '3'
    } else if d == 4 {
        '4'
    } else if d == 5 {
        '5'
    } else if d == 6 {
        '6'
    } else if d == 7 {
        '7'
    } else if d == 8 {
        '8'
    } else {
        '9'
    }
}

/// End of the run of digit characters starting at `i`.
pub open spec fn digits_end(s: Seq<char>, i: int) -> int
    decreases s.len() - i,
{
    if 0 <= i < s.len() && is_digit_char(s[i]) {
        digits_end(s, i + 1)
    } else {
        i
    }
}

pub proof fn lemma_digits_end_range(s: Seq<char>, i: int)
    requires
        0 <= i <= s.len(),
    ensures
        i <= digits_end(s, i) <= s.len(),
        forall|t: int| i <= t < digits_end(s, i) ==> is_digit_char(s[t]),
        digits_end(s, i) == s.len() || !is_digit_char(s[digits_end(s, i)]),
    decreases s.len() - i,
{
    if i < s.len() && is_digit_char(s[i]) {
        lemma_digits_end_range(s, i + 1);
    }
}

pub proof fn lemma_digits_end_run(s: Seq<char>, from: int, e: int)
    requires
        0 <= from <= e <= s.len(),
        forall|t: int| from <= t < e ==> is_digit_char(s[t]),
        e == s.len() || !is_digit_char(s[e]),
    ensures
        digits_end(s, from) == e,
    decreases e - from,
{
    if from == e {
    } else {
        assert(is_digit_char(s[from]));
        lemma_digits_end_run(s, from + 1, e);
    }
}

/// Digit values of a most-significant-first digit-character run, as
/// little-endian mantissa digits.
pub open spec fn digits_of(s: Seq<char>) -> Seq<u8> {
    s.reverse().map_values(|c: char| digit_val(c))
}

/// Characters of little-endian mantissa digits, most significant first.
pub open spec fn chars_of_digits(d: Seq<u8>) -> Seq<char> {
    d.reverse().map_values(|x: u8| digit_char(x))
}

/// One number token: an optional minus sign, an integer digit run, and an
/// optional dot-separated fractional digit run. Returns the canonical
/// model and the index just past the token.
pub open spec fn spec_parse_number(s: Seq<char>, i: int) -> Option<(DecModel, int)> {
    let neg = i < s.len() && s[i] == '-';
    let j = if neg {
        i + 1
    } else {
        i
    };
    let k = digits_end(s, j);
    if k == j {
        None
    } else if k < s.len() && s[k] == '.' {
        let l = digits_end(s, k + 1);
        if l == k + 1 {
            None
        } else {
            Some(
                (
                    norm_model(
                        digits_of(s.subrange(j, k) + s.subrange(k + 1, l)),
                        (l - k - 1) as nat,
                        neg,
                    ),
                    l,
                ),
            )
        }
    } else {
        Some((norm_model(digits_of(s.subrange(j, k)), 0, neg), k))
    }
}

/// A whole string holding exactly one number token.
pub open spec fn spec_parse_decimal(s: Seq<char>) -> Option<DecModel> {
    match spec_parse_number(s, 0) {
        Some((m, end)) => if end == s.len() {
            Some(m)
        } else {
            None
        },
        None => None,
    }
}

/// Canonical text of a model: sign, integer digits, then the fractional
/// digits after a dot whenever the scale is positive.
pub open spec fn spec_encode(m: DecModel) -> Seq<char> {
    let sign: Seq<char> = if m.neg {
        seq!['-']
    } else {
        Seq::<char>::empty()
    };
    let ip = chars_of_digits(m.digits.skip(m.scale as int));
    if m.scale == 0 {
        sign + ip
    } else {
        sign + ip + seq!['.'] + chars_of_digits(m.digits.take(m.scale as int))
    }
}

/// Scan a run of digit characters, returning their values in
/// most-significant-first order and the index just past the run.
#[verifier::loop_isolation(false)]
fn scan_digits(s: &str, from: usize) -> (r: (Vec<u8>, usize))
    requires
        from <= s@.len(),
    ensures
        r.1 == digits_end(s@, from as int),
        from <= r.1 <= s@.len(),
        r.0@ == s@.subrange(from as int, r.1 as int).map_values(|c: char| digit_val(c)),
        all_digits(r.0@),
{
    let n = s.unicode_len();
    let mut j = from;
    let mut out: Vec<u8> = Vec::new();
    let mut more = if j < n {
        digit_of(s.get_char(j)) < 10
    } else {
        false
    };
    while more
        invariant
            from <= j <= n,
            digits_end(s@, from as int) == digits_end(s@, j as int),
            out@ == s@.subrange(from as int, j as int).map_values(|c: char| digit_val(c)),
            all_digits(out@),
            more == (j < s@.len() && is_digit_char(s@[j as int])),
        decreases n - j,
    {
        let d = digit_of(s.get_char(j));
        out.push(d);
        proof {
            assert(out@ =~= s@.subrange(from as int, j + 1).map_values(|c: char| digit_val(c)));
        }
        j += 1;
        more = if j < n {
            digit_of(s.get_char(j)) < 10
        } else {
            false
        };
    }
    (out, j)
}

/// Parse one number token starting at `from`, exactly as
/// [`spec_parse_number`] reads it.
#[verifier::loop_isolation(false)]
#[verifier::rlimit(60)]
pub fn parse_number(s: &str, from: usize) -> (r: Option<(Decimal, usize)>)
    requires
        from <= s@.len(),
    ensures
        match r {
            Some(p) => spec_parse_number(s@, from as int) == Some((p.0@, p.1 as int)) && p.0.wf()
                && from < p.1 <= s@.len(),
            None => spec_parse_number(s@, from as int) is None,
        },
{
    let n = s.unicode_len();
    let mut j = from;
    let mut neg = false;
    if j < n && s.get_char(j) == '-' {
        neg = true;
        j += 1;
    }
    let (ipart, k) = scan_digits(s, j);
    if k == j {
        return None;
    }
    let mut msb = ipart;
    let mut scale: usize = 0;
    let mut end = k;
    if k < n && s.get_char(k) == '.' {
        let (mut fpart, l) = scan_digits(s, k + 1);
        if l == k + 1 {
            return None;
        }
        scale = l - (k + 1);
        msb.append(&mut fpart);
        end = l;
        proof {
            assert(msb@ =~= (s@.subrange(j as int, k as int) + s@.subrange(
                k + 1,
                l as int,
            )).map_values(|c: char| digit_val(c)));
        }
    } else {
        proof {
            assert(msb@ =~= s@.subrange(j as int, k as int).map_values(|c: char| digit_val(c)));
        }
    }
    let ghost src = if scale > 0 {
        s@.subrange(j as int, k as int) + s@.subrange(k + 1, end as int)
    } else {
        s@.subrange(j as int, k as int)
    };
    let mut le: Vec<u8> = Vec::new();
    let mut t = msb.len();
    while t > 0
        invariant
            t <= msb@.len(),
            le@ == msb@.subrange(t as int, msb@.len() as int).reverse(),
            all_digits(msb@),
        decreases t,
    {
        t -= 1;
        le.push(msb[t]);
        proof {
            assert(le@ =~= msb@.subrange(t as int, msb@.len() as int).reverse());
        }
    }
    proof {
        assert(le@ =~= msb@.reverse());
        assert(le@ =~= digits_of(src)) by {
            assert(msb@ == src.map_values(|c: char| digit_val(c)));
            assert(msb@.reverse() =~= src.reverse().map_values(|c: char| digit_val(c)));
        }
        assert(all_digits(le@));
        assert(le@.len() == msb@.len());
        assert(le@.len() > scale);
    }
    let d = normalized(le, scale, neg);
    Some((d, end))
}

/// Parse a whole string as one decimal number, exactly as
/// [`spec_parse_decimal`] reads it.
pub fn parse_decimal(s: &str) -> (r: Option<Decimal>)
    ensures
        match r {
            Some(d) => spec_parse_decimal(s@) == Some(d@) && d.wf(),
            None => spec_parse_decimal(s@) is None,
        },
{
    let n = s.unicode_len();
    match parse_number(s, 0) {
        Some(p) => {
            if p.1 == n {
                Some(p.0)
            } else {
                None
            }
        },
        None => None,
    }
}

impl Decimal {
    /// Canonical text of this decimal, exactly [`spec_encode`] of its model.
    #[verifier::loop_isolation(false)]
    pub fn encode(&self) -> (r: String)
        requires
            self.wf(),
        ensures
            r@ == spec_encode(self@),
    {
        let ghost sign: Seq<char> = if self.neg {
            seq!['-']
        } else {
            Seq::<char>::empty()
        };
        let mut out: Vec<char> = Vec::new();
        if self.neg {
            out.push('-');
        }
        proof {
            assert(self@.digits.skip(self@.digits.len() as int) =~= Seq::<u8>::empty());
            assert(chars_of_digits(Seq::<u8>::empty()) =~= Seq::<char>::empty());
            assert(out@ =~= sign + chars_of_digits(self@.digits.skip(self@.digits.len() as int)));
        }
        let mut i = self.digits.len();
        while i > self.scale
            invariant
                self@.scale <= i <= self@.digits.len(),
                out@ == sign + chars_of_digits(self@.digits.skip(i as int)),
            decreases i,
        {
            i -= 1;
            out.push(char_of(self.digits[i]));
            proof {
                assert(self@.digits.skip(i as int).reverse() =~= self@.digits.skip(
                    i + 1,
                ).reverse().push(self@.digits[i as int]));
                assert(chars_of_digits(self@.digits.skip(i as int)) =~= chars_of_digits(
                    self@.digits.skip(i + 1),
                ).push(digit_char(self@.digits[i as int])));
                assert(out@ =~= sign + chars_of_digits(self@.digits.skip(i as int)));
            }
        }
        let ghost ip = chars_of_digits(self@.digits.skip(self@.scale as int));
        if self.scale > 0 {
            out.push('.');
            proof {
                assert(self@.digits.subrange(self@.scale as int, self@.scale as int)
                    =~= Seq::<u8>::empty());
                assert(chars_of_digits(Seq::<u8>::empty()) =~= Seq::<char>::empty());
                assert(out@ =~= sign + ip + seq!['.'] + chars_of_digits(
                    self@.digits.subrange(self@.scale as int, self@.scale as int),
                ));
            }
            let mut t = self.scale;
            while t > 0
                invariant
                    t <= self@.scale,
                    out@ == sign + ip + seq!['.'] + chars_of_digits(
                        self@.digits.subrange(t as int, self@.scale as int),
                    ),
                decreases t,
            {
                t -= 1;
                out.push(char_of(self.digits[t]));
                proof {
                    assert(self@.digits.subrange(t as int, self@.scale as int).reverse()
                        =~= self@.digits.subrange(t + 1, self@.scale as int).reverse().push(
                        self@.digits[t as int],
                    ));
                    assert(chars_of_digits(self@.digits.subrange(t as int, self@.scale as int))
                        =~= chars_of_digits(self@.digits.subrange(t + 1, self@.scale as int)).push(
                        digit_char(self@.digits[t as int]),
                    ));
                    assert(out@ =~= sign + ip + seq!['.'] + chars_of_digits(
                        self@.digits.subrange(t as int, self@.scale as int),
                    ));
                }
            }
            proof {
                assert(self@.digits.subrange(0, self@.scale as int) =~= self@.digits.take(
                    self@.scale as int,
                ));
            }
        }
        chars_to_string(&out)
    }
}

/// Relies on `String`'s `FromIterator` over `char`: collecting characters
/// yields exactly that character sequence.
#[verifier::external_body]
pub(crate) fn chars_to_string(v: &Vec<char>) -> (s: String)
    ensures
        s@ == v@,
{
    v.iter().collect()
}


proof fn lemma_strip_props(d: Seq<u8>, scale: nat)
    requires
        all_digits(d),
        d.len() > scale,
    ensures
        all_digits(strip_hi(d, scale)),
        scale < strip_hi(d, scale).len() <= d.len(),
        mant(strip_hi(d, scale)) == mant(d),
        strip_hi(d, scale).len() > scale + 1 ==> strip_hi(d, scale).last() != 0,
    decreases d.len(),
{
    if d.len() > scale + 1 && d.last() == 0 {
        lemma_mant_drop_last_zero(d);
        assert(all_digits(d.drop_last()));
        lemma_strip_props(d.drop_last(), scale);
    }
}

/// Canonicalizing raw digit parts always yields a well-formed model with
/// the same mantissa value.
pub proof fn lemma_norm_wf(digits: Seq<u8>, scale: nat, neg: bool)
    requires
        all_digits(digits),
        digits.len() > scale,
    ensures
        dec_wf(norm_model(digits, scale, neg)),
        mant(norm_model(digits, scale, neg).digits) == mant(digits),
{
    lemma_strip_props(digits, scale);
}

/// A parsed number token is always a well-formed model ending past its
/// start.
pub proof fn lemma_parse_number_wf(s: Seq<char>, i: int)
    requires
        0 <= i <= s.len(),
    ensures
        spec_parse_number(s, i) matches Some(p) ==> dec_wf(p.0) && i < p.1 <= s.len(),
{
    let neg = i < s.len() && s[i] == '-';
    let j = if neg { i + 1 } else { i };
    lemma_digits_end_range(s, j);
    let k = digits_end(s, j);
    if k != j {
        if k < s.len() && s[k] == '.' {
            lemma_digits_end_range(s, k + 1);
            let l = digits_end(s, k + 1);
            if l != k + 1 {
                let src = s.subrange(j, k) + s.subrange(k + 1, l);
                let dg = digits_of(src);
                assert forall|t: int| 0 <= t < dg.len() implies dg[t] < 10 by {
                    assert(dg[t] == digit_val(src.reverse()[t]));
                    assert(src.reverse()[t] == src[src.len() - 1 - t]);
                    assert(is_digit_char(src[src.len() - 1 - t]));
                }
                assert(dg.len() == (k - j) + (l - k - 1));
                lemma_norm_wf(dg, (l - k - 1) as nat, neg);
            }
        } else {
            let src = s.subrange(j, k);
            let dg = digits_of(src);
            assert forall|t: int| 0 <= t < dg.len() implies dg[t] < 10 by {
                assert(dg[t] == digit_val(src.reverse()[t]));
                assert(src.reverse()[t] == src[src.len() - 1 - t]);
                assert(is_digit_char(src[src.len() - 1 - t]));
            }
            lemma_norm_wf(dg, 0, neg);
        }
    }
}

proof fn lemma_chars_digits_inverse(d: Seq<u8>)
    requires
        all_digits(d),
    ensures
        digits_of(chars_of_digits(d)) =~= d,
{
    let x = chars_of_digits(d);
    assert(x.len() == d.len());
    assert(digits_of(x).len() == d.len());
    assert forall|t: int| 0 <= t < d.len() implies digits_of(x)[t] == d[t] by {
        assert(digits_of(x)[t] == digit_val(x.reverse()[t]));
        assert(x.reverse()[t] == x[x.len() - 1 - t]);
        assert(x[x.len() - 1 - t] == digit_char(d.reverse()[x.len() - 1 - t]));
        assert(d.reverse()[x.len() - 1 - t] == d[t]);
        assert(d[t] < 10);
    }
}

proof fn lemma_chars_digits_concat_inverse(a: Seq<u8>, b: Seq<u8>)
    requires
        all_digits(a),
        all_digits(b),
    ensures
        digits_of(chars_of_digits(a) + chars_of_digits(b)) =~= b + a,
{
    let ca = chars_of_digits(a);
    let cb = chars_of_digits(b);
    let x = ca + cb;
    let al = a.len() as int;
    let bl = b.len() as int;
    assert(x.len() == al + bl);
    assert forall|t: int| 0 <= t < bl + al implies digits_of(x)[t] == (b + a)[t] by {
        assert(digits_of(x)[t] == digit_val(x.reverse()[t]));
        assert(x.reverse()[t] == x[x.len() - 1 - t]);
        if t < bl {
            assert(x[al + bl - 1 - t] == cb[bl - 1 - t]);
            assert(cb[bl - 1 - t] == digit_char(b.reverse()[bl - 1 - t]));
            assert(b.reverse()[bl - 1 - t] == b[t]);
            assert(b[t] < 10);
        } else {
            assert(x[al + bl - 1 - t] == ca[al + bl - 1 - t]);
            assert(ca[al + bl - 1 - t] == digit_char(a.reverse()[al + bl - 1 - t]));
            assert(a.reverse()[al + bl - 1 - t] == a[t - bl]);
            assert(a[t - bl] < 10);
        }
    }
}

proof fn lemma_encode_parses_back(m: DecModel)
    requires
        dec_wf(m),
    ensures
        spec_parse_decimal(spec_encode(m)) == Some(m),
{
    let e = spec_encode(m);
    let sign: Seq<char> = if m.neg { seq!['-'] } else { Seq::<char>::empty() };
    let sl = sign.len() as int;
    let ipd = m.digits.skip(m.scale as int);
    let fpd = m.digits.take(m.scale as int);
    let ip = chars_of_digits(ipd);
    let fp = chars_of_digits(fpd);
    assert(ipd.len() >= 1);
    assert forall|t: int| 0 <= t < ip.len() implies is_digit_char(ip[t]) by {
        assert(ip[t] == digit_char(ipd.reverse()[t]));
        assert(ipd.reverse()[t] == ipd[ipd.len() - 1 - t]);
        assert(ipd[ipd.len() - 1 - t] < 10);
    }
    assert forall|t: int| 0 <= t < fp.len() implies is_digit_char(fp[t]) by {
        assert(fp[t] == digit_char(fpd.reverse()[t]));
        assert(fpd.reverse()[t] == fpd[fpd.len() - 1 - t]);
        assert(fpd[fpd.len() - 1 - t] < 10);
    }
    if m.neg {
        assert(e[0] == '-');
    } else {
        assert(e[0] == ip[0]);
        assert(is_digit_char(e[0]));
        assert(e[0] != '-');
    }
    let neg0 = 0 < e.len() && e[0] == '-';
    assert(neg0 == m.neg);
    let j = if neg0 { 1int } else { 0int };
    assert(j == sl);
    let k0 = j + ip.len() as int;
    assert forall|t: int| j <= t < k0 implies is_digit_char(e[t]) by {
        assert(e[t] == ip[t - j]);
    }
    // strip is the identity on well-formed digits
    assert(strip_hi(m.digits, m.scale) == m.digits);
    if m.scale == 0 {
        assert(k0 == e.len());
        lemma_digits_end_run(e, j, k0);
        assert(e.subrange(j, k0) =~= ip);
        lemma_chars_digits_inverse(ipd);
        assert(ipd =~= m.digits);
        assert(digits_of(ip) == ipd);
        let mm = norm_model(m.digits, 0, m.neg);
        assert(mm =~= m);
        assert(spec_parse_number(e, 0) == Some((m, e.len() as int)));
    } else {
        assert(e[k0] == '.');
        assert(!is_digit_char('.'));
        lemma_digits_end_run(e, j, k0);
        let k1 = k0 + 1;
        let l = k1 + fp.len() as int;
        assert(l == e.len());
        assert forall|t: int| k1 <= t < l implies is_digit_char(e[t]) by {
            assert(e[t] == fp[t - k1]);
        }
        lemma_digits_end_run(e, k1, l);
        assert(fp.len() == m.scale);
        assert(l > k1);
        assert(e.subrange(j, k0) =~= ip);
        assert(e.subrange(k1, l) =~= fp);
        lemma_chars_digits_concat_inverse(ipd, fpd);
        assert(digits_of(ip + fp) =~= fpd + ipd);
        assert(fpd + ipd =~= m.digits);
        let mm = norm_model(m.digits, m.scale, m.neg);
        assert(mm =~= m);
        assert((l - k0 - 1) as nat == m.scale);
        assert(spec_parse_number(e, 0) == Some((m, l)));
    }
}

/// Law: a decimal decoded from text, once re-encoded and decoded again,
/// is the identical value -- zero, negative and whole-number inputs
/// included.
pub proof fn lemma_decimal_round_trip(s: Seq<char>, m: DecModel)
    requires
        spec_parse_decimal(s) == Some(m),
    ensures
        dec_wf(m),
        spec_parse_decimal(spec_encode(m)) == Some(m),
{
    lemma_parse_number_wf(s, 0);
    lemma_encode_parses_back(m);
}


impl Decimal {
    /// The number of fractional digits.
    pub fn scale(&self) -> (r: usize)
        ensures
            r == self@.scale,
    {
        self.scale
    }

    /// Whether the represented number is negative.
    pub fn is_negative(&self) -> (r: bool)
        ensures
            r == self@.neg,
    {
        self.neg
    }

    /// Zero in its canonical shape: one zero digit at scale zero.
    pub fn zero_exact() -> (r: Decimal)
        ensures
            r.wf(),
            r@ == (DecModel { neg: false, digits: seq![0u8], scale: 0 }),
            ival(r@) == 0,
    {
        let mut digits: Vec<u8> = Vec::new();
        digits.push(0);
        proof {
            assert(digits@ =~= seq![0u8]);
            lemma_mant_zero(digits@);
            assert(mant(digits@) == 0);
            assert(strip_hi(digits@, 0) == digits@);
        }
        normalized(digits, 0, false)
    }
}

} // verus!
