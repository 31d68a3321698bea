use vstd::prelude::*;

verus! {

// ---------------------------------------------------------------------------
// Digit sequences
// ---------------------------------------------------------------------------

pub open spec fn pow10(n: nat) -> nat
    decreases n,
{
    if n == 0 {
        1
    } else {
        10 * pow10((n - 1) as nat)
    }
}

/// The natural number that a sequence of decimal digit values (each below ten) spells out.
pub open spec fn digits_value(ds: Seq<u8>) -> nat
    decreases ds.len(),
{
    if ds.len() == 0 {
        0
    } else {
        digits_value(ds.drop_last()) * 10 + ds.last() as nat
    }
}

pub open spec fn all_digits(ds: Seq<u8>) -> bool {
    forall|i: int| 0 <= i < ds.len() ==> #[trigger] ds[i] < 10
}

/// The digit values (0..=9) of a run of ASCII digit bytes.
pub open spec fn digit_values(text: Seq<u8>) -> Seq<u8> {
    text.map_values(|b: u8| (b - 48) as u8)
}

pub open spec fn zeros(n: nat) -> Seq<u8> {
    Seq::new(n, |i: int| 0u8)
}

pub proof fn lemma_pow10_pos(n: nat)
    ensures
        pow10(n) >= 1,
    decreases n,
{
    if n > 0 {
        lemma_pow10_pos((n - 1) as nat);
    }
}

pub proof fn lemma_pow10_add(a: nat, b: nat)
    ensures
        pow10(a + b) == pow10(a) * pow10(b),
    decreases b,
{
    if b > 0 {
        let b1 = (b - 1) as nat;
        lemma_pow10_add(a, b1);
        assert(a + b1 == (a + b - 1) as nat);
        let x = pow10(a);
        let y = pow10(b1);
        assert(pow10(a + b) == 10 * (x * y));
        assert(pow10(b) == 10 * y);
        assert(x * (10 * y) == 10 * (x * y)) by (nonlinear_arith);
    } else {
        assert(pow10(a) * 1 == pow10(a));
    }
}

pub proof fn lemma_pow10_mono(a: nat, b: nat)
    requires
        a <= b,
    ensures
        pow10(a) <= pow10(b),
    decreases b,
{
    if a < b {
        lemma_pow10_mono(a, (b - 1) as nat);
    }
}

/// A digit sequence split in two: the value of the front scaled past the back, plus the back.
pub proof fn lemma_digits_split(p: Seq<u8>, q: Seq<u8>)
    ensures
        digits_value(p + q) == digits_value(p) * pow10(q.len()) + digits_value(q),
    decreases q.len(),
{
    if q.len() == 0 {
        assert(p + q =~= p);
        assert(digits_value(q) == 0);
        assert(pow10(0) == 1);
        assert(digits_value(p) * 1 == digits_value(p));
    } else {
        let q1 = q.drop_last();
        lemma_digits_split(p, q1);
        assert((p + q).drop_last() =~= p + q1);
        assert((p + q).last() == q.last());
        let a = digits_value(p);
        let m = pow10(q1.len());
        let v1 = digits_value(q1);
        let d = q.last() as nat;
        assert(pow10(q.len()) == 10 * m);
        assert(digits_value(q) == v1 * 10 + d);
        assert(digits_value(p + q) == digits_value(p + q1) * 10 + d);
        assert(digits_value(p + q1) == a * m + v1);
        assert((a * m + v1) * 10 + d == a * (10 * m) + (v1 * 10 + d)) by (nonlinear_arith);
    }
}

pub proof fn lemma_digits_upper(ds: Seq<u8>)
    requires
        all_digits(ds),
    ensures
        digits_value(ds) < pow10(ds.len()),
    decreases ds.len(),
{
    if ds.len() > 0 {
        let d = ds.drop_last();
        assert(all_digits(d)) by {
            assert forall|i: int| 0 <= i < d.len() implies #[trigger] d[i] < 10 by {
                assert(d[i] == ds[i]);
            }
        }
        lemma_digits_upper(d);
        let v = digits_value(d);
        let m = pow10(d.len());
        assert(ds.last() < 10) by {
            assert(ds[ds.len() - 1] < 10);
        }
        assert(v + 1 <= m);
        assert(v * 10 + 10 <= m * 10) by (nonlinear_arith)
            requires
                v + 1 <= m,
        ;
    }
}

pub proof fn lemma_zeros_value(n: nat)
    ensures
        digits_value(zeros(n)) == 0,
    decreases n,
{
    if n > 0 {
        assert(zeros(n).drop_last() =~= zeros((n - 1) as nat));
        lemma_zeros_value((n - 1) as nat);
    }
}

/// A nonempty digit sequence without a leading zero is at least ten to its length minus one.
pub proof fn lemma_digits_lower(ds: Seq<u8>)
    requires
        all_digits(ds),
        ds.len() > 0,
        ds[0] != 0,
    ensures
        digits_value(ds) >= pow10((ds.len() - 1) as nat),
{
    let p = ds.subrange(0, 1);
    let q = ds.subrange(1, ds.len() as int);
    assert(p + q =~= ds);
    lemma_digits_split(p, q);
    assert(p.drop_last() =~= Seq::<u8>::empty());
    assert(p.len() == 1 && p.last() == ds[0]);
    assert(digits_value(p.drop_last()) == 0);
    assert(digits_value(p) == ds[0] as nat);
    let m = pow10(q.len());
    assert(ds[0] as nat * m >= m) by (nonlinear_arith)
        requires
            ds[0] as nat >= 1,
    ;
}

/// Digit sequences of equal length that agree before index `i` and differ at `i` compare as
/// their digits at `i` do.
pub proof fn lemma_digits_lex(x: Seq<u8>, y: Seq<u8>, i: int)
    requires
        all_digits(x),
        all_digits(y),
        x.len() == y.len(),
        0 <= i < x.len(),
        x.subrange(0, i) == y.subrange(0, i),
        x[i] < y[i],
    ensures
        digits_value(x) < digits_value(y),
{
    let n = x.len() as int;
    let px = x.subrange(0, i + 1);
    let py = y.subrange(0, i + 1);
    let rx = x.subrange(i + 1, n);
    let ry = y.subrange(i + 1, n);
    assert(px + rx =~= x);
    assert(py + ry =~= y);
    lemma_digits_split(px, rx);
    lemma_digits_split(py, ry);
    assert(px.drop_last() =~= x.subrange(0, i));
    assert(py.drop_last() =~= y.subrange(0, i));
    let c = digits_value(x.subrange(0, i));
    assert(digits_value(px) == c * 10 + x[i] as nat);
    assert(digits_value(py) == c * 10 + y[i] as nat);
    assert(all_digits(rx)) by {
        assert forall|k: int| 0 <= k < rx.len() implies #[trigger] rx[k] < 10 by {
            assert(rx[k] == x[i + 1 + k]);
        }
    }
    lemma_digits_upper(rx);
    let m = pow10(rx.len());
    assert(ry.len() == rx.len());
    let a = digits_value(px);
    let b = digits_value(py);
    assert(a + 1 <= b);
    assert(a * m + digits_value(rx) < b * m + digits_value(ry)) by (nonlinear_arith)
        requires
            a + 1 <= b,
            digits_value(rx) < m,
    ;
}

/// Sequences without a leading zero: the shorter one has the smaller value.
pub proof fn lemma_digits_shorter(x: Seq<u8>, y: Seq<u8>)
    requires
        all_digits(x),
        all_digits(y),
        x.len() < y.len(),
        y[0] != 0,
    ensures
        digits_value(x) < digits_value(y),
{
    lemma_digits_upper(x);
    lemma_digits_lower(y);
    lemma_pow10_mono(x.len(), (y.len() - 1) as nat);
}

// ---------------------------------------------------------------------------
// Decimals
// ---------------------------------------------------------------------------

/// The mathematical content of a [`Decimal`]: a sign, the digit values of the unscaled
/// magnitude, and the number of those digits that lie after the decimal point.
pub struct DecimalV {
    pub negative: bool,
    pub digits: Seq<u8>,
    pub scale: nat,
}

impl DecimalV {
    /// The unscaled signed integer: the value times ten to the scale.
    pub open spec fn unscaled(self) -> int {
        if self.negative {
            -(digits_value(self.digits) as int)
        } else {
            digits_value(self.digits) as int
        }
    }

    /// The value brought to `k` digits after the point (`k` at least the scale), as an integer.
    pub open spec fn at_scale(self, k: nat) -> int {
        self.unscaled() * pow10((k - self.scale) as nat) as int
    }

    /// The canonical form: no leading zero, no trailing zero after the point, and zero is
    /// unsigned with scale zero.
    pub open spec fn canonical(self) -> bool {
        &&& all_digits(self.digits)
        &&& (self.digits.len() > 0 ==> self.digits[0] != 0)
        &&& (self.scale > 0 ==> self.digits.len() > 0 && self.digits.last() != 0)
        &&& (self.digits.len() == 0 ==> !self.negative)
    }
}

pub open spec fn max_nat(a: nat, b: nat) -> nat {
    if a >= b {
        a
    } else {
        b
    }
}

/// Three-way exact comparison of two decimals: -1, 0 or 1 as `a` is below, equal to or above `b`.
pub open spec fn decimal_order(a: DecimalV, b: DecimalV) -> int {
    let k = max_nat(a.scale, b.scale);
    if a.at_scale(k) < b.at_scale(k) {
        -1
    } else if a.at_scale(k) == b.at_scale(k) {
        0
    } else {
        1
    }
}

/// Removes zeros after the point from the end, lowering the scale for each one.
pub open spec fn strip_trailing(ds: Seq<u8>, scale: nat) -> (Seq<u8>, nat)
    decreases ds.len(),
{
    if scale > 0 && ds.len() > 0 && ds.last() == 0 {
        strip_trailing(ds.drop_last(), (scale - 1) as nat)
    } else {
        (ds, scale)
    }
}

/// Removes leading zeros.
pub open spec fn strip_leading(ds: Seq<u8>) -> Seq<u8>
    decreases ds.len(),
{
    if ds.len() > 0 && ds[0] == 0 {
        strip_leading(ds.drop_first())
    } else {
        ds
    }
}

/// The canonical decimal with the given sign, digits and scale.
pub open spec fn canonicalize(negative: bool, ds: Seq<u8>, scale: nat) -> DecimalV {
    let (t, s) = strip_trailing(ds, scale);
    let l = strip_leading(t);
    DecimalV {
        negative: negative && l.len() > 0,
        digits: l,
        scale: if l.len() == 0 {
            0
        } else {
            s
        },
    }
}

/// The decimal written by a numeric literal `-?int.frac`: the optional sign, the integer digits
/// and the fraction digits (ASCII).
pub open spec fn decimal_of_literal(negative: bool, int_part: Seq<u8>, frac_part: Seq<u8>) -> DecimalV {
    canonicalize(negative, digit_values(int_part + frac_part), frac_part.len())
}

/// The decimal whose value is the integer `n`.
pub open spec fn decimal_of_int(n: int) -> DecimalV {
    DecimalV { negative: n < 0, digits: nat_digits(if n < 0 { (-n) as nat } else { n as nat }), scale: 0 }
}

/// The shortest digit sequence of a natural number (empty for zero).
pub open spec fn nat_digits(n: nat) -> Seq<u8>
    decreases n,
{
    if n == 0 {
        Seq::empty()
    } else {
        nat_digits(n / 10).push((n % 10) as u8)
    }
}

/// An exact decimal number, as written in a numeric literal.
///
/// Values are kept in canonical form, so two decimals are equal exactly when their values are.
#[derive(Debug, PartialEq, Eq, Hash)]
pub struct Decimal {
    negative: bool,
    digits: Vec<u8>,
    scale: usize,
}

impl View for Decimal {
    type V = DecimalV;

    closed spec fn view(&self) -> DecimalV {
        DecimalV { negative: self.negative, digits: self.digits@, scale: self.scale as nat }
    }
}

proof fn lemma_strip_trailing(ds: Seq<u8>, scale: nat)
    requires
        all_digits(ds),
    ensures
        all_digits(strip_trailing(ds, scale).0),
        strip_trailing(ds, scale).1 > 0 && strip_trailing(ds, scale).0.len() > 0
            ==> strip_trailing(ds, scale).0.last() != 0,
        strip_trailing(ds, scale).1 <= scale,
        digits_value(ds) == digits_value(strip_trailing(ds, scale).0) * pow10(
            (scale - strip_trailing(ds, scale).1) as nat,
        ),
    decreases ds.len(),
{
    if scale > 0 && ds.len() > 0 && ds.last() == 0 {
        let d = ds.drop_last();
        assert(all_digits(d)) by {
            assert forall|i: int| 0 <= i < d.len() implies #[trigger] d[i] < 10 by {
                assert(d[i] == ds[i]);
            }
        }
        lemma_strip_trailing(d, (scale - 1) as nat);
        let (t, s) = strip_trailing(d, (scale - 1) as nat);
        let k = (scale - 1 - s) as nat;
        assert(digits_value(ds) == digits_value(d) * 10);
        assert(digits_value(d) == digits_value(t) * pow10(k));
        assert((scale - s) as nat == k + 1);
        assert(pow10(k + 1) == 10 * pow10(k));
        assert(digits_value(t) * pow10(k) * 10 == digits_value(t) * (10 * pow10(k)))
            by (nonlinear_arith);
    } else {
        assert(pow10(0) == 1);
        assert(digits_value(ds) * 1 == digits_value(ds));
    }
}

proof fn lemma_strip_leading(ds: Seq<u8>)
    requires
        all_digits(ds),
    ensures
        all_digits(strip_leading(ds)),
        strip_leading(ds).len() > 0 ==> strip_leading(ds)[0] != 0,
        strip_leading(ds).len() > 0 ==> strip_leading(ds).last() == ds.last(),
        strip_leading(ds).len() <= ds.len(),
        digits_value(strip_leading(ds)) == digits_value(ds),
    decreases ds.len(),
{
    if ds.len() > 0 && ds[0] == 0 {
        let d = ds.drop_first();
        assert(all_digits(d)) by {
            assert forall|i: int| 0 <= i < d.len() implies #[trigger] d[i] < 10 by {
                assert(d[i] == ds[i + 1]);
            }
        }
        lemma_strip_leading(d);
        let p = ds.subrange(0, 1);
        assert(p + d =~= ds);
        lemma_digits_split(p, d);
        assert(p.drop_last() =~= Seq::<u8>::empty());
        assert(digits_value(p.drop_last()) == 0);
        assert(p.last() == 0);
        assert(digits_value(p) == 0);
        if d.len() > 0 {
            assert(d.last() == ds.last());
        }
    }
}

/// Canonicalizing keeps the value and gives a canonical decimal.
pub proof fn lemma_canonicalize(negative: bool, ds: Seq<u8>, scale: nat)
    requires
        all_digits(ds),
    ensures
        canonicalize(negative, ds, scale).canonical(),
        canonicalize(negative, ds, scale).unscaled() * pow10(
            (scale - canonicalize(negative, ds, scale).scale) as nat,
        ) == if negative {
            -(digits_value(ds) as int)
        } else {
            digits_value(ds) as int
        },
        canonicalize(negative, ds, scale).scale <= scale,
{
    lemma_strip_trailing(ds, scale);
    let (t, s) = strip_trailing(ds, scale);
    lemma_strip_leading(t);
    let l = strip_leading(t);
    let c = canonicalize(negative, ds, scale);
    if l.len() == 0 {
        assert(digits_value(l) == 0);
        assert(digits_value(t) == 0);
        assert(digits_value(ds) == 0 * pow10((scale - s) as nat));
        assert(c.unscaled() == 0);
        assert(0 * pow10((scale - c.scale) as nat) == 0);
    } else {
        let v = digits_value(t) as int;
        let m = pow10((scale - s) as nat) as int;
        assert(digits_value(ds) as int == v * m);
        if negative {
            assert(-v * m == -(v * m)) by (nonlinear_arith);
        }
    }
}

pub proof fn lemma_nat_digits(n: nat)
    ensures
        all_digits(nat_digits(n)),
        digits_value(nat_digits(n)) == n,
        nat_digits(n).len() > 0 ==> nat_digits(n)[0] != 0,
        nat_digits(n).len() == 0 <==> n == 0,
    decreases n,
{
    if n > 0 {
        lemma_nat_digits(n / 10);
        let d = nat_digits(n / 10);
        let r = nat_digits(n);
        assert(r == d.push((n % 10) as u8));
        assert(r.drop_last() =~= d);
        assert(all_digits(r)) by {
            assert forall|i: int| 0 <= i < r.len() implies #[trigger] r[i] < 10 by {
                if i < d.len() {
                    assert(r[i] == d[i]);
                }
            }
        }
        if d.len() == 0 {
            assert(n / 10 == 0);
            assert(r[0] == (n % 10) as u8);
        } else {
            assert(r[0] == d[0]);
        }
    }
}

pub proof fn lemma_decimal_of_int(n: int)
    ensures
        decimal_of_int(n).canonical(),
        decimal_of_int(n).unscaled() == n,
        decimal_of_int(n).scale == 0,
{
    let m: nat = if n < 0 {
        (-n) as nat
    } else {
        n as nat
    };
    lemma_nat_digits(m);
}

/// The text of a decimal: an optional minus sign, the integer digits, and when the scale is
/// positive a point followed by exactly `scale` fraction digits.
pub open spec fn decimal_text(d: DecimalV) -> Seq<char> {
    let sign = if d.negative {
        seq!['-']
    } else {
        Seq::empty()
    };
    let ds = digit_chars(d.digits);
    let n = ds.len();
    if d.scale == 0 {
        sign + if n == 0 {
            seq!['0']
        } else {
            ds
        }
    } else if n > d.scale {
        sign + ds.take(n - d.scale) + seq!['.'] + ds.skip(n - d.scale)
    } else {
        sign + seq!['0', '.'] + Seq::new((d.scale - n) as nat, |i: int| '0') + ds
    }
}

pub open spec fn digit_chars(ds: Seq<u8>) -> Seq<char> {
    ds.map_values(|d: u8| ((d + 48) as u8) as char)
}

impl Decimal {
    #[verifier::type_invariant]
    spec fn inv(self) -> bool {
        self@.canonical()
    }

    /// Whether the decimal is below zero.
    pub fn is_negative(&self) -> (r: bool)
        ensures
            r == self@.negative,
    {
        self.negative
    }

    /// An exact copy.
    pub fn copy(&self) -> (r: Decimal)
        ensures
            r@ == self@,
    {
        proof {
            use_type_invariant(self);
        }
        Decimal { negative: self.negative, digits: self.digits.clone(), scale: self.scale }
    }

    /// The canonical decimal for sign `negative`, digit values `ds` and `scale` digits after
    /// the point.
    fn canonical_from(negative: bool, ds: Vec<u8>, scale: usize) -> (r: Decimal)
        requires
            all_digits(ds@),
        ensures
            r@ == canonicalize(negative, ds@, scale as nat),
    {
        let mut ds = ds;
        let mut sc = scale;
        let ghost orig = ds@;
        while sc > 0 && ds.len() > 0 && ds[ds.len() - 1] == 0
            invariant
                strip_trailing(ds@, sc as nat) == strip_trailing(orig, scale as nat),
                all_digits(ds@),
            decreases ds.len(),
        {
            let ghost before = ds@;
            ds.pop();
            assert(ds@ == before.drop_last());
            sc = sc - 1;
            assert(all_digits(ds@)) by {
                assert forall|i: int| 0 <= i < ds@.len() implies #[trigger] ds@[i] < 10 by {
                    assert(ds@[i] == before[i]);
                }
            }
        }
        let ghost t = ds@;
        assert(strip_trailing(t, sc as nat) == (t, sc as nat));
        let mut k: usize = 0;
        assert(ds@.subrange(0, ds@.len() as int) =~= t);
        while k < ds.len() && ds[k] == 0
            invariant
                k <= ds.len(),
                strip_leading(ds@.subrange(k as int, ds@.len() as int)) == strip_leading(t),
                ds@ == t,
            decreases ds.len() - k,
        {
            let ghost sub = ds@.subrange(k as int, ds@.len() as int);
            assert(sub.drop_first() =~= ds@.subrange(k + 1, ds@.len() as int));
            k = k + 1;
        }
        let mut out: Vec<u8> = Vec::new();
        let mut j = k;
        while j < ds.len()
            invariant
                k <= j <= ds.len(),
                out@ == ds@.subrange(k as int, j as int),
            decreases ds.len() - j,
        {
            out.push(ds[j]);
            j = j + 1;
        }
        let ghost l = ds@.subrange(k as int, ds@.len() as int);
        assert(out@ =~= l);
        assert(!(l.len() > 0 && l[0] == 0));
        assert(strip_leading(l) == l);
        proof {
            lemma_canonicalize(negative, orig, scale as nat);
        }
        let n = out.len();
        Decimal { negative: negative && n > 0, digits: out, scale: if n == 0 { 0 } else { sc } }
    }

    /// The decimal written by a literal `-?int.frac` whose digit bytes are `bytes[int_start..int_end]`
    /// and `bytes[frac_start..frac_end]`.
    pub fn from_literal(
        negative: bool,
        bytes: &[u8],
        int_start: usize,
        int_end: usize,
        frac_start: usize,
        frac_end: usize,
    ) -> (r: Decimal)
        requires
            int_start <= int_end <= bytes@.len(),
            frac_start <= frac_end <= bytes@.len(),
            forall|i: int| int_start <= i < int_end ==> crate::text::is_digit(#[trigger] bytes@[i]),
            forall|i: int| frac_start <= i < frac_end ==> crate::text::is_digit(#[trigger] bytes@[i]),
        ensures
            r@ == decimal_of_literal(
                negative,
                bytes@.subrange(int_start as int, int_end as int),
                bytes@.subrange(frac_start as int, frac_end as int),
            ),
    {
        let ghost text = bytes@.subrange(int_start as int, int_end as int) + bytes@.subrange(
            frac_start as int,
            frac_end as int,
        );
        let mut ds: Vec<u8> = Vec::new();
        let mut i = int_start;
        while i < int_end
            invariant
                int_start <= i <= int_end <= bytes@.len(),
                forall|q: int| int_start <= q < int_end ==> crate::text::is_digit(#[trigger] bytes@[q]),
                ds@ == digit_values(bytes@.subrange(int_start as int, i as int)),
            decreases int_end - i,
        {
            ds.push(bytes[i] - 48);
            assert(bytes@.subrange(int_start as int, i + 1) =~= bytes@.subrange(int_start as int, i as int).push(bytes@[i as int]));
            i = i + 1;
        }
        let mut j = frac_start;
        while j < frac_end
            invariant
                int_start <= int_end <= bytes@.len(),
                frac_start <= j <= frac_end <= bytes@.len(),
                forall|q: int| frac_start <= q < frac_end ==> crate::text::is_digit(#[trigger] bytes@[q]),
                ds@ == digit_values(bytes@.subrange(int_start as int, int_end as int) + bytes@.subrange(frac_start as int, j as int)),
            decreases frac_end - j,
        {
            ds.push(bytes[j] - 48);
            assert(bytes@.subrange(int_start as int, int_end as int) + bytes@.subrange(frac_start as int, j + 1) =~= (bytes@.subrange(int_start as int, int_end as int) + bytes@.subrange(frac_start as int, j as int)).push(bytes@[j as int]));
            j = j + 1;
        }
        assert(ds@ =~= digit_values(text));
        assert(all_digits(ds@)) by {
            assert forall|q: int| 0 <= q < ds@.len() implies #[trigger] ds@[q] < 10 by {
                if q < int_end - int_start {
                    assert(text[q] == bytes@[int_start + q]);
                } else {
                    assert(text[q] == bytes@[frac_start + q - (int_end - int_start)]);
                }
            }
        }
        Self::canonical_from(negative, ds, frac_end - frac_start)
    }

    /// The decimal whose value is `unscaled` divided by ten to the power `scale`.
    pub fn from_scaled(unscaled: i64, scale: usize) -> (r: Decimal)
        ensures
            r@ == canonicalize(unscaled < 0, decimal_of_int(unscaled as int).digits, scale as nat),
    {
        let d = Self::from_i64(unscaled);
        proof {
            use_type_invariant(&d);
        }
        Self::canonical_from(unscaled < 0, d.digits, scale)
    }

    /// The decimal whose value is the natural number `n`.
    pub fn from_u64(n: u64) -> (r: Decimal)
        ensures
            r@ == decimal_of_int(n as int),
    {
        let mut m = n;
        let mut ds: Vec<u8> = Vec::new();
        while m > 0
            invariant
                nat_digits(n as nat) == nat_digits(m as nat) + ds@,
            decreases m,
        {
            let d = (m % 10) as u8;
            let ghost before = ds@;
            ds.insert(0, d);
            assert(nat_digits(m as nat) == nat_digits((m / 10) as nat).push(d));
            assert(nat_digits((m / 10) as nat) + ds@ =~= nat_digits(m as nat) + before);
            m = m / 10;
        }
        assert(nat_digits(0) =~= Seq::<u8>::empty());
        assert(ds@ =~= nat_digits(n as nat));
        proof {
            lemma_decimal_of_int(n as int);
            lemma_nat_digits(n as nat);
        }
        Decimal { negative: false, digits: ds, scale: 0 }
    }

    /// The decimal whose value is the integer `n`.
    pub fn from_i64(n: i64) -> (r: Decimal)
        ensures
            r@ == decimal_of_int(n as int),
    {
        let mag: u64 = if n < 0 {
            ((-(n + 1)) as u64) + 1
        } else {
            n as u64
        };
        assert(mag as nat == if n < 0 { (-n) as nat } else { n as nat });
        let mut m = mag;
        let mut ds: Vec<u8> = Vec::new();
        while m > 0
            invariant
                nat_digits(mag as nat) == nat_digits(m as nat) + ds@,
            decreases m,
        {
            let d = (m % 10) as u8;
            let ghost before = ds@;
            ds.insert(0, d);
            assert(nat_digits(m as nat) == nat_digits((m / 10) as nat).push(d));
            assert(nat_digits((m / 10) as nat) + ds@ =~= nat_digits(m as nat) + before);
            m = m / 10;
        }
        assert(nat_digits(0) =~= Seq::<u8>::empty());
        assert(ds@ =~= nat_digits(mag as nat));
        proof {
            lemma_decimal_of_int(n as int);
            lemma_nat_digits(mag as nat);
        }
        Decimal { negative: n < 0, digits: ds, scale: 0 }
    }
}


/// `ds` followed by `k` zero digits: the magnitude of a decimal brought to a larger scale.
pub open spec fn padded(ds: Seq<u8>, k: nat) -> Seq<u8> {
    ds + zeros(k)
}

proof fn lemma_padded_value(ds: Seq<u8>, k: nat)
    ensures
        digits_value(padded(ds, k)) == digits_value(ds) * pow10(k),
{
    lemma_digits_split(ds, zeros(k));
    lemma_zeros_value(k);
}

proof fn lemma_padded_digits(ds: Seq<u8>, k: nat)
    requires
        all_digits(ds),
    ensures
        all_digits(padded(ds, k)),
        ds.len() > 0 ==> padded(ds, k)[0] == ds[0],
{
    let p = padded(ds, k);
    assert forall|i: int| 0 <= i < p.len() implies #[trigger] p[i] < 10 by {
        if i < ds.len() {
            assert(p[i] == ds[i]);
        } else {
            assert(p[i] == 0);
        }
    }
}

proof fn lemma_positive(ds: Seq<u8>, k: nat)
    requires
        all_digits(ds),
        ds.len() > 0,
        ds[0] != 0,
    ensures
        digits_value(ds) * pow10(k) > 0,
{
    lemma_digits_lower(ds);
    lemma_pow10_pos((ds.len() - 1) as nat);
    lemma_pow10_pos(k);
    let a = digits_value(ds);
    let b = pow10(k);
    assert(a * b > 0) by (nonlinear_arith)
        requires
            a >= 1,
            b >= 1,
    ;
}

impl Decimal {
    fn digit_at(&self, i: u128) -> (d: u8)
        ensures
            d == if i < self@.digits.len() {
                self@.digits[i as int]
            } else {
                0u8
            },
    {
        if i < self.digits.len() as u128 {
            self.digits[i as usize]
        } else {
            0
        }
    }

    /// Compares the magnitudes of two decimals at a common scale; both nonzero.
    #[verifier::loop_isolation(false)]
    fn order_magnitude(&self, other: &Decimal) -> (r: i8)
        requires
            self@.canonical(),
            other@.canonical(),
            self@.digits.len() > 0,
            other@.digits.len() > 0,
        ensures
            ({
                let k = max_nat(self@.scale, other@.scale);
                let x = digits_value(self@.digits) * pow10((k - self@.scale) as nat);
                let y = digits_value(other@.digits) * pow10((k - other@.scale) as nat);
                r == if x < y {
                    -1i8
                } else if x == y {
                    0i8
                } else {
                    1i8
                }
            }),
    {
        let k = if self.scale >= other.scale {
            self.scale
        } else {
            other.scale
        };
        let ghost ka = (k - self.scale) as nat;
        let ghost kb = (k - other.scale) as nat;
        let ghost pa = padded(self@.digits, ka);
        let ghost pb = padded(other@.digits, kb);
        proof {
            lemma_padded_value(self@.digits, ka);
            lemma_padded_value(other@.digits, kb);
            lemma_padded_digits(self@.digits, ka);
            lemma_padded_digits(other@.digits, kb);
        }
        let la: u128 = self.digits.len() as u128 + (k - self.scale) as u128;
        let lb: u128 = other.digits.len() as u128 + (k - other.scale) as u128;
        if la < lb {
            proof {
                lemma_digits_shorter(pa, pb);
            }
            return -1;
        }
        if lb < la {
            proof {
                lemma_digits_shorter(pb, pa);
            }
            return 1;
        }
        let mut i: u128 = 0;
        while i < la
            invariant
                la == lb,
                la == pa.len(),
                lb == pb.len(),
                0 <= i <= la,
                pa.subrange(0, i as int) == pb.subrange(0, i as int),
                pa == padded(self@.digits, ka),
                pb == padded(other@.digits, kb),
                all_digits(pa),
                all_digits(pb),
            decreases la - i,
        {
            let x = self.digit_at(i);
            let y = other.digit_at(i);
            assert(x == pa[i as int]);
            assert(y == pb[i as int]);
            if x < y {
                proof {
                    lemma_digits_lex(pa, pb, i as int);
                }
                return -1;
            }
            if y < x {
                proof {
                    lemma_digits_lex(pb, pa, i as int);
                }
                return 1;
            }
            assert(pa.subrange(0, i + 1) =~= pa.subrange(0, i as int).push(x));
            assert(pb.subrange(0, i + 1) =~= pb.subrange(0, i as int).push(y));
            i = i + 1;
        }
        assert(pa =~= pa.subrange(0, la as int));
        assert(pb =~= pb.subrange(0, lb as int));
        0
    }

    /// Exact three-way comparison: -1, 0 or 1 as `self` is below, equal to or above `other`.
    pub fn compare(&self, other: &Decimal) -> (r: i8)
        ensures
            r as int == decimal_order(self@, other@),
    {
        proof {
            use_type_invariant(self);
            use_type_invariant(other);
        }
        let ghost k = max_nat(self@.scale, other@.scale);
        let ghost ka = (k - self@.scale) as nat;
        let ghost kb = (k - other@.scale) as nat;
        let ghost x = digits_value(self@.digits) * pow10(ka);
        let ghost y = digits_value(other@.digits) * pow10(kb);
        assert(self@.at_scale(k) == if self@.negative { -(x as int) } else { x as int }) by {
            let v = digits_value(self@.digits) as int;
            let m = pow10(ka) as int;
            assert((-v) * m == -(v * m)) by (nonlinear_arith);
        }
        assert(other@.at_scale(k) == if other@.negative { -(y as int) } else { y as int }) by {
            let v = digits_value(other@.digits) as int;
            let m = pow10(kb) as int;
            assert((-v) * m == -(v * m)) by (nonlinear_arith);
        }
        let az = self.digits.len() == 0;
        let bz = other.digits.len() == 0;
        if az || bz {
            if az {
                assert(self@.digits =~= Seq::<u8>::empty());
                assert(digits_value(self@.digits) == 0);
                assert(x == 0 * pow10(ka));
                assert(x == 0);
            }
            if bz {
                assert(other@.digits =~= Seq::<u8>::empty());
                assert(digits_value(other@.digits) == 0);
                assert(y == 0 * pow10(kb));
                assert(y == 0);
            }
            if !az {
                proof {
                    lemma_positive(self@.digits, ka);
                }
            }
            if !bz {
                proof {
                    lemma_positive(other@.digits, kb);
                }
            }
            if az && bz {
                return 0;
            } else if az {
                return if other.negative { 1 } else { -1 };
            } else {
                return if self.negative { -1 } else { 1 };
            }
        }
        proof {
            lemma_positive(self@.digits, ka);
            lemma_positive(other@.digits, kb);
        }
        if self.negative && !other.negative {
            return -1;
        }
        if !self.negative && other.negative {
            return 1;
        }
        let m = self.order_magnitude(other);
        if self.negative {
            if m == -1 {
                1
            } else if m == 1 {
                -1
            } else {
                0
            }
        } else {
            m
        }
    }

    /// The decimal written out in the usual way (see [`decimal_text`]).
    pub fn to_text(&self) -> (r: String)
        ensures
            r@ == decimal_text(self@),
    {
        proof {
            use_type_invariant(self);
        }
        let mut out = String::new();
        if self.negative {
            crate::text::push_char(&mut out, '-');
        }
        let ghost sign = out@;
        let ghost ds = digit_chars(self@.digits);
        let n = self.digits.len();
        if self.scale == 0 {
            if n == 0 {
                crate::text::push_char(&mut out, '0');
                return out;
            }
            let mut i: usize = 0;
            while i < n
                invariant
                    n == self@.digits.len(),
                    ds == digit_chars(self@.digits),
                    all_digits(self@.digits),
                    i <= n,
                    out@ == sign + ds.take(i as int),
                decreases n - i,
            {
                let d = self.digits[i];
                assert(d < 10);
                crate::text::push_char(&mut out, ((d + 48) as u8) as char);
                assert(ds.take(i + 1) =~= ds.take(i as int).push(((d + 48) as u8) as char));
                i = i + 1;
            }
            assert(ds.take(n as int) =~= ds);
            return out;
        }
        if n > self.scale {
            let split = n - self.scale;
            let mut i: usize = 0;
            while i < n
                invariant
                    n == self@.digits.len(),
                    split == n - self@.scale,
                    ds == digit_chars(self@.digits),
                    all_digits(self@.digits),
                    i <= n,
                    i <= split ==> out@ == sign + ds.take(i as int),
                    i > split ==> out@ == sign + ds.take(split as int) + seq!['.'] + ds.subrange(split as int, i as int),
                decreases n - i,
            {
                if i == split {
                    crate::text::push_char(&mut out, '.');
                }
                let d = self.digits[i];
                assert(d < 10);
                crate::text::push_char(&mut out, ((d + 48) as u8) as char);
                if i < split {
                    assert(ds.take(i + 1) =~= ds.take(i as int).push(((d + 48) as u8) as char));
                } else {
                    assert(ds.subrange(split as int, i + 1) =~= ds.subrange(split as int, i as int).push(((d + 48) as u8) as char));
                }
                i = i + 1;
            }
            assert(ds.subrange(split as int, n as int) =~= ds.skip(split as int));
            return out;
        }
        crate::text::push_char(&mut out, '0');
        crate::text::push_char(&mut out, '.');
        let ghost head = out@;
        let z = self.scale - n;
        let mut j: usize = 0;
        while j < z
            invariant
                j <= z,
                out@ == head + Seq::new(j as nat, |q: int| '0'),
            decreases z - j,
        {
            crate::text::push_char(&mut out, '0');
            assert(Seq::new((j + 1) as nat, |q: int| '0') =~= Seq::new(j as nat, |q: int| '0').push('0'));
            j = j + 1;
        }
        let ghost mid = out@;
        let mut i: usize = 0;
        while i < n
            invariant
                n == self@.digits.len(),
                ds == digit_chars(self@.digits),
                all_digits(self@.digits),
                i <= n,
                out@ == mid + ds.take(i as int),
            decreases n - i,
        {
            let d = self.digits[i];
            assert(d < 10);
            crate::text::push_char(&mut out, ((d + 48) as u8) as char);
            assert(ds.take(i + 1) =~= ds.take(i as int).push(((d + 48) as u8) as char));
            i = i + 1;
        }
        assert(ds.take(n as int) =~= ds);
        assert(sign + seq!['0', '.'] =~= head);
        out
    }
}

} // verus!
