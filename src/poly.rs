use vstd::prelude::*;
use vstd::arithmetic::div_mod::{lemma_add_mod_noop, lemma_small_mod};
use crate::curve::{G1Point, G2Point};
use crate::field::{inverse_of, order, Scalar};

verus! {

/// Value at `x` of the polynomial with coefficients `cs` (lowest degree first), in Fr.
pub open spec fn horner(cs: Seq<int>, x: int) -> int
    decreases cs.len(),
{
    if cs.len() == 0 {
        0
    } else {
        (cs[0] + x * horner(cs.drop_first(), x)) % order()
    }
}

/// Coefficient `i` of `cs`, zero past its end.
pub open spec fn coeff(cs: Seq<int>, i: int) -> int {
    if 0 <= i < cs.len() {
        cs[i]
    } else {
        0
    }
}

/// One Horner step: `(a * x + c) mod order == (c + x * a) mod order`.
proof fn lemma_horner_step(a: int, x: int, c: int)
    requires
        0 <= c < order(),
    ensures
        ((a * x) % order() + c) % order() == (c + x * a) % order(),
{
    lemma_small_mod(c as nat, order() as nat);
    lemma_add_mod_noop(a * x, c, order());
    assert(a * x == x * a) by (nonlinear_arith);
}

/// A univariate polynomial over Fr, coefficients lowest degree first.
#[derive(Clone, Debug)]
pub struct Poly {
    pub coeffs: Vec<Scalar>,
}

impl Poly {
    /// Every coefficient is a field element.
    pub open spec fn wf(&self) -> bool {
        forall|i: int| 0 <= i < self.coeffs@.len() ==> (#[trigger] self.coeffs@[i]).wf()
    }

    /// The coefficients as integers.
    pub open spec fn values(&self) -> Seq<int> {
        self.coeffs@.map_values(|c: Scalar| c.value())
    }

    /// The zero polynomial, with no coefficients.
    pub fn zero() -> (r: Poly)
        ensures
            r.wf(),
            r.values() == Seq::<int>::empty(),
    {
        let r = Poly { coeffs: Vec::new() };
        assert(r.values() =~= Seq::<int>::empty());
        r
    }

    /// Horner evaluation at `x`.
    pub fn evaluate(&self, x: &Scalar) -> (r: Scalar)
        requires
            self.wf(),
            x.wf(),
        ensures
            r.wf(),
            r.value() == horner(self.values(), x.value()),
    {
        let n = self.coeffs.len();
        let mut acc = Scalar::zero();
        let mut i: usize = n;
        assert(self.values().subrange(n as int, n as int) =~= Seq::<int>::empty());
        while i > 0
            invariant
                self.wf(),
                x.wf(),
                n == self.coeffs@.len(),
                i <= n,
                acc.wf(),
                acc.value() == horner(self.values().subrange(i as int, n as int), x.value()),
            decreases i,
        {
            let c = self.coeffs[i - 1];
            let t = acc.mul(x);
            let next = t.add(&c);
            proof {
                let s = self.values().subrange(i - 1, n as int);
                assert(s.drop_first() =~= self.values().subrange(i as int, n as int));
                lemma_horner_step(acc.value(), x.value(), c.value());
            }
            acc = next;
            i = i - 1;
        }
        assert(self.values().subrange(0, n as int) =~= self.values());
        acc
    }

    /// The commitment to the polynomial: each coefficient times the generator of G1.
    pub fn commitment(&self) -> (r: Commitment)
        requires
            self.wf(),
        ensures
            r.wf(),
            r.dlogs() == self.values(),
    {
        let mut points: Vec<G1Point> = Vec::new();
        let mut i: usize = 0;
        while i < self.coeffs.len()
            invariant
                self.wf(),
                i <= self.coeffs@.len(),
                points@.len() == i,
                forall|j: int| 0 <= j < i ==> (#[trigger] points@[j]).wf() && points@[j].dlog()
                    == self.coeffs@[j].value(),
            decreases self.coeffs@.len() - i,
        {
            points.push(G1Point::generator_mul(&self.coeffs[i]));
            i = i + 1;
        }
        let r = Commitment { points };
        assert(r.dlogs() =~= self.values());
        r
    }
}

/// Commitment to a polynomial: one G1 point per coefficient, lowest degree first.
#[derive(Clone)]
pub struct Commitment {
    pub points: Vec<G1Point>,
}

impl Commitment {
    /// Every point is well formed.
    pub open spec fn wf(&self) -> bool {
        forall|i: int| 0 <= i < self.points@.len() ==> (#[trigger] self.points@[i]).wf()
    }

    /// Logarithms of the points: the coefficients of the committed polynomial.
    pub open spec fn dlogs(&self) -> Seq<int> {
        self.points@.map_values(|p: G1Point| p.dlog())
    }

    /// Evaluation at `x` in the exponent: the generator times the committed polynomial's value.
    pub fn evaluate(&self, x: &Scalar) -> (r: G1Point)
        requires
            self.wf(),
            x.wf(),
        ensures
            r.wf(),
            r.dlog() == horner(self.dlogs(), x.value()),
    {
        let n = self.points.len();
        let mut acc = G1Point::generator_mul(&Scalar::zero());
        let mut i: usize = n;
        assert(self.dlogs().subrange(n as int, n as int) =~= Seq::<int>::empty());
        while i > 0
            invariant
                self.wf(),
                x.wf(),
                n == self.points@.len(),
                i <= n,
                acc.wf(),
                acc.dlog() == horner(self.dlogs().subrange(i as int, n as int), x.value()),
            decreases i,
        {
            let p = self.points[i - 1];
            let t = acc.mul(x);
            let next = t.add(&p);
            proof {
                let s = self.dlogs().subrange(i - 1, n as int);
                assert(s.drop_first() =~= self.dlogs().subrange(i as int, n as int));
                assert(self.points@[i - 1].wf());
                lemma_horner_step(acc.dlog(), x.value(), p.dlog());
            }
            acc = next;
            i = i - 1;
        }
        assert(self.dlogs().subrange(0, n as int) =~= self.dlogs());
        acc
    }

    /// Pointwise sum; the shorter commitment counts as padded with the identity.
    pub fn add(&self, other: &Commitment) -> (r: Commitment)
        requires
            self.wf(),
            other.wf(),
        ensures
            r.wf(),
            r.dlogs().len() == if self.dlogs().len() >= other.dlogs().len() {
                self.dlogs().len()
            } else {
                other.dlogs().len()
            },
            forall|i: int|
                0 <= i < r.dlogs().len() ==> #[trigger] r.dlogs()[i] == (coeff(self.dlogs(), i)
                    + coeff(other.dlogs(), i)) % order(),
    {
        let n = if self.points.len() >= other.points.len() {
            self.points.len()
        } else {
            other.points.len()
        };
        let mut points: Vec<G1Point> = Vec::new();
        let mut i: usize = 0;
        while i < n
            invariant
                self.wf(),
                other.wf(),
                n == if self.points@.len() >= other.points@.len() {
                    self.points@.len()
                } else {
                    other.points@.len()
                },
                i <= n,
                points@.len() == i,
                forall|j: int|
                    0 <= j < i ==> (#[trigger] points@[j]).wf() && points@[j].dlog() == (coeff(
                        self.dlogs(),
                        j,
                    ) + coeff(other.dlogs(), j)) % order(),
            decreases n - i,
        {
            let p = if i < self.points.len() && i < other.points.len() {
                self.points[i].add(&other.points[i])
            } else if i < self.points.len() {
                let q = self.points[i];
                proof {
                    assert(self.points@[i as int].wf());
                    lemma_small_mod(q.dlog() as nat, order() as nat);
                }
                q
            } else {
                let q = other.points[i];
                proof {
                    assert(other.points@[i as int].wf());
                    lemma_small_mod(q.dlog() as nat, order() as nat);
                }
                q
            };
            points.push(p);
            i = i + 1;
        }
        Commitment { points }
    }

    /// Componentwise equality of the points.
    pub fn equals(&self, other: &Commitment) -> (r: bool)
        requires
            self.wf(),
            other.wf(),
        ensures
            r == (self.dlogs() == other.dlogs()),
    {
        if self.points.len() != other.points.len() {
            assert(self.dlogs().len() != other.dlogs().len());
            return false;
        }
        let mut i: usize = 0;
        while i < self.points.len()
            invariant
                self.wf(),
                other.wf(),
                self.points@.len() == other.points@.len(),
                i <= self.points@.len(),
                forall|j: int| 0 <= j < i ==> self.dlogs()[j] == other.dlogs()[j],
            decreases self.points@.len() - i,
        {
            assert(self.points@[i as int].wf() && other.points@[i as int].wf());
            if !self.points[i].equals(&other.points[i]) {
                assert(self.dlogs()[i as int] != other.dlogs()[i as int]);
                return false;
            }
            i = i + 1;
        }
        assert(self.dlogs() =~= other.dlogs());
        true
    }
}

} // verus!

verus! {

/// Product over `j < k`, `j != i`, of `xs[j]`, reduced modulo the order.
pub open spec fn lagrange_num(xs: Seq<int>, i: int, k: int) -> int
    decreases k,
{
    if k <= 0 {
        1
    } else if k - 1 == i {
        lagrange_num(xs, i, k - 1)
    } else {
        (lagrange_num(xs, i, k - 1) * xs[k - 1]) % order()
    }
}

/// Product over `j < k`, `j != i`, of `xs[j] - xs[i]`, reduced modulo the order.
pub open spec fn lagrange_den(xs: Seq<int>, i: int, k: int) -> int
    decreases k,
{
    if k <= 0 {
        1
    } else if k - 1 == i {
        lagrange_den(xs, i, k - 1)
    } else {
        (lagrange_den(xs, i, k - 1) * ((xs[k - 1] - xs[i]) % order())) % order()
    }
}

/// Sum over `i < k` of `ys[i]` times the Lagrange basis polynomial of `xs` at `i`, taken at
/// zero: `ys[i] * prod(xs[j]) / prod(xs[j] - xs[i])`, over `j != i`, in Fr.
pub open spec fn lagrange_at_zero(xs: Seq<int>, ys: Seq<int>, k: int) -> int
    decreases k,
{
    if k <= 0 {
        0
    } else {
        let i = k - 1;
        let n = xs.len() as int;
        (lagrange_at_zero(xs, ys, k - 1) + (((ys[i] * lagrange_num(xs, i, n)) % order())
            * inverse_of(lagrange_den(xs, i, n))) % order()) % order()
    }
}

/// Distinct integers below 2^64 differ modulo the order.
proof fn lemma_distinct_mod(a: int, b: int)
    requires
        0 <= a < 0x1_0000_0000_0000_0000,
        0 <= b < 0x1_0000_0000_0000_0000,
        a != b,
    ensures
        (a - b) % order() != 0,
{
    let d = a - b;
    let m = order();
    assert(0x1_0000_0000_0000_0000 < m);
    vstd::arithmetic::div_mod::lemma_fundamental_div_mod(d, m);
    let q = d / m;
    if d % m == 0 {
        assert(d == m * q);
        if q >= 1 {
            assert(m * q >= m) by (nonlinear_arith)
                requires
                    q >= 1,
                    m > 0,
            ;
        } else if q <= -1 {
            assert(m * q <= -m) by (nonlinear_arith)
                requires
                    q <= -1,
                    m > 0,
            ;
        } else {
            assert(m * q == 0) by (nonlinear_arith)
                requires
                    q == 0,
            ;
        }
    }
}

/// Numerator and denominator of the Lagrange basis polynomial of `xs` at `i`, taken at zero.
fn lagrange_parts(xs: &Vec<u64>, i: usize) -> (r: (Scalar, Scalar))
    requires
        i < xs@.len(),
        forall|a: int, b: int| 0 <= a < b < xs@.len() ==> xs@[a] != xs@[b],
    ensures
        r.0.wf(),
        r.1.wf(),
        r.0.value() == lagrange_num(xs@.map_values(|x: u64| x as int), i as int, xs@.len() as int),
        r.1.value() == lagrange_den(xs@.map_values(|x: u64| x as int), i as int, xs@.len() as int),
        r.1.value() != 0,
{
    let ghost xv = xs@.map_values(|x: u64| x as int);
    let n = xs.len();
    let xi = Scalar::from_u64(xs[i]);
    let mut num = Scalar::from_u64(1);
    let mut den = Scalar::from_u64(1);
    let mut j: usize = 0;
    while j < n
        invariant
            n == xs@.len(),
            xv == xs@.map_values(|x: u64| x as int),
            forall|a: int, b: int| 0 <= a < b < xs@.len() ==> xs@[a] != xs@[b],
            i < n,
            j <= n,
            xi.wf(),
            xi.value() == xv[i as int],
            num.wf(),
            den.wf(),
            num.value() == lagrange_num(xv, i as int, j as int),
            den.value() == lagrange_den(xv, i as int, j as int),
            den.value() != 0,
        decreases n - j,
    {
        if j != i {
            let xj = Scalar::from_u64(xs[j]);
            let diff = xj.sub(&xi);
            proof {
                if xs@[j as int] == xs@[i as int] {
                    if j < i {
                        assert(xs@[j as int] != xs@[i as int]);
                    } else {
                        assert(xs@[i as int] != xs@[j as int]);
                    }
                }
                lemma_distinct_mod(xs@[j as int] as int, xs@[i as int] as int);
            }
            num = num.mul(&xj);
            den = den.mul(&diff);
        }
        j = j + 1;
    }
    (num, den)
}

/// The value at zero of the polynomial of least degree through the points `(xs[i], ys[i])`,
/// by Lagrange interpolation.
pub fn interpolate_at_zero(xs: &Vec<u64>, ys: &Vec<Scalar>) -> (r: Scalar)
    requires
        xs@.len() == ys@.len(),
        forall|i: int, j: int| 0 <= i < j < xs@.len() ==> xs@[i] != xs@[j],
        forall|i: int| 0 <= i < ys@.len() ==> (#[trigger] ys@[i]).wf(),
    ensures
        r.wf(),
        r.value() == lagrange_at_zero(
            xs@.map_values(|x: u64| x as int),
            ys@.map_values(|y: Scalar| y.value()),
            xs@.len() as int,
        ),
{
    let ghost xv = xs@.map_values(|x: u64| x as int);
    let ghost yv = ys@.map_values(|y: Scalar| y.value());
    let n = xs.len();
    let mut acc = Scalar::zero();
    let mut i: usize = 0;
    while i < n
        invariant
            n == xs@.len() == ys@.len(),
            xv == xs@.map_values(|x: u64| x as int),
            yv == ys@.map_values(|y: Scalar| y.value()),
            forall|a: int, b: int| 0 <= a < b < xs@.len() ==> xs@[a] != xs@[b],
            forall|a: int| 0 <= a < ys@.len() ==> (#[trigger] ys@[a]).wf(),
            i <= n,
            acc.wf(),
            acc.value() == lagrange_at_zero(xv, yv, i as int),
        decreases n - i,
    {
        let (num, den) = lagrange_parts(xs, i);
        let inv = match den.inverse() {
            Some(v) => v,
            None => {
                assert(false);
                den
            },
        };
        let term = ys[i].mul(&num).mul(&inv);
        acc = acc.add(&term);
        i = i + 1;
    }
    acc
}

/// Evaluating a polynomial's commitment at any `x` gives the generator times the polynomial's
/// value at `x`: the logarithm of `p.commitment().evaluate(x)` is `p.evaluate(x)`.
pub proof fn lemma_commitment_consistent(p: Poly, c: Commitment, x: int)
    requires
        p.wf(),
        c.wf(),
        c.dlogs() == p.values(),
    ensures
        horner(c.dlogs(), x) == horner(p.values(), x),
{
}

/// Changing any one coefficient of a row makes it disagree with the commitment to the untouched
/// row, so that `verify_row` rejects it.
pub proof fn lemma_tampered_row_rejected(row: Poly, tampered: Poly, c: Commitment, i: int)
    requires
        row.wf(),
        tampered.wf(),
        c.dlogs() == row.values(),
        tampered.coeffs@.len() == row.coeffs@.len(),
        0 <= i < row.coeffs@.len(),
        tampered.coeffs@[i].value() != row.coeffs@[i].value(),
    ensures
        tampered.values() != c.dlogs(),
{
    assert(tampered.values()[i] != row.values()[i]);
}

/// The Lagrange coefficient of `xs` at `i`, taken at zero.
pub open spec fn lagrange_coeff(xs: Seq<int>, i: int) -> int {
    (lagrange_num(xs, i, xs.len() as int) * inverse_of(lagrange_den(xs, i, xs.len() as int)))
        % order()
}

/// Sum over `i < k` of `ds[i]` times the Lagrange coefficient of `xs` at `i`, in Fr.
pub open spec fn lagrange_combine(xs: Seq<int>, ds: Seq<int>, k: int) -> int
    decreases k,
{
    if k <= 0 {
        0
    } else {
        (lagrange_combine(xs, ds, k - 1) + (ds[k - 1] * lagrange_coeff(xs, k - 1)) % order())
            % order()
    }
}

/// Combines signature shares by Lagrange interpolation at zero in the exponent: share `i`
/// belongs to the participant with index `xs[i]`. With at least degree + 1 shares of one
/// signature it is the full signature.
pub fn combine_signatures(xs: &Vec<u64>, sigs: &Vec<G2Point>) -> (r: G2Point)
    requires
        xs@.len() == sigs@.len(),
        xs@.len() > 0,
        forall|i: int, j: int| 0 <= i < j < xs@.len() ==> xs@[i] != xs@[j],
        forall|i: int| 0 <= i < sigs@.len() ==> (#[trigger] sigs@[i]).wf(),
    ensures
        r.wf(),
        r.dlog() == lagrange_combine(
            xs@.map_values(|x: u64| x as int),
            sigs@.map_values(|p: G2Point| p.dlog()),
            xs@.len() as int,
        ),
{
    let ghost xv = xs@.map_values(|x: u64| x as int);
    let ghost dv = sigs@.map_values(|p: G2Point| p.dlog());
    let n = xs.len();
    assert(sigs@[0].wf());
    let zero = Scalar::zero();
    let mut acc = sigs[0].mul(&zero);
    assert(sigs@[0].dlog() * zero.value() == 0);
    let mut i: usize = 0;
    while i < n
        invariant
            n == xs@.len() == sigs@.len(),
            xv == xs@.map_values(|x: u64| x as int),
            dv == sigs@.map_values(|p: G2Point| p.dlog()),
            forall|a: int, b: int| 0 <= a < b < xs@.len() ==> xs@[a] != xs@[b],
            forall|a: int| 0 <= a < sigs@.len() ==> (#[trigger] sigs@[a]).wf(),
            i <= n,
            acc.wf(),
            acc.dlog() == lagrange_combine(xv, dv, i as int),
        decreases n - i,
    {
        let (num, den) = lagrange_parts(xs, i);
        let inv = match den.inverse() {
            Some(v) => v,
            None => {
                assert(false);
                den
            },
        };
        let coeff = num.mul(&inv);
        assert(sigs@[i as int].wf());
        let term = sigs[i].mul(&coeff);
        acc = acc.add(&term);
        i = i + 1;
    }
    acc
}

} // verus!
