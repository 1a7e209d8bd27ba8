use vstd::prelude::*;
use crate::curve::G1Point;
use crate::field::{fr_random, Scalar};
use crate::poly::{horner, Commitment, Poly};

verus! {

/// A symmetric polynomial in two variables over Fr, of degree `degree` in each. Coefficient
/// `(i, j)` with `i <= j` is stored at `coeffs[j][i]`; `(j, i)` shares it.
pub struct BivarPoly {
    degree: usize,
    coeffs: Vec<Vec<Scalar>>,
}

/// Commitment to a `BivarPoly`: coefficient `(i, j)`, `i <= j`, times the generator at `points[j][i]`.
#[derive(Clone)]
pub struct BivarCommitment {
    degree: usize,
    points: Vec<Vec<G1Point>>,
}

impl BivarPoly {
    /// The triangle has `degree + 1` rows, row `j` of length `j + 1`, of field elements.
    pub closed spec fn wf(&self) -> bool {
        &&& self.degree < usize::MAX
        &&& self.coeffs@.len() == self.degree + 1
        &&& forall|j: int| 0 <= j <= self.degree ==> (#[trigger] self.coeffs@[j])@.len() == j + 1
        &&& forall|j: int, i: int|
            0 <= i <= j <= self.degree ==> (#[trigger] self.coeffs@[j]@[i]).wf()
    }

    /// Degree in each variable.
    pub closed spec fn deg(&self) -> nat {
        self.degree as nat
    }

    /// Coefficient of `x^i y^j`.
    pub closed spec fn coef(&self, i: int, j: int) -> int {
        if i <= j {
            self.coeffs@[j]@[i].value()
        } else {
            self.coeffs@[i]@[j].value()
        }
    }

    /// Coefficients of `x^0 .. x^degree` beside `y^j`.
    pub open spec fn column(&self, j: int) -> Seq<int> {
        Seq::new(self.deg() + 1, |i: int| self.coef(i, j))
    }

    /// Coefficients in `y` of the polynomial obtained by fixing `x`.
    pub open spec fn row_values(&self, x: int) -> Seq<int> {
        Seq::new(self.deg() + 1, |j: int| horner(self.column(j), x))
    }

    /// Value at `(x, y)`.
    pub open spec fn eval(&self, x: int, y: int) -> int {
        horner(self.row_values(x), y)
    }

    /// Degree in each variable.
    pub fn degree(&self) -> (r: usize)
        requires
            self.wf(),
        ensures
            r == self.deg(),
    {
        self.degree
    }

    /// A polynomial of the given degree whose (degree + 1)(degree + 2) / 2 independent
    /// coefficients are drawn from the thread's random generator.
    pub fn random(degree: usize) -> (r: BivarPoly)
        requires
            degree < usize::MAX,
        ensures
            r.wf(),
            r.deg() == degree,
    {
        let mut coeffs: Vec<Vec<Scalar>> = Vec::new();
        let mut j: usize = 0;
        while j <= degree
            invariant
                degree < usize::MAX,
                j <= degree + 1,
                coeffs@.len() == j,
                forall|k: int| 0 <= k < j ==> (#[trigger] coeffs@[k])@.len() == k + 1,
                forall|k: int, i: int| 0 <= i <= k < j ==> (#[trigger] coeffs@[k]@[i]).wf(),
            decreases degree + 1 - j,
        {
            let mut row: Vec<Scalar> = Vec::new();
            let mut i: usize = 0;
            while i <= j
                invariant
                    j <= degree < usize::MAX,
                    i <= j + 1,
                    row@.len() == i,
                    forall|k: int| 0 <= k < i ==> (#[trigger] row@[k]).wf(),
                decreases j + 1 - i,
            {
                row.push(fr_random());
                i = i + 1;
            }
            coeffs.push(row);
            j = j + 1;
        }
        BivarPoly { degree, coeffs }
    }

    /// Coefficient of `x^i y^j`.
    fn get(&self, i: usize, j: usize) -> (r: Scalar)
        requires
            self.wf(),
            i <= self.deg(),
            j <= self.deg(),
        ensures
            r.wf(),
            r.value() == self.coef(i as int, j as int),
    {
        if i <= j {
            self.coeffs[j][i]
        } else {
            self.coeffs[i][j]
        }
    }

    /// The polynomial in `y` obtained by fixing `x`.
    pub fn row(&self, x: &Scalar) -> (r: Poly)
        requires
            self.wf(),
            x.wf(),
        ensures
            r.wf(),
            r.values() == self.row_values(x.value()),
    {
        let d = self.degree;
        let mut out: Vec<Scalar> = Vec::new();
        let mut j: usize = 0;
        while j <= d
            invariant
                self.wf(),
                x.wf(),
                d == self.deg(),
                j <= d + 1,
                out@.len() == j,
                forall|k: int|
                    0 <= k < j ==> (#[trigger] out@[k]).wf() && out@[k].value() == horner(
                        self.column(k),
                        x.value(),
                    ),
            decreases d + 1 - j,
        {
            let mut col: Vec<Scalar> = Vec::new();
            let mut i: usize = 0;
            while i <= d
                invariant
                    self.wf(),
                    d == self.deg(),
                    j <= d,
                    i <= d + 1,
                    col@.len() == i,
                    forall|k: int|
                        0 <= k < i ==> (#[trigger] col@[k]).wf() && col@[k].value() == self.coef(
                            k,
                            j as int,
                        ),
                decreases d + 1 - i,
            {
                col.push(self.get(i, j));
                i = i + 1;
            }
            let p = Poly { coeffs: col };
            assert(p.values() =~= self.column(j as int));
            out.push(p.evaluate(x));
            j = j + 1;
        }
        let r = Poly { coeffs: out };
        assert(r.values() =~= self.row_values(x.value()));
        r
    }

    /// Value at `(x, y)`.
    pub fn evaluate(&self, x: &Scalar, y: &Scalar) -> (r: Scalar)
        requires
            self.wf(),
            x.wf(),
            y.wf(),
        ensures
            r.wf(),
            r.value() == self.eval(x.value(), y.value()),
    {
        self.row(x).evaluate(y)
    }

    /// The commitment: every stored coefficient times the generator of G1.
    pub fn commitment(&self) -> (r: BivarCommitment)
        requires
            self.wf(),
        ensures
            r.wf(),
            r.deg() == self.deg(),
            forall|i: int, j: int|
                0 <= i <= self.deg() && 0 <= j <= self.deg() ==> #[trigger] r.dlog(i, j)
                    == self.coef(i, j),
    {
        let d = self.degree;
        let mut points: Vec<Vec<G1Point>> = Vec::new();
        let mut j: usize = 0;
        while j <= d
            invariant
                self.wf(),
                d == self.deg(),
                j <= d + 1,
                points@.len() == j,
                forall|k: int| 0 <= k < j ==> (#[trigger] points@[k])@.len() == k + 1,
                forall|k: int, i: int|
                    0 <= i <= k < j ==> (#[trigger] points@[k]@[i]).wf() && points@[k]@[i].dlog()
                        == self.coef(i, k),
            decreases d + 1 - j,
        {
            let mut row: Vec<G1Point> = Vec::new();
            let mut i: usize = 0;
            while i <= j
                invariant
                    self.wf(),
                    d == self.deg(),
                    j <= d,
                    i <= j + 1,
                    row@.len() == i,
                    forall|k: int|
                        0 <= k < i ==> (#[trigger] row@[k]).wf() && row@[k].dlog() == self.coef(
                            k,
                            j as int,
                        ),
                decreases j + 1 - i,
            {
                row.push(G1Point::generator_mul(&self.get(i, j)));
                i = i + 1;
            }
            points.push(row);
            j = j + 1;
        }
        BivarCommitment { degree: d, points }
    }
}

impl BivarCommitment {
    /// Same shape as the committed triangle, of well-formed points.
    pub closed spec fn wf(&self) -> bool {
        &&& self.degree < usize::MAX
        &&& self.points@.len() == self.degree + 1
        &&& forall|j: int| 0 <= j <= self.degree ==> (#[trigger] self.points@[j])@.len() == j + 1
        &&& forall|j: int, i: int|
            0 <= i <= j <= self.degree ==> (#[trigger] self.points@[j]@[i]).wf()
    }

    /// Degree in each variable.
    pub closed spec fn deg(&self) -> nat {
        self.degree as nat
    }

    /// Logarithm of the point committing to the coefficient of `x^i y^j`.
    pub closed spec fn dlog(&self, i: int, j: int) -> int {
        if i <= j {
            self.points@[j]@[i].dlog()
        } else {
            self.points@[i]@[j].dlog()
        }
    }

    /// Logarithms beside `y^j`.
    pub open spec fn column(&self, j: int) -> Seq<int> {
        Seq::new(self.deg() + 1, |i: int| self.dlog(i, j))
    }

    /// Logarithms of the commitment to the row at `x`.
    pub open spec fn row_dlogs(&self, x: int) -> Seq<int> {
        Seq::new(self.deg() + 1, |j: int| horner(self.column(j), x))
    }

    /// Point committing to the coefficient of `x^i y^j`.
    fn get(&self, i: usize, j: usize) -> (r: G1Point)
        requires
            self.wf(),
            i <= self.deg(),
            j <= self.deg(),
        ensures
            r.wf(),
            r.dlog() == self.dlog(i as int, j as int),
    {
        if i <= j {
            self.points[j][i]
        } else {
            self.points[i][j]
        }
    }

    /// The commitment to the row at `x` of the committed polynomial.
    pub fn row(&self, x: &Scalar) -> (r: Commitment)
        requires
            self.wf(),
            x.wf(),
        ensures
            r.wf(),
            r.dlogs() == self.row_dlogs(x.value()),
    {
        let d = self.degree;
        let mut out: Vec<G1Point> = Vec::new();
        let mut j: usize = 0;
        while j <= d
            invariant
                self.wf(),
                x.wf(),
                d == self.deg(),
                j <= d + 1,
                out@.len() == j,
                forall|k: int|
                    0 <= k < j ==> (#[trigger] out@[k]).wf() && out@[k].dlog() == horner(
                        self.column(k),
                        x.value(),
                    ),
            decreases d + 1 - j,
        {
            let mut col: Vec<G1Point> = Vec::new();
            let mut i: usize = 0;
            while i <= d
                invariant
                    self.wf(),
                    d == self.deg(),
                    j <= d,
                    i <= d + 1,
                    col@.len() == i,
                    forall|k: int|
                        0 <= k < i ==> (#[trigger] col@[k]).wf() && col@[k].dlog() == self.dlog(
                            k,
                            j as int,
                        ),
                decreases d + 1 - i,
            {
                col.push(self.get(i, j));
                i = i + 1;
            }
            let c = Commitment { points: col };
            assert(c.dlogs() =~= self.column(j as int));
            out.push(c.evaluate(x));
            j = j + 1;
        }
        let r = Commitment { points: out };
        assert(r.dlogs() =~= self.row_dlogs(x.value()));
        r
    }
}

} // verus!
