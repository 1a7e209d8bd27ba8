use vstd::prelude::*;
use ff::{Field, PrimeField, PrimeFieldRepr};
use pairing::bls12_381::{Fr, FrRepr};

verus! {


/// The order of the scalar field as a mathematical integer.
pub open spec fn order() -> int {
    limb_sum(0xffffffff00000001, 0x53bda402fffe5bfe, 0x3339d80809a1d805, 0x73eda753299d7d48)
}

/// Two to the 64th power.
pub open spec fn base() -> int {
    0x1_0000_0000_0000_0000
}

/// Integer with the given little-endian 64-bit digits.
pub open spec fn limb_sum(a: int, b: int, c: int, d: int) -> int {
    a + base() * (b + base() * (c + base() * d))
}

/// Number of bytes in the encoding of a scalar.
pub const SK_SIZE: usize = 32;

/// Integer held by four little-endian 64-bit limbs.
pub open spec fn limbs_value(l: [u64; 4]) -> int {
    limb_sum(l[0] as int, l[1] as int, l[2] as int, l[3] as int)
}

/// Big-endian integer value of a byte string.
pub open spec fn be_value(s: Seq<u8>) -> int
    decreases s.len(),
{
    if s.len() == 0 {
        0
    } else {
        be_value(s.drop_last()) * 256 + s.last() as int
    }
}

/// Multiplicative inverse computed by pairing's `Fr::inverse`.
pub uninterp spec fn inverse_of(a: int) -> int;

/// An element of the scalar field Fr, stored as its canonical limbs.
#[derive(Clone, Copy, Debug, PartialEq, Eq)]
pub struct Scalar {
    pub(crate) limbs: [u64; 4],
}

impl Scalar {
    /// The integer in `[0, order())` that this scalar stands for.
    pub closed spec fn value(&self) -> int {
        limbs_value(self.limbs)
    }

    /// The limbs hold a canonical field element.
    pub open spec fn wf(&self) -> bool {
        0 <= self.value() < order()
    }

    /// The field element equal to a small integer.
    pub fn from_u64(k: u64) -> (r: Scalar)
        ensures
            r.wf(),
            r.value() == k as int,
    {
        let r = Scalar { limbs: [k, 0, 0, 0] };
        assert(r.value() == k as int);
        assert(k as int <= base() <= order()) by (nonlinear_arith);
        r
    }

    /// The additive identity.
    pub fn zero() -> (r: Scalar)
        ensures
            r.wf(),
            r.value() == 0,
    {
        Scalar::from_u64(0)
    }

    /// Field addition.
    pub fn add(&self, other: &Scalar) -> (r: Scalar)
        requires
            self.wf(),
            other.wf(),
        ensures
            r.wf(),
            r.value() == (self.value() + other.value()) % order(),
    {
        fr_add(self, other)
    }

    /// Field subtraction.
    pub fn sub(&self, other: &Scalar) -> (r: Scalar)
        requires
            self.wf(),
            other.wf(),
        ensures
            r.wf(),
            r.value() == (self.value() - other.value()) % order(),
    {
        fr_sub(self, other)
    }

    /// Field multiplication.
    pub fn mul(&self, other: &Scalar) -> (r: Scalar)
        requires
            self.wf(),
            other.wf(),
        ensures
            r.wf(),
            r.value() == (self.value() * other.value()) % order(),
            self.value() != 0 && other.value() != 0 ==> r.value() != 0,
    {
        fr_mul(self, other)
    }

    /// Multiplicative inverse; `None` exactly for zero.
    pub fn inverse(&self) -> (r: Option<Scalar>)
        requires
            self.wf(),
        ensures
            r is None <==> self.value() == 0,
            r matches Some(v) ==> v.wf() && v.value() == inverse_of(self.value())
                && (self.value() * v.value()) % order() == 1,
    {
        fr_inverse(self)
    }

    /// Fixed-width big-endian encoding.
    pub fn to_bytes(&self) -> (r: [u8; 32])
        requires
            self.wf(),
        ensures
            be_value(r@) == self.value(),
    {
        fr_to_be(self)
    }

    /// Decodes a big-endian encoding; `None` when it is not below the field order.
    pub fn from_bytes(b: &[u8; 32]) -> (r: Option<Scalar>)
        ensures
            r is Some <==> be_value(b@) < order(),
            r matches Some(v) ==> v.wf() && v.value() == be_value(b@),
            forall|x: Scalar| x.wf() && #[trigger] x.value() == be_value(b@) ==> (r matches Some(
                v,
            ) && v.value() == x.value()),
    {
        fr_from_be(b)
    }
}

/// Relies on `Field::add_assign` of pairing's `Fr`: addition modulo the order.
#[verifier::external_body]
fn fr_add(a: &Scalar, b: &Scalar) -> (r: Scalar)
    requires
        a.wf(),
        b.wf(),
    ensures
        r.wf(),
        r.value() == (a.value() + b.value()) % order(),
{
    let mut x = Fr::from_repr(FrRepr(a.limbs)).unwrap();
    x.add_assign(&Fr::from_repr(FrRepr(b.limbs)).unwrap());
    Scalar { limbs: x.into_repr().0 }
}

/// Relies on `Field::sub_assign` of pairing's `Fr`: subtraction modulo the order.
#[verifier::external_body]
fn fr_sub(a: &Scalar, b: &Scalar) -> (r: Scalar)
    requires
        a.wf(),
        b.wf(),
    ensures
        r.wf(),
        r.value() == (a.value() - b.value()) % order(),
{
    let mut x = Fr::from_repr(FrRepr(a.limbs)).unwrap();
    x.sub_assign(&Fr::from_repr(FrRepr(b.limbs)).unwrap());
    Scalar { limbs: x.into_repr().0 }
}

/// Relies on `Field::mul_assign` of pairing's `Fr`: multiplication modulo the order, which is
/// prime, so that no two non-zero elements multiply to zero.
#[verifier::external_body]
fn fr_mul(a: &Scalar, b: &Scalar) -> (r: Scalar)
    requires
        a.wf(),
        b.wf(),
    ensures
        r.wf(),
        r.value() == (a.value() * b.value()) % order(),
        a.value() != 0 && b.value() != 0 ==> r.value() != 0,
{
    let mut x = Fr::from_repr(FrRepr(a.limbs)).unwrap();
    x.mul_assign(&Fr::from_repr(FrRepr(b.limbs)).unwrap());
    Scalar { limbs: x.into_repr().0 }
}

/// Relies on `Field::inverse` of pairing's `Fr`: `None` for zero, else the inverse.
#[verifier::external_body]
fn fr_inverse(a: &Scalar) -> (r: Option<Scalar>)
    requires
        a.wf(),
    ensures
        r is None <==> a.value() == 0,
        r matches Some(v) ==> v.wf() && v.value() == inverse_of(a.value())
            && (a.value() * v.value()) % order() == 1,
{
    let x = Fr::from_repr(FrRepr(a.limbs)).unwrap();
    x.inverse().map(|v| Scalar { limbs: v.into_repr().0 })
}

/// Relies on `PrimeFieldRepr::write_be` of pairing's `FrRepr`: 32 big-endian bytes.
#[verifier::external_body]
fn fr_to_be(a: &Scalar) -> (r: [u8; 32])
    requires
        a.wf(),
    ensures
        be_value(r@) == a.value(),
{
    let mut out = [0u8; 32];
    FrRepr(a.limbs).write_be(&mut out[..]).unwrap();
    out
}

/// Relies on `PrimeFieldRepr::read_be` and `PrimeField::from_repr` of pairing's `Fr`:
/// the value is accepted exactly when it is below the order.
#[verifier::external_body]
fn fr_from_be(b: &[u8; 32]) -> (r: Option<Scalar>)
    ensures
        r is Some <==> be_value(b@) < order(),
        r matches Some(v) ==> v.wf() && v.value() == be_value(b@),
{
    let mut repr = FrRepr::default();
    repr.read_be(&b[..]).unwrap();
    Fr::from_repr(repr).ok().map(|v| Scalar { limbs: v.into_repr().0 })
}

/// Relies on `Field::random` of pairing's `Fr` with `rand::thread_rng`: some field element.
#[verifier::external_body]
pub(crate) fn fr_random() -> (r: Scalar)
    ensures
        r.wf(),
{
    let x = Fr::random(&mut rand::thread_rng());
    Scalar { limbs: x.into_repr().0 }
}

} // verus!
