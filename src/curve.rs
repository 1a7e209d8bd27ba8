use vstd::prelude::*;
use crate::field::{order, Scalar};
use group::{CurveAffine, CurveProjective, EncodedPoint};
use pairing::bls12_381::{Bls12, G1Affine, G1Compressed, G2, G2Affine, G2Compressed, FrRepr};
use pairing::Engine;
use rand::SeedableRng;
use tiny_keccak::Hasher;

verus! {

/// Number of bytes in the compressed encoding of a G1 point.
pub const PK_SIZE: usize = 48;

/// Number of bytes in the compressed encoding of a G2 point.
pub const SIG_SIZE: usize = 96;

/// Compressed encoding of `k` times the generator of G1, as pairing's `into_compressed` writes it.
pub uninterp spec fn g1_enc(k: int) -> Seq<u8>;

/// Compressed encoding of `k` times the generator of G2, as pairing's `into_compressed` writes it.
pub uninterp spec fn g2_enc(k: int) -> Seq<u8>;

/// SHA3-256 digest of a message, as tiny_keccak computes it.
pub uninterp spec fn sha3_256_of(msg: Seq<u8>) -> Seq<u8>;

/// Encoding of the G2 point that pairing's `G2::random` draws from a ChaCha generator seeded
/// with the given 32 bytes.
pub uninterp spec fn g2_from_seed_of(seed: Seq<u8>) -> Seq<u8>;

/// Encoding of the point to which a message is hashed: the G2 point drawn from its digest.
pub open spec fn hash_g2_of(msg: Seq<u8>) -> Seq<u8> {
    g2_from_seed_of(sha3_256_of(msg))
}

/// The logarithm of the G1 point that the bytes encode.
pub open spec fn g1_dlog_of(b: Seq<u8>) -> int {
    choose|a: int| 0 <= a < order() && b == #[trigger] g1_enc(a)
}

/// The bytes encode some point of G1.
pub open spec fn is_g1(b: Seq<u8>) -> bool {
    exists|a: int| 0 <= a < order() && b == #[trigger] g1_enc(a)
}

/// The logarithm of the G2 point that the bytes encode.
pub open spec fn g2_dlog_of(b: Seq<u8>) -> int {
    choose|a: int| 0 <= a < order() && b == #[trigger] g2_enc(a)
}

/// The bytes encode some point of G2.
pub open spec fn is_g2(b: Seq<u8>) -> bool {
    exists|a: int| 0 <= a < order() && b == #[trigger] g2_enc(a)
}


/// A point of G1, held as its compressed encoding; its model is its discrete logarithm
/// with respect to the group's generator.
#[derive(Clone, Copy)]
pub struct G1Point {
    bytes: [u8; 48],
    dlog: Ghost<int>,
}

impl G1Point {
    /// Discrete logarithm of the point with respect to the generator.
    pub closed spec fn dlog(&self) -> int {
        self.dlog@
    }

    /// The logarithm is reduced and the bytes are the encoding of the point with it.
    pub open spec fn wf(&self) -> bool {
        0 <= self.dlog() < order() && self.encodes()
    }

    /// The bytes are the encoding of the point with the logarithm.
    pub closed spec fn encodes(&self) -> bool {
        self.bytes@ == g1_enc(self.dlog@)
    }

    /// The encoding of this point.
    pub closed spec fn enc(&self) -> Seq<u8> {
        self.bytes@
    }

    /// Compressed encoding of the point.
    pub fn to_bytes(&self) -> (r: [u8; 48])
        requires
            self.wf(),
        ensures
            r@ == g1_enc(self.dlog()),
            r@ == self.enc(),
    {
        self.bytes
    }

    /// Decodes a compressed point; `None` exactly where the bytes encode no point of the group.
    pub fn from_bytes(b: &[u8; 48]) -> (r: Option<G1Point>)
        ensures
            r is Some <==> is_g1(b@),
            r matches Some(p) ==> p.wf() && p.enc() == b@ && p.dlog() == g1_dlog_of(b@),
            forall|q: G1Point| q.wf() && #[trigger] q.enc() == b@ ==> (r matches Some(p)
                && p.dlog() == q.dlog()),
    {
        if g1_decode(b) {
            let ghost a = g1_dlog_of(b@);
            Some(G1Point { bytes: *b, dlog: Ghost(a) })
        } else {
            None
        }
    }

    /// Multiplication of the point by a scalar.
    pub fn mul(&self, k: &Scalar) -> (r: G1Point)
        requires
            self.wf(),
            k.wf(),
        ensures
            r.wf(),
            r.dlog() == (self.dlog() * k.value()) % order(),
    {
        let b = g1_mul(&self.bytes, k);
        G1Point { bytes: b, dlog: Ghost((self.dlog@ * k.value()) % order()) }
    }

    /// Equality of points.
    pub fn equals(&self, other: &G1Point) -> (r: bool)
        requires
            self.wf(),
            other.wf(),
        ensures
            r == (self.dlog() == other.dlog()),
    {
        g1_eq(&self.bytes, &other.bytes)
    }
}

/// Relies on `EncodedPoint::into_affine` of pairing's `G1Compressed`: it accepts exactly the
/// canonical compressed encodings of the points of the prime-order subgroup.
#[verifier::external_body]
fn g1_decode(b: &[u8; 48]) -> (r: bool)
    ensures
        r <==> is_g1(b@),
        r ==> forall|a: int, c: int|
            0 <= a < order() && 0 <= c < order() && b@ == #[trigger] g1_enc(a) && b@
                == #[trigger] g1_enc(c) ==> a == c,
{
    let mut c = G1Compressed::empty();
    c.as_mut().copy_from_slice(&b[..]);
    c.into_affine().is_ok()
}

/// Relies on `CurveAffine::mul` of pairing's `G1Affine`: `a` times `k` times the generator
/// for the point `a` times the generator.
#[verifier::external_body]
fn g1_mul(p: &[u8; 48], k: &Scalar) -> (r: [u8; 48])
    requires
        is_g1(p@),
        k.wf(),
    ensures
        forall|a: int| 0 <= a < order() && p@ == #[trigger] g1_enc(a)
            ==> r@ == g1_enc((a * k.value()) % order()),
{
    let mut c = G1Compressed::empty();
    c.as_mut().copy_from_slice(&p[..]);
    let x = c.into_affine_unchecked().unwrap().mul(FrRepr(k.limbs));
    let mut out = [0u8; 48];
    out.copy_from_slice(x.into_affine().into_compressed().as_ref());
    out
}

/// Relies on `PartialEq` of pairing's `G1Affine`: two points are equal exactly when their
/// logarithms are, the generator having the prime order.
#[verifier::external_body]
fn g1_eq(p: &[u8; 48], q: &[u8; 48]) -> (r: bool)
    requires
        is_g1(p@),
        is_g1(q@),
    ensures
        forall|a: int, b: int|
            0 <= a < order() && 0 <= b < order() && p@ == #[trigger] g1_enc(a) && q@
                == #[trigger] g1_enc(b) ==> (r <==> a == b),
{
    let mut c = G1Compressed::empty();
    c.as_mut().copy_from_slice(&p[..]);
    let mut d = G1Compressed::empty();
    d.as_mut().copy_from_slice(&q[..]);
    c.into_affine_unchecked().unwrap() == d.into_affine_unchecked().unwrap()
}

/// A point of G2, held as its compressed encoding; its model is its discrete logarithm
/// with respect to the group's generator.
#[derive(Clone, Copy)]
pub struct G2Point {
    bytes: [u8; 96],
    dlog: Ghost<int>,
}

impl G2Point {
    /// Discrete logarithm of the point with respect to the generator.
    pub closed spec fn dlog(&self) -> int {
        self.dlog@
    }

    /// The logarithm is reduced and the bytes are the encoding of the point with it.
    pub open spec fn wf(&self) -> bool {
        0 <= self.dlog() < order() && self.encodes()
    }

    /// The bytes are the encoding of the point with the logarithm.
    pub closed spec fn encodes(&self) -> bool {
        self.bytes@ == g2_enc(self.dlog@)
    }

    /// The encoding of this point.
    pub closed spec fn enc(&self) -> Seq<u8> {
        self.bytes@
    }

    /// Compressed encoding of the point.
    pub fn to_bytes(&self) -> (r: [u8; 96])
        requires
            self.wf(),
        ensures
            r@ == g2_enc(self.dlog()),
            r@ == self.enc(),
    {
        self.bytes
    }

    /// Decodes a compressed point; `None` exactly where the bytes encode no point of the group.
    pub fn from_bytes(b: &[u8; 96]) -> (r: Option<G2Point>)
        ensures
            r is Some <==> is_g2(b@),
            r matches Some(p) ==> p.wf() && p.enc() == b@ && p.dlog() == g2_dlog_of(b@),
            forall|q: G2Point| q.wf() && #[trigger] q.enc() == b@ ==> (r matches Some(p)
                && p.dlog() == q.dlog()),
    {
        if g2_decode(b) {
            let ghost a = g2_dlog_of(b@);
            Some(G2Point { bytes: *b, dlog: Ghost(a) })
        } else {
            None
        }
    }

    /// Multiplication of the point by a scalar.
    pub fn mul(&self, k: &Scalar) -> (r: G2Point)
        requires
            self.wf(),
            k.wf(),
        ensures
            r.wf(),
            r.dlog() == (self.dlog() * k.value()) % order(),
    {
        let b = g2_mul(&self.bytes, k);
        G2Point { bytes: b, dlog: Ghost((self.dlog@ * k.value()) % order()) }
    }

    /// Equality of points.
    pub fn equals(&self, other: &G2Point) -> (r: bool)
        requires
            self.wf(),
            other.wf(),
        ensures
            r == (self.dlog() == other.dlog()),
    {
        g2_eq(&self.bytes, &other.bytes)
    }
}

/// Relies on `EncodedPoint::into_affine` of pairing's `G2Compressed`: it accepts exactly the
/// canonical compressed encodings of the points of the prime-order subgroup.
#[verifier::external_body]
fn g2_decode(b: &[u8; 96]) -> (r: bool)
    ensures
        r <==> is_g2(b@),
        r ==> forall|a: int, c: int|
            0 <= a < order() && 0 <= c < order() && b@ == #[trigger] g2_enc(a) && b@
                == #[trigger] g2_enc(c) ==> a == c,
{
    let mut c = G2Compressed::empty();
    c.as_mut().copy_from_slice(&b[..]);
    c.into_affine().is_ok()
}

/// Relies on `CurveAffine::mul` of pairing's `G2Affine`: `a` times `k` times the generator
/// for the point `a` times the generator.
#[verifier::external_body]
fn g2_mul(p: &[u8; 96], k: &Scalar) -> (r: [u8; 96])
    requires
        is_g2(p@),
        k.wf(),
    ensures
        forall|a: int| 0 <= a < order() && p@ == #[trigger] g2_enc(a)
            ==> r@ == g2_enc((a * k.value()) % order()),
{
    let mut c = G2Compressed::empty();
    c.as_mut().copy_from_slice(&p[..]);
    let x = c.into_affine_unchecked().unwrap().mul(FrRepr(k.limbs));
    let mut out = [0u8; 96];
    out.copy_from_slice(x.into_affine().into_compressed().as_ref());
    out
}

/// Relies on `PartialEq` of pairing's `G2Affine`: two points are equal exactly when their
/// logarithms are, the generator having the prime order.
#[verifier::external_body]
fn g2_eq(p: &[u8; 96], q: &[u8; 96]) -> (r: bool)
    requires
        is_g2(p@),
        is_g2(q@),
    ensures
        forall|a: int, b: int|
            0 <= a < order() && 0 <= b < order() && p@ == #[trigger] g2_enc(a) && q@
                == #[trigger] g2_enc(b) ==> (r <==> a == b),
{
    let mut c = G2Compressed::empty();
    c.as_mut().copy_from_slice(&p[..]);
    let mut d = G2Compressed::empty();
    d.as_mut().copy_from_slice(&q[..]);
    c.into_affine_unchecked().unwrap() == d.into_affine_unchecked().unwrap()
}

/// A well-formed G1 point's encoding is that of a point of G1.
pub proof fn lemma_g1_wf_is_g1(p: G1Point)
    requires
        p.wf(),
    ensures
        is_g1(p.enc()),
{
    assert(p.enc() == g1_enc(p.dlog()));
}

impl G1Point {
    /// The scalar times the generator of G1.
    pub fn generator_mul(k: &Scalar) -> (r: G1Point)
        requires
            k.wf(),
        ensures
            r.wf(),
            r.dlog() == k.value(),
    {
        let b = g1_gen_mul(k);
        G1Point { bytes: b, dlog: Ghost(k.value()) }
    }

    /// Sum of two points.
    pub fn add(&self, other: &G1Point) -> (r: G1Point)
        requires
            self.wf(),
            other.wf(),
        ensures
            r.wf(),
            r.dlog() == (self.dlog() + other.dlog()) % order(),
    {
        let b = g1_add(&self.bytes, &other.bytes);
        G1Point { bytes: b, dlog: Ghost((self.dlog@ + other.dlog@) % order()) }
    }
}

impl G2Point {
    /// Sum of two points.
    pub fn add(&self, other: &G2Point) -> (r: G2Point)
        requires
            self.wf(),
            other.wf(),
        ensures
            r.wf(),
            r.dlog() == (self.dlog() + other.dlog()) % order(),
    {
        let b = g2_add(&self.bytes, &other.bytes);
        G2Point { bytes: b, dlog: Ghost((self.dlog@ + other.dlog@) % order()) }
    }

    /// The point to which a message is hashed before signing.
    pub fn hash_of(msg: &Vec<u8>) -> (r: G2Point)
        ensures
            r.wf(),
            r.enc() == hash_g2_of(msg@),
            r.dlog() == g2_dlog_of(hash_g2_of(msg@)),
    {
        let digest = sha3_256(msg);
        let b = g2_from_seed(&digest);
        let ghost a = g2_dlog_of(b@);
        G2Point { bytes: b, dlog: Ghost(a) }
    }
}

/// Relies on `CurveAffine::mul` of pairing's `G1Affine::one()`: the encoding of `k` times
/// the generator.
#[verifier::external_body]
fn g1_gen_mul(k: &Scalar) -> (r: [u8; 48])
    requires
        k.wf(),
    ensures
        r@ == g1_enc(k.value()),
{
    let x = G1Affine::one().mul(FrRepr(k.limbs));
    let mut out = [0u8; 48];
    out.copy_from_slice(x.into_affine().into_compressed().as_ref());
    out
}

/// Relies on `CurveProjective::add_assign_mixed` of pairing's `G1`: the logarithms add.
#[verifier::external_body]
fn g1_add(p: &[u8; 48], q: &[u8; 48]) -> (r: [u8; 48])
    requires
        is_g1(p@),
        is_g1(q@),
    ensures
        forall|a: int, b: int|
            0 <= a < order() && 0 <= b < order() && p@ == #[trigger] g1_enc(a) && q@
                == #[trigger] g1_enc(b) ==> r@ == g1_enc((a + b) % order()),
{
    let mut c = G1Compressed::empty();
    c.as_mut().copy_from_slice(&p[..]);
    let mut d = G1Compressed::empty();
    d.as_mut().copy_from_slice(&q[..]);
    let mut x = c.into_affine_unchecked().unwrap().into_projective();
    x.add_assign_mixed(&d.into_affine_unchecked().unwrap());
    let mut out = [0u8; 48];
    out.copy_from_slice(x.into_affine().into_compressed().as_ref());
    out
}

/// Relies on `CurveProjective::add_assign_mixed` of pairing's `G2`: the logarithms add.
#[verifier::external_body]
fn g2_add(p: &[u8; 96], q: &[u8; 96]) -> (r: [u8; 96])
    requires
        is_g2(p@),
        is_g2(q@),
    ensures
        forall|a: int, b: int|
            0 <= a < order() && 0 <= b < order() && p@ == #[trigger] g2_enc(a) && q@
                == #[trigger] g2_enc(b) ==> r@ == g2_enc((a + b) % order()),
{
    let mut c = G2Compressed::empty();
    c.as_mut().copy_from_slice(&p[..]);
    let mut d = G2Compressed::empty();
    d.as_mut().copy_from_slice(&q[..]);
    let mut x = c.into_affine_unchecked().unwrap().into_projective();
    x.add_assign_mixed(&d.into_affine_unchecked().unwrap());
    let mut out = [0u8; 96];
    out.copy_from_slice(x.into_affine().into_compressed().as_ref());
    out
}

/// Relies on tiny_keccak's `Sha3::v256`: the SHA3-256 digest of the message.
#[verifier::external_body]
fn sha3_256(msg: &Vec<u8>) -> (r: [u8; 32])
    ensures
        r@ == sha3_256_of(msg@),
{
    let mut h = tiny_keccak::Sha3::v256();
    h.update(&msg[..]);
    let mut digest = [0u8; 32];
    h.finalize(&mut digest);
    digest
}

/// Relies on pairing's `G2::random` over rand_chacha's `ChaChaRng::from_seed`: a point of G2
/// that depends on the seed alone.
#[verifier::external_body]
fn g2_from_seed(seed: &[u8; 32]) -> (r: [u8; 96])
    ensures
        r@ == g2_from_seed_of(seed@),
        is_g2(r@),
{
    let p = G2::random(&mut rand_chacha::ChaChaRng::from_seed(*seed));
    let mut out = [0u8; 96];
    out.copy_from_slice(p.into_affine().into_compressed().as_ref());
    out
}

/// Relies on `Engine::pairing` of pairing's `Bls12`: by bilinearity, `e(aP, bQ) == e(cP, dQ)`
/// for the generators `P`, `Q` exactly when `a * b == c * d` modulo the order.
#[verifier::external_body]
fn pairing_eq(p1: &[u8; 48], q1: &[u8; 96], p2: &[u8; 48], q2: &[u8; 96]) -> (r: bool)
    requires
        is_g1(p1@),
        is_g2(q1@),
        is_g1(p2@),
        is_g2(q2@),
    ensures
        forall|a: int, b: int, c: int, d: int|
            0 <= a < order() && 0 <= b < order() && 0 <= c < order() && 0 <= d < order() && p1@
                == #[trigger] g1_enc(a) && q1@ == #[trigger] g2_enc(b) && p2@ == #[trigger] g1_enc(
                c,
            ) && q2@ == #[trigger] g2_enc(d) ==> (r <==> (a * b) % order() == (c * d) % order()),
{
    let (mut a, mut b) = (G1Compressed::empty(), G2Compressed::empty());
    a.as_mut().copy_from_slice(&p1[..]);
    b.as_mut().copy_from_slice(&q1[..]);
    let (mut c, mut d) = (G1Compressed::empty(), G2Compressed::empty());
    c.as_mut().copy_from_slice(&p2[..]);
    d.as_mut().copy_from_slice(&q2[..]);
    let lhs = Bls12::pairing(a.into_affine_unchecked().unwrap(), b.into_affine_unchecked().unwrap());
    lhs == Bls12::pairing(c.into_affine_unchecked().unwrap(), d.into_affine_unchecked().unwrap())
}

/// `e(pk, h) == e(g1, sig)`: the pairing check of a BLS signature `sig` on a hashed message `h`
/// under the public key `pk`.
pub fn verify_pairing(pk: &G1Point, h: &G2Point, sig: &G2Point) -> (r: bool)
    requires
        pk.wf(),
        h.wf(),
        sig.wf(),
    ensures
        r == ((pk.dlog() * h.dlog()) % order() == sig.dlog() % order()),
{
    let one = Scalar::from_u64(1);
    let g = G1Point::generator_mul(&one);
    let r = pairing_eq(&pk.bytes, &h.bytes, &g.bytes, &sig.bytes);
    assert(g.bytes@ == g1_enc(1));
    assert(r == ((pk.dlog() * h.dlog()) % order() == (1 * sig.dlog()) % order()));
    r
}

} // verus!
