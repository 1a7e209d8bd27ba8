use vstd::prelude::*;
use crate::curve::{g1_dlog_of, is_g1, G1Point};
use crate::field::{be_value, order, Scalar};
use crate::poly::{Commitment, Poly};

verus! {

/// Bytes `w * k .. w * k + w` of `b`.
pub open spec fn chunk(b: Seq<u8>, w: int, k: int) -> Seq<u8> {
    b.subrange(w * k, w * k + w)
}

/// The bytes are a sequence of 32-byte big-endian encodings of field elements.
pub open spec fn poly_bytes_ok(b: Seq<u8>) -> bool {
    b.len() % 32 == 0 && forall|k: int|
        0 <= k < b.len() / 32 ==> be_value(#[trigger] chunk(b, 32, k)) < order()
}

/// The coefficients that the bytes encode.
pub open spec fn poly_values_of(b: Seq<u8>) -> Seq<int> {
    Seq::new((b.len() / 32) as nat, |k: int| be_value(chunk(b, 32, k)))
}

/// The bytes are a sequence of 48-byte compressed encodings of G1 points.
pub open spec fn commitment_bytes_ok(b: Seq<u8>) -> bool {
    b.len() % 48 == 0 && forall|k: int| 0 <= k < b.len() / 48 ==> is_g1(#[trigger] chunk(b, 48, k))
}

/// The logarithms of the points that the bytes encode.
pub open spec fn commitment_dlogs_of(b: Seq<u8>) -> Seq<int> {
    Seq::new((b.len() / 48) as nat, |k: int| g1_dlog_of(chunk(b, 48, k)))
}

/// Little-endian integer value of a byte string.
pub open spec fn le_value(s: Seq<u8>) -> int
    decreases s.len(),
{
    if s.len() == 0 {
        0
    } else {
        s[0] as int + 256 * le_value(s.drop_first())
    }
}

/// Copies 32 bytes starting at `pos`.
fn take32(b: &Vec<u8>, pos: usize) -> (r: [u8; 32])
    requires
        pos + 32 <= b@.len(),
    ensures
        r@ == b@.subrange(pos as int, pos + 32),
{
    let mut a = [0u8; 32];
    let len = b.len();
    let mut t: usize = 0;
    while t < 32
        invariant
            len == b@.len(),
            pos + 32 <= len,
            t <= 32,
            forall|i: int| 0 <= i < t ==> a@[i] == b@[pos + i],
        decreases 32 - t,
    {
        a[t] = b[pos + t];
        t = t + 1;
    }
    assert(a@ =~= b@.subrange(pos as int, pos + 32));
    a
}

/// Copies 48 bytes starting at `pos`.
fn take48(b: &Vec<u8>, pos: usize) -> (r: [u8; 48])
    requires
        pos + 48 <= b@.len(),
    ensures
        r@ == b@.subrange(pos as int, pos + 48),
{
    let mut a = [0u8; 48];
    let len = b.len();
    let mut t: usize = 0;
    while t < 48
        invariant
            len == b@.len(),
            pos + 48 <= len,
            t <= 48,
            forall|i: int| 0 <= i < t ==> a@[i] == b@[pos + i],
        decreases 48 - t,
    {
        a[t] = b[pos + t];
        t = t + 1;
    }
    assert(a@ =~= b@.subrange(pos as int, pos + 48));
    a
}

/// Appends the bytes of `a` to `out`.
fn append_bytes(out: &mut Vec<u8>, a: &[u8])
    ensures
        final(out)@ == old(out)@ + a@,
{
    let mut t: usize = 0;
    while t < a.len()
        invariant
            t <= a@.len(),
            out@ == old(out)@ + a@.subrange(0, t as int),
        decreases a@.len() - t,
    {
        out.push(a[t]);
        t = t + 1;
        assert(a@.subrange(0, t as int) =~= a@.subrange(0, t - 1) + seq![a@[t - 1]]);
    }
    assert(a@.subrange(0, a@.len() as int) =~= a@);
}

/// Copies a byte string of exactly 32 bytes into an array; `None` for any other length.
pub fn to_array32(b: &Vec<u8>) -> (r: Option<[u8; 32]>)
    ensures
        r is Some <==> b@.len() == 32,
        r matches Some(a) ==> a@ == b@,
{
    if b.len() == 32 {
        let a = take32(b, 0);
        assert(b@.subrange(0, 32) =~= b@);
        Some(a)
    } else {
        None
    }
}

/// Copies a byte string of exactly 48 bytes into an array; `None` for any other length.
pub fn to_array48(b: &Vec<u8>) -> (r: Option<[u8; 48]>)
    ensures
        r is Some <==> b@.len() == 48,
        r matches Some(a) ==> a@ == b@,
{
    if b.len() == 48 {
        let a = take48(b, 0);
        assert(b@.subrange(0, 48) =~= b@);
        Some(a)
    } else {
        None
    }
}

impl Poly {
    /// Concatenated 32-byte big-endian encodings of the coefficients.
    pub fn to_bytes(&self) -> (r: Vec<u8>)
        requires
            self.wf(),
        ensures
            poly_bytes_ok(r@),
            poly_values_of(r@) == self.values(),
    {
        let mut out: Vec<u8> = Vec::new();
        let mut i: usize = 0;
        while i < self.coeffs.len()
            invariant
                self.wf(),
                i <= self.coeffs@.len(),
                out@.len() == 32 * i,
                forall|k: int|
                    0 <= k < i ==> be_value(#[trigger] chunk(out@, 32, k))
                        == self.coeffs@[k].value(),
            decreases self.coeffs@.len() - i,
        {
            let ghost prev = out@;
            let a = self.coeffs[i].to_bytes();
            append_bytes(&mut out, &a);
            assert forall|k: int| 0 <= k <= i implies be_value(#[trigger] chunk(out@, 32, k))
                == self.coeffs@[k].value() by {
                if k < i {
                    assert(chunk(out@, 32, k) =~= chunk(prev, 32, k));
                } else {
                    assert(chunk(out@, 32, k) =~= a@);
                }
            }
            i = i + 1;
        }
        proof {
            assert(out@.len() / 32 == self.coeffs@.len());
            assert forall|k: int| 0 <= k < out@.len() / 32 implies be_value(
                #[trigger] chunk(out@, 32, k),
            ) < order() by {
                assert(self.coeffs@[k].wf());
            }
            assert(poly_values_of(out@) =~= self.values());
        }
        out
    }

    /// Decodes concatenated 32-byte big-endian coefficients; `None` unless every one is a
    /// field element and the length is a multiple of 32.
    pub fn from_bytes(b: &Vec<u8>) -> (r: Option<Poly>)
        ensures
            r is Some <==> poly_bytes_ok(b@),
            r matches Some(p) ==> p.wf() && p.values() == poly_values_of(b@),
    {
        if b.len() % 32 != 0 {
            return None;
        }
        let len = b.len();
        let n = len / 32;
        let mut coeffs: Vec<Scalar> = Vec::new();
        let mut k: usize = 0;
        while k < n
            invariant
                len == b@.len(),
                n == len / 32,
                len % 32 == 0,
                k <= n,
                coeffs@.len() == k,
                forall|j: int|
                    0 <= j < k ==> (#[trigger] coeffs@[j]).wf() && coeffs@[j].value() == be_value(
                        chunk(b@, 32, j),
                    ) && be_value(chunk(b@, 32, j)) < order(),
            decreases n - k,
        {
            proof {
                vstd::arithmetic::div_mod::lemma_fundamental_div_mod(len as int, 32);
                assert(32 * k + 32 <= len);
            }
            let a = take32(b, 32 * k);
            assert(a@ == chunk(b@, 32, k as int));
            match Scalar::from_bytes(&a) {
                Some(s) => coeffs.push(s),
                None => {
                    assert(be_value(chunk(b@, 32, k as int)) >= order());
                    return None;
                },
            }
            k = k + 1;
        }
        let p = Poly { coeffs };
        assert(p.values() =~= poly_values_of(b@));
        assert forall|j: int| 0 <= j < b@.len() / 32 implies be_value(#[trigger] chunk(b@, 32, j))
            < order() by {
            assert(coeffs@[j].wf());
        }
        Some(p)
    }
}

impl Commitment {
    /// Concatenated compressed encodings of the points.
    pub fn to_bytes(&self) -> (r: Vec<u8>)
        requires
            self.wf(),
        ensures
            commitment_bytes_ok(r@),
            r@.len() == 48 * self.points@.len(),
            forall|k: int|
                0 <= k < self.points@.len() ==> #[trigger] chunk(r@, 48, k)
                    == self.points@[k].enc(),
    {
        let mut out: Vec<u8> = Vec::new();
        let mut i: usize = 0;
        while i < self.points.len()
            invariant
                self.wf(),
                i <= self.points@.len(),
                out@.len() == 48 * i,
                forall|k: int| 0 <= k < i ==> #[trigger] chunk(out@, 48, k) == self.points@[k].enc(),
            decreases self.points@.len() - i,
        {
            let ghost prev = out@;
            let a = self.points[i].to_bytes();
            append_bytes(&mut out, &a);
            assert forall|k: int| 0 <= k <= i implies #[trigger] chunk(out@, 48, k)
                == self.points@[k].enc() by {
                if k < i {
                    assert(chunk(out@, 48, k) =~= chunk(prev, 48, k));
                } else {
                    assert(chunk(out@, 48, k) =~= a@);
                }
            }
            i = i + 1;
        }
        proof {
            assert(out@.len() / 48 == self.points@.len());
            assert forall|k: int| 0 <= k < out@.len() / 48 implies is_g1(
                #[trigger] chunk(out@, 48, k),
            ) by {
                assert(self.points@[k].wf());
                crate::curve::lemma_g1_wf_is_g1(self.points@[k]);
            }
        }
        out
    }

    /// Decodes concatenated compressed G1 points; `None` unless every one is a point and the
    /// length is a multiple of 48.
    pub fn from_bytes(b: &Vec<u8>) -> (r: Option<Commitment>)
        ensures
            r is Some <==> commitment_bytes_ok(b@),
            r matches Some(c) ==> c.wf() && c.dlogs() == commitment_dlogs_of(b@),
    {
        if b.len() % 48 != 0 {
            return None;
        }
        let len = b.len();
        let n = len / 48;
        let mut points: Vec<G1Point> = Vec::new();
        let mut k: usize = 0;
        while k < n
            invariant
                len == b@.len(),
                n == len / 48,
                len % 48 == 0,
                k <= n,
                points@.len() == k,
                forall|j: int|
                    0 <= j < k ==> (#[trigger] points@[j]).wf() && points@[j].dlog() == g1_dlog_of(
                        chunk(b@, 48, j),
                    ) && is_g1(chunk(b@, 48, j)),
            decreases n - k,
        {
            proof {
                vstd::arithmetic::div_mod::lemma_fundamental_div_mod(len as int, 48);
                assert(48 * k + 48 <= len);
            }
            let a = take48(b, 48 * k);
            assert(a@ == chunk(b@, 48, k as int));
            match G1Point::from_bytes(&a) {
                Some(p) => points.push(p),
                None => {
                    assert(!is_g1(chunk(b@, 48, k as int)));
                    return None;
                },
            }
            k = k + 1;
        }
        let c = Commitment { points };
        assert(c.dlogs() =~= commitment_dlogs_of(b@));
        assert forall|j: int| 0 <= j < b@.len() / 48 implies is_g1(#[trigger] chunk(b@, 48, j)) by {
            assert(points@[j].wf());
        }
        Some(c)
    }
}

/// A participant index from at most 8 little-endian bytes (zero-padded); `None` for more.
pub fn index_from_bytes(b: &Vec<u8>) -> (r: Option<u64>)
    ensures
        r is Some <==> b@.len() <= 8,
        r matches Some(v) ==> v as int == le_value(b@),
{
    if b.len() > 8 {
        return None;
    }
    let mut a = [0u8; 8];
    let mut t: usize = 0;
    while t < b.len()
        invariant
            b@.len() <= 8,
            t <= b@.len(),
            forall|i: int| 0 <= i < t ==> a@[i] == b@[i],
            forall|i: int| t <= i < 8 ==> a@[i] == 0,
        decreases b@.len() - t,
    {
        a[t] = b[t];
        t = t + 1;
    }
    proof {
        lemma_le_zero_pad(b@, 8 - b@.len());
        assert(a@ =~= b@ + Seq::new((8 - b@.len()) as nat, |i: int| 0u8));
    }
    Some(u64_from_le(&a))
}

/// Trailing zero bytes do not change a little-endian value.
proof fn lemma_le_zero_pad(s: Seq<u8>, n: int)
    requires
        n >= 0,
    ensures
        le_value(s + Seq::new(n as nat, |i: int| 0u8)) == le_value(s),
    decreases s.len() + n,
{
    let z = Seq::new(n as nat, |i: int| 0u8);
    if s.len() == 0 {
        assert(s + z =~= z);
        if n > 0 {
            assert(z.drop_first() =~= Seq::new((n - 1) as nat, |i: int| 0u8));
            lemma_le_zero_pad(s, n - 1);
            assert(s + Seq::new((n - 1) as nat, |i: int| 0u8) =~= Seq::new(
                (n - 1) as nat,
                |i: int| 0u8,
            ));
        }
    } else {
        assert((s + z).drop_first() =~= s.drop_first() + z);
        lemma_le_zero_pad(s.drop_first(), n);
    }
}

/// Relies on `u64::from_le_bytes`: the little-endian value of the eight bytes.
#[verifier::external_body]
fn u64_from_le(a: &[u8; 8]) -> (r: u64)
    ensures
        r as int == le_value(a@),
{
    u64::from_le_bytes(*a)
}

/// The eight big-endian bytes of a 64-bit value.
pub open spec fn be8(v: int) -> Seq<u8> {
    Seq::new(8, |i: int| ((v / vstd::arithmetic::power::pow(256, (7 - i) as nat)) % 256) as u8)
}

/// Relies on `u64::to_be_bytes`: the eight big-endian bytes of the value.
#[verifier::external_body]
pub(crate) fn u64_to_be(v: u64) -> (r: [u8; 8])
    ensures
        r@ == be8(v as int),
{
    v.to_be_bytes()
}

} // verus!
