use vstd::prelude::*;
use crate::bivar::BivarPoly;
use crate::codec::{
    chunk, commitment_bytes_ok, commitment_dlogs_of, index_from_bytes, le_value, poly_bytes_ok,
    poly_values_of, to_array32, u64_to_be, be8,
};
use crate::curve::{g1_enc, g2_dlog_of, g2_enc, hash_g2_of, G1Point, G2Point};
use crate::field::{be_value, order, Scalar};
use crate::poly::{coeff, horner, interpolate_at_zero, lagrange_at_zero, Commitment, Poly};

verus! {

/// Why a protocol step refused its input.
#[derive(Clone, Copy, Debug, PartialEq, Eq, Structural)]
pub enum DkgError {
    /// A scalar, point, polynomial, commitment or index is not a valid encoding.
    MalformedEncoding,
    /// A row does not match the commitment sent with it.
    CommitmentMismatch,
    /// Two shares claim the same participant index.
    DuplicateIndex,
    /// The number of indexes differs from the number of shares.
    ShareCountMismatch,
}

/// Sum over the first `k` sequences of their value at zero, in Fr.
pub open spec fn sum_at_zero(vals: Seq<Seq<int>>, k: int) -> int
    decreases k,
{
    if k <= 0 {
        0
    } else {
        (sum_at_zero(vals, k - 1) + horner(vals[k - 1], 0)) % order()
    }
}

/// Sum over the first `k` sequences of their first entry (zero when empty), in Fr.
pub open spec fn sum_first(vals: Seq<Seq<int>>, k: int) -> int
    decreases k,
{
    if k <= 0 {
        0
    } else {
        (sum_first(vals, k - 1) + coeff(vals[k - 1], 0)) % order()
    }
}

/// The message signed for a round: the input followed by the round's eight big-endian bytes.
pub open spec fn round_message(input: Seq<u8>, round: u64) -> Seq<u8> {
    input + be8(round as int)
}

/// BLS signature by secret `sk` of a message: the hashed point times the secret.
pub open spec fn signature_of(msg: Seq<u8>, sk: int) -> Seq<u8> {
    g2_enc((g2_dlog_of(hash_g2_of(msg)) * sk) % order())
}

/// The smaller of two lengths.
pub open spec fn min_len(a: int, b: int) -> int {
    if a <= b {
        a
    } else {
        b
    }
}

/// A participant's secret-key share.
pub struct KeyShare {
    sk: Scalar,
}

impl KeyShare {
    /// The share as a field element.
    pub closed spec fn secret(&self) -> int {
        self.sk.value()
    }

    /// The share is a field element.
    pub closed spec fn wf(&self) -> bool {
        self.sk.wf()
    }

    /// A key share from its 32-byte big-endian encoding; `None` unless it is a field element.
    pub fn from_bytes(b: &Vec<u8>) -> (r: Option<KeyShare>)
        ensures
            r is Some <==> b@.len() == 32 && be_value(b@) < order(),
            r matches Some(k) ==> k.wf() && k.secret() == be_value(b@),
    {
        match to_array32(b) {
            Some(a) => match Scalar::from_bytes(&a) {
                Some(sk) => Some(KeyShare { sk }),
                None => None,
            },
            None => None,
        }
    }

    /// The public-key share: the generator of G1 times the secret.
    pub fn get_pk(&self) -> (r: [u8; 48])
        requires
            self.wf(),
        ensures
            r@ == g1_enc(self.secret()),
    {
        G1Point::generator_mul(&self.sk).to_bytes()
    }

    /// Signature share on `input` followed by the round number's big-endian bytes.
    pub fn sign_g2(&self, input: &Vec<u8>, round: u64) -> (r: [u8; 96])
        requires
            self.wf(),
        ensures
            r@ == signature_of(round_message(input@, round), self.secret()),
    {
        let mut msg = input.clone();
        let tail = u64_to_be(round);
        let mut t: usize = 0;
        while t < 8
            invariant
                t <= 8,
                msg@ == input@ + tail@.subrange(0, t as int),
            decreases 8 - t,
        {
            msg.push(tail[t]);
            t = t + 1;
            assert(tail@.subrange(0, t as int) =~= tail@.subrange(0, t - 1) + seq![tail@[t - 1]]);
        }
        assert(tail@.subrange(0, 8) =~= tail@);
        sign_scalar(&self.sk, &msg)
    }

    /// The 32-byte big-endian encoding of the share.
    pub fn to_bytes(&self) -> (r: [u8; 32])
        requires
            self.wf(),
        ensures
            be_value(r@) == self.secret(),
    {
        self.sk.to_bytes()
    }
}

/// The signature of `msg` under the secret `sk`.
fn sign_scalar(sk: &Scalar, msg: &Vec<u8>) -> (r: [u8; 96])
    requires
        sk.wf(),
    ensures
        r@ == signature_of(msg@, sk.value()),
{
    let h = G2Point::hash_of(msg);
    h.mul(sk).to_bytes()
}

/// Signs `msg` with the secret key share encoded in `sk`; `None` unless `sk` is 32 bytes
/// holding a field element.
pub fn sign(sk: &Vec<u8>, msg: &Vec<u8>) -> (r: Option<[u8; 96]>)
    ensures
        r is Some <==> sk@.len() == 32 && be_value(sk@) < order(),
        r matches Some(s) ==> s@ == signature_of(msg@, be_value(sk@)),
{
    match KeyShare::from_bytes(sk) {
        Some(k) => Some(sign_scalar(&k.sk, msg)),
        None => None,
    }
}

/// The public key of the secret key encoded in `priv_key`; `None` unless it is 32 bytes
/// holding a field element.
pub fn get_pk(priv_key: &Vec<u8>) -> (r: Option<[u8; 48]>)
    ensures
        r is Some <==> priv_key@.len() == 32 && be_value(priv_key@) < order(),
        r matches Some(pk) ==> pk@ == g1_enc(be_value(priv_key@)),
{
    match KeyShare::from_bytes(priv_key) {
        Some(k) => Some(k.get_pk()),
        None => None,
    }
}

/// Feldman check of a received row against the commitment sent with it.
pub fn verify_row(row: &Poly, commitment: &Commitment) -> (r: bool)
    requires
        row.wf(),
        commitment.wf(),
    ensures
        r == (row.values() == commitment.dlogs()),
{
    row.commitment().equals(commitment)
}

/// Sums the values at zero of the rows, each checked first against its commitment; `None`
/// when one of them does not match. Pairs past the shorter list are ignored.
pub fn aggregate(rows: &Vec<Poly>, commits: &Vec<Commitment>) -> (r: Option<Scalar>)
    requires
        forall|k: int| 0 <= k < rows@.len() ==> (#[trigger] rows@[k]).wf(),
        forall|k: int| 0 <= k < commits@.len() ==> (#[trigger] commits@[k]).wf(),
    ensures
        r is None <==> exists|k: int|
            0 <= k < min_len(rows@.len() as int, commits@.len() as int) && (#[trigger] rows@[k]).values()
                != commits@[k].dlogs(),
        r matches Some(s) ==> s.wf() && s.value() == sum_at_zero(
            rows@.map_values(|p: Poly| p.values()),
            min_len(rows@.len() as int, commits@.len() as int),
        ),
{
    let m = if rows.len() <= commits.len() {
        rows.len()
    } else {
        commits.len()
    };
    let ghost vals = rows@.map_values(|p: Poly| p.values());
    let mut acc = Scalar::zero();
    let zero = Scalar::zero();
    let mut k: usize = 0;
    while k < m
        invariant
            m == min_len(rows@.len() as int, commits@.len() as int),
            vals == rows@.map_values(|p: Poly| p.values()),
            forall|j: int| 0 <= j < rows@.len() ==> (#[trigger] rows@[j]).wf(),
            forall|j: int| 0 <= j < commits@.len() ==> (#[trigger] commits@[j]).wf(),
            zero.wf(),
            zero.value() == 0,
            k <= m,
            acc.wf(),
            acc.value() == sum_at_zero(vals, k as int),
            forall|j: int| 0 <= j < k ==> (#[trigger] rows@[j]).values() == commits@[j].dlogs(),
        decreases m - k,
    {
        if !verify_row(&rows[k], &commits[k]) {
            return None;
        }
        let v = rows[k].evaluate(&zero);
        acc = acc.add(&v);
        k = k + 1;
    }
    Some(acc)
}

/// Decodes each of the first `m` encodings as a polynomial.
fn decode_rows(rows: &Vec<Vec<u8>>, m: usize) -> (r: Option<Vec<Poly>>)
    requires
        m <= rows@.len(),
    ensures
        r is Some <==> forall|k: int| 0 <= k < m ==> poly_bytes_ok(#[trigger] rows@[k]@),
        r matches Some(ps) ==> ps@.len() == m && forall|k: int|
            0 <= k < m ==> (#[trigger] ps@[k]).wf() && ps@[k].values() == poly_values_of(
                rows@[k]@,
            ),
{
    let mut ps: Vec<Poly> = Vec::new();
    let mut k: usize = 0;
    while k < m
        invariant
            m <= rows@.len(),
            k <= m,
            ps@.len() == k,
            forall|j: int|
                0 <= j < k ==> (#[trigger] ps@[j]).wf() && ps@[j].values() == poly_values_of(
                    rows@[j]@,
                ) && poly_bytes_ok(rows@[j]@),
        decreases m - k,
    {
        match Poly::from_bytes(&rows[k]) {
            Some(p) => ps.push(p),
            None => return None,
        }
        k = k + 1;
    }
    assert forall|j: int| 0 <= j < m implies poly_bytes_ok(#[trigger] rows@[j]@) by {
        assert(ps@[j].wf());
    }
    Some(ps)
}

/// Decodes each of the first `m` encodings as a commitment.
fn decode_commits(commits: &Vec<Vec<u8>>, m: usize) -> (r: Option<Vec<Commitment>>)
    requires
        m <= commits@.len(),
    ensures
        r is Some <==> forall|k: int| 0 <= k < m ==> commitment_bytes_ok(#[trigger] commits@[k]@),
        r matches Some(cs) ==> cs@.len() == m && forall|k: int|
            0 <= k < m ==> (#[trigger] cs@[k]).wf() && cs@[k].dlogs() == commitment_dlogs_of(
                commits@[k]@,
            ),
{
    let mut cs: Vec<Commitment> = Vec::new();
    let mut k: usize = 0;
    while k < m
        invariant
            m <= commits@.len(),
            k <= m,
            cs@.len() == k,
            forall|j: int|
                0 <= j < k ==> (#[trigger] cs@[j]).wf() && cs@[j].dlogs() == commitment_dlogs_of(
                    commits@[j]@,
                ) && commitment_bytes_ok(commits@[j]@),
        decreases m - k,
    {
        match Commitment::from_bytes(&commits[k]) {
            Some(c) => cs.push(c),
            None => return None,
        }
        k = k + 1;
    }
    assert forall|j: int| 0 <= j < m implies commitment_bytes_ok(#[trigger] commits@[j]@) by {
        assert(cs@[j].wf());
    }
    Some(cs)
}

/// A participant's secret-key share from the rows that the dealers sent it and the commitments
/// to those rows: every row is checked against its commitment, then their values at zero are
/// summed. Pairs past the shorter list are ignored.
pub fn get_sk_share(rows: &Vec<Vec<u8>>, commits: &Vec<Vec<u8>>) -> (r: Result<KeyShare, DkgError>)
    ensures
        ({
            let m = min_len(rows@.len() as int, commits@.len() as int);
            let ok = (forall|k: int| 0 <= k < m ==> poly_bytes_ok(#[trigger] rows@[k]@)) && (forall|
                k: int,
            |
                0 <= k < m ==> commitment_bytes_ok(#[trigger] commits@[k]@));
            let mismatch = exists|k: int|
                0 <= k < m && poly_values_of(#[trigger] rows@[k]@) != commitment_dlogs_of(
                    commits@[k]@,
                );
            &&& (r == Err::<KeyShare, DkgError>(DkgError::MalformedEncoding)) <==> !ok
            &&& ok ==> ((r == Err::<KeyShare, DkgError>(DkgError::CommitmentMismatch)) <==> mismatch)
            &&& ok && !mismatch ==> r is Ok
            &&& r matches Ok(ks) ==> ok && !mismatch && ks.wf() && ks.secret() == sum_at_zero(
                Seq::new(m as nat, |k: int| poly_values_of(rows@[k]@)),
                m,
            )
        }),
{
    let m = if rows.len() <= commits.len() {
        rows.len()
    } else {
        commits.len()
    };
    assert(m as int == min_len(rows@.len() as int, commits@.len() as int));
    let ps = match decode_rows(rows, m) {
        Some(ps) => ps,
        None => {
            proof {
                assert(exists|k: int| 0 <= k < m && !poly_bytes_ok(#[trigger] rows@[k]@));
                let k = choose|k: int| 0 <= k < m && !poly_bytes_ok(#[trigger] rows@[k]@);
                assert(!(poly_bytes_ok(rows@[k]@) && commitment_bytes_ok(commits@[k]@)));
            }
            return Err(DkgError::MalformedEncoding);
        },
    };
    let cs = match decode_commits(commits, m) {
        Some(cs) => cs,
        None => {
            proof {
                assert(exists|k: int| 0 <= k < m && !commitment_bytes_ok(#[trigger] commits@[k]@));
                let k = choose|k: int| 0 <= k < m && !commitment_bytes_ok(#[trigger] commits@[k]@);
                assert(!(poly_bytes_ok(rows@[k]@) && commitment_bytes_ok(commits@[k]@)));
            }
            return Err(DkgError::MalformedEncoding);
        },
    };
    proof {
        assert forall|k: int| 0 <= k < m implies poly_bytes_ok(#[trigger] rows@[k]@) by {
            assert(ps@[k].wf());
        }
        assert forall|k: int| 0 <= k < m implies commitment_bytes_ok(#[trigger] commits@[k]@) by {
            assert(cs@[k].wf());
        }
    }
    proof {
        assert(ps@.map_values(|p: Poly| p.values()) =~= Seq::new(
            m as nat,
            |k: int| poly_values_of(rows@[k]@),
        ));
    }
    match aggregate(&ps, &cs) {
        Some(sk) => {
            proof {
                if exists|k: int|
                    0 <= k < m && poly_values_of(#[trigger] rows@[k]@) != commitment_dlogs_of(
                        commits@[k]@,
                    ) {
                    let k = choose|k: int|
                        0 <= k < m && poly_values_of(#[trigger] rows@[k]@) != commitment_dlogs_of(
                            commits@[k]@,
                        );
                    assert(ps@[k].values() != cs@[k].dlogs());
                }
            }
            Ok(KeyShare { sk })
        },
        None => {
            proof {
                let k = choose|k: int|
                    0 <= k < m && (#[trigger] ps@[k]).values() != cs@[k].dlogs();
                assert(poly_values_of(rows@[k]@) != commitment_dlogs_of(commits@[k]@));
            }
            Err(DkgError::CommitmentMismatch)
        },
    }
}

/// The value at zero of a polynomial is its constant coefficient.
pub proof fn lemma_horner_at_zero(cs: Seq<int>)
    requires
        forall|i: int| 0 <= i < cs.len() ==> 0 <= #[trigger] cs[i] < order(),
    ensures
        horner(cs, 0) == coeff(cs, 0),
{
    if cs.len() > 0 {
        vstd::arithmetic::div_mod::lemma_small_mod(cs[0] as nat, order() as nat);
    }
}

/// The group public key from the dealers' commitments to their rows at zero: the commitments
/// are summed and the sum is evaluated at zero, giving the generator times the sum of the
/// dealers' secrets.
pub fn get_public_key(commits: &Vec<Vec<u8>>) -> (r: Result<[u8; 48], DkgError>)
    ensures
        r is Err <==> !(forall|k: int|
            0 <= k < commits@.len() ==> commitment_bytes_ok(#[trigger] commits@[k]@)),
        r is Err ==> r == Err::<[u8; 48], DkgError>(DkgError::MalformedEncoding),
        r matches Ok(pk) ==> pk@ == g1_enc(
            sum_first(
                Seq::new(commits@.len(), |k: int| commitment_dlogs_of(commits@[k]@)),
                commits@.len() as int,
            ),
        ),
{
    let n = commits.len();
    let cs = match decode_commits(commits, n) {
        Some(cs) => cs,
        None => return Err(DkgError::MalformedEncoding),
    };
    let ghost vals = Seq::new(commits@.len(), |k: int| commitment_dlogs_of(commits@[k]@));
    let mut sum = Poly::zero().commitment();
    let mut k: usize = 0;
    while k < n
        invariant
            n == commits@.len() == cs@.len(),
            vals == Seq::new(commits@.len(), |k: int| commitment_dlogs_of(commits@[k]@)),
            forall|j: int|
                0 <= j < n ==> (#[trigger] cs@[j]).wf() && cs@[j].dlogs() == commitment_dlogs_of(
                    commits@[j]@,
                ),
            k <= n,
            sum.wf(),
            coeff(sum.dlogs(), 0) == sum_first(vals, k as int),
        decreases n - k,
    {
        let next = sum.add(&cs[k]);
        proof {
            if next.dlogs().len() == 0 {
                assert(coeff(sum.dlogs(), 0) == 0);
                assert(coeff(cs@[k as int].dlogs(), 0) == 0);
            }
        }
        sum = next;
        k = k + 1;
    }
    let pk = sum.evaluate(&Scalar::zero());
    proof {
        assert forall|i: int| 0 <= i < sum.dlogs().len() implies 0 <= #[trigger] sum.dlogs()[i]
            < order() by {
            assert(sum.points@[i].wf());
        }
        lemma_horner_at_zero(sum.dlogs());
    }
    Ok(pk.to_bytes())
}

/// What a dealer hands out: the commitments to its rows at `0..=n` and its rows at `1..=n`.
pub struct Share {
    pub commits: Vec<Commitment>,
    pub rows: Vec<Poly>,
}

impl Share {
    /// Every commitment and row is well formed.
    pub open spec fn wf(&self) -> bool {
        &&& forall|i: int| 0 <= i < self.commits@.len() ==> (#[trigger] self.commits@[i]).wf()
        &&& forall|i: int| 0 <= i < self.rows@.len() ==> (#[trigger] self.rows@[i]).wf()
    }

    /// The encodings of the commitments.
    pub fn get_commits(&self) -> (r: Vec<Vec<u8>>)
        requires
            self.wf(),
        ensures
            r@.len() == self.commits@.len(),
            forall|i: int|
                0 <= i < r@.len() ==> commitment_bytes_ok(#[trigger] r@[i]@) && r@[i]@.len() == 48
                    * self.commits@[i].points@.len() && forall|k: int|
                    0 <= k < self.commits@[i].points@.len() ==> #[trigger] chunk(r@[i]@, 48, k)
                        == self.commits@[i].points@[k].enc(),
    {
        let mut out: Vec<Vec<u8>> = Vec::new();
        let mut i: usize = 0;
        while i < self.commits.len()
            invariant
                self.wf(),
                i <= self.commits@.len(),
                out@.len() == i,
                forall|j: int|
                    0 <= j < i ==> commitment_bytes_ok(#[trigger] out@[j]@) && out@[j]@.len() == 48
                        * self.commits@[j].points@.len() && forall|k: int|
                        0 <= k < self.commits@[j].points@.len() ==> #[trigger] chunk(
                            out@[j]@,
                            48,
                            k,
                        ) == self.commits@[j].points@[k].enc(),
            decreases self.commits@.len() - i,
        {
            out.push(self.commits[i].to_bytes());
            i = i + 1;
        }
        out
    }

    /// The encodings of the rows.
    pub fn get_rows(&self) -> (r: Vec<Vec<u8>>)
        requires
            self.wf(),
        ensures
            r@.len() == self.rows@.len(),
            forall|i: int|
                0 <= i < r@.len() ==> poly_bytes_ok(#[trigger] r@[i]@) && poly_values_of(r@[i]@)
                    == self.rows@[i].values(),
    {
        let mut out: Vec<Vec<u8>> = Vec::new();
        let mut i: usize = 0;
        while i < self.rows.len()
            invariant
                self.wf(),
                i <= self.rows@.len(),
                out@.len() == i,
                forall|j: int|
                    0 <= j < i ==> poly_bytes_ok(#[trigger] out@[j]@) && poly_values_of(out@[j]@)
                        == self.rows@[j].values(),
            decreases self.rows@.len() - i,
        {
            out.push(self.rows[i].to_bytes());
            i = i + 1;
        }
        out
    }
}

/// A dealer's contribution for `total_nodes` participants: a fresh random symmetric bivariate
/// polynomial of the given degree, the commitments to its rows at `0..=total_nodes`, and its
/// rows at `1..=total_nodes`. Each row matches the commitment at the same index.
pub fn generate_bivars(degree: usize, total_nodes: usize) -> (r: Share)
    requires
        degree < usize::MAX,
        total_nodes < usize::MAX,
        total_nodes < u64::MAX,
    ensures
        r.wf(),
        r.commits@.len() == total_nodes + 1,
        r.rows@.len() == total_nodes,
        exists|b: BivarPoly|
            b.wf() && b.deg() == degree && (forall|i: int|
                0 <= i <= total_nodes ==> (#[trigger] r.commits@[i]).dlogs() == b.row_values(i))
                && (forall|i: int|
                0 <= i < total_nodes ==> (#[trigger] r.rows@[i]).values() == b.row_values(i + 1)),
{
    let bi_poly = BivarPoly::random(degree);
    let bi_commit = bi_poly.commitment();
    proof {
        assert forall|x: int| #[trigger] bi_commit.row_dlogs(x) == bi_poly.row_values(x) by {
            assert forall|j: int| 0 <= j <= degree implies #[trigger] bi_commit.column(j)
                == bi_poly.column(j) by {
                assert(bi_commit.column(j) =~= bi_poly.column(j));
            }
            assert(bi_commit.row_dlogs(x) =~= bi_poly.row_values(x));
        }
    }
    let mut commits: Vec<Commitment> = Vec::new();
    let mut rows: Vec<Poly> = Vec::new();
    commits.push(bi_commit.row(&Scalar::zero()));
    let mut i: usize = 1;
    while i <= total_nodes
        invariant
            total_nodes < usize::MAX,
            total_nodes < u64::MAX,
            bi_poly.wf(),
            bi_commit.wf(),
            forall|x: int| #[trigger] bi_commit.row_dlogs(x) == bi_poly.row_values(x),
            1 <= i <= total_nodes + 1,
            commits@.len() == i,
            rows@.len() == i - 1,
            forall|j: int|
                0 <= j < i ==> (#[trigger] commits@[j]).wf() && commits@[j].dlogs()
                    == bi_poly.row_values(j),
            forall|j: int|
                0 <= j < i - 1 ==> (#[trigger] rows@[j]).wf() && rows@[j].values()
                    == bi_poly.row_values(j + 1),
        decreases total_nodes + 1 - i,
    {
        let x = Scalar::from_u64(i as u64);
        rows.push(bi_poly.row(&x));
        commits.push(bi_commit.row(&x));
        i = i + 1;
    }
    Share { commits, rows }
}

/// Decodes the first `n` encodings as participant indexes and shares.
fn decode_points(indexes: &Vec<Vec<u8>>, shares: &Vec<Vec<u8>>, n: usize) -> (r: Option<
    (Vec<u64>, Vec<Scalar>),
>)
    requires
        n == indexes@.len() == shares@.len(),
    ensures
        r is Some <==> forall|k: int|
            0 <= k < n ==> #[trigger] indexes@[k]@.len() <= 8 && shares@[k]@.len() == 32
                && be_value(shares@[k]@) < order(),
        r matches Some(p) ==> p.0@.len() == n && p.1@.len() == n && (forall|k: int|
            0 <= k < n ==> #[trigger] p.0@[k] as int == le_value(indexes@[k]@)) && (forall|k: int|
            0 <= k < n ==> (#[trigger] p.1@[k]).wf() && p.1@[k].value() == be_value(shares@[k]@)),
{
    let mut xs: Vec<u64> = Vec::new();
    let mut ys: Vec<Scalar> = Vec::new();
    let mut k: usize = 0;
    while k < n
        invariant
            n == indexes@.len() == shares@.len(),
            k <= n,
            xs@.len() == k,
            ys@.len() == k,
            forall|j: int|
                0 <= j < k ==> #[trigger] indexes@[j]@.len() <= 8 && shares@[j]@.len() == 32
                    && be_value(shares@[j]@) < order(),
            forall|j: int| 0 <= j < k ==> #[trigger] xs@[j] as int == le_value(indexes@[j]@),
            forall|j: int|
                0 <= j < k ==> (#[trigger] ys@[j]).wf() && ys@[j].value() == be_value(shares@[j]@),
        decreases n - k,
    {
        let x = match index_from_bytes(&indexes[k]) {
            Some(x) => x,
            None => return None,
        };
        let y = match KeyShare::from_bytes(&shares[k]) {
            Some(y) => y.sk,
            None => return None,
        };
        xs.push(x);
        ys.push(y);
        k = k + 1;
    }
    Some((xs, ys))
}

/// The secret at zero reconstructed from participants' shares by Lagrange interpolation, as
/// 32 big-endian bytes. Index `k` (up to 8 little-endian bytes) goes with share `k` (32
/// big-endian bytes). It is the right secret only when at least degree + 1 shares are given.
pub fn interpolate(indexes: &Vec<Vec<u8>>, shares: &Vec<Vec<u8>>) -> (r: Result<
    [u8; 32],
    DkgError,
>)
    ensures
        ({
            let n = indexes@.len() as int;
            let same = indexes@.len() == shares@.len();
            let ok = forall|k: int|
                0 <= k < n ==> #[trigger] indexes@[k]@.len() <= 8 && shares@[k]@.len() == 32
                    && be_value(shares@[k]@) < order();
            let dup = exists|i: int, j: int|
                0 <= i < j < n && le_value(#[trigger] indexes@[i]@) == le_value(
                    #[trigger] indexes@[j]@,
                );
            &&& (r == Err::<[u8; 32], DkgError>(DkgError::ShareCountMismatch)) <==> !same
            &&& same ==> ((r == Err::<[u8; 32], DkgError>(DkgError::MalformedEncoding)) <==> !ok)
            &&& same && ok ==> ((r == Err::<[u8; 32], DkgError>(DkgError::DuplicateIndex))
                <==> dup)
            &&& same && ok && !dup ==> r is Ok
            &&& r matches Ok(b) ==> same && ok && !dup && be_value(b@) == lagrange_at_zero(
                Seq::new(n as nat, |k: int| le_value(indexes@[k]@)),
                Seq::new(n as nat, |k: int| be_value(shares@[k]@)),
                n,
            )
        }),
{
    let n = indexes.len();
    if n != shares.len() {
        return Err(DkgError::ShareCountMismatch);
    }
    let (xs, ys) = match decode_points(indexes, shares, n) {
        Some(p) => p,
        None => return Err(DkgError::MalformedEncoding),
    };
    let mut i: usize = 0;
    while i < n
        invariant
            n == xs@.len() == indexes@.len() == shares@.len(),
            forall|k: int|
                    0 <= k < n ==> #[trigger] indexes@[k]@.len() <= 8 && shares@[k]@.len() == 32
                        && be_value(shares@[k]@) < order(),
            i <= n,
            forall|k: int| 0 <= k < n ==> #[trigger] xs@[k] as int == le_value(indexes@[k]@),
            forall|a: int, b: int| 0 <= a < b < n && a < i ==> xs@[a] != xs@[b],
        decreases n - i,
    {
        let mut j: usize = i + 1;
        while j < n
            invariant
                n == xs@.len() == indexes@.len() == shares@.len(),
                forall|k: int|
                    0 <= k < n ==> #[trigger] indexes@[k]@.len() <= 8 && shares@[k]@.len() == 32
                        && be_value(shares@[k]@) < order(),
                i < n,
                i + 1 <= j <= n,
                forall|k: int| 0 <= k < n ==> #[trigger] xs@[k] as int == le_value(indexes@[k]@),
                forall|a: int, b: int| 0 <= a < b < n && a < i ==> xs@[a] != xs@[b],
                forall|b: int| i < b < j ==> xs@[i as int] != xs@[b],
            decreases n - j,
        {
            if xs[i] == xs[j] {
                proof {
                    assert(le_value(indexes@[i as int]@) == le_value(indexes@[j as int]@));
                }
                return Err(DkgError::DuplicateIndex);
            }
            j = j + 1;
        }
        i = i + 1;
    }
    let s = interpolate_at_zero(&xs, &ys);
    proof {
        assert(xs@.map_values(|x: u64| x as int) =~= Seq::new(
            n as nat,
            |k: int| le_value(indexes@[k]@),
        ));
        assert(ys@.map_values(|y: Scalar| y.value()) =~= Seq::new(
            n as nat,
            |k: int| be_value(shares@[k]@),
        ));
        if exists|a: int, b: int|
            0 <= a < b < n && le_value(#[trigger] indexes@[a]@) == le_value(
                #[trigger] indexes@[b]@,
            ) {
            let (a, b) = choose|a: int, b: int|
                0 <= a < b < n && le_value(#[trigger] indexes@[a]@) == le_value(
                    #[trigger] indexes@[b]@,
                );
            assert(xs@[a] != xs@[b]);
        }
    }
    Ok(s.to_bytes())
}

/// A Horner value lies in the field.
proof fn lemma_horner_range(cs: Seq<int>, x: int)
    ensures
        0 <= horner(cs, x) < order(),
    decreases cs.len(),
{
}

/// Over reduced values, summing the first entries is summing the values at zero.
proof fn lemma_sum_first_at_zero(vals: Seq<Seq<int>>, k: int)
    requires
        0 <= k <= vals.len(),
        forall|j: int, i: int|
            0 <= j < k && 0 <= i < vals[j].len() ==> 0 <= #[trigger] vals[j][i] < order(),
    ensures
        sum_first(vals, k) == sum_at_zero(vals, k),
    decreases k,
{
    if k > 0 {
        lemma_sum_first_at_zero(vals, k - 1);
        lemma_horner_at_zero(vals[k - 1]);
    }
}

/// Summing the dealers' commitments to their rows at zero commits to the sum of their secrets:
/// the logarithm of the group public key is the sum over the dealers of `evaluate(0, 0)`.
pub proof fn lemma_dealers_add_up(dealers: Seq<BivarPoly>, commits: Seq<Seq<int>>)
    requires
        commits.len() == dealers.len(),
        forall|k: int|
            0 <= k < dealers.len() ==> (#[trigger] dealers[k]).wf() && commits[k]
                == dealers[k].row_values(0),
    ensures
        sum_first(commits, commits.len() as int) == sum_at_zero(
            Seq::new(dealers.len(), |k: int| dealers[k].row_values(0)),
            dealers.len() as int,
        ),
        forall|k: int|
            0 <= k < dealers.len() ==> horner(#[trigger] dealers[k].row_values(0), 0)
                == dealers[k].eval(0, 0),
{
    assert forall|j: int, i: int|
        0 <= j < commits.len() && 0 <= i < commits[j].len() implies 0 <= #[trigger] commits[j][i]
        < order() by {
        let b = dealers[j];
        lemma_horner_range(b.column(i), 0);
    }
    lemma_sum_first_at_zero(commits, commits.len() as int);
    assert(commits =~= Seq::new(dealers.len(), |k: int| dealers[k].row_values(0)));
}

/// A signature share made with a secret passes the pairing check against the public-key share
/// of the same secret: for `pk = g1 * s` and `sig = h * s`, `e(pk, h) == e(g1, sig)`, that is
/// `s * log(h) == 1 * log(sig)` in Fr.
pub proof fn lemma_signature_share_verifies(s: int, h: int)
    requires
        0 <= s < order(),
        0 <= h < order(),
    ensures
        (s * h) % order() == ((h * s) % order()) % order(),
{
    assert(s * h == h * s) by (nonlinear_arith);
    vstd::arithmetic::div_mod::lemma_mod_twice(h * s, order());
}

} // verus!
