use blsdkg::bivar::BivarPoly;
use blsdkg::curve::{verify_pairing, G1Point, G2Point};
use blsdkg::dkg::{
    generate_bivars, get_pk, get_public_key, get_sk_share, interpolate, sign, DkgError, KeyShare,
};
use blsdkg::field::Scalar;
use blsdkg::poly::{combine_signatures, interpolate_at_zero, Poly};

fn hex32(s: &str) -> [u8; 32] {
    let v = hex::decode(s).unwrap();
    let mut a = [0u8; 32];
    a.copy_from_slice(&v);
    a
}

fn small(k: u64) -> Scalar {
    Scalar::from_u64(k)
}

fn scalar_bytes(k: u64) -> Vec<u8> {
    small(k).to_bytes().to_vec()
}

#[test]
fn scalar_round_trip() {
    let x = small(123456789).mul(&small(987654321)).sub(&small(5));
    let b = x.to_bytes();
    let y = Scalar::from_bytes(&b).unwrap();
    assert_eq!(y.to_bytes(), b);
}

#[test]
fn scalar_out_of_range_rejected() {
    assert!(Scalar::from_bytes(&[0xff; 32]).is_none());
    let order = hex32("73eda753299d7d483339d80809a1d80553bda402fffe5bfeffffffff00000001");
    assert!(Scalar::from_bytes(&order).is_none());
}

#[test]
fn scalar_formulas() {
    assert_eq!(small(2).mul(&small(3)).to_bytes(), hex32(&format!("{:064x}", 6)));
    assert_eq!(small(2).add(&small(3)).to_bytes(), hex32(&format!("{:064x}", 5)));
    let minus_one = small(0).sub(&small(1));
    assert_eq!(
        minus_one.to_bytes(),
        hex32("73eda753299d7d483339d80809a1d80553bda402fffe5bfeffffffff00000000")
    );
    let inv = small(2).inverse().unwrap();
    assert_eq!(inv.mul(&small(2)).to_bytes(), small(1).to_bytes());
    assert!(small(0).inverse().is_none());
}

#[test]
fn point_round_trip() {
    let p = G1Point::generator_mul(&small(42));
    let b = p.to_bytes();
    let q = G1Point::from_bytes(&b).unwrap();
    assert!(q.equals(&p));
    assert_eq!(q.to_bytes(), b);
    let s = G2Point::hash_of(&b"msg".to_vec());
    let sb = s.to_bytes();
    assert_eq!(G2Point::from_bytes(&sb).unwrap().to_bytes(), sb);
    assert!(G1Point::from_bytes(&[0xff; 48]).is_none());
}

#[test]
fn point_arithmetic() {
    let a = G1Point::generator_mul(&small(5));
    let b = G1Point::generator_mul(&small(7));
    assert!(a.add(&b).equals(&G1Point::generator_mul(&small(12))));
    assert!(a.mul(&small(3)).equals(&G1Point::generator_mul(&small(15))));
    assert!(!a.equals(&b));
}

#[test]
fn commitment_consistency() {
    let p = Poly { coeffs: vec![small(11), small(22), small(33)] };
    let c = p.commitment();
    for x in [0u64, 1, 2, 7, 1000] {
        let v = p.evaluate(&small(x));
        assert!(c.evaluate(&small(x)).equals(&G1Point::generator_mul(&v)));
    }
    // 11 + 22*2 + 33*4 = 187
    assert_eq!(p.evaluate(&small(2)).to_bytes(), small(187).to_bytes());
}

#[test]
fn commitment_addition_pads() {
    let p = Poly { coeffs: vec![small(1), small(2)] };
    let q = Poly { coeffs: vec![small(3)] };
    let sum = p.commitment().add(&q.commitment());
    let expect = Poly { coeffs: vec![small(4), small(2)] }.commitment();
    assert!(sum.equals(&expect));
}

#[test]
fn bivar_rows_match_commitment() {
    let b = BivarPoly::random(2);
    let c = b.commitment();
    for i in 0..4u64 {
        let row = b.row(&small(i));
        assert!(row.commitment().equals(&c.row(&small(i))));
        for j in 0..4u64 {
            assert_eq!(
                b.evaluate(&small(i), &small(j)).to_bytes(),
                b.evaluate(&small(j), &small(i)).to_bytes()
            );
        }
    }
}

#[test]
fn interpolate_line() {
    // 3 + 2x through (1, 5) and (2, 7)
    let s = interpolate_at_zero(&vec![1, 2], &vec![small(5), small(7)]);
    assert_eq!(s.to_bytes(), small(3).to_bytes());
    let r = interpolate(&vec![vec![1], vec![2]], &vec![scalar_bytes(5), scalar_bytes(7)]);
    assert_eq!(r, Ok(small(3).to_bytes()));
}

#[test]
fn interpolate_little_endian_index() {
    // 1 + x through (256, 257) and (1, 2): index bytes [0, 1] read as 256
    let r = interpolate(&vec![vec![0, 1], vec![1]], &vec![scalar_bytes(257), scalar_bytes(2)]);
    assert_eq!(r, Ok(small(1).to_bytes()));
}

#[test]
fn interpolate_errors() {
    let one = scalar_bytes(1);
    assert_eq!(
        interpolate(&vec![vec![1], vec![1]], &vec![one.clone(), one.clone()]),
        Err(DkgError::DuplicateIndex)
    );
    assert_eq!(
        interpolate(&vec![vec![1]], &vec![one.clone(), one.clone()]),
        Err(DkgError::ShareCountMismatch)
    );
    assert_eq!(
        interpolate(&vec![vec![1; 9]], &vec![one.clone()]),
        Err(DkgError::MalformedEncoding)
    );
    assert_eq!(interpolate(&vec![vec![1]], &vec![vec![1; 31]]), Err(DkgError::MalformedEncoding));
    assert_eq!(interpolate(&vec![], &vec![]), Ok([0u8; 32]));
}

fn secret_of(b: &BivarPoly) -> Scalar {
    b.evaluate(&small(0), &small(0))
}

#[test]
fn threshold_scenario_three_dealers() {
    let (t, n) = (2usize, 5u64);
    let dealers: Vec<BivarPoly> = (0..3).map(|_| BivarPoly::random(t)).collect();
    let mut secret = small(0);
    let mut row0_commits = Vec::new();
    for d in &dealers {
        secret = secret.add(&secret_of(d));
        row0_commits.push(d.commitment().row(&small(0)).to_bytes());
    }
    let mut shares = Vec::new();
    for m in 1..=n {
        let rows: Vec<Vec<u8>> = dealers.iter().map(|d| d.row(&small(m)).to_bytes()).collect();
        let commits: Vec<Vec<u8>> =
            dealers.iter().map(|d| d.commitment().row(&small(m)).to_bytes()).collect();
        let ks = get_sk_share(&rows, &commits).ok().unwrap();
        shares.push(ks.to_bytes().to_vec());
    }
    let picked = [1usize, 3, 4];
    let idx: Vec<Vec<u8>> = picked.iter().map(|&i| vec![i as u8]).collect();
    let sh: Vec<Vec<u8>> = picked.iter().map(|&i| shares[i - 1].clone()).collect();
    let rec = interpolate(&idx, &sh).unwrap();
    assert_eq!(rec, secret.to_bytes());
    let pk = get_public_key(&row0_commits).unwrap();
    assert_eq!(get_pk(&rec.to_vec()).unwrap(), pk);
    assert_eq!(pk, G1Point::generator_mul(&secret).to_bytes());
}

#[test]
fn too_few_shares_miss_the_secret() {
    let d = BivarPoly::random(2);
    let shares: Vec<Vec<u8>> =
        (1..=2u64).map(|m| d.row(&small(m)).evaluate(&small(0)).to_bytes().to_vec()).collect();
    let rec = interpolate(&vec![vec![1], vec![2]], &shares).unwrap();
    assert_ne!(rec, secret_of(&d).to_bytes());
}

#[test]
fn generate_bivars_rows_verify() {
    let share = generate_bivars(2, 4);
    let rows = share.get_rows();
    let commits = share.get_commits();
    assert_eq!(rows.len(), 4);
    assert_eq!(commits.len(), 5);
    for m in 0..4 {
        assert_eq!(rows[m].len(), 3 * 32);
        assert_eq!(commits[m + 1].len(), 3 * 48);
        assert!(get_sk_share(&vec![rows[m].clone()], &vec![commits[m + 1].clone()]).is_ok());
    }
    assert!(matches!(
        get_sk_share(&vec![rows[0].clone()], &vec![commits[2].clone()]),
        Err(DkgError::CommitmentMismatch)
    ));
}

#[test]
fn tampered_row_rejected() {
    let d = BivarPoly::random(2);
    let row = d.row(&small(1));
    let commit = d.commitment().row(&small(1)).to_bytes();
    for i in 0..3 {
        let mut coeffs = row.coeffs.clone();
        coeffs[i] = coeffs[i].add(&small(1));
        let bad = Poly { coeffs }.to_bytes();
        assert!(matches!(
            get_sk_share(&vec![bad], &vec![commit.clone()]),
            Err(DkgError::CommitmentMismatch)
        ));
    }
    assert!(get_sk_share(&vec![row.to_bytes()], &vec![commit]).is_ok());
}

#[test]
fn sk_share_sums_rows_and_rejects_malformed() {
    let r1 = Poly { coeffs: vec![small(3), small(4)] };
    let r2 = Poly { coeffs: vec![small(10), small(1)] };
    let rows = vec![r1.to_bytes(), r2.to_bytes()];
    let commits = vec![r1.commitment().to_bytes(), r2.commitment().to_bytes()];
    let ks = get_sk_share(&rows, &commits).ok().unwrap();
    assert_eq!(ks.to_bytes(), small(13).to_bytes());
    assert!(matches!(
        get_sk_share(&vec![vec![0u8; 31]], &vec![commits[0].clone()]),
        Err(DkgError::MalformedEncoding)
    ));
    assert!(matches!(
        get_sk_share(&vec![rows[0].clone()], &vec![vec![0u8; 48]]),
        Err(DkgError::MalformedEncoding)
    ));
    assert_eq!(get_public_key(&vec![vec![1u8; 47]]), Err(DkgError::MalformedEncoding));
}

#[test]
fn public_key_of_no_commitments_is_identity() {
    assert_eq!(get_public_key(&vec![]).unwrap(), G1Point::generator_mul(&small(0)).to_bytes());
}

#[test]
fn signature_share_verifies() {
    let ks = KeyShare::from_bytes(&scalar_bytes(77)).unwrap();
    let pk = G1Point::from_bytes(&ks.get_pk()).unwrap();
    let msg = b"hello".to_vec();
    let sig = sign(&ks.to_bytes().to_vec(), &msg).unwrap();
    let sig_pt = G2Point::from_bytes(&sig).unwrap();
    assert!(verify_pairing(&pk, &G2Point::hash_of(&msg), &sig_pt));
    assert!(!verify_pairing(&pk, &G2Point::hash_of(&b"other".to_vec()), &sig_pt));
    assert!(sign(&vec![0u8; 31], &msg).is_none());
    assert!(get_pk(&vec![0xffu8; 32]).is_none());
}

#[test]
fn sign_round_appends_big_endian_round() {
    let ks = KeyShare::from_bytes(&scalar_bytes(9)).unwrap();
    let mut msg = b"beacon".to_vec();
    let tagged = ks.sign_g2(&msg, 0x0102030405060708);
    msg.extend_from_slice(&[1, 2, 3, 4, 5, 6, 7, 8]);
    assert_eq!(tagged.to_vec(), sign(&ks.to_bytes().to_vec(), &msg).unwrap().to_vec());
    let untagged = sign(&ks.to_bytes().to_vec(), &b"beacon".to_vec()).unwrap();
    assert_ne!(tagged.to_vec(), untagged.to_vec());
}

#[test]
fn threshold_signature_shares_verify() {
    let dealers: Vec<BivarPoly> = (0..2).map(|_| BivarPoly::random(1)).collect();
    let msg = b"block".to_vec();
    for m in 1..=3u64 {
        let rows: Vec<Vec<u8>> = dealers.iter().map(|d| d.row(&small(m)).to_bytes()).collect();
        let commits: Vec<Vec<u8>> =
            dealers.iter().map(|d| d.commitment().row(&small(m)).to_bytes()).collect();
        let ks = get_sk_share(&rows, &commits).ok().unwrap();
        let pk = G1Point::from_bytes(&ks.get_pk()).unwrap();
        let sig = G2Point::from_bytes(&ks.sign_g2(&msg, 7)).unwrap();
        let mut tagged = msg.clone();
        tagged.extend_from_slice(&7u64.to_be_bytes());
        assert!(verify_pairing(&pk, &G2Point::hash_of(&tagged), &sig));
    }
}

#[test]
fn combine_signatures_exact() {
    // shares h*(3 + 2x) at x = 1 and x = 2 combine to h*3
    let h = G2Point::hash_of(&b"m".to_vec());
    let sigs = vec![h.mul(&small(5)), h.mul(&small(7))];
    let full = combine_signatures(&vec![1, 2], &sigs);
    assert!(full.equals(&h.mul(&small(3))));
}

#[test]
fn combined_signature_verifies_against_group_key() {
    let dealers: Vec<BivarPoly> = (0..2).map(|_| BivarPoly::random(1)).collect();
    let row0: Vec<Vec<u8>> =
        dealers.iter().map(|d| d.commitment().row(&small(0)).to_bytes()).collect();
    let group_pk = G1Point::from_bytes(&get_public_key(&row0).unwrap()).unwrap();
    let msg = b"epoch".to_vec();
    let mut sigs = Vec::new();
    for m in [1u64, 3] {
        let rows: Vec<Vec<u8>> = dealers.iter().map(|d| d.row(&small(m)).to_bytes()).collect();
        let commits: Vec<Vec<u8>> =
            dealers.iter().map(|d| d.commitment().row(&small(m)).to_bytes()).collect();
        let ks = get_sk_share(&rows, &commits).ok().unwrap();
        sigs.push(G2Point::from_bytes(&sign(&ks.to_bytes().to_vec(), &msg).unwrap()).unwrap());
    }
    let full = combine_signatures(&vec![1, 3], &sigs);
    assert!(verify_pairing(&group_pk, &G2Point::hash_of(&msg), &full));
    assert!(!verify_pairing(&group_pk, &G2Point::hash_of(&msg), &sigs[0]));
}
