use kzg::field::Fp;
use kzg::kzg::KZG;
use kzg::polynomial::{divide_by_linear, eval_int, mul_by_linear, poly_sub, FpPoly, KzgError};

const N: u64 = 2;
const MAX_COEFFICIENT: u64 = 3;

fn setup() -> KZG {
    let poly = FpPoly::new(N, MAX_COEFFICIENT).unwrap();
    KZG::new(poly.clone()).unwrap()
}

#[test]
fn new_kzg() {
    let kzg = setup();
    println!("{:#?}", kzg);

    assert_eq!(kzg.gp.len(), N as usize);
}

#[test]
fn open_kzg() {
    // Every polynomial built from two coefficients bounded by the test
    // maximum: the opening's quotient, multiplied back by the linear
    // factor of the challenge and with the evaluation value restored,
    // must reproduce the committed coefficients exactly.
    for c0 in 0..=MAX_COEFFICIENT as i64 {
        for c1 in 0..=MAX_COEFFICIENT as i64 {
            let poly = FpPoly::from_i64(vec![c0, c1]);
            if c0 == 0 && c1 == 0 {
                assert_eq!(KZG::new(poly).unwrap_err(), KzgError::DegreeMismatch);
                continue;
            }
            let (kzg, u) = KZG::new(poly).unwrap().opening().unwrap();

            let q = kzg.q.clone().unwrap();
            let u_i = u.into_u64() as i64;
            // q_prime = q * (x - u)
            let mut q_prime = mul_by_linear(&q, u_i).unwrap();
            let v = kzg.f.evaluate(u).unwrap().into_u64() as i64;

            // q_prime_and_v = q_prime + v
            q_prime[0] += v;

            assert_eq!(kzg.f.c, q_prime);
        }
    }
}

#[test]
fn create_poly() {
    let poly = FpPoly::new(3, 2).unwrap();
    assert_eq!(poly.degree().unwrap(), 3);
}

#[test]
fn poly_division() {
    // A numerator known to vanish at 2: the monic product (x-2)(x-1)x.
    let base = vec![1i64];
    let step = mul_by_linear(&base, 2).unwrap();
    let step = mul_by_linear(&step, 1).unwrap();
    let poly_n = mul_by_linear(&step, 0).unwrap();

    let (poly_q, rem) = divide_by_linear(&poly_n, 2).unwrap();
    assert_eq!(rem, 0);

    let x = 5i64;
    let poly_n_eval = eval_int(&poly_n, x).unwrap();
    let poly_d_eval = x - 2;
    let poly_q_eval = eval_int(&poly_q, x).unwrap();

    assert_eq!(poly_n_eval / poly_d_eval, poly_q_eval);
}

#[test]
fn poly_subtraction() {
    let poly_n = FpPoly::new(3, 2).unwrap().c;
    // The monic linear polynomial with root 2, in ascending coefficients.
    let poly_d = vec![-2i64, 1];
    let poly_s = poly_sub(&poly_n, &poly_d).unwrap();

    let x = 5i64;

    let poly_n_eval = eval_int(&poly_n, x).unwrap();
    let poly_d_eval = eval_int(&poly_d, x).unwrap();
    let poly_s_eval = eval_int(&poly_s, x).unwrap();

    assert_eq!(poly_n_eval - poly_d_eval, poly_s_eval);
}

#[test]
fn fp_to_u64() {
    let x = u64::MAX as f64;
    let x_fp = Fp::from_u64(x as u64);

    let y = x_fp.into_u64() as f64;
    assert_eq!(x, y, "the two are not equal");
}

#[test]
fn srs_has_declared_length_and_starts_at_generator() {
    let poly = FpPoly::from_i64(vec![1, 2, 3]);
    let kzg = KZG::new_with_tau(poly, Fp::from_u64(2)).unwrap();
    assert_eq!(kzg.gp.len(), 3);
    assert_eq!(kzg.gp[0].into_u64(), 7);

    // Declared length zero: the reference string is empty, not padded.
    let degenerate = FpPoly { c: vec![5], c_fp: vec![], g: 7, n: 0 };
    let kzg = KZG::new_with_tau(degenerate, Fp::from_u64(2)).unwrap();
    assert_eq!(kzg.gp.len(), 0);
}

#[test]
fn srs_is_geometric_under_known_scalar() {
    let poly = FpPoly::from_i64(vec![1, 2, 3]);
    let kzg = KZG::new_with_tau(poly, Fp::from_u64(2)).unwrap();
    // g, g*tau, g*tau^2 with g = 7 and tau = 2.
    assert_eq!(kzg.gp[0].into_u64(), 7);
    assert_eq!(kzg.gp[1].into_u64(), 14);
    assert_eq!(kzg.gp[2].into_u64(), 28);
}

#[test]
fn commitment_is_deterministic_in_polynomial_and_scalar() {
    let poly = FpPoly::from_i64(vec![1, 2, 3]);
    let k1 = KZG::new_with_tau(poly.clone(), Fp::from_u64(2)).unwrap();
    let k2 = KZG::new_with_tau(poly.clone(), Fp::from_u64(2)).unwrap();
    // Same polynomial, same scalar: same commitment, here g * f(2) = 7 * 17.
    assert_eq!(k1.c, k2.c);
    assert_eq!(k1.c.into_u64(), 119);
    // A different scalar moves the commitment: g * f(3) = 7 * 34.
    let k3 = KZG::new_with_tau(poly, Fp::from_u64(3)).unwrap();
    assert_eq!(k3.c.into_u64(), 238);
    assert_ne!(k1.c, k3.c);
}

#[test]
fn commitments_under_fresh_scalars_differ() {
    let poly = FpPoly::from_i64(vec![1, 2, 3]);
    let k1 = KZG::new(poly.clone()).unwrap();
    let k2 = KZG::new(poly).unwrap();
    assert_ne!(k1.c, k2.c);
}

#[test]
fn challenge_is_bounded() {
    for _ in 0..64 {
        let u = KZG::fiat_shamir_oracle();
        assert!(u.into_u64() < 65536);
    }
}

#[test]
fn opening_at_fixed_challenge_round_trips() {
    // The deterministic variant: challenge fixed at 5, every coefficient
    // pair bounded by 3.
    let u = Fp::from_u64(5);
    for c0 in 0..=3i64 {
        for c1 in 0..=3i64 {
            if c0 == 0 && c1 == 0 {
                continue;
            }
            let kzg = KZG::new(FpPoly::from_i64(vec![c0, c1])).unwrap();
            let (opened, u_back) = kzg.opening_at(u).unwrap();
            assert_eq!(u_back.into_u64(), 5);
            let v = opened.f.evaluate(u).unwrap().into_u64() as i64;
            assert_eq!(v, c0 + 5 * c1);
            let q = opened.q.clone().unwrap();
            let mut back = mul_by_linear(&q, 5).unwrap();
            back[0] += v;
            assert_eq!(back, opened.f.c);
        }
    }
}

#[test]
fn field_round_trips_through_u64() {
    for x in [0u64, 1, 12345, u64::MAX] {
        assert_eq!(Fp::from_u64(x).into_u64(), x);
    }
}

#[test]
fn zero_polynomial_reports_degree_mismatch() {
    let poly = FpPoly::from_i64(vec![0, 0]);
    assert_eq!(poly.evaluate(Fp::from_u64(1)).unwrap_err(), KzgError::DegreeMismatch);
    assert_eq!(KZG::new(poly).unwrap_err(), KzgError::DegreeMismatch);
}

#[test]
fn inconsistent_representations_report_degree_mismatch() {
    // Integer side of degree three, but a single stored field coefficient.
    let poly = FpPoly { c: vec![0, 0, 0, 1], c_fp: vec![Fp::from_u64(1)], g: 7, n: 1 };
    assert_eq!(poly.evaluate(Fp::from_u64(2)).unwrap_err(), KzgError::DegreeMismatch);
}

#[test]
fn non_vanishing_numerator_is_rejected() {
    // Integer side (x-3)(x-2) beside field coefficients [3, 2]: the
    // derived evaluation value is not the integer side's value, so the
    // numerator does not vanish at the challenge and the division must
    // be refused rather than truncated.
    let poly = FpPoly {
        c: vec![6, -5, 1],
        c_fp: vec![Fp::from_u64(3), Fp::from_u64(2)],
        g: 7,
        n: 2,
    };
    let kzg = KZG::new(poly).unwrap();
    assert_eq!(
        kzg.opening_at(Fp::from_u64(5)).unwrap_err(),
        KzgError::NonExactDivision
    );
}

#[test]
fn machine_range_overflow_is_reported() {
    assert_eq!(
        divide_by_linear(&vec![i64::MAX, i64::MAX], 2).unwrap_err(),
        KzgError::Overflow
    );
    assert_eq!(mul_by_linear(&vec![i64::MAX], -2).unwrap_err(), KzgError::Overflow);
    assert_eq!(eval_int(&vec![i64::MAX, i64::MAX], 2).unwrap_err(), KzgError::Overflow);
    assert_eq!(poly_sub(&vec![i64::MIN], &vec![i64::MAX]).unwrap_err(), KzgError::Overflow);
}

#[test]
fn random_polynomial_respects_coefficient_bound() {
    // With the bound fixed at zero every drawn root is zero, so the
    // integer side must be exactly x^5 and every field coefficient zero.
    let poly = FpPoly::new(5, 0).unwrap();
    assert_eq!(poly.c, vec![0, 0, 0, 0, 0, 1]);
    assert_eq!(poly.n, 5);
    for f in &poly.c_fp {
        assert_eq!(f.into_u64(), 0);
    }
}

#[test]
fn evaluation_raises_the_point_to_each_power() {
    let poly = FpPoly::from_i64(vec![0, 0, 1]);
    let v = poly.evaluate(Fp::from_u64(3)).unwrap();
    assert_eq!(v.into_u64(), 9);
}
