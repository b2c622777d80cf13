//! The commitment scheme: a structured reference string built as a
//! geometric sequence under a secret scalar, a commitment to a
//! polynomial, and openings that carry an exact quotient polynomial for a
//! derived challenge. The secret scalar is used once during setup and
//! never retained.

use vstd::prelude::*;

verus! {

use crate::field::{p, pow_mod, two64, fp_mul, draw_range, Fp};
use crate::polynomial::{
    copy_fp, copy_i64, deg_spec, divide_by_linear, eval_from, eval_fp, eval_int_spec, fits_i64,
    fp_seq, int_seq, lemma_division_identity, mul_linear_spec, quotient_spec, suffix_fits, FpPoly,
    KzgError,
};

/// The commitment to field coefficients `c` under generator `g` and
/// secret scalar `t`: the generator times the committed polynomial's
/// value at the secret point, modulo the prime.
pub open spec fn commit_spec(c: Seq<nat>, g: nat, t: nat) -> nat {
    (g * eval_fp(c, t)) % p()
}

/// The evaluation value an opening carries over into the integer domain:
/// the field value at the challenge, reinterpreted through its low 64
/// bits.
pub open spec fn opening_v(f: FpPoly, u: Fp) -> int {
    (eval_fp(fp_seq(f.c_fp@), u@) % two64()) as int
}

/// The integer challenge the opening divides by.
pub open spec fn opening_u(u: Fp) -> int {
    (u@ % two64()) as int
}

/// The opening's numerator `f(x) - v`: the committed integer
/// coefficients with the evaluation value taken off the constant term.
pub open spec fn opening_numer(f: FpPoly, u: Fp) -> Seq<int> {
    int_seq(f.c@).update(0, int_seq(f.c@)[0] - opening_v(f, u))
}

/// Every machine integer an opening computes stays in range: the
/// evaluation value and the challenge fit a machine coefficient, the
/// lowered constant term fits, and so does every running value of the
/// synthetic division.
pub open spec fn opening_fits(f: FpPoly, u: Fp) -> bool {
    &&& opening_v(f, u) <= i64::MAX
    &&& opening_u(u) <= i64::MAX
    &&& fits_i64(opening_numer(f, u)[0])
    &&& suffix_fits(opening_numer(f, u), opening_u(u))
}

/// The scheme state: the committed polynomial `f`, the quotient
/// polynomial `q` once an opening has been produced, the public
/// reference string `gp`, and the commitment `c`.
#[derive(Debug, Clone)]
pub struct KZG {
    pub f: FpPoly,
    pub q: Option<Vec<i64>>,
    pub gp: Vec<Fp>,
    pub c: Fp,
}

impl KZG {
    /// Builds a scheme from a polynomial and an explicit secret scalar:
    /// the reference string is the geometric sequence `g, g*tau,
    /// g*tau^2, ...` of exactly the polynomial's declared length, each
    /// term one multiplication past the one before, and the commitment
    /// is `g * f(tau)`. The scalar is observable here so that the
    /// geometric shape and the determinism of the commitment can be
    /// stated; `new` is the sampling entry point.
    pub fn new_with_tau(poly: FpPoly, tau: Fp) -> (r: Result<KZG, KzgError>)
        ensures
            match r {
                Ok(k) => {
                    &&& poly.degree_ok()
                    &&& k.f == poly
                    &&& k.q is None
                    &&& k.gp@.len() == poly.n as nat
                    &&& poly.n >= 1 ==> k.gp@[0]@ == poly.g as nat
                    &&& forall|i: int|
                        1 <= i < k.gp@.len() ==> (#[trigger] k.gp@[i])@ == (k.gp@[i - 1]@ * tau@)
                            % p()
                    &&& k.c@ == commit_spec(fp_seq(poly.c_fp@), poly.g as nat, tau@)
                },
                Err(e) => {
                    ||| (e == KzgError::Overflow && poly.n > usize::MAX as u64)
                    ||| (e == KzgError::DegreeMismatch && poly.n <= usize::MAX as u64
                        && !poly.degree_ok())
                },
            },
    {
        if poly.n > usize::MAX as u64 {
            return Err(KzgError::Overflow);
        }
        let ev = match poly.evaluate(tau) {
            Err(e) => {
                return Err(e);
            },
            Ok(ev) => ev,
        };
        let gfp = Fp::from_u64(poly.g);
        let cc = fp_mul(&gfp, &ev);
        let n_us = poly.n as usize;
        let mut gp: Vec<Fp> = Vec::new();
        if n_us >= 1 {
            gp.push(gfp);
            let mut i: usize = 1;
            while i < n_us
                invariant
                    1 <= i <= n_us,
                    gp@.len() == i,
                    gp@[0]@ == poly.g as nat,
                    forall|j: int|
                        1 <= j < i ==> (#[trigger] gp@[j])@ == (gp@[j - 1]@ * tau@) % p(),
                decreases n_us - i,
            {
                let prev = gp[i - 1];
                let nx = fp_mul(&prev, &tau);
                gp.push(nx);
                i = i + 1;
            }
        }
        Ok(KZG { f: poly, q: None, gp, c: cc })
    }

    /// Builds a scheme from a polynomial: samples the secret scalar
    /// uniformly from the field, builds the reference string and the
    /// commitment from it, and discards it. Only the existence of some
    /// scalar below the prime relating the parts is promised.
    pub fn new(poly: FpPoly) -> (r: Result<KZG, KzgError>)
        ensures
            match r {
                Ok(k) => {
                    &&& poly.degree_ok()
                    &&& k.f == poly
                    &&& k.q is None
                    &&& k.gp@.len() == poly.n as nat
                    &&& poly.n >= 1 ==> k.gp@[0]@ == poly.g as nat
                    &&& exists|t: nat|
                        {
                            &&& t < p()
                            &&& forall|i: int|
                                1 <= i < k.gp@.len() ==> (#[trigger] k.gp@[i])@ == (k.gp@[i - 1]@
                                    * t) % p()
                            &&& #[trigger] commit_spec(fp_seq(poly.c_fp@), poly.g as nat, t)
                                == k.c@
                        }
                },
                Err(e) => {
                    ||| (e == KzgError::Overflow && poly.n > usize::MAX as u64)
                    ||| (e == KzgError::DegreeMismatch && poly.n <= usize::MAX as u64
                        && !poly.degree_ok())
                },
            },
    {
        let tau = Fp::random();
        let r = Self::new_with_tau(poly, tau);
        match r {
            Ok(k) => {
                proof {
                    let t = tau@;
                    assert(t < p() && (forall|i: int|
                        1 <= i < k.gp@.len() ==> (#[trigger] k.gp@[i])@ == (k.gp@[i - 1]@ * t)
                            % p()) && commit_spec(fp_seq(poly.c_fp@), poly.g as nat, t) == k.c@);
                }
                Ok(k)
            },
            Err(e) => Err(e),
        }
    }

    /// Produces an opening of this scheme at an explicit challenge
    /// point: evaluates `f` at the challenge, lowers the constant term
    /// of the integer representation by that value, divides exactly by
    /// `(x - u)`, and returns a new state carrying the quotient, with
    /// every other part unchanged. A nonzero remainder — the numerator
    /// not vanishing at the challenge — is reported, never truncated.
    pub fn opening_at(&self, u: Fp) -> (r: Result<(KZG, Fp), KzgError>)
        ensures
            match r {
                Ok(pair) => {
                    &&& pair.1 == u
                    &&& self.f.degree_ok()
                    &&& opening_fits(self.f, u)
                    &&& eval_from(opening_numer(self.f, u), opening_u(u), 0) == 0
                    &&& pair.0.f.c@ == self.f.c@
                    &&& pair.0.f.c_fp@ == self.f.c_fp@
                    &&& pair.0.f.g == self.f.g
                    &&& pair.0.f.n == self.f.n
                    &&& pair.0.gp@ == self.gp@
                    &&& pair.0.c == self.c
                    &&& pair.0.q matches Some(qv) && int_seq(qv@) == quotient_spec(
                        opening_numer(self.f, u),
                        opening_u(u),
                    )
                },
                Err(e) => {
                    ||| (e == KzgError::DegreeMismatch && !self.f.degree_ok())
                    ||| (e == KzgError::Overflow && self.f.degree_ok() && !opening_fits(
                        self.f,
                        u,
                    ))
                    ||| (e == KzgError::NonExactDivision && self.f.degree_ok() && opening_fits(
                        self.f,
                        u,
                    ) && eval_from(opening_numer(self.f, u), opening_u(u), 0) != 0)
                },
            },
    {
        let ev = match self.f.evaluate(u) {
            Err(e) => {
                return Err(e);
            },
            Ok(ev) => ev,
        };
        let v64 = ev.into_u64();
        if v64 > i64::MAX as u64 {
            return Err(KzgError::Overflow);
        }
        let v: i64 = v64 as i64;
        let u64v = u.into_u64();
        if u64v > i64::MAX as u64 {
            return Err(KzgError::Overflow);
        }
        let ui: i64 = u64v as i64;
        proof {
            if self.f.c@.len() == 0 {
                assert(deg_spec(self.f.c@) is None);
            }
        }
        let mut cq = copy_i64(&self.f.c);
        let t: i128 = (cq[0] as i128) - (v as i128);
        if t < i64::MIN as i128 || t > i64::MAX as i128 {
            proof {
                assert(!fits_i64(opening_numer(self.f, u)[0]));
            }
            return Err(KzgError::Overflow);
        }
        cq.set(0, t as i64);
        proof {
            assert(int_seq(cq@) =~= opening_numer(self.f, u));
        }
        let (q, rem) = match divide_by_linear(&cq, ui) {
            Err(e) => {
                return Err(e);
            },
            Ok(pair) => pair,
        };
        if rem != 0 {
            return Err(KzgError::NonExactDivision);
        }
        let newf = FpPoly {
            c: copy_i64(&self.f.c),
            c_fp: copy_fp(&self.f.c_fp),
            g: self.f.g,
            n: self.f.n,
        };
        let newk = KZG { f: newf, q: Some(q), gp: copy_fp(&self.gp), c: self.c };
        Ok((newk, u))
    }

    /// Produces an opening at a challenge derived by the oracle, and
    /// returns the new state together with the challenge used.
    pub fn opening(&self) -> (r: Result<(KZG, Fp), KzgError>)
        ensures
            match r {
                Ok(pair) => {
                    &&& pair.1@ < 65536
                    &&& self.f.degree_ok()
                    &&& opening_fits(self.f, pair.1)
                    &&& eval_from(opening_numer(self.f, pair.1), opening_u(pair.1), 0) == 0
                    &&& pair.0.f.c@ == self.f.c@
                    &&& pair.0.f.c_fp@ == self.f.c_fp@
                    &&& pair.0.f.g == self.f.g
                    &&& pair.0.f.n == self.f.n
                    &&& pair.0.gp@ == self.gp@
                    &&& pair.0.c == self.c
                    &&& pair.0.q matches Some(qv) && int_seq(qv@) == quotient_spec(
                        opening_numer(self.f, pair.1),
                        opening_u(pair.1),
                    )
                },
                Err(e) => {
                    ||| (e == KzgError::DegreeMismatch && !self.f.degree_ok())
                    ||| (e == KzgError::Overflow && self.f.degree_ok() && exists|u0: Fp|
                        u0@ < 65536 && !opening_fits(self.f, u0))
                    ||| (e == KzgError::NonExactDivision && self.f.degree_ok() && exists|u0: Fp|
                        u0@ < 65536 && opening_fits(self.f, u0) && eval_from(
                            opening_numer(self.f, u0),
                            opening_u(u0),
                            0,
                        ) != 0)
                },
            },
    {
        let u = Self::fiat_shamir_oracle();
        let r = self.opening_at(u);
        proof {
            if r is Err {
                let e = r->Err_0;
                if e == KzgError::Overflow {
                    assert(u@ < 65536 && !opening_fits(self.f, u));
                    assert(exists|u0: Fp| u0@ < 65536 && !opening_fits(self.f, u0));
                }
                if e == KzgError::NonExactDivision {
                    assert(exists|u0: Fp|
                        u0@ < 65536 && opening_fits(self.f, u0) && eval_from(
                            opening_numer(self.f, u0),
                            opening_u(u0),
                            0,
                        ) != 0);
                }
            }
        }
        r
    }

    /// Evaluates the committed polynomial at a freshly derived challenge
    /// and discards the result.
    pub fn vanilla_kzg(&self) {
        let x0 = Self::fiat_shamir_oracle();
        let _ = self.f.evaluate(x0);
    }

    /// A Pedersen-style variant; not part of this scheme's behaviour.
    pub fn pedersen_kzg() {
    }

    /// Derives a challenge standing in for a verifier's random point: a
    /// uniform draw of at most 16 bits of entropy, embedded into the
    /// field. Every challenge lies below `2^16`, well under the prime.
    pub fn fiat_shamir_oracle() -> (r: Fp)
        ensures
            r@ < 65536,
    {
        let x = draw_range(65535);
        Fp::from_u64(x)
    }
}

/// Commitment determinism: two schemes whose commitments were computed
/// from the same field coefficients, the same generator, and the same
/// secret scalar carry equal commitments.
pub proof fn lemma_commitment_deterministic(k1: KZG, k2: KZG, t: nat)
    requires
        k1.c@ == commit_spec(fp_seq(k1.f.c_fp@), k1.f.g as nat, t),
        k2.c@ == commit_spec(fp_seq(k2.f.c_fp@), k2.f.g as nat, t),
        k1.f.c_fp@ == k2.f.c_fp@,
        k1.f.g == k2.f.g,
    ensures
        k1.c@ == k2.c@,
{
}

/// The geometric reference string in closed form: a sequence that starts
/// at the generator and advances by one multiplication by the secret
/// scalar holds `g * t^i mod p` at every index.
pub proof fn lemma_srs_closed_form(gp: Seq<Fp>, g: nat, t: nat, i: int)
    requires
        g < p(),
        gp.len() >= 1,
        gp[0]@ == g,
        forall|j: int| 1 <= j < gp.len() ==> (#[trigger] gp[j])@ == (gp[j - 1]@ * t) % p(),
        0 <= i < gp.len(),
    ensures
        gp[i]@ == (g * pow_mod(t, i as nat)) % p(),
    decreases i,
{
    if i == 0 {
        assert(pow_mod(t, i as nat) == 1);
        assert(g * pow_mod(t, i as nat) == g) by (nonlinear_arith)
            requires
                pow_mod(t, i as nat) == 1,
        ;
        vstd::arithmetic::div_mod::lemma_small_mod(g, p());
    } else {
        lemma_srs_closed_form(gp, g, t, i - 1);
        let pw = pow_mod(t, (i - 1) as nat);
        assert(gp[i]@ == ((g * pw) % p() * t) % p());
        vstd::arithmetic::div_mod::lemma_mul_mod_noop_left((g * pw) as int, t as int, p() as int);
        assert(gp[i]@ == (g * pw * t) % p());
        vstd::arithmetic::div_mod::lemma_mul_mod_noop_right(
            g as int,
            (t * pw) as int,
            p() as int,
        );
        vstd::arithmetic::mul::lemma_mul_is_associative(g as int, pw as int, t as int);
        vstd::arithmetic::mul::lemma_mul_is_commutative(pw as int, t as int);
        vstd::arithmetic::mul::lemma_mul_is_associative(g as int, t as int, pw as int);
        assert(pow_mod(t, i as nat) == (t * pw) % p());
        assert((g * ((t * pw) % p())) % p() == (g * (t * pw)) % p());
        assert(g * pw * t == g * (t * pw));
        assert(gp[i]@ == (g * pow_mod(t, i as nat)) % p());
    }
}

/// The core correctness law of an opening: for a numerator `f(x) - v`
/// that vanishes at the challenge `u`, multiplying the exact quotient
/// back by `(x - u)` and restoring `v` on the constant term reproduces
/// the committed coefficient vector exactly.
pub proof fn lemma_opening_round_trip(a: Seq<int>, u: int, v: int)
    requires
        a.len() >= 1,
        eval_from(a.update(0, a[0] - v), u, 0) == 0,
    ensures
        ({
            let back = mul_linear_spec(quotient_spec(a.update(0, a[0] - v), u), u);
            back.update(0, back[0] + v) == a
        }),
{
    let numer = a.update(0, a[0] - v);
    lemma_division_identity(numer, u);
    let back = mul_linear_spec(quotient_spec(numer, u), u);
    assert(eval_int_spec(numer, u) == 0);
    assert(back.update(0, back[0] + 0) == numer);
    assert(back.update(0, back[0]) =~= back);
    assert(back == numer);
    assert(back.update(0, back[0] + v) =~= a);
}

} // verus!
