//! Polynomials in two parallel representations: an exact integer
//! coefficient vector, used for algebra (products of linear factors,
//! subtraction, exact division by a linear factor), and a field-element
//! coefficient vector, used for evaluation in the scalar field. The
//! algebra is stated over unbounded integers; every machine step is either
//! proved in range or reported as an overflow.

use vstd::prelude::*;

verus! {

use crate::field::{p, pow_mod, fp_add, fp_mul, fp_pow, draw_range, Fp};

/// The fixed public generator constant embedded in every polynomial.
pub const G: u64 = 7;

/// How an operation can fail: the two coefficient representations
/// disagree (or the polynomial is zero where a degree is needed), a
/// quotient left a nonzero remainder, or an exact integer left the
/// machine range.
#[derive(Clone, Copy, PartialEq, Eq, Structural, Debug)]
pub enum KzgError {
    DegreeMismatch,
    NonExactDivision,
    Overflow,
}

/// The mathematical values of a machine coefficient vector.
pub open spec fn int_seq(s: Seq<i64>) -> Seq<int> {
    s.map_values(|x: i64| x as int)
}

/// The mathematical values of a field coefficient vector.
pub open spec fn fp_seq(s: Seq<Fp>) -> Seq<nat> {
    s.map_values(|f: Fp| f@)
}

/// The mathematical values of a drawn root vector.
pub open spec fn u64_seq(s: Seq<u64>) -> Seq<int> {
    s.map_values(|x: u64| x as int)
}

/// Whether an exact integer fits in a machine coefficient.
pub open spec fn fits_i64(x: int) -> bool {
    i64::MIN <= x && x <= i64::MAX
}

/// The value at `x` of the polynomial whose coefficients are `c[k..]`,
/// in ascending order: `c[k] + x * (c[k+1] + x * (...))`.
pub open spec fn eval_from(c: Seq<int>, x: int, k: int) -> int
    decreases c.len() - k,
{
    if k < 0 || k >= c.len() {
        0
    } else {
        c[k] + x * eval_from(c, x, k + 1)
    }
}

/// The value at `x` of the whole integer polynomial `c`.
pub open spec fn eval_int_spec(c: Seq<int>, x: int) -> int {
    eval_from(c, x, 0)
}

/// Every tail value `c[k] + x * (...)` that a Horner evaluation of `c` at
/// `x` passes through fits in a machine coefficient.
pub open spec fn suffix_fits(c: Seq<int>, x: int) -> bool {
    forall|k: int| 0 <= k < c.len() ==> fits_i64(#[trigger] eval_from(c, x, k))
}

/// The coefficients of `q(x) * (x - u)`, ascending; one longer than `q`.
pub open spec fn mul_linear_spec(q: Seq<int>, u: int) -> Seq<int> {
    Seq::new(
        (q.len() + 1) as nat,
        |j: int|
            (if j >= 1 { q[j - 1] } else { 0 })
                - u * (if j < q.len() { q[j] } else { 0 }),
    )
}

/// Every coefficient of `q(x) * (x - u)` fits in a machine coefficient.
pub open spec fn mul_fits(q: Seq<int>, u: int) -> bool {
    forall|j: int| 0 <= j <= q.len() ==> fits_i64(#[trigger] mul_linear_spec(q, u)[j])
}

/// The quotient of `a` under synthetic division by `(x - u)`: its `k`-th
/// coefficient is the value at `u` of the polynomial `a[k+1..]`.
pub open spec fn quotient_spec(a: Seq<int>, u: int) -> Seq<int> {
    if a.len() == 0 {
        Seq::empty()
    } else {
        Seq::new((a.len() - 1) as nat, |k: int| eval_from(a, u, k + 1))
    }
}

/// The coefficients of the monic product `(x - r[0]) * ... * (x - r[n-1])`.
pub open spec fn coeffs_of_roots(r: Seq<int>) -> Seq<int>
    decreases r.len(),
{
    if r.len() == 0 {
        seq![1int]
    } else {
        mul_linear_spec(coeffs_of_roots(r.drop_last()), r.last())
    }
}

/// A product of two machine coefficients stays well inside the range of
/// the double-width integers the algebra computes in.
proof fn lemma_i64_mul_bounds(a: int, b: int)
    requires
        i64::MIN <= a <= i64::MAX,
        i64::MIN <= b <= i64::MAX,
    ensures
        -0x40000000000000000000000000000000 <= a * b
            <= 0x40000000000000000000000000000000,
{
    assert(-0x40000000000000000000000000000000 <= a * b
        <= 0x40000000000000000000000000000000) by (nonlinear_arith)
        requires
            -0x8000000000000000 <= a <= 0x7fffffffffffffff,
            -0x8000000000000000 <= b <= 0x7fffffffffffffff,
    ;
}

/// Every multiplication step of building the monic product of the given
/// roots — the product so far times one more linear factor — yields only
/// coefficients that fit a machine coefficient.
pub open spec fn roots_build_fits(rs: Seq<int>) -> bool {
    forall|i: int| 0 <= i < rs.len() ==> mul_fits(coeffs_of_roots(rs.take(i)), #[trigger] rs[i])
}

/// Every coefficient of the monic product of roots drawn from `[0, m]`
/// is bounded in magnitude by `(m + 1)^n` for `n` roots.
pub proof fn lemma_product_coeff_bound(rs: Seq<int>, m: int)
    requires
        0 <= m,
        forall|j: int| 0 <= j < rs.len() ==> 0 <= #[trigger] rs[j] <= m,
    ensures
        forall|k: int|
            0 <= k < coeffs_of_roots(rs).len() ==> -vstd::arithmetic::power::pow(
                m + 1,
                rs.len(),
            ) <= #[trigger] coeffs_of_roots(rs)[k] <= vstd::arithmetic::power::pow(
                m + 1,
                rs.len(),
            ),
    decreases rs.len(),
{
    reveal(vstd::arithmetic::power::pow);
    if rs.len() == 0 {
        assert(vstd::arithmetic::power::pow(m + 1, 0) == 1);
    } else {
        let prev = rs.drop_last();
        let r = rs.last();
        lemma_product_coeff_bound(prev, m);
        let q = coeffs_of_roots(prev);
        let b = vstd::arithmetic::power::pow(m + 1, prev.len());
        vstd::arithmetic::power::lemma_pow_positive(m + 1, prev.len());
        assert(vstd::arithmetic::power::pow(m + 1, rs.len()) == (m + 1) * b);
        assert forall|k: int|
            0 <= k < coeffs_of_roots(rs).len() implies -((m + 1) * b) <= #[trigger] coeffs_of_roots(
            rs,
        )[k] <= (m + 1) * b by {
            let hi = if k >= 1 {
                q[k - 1]
            } else {
                0
            };
            let lo = if k < q.len() {
                q[k]
            } else {
                0
            };
            assert(coeffs_of_roots(rs)[k] == hi - r * lo);
            assert(-b <= hi <= b);
            assert(-b <= lo <= b);
            assert(-((m + 1) * b) <= hi - r * lo <= (m + 1) * b) by (nonlinear_arith)
                requires
                    0 <= r <= m,
                    -b <= hi <= b,
                    -b <= lo <= b,
                    0 < b,
            ;
        }
    }
}

/// When `(m + 1)^n` fits a machine coefficient, building the monic
/// product of any `n` roots drawn from `[0, m]` stays in range at every
/// multiplication step.
pub proof fn lemma_bounded_roots_build_fits(rs: Seq<int>, m: int)
    requires
        0 <= m,
        forall|j: int| 0 <= j < rs.len() ==> 0 <= #[trigger] rs[j] <= m,
        vstd::arithmetic::power::pow(m + 1, rs.len()) <= i64::MAX,
    ensures
        roots_build_fits(rs),
{
    reveal(vstd::arithmetic::power::pow);
    assert forall|i: int| 0 <= i < rs.len() implies mul_fits(
        coeffs_of_roots(rs.take(i)),
        #[trigger] rs[i],
    ) by {
        let pre = rs.take(i);
        lemma_product_coeff_bound(pre, m);
        let q = coeffs_of_roots(pre);
        let r = rs[i];
        let b = vstd::arithmetic::power::pow(m + 1, i as nat);
        vstd::arithmetic::power::lemma_pow_positive(m + 1, i as nat);
        vstd::arithmetic::power::lemma_pow_increases((m + 1) as nat, (i + 1) as nat, rs.len());
        assert(vstd::arithmetic::power::pow(m + 1, (i + 1) as nat) == (m + 1) * b);
        assert forall|j: int| 0 <= j <= q.len() implies fits_i64(
            #[trigger] mul_linear_spec(q, r)[j],
        ) by {
            let hi = if j >= 1 {
                q[j - 1]
            } else {
                0
            };
            let lo = if j < q.len() {
                q[j]
            } else {
                0
            };
            assert(mul_linear_spec(q, r)[j] == hi - r * lo);
            assert(-b <= hi <= b);
            assert(-b <= lo <= b);
            assert(-((m + 1) * b) <= hi - r * lo <= (m + 1) * b) by (nonlinear_arith)
                requires
                    0 <= r <= m,
                    -b <= hi <= b,
                    -b <= lo <= b,
                    0 < b,
            ;
        }
    }
}

/// The degree reported by an integer coefficient vector: the highest
/// index holding a nonzero coefficient, or nothing for the zero
/// polynomial.
pub open spec fn deg_spec(c: Seq<i64>) -> Option<int>
    decreases c.len(),
{
    if c.len() == 0 {
        None
    } else if c.last() != 0 {
        Some(c.len() - 1)
    } else {
        deg_spec(c.drop_last())
    }
}

/// The coefficient of a summand in a polynomial difference, with absent
/// coefficients read as zero.
pub open spec fn sub_coeff(a: Seq<int>, b: Seq<int>, i: int) -> int {
    (if 0 <= i < a.len() { a[i] } else { 0 }) - (if 0 <= i < b.len() { b[i] } else { 0 })
}

/// Every coefficient of the difference fits in a machine coefficient.
pub open spec fn sub_fits(a: Seq<int>, b: Seq<int>) -> bool {
    forall|i: int|
        0 <= i < vstd::math::max(a.len() as int, b.len() as int) ==> fits_i64(
            #[trigger] sub_coeff(a, b, i),
        )
}

/// The running sum, reduced modulo the prime after each term, of the
/// first `k` terms of `c[0] + c[1] x + c[2] x^2 + ...`.
pub open spec fn eval_fp_prefix(c: Seq<nat>, x: nat, k: nat) -> nat
    decreases k,
{
    if k == 0 {
        0
    } else {
        (eval_fp_prefix(c, x, (k - 1) as nat) + c[k - 1] * pow_mod(x, (k - 1) as nat)) % p()
    }
}

/// The field value of the polynomial with coefficients `c` at `x`:
/// the full sum over every stored field coefficient, modulo the prime.
pub open spec fn eval_fp(c: Seq<nat>, x: nat) -> nat {
    eval_fp_prefix(c, x, c.len())
}

/// Reports the degree of an integer coefficient vector, ignoring trailing
/// zero coefficients; nothing for the zero polynomial.
pub fn degree_of(c: &Vec<i64>) -> (r: Option<usize>)
    ensures
        match r {
            Some(d) => deg_spec(c@) == Some(d as int),
            None => deg_spec(c@) is None,
        },
{
    let mut i: usize = c.len();
    proof {
        assert(c@.take(c@.len() as int) =~= c@);
    }
    while i > 0
        invariant
            i <= c@.len(),
            deg_spec(c@) == deg_spec(c@.take(i as int)),
        decreases i,
    {
        if c[i - 1] != 0 {
            proof {
                assert(c@.take(i as int).last() == c@[i - 1]);
            }
            return Some(i - 1);
        }
        proof {
            assert(c@.take(i as int).last() == c@[i - 1]);
            assert(c@.take(i as int).drop_last() =~= c@.take(i - 1));
        }
        i = i - 1;
    }
    proof {
        assert(c@.take(0) =~= Seq::<i64>::empty());
    }
    None
}

/// Evaluates an integer polynomial at an integer point by Horner's rule,
/// reporting an overflow if any running value leaves the machine range.
pub fn eval_int(c: &Vec<i64>, x: i64) -> (r: Result<i64, KzgError>)
    ensures
        match r {
            Ok(v) => suffix_fits(int_seq(c@), x as int) && v as int == eval_int_spec(
                int_seq(c@),
                x as int,
            ),
            Err(e) => e == KzgError::Overflow && !suffix_fits(int_seq(c@), x as int),
        },
{
    let ghost s = int_seq(c@);
    let m = c.len();
    let mut acc: i64 = 0;
    let mut j: usize = 0;
    while j < m
        invariant
            j <= m,
            m == c@.len(),
            s == int_seq(c@),
            acc as int == eval_from(s, x as int, m - j),
            forall|k: int| m - j <= k < m ==> fits_i64(#[trigger] eval_from(s, x as int, k)),
        decreases m - j,
    {
        let k = m - 1 - j;
        proof {
            lemma_i64_mul_bounds(acc as int, x as int);
        }
        let t: i128 = (acc as i128) * (x as i128) + (c[k] as i128);
        proof {
            assert(s[k as int] == c@[k as int] as int);
            assert(acc as int == eval_from(s, x as int, k + 1));
            assert(eval_from(s, x as int, k as int) == s[k as int] + x * eval_from(
                s,
                x as int,
                k + 1,
            ));
            assert(t as int == c@[k as int] + (acc as int) * (x as int));
            vstd::arithmetic::mul::lemma_mul_is_commutative(acc as int, x as int);
            assert(t as int == eval_from(s, x as int, k as int));
        }
        if t < i64::MIN as i128 || t > i64::MAX as i128 {
            return Err(KzgError::Overflow);
        }
        acc = t as i64;
        j = j + 1;
    }
    Ok(acc)
}

/// Multiplies an integer polynomial by the monic linear factor `(x - u)`,
/// reporting an overflow if any product coefficient leaves the machine
/// range.
pub fn mul_by_linear(q: &Vec<i64>, u: i64) -> (r: Result<Vec<i64>, KzgError>)
    ensures
        match r {
            Ok(v) => mul_fits(int_seq(q@), u as int) && int_seq(v@) == mul_linear_spec(
                int_seq(q@),
                u as int,
            ),
            Err(e) => e == KzgError::Overflow && !mul_fits(int_seq(q@), u as int),
        },
{
    let ghost qs = int_seq(q@);
    let m = q.len();
    let mut out: Vec<i64> = Vec::new();
    let mut j: usize = 0;
    while j < m
        invariant
            j <= m,
            m == q@.len(),
            qs == int_seq(q@),
            out@.len() == j,
            forall|t: int| 0 <= t < j ==> out@[t] as int == mul_linear_spec(qs, u as int)[t],
        decreases m - j,
    {
        let prev: i64 = if j >= 1 {
            q[j - 1]
        } else {
            0
        };
        proof {
            lemma_i64_mul_bounds(u as int, q@[j as int] as int);
        }
        let t: i128 = (prev as i128) - (u as i128) * (q[j] as i128);
        proof {
            assert(t as int == mul_linear_spec(qs, u as int)[j as int]);
        }
        if t < i64::MIN as i128 || t > i64::MAX as i128 {
            return Err(KzgError::Overflow);
        }
        out.push(t as i64);
        j = j + 1;
    }
    let last: i64 = if m >= 1 {
        q[m - 1]
    } else {
        0
    };
    out.push(last);
    proof {
        assert(last as int == mul_linear_spec(qs, u as int)[m as int]);
        assert(int_seq(out@) =~= mul_linear_spec(qs, u as int));
    }
    Ok(out)
}

/// Divides an integer polynomial exactly by the monic linear factor
/// `(x - u)` by synthetic division, returning the quotient and the
/// remainder. The remainder is the numerator's value at `u`, so it is
/// zero precisely when `u` is a root of the numerator.
pub fn divide_by_linear(a: &Vec<i64>, u: i64) -> (r: Result<(Vec<i64>, i64), KzgError>)
    requires
        a@.len() >= 1,
    ensures
        match r {
            Ok(pair) => {
                &&& suffix_fits(int_seq(a@), u as int)
                &&& pair.0@.len() == a@.len() - 1
                &&& int_seq(pair.0@) == quotient_spec(int_seq(a@), u as int)
                &&& pair.1 as int == eval_int_spec(int_seq(a@), u as int)
            },
            Err(e) => e == KzgError::Overflow && !suffix_fits(int_seq(a@), u as int),
        },
{
    let ghost s = int_seq(a@);
    let m = a.len();
    let mut bs: Vec<i64> = Vec::new();
    bs.push(a[m - 1]);
    proof {
        assert(eval_from(s, u as int, m - 1) == s[m - 1] + u * eval_from(s, u as int, m as int));
    }
    let mut j: usize = 1;
    while j < m
        invariant
            1 <= j <= m,
            m == a@.len(),
            s == int_seq(a@),
            bs@.len() == j,
            forall|t: int| 0 <= t < j ==> bs@[t] as int == eval_from(s, u as int, m - 1 - t),
        decreases m - j,
    {
        let k = m - 1 - j;
        let prev = bs[j - 1];
        proof {
            lemma_i64_mul_bounds(u as int, prev as int);
        }
        let t: i128 = (a[k] as i128) + (u as i128) * (prev as i128);
        proof {
            assert(eval_from(s, u as int, k as int) == s[k as int] + u * eval_from(
                s,
                u as int,
                k + 1,
            ));
            assert(t as int == eval_from(s, u as int, k as int));
        }
        if t < i64::MIN as i128 || t > i64::MAX as i128 {
            proof {
                assert(!fits_i64(eval_from(s, u as int, k as int)));
            }
            return Err(KzgError::Overflow);
        }
        bs.push(t as i64);
        j = j + 1;
    }
    let rem = bs[m - 1];
    proof {
        assert forall|k: int| 0 <= k < m implies fits_i64(#[trigger] eval_from(s, u as int, k)) by {
            assert(bs@[m - 1 - k] as int == eval_from(s, u as int, k));
        }
    }
    let mut q: Vec<i64> = Vec::new();
    let mut kk: usize = 0;
    while kk < m - 1
        invariant
            kk <= m - 1,
            1 <= m == a@.len(),
            s == int_seq(a@),
            bs@.len() == m,
            forall|t: int| 0 <= t < m ==> bs@[t] as int == eval_from(s, u as int, m - 1 - t),
            q@.len() == kk,
            forall|t: int| 0 <= t < kk ==> q@[t] as int == eval_from(s, u as int, t + 1),
        decreases m - kk,
    {
        q.push(bs[m - 2 - kk]);
        kk = kk + 1;
    }
    proof {
        assert(int_seq(q@) =~= quotient_spec(s, u as int));
    }
    Ok((q, rem))
}

/// Subtracts one integer polynomial from another coefficient by
/// coefficient, reading absent coefficients as zero; reports an overflow
/// if any difference leaves the machine range.
pub fn poly_sub(a: &Vec<i64>, b: &Vec<i64>) -> (r: Result<Vec<i64>, KzgError>)
    ensures
        match r {
            Ok(v) => {
                &&& sub_fits(int_seq(a@), int_seq(b@))
                &&& v@.len() == vstd::math::max(a@.len() as int, b@.len() as int)
                &&& forall|i: int|
                    0 <= i < v@.len() ==> v@[i] as int == sub_coeff(int_seq(a@), int_seq(b@), i)
            },
            Err(e) => e == KzgError::Overflow && !sub_fits(int_seq(a@), int_seq(b@)),
        },
{
    let ghost sa = int_seq(a@);
    let ghost sb = int_seq(b@);
    let len = if a.len() >= b.len() {
        a.len()
    } else {
        b.len()
    };
    let mut out: Vec<i64> = Vec::new();
    let mut i: usize = 0;
    while i < len
        invariant
            i <= len,
            sa == int_seq(a@),
            sb == int_seq(b@),
            len == vstd::math::max(a@.len() as int, b@.len() as int),
            out@.len() == i,
            forall|t: int| 0 <= t < i ==> out@[t] as int == sub_coeff(sa, sb, t),
        decreases len - i,
    {
        let av: i64 = if i < a.len() {
            a[i]
        } else {
            0
        };
        let bv: i64 = if i < b.len() {
            b[i]
        } else {
            0
        };
        let t: i128 = (av as i128) - (bv as i128);
        proof {
            assert(t as int == sub_coeff(sa, sb, i as int));
        }
        if t < i64::MIN as i128 || t > i64::MAX as i128 {
            return Err(KzgError::Overflow);
        }
        out.push(t as i64);
        i = i + 1;
    }
    Ok(out)
}

/// Copies a machine coefficient vector.
pub(crate) fn copy_i64(v: &Vec<i64>) -> (r: Vec<i64>)
    ensures
        r@ == v@,
{
    let mut out: Vec<i64> = Vec::new();
    let mut i: usize = 0;
    while i < v.len()
        invariant
            i <= v@.len(),
            out@ == v@.take(i as int),
        decreases v@.len() - i,
    {
        out.push(v[i]);
        proof {
            assert(out@ =~= v@.take(i + 1));
        }
        i = i + 1;
    }
    proof {
        assert(v@.take(v@.len() as int) =~= v@);
    }
    out
}

/// Copies a field coefficient vector.
pub(crate) fn copy_fp(v: &Vec<Fp>) -> (r: Vec<Fp>)
    ensures
        r@ == v@,
{
    let mut out: Vec<Fp> = Vec::new();
    let mut i: usize = 0;
    while i < v.len()
        invariant
            i <= v@.len(),
            out@ == v@.take(i as int),
        decreases v@.len() - i,
    {
        out.push(v[i]);
        proof {
            assert(out@ =~= v@.take(i + 1));
        }
        i = i + 1;
    }
    proof {
        assert(v@.take(v@.len() as int) =~= v@);
    }
    out
}

/// The monic product of linear factors is one longer than its root list
/// and always ends in the coefficient one.
pub proof fn lemma_coeffs_monic(r: Seq<int>)
    ensures
        coeffs_of_roots(r).len() == r.len() + 1,
        coeffs_of_roots(r).last() == 1,
    decreases r.len(),
{
    if r.len() > 0 {
        lemma_coeffs_monic(r.drop_last());
    }
}

/// Multiplying the synthetic-division quotient back by `(x - u)` and
/// adding the remainder to the constant term reproduces the dividend
/// exactly, coefficient for coefficient.
pub proof fn lemma_division_identity(a: Seq<int>, u: int)
    requires
        a.len() >= 1,
    ensures
        ({
            let back = mul_linear_spec(quotient_spec(a, u), u);
            back.update(0, back[0] + eval_int_spec(a, u)) == a
        }),
{
    let q = quotient_spec(a, u);
    let back = mul_linear_spec(q, u);
    let fixed = back.update(0, back[0] + eval_int_spec(a, u));
    assert forall|j: int| 0 <= j < a.len() implies fixed[j] == a[j] by {
        if j == 0 {
            if a.len() == 1 {
                assert(eval_from(a, u, 1) == 0);
                assert(eval_from(a, u, 0) == a[0] + u * eval_from(a, u, 1));
            } else {
                assert(q[0] == eval_from(a, u, 1));
                assert(back[0] == 0 - u * eval_from(a, u, 1));
                assert(eval_from(a, u, 0) == a[0] + u * eval_from(a, u, 1));
            }
        } else if j < a.len() - 1 {
            assert(q[j - 1] == eval_from(a, u, j));
            assert(q[j] == eval_from(a, u, j + 1));
            assert(eval_from(a, u, j) == a[j] + u * eval_from(a, u, j + 1));
        } else {
            assert(q[j - 1] == eval_from(a, u, j));
            assert(eval_from(a, u, j + 1) == 0);
            assert(eval_from(a, u, j) == a[j] + u * eval_from(a, u, j + 1));
        }
    }
    assert(fixed =~= a);
}

/// The truncated-to-nonnegative value used when a machine coefficient is
/// embedded into the field.
pub open spec fn coeff_nat(x: int) -> nat {
    if x < 0 {
        0nat
    } else {
        x as nat
    }
}

/// A polynomial `f(x) = sum c_i x^i`, held as an exact integer
/// coefficient vector `c` for algebra beside a field coefficient vector
/// `c_fp` for evaluation, with the public generator constant `g` and the
/// declared length `n`.
#[derive(Debug, Clone)]
pub struct FpPoly {
    pub c: Vec<i64>,
    pub c_fp: Vec<Fp>,
    pub g: u64,
    pub n: u64,
}

impl FpPoly {
    /// The two representations agree well enough to evaluate: the integer
    /// side reports a degree, and that degree does not exceed the number
    /// of stored field coefficients.
    pub open spec fn degree_ok(self) -> bool {
        match deg_spec(self.c@) {
            Some(d) => d <= self.c_fp@.len() as int,
            None => false,
        }
    }

    /// Builds a random test polynomial: `n` values drawn uniformly from
    /// `0..=max_c` become the roots of the integer representation (a
    /// monic product of linear factors) and, read as coefficients, the
    /// field representation.
    pub fn new(n: u64, max_c: u64) -> (r: Result<FpPoly, KzgError>)
        ensures
            match r {
                Ok(poly) => {
                    &&& poly.g == G
                    &&& poly.n == n
                    &&& poly.c_fp@.len() == n as nat
                    &&& poly.c@.len() == n as nat + 1
                    &&& deg_spec(poly.c@) == Some(n as int)
                    &&& poly.degree_ok()
                    &&& exists|roots: Seq<int>|
                        {
                            &&& roots.len() == n as nat
                            &&& forall|i: int| 0 <= i < roots.len() ==> 0 <= #[trigger] roots[i] <= max_c
                            &&& int_seq(poly.c@) == coeffs_of_roots(roots)
                            &&& forall|i: int|
                                0 <= i < roots.len() ==> fp_seq(poly.c_fp@)[i] == #[trigger] (
                                roots[i] as nat)
                        }
                },
                Err(e) => {
                    &&& e == KzgError::Overflow
                    &&& {
                        ||| n > usize::MAX as u64
                        ||| max_c > i64::MAX as u64
                        ||| exists|roots: Seq<int>|
                            {
                                &&& roots.len() == n as nat
                                &&& forall|i: int|
                                    0 <= i < roots.len() ==> 0 <= #[trigger] roots[i] <= max_c
                                &&& !roots_build_fits(roots)
                            }
                    }
                },
            },
            n <= usize::MAX as u64 && max_c <= i64::MAX as u64
                && vstd::arithmetic::power::pow(max_c as int + 1, n as nat) <= i64::MAX
                ==> r is Ok,
    {
        if n > usize::MAX as u64 {
            return Err(KzgError::Overflow);
        }
        if max_c > i64::MAX as u64 {
            return Err(KzgError::Overflow);
        }
        let n_us = n as usize;
        let mut roots: Vec<u64> = Vec::new();
        while roots.len() < n_us
            invariant
                roots@.len() <= n_us,
                forall|i: int| 0 <= i < roots@.len() ==> roots@[i] <= max_c,
            decreases n_us - roots@.len(),
        {
            roots.push(draw_range(max_c));
        }
        let mut c: Vec<i64> = Vec::new();
        c.push(1);
        proof {
            assert(int_seq(c@) =~= coeffs_of_roots(u64_seq(roots@).take(0)));
        }
        let mut i: usize = 0;
        while i < n_us
            invariant
                i <= n_us,
                n_us == roots@.len(),
                n_us as u64 == n,
                max_c <= i64::MAX as u64,
                forall|t: int| 0 <= t < roots@.len() ==> roots@[t] <= max_c,
                int_seq(c@) == coeffs_of_roots(u64_seq(roots@).take(i as int)),
                c@.len() == i + 1,
            decreases n_us - i,
        {
            let rt: i64 = roots[i] as i64;
            let next = match mul_by_linear(&c, rt) {
                Ok(v) => v,
                Err(e) => {
                    proof {
                        let rs = u64_seq(roots@);
                        assert(rt as int == rs[i as int]);
                        assert(!mul_fits(coeffs_of_roots(rs.take(i as int)), rs[i as int]));
                        assert(!roots_build_fits(rs));
                        assert(forall|t: int| 0 <= t < rs.len() ==> 0 <= #[trigger] rs[t] <= max_c);
                        assert(rs.len() == n as nat);
                        if vstd::arithmetic::power::pow(max_c as int + 1, n as nat)
                            <= i64::MAX {
                            lemma_bounded_roots_build_fits(rs, max_c as int);
                        }
                        assert(exists|roots: Seq<int>|
                            {
                                &&& roots.len() == n as nat
                                &&& forall|t: int|
                                    0 <= t < roots.len() ==> 0 <= #[trigger] roots[t] <= max_c
                                &&& !roots_build_fits(roots)
                            });
                    }
                    return Err(e);
                },
            };
            let ghost prev = c@;
            c = next;
            proof {
                let rs = u64_seq(roots@);
                assert(roots@[i as int] <= i64::MAX as u64);
                assert(rs.take(i + 1).drop_last() =~= rs.take(i as int));
                assert(rs.take(i + 1).last() == rt as int);
                assert(coeffs_of_roots(rs.take(i + 1)) == mul_linear_spec(
                    coeffs_of_roots(rs.take(i as int)),
                    rt as int,
                ));
                assert(int_seq(c@).len() == c@.len());
            }
            i = i + 1;
        }
        proof {
            assert(u64_seq(roots@).take(n_us as int) =~= u64_seq(roots@));
            lemma_coeffs_monic(u64_seq(roots@));
            assert(c@.last() == 1i64);
        }
        let mut c_fp: Vec<Fp> = Vec::new();
        let mut j: usize = 0;
        while j < n_us
            invariant
                j <= n_us,
                n_us == roots@.len(),
                c_fp@.len() == j,
                forall|t: int| 0 <= t < j ==> fp_seq(c_fp@)[t] == roots@[t] as nat,
            decreases n_us - j,
        {
            c_fp.push(Fp::from_u64(roots[j]));
            j = j + 1;
        }
        let poly = FpPoly { c, c_fp, g: G, n };
        proof {
            assert(deg_spec(poly.c@) == Some(n as int));
            let w = u64_seq(roots@);
            assert(forall|t: int| 0 <= t < w.len() ==> 0 <= #[trigger] w[t] <= max_c);
        }
        Ok(poly)
    }

    /// Builds a polynomial from an explicit ordered coefficient vector:
    /// the integer representation holds it as given, and each coefficient
    /// is embedded into the field, with negative values read as zero by
    /// a truncating conversion.
    pub fn from_i64(c: Vec<i64>) -> (r: FpPoly)
        ensures
            r.c@ == c@,
            r.g == G,
            r.n as nat == c@.len(),
            r.c_fp@.len() == c@.len(),
            forall|i: int| 0 <= i < c@.len() ==> fp_seq(r.c_fp@)[i] == coeff_nat(c@[i] as int),
    {
        let mut c_fp: Vec<Fp> = Vec::new();
        let mut i: usize = 0;
        while i < c.len()
            invariant
                i <= c@.len(),
                c_fp@.len() == i,
                forall|t: int| 0 <= t < i ==> fp_seq(c_fp@)[t] == coeff_nat(c@[t] as int),
            decreases c@.len() - i,
        {
            let x = c[i];
            let f = if x < 0 {
                Fp::from_u64(0)
            } else {
                Fp::from_u64(x as u64)
            };
            let ghost prev = c_fp@;
            c_fp.push(f);
            proof {
                assert(c_fp@ == prev.push(f));
                assert(fp_seq(c_fp@)[i as int] == f@);
                assert(fp_seq(c_fp@)[i as int] == coeff_nat(c@[i as int] as int));
                assert forall|t: int| 0 <= t < i implies fp_seq(c_fp@)[t] == coeff_nat(
                    c@[t] as int,
                ) by {
                    assert(c_fp@[t] == prev[t]);
                    assert(fp_seq(prev)[t] == coeff_nat(c@[t] as int));
                }
            }
            i = i + 1;
        }
        let n = c.len() as u64;
        FpPoly { c, c_fp, g: G, n }
    }

    /// Reports the degree of the integer representation.
    pub fn degree(&self) -> (r: Option<usize>)
        ensures
            match r {
                Some(d) => deg_spec(self.c@) == Some(d as int),
                None => deg_spec(self.c@) is None,
            },
    {
        degree_of(&self.c)
    }

    /// Evaluates the polynomial at a field point: the sum of
    /// `c_fp[i] * x^i` over every stored field coefficient, modulo the
    /// prime. Fails when the integer representation reports no degree, or
    /// a degree beyond the stored field coefficients, rather than
    /// mis-summing against inconsistent representations.
    pub fn evaluate(&self, x: Fp) -> (r: Result<Fp, KzgError>)
        ensures
            match r {
                Ok(v) => {
                    &&& self.degree_ok()
                    &&& v@ == eval_fp(fp_seq(self.c_fp@), x@)
                    &&& v@ < p()
                },
                Err(e) => e == KzgError::DegreeMismatch && !self.degree_ok(),
            },
    {
        let d = match degree_of(&self.c) {
            None => {
                return Err(KzgError::DegreeMismatch);
            },
            Some(d) => d,
        };
        if d > self.c_fp.len() {
            return Err(KzgError::DegreeMismatch);
        }
        let ghost cs = fp_seq(self.c_fp@);
        let mut acc = Fp::from_u64(0);
        let mut i: usize = 0;
        while i < self.c_fp.len()
            invariant
                i <= self.c_fp@.len(),
                cs == fp_seq(self.c_fp@),
                acc@ == eval_fp_prefix(cs, x@, i as nat),
                acc@ < p(),
            decreases self.c_fp@.len() - i,
        {
            let pw = fp_pow(&x, i as u64);
            let term = fp_mul(&self.c_fp[i], &pw);
            let next = fp_add(&acc, &term);
            proof {
                let pre = eval_fp_prefix(cs, x@, i as nat) as int;
                let t = (cs[i as int] * pow_mod(x@, i as nat)) as int;
                vstd::arithmetic::div_mod::lemma_small_mod(
                    eval_fp_prefix(cs, x@, i as nat),
                    p(),
                );
                vstd::arithmetic::div_mod::lemma_add_mod_noop(pre, t, p() as int);
            }
            acc = next;
            i = i + 1;
        }
        Ok(acc)
    }
}

} // verus!
