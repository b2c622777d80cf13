//! Elements of the scalar field of BLS12-381: exact arithmetic modulo a
//! fixed 255-bit prime. The arithmetic engine itself is `bls12_381::Scalar`;
//! this module holds an element as four little-endian 64-bit limbs and
//! states each operation exactly, as a congruence modulo the prime.

use vstd::prelude::*;

use bls12_381::Scalar;
use ff::Field;
use rand::Rng;

verus! {

/// The prime modulus of the scalar field.
pub open spec fn p() -> nat {
    0x73eda753299d7d483339d80809a1d80553bda402fffe5bfeffffffff00000001nat
}

/// One more than the largest `u64`: the radix in which a field element is
/// reinterpreted as a machine integer.
pub open spec fn two64() -> nat {
    u64::MAX as nat + 1
}

/// `b^e` reduced modulo the prime (`1` when `e == 0`).
pub open spec fn pow_mod(b: nat, e: nat) -> nat
    decreases e,
{
    if e == 0 {
        1
    } else {
        (b * pow_mod(b, (e - 1) as nat)) % p()
    }
}

/// A scalar-field element, held as four 64-bit limbs in little-endian
/// order. Its mathematical value is the view `@`; every operation below
/// states its result as a value modulo `p()`.
#[derive(Clone, Copy, PartialEq, Eq, Structural, Debug)]
pub struct Fp {
    l0: u64,
    l1: u64,
    l2: u64,
    l3: u64,
}

impl View for Fp {
    type V = nat;

    closed spec fn view(&self) -> nat {
        (self.l0
            + self.l1 * 0x10000000000000000
            + self.l2 * 0x100000000000000000000000000000000
            + self.l3 * 0x1000000000000000000000000000000000000000000000000) as nat
    }
}

impl Fp {
    /// Embeds a machine integer into the field; exact, since every `u64`
    /// is below the prime.
    pub fn from_u64(x: u64) -> (r: Fp)
        ensures
            r@ == x as nat,
            r@ < p(),
    {
        Fp { l0: x, l1: 0, l2: 0, l3: 0 }
    }

    /// Reads the element back as a machine integer: the low 64 bits of its
    /// little-endian encoding, that is, the value modulo `2^64`.
    pub fn into_u64(&self) -> (r: u64)
        ensures
            r as nat == self@ % two64(),
    {
        proof {
            let m = two64() as int;
            let k = self.l1 + self.l2 * 0x10000000000000000
                + self.l3 * 0x100000000000000000000000000000000;
            assert(self.l0 + self.l1 * 0x10000000000000000
                + self.l2 * 0x100000000000000000000000000000000
                + self.l3 * 0x1000000000000000000000000000000000000000000000000
                == 0x10000000000000000 * (self.l1 + self.l2 * 0x10000000000000000
                    + self.l3 * 0x100000000000000000000000000000000)
                    + self.l0) by (nonlinear_arith);
            assert(self@ == m * k + self.l0);
            vstd::arithmetic::div_mod::lemma_mod_multiples_vanish(k, self.l0 as int, m);
            vstd::arithmetic::div_mod::lemma_small_mod(self.l0 as nat, two64());
        }
        self.l0
    }

    /// Samples an element uniformly from the whole field.
    ///
    /// Relies on `ff::Field::random` for `bls12_381::Scalar` (64 uniform
    /// bytes reduced modulo the prime) and on `Scalar::to_bytes`, whose
    /// output is the canonical little-endian encoding of a value below the
    /// prime. Nothing more than canonicity is claimed of the draw.
    #[verifier::external_body]
    pub fn random() -> (r: Fp)
        ensures
            r@ < p(),
    {
        let mut rng = rand::thread_rng();
        let b = <Scalar as Field>::random(&mut rng).to_bytes();
        Fp {
            l0: u64::from_le_bytes(b[0..8].try_into().unwrap()),
            l1: u64::from_le_bytes(b[8..16].try_into().unwrap()),
            l2: u64::from_le_bytes(b[16..24].try_into().unwrap()),
            l3: u64::from_le_bytes(b[24..32].try_into().unwrap()),
        }
    }
}

/// A field element holding a machine integer reads back, through its
/// little-endian reinterpretation, as exactly that integer.
pub proof fn lemma_field_round_trip(x: u64, f: Fp)
    requires
        f@ == x as nat,
    ensures
        f@ % two64() == x as nat,
{
    vstd::arithmetic::div_mod::lemma_small_mod(x as nat, two64());
}

/// Modular addition.
///
/// Relies on `bls12_381::Scalar`: `from_raw` reads four little-endian
/// limbs modulo the prime, `+` is field addition, and `to_bytes` writes
/// the canonical little-endian encoding.
#[verifier::external_body]
pub(crate) fn fp_add(a: &Fp, b: &Fp) -> (r: Fp)
    ensures
        r@ == (a@ + b@) % p(),
        r@ < p(),
{
    let x = Scalar::from_raw([a.l0, a.l1, a.l2, a.l3]);
    let y = Scalar::from_raw([b.l0, b.l1, b.l2, b.l3]);
    let s = (x + y).to_bytes();
    Fp {
        l0: u64::from_le_bytes(s[0..8].try_into().unwrap()),
        l1: u64::from_le_bytes(s[8..16].try_into().unwrap()),
        l2: u64::from_le_bytes(s[16..24].try_into().unwrap()),
        l3: u64::from_le_bytes(s[24..32].try_into().unwrap()),
    }
}

/// Modular multiplication.
///
/// Relies on `bls12_381::Scalar`: `from_raw`, field `*`, and the canonical
/// `to_bytes` encoding, as for `fp_add`.
#[verifier::external_body]
pub(crate) fn fp_mul(a: &Fp, b: &Fp) -> (r: Fp)
    ensures
        r@ == (a@ * b@) % p(),
        r@ < p(),
{
    let x = Scalar::from_raw([a.l0, a.l1, a.l2, a.l3]);
    let y = Scalar::from_raw([b.l0, b.l1, b.l2, b.l3]);
    let s = (x * y).to_bytes();
    Fp {
        l0: u64::from_le_bytes(s[0..8].try_into().unwrap()),
        l1: u64::from_le_bytes(s[8..16].try_into().unwrap()),
        l2: u64::from_le_bytes(s[16..24].try_into().unwrap()),
        l3: u64::from_le_bytes(s[24..32].try_into().unwrap()),
    }
}

/// Modular exponentiation by a machine-integer exponent.
///
/// Relies on `bls12_381::Scalar::pow_vartime` (square-and-multiply over a
/// little-endian limb exponent) and the canonical `to_bytes` encoding.
#[verifier::external_body]
pub(crate) fn fp_pow(a: &Fp, e: u64) -> (r: Fp)
    ensures
        r@ == pow_mod(a@, e as nat),
        r@ < p(),
{
    let x = Scalar::from_raw([a.l0, a.l1, a.l2, a.l3]);
    let s = x.pow_vartime(&[e, 0, 0, 0]).to_bytes();
    Fp {
        l0: u64::from_le_bytes(s[0..8].try_into().unwrap()),
        l1: u64::from_le_bytes(s[8..16].try_into().unwrap()),
        l2: u64::from_le_bytes(s[16..24].try_into().unwrap()),
        l3: u64::from_le_bytes(s[24..32].try_into().unwrap()),
    }
}

/// Draws a machine integer uniformly from `0..=max`.
///
/// Relies on `rand::Rng::gen_range` over an inclusive range, which never
/// returns a value outside it. Nothing more is claimed of the draw.
#[verifier::external_body]
pub(crate) fn draw_range(max: u64) -> (r: u64)
    ensures
        r <= max,
{
    rand::thread_rng().gen_range(0..=max)
}

} // verus!
