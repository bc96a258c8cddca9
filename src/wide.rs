//! 256-bit unsigned integers for intermediate products of two balances.
//!
//! A `Wide` keeps the four little-endian 64-bit words of an `sp_core::U256`;
//! every operation on it is carried out by `U256` itself.
use sp_core::U256;
use vstd::prelude::*;

verus! {

/// 2^64, the weight of one word.
pub open spec fn word() -> int {
    0x1_0000_0000_0000_0000int
}

/// 2^256, one more than the largest value of a `Wide`.
pub open spec fn wide_modulus() -> int {
    word() * word() * word() * word()
}

/// 2^128, one more than the largest `u128`.
pub open spec fn narrow_modulus() -> int {
    word() * word()
}

/// A 256-bit unsigned integer as four 64-bit words, least significant first.
#[derive(Clone, Copy, Debug, PartialEq, Eq, Structural)]
pub struct Wide {
    pub w0: u64,
    pub w1: u64,
    pub w2: u64,
    pub w3: u64,
}

impl Wide {
    /// The number that the words stand for.
    pub open spec fn value(self) -> nat {
        (self.w0 as int + word() * (self.w1 as int + word() * (self.w2 as int + word()
            * self.w3 as int))) as nat
    }

    /// Whether the number fits in 128 bits: its two high words are zero.
    pub fn fits_u128(&self) -> (r: bool)
        ensures
            r == (self.w2 == 0 && self.w3 == 0),
            r ==> self.value() < narrow_modulus(),
            !r ==> self.value() >= narrow_modulus(),
    {
        proof {
            self.lemma_value_bounds();
        }
        self.w2 == 0 && self.w3 == 0
    }

    /// Every `Wide` is below 2^256, and it is below 2^128 exactly when its two high words are zero.
    pub proof fn lemma_value_bounds(self)
        ensures
            self.value() < wide_modulus(),
            (self.w2 == 0 && self.w3 == 0) <==> self.value() < narrow_modulus(),
    {
        let a = self.w0 as int;
        let b = self.w1 as int;
        let c = self.w2 as int;
        let d = self.w3 as int;
        let w = word();
        assert(a + w * (b + w * (c + w * d)) < w * w * w * w) by (nonlinear_arith)
            requires
                0 <= a < w,
                0 <= b < w,
                0 <= c < w,
                0 <= d < w,
        ;
        assert(a + w * b < w * w) by (nonlinear_arith)
            requires
                0 <= a < w,
                0 <= b < w,
        ;
        assert((c == 0 && d == 0) ==> a + w * (b + w * (c + w * d)) == a + w * b);
        assert(!(c == 0 && d == 0) ==> a + w * (b + w * (c + w * d)) >= w * w) by (nonlinear_arith)
            requires
                0 <= a,
                0 <= b,
                0 <= c,
                0 <= d,
                w > 0,
        ;
    }
}

/// Relies on `impl From<u128> for U256`: the low two words take the value, the high two are zero.
#[verifier::external_body]
pub(crate) fn wide_from_u128(v: u128) -> (r: Wide)
    ensures
        r.value() == v,
{
    let r = U256::from(v);
    Wide { w0: r.0[0], w1: r.0[1], w2: r.0[2], w3: r.0[3] }
}

/// Relies on `U256::checked_mul`: the exact product, or `None` when it does not fit in 256 bits.
#[verifier::external_body]
pub(crate) fn wide_checked_mul(a: Wide, b: Wide) -> (r: Option<Wide>)
    ensures
        match r {
            Some(p) => p.value() == a.value() * b.value(),
            None => a.value() * b.value() >= wide_modulus(),
        },
{
    let x = U256([a.w0, a.w1, a.w2, a.w3]);
    let y = U256([b.w0, b.w1, b.w2, b.w3]);
    x.checked_mul(y).map(|r| Wide { w0: r.0[0], w1: r.0[1], w2: r.0[2], w3: r.0[3] })
}

/// Relies on `U256::checked_add`: the exact sum, or `None` when it does not fit in 256 bits.
#[verifier::external_body]
pub(crate) fn wide_checked_add(a: Wide, b: Wide) -> (r: Option<Wide>)
    ensures
        match r {
            Some(s) => s.value() == a.value() + b.value(),
            None => a.value() + b.value() >= wide_modulus(),
        },
{
    let x = U256([a.w0, a.w1, a.w2, a.w3]);
    let y = U256([b.w0, b.w1, b.w2, b.w3]);
    x.checked_add(y).map(|r| Wide { w0: r.0[0], w1: r.0[1], w2: r.0[2], w3: r.0[3] })
}

/// Relies on `U256::checked_sub`: the exact difference, or `None` when `b` exceeds `a`.
#[verifier::external_body]
pub(crate) fn wide_checked_sub(a: Wide, b: Wide) -> (r: Option<Wide>)
    ensures
        match r {
            Some(d) => d.value() == a.value() - b.value(),
            None => a.value() < b.value(),
        },
{
    let x = U256([a.w0, a.w1, a.w2, a.w3]);
    let y = U256([b.w0, b.w1, b.w2, b.w3]);
    x.checked_sub(y).map(|r| Wide { w0: r.0[0], w1: r.0[1], w2: r.0[2], w3: r.0[3] })
}

/// Relies on `impl Ord for U256`, which compares the words from the most significant down:
/// the order of the numbers.
#[verifier::external_body]
pub(crate) fn wide_lt(a: Wide, b: Wide) -> (r: bool)
    ensures
        r == (a.value() < b.value()),
{
    U256([a.w0, a.w1, a.w2, a.w3]) < U256([b.w0, b.w1, b.w2, b.w3])
}

/// Relies on `U256::checked_div`: the floor of the quotient, or `None` for a zero divisor.
#[verifier::external_body]
pub(crate) fn wide_checked_div(a: Wide, b: Wide) -> (r: Option<Wide>)
    ensures
        match r {
            Some(q) => b.value() != 0 && q.value() == a.value() / b.value(),
            None => b.value() == 0,
        },
{
    let x = U256([a.w0, a.w1, a.w2, a.w3]);
    let y = U256([b.w0, b.w1, b.w2, b.w3]);
    x.checked_div(y).map(|r| Wide { w0: r.0[0], w1: r.0[1], w2: r.0[2], w3: r.0[3] })
}

/// Relies on `U256::as_u128`, which panics unless the two high words are zero.
#[verifier::external_body]
pub(crate) fn wide_as_u128(a: Wide) -> (r: u128)
    requires
        a.w2 == 0,
        a.w3 == 0,
    ensures
        r == a.value(),
{
    U256([a.w0, a.w1, a.w2, a.w3]).as_u128()
}

} // verus!
