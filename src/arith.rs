//! Integer element kinds as value ranges, and two's-complement wrapping into
//! a kind's range.

use vstd::prelude::*;
use vstd::arithmetic::div_mod::{lemma_add_mod_noop_right, lemma_fundamental_div_mod_converse_mod};
use crate::types::IntKind;

verus! {

impl IntKind {
    /// The smallest value of the kind.
    pub open spec fn lowest(self) -> int {
        match self {
            IntKind::Int8 => -0x80,
            IntKind::Int16 => -0x8000,
            IntKind::Int32 => -0x8000_0000,
            IntKind::Int64 => -0x8000_0000_0000_0000,
            _ => 0,
        }
    }

    /// The number of distinct values of the kind: two to the power of its width.
    pub open spec fn modulus(self) -> int {
        match self {
            IntKind::Int8 | IntKind::UInt8 => 0x100,
            IntKind::Int16 | IntKind::UInt16 => 0x1_0000,
            IntKind::Int32 | IntKind::UInt32 => 0x1_0000_0000,
            IntKind::Int64 | IntKind::UInt64 => 0x1_0000_0000_0000_0000,
        }
    }

    /// `v` is a value of the kind.
    pub open spec fn fits(self, v: int) -> bool {
        self.lowest() <= v < self.lowest() + self.modulus()
    }

    /// The value of the kind congruent to `x` modulo its modulus: what a
    /// fixed-width integer holds after an operation that wraps on overflow.
    pub open spec fn wrap(self, x: int) -> int {
        (x - self.lowest()) % self.modulus() + self.lowest()
    }
}

pub proof fn lemma_wrap_id(k: IntKind, x: int)
    requires
        k.fits(x),
    ensures
        k.wrap(x) == x,
{
    lemma_fundamental_div_mod_converse_mod(x - k.lowest(), k.modulus(), 0, x - k.lowest());
}

/// Wrapping an intermediate result does not change the wrapped total.
pub proof fn lemma_wrap_add(k: IntKind, x: int, v: int)
    ensures
        k.wrap(k.wrap(x) + v) == k.wrap(x + v),
{
    lemma_add_mod_noop_right(v, x - k.lowest(), k.modulus());
    assert(k.wrap(x) + v - k.lowest() == v + (x - k.lowest()) % k.modulus());
    assert(x + v - k.lowest() == v + (x - k.lowest()));
}

/// The smallest value of `k`.
pub fn lowest_of(k: IntKind) -> (r: i128)
    ensures
        r == k.lowest(),
{
    match k {
        IntKind::Int8 => -0x80,
        IntKind::Int16 => -0x8000,
        IntKind::Int32 => -0x8000_0000,
        IntKind::Int64 => -0x8000_0000_0000_0000,
        _ => 0,
    }
}

/// The modulus of `k`.
pub fn modulus_of(k: IntKind) -> (r: i128)
    ensures
        r == k.modulus(),
{
    match k {
        IntKind::Int8 | IntKind::UInt8 => 0x100,
        IntKind::Int16 | IntKind::UInt16 => 0x1_0000,
        IntKind::Int32 | IntKind::UInt32 => 0x1_0000_0000,
        IntKind::Int64 | IntKind::UInt64 => 0x1_0000_0000_0000_0000,
    }
}

/// Wraps a value that lies within one modulus of the kind's range.
fn wrap_near(k: IntKind, s: i128) -> (r: i128)
    requires
        k.lowest() - k.modulus() <= s < k.lowest() + 2 * k.modulus(),
    ensures
        r == k.wrap(s as int),
        k.fits(r as int),
{
    let lo = lowest_of(k);
    let m = modulus_of(k);
    if s >= lo + m {
        proof {
            lemma_fundamental_div_mod_converse_mod(s - lo, m as int, 1, s - m - lo);
        }
        s - m
    } else if s < lo {
        proof {
            lemma_fundamental_div_mod_converse_mod(s - lo, m as int, -1, s + m - lo);
        }
        s + m
    } else {
        proof {
            lemma_wrap_id(k, s as int);
        }
        s
    }
}

/// `a + b`, wrapping in the kind's range.
pub fn wrapping_add(k: IntKind, a: i128, b: i128) -> (r: i128)
    requires
        k.fits(a as int),
        k.fits(b as int),
    ensures
        r == k.wrap(a + b),
{
    wrap_near(k, a + b)
}

/// `a - b`, wrapping in the kind's range.
pub fn wrapping_sub(k: IntKind, a: i128, b: i128) -> (r: i128)
    requires
        k.fits(a as int),
        k.fits(b as int),
    ensures
        r == k.wrap(a - b),
{
    wrap_near(k, a - b)
}

} // verus!
