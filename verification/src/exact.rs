//! What formulas come to in exact arithmetic, and calculators that round only
//! what has to be rounded.
use vstd::prelude::*;
use crate::number::{worth, Formula, Number};

verus! {

/// How numbers are read: the value of each, and which values a number can hold
/// without rounding. What is not a number, or is infinite, reads as a value that
/// none can hold.
pub struct Reading {
    pub value: spec_fn(Number) -> real,
    pub holds: spec_fn(real) -> bool,
    /// The whole number nearest to a value.
    pub nearest: spec_fn(real) -> int,
}

impl Reading {
    /// The value of a number.
    pub open spec fn of(self, n: Number) -> real {
        (self.value)(n)
    }

    /// Whether a number can hold that value.
    pub open spec fn can(self, v: real) -> bool {
        (self.holds)(v)
    }

    /// A value to the nearest whole number.
    pub open spec fn round(self, v: real) -> real {
        (self.nearest)(v) as real
    }

    /// Whether a number has a value.
    pub open spec fn is_plain(self, n: Number) -> bool {
        self.can(self.of(n))
    }
}

/// What a formula comes to without rounding.
pub open spec fn exact(r: Reading, f: Formula) -> real
    decreases f,
{
    match f {
        Formula::Value(n) => r.of(n),
        Formula::Whole(n) => n as int as real,
        Formula::Sum(a, b) => exact(r, *a) + exact(r, *b),
        Formula::Difference(a, b) => exact(r, *a) - exact(r, *b),
        Formula::Product(a, b) => exact(r, *a) * exact(r, *b),
        Formula::Quotient(a, b) => exact(r, *a) / exact(r, *b),
        Formula::Opposite(a) => 0 as real - exact(r, *a),
        Formula::Rounded(a) => r.round(exact(r, *a)),
    }
}

/// Whether every step of a formula comes to a value that a number can hold.
pub open spec fn unrounded(r: Reading, f: Formula) -> bool
    decreases f,
{
    &&& r.can(exact(r, f))
    &&& match f {
        Formula::Value(_) => true,
        Formula::Whole(_) => true,
        Formula::Sum(a, b) => unrounded(r, *a) && unrounded(r, *b),
        Formula::Difference(a, b) => unrounded(r, *a) && unrounded(r, *b),
        Formula::Product(a, b) => unrounded(r, *a) && unrounded(r, *b),
        Formula::Quotient(a, b) => unrounded(r, *a) && unrounded(r, *b) && exact(r, *b)
            != 0 as real,
        Formula::Opposite(a) => unrounded(r, *a),
        Formula::Rounded(a) => unrounded(r, *a),
    }
}

/// Whether a calculator, its numbers read in that way, rounds only what has to be
/// rounded: a formula every step of which can be held comes to its exact value.
/// Double-precision arithmetic is such a calculator. The bits of a few numbers
/// read as what they are, and the order of numbers is that of their values.
pub open spec fn is_exact<F: Fn(Formula) -> Number>(calc: F, r: Reading) -> bool {
    &&& forall|f: Formula| #[trigger]
        unrounded(r, f) ==> r.of(worth(calc, f)) == exact(r, f)
    &&& forall|a: Number, b: Number|
        r.is_plain(a) && r.is_plain(b) ==> (#[trigger] a.below(b) <==> r.of(a) < r.of(b))
    &&& forall|n: Number| #[trigger] r.is_plain(n) ==> n.is_finite()
    &&& forall|n: Number|
        r.is_plain(n) ==> r.is_plain(#[trigger] n.absolute()) && r.of(n.absolute()) == (if r.of(n)
            < 0 as real {
            0 as real - r.of(n)
        } else {
            r.of(n)
        })
    &&& forall|v: real|
        #![trigger r.round(v)]
        r.round(v) - v <= 1 as real / 2 as real && v - r.round(v) <= 1 as real / 2 as real
    &&& reads_plainly(r)
}

/// Whether the bits of zero, one, two and a hundred are read as these.
pub open spec fn reads_plainly(r: Reading) -> bool {
    &&& r.of(Number { bits: 0 }) == 0 as real
    &&& r.of(Number { bits: 0x3FF0_0000_0000_0000 }) == 1 as real
    &&& r.of(Number { bits: 0x4000_0000_0000_0000 }) == 2 as real
    &&& r.of(Number { bits: 0x4059_0000_0000_0000 }) == 100 as real
    &&& r.can(0 as real)
    &&& r.can(1 as real)
    &&& r.can(2 as real)
    &&& r.can(100 as real)
}

/// The value of what a formula comes to, where every step of it can be held.
pub proof fn lemma_exact<F: Fn(Formula) -> Number>(calc: F, r: Reading, f: Formula)
    requires
        is_exact(calc, r),
        unrounded(r, f),
    ensures
        r.of(worth(calc, f)) == exact(r, f),
        r.is_plain(worth(calc, f)),
{
}

/// The sign of a number is that of its value.
pub proof fn lemma_sign<F: Fn(Formula) -> Number>(calc: F, r: Reading, n: Number)
    requires
        is_exact(calc, r),
        r.is_plain(n),
    ensures
        n.positive() <==> r.of(n) > 0 as real,
        n.negative() <==> r.of(n) < 0 as real,
        n.remains() <==> r.of(n) > 0 as real,
        n.at_most(Number { bits: 0 }) <==> r.of(n) <= 0 as real,
        n.equals(Number { bits: 0 }) <==> r.of(n) == 0 as real,
{
    let zero = Number { bits: 0 };
    assert(r.is_plain(zero));
    assert(n.is_finite());
    assert(zero.below(n) <==> r.of(zero) < r.of(n));
    assert(n.below(zero) <==> r.of(n) < r.of(zero));
}

} // verus!
