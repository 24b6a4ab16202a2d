//! Numbers as the store keeps them, and the arithmetic that is due on them.
//!
//! A [`Number`] is a double-precision number held by its bits. Comparing two of
//! them, telling a usable figure from an unusable one and picking the larger
//! are integer operations on those bits. A [`Formula`] is arithmetic written
//! down: which numbers are combined by which operation, in which order. Whoever
//! holds a floating-point unit evaluates it.
use vstd::prelude::*;

verus! {

/// The weight of the sign bit.
pub const SIGN_BIT: u64 = 0x8000_0000_0000_0000;

/// The bits of positive infinity: every larger magnitude is not a number.
pub const INFINITY_BITS: u64 = 0x7FF0_0000_0000_0000;

/// A double-precision number by its IEEE 754 bits.
#[derive(Clone, Copy, PartialEq, Eq, Structural, Debug)]
pub struct Number {
    pub bits: u64,
}

/// The bits of positive zero.
pub const ZERO_BITS: u64 = 0;

/// The bits of one.
pub const ONE_BITS: u64 = 0x3FF0_0000_0000_0000;

/// The bits of two.
pub const TWO_BITS: u64 = 0x4000_0000_0000_0000;

/// The bits of one hundred.
pub const HUNDRED_BITS: u64 = 0x4059_0000_0000_0000;

/// The number with the given bits.
pub open spec fn number(bits: u64) -> Number {
    Number { bits }
}

impl Number {
    /// The bits without the sign.
    pub open spec fn magnitude(self) -> int {
        if self.bits >= SIGN_BIT {
            self.bits - SIGN_BIT
        } else {
            self.bits as int
        }
    }

    /// Whether the bits are those of no number.
    pub open spec fn is_nan(self) -> bool {
        self.magnitude() > INFINITY_BITS
    }

    /// Whether the number is neither infinite nor undefined.
    pub open spec fn is_finite(self) -> bool {
        self.magnitude() < INFINITY_BITS
    }

    /// An integer that orders the numbers as their values do: the two zeros
    /// share one.
    pub open spec fn key(self) -> int {
        if self.bits >= SIGN_BIT {
            -self.magnitude()
        } else {
            self.magnitude()
        }
    }

    /// `self < other`, which never holds of what is not a number.
    pub open spec fn below(self, other: Number) -> bool {
        !self.is_nan() && !other.is_nan() && self.key() < other.key()
    }

    /// `self <= other`, likewise.
    pub open spec fn at_most(self, other: Number) -> bool {
        !self.is_nan() && !other.is_nan() && self.key() <= other.key()
    }

    /// `self == other` by value, likewise.
    pub open spec fn equals(self, other: Number) -> bool {
        !self.is_nan() && !other.is_nan() && self.key() == other.key()
    }

    /// `self > 0`.
    pub open spec fn positive(self) -> bool {
        !self.is_nan() && self.key() > 0
    }

    /// Not `self <= 0`: what is not a number is not taken for nothing.
    pub open spec fn remains(self) -> bool {
        self.is_nan() || self.key() > 0
    }

    /// `self < 0`.
    pub open spec fn negative(self) -> bool {
        !self.is_nan() && self.key() < 0
    }

    /// A price something can have traded at: positive and finite.
    pub open spec fn usable(self) -> bool {
        self.is_finite() && self.key() > 0
    }

    /// `self` without its sign.
    pub open spec fn absolute(self) -> Number {
        Number { bits: self.magnitude() as u64 }
    }

    /// Whether the bits are those of no number.
    pub fn not_a_number(self) -> (r: bool)
        ensures
            r == self.is_nan(),
    {
        self.abs().bits > INFINITY_BITS
    }

    /// Whether the number is neither infinite nor undefined.
    pub fn finite(self) -> (r: bool)
        ensures
            r == self.is_finite(),
    {
        self.abs().bits < INFINITY_BITS
    }

    /// `self` without its sign.
    pub fn abs(self) -> (r: Number)
        ensures
            r == self.absolute(),
    {
        if self.bits >= SIGN_BIT {
            Number { bits: self.bits - SIGN_BIT }
        } else {
            self
        }
    }

    /// `self < other`.
    pub fn less_than(self, other: Number) -> (r: bool)
        ensures
            r == self.below(other),
    {
        if self.not_a_number() || other.not_a_number() {
            return false;
        }
        let a: u64 = self.abs().bits;
        let b: u64 = other.abs().bits;
        let self_negative: bool = self.bits >= SIGN_BIT;
        let other_negative: bool = other.bits >= SIGN_BIT;
        if self_negative {
            if other_negative {
                b < a
            } else {
                a > 0 || b > 0
            }
        } else if other_negative {
            false
        } else {
            a < b
        }
    }

    /// `self <= other`.
    pub fn no_more_than(self, other: Number) -> (r: bool)
        ensures
            r == self.at_most(other),
    {
        !self.not_a_number() && !other.not_a_number() && !other.less_than(self)
    }

    /// `self == other` by value.
    pub fn same_value(self, other: Number) -> (r: bool)
        ensures
            r == self.equals(other),
    {
        self.no_more_than(other) && other.no_more_than(self)
    }

    /// `self > 0`.
    pub fn is_positive(self) -> (r: bool)
        ensures
            r == self.positive(),
    {
        Number { bits: ZERO_BITS }.less_than(self)
    }

    /// Not `self <= 0`.
    pub fn is_remaining(self) -> (r: bool)
        ensures
            r == self.remains(),
    {
        !self.no_more_than(Number { bits: ZERO_BITS })
    }

    /// `self < 0`.
    pub fn is_negative(self) -> (r: bool)
        ensures
            r == self.negative(),
    {
        self.less_than(Number { bits: ZERO_BITS })
    }

    /// A price something can have traded at: positive and finite.
    pub fn is_usable(self) -> (r: bool)
        ensures
            r == self.usable(),
    {
        self.finite() && self.is_positive()
    }

    /// Where the number stands in the order of values; nothing where it is none.
    pub open spec fn place(self) -> Option<int> {
        if self.is_nan() {
            None
        } else {
            Some(self.key())
        }
    }

    /// Where the number stands in the order of values; nothing where it is none.
    pub fn rank(self) -> (r: Option<i64>)
        ensures
            match r {
                Some(k) => self.place() == Some(k as int),
                None => self.place() is None,
            },
    {
        if self.not_a_number() {
            None
        } else if self.bits >= SIGN_BIT {
            Some(-(self.abs().bits as i64))
        } else {
            Some(self.bits as i64)
        }
    }
}

/// The larger of two numbers; where one of them is none, the other.
pub open spec fn larger_of(a: Number, b: Number) -> Number {
    if a.is_nan() || a.below(b) {
        b
    } else {
        a
    }
}

/// The smaller of two numbers; where one of them is none, the other.
pub open spec fn smaller_of(a: Number, b: Number) -> Number {
    if a.is_nan() || b.below(a) {
        b
    } else {
        a
    }
}

/// The larger of two numbers; where one of them is none, the other.
pub fn larger(a: Number, b: Number) -> (r: Number)
    ensures
        r == larger_of(a, b),
{
    if a.not_a_number() || a.less_than(b) {
        b
    } else {
        a
    }
}

/// The smaller of two numbers; where one of them is none, the other.
pub fn smaller(a: Number, b: Number) -> (r: Number)
    ensures
        r == smaller_of(a, b),
{
    if a.not_a_number() || b.less_than(a) {
        b
    } else {
        a
    }
}

/// Only a positive, finite number is a price. A symbol that no longer trades
/// is quoted at zero, which is an answer but not a price.
pub fn is_usable_quote(price: Option<Number>) -> (r: bool)
    ensures
        r == (price is Some && price->0.usable()),
{
    match price {
        Some(p) => p.is_usable(),
        None => false,
    }
}

/// The order of values is a strict order: nothing is below itself.
pub proof fn below_is_irreflexive(a: Number)
    ensures
        !a.below(a),
{
}

/// The order of values is transitive.
pub proof fn below_is_transitive(a: Number, b: Number, c: Number)
    requires
        a.below(b),
        b.below(c),
    ensures
        a.below(c),
{
}

/// Of two numbers one is below the other or they have one value.
pub proof fn values_are_comparable(a: Number, b: Number)
    requires
        !a.is_nan(),
        !b.is_nan(),
    ensures
        a.below(b) || b.below(a) || a.equals(b),
{
}

// ---------------------------------------------------------------------------
// Arithmetic written down
// ---------------------------------------------------------------------------

/// Arithmetic on numbers: each node is one double-precision operation.
#[derive(PartialEq, Eq, Debug)]
pub enum Formula {
    Value(Number),
    Whole(i64),
    Sum(Box<Formula>, Box<Formula>),
    Difference(Box<Formula>, Box<Formula>),
    Product(Box<Formula>, Box<Formula>),
    Quotient(Box<Formula>, Box<Formula>),
    Opposite(Box<Formula>),
    Rounded(Box<Formula>),
}

/// The number itself.
pub open spec fn num(n: Number) -> Formula {
    Formula::Value(n)
}

/// The whole number as the nearest double-precision number.
pub open spec fn whole(n: int) -> Formula {
    Formula::Whole(n as i64)
}

/// `a + b`.
pub open spec fn sum(a: Formula, b: Formula) -> Formula {
    Formula::Sum(Box::new(a), Box::new(b))
}

/// `a - b`.
pub open spec fn difference(a: Formula, b: Formula) -> Formula {
    Formula::Difference(Box::new(a), Box::new(b))
}

/// `a * b`.
pub open spec fn product(a: Formula, b: Formula) -> Formula {
    Formula::Product(Box::new(a), Box::new(b))
}

/// `a / b`.
pub open spec fn quotient(a: Formula, b: Formula) -> Formula {
    Formula::Quotient(Box::new(a), Box::new(b))
}

/// `-a`.
pub open spec fn opposite(a: Formula) -> Formula {
    Formula::Opposite(Box::new(a))
}

/// `a` to the nearest whole number, halves away from zero.
pub open spec fn rounded(a: Formula) -> Formula {
    Formula::Rounded(Box::new(a))
}

/// `a` to the nearest hundredth.
pub open spec fn to_cents(a: Formula) -> Formula {
    quotient(
        rounded(product(a, num(number(HUNDRED_BITS)))),
        num(number(HUNDRED_BITS)),
    )
}

/// `part` over `whole`, in per cent.
pub open spec fn percentage(part: Formula, whole: Formula) -> Formula {
    product(quotient(part, whole), num(number(HUNDRED_BITS)))
}

impl Formula {
    /// The number itself.
    pub fn of(n: Number) -> (r: Formula)
        ensures
            r == num(n),
    {
        Formula::Value(n)
    }

    /// A number by its bits.
    pub fn of_bits(bits: u64) -> (r: Formula)
        ensures
            r == num(number(bits)),
    {
        Formula::Value(Number { bits })
    }

    /// The whole number as the nearest double-precision number.
    pub fn of_whole(n: i64) -> (r: Formula)
        ensures
            r == whole(n as int),
    {
        Formula::Whole(n)
    }

    /// `self + other`.
    pub fn plus(self, other: Formula) -> (r: Formula)
        ensures
            r == sum(self, other),
    {
        Formula::Sum(Box::new(self), Box::new(other))
    }

    /// `self - other`.
    pub fn minus(self, other: Formula) -> (r: Formula)
        ensures
            r == difference(self, other),
    {
        Formula::Difference(Box::new(self), Box::new(other))
    }

    /// `self * other`.
    pub fn times(self, other: Formula) -> (r: Formula)
        ensures
            r == product(self, other),
    {
        Formula::Product(Box::new(self), Box::new(other))
    }

    /// `self / other`.
    pub fn over(self, other: Formula) -> (r: Formula)
        ensures
            r == quotient(self, other),
    {
        Formula::Quotient(Box::new(self), Box::new(other))
    }

    /// `-self`.
    pub fn negated(self) -> (r: Formula)
        ensures
            r == opposite(self),
    {
        Formula::Opposite(Box::new(self))
    }

    /// `self` to the nearest hundredth.
    pub fn in_cents(self) -> (r: Formula)
        ensures
            r == to_cents(self),
    {
        Formula::Rounded(Box::new(self.times(Formula::of_bits(HUNDRED_BITS)))).over(
            Formula::of_bits(HUNDRED_BITS),
        )
    }

    /// `self / whole * 100`.
    pub fn percent_of(self, whole: Formula) -> (r: Formula)
        ensures
            r == percentage(self, whole),
    {
        self.over(whole).times(Formula::of(Number { bits: HUNDRED_BITS }))
    }

    /// A copy.
    pub fn copy(&self) -> (r: Formula)
        ensures
            r == *self,
        decreases self,
    {
        match self {
            Formula::Value(n) => Formula::Value(*n),
            Formula::Whole(n) => Formula::Whole(*n),
            Formula::Sum(a, b) => Formula::Sum(Box::new(a.copy()), Box::new(b.copy())),
            Formula::Difference(a, b) => Formula::Difference(
                Box::new(a.copy()),
                Box::new(b.copy()),
            ),
            Formula::Product(a, b) => Formula::Product(Box::new(a.copy()), Box::new(b.copy())),
            Formula::Quotient(a, b) => Formula::Quotient(Box::new(a.copy()), Box::new(b.copy())),
            Formula::Opposite(a) => Formula::Opposite(Box::new(a.copy())),
            Formula::Rounded(a) => Formula::Rounded(Box::new(a.copy())),
        }
    }
}


// ---------------------------------------------------------------------------
// Arithmetic carried out
// ---------------------------------------------------------------------------

/// Whether `calc` evaluates every formula, to one number each.
pub open spec fn is_calculator<F: Fn(Formula) -> Number>(calc: F) -> bool {
    &&& forall|f: Formula| #[trigger] calc.requires((f,))
    &&& forall|f: Formula, a: Number, b: Number| #[trigger]
        calc.ensures((f,), a) && #[trigger] calc.ensures((f,), b) ==> a == b
}

/// What `calc` evaluates a formula to.
pub open spec fn worth<F: Fn(Formula) -> Number>(calc: F, f: Formula) -> Number {
    choose|n: Number| calc.ensures((f,), n)
}

/// Evaluates a formula.
pub fn evaluate<F: Fn(Formula) -> Number>(calc: &F, f: Formula) -> (r: Number)
    requires
        is_calculator(*calc),
    ensures
        r == worth(*calc, f),
{
    let r = calc(f);
    assert(calc.ensures((f,), r));
    r
}


// ---------------------------------------------------------------------------
// Numbers written out
// ---------------------------------------------------------------------------

/// How a number is written: with so many decimals, or with as many as it takes.
#[derive(Clone, Copy, PartialEq, Eq, Structural, Debug)]
pub enum Decimals {
    Fixed(u8),
    Shortest,
}

/// Whether `render` writes out every number, in one way each.
pub open spec fn is_renderer<R: Fn(Number, Decimals) -> String>(render: R) -> bool {
    &&& forall|n: Number, d: Decimals| #[trigger] render.requires((n, d))
    &&& forall|n: Number, d: Decimals, a: String, b: String| #[trigger]
        render.ensures((n, d), a) && #[trigger] render.ensures((n, d), b) ==> a@ == b@
}

/// How `render` writes a number.
pub open spec fn written<R: Fn(Number, Decimals) -> String>(
    render: R,
    n: Number,
    d: Decimals,
) -> Seq<char> {
    (choose|s: String| render.ensures((n, d), s))@
}

/// Writes a number out.
pub fn write_number<R: Fn(Number, Decimals) -> String>(render: &R, n: Number, d: Decimals) -> (r:
    String)
    requires
        is_renderer(*render),
    ensures
        r@ == written(*render, n, d),
{
    let r = render(n, d);
    assert(render.ensures((n, d), r));
    r
}

// ---------------------------------------------------------------------------
// The order of numbers
// ---------------------------------------------------------------------------

/// The order of numbers by their bits: positive ones, whose bits are at most
/// those of infinity, in the order of their bits; negative ones, which have the
/// sign bit too, in the other order and under all positive ones; the two zeros
/// are one value; what is not a number is in no order.
pub proof fn numbers_are_ordered_by_their_bits(a: u64, b: u64)
    requires
        a <= 0x7FF0_0000_0000_0000,
        b <= 0x7FF0_0000_0000_0000,
    ensures
        ({
            let minus_a = Number { bits: (a + 0x8000_0000_0000_0000) as u64 };
            let minus_b = Number { bits: (b + 0x8000_0000_0000_0000) as u64 };
            let x = Number { bits: a };
            let y = Number { bits: b };
            &&& x.below(y) <==> a < b
            &&& minus_a.below(minus_b) <==> b < a
            &&& minus_a.below(y) <==> a > 0 || b > 0
            &&& !x.below(minus_b)
            &&& x.equals(y) <==> a == b
            &&& x.equals(minus_b) <==> a == 0 && b == 0
            &&& x.positive() <==> a > 0
            &&& minus_a.negative() <==> a > 0
            &&& !x.negative() && !minus_a.positive()
            &&& x.at_most(y) <==> a <= b
            &&& x.usable() <==> 0 < a < 0x7FF0_0000_0000_0000
            &&& !minus_a.usable()
            &&& minus_a.absolute() == x && x.absolute() == x
        }),
{
}

/// What is not a number is neither under, nor over, nor equal to anything, and is
/// no price.
pub proof fn what_is_no_number_is_in_no_order(a: Number, b: Number)
    requires
        0x7FF0_0000_0000_0000 < a.bits < 0x8000_0000_0000_0000 || 0xFFF0_0000_0000_0000 < a.bits,
    ensures
        a.is_nan(),
        !a.below(b) && !b.below(a) && !a.at_most(b) && !b.at_most(a) && !a.equals(b),
        !a.positive() && !a.negative() && !a.usable() && !a.is_finite(),
        a.remains(),
{
}

/// The larger of two numbers is one of them and under neither; the smaller is one
/// of them and over neither. Where one of them is no number, it is the other.
pub proof fn the_larger_and_the_smaller_of_two(a: Number, b: Number)
    ensures
        larger_of(a, b) == a || larger_of(a, b) == b,
        smaller_of(a, b) == a || smaller_of(a, b) == b,
        !larger_of(a, b).below(a) && !larger_of(a, b).below(b),
        !a.below(smaller_of(a, b)) && !b.below(smaller_of(a, b)),
        a.is_nan() ==> larger_of(a, b) == b && smaller_of(a, b) == b,
        b.is_nan() && !a.is_nan() ==> larger_of(a, b) == a && smaller_of(a, b) == a,
{
}

/// What remains is what is not known to be zero or less.
pub proof fn what_remains_is_not_zero_or_less(a: Number)
    ensures
        a.remains() <==> !a.at_most(number(0)),
        a.positive() <==> number(0).below(a),
        a.negative() <==> a.below(number(0)),
{
}

} // verus!
