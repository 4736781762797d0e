//! Fixed-point quantities with a phantom unit tag.
//!
//! A quantity is a non-negative number of `micro`-units: one whole unit is
//! `SCALE` micro-units, so six decimal digits are carried. All arithmetic is
//! saturating: a result too large for the representation becomes the largest
//! representable value, which plays the role of infinity. Arithmetic is only
//! offered between quantities of the same unit; `convert` changes the tag.

use core::marker::PhantomData;
use vstd::prelude::*;

verus! {

/// Micro-units per whole unit.
pub const SCALE: u64 = 1_000_000;

/// A unit tag: the suffix its quantities wear in text form.
pub trait NumberType {
    spec fn spec_suffix() -> Seq<char>;

    fn suffix() -> (r: &'static str)
        ensures
            r@ == Self::spec_suffix(),
    ;
}

/// Dimensionless quantities: counts of crafts, speeds, ratios.
#[derive(Clone, Copy, Debug)]
pub struct One;

/// Time, suffix `s`.
#[derive(Clone, Copy, Debug)]
pub struct Seconds;

/// Energy, suffix `J`.
#[derive(Clone, Copy, Debug)]
pub struct Joules;

/// Power, suffix `W`.
#[derive(Clone, Copy, Debug)]
pub struct Watts;

/// Temperature, suffix `°`.
#[derive(Clone, Copy, Debug)]
pub struct Celsius;

impl NumberType for One {
    open spec fn spec_suffix() -> Seq<char> {
        Seq::empty()
    }

    fn suffix() -> (r: &'static str) {
        proof {
            reveal_strlit("");
            assert(""@ =~= Seq::<char>::empty());
        }
        ""
    }
}

impl NumberType for Seconds {
    open spec fn spec_suffix() -> Seq<char> {
        "s"@
    }

    fn suffix() -> (r: &'static str) {
        "s"
    }
}

impl NumberType for Joules {
    open spec fn spec_suffix() -> Seq<char> {
        "J"@
    }

    fn suffix() -> (r: &'static str) {
        "J"
    }
}

impl NumberType for Watts {
    open spec fn spec_suffix() -> Seq<char> {
        "W"@
    }

    fn suffix() -> (r: &'static str) {
        "W"
    }
}

impl NumberType for Celsius {
    open spec fn spec_suffix() -> Seq<char> {
        "°"@
    }

    fn suffix() -> (r: &'static str) {
        "°"
    }
}

/// A fixed-point quantity of unit `T`, stored as micro-units.
#[derive(Debug)]
pub struct Number<T: NumberType> {
    micro: u64,
    unit: PhantomData<T>,
}

impl<T: NumberType> Clone for Number<T> {
    fn clone(&self) -> (r: Self)
        ensures
            r == *self,
    {
        *self
    }
}

impl<T: NumberType> Copy for Number<T> {}

/// The largest representable amount of micro-units; stands in for infinity.
pub open spec fn qty_max() -> int {
    u64::MAX as int
}

/// Clamp an ideal (unbounded) result into the representable range.
pub open spec fn qty_sat(v: int) -> int {
    if v > qty_max() {
        qty_max()
    } else if v < 0 {
        0
    } else {
        v
    }
}

/// Saturating addition of micro-unit values.
pub open spec fn spec_add(a: int, b: int) -> int {
    qty_sat(a + b)
}

/// Saturating subtraction of micro-unit values (floors at zero).
pub open spec fn spec_sub(a: int, b: int) -> int {
    qty_sat(a - b)
}

/// Fixed-point product of micro-unit values, rounded down.
pub open spec fn spec_mul(a: int, b: int) -> int {
    qty_sat((a * b) / (SCALE as int))
}

/// Fixed-point quotient of micro-unit values, rounded down.
/// Dividing by zero saturates, mirroring division of a real by zero.
pub open spec fn spec_div(a: int, b: int) -> int {
    if b == 0 {
        qty_max()
    } else {
        qty_sat((a * (SCALE as int)) / b)
    }
}

/// Fixed-point quotient of micro-unit values, rounded up.
pub open spec fn spec_div_ceil(a: int, b: int) -> int {
    if b == 0 {
        qty_max()
    } else {
        qty_sat((a * (SCALE as int) + b - 1) / b)
    }
}

/// Round a micro-unit value up to a whole number of units.
pub open spec fn spec_ceil(a: int) -> int {
    qty_sat(((a + SCALE - 1) / (SCALE as int)) * (SCALE as int))
}

/// A whole number of units as a micro-unit value.
pub open spec fn spec_whole(n: int) -> int {
    qty_sat(n * (SCALE as int))
}

proof fn lemma_mul_fits_u128(a: int, b: int)
    requires
        0 <= a <= u64::MAX,
        0 <= b <= u64::MAX,
    ensures
        a * b + u64::MAX <= u128::MAX,
    decreases 0int,
{
    assert(a * b <= (u64::MAX as int) * (u64::MAX as int)) by (nonlinear_arith)
        requires
            0 <= a <= u64::MAX,
            0 <= b <= u64::MAX,
    ;
}

impl<T: NumberType> View for Number<T> {
    type V = int;

    closed spec fn view(&self) -> int {
        self.micro as int
    }
}

impl<T: NumberType> Number<T> {
    /// A quantity's value lies in the representable range.
    pub proof fn lemma_in_range(&self)
        ensures
            0 <= self@ <= u64::MAX,
    {
    }

    /// The zero quantity.
    pub fn zero() -> (r: Self)
        ensures
            r@ == 0,
    {
        Number { micro: 0, unit: PhantomData }
    }

    /// A quantity from a raw micro-unit count.
    pub fn from_micro(micro: u64) -> (r: Self)
        ensures
            r@ == micro,
    {
        Number { micro, unit: PhantomData }
    }

    /// A whole number of units.
    pub fn from_whole(n: u64) -> (r: Self)
        ensures
            r@ == spec_whole(n as int),
    {
        proof {
            lemma_mul_fits_u128(n as int, SCALE as int);
        }
        let wide: u128 = (n as u128) * (SCALE as u128);
        if wide > (u64::MAX as u128) {
            Number { micro: u64::MAX, unit: PhantomData }
        } else {
            Number { micro: wide as u64, unit: PhantomData }
        }
    }

    /// The raw micro-unit count.
    pub fn micro(&self) -> (r: u64)
        ensures
            r == self@,
    {
        self.micro
    }

    /// Reinterpret the amount under another unit tag.
    pub fn convert<U: NumberType>(self) -> (r: Number<U>)
        ensures
            r@ == self@,
    {
        Number { micro: self.micro, unit: PhantomData }
    }

    /// Saturating addition.
    pub fn add(self, rhs: Self) -> (r: Self)
        ensures
            r@ == spec_add(self@, rhs@),
    {
        if self.micro <= u64::MAX - rhs.micro {
            Number { micro: self.micro + rhs.micro, unit: PhantomData }
        } else {
            Number { micro: u64::MAX, unit: PhantomData }
        }
    }

    /// Saturating subtraction, floored at zero.
    pub fn sub(self, rhs: Self) -> (r: Self)
        ensures
            r@ == spec_sub(self@, rhs@),
    {
        if self.micro >= rhs.micro {
            Number { micro: self.micro - rhs.micro, unit: PhantomData }
        } else {
            Number { micro: 0, unit: PhantomData }
        }
    }

    /// Saturating fixed-point multiplication, rounded down.
    pub fn mul(self, rhs: Self) -> (r: Self)
        ensures
            r@ == spec_mul(self@, rhs@),
    {
        proof {
            lemma_mul_fits_u128(self.micro as int, rhs.micro as int);
        }
        let wide: u128 = (self.micro as u128) * (rhs.micro as u128);
        let scaled: u128 = wide / (SCALE as u128);
        if scaled > (u64::MAX as u128) {
            Number { micro: u64::MAX, unit: PhantomData }
        } else {
            Number { micro: scaled as u64, unit: PhantomData }
        }
    }

    /// Saturating fixed-point division, rounded down; by zero saturates.
    pub fn div(self, rhs: Self) -> (r: Self)
        ensures
            r@ == spec_div(self@, rhs@),
    {
        if rhs.micro == 0 {
            Number { micro: u64::MAX, unit: PhantomData }
        } else {
            proof {
                lemma_mul_fits_u128(self.micro as int, SCALE as int);
            }
            let wide: u128 = (self.micro as u128) * (SCALE as u128);
            let scaled: u128 = wide / (rhs.micro as u128);
            if scaled > (u64::MAX as u128) {
                Number { micro: u64::MAX, unit: PhantomData }
            } else {
                Number { micro: scaled as u64, unit: PhantomData }
            }
        }
    }

    /// Saturating fixed-point division, rounded up; by zero saturates.
    pub fn div_ceil(self, rhs: Self) -> (r: Self)
        ensures
            r@ == spec_div_ceil(self@, rhs@),
    {
        if rhs.micro == 0 {
            Number { micro: u64::MAX, unit: PhantomData }
        } else {
            proof {
                lemma_mul_fits_u128(self.micro as int, SCALE as int);
            }
            let wide: u128 = (self.micro as u128) * (SCALE as u128) + (rhs.micro as u128) - 1;
            let scaled: u128 = wide / (rhs.micro as u128);
            if scaled > (u64::MAX as u128) {
                Number { micro: u64::MAX, unit: PhantomData }
            } else {
                Number { micro: scaled as u64, unit: PhantomData }
            }
        }
    }

    /// Round up to a whole number of units.
    pub fn ceil(self) -> (r: Self)
        ensures
            r@ == spec_ceil(self@),
    {
        let whole: u128 = ((self.micro as u128) + (SCALE as u128) - 1) / (SCALE as u128);
        let wide: u128 = whole * (SCALE as u128);
        if wide > (u64::MAX as u128) {
            Number { micro: u64::MAX, unit: PhantomData }
        } else {
            Number { micro: wide as u64, unit: PhantomData }
        }
    }

    /// The larger of the two quantities.
    pub fn max(self, rhs: Self) -> (r: Self)
        ensures
            r@ == if self@ >= rhs@ { self@ } else { rhs@ },
    {
        if self.micro >= rhs.micro {
            self
        } else {
            rhs
        }
    }

    /// Whether the quantity is exactly zero.
    pub fn is_zero(&self) -> (r: bool)
        ensures
            r == (self@ == 0),
    {
        self.micro == 0
    }
}

impl<T: NumberType> PartialEq for Number<T> {
    fn eq(&self, other: &Self) -> (r: bool) {
        self.micro == other.micro
    }
}

impl<T: NumberType> Eq for Number<T> {}

impl<T: NumberType> vstd::std_specs::cmp::PartialEqSpecImpl for Number<T> {
    open spec fn obeys_eq_spec() -> bool {
        true
    }

    open spec fn eq_spec(&self, other: &Self) -> bool {
        self@ == other@
    }
}

impl<T: NumberType> PartialOrd for Number<T> {
    fn partial_cmp(&self, other: &Self) -> (r: Option<core::cmp::Ordering>) {
        if self.micro < other.micro {
            Some(core::cmp::Ordering::Less)
        } else if self.micro == other.micro {
            Some(core::cmp::Ordering::Equal)
        } else {
            Some(core::cmp::Ordering::Greater)
        }
    }
}

impl<T: NumberType> vstd::std_specs::cmp::PartialOrdSpecImpl for Number<T> {
    open spec fn obeys_partial_cmp_spec() -> bool {
        true
    }

    open spec fn partial_cmp_spec(&self, other: &Self) -> Option<core::cmp::Ordering> {
        if self@ < other@ {
            Some(core::cmp::Ordering::Less)
        } else if self@ == other@ {
            Some(core::cmp::Ordering::Equal)
        } else {
            Some(core::cmp::Ordering::Greater)
        }
    }
}

} // verus!
