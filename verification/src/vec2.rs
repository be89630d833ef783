//! A two-component value with named fields.

use vstd::prelude::*;
use core::ops::Add;
use core::ops::Sub;
use core::ops::Mul;
use core::ops::Div;
use core::ops::Neg;
use vstd::std_specs::ops::AddSpec;
use vstd::std_specs::ops::AddSpecImpl;
use vstd::std_specs::ops::SubSpec;
use vstd::std_specs::ops::SubSpecImpl;
use vstd::std_specs::ops::MulSpec;
use vstd::std_specs::ops::MulSpecImpl;
use vstd::std_specs::ops::DivSpec;
use vstd::std_specs::ops::DivSpecImpl;
use vstd::std_specs::ops::NegSpec;
use vstd::std_specs::ops::NegSpecImpl;

verus! {

/// Two components of the same type, addressed as `x` and `y`.
#[derive(Copy, Clone, Debug)]
pub struct Vec2<T> {
    pub x: T,
    pub y: T,
}

impl<T> Vec2<T> {
    /// Builds the pair `(x, y)`.
    pub fn new(x: T, y: T) -> (v: Self)
        ensures
            v.x == x,
            v.y == y,
    {
        Vec2 { x, y }
    }
}

/// The 32-bit coordinate nearest to a 64-bit coordinate: the coordinate
/// itself where it fits, and else the end of the 32-bit range on its side.
pub open spec fn coordinate_32(c: i64) -> i32 {
    if c < i32::MIN {
        i32::MIN
    } else if c > i32::MAX {
        i32::MAX
    } else {
        c as i32
    }
}

impl Vec2<i64> {
    /// Narrows both coordinates to 32 bits; a coordinate outside that range
    /// becomes the nearest end of the range.
    pub fn to_i32(self) -> (v: Vec2<i32>)
        ensures
            v.x == coordinate_32(self.x),
            v.y == coordinate_32(self.y),
    {
        let x: i32 = if self.x < i32::MIN as i64 {
            i32::MIN
        } else if self.x > i32::MAX as i64 {
            i32::MAX
        } else {
            self.x as i32
        };
        let y: i32 = if self.y < i32::MIN as i64 {
            i32::MIN
        } else if self.y > i32::MAX as i64 {
            i32::MAX
        } else {
            self.y as i32
        };
        Vec2 { x, y }
    }
}

impl<T: Add<Output = T>> AddSpecImpl for Vec2<T> {
    open spec fn obeys_add_spec() -> bool {
        T::obeys_add_spec()
    }

    open spec fn add_req(self, rhs: Self) -> bool {
        self.x.add_req(rhs.x) && self.y.add_req(rhs.y)
    }

    open spec fn add_spec(self, rhs: Self) -> Self {
        Vec2 { x: self.x.add_spec(rhs.x), y: self.y.add_spec(rhs.y) }
    }
}

impl<T: Add<Output = T>> Add for Vec2<T> {
    type Output = Self;

    /// The sum, component by component.
    fn add(self, rhs: Self) -> (out: Self) {
        Vec2 { x: self.x + rhs.x, y: self.y + rhs.y }
    }
}

impl<T: Sub<Output = T>> SubSpecImpl for Vec2<T> {
    open spec fn obeys_sub_spec() -> bool {
        T::obeys_sub_spec()
    }

    open spec fn sub_req(self, rhs: Self) -> bool {
        self.x.sub_req(rhs.x) && self.y.sub_req(rhs.y)
    }

    open spec fn sub_spec(self, rhs: Self) -> Self {
        Vec2 { x: self.x.sub_spec(rhs.x), y: self.y.sub_spec(rhs.y) }
    }
}

impl<T: Sub<Output = T>> Sub for Vec2<T> {
    type Output = Self;

    /// The difference, component by component.
    fn sub(self, rhs: Self) -> (out: Self) {
        Vec2 { x: self.x - rhs.x, y: self.y - rhs.y }
    }
}

impl<T: Mul<Output = T>> MulSpecImpl for Vec2<T> {
    open spec fn obeys_mul_spec() -> bool {
        T::obeys_mul_spec()
    }

    open spec fn mul_req(self, rhs: Self) -> bool {
        self.x.mul_req(rhs.x) && self.y.mul_req(rhs.y)
    }

    open spec fn mul_spec(self, rhs: Self) -> Self {
        Vec2 { x: self.x.mul_spec(rhs.x), y: self.y.mul_spec(rhs.y) }
    }
}

impl<T: Mul<Output = T>> Mul for Vec2<T> {
    type Output = Self;

    /// The product, component by component.
    fn mul(self, rhs: Self) -> (out: Self) {
        Vec2 { x: self.x * rhs.x, y: self.y * rhs.y }
    }
}

impl<T: Div<Output = T>> DivSpecImpl for Vec2<T> {
    open spec fn obeys_div_spec() -> bool {
        T::obeys_div_spec()
    }

    open spec fn div_req(self, rhs: Self) -> bool {
        self.x.div_req(rhs.x) && self.y.div_req(rhs.y)
    }

    open spec fn div_spec(self, rhs: Self) -> Self {
        Vec2 { x: self.x.div_spec(rhs.x), y: self.y.div_spec(rhs.y) }
    }
}

impl<T: Div<Output = T>> Div for Vec2<T> {
    type Output = Self;

    /// The quotient, component by component.
    fn div(self, rhs: Self) -> (out: Self) {
        Vec2 { x: self.x / rhs.x, y: self.y / rhs.y }
    }
}

impl<T: Neg<Output = T>> NegSpecImpl for Vec2<T> {
    open spec fn obeys_neg_spec() -> bool {
        T::obeys_neg_spec()
    }

    open spec fn neg_req(self) -> bool {
        self.x.neg_req() && self.y.neg_req()
    }

    open spec fn neg_spec(self) -> Self {
        Vec2 { x: self.x.neg_spec(), y: self.y.neg_spec() }
    }
}

impl<T: Neg<Output = T>> Neg for Vec2<T> {
    type Output = Self;

    /// The negation of both components.
    fn neg(self) -> (out: Self) {
        Vec2 { x: self.x.neg(), y: self.y.neg() }
    }
}

} // verus!
