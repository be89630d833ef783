//! A two-component value addressed by position, used for grid indices and
//! lattice offsets.

use vstd::prelude::*;
use crate::vec2::Vec2;
use core::ops::Add;
use core::ops::Sub;
use core::ops::Neg;
use core::ops::Mul;
use vstd::std_specs::ops::AddSpec;
use vstd::std_specs::ops::AddSpecImpl;
use vstd::std_specs::ops::SubSpec;
use vstd::std_specs::ops::SubSpecImpl;
use vstd::std_specs::ops::NegSpec;
use vstd::std_specs::ops::NegSpecImpl;
use vstd::std_specs::ops::MulSpec;
use vstd::std_specs::ops::MulSpecImpl;

verus! {

/// Two components of the same type, addressed as `.0` and `.1`.
#[derive(Copy, Clone, Debug)]
pub struct Tup2<T>(pub T, pub T);

impl<T> Tup2<T> {
    /// Builds the pair `(x, y)`.
    pub fn new(x: T, y: T) -> (t: Self)
        ensures
            t.0 == x,
            t.1 == y,
    {
        Tup2(x, y)
    }

    /// The same pair with named fields.
    pub fn to_vec2(self) -> (v: Vec2<T>)
        ensures
            v.x == self.0,
            v.y == self.1,
    {
        Vec2::new(self.0, self.1)
    }
}

/// The index that a signed coordinate denotes: a coordinate below zero
/// denotes index zero.
pub open spec fn index_of_coordinate(c: isize) -> usize {
    if c < 0 {
        0usize
    } else {
        c as usize
    }
}

impl Tup2<isize> {
    /// Turns a pair of signed coordinates into a pair of indices; each
    /// component below zero becomes zero.
    pub fn to_usize(self) -> (t: Tup2<usize>)
        ensures
            t.0 == index_of_coordinate(self.0),
            t.1 == index_of_coordinate(self.1),
    {
        let a: usize = if self.0 < 0 { 0 } else { self.0 as usize };
        let b: usize = if self.1 < 0 { 0 } else { self.1 as usize };
        Tup2(a, b)
    }
}

impl<T: Add<Output = T>> AddSpecImpl for Tup2<T> {
    open spec fn obeys_add_spec() -> bool {
        T::obeys_add_spec()
    }

    open spec fn add_req(self, rhs: Self) -> bool {
        self.0.add_req(rhs.0) && self.1.add_req(rhs.1)
    }

    open spec fn add_spec(self, rhs: Self) -> Self {
        Tup2(self.0.add_spec(rhs.0), self.1.add_spec(rhs.1))
    }
}

impl<T: Add<Output = T>> Add for Tup2<T> {
    type Output = Self;

    /// The sum, component by component.
    fn add(self, rhs: Self) -> (out: Self) {
        Tup2(self.0 + rhs.0, self.1 + rhs.1)
    }
}

impl<T: Sub<Output = T>> SubSpecImpl for Tup2<T> {
    open spec fn obeys_sub_spec() -> bool {
        T::obeys_sub_spec()
    }

    open spec fn sub_req(self, rhs: Self) -> bool {
        self.0.sub_req(rhs.0) && self.1.sub_req(rhs.1)
    }

    open spec fn sub_spec(self, rhs: Self) -> Self {
        Tup2(self.0.sub_spec(rhs.0), self.1.sub_spec(rhs.1))
    }
}

impl<T: Sub<Output = T>> Sub for Tup2<T> {
    type Output = Self;

    /// The difference, component by component.
    fn sub(self, rhs: Self) -> (out: Self) {
        Tup2(self.0 - rhs.0, self.1 - rhs.1)
    }
}

impl<T: Neg<Output = T>> NegSpecImpl for Tup2<T> {
    open spec fn obeys_neg_spec() -> bool {
        T::obeys_neg_spec()
    }

    open spec fn neg_req(self) -> bool {
        self.0.neg_req() && self.1.neg_req()
    }

    open spec fn neg_spec(self) -> Self {
        Tup2(self.0.neg_spec(), self.1.neg_spec())
    }
}

impl<T: Neg<Output = T>> Neg for Tup2<T> {
    type Output = Self;

    /// The negation of both components.
    fn neg(self) -> (out: Self) {
        Tup2(self.0.neg(), self.1.neg())
    }
}

impl<T: Mul<Output = T>> MulSpecImpl for Tup2<T> {
    open spec fn obeys_mul_spec() -> bool {
        T::obeys_mul_spec()
    }

    open spec fn mul_req(self, rhs: Self) -> bool {
        self.0.mul_req(rhs.0) && self.1.mul_req(rhs.1)
    }

    open spec fn mul_spec(self, rhs: Self) -> Self {
        Tup2(self.0.mul_spec(rhs.0), self.1.mul_spec(rhs.1))
    }
}

impl<T: Mul<Output = T>> Mul for Tup2<T> {
    type Output = Self;

    /// The product, component by component.
    fn mul(self, rhs: Self) -> (out: Self) {
        Tup2(self.0 * rhs.0, self.1 * rhs.1)
    }
}

} // verus!
