use vstd::prelude::*;

verus! {

/// The smallest and largest value of an `i32`, as mathematical integers.
pub open spec fn fits_i32(v: int) -> bool {
    i32::MIN <= v <= i32::MAX
}

/// A quantity of each of the four ingredient tiers.
#[derive(PartialEq, Eq, Structural, Copy, Clone, Hash, Debug)]
pub struct Vec4 {
    pub x: i32,
    pub y: i32,
    pub z: i32,
    pub w: i32,
}

/// Every component is at least zero.
pub open spec fn non_neg(v: Vec4) -> bool {
    v.x >= 0 && v.y >= 0 && v.z >= 0 && v.w >= 0
}

/// The componentwise sum of `a` and `b` is non-negative (computed over the integers).
pub open spec fn sum_non_neg(a: Vec4, b: Vec4) -> bool {
    a.x + b.x >= 0 && a.y + b.y >= 0 && a.z + b.z >= 0 && a.w + b.w >= 0
}

/// The componentwise sum of `a` and `b` fits in an `i32` in each component.
pub open spec fn sum_fits(a: Vec4, b: Vec4) -> bool {
    fits_i32(a.x + b.x) && fits_i32(a.y + b.y) && fits_i32(a.z + b.z) && fits_i32(a.w + b.w)
}

/// The componentwise difference `a - b` fits in an `i32` in each component.
pub open spec fn diff_fits(a: Vec4, b: Vec4) -> bool {
    fits_i32(a.x - b.x) && fits_i32(a.y - b.y) && fits_i32(a.z - b.z) && fits_i32(a.w - b.w)
}

/// Adding `delta` to the stock `inv` leaves every component between zero and `i32::MAX`.
pub open spec fn stays_stocked(inv: Vec4, delta: Vec4) -> bool {
    sum_non_neg(inv, delta) && sum_fits(inv, delta)
}

/// The componentwise sum, where it fits.
pub open spec fn plus(a: Vec4, b: Vec4) -> Vec4 {
    Vec4 {
        x: (a.x + b.x) as i32,
        y: (a.y + b.y) as i32,
        z: (a.z + b.z) as i32,
        w: (a.w + b.w) as i32,
    }
}

/// The componentwise difference, where it fits.
pub open spec fn minus(a: Vec4, b: Vec4) -> Vec4 {
    Vec4 {
        x: (a.x - b.x) as i32,
        y: (a.y - b.y) as i32,
        z: (a.z - b.z) as i32,
        w: (a.w - b.w) as i32,
    }
}

impl Vec4 {
    pub fn new(x: i32, y: i32, z: i32, w: i32) -> (r: Vec4)
        ensures
            r.x == x && r.y == y && r.z == z && r.w == w,
    {
        Vec4 { x, y, z, w }
    }

    pub fn zero() -> (r: Vec4)
        ensures
            r.x == 0 && r.y == 0 && r.z == 0 && r.w == 0,
            non_neg(r),
    {
        Vec4 { x: 0, y: 0, z: 0, w: 0 }
    }

    /// The sum of the squares of the components, exact.
    pub fn magnitude2(self) -> (r: u128)
        ensures
            r == self.x * self.x + self.y * self.y + self.z * self.z + self.w * self.w,
    {
        let x = self.x as i128;
        let y = self.y as i128;
        let z = self.z as i128;
        let w = self.w as i128;
        assert(0 <= x * x <= 0x4000_0000_0000_0000) by (nonlinear_arith)
            requires -0x8000_0000 <= x <= 0x7fff_ffff;
        assert(0 <= y * y <= 0x4000_0000_0000_0000) by (nonlinear_arith)
            requires -0x8000_0000 <= y <= 0x7fff_ffff;
        assert(0 <= z * z <= 0x4000_0000_0000_0000) by (nonlinear_arith)
            requires -0x8000_0000 <= z <= 0x7fff_ffff;
        assert(0 <= w * w <= 0x4000_0000_0000_0000) by (nonlinear_arith)
            requires -0x8000_0000 <= w <= 0x7fff_ffff;
        (x * x + y * y + z * z + w * w) as u128
    }

    pub fn is_non_neg(self) -> (r: bool)
        ensures
            r == non_neg(self),
    {
        self.x >= 0 && self.y >= 0 && self.z >= 0 && self.w >= 0
    }

    pub fn add(self, rhs: Vec4) -> (r: Vec4)
        requires
            sum_fits(self, rhs),
        ensures
            r == plus(self, rhs),
            r.x == self.x + rhs.x && r.y == self.y + rhs.y,
            r.z == self.z + rhs.z && r.w == self.w + rhs.w,
    {
        Vec4 { x: self.x + rhs.x, y: self.y + rhs.y, z: self.z + rhs.z, w: self.w + rhs.w }
    }

    pub fn add_assign(&mut self, rhs: Vec4)
        requires
            sum_fits(*old(self), rhs),
        ensures
            *final(self) == plus(*old(self), rhs),
    {
        self.x = self.x + rhs.x;
        self.y = self.y + rhs.y;
        self.z = self.z + rhs.z;
        self.w = self.w + rhs.w;
    }

    pub fn sub(self, rhs: Vec4) -> (r: Vec4)
        requires
            diff_fits(self, rhs),
        ensures
            r == minus(self, rhs),
            r.x == self.x - rhs.x && r.y == self.y - rhs.y,
            r.z == self.z - rhs.z && r.w == self.w - rhs.w,
    {
        Vec4 { x: self.x - rhs.x, y: self.y - rhs.y, z: self.z - rhs.z, w: self.w - rhs.w }
    }

    pub fn sub_assign(&mut self, rhs: Vec4)
        requires
            diff_fits(*old(self), rhs),
        ensures
            *final(self) == minus(*old(self), rhs),
    {
        self.x = self.x - rhs.x;
        self.y = self.y - rhs.y;
        self.z = self.z - rhs.z;
        self.w = self.w - rhs.w;
    }

    /// Whether `inv + self` stays non-negative, decided without overflow.
    pub fn keeps_non_neg(self, inv: Vec4) -> (r: bool)
        ensures
            r == sum_non_neg(inv, self),
    {
        inv.x as i64 + self.x as i64 >= 0 && inv.y as i64 + self.y as i64 >= 0
            && inv.z as i64 + self.z as i64 >= 0 && inv.w as i64 + self.w as i64 >= 0
    }

    /// Whether `inv + self` stays between zero and `i32::MAX` in every component.
    pub fn keeps_stocked(self, inv: Vec4) -> (r: bool)
        ensures
            r == stays_stocked(inv, self),
    {
        let mx = i32::MAX as i64;
        let x = inv.x as i64 + self.x as i64;
        let y = inv.y as i64 + self.y as i64;
        let z = inv.z as i64 + self.z as i64;
        let w = inv.w as i64 + self.w as i64;
        0 <= x && x <= mx && 0 <= y && y <= mx && 0 <= z && z <= mx && 0 <= w && w <= mx
    }
}

/// Adding a vector and then subtracting it again gives back the vector we started from.
pub proof fn lemma_add_then_sub(a: Vec4, b: Vec4)
    requires
        sum_fits(a, b),
    ensures
        diff_fits(plus(a, b), b),
        minus(plus(a, b), b) == a,
{
}

/// A vector is non-negative exactly when each of its four components is at least zero;
/// in particular the zero vector is non-negative.
pub proof fn lemma_non_neg_components(v: Vec4)
    ensures
        non_neg(v) <==> (v.x >= 0 && v.y >= 0 && v.z >= 0 && v.w >= 0),
        non_neg(Vec4 { x: 0, y: 0, z: 0, w: 0 }),
{
}

/// Where the sum fits, `keeps_non_neg` agrees with adding and then testing the sum.
pub proof fn lemma_sum_non_neg_is_non_neg_of_sum(a: Vec4, b: Vec4)
    requires
        sum_fits(a, b),
    ensures
        sum_non_neg(a, b) <==> non_neg(plus(a, b)),
{
}

} // verus!
