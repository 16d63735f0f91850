//! Signed and unsigned 3-component coordinate vectors.

use vstd::math::abs;
use vstd::prelude::*;

verus! {

/// A position or displacement in 3D space, one signed component per axis.
#[derive(Clone, Copy, Debug, PartialEq, Eq, Structural)]
pub struct Vec3 {
    pub x: i32,
    pub y: i32,
    pub z: i32,
}

/// An extent in 3D space, one unsigned component per axis.
#[derive(Clone, Copy, Debug, PartialEq, Eq, Structural)]
pub struct UVec3 {
    pub x: u32,
    pub y: u32,
    pub z: u32,
}

/// Sign of a mathematical integer: -1, 0 or 1.
pub open spec fn sign(a: int) -> int {
    if a > 0 {
        1
    } else if a < 0 {
        -1
    } else {
        0
    }
}

/// Extent of a box along one axis given the two corner components: `|a - b| + 1`.
pub open spec fn spec_extent(a: int, b: int) -> int {
    abs(a - b) as int + 1
}

/// Number of cells of the box spanned by two corners.
pub open spec fn spec_box_volume(c1: Vec3, c2: Vec3) -> int {
    spec_extent(c1.x as int, c2.x as int) * spec_extent(c1.y as int, c2.y as int) * spec_extent(
        c1.z as int,
        c2.z as int,
    )
}

/// Absolute value of one signed component, exact over the full `i32` range.
fn abs_component(a: i32) -> (r: u32)
    ensures
        r == abs(a as int),
{
    if a >= 0 {
        a as u32
    } else {
        (-(a as i64)) as u32
    }
}

/// Sign of one signed component: -1, 0 or 1.
fn sign_component(a: i32) -> (r: i32)
    ensures
        r == sign(a as int),
{
    if a > 0 {
        1
    } else if a < 0 {
        -1
    } else {
        0
    }
}

/// `|a - b|` for two signed components, exact over the full `i32` range.
fn abs_diff(a: i32, b: i32) -> (r: u32)
    ensures
        r == abs(a - b),
{
    if a >= b {
        (a as i64 - b as i64) as u32
    } else {
        (b as i64 - a as i64) as u32
    }
}

impl Vec3 {
    pub fn new(x: i32, y: i32, z: i32) -> (r: Self)
        ensures
            r == (Vec3 { x, y, z }),
    {
        Self { x, y, z }
    }

    /// Product of the absolute values of the components.
    pub fn volume(&self) -> (r: usize)
        requires
            abs(self.x as int) * abs(self.y as int) * abs(self.z as int) <= usize::MAX,
        ensures
            r == abs(self.x as int) * abs(self.y as int) * abs(self.z as int),
    {
        let vx = abs_component(self.x) as usize;
        let vy = abs_component(self.y) as usize;
        let vz = abs_component(self.z) as usize;
        if vx == 0 || vy == 0 || vz == 0 {
            proof {
                lemma_mul_zero_three(vx as int, vy as int, vz as int);
            }
            0
        } else {
            proof {
                lemma_mul_bound_three(vx as int, vy as int, vz as int, usize::MAX as int);
            }
            vx * vy * vz
        }
    }

    /// Component-wise absolute value.
    pub fn abs(&self) -> (r: UVec3)
        ensures
            r.x == abs(self.x as int),
            r.y == abs(self.y as int),
            r.z == abs(self.z as int),
    {
        UVec3 { x: abs_component(self.x), y: abs_component(self.y), z: abs_component(self.z) }
    }

    /// Component-wise sign: -1, 0 or 1.
    pub fn signum(&self) -> (r: Vec3)
        ensures
            r.x == sign(self.x as int),
            r.y == sign(self.y as int),
            r.z == sign(self.z as int),
    {
        Vec3 {
            x: sign_component(self.x),
            y: sign_component(self.y),
            z: sign_component(self.z),
        }
    }

    /// Number of cells in the axis-aligned box that has `self` and `other`
    /// as two opposite corners.
    pub fn volume_to(&self, other: &Vec3) -> (r: u32)
        requires
            spec_extent(self.x as int, other.x as int) <= u32::MAX,
            spec_extent(self.y as int, other.y as int) <= u32::MAX,
            spec_extent(self.z as int, other.z as int) <= u32::MAX,
            spec_box_volume(*self, *other) <= u32::MAX,
        ensures
            r == spec_box_volume(*self, *other),
    {
        self.size_to(other).volume()
    }

    /// Per-axis extent of the axis-aligned box that has `self` and `other`
    /// as two opposite corners: `|self.axis - other.axis| + 1`.
    pub fn size_to(&self, other: &Vec3) -> (r: UVec3)
        requires
            spec_extent(self.x as int, other.x as int) <= u32::MAX,
            spec_extent(self.y as int, other.y as int) <= u32::MAX,
            spec_extent(self.z as int, other.z as int) <= u32::MAX,
        ensures
            r.x == spec_extent(self.x as int, other.x as int),
            r.y == spec_extent(self.y as int, other.y as int),
            r.z == spec_extent(self.z as int, other.z as int),
    {
        UVec3 {
            x: abs_diff(self.x, other.x) + 1,
            y: abs_diff(self.y, other.y) + 1,
            z: abs_diff(self.z, other.z) + 1,
        }
    }

    /// Component-wise sum of two signed vectors.
    pub fn plus(&self, rhs: &Vec3) -> (r: Vec3)
        requires
            i32::MIN <= self.x + rhs.x <= i32::MAX,
            i32::MIN <= self.y + rhs.y <= i32::MAX,
            i32::MIN <= self.z + rhs.z <= i32::MAX,
        ensures
            r.x == self.x + rhs.x,
            r.y == self.y + rhs.y,
            r.z == self.z + rhs.z,
    {
        Vec3 { x: self.x + rhs.x, y: self.y + rhs.y, z: self.z + rhs.z }
    }

    /// Component-wise difference of two signed vectors.
    pub fn minus(&self, rhs: &Vec3) -> (r: Vec3)
        requires
            i32::MIN <= self.x - rhs.x <= i32::MAX,
            i32::MIN <= self.y - rhs.y <= i32::MAX,
            i32::MIN <= self.z - rhs.z <= i32::MAX,
        ensures
            r.x == self.x - rhs.x,
            r.y == self.y - rhs.y,
            r.z == self.z - rhs.z,
    {
        Vec3 { x: self.x - rhs.x, y: self.y - rhs.y, z: self.z - rhs.z }
    }
}

impl UVec3 {
    pub fn new(x: u32, y: u32, z: u32) -> (r: Self)
        ensures
            r == (UVec3 { x, y, z }),
    {
        Self { x, y, z }
    }

    /// Product of the components.
    pub fn volume(&self) -> (r: u32)
        requires
            self.x * self.y * self.z <= u32::MAX,
        ensures
            r == self.x * self.y * self.z,
    {
        if self.x == 0 || self.y == 0 || self.z == 0 {
            proof {
                lemma_mul_zero_three(self.x as int, self.y as int, self.z as int);
            }
            0
        } else {
            proof {
                lemma_mul_bound_three(self.x as int, self.y as int, self.z as int, u32::MAX as int);
            }
            self.x * self.y * self.z
        }
    }
}

/// For positive factors whose product is bounded, the prefix product is
/// bounded by the same limit.
proof fn lemma_mul_bound_three(a: int, b: int, c: int, limit: int)
    by (nonlinear_arith)
    requires
        0 <= a,
        0 <= b,
        1 <= c,
        0 <= limit,
        a * b * c <= limit,
    ensures
        a * b <= limit,
{
}

/// A product with a zero factor is zero.
proof fn lemma_mul_zero_three(a: int, b: int, c: int)
    by (nonlinear_arith)
    requires
        a == 0 || b == 0 || c == 0,
    ensures
        a * b * c == 0,
{
}

} // verus!
