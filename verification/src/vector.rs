//! Two-dimensional integer vectors in Cartesian coordinates.

use vstd::prelude::*;

verus! {

/// A 2D integer vector. It serves both as a position on a grid and, when
/// restricted to the four unit vectors, as the orientation of a rover: a
/// rover facing east has the orientation `Vector { x: 1, y: 0 }`.
#[derive(Debug, Clone, Copy, PartialEq, Eq, Structural)]
pub struct Vector {
    pub x: i32,
    pub y: i32,
}

/// Holds exactly when `v` is one of the four canonical orientation vectors:
/// north `(0, 1)`, east `(1, 0)`, south `(0, -1)` or west `(-1, 0)`.
pub open spec fn is_unit_vector(v: Vector) -> bool {
    ||| v == (Vector { x: 0, y: 1 })
    ||| v == (Vector { x: 1, y: 0 })
    ||| v == (Vector { x: 0, y: -1i32 })
    ||| v == (Vector { x: -1i32, y: 0 })
}

/// The 90 degree counter-clockwise rotation of `v`: `(x, y)` maps to
/// `(-y, x)`.
pub open spec fn spec_rotate_left(v: Vector) -> Vector {
    Vector { x: (-v.y) as i32, y: v.x }
}

/// The 90 degree clockwise rotation of `v`: `(x, y)` maps to `(y, -x)`.
pub open spec fn spec_rotate_right(v: Vector) -> Vector {
    Vector { x: v.y, y: (-v.x) as i32 }
}

impl Vector {
    pub fn new(x: i32, y: i32) -> (v: Vector)
        ensures
            v == (Vector { x, y }),
    {
        Vector { x, y }
    }

    /// Rotate 90 degrees anticlockwise. The rotation matrix for a left
    /// rotation sends `[x, y]` to `[-y, x]`.
    pub fn rotate_left(&self) -> (r: Vector)
        requires
            self.y != i32::MIN,
        ensures
            r == spec_rotate_left(*self),
    {
        Vector { x: -self.y, y: self.x }
    }

    /// Rotate 90 degrees clockwise. The rotation matrix for a right
    /// rotation sends `[x, y]` to `[y, -x]`.
    pub fn rotate_right(&self) -> (r: Vector)
        requires
            self.x != i32::MIN,
        ensures
            r == spec_rotate_right(*self),
    {
        Vector { x: self.y, y: -self.x }
    }

    /// Whether this vector is one of the four canonical orientation
    /// vectors.
    pub fn is_unit(&self) -> (r: bool)
        ensures
            r == is_unit_vector(*self),
    {
        (self.x == 0 && (self.y == 1 || self.y == -1)) || (self.y == 0 && (self.x == 1 || self.x
            == -1))
    }

    /// Component-wise vector addition.
    pub fn add(self, rhs: Vector) -> (r: Vector)
        requires
            i32::MIN <= self.x + rhs.x <= i32::MAX,
            i32::MIN <= self.y + rhs.y <= i32::MAX,
        ensures
            r.x == self.x + rhs.x,
            r.y == self.y + rhs.y,
    {
        Vector { x: self.x + rhs.x, y: self.y + rhs.y }
    }
}

/// Rotation closure: each of the four canonical orientation vectors stays
/// canonical under a left or a right rotation; the two rotations are
/// mutually inverse; and four left rotations in a row return the vector
/// unchanged, so left rotation is cyclic of order four.
pub proof fn lemma_rotation_closure(v: Vector)
    requires
        is_unit_vector(v),
    ensures
        is_unit_vector(spec_rotate_left(v)),
        is_unit_vector(spec_rotate_right(v)),
        spec_rotate_left(spec_rotate_right(v)) == v,
        spec_rotate_right(spec_rotate_left(v)) == v,
        spec_rotate_left(spec_rotate_left(spec_rotate_left(spec_rotate_left(v)))) == v,
{
}

} // verus!
