use vstd::prelude::*;

use crate::geometry::Coordinate;

verus! {

/// The eight placements of a rectangle that keep it axis-aligned: four
/// rotations and four mirrorings.
#[derive(Debug, Clone, Copy, PartialEq, Eq, Structural)]
pub enum Orientation {
    R0,
    R90,
    R180,
    R270,
    MX,
    MY,
    MX90,
    MY90,
}

/// A 3x3 integer matrix acting on homogeneous 2-D coordinates `(x, y, 1)`.
/// Entry `mRC` is in row `R` and column `C`.
#[derive(Debug, Clone, Copy, PartialEq, Eq, Structural)]
pub struct Mat3 {
    pub m00: i64,
    pub m01: i64,
    pub m02: i64,
    pub m10: i64,
    pub m11: i64,
    pub m12: i64,
    pub m20: i64,
    pub m21: i64,
    pub m22: i64,
}

/// `x` is representable as an `i64`.
pub open spec fn fits_i64(x: int) -> bool {
    i64::MIN <= x <= i64::MAX
}

/// The dot product `a0*b0 + a1*b1 + a2*b2` can be computed left to right in
/// `i64` without overflow.
pub open spec fn dot3_fits(a0: int, a1: int, a2: int, b0: int, b1: int, b2: int) -> bool {
    &&& fits_i64(times(a0, b0))
    &&& fits_i64(times(a1, b1))
    &&& fits_i64(times(a2, b2))
    &&& fits_i64(times(a0, b0) + times(a1, b1))
    &&& fits_i64(times(a0, b0) + times(a1, b1) + times(a2, b2))
}

/// Builds a matrix from its nine entries, row by row.
pub open spec fn mat(
    m00: int,
    m01: int,
    m02: int,
    m10: int,
    m11: int,
    m12: int,
    m20: int,
    m21: int,
    m22: int,
) -> Mat3 {
    Mat3 {
        m00: m00 as i64,
        m01: m01 as i64,
        m02: m02 as i64,
        m10: m10 as i64,
        m11: m11 as i64,
        m12: m12 as i64,
        m20: m20 as i64,
        m21: m21 as i64,
        m22: m22 as i64,
    }
}

/// Integer multiplication, named so that facts about it can be stated once.
pub open spec fn times(a: int, b: int) -> int {
    a * b
}

/// Multiplying by zero, one or minus one.
pub broadcast proof fn lemma_times_unit(a: int, b: int)
    ensures
        a == 0 ==> #[trigger] times(a, b) == 0,
        a == 1 ==> times(a, b) == b,
        a == -1 ==> times(a, b) == -b,
        b == 0 ==> times(a, b) == 0,
        b == 1 ==> times(a, b) == a,
        b == -1 ==> times(a, b) == -a,
{
    assert(a == 0 ==> a * b == 0) by (nonlinear_arith);
    assert(a == -1 ==> a * b == -b) by (nonlinear_arith);
    assert(b == 0 ==> a * b == 0) by (nonlinear_arith);
    assert(b == -1 ==> a * b == -a) by (nonlinear_arith);
}

impl Mat3 {
    /// Every entry of `self * rhs` can be computed in `i64`.
    pub open spec fn mul_fits(self, rhs: Mat3) -> bool {
        &&& dot3_fits(self.m00 as int, self.m01 as int, self.m02 as int, rhs.m00 as int, rhs.m10 as int, rhs.m20 as int)
        &&& dot3_fits(self.m00 as int, self.m01 as int, self.m02 as int, rhs.m01 as int, rhs.m11 as int, rhs.m21 as int)
        &&& dot3_fits(self.m00 as int, self.m01 as int, self.m02 as int, rhs.m02 as int, rhs.m12 as int, rhs.m22 as int)
        &&& dot3_fits(self.m10 as int, self.m11 as int, self.m12 as int, rhs.m00 as int, rhs.m10 as int, rhs.m20 as int)
        &&& dot3_fits(self.m10 as int, self.m11 as int, self.m12 as int, rhs.m01 as int, rhs.m11 as int, rhs.m21 as int)
        &&& dot3_fits(self.m10 as int, self.m11 as int, self.m12 as int, rhs.m02 as int, rhs.m12 as int, rhs.m22 as int)
        &&& dot3_fits(self.m20 as int, self.m21 as int, self.m22 as int, rhs.m00 as int, rhs.m10 as int, rhs.m20 as int)
        &&& dot3_fits(self.m20 as int, self.m21 as int, self.m22 as int, rhs.m01 as int, rhs.m11 as int, rhs.m21 as int)
        &&& dot3_fits(self.m20 as int, self.m21 as int, self.m22 as int, rhs.m02 as int, rhs.m12 as int, rhs.m22 as int)
    }

    /// The matrix product `self * rhs`.
    pub open spec fn spec_mul(self, rhs: Mat3) -> Mat3 {
        Mat3 {
            m00: (times(self.m00 as int, rhs.m00 as int) + times(self.m01 as int, rhs.m10 as int) + times(self.m02 as int, rhs.m20 as int)) as i64,
            m01: (times(self.m00 as int, rhs.m01 as int) + times(self.m01 as int, rhs.m11 as int) + times(self.m02 as int, rhs.m21 as int)) as i64,
            m02: (times(self.m00 as int, rhs.m02 as int) + times(self.m01 as int, rhs.m12 as int) + times(self.m02 as int, rhs.m22 as int)) as i64,
            m10: (times(self.m10 as int, rhs.m00 as int) + times(self.m11 as int, rhs.m10 as int) + times(self.m12 as int, rhs.m20 as int)) as i64,
            m11: (times(self.m10 as int, rhs.m01 as int) + times(self.m11 as int, rhs.m11 as int) + times(self.m12 as int, rhs.m21 as int)) as i64,
            m12: (times(self.m10 as int, rhs.m02 as int) + times(self.m11 as int, rhs.m12 as int) + times(self.m12 as int, rhs.m22 as int)) as i64,
            m20: (times(self.m20 as int, rhs.m00 as int) + times(self.m21 as int, rhs.m10 as int) + times(self.m22 as int, rhs.m20 as int)) as i64,
            m21: (times(self.m20 as int, rhs.m01 as int) + times(self.m21 as int, rhs.m11 as int) + times(self.m22 as int, rhs.m21 as int)) as i64,
            m22: (times(self.m20 as int, rhs.m02 as int) + times(self.m21 as int, rhs.m12 as int) + times(self.m22 as int, rhs.m22 as int)) as i64,
        }
    }

    /// The matrix of each orientation: the identity, a quarter turn
    /// counter-clockwise and its powers, the mirror across the X axis (MX),
    /// the mirror across the Y axis (MY), and the quarter turn applied after
    /// each mirror.
    pub open spec fn spec_from_orientation(o: Orientation) -> Mat3 {
        match o {
            Orientation::R0 => Mat3 { m00: 1i64, m01: 0i64, m02: 0i64, m10: 0i64, m11: 1i64, m12: 0i64, m20: 0i64, m21: 0i64, m22: 1i64 },
            Orientation::R90 => Mat3 { m00: 0i64, m01: -1i64, m02: 0i64, m10: 1i64, m11: 0i64, m12: 0i64, m20: 0i64, m21: 0i64, m22: 1i64 },
            Orientation::R180 => Mat3 { m00: -1i64, m01: 0i64, m02: 0i64, m10: 0i64, m11: -1i64, m12: 0i64, m20: 0i64, m21: 0i64, m22: 1i64 },
            Orientation::R270 => Mat3 { m00: 0i64, m01: 1i64, m02: 0i64, m10: -1i64, m11: 0i64, m12: 0i64, m20: 0i64, m21: 0i64, m22: 1i64 },
            Orientation::MX => Mat3 { m00: 1i64, m01: 0i64, m02: 0i64, m10: 0i64, m11: -1i64, m12: 0i64, m20: 0i64, m21: 0i64, m22: 1i64 },
            Orientation::MY => Mat3 { m00: -1i64, m01: 0i64, m02: 0i64, m10: 0i64, m11: 1i64, m12: 0i64, m20: 0i64, m21: 0i64, m22: 1i64 },
            Orientation::MX90 => Mat3 { m00: 0i64, m01: 1i64, m02: 0i64, m10: 1i64, m11: 0i64, m12: 0i64, m20: 0i64, m21: 0i64, m22: 1i64 },
            Orientation::MY90 => Mat3 { m00: 0i64, m01: -1i64, m02: 0i64, m10: -1i64, m11: 0i64, m12: 0i64, m20: 0i64, m21: 0i64, m22: 1i64 },
        }
    }

    /// The orientation whose matrix has the same upper-left 2x2 block, if any.
    pub open spec fn spec_as_orientation(self) -> Option<Orientation> {
        let (a, b, c, d) = (self.m00, self.m01, self.m10, self.m11);
        if a == 1 && b == 0 && c == 0 && d == 1 {
            Some(Orientation::R0)
        } else if a == 0 && b == -1 && c == 1 && d == 0 {
            Some(Orientation::R90)
        } else if a == -1 && b == 0 && c == 0 && d == -1 {
            Some(Orientation::R180)
        } else if a == 0 && b == 1 && c == -1 && d == 0 {
            Some(Orientation::R270)
        } else if a == 1 && b == 0 && c == 0 && d == -1 {
            Some(Orientation::MX)
        } else if a == -1 && b == 0 && c == 0 && d == 1 {
            Some(Orientation::MY)
        } else if a == 0 && b == 1 && c == 1 && d == 0 {
            Some(Orientation::MX90)
        } else if a == 0 && b == -1 && c == -1 && d == 0 {
            Some(Orientation::MY90)
        } else {
            None
        }
    }

    /// The identity matrix.
    pub fn identity() -> (r: Mat3)
        ensures
            r == mat(1, 0, 0, 0, 1, 0, 0, 0, 1),
    {
        Mat3 { m00: 1, m01: 0, m02: 0, m10: 0, m11: 1, m12: 0, m20: 0, m21: 0, m22: 1 }
    }

    /// The translation by `(dx, dy)`.
    pub fn translate(dx: i64, dy: i64) -> (r: Mat3)
        ensures
            r == mat(1, 0, dx as int, 0, 1, dy as int, 0, 0, 1),
    {
        Mat3 { m00: 1, m01: 0, m02: dx, m10: 0, m11: 1, m12: dy, m20: 0, m21: 0, m22: 1 }
    }

    /// The matrix product `self * rhs`.
    pub fn mul(&self, rhs: &Mat3) -> (r: Mat3)
        requires
            self.mul_fits(*rhs),
        ensures
            r == self.spec_mul(*rhs),
    {
        Mat3 {
            m00: self.m00 * rhs.m00 + self.m01 * rhs.m10 + self.m02 * rhs.m20,
            m01: self.m00 * rhs.m01 + self.m01 * rhs.m11 + self.m02 * rhs.m21,
            m02: self.m00 * rhs.m02 + self.m01 * rhs.m12 + self.m02 * rhs.m22,
            m10: self.m10 * rhs.m00 + self.m11 * rhs.m10 + self.m12 * rhs.m20,
            m11: self.m10 * rhs.m01 + self.m11 * rhs.m11 + self.m12 * rhs.m21,
            m12: self.m10 * rhs.m02 + self.m11 * rhs.m12 + self.m12 * rhs.m22,
            m20: self.m20 * rhs.m00 + self.m21 * rhs.m10 + self.m22 * rhs.m20,
            m21: self.m20 * rhs.m01 + self.m21 * rhs.m11 + self.m22 * rhs.m21,
            m22: self.m20 * rhs.m02 + self.m21 * rhs.m12 + self.m22 * rhs.m22,
        }
    }

    /// The matrix of an orientation.
    pub fn from_orientation(o: Orientation) -> (r: Mat3)
        ensures
            r == Mat3::spec_from_orientation(o),
    {
        match o {
            Orientation::R0 => Mat3::identity(),
            Orientation::R90 => Mat3 { m00: 0, m01: -1, m02: 0, m10: 1, m11: 0, m12: 0, m20: 0, m21: 0, m22: 1 },
            Orientation::R180 => Mat3 { m00: -1, m01: 0, m02: 0, m10: 0, m11: -1, m12: 0, m20: 0, m21: 0, m22: 1 },
            Orientation::R270 => Mat3 { m00: 0, m01: 1, m02: 0, m10: -1, m11: 0, m12: 0, m20: 0, m21: 0, m22: 1 },
            Orientation::MX => Mat3 { m00: 1, m01: 0, m02: 0, m10: 0, m11: -1, m12: 0, m20: 0, m21: 0, m22: 1 },
            Orientation::MY => Mat3 { m00: -1, m01: 0, m02: 0, m10: 0, m11: 1, m12: 0, m20: 0, m21: 0, m22: 1 },
            Orientation::MX90 => Mat3 { m00: 0, m01: 1, m02: 0, m10: 1, m11: 0, m12: 0, m20: 0, m21: 0, m22: 1 },
            Orientation::MY90 => Mat3 { m00: 0, m01: -1, m02: 0, m10: -1, m11: 0, m12: 0, m20: 0, m21: 0, m22: 1 },
        }
    }

    /// The upper-left 2x2 blocks of `self` and `other` are equal.
    fn same_rotation_block(&self, other: &Mat3) -> (r: bool)
        ensures
            r == (self.m00 == other.m00 && self.m01 == other.m01 && self.m10 == other.m10
                && self.m11 == other.m11),
    {
        self.m00 == other.m00 && self.m01 == other.m01 && self.m10 == other.m10 && self.m11
            == other.m11
    }

    /// The orientation whose matrix has the same rotation/mirror block as
    /// `self`, trying R0, R90, R180, R270, MX, MY, MX90, MY90 in turn.
    pub fn as_orientation(&self) -> (r: Orientation)
        requires
            self.spec_as_orientation() is Some,
        ensures
            Some(r) == self.spec_as_orientation(),
    {
        if self.same_rotation_block(&Mat3::from_orientation(Orientation::R0)) {
            Orientation::R0
        } else if self.same_rotation_block(&Mat3::from_orientation(Orientation::R90)) {
            Orientation::R90
        } else if self.same_rotation_block(&Mat3::from_orientation(Orientation::R180)) {
            Orientation::R180
        } else if self.same_rotation_block(&Mat3::from_orientation(Orientation::R270)) {
            Orientation::R270
        } else if self.same_rotation_block(&Mat3::from_orientation(Orientation::MX)) {
            Orientation::MX
        } else if self.same_rotation_block(&Mat3::from_orientation(Orientation::MY)) {
            Orientation::MY
        } else if self.same_rotation_block(&Mat3::from_orientation(Orientation::MX90)) {
            Orientation::MX90
        } else {
            Orientation::MY90
        }
    }

    /// The translation part of the matrix.
    pub fn as_coordinate(&self) -> (r: Coordinate)
        ensures
            r == (Coordinate { x: self.m02, y: self.m12 }),
    {
        Coordinate { x: self.m02, y: self.m12 }
    }

    /// The transform that first orients, then translates by `translation`.
    pub fn from_orientation_then_translation(
        orientation: &Orientation,
        translation: &Coordinate,
    ) -> (r: Mat3)
        ensures
            r == mat(1, 0, translation.x as int, 0, 1, translation.y as int, 0, 0, 1).spec_mul(
                Mat3::spec_from_orientation(*orientation),
            ),
    {
        proof {
            match *orientation {
                Orientation::R0 => {},
                Orientation::R90 => {},
                Orientation::R180 => {},
                Orientation::R270 => {},
                Orientation::MX => {},
                Orientation::MY => {},
                Orientation::MX90 => {},
                Orientation::MY90 => {},
            }
        }
        let orientation_transform = Mat3::from_orientation(*orientation);
        let translation_transform = Mat3::translate(translation.x, translation.y);
        translation_transform.mul(&orientation_transform)
    }
}

/// The orientation obtained by applying `first` and then `second`.
pub open spec fn compose(first: Orientation, second: Orientation) -> Orientation {
    Mat3::spec_from_orientation(second).spec_mul(Mat3::spec_from_orientation(first)).spec_as_orientation()->0
}

#[verifier::rlimit(100)]
/// Products of orientation matrices never overflow and are orientation
/// matrices again.
pub proof fn lemma_orientation_product_closed(a: Orientation, b: Orientation)
    ensures
        Mat3::spec_from_orientation(a).mul_fits(Mat3::spec_from_orientation(b)),
        Mat3::spec_from_orientation(a).spec_mul(Mat3::spec_from_orientation(b)).spec_as_orientation() is Some,
        Mat3::spec_from_orientation(a).spec_mul(Mat3::spec_from_orientation(b))
            == Mat3::spec_from_orientation(
            Mat3::spec_from_orientation(a).spec_mul(Mat3::spec_from_orientation(b)).spec_as_orientation()->0,
        ),
{
    broadcast use lemma_times_unit;
    match (a, b) {
        (Orientation::R0, Orientation::R0) => {},
        (Orientation::R0, Orientation::R90) => {},
        (Orientation::R0, Orientation::R180) => {},
        (Orientation::R0, Orientation::R270) => {},
        (Orientation::R0, Orientation::MX) => {},
        (Orientation::R0, Orientation::MY) => {},
        (Orientation::R0, Orientation::MX90) => {},
        (Orientation::R0, Orientation::MY90) => {},
        (Orientation::R90, Orientation::R0) => {},
        (Orientation::R90, Orientation::R90) => {},
        (Orientation::R90, Orientation::R180) => {},
        (Orientation::R90, Orientation::R270) => {},
        (Orientation::R90, Orientation::MX) => {},
        (Orientation::R90, Orientation::MY) => {},
        (Orientation::R90, Orientation::MX90) => {},
        (Orientation::R90, Orientation::MY90) => {},
        (Orientation::R180, Orientation::R0) => {},
        (Orientation::R180, Orientation::R90) => {},
        (Orientation::R180, Orientation::R180) => {},
        (Orientation::R180, Orientation::R270) => {},
        (Orientation::R180, Orientation::MX) => {},
        (Orientation::R180, Orientation::MY) => {},
        (Orientation::R180, Orientation::MX90) => {},
        (Orientation::R180, Orientation::MY90) => {},
        (Orientation::R270, Orientation::R0) => {},
        (Orientation::R270, Orientation::R90) => {},
        (Orientation::R270, Orientation::R180) => {},
        (Orientation::R270, Orientation::R270) => {},
        (Orientation::R270, Orientation::MX) => {},
        (Orientation::R270, Orientation::MY) => {},
        (Orientation::R270, Orientation::MX90) => {},
        (Orientation::R270, Orientation::MY90) => {},
        (Orientation::MX, Orientation::R0) => {},
        (Orientation::MX, Orientation::R90) => {},
        (Orientation::MX, Orientation::R180) => {},
        (Orientation::MX, Orientation::R270) => {},
        (Orientation::MX, Orientation::MX) => {},
        (Orientation::MX, Orientation::MY) => {},
        (Orientation::MX, Orientation::MX90) => {},
        (Orientation::MX, Orientation::MY90) => {},
        (Orientation::MY, Orientation::R0) => {},
        (Orientation::MY, Orientation::R90) => {},
        (Orientation::MY, Orientation::R180) => {},
        (Orientation::MY, Orientation::R270) => {},
        (Orientation::MY, Orientation::MX) => {},
        (Orientation::MY, Orientation::MY) => {},
        (Orientation::MY, Orientation::MX90) => {},
        (Orientation::MY, Orientation::MY90) => {},
        (Orientation::MX90, Orientation::R0) => {},
        (Orientation::MX90, Orientation::R90) => {},
        (Orientation::MX90, Orientation::R180) => {},
        (Orientation::MX90, Orientation::R270) => {},
        (Orientation::MX90, Orientation::MX) => {},
        (Orientation::MX90, Orientation::MY) => {},
        (Orientation::MX90, Orientation::MX90) => {},
        (Orientation::MX90, Orientation::MY90) => {},
        (Orientation::MY90, Orientation::R0) => {},
        (Orientation::MY90, Orientation::R90) => {},
        (Orientation::MY90, Orientation::R180) => {},
        (Orientation::MY90, Orientation::R270) => {},
        (Orientation::MY90, Orientation::MX) => {},
        (Orientation::MY90, Orientation::MY) => {},
        (Orientation::MY90, Orientation::MX90) => {},
        (Orientation::MY90, Orientation::MY90) => {},
    }
}

impl Orientation {
    /// The orientation obtained by applying `transform` after `self`.
    pub fn prepend_transform(&self, transform: &Orientation) -> (r: Orientation)
        ensures
            r == compose(*self, *transform),
    {
        proof {
            lemma_orientation_product_closed(*transform, *self);
        }
        Mat3::from_orientation(*transform).mul(&Mat3::from_orientation(*self)).as_orientation()
    }

    /// The orientation obtained by applying `self` after `transform`.
    pub fn append_transform(&self, transform: &Orientation) -> (r: Orientation)
        ensures
            r == compose(*transform, *self),
    {
        proof {
            lemma_orientation_product_closed(*self, *transform);
        }
        Mat3::from_orientation(*self).mul(&Mat3::from_orientation(*transform)).as_orientation()
    }
}

/// Reading the orientation back from its matrix gives the same orientation.
pub proof fn lemma_orientation_matrix_round_trip(o: Orientation)
    ensures
        Mat3::spec_from_orientation(o).spec_as_orientation() == Some(o),
{
}

/// R0 leaves every orientation unchanged, applied before or after it.
pub proof fn lemma_compose_identity(o: Orientation)
    ensures
        compose(Orientation::R0, o) == o,
        compose(o, Orientation::R0) == o,
{
    match o {
        Orientation::R0 => {},
        Orientation::R90 => {},
        Orientation::R180 => {},
        Orientation::R270 => {},
        Orientation::MX => {},
        Orientation::MY => {},
        Orientation::MX90 => {},
        Orientation::MY90 => {},
    }
}

#[verifier::rlimit(100)]
/// Applying orientations is associative.
pub proof fn lemma_compose_associative(a: Orientation, b: Orientation, c: Orientation)
    ensures
        compose(compose(a, b), c) == compose(a, compose(b, c)),
{
    broadcast use lemma_times_unit;
    match (a, b, c) {
        (Orientation::R0, Orientation::R0, Orientation::R0) => {},
        (Orientation::R0, Orientation::R0, Orientation::R90) => {},
        (Orientation::R0, Orientation::R0, Orientation::R180) => {},
        (Orientation::R0, Orientation::R0, Orientation::R270) => {},
        (Orientation::R0, Orientation::R0, Orientation::MX) => {},
        (Orientation::R0, Orientation::R0, Orientation::MY) => {},
        (Orientation::R0, Orientation::R0, Orientation::MX90) => {},
        (Orientation::R0, Orientation::R0, Orientation::MY90) => {},
        (Orientation::R0, Orientation::R90, Orientation::R0) => {},
        (Orientation::R0, Orientation::R90, Orientation::R90) => {},
        (Orientation::R0, Orientation::R90, Orientation::R180) => {},
        (Orientation::R0, Orientation::R90, Orientation::R270) => {},
        (Orientation::R0, Orientation::R90, Orientation::MX) => {},
        (Orientation::R0, Orientation::R90, Orientation::MY) => {},
        (Orientation::R0, Orientation::R90, Orientation::MX90) => {},
        (Orientation::R0, Orientation::R90, Orientation::MY90) => {},
        (Orientation::R0, Orientation::R180, Orientation::R0) => {},
        (Orientation::R0, Orientation::R180, Orientation::R90) => {},
        (Orientation::R0, Orientation::R180, Orientation::R180) => {},
        (Orientation::R0, Orientation::R180, Orientation::R270) => {},
        (Orientation::R0, Orientation::R180, Orientation::MX) => {},
        (Orientation::R0, Orientation::R180, Orientation::MY) => {},
        (Orientation::R0, Orientation::R180, Orientation::MX90) => {},
        (Orientation::R0, Orientation::R180, Orientation::MY90) => {},
        (Orientation::R0, Orientation::R270, Orientation::R0) => {},
        (Orientation::R0, Orientation::R270, Orientation::R90) => {},
        (Orientation::R0, Orientation::R270, Orientation::R180) => {},
        (Orientation::R0, Orientation::R270, Orientation::R270) => {},
        (Orientation::R0, Orientation::R270, Orientation::MX) => {},
        (Orientation::R0, Orientation::R270, Orientation::MY) => {},
        (Orientation::R0, Orientation::R270, Orientation::MX90) => {},
        (Orientation::R0, Orientation::R270, Orientation::MY90) => {},
        (Orientation::R0, Orientation::MX, Orientation::R0) => {},
        (Orientation::R0, Orientation::MX, Orientation::R90) => {},
        (Orientation::R0, Orientation::MX, Orientation::R180) => {},
        (Orientation::R0, Orientation::MX, Orientation::R270) => {},
        (Orientation::R0, Orientation::MX, Orientation::MX) => {},
        (Orientation::R0, Orientation::MX, Orientation::MY) => {},
        (Orientation::R0, Orientation::MX, Orientation::MX90) => {},
        (Orientation::R0, Orientation::MX, Orientation::MY90) => {},
        (Orientation::R0, Orientation::MY, Orientation::R0) => {},
        (Orientation::R0, Orientation::MY, Orientation::R90) => {},
        (Orientation::R0, Orientation::MY, Orientation::R180) => {},
        (Orientation::R0, Orientation::MY, Orientation::R270) => {},
        (Orientation::R0, Orientation::MY, Orientation::MX) => {},
        (Orientation::R0, Orientation::MY, Orientation::MY) => {},
        (Orientation::R0, Orientation::MY, Orientation::MX90) => {},
        (Orientation::R0, Orientation::MY, Orientation::MY90) => {},
        (Orientation::R0, Orientation::MX90, Orientation::R0) => {},
        (Orientation::R0, Orientation::MX90, Orientation::R90) => {},
        (Orientation::R0, Orientation::MX90, Orientation::R180) => {},
        (Orientation::R0, Orientation::MX90, Orientation::R270) => {},
        (Orientation::R0, Orientation::MX90, Orientation::MX) => {},
        (Orientation::R0, Orientation::MX90, Orientation::MY) => {},
        (Orientation::R0, Orientation::MX90, Orientation::MX90) => {},
        (Orientation::R0, Orientation::MX90, Orientation::MY90) => {},
        (Orientation::R0, Orientation::MY90, Orientation::R0) => {},
        (Orientation::R0, Orientation::MY90, Orientation::R90) => {},
        (Orientation::R0, Orientation::MY90, Orientation::R180) => {},
        (Orientation::R0, Orientation::MY90, Orientation::R270) => {},
        (Orientation::R0, Orientation::MY90, Orientation::MX) => {},
        (Orientation::R0, Orientation::MY90, Orientation::MY) => {},
        (Orientation::R0, Orientation::MY90, Orientation::MX90) => {},
        (Orientation::R0, Orientation::MY90, Orientation::MY90) => {},
        (Orientation::R90, Orientation::R0, Orientation::R0) => {},
        (Orientation::R90, Orientation::R0, Orientation::R90) => {},
        (Orientation::R90, Orientation::R0, Orientation::R180) => {},
        (Orientation::R90, Orientation::R0, Orientation::R270) => {},
        (Orientation::R90, Orientation::R0, Orientation::MX) => {},
        (Orientation::R90, Orientation::R0, Orientation::MY) => {},
        (Orientation::R90, Orientation::R0, Orientation::MX90) => {},
        (Orientation::R90, Orientation::R0, Orientation::MY90) => {},
        (Orientation::R90, Orientation::R90, Orientation::R0) => {},
        (Orientation::R90, Orientation::R90, Orientation::R90) => {},
        (Orientation::R90, Orientation::R90, Orientation::R180) => {},
        (Orientation::R90, Orientation::R90, Orientation::R270) => {},
        (Orientation::R90, Orientation::R90, Orientation::MX) => {},
        (Orientation::R90, Orientation::R90, Orientation::MY) => {},
        (Orientation::R90, Orientation::R90, Orientation::MX90) => {},
        (Orientation::R90, Orientation::R90, Orientation::MY90) => {},
        (Orientation::R90, Orientation::R180, Orientation::R0) => {},
        (Orientation::R90, Orientation::R180, Orientation::R90) => {},
        (Orientation::R90, Orientation::R180, Orientation::R180) => {},
        (Orientation::R90, Orientation::R180, Orientation::R270) => {},
        (Orientation::R90, Orientation::R180, Orientation::MX) => {},
        (Orientation::R90, Orientation::R180, Orientation::MY) => {},
        (Orientation::R90, Orientation::R180, Orientation::MX90) => {},
        (Orientation::R90, Orientation::R180, Orientation::MY90) => {},
        (Orientation::R90, Orientation::R270, Orientation::R0) => {},
        (Orientation::R90, Orientation::R270, Orientation::R90) => {},
        (Orientation::R90, Orientation::R270, Orientation::R180) => {},
        (Orientation::R90, Orientation::R270, Orientation::R270) => {},
        (Orientation::R90, Orientation::R270, Orientation::MX) => {},
        (Orientation::R90, Orientation::R270, Orientation::MY) => {},
        (Orientation::R90, Orientation::R270, Orientation::MX90) => {},
        (Orientation::R90, Orientation::R270, Orientation::MY90) => {},
        (Orientation::R90, Orientation::MX, Orientation::R0) => {},
        (Orientation::R90, Orientation::MX, Orientation::R90) => {},
        (Orientation::R90, Orientation::MX, Orientation::R180) => {},
        (Orientation::R90, Orientation::MX, Orientation::R270) => {},
        (Orientation::R90, Orientation::MX, Orientation::MX) => {},
        (Orientation::R90, Orientation::MX, Orientation::MY) => {},
        (Orientation::R90, Orientation::MX, Orientation::MX90) => {},
        (Orientation::R90, Orientation::MX, Orientation::MY90) => {},
        (Orientation::R90, Orientation::MY, Orientation::R0) => {},
        (Orientation::R90, Orientation::MY, Orientation::R90) => {},
        (Orientation::R90, Orientation::MY, Orientation::R180) => {},
        (Orientation::R90, Orientation::MY, Orientation::R270) => {},
        (Orientation::R90, Orientation::MY, Orientation::MX) => {},
        (Orientation::R90, Orientation::MY, Orientation::MY) => {},
        (Orientation::R90, Orientation::MY, Orientation::MX90) => {},
        (Orientation::R90, Orientation::MY, Orientation::MY90) => {},
        (Orientation::R90, Orientation::MX90, Orientation::R0) => {},
        (Orientation::R90, Orientation::MX90, Orientation::R90) => {},
        (Orientation::R90, Orientation::MX90, Orientation::R180) => {},
        (Orientation::R90, Orientation::MX90, Orientation::R270) => {},
        (Orientation::R90, Orientation::MX90, Orientation::MX) => {},
        (Orientation::R90, Orientation::MX90, Orientation::MY) => {},
        (Orientation::R90, Orientation::MX90, Orientation::MX90) => {},
        (Orientation::R90, Orientation::MX90, Orientation::MY90) => {},
        (Orientation::R90, Orientation::MY90, Orientation::R0) => {},
        (Orientation::R90, Orientation::MY90, Orientation::R90) => {},
        (Orientation::R90, Orientation::MY90, Orientation::R180) => {},
        (Orientation::R90, Orientation::MY90, Orientation::R270) => {},
        (Orientation::R90, Orientation::MY90, Orientation::MX) => {},
        (Orientation::R90, Orientation::MY90, Orientation::MY) => {},
        (Orientation::R90, Orientation::MY90, Orientation::MX90) => {},
        (Orientation::R90, Orientation::MY90, Orientation::MY90) => {},
        (Orientation::R180, Orientation::R0, Orientation::R0) => {},
        (Orientation::R180, Orientation::R0, Orientation::R90) => {},
        (Orientation::R180, Orientation::R0, Orientation::R180) => {},
        (Orientation::R180, Orientation::R0, Orientation::R270) => {},
        (Orientation::R180, Orientation::R0, Orientation::MX) => {},
        (Orientation::R180, Orientation::R0, Orientation::MY) => {},
        (Orientation::R180, Orientation::R0, Orientation::MX90) => {},
        (Orientation::R180, Orientation::R0, Orientation::MY90) => {},
        (Orientation::R180, Orientation::R90, Orientation::R0) => {},
        (Orientation::R180, Orientation::R90, Orientation::R90) => {},
        (Orientation::R180, Orientation::R90, Orientation::R180) => {},
        (Orientation::R180, Orientation::R90, Orientation::R270) => {},
        (Orientation::R180, Orientation::R90, Orientation::MX) => {},
        (Orientation::R180, Orientation::R90, Orientation::MY) => {},
        (Orientation::R180, Orientation::R90, Orientation::MX90) => {},
        (Orientation::R180, Orientation::R90, Orientation::MY90) => {},
        (Orientation::R180, Orientation::R180, Orientation::R0) => {},
        (Orientation::R180, Orientation::R180, Orientation::R90) => {},
        (Orientation::R180, Orientation::R180, Orientation::R180) => {},
        (Orientation::R180, Orientation::R180, Orientation::R270) => {},
        (Orientation::R180, Orientation::R180, Orientation::MX) => {},
        (Orientation::R180, Orientation::R180, Orientation::MY) => {},
        (Orientation::R180, Orientation::R180, Orientation::MX90) => {},
        (Orientation::R180, Orientation::R180, Orientation::MY90) => {},
        (Orientation::R180, Orientation::R270, Orientation::R0) => {},
        (Orientation::R180, Orientation::R270, Orientation::R90) => {},
        (Orientation::R180, Orientation::R270, Orientation::R180) => {},
        (Orientation::R180, Orientation::R270, Orientation::R270) => {},
        (Orientation::R180, Orientation::R270, Orientation::MX) => {},
        (Orientation::R180, Orientation::R270, Orientation::MY) => {},
        (Orientation::R180, Orientation::R270, Orientation::MX90) => {},
        (Orientation::R180, Orientation::R270, Orientation::MY90) => {},
        (Orientation::R180, Orientation::MX, Orientation::R0) => {},
        (Orientation::R180, Orientation::MX, Orientation::R90) => {},
        (Orientation::R180, Orientation::MX, Orientation::R180) => {},
        (Orientation::R180, Orientation::MX, Orientation::R270) => {},
        (Orientation::R180, Orientation::MX, Orientation::MX) => {},
        (Orientation::R180, Orientation::MX, Orientation::MY) => {},
        (Orientation::R180, Orientation::MX, Orientation::MX90) => {},
        (Orientation::R180, Orientation::MX, Orientation::MY90) => {},
        (Orientation::R180, Orientation::MY, Orientation::R0) => {},
        (Orientation::R180, Orientation::MY, Orientation::R90) => {},
        (Orientation::R180, Orientation::MY, Orientation::R180) => {},
        (Orientation::R180, Orientation::MY, Orientation::R270) => {},
        (Orientation::R180, Orientation::MY, Orientation::MX) => {},
        (Orientation::R180, Orientation::MY, Orientation::MY) => {},
        (Orientation::R180, Orientation::MY, Orientation::MX90) => {},
        (Orientation::R180, Orientation::MY, Orientation::MY90) => {},
        (Orientation::R180, Orientation::MX90, Orientation::R0) => {},
        (Orientation::R180, Orientation::MX90, Orientation::R90) => {},
        (Orientation::R180, Orientation::MX90, Orientation::R180) => {},
        (Orientation::R180, Orientation::MX90, Orientation::R270) => {},
        (Orientation::R180, Orientation::MX90, Orientation::MX) => {},
        (Orientation::R180, Orientation::MX90, Orientation::MY) => {},
        (Orientation::R180, Orientation::MX90, Orientation::MX90) => {},
        (Orientation::R180, Orientation::MX90, Orientation::MY90) => {},
        (Orientation::R180, Orientation::MY90, Orientation::R0) => {},
        (Orientation::R180, Orientation::MY90, Orientation::R90) => {},
        (Orientation::R180, Orientation::MY90, Orientation::R180) => {},
        (Orientation::R180, Orientation::MY90, Orientation::R270) => {},
        (Orientation::R180, Orientation::MY90, Orientation::MX) => {},
        (Orientation::R180, Orientation::MY90, Orientation::MY) => {},
        (Orientation::R180, Orientation::MY90, Orientation::MX90) => {},
        (Orientation::R180, Orientation::MY90, Orientation::MY90) => {},
        (Orientation::R270, Orientation::R0, Orientation::R0) => {},
        (Orientation::R270, Orientation::R0, Orientation::R90) => {},
        (Orientation::R270, Orientation::R0, Orientation::R180) => {},
        (Orientation::R270, Orientation::R0, Orientation::R270) => {},
        (Orientation::R270, Orientation::R0, Orientation::MX) => {},
        (Orientation::R270, Orientation::R0, Orientation::MY) => {},
        (Orientation::R270, Orientation::R0, Orientation::MX90) => {},
        (Orientation::R270, Orientation::R0, Orientation::MY90) => {},
        (Orientation::R270, Orientation::R90, Orientation::R0) => {},
        (Orientation::R270, Orientation::R90, Orientation::R90) => {},
        (Orientation::R270, Orientation::R90, Orientation::R180) => {},
        (Orientation::R270, Orientation::R90, Orientation::R270) => {},
        (Orientation::R270, Orientation::R90, Orientation::MX) => {},
        (Orientation::R270, Orientation::R90, Orientation::MY) => {},
        (Orientation::R270, Orientation::R90, Orientation::MX90) => {},
        (Orientation::R270, Orientation::R90, Orientation::MY90) => {},
        (Orientation::R270, Orientation::R180, Orientation::R0) => {},
        (Orientation::R270, Orientation::R180, Orientation::R90) => {},
        (Orientation::R270, Orientation::R180, Orientation::R180) => {},
        (Orientation::R270, Orientation::R180, Orientation::R270) => {},
        (Orientation::R270, Orientation::R180, Orientation::MX) => {},
        (Orientation::R270, Orientation::R180, Orientation::MY) => {},
        (Orientation::R270, Orientation::R180, Orientation::MX90) => {},
        (Orientation::R270, Orientation::R180, Orientation::MY90) => {},
        (Orientation::R270, Orientation::R270, Orientation::R0) => {},
        (Orientation::R270, Orientation::R270, Orientation::R90) => {},
        (Orientation::R270, Orientation::R270, Orientation::R180) => {},
        (Orientation::R270, Orientation::R270, Orientation::R270) => {},
        (Orientation::R270, Orientation::R270, Orientation::MX) => {},
        (Orientation::R270, Orientation::R270, Orientation::MY) => {},
        (Orientation::R270, Orientation::R270, Orientation::MX90) => {},
        (Orientation::R270, Orientation::R270, Orientation::MY90) => {},
        (Orientation::R270, Orientation::MX, Orientation::R0) => {},
        (Orientation::R270, Orientation::MX, Orientation::R90) => {},
        (Orientation::R270, Orientation::MX, Orientation::R180) => {},
        (Orientation::R270, Orientation::MX, Orientation::R270) => {},
        (Orientation::R270, Orientation::MX, Orientation::MX) => {},
        (Orientation::R270, Orientation::MX, Orientation::MY) => {},
        (Orientation::R270, Orientation::MX, Orientation::MX90) => {},
        (Orientation::R270, Orientation::MX, Orientation::MY90) => {},
        (Orientation::R270, Orientation::MY, Orientation::R0) => {},
        (Orientation::R270, Orientation::MY, Orientation::R90) => {},
        (Orientation::R270, Orientation::MY, Orientation::R180) => {},
        (Orientation::R270, Orientation::MY, Orientation::R270) => {},
        (Orientation::R270, Orientation::MY, Orientation::MX) => {},
        (Orientation::R270, Orientation::MY, Orientation::MY) => {},
        (Orientation::R270, Orientation::MY, Orientation::MX90) => {},
        (Orientation::R270, Orientation::MY, Orientation::MY90) => {},
        (Orientation::R270, Orientation::MX90, Orientation::R0) => {},
        (Orientation::R270, Orientation::MX90, Orientation::R90) => {},
        (Orientation::R270, Orientation::MX90, Orientation::R180) => {},
        (Orientation::R270, Orientation::MX90, Orientation::R270) => {},
        (Orientation::R270, Orientation::MX90, Orientation::MX) => {},
        (Orientation::R270, Orientation::MX90, Orientation::MY) => {},
        (Orientation::R270, Orientation::MX90, Orientation::MX90) => {},
        (Orientation::R270, Orientation::MX90, Orientation::MY90) => {},
        (Orientation::R270, Orientation::MY90, Orientation::R0) => {},
        (Orientation::R270, Orientation::MY90, Orientation::R90) => {},
        (Orientation::R270, Orientation::MY90, Orientation::R180) => {},
        (Orientation::R270, Orientation::MY90, Orientation::R270) => {},
        (Orientation::R270, Orientation::MY90, Orientation::MX) => {},
        (Orientation::R270, Orientation::MY90, Orientation::MY) => {},
        (Orientation::R270, Orientation::MY90, Orientation::MX90) => {},
        (Orientation::R270, Orientation::MY90, Orientation::MY90) => {},
        (Orientation::MX, Orientation::R0, Orientation::R0) => {},
        (Orientation::MX, Orientation::R0, Orientation::R90) => {},
        (Orientation::MX, Orientation::R0, Orientation::R180) => {},
        (Orientation::MX, Orientation::R0, Orientation::R270) => {},
        (Orientation::MX, Orientation::R0, Orientation::MX) => {},
        (Orientation::MX, Orientation::R0, Orientation::MY) => {},
        (Orientation::MX, Orientation::R0, Orientation::MX90) => {},
        (Orientation::MX, Orientation::R0, Orientation::MY90) => {},
        (Orientation::MX, Orientation::R90, Orientation::R0) => {},
        (Orientation::MX, Orientation::R90, Orientation::R90) => {},
        (Orientation::MX, Orientation::R90, Orientation::R180) => {},
        (Orientation::MX, Orientation::R90, Orientation::R270) => {},
        (Orientation::MX, Orientation::R90, Orientation::MX) => {},
        (Orientation::MX, Orientation::R90, Orientation::MY) => {},
        (Orientation::MX, Orientation::R90, Orientation::MX90) => {},
        (Orientation::MX, Orientation::R90, Orientation::MY90) => {},
        (Orientation::MX, Orientation::R180, Orientation::R0) => {},
        (Orientation::MX, Orientation::R180, Orientation::R90) => {},
        (Orientation::MX, Orientation::R180, Orientation::R180) => {},
        (Orientation::MX, Orientation::R180, Orientation::R270) => {},
        (Orientation::MX, Orientation::R180, Orientation::MX) => {},
        (Orientation::MX, Orientation::R180, Orientation::MY) => {},
        (Orientation::MX, Orientation::R180, Orientation::MX90) => {},
        (Orientation::MX, Orientation::R180, Orientation::MY90) => {},
        (Orientation::MX, Orientation::R270, Orientation::R0) => {},
        (Orientation::MX, Orientation::R270, Orientation::R90) => {},
        (Orientation::MX, Orientation::R270, Orientation::R180) => {},
        (Orientation::MX, Orientation::R270, Orientation::R270) => {},
        (Orientation::MX, Orientation::R270, Orientation::MX) => {},
        (Orientation::MX, Orientation::R270, Orientation::MY) => {},
        (Orientation::MX, Orientation::R270, Orientation::MX90) => {},
        (Orientation::MX, Orientation::R270, Orientation::MY90) => {},
        (Orientation::MX, Orientation::MX, Orientation::R0) => {},
        (Orientation::MX, Orientation::MX, Orientation::R90) => {},
        (Orientation::MX, Orientation::MX, Orientation::R180) => {},
        (Orientation::MX, Orientation::MX, Orientation::R270) => {},
        (Orientation::MX, Orientation::MX, Orientation::MX) => {},
        (Orientation::MX, Orientation::MX, Orientation::MY) => {},
        (Orientation::MX, Orientation::MX, Orientation::MX90) => {},
        (Orientation::MX, Orientation::MX, Orientation::MY90) => {},
        (Orientation::MX, Orientation::MY, Orientation::R0) => {},
        (Orientation::MX, Orientation::MY, Orientation::R90) => {},
        (Orientation::MX, Orientation::MY, Orientation::R180) => {},
        (Orientation::MX, Orientation::MY, Orientation::R270) => {},
        (Orientation::MX, Orientation::MY, Orientation::MX) => {},
        (Orientation::MX, Orientation::MY, Orientation::MY) => {},
        (Orientation::MX, Orientation::MY, Orientation::MX90) => {},
        (Orientation::MX, Orientation::MY, Orientation::MY90) => {},
        (Orientation::MX, Orientation::MX90, Orientation::R0) => {},
        (Orientation::MX, Orientation::MX90, Orientation::R90) => {},
        (Orientation::MX, Orientation::MX90, Orientation::R180) => {},
        (Orientation::MX, Orientation::MX90, Orientation::R270) => {},
        (Orientation::MX, Orientation::MX90, Orientation::MX) => {},
        (Orientation::MX, Orientation::MX90, Orientation::MY) => {},
        (Orientation::MX, Orientation::MX90, Orientation::MX90) => {},
        (Orientation::MX, Orientation::MX90, Orientation::MY90) => {},
        (Orientation::MX, Orientation::MY90, Orientation::R0) => {},
        (Orientation::MX, Orientation::MY90, Orientation::R90) => {},
        (Orientation::MX, Orientation::MY90, Orientation::R180) => {},
        (Orientation::MX, Orientation::MY90, Orientation::R270) => {},
        (Orientation::MX, Orientation::MY90, Orientation::MX) => {},
        (Orientation::MX, Orientation::MY90, Orientation::MY) => {},
        (Orientation::MX, Orientation::MY90, Orientation::MX90) => {},
        (Orientation::MX, Orientation::MY90, Orientation::MY90) => {},
        (Orientation::MY, Orientation::R0, Orientation::R0) => {},
        (Orientation::MY, Orientation::R0, Orientation::R90) => {},
        (Orientation::MY, Orientation::R0, Orientation::R180) => {},
        (Orientation::MY, Orientation::R0, Orientation::R270) => {},
        (Orientation::MY, Orientation::R0, Orientation::MX) => {},
        (Orientation::MY, Orientation::R0, Orientation::MY) => {},
        (Orientation::MY, Orientation::R0, Orientation::MX90) => {},
        (Orientation::MY, Orientation::R0, Orientation::MY90) => {},
        (Orientation::MY, Orientation::R90, Orientation::R0) => {},
        (Orientation::MY, Orientation::R90, Orientation::R90) => {},
        (Orientation::MY, Orientation::R90, Orientation::R180) => {},
        (Orientation::MY, Orientation::R90, Orientation::R270) => {},
        (Orientation::MY, Orientation::R90, Orientation::MX) => {},
        (Orientation::MY, Orientation::R90, Orientation::MY) => {},
        (Orientation::MY, Orientation::R90, Orientation::MX90) => {},
        (Orientation::MY, Orientation::R90, Orientation::MY90) => {},
        (Orientation::MY, Orientation::R180, Orientation::R0) => {},
        (Orientation::MY, Orientation::R180, Orientation::R90) => {},
        (Orientation::MY, Orientation::R180, Orientation::R180) => {},
        (Orientation::MY, Orientation::R180, Orientation::R270) => {},
        (Orientation::MY, Orientation::R180, Orientation::MX) => {},
        (Orientation::MY, Orientation::R180, Orientation::MY) => {},
        (Orientation::MY, Orientation::R180, Orientation::MX90) => {},
        (Orientation::MY, Orientation::R180, Orientation::MY90) => {},
        (Orientation::MY, Orientation::R270, Orientation::R0) => {},
        (Orientation::MY, Orientation::R270, Orientation::R90) => {},
        (Orientation::MY, Orientation::R270, Orientation::R180) => {},
        (Orientation::MY, Orientation::R270, Orientation::R270) => {},
        (Orientation::MY, Orientation::R270, Orientation::MX) => {},
        (Orientation::MY, Orientation::R270, Orientation::MY) => {},
        (Orientation::MY, Orientation::R270, Orientation::MX90) => {},
        (Orientation::MY, Orientation::R270, Orientation::MY90) => {},
        (Orientation::MY, Orientation::MX, Orientation::R0) => {},
        (Orientation::MY, Orientation::MX, Orientation::R90) => {},
        (Orientation::MY, Orientation::MX, Orientation::R180) => {},
        (Orientation::MY, Orientation::MX, Orientation::R270) => {},
        (Orientation::MY, Orientation::MX, Orientation::MX) => {},
        (Orientation::MY, Orientation::MX, Orientation::MY) => {},
        (Orientation::MY, Orientation::MX, Orientation::MX90) => {},
        (Orientation::MY, Orientation::MX, Orientation::MY90) => {},
        (Orientation::MY, Orientation::MY, Orientation::R0) => {},
        (Orientation::MY, Orientation::MY, Orientation::R90) => {},
        (Orientation::MY, Orientation::MY, Orientation::R180) => {},
        (Orientation::MY, Orientation::MY, Orientation::R270) => {},
        (Orientation::MY, Orientation::MY, Orientation::MX) => {},
        (Orientation::MY, Orientation::MY, Orientation::MY) => {},
        (Orientation::MY, Orientation::MY, Orientation::MX90) => {},
        (Orientation::MY, Orientation::MY, Orientation::MY90) => {},
        (Orientation::MY, Orientation::MX90, Orientation::R0) => {},
        (Orientation::MY, Orientation::MX90, Orientation::R90) => {},
        (Orientation::MY, Orientation::MX90, Orientation::R180) => {},
        (Orientation::MY, Orientation::MX90, Orientation::R270) => {},
        (Orientation::MY, Orientation::MX90, Orientation::MX) => {},
        (Orientation::MY, Orientation::MX90, Orientation::MY) => {},
        (Orientation::MY, Orientation::MX90, Orientation::MX90) => {},
        (Orientation::MY, Orientation::MX90, Orientation::MY90) => {},
        (Orientation::MY, Orientation::MY90, Orientation::R0) => {},
        (Orientation::MY, Orientation::MY90, Orientation::R90) => {},
        (Orientation::MY, Orientation::MY90, Orientation::R180) => {},
        (Orientation::MY, Orientation::MY90, Orientation::R270) => {},
        (Orientation::MY, Orientation::MY90, Orientation::MX) => {},
        (Orientation::MY, Orientation::MY90, Orientation::MY) => {},
        (Orientation::MY, Orientation::MY90, Orientation::MX90) => {},
        (Orientation::MY, Orientation::MY90, Orientation::MY90) => {},
        (Orientation::MX90, Orientation::R0, Orientation::R0) => {},
        (Orientation::MX90, Orientation::R0, Orientation::R90) => {},
        (Orientation::MX90, Orientation::R0, Orientation::R180) => {},
        (Orientation::MX90, Orientation::R0, Orientation::R270) => {},
        (Orientation::MX90, Orientation::R0, Orientation::MX) => {},
        (Orientation::MX90, Orientation::R0, Orientation::MY) => {},
        (Orientation::MX90, Orientation::R0, Orientation::MX90) => {},
        (Orientation::MX90, Orientation::R0, Orientation::MY90) => {},
        (Orientation::MX90, Orientation::R90, Orientation::R0) => {},
        (Orientation::MX90, Orientation::R90, Orientation::R90) => {},
        (Orientation::MX90, Orientation::R90, Orientation::R180) => {},
        (Orientation::MX90, Orientation::R90, Orientation::R270) => {},
        (Orientation::MX90, Orientation::R90, Orientation::MX) => {},
        (Orientation::MX90, Orientation::R90, Orientation::MY) => {},
        (Orientation::MX90, Orientation::R90, Orientation::MX90) => {},
        (Orientation::MX90, Orientation::R90, Orientation::MY90) => {},
        (Orientation::MX90, Orientation::R180, Orientation::R0) => {},
        (Orientation::MX90, Orientation::R180, Orientation::R90) => {},
        (Orientation::MX90, Orientation::R180, Orientation::R180) => {},
        (Orientation::MX90, Orientation::R180, Orientation::R270) => {},
        (Orientation::MX90, Orientation::R180, Orientation::MX) => {},
        (Orientation::MX90, Orientation::R180, Orientation::MY) => {},
        (Orientation::MX90, Orientation::R180, Orientation::MX90) => {},
        (Orientation::MX90, Orientation::R180, Orientation::MY90) => {},
        (Orientation::MX90, Orientation::R270, Orientation::R0) => {},
        (Orientation::MX90, Orientation::R270, Orientation::R90) => {},
        (Orientation::MX90, Orientation::R270, Orientation::R180) => {},
        (Orientation::MX90, Orientation::R270, Orientation::R270) => {},
        (Orientation::MX90, Orientation::R270, Orientation::MX) => {},
        (Orientation::MX90, Orientation::R270, Orientation::MY) => {},
        (Orientation::MX90, Orientation::R270, Orientation::MX90) => {},
        (Orientation::MX90, Orientation::R270, Orientation::MY90) => {},
        (Orientation::MX90, Orientation::MX, Orientation::R0) => {},
        (Orientation::MX90, Orientation::MX, Orientation::R90) => {},
        (Orientation::MX90, Orientation::MX, Orientation::R180) => {},
        (Orientation::MX90, Orientation::MX, Orientation::R270) => {},
        (Orientation::MX90, Orientation::MX, Orientation::MX) => {},
        (Orientation::MX90, Orientation::MX, Orientation::MY) => {},
        (Orientation::MX90, Orientation::MX, Orientation::MX90) => {},
        (Orientation::MX90, Orientation::MX, Orientation::MY90) => {},
        (Orientation::MX90, Orientation::MY, Orientation::R0) => {},
        (Orientation::MX90, Orientation::MY, Orientation::R90) => {},
        (Orientation::MX90, Orientation::MY, Orientation::R180) => {},
        (Orientation::MX90, Orientation::MY, Orientation::R270) => {},
        (Orientation::MX90, Orientation::MY, Orientation::MX) => {},
        (Orientation::MX90, Orientation::MY, Orientation::MY) => {},
        (Orientation::MX90, Orientation::MY, Orientation::MX90) => {},
        (Orientation::MX90, Orientation::MY, Orientation::MY90) => {},
        (Orientation::MX90, Orientation::MX90, Orientation::R0) => {},
        (Orientation::MX90, Orientation::MX90, Orientation::R90) => {},
        (Orientation::MX90, Orientation::MX90, Orientation::R180) => {},
        (Orientation::MX90, Orientation::MX90, Orientation::R270) => {},
        (Orientation::MX90, Orientation::MX90, Orientation::MX) => {},
        (Orientation::MX90, Orientation::MX90, Orientation::MY) => {},
        (Orientation::MX90, Orientation::MX90, Orientation::MX90) => {},
        (Orientation::MX90, Orientation::MX90, Orientation::MY90) => {},
        (Orientation::MX90, Orientation::MY90, Orientation::R0) => {},
        (Orientation::MX90, Orientation::MY90, Orientation::R90) => {},
        (Orientation::MX90, Orientation::MY90, Orientation::R180) => {},
        (Orientation::MX90, Orientation::MY90, Orientation::R270) => {},
        (Orientation::MX90, Orientation::MY90, Orientation::MX) => {},
        (Orientation::MX90, Orientation::MY90, Orientation::MY) => {},
        (Orientation::MX90, Orientation::MY90, Orientation::MX90) => {},
        (Orientation::MX90, Orientation::MY90, Orientation::MY90) => {},
        (Orientation::MY90, Orientation::R0, Orientation::R0) => {},
        (Orientation::MY90, Orientation::R0, Orientation::R90) => {},
        (Orientation::MY90, Orientation::R0, Orientation::R180) => {},
        (Orientation::MY90, Orientation::R0, Orientation::R270) => {},
        (Orientation::MY90, Orientation::R0, Orientation::MX) => {},
        (Orientation::MY90, Orientation::R0, Orientation::MY) => {},
        (Orientation::MY90, Orientation::R0, Orientation::MX90) => {},
        (Orientation::MY90, Orientation::R0, Orientation::MY90) => {},
        (Orientation::MY90, Orientation::R90, Orientation::R0) => {},
        (Orientation::MY90, Orientation::R90, Orientation::R90) => {},
        (Orientation::MY90, Orientation::R90, Orientation::R180) => {},
        (Orientation::MY90, Orientation::R90, Orientation::R270) => {},
        (Orientation::MY90, Orientation::R90, Orientation::MX) => {},
        (Orientation::MY90, Orientation::R90, Orientation::MY) => {},
        (Orientation::MY90, Orientation::R90, Orientation::MX90) => {},
        (Orientation::MY90, Orientation::R90, Orientation::MY90) => {},
        (Orientation::MY90, Orientation::R180, Orientation::R0) => {},
        (Orientation::MY90, Orientation::R180, Orientation::R90) => {},
        (Orientation::MY90, Orientation::R180, Orientation::R180) => {},
        (Orientation::MY90, Orientation::R180, Orientation::R270) => {},
        (Orientation::MY90, Orientation::R180, Orientation::MX) => {},
        (Orientation::MY90, Orientation::R180, Orientation::MY) => {},
        (Orientation::MY90, Orientation::R180, Orientation::MX90) => {},
        (Orientation::MY90, Orientation::R180, Orientation::MY90) => {},
        (Orientation::MY90, Orientation::R270, Orientation::R0) => {},
        (Orientation::MY90, Orientation::R270, Orientation::R90) => {},
        (Orientation::MY90, Orientation::R270, Orientation::R180) => {},
        (Orientation::MY90, Orientation::R270, Orientation::R270) => {},
        (Orientation::MY90, Orientation::R270, Orientation::MX) => {},
        (Orientation::MY90, Orientation::R270, Orientation::MY) => {},
        (Orientation::MY90, Orientation::R270, Orientation::MX90) => {},
        (Orientation::MY90, Orientation::R270, Orientation::MY90) => {},
        (Orientation::MY90, Orientation::MX, Orientation::R0) => {},
        (Orientation::MY90, Orientation::MX, Orientation::R90) => {},
        (Orientation::MY90, Orientation::MX, Orientation::R180) => {},
        (Orientation::MY90, Orientation::MX, Orientation::R270) => {},
        (Orientation::MY90, Orientation::MX, Orientation::MX) => {},
        (Orientation::MY90, Orientation::MX, Orientation::MY) => {},
        (Orientation::MY90, Orientation::MX, Orientation::MX90) => {},
        (Orientation::MY90, Orientation::MX, Orientation::MY90) => {},
        (Orientation::MY90, Orientation::MY, Orientation::R0) => {},
        (Orientation::MY90, Orientation::MY, Orientation::R90) => {},
        (Orientation::MY90, Orientation::MY, Orientation::R180) => {},
        (Orientation::MY90, Orientation::MY, Orientation::R270) => {},
        (Orientation::MY90, Orientation::MY, Orientation::MX) => {},
        (Orientation::MY90, Orientation::MY, Orientation::MY) => {},
        (Orientation::MY90, Orientation::MY, Orientation::MX90) => {},
        (Orientation::MY90, Orientation::MY, Orientation::MY90) => {},
        (Orientation::MY90, Orientation::MX90, Orientation::R0) => {},
        (Orientation::MY90, Orientation::MX90, Orientation::R90) => {},
        (Orientation::MY90, Orientation::MX90, Orientation::R180) => {},
        (Orientation::MY90, Orientation::MX90, Orientation::R270) => {},
        (Orientation::MY90, Orientation::MX90, Orientation::MX) => {},
        (Orientation::MY90, Orientation::MX90, Orientation::MY) => {},
        (Orientation::MY90, Orientation::MX90, Orientation::MX90) => {},
        (Orientation::MY90, Orientation::MX90, Orientation::MY90) => {},
        (Orientation::MY90, Orientation::MY90, Orientation::R0) => {},
        (Orientation::MY90, Orientation::MY90, Orientation::R90) => {},
        (Orientation::MY90, Orientation::MY90, Orientation::R180) => {},
        (Orientation::MY90, Orientation::MY90, Orientation::R270) => {},
        (Orientation::MY90, Orientation::MY90, Orientation::MX) => {},
        (Orientation::MY90, Orientation::MY90, Orientation::MY) => {},
        (Orientation::MY90, Orientation::MY90, Orientation::MX90) => {},
        (Orientation::MY90, Orientation::MY90, Orientation::MY90) => {},
    }
}

/// Every orientation can be undone.
pub proof fn lemma_compose_inverse(o: Orientation)
    ensures
        exists|p: Orientation| compose(o, p) == Orientation::R0 && compose(p, o) == Orientation::R0,
{
    let p = match o {
        Orientation::R90 => Orientation::R270,
        Orientation::R270 => Orientation::R90,
        _ => o,
    };
    match o {
            Orientation::R0 => {},
            Orientation::R90 => {},
            Orientation::R180 => {},
            Orientation::R270 => {},
            Orientation::MX => {},
            Orientation::MY => {},
            Orientation::MX90 => {},
            Orientation::MY90 => {},
    }
    assert(compose(o, p) == Orientation::R0 && compose(p, o) == Orientation::R0);
}

} // verus!
