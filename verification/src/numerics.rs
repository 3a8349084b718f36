//! Points and vectors of the plane, and the arithmetic on them that the
//! library leaves to its user.

use crate::binary32::{is_finite, is_nan, less, magnitude, value, ZERO};
use vstd::prelude::*;

verus! {

/// A position in the plane. Each coordinate is a binary32 encoding.
#[derive(Clone, Copy, Debug, PartialEq, Eq, Structural)]
pub struct Point {
    pub x: u32,
    pub y: u32,
}

/// A displacement or a direction in the plane. Each component is a binary32
/// encoding.
#[derive(Clone, Copy, Debug, PartialEq, Eq, Structural)]
pub struct Vector {
    pub x: u32,
    pub y: u32,
}

/// The single-precision arithmetic of the model.
///
/// The library decides when each operation is carried out and on which
/// values, and takes the result as it comes: no method has a contract of its
/// own, and what the library proves holds for every implementation. The
/// comments say what an implementation is meant to compute, on the values
/// that the encodings stand for. A few laws of the missile hold only of an
/// arithmetic that behaves as numbers do in some respect; each of them names
/// that respect among its conditions.
pub trait Numerics {
    /// The point `from + speed * along`: where a body at `from` is after one
    /// tick at `speed` in the direction `along`.
    fn displace(&self, from: Point, along: Vector, speed: u32) -> Point;

    /// The sum `speed + gain`.
    fn sum(&self, speed: u32, gain: u32) -> u32;

    /// The unit vector that points from `from` to `to`: the difference
    /// `to - from`, each component divided by the Euclidean length of the
    /// difference. Where the two points coincide there is no such vector, and
    /// the result is whatever the division by zero gives.
    fn heading(&self, from: Point, to: Point) -> Vector;

    /// The Euclidean distance between `a` and `b`.
    fn distance(&self, a: Point, b: Point) -> u32;
}

/// Whether `to` is a result of `numerics.displace(from, along, speed)`.
pub open spec fn displaces<N: Numerics>(
    numerics: &N,
    from: Point,
    along: Vector,
    speed: u32,
    to: Point,
) -> bool {
    call_ensures(N::displace, (numerics, from, along, speed), to)
}

/// Whether `total` is a result of `numerics.sum(speed, gain)`.
pub open spec fn sums<N: Numerics>(numerics: &N, speed: u32, gain: u32, total: u32) -> bool {
    call_ensures(N::sum, (numerics, speed, gain), total)
}

/// Whether `unit` is a result of `numerics.heading(from, to)`.
pub open spec fn heads<N: Numerics>(numerics: &N, from: Point, to: Point, unit: Vector) -> bool {
    call_ensures(N::heading, (numerics, from, to), unit)
}

/// Whether `length` is a result of `numerics.distance(a, b)`.
pub open spec fn measures<N: Numerics>(numerics: &N, a: Point, b: Point, length: u32) -> bool {
    call_ensures(N::distance, (numerics, a, b), length)
}

/// Whether the two points are at one place: all four coordinates are
/// numbers, and the points agree in the value of each coordinate.
pub open spec fn same_place(p: Point, q: Point) -> bool {
    &&& !is_nan(p.x) && !is_nan(p.y) && !is_nan(q.x) && !is_nan(q.y)
    &&& value(p.x) == value(q.x)
    &&& value(p.y) == value(q.y)
}

/// Whether a sum with a gain that is not negative is never below the speed
/// that went in. IEEE-754 addition is such a sum.
pub open spec fn sum_does_not_lose<N: Numerics>(numerics: &N) -> bool {
    forall|speed: u32, gain: u32, total: u32| #[trigger]
        sums(numerics, speed, gain, total) && !less(gain, ZERO) ==> !less(total, speed)
}

/// Whether the sums of two speeds with one gain are in the order of the
/// speeds. IEEE-754 addition is such a sum.
pub open spec fn sum_keeps_order<N: Numerics>(numerics: &N) -> bool {
    forall|slow: u32, fast: u32, gain: u32, low: u32, high: u32|
        less(slow, fast) && #[trigger] sums(numerics, slow, gain, low) && #[trigger] sums(
            numerics,
            fast,
            gain,
            high,
        ) ==> !less(high, low)
}

/// Whether a sum of two zeros is a zero. IEEE-754 addition is such a sum.
pub open spec fn sum_of_zeros_is_zero<N: Numerics>(numerics: &N) -> bool {
    forall|speed: u32, gain: u32, total: u32| #[trigger]
        sums(numerics, speed, gain, total) && magnitude(speed) == 0 && magnitude(gain) == 0
            ==> magnitude(total) == 0
}

/// Whether a body with a speed of zero and a finite direction stays at its
/// place, wherever that is. IEEE-754 multiplication and addition displace so.
pub open spec fn displace_at_rest_stays<N: Numerics>(numerics: &N) -> bool {
    forall|from: Point, along: Vector, speed: u32, to: Point| #[trigger]
        displaces(numerics, from, along, speed, to) && magnitude(speed) == 0 && is_finite(along.x)
            && is_finite(along.y) && !is_nan(from.x) && !is_nan(from.y) ==> same_place(from, to)
}

} // verus!
