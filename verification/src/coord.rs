//! Two-dimensional vectors of coordinates, and their arithmetic.

use vstd::prelude::*;
use crate::axis::Axis;
use crate::bits::{CastSigned, ExcessToSigned, HalfExcess};
use crate::direc::{DirecVector, Direction};

verus! {

/// Generic 2D vector. It could be a coordinate, it could be a size, anything
/// like that.
///
/// The structure is a plain pair; the arithmetic operations are provided on
/// the concrete coordinate types the library works with.
#[derive(Debug, Clone, Copy, PartialEq, Eq, Hash, Structural)]
pub struct Vec2<T> {
    /// Value of the Y-coordinate.
    pub y: T,
    /// Value of the X-coordinate.
    pub x: T,
}

impl<T> Vec2<T> {
    /// The coordinate on the given axis.
    pub open spec fn spec_on_axis(self, axis: Axis) -> T {
        match axis {
            Axis::Y => self.y,
            Axis::X => self.x,
        }
    }

    /// Returns the coordinate on the given axis.
    pub fn on_axis(&self, axis: Axis) -> (r: &T)
        ensures
            *r == self.spec_on_axis(axis),
    {
        match axis {
            Axis::Y => &self.y,
            Axis::X => &self.x,
        }
    }

    /// Creates a vector from a function over axes.
    pub fn from_axes<F: Fn(Axis) -> T>(mapper: F) -> (r: Vec2<T>)
        requires
            forall|axis: Axis| #[trigger] call_requires(mapper, (axis,)),
        ensures
            call_ensures(mapper, (Axis::Y,), r.y),
            call_ensures(mapper, (Axis::X,), r.x),
    {
        Vec2 { y: mapper(Axis::Y), x: mapper(Axis::X) }
    }

    /// Maps coordinates to references.
    pub fn as_ref(&self) -> (r: Vec2<&T>)
        ensures
            r.y == &self.y,
            r.x == &self.x,
    {
        Vec2 { y: &self.y, x: &self.x }
    }

    /// Maps each coordinate through the given function and builds a new
    /// vector from the outputs.
    pub fn map<U, F: Fn(T) -> U>(self, mapper: F) -> (r: Vec2<U>)
        requires
            call_requires(mapper, (self.y,)),
            call_requires(mapper, (self.x,)),
        ensures
            call_ensures(mapper, (self.y,), r.y),
            call_ensures(mapper, (self.x,), r.x),
    {
        Vec2 { y: mapper(self.y), x: mapper(self.x) }
    }

    /// Maps each coordinate through the given function, which also receives
    /// the axis of the coordinate it is applied to.
    pub fn map_with_axes<U, F: Fn(Axis, T) -> U>(self, mapper: F) -> (r: Vec2<U>)
        requires
            call_requires(mapper, (Axis::Y, self.y)),
            call_requires(mapper, (Axis::X, self.x)),
        ensures
            call_ensures(mapper, (Axis::Y, self.y), r.y),
            call_ensures(mapper, (Axis::X, self.x), r.x),
    {
        Vec2 { y: mapper(Axis::Y, self.y), x: mapper(Axis::X, self.x) }
    }

    /// Accumulates the coordinates into a final result, given an initial
    /// value and an accumulator function, visiting `x` first and then `y`.
    pub fn fold<U, F: Fn(T, U) -> U>(self, init: U, folder: F) -> (r: U)
        requires
            call_requires(folder, (self.x, init)),
            forall|acc: U| call_ensures(folder, (self.x, init), acc)
                ==> #[trigger] call_requires(folder, (self.y, acc)),
        ensures
            exists|acc: U| #[trigger] call_ensures(folder, (self.x, init), acc)
                && call_ensures(folder, (self.y, acc), r),
    {
        let acc = folder(self.x, init);
        folder(self.y, acc)
    }

    /// Accumulates the coordinates into a final result, given an initial
    /// value and an accumulator function, visiting `y` first and then `x`.
    pub fn fold_rev<U, F: Fn(U, T) -> U>(self, init: U, folder: F) -> (r: U)
        requires
            call_requires(folder, (init, self.y)),
            forall|acc: U| call_ensures(folder, (init, self.y), acc)
                ==> #[trigger] call_requires(folder, (acc, self.x)),
        ensures
            exists|acc: U| #[trigger] call_ensures(folder, (init, self.y), acc)
                && call_ensures(folder, (acc, self.x), r),
    {
        let acc = folder(init, self.y);
        folder(acc, self.x)
    }

    /// Zips two vectors into a vector of pairs, coordinate by coordinate.
    pub fn zip<U>(self, other: Vec2<U>) -> (r: Vec2<(T, U)>)
        ensures
            r.y == (self.y, other.y),
            r.x == (self.x, other.x),
    {
        Vec2 { y: (self.y, other.y), x: (self.x, other.x) }
    }

    /// Zips two vectors coordinate by coordinate through the given function.
    pub fn zip_with<U, B, F: Fn(T, U) -> B>(self, other: Vec2<U>, zipper: F) -> (r: Vec2<B>)
        requires
            call_requires(zipper, (self.y, other.y)),
            call_requires(zipper, (self.x, other.x)),
        ensures
            call_ensures(zipper, (self.y, other.y), r.y),
            call_ensures(zipper, (self.x, other.x), r.x),
    {
        Vec2 { y: zipper(self.y, other.y), x: zipper(self.x, other.x) }
    }

    /// Swaps the two coordinates, mirroring the vector over the diagonal.
    pub fn transposed(self) -> (r: Vec2<T>)
        ensures
            r.y == self.x,
            r.x == self.y,
    {
        Vec2 { y: self.x, x: self.y }
    }
}

impl<'elems, T> Vec2<&'elems T> {
    /// Clones every coordinate.
    pub fn cloned(self) -> (r: Vec2<T>)
        where T: Copy,
        ensures
            r.y == *self.y,
            r.x == *self.x,
    {
        Vec2 { y: *self.y, x: *self.x }
    }

    /// Copies every coordinate.
    pub fn copied(self) -> (r: Vec2<T>)
        where T: Copy,
        ensures
            r.y == *self.y,
            r.x == *self.x,
    {
        Vec2 { y: *self.y, x: *self.x }
    }
}

impl<T> Vec2<Option<T>> {
    /// Transposes a vector of options into an option of a vector: the result
    /// is `Some` exactly when both coordinates are.
    pub fn transpose(self) -> (r: Option<Vec2<T>>)
        ensures
            match r {
                Some(v) => self.y == Some(v.y) && self.x == Some(v.x),
                None => self.y is None || self.x is None,
            },
    {
        match (self.y, self.x) {
            (Some(y), Some(x)) => Some(Vec2 { y, x }),
            _ => None,
        }
    }
}

impl<T, E> Vec2<Result<T, E>> {
    /// Transposes a vector of results into a result of a vector: a single
    /// `Err` coordinate makes the result `Err`. An error on `x` gets
    /// priority over an error on `y`.
    pub fn transpose_err_x(self) -> (r: Result<Vec2<T>, E>)
        ensures
            match r {
                Ok(v) => self.y == Ok::<T, E>(v.y) && self.x == Ok::<T, E>(v.x),
                Err(e) => if self.x is Err {
                    self.x == Err::<T, E>(e)
                } else {
                    self.y == Err::<T, E>(e)
                },
            },
    {
        match (self.y, self.x) {
            (Ok(y), Ok(x)) => Ok(Vec2 { y, x }),
            (_, Err(e)) => Err(e),
            (Err(e), _) => Err(e),
        }
    }

    /// Transposes a vector of results into a result of a vector: a single
    /// `Err` coordinate makes the result `Err`. An error on `y` gets
    /// priority over an error on `x`.
    pub fn transpose_err_y(self) -> (r: Result<Vec2<T>, E>)
        ensures
            match r {
                Ok(v) => self.y == Ok::<T, E>(v.y) && self.x == Ok::<T, E>(v.x),
                Err(e) => if self.y is Err {
                    self.y == Err::<T, E>(e)
                } else {
                    self.x == Err::<T, E>(e)
                },
            },
    {
        match (self.y, self.x) {
            (Ok(y), Ok(x)) => Ok(Vec2 { y, x }),
            (Err(e), _) => Err(e),
            (_, Err(e)) => Err(e),
        }
    }
}

impl Vec2<i64> {
    /// The X coordinate of this point moved by the given vector,
    /// in unbounded integer arithmetic.
    pub open spec fn moved_x(self, vector: DirecVector<i64>) -> int {
        match vector.direction {
            Direction::Left => self.x - vector.magnitude,
            Direction::Right => self.x + vector.magnitude,
            _ => self.x as int,
        }
    }

    /// The Y coordinate of this point moved by the given vector,
    /// in unbounded integer arithmetic.
    pub open spec fn moved_y(self, vector: DirecVector<i64>) -> int {
        match vector.direction {
            Direction::Up => self.y - vector.magnitude,
            Direction::Down => self.y + vector.magnitude,
            _ => self.y as int,
        }
    }

    /// Whether the point moved by the given vector still has both
    /// coordinates representable.
    pub open spec fn move_in_range(self, vector: DirecVector<i64>) -> bool {
        i64::MIN <= self.moved_x(vector) <= i64::MAX
            && i64::MIN <= self.moved_y(vector) <= i64::MAX
    }

    /// Moves this point in the given direction by the given amount.
    pub fn move_by(self, vector: DirecVector<i64>) -> (r: Vec2<i64>)
        requires
            self.move_in_range(vector),
        ensures
            r.x == self.moved_x(vector),
            r.y == self.moved_y(vector),
    {
        match vector.direction {
            Direction::Up => Vec2 { y: self.y - vector.magnitude, ..self },
            Direction::Down => Vec2 { y: self.y + vector.magnitude, ..self },
            Direction::Left => Vec2 { x: self.x - vector.magnitude, ..self },
            Direction::Right => Vec2 { x: self.x + vector.magnitude, ..self },
        }
    }

    /// Moves this point in the given direction by one.
    pub fn move_one(self, direction: Direction) -> (r: Vec2<i64>)
        requires
            self.move_in_range(DirecVector { direction, magnitude: 1 }),
        ensures
            r.x == self.moved_x(DirecVector { direction, magnitude: 1 }),
            r.y == self.moved_y(DirecVector { direction, magnitude: 1 }),
    {
        self.move_by(DirecVector { direction, magnitude: 1 })
    }

    /// Moves this point in the given direction by the given amount,
    /// returning `None` if a coordinate overflows.
    pub fn checked_move_by(self, vector: &DirecVector<i64>) -> (r: Option<Vec2<i64>>)
        ensures
            match r {
                Some(moved) => self.move_in_range(*vector)
                    && moved.x == self.moved_x(*vector)
                    && moved.y == self.moved_y(*vector),
                None => !self.move_in_range(*vector),
            },
    {
        let moved = match vector.direction {
            Direction::Up => Vec2 { y: self.y.checked_sub(vector.magnitude)?, ..self },
            Direction::Down => Vec2 { y: self.y.checked_add(vector.magnitude)?, ..self },
            Direction::Left => Vec2 { x: self.x.checked_sub(vector.magnitude)?, ..self },
            Direction::Right => Vec2 { x: self.x.checked_add(vector.magnitude)?, ..self },
        };
        Some(moved)
    }

    /// Moves this point in the given direction by one, returning `None` if
    /// the coordinate overflows.
    pub fn checked_move(self, direction: Direction) -> (r: Option<Vec2<i64>>)
        ensures
            match r {
                Some(moved) => self.move_in_range(DirecVector { direction, magnitude: 1 })
                    && moved.x == self.moved_x(DirecVector { direction, magnitude: 1 })
                    && moved.y == self.moved_y(DirecVector { direction, magnitude: 1 }),
                None => !self.move_in_range(DirecVector { direction, magnitude: 1 }),
            },
    {
        self.checked_move_by(&DirecVector { direction, magnitude: 1 })
    }

    /// The "straight" direction from this point into the other point:
    /// `Some` exactly when the two points differ on one axis only.
    pub open spec fn spec_direction_to(self, other: Vec2<i64>) -> Option<Direction> {
        if self.x == other.x && self.y > other.y {
            Some(Direction::Up)
        } else if self.x == other.x && self.y < other.y {
            Some(Direction::Down)
        } else if self.y == other.y && self.x > other.x {
            Some(Direction::Left)
        } else if self.y == other.y && self.x < other.x {
            Some(Direction::Right)
        } else {
            None
        }
    }

    /// Returns the "straight" direction into another point, or `None` if
    /// the points are equal or share no axis.
    pub fn direction_to(&self, other: &Vec2<i64>) -> (r: Option<Direction>)
        ensures
            r == self.spec_direction_to(*other),
    {
        if self.x == other.x && self.y > other.y {
            Some(Direction::Up)
        } else if self.x == other.x && self.y < other.y {
            Some(Direction::Down)
        } else if self.y == other.y && self.x > other.x {
            Some(Direction::Left)
        } else if self.y == other.y && self.x < other.x {
            Some(Direction::Right)
        } else {
            None
        }
    }

    /// Whether `q` lies on the open ray that leaves this point in the given
    /// direction: past this point, on the same row or column.
    pub open spec fn on_ray(self, direction: Direction, q: Vec2<i64>) -> bool {
        match direction {
            Direction::Up => q.x == self.x && q.y < self.y,
            Direction::Down => q.x == self.x && q.y > self.y,
            Direction::Left => q.y == self.y && q.x < self.x,
            Direction::Right => q.y == self.y && q.x > self.x,
        }
    }

    /// The distance from this point to `q` along the orientation of the
    /// given direction; positive exactly for points past this one.
    pub open spec fn ray_dist(self, direction: Direction, q: Vec2<i64>) -> int {
        match direction {
            Direction::Up => self.y - q.y,
            Direction::Down => q.y - self.y,
            Direction::Left => self.x - q.x,
            Direction::Right => q.x - self.x,
        }
    }

    /// Computes the dot product of the two vectors, i.e. `x1*x2 + y1*y2`.
    pub fn dot(self, other: Vec2<i64>) -> (r: i64)
        requires
            i64::MIN <= self.x * other.x <= i64::MAX,
            i64::MIN <= self.y * other.y <= i64::MAX,
            i64::MIN <= self.x * other.x + self.y * other.y <= i64::MAX,
        ensures
            r == self.x * other.x + self.y * other.y,
    {
        self.x * other.x + self.y * other.y
    }

    /// Computes the dot product of the two vectors, by reference.
    pub fn dot_ref(&self, other: &Vec2<i64>) -> (r: i64)
        requires
            i64::MIN <= self.x * other.x <= i64::MAX,
            i64::MIN <= self.y * other.y <= i64::MAX,
            i64::MIN <= self.x * other.x + self.y * other.y <= i64::MAX,
        ensures
            r == self.x * other.x + self.y * other.y,
    {
        self.dot(*other)
    }

    /// Computes the dot product, returning `None` if it overflows.
    pub fn checked_dot(&self, other: &Vec2<i64>) -> (r: Option<i64>)
        ensures
            match r {
                Some(d) => d == self.x * other.x + self.y * other.y,
                None => !(i64::MIN <= self.x * other.x <= i64::MAX
                    && i64::MIN <= self.y * other.y <= i64::MAX
                    && i64::MIN <= self.x * other.x + self.y * other.y <= i64::MAX),
            },
    {
        let px = self.x.checked_mul(other.x)?;
        let py = self.y.checked_mul(other.y)?;
        px.checked_add(py)
    }

    /// Computes the square of the magnitude of the vector, i.e.
    /// `x * x + y * y`.
    pub fn sqr_magnitude(self) -> (r: i64)
        requires
            i64::MIN <= self.x * self.x + self.y * self.y <= i64::MAX,
        ensures
            r == self.x * self.x + self.y * self.y,
    {
        proof {
            assert(self.x * self.x >= 0 && self.y * self.y >= 0) by (nonlinear_arith);
        }
        self.x * self.x + self.y * self.y
    }

    /// Computes the square of the magnitude of the vector, by reference.
    pub fn sqr_magnitude_ref(&self) -> (r: i64)
        requires
            i64::MIN <= self.x * self.x + self.y * self.y <= i64::MAX,
        ensures
            r == self.x * self.x + self.y * self.y,
    {
        self.sqr_magnitude()
    }

    /// Computes the square of the magnitude, returning `None` on overflow.
    pub fn checked_sqr_mag(&self) -> (r: Option<i64>)
        ensures
            match r {
                Some(d) => d == self.x * self.x + self.y * self.y,
                None => !(i64::MIN <= self.x * self.x + self.y * self.y <= i64::MAX),
            },
    {
        let r = self.checked_dot(self);
        proof {
            assert(self.x * self.x >= 0 && self.y * self.y >= 0) by (nonlinear_arith);
        }
        r
    }

    /// Adds the two vectors coordinate by coordinate.
    pub fn add(self, other: Vec2<i64>) -> (r: Vec2<i64>)
        requires
            i64::MIN <= self.x + other.x <= i64::MAX,
            i64::MIN <= self.y + other.y <= i64::MAX,
        ensures
            r.x == self.x + other.x,
            r.y == self.y + other.y,
    {
        Vec2 { x: self.x + other.x, y: self.y + other.y }
    }

    /// Subtracts the other vector from this one, coordinate by coordinate.
    pub fn sub(self, other: Vec2<i64>) -> (r: Vec2<i64>)
        requires
            i64::MIN <= self.x - other.x <= i64::MAX,
            i64::MIN <= self.y - other.y <= i64::MAX,
        ensures
            r.x == self.x - other.x,
            r.y == self.y - other.y,
    {
        Vec2 { x: self.x - other.x, y: self.y - other.y }
    }

    /// Multiplies the two vectors coordinate by coordinate.
    pub fn mul(self, other: Vec2<i64>) -> (r: Vec2<i64>)
        requires
            i64::MIN <= self.x * other.x <= i64::MAX,
            i64::MIN <= self.y * other.y <= i64::MAX,
        ensures
            r.x == self.x * other.x,
            r.y == self.y * other.y,
    {
        Vec2 { x: self.x * other.x, y: self.y * other.y }
    }

    /// Divides this vector by the other, coordinate by coordinate, with
    /// truncated division.
    pub fn div(self, other: Vec2<i64>) -> (r: Vec2<i64>)
        requires
            other.x != 0 && other.y != 0,
            self.x != i64::MIN && self.y != i64::MIN,
            other.x != i64::MIN && other.y != i64::MIN,
        ensures
            r.x == crate::coord::trunc_div(self.x as int, other.x as int),
            r.y == crate::coord::trunc_div(self.y as int, other.y as int),
    {
        Vec2 { x: div_trunc(self.x, other.x), y: div_trunc(self.y, other.y) }
    }

    /// Negates both coordinates.
    pub fn neg(self) -> (r: Vec2<i64>)
        requires
            self.x != i64::MIN,
            self.y != i64::MIN,
        ensures
            r.x == -self.x,
            r.y == -self.y,
    {
        Vec2 { x: -self.x, y: -self.y }
    }

    /// The sum of the absolute coordinate distances between the two points,
    /// in unbounded integer arithmetic.
    pub open spec fn spec_manhattan(self, other: Vec2<i64>) -> int {
        abs_int(self.x - other.x) + abs_int(self.y - other.y)
    }

    /// Computes the sum of the absolute coordinate distances to the other
    /// point, returning `None` if it overflows.
    pub fn checked_manhattan(&self, other: &Vec2<i64>) -> (r: Option<i64>)
        ensures
            match r {
                Some(d) => d == self.spec_manhattan(*other),
                None => self.spec_manhattan(*other) > i64::MAX,
            },
    {
        let dx = if self.x > other.x {
            self.x.checked_sub(other.x)
        } else {
            other.x.checked_sub(self.x)
        };
        let dy = if self.y > other.y {
            self.y.checked_sub(other.y)
        } else {
            other.y.checked_sub(self.y)
        };
        match (dx, dy) {
            (Some(dx), Some(dy)) => dx.checked_add(dy),
            _ => None,
        }
    }
}

impl Vec2<u8> {
    /// Adds the two vectors coordinate by coordinate, wrapping around on
    /// overflow.
    pub fn wrapping_add(&self, other: &Self) -> (r: Self)
        ensures
            r.x == vstd::wrapping::u8_specs::wrapping_add(self.x, other.x),
            r.y == vstd::wrapping::u8_specs::wrapping_add(self.y, other.y),
    {
        Vec2 { x: self.x.wrapping_add(other.x), y: self.y.wrapping_add(other.y) }
    }

    /// Subtracts the other vector coordinate by coordinate, wrapping around
    /// on overflow.
    pub fn wrapping_sub(&self, other: &Self) -> (r: Self)
        ensures
            r.x == vstd::wrapping::u8_specs::wrapping_sub(self.x, other.x),
            r.y == vstd::wrapping::u8_specs::wrapping_sub(self.y, other.y),
    {
        Vec2 { x: self.x.wrapping_sub(other.x), y: self.y.wrapping_sub(other.y) }
    }

    /// Multiplies the two vectors coordinate by coordinate, wrapping around
    /// on overflow.
    pub fn wrapping_mul(&self, other: &Self) -> (r: Self)
        ensures
            r.x == vstd::wrapping::u8_specs::wrapping_mul(self.x, other.x),
            r.y == vstd::wrapping::u8_specs::wrapping_mul(self.y, other.y),
    {
        Vec2 { x: self.x.wrapping_mul(other.x), y: self.y.wrapping_mul(other.y) }
    }

    /// Adds the two vectors coordinate by coordinate, saturating at the type
    /// bounds.
    pub fn saturating_add(&self, other: &Self) -> (r: Self)
        ensures
            r.x == if self.x + other.x > u8::MAX { u8::MAX } else { (self.x + other.x) as u8 },
            r.y == if self.y + other.y > u8::MAX { u8::MAX } else { (self.y + other.y) as u8 },
    {
        Vec2 { x: self.x.saturating_add(other.x), y: self.y.saturating_add(other.y) }
    }

    /// Subtracts the other vector coordinate by coordinate, saturating at
    /// the type bounds.
    pub fn saturating_sub(&self, other: &Self) -> (r: Self)
        ensures
            r.x == if self.x - other.x < 0 { 0u8 } else { (self.x - other.x) as u8 },
            r.y == if self.y - other.y < 0 { 0u8 } else { (self.y - other.y) as u8 },
    {
        Vec2 { x: self.x.saturating_sub(other.x), y: self.y.saturating_sub(other.y) }
    }

    /// Multiplies the two vectors coordinate by coordinate, saturating at
    /// the type bounds.
    pub fn saturating_mul(&self, other: &Self) -> (r: Self)
        ensures
            r.x == if self.x * other.x > u8::MAX { u8::MAX } else { (self.x * other.x) as u8 },
            r.y == if self.y * other.y > u8::MAX { u8::MAX } else { (self.y * other.y) as u8 },
    {
        let x = match self.x.checked_mul(other.x) {
            Some(v) => v,
            None => u8::MAX,
        };
        let y = match self.y.checked_mul(other.y) {
            Some(v) => v,
            None => u8::MAX,
        };
        Vec2 { x, y }
    }

    /// Adds the two vectors coordinate by coordinate, returning `None` if
    /// either coordinate overflows.
    pub fn checked_add(&self, other: &Self) -> (r: Option<Self>)
        ensures
            r == if self.x + other.x <= u8::MAX && self.y + other.y <= u8::MAX {
                Some(Vec2 { x: (self.x + other.x) as u8, y: (self.y + other.y) as u8 })
            } else {
                None::<Vec2<u8>>
            },
    {
        match (self.x.checked_add(other.x), self.y.checked_add(other.y)) {
            (Some(x), Some(y)) => Some(Vec2 { x, y }),
            _ => None,
        }
    }

    /// Subtracts the other vector coordinate by coordinate, returning `None`
    /// if either coordinate overflows.
    pub fn checked_sub(&self, other: &Self) -> (r: Option<Self>)
        ensures
            r == if self.x - other.x >= 0 && self.y - other.y >= 0 {
                Some(Vec2 { x: (self.x - other.x) as u8, y: (self.y - other.y) as u8 })
            } else {
                None::<Vec2<u8>>
            },
    {
        match (self.x.checked_sub(other.x), self.y.checked_sub(other.y)) {
            (Some(x), Some(y)) => Some(Vec2 { x, y }),
            _ => None,
        }
    }

    /// Multiplies the two vectors coordinate by coordinate, returning `None`
    /// if either coordinate overflows.
    pub fn checked_mul(&self, other: &Self) -> (r: Option<Self>)
        ensures
            r == if self.x * other.x <= u8::MAX && self.y * other.y <= u8::MAX {
                Some(Vec2 { x: (self.x * other.x) as u8, y: (self.y * other.y) as u8 })
            } else {
                None::<Vec2<u8>>
            },
    {
        match (self.x.checked_mul(other.x), self.y.checked_mul(other.y)) {
            (Some(x), Some(y)) => Some(Vec2 { x, y }),
            _ => None,
        }
    }

    /// Divides this vector by the other coordinate by coordinate, returning
    /// `None` if either divisor is zero.
    pub fn checked_div(&self, other: &Self) -> (r: Option<Self>)
        ensures
            r == if other.x != 0 && other.y != 0 {
                Some(Vec2 { x: (self.x as int / other.x as int) as u8,
                            y: (self.y as int / other.y as int) as u8 })
            } else {
                None::<Vec2<u8>>
            },
    {
        match (self.x.checked_div(other.x), self.y.checked_div(other.y)) {
            (Some(x), Some(y)) => Some(Vec2 { x, y }),
            _ => None,
        }
    }

    /// Takes the remainder of this vector by the other coordinate by
    /// coordinate, returning `None` if either divisor is zero.
    pub fn checked_rem(&self, other: &Self) -> (r: Option<Self>)
        ensures
            r == if other.x != 0 && other.y != 0 {
                Some(Vec2 { x: (self.x as int % other.x as int) as u8,
                            y: (self.y as int % other.y as int) as u8 })
            } else {
                None::<Vec2<u8>>
            },
    {
        match (self.x.checked_rem(other.x), self.y.checked_rem(other.y)) {
            (Some(x), Some(y)) => Some(Vec2 { x, y }),
            _ => None,
        }
    }
}

impl Vec2<i8> {
    /// Negates both coordinates, wrapping around on overflow.
    pub fn wrapping_neg(&self) -> (r: Self)
        ensures
            r.x == if self.x == i8::MIN { i8::MIN } else { (-self.x) as i8 },
            r.y == if self.y == i8::MIN { i8::MIN } else { (-self.y) as i8 },
    {
        let x = if self.x == i8::MIN { i8::MIN } else { -self.x };
        let y = if self.y == i8::MIN { i8::MIN } else { -self.y };
        Vec2 { x, y }
    }

    /// Negates both coordinates, returning `None` if either overflows.
    pub fn checked_neg(&self) -> (r: Option<Self>)
        ensures
            r == if self.x != i8::MIN && self.y != i8::MIN {
                Some(Vec2 { x: (-self.x) as i8, y: (-self.y) as i8 })
            } else {
                None::<Vec2<i8>>
            },
    {
        if self.x != i8::MIN && self.y != i8::MIN {
            Some(Vec2 { x: -self.x, y: -self.y })
        } else {
            None
        }
    }
}


/// Relies on `num`'s integer square root, `num::integer::Roots::sqrt`:
/// for a non-negative integer it returns the truncated principal square
/// root, the greatest integer whose square does not exceed the input.
#[verifier::external_body]
fn isqrt(x: i64) -> (r: i64)
    requires
        0 <= x,
    ensures
        0 <= r,
        r * r <= x,
        x < (r + 1) * (r + 1),
{
    num::integer::Roots::sqrt(&x)
}

impl Vec2<i64> {
    /// Computes the magnitude of the vector truncated to an integer: the
    /// greatest integer whose square does not exceed `x*x + y*y`.
    pub fn int_magnitude(self) -> (r: i64)
        requires
            self.x * self.x + self.y * self.y <= i64::MAX,
        ensures
            0 <= r,
            r * r <= self.x * self.x + self.y * self.y,
            self.x * self.x + self.y * self.y < (r + 1) * (r + 1),
    {
        proof {
            assert(self.x * self.x >= 0 && self.y * self.y >= 0) by (nonlinear_arith);
        }
        let sq = self.sqr_magnitude();
        isqrt(sq)
    }

    /// Computes the truncated integer magnitude of the vector, by
    /// reference.
    pub fn int_magnitude_ref(&self) -> (r: i64)
        requires
            self.x * self.x + self.y * self.y <= i64::MAX,
        ensures
            0 <= r,
            r * r <= self.x * self.x + self.y * self.y,
            self.x * self.x + self.y * self.y < (r + 1) * (r + 1),
    {
        self.int_magnitude()
    }

    /// Computes the truncated integer magnitude, returning `None` when
    /// the squared magnitude overflows.
    pub fn checked_int_mag(&self) -> (r: Option<i64>)
        ensures
            match r {
                Some(m) => 0 <= m
                    && m * m <= self.x * self.x + self.y * self.y
                    && self.x * self.x + self.y * self.y < (m + 1) * (m + 1),
                None => self.x * self.x + self.y * self.y > i64::MAX,
            },
    {
        match self.checked_sqr_mag() {
            Some(sq) => {
                proof {
                    assert(self.x * self.x >= 0 && self.y * self.y >= 0) by (nonlinear_arith);
                }
                Some(isqrt(sq))
            },
            None => {
                proof {
                    assert(self.x * self.x >= 0 && self.y * self.y >= 0) by (nonlinear_arith);
                }
                None
            },
        }
    }
}


/// Why a coordinate of a textual point failed to parse.
#[derive(Debug, Clone, Copy, PartialEq, Eq, Structural)]
pub enum CoordParseErr {
    /// The coordinate text is empty.
    Empty,
    /// The coordinate text holds a character that is no digit of the
    /// requested radix (or a stray sign).
    BadDigit,
    /// The numeral does not fit in the coordinate type.
    OutOfRange,
}

/// Error when parsing a point from text.
#[derive(Debug, Clone, Copy, PartialEq, Eq, Structural)]
pub enum FromStrRadixErr {
    /// The comma separating the two coordinates is missing.
    MissingSep,
    /// A coordinate could not be parsed; carries the axis it belongs to
    /// and the reason.
    BadCoord(Axis, CoordParseErr),
}

/// What parsing an optionally signed numeral in the given radix returns,
/// with failures collapsed to this library's parse-error kinds. The
/// result is a pure function of the characters and the radix.
pub uninterp spec fn spec_parse_radix(s: Seq<char>, radix: u32) -> Result<i64, CoordParseErr>;

/// Relies on `i64::from_str_radix`: parses an optionally signed numeral
/// in the given radix; the error arms only sort the failure kinds into
/// this library's own.
#[verifier::external_body]
fn parse_radix(s: &str, radix: u32) -> (r: Result<i64, CoordParseErr>)
    requires
        2 <= radix <= 36,
    ensures
        r == spec_parse_radix(s@, radix),
{
    match i64::from_str_radix(s, radix) {
        Ok(v) => Ok(v),
        Err(e) => Err(match e.kind() {
            core::num::IntErrorKind::Empty => CoordParseErr::Empty,
            core::num::IntErrorKind::InvalidDigit => CoordParseErr::BadDigit,
            core::num::IntErrorKind::PosOverflow => CoordParseErr::OutOfRange,
            core::num::IntErrorKind::NegOverflow => CoordParseErr::OutOfRange,
            _ => CoordParseErr::BadDigit,
        }),
    }
}

/// What trimming leading and trailing whitespace off the given characters
/// leaves; a pure function of the characters.
pub uninterp spec fn trimmed(s: Seq<char>) -> Seq<char>;

/// Relies on `str::trim`: removes leading and trailing whitespace.
#[verifier::external_body]
fn trim_str<'a>(s: &'a str) -> (r: &'a str)
    ensures
        r@ == trimmed(s@),
{
    s.trim()
}

impl Vec2<i64> {
    /// Parses a point from text of the shape `<x>,<y>`: the first comma
    /// separates the two coordinates, each coordinate is trimmed and read
    /// as an optionally signed numeral in the given radix. An error on
    /// the X coordinate takes priority over one on the Y coordinate.
    pub fn from_str_radix(input: &str, radix: u32) -> (r: Result<Vec2<i64>, FromStrRadixErr>)
        requires
            2 <= radix <= 36,
        ensures
            (forall|j: int| 0 <= j < input@.len() ==> input@[j] != ',')
                ==> r == Err::<Vec2<i64>, FromStrRadixErr>(FromStrRadixErr::MissingSep),
            forall|k: int| #![trigger input@[k]] 0 <= k < input@.len() && input@[k] == ','
                && (forall|j: int| 0 <= j < k ==> input@[j] != ',')
                ==> r == ({
                    let xs = trimmed(input@.subrange(0, k));
                    let ys = trimmed(input@.subrange(k + 1, input@.len() as int));
                    match spec_parse_radix(xs, radix) {
                        Ok(x) => match spec_parse_radix(ys, radix) {
                            Ok(y) => Ok::<Vec2<i64>, FromStrRadixErr>(Vec2 { x, y }),
                            Err(e) => Err(FromStrRadixErr::BadCoord(Axis::Y, e)),
                        },
                        Err(e) => Err(FromStrRadixErr::BadCoord(Axis::X, e)),
                    }
                }),
    {
        let n = input.unicode_len();
        let mut k: usize = 0;
        while k < n
            invariant
                2 <= radix <= 36,
                n == input@.len(),
                k <= n,
                forall|j: int| 0 <= j < k ==> input@[j] != ',',
            decreases n - k,
        {
            if input.get_char(k) == ',' {
                let xs = trim_str(input.substring_char(0, k));
                let ys = trim_str(input.substring_char(k + 1, n));
                let r = match parse_radix(xs, radix) {
                    Ok(x) => match parse_radix(ys, radix) {
                        Ok(y) => Ok(Vec2 { x, y }),
                        Err(e) => Err(FromStrRadixErr::BadCoord(Axis::Y, e)),
                    },
                    Err(e) => Err(FromStrRadixErr::BadCoord(Axis::X, e)),
                };
                proof {
                    assert forall|k2: int| 0 <= k2 < input@.len() && input@[k2] == ','
                        && (forall|j: int| 0 <= j < k2 ==> input@[j] != ',')
                        implies k2 == k by {
                        if k2 < k {
                            assert(input@[k2] != ',');
                        }
                        if k < k2 {
                            assert(input@[k as int] != ',');
                        }
                    }
                }
                return r;
            }
            k = k + 1;
        }
        Err(FromStrRadixErr::MissingSep)
    }
}


impl Vec2<i64> {
    /// Flips the Y coordinate over the line between rows `-1` and `0`,
    /// turning grid coordinates into human-friendly ones: the formula is
    /// `[x, y] -> [x, -1 - y]`, which is total on two's complement
    /// numbers.
    pub fn flip_y(self) -> (r: Vec2<i64>)
        ensures
            r.x == self.x,
            r.y == -1 - self.y,
    {
        Vec2 { x: self.x, y: -1 - self.y }
    }
}

impl Vec2<i8> {
    /// Flips the Y coordinate over the line between rows `-1` and `0`;
    /// the formula `[x, y] -> [x, -1 - y]` is total on two's complement
    /// numbers.
    pub fn flip_y(self) -> (r: Vec2<i8>)
        ensures
            r.x == self.x,
            r.y == -1 - self.y,
    {
        Vec2 { x: self.x, y: -1 - self.y }
    }
}

impl Vec2<u8> {
    /// Re-centers unsigned coordinates that stand for "excess of N"
    /// values: the given origin becomes zero, and the Y axis is flipped
    /// for human-friendly reading.
    pub fn center_origin_at(self, origin: &Vec2<u8>) -> (r: Vec2<i8>)
        ensures
            r.x == (vstd::wrapping::u8_specs::wrapping_sub(self.x, origin.x)).spec_cast_signed(),
            r.y == -1 - (vstd::wrapping::u8_specs::wrapping_sub(self.y, origin.y))
                .spec_cast_signed(),
    {
        let shifted = Vec2 {
            x: self.x.excess_to_signed(&origin.x),
            y: self.y.excess_to_signed(&origin.y),
        };
        shifted.flip_y()
    }

    /// Re-centers unsigned coordinates with half the type's value range
    /// as the new origin, flipping the Y axis for human-friendly reading.
    pub fn center_origin(self) -> (r: Vec2<i8>)
        ensures
            r.x == (vstd::wrapping::u8_specs::wrapping_sub(self.x, 128u8)).spec_cast_signed(),
            r.y == -1 - (vstd::wrapping::u8_specs::wrapping_sub(self.y, 128u8))
                .spec_cast_signed(),
    {
        let origin = Vec2 { x: <u8 as HalfExcess>::half_excess(), y: <u8 as HalfExcess>::half_excess() };
        self.center_origin_at(&origin)
    }
}

/// Division of machine integers truncating toward zero, computed on the
/// non-negative sides.
fn div_trunc(a: i64, b: i64) -> (r: i64)
    requires
        b != 0,
        a != i64::MIN,
        b != i64::MIN,
    ensures
        r == trunc_div(a as int, b as int),
{
    let pa = if a >= 0 { a } else { -a };
    let pb = if b >= 0 { b } else { -b };
    let q = pa / pb;
    proof {
        assert(q <= pa) by {
            vstd::arithmetic::div_mod::lemma_div_nonincreasing(pa as int, pb as int);
        }
    }
    if (a >= 0) == (b >= 0) {
        q
    } else {
        -q
    }
}

/// The absolute value of an integer.
pub open spec fn abs_int(a: int) -> int {
    if a < 0 { -a } else { a }
}

/// Division truncating toward zero, as the `/` operator of the machine
/// integer types computes it.
pub open spec fn trunc_div(a: int, b: int) -> int {
    if (a >= 0) == (b >= 0) {
        abs_int(a) / abs_int(b)
    } else {
        -(abs_int(a) / abs_int(b))
    }
}

} // verus!
