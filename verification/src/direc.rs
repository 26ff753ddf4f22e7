//! The four cardinal directions of the plane, and values indexed by them.

use vstd::prelude::*;
use crate::axis::Axis;

verus! {

/// Basic direction in a plane.
///
/// The Y axis grows downward: `Up` decreases Y, `Down` increases Y,
/// `Left` decreases X and `Right` increases X.
#[derive(Debug, Clone, Copy, PartialEq, Eq, Hash, Structural)]
pub enum Direction {
    /// Direction up (towards negative Y).
    Up,
    /// Direction down (towards positive Y).
    Down,
    /// Direction left (towards negative X).
    Left,
    /// Direction right (towards positive X).
    Right,
}

impl Direction {
    /// The canonical iteration order of the directions:
    /// `Up`, `Down`, `Left`, `Right`.
    pub open spec fn all() -> Seq<Direction> {
        seq![Direction::Up, Direction::Down, Direction::Left, Direction::Right]
    }

    /// Iterator over all directions, in the canonical order.
    pub fn iter() -> (r: Iter)
        ensures
            r.remaining() == Direction::all(),
    {
        Iter { front: 0, back: 4 }
    }

    /// The direction that grows along the given axis
    /// (`X -> Right`, `Y -> Down`).
    pub open spec fn spec_from_axis_pos(axis: Axis) -> Direction {
        match axis {
            Axis::X => Direction::Right,
            Axis::Y => Direction::Down,
        }
    }

    /// Creates a direction from the given axis in the positive direction
    /// (i.e. `X -> Right` and `Y -> Down`).
    #[verifier::when_used_as_spec(spec_from_axis_pos)]
    pub fn from_axis_pos(axis: Axis) -> (r: Direction)
        ensures
            r == Direction::spec_from_axis_pos(axis),
    {
        match axis {
            Axis::X => Direction::Right,
            Axis::Y => Direction::Down,
        }
    }

    /// The direction that shrinks along the given axis
    /// (`X -> Left`, `Y -> Up`).
    pub open spec fn spec_from_axis_neg(axis: Axis) -> Direction {
        match axis {
            Axis::X => Direction::Left,
            Axis::Y => Direction::Up,
        }
    }

    /// Creates a direction from the given axis in the negative direction
    /// (i.e. `X -> Left` and `Y -> Up`).
    #[verifier::when_used_as_spec(spec_from_axis_neg)]
    pub fn from_axis_neg(axis: Axis) -> (r: Direction)
        ensures
            r == Direction::spec_from_axis_neg(axis),
    {
        match axis {
            Axis::X => Direction::Left,
            Axis::Y => Direction::Up,
        }
    }

    /// The axis on which the direction varies.
    pub open spec fn spec_axis(self) -> Axis {
        match self {
            Direction::Up | Direction::Down => Axis::Y,
            Direction::Left | Direction::Right => Axis::X,
        }
    }

    /// Axis on which the direction varies.
    #[verifier::when_used_as_spec(spec_axis)]
    pub fn axis(self) -> (r: Axis)
        ensures
            r == self.spec_axis(),
    {
        match self {
            Direction::Up | Direction::Down => Axis::Y,
            Direction::Left | Direction::Right => Axis::X,
        }
    }

    /// The opposite direction: the reflection through the origin.
    pub open spec fn spec_opposite(self) -> Direction {
        match self {
            Direction::Up => Direction::Down,
            Direction::Down => Direction::Up,
            Direction::Left => Direction::Right,
            Direction::Right => Direction::Left,
        }
    }

    /// Returns the opposite direction.
    #[verifier::when_used_as_spec(spec_opposite)]
    pub fn opposite(self) -> (r: Direction)
        ensures
            r == self.spec_opposite(),
    {
        match self {
            Direction::Up => Direction::Down,
            Direction::Down => Direction::Up,
            Direction::Left => Direction::Right,
            Direction::Right => Direction::Left,
        }
    }

    /// The direction a quarter turn clockwise from this one.
    pub open spec fn spec_rotate_clockwise(self) -> Direction {
        match self {
            Direction::Down => Direction::Left,
            Direction::Left => Direction::Up,
            Direction::Up => Direction::Right,
            Direction::Right => Direction::Down,
        }
    }

    /// Rotates the direction clockwise.
    #[verifier::when_used_as_spec(spec_rotate_clockwise)]
    pub fn rotate_clockwise(self) -> (r: Direction)
        ensures
            r == self.spec_rotate_clockwise(),
    {
        match self {
            Direction::Down => Direction::Left,
            Direction::Left => Direction::Up,
            Direction::Up => Direction::Right,
            Direction::Right => Direction::Down,
        }
    }

    /// The direction a quarter turn counter-clockwise from this one.
    pub open spec fn spec_rotate_countercw(self) -> Direction {
        match self {
            Direction::Left => Direction::Down,
            Direction::Down => Direction::Right,
            Direction::Right => Direction::Up,
            Direction::Up => Direction::Left,
        }
    }

    /// Rotates the direction counter-clockwise.
    #[verifier::when_used_as_spec(spec_rotate_countercw)]
    pub fn rotate_countercw(self) -> (r: Direction)
        ensures
            r == self.spec_rotate_countercw(),
    {
        match self {
            Direction::Left => Direction::Down,
            Direction::Down => Direction::Right,
            Direction::Right => Direction::Up,
            Direction::Up => Direction::Left,
        }
    }
}

/// Iterator over all four directions. See [`Direction::iter`].
#[derive(Debug, Clone, Copy)]
pub struct Iter {
    front: usize,
    back: usize,
}

impl Iter {
    /// The directions this iterator has yet to yield, front first.
    pub closed spec fn remaining(self) -> Seq<Direction> {
        Direction::all().subrange(self.front as int, self.back as int)
    }

    #[verifier::type_invariant]
    spec fn wf(self) -> bool {
        self.front <= self.back <= 4
    }

    /// Yields the next direction from the front, if any is left.
    pub fn next(&mut self) -> (r: Option<Direction>)
        ensures
            match r {
                Some(direction) => old(self).remaining().len() > 0
                    && direction == old(self).remaining()[0]
                    && final(self).remaining() == old(self).remaining().skip(1),
                None => old(self).remaining().len() == 0
                    && final(self).remaining() == old(self).remaining(),
            },
    {
        proof {
            use_type_invariant(&*self);
        }
        if self.front < self.back {
            let direction = if self.front == 0 {
                Direction::Up
            } else if self.front == 1 {
                Direction::Down
            } else if self.front == 2 {
                Direction::Left
            } else {
                Direction::Right
            };
            self.front = self.front + 1;
            proof {
                assert(old(self).remaining().skip(1) =~= self.remaining());
            }
            Some(direction)
        } else {
            None
        }
    }

    /// Yields the next direction from the back, if any is left.
    pub fn next_back(&mut self) -> (r: Option<Direction>)
        ensures
            match r {
                Some(direction) => old(self).remaining().len() > 0
                    && direction == old(self).remaining().last()
                    && final(self).remaining() == old(self).remaining().drop_last(),
                None => old(self).remaining().len() == 0
                    && final(self).remaining() == old(self).remaining(),
            },
    {
        proof {
            use_type_invariant(&*self);
        }
        if self.front < self.back {
            self.back = self.back - 1;
            let direction = if self.back == 0 {
                Direction::Up
            } else if self.back == 1 {
                Direction::Down
            } else if self.back == 2 {
                Direction::Left
            } else {
                Direction::Right
            };
            proof {
                assert(old(self).remaining().drop_last() =~= self.remaining());
            }
            Some(direction)
        } else {
            None
        }
    }
}

/// A vector written as a magnitude and a direction.
#[derive(Debug, Clone, Copy, PartialEq, Eq, Hash, Structural)]
pub struct DirecVector<T> {
    /// Magnitude, should be numeric.
    pub magnitude: T,
    /// Direction of the vector.
    pub direction: Direction,
}


impl DirecVector<i64> {
    /// Scales the magnitude of the vector by the given factor, keeping
    /// the direction; note that a zero vector keeps its direction, and a
    /// negated vector is not the positive vector of the opposite
    /// direction.
    pub fn scaled(&self, rhs: i64) -> (r: DirecVector<i64>)
        requires
            i64::MIN <= self.magnitude * rhs <= i64::MAX,
        ensures
            r.magnitude == self.magnitude * rhs,
            r.direction == self.direction,
    {
        DirecVector { magnitude: self.magnitude * rhs, direction: self.direction }
    }
}

/// A mapping from all directions to the given data.
#[derive(Debug, Clone, Copy, PartialEq, Eq, Hash, Structural)]
pub struct DirecMap<T> {
    /// Data associated with `Direction::Up`.
    pub up: T,
    /// Data associated with `Direction::Left`.
    pub left: T,
    /// Data associated with `Direction::Down`.
    pub down: T,
    /// Data associated with `Direction::Right`.
    pub right: T,
}

impl<T> DirecMap<T> {
    /// The entry associated with the given direction.
    pub open spec fn spec_get(&self, direction: Direction) -> T {
        match direction {
            Direction::Up => self.up,
            Direction::Left => self.left,
            Direction::Down => self.down,
            Direction::Right => self.right,
        }
    }

    /// The map with the entry of the given direction replaced.
    pub open spec fn spec_set(self, direction: Direction, data: T) -> DirecMap<T> {
        match direction {
            Direction::Up => DirecMap { up: data, ..self },
            Direction::Left => DirecMap { left: data, ..self },
            Direction::Down => DirecMap { down: data, ..self },
            Direction::Right => DirecMap { right: data, ..self },
        }
    }

    /// Creates a mapping from a function over directions.
    pub fn from_direcs<F: Fn(Direction) -> T>(map: F) -> (r: DirecMap<T>)
        requires
            forall|d: Direction| #[trigger] call_requires(map, (d,)),
        ensures
            call_ensures(map, (Direction::Up,), r.up),
            call_ensures(map, (Direction::Left,), r.left),
            call_ensures(map, (Direction::Down,), r.down),
            call_ensures(map, (Direction::Right,), r.right),
    {
        DirecMap {
            up: map(Direction::Up),
            left: map(Direction::Left),
            down: map(Direction::Down),
            right: map(Direction::Right),
        }
    }

    /// Creates a mapping that associates the same data with every direction.
    pub fn filled(data: T) -> (r: DirecMap<T>)
        where T: Copy,
        ensures
            r == (DirecMap { up: data, left: data, down: data, right: data }),
    {
        DirecMap { up: data, left: data, down: data, right: data }
    }

    /// Returns the entry associated with the given direction.
    pub fn get(&self, direction: Direction) -> (r: &T)
        ensures
            *r == self.spec_get(direction),
    {
        match direction {
            Direction::Up => &self.up,
            Direction::Left => &self.left,
            Direction::Down => &self.down,
            Direction::Right => &self.right,
        }
    }

    /// Replaces the entry associated with the given direction.
    pub fn set(&mut self, direction: Direction, data: T)
        ensures
            *final(self) == old(self).spec_set(direction, data),
    {
        match direction {
            Direction::Up => self.up = data,
            Direction::Left => self.left = data,
            Direction::Down => self.down = data,
            Direction::Right => self.right = data,
        }
    }
}

} // verus!
