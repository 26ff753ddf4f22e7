//! The axes of the plane.

use vstd::prelude::*;

verus! {

/// The axes of a plane.
#[derive(Debug, Clone, Copy, PartialEq, Eq, Hash, Structural)]
pub enum Axis {
    /// The Y axis (changes vertically).
    Y,
    /// The X axis (changes horizontally).
    X,
}

impl Axis {
    /// The other axis: `Y` for `X` and `X` for `Y`.
    pub open spec fn spec_other(self) -> Axis {
        match self {
            Axis::Y => Axis::X,
            Axis::X => Axis::Y,
        }
    }

    /// Returns the axis perpendicular to this one.
    #[verifier::when_used_as_spec(spec_other)]
    pub fn other(self) -> (r: Axis)
        ensures
            r == self.spec_other(),
    {
        match self {
            Axis::Y => Axis::X,
            Axis::X => Axis::Y,
        }
    }

    /// The canonical iteration order of the axes: `Y`, then `X`.
    pub open spec fn all() -> Seq<Axis> {
        seq![Axis::Y, Axis::X]
    }

    /// Iterator over all axes, in the canonical order `Y`, `X`.
    pub fn iter() -> (r: Iter)
        ensures
            r.remaining() == Axis::all(),
    {
        Iter { front: 0, back: 2 }
    }
}

/// Iterator over all axes. See [`Axis::iter`].
#[derive(Debug, Clone, Copy)]
pub struct Iter {
    front: usize,
    back: usize,
}

impl Iter {
    /// The axes this iterator has yet to yield, front first.
    pub closed spec fn remaining(self) -> Seq<Axis> {
        Axis::all().subrange(self.front as int, self.back as int)
    }

    #[verifier::type_invariant]
    spec fn wf(self) -> bool {
        self.front <= self.back <= 2
    }

    /// Yields the next axis from the front, if any is left.
    pub fn next(&mut self) -> (r: Option<Axis>)
        ensures
            match r {
                Some(axis) => old(self).remaining().len() > 0
                    && axis == old(self).remaining()[0]
                    && final(self).remaining() == old(self).remaining().skip(1),
                None => old(self).remaining().len() == 0
                    && final(self).remaining() == old(self).remaining(),
            },
    {
        proof {
            use_type_invariant(&*self);
        }
        if self.front < self.back {
            let axis = if self.front == 0 {
                Axis::Y
            } else {
                Axis::X
            };
            self.front = self.front + 1;
            proof {
                assert(old(self).remaining().skip(1) =~= self.remaining());
            }
            Some(axis)
        } else {
            None
        }
    }

    /// Yields the next axis from the back, if any is left.
    pub fn next_back(&mut self) -> (r: Option<Axis>)
        ensures
            match r {
                Some(axis) => old(self).remaining().len() > 0
                    && axis == old(self).remaining().last()
                    && final(self).remaining() == old(self).remaining().drop_last(),
                None => old(self).remaining().len() == 0
                    && final(self).remaining() == old(self).remaining(),
            },
    {
        proof {
            use_type_invariant(&*self);
        }
        if self.front < self.back {
            self.back = self.back - 1;
            let axis = if self.back == 0 {
                Axis::Y
            } else {
                Axis::X
            };
            proof {
                assert(old(self).remaining().drop_last() =~= self.remaining());
            }
            Some(axis)
        } else {
            None
        }
    }
}

} // verus!
