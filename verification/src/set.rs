//! A set of points in a plane, with fast straight-line neighbour queries
//! in the four cardinal directions.
//!
//! The set is a thin façade over [`SpatialMap`] with a zero-sized marker
//! as the associated data; membership is equivalent to the map's
//! `contains`.

use vstd::prelude::*;
use crate::coord::Vec2;
use crate::direc::Direction;
use crate::map::SpatialMap;

verus! {

/// A zero-sized marker stored as the data of every member point.
#[derive(Debug, Clone, Copy, PartialEq, Eq, Structural)]
struct Presence;

/// The set of points in a plane, holding every point in two index tables,
/// one per axis.
///
/// The underlying map stores its entries canonically, so the derived
/// equality compares sets by their members.
#[derive(Debug, PartialEq, Eq)]
pub struct SpatialSet {
    inner: SpatialMap<Presence>,
}

impl View for SpatialSet {
    type V = Set<Vec2<i64>>;

    /// The finite set of points this structure stands for.
    closed spec fn view(&self) -> Set<Vec2<i64>> {
        self.inner@.dom()
    }
}

/// Whether some point of the set lies on the open ray leaving `p` in
/// direction `d`.
pub open spec fn set_has_neighbour(s: Set<Vec2<i64>>, p: Vec2<i64>, d: Direction) -> bool {
    exists|q: Vec2<i64>| #[trigger] s.contains(q) && p.on_ray(d, q)
}

/// Whether `q` is the nearest point of the set on the open ray leaving
/// `p` in direction `d`.
pub open spec fn set_is_first_neighbour(
    s: Set<Vec2<i64>>,
    p: Vec2<i64>,
    d: Direction,
    q: Vec2<i64>,
) -> bool {
    &&& s.contains(q)
    &&& p.on_ray(d, q)
    &&& forall|q2: Vec2<i64>| #[trigger] s.contains(q2) && p.on_ray(d, q2)
        ==> p.ray_dist(d, q) <= p.ray_dist(d, q2)
}

/// What a sequence of ray points must look like: exactly the points of
/// the set on the ray leaving `p` in direction `d` (plus `p` itself for
/// an inclusive query), ordered from nearest to farthest.
pub open spec fn set_ray_ok(
    s: Set<Vec2<i64>>,
    p: Vec2<i64>,
    d: Direction,
    incl: bool,
    points: Seq<Vec2<i64>>,
) -> bool {
    &&& forall|a: int| 0 <= a < points.len() ==> {
        &&& s.contains(#[trigger] points[a])
        &&& (p.on_ray(d, points[a]) || (incl && points[a] == p))
    }
    &&& forall|a: int, c: int| 0 <= a < c < points.len()
        ==> p.ray_dist(d, #[trigger] points[a]) < p.ray_dist(d, #[trigger] points[c])
    &&& forall|q: Vec2<i64>| #[trigger] s.contains(q) && (p.on_ray(d, q) || (incl && q == p))
        ==> exists|a: int| 0 <= a < points.len() && (#[trigger] points[a]) == q
}

/// What a full enumeration of the set must look like: exactly its points,
/// strictly ordered by the given order.
pub open spec fn set_entries_ok(
    s: Set<Vec2<i64>>,
    points: Seq<Vec2<i64>>,
    lt: spec_fn(Vec2<i64>, Vec2<i64>) -> bool,
) -> bool {
    &&& forall|a: int| 0 <= a < points.len() ==> s.contains(#[trigger] points[a])
    &&& forall|a: int, c: int| 0 <= a < c < points.len()
        ==> lt(#[trigger] points[a], #[trigger] points[c])
    &&& forall|q: Vec2<i64>| #[trigger] s.contains(q)
        ==> exists|a: int| 0 <= a < points.len() && (#[trigger] points[a]) == q
}

/// Drops the marker data from a vector of map entries, keeping the points.
fn to_points(entries: &Vec<(Vec2<i64>, Presence)>) -> (r: Vec<Vec2<i64>>)
    ensures
        r@.len() == entries@.len(),
        forall|a: int| 0 <= a < r@.len() ==> (#[trigger] r@[a]) == entries@[a].0,
{
    let mut r: Vec<Vec2<i64>> = Vec::new();
    let mut i: usize = 0;
    while i < entries.len()
        invariant
            i <= entries@.len(),
            r@.len() == i,
            forall|a: int| 0 <= a < r@.len() ==> (#[trigger] r@[a]) == entries@[a].0,
        decreases entries@.len() - i,
    {
        let e = entries[i];
        r.push(e.0);
        i = i + 1;
    }
    r
}

impl Default for SpatialSet {
    /// Creates a new empty set.
    fn default() -> (r: Self)
        ensures
            r@ == Set::<Vec2<i64>>::empty(),
    {
        SpatialSet::new()
    }
}

impl SpatialSet {
    /// Creates a new empty set.
    pub fn new() -> (r: SpatialSet)
        ensures
            r@ == Set::<Vec2<i64>>::empty(),
    {
        let r = SpatialSet { inner: SpatialMap::new() };
        proof {
            assert(r@ =~= Set::<Vec2<i64>>::empty());
        }
        r
    }

    /// Tests whether the set is empty.
    pub fn is_empty(&self) -> (r: bool)
        ensures
            r == (self@ == Set::<Vec2<i64>>::empty()),
    {
        let r = self.inner.is_empty();
        proof {
            if r {
                assert(self@ =~= Set::<Vec2<i64>>::empty());
            } else {
                if self@ == Set::<Vec2<i64>>::empty() {
                    assert(self.inner@ =~= Map::<Vec2<i64>, Presence>::empty());
                }
            }
        }
        r
    }

    /// Returns how many points are stored in this set.
    pub fn len(&self) -> (r: usize)
        ensures
            r == self@.len(),
    {
        self.inner.len()
    }

    /// Tests whether the set contains the given point.
    pub fn contains(&self, point: &Vec2<i64>) -> (r: bool)
        ensures
            r == self@.contains(*point),
    {
        self.inner.contains(point)
    }

    /// Inserts the given point in the set. Returns whether the insertion
    /// actually happened, i.e. whether the point was new.
    pub fn insert(&mut self, point: Vec2<i64>) -> (r: bool)
        ensures
            final(self)@ == old(self)@.insert(point),
            r == !old(self)@.contains(point),
    {
        let r = self.inner.insert(point, Presence).is_none();
        proof {
            assert(self@ =~= old(self)@.insert(point));
        }
        r
    }

    /// Removes a point from the set. Returns whether the removal actually
    /// happened, i.e. whether the point was a member.
    pub fn remove(&mut self, point: &Vec2<i64>) -> (r: bool)
        ensures
            final(self)@ == old(self)@.remove(*point),
            r == old(self)@.contains(*point),
    {
        let r = self.inner.remove(point).is_some();
        proof {
            assert(self@ =~= old(self)@.remove(*point));
        }
        r
    }

    /// Returns an iterator over the members of the set on a straight line
    /// in the given direction, nearest first. The starting point is never
    /// included.
    pub fn neighbours(&self, point: &Vec2<i64>, direction: Direction) -> (r: Neighbours)
        ensures
            set_ray_ok(self@, *point, direction, false, r.remaining()),
    {
        let entries = self.inner.ray_entries(point, direction, false);
        let items = to_points(&entries);
        proof {
            assert forall|q: Vec2<i64>| #[trigger] self@.contains(q)
                && (point.on_ray(direction, q) || false)
                implies exists|a: int| 0 <= a < items@.len() && (#[trigger] items@[a]) == q by {
                let a = choose|a: int|
                    0 <= a < entries@.len() && (#[trigger] entries@[a]).0 == q;
                assert(items@[a] == q);
            }
        }
        let end = items.len();
        let r = Neighbours { items, front: 0, back: end };
        proof {
            assert(r.remaining() =~= r.items@);
        }
        r
    }

    /// Returns an iterator over the members of the set on a straight line
    /// in the given direction, nearest first, including the point itself
    /// as the first element when it is a member.
    pub fn neighbours_incl(&self, point: &Vec2<i64>, direction: Direction) -> (r: Neighbours)
        ensures
            set_ray_ok(self@, *point, direction, true, r.remaining()),
    {
        let entries = self.inner.ray_entries(point, direction, true);
        let items = to_points(&entries);
        proof {
            assert forall|q: Vec2<i64>| #[trigger] self@.contains(q)
                && (point.on_ray(direction, q) || q == *point)
                implies exists|a: int| 0 <= a < items@.len() && (#[trigger] items@[a]) == q by {
                let a = choose|a: int|
                    0 <= a < entries@.len() && (#[trigger] entries@[a]).0 == q;
                assert(items@[a] == q);
            }
        }
        let end = items.len();
        let r = Neighbours { items, front: 0, back: end };
        proof {
            assert(r.remaining() =~= r.items@);
        }
        r
    }

    /// Returns the nearest member of the set on a straight line in the
    /// given direction.
    pub fn first_neighbour(&self, point: &Vec2<i64>, direction: Direction)
        -> (r: Option<Vec2<i64>>)
        ensures
            match r {
                Some(q) => set_is_first_neighbour(self@, *point, direction, q),
                None => !set_has_neighbour(self@, *point, direction),
            },
    {
        let r = self.inner.first_neighbour(point, direction);
        proof {
            match r {
                Some(q) => {
                    assert forall|q2: Vec2<i64>| #[trigger] self@.contains(q2)
                        && point.on_ray(direction, q2)
                        implies point.ray_dist(direction, q)
                            <= point.ray_dist(direction, q2) by {
                        assert(self.inner@.contains_key(q2));
                    }
                },
                None => {
                    if set_has_neighbour(self@, *point, direction) {
                        let q = choose|q: Vec2<i64>|
                            #[trigger] self@.contains(q) && point.on_ray(direction, q);
                        assert(self.inner@.contains_key(q));
                        assert(crate::map::has_neighbour(self.inner@, *point, direction));
                    }
                },
            }
        }
        r
    }

    /// Returns the farthest member of the set on a straight line in the
    /// given direction.
    pub fn last_neighbour(&self, point: &Vec2<i64>, direction: Direction)
        -> (r: Option<Vec2<i64>>)
        ensures
            match r {
                Some(q) => self@.contains(q)
                    && point.on_ray(direction, q)
                    && forall|q2: Vec2<i64>| #[trigger] self@.contains(q2)
                        && point.on_ray(direction, q2)
                        ==> point.ray_dist(direction, q2) <= point.ray_dist(direction, q),
                None => !set_has_neighbour(self@, *point, direction),
            },
    {
        let r = self.inner.last_neighbour(point, direction);
        proof {
            match r {
                Some(q) => {
                    assert forall|q2: Vec2<i64>| #[trigger] self@.contains(q2)
                        && point.on_ray(direction, q2)
                        implies point.ray_dist(direction, q2)
                            <= point.ray_dist(direction, q) by {
                        assert(self.inner@.contains_key(q2));
                    }
                },
                None => {
                    if set_has_neighbour(self@, *point, direction) {
                        let q = choose|q: Vec2<i64>|
                            #[trigger] self@.contains(q) && point.on_ray(direction, q);
                        assert(self.inner@.contains_key(q));
                        assert(crate::map::has_neighbour(self.inner@, *point, direction));
                    }
                },
            }
        }
        r
    }

    /// Returns an iterator over all the points in the set, walking the
    /// rows: points with a lower Y first, and within one row points with
    /// a lower X first.
    pub fn rows(&self) -> (r: Rows)
        ensures
            set_entries_ok(self@, r.remaining(), |p: Vec2<i64>, q: Vec2<i64>|
                crate::map::row_order(p, q)),
    {
        let entries = self.inner.row_entries();
        let items = to_points(&entries);
        proof {
            assert forall|q: Vec2<i64>| #[trigger] self@.contains(q)
                implies exists|a: int| 0 <= a < items@.len() && (#[trigger] items@[a]) == q by {
                let a = choose|a: int|
                    0 <= a < entries@.len() && (#[trigger] entries@[a]).0 == q;
                assert(items@[a] == q);
            }
        }
        let end = items.len();
        let r = Rows { items, front: 0, back: end };
        proof {
            assert(r.remaining() =~= r.items@);
        }
        r
    }

    /// Returns an iterator over all the points in the set, walking the
    /// columns: points with a lower X first, and within one column points
    /// with a lower Y first.
    pub fn columns(&self) -> (r: Columns)
        ensures
            set_entries_ok(self@, r.remaining(), |p: Vec2<i64>, q: Vec2<i64>|
                crate::map::col_order(p, q)),
    {
        let entries = self.inner.col_entries();
        let items = to_points(&entries);
        proof {
            assert forall|q: Vec2<i64>| #[trigger] self@.contains(q)
                implies exists|a: int| 0 <= a < items@.len() && (#[trigger] items@[a]) == q by {
                let a = choose|a: int|
                    0 <= a < entries@.len() && (#[trigger] entries@[a]).0 == q;
                assert(items@[a] == q);
            }
        }
        let end = items.len();
        let r = Columns { items, front: 0, back: end };
        proof {
            assert(r.remaining() =~= r.items@);
        }
        r
    }
}

/// Iterator over the neighbours of a point in a given direction. See
/// [`SpatialSet::neighbours`] and [`SpatialSet::neighbours_incl`].
#[derive(Debug)]
pub struct Neighbours {
    items: Vec<Vec2<i64>>,
    front: usize,
    back: usize,
}

/// Iterator over the points of a set in row order. See
/// [`SpatialSet::rows`].
#[derive(Debug)]
pub struct Rows {
    items: Vec<Vec2<i64>>,
    front: usize,
    back: usize,
}

/// Iterator over the points of a set in column order. See
/// [`SpatialSet::columns`].
#[derive(Debug)]
pub struct Columns {
    items: Vec<Vec2<i64>>,
    front: usize,
    back: usize,
}

impl Neighbours {
    /// The points this iterator has yet to yield, front first.
    pub closed spec fn remaining(self) -> Seq<Vec2<i64>> {
        self.items@.subrange(self.front as int, self.back as int)
    }

    #[verifier::type_invariant]
    spec fn wf(self) -> bool {
        self.front <= self.back <= self.items@.len()
    }

    /// Yields the next point from the front, if any is left.
    pub fn next(&mut self) -> (r: Option<Vec2<i64>>)
        ensures
            match r {
                Some(q) => old(self).remaining().len() > 0
                    && q == old(self).remaining()[0]
                    && final(self).remaining() == old(self).remaining().skip(1),
                None => old(self).remaining().len() == 0
                    && final(self).remaining() == old(self).remaining(),
            },
    {
        proof {
            use_type_invariant(&*self);
        }
        if self.front < self.back {
            let q = self.items[self.front];
            self.front = self.front + 1;
            proof {
                assert(old(self).remaining().skip(1) =~= self.remaining());
            }
            Some(q)
        } else {
            None
        }
    }

    /// Yields the next point from the back, if any is left.
    pub fn next_back(&mut self) -> (r: Option<Vec2<i64>>)
        ensures
            match r {
                Some(q) => old(self).remaining().len() > 0
                    && q == old(self).remaining().last()
                    && final(self).remaining() == old(self).remaining().drop_last(),
                None => old(self).remaining().len() == 0
                    && final(self).remaining() == old(self).remaining(),
            },
    {
        proof {
            use_type_invariant(&*self);
        }
        if self.front < self.back {
            self.back = self.back - 1;
            let q = self.items[self.back];
            proof {
                assert(old(self).remaining().drop_last() =~= self.remaining());
            }
            Some(q)
        } else {
            None
        }
    }
}

impl Rows {
    /// The points this iterator has yet to yield, front first.
    pub closed spec fn remaining(self) -> Seq<Vec2<i64>> {
        self.items@.subrange(self.front as int, self.back as int)
    }

    #[verifier::type_invariant]
    spec fn wf(self) -> bool {
        self.front <= self.back <= self.items@.len()
    }

    /// Yields the next point from the front, if any is left.
    pub fn next(&mut self) -> (r: Option<Vec2<i64>>)
        ensures
            match r {
                Some(q) => old(self).remaining().len() > 0
                    && q == old(self).remaining()[0]
                    && final(self).remaining() == old(self).remaining().skip(1),
                None => old(self).remaining().len() == 0
                    && final(self).remaining() == old(self).remaining(),
            },
    {
        proof {
            use_type_invariant(&*self);
        }
        if self.front < self.back {
            let q = self.items[self.front];
            self.front = self.front + 1;
            proof {
                assert(old(self).remaining().skip(1) =~= self.remaining());
            }
            Some(q)
        } else {
            None
        }
    }

    /// Yields the next point from the back, if any is left.
    pub fn next_back(&mut self) -> (r: Option<Vec2<i64>>)
        ensures
            match r {
                Some(q) => old(self).remaining().len() > 0
                    && q == old(self).remaining().last()
                    && final(self).remaining() == old(self).remaining().drop_last(),
                None => old(self).remaining().len() == 0
                    && final(self).remaining() == old(self).remaining(),
            },
    {
        proof {
            use_type_invariant(&*self);
        }
        if self.front < self.back {
            self.back = self.back - 1;
            let q = self.items[self.back];
            proof {
                assert(old(self).remaining().drop_last() =~= self.remaining());
            }
            Some(q)
        } else {
            None
        }
    }
}

impl Columns {
    /// The points this iterator has yet to yield, front first.
    pub closed spec fn remaining(self) -> Seq<Vec2<i64>> {
        self.items@.subrange(self.front as int, self.back as int)
    }

    #[verifier::type_invariant]
    spec fn wf(self) -> bool {
        self.front <= self.back <= self.items@.len()
    }

    /// Yields the next point from the front, if any is left.
    pub fn next(&mut self) -> (r: Option<Vec2<i64>>)
        ensures
            match r {
                Some(q) => old(self).remaining().len() > 0
                    && q == old(self).remaining()[0]
                    && final(self).remaining() == old(self).remaining().skip(1),
                None => old(self).remaining().len() == 0
                    && final(self).remaining() == old(self).remaining(),
            },
    {
        proof {
            use_type_invariant(&*self);
        }
        if self.front < self.back {
            let q = self.items[self.front];
            self.front = self.front + 1;
            proof {
                assert(old(self).remaining().skip(1) =~= self.remaining());
            }
            Some(q)
        } else {
            None
        }
    }

    /// Yields the next point from the back, if any is left.
    pub fn next_back(&mut self) -> (r: Option<Vec2<i64>>)
        ensures
            match r {
                Some(q) => old(self).remaining().len() > 0
                    && q == old(self).remaining().last()
                    && final(self).remaining() == old(self).remaining().drop_last(),
                None => old(self).remaining().len() == 0
                    && final(self).remaining() == old(self).remaining(),
            },
    {
        proof {
            use_type_invariant(&*self);
        }
        if self.front < self.back {
            self.back = self.back - 1;
            let q = self.items[self.back];
            proof {
                assert(old(self).remaining().drop_last() =~= self.remaining());
            }
            Some(q)
        } else {
            None
        }
    }
}


/// Inserting a point and removing it again restores the membership state
/// the set had before, and in particular a following insertion of the
/// same point is an insertion of a new member again.
pub proof fn lemma_insert_remove_round_trip(s: Set<Vec2<i64>>, p: Vec2<i64>)
    ensures
        !s.insert(p).remove(p).contains(p),
        !s.contains(p) ==> s.insert(p).remove(p) == s,
        s.insert(p).remove(p).insert(p) == s.insert(p),
{
    if !s.contains(p) {
        assert(s.insert(p).remove(p) =~= s);
    }
    assert(s.insert(p).remove(p).insert(p) =~= s.insert(p));
}

} // verus!
