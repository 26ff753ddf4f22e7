//! A map from points of the plane to arbitrary data, with fast
//! straight-line neighbour queries in the four cardinal directions.
//!
//! The map keeps *two* index tables: an X-primary table (outer key `x`,
//! inner key `y`) and a Y-primary table (outer key `y`, inner key `x`).
//! Both always hold the same set of points with the same values; the
//! duplication makes a straight-line neighbour query a single bucket scan
//! whichever axis the query runs along.

use vstd::prelude::*;
use crate::coord::Vec2;
use crate::direc::Direction;
use crate::table::{
    table_wf, table_view, table_get, table_insert, table_remove, table_entries,
    table_tail, table_head_rev, Table,
};

verus! {

/// Map of points in a plane to arbitrary data, holding every point in two
/// index tables, one per axis.
///
/// The tables store their entries canonically (sorted by key), so the
/// derived equality compares maps by their contents.
#[derive(Debug, PartialEq, Eq)]
pub struct SpatialMap<V: Copy> {
    xs: Table<V>,
    ys: Table<V>,
}

impl<V: Copy> View for SpatialMap<V> {
    type V = Map<Vec2<i64>, V>;

    /// The finite map from points to values this structure stands for.
    closed spec fn view(&self) -> Map<Vec2<i64>, V> {
        Map::new(
            |p: Vec2<i64>| table_view(self.xs@).contains_key((p.x, p.y)),
            |p: Vec2<i64>| table_view(self.xs@)[(p.x, p.y)],
        )
    }
}

impl<V: Copy> Default for SpatialMap<V> {
    /// Creates a new empty map.
    fn default() -> (r: Self)
        ensures
            r@ == Map::<Vec2<i64>, V>::empty(),
    {
        SpatialMap::new()
    }
}

impl<V: Copy> SpatialMap<V> {
    /// The contents of the X-primary index table, keyed `(x, y)`.
    pub closed spec fn x_table(&self) -> Map<(i64, i64), V> {
        table_view(self.xs@)
    }

    /// The contents of the Y-primary index table, keyed `(y, x)`.
    pub closed spec fn y_table(&self) -> Map<(i64, i64), V> {
        table_view(self.ys@)
    }

    #[verifier::type_invariant]
    spec fn wf(self) -> bool {
        &&& table_wf(self.xs@)
        &&& table_wf(self.ys@)
        &&& forall|x: i64, y: i64|
            #![trigger table_view(self.xs@).contains_key((x, y))]
            #![trigger table_view(self.ys@).contains_key((y, x))]
            {
                &&& (table_view(self.xs@).contains_key((x, y))
                    <==> table_view(self.ys@).contains_key((y, x)))
                &&& (table_view(self.xs@).contains_key((x, y))
                    ==> table_view(self.xs@)[(x, y)] == table_view(self.ys@)[(y, x)])
            }
    }

    /// Creates a new empty map.
    pub fn new() -> (r: SpatialMap<V>)
        ensures
            r@ == Map::<Vec2<i64>, V>::empty(),
            r.x_table() == Map::<(i64, i64), V>::empty(),
            r.y_table() == Map::<(i64, i64), V>::empty(),
    {
        let r = SpatialMap { xs: Vec::new(), ys: Vec::new() };
        proof {
            crate::table::lemma_assoc_map_contains::<crate::table::Bucket<V>>(r.xs@, 0);
            assert(r.x_table() =~= Map::<(i64, i64), V>::empty()) by {
                assert forall|p: (i64, i64)| !table_view(r.xs@).contains_key(p) by {
                    crate::table::lemma_assoc_map_contains(r.xs@, p.0);
                }
            }
            assert(r.y_table() =~= Map::<(i64, i64), V>::empty()) by {
                assert forall|p: (i64, i64)| !table_view(r.ys@).contains_key(p) by {
                    crate::table::lemma_assoc_map_contains(r.ys@, p.0);
                }
            }
            assert(r@ =~= Map::<Vec2<i64>, V>::empty());
        }
        r
    }

    /// Returns whether the map is empty.
    pub fn is_empty(&self) -> (r: bool)
        ensures
            r == (self@ == Map::<Vec2<i64>, V>::empty()),
    {
        proof {
            use_type_invariant(self);
        }
        let r = self.xs.is_empty();
        proof {
            if r {
                assert(self@ =~= Map::<Vec2<i64>, V>::empty()) by {
                    assert forall|p: Vec2<i64>| !self@.contains_key(p) by {
                        crate::table::lemma_assoc_map_contains(self.xs@, p.x);
                    }
                }
            } else {
                let bucket = self.xs@[0].1;
                assert(bucket@.len() > 0);
                crate::table::lemma_assoc_map_index(self.xs@, 0);
                crate::table::lemma_assoc_map_index(bucket@, 0);
                let p = Vec2 { x: self.xs@[0].0, y: bucket@[0].0 };
                assert(self@.contains_key(p));
            }
        }
        r
    }

    /// Returns how many points the map holds.
    pub fn len(&self) -> (r: usize)
        ensures
            r == self@.dom().len(),
    {
        proof {
            use_type_invariant(self);
        }
        let entries = table_entries(&self.xs);
        proof {
            let keys = entries@.map_values(|e: ((i64, i64), V)| Vec2 { x: e.0.0, y: e.0.1 });
            assert(keys.no_duplicates()) by {
                assert forall|a: int, c: int| 0 <= a < keys.len() && 0 <= c < keys.len() && a != c
                    implies keys[a] != keys[c] by {
                    if a < c {
                        assert(crate::table::pair_lt(entries@[a].0, entries@[c].0));
                    } else {
                        assert(crate::table::pair_lt(entries@[c].0, entries@[a].0));
                    }
                }
            }
            keys.unique_seq_to_set();
            assert(keys.to_set() =~= self@.dom()) by {
                assert forall|p: Vec2<i64>| keys.to_set().contains(p)
                    implies self@.dom().contains(p) by {
                    let a = choose|a: int| 0 <= a < keys.len() && keys[a] == p;
                    assert(entries@[a].0 == (p.x, p.y));
                }
                assert forall|p: Vec2<i64>| self@.dom().contains(p)
                    implies keys.to_set().contains(p) by {
                    assert(table_view(self.xs@).contains_key((p.x, p.y)));
                    let a = choose|a: int|
                        0 <= a < entries@.len() && (#[trigger] entries@[a]).0 == (p.x, p.y);
                    assert(keys[a] == p);
                }
            }
        }
        entries.len()
    }

    /// Tests whether the map contains the given point. The result also
    /// reports on both index tables at once: a point is in the X-primary
    /// table under `(x, y)` exactly when it is in the Y-primary table
    /// under `(y, x)`, exactly when it is in the map, and all three agree
    /// on the value.
    pub fn contains(&self, point: &Vec2<i64>) -> (r: bool)
        ensures
            r == self@.contains_key(*point),
            r == self.x_table().contains_key((point.x, point.y)),
            r == self.y_table().contains_key((point.y, point.x)),
            r ==> self@[*point] == self.x_table()[(point.x, point.y)]
                && self@[*point] == self.y_table()[(point.y, point.x)],
    {
        proof {
            use_type_invariant(self);
        }
        table_get(&self.xs, point.x, point.y).is_some()
    }

    /// Attempts to get the data associated with the given point.
    pub fn get(&self, point: &Vec2<i64>) -> (r: Option<V>)
        ensures
            r == if self@.contains_key(*point) {
                Some(self@[*point])
            } else {
                None::<V>
            },
    {
        proof {
            use_type_invariant(self);
        }
        table_get(&self.xs, point.x, point.y)
    }

    /// Removes every entry from both index tables, keeping their
    /// allocated storage for reuse.
    pub fn clear(&mut self)
        ensures
            final(self)@ == Map::<Vec2<i64>, V>::empty(),
            final(self).x_table() == Map::<(i64, i64), V>::empty(),
            final(self).y_table() == Map::<(i64, i64), V>::empty(),
    {
        proof {
            use_type_invariant(&*self);
        }
        let mut tmp = SpatialMap::new();
        std::mem::swap(&mut tmp, self);
        let SpatialMap { xs: mut xs, ys: mut ys } = tmp;
        xs.clear();
        ys.clear();
        let next = SpatialMap { xs, ys };
        proof {
            assert(next.x_table() =~= Map::<(i64, i64), V>::empty()) by {
                assert forall|p: (i64, i64)| !table_view(next.xs@).contains_key(p) by {
                    crate::table::lemma_assoc_map_contains(next.xs@, p.0);
                }
            }
            assert(next.y_table() =~= Map::<(i64, i64), V>::empty()) by {
                assert forall|p: (i64, i64)| !table_view(next.ys@).contains_key(p) by {
                    crate::table::lemma_assoc_map_contains(next.ys@, p.0);
                }
            }
            assert(next@ =~= Map::<Vec2<i64>, V>::empty());
        }
        *self = next;
    }

    /// Inserts the given point with its associated data, into both index
    /// tables. A possible previous value is returned.
    pub fn insert(&mut self, point: Vec2<i64>, value: V) -> (r: Option<V>)
        ensures
            final(self)@ == old(self)@.insert(point, value),
            final(self).x_table() == old(self).x_table().insert((point.x, point.y), value),
            final(self).y_table() == old(self).y_table().insert((point.y, point.x), value),
            r == if old(self)@.contains_key(point) {
                Some(old(self)@[point])
            } else {
                None::<V>
            },
    {
        proof {
            use_type_invariant(&*self);
        }
        let ghost prev = *self;
        let mut tmp = SpatialMap::new();
        std::mem::swap(&mut tmp, self);
        let SpatialMap { xs: mut xs, ys: mut ys } = tmp;
        let r = table_insert(&mut xs, point.x, point.y, value);
        let _ = table_insert(&mut ys, point.y, point.x, value);
        let next = SpatialMap { xs, ys };
        proof {
            assert(next.wf()) by {
                assert forall|x: i64, y: i64|
                    #![trigger table_view(next.xs@).contains_key((x, y))]
                    #![trigger table_view(next.ys@).contains_key((y, x))]
                    {
                        &&& (table_view(next.xs@).contains_key((x, y))
                            <==> table_view(next.ys@).contains_key((y, x)))
                        &&& (table_view(next.xs@).contains_key((x, y))
                            ==> table_view(next.xs@)[(x, y)] == table_view(next.ys@)[(y, x)])
                    } by {
                    assert(table_view(prev.xs@).contains_key((x, y))
                        <==> table_view(prev.ys@).contains_key((y, x)));
                }
            }
            assert(next@ =~= prev@.insert(point, value));
        }
        *self = next;
        r
    }

    /// Creates an entry at the given point. Fails if there already is an
    /// entry for that point, leaving the stored value untouched. Returns
    /// whether the insertion happened.
    pub fn create(&mut self, point: Vec2<i64>, value: V) -> (r: bool)
        ensures
            r == !old(self)@.contains_key(point),
            final(self)@ == if r {
                old(self)@.insert(point, value)
            } else {
                old(self)@
            },
    {
        if self.contains(&point) {
            false
        } else {
            self.insert(point, value);
            true
        }
    }

    /// Updates the entry of an existing point with the given value,
    /// returning the previous one. Fails on a point that is not in the
    /// map, handing the rejected value back.
    pub fn update(&mut self, point: &Vec2<i64>, value: V) -> (r: Result<V, V>)
        ensures
            match r {
                Ok(prev) => old(self)@.contains_key(*point)
                    && prev == old(self)@[*point]
                    && final(self)@ == old(self)@.insert(*point, value),
                Err(rejected) => !old(self)@.contains_key(*point)
                    && rejected == value
                    && final(self)@ == old(self)@,
            },
    {
        if self.contains(point) {
            match self.insert(*point, value) {
                Some(prev) => Ok(prev),
                None => Err(value),
            }
        } else {
            Err(value)
        }
    }

    /// Removes the given point from both index tables, pruning emptied
    /// buckets. Returns the data the point was associated with, if any.
    pub fn remove(&mut self, point: &Vec2<i64>) -> (r: Option<V>)
        ensures
            final(self)@ == old(self)@.remove(*point),
            final(self).x_table() == old(self).x_table().remove((point.x, point.y)),
            final(self).y_table() == old(self).y_table().remove((point.y, point.x)),
            r == if old(self)@.contains_key(*point) {
                Some(old(self)@[*point])
            } else {
                None::<V>
            },
    {
        proof {
            use_type_invariant(&*self);
        }
        let ghost prev = *self;
        let mut tmp = SpatialMap::new();
        std::mem::swap(&mut tmp, self);
        let SpatialMap { xs: mut xs, ys: mut ys } = tmp;
        let r = table_remove(&mut xs, point.x, point.y);
        let _ = table_remove(&mut ys, point.y, point.x);
        let next = SpatialMap { xs, ys };
        proof {
            assert(next.wf()) by {
                assert forall|x: i64, y: i64|
                    #![trigger table_view(next.xs@).contains_key((x, y))]
                    #![trigger table_view(next.ys@).contains_key((y, x))]
                    {
                        &&& (table_view(next.xs@).contains_key((x, y))
                            <==> table_view(next.ys@).contains_key((y, x)))
                        &&& (table_view(next.xs@).contains_key((x, y))
                            ==> table_view(next.xs@)[(x, y)] == table_view(next.ys@)[(y, x)])
                    } by {
                    assert(table_view(prev.xs@).contains_key((x, y))
                        <==> table_view(prev.ys@).contains_key((y, x)));
                }
            }
            assert(next@ =~= prev@.remove(*point));
        }
        *self = next;
        r
    }
}


/// Whether some point of the map lies on the open ray leaving `p` in
/// direction `d`.
pub open spec fn has_neighbour<V>(m: Map<Vec2<i64>, V>, p: Vec2<i64>, d: Direction) -> bool {
    exists|q: Vec2<i64>| #[trigger] m.contains_key(q) && p.on_ray(d, q)
}

/// Whether `q` is the nearest point of the map on the open ray leaving
/// `p` in direction `d`.
pub open spec fn is_first_neighbour<V>(
    m: Map<Vec2<i64>, V>,
    p: Vec2<i64>,
    d: Direction,
    q: Vec2<i64>,
) -> bool {
    &&& m.contains_key(q)
    &&& p.on_ray(d, q)
    &&& forall|q2: Vec2<i64>| #[trigger] m.contains_key(q2) && p.on_ray(d, q2)
        ==> p.ray_dist(d, q) <= p.ray_dist(d, q2)
}

/// The nearest point of the map on the open ray leaving `p` in direction
/// `d`, if the ray holds any point of the map at all.
pub open spec fn spec_first_neighbour<V>(
    m: Map<Vec2<i64>, V>,
    p: Vec2<i64>,
    d: Direction,
) -> Option<Vec2<i64>> {
    if exists|q: Vec2<i64>| is_first_neighbour(m, p, d, q) {
        Some(choose|q: Vec2<i64>| is_first_neighbour(m, p, d, q))
    } else {
        None
    }
}

/// Two nearest neighbours on the same ray are the same point.
pub proof fn lemma_first_neighbour_unique<V>(
    m: Map<Vec2<i64>, V>,
    p: Vec2<i64>,
    d: Direction,
    q1: Vec2<i64>,
    q2: Vec2<i64>,
)
    requires
        is_first_neighbour(m, p, d, q1),
        is_first_neighbour(m, p, d, q2),
    ensures
        q1 == q2,
{
    assert(p.ray_dist(d, q1) == p.ray_dist(d, q2));
}

/// What a sequence of ray entries must look like: exactly the points of
/// the map on the ray leaving `p` in direction `d` (plus `p` itself for
/// an inclusive query), each with its value, ordered from nearest to
/// farthest.
pub open spec fn ray_entries_ok<V>(
    m: Map<Vec2<i64>, V>,
    p: Vec2<i64>,
    d: Direction,
    incl: bool,
    s: Seq<(Vec2<i64>, V)>,
) -> bool {
    &&& forall|a: int| 0 <= a < s.len() ==> {
        &&& m.contains_key((#[trigger] s[a]).0)
        &&& s[a].1 == m[s[a].0]
        &&& (p.on_ray(d, s[a].0) || (incl && s[a].0 == p))
    }
    &&& forall|a: int, c: int| 0 <= a < c < s.len()
        ==> p.ray_dist(d, (#[trigger] s[a]).0) < p.ray_dist(d, (#[trigger] s[c]).0)
    &&& forall|q: Vec2<i64>| #[trigger] m.contains_key(q) && (p.on_ray(d, q) || (incl && q == p))
        ==> exists|a: int| 0 <= a < s.len() && (#[trigger] s[a]).0 == q
}

/// Converts scan entries keyed by a Y coordinate into points on the
/// column of the given X coordinate.
fn to_points_on_column<V: Copy>(x: i64, entries: &Vec<(i64, V)>) -> (r: Vec<(Vec2<i64>, V)>)
    ensures
        r@.len() == entries@.len(),
        forall|a: int| 0 <= a < r@.len()
            ==> (#[trigger] r@[a]) == (Vec2 { x, y: entries@[a].0 }, entries@[a].1),
{
    let mut r: Vec<(Vec2<i64>, V)> = Vec::new();
    let mut i: usize = 0;
    while i < entries.len()
        invariant
            i <= entries@.len(),
            r@.len() == i,
            forall|a: int| 0 <= a < r@.len()
                ==> (#[trigger] r@[a]) == (Vec2 { x, y: entries@[a].0 }, entries@[a].1),
        decreases entries@.len() - i,
    {
        let e = entries[i];
        r.push((Vec2 { x, y: e.0 }, e.1));
        i = i + 1;
    }
    r
}

/// Converts scan entries keyed by an X coordinate into points on the row
/// of the given Y coordinate.
fn to_points_on_row<V: Copy>(y: i64, entries: &Vec<(i64, V)>) -> (r: Vec<(Vec2<i64>, V)>)
    ensures
        r@.len() == entries@.len(),
        forall|a: int| 0 <= a < r@.len()
            ==> (#[trigger] r@[a]) == (Vec2 { x: entries@[a].0, y }, entries@[a].1),
{
    let mut r: Vec<(Vec2<i64>, V)> = Vec::new();
    let mut i: usize = 0;
    while i < entries.len()
        invariant
            i <= entries@.len(),
            r@.len() == i,
            forall|a: int| 0 <= a < r@.len()
                ==> (#[trigger] r@[a]) == (Vec2 { x: entries@[a].0, y }, entries@[a].1),
        decreases entries@.len() - i,
    {
        let e = entries[i];
        r.push((Vec2 { x: e.0, y }, e.1));
        i = i + 1;
    }
    r
}

impl<V: Copy> SpatialMap<V> {
    /// Collects the entries on the ray leaving `point` in `direction`,
    /// nearest first, including `point` itself only for an inclusive
    /// query and only when it is in the map.
    pub(crate) fn ray_entries(&self, point: &Vec2<i64>, direction: Direction, incl: bool)
        -> (r: Vec<(Vec2<i64>, V)>)
        ensures
            ray_entries_ok(self@, *point, direction, incl, r@),
    {
        proof {
            use_type_invariant(self);
        }
        let p = *point;
        match direction {
            Direction::Up => {
                let scan = table_head_rev(&self.xs, point.x, point.y, incl);
                let r = to_points_on_column(point.x, &scan);
                proof {
                    assert forall|q: Vec2<i64>| #[trigger] self@.contains_key(q)
                        && (p.on_ray(direction, q) || (incl && q == p))
                        implies exists|a: int| 0 <= a < r@.len() && (#[trigger] r@[a]).0 == q by {
                        assert(table_view(self.xs@).contains_key((point.x, q.y)));
                        let a = choose|a: int|
                            0 <= a < scan@.len() && (#[trigger] scan@[a]).0 == q.y;
                        assert(r@[a].0 == q);
                    }
                }
                r
            },
            Direction::Down => {
                let scan = table_tail(&self.xs, point.x, point.y, incl);
                let r = to_points_on_column(point.x, &scan);
                proof {
                    assert forall|q: Vec2<i64>| #[trigger] self@.contains_key(q)
                        && (p.on_ray(direction, q) || (incl && q == p))
                        implies exists|a: int| 0 <= a < r@.len() && (#[trigger] r@[a]).0 == q by {
                        assert(table_view(self.xs@).contains_key((point.x, q.y)));
                        let a = choose|a: int|
                            0 <= a < scan@.len() && (#[trigger] scan@[a]).0 == q.y;
                        assert(r@[a].0 == q);
                    }
                }
                r
            },
            Direction::Left => {
                let scan = table_head_rev(&self.ys, point.y, point.x, incl);
                let r = to_points_on_row(point.y, &scan);
                proof {
                    assert forall|a: int| 0 <= a < r@.len() implies {
                        &&& self@.contains_key((#[trigger] r@[a]).0)
                        &&& r@[a].1 == self@[r@[a].0]
                        &&& (p.on_ray(direction, r@[a].0) || (incl && r@[a].0 == p))
                    } by {
                        assert(table_view(self.ys@).contains_key((point.y, scan@[a].0)));
                        assert(table_view(self.xs@).contains_key((scan@[a].0, point.y)));
                    }
                    assert forall|q: Vec2<i64>| #[trigger] self@.contains_key(q)
                        && (p.on_ray(direction, q) || (incl && q == p))
                        implies exists|a: int| 0 <= a < r@.len() && (#[trigger] r@[a]).0 == q by {
                        assert(table_view(self.xs@).contains_key((q.x, point.y)));
                        assert(table_view(self.ys@).contains_key((point.y, q.x)));
                        let a = choose|a: int|
                            0 <= a < scan@.len() && (#[trigger] scan@[a]).0 == q.x;
                        assert(r@[a].0 == q);
                    }
                }
                r
            },
            Direction::Right => {
                let scan = table_tail(&self.ys, point.y, point.x, incl);
                let r = to_points_on_row(point.y, &scan);
                proof {
                    assert forall|a: int| 0 <= a < r@.len() implies {
                        &&& self@.contains_key((#[trigger] r@[a]).0)
                        &&& r@[a].1 == self@[r@[a].0]
                        &&& (p.on_ray(direction, r@[a].0) || (incl && r@[a].0 == p))
                    } by {
                        assert(table_view(self.ys@).contains_key((point.y, scan@[a].0)));
                        assert(table_view(self.xs@).contains_key((scan@[a].0, point.y)));
                    }
                    assert forall|q: Vec2<i64>| #[trigger] self@.contains_key(q)
                        && (p.on_ray(direction, q) || (incl && q == p))
                        implies exists|a: int| 0 <= a < r@.len() && (#[trigger] r@[a]).0 == q by {
                        assert(table_view(self.xs@).contains_key((q.x, point.y)));
                        assert(table_view(self.ys@).contains_key((point.y, q.x)));
                        let a = choose|a: int|
                            0 <= a < scan@.len() && (#[trigger] scan@[a]).0 == q.x;
                        assert(r@[a].0 == q);
                    }
                }
                r
            },
        }
    }
}


impl<V: Copy> SpatialMap<V> {
    /// Returns an iterator over the neighbours of the given point on a
    /// straight line in the given direction, nearest first. The starting
    /// point is never included. Each yielded point comes with its data.
    ///
    /// The yielded points are exactly the points of the map strictly past
    /// `point` along `direction`, strictly monotone along the axis of the
    /// direction: increasing for `Down` and `Right`, decreasing for `Up`
    /// and `Left`.
    pub fn neighbours(&self, point: &Vec2<i64>, direction: Direction) -> (r: Neighbours<V>)
        ensures
            ray_entries_ok(self@, *point, direction, false, r.remaining()),
    {
        let items = self.ray_entries(point, direction, false);
        let end = items.len();
        let r = Neighbours { items, front: 0, back: end };
        proof {
            assert(r.remaining() =~= r.items@);
        }
        r
    }

    /// Returns an iterator over the neighbours of the given point on a
    /// straight line in the given direction, nearest first, including the
    /// point itself as the first element when it is in the map.
    pub fn neighbours_incl(&self, point: &Vec2<i64>, direction: Direction) -> (r: Neighbours<V>)
        ensures
            ray_entries_ok(self@, *point, direction, true, r.remaining()),
    {
        let items = self.ray_entries(point, direction, true);
        let end = items.len();
        let r = Neighbours { items, front: 0, back: end };
        proof {
            assert(r.remaining() =~= r.items@);
        }
        r
    }

    /// Returns the nearest neighbour of the given point on a straight
    /// line in the given direction, with its data.
    pub fn first_neighbour_data(&self, point: &Vec2<i64>, direction: Direction)
        -> (r: Option<(Vec2<i64>, V)>)
        ensures
            match r {
                Some(e) => is_first_neighbour(self@, *point, direction, e.0)
                    && e.1 == self@[e.0]
                    && spec_first_neighbour(self@, *point, direction) == Some(e.0),
                None => !has_neighbour(self@, *point, direction)
                    && spec_first_neighbour(self@, *point, direction) is None,
            },
    {
        let items = self.ray_entries(point, direction, false);
        if items.len() > 0 {
            let e = items[0];
            proof {
                assert(is_first_neighbour(self@, *point, direction, e.0)) by {
                    assert forall|q2: Vec2<i64>| #[trigger] self@.contains_key(q2)
                        && point.on_ray(direction, q2)
                        implies point.ray_dist(direction, e.0)
                            <= point.ray_dist(direction, q2) by {
                        let a = choose|a: int|
                            0 <= a < items@.len() && (#[trigger] items@[a]).0 == q2;
                        if a > 0 {
                            assert(point.ray_dist(direction, items@[0].0)
                                < point.ray_dist(direction, items@[a].0));
                        }
                    }
                }
                let q2 = choose|q2: Vec2<i64>| is_first_neighbour(self@, *point, direction, q2);
                lemma_first_neighbour_unique(self@, *point, direction, e.0, q2);
            }
            Some(e)
        } else {
            proof {
                assert(!has_neighbour(self@, *point, direction)) by {
                    if has_neighbour(self@, *point, direction) {
                        let q = choose|q: Vec2<i64>|
                            #[trigger] self@.contains_key(q) && point.on_ray(direction, q);
                        let a = choose|a: int|
                            0 <= a < items@.len() && (#[trigger] items@[a]).0 == q;
                    }
                }
                if exists|q: Vec2<i64>| is_first_neighbour(self@, *point, direction, q) {
                    let q = choose|q: Vec2<i64>| is_first_neighbour(self@, *point, direction, q);
                    assert(self@.contains_key(q) && point.on_ray(direction, q));
                }
            }
            None
        }
    }

    /// Returns the nearest neighbour of the given point on a straight
    /// line in the given direction.
    pub fn first_neighbour(&self, point: &Vec2<i64>, direction: Direction)
        -> (r: Option<Vec2<i64>>)
        ensures
            r == spec_first_neighbour(self@, *point, direction),
            match r {
                Some(q) => is_first_neighbour(self@, *point, direction, q),
                None => !has_neighbour(self@, *point, direction),
            },
    {
        match self.first_neighbour_data(point, direction) {
            Some(e) => Some(e.0),
            None => None,
        }
    }

    /// Returns the farthest neighbour of the given point on a straight
    /// line in the given direction, with its data.
    pub fn last_neighbour_data(&self, point: &Vec2<i64>, direction: Direction)
        -> (r: Option<(Vec2<i64>, V)>)
        ensures
            match r {
                Some(e) => self@.contains_key(e.0)
                    && point.on_ray(direction, e.0)
                    && e.1 == self@[e.0]
                    && forall|q2: Vec2<i64>| #[trigger] self@.contains_key(q2)
                        && point.on_ray(direction, q2)
                        ==> point.ray_dist(direction, q2) <= point.ray_dist(direction, e.0),
                None => !has_neighbour(self@, *point, direction),
            },
    {
        let items = self.ray_entries(point, direction, false);
        if items.len() > 0 {
            let e = items[items.len() - 1];
            proof {
                assert forall|q2: Vec2<i64>| #[trigger] self@.contains_key(q2)
                    && point.on_ray(direction, q2)
                    implies point.ray_dist(direction, q2) <= point.ray_dist(direction, e.0) by {
                    let a = choose|a: int|
                        0 <= a < items@.len() && (#[trigger] items@[a]).0 == q2;
                    if a < items@.len() - 1 {
                        assert(point.ray_dist(direction, items@[a].0)
                            < point.ray_dist(direction, items@[items@.len() - 1].0));
                    }
                }
            }
            Some(e)
        } else {
            proof {
                assert(!has_neighbour(self@, *point, direction)) by {
                    if has_neighbour(self@, *point, direction) {
                        let q = choose|q: Vec2<i64>|
                            #[trigger] self@.contains_key(q) && point.on_ray(direction, q);
                        let a = choose|a: int|
                            0 <= a < items@.len() && (#[trigger] items@[a]).0 == q;
                    }
                }
            }
            None
        }
    }

    /// Returns the farthest neighbour of the given point on a straight
    /// line in the given direction.
    pub fn last_neighbour(&self, point: &Vec2<i64>, direction: Direction)
        -> (r: Option<Vec2<i64>>)
        ensures
            match r {
                Some(q) => self@.contains_key(q)
                    && point.on_ray(direction, q)
                    && forall|q2: Vec2<i64>| #[trigger] self@.contains_key(q2)
                        && point.on_ray(direction, q2)
                        ==> point.ray_dist(direction, q2) <= point.ray_dist(direction, q),
                None => !has_neighbour(self@, *point, direction),
            },
    {
        match self.last_neighbour_data(point, direction) {
            Some(e) => Some(e.0),
            None => None,
        }
    }

    /// Returns an iterator over all entries, walking the rows of the map:
    /// points with a lower Y first, and within one row points with a
    /// lower X first.
    pub fn rows(&self) -> (r: Rows<V>)
        ensures
            entries_ok(self@, r.remaining(), |p: Vec2<i64>, q: Vec2<i64>| row_order(p, q)),
    {
        let items = self.row_entries();
        let end = items.len();
        let r = Rows { items, front: 0, back: end };
        proof {
            assert(r.remaining() =~= r.items@);
        }
        r
    }

    /// Collects all entries of the map in row order.
    pub(crate) fn row_entries(&self) -> (items: Vec<(Vec2<i64>, V)>)
        ensures
            entries_ok(self@, items@, |p: Vec2<i64>, q: Vec2<i64>| row_order(p, q)),
    {
        proof {
            use_type_invariant(self);
        }
        let entries = table_entries(&self.ys);
        let mut items: Vec<(Vec2<i64>, V)> = Vec::new();
        let mut i: usize = 0;
        while i < entries.len()
            invariant
                i <= entries@.len(),
                items@.len() == i,
                forall|a: int| 0 <= a < items@.len()
                    ==> (#[trigger] items@[a])
                        == (Vec2 { x: entries@[a].0.1, y: entries@[a].0.0 }, entries@[a].1),
            decreases entries@.len() - i,
        {
            let e = entries[i];
            items.push((Vec2 { x: e.0.1, y: e.0.0 }, e.1));
            i = i + 1;
        }
        proof {
            assert forall|a: int| 0 <= a < items@.len() implies {
                &&& self@.contains_key((#[trigger] items@[a]).0)
                &&& items@[a].1 == self@[items@[a].0]
            } by {
                assert(table_view(self.ys@).contains_key(entries@[a].0));
                assert(table_view(self.xs@).contains_key((entries@[a].0.1, entries@[a].0.0)));
            }
            assert forall|q: Vec2<i64>| #[trigger] self@.contains_key(q)
                implies exists|a: int| 0 <= a < items@.len()
                    && (#[trigger] items@[a]).0 == q by {
                assert(table_view(self.xs@).contains_key((q.x, q.y)));
                assert(table_view(self.ys@).contains_key((q.y, q.x)));
                let a = choose|a: int|
                    0 <= a < entries@.len() && (#[trigger] entries@[a]).0 == (q.y, q.x);
                assert(items@[a].0 == q);
            }
        }
        items
    }

    /// Returns an iterator over all entries, walking the columns of the
    /// map: points with a lower X first, and within one column points
    /// with a lower Y first.
    pub fn columns(&self) -> (r: Columns<V>)
        ensures
            entries_ok(self@, r.remaining(), |p: Vec2<i64>, q: Vec2<i64>| col_order(p, q)),
    {
        let items = self.col_entries();
        let end = items.len();
        let r = Columns { items, front: 0, back: end };
        proof {
            assert(r.remaining() =~= r.items@);
        }
        r
    }

    /// Collects all entries of the map in column order.
    pub(crate) fn col_entries(&self) -> (items: Vec<(Vec2<i64>, V)>)
        ensures
            entries_ok(self@, items@, |p: Vec2<i64>, q: Vec2<i64>| col_order(p, q)),
    {
        proof {
            use_type_invariant(self);
        }
        let entries = table_entries(&self.xs);
        let mut items: Vec<(Vec2<i64>, V)> = Vec::new();
        let mut i: usize = 0;
        while i < entries.len()
            invariant
                i <= entries@.len(),
                items@.len() == i,
                forall|a: int| 0 <= a < items@.len()
                    ==> (#[trigger] items@[a])
                        == (Vec2 { x: entries@[a].0.0, y: entries@[a].0.1 }, entries@[a].1),
            decreases entries@.len() - i,
        {
            let e = entries[i];
            items.push((Vec2 { x: e.0.0, y: e.0.1 }, e.1));
            i = i + 1;
        }
        proof {
            assert forall|q: Vec2<i64>| #[trigger] self@.contains_key(q)
                implies exists|a: int| 0 <= a < items@.len()
                    && (#[trigger] items@[a]).0 == q by {
                assert(table_view(self.xs@).contains_key((q.x, q.y)));
                let a = choose|a: int|
                    0 <= a < entries@.len() && (#[trigger] entries@[a]).0 == (q.x, q.y);
                assert(items@[a].0 == q);
            }
        }
        items
    }
}

/// Order of the entries yielded by [`SpatialMap::rows`]: by Y coordinate
/// first, then by X coordinate.
pub open spec fn row_order(p: Vec2<i64>, q: Vec2<i64>) -> bool {
    p.y < q.y || (p.y == q.y && p.x < q.x)
}

/// Order of the entries yielded by [`SpatialMap::columns`]: by X
/// coordinate first, then by Y coordinate.
pub open spec fn col_order(p: Vec2<i64>, q: Vec2<i64>) -> bool {
    p.x < q.x || (p.x == q.x && p.y < q.y)
}

/// What a full enumeration of the map must look like: exactly the entries
/// of the map, strictly ordered by the given order.
pub open spec fn entries_ok<V>(
    m: Map<Vec2<i64>, V>,
    s: Seq<(Vec2<i64>, V)>,
    lt: spec_fn(Vec2<i64>, Vec2<i64>) -> bool,
) -> bool {
    &&& forall|a: int| 0 <= a < s.len() ==> {
        &&& m.contains_key((#[trigger] s[a]).0)
        &&& s[a].1 == m[s[a].0]
    }
    &&& forall|a: int, c: int| 0 <= a < c < s.len() ==> lt((#[trigger] s[a]).0, (#[trigger] s[c]).0)
    &&& forall|q: Vec2<i64>| #[trigger] m.contains_key(q)
        ==> exists|a: int| 0 <= a < s.len() && (#[trigger] s[a]).0 == q
}

/// Iterator over the neighbours of a point in a map. See
/// [`SpatialMap::neighbours`] and [`SpatialMap::neighbours_incl`].
#[derive(Debug)]
pub struct Neighbours<V: Copy> {
    items: Vec<(Vec2<i64>, V)>,
    front: usize,
    back: usize,
}

/// Iterator over the entries of a map in row order. See
/// [`SpatialMap::rows`].
#[derive(Debug)]
pub struct Rows<V: Copy> {
    items: Vec<(Vec2<i64>, V)>,
    front: usize,
    back: usize,
}

/// Iterator over the entries of a map in column order. See
/// [`SpatialMap::columns`].
#[derive(Debug)]
pub struct Columns<V: Copy> {
    items: Vec<(Vec2<i64>, V)>,
    front: usize,
    back: usize,
}

impl<V: Copy> Neighbours<V> {
    /// The entries this iterator has yet to yield, front first.
    pub closed spec fn remaining(self) -> Seq<(Vec2<i64>, V)> {
        self.items@.subrange(self.front as int, self.back as int)
    }

    #[verifier::type_invariant]
    spec fn wf(self) -> bool {
        self.front <= self.back <= self.items@.len()
    }

    /// Yields the next entry from the front, if any is left.
    pub fn next(&mut self) -> (r: Option<(Vec2<i64>, V)>)
        ensures
            match r {
                Some(e) => old(self).remaining().len() > 0
                    && e == old(self).remaining()[0]
                    && final(self).remaining() == old(self).remaining().skip(1),
                None => old(self).remaining().len() == 0
                    && final(self).remaining() == old(self).remaining(),
            },
    {
        proof {
            use_type_invariant(&*self);
        }
        if self.front < self.back {
            let e = self.items[self.front];
            self.front = self.front + 1;
            proof {
                assert(old(self).remaining().skip(1) =~= self.remaining());
            }
            Some(e)
        } else {
            None
        }
    }

    /// Yields the next entry from the back, if any is left.
    pub fn next_back(&mut self) -> (r: Option<(Vec2<i64>, V)>)
        ensures
            match r {
                Some(e) => old(self).remaining().len() > 0
                    && e == old(self).remaining().last()
                    && final(self).remaining() == old(self).remaining().drop_last(),
                None => old(self).remaining().len() == 0
                    && final(self).remaining() == old(self).remaining(),
            },
    {
        proof {
            use_type_invariant(&*self);
        }
        if self.front < self.back {
            self.back = self.back - 1;
            let e = self.items[self.back];
            proof {
                assert(old(self).remaining().drop_last() =~= self.remaining());
            }
            Some(e)
        } else {
            None
        }
    }
}

impl<V: Copy> Rows<V> {
    /// The entries this iterator has yet to yield, front first.
    pub closed spec fn remaining(self) -> Seq<(Vec2<i64>, V)> {
        self.items@.subrange(self.front as int, self.back as int)
    }

    #[verifier::type_invariant]
    spec fn wf(self) -> bool {
        self.front <= self.back <= self.items@.len()
    }

    /// Yields the next entry from the front, if any is left.
    pub fn next(&mut self) -> (r: Option<(Vec2<i64>, V)>)
        ensures
            match r {
                Some(e) => old(self).remaining().len() > 0
                    && e == old(self).remaining()[0]
                    && final(self).remaining() == old(self).remaining().skip(1),
                None => old(self).remaining().len() == 0
                    && final(self).remaining() == old(self).remaining(),
            },
    {
        proof {
            use_type_invariant(&*self);
        }
        if self.front < self.back {
            let e = self.items[self.front];
            self.front = self.front + 1;
            proof {
                assert(old(self).remaining().skip(1) =~= self.remaining());
            }
            Some(e)
        } else {
            None
        }
    }

    /// Yields the next entry from the back, if any is left.
    pub fn next_back(&mut self) -> (r: Option<(Vec2<i64>, V)>)
        ensures
            match r {
                Some(e) => old(self).remaining().len() > 0
                    && e == old(self).remaining().last()
                    && final(self).remaining() == old(self).remaining().drop_last(),
                None => old(self).remaining().len() == 0
                    && final(self).remaining() == old(self).remaining(),
            },
    {
        proof {
            use_type_invariant(&*self);
        }
        if self.front < self.back {
            self.back = self.back - 1;
            let e = self.items[self.back];
            proof {
                assert(old(self).remaining().drop_last() =~= self.remaining());
            }
            Some(e)
        } else {
            None
        }
    }
}

impl<V: Copy> Columns<V> {
    /// The entries this iterator has yet to yield, front first.
    pub closed spec fn remaining(self) -> Seq<(Vec2<i64>, V)> {
        self.items@.subrange(self.front as int, self.back as int)
    }

    #[verifier::type_invariant]
    spec fn wf(self) -> bool {
        self.front <= self.back <= self.items@.len()
    }

    /// Yields the next entry from the front, if any is left.
    pub fn next(&mut self) -> (r: Option<(Vec2<i64>, V)>)
        ensures
            match r {
                Some(e) => old(self).remaining().len() > 0
                    && e == old(self).remaining()[0]
                    && final(self).remaining() == old(self).remaining().skip(1),
                None => old(self).remaining().len() == 0
                    && final(self).remaining() == old(self).remaining(),
            },
    {
        proof {
            use_type_invariant(&*self);
        }
        if self.front < self.back {
            let e = self.items[self.front];
            self.front = self.front + 1;
            proof {
                assert(old(self).remaining().skip(1) =~= self.remaining());
            }
            Some(e)
        } else {
            None
        }
    }

    /// Yields the next entry from the back, if any is left.
    pub fn next_back(&mut self) -> (r: Option<(Vec2<i64>, V)>)
        ensures
            match r {
                Some(e) => old(self).remaining().len() > 0
                    && e == old(self).remaining().last()
                    && final(self).remaining() == old(self).remaining().drop_last(),
                None => old(self).remaining().len() == 0
                    && final(self).remaining() == old(self).remaining(),
            },
    {
        proof {
            use_type_invariant(&*self);
        }
        if self.front < self.back {
            self.back = self.back - 1;
            let e = self.items[self.back];
            proof {
                assert(old(self).remaining().drop_last() =~= self.remaining());
            }
            Some(e)
        } else {
            None
        }
    }
}


/// On a finite map, a ray that holds some point holds a nearest one.
pub proof fn lemma_min_on_ray_exists<V>(m: Map<Vec2<i64>, V>, p: Vec2<i64>, d: Direction)
    requires
        m.dom().finite(),
        has_neighbour(m, p, d),
    ensures
        exists|q: Vec2<i64>| is_first_neighbour(m, p, d, q),
        spec_first_neighbour(m, p, d) is Some,
{
    let cand = Set::new(|q: Vec2<i64>| m.contains_key(q) && p.on_ray(d, q));
    assert(cand.subset_of(m.dom()));
    vstd::set_lib::lemma_len_subset(cand, m.dom());
    let q0 = choose|q: Vec2<i64>| #[trigger] m.contains_key(q) && p.on_ray(d, q);
    assert(cand.contains(q0));
    assert(cand.len() > 0) by {
        if cand.len() == 0 {
            assert(cand =~= Set::<Vec2<i64>>::empty());
        }
    }
    let w = lemma_min_in_set(cand, p, d);
    assert(is_first_neighbour(m, p, d, w)) by {
        assert forall|q2: Vec2<i64>| #[trigger] m.contains_key(q2) && p.on_ray(d, q2)
            implies p.ray_dist(d, w) <= p.ray_dist(d, q2) by {
            assert(cand.contains(q2));
        }
    }
}

/// A finite non-empty set of points on a ray has a member nearest to the
/// ray's origin.
proof fn lemma_min_in_set(cand: Set<Vec2<i64>>, p: Vec2<i64>, d: Direction) -> (w: Vec2<i64>)
    requires
        cand.finite(),
        cand.len() > 0,
    ensures
        cand.contains(w),
        forall|q2: Vec2<i64>| #[trigger] cand.contains(q2)
            ==> p.ray_dist(d, w) <= p.ray_dist(d, q2),
    decreases cand.len(),
{
    let q0 = cand.choose();
    assert(cand.contains(q0));
    let rest = cand.remove(q0);
    if rest.len() == 0 {
        assert(rest =~= Set::<Vec2<i64>>::empty());
        assert forall|q2: Vec2<i64>| #[trigger] cand.contains(q2)
            implies p.ray_dist(d, q0) <= p.ray_dist(d, q2) by {
            if q2 != q0 {
                assert(rest.contains(q2));
            }
        }
        q0
    } else {
        let w1 = lemma_min_in_set(rest, p, d);
        if p.ray_dist(d, q0) <= p.ray_dist(d, w1) {
            assert forall|q2: Vec2<i64>| #[trigger] cand.contains(q2)
                implies p.ray_dist(d, q0) <= p.ray_dist(d, q2) by {
                if q2 != q0 {
                    assert(rest.contains(q2));
                }
            }
            q0
        } else {
            assert forall|q2: Vec2<i64>| #[trigger] cand.contains(q2)
                implies p.ray_dist(d, w1) <= p.ray_dist(d, q2) by {
                if q2 != q0 {
                    assert(rest.contains(q2));
                }
            }
            w1
        }
    }
}

/// A point with the nearest-neighbour properties is *the* first
/// neighbour.
pub proof fn lemma_first_neighbour_is<V>(
    m: Map<Vec2<i64>, V>,
    p: Vec2<i64>,
    d: Direction,
    w: Vec2<i64>,
)
    requires
        is_first_neighbour(m, p, d, w),
    ensures
        spec_first_neighbour(m, p, d) == Some(w),
{
    let q = choose|q: Vec2<i64>| is_first_neighbour(m, p, d, q);
    lemma_first_neighbour_unique(m, p, d, q, w);
}

/// A ray without points of the map has no first neighbour.
pub proof fn lemma_first_neighbour_absent<V>(m: Map<Vec2<i64>, V>, p: Vec2<i64>, d: Direction)
    requires
        !has_neighbour(m, p, d),
    ensures
        spec_first_neighbour(m, p, d) is None,
{
    if exists|q: Vec2<i64>| is_first_neighbour(m, p, d, q) {
        let q = choose|q: Vec2<i64>| is_first_neighbour(m, p, d, q);
        assert(m.contains_key(q) && p.on_ray(d, q));
    }
}

/// First neighbours depend on the key set of the map alone.
pub proof fn lemma_first_neighbour_same_dom<V, W>(
    m1: Map<Vec2<i64>, V>,
    m2: Map<Vec2<i64>, W>,
    p: Vec2<i64>,
    d: Direction,
)
    requires
        m1.dom() =~= m2.dom(),
    ensures
        spec_first_neighbour(m1, p, d) == spec_first_neighbour(m2, p, d),
{
    assert forall|q: Vec2<i64>| is_first_neighbour(m1, p, d, q)
        implies is_first_neighbour(m2, p, d, q) by {
        assert forall|q2: Vec2<i64>| #[trigger] m2.contains_key(q2) && p.on_ray(d, q2)
            implies p.ray_dist(d, q) <= p.ray_dist(d, q2) by {
            assert(m1.contains_key(q2));
        }
    }
    assert forall|q: Vec2<i64>| is_first_neighbour(m2, p, d, q)
        implies is_first_neighbour(m1, p, d, q) by {
        assert forall|q2: Vec2<i64>| #[trigger] m1.contains_key(q2) && p.on_ray(d, q2)
            implies p.ray_dist(d, q) <= p.ray_dist(d, q2) by {
            assert(m2.contains_key(q2));
        }
    }
    if exists|q: Vec2<i64>| is_first_neighbour(m1, p, d, q) {
        let q1 = choose|q: Vec2<i64>| is_first_neighbour(m1, p, d, q);
        lemma_first_neighbour_is(m2, p, d, q1);
        lemma_first_neighbour_is(m1, p, d, q1);
    } else {
        assert(!exists|q: Vec2<i64>| is_first_neighbour(m2, p, d, q));
    }
}

/// How the first neighbour of a point changes when a binding is added:
/// a new point on the ray takes the place of first neighbour when it is
/// nearer than the old one.
pub proof fn lemma_first_neighbour_insert<V>(
    m: Map<Vec2<i64>, V>,
    p: Vec2<i64>,
    v: V,
    a: Vec2<i64>,
    d: Direction,
)
    requires
        m.dom().finite(),
    ensures
        spec_first_neighbour(m.insert(p, v), a, d) == {
            let old_first = spec_first_neighbour(m, a, d);
            if a.on_ray(d, p) {
                match old_first {
                    Some(q) => if a.ray_dist(d, p) <= a.ray_dist(d, q) {
                        Some(p)
                    } else {
                        Some(q)
                    },
                    None => Some(p),
                }
            } else {
                old_first
            }
        },
{
    let m2 = m.insert(p, v);
    if has_neighbour(m, a, d) {
        lemma_min_on_ray_exists(m, a, d);
        let q = choose|q: Vec2<i64>| is_first_neighbour(m, a, d, q);
        assert(spec_first_neighbour(m, a, d) == Some(q));
        if a.on_ray(d, p) && a.ray_dist(d, p) <= a.ray_dist(d, q) {
            assert(is_first_neighbour(m2, a, d, p)) by {
                assert forall|q2: Vec2<i64>| #[trigger] m2.contains_key(q2) && a.on_ray(d, q2)
                    implies a.ray_dist(d, p) <= a.ray_dist(d, q2) by {
                    if q2 != p {
                        assert(m.contains_key(q2));
                    }
                }
            }
            lemma_first_neighbour_is(m2, a, d, p);
        } else {
            assert(is_first_neighbour(m2, a, d, q)) by {
                assert forall|q2: Vec2<i64>| #[trigger] m2.contains_key(q2) && a.on_ray(d, q2)
                    implies a.ray_dist(d, q) <= a.ray_dist(d, q2) by {
                    if q2 != p {
                        assert(m.contains_key(q2));
                    }
                }
            }
            lemma_first_neighbour_is(m2, a, d, q);
        }
    } else {
        lemma_first_neighbour_absent(m, a, d);
        if a.on_ray(d, p) {
            assert(is_first_neighbour(m2, a, d, p)) by {
                assert forall|q2: Vec2<i64>| #[trigger] m2.contains_key(q2) && a.on_ray(d, q2)
                    implies a.ray_dist(d, p) <= a.ray_dist(d, q2) by {
                    if q2 != p {
                        assert(m.contains_key(q2));
                    }
                }
            }
            lemma_first_neighbour_is(m2, a, d, p);
        } else {
            assert(!has_neighbour(m2, a, d)) by {
                if has_neighbour(m2, a, d) {
                    let q2 = choose|q2: Vec2<i64>|
                        #[trigger] m2.contains_key(q2) && a.on_ray(d, q2);
                    assert(m.contains_key(q2));
                }
            }
            lemma_first_neighbour_absent(m2, a, d);
        }
    }
}

/// How the first neighbour of a point changes when a binding is removed:
/// a removed first neighbour hands the role to the next point down the
/// ray, which is the removed point's own first neighbour.
pub proof fn lemma_first_neighbour_remove<V>(
    m: Map<Vec2<i64>, V>,
    p: Vec2<i64>,
    a: Vec2<i64>,
    d: Direction,
)
    requires
        m.dom().finite(),
    ensures
        spec_first_neighbour(m.remove(p), a, d) == {
            if spec_first_neighbour(m, a, d) == Some(p) {
                spec_first_neighbour(m, p, d)
            } else {
                spec_first_neighbour(m, a, d)
            }
        },
{
    let m2 = m.remove(p);
    if has_neighbour(m, a, d) {
        lemma_min_on_ray_exists(m, a, d);
        let q = choose|q: Vec2<i64>| is_first_neighbour(m, a, d, q);
        assert(spec_first_neighbour(m, a, d) == Some(q));
        if q == p {
            if has_neighbour(m, p, d) {
                lemma_min_on_ray_exists(m, p, d);
                let w = choose|w: Vec2<i64>| is_first_neighbour(m, p, d, w);
                assert(spec_first_neighbour(m, p, d) == Some(w));
                assert(w != p);
                assert(a.on_ray(d, w));
                assert(is_first_neighbour(m2, a, d, w)) by {
                    assert forall|q2: Vec2<i64>| #[trigger] m2.contains_key(q2)
                        && a.on_ray(d, q2)
                        implies a.ray_dist(d, w) <= a.ray_dist(d, q2) by {
                        assert(m.contains_key(q2));
                        assert(q2 != p);
                        assert(a.ray_dist(d, p) <= a.ray_dist(d, q2));
                        assert(a.ray_dist(d, p) != a.ray_dist(d, q2));
                        assert(p.on_ray(d, q2));
                        assert(p.ray_dist(d, w) <= p.ray_dist(d, q2));
                    }
                }
                lemma_first_neighbour_is(m2, a, d, w);
            } else {
                lemma_first_neighbour_absent(m, p, d);
                assert(!has_neighbour(m2, a, d)) by {
                    if has_neighbour(m2, a, d) {
                        let q2 = choose|q2: Vec2<i64>|
                            #[trigger] m2.contains_key(q2) && a.on_ray(d, q2);
                        assert(m.contains_key(q2));
                        assert(q2 != p);
                        assert(a.ray_dist(d, p) <= a.ray_dist(d, q2));
                        assert(a.ray_dist(d, p) != a.ray_dist(d, q2));
                        assert(p.on_ray(d, q2));
                        assert(has_neighbour(m, p, d));
                    }
                }
                lemma_first_neighbour_absent(m2, a, d);
            }
        } else {
            assert(is_first_neighbour(m2, a, d, q)) by {
                assert(m2.contains_key(q));
                assert forall|q2: Vec2<i64>| #[trigger] m2.contains_key(q2) && a.on_ray(d, q2)
                    implies a.ray_dist(d, q) <= a.ray_dist(d, q2) by {
                    assert(m.contains_key(q2));
                }
            }
            lemma_first_neighbour_is(m2, a, d, q);
        }
    } else {
        lemma_first_neighbour_absent(m, a, d);
        assert(!has_neighbour(m2, a, d)) by {
            if has_neighbour(m2, a, d) {
                let q2 = choose|q2: Vec2<i64>| #[trigger] m2.contains_key(q2) && a.on_ray(d, q2);
                assert(m.contains_key(q2));
            }
        }
        lemma_first_neighbour_absent(m2, a, d);
    }
}

} // verus!
