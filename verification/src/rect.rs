//! Rectangles of the plane: an origin point and a size, with iteration
//! over their points by rows, by columns, and along the border.

use vstd::prelude::*;
use crate::coord::Vec2;

verus! {

/// A rectangle in a plane: the top-left point it starts at, and its
/// extent along each axis. A rectangle with a zero (or negative) extent
/// on either axis is empty.
#[derive(Debug, Clone, Copy, PartialEq, Eq, Hash, Structural)]
pub struct Rect {
    /// Starting top-left point.
    pub start: Vec2<i64>,
    /// Size at each dimension.
    pub size: Vec2<i64>,
}

impl Rect {
    /// Whether the rectangle's points all have representable coordinates:
    /// its sizes are not negative and its exclusive end does not leave
    /// the coordinate type.
    pub open spec fn sized_ok(self) -> bool {
        &&& 0 <= self.size.x
        &&& 0 <= self.size.y
        &&& self.start.x + self.size.x <= i64::MAX
        &&& self.start.y + self.size.y <= i64::MAX
    }

    /// Builds the rectangle covering the range from `start` (included) to
    /// `end` (excluded).
    pub fn from_range(start: Vec2<i64>, end: Vec2<i64>) -> (r: Rect)
        requires
            i64::MIN <= end.x - start.x <= i64::MAX,
            i64::MIN <= end.y - start.y <= i64::MAX,
        ensures
            r.start == start,
            r.size.x == end.x - start.x,
            r.size.y == end.y - start.y,
    {
        Rect { start, size: Vec2 { x: end.x - start.x, y: end.y - start.y } }
    }

    /// Tries to build the rectangle covering the range from `start`
    /// (included) to `end` (excluded); `None` if a size overflows.
    pub fn try_from_range(start: Vec2<i64>, end: Vec2<i64>) -> (r: Option<Rect>)
        ensures
            match r {
                Some(rect) => rect.start == start
                    && rect.size.x == end.x - start.x
                    && rect.size.y == end.y - start.y,
                None => !(i64::MIN <= end.x - start.x <= i64::MAX
                    && i64::MIN <= end.y - start.y <= i64::MAX),
            },
    {
        let sx = end.x.checked_sub(start.x)?;
        let sy = end.y.checked_sub(start.y)?;
        Some(Rect { start, size: Vec2 { x: sx, y: sy } })
    }

    /// Builds the rectangle covering the range from `start` to `end`,
    /// both included; an inverted range gives an empty rectangle.
    pub fn from_range_incl(start: Vec2<i64>, end: Vec2<i64>) -> (r: Rect)
        requires
            end.x - start.x + 1 <= i64::MAX,
            end.y - start.y + 1 <= i64::MAX,
        ensures
            r.start == start,
            r.size == if end.x < start.x || end.y < start.y {
                (Vec2 { x: 0i64, y: 0i64 })
            } else {
                (Vec2 { x: (end.x - start.x + 1) as i64, y: (end.y - start.y + 1) as i64 })
            },
    {
        if end.x < start.x || end.y < start.y {
            Rect { start, size: Vec2 { x: 0, y: 0 } }
        } else {
            Rect {
                start,
                size: Vec2 { x: end.x - start.x + 1, y: end.y - start.y + 1 },
            }
        }
    }

    /// Tries to build the rectangle covering the range from `start` to
    /// `end`, both included; `None` if a size overflows, and an empty
    /// rectangle for an inverted range.
    pub fn try_from_range_incl(start: Vec2<i64>, end: Vec2<i64>) -> (r: Option<Rect>)
        ensures
            match r {
                Some(rect) => rect.start == start
                    && rect.size == if end.x < start.x || end.y < start.y {
                        (Vec2 { x: 0i64, y: 0i64 })
                    } else {
                        (Vec2 {
                            x: (end.x - start.x + 1) as i64,
                            y: (end.y - start.y + 1) as i64,
                        })
                    },
                None => !(end.x < start.x || end.y < start.y)
                    && !(end.x - start.x + 1 <= i64::MAX && end.y - start.y + 1 <= i64::MAX),
            },
    {
        if end.x < start.x || end.y < start.y {
            Some(Rect { start, size: Vec2 { x: 0, y: 0 } })
        } else {
            let dx = end.x.checked_sub(start.x)?;
            let sx = dx.checked_add(1)?;
            let dy = end.y.checked_sub(start.y)?;
            let sy = dy.checked_add(1)?;
            Some(Rect { start, size: Vec2 { x: sx, y: sy } })
        }
    }

    /// Whether the rectangle is empty, covering no point at all.
    pub open spec fn spec_is_empty(&self) -> bool {
        self.size.x <= 0 || self.size.y <= 0
    }

    /// Returns whether the rectangle is empty (a size is zero).
    #[verifier::when_used_as_spec(spec_is_empty)]
    pub fn is_empty(&self) -> (r: bool)
        ensures
            r == self.spec_is_empty(),
    {
        self.size.x <= 0 || self.size.y <= 0
    }

    /// Returns the coordinates one unit past the end (bottom-right) of
    /// the rectangle, i.e. the end excluded from the range it covers.
    pub fn end(self) -> (r: Vec2<i64>)
        requires
            self.sized_ok(),
        ensures
            r.x == self.start.x + self.size.x,
            r.y == self.start.y + self.size.y,
    {
        Vec2 { x: self.start.x + self.size.x, y: self.start.y + self.size.y }
    }

    /// Returns the coordinates one unit past the end (bottom-right),
    /// without taking the rectangle.
    pub fn end_ref(&self) -> (r: Vec2<i64>)
        requires
            self.sized_ok(),
        ensures
            r.x == self.start.x + self.size.x,
            r.y == self.start.y + self.size.y,
    {
        Vec2 { x: self.start.x + self.size.x, y: self.start.y + self.size.y }
    }

    /// Whether the given point lies inside the rectangle.
    pub open spec fn spec_has_point(self, point: Vec2<i64>) -> bool {
        &&& self.start.x <= point.x < self.start.x + self.size.x
        &&& self.start.y <= point.y < self.start.y + self.size.y
    }

    /// Tests whether the given point is inside the rectangle.
    pub fn has_point(&self, point: Vec2<i64>) -> (r: bool)
        requires
            self.sized_ok(),
        ensures
            r == self.spec_has_point(point),
    {
        self.start.x <= point.x && point.x < self.start.x + self.size.x
            && self.start.y <= point.y && point.y < self.start.y + self.size.y
    }

    /// Tests whether two rectangles overlap in at least one point.
    pub fn overlaps(&self, other: &Rect) -> (r: bool)
        requires
            self.sized_ok(),
            other.sized_ok(),
        ensures
            r == exists|p: Vec2<i64>| self.spec_has_point(p) && #[trigger] other.spec_has_point(p),
    {
        let r = !self.is_empty() && !other.is_empty()
            && self.start.x < other.start.x + other.size.x
            && other.start.x < self.start.x + self.size.x
            && self.start.y < other.start.y + other.size.y
            && other.start.y < self.start.y + self.size.y;
        proof {
            if r {
                let px = if self.start.x >= other.start.x { self.start.x } else { other.start.x };
                let py = if self.start.y >= other.start.y { self.start.y } else { other.start.y };
                let p = Vec2 { x: px, y: py };
                assert(self.spec_has_point(p) && other.spec_has_point(p));
            }
        }
        r
    }

    /// The points of the rectangle in row order: Y grows from row to row,
    /// X grows within one row.
    pub open spec fn rows_seq(self) -> Seq<Vec2<i64>> {
        let w = self.size.x as int;
        let h = self.size.y as int;
        if w <= 0 || h <= 0 {
            Seq::empty()
        } else {
            Seq::new(
                (w * h) as nat,
                |i: int| Vec2 { x: (self.start.x + (i % w)) as i64, y: (self.start.y + (i / w)) as i64 },
            )
        }
    }

    /// The points of the rectangle in column order: X grows from column
    /// to column, Y grows within one column.
    pub open spec fn cols_seq(self) -> Seq<Vec2<i64>> {
        let w = self.size.x as int;
        let h = self.size.y as int;
        if w <= 0 || h <= 0 {
            Seq::empty()
        } else {
            Seq::new(
                (w * h) as nat,
                |i: int| Vec2 { x: (self.start.x + (i / h)) as i64, y: (self.start.y + (i % h)) as i64 },
            )
        }
    }

    /// The border points of the rectangle: the left column top to bottom,
    /// the right column top to bottom (when distinct from the left one),
    /// then the inner points of the top row left to right, and the inner
    /// points of the bottom row left to right (when the bottom row is
    /// distinct from the top one).
    pub open spec fn borders_seq(self) -> Seq<Vec2<i64>> {
        let w = self.size.x as int;
        let h = self.size.y as int;
        let x0 = self.start.x as int;
        let y0 = self.start.y as int;
        if w <= 0 || h <= 0 {
            Seq::empty()
        } else {
            let left = Seq::new(h as nat, |i: int| Vec2 { x: x0 as i64, y: (y0 + i) as i64 });
            let right = if w > 1 {
                Seq::new(h as nat, |i: int| Vec2 { x: (x0 + w - 1) as i64, y: (y0 + i) as i64 })
            } else {
                Seq::empty()
            };
            let inner = if w > 2 { (w - 2) as nat } else { 0 };
            let top = Seq::new(inner, |i: int| Vec2 { x: (x0 + 1 + i) as i64, y: y0 as i64 });
            let bottom = if h > 1 {
                Seq::new(inner, |i: int| Vec2 { x: (x0 + 1 + i) as i64, y: (y0 + h - 1) as i64 })
            } else {
                Seq::empty()
            };
            left + right + top + bottom
        }
    }

    /// Iterator over all points of this rectangle in row order.
    pub fn rows(&self) -> (r: RectRows)
        requires
            self.sized_ok(),
        ensures
            r.remaining() == self.rows_seq(),
    {
        let mut items: Vec<Vec2<i64>> = Vec::new();
        let w = self.size.x;
        let h = self.size.y;
        if w > 0 && h > 0 {
            let mut row: i64 = 0;
            while row < h
                invariant
                    0 < w && 0 < h,
                    w == self.size.x && h == self.size.y,
                    self.sized_ok(),
                    0 <= row <= h,
                    items@.len() == row * w,
                    row * w <= h * w,
                    forall|i: int| 0 <= i < items@.len()
                        ==> (#[trigger] items@[i]) == self.rows_seq()[i],
                decreases h - row,
            {
                let mut col: i64 = 0;
                proof {
                    assert((row + 1) * w <= h * w && row * w >= 0) by (nonlinear_arith)
                        requires 0 <= row < h && 0 < w;
                }
                while col < w
                    invariant
                        0 < w && 0 < h,
                        w == self.size.x && h == self.size.y,
                        self.sized_ok(),
                        0 <= row < h,
                        0 <= col <= w,
                        items@.len() == row * w + col,
                        row * w >= 0,
                        (row + 1) * w <= h * w,
                        forall|i: int| 0 <= i < items@.len()
                            ==> (#[trigger] items@[i]) == self.rows_seq()[i],
                    decreases w - col,
                {
                    proof {
                        assert(row * w + col < (row + 1) * w) by (nonlinear_arith)
                            requires 0 <= col < w;
                        vstd::arithmetic::div_mod::lemma_fundamental_div_mod_converse(
                            row * w + col,
                            w as int,
                            row as int,
                            col as int,
                        );
                    }
                    items.push(Vec2 { x: self.start.x + col, y: self.start.y + row });
                    col = col + 1;
                }
                proof {
                    assert((row + 1) * w == row * w + w) by (nonlinear_arith);
                }
                row = row + 1;
            }
            proof {
                assert(items@ =~= self.rows_seq());
            }
        } else {
            proof {
                assert(items@ =~= self.rows_seq());
            }
        }
        let end = items.len();
        let r = RectRows { items, front: 0, back: end };
        proof {
            assert(r.remaining() =~= r.items@);
        }
        r
    }

    /// Iterator over all points of this rectangle in column order.
    pub fn columns(&self) -> (r: RectColumns)
        requires
            self.sized_ok(),
        ensures
            r.remaining() == self.cols_seq(),
    {
        let mut items: Vec<Vec2<i64>> = Vec::new();
        let w = self.size.x;
        let h = self.size.y;
        if w > 0 && h > 0 {
            let mut col: i64 = 0;
            while col < w
                invariant
                    0 < w && 0 < h,
                    w == self.size.x && h == self.size.y,
                    self.sized_ok(),
                    0 <= col <= w,
                    items@.len() == col * h,
                    col * h <= w * h,
                    forall|i: int| 0 <= i < items@.len()
                        ==> (#[trigger] items@[i]) == self.cols_seq()[i],
                decreases w - col,
            {
                let mut row: i64 = 0;
                proof {
                    assert((col + 1) * h <= w * h && col * h >= 0) by (nonlinear_arith)
                        requires 0 <= col < w && 0 < h;
                }
                while row < h
                    invariant
                        0 < w && 0 < h,
                        w == self.size.x && h == self.size.y,
                        self.sized_ok(),
                        0 <= col < w,
                        0 <= row <= h,
                        items@.len() == col * h + row,
                        col * h >= 0,
                        (col + 1) * h <= w * h,
                        forall|i: int| 0 <= i < items@.len()
                            ==> (#[trigger] items@[i]) == self.cols_seq()[i],
                    decreases h - row,
                {
                    proof {
                        assert(col * h + row < (col + 1) * h) by (nonlinear_arith)
                            requires 0 <= row < h;
                        vstd::arithmetic::div_mod::lemma_fundamental_div_mod_converse(
                            col * h + row,
                            h as int,
                            col as int,
                            row as int,
                        );
                    }
                    items.push(Vec2 { x: self.start.x + col, y: self.start.y + row });
                    row = row + 1;
                }
                proof {
                    assert((col + 1) * h == col * h + h) by (nonlinear_arith);
                }
                col = col + 1;
            }
            proof {
                assert(items@ =~= self.cols_seq());
            }
        } else {
            proof {
                assert(items@ =~= self.cols_seq());
            }
        }
        let end = items.len();
        let r = RectColumns { items, front: 0, back: end };
        proof {
            assert(r.remaining() =~= r.items@);
        }
        r
    }

    /// Iterator over the border points of this rectangle: the left
    /// column, the right column, then the inner points of the top and
    /// bottom rows.
    pub fn borders(&self) -> (r: RectBorders)
        requires
            self.sized_ok(),
        ensures
            r.remaining() == self.borders_seq(),
    {
        let mut items: Vec<Vec2<i64>> = Vec::new();
        let w = self.size.x;
        let h = self.size.y;
        if w > 0 && h > 0 {
            let ghost target = self.borders_seq();
            let mut i: i64 = 0;
            while i < h
                invariant
                    0 < w && 0 < h,
                    w == self.size.x && h == self.size.y,
                    self.sized_ok(),
                    0 <= i <= h,
                    items@.len() == i,
                    forall|j: int| 0 <= j < items@.len()
                        ==> (#[trigger] items@[j])
                            == (Vec2 { x: self.start.x, y: (self.start.y + j) as i64 }),
                decreases h - i,
            {
                items.push(Vec2 { x: self.start.x, y: self.start.y + i });
                i = i + 1;
            }
            let ghost after_left = items@;
            if w > 1 {
                let right_x = self.start.x + (w - 1);
                let mut i2: i64 = 0;
                while i2 < h
                    invariant
                        0 < w && 0 < h,
                        w == self.size.x && h == self.size.y,
                        self.sized_ok(),
                        right_x == self.start.x + w - 1,
                        0 <= i2 <= h,
                        items@.len() == after_left.len() + i2,
                        forall|j: int| 0 <= j < after_left.len()
                            ==> (#[trigger] items@[j]) == after_left[j],
                        forall|j: int| after_left.len() <= j < items@.len()
                            ==> (#[trigger] items@[j]) == (Vec2 {
                                x: right_x,
                                y: (self.start.y + (j - after_left.len())) as i64,
                            }),
                    decreases h - i2,
                {
                    items.push(Vec2 { x: right_x, y: self.start.y + i2 });
                    i2 = i2 + 1;
                }
            }
            let ghost after_right = items@;
            if w > 2 {
                let mut i3: i64 = 1;
                while i3 < w - 1
                    invariant
                        2 < w && 0 < h,
                        w == self.size.x && h == self.size.y,
                        self.sized_ok(),
                        1 <= i3 <= w - 1,
                        items@.len() == after_right.len() + i3 - 1,
                        forall|j: int| 0 <= j < after_right.len()
                            ==> (#[trigger] items@[j]) == after_right[j],
                        forall|j: int| after_right.len() <= j < items@.len()
                            ==> (#[trigger] items@[j]) == (Vec2 {
                                x: (self.start.x + 1 + (j - after_right.len())) as i64,
                                y: self.start.y,
                            }),
                    decreases w - 1 - i3,
                {
                    items.push(Vec2 { x: self.start.x + i3, y: self.start.y });
                    i3 = i3 + 1;
                }
                if h > 1 {
                    let ghost after_top = items@;
                    let bottom_y = self.start.y + (h - 1);
                    let mut i4: i64 = 1;
                    while i4 < w - 1
                        invariant
                            2 < w && 1 < h,
                            w == self.size.x && h == self.size.y,
                            self.sized_ok(),
                            bottom_y == self.start.y + h - 1,
                            1 <= i4 <= w - 1,
                            items@.len() == after_top.len() + i4 - 1,
                            forall|j: int| 0 <= j < after_top.len()
                                ==> (#[trigger] items@[j]) == after_top[j],
                            forall|j: int| after_top.len() <= j < items@.len()
                                ==> (#[trigger] items@[j]) == (Vec2 {
                                    x: (self.start.x + 1 + (j - after_top.len())) as i64,
                                    y: bottom_y,
                                }),
                        decreases w - 1 - i4,
                    {
                        items.push(Vec2 { x: self.start.x + i4, y: bottom_y });
                        i4 = i4 + 1;
                    }
                }
            }
            proof {
                assert(items@ =~= target);
            }
        } else {
            proof {
                assert(items@ =~= self.borders_seq());
            }
        }
        let end = items.len();
        let r = RectBorders { items, front: 0, back: end };
        proof {
            assert(r.remaining() =~= r.items@);
        }
        r
    }
}

/// Iterator over the points of a rectangle in row order. See
/// [`Rect::rows`].
#[derive(Debug)]
pub struct RectRows {
    items: Vec<Vec2<i64>>,
    front: usize,
    back: usize,
}

/// Iterator over the points of a rectangle in column order. See
/// [`Rect::columns`].
#[derive(Debug)]
pub struct RectColumns {
    items: Vec<Vec2<i64>>,
    front: usize,
    back: usize,
}

/// Iterator over the border points of a rectangle. See [`Rect::borders`].
#[derive(Debug)]
pub struct RectBorders {
    items: Vec<Vec2<i64>>,
    front: usize,
    back: usize,
}

impl RectRows {
    /// The points this iterator has yet to yield, front first.
    pub closed spec fn remaining(self) -> Seq<Vec2<i64>> {
        self.items@.subrange(self.front as int, self.back as int)
    }

    #[verifier::type_invariant]
    spec fn wf(self) -> bool {
        self.front <= self.back <= self.items@.len()
    }

    /// Yields the next point from the front, if any is left.
    pub fn next(&mut self) -> (r: Option<Vec2<i64>>)
        ensures
            match r {
                Some(q) => old(self).remaining().len() > 0
                    && q == old(self).remaining()[0]
                    && final(self).remaining() == old(self).remaining().skip(1),
                None => old(self).remaining().len() == 0
                    && final(self).remaining() == old(self).remaining(),
            },
    {
        proof {
            use_type_invariant(&*self);
        }
        if self.front < self.back {
            let q = self.items[self.front];
            self.front = self.front + 1;
            proof {
                assert(old(self).remaining().skip(1) =~= self.remaining());
            }
            Some(q)
        } else {
            None
        }
    }

    /// Yields the next point from the back, if any is left.
    pub fn next_back(&mut self) -> (r: Option<Vec2<i64>>)
        ensures
            match r {
                Some(q) => old(self).remaining().len() > 0
                    && q == old(self).remaining().last()
                    && final(self).remaining() == old(self).remaining().drop_last(),
                None => old(self).remaining().len() == 0
                    && final(self).remaining() == old(self).remaining(),
            },
    {
        proof {
            use_type_invariant(&*self);
        }
        if self.front < self.back {
            self.back = self.back - 1;
            let q = self.items[self.back];
            proof {
                assert(old(self).remaining().drop_last() =~= self.remaining());
            }
            Some(q)
        } else {
            None
        }
    }
}

impl RectColumns {
    /// The points this iterator has yet to yield, front first.
    pub closed spec fn remaining(self) -> Seq<Vec2<i64>> {
        self.items@.subrange(self.front as int, self.back as int)
    }

    #[verifier::type_invariant]
    spec fn wf(self) -> bool {
        self.front <= self.back <= self.items@.len()
    }

    /// Yields the next point from the front, if any is left.
    pub fn next(&mut self) -> (r: Option<Vec2<i64>>)
        ensures
            match r {
                Some(q) => old(self).remaining().len() > 0
                    && q == old(self).remaining()[0]
                    && final(self).remaining() == old(self).remaining().skip(1),
                None => old(self).remaining().len() == 0
                    && final(self).remaining() == old(self).remaining(),
            },
    {
        proof {
            use_type_invariant(&*self);
        }
        if self.front < self.back {
            let q = self.items[self.front];
            self.front = self.front + 1;
            proof {
                assert(old(self).remaining().skip(1) =~= self.remaining());
            }
            Some(q)
        } else {
            None
        }
    }

    /// Yields the next point from the back, if any is left.
    pub fn next_back(&mut self) -> (r: Option<Vec2<i64>>)
        ensures
            match r {
                Some(q) => old(self).remaining().len() > 0
                    && q == old(self).remaining().last()
                    && final(self).remaining() == old(self).remaining().drop_last(),
                None => old(self).remaining().len() == 0
                    && final(self).remaining() == old(self).remaining(),
            },
    {
        proof {
            use_type_invariant(&*self);
        }
        if self.front < self.back {
            self.back = self.back - 1;
            let q = self.items[self.back];
            proof {
                assert(old(self).remaining().drop_last() =~= self.remaining());
            }
            Some(q)
        } else {
            None
        }
    }
}

impl RectBorders {
    /// The points this iterator has yet to yield, front first.
    pub closed spec fn remaining(self) -> Seq<Vec2<i64>> {
        self.items@.subrange(self.front as int, self.back as int)
    }

    #[verifier::type_invariant]
    spec fn wf(self) -> bool {
        self.front <= self.back <= self.items@.len()
    }

    /// Yields the next border point from the front, if any is left.
    pub fn next(&mut self) -> (r: Option<Vec2<i64>>)
        ensures
            match r {
                Some(q) => old(self).remaining().len() > 0
                    && q == old(self).remaining()[0]
                    && final(self).remaining() == old(self).remaining().skip(1),
                None => old(self).remaining().len() == 0
                    && final(self).remaining() == old(self).remaining(),
            },
    {
        proof {
            use_type_invariant(&*self);
        }
        if self.front < self.back {
            let q = self.items[self.front];
            self.front = self.front + 1;
            proof {
                assert(old(self).remaining().skip(1) =~= self.remaining());
            }
            Some(q)
        } else {
            None
        }
    }
}

} // verus!
