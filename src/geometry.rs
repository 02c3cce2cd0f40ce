//! Points and bounding boxes in font coordinates (the Y axis points up), and
//! the union of bounding boxes.
use vstd::prelude::*;

verus! {

/// A point, or a pair of extents, in font coordinates.
#[derive(Clone, Copy, PartialEq, Eq, Debug, Structural)]
pub struct Coord {
    pub x: i32,
    pub y: i32,
}

impl Coord {
    pub fn new(x: i32, y: i32) -> (r: Coord)
        ensures
            r == (Coord { x, y }),
    {
        Coord { x, y }
    }

    pub fn zero() -> (r: Coord)
        ensures
            r == (Coord { x: 0, y: 0 }),
    {
        Coord { x: 0, y: 0 }
    }
}

/// A rectangle given by its lower-left corner and its size.
#[derive(Clone, Copy, PartialEq, Eq, Debug, Structural)]
pub struct BoundingBox {
    pub offset: Coord,
    pub size: Coord,
}

pub open spec fn min(a: int, b: int) -> int {
    if a <= b {
        a
    } else {
        b
    }
}

pub open spec fn max(a: int, b: int) -> int {
    if a >= b {
        a
    } else {
        b
    }
}

impl BoundingBox {
    pub fn new(offset: Coord, size: Coord) -> (r: BoundingBox)
        ensures
            r == (BoundingBox { offset, size }),
    {
        BoundingBox { offset, size }
    }

    /// Both extents are non-negative.
    pub open spec fn valid(self) -> bool {
        self.size.x >= 0 && self.size.y >= 0
    }

    /// One of the extents is zero: the box covers no pixel.
    pub open spec fn is_empty(self) -> bool {
        self.size.x == 0 || self.size.y == 0
    }

    /// The pixel `(x, y)` lies in the box.
    pub open spec fn covers(self, x: int, y: int) -> bool {
        self.offset.x <= x < self.offset.x + self.size.x && self.offset.y <= y < self.offset.y
            + self.size.y
    }

    /// The box covers every pixel that `other` covers.
    pub open spec fn encloses(self, other: BoundingBox) -> bool {
        forall|x: int, y: int| #[trigger] other.covers(x, y) ==> self.covers(x, y)
    }

    /// The smallest box that covers both boxes, where an empty box counts
    /// for nothing: the other box is then the result as it is.
    pub open spec fn spec_union(self, other: BoundingBox) -> BoundingBox {
        if self.is_empty() {
            other
        } else if other.is_empty() {
            self
        } else {
            let left = min(self.offset.x as int, other.offset.x as int);
            let bottom = min(self.offset.y as int, other.offset.y as int);
            let right = max(self.offset.x + self.size.x, other.offset.x + other.size.x);
            let top = max(self.offset.y + self.size.y, other.offset.y + other.size.y);
            BoundingBox {
                offset: Coord { x: left as i32, y: bottom as i32 },
                size: Coord { x: (right - left) as i32, y: (top - bottom) as i32 },
            }
        }
    }

    /// The union is representable: every corner and extent fits in 32 bits.
    pub open spec fn union_fits(self, other: BoundingBox) -> bool {
        let left = min(self.offset.x as int, other.offset.x as int);
        let bottom = min(self.offset.y as int, other.offset.y as int);
        let right = max(self.offset.x + self.size.x, other.offset.x + other.size.x);
        let top = max(self.offset.y + self.size.y, other.offset.y + other.size.y);
        right - left <= i32::MAX && top - bottom <= i32::MAX
    }

    /// The union of two boxes (see `spec_union`).
    ///
    /// Each upper-right corner is `offset + size - (1, 1)`; the result spans
    /// from the smaller offsets to the larger upper-right corners.
    pub fn union(&self, other: &BoundingBox) -> (r: BoundingBox)
        requires
            self.valid(),
            other.valid(),
            self.is_empty() || other.is_empty() || self.union_fits(*other),
        ensures
            r == self.spec_union(*other),
            r.valid(),
    {
        if self.size.x == 0 || self.size.y == 0 {
            return *other;
        }
        if other.size.x == 0 || other.size.y == 0 {
            return *self;
        }
        let a_right = self.offset.x as i64 + self.size.x as i64 - 1;
        let a_top = self.offset.y as i64 + self.size.y as i64 - 1;
        let b_right = other.offset.x as i64 + other.size.x as i64 - 1;
        let b_top = other.offset.y as i64 + other.size.y as i64 - 1;
        let left = if self.offset.x <= other.offset.x {
            self.offset.x
        } else {
            other.offset.x
        };
        let bottom = if self.offset.y <= other.offset.y {
            self.offset.y
        } else {
            other.offset.y
        };
        let right = if a_right >= b_right {
            a_right
        } else {
            b_right
        };
        let top = if a_top >= b_top {
            a_top
        } else {
            b_top
        };
        BoundingBox {
            offset: Coord { x: left, y: bottom },
            size: Coord { x: (right - left as i64 + 1) as i32, y: (top - bottom as i64 + 1) as i32 },
        }
    }
}

/// An empty box is the identity of union, on either side.
pub proof fn lemma_union_identity(a: BoundingBox, empty: BoundingBox)
    requires
        !a.is_empty(),
        empty.is_empty(),
    ensures
        a.spec_union(empty) == a,
        empty.spec_union(a) == a,
{
}

/// The union of two boxes covers every pixel that either of them covers.
pub proof fn lemma_union_encloses(a: BoundingBox, b: BoundingBox)
    requires
        a.valid(),
        b.valid(),
        a.is_empty() || b.is_empty() || a.union_fits(b),
    ensures
        a.spec_union(b).encloses(a),
        a.spec_union(b).encloses(b),
{
}

} // verus!
