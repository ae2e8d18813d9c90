use vstd::prelude::*;

verus! {

/// An axis-aligned rectangle on the integer pixel grid.
///
/// It covers the columns `left .. left + width` and the rows
/// `top .. top + height`; a zero width or height makes it empty.
#[derive(Clone, Copy, Debug, PartialEq, Eq, Structural)]
pub struct Rect {
    pub left: i32,
    pub top: i32,
    pub width: u32,
    pub height: u32,
}

impl Rect {
    /// Last column covered (`left + width - 1`), meaningful when non-empty.
    pub open spec fn right_spec(self) -> int {
        self.left + self.width - 1
    }

    /// Last row covered (`top + height - 1`), meaningful when non-empty.
    pub open spec fn bottom_spec(self) -> int {
        self.top + self.height - 1
    }

    pub open spec fn is_empty_spec(self) -> bool {
        self.width == 0 || self.height == 0
    }

    /// Whether the pixel `(x, y)` lies inside the rectangle.
    pub open spec fn contains(self, x: int, y: int) -> bool {
        self.left <= x <= self.right_spec() && self.top <= y <= self.bottom_spec()
    }

    /// The rectangle shared by `self` and `other`: the larger of the two
    /// left and top edges, extended to the smaller of the two right and
    /// bottom edges, with a negative span clamped to zero.
    pub open spec fn intersect_spec(self, other: Rect) -> Rect {
        let left = if self.left >= other.left { self.left } else { other.left };
        let top = if self.top >= other.top { self.top } else { other.top };
        let right = if self.right_spec() <= other.right_spec() {
            self.right_spec()
        } else {
            other.right_spec()
        };
        let bottom = if self.bottom_spec() <= other.bottom_spec() {
            self.bottom_spec()
        } else {
            other.bottom_spec()
        };
        Rect {
            left,
            top,
            width: if right - left + 1 > 0 { (right - left + 1) as u32 } else { 0 },
            height: if bottom - top + 1 > 0 { (bottom - top + 1) as u32 } else { 0 },
        }
    }

    pub fn new(left: i32, top: i32, width: u32, height: u32) -> (r: Rect)
        ensures
            r == (Rect { left, top, width, height }),
    {
        Rect { left, top, width, height }
    }

    /// The last column covered (`left - 1` when the width is zero). Wider
    /// than `i32`, since `left + width - 1` may exceed that range.
    pub fn right(&self) -> (r: i64)
        ensures
            r == self.right_spec(),
    {
        self.left as i64 + self.width as i64 - 1
    }

    /// The last row covered (`top - 1` when the height is zero); see
    /// [`Rect::right`].
    pub fn bottom(&self) -> (r: i64)
        ensures
            r == self.bottom_spec(),
    {
        self.top as i64 + self.height as i64 - 1
    }

    pub fn is_empty(&self) -> (r: bool)
        ensures
            r == self.is_empty_spec(),
            r <==> !exists|x: int, y: int| self.contains(x, y),
    {
        if self.width == 0 || self.height == 0 {
            true
        } else {
            assert(self.contains(self.left as int, self.top as int));
            false
        }
    }

    /// The part of the plane covered by both rectangles.
    pub fn intersect(&self, other: &Rect) -> (r: Rect)
        ensures
            r == self.intersect_spec(*other),
            forall|x: int, y: int|
                #[trigger] r.contains(x, y) <==> self.contains(x, y) && other.contains(x, y),
    {
        let left = if self.left >= other.left { self.left } else { other.left };
        let top = if self.top >= other.top { self.top } else { other.top };
        let self_right = self.left as i64 + self.width as i64 - 1;
        let other_right = other.left as i64 + other.width as i64 - 1;
        let self_bottom = self.top as i64 + self.height as i64 - 1;
        let other_bottom = other.top as i64 + other.height as i64 - 1;
        let right = if self_right <= other_right { self_right } else { other_right };
        let bottom = if self_bottom <= other_bottom { self_bottom } else { other_bottom };
        let width: u32 = if right - left as i64 + 1 > 0 { (right - left as i64 + 1) as u32 } else { 0 };
        let height: u32 = if bottom - top as i64 + 1 > 0 { (bottom - top as i64 + 1) as u32 } else { 0 };
        Rect { left, top, width, height }
    }
}

/// Intersection does not depend on the order of its operands.
pub proof fn lemma_intersect_commutative(a: Rect, b: Rect)
    ensures
        a.intersect_spec(b) == b.intersect_spec(a),
{
}

/// Rectangles that share no pixel intersect in an empty rectangle.
pub proof fn lemma_intersect_disjoint_is_empty(a: Rect, b: Rect)
    requires
        forall|x: int, y: int| !(#[trigger] a.contains(x, y) && b.contains(x, y)),
    ensures
        a.intersect_spec(b).is_empty_spec(),
{
    let r = a.intersect_spec(b);
    if !r.is_empty_spec() {
        assert(a.contains(r.left as int, r.top as int) && b.contains(r.left as int, r.top as int));
    }
}

} // verus!
