//! Rectangles of pixels on the screen.
use vstd::prelude::*;

verus! {

/// A rectangle of pixels: `width` columns from `x` on, `height` rows from `y`
/// on.
#[derive(Clone, Copy, Debug, PartialEq, Eq, Structural)]
pub struct Rect {
    pub x: u16,
    pub y: u16,
    pub width: u16,
    pub height: u16,
}

/// The smaller of two numbers.
pub open spec fn least(a: int, b: int) -> int {
    if a <= b {
        a
    } else {
        b
    }
}

/// The larger of two numbers.
pub open spec fn greatest(a: int, b: int) -> int {
    if a <= b {
        b
    } else {
        a
    }
}

fn min16(a: u16, b: u16) -> (r: u16)
    ensures
        r == least(a as int, b as int),
{
    if a <= b {
        a
    } else {
        b
    }
}

fn max16(a: u16, b: u16) -> (r: u16)
    ensures
        r == greatest(a as int, b as int),
{
    if a <= b {
        b
    } else {
        a
    }
}

impl Rect {
    /// Whether the pixel in column `x` and row `y` belongs to the rectangle.
    pub open spec fn contains(self, x: int, y: int) -> bool {
        self.x <= x < self.x + self.width && self.y <= y < self.y + self.height
    }

    /// Whether every pixel of the rectangle belongs to a `width` by `height`
    /// screen.
    pub open spec fn within(self, width: int, height: int) -> bool {
        self.x + self.width <= width && self.y + self.height <= height
    }

    /// Whether every pixel of `other` belongs to the rectangle.
    pub open spec fn holds(self, other: Rect) -> bool {
        forall|x: int, y: int| other.contains(x, y) ==> self.contains(x, y)
    }

    /// Whether the rectangle has no pixels.
    pub open spec fn spec_is_empty(self) -> bool {
        self.width == 0 || self.height == 0
    }

    /// The column just right of the rectangle. Columns are 16-bit numbers, so
    /// this stops at the last of them.
    pub open spec fn right(self) -> int {
        least(self.x + self.width, u16::MAX as int)
    }

    /// The row just below the rectangle, stopping at the last 16-bit number.
    pub open spec fn bottom(self) -> int {
        least(self.y + self.height, u16::MAX as int)
    }

    /// The rectangle with the given edges.
    pub open spec fn from_edges(left: int, top: int, right: int, bottom: int) -> Rect {
        Rect {
            x: left as u16,
            y: top as u16,
            width: (right - left) as u16,
            height: (bottom - top) as u16,
        }
    }

    /// The whole of a `width` by `height` screen.
    pub open spec fn spec_full(width: u16, height: u16) -> Rect {
        Rect { x: 0, y: 0, width, height }
    }

    /// The common part of two rectangles, if there is one.
    pub open spec fn spec_intersect(self, other: Rect) -> Option<Rect> {
        let left = greatest(self.x as int, other.x as int);
        let top = greatest(self.y as int, other.y as int);
        let right = least(self.right(), other.right());
        let bottom = least(self.bottom(), other.bottom());
        if left < right && top < bottom {
            Some(Rect::from_edges(left, top, right, bottom))
        } else {
            None
        }
    }

    /// The smallest rectangle that holds two rectangles, where one without
    /// pixels counts for nothing.
    pub open spec fn spec_union(self, other: Rect) -> Rect {
        if self.spec_is_empty() {
            other
        } else if other.spec_is_empty() {
            self
        } else {
            Rect::from_edges(
                least(self.x as int, other.x as int),
                least(self.y as int, other.y as int),
                greatest(self.right(), other.right()),
                greatest(self.bottom(), other.bottom()),
            )
        }
    }

    /// The whole of a `width` by `height` screen.
    pub fn full(width: u16, height: u16) -> (r: Self)
        ensures
            r == Rect::spec_full(width, height),
            r.x == 0 && r.y == 0 && r.width == width && r.height == height,
    {
        Rect { x: 0, y: 0, width, height }
    }

    /// Whether the rectangle has no pixels.
    pub fn is_empty(self) -> (r: bool)
        ensures
            r == self.spec_is_empty(),
    {
        self.width == 0 || self.height == 0
    }

    /// The common part of two rectangles, if there is one.
    pub fn intersect(self, other: Self) -> (r: Option<Self>)
        ensures
            r == self.spec_intersect(other),
    {
        let x0: u16 = max16(self.x, other.x);
        let y0: u16 = max16(self.y, other.y);
        let x1: u16 = min16(
            self.x.saturating_add(self.width),
            other.x.saturating_add(other.width),
        );
        let y1: u16 = min16(
            self.y.saturating_add(self.height),
            other.y.saturating_add(other.height),
        );
        if x1 > x0 && y1 > y0 {
            Some(Rect { x: x0, y: y0, width: x1 - x0, height: y1 - y0 })
        } else {
            None
        }
    }

    /// The smallest rectangle that holds two rectangles, where one without
    /// pixels counts for nothing.
    pub fn union(self, other: Self) -> (r: Self)
        ensures
            r == self.spec_union(other),
    {
        if self.is_empty() {
            return other;
        }
        if other.is_empty() {
            return self;
        }
        let x0: u16 = min16(self.x, other.x);
        let y0: u16 = min16(self.y, other.y);
        let x1: u16 = max16(
            self.x.saturating_add(self.width),
            other.x.saturating_add(other.width),
        );
        let y1: u16 = max16(
            self.y.saturating_add(self.height),
            other.y.saturating_add(other.height),
        );
        Rect { x: x0, y: y0, width: x1 - x0, height: y1 - y0 }
    }
}

/// The intersection holds exactly the pixels that both rectangles hold, on
/// every screen (whose columns and rows end before the last 16-bit number).
pub proof fn law_intersect_pixels(a: Rect, b: Rect, x: int, y: int)
    requires
        x < u16::MAX,
        y < u16::MAX,
    ensures
        (a.contains(x, y) && b.contains(x, y)) <==> (a.spec_intersect(b) matches Some(r)
            && r.contains(x, y)),
{
}

/// The whole of a screen holds exactly the pixels of the screen.
pub proof fn law_full_pixels(width: u16, height: u16, x: int, y: int)
    ensures
        Rect::spec_full(width, height).contains(x, y) <==> 0 <= x < width && 0 <= y < height,
        Rect::spec_full(width, height).within(width as int, height as int),
{
}

/// A rectangle is empty exactly if it holds no pixel.
pub proof fn law_empty_holds_nothing(a: Rect)
    ensures
        a.spec_is_empty() <==> forall|x: int, y: int| !a.contains(x, y),
{
    if !a.spec_is_empty() {
        assert(a.contains(a.x as int, a.y as int));
    }
}

/// The union of two rectangles with pixels is their bounding box: a column of
/// a screen is in it exactly if it is not left of both and not right of both,
/// and a row exactly if it is not above both and not below both. It ends before
/// the last 16-bit number. A rectangle without pixels counts for nothing.
pub proof fn law_union_pixels(a: Rect, b: Rect, x: int, y: int)
    requires
        x < u16::MAX,
        y < u16::MAX,
    ensures
        (a.width == 0 || a.height == 0) ==> a.spec_union(b) == b,
        !(a.width == 0 || a.height == 0) && (b.width == 0 || b.height == 0) ==> a.spec_union(b)
            == a,
        a.width > 0 && a.height > 0 && b.width > 0 && b.height > 0 ==> {
            let u = a.spec_union(b);
            &&& u.within(u16::MAX as int, u16::MAX as int)
            &&& u.x <= x < u.x + u.width <==> (a.x <= x || b.x <= x) && (x < a.x + a.width || x
                < b.x + b.width)
            &&& u.y <= y < u.y + u.height <==> (a.y <= y || b.y <= y) && (y < a.y + a.height || y
                < b.y + b.height)
            &&& (u.x == a.x || u.x == b.x) && u.x <= a.x && u.x <= b.x
            &&& (u.y == a.y || u.y == b.y) && u.y <= a.y && u.y <= b.y
        },
{
}

/// What two rectangles have in common does not depend on their order, is never
/// empty, and lies within any screen that one of them lies within.
pub proof fn law_intersect_shape(a: Rect, b: Rect, width: int, height: int)
    ensures
        a.spec_intersect(b) == b.spec_intersect(a),
        a.spec_intersect(b) matches Some(r) ==> {
            &&& !r.spec_is_empty()
            &&& r.width > 0 && r.height > 0
            &&& r.within(u16::MAX as int, u16::MAX as int)
            &&& b.within(width, height) ==> r.within(width, height)
        },
{
}

/// The union holds every pixel that one of the rectangles holds.
pub proof fn law_union_covers(a: Rect, b: Rect, x: int, y: int)
    requires
        x < u16::MAX,
        y < u16::MAX,
        a.contains(x, y) || b.contains(x, y),
    ensures
        a.spec_union(b).contains(x, y),
{
}

/// The union lies within every screen that both rectangles lie within.
pub proof fn law_union_within(a: Rect, b: Rect, width: int, height: int)
    requires
        width <= u16::MAX,
        height <= u16::MAX,
        a.within(width, height),
        b.within(width, height),
    ensures
        a.spec_union(b).within(width, height),
{
}

/// No smaller rectangle holds both: a rectangle that holds every pixel of two
/// rectangles with pixels holds every pixel of their union.
pub proof fn law_union_least(a: Rect, b: Rect, c: Rect, x: int, y: int)
    requires
        !a.spec_is_empty(),
        !b.spec_is_empty(),
        forall|i: int, j: int| a.contains(i, j) || b.contains(i, j) ==> c.contains(i, j),
        a.spec_union(b).contains(x, y),
    ensures
        c.contains(x, y),
{
    assert(a.contains(a.x as int, a.y as int));
    assert(a.contains(a.x + a.width - 1, a.y + a.height - 1));
    assert(b.contains(b.x as int, b.y as int));
    assert(b.contains(b.x + b.width - 1, b.y + b.height - 1));
}

} // verus!
