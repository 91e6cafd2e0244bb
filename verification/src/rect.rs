//! Pixel rectangles: the regions that are repainted, clamped and sent out.

use vstd::prelude::*;

verus! {

/// A rectangle of pixels: columns `x .. x + w` of the rows `y .. y + h`.
#[derive(Debug, Clone, Copy, PartialEq, Eq, Structural)]
pub struct DirtyRect {
    pub x: i32,
    pub y: i32,
    pub w: i32,
    pub h: i32,
}

/// The smaller of two integers.
pub open spec fn least(a: int, b: int) -> int {
    if a <= b {
        a
    } else {
        b
    }
}

/// The larger of two integers.
pub open spec fn greatest(a: int, b: int) -> int {
    if a >= b {
        a
    } else {
        b
    }
}

impl DirtyRect {
    /// The first column right of the rectangle.
    pub open spec fn right(self) -> int {
        self.x + self.w
    }

    /// The first row below the rectangle.
    pub open spec fn bottom(self) -> int {
        self.y + self.h
    }

    /// Whether the pixel in column `px` of row `py` lies in the rectangle.
    pub open spec fn contains(self, px: int, py: int) -> bool {
        self.x <= px < self.right() && self.y <= py < self.bottom()
    }

    /// Both far edges are `i32` coordinates.
    pub open spec fn edges_fit(self) -> bool {
        i32::MIN <= self.right() <= i32::MAX && i32::MIN <= self.bottom() <= i32::MAX
    }

    /// The rectangle lies in an image of `width` by `height` pixels with its corner at the origin.
    pub open spec fn within(self, width: int, height: int) -> bool {
        &&& 0 <= self.x && 0 <= self.y && 0 <= self.w && 0 <= self.h
        &&& self.right() <= width && self.bottom() <= height
    }

    /// Whether the box around both rectangles has a width and a height that fit in `i32`.
    pub open spec fn union_fits(self, other: DirtyRect) -> bool {
        &&& greatest(self.right(), other.right()) - least(self.x as int, other.x as int) <= i32::MAX
        &&& greatest(self.bottom(), other.bottom()) - least(self.y as int, other.y as int)
            <= i32::MAX
    }

    /// The smallest rectangle around both.
    pub open spec fn bounding(self, other: DirtyRect) -> DirtyRect {
        let x = least(self.x as int, other.x as int);
        let y = least(self.y as int, other.y as int);
        DirtyRect {
            x: x as i32,
            y: y as i32,
            w: (greatest(self.right(), other.right()) - x) as i32,
            h: (greatest(self.bottom(), other.bottom()) - y) as i32,
        }
    }

    /// The union of two regions of which either may be empty (`None`): the box around both, the
    /// one that is there, or nothing.
    pub open spec fn joined(a: Option<DirtyRect>, b: Option<DirtyRect>) -> Option<DirtyRect> {
        match (a, b) {
            (Some(p), Some(q)) => Some(p.bounding(q)),
            (Some(p), None) => Some(p),
            (None, q) => q,
        }
    }

    /// Merges two regions, of which either may be missing, into the box around both.
    pub fn union_opt(a: Option<DirtyRect>, b: Option<DirtyRect>) -> (r: Option<DirtyRect>)
        requires
            a is Some && b is Some ==> {
                &&& a->0.edges_fit() && b->0.edges_fit()
                &&& 0 <= a->0.w && 0 <= a->0.h && 0 <= b->0.w && 0 <= b->0.h
                &&& a->0.union_fits(b->0)
            },
        ensures
            r == DirtyRect::joined(a, b),
    {
        match (a, b) {
            (Some(p), Some(q)) => {
                let x: i32 = if p.x <= q.x { p.x } else { q.x };
                let y: i32 = if p.y <= q.y { p.y } else { q.y };
                let pr: i32 = p.x + p.w;
                let qr: i32 = q.x + q.w;
                let pb: i32 = p.y + p.h;
                let qb: i32 = q.y + q.h;
                let right: i32 = if pr >= qr { pr } else { qr };
                let bottom: i32 = if pb >= qb { pb } else { qb };
                Some(DirtyRect { x, y, w: right - x, h: bottom - y })
            },
            (Some(p), None) => Some(p),
            (None, q) => q,
        }
    }
}

/// The part of `rect` that lies in `bounds`, if any pixel does.
pub open spec fn clamped(rect: DirtyRect, bounds: DirtyRect) -> Option<DirtyRect> {
    let x0 = greatest(rect.x as int, bounds.x as int);
    let y0 = greatest(rect.y as int, bounds.y as int);
    let x1 = least(rect.right(), bounds.right());
    let y1 = least(rect.bottom(), bounds.bottom());
    if x1 <= x0 || y1 <= y0 {
        None
    } else {
        Some(DirtyRect { x: x0 as i32, y: y0 as i32, w: (x1 - x0) as i32, h: (y1 - y0) as i32 })
    }
}

/// Clamps `rect` to `bounds`; `None` where nothing of it is left.
pub fn clamp_to(rect: DirtyRect, bounds: DirtyRect) -> (r: Option<DirtyRect>)
    requires
        rect.edges_fit(),
        bounds.edges_fit(),
    ensures
        r == clamped(rect, bounds),
{
    let x0: i32 = if rect.x >= bounds.x { rect.x } else { bounds.x };
    let y0: i32 = if rect.y >= bounds.y { rect.y } else { bounds.y };
    let rect_right: i32 = rect.x + rect.w;
    let bounds_right: i32 = bounds.x + bounds.w;
    let rect_bottom: i32 = rect.y + rect.h;
    let bounds_bottom: i32 = bounds.y + bounds.h;
    let x1: i32 = if rect_right <= bounds_right { rect_right } else { bounds_right };
    let y1: i32 = if rect_bottom <= bounds_bottom { rect_bottom } else { bounds_bottom };
    if x1 <= x0 || y1 <= y0 {
        None
    } else {
        Some(DirtyRect { x: x0, y: y0, w: x1 - x0, h: y1 - y0 })
    }
}

/// A pixel is left after clamping exactly if it was in both rectangles; `None` means that they
/// share none.
pub proof fn clamp_keeps_exactly_the_shared_pixels(
    rect: DirtyRect,
    bounds: DirtyRect,
    px: int,
    py: int,
)
    requires
        rect.edges_fit(),
        bounds.edges_fit(),
    ensures
        rect.contains(px, py) && bounds.contains(px, py) <==> (clamped(rect, bounds) is Some
            && clamped(rect, bounds)->0.contains(px, py)),
{
}

/// Clamping to the same bounds a second time changes nothing.
pub proof fn clamp_is_idempotent(rect: DirtyRect, bounds: DirtyRect)
    requires
        rect.edges_fit(),
        bounds.edges_fit(),
        clamped(rect, bounds) is Some,
    ensures
        clamped(clamped(rect, bounds)->0, bounds) == clamped(rect, bounds),
{
}

/// The union holds every pixel of both regions.
pub proof fn union_covers_both(a: Option<DirtyRect>, b: Option<DirtyRect>, px: int, py: int)
    requires
        a is Some && b is Some ==> a->0.union_fits(b->0),
        (a is Some && a->0.contains(px, py)) || (b is Some && b->0.contains(px, py)),
    ensures
        DirtyRect::joined(a, b) is Some,
        DirtyRect::joined(a, b)->0.contains(px, py),
{
}

/// An image that holds both regions holds their union.
pub proof fn union_stays_within(
    a: Option<DirtyRect>,
    b: Option<DirtyRect>,
    width: int,
    height: int,
)
    requires
        a is Some ==> a->0.within(width, height),
        b is Some ==> b->0.within(width, height),
        width <= i32::MAX,
        height <= i32::MAX,
    ensures
        DirtyRect::joined(a, b) is Some ==> DirtyRect::joined(a, b)->0.within(width, height),
        a is Some && b is Some ==> a->0.union_fits(b->0),
{
}

/// Region `u` is the smallest that holds the regions `a` and `b`, of which either may be empty
/// (`None`): each of its edges is an edge of one of them, and none lies further out.
pub open spec fn smallest_box(
    u: Option<DirtyRect>,
    a: Option<DirtyRect>,
    b: Option<DirtyRect>,
) -> bool {
    match (a, b) {
        (None, None) => u is None,
        (Some(p), None) => u == Some(p),
        (None, Some(q)) => u == Some(q),
        (Some(p), Some(q)) => {
            &&& u matches Some(r)
            &&& r.x <= p.x && r.x <= q.x && (r.x == p.x || r.x == q.x)
            &&& r.y <= p.y && r.y <= q.y && (r.y == p.y || r.y == q.y)
            &&& r.x + r.w >= p.x + p.w && r.x + r.w >= q.x + q.w
            &&& r.x + r.w == p.x + p.w || r.x + r.w == q.x + q.w
            &&& r.y + r.h >= p.y + p.h && r.y + r.h >= q.y + q.h
            &&& r.y + r.h == p.y + p.h || r.y + r.h == q.y + q.h
        },
    }
}

/// The union of two regions is the smallest region that holds both.
pub proof fn union_is_the_smallest_box(a: Option<DirtyRect>, b: Option<DirtyRect>)
    requires
        a is Some && b is Some ==> {
            &&& a->0.union_fits(b->0)
            &&& 0 <= a->0.w && 0 <= a->0.h && 0 <= b->0.w && 0 <= b->0.h
        },
    ensures
        smallest_box(DirtyRect::joined(a, b), a, b),
{
}

/// Clamping leaves a rectangle with at least one pixel, or nothing.
pub proof fn clamping_leaves_no_empty_rectangle(rect: DirtyRect, bounds: DirtyRect)
    requires
        rect.edges_fit(),
        bounds.edges_fit(),
    ensures
        clamped(rect, bounds) matches Some(r) ==> r.w > 0 && r.h > 0,
{
}

} // verus!
