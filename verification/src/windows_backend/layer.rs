//! The layered window: its bitmap, whether it is shown, and its place in the z-order.

use vstd::prelude::*;
use crate::pacing::Throttle;
use crate::rect::DirtyRect;

verus! {

/// The smallest side of a bitmap.
pub const MIN_SIDE: i32 = 256;

/// A per-pixel-alpha layered window. It is resized and moved to the bounding box
/// of the live particles every frame, so the bitmap uploaded to the compositor
/// stays small no matter how large the desktop is.
///
/// Handles are kept by their numbers.
#[derive(Debug, Clone, Copy, PartialEq, Eq)]
pub struct LayeredSurface {
    /// The bitmap that is selected into the device context, if one was created.
    pub bitmap: Option<isize>,
    /// The bitmap that was selected before the first one was.
    pub previous_bitmap: isize,
    /// Whether the bitmap has memory to draw to.
    pub bits: bool,
    pub width: i32,
    pub height: i32,
    pub visible: bool,
    pub topmost: Throttle,
}

/// A bitmap to be created, in pixels.
#[derive(Debug, Clone, Copy, PartialEq, Eq, Structural)]
pub struct BitmapRequest {
    pub width: i32,
    pub height: i32,
}

/// How a frame is copied to the bitmap and shown.
#[derive(Debug, Clone, Copy, PartialEq, Eq)]
pub struct Presentation {
    /// The bytes from one row of the bitmap to the next.
    pub stride: usize,
    /// The bytes of the bitmap.
    pub len: usize,
    /// The part of the pixmap that is copied.
    pub area: DirtyRect,
    /// Where the window's corner is put on the screen. The window gets the size of the area.
    pub position: (i32, i32),
    /// Whether the window was hidden and has to be shown.
    pub show: bool,
}

/// The bitmap has no memory to draw to.
#[derive(Debug, Clone, Copy, PartialEq, Eq, Structural)]
pub struct NoBackingMemory;

/// What has to be undone when the window goes.
#[derive(Debug, Clone, Copy, PartialEq, Eq)]
pub struct Cleanup {
    /// The bitmap to select into the device context again.
    pub restore: Option<isize>,
    /// The bitmap to delete.
    pub delete: Option<isize>,
}

/// Whether a handle stands for no object.
pub open spec fn handle_is_invalid(handle: isize) -> bool {
    handle == 0 || handle == -1
}

/// The side of a bitmap that replaces one: as long as needed, never shorter than before.
pub open spec fn grown(needed: i32, before: i32) -> i32 {
    let longer = if needed >= before {
        needed
    } else {
        before
    };
    if longer >= MIN_SIDE {
        longer
    } else {
        MIN_SIDE
    }
}

impl LayeredSurface {
    /// A bitmap has both sides of at least the smallest length; without one there is no memory
    /// and no size.
    pub open spec fn well_formed(self) -> bool {
        &&& self.bitmap is Some ==> self.width >= MIN_SIDE && self.height >= MIN_SIDE
        &&& self.bitmap is None ==> self.width == 0 && self.height == 0 && !self.bits
    }

    /// Whether the bitmap is large enough.
    pub open spec fn holds(self, width: i32, height: i32) -> bool {
        self.bitmap is Some && self.width >= width && self.height >= height
    }

    /// The window with a new bitmap, before which `previous` was selected.
    pub open spec fn with_bitmap(
        self,
        request: BitmapRequest,
        bitmap: isize,
        previous: isize,
        bits: bool,
    ) -> LayeredSurface {
        LayeredSurface {
            bitmap: Some(bitmap),
            previous_bitmap: if self.bitmap is None {
                previous
            } else {
                self.previous_bitmap
            },
            bits,
            width: request.width,
            height: request.height,
            ..self
        }
    }

    /// How a frame for `bounds` of the screen is presented.
    pub open spec fn presentation(self, bounds: DirtyRect) -> Presentation {
        Presentation {
            stride: (self.width * 4) as usize,
            len: (self.width * 4 * self.height) as usize,
            area: DirtyRect { x: 0, y: 0, w: bounds.w, h: bounds.h },
            position: (bounds.x, bounds.y),
            show: !self.visible,
        }
    }

    /// What has to be undone when the window goes.
    pub open spec fn cleanup(self) -> Cleanup {
        Cleanup {
            restore: if self.bitmap is Some && !handle_is_invalid(self.previous_bitmap) {
                Some(self.previous_bitmap)
            } else {
                None
            },
            delete: self.bitmap,
        }
    }

    /// A hidden window without a bitmap.
    pub fn new(now: u64) -> (s: Self)
        ensures
            s.well_formed(),
            s == (LayeredSurface {
                bitmap: None,
                previous_bitmap: 0,
                bits: false,
                width: 0,
                height: 0,
                visible: false,
                topmost: Throttle { last: now, period: 1_000_000_000 },
            }),
    {
        LayeredSurface {
            bitmap: None,
            previous_bitmap: 0,
            bits: false,
            width: 0,
            height: 0,
            visible: false,
            topmost: Throttle::new(now, 1_000_000_000),
        }
    }

    /// The bitmap that has to be created for a frame of that size; `None` if there is one that is
    /// large enough.
    pub fn ensure(&self, width: i32, height: i32) -> (request: Option<BitmapRequest>)
        ensures
            request is None <==> self.holds(width, height),
            request matches Some(r) ==> r.width == grown(width, self.width) && r.height == grown(
                height,
                self.height,
            ),
    {
        if self.bitmap.is_some() && self.width >= width && self.height >= height {
            return None;
        }
        let wide: i32 = if width >= self.width {
            width
        } else {
            self.width
        };
        let high: i32 = if height >= self.height {
            height
        } else {
            self.height
        };
        Some(
            BitmapRequest {
                width: if wide >= MIN_SIDE {
                    wide
                } else {
                    MIN_SIDE
                },
                height: if high >= MIN_SIDE {
                    high
                } else {
                    MIN_SIDE
                },
            },
        )
    }

    /// Takes over a bitmap that was created and selected, with the one that was selected before.
    /// Returns the bitmap that has to be deleted, if there was one.
    pub fn replace_bitmap(
        &mut self,
        request: BitmapRequest,
        bitmap: isize,
        previous: isize,
        bits: bool,
    ) -> (delete: Option<isize>)
        requires
            old(self).well_formed(),
            request.width >= MIN_SIDE,
            request.height >= MIN_SIDE,
        ensures
            final(self).well_formed(),
            delete == old(self).bitmap,
            *final(self) == old(self).with_bitmap(request, bitmap, previous, bits),
            *final(self) == (LayeredSurface {
                bitmap: Some(bitmap),
                previous_bitmap: if old(self).bitmap is None {
                    previous
                } else {
                    old(self).previous_bitmap
                },
                bits,
                width: request.width,
                height: request.height,
                ..*old(self)
            }),
    {
        let delete = self.bitmap;
        if delete.is_none() {
            self.previous_bitmap = previous;
        }
        self.bitmap = Some(bitmap);
        self.bits = bits;
        self.width = request.width;
        self.height = request.height;
        delete
    }

    /// Prepares a frame for `bounds` of the screen, for which the bitmap is large enough: says how
    /// it is copied, where the window is put, and whether it has to be shown.
    pub fn present(&mut self, bounds: DirtyRect) -> (p: Result<Presentation, NoBackingMemory>)
        requires
            old(self).well_formed(),
            old(self).holds(bounds.w, bounds.h),
            old(self).width * 4 * old(self).height <= usize::MAX,
        ensures
            final(self).well_formed(),
            p is Err <==> !old(self).bits,
            p is Err ==> *final(self) == *old(self),
            p matches Ok(q) ==> q == old(self).presentation(bounds),
            p matches Ok(q) ==> {
                &&& q.stride == old(self).width * 4
                &&& q.len == old(self).width * 4 * old(self).height
                &&& q.area == (DirtyRect { x: 0, y: 0, w: bounds.w, h: bounds.h })
                &&& q.position == (bounds.x, bounds.y)
                &&& q.show == !old(self).visible
                &&& *final(self) == (LayeredSurface { visible: true, ..*old(self) })
            },
    {
        if !self.bits {
            return Err(NoBackingMemory);
        }
        proof {
            let (w, h) = (self.width as int, self.height as int);
            assert(w * 4 <= w * 4 * h) by (nonlinear_arith)
                requires
                    w >= 0,
                    h >= 1,
            ;
        }
        let stride: usize = self.width as usize * 4;
        let len: usize = stride * self.height as usize;
        let show = !self.visible;
        self.visible = true;
        Ok(
            Presentation {
                stride,
                len,
                area: DirtyRect { x: 0, y: 0, w: bounds.w, h: bounds.h },
                position: (bounds.x, bounds.y),
                show,
            },
        )
    }

    /// Whether to put the window on top again: newly created windows can steal the top of the
    /// z-order.
    pub fn raise_now(&mut self, now: u64) -> (raise: bool)
        requires
            old(self).well_formed(),
        ensures
            final(self).well_formed(),
            raise == old(self).topmost.passed(now),
            *final(self) == (LayeredSurface {
                topmost: old(self).topmost.looked_at(now),
                ..*old(self)
            }),
    {
        self.topmost.due(now)
    }

    /// Hides the window. Returns whether it was visible, and so has to be hidden.
    pub fn hide_window(&mut self) -> (was_visible: bool)
        requires
            old(self).well_formed(),
        ensures
            final(self).well_formed(),
            was_visible == old(self).visible,
            *final(self) == (LayeredSurface { visible: false, ..*old(self) }),
    {
        let was_visible = self.visible;
        self.visible = false;
        was_visible
    }

    /// Gives the bitmap up.
    pub fn close(&mut self) -> (cleanup: Cleanup)
        requires
            old(self).well_formed(),
        ensures
            final(self).well_formed(),
            *final(self) == (LayeredSurface {
                bitmap: None,
                bits: false,
                width: 0,
                height: 0,
                ..*old(self)
            }),
            cleanup == old(self).cleanup(),
            cleanup.delete == old(self).bitmap,
            cleanup.restore == if old(self).bitmap is Some && !handle_is_invalid(
                old(self).previous_bitmap,
            ) {
                Some(old(self).previous_bitmap)
            } else {
                None
            },
    {
        let delete = self.bitmap;
        let restore: Option<isize> = if delete.is_some() && self.previous_bitmap != 0
            && self.previous_bitmap != -1 {
            Some(self.previous_bitmap)
        } else {
            None
        };
        self.bitmap = None;
        self.bits = false;
        self.width = 0;
        self.height = 0;
        Cleanup { restore, delete }
    }
}

/// A bitmap that replaces another holds the frame that it was created for and every frame that
/// the other one held.
pub proof fn bitmaps_only_grow(
    surface: LayeredSurface,
    width: i32,
    height: i32,
    earlier_width: i32,
    earlier_height: i32,
)
    requires
        surface.well_formed(),
        surface.holds(earlier_width, earlier_height),
    ensures
        grown(width, surface.width) >= width && grown(height, surface.height) >= height,
        grown(width, surface.width) >= earlier_width,
        grown(height, surface.height) >= earlier_height,
{
}

/// A side of a new bitmap is as long as the frame needs, as the old bitmap was and as the smallest
/// one may be, and not longer than the longest of these.
pub proof fn bitmaps_are_no_larger_than_needed(needed: i32, before: i32)
    ensures
        grown(needed, before) >= needed,
        grown(needed, before) >= before,
        grown(needed, before) >= 256,
        grown(needed, before) == needed || grown(needed, before) == before || grown(needed, before)
            == 256,
{
}

/// A bitmap holds a frame exactly if it exists and neither side is too short. The null handle and
/// the one that stands for an error are the only ones that are no objects.
pub proof fn a_bitmap_holds_what_fits(
    surface: LayeredSurface,
    width: i32,
    height: i32,
    handle: isize,
)
    ensures
        surface.holds(width, height) <==> surface.bitmap is Some && width <= surface.width
            && height <= surface.height,
        handle_is_invalid(handle) <==> handle == 0 || handle == -1,
{
}

/// However often the bitmap is replaced, the one that was selected before all of them is selected
/// again in the end, if it is an object, and the last one is deleted.
pub proof fn the_first_selection_is_restored(
    surface: LayeredSurface,
    first: BitmapRequest,
    first_bitmap: isize,
    first_previous: isize,
    second: BitmapRequest,
    second_bitmap: isize,
    second_previous: isize,
    bits: bool,
)
    requires
        surface.bitmap is None,
    ensures
        ({
            let one = surface.with_bitmap(first, first_bitmap, first_previous, bits);
            let two = one.with_bitmap(second, second_bitmap, second_previous, bits);
            &&& one.cleanup().delete == Some(first_bitmap)
            &&& two.cleanup().delete == Some(second_bitmap)
            &&& one.cleanup().restore == two.cleanup().restore
            &&& first_previous != 0 && first_previous != -1 ==> two.cleanup().restore == Some(
                first_previous,
            )
            &&& first_previous == 0 || first_previous == -1 ==> two.cleanup().restore is None
            &&& two.width == second.width && two.height == second.height && two.bits == bits
            &&& two.visible == surface.visible && two.topmost == surface.topmost
        }),
        surface.cleanup().delete is None && surface.cleanup().restore is None,
{
}

/// Every pixel of a frame has its four bytes in the bitmap, row after row; the window's corner is
/// put where that of the bounds is, and a window that is visible is not shown again.
pub proof fn frames_lie_in_the_bitmap(
    surface: LayeredSurface,
    bounds: DirtyRect,
    px: int,
    py: int,
)
    requires
        surface.well_formed(),
        surface.holds(bounds.w, bounds.h),
        surface.width * 4 * surface.height <= usize::MAX,
        0 <= px < bounds.w,
        0 <= py < bounds.h,
    ensures
        ({
            let p = surface.presentation(bounds);
            &&& p.area.contains(px, py) && !p.area.contains(-1, py) && !p.area.contains(px, -1)
            &&& p.area.w == bounds.w && p.area.h == bounds.h
            &&& p.position.0 == bounds.x && p.position.1 == bounds.y
            &&& p.stride == 4 * surface.width
            &&& p.len == p.stride * surface.height
            &&& py * p.stride + 4 * px + 4 <= p.len
            &&& p.show <==> !surface.visible
        }),
{
    let (w, h) = (surface.width as int, surface.height as int);
    assert(0 <= w * 4 <= w * 4 * h) by (nonlinear_arith)
        requires
            w >= 256,
            h >= 256,
    ;
    assert(py * (4 * w) + 4 * px + 4 <= w * 4 * h) by (nonlinear_arith)
        requires
            0 <= px < w,
            0 <= py < h,
    ;
    assert((4 * w) * h == w * 4 * h) by (nonlinear_arith);
}

/// A bitmap is asked for exactly if the frame does not fit in the one that there is, and the frame
/// fits in it.
pub proof fn a_bitmap_is_asked_for_only_if_needed(
    surface: LayeredSurface,
    width: i32,
    height: i32,
    request: Option<BitmapRequest>,
)
    requires
        call_ensures(LayeredSurface::ensure, (&surface, width, height), request),
    ensures
        request is None <==> surface.bitmap is Some && width <= surface.width && height
            <= surface.height,
        request matches Some(r) ==> r.width >= width && r.height >= height && r.width
            >= surface.width && r.height >= surface.height && r.width >= 256 && r.height >= 256,
{
}

} // verus!
