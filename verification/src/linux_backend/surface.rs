//! One overlay surface per output: its geometry, and which of its two buffers is drawn to next.
//!
//! Every surface is double buffered. The particles are drawn into one pixmap, and a frame copies
//! to a buffer only the pixels in which that buffer differs from the pixmap. Each buffer
//! therefore remembers the region in which it is stale.

use vstd::prelude::*;
use crate::rect::{clamped, smallest_box, DirtyRect};

verus! {

/// One of the two shm buffers behind a surface, plus the region in which it
/// still differs from the pixmap. Tracking this is what lets us commit partial
/// damage while double buffering.
#[derive(Debug, Clone, Copy, PartialEq, Eq)]
pub struct SlotEntry {
    /// Whether the slot has a buffer.
    pub allocated: bool,
    pub stale: Option<DirtyRect>,
}

impl SlotEntry {
    /// A slot without a buffer.
    pub open spec fn vacant() -> SlotEntry {
        SlotEntry { allocated: false, stale: None }
    }

    /// The slot after `damage` was done to the pixmap and not to its buffer.
    pub open spec fn behind(self, damage: Option<DirtyRect>) -> SlotEntry {
        SlotEntry { allocated: self.allocated, stale: DirtyRect::joined(self.stale, damage) }
    }

    /// The stale region, if any, lies in an image of that size.
    pub open spec fn stale_within(self, width: int, height: int) -> bool {
        self.stale is Some ==> self.stale->0.within(width, height)
    }
}

/// The two slots of a surface.
#[derive(Debug, Clone, Copy, PartialEq, Eq)]
pub struct Slots {
    pub first: SlotEntry,
    pub second: SlotEntry,
}

impl Slots {
    /// Slot 0 is the first, slot 1 the second.
    pub open spec fn at(self, slot: int) -> SlotEntry {
        if slot == 0 {
            self.first
        } else {
            self.second
        }
    }

    /// The slots with `entry` in place of one of them.
    pub open spec fn with(self, slot: int, entry: SlotEntry) -> Slots {
        if slot == 0 {
            Slots { first: entry, second: self.second }
        } else {
            Slots { first: self.first, second: entry }
        }
    }

    /// Both slots without a buffer.
    pub open spec fn vacant() -> Slots {
        Slots { first: SlotEntry::vacant(), second: SlotEntry::vacant() }
    }

    fn get(&self, slot: usize) -> (entry: SlotEntry)
        requires
            slot < 2,
        ensures
            entry == self.at(slot as int),
    {
        if slot == 0 {
            self.first
        } else {
            self.second
        }
    }

    fn set(&mut self, slot: usize, entry: SlotEntry)
        requires
            slot < 2,
        ensures
            *final(self) == old(self).with(slot as int, entry),
    {
        if slot == 0 {
            self.first = entry;
        } else {
            self.second = entry;
        }
    }
}

/// Which slots the compositor is not reading from.
#[derive(Debug, Clone, Copy, PartialEq, Eq)]
pub struct Released {
    pub first: bool,
    pub second: bool,
}

impl Released {
    pub open spec fn at(self, slot: int) -> bool {
        if slot == 0 {
            self.first
        } else {
            self.second
        }
    }

    fn get(&self, slot: usize) -> (released: bool)
        ensures
            released == self.at(slot as int),
    {
        if slot == 0 {
            self.first
        } else {
            self.second
        }
    }
}

/// The size of a pixmap in pixels.
#[derive(Debug, Clone, Copy, PartialEq, Eq)]
pub struct PixmapSize {
    pub width: u32,
    pub height: u32,
}

/// The memory that a surface needs: a pixmap of `width` by `height` pixels, and a pool of `len`
/// bytes that holds two buffers of that size at four bytes a pixel.
#[derive(Debug, Clone, Copy, PartialEq, Eq)]
pub struct PoolRequest {
    pub width: u32,
    pub height: u32,
    pub len: usize,
}

/// The part of a region that lies in a pixmap of that size. A region that lies in it is left as it
/// is, even if it is empty.
pub open spec fn in_pixmap(damage: Option<DirtyRect>, size: PixmapSize) -> Option<DirtyRect> {
    match damage {
        Some(d) => if d.within(size.width as int, size.height as int) {
            Some(d)
        } else {
            clamped(d, DirtyRect { x: 0, y: 0, w: size.width as i32, h: size.height as i32 })
        },
        None => None,
    }
}

/// Clips a region to a pixmap of that size.
pub fn damage_in_pixmap(damage: Option<DirtyRect>, size: PixmapSize) -> (part: Option<DirtyRect>)
    requires
        pixmap_size_fits(size),
    ensures
        part == in_pixmap(damage, size),
        part is Some ==> part->0.within(size.width as int, size.height as int),
{
    let d = match damage {
        Some(d) => d,
        None => return None,
    };
    let width: i64 = size.width as i64;
    let height: i64 = size.height as i64;
    let right: i64 = d.x as i64 + d.w as i64;
    let bottom: i64 = d.y as i64 + d.h as i64;
    if d.x >= 0 && d.y >= 0 && d.w >= 0 && d.h >= 0 && right <= width && bottom <= height {
        return Some(d);
    }
    let x0: i32 = if d.x >= 0 { d.x } else { 0 };
    let y0: i32 = if d.y >= 0 { d.y } else { 0 };
    let x1: i64 = if right <= width { right } else { width };
    let y1: i64 = if bottom <= height { bottom } else { height };
    if x1 <= x0 as i64 || y1 <= y0 as i64 {
        None
    } else {
        Some(DirtyRect { x: x0, y: y0, w: (x1 - x0 as i64) as i32, h: (y1 - y0 as i64) as i32 })
    }
}

/// A buffer to be created in the pool: its size in pixels, and the bytes from one row to the next.
#[derive(Debug, Clone, Copy, PartialEq, Eq)]
pub struct BufferRequest {
    pub width: i32,
    pub height: i32,
    pub stride: i32,
}

/// What happened outside while a frame is being drawn.
#[derive(Debug, Clone, Copy, PartialEq, Eq)]
pub enum DrawEvent {
    /// The pixmap was rendered; the compositor is not reading from the `released` buffers.
    Rendered { released: Released },
    /// A buffer was asked for, and is there or not.
    BufferCreated { slot: usize, created: bool },
    /// A slot's buffer could not be written to after all.
    CanvasLost { slot: usize },
    /// The region that was asked for was copied to a slot's buffer.
    Copied { slot: usize },
}

/// What to do next to draw a frame.
#[derive(Debug, Clone, Copy, PartialEq, Eq)]
pub enum DrawAction {
    /// Nothing more: the frame is done, or has to wait for the next tick.
    Stop,
    /// Create a buffer for a slot.
    CreateBuffer { slot: usize, request: BufferRequest },
    /// Copy a region of the pixmap to a slot's buffer.
    Copy { slot: usize, region: DirtyRect },
    /// Mark the region as damaged, attach a slot's buffer and commit.
    Commit { slot: usize, region: DirtyRect },
}

/// The overlay on one output.
#[derive(Debug, Clone, Copy, PartialEq, Eq)]
pub struct OutputSurface {
    /// The output that the surface covers.
    pub output: u64,
    /// Whether there is a pool to allocate buffers from.
    pub pool: bool,
    pub slots: Slots,
    pub next_slot: usize,
    /// The size in logical pixels.
    pub width: u32,
    pub height: u32,
    /// How many buffer pixels a logical pixel has on each side.
    pub scale: i32,
    /// Where the output's corner lies in the global layout.
    pub origin: (i32, i32),
    /// The size of the pixmap, if there is one.
    pub renderer: Option<PixmapSize>,
    /// Whether the compositor has sent a size.
    pub configured: bool,
}

/// The slot that is not `slot`.
pub open spec fn other_slot(slot: int) -> int {
    (slot + 1) % 2
}

impl OutputSurface {
    /// What holds of a surface at all times: a positive scale, a next slot that exists, a pixmap
    /// whose rows and columns can be counted in `i32`, and stale regions that lie in it.
    pub open spec fn well_formed(self) -> bool {
        &&& self.scale >= 1
        &&& self.next_slot < 2
        &&& self.renderer is Some ==> pixmap_size_fits(self.renderer->0)
        &&& self.renderer is Some ==> {
            &&& self.slots.first.stale_within(self.pixmap_width(), self.pixmap_height())
            &&& self.slots.second.stale_within(self.pixmap_width(), self.pixmap_height())
        }
        &&& self.renderer is None ==> {
            &&& self.slots.first.stale is None
            &&& self.slots.second.stale is None
        }
    }

    pub open spec fn pixmap_width(self) -> int {
        self.renderer->0.width as int
    }

    pub open spec fn pixmap_height(self) -> int {
        self.renderer->0.height as int
    }

    /// The width in buffer pixels.
    pub open spec fn buffer_width(self) -> int {
        self.width * self.scale
    }

    /// The height in buffer pixels.
    pub open spec fn buffer_height(self) -> int {
        self.height * self.scale
    }

    /// The size in buffer pixels.
    pub open spec fn buffers(self) -> PixmapSize {
        PixmapSize { width: self.buffer_width() as u32, height: self.buffer_height() as u32 }
    }

    /// The size in buffer pixels fits in `u32`.
    pub open spec fn buffer_size_fits(self) -> bool {
        self.buffer_width() <= u32::MAX && self.buffer_height() <= u32::MAX
    }

    /// Whether a frame can be drawn: the surface has a size, a pool and a pixmap.
    pub open spec fn drawable(self) -> bool {
        self.configured && self.pool && self.renderer is Some
    }

    /// A region of the pixmap, or none.
    pub open spec fn region_within(self, region: Option<DirtyRect>) -> bool {
        region is Some ==> region->0.within(self.pixmap_width(), self.pixmap_height())
    }

    /// Whether a slot can be drawn to: it has no buffer yet, or the compositor has released it.
    pub open spec fn available(self, slot: int, released: Released) -> bool {
        !self.slots.at(slot).allocated || released.at(slot)
    }

    /// The slot to draw to: the next one if it is available, else the other one if it is.
    pub open spec fn chosen(self, released: Released) -> Option<usize> {
        if self.available(self.next_slot as int, released) {
            Some(self.next_slot)
        } else if self.available(other_slot(self.next_slot as int), released) {
            Some(other_slot(self.next_slot as int) as usize)
        } else {
            None
        }
    }

    /// The surface after damage that was copied to neither buffer.
    pub open spec fn postponed(self, damage: Option<DirtyRect>) -> OutputSurface {
        OutputSurface {
            slots: Slots {
                first: self.slots.first.behind(damage),
                second: self.slots.second.behind(damage),
            },
            ..self
        }
    }

    /// The surface after a slot got a blank buffer: all of the pixmap is missing in it.
    pub open spec fn with_fresh_buffer(self, slot: int) -> OutputSurface {
        OutputSurface {
            slots: self.slots.with(
                slot,
                SlotEntry {
                    allocated: true,
                    stale: Some(
                        DirtyRect {
                            x: 0,
                            y: 0,
                            w: self.pixmap_width() as i32,
                            h: self.pixmap_height() as i32,
                        },
                    ),
                },
            ),
            ..self
        }
    }

    /// The region to copy to a slot's buffer: the damage of this frame and what it missed before.
    pub open spec fn pending(self, slot: int, damage: Option<DirtyRect>) -> Option<DirtyRect> {
        DirtyRect::joined(damage, self.slots.at(slot).stale)
    }

    /// The surface after the pending region was copied to a slot's buffer: that buffer is up to
    /// date, and the other one has missed this frame's damage.
    pub open spec fn after_paint(self, slot: int, damage: Option<DirtyRect>) -> OutputSurface {
        let entry = SlotEntry { allocated: self.slots.at(slot).allocated, stale: None };
        let other = other_slot(slot);
        OutputSurface {
            slots: self.slots.with(slot, entry).with(other, self.slots.at(other).behind(damage)),
            ..self
        }
    }

    /// The buffer that a slot of the surface gets.
    pub open spec fn buffer_request(self) -> BufferRequest {
        BufferRequest {
            width: self.pixmap_width() as i32,
            height: self.pixmap_height() as i32,
            stride: (self.pixmap_width() * 4) as i32,
        }
    }

    /// Copies what is pending in a slot, if anything is.
    pub open spec fn copy_action(self, slot: usize, damage: Option<DirtyRect>) -> DrawAction {
        match self.pending(slot as int, damage) {
            Some(region) => DrawAction::Copy { slot, region },
            None => DrawAction::Stop,
        }
    }

    /// The surface after an event, and what is to be done next.
    pub open spec fn draw_step(self, damage: Option<DirtyRect>, event: DrawEvent) -> (
        OutputSurface,
        DrawAction,
    ) {
        match event {
            DrawEvent::Rendered { released } => match self.chosen(released) {
                None => (self.postponed(damage), DrawAction::Stop),
                Some(slot) => (
                    OutputSurface { next_slot: other_slot(slot as int) as usize, ..self },
                    if self.slots.at(slot as int).allocated {
                        self.copy_action(slot, damage)
                    } else {
                        DrawAction::CreateBuffer { slot, request: self.buffer_request() }
                    },
                ),
            },
            DrawEvent::BufferCreated { slot, created: true } => {
                let fresh = self.with_fresh_buffer(slot as int);
                (fresh, fresh.copy_action(slot, damage))
            },
            DrawEvent::BufferCreated { slot, created: false } => (
                self.postponed(damage),
                DrawAction::Stop,
            ),
            DrawEvent::CanvasLost { slot } => (self.postponed(damage), DrawAction::Stop),
            DrawEvent::Copied { slot } => (
                self.after_paint(slot as int, damage),
                match self.pending(slot as int, damage) {
                    Some(region) => DrawAction::Commit { slot, region },
                    None => DrawAction::Stop,
                },
            ),
        }
    }

    /// The surface after a rebuild, given whether the pool and the pixmap were allocated.
    pub open spec fn with_memory(self, pool: bool, renderer: bool) -> OutputSurface {
        if pool {
            OutputSurface {
                pool: true,
                slots: Slots::vacant(),
                renderer: if renderer && pixmap_size_fits(self.buffers()) {
                    Some(self.buffers())
                } else {
                    None
                },
                ..self
            }
        } else {
            OutputSurface { pool: false, ..self }
        }
    }

    /// The event names a slot that exists.
    pub open spec fn event_fits(event: DrawEvent) -> bool {
        match event {
            DrawEvent::Rendered { .. } => true,
            DrawEvent::BufferCreated { slot, .. } => slot < 2,
            DrawEvent::CanvasLost { slot } => slot < 2,
            DrawEvent::Copied { slot } => slot < 2,
        }
    }

    /// A surface that the compositor has not configured yet, with nothing allocated.
    pub fn new(output: u64, width: u32, height: u32, scale: i32, origin: (i32, i32)) -> (s: Self)
        requires
            scale >= 1,
        ensures
            s.well_formed(),
            s == (OutputSurface {
                output,
                pool: false,
                slots: Slots::vacant(),
                next_slot: 0,
                width,
                height,
                scale,
                origin,
                renderer: None,
                configured: false,
            }),
    {
        let vacant = SlotEntry { allocated: false, stale: None };
        OutputSurface {
            output,
            pool: false,
            slots: Slots { first: vacant, second: vacant },
            next_slot: 0,
            width,
            height,
            scale,
            origin,
            renderer: None,
            configured: false,
        }
    }

    /// The size of the surface's buffers in pixels.
    pub fn buffer_size(&self) -> (size: (u32, u32))
        requires
            self.scale >= 0,
            self.buffer_size_fits(),
        ensures
            size.0 == self.buffer_width(),
            size.1 == self.buffer_height(),
    {
        assert(0 <= self.width * self.scale) by (nonlinear_arith)
            requires
                self.width >= 0,
                self.scale >= 0,
        ;
        assert(0 <= self.height * self.scale) by (nonlinear_arith)
            requires
                self.height >= 0,
                self.scale >= 0,
        ;
        (self.width * self.scale as u32, self.height * self.scale as u32)
    }

    /// What a rebuild has to allocate. `None`, with nothing to be done, while either side is zero.
    pub fn rebuild(&self) -> (request: Option<PoolRequest>)
        requires
            self.well_formed(),
            self.buffer_size_fits(),
            self.buffer_width() * self.buffer_height() * 8 <= usize::MAX,
        ensures
            request is None <==> self.width == 0 || self.height == 0,
            request matches Some(r) ==> {
                &&& r.width == self.buffer_width()
                &&& r.height == self.buffer_height()
                &&& r.len == self.buffer_width() * self.buffer_height() * 4 * 2
            },
    {
        let (width, height) = self.buffer_size();
        proof {
            assert(self.width * self.scale == 0 <==> self.width == 0) by (nonlinear_arith)
                requires
                    self.scale >= 1,
            ;
            assert(self.height * self.scale == 0 <==> self.height == 0) by (nonlinear_arith)
                requires
                    self.scale >= 1,
            ;
            assert(0 <= width * height) by (nonlinear_arith)
                requires
                    0 <= width,
                    0 <= height,
            ;
            assert(width * height * 8 == self.buffer_width() * self.buffer_height() * 8);
        }
        if width == 0 || height == 0 {
            return None;
        }
        let len: usize = width as usize * height as usize * 4 * 2;
        Some(PoolRequest { width, height, len })
    }

    /// Records how a rebuild ended: whether the pool was allocated and, if so, whether the pixmap
    /// was. Without a new pool the old buffers are kept, but nothing is drawn until there is one.
    /// A pixmap whose rows or columns cannot be counted in `i32` is not drawn to: it has no buffer.
    pub fn rebuilt(&mut self, pool: bool, renderer: bool)
        requires
            old(self).well_formed(),
            old(self).buffer_size_fits(),
        ensures
            final(self).well_formed(),
            final(self).output == old(self).output,
            *final(self) == old(self).with_memory(pool, renderer),
            !pool ==> *final(self) == (OutputSurface { pool: false, ..*old(self) }),
            pool ==> *final(self) == (OutputSurface {
                pool: true,
                slots: Slots::vacant(),
                renderer: if renderer && pixmap_size_fits(old(self).buffers()) {
                    Some(old(self).buffers())
                } else {
                    None
                },
                ..*old(self)
            }),
    {
        if !pool {
            self.pool = false;
            return;
        }
        self.pool = true;
        let vacant = SlotEntry { allocated: false, stale: None };
        self.slots = Slots { first: vacant, second: vacant };
        let (width, height) = self.buffer_size();
        let counted = 0 < width && width <= 0x1fff_ffff && 0 < height && height <= 0x7fff_ffff;
        self.renderer = if renderer && counted {
            Some(PixmapSize { width, height })
        } else {
            None
        };
    }

    /// Whether a frame can be drawn on the surface.
    pub fn can_draw(&self) -> (ready: bool)
        ensures
            ready == self.drawable(),
    {
        self.configured && self.pool && self.renderer.is_some()
    }

    /// Picks a buffer that the compositor is not currently reading from, and lets the next frame
    /// start with the other one. With both buffers in flight the damage is noted for later.
    fn choose_slot(&mut self, released: Released, damage: Option<DirtyRect>) -> (slot: Option<
        usize,
    >)
        requires
            old(self).well_formed(),
            old(self).drawable(),
            old(self).region_within(damage),
        ensures
            final(self).well_formed(),
            slot == old(self).chosen(released),
            slot matches Some(s) ==> s < 2 && *final(self) == (OutputSurface {
                next_slot: other_slot(s as int) as usize,
                ..*old(self)
            }),
            slot is None ==> *final(self) == old(self).postponed(damage),
    {
        let next: usize = self.next_slot;
        let other: usize = (next + 1) % 2;
        if !self.slots.get(next).allocated || released.get(next) {
            self.next_slot = other;
            return Some(next);
        }
        if !self.slots.get(other).allocated || released.get(other) {
            self.next_slot = next;
            return Some(other);
        }
        self.postpone(damage);
        None
    }

    /// Notes damage that was copied to neither buffer.
    fn postpone(&mut self, damage: Option<DirtyRect>)
        requires
            old(self).well_formed(),
            old(self).renderer is Some,
            old(self).region_within(damage),
        ensures
            final(self).well_formed(),
            *final(self) == old(self).postponed(damage),
    {
        self.miss(0, damage);
        self.miss(1, damage);
    }

    /// Notes damage that was not copied to one of the buffers.
    fn miss(&mut self, slot: usize, damage: Option<DirtyRect>)
        requires
            old(self).well_formed(),
            old(self).renderer is Some,
            old(self).region_within(damage),
            slot < 2,
        ensures
            final(self).well_formed(),
            *final(self) == (OutputSurface {
                slots: old(self).slots.with(
                    slot as int,
                    old(self).slots.at(slot as int).behind(damage),
                ),
                ..*old(self)
            }),
    {
        let entry = self.slots.get(slot);
        proof {
            crate::rect::union_stays_within(
                entry.stale,
                damage,
                self.pixmap_width(),
                self.pixmap_height(),
            );
        }
        let stale = DirtyRect::union_opt(entry.stale, damage);
        self.slots.set(slot, SlotEntry { allocated: entry.allocated, stale });
    }

    /// The buffer to be created for a slot.
    fn request(&self) -> (request: BufferRequest)
        requires
            self.well_formed(),
            self.renderer is Some,
        ensures
            request == self.buffer_request(),
    {
        match self.renderer {
            Some(PixmapSize { width, height }) => BufferRequest {
                width: width as i32,
                height: height as i32,
                stride: width as i32 * 4,
            },
            None => BufferRequest { width: 0, height: 0, stride: 0 },
        }
    }

    /// A fresh buffer is blank, so everything already drawn is stale in it.
    fn add_fresh_buffer(&mut self, slot: usize)
        requires
            old(self).well_formed(),
            old(self).renderer is Some,
            slot < 2,
        ensures
            final(self).well_formed(),
            *final(self) == old(self).with_fresh_buffer(slot as int),
    {
        if let Some(PixmapSize { width, height }) = self.renderer {
            let all = DirtyRect { x: 0, y: 0, w: width as i32, h: height as i32 };
            self.slots.set(slot, SlotEntry { allocated: true, stale: Some(all) });
        }
    }

    /// The region to copy from the pixmap to a slot's buffer; `None` if it is up to date.
    fn region(&self, slot: usize, damage: Option<DirtyRect>) -> (region: Option<DirtyRect>)
        requires
            self.well_formed(),
            self.renderer is Some,
            self.region_within(damage),
            slot < 2,
        ensures
            region == self.pending(slot as int, damage),
            self.region_within(region),
    {
        let stale = self.slots.get(slot).stale;
        proof {
            crate::rect::union_stays_within(
                damage,
                stale,
                self.pixmap_width(),
                self.pixmap_height(),
            );
        }
        DirtyRect::union_opt(damage, stale)
    }

    /// Notes that the pending region was copied to a slot's buffer.
    fn paint(&mut self, slot: usize, damage: Option<DirtyRect>)
        requires
            old(self).well_formed(),
            old(self).renderer is Some,
            old(self).region_within(damage),
            slot < 2,
        ensures
            final(self).well_formed(),
            *final(self) == old(self).after_paint(slot as int, damage),
    {
        let entry = self.slots.get(slot);
        self.slots.set(slot, SlotEntry { allocated: entry.allocated, stale: None });
        let other: usize = (slot + 1) % 2;
        self.miss(other, damage);
    }

    /// Draws a frame in steps: takes what happened, and says what to do next. `damage` is what
    /// this frame changed, of which the part in the pixmap counts, and stays the same for all its
    /// steps.
    ///
    /// A frame that cannot be copied to a buffer leaves its damage behind in both slots, so that
    /// the next frame catches up. Whatever region is asked for lies in the pixmap.
    pub fn draw(&mut self, damage: Option<DirtyRect>, event: DrawEvent) -> (action: DrawAction)
        requires
            old(self).well_formed(),
            old(self).drawable(),
            OutputSurface::event_fits(event),
        ensures
            final(self).well_formed(),
            final(self).drawable(),
            final(self).output == old(self).output,
            (*final(self), action) == old(self).draw_step(
                in_pixmap(damage, old(self).renderer->0),
                event,
            ),
            action matches DrawAction::Copy { slot, region } ==> slot < 2 && region.within(
                old(self).pixmap_width(),
                old(self).pixmap_height(),
            ),
            action matches DrawAction::Commit { slot, region } ==> slot < 2 && region.within(
                old(self).pixmap_width(),
                old(self).pixmap_height(),
            ),
            action matches DrawAction::CreateBuffer { slot, .. } ==> slot < 2,
    {
        let damage = match self.renderer {
            Some(size) => damage_in_pixmap(damage, size),
            None => None,
        };
        match event {
            DrawEvent::Rendered { released } => {
                match self.choose_slot(released, damage) {
                    None => DrawAction::Stop,
                    Some(slot) => {
                        if self.slots.get(slot).allocated {
                            self.copy_step(slot, damage)
                        } else {
                            DrawAction::CreateBuffer { slot, request: self.request() }
                        }
                    },
                }
            },
            DrawEvent::BufferCreated { slot, created } => {
                if created {
                    self.add_fresh_buffer(slot);
                    self.copy_step(slot, damage)
                } else {
                    self.postpone(damage);
                    DrawAction::Stop
                }
            },
            DrawEvent::CanvasLost { slot: _ } => {
                self.postpone(damage);
                DrawAction::Stop
            },
            DrawEvent::Copied { slot } => {
                let region = self.region(slot, damage);
                self.paint(slot, damage);
                match region {
                    Some(region) => DrawAction::Commit { slot, region },
                    None => DrawAction::Stop,
                }
            },
        }
    }

    fn copy_step(&self, slot: usize, damage: Option<DirtyRect>) -> (action: DrawAction)
        requires
            self.well_formed(),
            self.renderer is Some,
            self.region_within(damage),
            slot < 2,
        ensures
            action == self.copy_action(slot, damage),
            action matches DrawAction::Copy { slot: s, region } ==> s == slot && region.within(
                self.pixmap_width(),
                self.pixmap_height(),
            ),
    {
        match self.region(slot, damage) {
            Some(region) => DrawAction::Copy { slot, region },
            None => DrawAction::Stop,
        }
    }
}

/// A pixmap of that size exists only if a row's bytes and the rows can be counted in `i32`.
pub open spec fn pixmap_size_fits(size: PixmapSize) -> bool {
    0 < size.width && size.width * 4 <= i32::MAX && 0 < size.height <= i32::MAX
}

/// Clipping a region to the pixmap drops no pixel of the pixmap and adds none; a region that lies in
/// the pixmap stays as it is.
pub proof fn clipping_keeps_every_pixel_of_the_pixmap(
    damage: DirtyRect,
    size: PixmapSize,
    px: int,
    py: int,
)
    requires
        pixmap_size_fits(size),
    ensures
        damage.within(size.width as int, size.height as int) ==> in_pixmap(Some(damage), size)
            == Some(damage),
        damage.contains(px, py) && 0 <= px < size.width && 0 <= py < size.height <==> (in_pixmap(
            Some(damage),
            size,
        ) matches Some(part) && part.contains(px, py)),
{
}

/// A picture: the colour of the pixel in each column of each row.
pub type Picture = spec_fn(int, int) -> int;

/// The picture agrees with the pixmap on every pixel of the pixmap that is not in the region.
pub open spec fn agrees_outside(
    picture: Picture,
    pixmap: Picture,
    region: Option<DirtyRect>,
    width: int,
    height: int,
) -> bool {
    forall|px: int, py: int|
        0 <= px < width && 0 <= py < height && !(region is Some && region->0.contains(px, py))
            ==> #[trigger] picture(px, py) == pixmap(px, py)
}

/// Every buffer of the surface shows the pixmap outside its stale region.
pub open spec fn buffers_tracked(
    surface: OutputSurface,
    first: Picture,
    second: Picture,
    pixmap: Picture,
) -> bool {
    let (width, height) = (surface.pixmap_width(), surface.pixmap_height());
    &&& surface.slots.first.allocated ==> agrees_outside(
        first,
        pixmap,
        surface.slots.first.stale,
        width,
        height,
    )
    &&& surface.slots.second.allocated ==> agrees_outside(
        second,
        pixmap,
        surface.slots.second.stale,
        width,
        height,
    )
}

/// A frame that reaches neither buffer leaves both tracked: outside its stale region each still
/// shows the pixmap, whose change lies in the damage.
pub proof fn postponed_frame_keeps_buffers_tracked(
    surface: OutputSurface,
    first: Picture,
    second: Picture,
    before: Picture,
    after: Picture,
    damage: Option<DirtyRect>,
)
    requires
        surface.well_formed(),
        surface.renderer is Some,
        surface.region_within(damage),
        buffers_tracked(surface, first, second, before),
        agrees_outside(after, before, damage, surface.pixmap_width(), surface.pixmap_height()),
    ensures
        buffers_tracked(surface.postponed(damage), first, second, after),
{
    let (width, height) = (surface.pixmap_width(), surface.pixmap_height());
    stale_grows_with_damage(first, before, after, surface.slots.first, damage, width, height);
    stale_grows_with_damage(second, before, after, surface.slots.second, damage, width, height);
}

/// A frame that ends without a copy is not lost: each buffer still shows the pixmap outside its
/// stale region, with the change of this frame where there was one. Until then the slots are as
/// they were before the frame.
pub proof fn a_frame_that_stops_is_not_lost(
    surface: OutputSurface,
    first: Picture,
    second: Picture,
    before: Picture,
    after: Picture,
    damage: Option<DirtyRect>,
    event: DrawEvent,
)
    requires
        surface.well_formed(),
        surface.drawable(),
        surface.region_within(damage),
        event !is Copied,
        buffers_tracked(surface, first, second, before),
        agrees_outside(after, before, damage, surface.pixmap_width(), surface.pixmap_height()),
    ensures
        surface.draw_step(damage, event).1 is Stop ==> buffers_tracked(
            surface.draw_step(damage, event).0,
            first,
            second,
            after,
        ),
        event is Rendered && surface.draw_step(damage, event).1 !is Stop ==> surface.draw_step(
            damage,
            event,
        ).0.slots == surface.slots,
{
    let (width, height) = (surface.pixmap_width(), surface.pixmap_height());
    postponed_frame_keeps_buffers_tracked(surface, first, second, before, after, damage);
    if damage is None {
        stale_grows_with_damage(first, before, after, surface.slots.first, damage, width, height);
        stale_grows_with_damage(second, before, after, surface.slots.second, damage, width, height);
    }
}

proof fn stale_grows_with_damage(
    picture: Picture,
    before: Picture,
    after: Picture,
    entry: SlotEntry,
    damage: Option<DirtyRect>,
    width: int,
    height: int,
)
    requires
        width <= i32::MAX,
        height <= i32::MAX,
        entry.stale_within(width, height),
        damage is Some ==> damage->0.within(width, height),
        entry.allocated ==> agrees_outside(picture, before, entry.stale, width, height),
        agrees_outside(after, before, damage, width, height),
    ensures
        entry.allocated ==> agrees_outside(
            picture,
            after,
            entry.behind(damage).stale,
            width,
            height,
        ),
{
    if entry.allocated {
        assert forall|px: int, py: int|
            0 <= px < width && 0 <= py < height && !(entry.behind(damage).stale is Some
                && entry.behind(damage).stale->0.contains(px, py)) implies #[trigger] picture(
            px,
            py,
        ) == after(px, py) by {
            assert(after(px, py) == before(px, py));
        }
    }
}

/// A fresh buffer is tracked whatever it shows, since all of it counts as stale.
pub proof fn fresh_buffer_is_tracked(
    surface: OutputSurface,
    slot: int,
    first: Picture,
    second: Picture,
    fresh: Picture,
    pixmap: Picture,
)
    requires
        surface.well_formed(),
        surface.renderer is Some,
        0 <= slot < 2,
        buffers_tracked(surface, first, second, pixmap),
    ensures
        slot == 0 ==> buffers_tracked(surface.with_fresh_buffer(slot), fresh, second, pixmap),
        slot == 1 ==> buffers_tracked(surface.with_fresh_buffer(slot), first, fresh, pixmap),
{
}

/// Copying just the pending region makes a buffer show the whole pixmap, and the other buffer
/// stays tracked.
pub proof fn painting_the_pending_region_shows_the_pixmap(
    surface: OutputSurface,
    slot: int,
    first: Picture,
    second: Picture,
    painted: Picture,
    before: Picture,
    after: Picture,
    damage: Option<DirtyRect>,
)
    requires
        surface.well_formed(),
        surface.renderer is Some,
        surface.region_within(damage),
        0 <= slot < 2,
        surface.slots.at(slot).allocated,
        buffers_tracked(surface, first, second, before),
        agrees_outside(after, before, damage, surface.pixmap_width(), surface.pixmap_height()),
        surface.pending(slot, damage) matches Some(region) ==> forall|px: int, py: int|
            region.contains(px, py) ==> #[trigger] painted(px, py) == after(px, py),
        agrees_outside(
            painted,
            if slot == 0 {
                first
            } else {
                second
            },
            surface.pending(slot, damage),
            surface.pixmap_width(),
            surface.pixmap_height(),
        ),
    ensures
        agrees_outside(
            painted,
            after,
            None,
            surface.pixmap_width(),
            surface.pixmap_height(),
        ),
        slot == 0 ==> buffers_tracked(surface.after_paint(slot, damage), painted, second, after),
        slot == 1 ==> buffers_tracked(surface.after_paint(slot, damage), first, painted, after),
{
    let (width, height) = (surface.pixmap_width(), surface.pixmap_height());
    let picture = if slot == 0 {
        first
    } else {
        second
    };
    let region = surface.pending(slot, damage);
    assert forall|px: int, py: int| 0 <= px < width && 0 <= py < height implies #[trigger] painted(
        px,
        py,
    ) == after(px, py) by {
        if !(region is Some && region->0.contains(px, py)) {
            assert(painted(px, py) == picture(px, py));
            assert(picture(px, py) == before(px, py));
            assert(after(px, py) == before(px, py));
        }
    }
    stale_grows_with_damage(first, before, after, surface.slots.first, damage, width, height);
    stale_grows_with_damage(second, before, after, surface.slots.second, damage, width, height);
}

/// Nothing pending means that the buffer shows the whole pixmap already.
pub proof fn nothing_pending_means_up_to_date(
    surface: OutputSurface,
    slot: int,
    first: Picture,
    second: Picture,
    before: Picture,
    after: Picture,
    damage: Option<DirtyRect>,
)
    requires
        0 <= slot < 2,
        surface.slots.at(slot).allocated,
        buffers_tracked(surface, first, second, before),
        agrees_outside(after, before, damage, surface.pixmap_width(), surface.pixmap_height()),
        surface.pending(slot, damage) is None,
    ensures
        agrees_outside(
            if slot == 0 {
                first
            } else {
                second
            },
            after,
            None,
            surface.pixmap_width(),
            surface.pixmap_height(),
        ),
{
    let (width, height) = (surface.pixmap_width(), surface.pixmap_height());
    let picture = if slot == 0 {
        first
    } else {
        second
    };
    assert forall|px: int, py: int| 0 <= px < width && 0 <= py < height implies #[trigger] picture(
        px,
        py,
    ) == after(px, py) by {
        assert(after(px, py) == before(px, py));
    }
}

/// Region `a` is empty, or its box lies in that of `b`.
pub open spec fn covered(a: Option<DirtyRect>, b: Option<DirtyRect>) -> bool {
    a is Some ==> {
        &&& b is Some
        &&& b->0.x <= a->0.x && a->0.right() <= b->0.right()
        &&& b->0.y <= a->0.y && a->0.bottom() <= b->0.bottom()
    }
}

/// The buffer on screen is in slot `shown`, and whatever it has missed the other one has missed
/// too.
pub open spec fn shown_is_ahead(surface: OutputSurface, shown: int) -> bool {
    &&& 0 <= shown < 2
    &&& surface.slots.at(shown).allocated
    &&& surface.slots.at(other_slot(shown)).allocated ==> covered(
        surface.slots.at(shown).stale,
        surface.slots.at(other_slot(shown)).stale,
    )
}

/// No step of drawing lets the buffer on screen fall behind the other one; when a frame is
/// committed, its slot is the one on screen.
pub proof fn draw_keeps_the_shown_buffer_ahead(
    surface: OutputSurface,
    shown: int,
    damage: Option<DirtyRect>,
    event: DrawEvent,
)
    requires
        surface.well_formed(),
        surface.drawable(),
        surface.region_within(damage),
        OutputSurface::event_fits(event),
        shown_is_ahead(surface, shown),
        event matches DrawEvent::BufferCreated { slot, .. } ==> slot != shown,
        event matches DrawEvent::Copied { slot } ==> surface.slots.at(slot as int).allocated,
    ensures
        event is Copied ==> shown_is_ahead(
            surface.draw_step(damage, event).0,
            event->Copied_slot as int,
        ),
        event !is Copied ==> shown_is_ahead(surface.draw_step(damage, event).0, shown),
{
    let (width, height) = (surface.pixmap_width(), surface.pixmap_height());
    crate::rect::union_stays_within(surface.slots.first.stale, damage, width, height);
    crate::rect::union_stays_within(surface.slots.second.stale, damage, width, height);
}

/// Outside the region that a frame commits, the buffer on screen shows the new pixmap already:
/// partial damage leaves no trace of an older frame.
pub proof fn committed_region_covers_every_change_on_screen(
    surface: OutputSurface,
    shown: int,
    slot: int,
    on_screen: Picture,
    before: Picture,
    after: Picture,
    damage: Option<DirtyRect>,
)
    requires
        surface.well_formed(),
        surface.renderer is Some,
        surface.region_within(damage),
        shown_is_ahead(surface, shown),
        0 <= slot < 2,
        surface.slots.at(slot).allocated,
        agrees_outside(
            on_screen,
            before,
            surface.slots.at(shown).stale,
            surface.pixmap_width(),
            surface.pixmap_height(),
        ),
        agrees_outside(after, before, damage, surface.pixmap_width(), surface.pixmap_height()),
    ensures
        agrees_outside(
            on_screen,
            after,
            surface.pending(slot, damage),
            surface.pixmap_width(),
            surface.pixmap_height(),
        ),
{
    let (width, height) = (surface.pixmap_width(), surface.pixmap_height());
    let region = surface.pending(slot, damage);
    let stale = surface.slots.at(shown).stale;
    crate::rect::union_stays_within(damage, surface.slots.at(slot).stale, width, height);
    assert(covered(stale, surface.slots.at(slot).stale));
    assert forall|px: int, py: int|
        0 <= px < width && 0 <= py < height && !(region is Some && region->0.contains(
            px,
            py,
        )) implies #[trigger] on_screen(px, py) == after(px, py) by {
        assert(after(px, py) == before(px, py));
        assert(!(stale is Some && stale->0.contains(px, py)));
    }
}

/// A frame goes to a buffer that the compositor is not reading from, or to a slot that has none yet
/// and gets one of the pixmap's size: to the slot whose turn it is, or else to the other one. Its
/// turn is over then. A frame is postponed exactly if both slots have a buffer and neither is
/// released: both then have missed its damage. Nothing is done with a released buffer that has
/// missed nothing. Otherwise just the box around the damage and what the buffer missed is copied.
pub proof fn a_frame_goes_to_a_buffer_that_is_not_read(
    surface: OutputSurface,
    damage: Option<DirtyRect>,
    released: Released,
)
    requires
        surface.well_formed(),
        surface.drawable(),
        surface.region_within(damage),
    ensures
        ({
            let (next, action) = surface.draw_step(damage, DrawEvent::Rendered { released });
            let (first, second) = (surface.slots.first, surface.slots.second);
            let first_busy = first.allocated && !released.first;
            let second_busy = second.allocated && !released.second;
            let to_first = !first_busy && (surface.next_slot == 0 || second_busy);
            let entry = if to_first {
                first
            } else {
                second
            };
            &&& action matches DrawAction::Copy { slot, .. } ==> {
                ||| slot == 0 && first.allocated && released.first
                ||| slot == 1 && second.allocated && released.second
            }
            &&& action matches DrawAction::CreateBuffer { slot, .. } ==> {
                ||| slot == 0 && !first.allocated
                ||| slot == 1 && !second.allocated
            }
            &&& first_busy && second_busy ==> {
                &&& action is Stop
                &&& next.next_slot == surface.next_slot
                &&& next.slots.first.allocated && next.slots.second.allocated
                &&& smallest_box(next.slots.first.stale, first.stale, damage)
                &&& smallest_box(next.slots.second.stale, second.stale, damage)
            }
            &&& !(first_busy && second_busy) ==> {
                &&& next.slots == surface.slots
                &&& next.next_slot == if to_first {
                    1int
                } else {
                    0int
                }
                &&& action is CreateBuffer <==> !entry.allocated
                &&& action is Stop <==> entry.allocated && entry.stale is None && damage is None
                &&& action matches DrawAction::CreateBuffer { slot, request } ==> {
                    &&& slot == if to_first {
                        0int
                    } else {
                        1int
                    }
                    &&& request.width == surface.renderer->0.width
                    &&& request.height == surface.renderer->0.height
                    &&& request.stride == 4 * surface.renderer->0.width
                }
                &&& action matches DrawAction::Copy { slot, region } ==> {
                    &&& slot == if to_first {
                        0int
                    } else {
                        1int
                    }
                    &&& smallest_box(Some(region), damage, entry.stale)
                }
            }
            &&& action !is Commit
        }),
{
    let (width, height) = (surface.pixmap_width(), surface.pixmap_height());
    crate::rect::union_stays_within(surface.slots.first.stale, damage, width, height);
    crate::rect::union_stays_within(surface.slots.second.stale, damage, width, height);
    crate::rect::union_is_the_smallest_box(surface.slots.first.stale, damage);
    crate::rect::union_is_the_smallest_box(surface.slots.second.stale, damage);
    crate::rect::union_stays_within(damage, surface.slots.first.stale, width, height);
    crate::rect::union_stays_within(damage, surface.slots.second.stale, width, height);
    crate::rect::union_is_the_smallest_box(damage, surface.slots.first.stale);
    crate::rect::union_is_the_smallest_box(damage, surface.slots.second.stale);
}

/// A slot that got its buffer misses all of the pixmap, and all of it is copied; the other slot
/// stays as it is. A buffer that could not be made or written to leaves both slots behind by the
/// damage, and ends the frame.
pub proof fn a_new_buffer_is_filled_and_a_lost_frame_is_missed(
    surface: OutputSurface,
    damage: Option<DirtyRect>,
    slot: usize,
)
    requires
        surface.well_formed(),
        surface.drawable(),
        surface.region_within(damage),
        slot < 2,
    ensures
        ({
            let all = DirtyRect {
                x: 0,
                y: 0,
                w: surface.renderer->0.width as i32,
                h: surface.renderer->0.height as i32,
            };
            let (made, action) = surface.draw_step(
                damage,
                DrawEvent::BufferCreated { slot, created: true },
            );
            &&& action == (DrawAction::Copy { slot, region: all })
            &&& made.next_slot == surface.next_slot
            &&& slot == 0 ==> made.slots.first == (SlotEntry { allocated: true, stale: Some(all) })
                && made.slots.second == surface.slots.second
            &&& slot == 1 ==> made.slots.second == (SlotEntry { allocated: true, stale: Some(all) })
                && made.slots.first == surface.slots.first
        }),
        ({
            let (failed, action) = surface.draw_step(
                damage,
                DrawEvent::BufferCreated { slot, created: false },
            );
            &&& action is Stop
            &&& failed.next_slot == surface.next_slot
            &&& failed.slots.first.allocated == surface.slots.first.allocated
            &&& failed.slots.second.allocated == surface.slots.second.allocated
            &&& smallest_box(failed.slots.first.stale, surface.slots.first.stale, damage)
            &&& smallest_box(failed.slots.second.stale, surface.slots.second.stale, damage)
            &&& surface.draw_step(damage, DrawEvent::CanvasLost { slot }) == (failed, action)
        }),
{
    let (width, height) = (surface.pixmap_width(), surface.pixmap_height());
    crate::rect::union_stays_within(surface.slots.first.stale, damage, width, height);
    crate::rect::union_stays_within(surface.slots.second.stale, damage, width, height);
    crate::rect::union_is_the_smallest_box(surface.slots.first.stale, damage);
    crate::rect::union_is_the_smallest_box(surface.slots.second.stale, damage);
}

/// What was copied is committed: the box around the damage and what the slot had missed. The slot
/// has then missed nothing, and the other one this damage.
pub proof fn what_was_copied_is_committed(
    surface: OutputSurface,
    damage: Option<DirtyRect>,
    slot: usize,
)
    requires
        surface.well_formed(),
        surface.drawable(),
        surface.region_within(damage),
        slot < 2,
    ensures
        ({
            let (next, action) = surface.draw_step(damage, DrawEvent::Copied { slot });
            let (first, second) = (surface.slots.first, surface.slots.second);
            let missed = if slot == 0 {
                first.stale
            } else {
                second.stale
            };
            &&& next.next_slot == surface.next_slot
            &&& next.slots.first.allocated == first.allocated
            &&& next.slots.second.allocated == second.allocated
            &&& slot == 0 ==> next.slots.first.stale is None && smallest_box(
                next.slots.second.stale,
                second.stale,
                damage,
            )
            &&& slot == 1 ==> next.slots.second.stale is None && smallest_box(
                next.slots.first.stale,
                first.stale,
                damage,
            )
            &&& action is Stop <==> damage is None && missed is None
            &&& action !is Stop ==> (action matches DrawAction::Commit { slot: s, region } && s
                == slot && smallest_box(Some(region), damage, missed))
        }),
{
    let (width, height) = (surface.pixmap_width(), surface.pixmap_height());
    crate::rect::union_stays_within(surface.slots.first.stale, damage, width, height);
    crate::rect::union_stays_within(surface.slots.second.stale, damage, width, height);
    crate::rect::union_is_the_smallest_box(surface.slots.first.stale, damage);
    crate::rect::union_is_the_smallest_box(surface.slots.second.stale, damage);
    crate::rect::union_stays_within(damage, surface.slots.first.stale, width, height);
    crate::rect::union_stays_within(damage, surface.slots.second.stale, width, height);
    crate::rect::union_is_the_smallest_box(damage, surface.slots.first.stale);
    crate::rect::union_is_the_smallest_box(damage, surface.slots.second.stale);
}

/// Drawing changes nothing of a surface but its slots and which of them is next.
pub proof fn drawing_changes_only_the_slots(
    surface: OutputSurface,
    damage: Option<DirtyRect>,
    event: DrawEvent,
)
    ensures
        ({
            let next = surface.draw_step(damage, event).0;
            &&& next.output == surface.output && next.pool == surface.pool
            &&& next.width == surface.width && next.height == surface.height
            &&& next.scale == surface.scale && next.origin == surface.origin
            &&& next.renderer == surface.renderer && next.configured == surface.configured
        }),
{
}

/// A surface can be drawn to exactly if it is configured and has a pool and a pixmap; its buffers
/// have as many pixels for every logical pixel as its scale says, on each side.
pub proof fn buffers_have_the_scaled_size(surface: OutputSurface)
    requires
        surface.scale >= 1,
        surface.width * surface.scale <= u32::MAX,
        surface.height * surface.scale <= u32::MAX,
    ensures
        surface.drawable() <==> surface.configured && surface.pool && surface.renderer is Some,
        surface.buffer_width() == surface.width * surface.scale,
        surface.buffer_height() == surface.height * surface.scale,
        surface.buffers().width == surface.width * surface.scale,
        surface.buffers().height == surface.height * surface.scale,
        surface.buffer_size_fits(),
        pixmap_size_fits(surface.buffers()) <==> 0 < surface.width * surface.scale && 4 * (
        surface.width * surface.scale) <= i32::MAX && 0 < surface.height * surface.scale
            <= i32::MAX,
{
    assert(0 <= surface.width * surface.scale) by (nonlinear_arith)
        requires
            surface.scale >= 1,
    ;
    assert(0 <= surface.height * surface.scale) by (nonlinear_arith)
        requires
            surface.scale >= 1,
    ;
}

/// Clipping leaves a region as it is, or a region with at least one pixel, or nothing.
pub proof fn clipping_leaves_no_new_empty_region(damage: Option<DirtyRect>, size: PixmapSize)
    requires
        pixmap_size_fits(size),
    ensures
        damage is None ==> in_pixmap(damage, size) is None,
        in_pixmap(damage, size) matches Some(part) ==> damage == Some(part) || (part.w > 0
            && part.h > 0),
{
}

/// A rebuild that succeeds leaves a pixmap of the scaled size and no buffer; one without a pool
/// leaves everything as it was, but nothing can be drawn; one without a pixmap cannot be drawn to
/// either. Where the surface is and how large is never changed.
pub proof fn a_rebuild_starts_without_buffers(
    surface: OutputSurface,
    pool: bool,
    renderer: bool,
)
    requires
        surface.scale >= 1,
        surface.width * surface.scale <= u32::MAX,
        surface.height * surface.scale <= u32::MAX,
    ensures
        ({
            let s = surface.with_memory(pool, renderer);
            let countable = 0 < surface.width * surface.scale && 4 * (surface.width
                * surface.scale) <= i32::MAX && 0 < surface.height * surface.scale <= i32::MAX;
            &&& s.pool == pool
            &&& pool ==> !s.slots.first.allocated && !s.slots.second.allocated
                && s.slots.first.stale is None && s.slots.second.stale is None
            &&& pool ==> (s.renderer is Some <==> renderer && countable)
            &&& pool && s.renderer is Some ==> s.renderer->0.width == surface.width * surface.scale
                && s.renderer->0.height == surface.height * surface.scale
            &&& !pool ==> s.slots == surface.slots && s.renderer == surface.renderer
            &&& s.output == surface.output && s.width == surface.width && s.height
                == surface.height && s.scale == surface.scale && s.origin == surface.origin
                && s.configured == surface.configured && s.next_slot == surface.next_slot
        }),
{
    buffers_have_the_scaled_size(surface);
}

/// A rebuild asks for a pixmap of the scaled size and for a pool that holds just two buffers of it,
/// at four bytes a pixel; for nothing while the surface has no pixels.
pub proof fn the_pool_holds_two_buffers(surface: OutputSurface, request: Option<PoolRequest>)
    requires
        surface.scale >= 1,
        call_ensures(OutputSurface::rebuild, (&surface,), request),
    ensures
        request is None <==> surface.width == 0 || surface.height == 0,
        request matches Some(r) ==> r.width == surface.width * surface.scale && r.height
            == surface.height * surface.scale && r.len == 2 * (4 * (surface.width * surface.scale
            * (surface.height * surface.scale))),
{
    let (w, h) = (surface.width * surface.scale, surface.height * surface.scale);
    assert(w * h * 4 * 2 == 2 * (4 * (w * h))) by (nonlinear_arith);
}

} // verus!
