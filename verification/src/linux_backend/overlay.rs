//! The Wayland overlay: one surface per output, kept in step with the outputs that exist, the
//! animation timer and the configuration.

use vstd::prelude::*;
use crate::keys::EmitKind;
use crate::linux_backend::keyboard::{handle_signal, InputSignal};
use crate::linux_backend::pointer::Pointer;
use crate::linux_backend::surface::OutputSurface;
use crate::pacing::{time_since, ConfigWatch, FrameClock};

verus! {

/// How often the configuration file is looked at, in nanoseconds. Cheap enough at two seconds.
pub const CONFIG_POLL: u64 = 2_000_000_000;

/// What the compositor says about an output.
#[derive(Debug, Clone, Copy, PartialEq, Eq)]
pub struct OutputInfo {
    pub logical_size: Option<(i32, i32)>,
    pub logical_position: Option<(i32, i32)>,
    pub scale_factor: i32,
}

/// An output that exists, and what is known about it so far.
#[derive(Debug, Clone, Copy, PartialEq, Eq)]
pub struct OutputReport {
    pub output: u64,
    pub info: Option<OutputInfo>,
}

/// What has to be done outside after the surfaces were brought in step with the outputs.
#[derive(Debug)]
pub struct SyncPlan {
    /// The outputs for which a surface has to be created, in order.
    pub create: Vec<u64>,
    /// The outputs whose surface has to be rebuilt, in order.
    pub rebuild: Vec<u64>,
}

/// What follows from a size that the compositor sent for a surface.
#[derive(Debug, Clone, Copy, PartialEq, Eq)]
pub enum Configured {
    /// The surface does not exist.
    Unknown,
    /// The surface has no size on one side yet.
    Waiting,
    /// The surface can be drawn to, after a rebuild if its buffers have another size.
    Ready { rebuild: bool },
}

/// Whether the animation timer fires again.
#[derive(Debug, Clone, Copy, PartialEq, Eq, Structural)]
pub enum TimerAction {
    /// After that many nanoseconds, the frame interval.
    Again { nanos: u64 },
    /// Not until it is armed again.
    Drop,
}

/// The state of the overlay.
#[derive(Debug)]
pub struct Overlay {
    pub surfaces: Vec<OutputSurface>,
    pub pointer: Pointer,
    pub clock: FrameClock,
    pub timer_armed: bool,
    pub config: ConfigWatch,
}

/// A side of an output, which is never negative.
pub open spec fn side(length: i32) -> u32 {
    if length > 0 {
        length as u32
    } else {
        0
    }
}

/// A scale factor, which is at least one.
pub open spec fn positive_scale(factor: i32) -> i32 {
    if factor >= 1 {
        factor
    } else {
        1
    }
}

impl OutputInfo {
    /// The surface of an output that has none yet: what is not known counts as zero.
    pub open spec fn surface(self, output: u64) -> OutputSurface {
        let (width, height) = match self.logical_size {
            Some((w, h)) => (side(w), side(h)),
            None => (0, 0),
        };
        OutputSurface {
            output,
            pool: false,
            slots: crate::linux_backend::surface::Slots::vacant(),
            next_slot: 0,
            width,
            height,
            scale: positive_scale(self.scale_factor),
            origin: match self.logical_position {
                Some(position) => position,
                None => (0, 0),
            },
            renderer: None,
            configured: false,
        }
    }

    /// A surface that exists, with the place and the scale that its output has now.
    pub open spec fn applied(self, surface: OutputSurface) -> OutputSurface {
        OutputSurface {
            origin: match self.logical_position {
                Some(position) => position,
                None => surface.origin,
            },
            scale: positive_scale(self.scale_factor),
            ..surface
        }
    }

    fn new_surface(&self, output: u64) -> (surface: OutputSurface)
        ensures
            surface == self.surface(output),
            surface.well_formed(),
    {
        let (width, height): (u32, u32) = match self.logical_size {
            Some((w, h)) => (
                if w > 0 {
                    w as u32
                } else {
                    0
                },
                if h > 0 {
                    h as u32
                } else {
                    0
                },
            ),
            None => (0, 0),
        };
        let origin: (i32, i32) = match self.logical_position {
            Some(position) => position,
            None => (0, 0),
        };
        let scale: i32 = if self.scale_factor >= 1 {
            self.scale_factor
        } else {
            1
        };
        OutputSurface::new(output, width, height, scale, origin)
    }
}

/// Where the surface of an output is in the list; the length of the list if it has none.
pub open spec fn place_of(surfaces: Seq<OutputSurface>, output: u64) -> nat
    decreases surfaces.len(),
{
    if surfaces.len() == 0 || surfaces.first().output == output {
        0
    } else {
        1 + place_of(surfaces.drop_first(), output)
    }
}

/// Whether an output has a surface.
pub open spec fn has_surface(surfaces: Seq<OutputSurface>, output: u64) -> bool {
    exists|i: int| 0 <= i < surfaces.len() && #[trigger] surfaces[i].output == output
}

/// No output has two surfaces.
pub open spec fn one_surface_per_output(surfaces: Seq<OutputSurface>) -> bool {
    forall|i: int, j: int|
        0 <= i < j < surfaces.len() ==> #[trigger] surfaces[i].output
            != #[trigger] surfaces[j].output
}

proof fn place_of_is(surfaces: Seq<OutputSurface>, output: u64, at: int)
    requires
        0 <= at <= surfaces.len(),
        forall|i: int| 0 <= i < at ==> #[trigger] surfaces[i].output != output,
        at < surfaces.len() ==> surfaces[at].output == output,
    ensures
        place_of(surfaces, output) == at,
    decreases surfaces.len(),
{
    if at > 0 {
        let rest = surfaces.drop_first();
        assert(surfaces.first() == surfaces[0]);
        assert forall|i: int| 0 <= i < at - 1 implies #[trigger] rest[i].output != output by {
            assert(rest[i] == surfaces[i + 1]);
        }
        place_of_is(rest, output, at - 1);
    }
}

proof fn place_of_finds(surfaces: Seq<OutputSurface>, output: u64)
    ensures
        place_of(surfaces, output) <= surfaces.len(),
        place_of(surfaces, output) < surfaces.len() <==> has_surface(surfaces, output),
        place_of(surfaces, output) < surfaces.len() ==> surfaces[place_of(
            surfaces,
            output,
        ) as int].output == output,
        forall|i: int| 0 <= i < place_of(surfaces, output) ==> #[trigger] surfaces[i].output != output,
    decreases surfaces.len(),
{
    if surfaces.len() == 0 {
    } else if surfaces.first().output == output {
        assert(surfaces[0].output == output);
    } else {
        let rest = surfaces.drop_first();
        place_of_finds(rest, output);
        let at = place_of(rest, output) as int;
        if has_surface(surfaces, output) {
            let i = choose|i: int| 0 <= i < surfaces.len() && #[trigger] surfaces[i].output == output;
            assert(rest[i - 1] == surfaces[i]);
        }
        if at < rest.len() {
            assert(surfaces[at + 1] == rest[at]);
        }
        assert forall|i: int| 0 <= i < at + 1 implies #[trigger] surfaces[i].output != output by {
            if i > 0 {
                assert(rest[i - 1] == surfaces[i]);
            }
        }
    }
}

/// Whether an output is listed in a report.
pub open spec fn listed(reports: Seq<OutputReport>, output: u64) -> bool {
    exists|i: int| 0 <= i < reports.len() && #[trigger] reports[i].output == output
}

/// The surfaces whose output still exists.
pub open spec fn surviving(surfaces: Seq<OutputSurface>, reports: Seq<OutputReport>) -> Seq<
    OutputSurface,
> {
    surfaces.filter(|s: OutputSurface| listed(reports, s.output))
}

/// The surfaces without that of an output.
pub open spec fn without_output(surfaces: Seq<OutputSurface>, output: u64) -> Seq<OutputSurface> {
    surfaces.filter(|s: OutputSurface| s.output != output)
}

/// Surfaces, and what has to be done outside to make them real.
pub ghost struct SyncState {
    pub surfaces: Seq<OutputSurface>,
    pub create: Seq<u64>,
    pub rebuild: Seq<u64>,
}

impl SyncState {
    /// Brings the surfaces in step with one output. An output about which nothing is known is
    /// left alone. One that has a surface passes its place and scale on to it, and another scale
    /// means a rebuild. One that has none gets one at the end of the list.
    pub open spec fn step(self, report: OutputReport) -> SyncState {
        match report.info {
            None => self,
            Some(info) => {
                let at = place_of(self.surfaces, report.output) as int;
                if at < self.surfaces.len() {
                    let before = self.surfaces[at];
                    let after = info.applied(before);
                    SyncState {
                        surfaces: self.surfaces.update(at, after),
                        rebuild: if after.scale != before.scale {
                            self.rebuild.push(report.output)
                        } else {
                            self.rebuild
                        },
                        ..self
                    }
                } else {
                    SyncState {
                        surfaces: self.surfaces.push(info.surface(report.output)),
                        create: self.create.push(report.output),
                        ..self
                    }
                }
            },
        }
    }

    /// Brings the surfaces in step with all outputs, one after the other.
    pub open spec fn steps(self, reports: Seq<OutputReport>) -> SyncState
        decreases reports.len(),
    {
        if reports.len() == 0 {
            self
        } else {
            self.steps(reports.drop_last()).step(reports.last())
        }
    }
}

/// The surfaces after they were brought in step with the outputs, and what has to be done.
pub open spec fn synced(surfaces: Seq<OutputSurface>, reports: Seq<OutputReport>) -> SyncState {
    SyncState {
        surfaces: surviving(surfaces, reports),
        create: Seq::empty(),
        rebuild: Seq::empty(),
    }.steps(reports)
}

/// The right edge of the outputs that reach furthest; never left of the origin.
pub open spec fn far_right(surfaces: Seq<OutputSurface>) -> int
    decreases surfaces.len(),
{
    if surfaces.len() == 0 {
        0
    } else {
        crate::rect::greatest(
            far_right(surfaces.drop_last()),
            surfaces.last().origin.0 + surfaces.last().width,
        )
    }
}

/// The lower edge of the outputs that reach furthest; never above the origin.
pub open spec fn far_bottom(surfaces: Seq<OutputSurface>) -> int
    decreases surfaces.len(),
{
    if surfaces.len() == 0 {
        0
    } else {
        crate::rect::greatest(
            far_bottom(surfaces.drop_last()),
            surfaces.last().origin.1 + surfaces.last().height,
        )
    }
}

/// The pointer after the outputs were laid out: it is confined to the area that they reach, if
/// they reach any.
pub open spec fn confined(pointer: Pointer, surfaces: Seq<OutputSurface>) -> Pointer {
    if far_right(surfaces) > 0 && far_bottom(surfaces) > 0 {
        pointer.resized(far_right(surfaces) as i64, far_bottom(surfaces) as i64)
    } else {
        pointer
    }
}

/// A surface with the size that the compositor sent; zero leaves a side as it is.
pub open spec fn with_size(surface: OutputSurface, width: u32, height: u32) -> OutputSurface {
    OutputSurface {
        width: if width > 0 {
            width
        } else {
            surface.width
        },
        height: if height > 0 {
            height
        } else {
            surface.height
        },
        ..surface
    }
}

/// A surface after the compositor sent a size, and what follows.
pub open spec fn sized(surface: OutputSurface, width: u32, height: u32) -> (
    OutputSurface,
    Configured,
) {
    let s = with_size(surface, width, height);
    if s.width == 0 || s.height == 0 {
        (s, Configured::Waiting)
    } else {
        (
            OutputSurface { configured: true, ..s },
            Configured::Ready { rebuild: pixmap_outdated(s) },
        )
    }
}

/// Whether a surface's pixmap does not have the size of its buffers.
pub open spec fn pixmap_outdated(surface: OutputSurface) -> bool {
    surface.renderer != Some(surface.buffers())
}

impl Overlay {
    /// Every surface is well formed, no output has two, and the pointer is on the screen.
    pub open spec fn well_formed(self) -> bool {
        &&& forall|i: int| 0 <= i < self.surfaces@.len() ==> (#[trigger] self.surfaces@[i]).well_formed()
        &&& one_surface_per_output(self.surfaces@)
        &&& self.pointer.well_formed()
    }

    /// Everything but the surfaces and the pointer is as before.
    pub open spec fn same_timer_and_config(self, before: Overlay) -> bool {
        &&& self.clock == before.clock
        &&& self.timer_armed == before.timer_armed
        &&& self.config == before.config
    }

    /// The overlay with its timer armed: time counts from now on, unless the timer was armed.
    pub open spec fn armed(self, now: u64) -> Overlay {
        if self.timer_armed {
            self
        } else {
            Overlay {
                timer_armed: true,
                clock: FrameClock { last_tick: now, ..self.clock },
                ..self
            }
        }
    }

    /// What the timer does after a tick.
    pub open spec fn timer_action(self, idle: bool, pending_paint: bool) -> TimerAction {
        if idle && !pending_paint {
            TimerAction::Drop
        } else {
            TimerAction::Again { nanos: self.clock.interval }
        }
    }

    /// Starts without surfaces; the first outputs are reported later.
    pub fn new(pointer: Pointer, config: ConfigWatch, now: u64, interval: u64) -> (overlay: Self)
        requires
            pointer.well_formed(),
        ensures
            overlay.well_formed(),
            overlay.surfaces@.len() == 0,
            overlay.pointer == pointer,
            overlay.config == config,
            overlay.clock == (FrameClock { last_tick: now, interval }),
            !overlay.timer_armed,
    {
        Overlay {
            surfaces: Vec::new(),
            pointer,
            clock: FrameClock::new(now, interval),
            timer_armed: false,
            config,
        }
    }

    /// The place of an output's surface in the list, if it has one.
    pub fn find(&self, output: u64) -> (at: Option<usize>)
        ensures
            at is Some <==> has_surface(self.surfaces@, output),
            at matches Some(i) ==> i < self.surfaces@.len() && i == place_of(
                self.surfaces@,
                output,
            ) && self.surfaces@[i as int].output == output,
            at is None ==> place_of(self.surfaces@, output) == self.surfaces@.len(),
    {
        let mut i: usize = 0;
        while i < self.surfaces.len()
            invariant
                i <= self.surfaces@.len(),
                forall|j: int| 0 <= j < i ==> #[trigger] self.surfaces@[j].output != output,
            decreases self.surfaces@.len() - i,
        {
            if self.surfaces[i].output == output {
                proof {
                    place_of_is(self.surfaces@, output, i as int);
                }
                return Some(i);
            }
            i = i + 1;
        }
        proof {
            place_of_is(self.surfaces@, output, i as int);
        }
        None
    }

    /// Applies an input signal. A key asks for an effect, which `emission` then puts at the
    /// pointer's position.
    pub fn on_input(&mut self, signal: InputSignal) -> (emit: Option<EmitKind>)
        requires
            old(self).well_formed(),
        ensures
            final(self).well_formed(),
            final(self).surfaces@ == old(self).surfaces@,
            final(self).same_timer_and_config(*old(self)),
            signal matches InputSignal::Motion { dx, dy } ==> emit is None && final(self).pointer
                == old(self).pointer.moved_by(dx, dy),
            signal matches InputSignal::Key(class) ==> emit == class.effect()
                && final(self).pointer == old(self).pointer,
    {
        handle_signal(signal, &mut self.pointer)
    }

    /// An effect was asked for, and spawned particles or not: only new particles arm the timer.
    /// Returns whether a timer has to be started.
    pub fn emitted(&mut self, spawned: bool, now: u64) -> (start: bool)
        requires
            old(self).well_formed(),
        ensures
            final(self).well_formed(),
            *final(self) == if spawned {
                old(self).armed(now)
            } else {
                *old(self)
            },
            start == (spawned && !old(self).timer_armed),
            final(self).timer_armed == (old(self).timer_armed || spawned),
            final(self).clock == if start {
                FrameClock { last_tick: now, ..old(self).clock }
            } else {
                old(self).clock
            },
            final(self).surfaces@ == old(self).surfaces@,
            final(self).pointer == old(self).pointer,
            final(self).config == old(self).config,
    {
        if spawned {
            self.arm_timer(now)
        } else {
            false
        }
    }

    /// Arms the animation timer. Returns whether a timer has to be started, which is so unless
    /// one is running already. The time while none was running does not advance the particles.
    pub fn arm_timer(&mut self, now: u64) -> (start: bool)
        requires
            old(self).well_formed(),
        ensures
            final(self).well_formed(),
            *final(self) == old(self).armed(now),
            start == !old(self).timer_armed,
            final(self).timer_armed,
            final(self).clock == if start {
                FrameClock { last_tick: now, ..old(self).clock }
            } else {
                old(self).clock
            },
            final(self).surfaces@ == old(self).surfaces@,
            final(self).pointer == old(self).pointer,
            final(self).config == old(self).config,
    {
        if self.timer_armed {
            return false;
        }
        self.timer_armed = true;
        self.clock.last_tick = now;
        true
    }

    /// The timer could not be started.
    pub fn timer_failed(&mut self)
        requires
            old(self).well_formed(),
        ensures
            final(self).well_formed(),
            !final(self).timer_armed,
            final(self).clock == old(self).clock,
            final(self).surfaces@ == old(self).surfaces@,
            final(self).pointer == old(self).pointer,
            final(self).config == old(self).config,
    {
        self.timer_armed = false;
    }

    /// The timer fired: returns by how many nanoseconds the particles advance before every
    /// surface is drawn.
    pub fn tick(&mut self, now: u64) -> (nanos: u64)
        requires
            old(self).well_formed(),
        ensures
            final(self).well_formed(),
            nanos == time_since(now, old(self).clock.last_tick),
            final(self).clock == (FrameClock { last_tick: now, ..old(self).clock }),
            final(self).timer_armed == old(self).timer_armed,
            final(self).surfaces@ == old(self).surfaces@,
            final(self).pointer == old(self).pointer,
            final(self).config == old(self).config,
    {
        let nanos: u64 = now.saturating_sub(self.clock.last_tick);
        self.clock.last_tick = now;
        nanos
    }

    /// After a tick: the timer stops once no particle is left and no surface has anything to
    /// erase, so that an idle overlay uses no CPU.
    pub fn after_tick(&mut self, idle: bool, pending_paint: bool) -> (action: TimerAction)
        requires
            old(self).well_formed(),
        ensures
            final(self).well_formed(),
            action == old(self).timer_action(idle, pending_paint),
            action == if idle && !pending_paint {
                TimerAction::Drop
            } else {
                TimerAction::Again { nanos: old(self).clock.interval }
            },
            final(self).timer_armed == (old(self).timer_armed && action is Again),
            final(self).clock == old(self).clock,
            final(self).surfaces@ == old(self).surfaces@,
            final(self).pointer == old(self).pointer,
            final(self).config == old(self).config,
    {
        if idle && !pending_paint {
            self.timer_armed = false;
            TimerAction::Drop
        } else {
            TimerAction::Again { nanos: self.clock.interval }
        }
    }

    /// Whether the configuration has to be loaded again, given the file's time.
    pub fn reload_config_if_changed(&mut self, current: Option<i128>) -> (load: bool)
        requires
            old(self).well_formed(),
        ensures
            final(self).well_formed(),
            load == old(self).config.differs(current),
            final(self).config == old(self).config.seen(current, load),
            final(self).clock == old(self).clock,
            final(self).timer_armed == old(self).timer_armed,
            final(self).surfaces@ == old(self).surfaces@,
            final(self).pointer == old(self).pointer,
    {
        self.config.changed(current)
    }

    /// The configuration was loaded again: frames last as long as it says, and the timer is
    /// armed. Returns whether a timer has to be started.
    pub fn config_loaded(&mut self, interval: u64, now: u64) -> (start: bool)
        requires
            old(self).well_formed(),
        ensures
            final(self).well_formed(),
            start == !old(self).timer_armed,
            final(self).timer_armed,
            final(self).clock == (FrameClock { interval, ..old(self).armed(now).clock }),
            final(self).clock == (FrameClock {
                last_tick: if start {
                    now
                } else {
                    old(self).clock.last_tick
                },
                interval,
            }),
            final(self).surfaces@ == old(self).surfaces@,
            final(self).pointer == old(self).pointer,
            final(self).config == old(self).config,
    {
        self.clock.set_interval(interval);
        self.arm_timer(now)
    }

    /// Confines the pointer to the area that the outputs reach.
    fn update_bounds(&mut self)
        requires
            old(self).well_formed(),
        ensures
            final(self).well_formed(),
            final(self).surfaces@ == old(self).surfaces@,
            final(self).pointer == confined(old(self).pointer, old(self).surfaces@),
            final(self).same_timer_and_config(*old(self)),
    {
        let mut max_x: i64 = 0;
        let mut max_y: i64 = 0;
        let mut i: usize = 0;
        while i < self.surfaces.len()
            invariant
                i <= self.surfaces@.len(),
                max_x == far_right(self.surfaces@.take(i as int)),
                max_y == far_bottom(self.surfaces@.take(i as int)),
            decreases self.surfaces@.len() - i,
        {
            assert(self.surfaces@.take(i as int + 1).drop_last() == self.surfaces@.take(i as int));
            let right: i64 = self.surfaces[i].origin.0 as i64 + self.surfaces[i].width as i64;
            let bottom: i64 = self.surfaces[i].origin.1 as i64 + self.surfaces[i].height as i64;
            if right > max_x {
                max_x = right;
            }
            if bottom > max_y {
                max_y = bottom;
            }
            i = i + 1;
        }
        assert(self.surfaces@.take(i as int) == self.surfaces@);
        if max_x > 0 && max_y > 0 {
            self.pointer.set_bounds(max_x, max_y);
        }
    }

    /// Drops every surface whose output is gone.
    fn retain_listed(&mut self, reports: &Vec<OutputReport>)
        requires
            old(self).well_formed(),
        ensures
            final(self).well_formed(),
            final(self).surfaces@ == surviving(old(self).surfaces@, reports@),
            final(self).pointer == old(self).pointer,
            final(self).same_timer_and_config(*old(self)),
    {
        let ghost keep = |s: OutputSurface| listed(reports@, s.output);
        let mut kept: Vec<OutputSurface> = Vec::new();
        let mut i: usize = 0;
        while i < self.surfaces.len()
            invariant
                i <= self.surfaces@.len(),
                keep == (|s: OutputSurface| listed(reports@, s.output)),
                kept@ == self.surfaces@.take(i as int).filter(keep),
            decreases self.surfaces@.len() - i,
        {
            proof {
                filter_takes_one_more(self.surfaces@, keep, i as int);
            }
            if is_listed(reports, self.surfaces[i].output) {
                kept.push(self.surfaces[i]);
            }
            i = i + 1;
        }
        assert(self.surfaces@.take(i as int) == self.surfaces@);
        proof {
            filtering_keeps_order(self.surfaces@, keep);
        }
        self.surfaces = kept;
    }

    /// Drops the surface of an output.
    fn remove(&mut self, output: u64)
        requires
            old(self).well_formed(),
        ensures
            final(self).well_formed(),
            final(self).surfaces@ == without_output(old(self).surfaces@, output),
            final(self).pointer == old(self).pointer,
            final(self).same_timer_and_config(*old(self)),
    {
        let ghost keep = |s: OutputSurface| s.output != output;
        let mut kept: Vec<OutputSurface> = Vec::new();
        let mut i: usize = 0;
        while i < self.surfaces.len()
            invariant
                i <= self.surfaces@.len(),
                keep == (|s: OutputSurface| s.output != output),
                kept@ == self.surfaces@.take(i as int).filter(keep),
            decreases self.surfaces@.len() - i,
        {
            proof {
                filter_takes_one_more(self.surfaces@, keep, i as int);
            }
            if self.surfaces[i].output != output {
                kept.push(self.surfaces[i]);
            }
            i = i + 1;
        }
        assert(self.surfaces@.take(i as int) == self.surfaces@);
        proof {
            filtering_keeps_order(self.surfaces@, keep);
        }
        self.surfaces = kept;
    }

    /// Brings an existing surface's place and scale in step with its output. Returns whether the
    /// surface has to be rebuilt, which is so if the scale changed.
    pub fn update_geometry(&mut self, report: OutputReport) -> (rebuild: bool)
        requires
            old(self).well_formed(),
        ensures
            final(self).well_formed(),
            final(self).pointer == old(self).pointer,
            final(self).same_timer_and_config(*old(self)),
            !has_surface(old(self).surfaces@, report.output) || report.info is None ==> !rebuild
                && final(self).surfaces@ == old(self).surfaces@,
            has_surface(old(self).surfaces@, report.output) && report.info is Some ==> {
                let at = place_of(old(self).surfaces@, report.output) as int;
                let before = old(self).surfaces@[at];
                let after = report.info->0.applied(before);
                &&& final(self).surfaces@ == old(self).surfaces@.update(at, after)
                &&& rebuild == (after.scale != before.scale)
            },
    {
        let info = match report.info {
            Some(info) => info,
            None => return false,
        };
        let at = match self.find(report.output) {
            Some(at) => at,
            None => return false,
        };
        let mut surface = self.surfaces[at];
        if let Some(position) = info.logical_position {
            surface.origin = position;
        }
        let scale: i32 = if info.scale_factor >= 1 {
            info.scale_factor
        } else {
            1
        };
        let rebuild = scale != surface.scale;
        surface.scale = scale;
        self.replace(at, surface);
        rebuild
    }

    /// Replaces a surface by one of the same output.
    fn replace(&mut self, at: usize, surface: OutputSurface)
        requires
            old(self).well_formed(),
            at < old(self).surfaces@.len(),
            surface.output == old(self).surfaces@[at as int].output,
            surface.well_formed(),
        ensures
            final(self).well_formed(),
            final(self).surfaces@ == old(self).surfaces@.update(at as int, surface),
            final(self).pointer == old(self).pointer,
            final(self).same_timer_and_config(*old(self)),
    {
        self.surfaces.set(at, surface);
    }

    /// Creates surfaces for new outputs and drops them for removed ones.
    pub fn sync_outputs(&mut self, reports: &Vec<OutputReport>) -> (plan: SyncPlan)
        requires
            old(self).well_formed(),
        ensures
            final(self).well_formed(),
            final(self).surfaces@ == synced(old(self).surfaces@, reports@).surfaces,
            plan.create@ == synced(old(self).surfaces@, reports@).create,
            plan.rebuild@ == synced(old(self).surfaces@, reports@).rebuild,
            final(self).pointer == confined(old(self).pointer, final(self).surfaces@),
            final(self).same_timer_and_config(*old(self)),
    {
        let ghost base = SyncState {
            surfaces: surviving(self.surfaces@, reports@),
            create: Seq::empty(),
            rebuild: Seq::empty(),
        };
        self.retain_listed(reports);
        let mut create: Vec<u64> = Vec::new();
        let mut rebuild: Vec<u64> = Vec::new();
        let mut i: usize = 0;
        assert(reports@.take(0) == Seq::<OutputReport>::empty());
        while i < reports.len()
            invariant
                i <= reports@.len(),
                self.well_formed(),
                self.pointer == old(self).pointer,
                self.same_timer_and_config(*old(self)),
                (SyncState { surfaces: self.surfaces@, create: create@, rebuild: rebuild@ })
                    == base.steps(reports@.take(i as int)),
            decreases reports@.len() - i,
        {
            assert(reports@.take(i as int + 1).drop_last() == reports@.take(i as int));
            let report = reports[i];
            proof {
                place_of_finds(self.surfaces@, report.output);
            }
            if self.find(report.output).is_some() {
                if self.update_geometry(report) {
                    rebuild.push(report.output);
                }
            } else if let Some(info) = report.info {
                let surface = info.new_surface(report.output);
                self.surfaces.push(surface);
                create.push(report.output);
            }
            i = i + 1;
        }
        assert(reports@.take(i as int) == reports@);
        self.update_bounds();
        SyncPlan { create, rebuild }
    }

    /// The compositor has another report about one output. Returns whether its surface has to be
    /// rebuilt.
    pub fn update_output(&mut self, report: OutputReport) -> (rebuild: bool)
        requires
            old(self).well_formed(),
        ensures
            final(self).well_formed(),
            final(self).pointer == confined(old(self).pointer, final(self).surfaces@),
            final(self).same_timer_and_config(*old(self)),
            !has_surface(old(self).surfaces@, report.output) || report.info is None ==> !rebuild
                && final(self).surfaces@ == old(self).surfaces@,
            has_surface(old(self).surfaces@, report.output) && report.info is Some ==> {
                let at = place_of(old(self).surfaces@, report.output) as int;
                let before = old(self).surfaces@[at];
                let after = report.info->0.applied(before);
                &&& final(self).surfaces@ == old(self).surfaces@.update(at, after)
                &&& rebuild == (after.scale != before.scale)
            },
    {
        let rebuild = self.update_geometry(report);
        self.update_bounds();
        rebuild
    }

    /// The compositor sent another scale for a surface. Returns whether that surface exists; if
    /// so, it has to be rebuilt.
    pub fn scale_factor_changed(&mut self, output: u64, new_factor: i32) -> (rebuild: bool)
        requires
            old(self).well_formed(),
        ensures
            final(self).well_formed(),
            final(self).pointer == old(self).pointer,
            final(self).same_timer_and_config(*old(self)),
            rebuild == has_surface(old(self).surfaces@, output),
            !rebuild ==> final(self).surfaces@ == old(self).surfaces@,
            rebuild ==> {
                let at = place_of(old(self).surfaces@, output) as int;
                final(self).surfaces@ == old(self).surfaces@.update(
                    at,
                    OutputSurface {
                        scale: positive_scale(new_factor),
                        ..old(self).surfaces@[at]
                    },
                )
            },
    {
        let at = match self.find(output) {
            Some(at) => at,
            None => return false,
        };
        let mut surface = self.surfaces[at];
        surface.scale = if new_factor >= 1 {
            new_factor
        } else {
            1
        };
        self.replace(at, surface);
        true
    }

    /// An output is gone, and its surface with it.
    pub fn output_destroyed(&mut self, output: u64)
        requires
            old(self).well_formed(),
        ensures
            final(self).well_formed(),
            final(self).surfaces@ == without_output(old(self).surfaces@, output),
            final(self).pointer == confined(old(self).pointer, final(self).surfaces@),
            final(self).same_timer_and_config(*old(self)),
    {
        self.remove(output);
        self.update_bounds();
    }

    /// The compositor closed a surface. The pointer's bounds stay as they are.
    pub fn closed(&mut self, output: u64)
        requires
            old(self).well_formed(),
        ensures
            final(self).well_formed(),
            final(self).surfaces@ == without_output(old(self).surfaces@, output),
            final(self).pointer == old(self).pointer,
            final(self).same_timer_and_config(*old(self)),
    {
        self.remove(output);
    }

    /// The compositor sent the size of a surface.
    pub fn configure(&mut self, output: u64, width: u32, height: u32) -> (outcome: Configured)
        requires
            old(self).well_formed(),
            has_surface(old(self).surfaces@, output) ==> {
                let sized = with_size(
                    old(self).surfaces@[place_of(old(self).surfaces@, output) as int],
                    width,
                    height,
                );
                sized.width > 0 && sized.height > 0 ==> sized.buffer_size_fits()
            },
        ensures
            final(self).well_formed(),
            final(self).same_timer_and_config(*old(self)),
            !has_surface(old(self).surfaces@, output) ==> outcome == Configured::Unknown
                && final(self).surfaces@ == old(self).surfaces@ && final(self).pointer
                == old(self).pointer,
            has_surface(old(self).surfaces@, output) ==> {
                let at = place_of(old(self).surfaces@, output) as int;
                &&& outcome == sized(old(self).surfaces@[at], width, height).1
                &&& final(self).surfaces@ == old(self).surfaces@.update(
                    at,
                    sized(old(self).surfaces@[at], width, height).0,
                )
            },
            has_surface(old(self).surfaces@, output) ==> {
                let at = place_of(old(self).surfaces@, output) as int;
                let sized = with_size(old(self).surfaces@[at], width, height);
                if sized.width == 0 || sized.height == 0 {
                    &&& outcome == Configured::Waiting
                    &&& final(self).surfaces@ == old(self).surfaces@.update(at, sized)
                    &&& final(self).pointer == old(self).pointer
                } else {
                    &&& outcome == (Configured::Ready { rebuild: pixmap_outdated(sized) })
                    &&& final(self).surfaces@ == old(self).surfaces@.update(
                        at,
                        OutputSurface { configured: true, ..sized },
                    )
                    &&& final(self).pointer == confined(
                        old(self).pointer,
                        final(self).surfaces@,
                    )
                }
            },
    {
        let at = match self.find(output) {
            Some(at) => at,
            None => return Configured::Unknown,
        };
        let mut surface = self.surfaces[at];
        if width > 0 {
            surface.width = width;
        }
        if height > 0 {
            surface.height = height;
        }
        if surface.width == 0 || surface.height == 0 {
            self.replace(at, surface);
            return Configured::Waiting;
        }
        let (buffer_width, buffer_height) = surface.buffer_size();
        let rebuild = match surface.renderer {
            Some(size) => size.width != buffer_width || size.height != buffer_height,
            None => true,
        };
        surface.configured = true;
        self.replace(at, surface);
        self.update_bounds();
        Configured::Ready { rebuild }
    }
}

/// An overlay in which one surface was replaced by a well-formed one of the same output, as drawing
/// on it or rebuilding it does, is still well formed.
pub proof fn replacing_a_surface_keeps_the_overlay_well_formed(
    before: Overlay,
    after: Overlay,
    at: int,
    surface: OutputSurface,
)
    requires
        before.well_formed(),
        0 <= at < before.surfaces@.len(),
        surface.well_formed(),
        surface.output == before.surfaces@[at].output,
        after.surfaces@ == before.surfaces@.update(at, surface),
        after.pointer == before.pointer,
    ensures
        after.well_formed(),
{
}

/// Whether an output is listed.
fn is_listed(reports: &Vec<OutputReport>, output: u64) -> (b: bool)
    ensures
        b == listed(reports@, output),
{
    let mut i: usize = 0;
    while i < reports.len()
        invariant
            i <= reports@.len(),
            forall|j: int| 0 <= j < i ==> #[trigger] reports@[j].output != output,
        decreases reports@.len() - i,
    {
        if reports[i].output == output {
            return true;
        }
        i = i + 1;
    }
    false
}

proof fn filter_takes_one_more(
    surfaces: Seq<OutputSurface>,
    keep: spec_fn(OutputSurface) -> bool,
    i: int,
)
    requires
        0 <= i < surfaces.len(),
    ensures
        surfaces.take(i + 1).filter(keep) == if keep(surfaces[i]) {
            surfaces.take(i).filter(keep).push(surfaces[i])
        } else {
            surfaces.take(i).filter(keep)
        },
{
    let one_more = surfaces.take(i + 1);
    assert(one_more.drop_last() == surfaces.take(i));
    assert(one_more.last() == surfaces[i]);
    reveal(Seq::filter);
}

/// Dropping surfaces keeps the others as they are: each stays well formed, and no output gets a
/// second one.
proof fn filtering_keeps_order(
    surfaces: Seq<OutputSurface>,
    keep: spec_fn(OutputSurface) -> bool,
)
    ensures
        forall|i: int|
            0 <= i < surfaces.filter(keep).len() ==> exists|j: int|
                0 <= j < surfaces.len() && surfaces[j] == #[trigger] surfaces.filter(keep)[i],
        one_surface_per_output(surfaces) ==> one_surface_per_output(surfaces.filter(keep)),
    decreases surfaces.len(),
{
    reveal(Seq::filter);
    if surfaces.len() > 0 {
        let front = surfaces.drop_last();
        filtering_keeps_order(front, keep);
        let kept = surfaces.filter(keep);
        let kept_front = front.filter(keep);
        assert forall|i: int| 0 <= i < kept.len() implies exists|j: int|
            0 <= j < surfaces.len() && surfaces[j] == #[trigger] kept[i] by {
            if i < kept_front.len() {
                assert(kept[i] == kept_front[i]);
                let j = choose|j: int| 0 <= j < front.len() && front[j] == kept_front[i];
                assert(surfaces[j] == kept[i]);
            } else {
                assert(surfaces[surfaces.len() - 1] == kept[i]);
            }
        }
        if one_surface_per_output(surfaces) {
            assert(one_surface_per_output(front)) by {
                assert forall|i: int, j: int| 0 <= i < j < front.len() implies #[trigger] front[i].output
                    != #[trigger] front[j].output by {
                    assert(front[i] == surfaces[i] && front[j] == surfaces[j]);
                }
            }
            assert forall|i: int, j: int| 0 <= i < j < kept.len() implies #[trigger] kept[i].output
                != #[trigger] kept[j].output by {
                assert(kept[i] == kept_front[i]);
                if j < kept_front.len() {
                    assert(kept[j] == kept_front[j]);
                } else {
                    let k = choose|k: int| 0 <= k < front.len() && front[k] == kept_front[i];
                    assert(surfaces[k] == kept[i]);
                    assert(surfaces[surfaces.len() - 1] == kept[j]);
                }
            }
        }
    }
}

/// Whether an output is listed together with what is known about it.
pub open spec fn described(reports: Seq<OutputReport>, output: u64) -> bool {
    exists|i: int|
        0 <= i < reports.len() && #[trigger] reports[i].output == output && reports[i].info is Some
}

proof fn described_by_one_more(reports: Seq<OutputReport>, output: u64)
    requires
        reports.len() > 0,
    ensures
        described(reports, output) <==> described(reports.drop_last(), output) || (
        reports.last().output == output && reports.last().info is Some),
{
    let front = reports.drop_last();
    if described(reports, output) {
        let i = choose|i: int|
            0 <= i < reports.len() && #[trigger] reports[i].output == output
                && reports[i].info is Some;
        if i < front.len() {
            assert(front[i].output == output);
        }
    }
    if described(front, output) {
        let i = choose|i: int|
            0 <= i < front.len() && #[trigger] front[i].output == output && front[i].info is Some;
        assert(reports[i].output == output);
    }
    if reports.last().output == output && reports.last().info is Some {
        assert(reports[reports.len() - 1].output == output);
    }
}

proof fn step_adds_at_most_its_output(state: SyncState, report: OutputReport, output: u64)
    requires
        one_surface_per_output(state.surfaces),
    ensures
        one_surface_per_output(state.step(report).surfaces),
        has_surface(state.step(report).surfaces, output) <==> has_surface(state.surfaces, output)
            || (report.output == output && report.info is Some),
{
    let before = state.surfaces;
    let after = state.step(report).surfaces;
    place_of_finds(before, report.output);
    let at = place_of(before, report.output) as int;
    if has_surface(before, output) {
        let i = choose|i: int| 0 <= i < before.len() && #[trigger] before[i].output == output;
        assert(after[i].output == output);
    }
    if report.info is Some && at == before.len() {
        assert(after[at].output == report.output);
        assert forall|i: int, j: int| 0 <= i < j < after.len() implies #[trigger] after[i].output
            != #[trigger] after[j].output by {
            assert(before[i] == after[i]);
            if j < before.len() {
                assert(before[j] == after[j]);
            }
        }
    }
    if report.info is Some && at < before.len() {
        assert(after[at].output == report.output);
        assert forall|i: int, j: int| 0 <= i < j < after.len() implies #[trigger] after[i].output
            != #[trigger] after[j].output by {
            assert(before[i].output == after[i].output && before[j].output == after[j].output);
        }
    }
    if has_surface(after, output) {
        let i = choose|i: int| 0 <= i < after.len() && #[trigger] after[i].output == output;
        if i < before.len() {
            assert(before[i].output == output);
        }
    }
}

proof fn steps_add_the_described_outputs(
    state: SyncState,
    reports: Seq<OutputReport>,
    output: u64,
)
    requires
        one_surface_per_output(state.surfaces),
    ensures
        one_surface_per_output(state.steps(reports).surfaces),
        has_surface(state.steps(reports).surfaces, output) <==> has_surface(state.surfaces, output)
            || described(reports, output),
    decreases reports.len(),
{
    if reports.len() > 0 {
        steps_add_the_described_outputs(state, reports.drop_last(), output);
        step_adds_at_most_its_output(
            state.steps(reports.drop_last()),
            reports.last(),
            output,
        );
        described_by_one_more(reports, output);
    }
}

proof fn filtered_surfaces_are_those_kept(
    surfaces: Seq<OutputSurface>,
    keep: spec_fn(OutputSurface) -> bool,
    i: int,
)
    requires
        0 <= i < surfaces.len(),
        keep(surfaces[i]),
    ensures
        exists|j: int|
            0 <= j < surfaces.filter(keep).len() && #[trigger] surfaces.filter(keep)[j]
                == surfaces[i],
    decreases surfaces.len(),
{
    reveal(Seq::filter);
    let front = surfaces.drop_last();
    let kept = surfaces.filter(keep);
    if i == surfaces.len() - 1 {
        assert(kept[kept.len() - 1] == surfaces[i]);
    } else {
        filtered_surfaces_are_those_kept(front, keep, i);
        let j = choose|j: int|
            0 <= j < front.filter(keep).len() && #[trigger] front.filter(keep)[j] == front[i];
        assert(kept[j] == surfaces[i]);
    }
}

proof fn filtered_surfaces_pass(
    surfaces: Seq<OutputSurface>,
    keep: spec_fn(OutputSurface) -> bool,
    i: int,
)
    requires
        0 <= i < surfaces.filter(keep).len(),
    ensures
        keep(surfaces.filter(keep)[i]),
    decreases surfaces.len(),
{
    reveal(Seq::filter);
    if surfaces.len() > 0 {
        let front = surfaces.drop_last();
        if i < front.filter(keep).len() {
            filtered_surfaces_pass(front, keep, i);
        }
    }
}

/// After bringing the surfaces in step, exactly those outputs have a surface that exist and had
/// one before or are described now; and none has two.
pub proof fn synced_outputs_have_one_surface_each(
    surfaces: Seq<OutputSurface>,
    reports: Seq<OutputReport>,
    output: u64,
)
    requires
        one_surface_per_output(surfaces),
    ensures
        one_surface_per_output(synced(surfaces, reports).surfaces),
        has_surface(synced(surfaces, reports).surfaces, output) <==> listed(reports, output) && (
        has_surface(surfaces, output) || described(reports, output)),
{
    let keep = |s: OutputSurface| listed(reports, s.output);
    let kept = surfaces.filter(keep);
    filtering_keeps_order(surfaces, keep);
    steps_add_the_described_outputs(
        SyncState { surfaces: kept, create: Seq::empty(), rebuild: Seq::empty() },
        reports,
        output,
    );
    if has_surface(kept, output) {
        let i = choose|i: int| 0 <= i < kept.len() && #[trigger] kept[i].output == output;
        filtered_surfaces_pass(surfaces, keep, i);
        let j = choose|j: int| 0 <= j < surfaces.len() && surfaces[j] == kept[i];
        assert(surfaces[j].output == output);
    }
    if has_surface(surfaces, output) && listed(reports, output) {
        let i = choose|i: int| 0 <= i < surfaces.len() && #[trigger] surfaces[i].output == output;
        filtered_surfaces_are_those_kept(surfaces, keep, i);
        let j = choose|j: int| 0 <= j < kept.len() && #[trigger] kept[j] == surfaces[i];
        assert(kept[j].output == output);
    }
    if described(reports, output) {
        let i = choose|i: int|
            0 <= i < reports.len() && #[trigger] reports[i].output == output
                && reports[i].info is Some;
        assert(listed(reports, output));
    }
}

/// Two states of a surface that differ at most in its place and its scale.
pub open spec fn same_but_geometry(a: OutputSurface, b: OutputSurface) -> bool {
    OutputSurface { origin: b.origin, scale: b.scale, ..a } == b
}

proof fn steps_change_only_geometry(
    state: SyncState,
    reports: Seq<OutputReport>,
    k: int,
    surface: OutputSurface,
)
    requires
        0 <= k < state.surfaces.len(),
        same_but_geometry(state.surfaces[k], surface),
    ensures
        k < state.steps(reports).surfaces.len(),
        same_but_geometry(state.steps(reports).surfaces[k], surface),
    decreases reports.len(),
{
    if reports.len() > 0 {
        let before = state.steps(reports.drop_last());
        steps_change_only_geometry(state, reports.drop_last(), k, surface);
        place_of_finds(before.surfaces, reports.last().output);
    }
}

/// A surface whose output still exists keeps its size, its buffers and what it has drawn; only
/// its place and its scale may change.
pub proof fn surviving_surfaces_keep_their_buffers(
    surfaces: Seq<OutputSurface>,
    reports: Seq<OutputReport>,
    i: int,
)
    requires
        0 <= i < surfaces.len(),
        listed(reports, surfaces[i].output),
    ensures
        exists|j: int|
            0 <= j < synced(surfaces, reports).surfaces.len() && same_but_geometry(
                #[trigger] synced(surfaces, reports).surfaces[j],
                surfaces[i],
            ),
{
    let keep = |s: OutputSurface| listed(reports, s.output);
    let kept = surfaces.filter(keep);
    filtered_surfaces_are_those_kept(surfaces, keep, i);
    let k = choose|k: int| 0 <= k < kept.len() && #[trigger] kept[k] == surfaces[i];
    let base = SyncState { surfaces: kept, create: Seq::empty(), rebuild: Seq::empty() };
    steps_change_only_geometry(base, reports, k, surfaces[i]);
    assert(same_but_geometry(synced(surfaces, reports).surfaces[k], surfaces[i]));
}

/// A removed output has no surface any more, and every other output keeps its own.
pub proof fn removing_an_output_removes_its_surface_only(
    surfaces: Seq<OutputSurface>,
    removed: u64,
    output: u64,
)
    ensures
        has_surface(without_output(surfaces, removed), output) <==> output != removed
            && has_surface(surfaces, output),
{
    let keep = |s: OutputSurface| s.output != removed;
    let kept = surfaces.filter(keep);
    filtering_keeps_order(surfaces, keep);
    if has_surface(kept, output) {
        let i = choose|i: int| 0 <= i < kept.len() && #[trigger] kept[i].output == output;
        filtered_surfaces_pass(surfaces, keep, i);
        let j = choose|j: int| 0 <= j < surfaces.len() && surfaces[j] == kept[i];
        assert(surfaces[j].output == output);
    }
    if output != removed && has_surface(surfaces, output) {
        let i = choose|i: int| 0 <= i < surfaces.len() && #[trigger] surfaces[i].output == output;
        filtered_surfaces_are_those_kept(surfaces, keep, i);
        let j = choose|j: int| 0 <= j < kept.len() && #[trigger] kept[j] == surfaces[i];
        assert(kept[j].output == output);
    }
}

/// No output is reported twice.
pub open spec fn one_report_per_output(reports: Seq<OutputReport>) -> bool {
    forall|i: int, j: int|
        0 <= i < j < reports.len() ==> #[trigger] reports[i].output != #[trigger] reports[j].output
}

/// Every described output has a surface with the place and the scale that are reported.
pub open spec fn in_step(surfaces: Seq<OutputSurface>, reports: Seq<OutputReport>) -> bool {
    forall|i: int|
        0 <= i < reports.len() && (#[trigger] reports[i]).info is Some ==> up_to_date(
            surfaces,
            reports[i],
        )
}

/// The output has a surface with the place and the scale that are reported.
pub open spec fn up_to_date(surfaces: Seq<OutputSurface>, report: OutputReport) -> bool {
    exists|j: int|
        0 <= j < surfaces.len() && (#[trigger] surfaces[j]).output == report.output
            && report.info->0.applied(surfaces[j]) == surfaces[j]
}

proof fn step_leaves_other_outputs_alone(
    state: SyncState,
    report: OutputReport,
    earlier: OutputReport,
)
    requires
        earlier.info is Some,
        up_to_date(state.surfaces, earlier),
        earlier.output != report.output,
    ensures
        up_to_date(state.step(report).surfaces, earlier),
{
    let before = state.surfaces;
    let after = state.step(report).surfaces;
    place_of_finds(before, report.output);
    let j = choose|j: int|
        0 <= j < before.len() && (#[trigger] before[j]).output == earlier.output
            && earlier.info->0.applied(before[j]) == before[j];
    assert(after[j] == before[j]);
}

proof fn steps_bring_outputs_in_step(state: SyncState, reports: Seq<OutputReport>)
    requires
        one_report_per_output(reports),
    ensures
        in_step(state.steps(reports).surfaces, reports),
    decreases reports.len(),
{
    if reports.len() > 0 {
        let front = reports.drop_last();
        let last = reports.last();
        let before = state.steps(front);
        let after = before.step(last);
        assert(one_report_per_output(front)) by {
            assert forall|i: int, j: int| 0 <= i < j < front.len() implies #[trigger] front[i].output
                != #[trigger] front[j].output by {
                assert(front[i] == reports[i] && front[j] == reports[j]);
            }
        }
        steps_bring_outputs_in_step(state, front);
        assert forall|i: int|
            0 <= i < reports.len() && (#[trigger] reports[i]).info is Some implies up_to_date(
            after.surfaces,
            reports[i],
        ) by {
            if i < front.len() {
                assert(front[i] == reports[i]);
                assert(reports[i].output != reports[reports.len() - 1].output);
                step_leaves_other_outputs_alone(before, last, reports[i]);
            } else {
                place_of_finds(before.surfaces, last.output);
                let at = place_of(before.surfaces, last.output) as int;
                assert(after.surfaces[at].output == last.output);
                assert(last.info->0.applied(after.surfaces[at]) == after.surfaces[at]);
            }
        }
    }
}

proof fn steps_in_step_change_nothing(state: SyncState, reports: Seq<OutputReport>)
    requires
        one_surface_per_output(state.surfaces),
        in_step(state.surfaces, reports),
    ensures
        state.steps(reports) == state,
    decreases reports.len(),
{
    if reports.len() > 0 {
        let front = reports.drop_last();
        let last = reports.last();
        assert(in_step(state.surfaces, front)) by {
            assert forall|i: int|
                0 <= i < front.len() && (#[trigger] front[i]).info is Some implies up_to_date(
                state.surfaces,
                front[i],
            ) by {
                assert(front[i] == reports[i]);
            }
        }
        steps_in_step_change_nothing(state, front);
        if last.info is Some {
            assert(reports[reports.len() - 1] == last);
            let j = choose|j: int|
                0 <= j < state.surfaces.len() && (#[trigger] state.surfaces[j]).output
                    == last.output && last.info->0.applied(state.surfaces[j]) == state.surfaces[j];
            place_of_finds(state.surfaces, last.output);
            let at = place_of(state.surfaces, last.output) as int;
            assert(state.surfaces[j].output == last.output);
            assert(at == j);
            assert(state.surfaces.update(at, state.surfaces[at]) == state.surfaces);
        }
    }
}

/// The same outputs reported again ask for nothing: no surface is created or rebuilt, and none
/// changes.
pub proof fn syncing_twice_is_syncing_once(
    surfaces: Seq<OutputSurface>,
    reports: Seq<OutputReport>,
)
    requires
        one_surface_per_output(surfaces),
        one_report_per_output(reports),
    ensures
        synced(synced(surfaces, reports).surfaces, reports) == (SyncState {
            surfaces: synced(surfaces, reports).surfaces,
            create: Seq::empty(),
            rebuild: Seq::empty(),
        }),
{
    let keep = |s: OutputSurface| listed(reports, s.output);
    let once = synced(surfaces, reports).surfaces;
    filtering_keeps_order(surfaces, keep);
    let base = SyncState {
        surfaces: surviving(surfaces, reports),
        create: Seq::empty(),
        rebuild: Seq::empty(),
    };
    steps_bring_outputs_in_step(base, reports);
    steps_add_the_described_outputs(base, reports, 0);
    assert forall|i: int| 0 <= i < once.len() implies keep(#[trigger] once[i]) by {
        synced_outputs_have_one_surface_each(surfaces, reports, once[i].output);
        assert(has_surface(once, once[i].output));
    }
    filter_of_all_is_all(once, keep);
    steps_in_step_change_nothing(
        SyncState { surfaces: once, create: Seq::empty(), rebuild: Seq::empty() },
        reports,
    );
}

proof fn filter_of_all_is_all(
    surfaces: Seq<OutputSurface>,
    keep: spec_fn(OutputSurface) -> bool,
)
    requires
        forall|i: int| 0 <= i < surfaces.len() ==> keep(#[trigger] surfaces[i]),
    ensures
        surfaces.filter(keep) == surfaces,
    decreases surfaces.len(),
{
    reveal(Seq::filter);
    if surfaces.len() > 0 {
        let front = surfaces.drop_last();
        assert forall|i: int| 0 <= i < front.len() implies keep(#[trigger] front[i]) by {
            assert(front[i] == surfaces[i]);
        }
        filter_of_all_is_all(front, keep);
        assert(keep(surfaces[surfaces.len() - 1]));
        assert(front.push(surfaces.last()) == surfaces);
    }
}

/// The pointer's area reaches past every output.
pub proof fn bounds_reach_past_every_output(surfaces: Seq<OutputSurface>, i: int)
    requires
        0 <= i < surfaces.len(),
    ensures
        surfaces[i].origin.0 + surfaces[i].width <= far_right(surfaces),
        surfaces[i].origin.1 + surfaces[i].height <= far_bottom(surfaces),
    decreases surfaces.len(),
{
    if i < surfaces.len() - 1 {
        bounds_reach_past_every_output(surfaces.drop_last(), i);
    }
}

/// The place of an output's surface is that of the first surface with that output, if there is one.
pub proof fn a_surface_is_found_at_its_first_place(surfaces: Seq<OutputSurface>, output: u64)
    ensures
        has_surface(surfaces, output) <==> exists|i: int|
            0 <= i < surfaces.len() && #[trigger] surfaces[i].output == output,
        has_surface(surfaces, output) ==> place_of(surfaces, output) < surfaces.len() && surfaces[
        place_of(surfaces, output) as int].output == output,
        !has_surface(surfaces, output) ==> place_of(surfaces, output) == surfaces.len(),
        forall|i: int| 0 <= i < place_of(surfaces, output) ==> #[trigger] surfaces[i].output != output,
{
    place_of_finds(surfaces, output);
}

/// A new surface covers the size and the place of its output, as far as they are known and not
/// negative, with a scale of at least one. It has nothing allocated and is not configured.
pub proof fn a_new_surface_has_the_reported_geometry(info: OutputInfo, output: u64)
    ensures
        ({
            let s = info.surface(output);
            &&& s.output == output
            &&& info.logical_size matches Some((w, h)) ==> {
                &&& s.width == if w > 0 {
                    w as int
                } else {
                    0
                }
                &&& s.height == if h > 0 {
                    h as int
                } else {
                    0
                }
            }
            &&& info.logical_size is None ==> s.width == 0 && s.height == 0
            &&& s.origin == if info.logical_position is Some {
                info.logical_position->0
            } else {
                (0i32, 0i32)
            }
            &&& s.scale == if info.scale_factor >= 1 {
                info.scale_factor
            } else {
                1
            }
            &&& !s.pool && s.renderer is None && !s.configured && s.next_slot == 0
            &&& !s.slots.first.allocated && s.slots.first.stale is None
            &&& !s.slots.second.allocated && s.slots.second.stale is None
        }),
{
}

/// A surface takes over the place of its output, if that is known, and its scale, which is at least
/// one. Everything else of it stays.
pub proof fn a_surface_takes_over_place_and_scale(info: OutputInfo, surface: OutputSurface)
    ensures
        ({
            let s = info.applied(surface);
            &&& s.origin == if info.logical_position is Some {
                info.logical_position->0
            } else {
                surface.origin
            }
            &&& s.scale == if info.scale_factor >= 1 {
                info.scale_factor
            } else {
                1
            }
            &&& same_but_geometry(s, surface)
            &&& s.output == surface.output && s.width == surface.width && s.height
                == surface.height && s.pool == surface.pool && s.slots == surface.slots
                && s.next_slot == surface.next_slot && s.renderer == surface.renderer
                && s.configured == surface.configured
        }),
        positive_scale(info.scale_factor) >= 1,
        info.scale_factor >= 1 ==> positive_scale(info.scale_factor) == info.scale_factor,
        info.scale_factor < 1 ==> positive_scale(info.scale_factor) == 1,
{
}

/// A size that the compositor sends replaces each side that is not zero, and nothing else. A pixmap
/// is outdated exactly if there is none or it has not the scaled size.
pub proof fn a_sent_size_replaces_the_sides_that_are_not_zero(
    surface: OutputSurface,
    width: u32,
    height: u32,
)
    ensures
        ({
            let s = with_size(surface, width, height);
            &&& width > 0 ==> s.width == width
            &&& width == 0 ==> s.width == surface.width
            &&& height > 0 ==> s.height == height
            &&& height == 0 ==> s.height == surface.height
            &&& s.output == surface.output && s.scale == surface.scale && s.origin
                == surface.origin && s.pool == surface.pool && s.slots == surface.slots
                && s.next_slot == surface.next_slot && s.renderer == surface.renderer
                && s.configured == surface.configured
        }),
        surface.scale >= 1 && surface.buffer_size_fits() ==> (pixmap_outdated(surface) <==> !(
        surface.renderer is Some && surface.renderer->0.width == surface.width * surface.scale
            && surface.renderer->0.height == surface.height * surface.scale)),
{
    if surface.scale >= 1 && surface.buffer_size_fits() {
        crate::linux_backend::surface::buffers_have_the_scaled_size(surface);
    }
}

/// Removing an output leaves every surface of another output just as it was, and adds none.
pub proof fn removing_an_output_changes_no_other_surface(
    surfaces: Seq<OutputSurface>,
    removed: u64,
    i: int,
)
    requires
        0 <= i < surfaces.len(),
        surfaces[i].output != removed,
    ensures
        without_output(surfaces, removed).contains(surfaces[i]),
        without_output(surfaces, removed).len() <= surfaces.len(),
        forall|k: int|
            0 <= k < without_output(surfaces, removed).len() ==> surfaces.contains(
                #[trigger] without_output(surfaces, removed)[k],
            ),
{
    let keep = |s: OutputSurface| s.output != removed;
    let kept = surfaces.filter(keep);
    filtered_surfaces_are_those_kept(surfaces, keep, i);
    filtering_keeps_order(surfaces, keep);
    broadcast use vstd::seq_lib::group_filter_ensures;

    let j = choose|j: int| 0 <= j < kept.len() && #[trigger] kept[j] == surfaces[i];
    assert(kept[j] == surfaces[i]);
}

/// The pointer's area ends where some output ends, or is empty; it ends at no other place.
pub proof fn bounds_end_at_an_output(surfaces: Seq<OutputSurface>)
    ensures
        far_right(surfaces) >= 0,
        far_bottom(surfaces) >= 0,
        far_right(surfaces) > 0 ==> exists|i: int|
            0 <= i < surfaces.len() && far_right(surfaces) == #[trigger] surfaces[i].origin.0
                + surfaces[i].width,
        far_bottom(surfaces) > 0 ==> exists|i: int|
            0 <= i < surfaces.len() && far_bottom(surfaces) == #[trigger] surfaces[i].origin.1
                + surfaces[i].height,
    decreases surfaces.len(),
{
    if surfaces.len() > 0 {
        let front = surfaces.drop_last();
        let last = surfaces.len() - 1;
        bounds_end_at_an_output(front);
        if far_right(surfaces) > 0 {
            if far_right(surfaces) == surfaces[last].origin.0 + surfaces[last].width {
                assert(surfaces[last].origin.0 + surfaces[last].width == far_right(surfaces));
            } else {
                let i = choose|i: int|
                    0 <= i < front.len() && far_right(front) == #[trigger] front[i].origin.0
                        + front[i].width;
                assert(surfaces[i] == front[i]);
                assert(surfaces[i].origin.0 + surfaces[i].width == far_right(surfaces));
            }
        }
        if far_bottom(surfaces) > 0 {
            if far_bottom(surfaces) == surfaces[last].origin.1 + surfaces[last].height {
                assert(surfaces[last].origin.1 + surfaces[last].height == far_bottom(surfaces));
            } else {
                let i = choose|i: int|
                    0 <= i < front.len() && far_bottom(front) == #[trigger] front[i].origin.1
                        + front[i].height;
                assert(surfaces[i] == front[i]);
                assert(surfaces[i].origin.1 + surfaces[i].height == far_bottom(surfaces));
            }
        }
    }
}

/// A tracked pointer is confined to the area that the outputs reach, if that has any pixels, and
/// left alone otherwise.
pub proof fn the_pointer_is_confined_to_the_outputs(
    pointer: Pointer,
    surfaces: Seq<OutputSurface>,
)
    requires
        far_right(surfaces) <= i64::MAX,
        far_bottom(surfaces) <= i64::MAX,
    ensures
        far_right(surfaces) > 0 && far_bottom(surfaces) > 0 ==> {
            &&& confined(pointer, surfaces).tracker() is Some <==> pointer.tracker() is Some
            &&& confined(pointer, surfaces).tracker() matches Some(t) ==> t.width == far_right(
                surfaces,
            ) && t.height == far_bottom(surfaces) && t == pointer.tracker()->0.resized(
                t.width,
                t.height,
            )
        },
        !(far_right(surfaces) > 0 && far_bottom(surfaces) > 0) ==> confined(pointer, surfaces)
            == pointer,
{
}

proof fn other_reports_leave_a_surface_alone(
    state: SyncState,
    reports: Seq<OutputReport>,
    k: int,
)
    requires
        0 <= k < state.surfaces.len(),
        !listed(reports, state.surfaces[k].output),
        !state.rebuild.contains(state.surfaces[k].output),
    ensures
        k < state.steps(reports).surfaces.len(),
        state.steps(reports).surfaces[k] == state.surfaces[k],
        !state.steps(reports).rebuild.contains(state.surfaces[k].output),
    decreases reports.len(),
{
    if reports.len() > 0 {
        let front = reports.drop_last();
        let last = reports.last();
        let output = state.surfaces[k].output;
        assert(!listed(front, output)) by {
            if listed(front, output) {
                let i = choose|i: int| 0 <= i < front.len() && #[trigger] front[i].output == output;
                assert(reports[i].output == output);
            }
        }
        assert(last.output != output) by {
            assert(reports[reports.len() - 1] == last);
        }
        other_reports_leave_a_surface_alone(state, front, k);
        let before = state.steps(front);
        place_of_finds(before.surfaces, last.output);
        pushing_another_keeps_it_out(before.rebuild, last.output, output);
    }
}

proof fn pushing_another_keeps_it_out(outputs: Seq<u64>, pushed: u64, output: u64)
    ensures
        outputs.push(pushed).contains(output) <==> outputs.contains(output) || pushed == output,
{
    let more = outputs.push(pushed);
    if outputs.contains(output) {
        let i = choose|i: int| 0 <= i < outputs.len() && outputs[i] == output;
        assert(more[i] == output);
    }
    assert(more[outputs.len() as int] == pushed);
    if more.contains(output) {
        let i = choose|i: int| 0 <= i < more.len() && more[i] == output;
        if i < outputs.len() {
            assert(outputs[i] == output);
        }
    }
}

proof fn a_report_reaches_its_surface(
    state: SyncState,
    reports: Seq<OutputReport>,
    k: int,
    i: int,
)
    requires
        one_surface_per_output(state.surfaces),
        one_report_per_output(reports),
        0 <= k < state.surfaces.len(),
        0 <= i < reports.len(),
        reports[i].output == state.surfaces[k].output,
        !state.rebuild.contains(state.surfaces[k].output),
    ensures
        k < state.steps(reports).surfaces.len(),
        state.steps(reports).surfaces[k] == match reports[i].info {
            Some(info) => info.applied(state.surfaces[k]),
            None => state.surfaces[k],
        },
        state.steps(reports).rebuild.contains(state.surfaces[k].output) <==> state.steps(
            reports,
        ).surfaces[k].scale != state.surfaces[k].scale,
    decreases reports.len(),
{
    let front = reports.drop_last();
    let last = reports.last();
    let output = state.surfaces[k].output;
    let before = state.steps(front);
    assert(reports[reports.len() - 1] == last);
    assert(one_report_per_output(front)) by {
        assert forall|a: int, b: int| 0 <= a < b < front.len() implies #[trigger] front[a].output
            != #[trigger] front[b].output by {
            assert(front[a] == reports[a] && front[b] == reports[b]);
        }
    }
    steps_add_the_described_outputs(state, front, output);
    place_of_finds(before.surfaces, last.output);
    pushing_another_keeps_it_out(before.rebuild, last.output, output);
    if i == reports.len() - 1 {
        assert(!listed(front, output)) by {
            if listed(front, output) {
                let j = choose|j: int| 0 <= j < front.len() && #[trigger] front[j].output == output;
                assert(reports[j].output == output);
                assert(reports[j].output != reports[i].output);
            }
        }
        other_reports_leave_a_surface_alone(state, front, k);
        let at = place_of(before.surfaces, last.output) as int;
        assert(before.surfaces[k].output == output);
        assert(at == k);
    } else {
        assert(front[i] == reports[i]);
        assert(reports[i].output != reports[reports.len() - 1].output);
        a_report_reaches_its_surface(state, front, k, i);
    }
}

proof fn an_output_without_a_surface_gets_the_reported_one(
    state: SyncState,
    reports: Seq<OutputReport>,
    output: u64,
)
    requires
        one_surface_per_output(state.surfaces),
        one_report_per_output(reports),
        !has_surface(state.surfaces, output),
        !state.rebuild.contains(output),
        !state.create.contains(output),
    ensures
        !state.steps(reports).rebuild.contains(output),
        state.steps(reports).create.contains(output) <==> described(reports, output),
        forall|i: int|
            0 <= i < reports.len() && (#[trigger] reports[i]).output == output
                && reports[i].info is Some ==> state.steps(reports).surfaces.contains(
                reports[i].info->0.surface(output),
            ),
    decreases reports.len(),
{
    if reports.len() > 0 {
        let front = reports.drop_last();
        let last = reports.last();
        let before = state.steps(front);
        let after = before.step(last);
        assert(reports[reports.len() - 1] == last);
        assert(one_report_per_output(front)) by {
            assert forall|a: int, b: int| 0 <= a < b < front.len() implies #[trigger] front[a].output
                != #[trigger] front[b].output by {
                assert(front[a] == reports[a] && front[b] == reports[b]);
            }
        }
        an_output_without_a_surface_gets_the_reported_one(state, front, output);
        steps_add_the_described_outputs(state, front, output);
        described_by_one_more(reports, output);
        place_of_finds(before.surfaces, last.output);
        pushing_another_keeps_it_out(before.rebuild, last.output, output);
        pushing_another_keeps_it_out(before.create, last.output, output);
        if last.output == output {
            assert(!described(front, output)) by {
                if described(front, output) {
                    let j = choose|j: int|
                        0 <= j < front.len() && #[trigger] front[j].output == output
                            && front[j].info is Some;
                    assert(reports[j].output != reports[reports.len() - 1].output);
                }
            }
        }
        assert forall|i: int|
            0 <= i < reports.len() && (#[trigger] reports[i]).output == output
                && reports[i].info is Some implies after.surfaces.contains(
            reports[i].info->0.surface(output),
        ) by {
            let made = reports[i].info->0.surface(output);
            if i < front.len() {
                assert(front[i] == reports[i]);
                assert(reports[i].output != reports[reports.len() - 1].output);
                let j = choose|j: int|
                    0 <= j < before.surfaces.len() && before.surfaces[j] == made;
                assert(made.output == output);
                assert(after.surfaces[j] == made);
            } else {
                assert(after.surfaces[before.surfaces.len() as int] == made);
            }
        }
    }
}

proof fn a_surface_survives_with_its_output(
    surfaces: Seq<OutputSurface>,
    reports: Seq<OutputReport>,
    i: int,
) -> (k: int)
    requires
        0 <= i < surfaces.len(),
        listed(reports, surfaces[i].output),
    ensures
        0 <= k < surviving(surfaces, reports).len(),
        surviving(surfaces, reports)[k] == surfaces[i],
{
    let keep = |s: OutputSurface| listed(reports, s.output);
    filtered_surfaces_are_those_kept(surfaces, keep, i);
    choose|k: int|
        0 <= k < surfaces.filter(keep).len() && #[trigger] surfaces.filter(keep)[k] == surfaces[i]
}

/// A surface whose output is reported keeps its size, its buffers and what it has drawn. It takes
/// over the place that is reported, if any, and the scale, which is at least one; where nothing is
/// known about the output it stays as it is.
pub proof fn reported_surfaces_take_over_place_and_scale(
    surfaces: Seq<OutputSurface>,
    reports: Seq<OutputReport>,
    i: int,
    r: int,
)
    requires
        one_surface_per_output(surfaces),
        one_report_per_output(reports),
        0 <= i < surfaces.len(),
        0 <= r < reports.len(),
        reports[r].output == surfaces[i].output,
    ensures
        exists|j: int|
            0 <= j < synced(surfaces, reports).surfaces.len() && {
                let s = #[trigger] synced(surfaces, reports).surfaces[j];
                &&& s.output == surfaces[i].output && s.width == surfaces[i].width && s.height
                    == surfaces[i].height && s.pool == surfaces[i].pool && s.slots
                    == surfaces[i].slots && s.next_slot == surfaces[i].next_slot && s.renderer
                    == surfaces[i].renderer && s.configured == surfaces[i].configured
                &&& reports[r].info is None ==> s.origin == surfaces[i].origin && s.scale
                    == surfaces[i].scale
                &&& reports[r].info matches Some(info) ==> {
                    &&& s.origin == if info.logical_position is Some {
                        info.logical_position->0
                    } else {
                        surfaces[i].origin
                    }
                    &&& s.scale == if info.scale_factor >= 1 {
                        info.scale_factor
                    } else {
                        1
                    }
                }
            },
{
    let keep = |s: OutputSurface| listed(reports, s.output);
    assert(reports[r].output == surfaces[i].output);
    let k = a_surface_survives_with_its_output(surfaces, reports, i);
    filtering_keeps_order(surfaces, keep);
    let base = SyncState {
        surfaces: surviving(surfaces, reports),
        create: Seq::empty(),
        rebuild: Seq::empty(),
    };
    a_report_reaches_its_surface(base, reports, k, r);
    let s = synced(surfaces, reports).surfaces[k];
    assert(s.output == surfaces[i].output);
}

/// An output without a surface gets one with the size, the place and the scale that are reported,
/// once it is described.
pub proof fn described_outputs_get_the_reported_surface(
    surfaces: Seq<OutputSurface>,
    reports: Seq<OutputReport>,
    r: int,
)
    requires
        one_surface_per_output(surfaces),
        one_report_per_output(reports),
        0 <= r < reports.len(),
        reports[r].info is Some,
        !has_surface(surfaces, reports[r].output),
    ensures
        synced(surfaces, reports).surfaces.contains(
            reports[r].info->0.surface(reports[r].output),
        ),
{
    let base = surviving_has_what_had(surfaces, reports, reports[r].output);
    an_output_without_a_surface_gets_the_reported_one(base, reports, reports[r].output);
}

proof fn surviving_has_what_had(
    surfaces: Seq<OutputSurface>,
    reports: Seq<OutputReport>,
    output: u64,
) -> (base: SyncState)
    requires
        one_surface_per_output(surfaces),
    ensures
        base.surfaces == surviving(surfaces, reports),
        base.create == Seq::<u64>::empty(),
        base.rebuild == Seq::<u64>::empty(),
        base.steps(reports) == synced(surfaces, reports),
        one_surface_per_output(base.surfaces),
        has_surface(base.surfaces, output) ==> has_surface(surfaces, output) && listed(
            reports,
            output,
        ),
{
    let keep = |s: OutputSurface| listed(reports, s.output);
    let kept = surfaces.filter(keep);
    filtering_keeps_order(surfaces, keep);
    if has_surface(kept, output) {
        let i = choose|i: int| 0 <= i < kept.len() && #[trigger] kept[i].output == output;
        filtered_surfaces_pass(surfaces, keep, i);
        let j = choose|j: int| 0 <= j < surfaces.len() && surfaces[j] == kept[i];
        assert(surfaces[j].output == output);
    }
    SyncState { surfaces: kept, create: Seq::empty(), rebuild: Seq::empty() }
}

/// A rebuild is asked for exactly for the outputs that had a surface before and whose surface has
/// another scale afterwards, larger or smaller.
pub proof fn exactly_the_rescaled_surfaces_are_rebuilt(
    surfaces: Seq<OutputSurface>,
    reports: Seq<OutputReport>,
    output: u64,
)
    requires
        one_surface_per_output(surfaces),
        one_report_per_output(reports),
    ensures
        synced(surfaces, reports).rebuild.contains(output) <==> exists|i: int, j: int|
            0 <= i < surfaces.len() && 0 <= j < synced(surfaces, reports).surfaces.len()
                && (#[trigger] surfaces[i]).output == output && (#[trigger] synced(
                surfaces,
                reports,
            ).surfaces[j]).output == output && surfaces[i].scale != synced(
                surfaces,
                reports,
            ).surfaces[j].scale,
{
    let after = synced(surfaces, reports).surfaces;
    let base = surviving_has_what_had(surfaces, reports, output);
    synced_outputs_have_one_surface_each(surfaces, reports, output);
    if has_surface(surfaces, output) && listed(reports, output) {
        let i = choose|i: int| 0 <= i < surfaces.len() && #[trigger] surfaces[i].output == output;
        let r = choose|r: int| 0 <= r < reports.len() && #[trigger] reports[r].output == output;
        let k = a_surface_survives_with_its_output(surfaces, reports, i);
        a_report_reaches_its_surface(base, reports, k, r);
        assert(after[k].output == output);
        if synced(surfaces, reports).rebuild.contains(output) {
            assert(surfaces[i].scale != after[k].scale);
        }
        if exists|a: int, b: int|
            0 <= a < surfaces.len() && 0 <= b < after.len() && (#[trigger] surfaces[a]).output
                == output && (#[trigger] after[b]).output == output && surfaces[a].scale
                != after[b].scale {
            let (a, b) = choose|a: int, b: int|
                0 <= a < surfaces.len() && 0 <= b < after.len() && (#[trigger] surfaces[a]).output
                    == output && (#[trigger] after[b]).output == output && surfaces[a].scale
                    != after[b].scale;
            assert(a == i);
            assert(b == k);
        }
    } else {
        assert(!has_surface(base.surfaces, output));
        an_output_without_a_surface_gets_the_reported_one(base, reports, output);
        assert forall|a: int, b: int|
            0 <= a < surfaces.len() && 0 <= b < after.len() && (#[trigger] surfaces[a]).output
                == output && (#[trigger] after[b]).output == output implies surfaces[a].scale
            == after[b].scale by {
            assert(has_surface(surfaces, output));
            assert(has_surface(after, output));
        }
    }
}

/// A surface is created exactly for the outputs that have one afterwards and had none before.
pub proof fn exactly_the_new_surfaces_are_created(
    surfaces: Seq<OutputSurface>,
    reports: Seq<OutputReport>,
    output: u64,
)
    requires
        one_surface_per_output(surfaces),
        one_report_per_output(reports),
    ensures
        synced(surfaces, reports).create.contains(output) <==> has_surface(
            synced(surfaces, reports).surfaces,
            output,
        ) && !has_surface(surfaces, output),
{
    let base = surviving_has_what_had(surfaces, reports, output);
    synced_outputs_have_one_surface_each(surfaces, reports, output);
    if described(reports, output) {
        let i = choose|i: int|
            0 <= i < reports.len() && #[trigger] reports[i].output == output
                && reports[i].info is Some;
        assert(listed(reports, output));
    }
    if has_surface(base.surfaces, output) {
        surfaces_that_exist_are_not_created(base, reports, output);
    } else {
        an_output_without_a_surface_gets_the_reported_one(base, reports, output);
        if has_surface(surfaces, output) && listed(reports, output) {
            let i = choose|i: int|
                0 <= i < surfaces.len() && #[trigger] surfaces[i].output == output;
            let k = a_surface_survives_with_its_output(surfaces, reports, i);
            assert(base.surfaces[k].output == output);
        }
    }
}

proof fn surfaces_that_exist_are_not_created(
    state: SyncState,
    reports: Seq<OutputReport>,
    output: u64,
)
    requires
        one_surface_per_output(state.surfaces),
        has_surface(state.surfaces, output),
        !state.create.contains(output),
    ensures
        !state.steps(reports).create.contains(output),
    decreases reports.len(),
{
    if reports.len() > 0 {
        let front = reports.drop_last();
        let before = state.steps(front);
        surfaces_that_exist_are_not_created(state, front, output);
        steps_add_the_described_outputs(state, front, output);
        place_of_finds(before.surfaces, reports.last().output);
        pushing_another_keeps_it_out(before.create, reports.last().output, output);
    }
}

/// The surfaces that stay come first, in their order; those that are created follow, in the order
/// in which they are to be created.
pub proof fn new_surfaces_follow_those_that_stay(
    surfaces: Seq<OutputSurface>,
    reports: Seq<OutputReport>,
    i: int,
)
    ensures
        synced(surfaces, reports).surfaces.len() == surviving(surfaces, reports).len() + synced(
            surfaces,
            reports,
        ).create.len(),
        0 <= i < surviving(surfaces, reports).len() ==> synced(surfaces, reports).surfaces[i].output
            == surviving(surfaces, reports)[i].output,
        0 <= i < synced(surfaces, reports).create.len() ==> synced(
            surfaces,
            reports,
        ).surfaces[surviving(surfaces, reports).len() + i].output == synced(
            surfaces,
            reports,
        ).create[i],
{
    let base = SyncState {
        surfaces: surviving(surfaces, reports),
        create: Seq::empty(),
        rebuild: Seq::empty(),
    };
    steps_append_what_they_create(base, reports);
}

proof fn steps_append_what_they_create(state: SyncState, reports: Seq<OutputReport>)
    requires
        state.create.len() == 0,
    ensures
        ({
            let end = state.steps(reports);
            &&& end.surfaces.len() == state.surfaces.len() + end.create.len()
            &&& forall|i: int|
                0 <= i < state.surfaces.len() ==> (#[trigger] end.surfaces[i]).output
                    == state.surfaces[i].output
            &&& forall|i: int|
                0 <= i < end.create.len() ==> end.surfaces[state.surfaces.len() + i].output
                    == #[trigger] end.create[i]
        }),
    decreases reports.len(),
{
    if reports.len() > 0 {
        let before = state.steps(reports.drop_last());
        steps_append_what_they_create(state, reports.drop_last());
        place_of_finds(before.surfaces, reports.last().output);
        let end = state.steps(reports);
        assert forall|i: int| 0 <= i < end.create.len() implies end.surfaces[state.surfaces.len()
            + i].output == #[trigger] end.create[i] by {
            if i < before.create.len() {
                assert(before.create[i] == end.create[i]);
            }
        }
    }
}

proof fn filtering_keeps_two_in_order(
    surfaces: Seq<OutputSurface>,
    keep: spec_fn(OutputSurface) -> bool,
    i: int,
    j: int,
)
    requires
        0 <= i < j < surfaces.len(),
        keep(surfaces[i]),
        keep(surfaces[j]),
    ensures
        exists|a: int, b: int|
            0 <= a < b < surfaces.filter(keep).len() && #[trigger] surfaces.filter(keep)[a]
                == surfaces[i] && #[trigger] surfaces.filter(keep)[b] == surfaces[j],
    decreases surfaces.len(),
{
    reveal(Seq::filter);
    let front = surfaces.drop_last();
    let kept = surfaces.filter(keep);
    if j == surfaces.len() - 1 {
        filtered_surfaces_are_those_kept(front, keep, i);
        let a = choose|a: int|
            0 <= a < front.filter(keep).len() && #[trigger] front.filter(keep)[a] == front[i];
        assert(kept[a] == surfaces[i]);
        assert(kept[kept.len() - 1] == surfaces[j]);
    } else {
        filtering_keeps_two_in_order(front, keep, i, j);
        let (a, b) = choose|a: int, b: int|
            0 <= a < b < front.filter(keep).len() && #[trigger] front.filter(keep)[a] == front[i]
                && #[trigger] front.filter(keep)[b] == front[j];
        assert(kept[a] == surfaces[i]);
        assert(kept[b] == surfaces[j]);
    }
}

/// Surfaces that stay keep their order, both where outputs are removed and where they are synced.
pub proof fn surfaces_that_stay_keep_their_order(
    surfaces: Seq<OutputSurface>,
    reports: Seq<OutputReport>,
    removed: u64,
    i: int,
    j: int,
)
    requires
        0 <= i < j < surfaces.len(),
    ensures
        surfaces[i].output != removed && surfaces[j].output != removed ==> exists|a: int, b: int|
            0 <= a < b < without_output(surfaces, removed).len() && #[trigger] without_output(
                surfaces,
                removed,
            )[a] == surfaces[i] && #[trigger] without_output(surfaces, removed)[b] == surfaces[j],
        listed(reports, surfaces[i].output) && listed(reports, surfaces[j].output) ==> exists|
            a: int,
            b: int,
        |
            0 <= a < b < surviving(surfaces, reports).len() && #[trigger] surviving(
                surfaces,
                reports,
            )[a] == surfaces[i] && #[trigger] surviving(surfaces, reports)[b] == surfaces[j],
{
    if surfaces[i].output != removed && surfaces[j].output != removed {
        let keep = |s: OutputSurface| s.output != removed;
        let kept = without_output(surfaces, removed);
        filtering_keeps_two_in_order(surfaces, keep, i, j);
        let (a, b) = choose|a: int, b: int|
            0 <= a < b < surfaces.filter(keep).len() && #[trigger] surfaces.filter(keep)[a]
                == surfaces[i] && #[trigger] surfaces.filter(keep)[b] == surfaces[j];
        assert(kept[a] == surfaces[i] && kept[b] == surfaces[j]);
    }
    if listed(reports, surfaces[i].output) && listed(reports, surfaces[j].output) {
        let keep = |s: OutputSurface| listed(reports, s.output);
        let kept = surviving(surfaces, reports);
        filtering_keeps_two_in_order(surfaces, keep, i, j);
        let (a, b) = choose|a: int, b: int|
            0 <= a < b < surfaces.filter(keep).len() && #[trigger] surfaces.filter(keep)[a]
                == surfaces[i] && #[trigger] surfaces.filter(keep)[b] == surfaces[j];
        assert(kept[a] == surfaces[i] && kept[b] == surfaces[j]);
    }
}

/// No output is to be created or rebuilt twice, and none that is not reported.
pub proof fn nothing_is_asked_for_twice(surfaces: Seq<OutputSurface>, reports: Seq<OutputReport>)
    requires
        one_report_per_output(reports),
    ensures
        synced(surfaces, reports).create.no_duplicates(),
        synced(surfaces, reports).rebuild.no_duplicates(),
        forall|i: int|
            0 <= i < synced(surfaces, reports).create.len() ==> listed(
                reports,
                #[trigger] synced(surfaces, reports).create[i],
            ),
        forall|i: int|
            0 <= i < synced(surfaces, reports).rebuild.len() ==> listed(
                reports,
                #[trigger] synced(surfaces, reports).rebuild[i],
            ),
{
    let base = SyncState {
        surfaces: surviving(surfaces, reports),
        create: Seq::empty(),
        rebuild: Seq::empty(),
    };
    steps_ask_once(base, reports);
}

proof fn steps_ask_once(state: SyncState, reports: Seq<OutputReport>)
    requires
        one_report_per_output(reports),
        state.create.len() == 0,
        state.rebuild.len() == 0,
    ensures
        state.steps(reports).create.no_duplicates(),
        state.steps(reports).rebuild.no_duplicates(),
        forall|i: int|
            0 <= i < state.steps(reports).create.len() ==> listed(
                reports,
                #[trigger] state.steps(reports).create[i],
            ),
        forall|i: int|
            0 <= i < state.steps(reports).rebuild.len() ==> listed(
                reports,
                #[trigger] state.steps(reports).rebuild[i],
            ),
    decreases reports.len(),
{
    if reports.len() > 0 {
        let front = reports.drop_last();
        let last = reports.last();
        let before = state.steps(front);
        let after = before.step(last);
        assert(reports[reports.len() - 1] == last);
        assert(listed(reports, last.output));
        assert(one_report_per_output(front)) by {
            assert forall|a: int, b: int| 0 <= a < b < front.len() implies #[trigger] front[a].output
                != #[trigger] front[b].output by {
                assert(front[a] == reports[a] && front[b] == reports[b]);
            }
        }
        steps_ask_once(state, front);
        assert forall|output: u64| listed(front, output) implies #[trigger] listed(reports, output)
            && output != last.output by {
            let i = choose|i: int| 0 <= i < front.len() && #[trigger] front[i].output == output;
            assert(reports[i].output == output);
            assert(reports[i].output != reports[reports.len() - 1].output);
        }
        assert forall|i: int| 0 <= i < after.create.len() implies listed(
            reports,
            #[trigger] after.create[i],
        ) by {
            if i < before.create.len() {
                assert(listed(front, before.create[i]));
            }
        }
        assert forall|i: int| 0 <= i < after.rebuild.len() implies listed(
            reports,
            #[trigger] after.rebuild[i],
        ) by {
            if i < before.rebuild.len() {
                assert(listed(front, before.rebuild[i]));
            }
        }
        assert forall|i: int| 0 <= i < before.create.len() implies #[trigger] before.create[i]
            != last.output by {
            assert(listed(front, before.create[i]));
        }
        assert forall|i: int| 0 <= i < before.rebuild.len() implies #[trigger] before.rebuild[i]
            != last.output by {
            assert(listed(front, before.rebuild[i]));
        }
    }
}

/// Arming starts the time anew exactly if no timer was running, and changes nothing else. The timer
/// stops exactly if no particle is left and nothing has to be erased, and goes on after the frame
/// interval otherwise.
pub proof fn the_timer_runs_while_there_is_something_to_draw(
    overlay: Overlay,
    now: u64,
    idle: bool,
    pending_paint: bool,
)
    ensures
        overlay.armed(now).timer_armed,
        overlay.timer_armed ==> overlay.armed(now) == overlay,
        !overlay.timer_armed ==> overlay.armed(now).clock.last_tick == now,
        overlay.armed(now).clock.interval == overlay.clock.interval,
        overlay.armed(now).surfaces == overlay.surfaces,
        overlay.armed(now).pointer == overlay.pointer,
        overlay.armed(now).config == overlay.config,
        overlay.timer_action(idle, pending_paint) is Drop <==> idle && !pending_paint,
        !idle || pending_paint ==> overlay.timer_action(idle, pending_paint) == (
        TimerAction::Again { nanos: overlay.clock.interval }),
{
}

/// A surface is configured exactly once it has pixels on both sides; until then it waits. It is
/// rebuilt then exactly if it has no pixmap of the scaled size. The compositor never takes a
/// surface's configuration back.
pub proof fn a_surface_with_a_size_is_configured(surface: OutputSurface, width: u32, height: u32)
    requires
        surface.scale >= 1,
        with_size(surface, width, height).buffer_size_fits(),
    ensures
        ({
            let (s, outcome) = sized(surface, width, height);
            let known = s.width > 0 && s.height > 0;
            &&& outcome is Waiting <==> !known
            &&& outcome is Ready <==> known
            &&& s.configured <==> known || surface.configured
            &&& outcome matches Configured::Ready { rebuild } ==> (rebuild <==> !(
            surface.renderer is Some && surface.renderer->0.width == s.width * s.scale
                && surface.renderer->0.height == s.height * s.scale))
            &&& s.width == if width > 0 {
                width
            } else {
                surface.width
            }
            &&& s.height == if height > 0 {
                height
            } else {
                surface.height
            }
            &&& s.output == surface.output && s.scale == surface.scale && s.origin
                == surface.origin && s.pool == surface.pool && s.slots == surface.slots
                && s.next_slot == surface.next_slot && s.renderer == surface.renderer
        }),
{
    a_sent_size_replaces_the_sides_that_are_not_zero(surface, width, height);
    a_sent_size_replaces_the_sides_that_are_not_zero(
        with_size(surface, width, height),
        width,
        height,
    );
}

/// Reports are taken one after the other, also if one output is reported twice. One that says
/// nothing about its output changes nothing. One about an output with a surface changes just the
/// place and the scale of that surface, and asks for a rebuild exactly if the scale changed. Any
/// other one adds a surface.
pub proof fn reports_are_taken_one_after_the_other(
    state: SyncState,
    reports: Seq<OutputReport>,
    report: OutputReport,
)
    ensures
        state.steps(Seq::empty()) == state,
        state.steps(reports.push(report)) == state.steps(reports).step(report),
        ({
            let next = state.step(report);
            let at = place_of(state.surfaces, report.output) as int;
            &&& report.info is None ==> next == state
            &&& report.info is Some && has_surface(state.surfaces, report.output) ==> {
                let (before, after) = (state.surfaces[at], next.surfaces[at]);
                &&& next.create == state.create
                &&& next.surfaces.len() == state.surfaces.len()
                &&& forall|i: int|
                    0 <= i < next.surfaces.len() && i != at ==> #[trigger] next.surfaces[i]
                        == state.surfaces[i]
                &&& before.output == report.output
                &&& same_but_geometry(after, before)
                &&& after.scale == before.scale ==> next.rebuild == state.rebuild
                &&& after.scale != before.scale ==> next.rebuild == state.rebuild.push(
                    report.output,
                )
            }
            &&& report.info is Some && !has_surface(state.surfaces, report.output) ==> {
                &&& next.surfaces.drop_last() == state.surfaces
                &&& next.surfaces.last().output == report.output
                &&& next.create == state.create.push(report.output)
                &&& next.rebuild == state.rebuild
            }
        }),
{
    let more = reports.push(report);
    assert(more.drop_last() == reports);
    place_of_finds(state.surfaces, report.output);
    if report.info is Some && !has_surface(state.surfaces, report.output) {
        assert(state.step(report).surfaces.drop_last() == state.surfaces);
    }
}

/// Without outputs no surface stays, and nothing is asked for.
pub proof fn without_outputs_there_are_no_surfaces(surfaces: Seq<OutputSurface>, output: u64)
    requires
        one_surface_per_output(surfaces),
    ensures
        !has_surface(synced(surfaces, Seq::empty()).surfaces, output),
        synced(surfaces, Seq::empty()).create.len() == 0,
        synced(surfaces, Seq::empty()).rebuild.len() == 0,
{
    synced_outputs_have_one_surface_each(surfaces, Seq::empty(), output);
}

} // verus!
