//! The X11 overlay: picking a visual, sending images in pieces, and pacing the render loop.

use vstd::prelude::*;
use crate::pacing::{ConfigWatch, FrameClock, Throttle};
use crate::rect::DirtyRect;

verus! {

/// Keeps PutImage requests comfortably below the server's maximum request size.
pub const MAX_CHUNK_BYTES: usize = 262_144;

/// How often the configuration file is looked at, in nanoseconds.
pub const CONFIG_POLL: u64 = 2_000_000_000;

/// A depth that a screen allows, with its visuals.
#[derive(Debug)]
pub struct DepthInfo {
    pub depth: u8,
    pub visuals: Vec<u32>,
}

/// Why there is no visual for the overlay.
#[derive(Debug, Clone, Copy, PartialEq, Eq, Structural)]
pub enum VisualError {
    NoDepth,
    NoVisual,
}

impl VisualError {
    /// The error in words.
    pub fn message(self) -> (text: &'static str)
        ensures
            text@ == match self {
                VisualError::NoDepth =>
                    "no 32-bit visual; a compositing manager such as picom is required"@,
                VisualError::NoVisual => "32-bit depth has no visuals"@,
            },
    {
        match self {
            VisualError::NoDepth =>
                "no 32-bit visual; a compositing manager such as picom is required",
            VisualError::NoVisual => "32-bit depth has no visuals",
        }
    }
}

/// Depth `i` is the first one with 32 bits.
pub open spec fn first_with_alpha(depths: Seq<DepthInfo>, i: int) -> bool {
    &&& 0 <= i < depths.len()
    &&& depths[i].depth == 32
    &&& forall|j: int| 0 <= j < i ==> (#[trigger] depths[j]).depth != 32
}

/// Picks the first visual of the first depth with 32 bits, which has an alpha channel.
pub fn pick_visual(depths: &Vec<DepthInfo>) -> (visual: Result<u32, VisualError>)
    ensures
        visual == Err::<u32, VisualError>(VisualError::NoDepth) <==> forall|i: int|
            0 <= i < depths@.len() ==> (#[trigger] depths@[i]).depth != 32,
        forall|i: int| #[trigger]
            first_with_alpha(depths@, i) ==> visual == if depths@[i].visuals@.len() == 0 {
                Err(VisualError::NoVisual)
            } else {
                Ok(depths@[i].visuals@[0])
            },
{
    let mut i: usize = 0;
    while i < depths.len()
        invariant
            i <= depths@.len(),
            forall|j: int| 0 <= j < i ==> (#[trigger] depths@[j]).depth != 32,
        decreases depths@.len() - i,
    {
        if depths[i].depth == 32 {
            assert forall|k: int| #[trigger] first_with_alpha(depths@, k) implies k == i by {
                if k < i {
                    assert(depths@[k].depth != 32);
                }
                if i < k {
                    assert(depths@[i as int].depth != 32);
                }
            }
            if depths[i].visuals.len() == 0 {
                return Err(VisualError::NoVisual);
            }
            return Ok(depths[i].visuals[0]);
        }
        i = i + 1;
    }
    Err(VisualError::NoDepth)
}

/// How many rows of that many pixels, at four bytes each, are sent at once: as many as stay in
/// the limit, and at least one.
pub open spec fn rows_per_chunk(width: int) -> int {
    let row_bytes = crate::rect::greatest(width * 4, 1);
    crate::rect::greatest(MAX_CHUNK_BYTES as int / row_bytes, 1)
}

/// The piece of `rect` that starts `top` rows below its first row.
pub open spec fn chunk_at(rect: DirtyRect, top: int) -> DirtyRect {
    DirtyRect {
        x: rect.x,
        y: (rect.y + top) as i32,
        w: rect.w,
        h: crate::rect::least(rows_per_chunk(rect.w as int), rect.h - top) as i32,
    }
}

/// The pieces in which `rect` is sent from `top` rows below its first row on, from top to bottom.
pub open spec fn chunks_from(rect: DirtyRect, top: int) -> Seq<DirtyRect>
    decreases rect.h - top,
{
    if top >= rect.h {
        Seq::empty()
    } else {
        seq![chunk_at(rect, top)] + chunks_from(
            rect,
            top + crate::rect::least(rows_per_chunk(rect.w as int), rect.h - top),
        )
    }
}

/// Cuts a rectangle into the pieces that are sent one after the other.
pub fn put_image(rect: DirtyRect) -> (chunks: Vec<DirtyRect>)
    requires
        rect.w >= 0,
        rect.w * 4 <= usize::MAX,
        rect.bottom() <= i32::MAX,
    ensures
        chunks@ == chunks_from(rect, 0),
{
    let row_bytes: usize = rect.w as usize * 4;
    let divisor: usize = if row_bytes >= 1 {
        row_bytes
    } else {
        1
    };
    let fitting: usize = MAX_CHUNK_BYTES / divisor;
    let rows: usize = if fitting >= 1 {
        fitting
    } else {
        1
    };
    assert(rows == rows_per_chunk(rect.w as int));
    assert(rows <= MAX_CHUNK_BYTES) by (nonlinear_arith)
        requires
            divisor >= 1,
            fitting == MAX_CHUNK_BYTES / divisor,
            rows == fitting || rows == 1,
            MAX_CHUNK_BYTES == 262_144,
    ;
    let mut chunks: Vec<DirtyRect> = Vec::new();
    let mut y: i32 = 0;
    assert(chunks@ + chunks_from(rect, 0) == chunks_from(rect, 0));
    while y < rect.h
        invariant
            0 <= y,
            rect.h >= 0 ==> y <= rect.h,
            rect.h < 0 ==> y == 0,
            rect.bottom() <= i32::MAX,
            1 <= rows <= MAX_CHUNK_BYTES,
            rows == rows_per_chunk(rect.w as int),
            chunks@ + chunks_from(rect, y as int) == chunks_from(rect, 0),
        decreases rect.h - y,
    {
        let left: i32 = rect.h - y;
        let h: i32 = if rows <= left as usize {
            rows as i32
        } else {
            left
        };
        let chunk = DirtyRect { x: rect.x, y: rect.y + y, w: rect.w, h };
        let ghost before = chunks@;
        chunks.push(chunk);
        assert(before.push(chunk) + chunks_from(rect, y + h) == before + (seq![chunk]
            + chunks_from(rect, y + h)));
        y = y + h;
    }
    assert(chunks@ + chunks_from(rect, y as int) == chunks@);
    chunks
}

/// How the loop waits for input.
#[derive(Debug, Clone, Copy, PartialEq, Eq, Structural)]
pub enum Wait {
    /// Until a signal comes, but no longer than that many milliseconds.
    Block { millis: u64 },
    /// Not at all: a signal is taken only if one is there.
    Poll,
}

/// What the render loop was told.
#[derive(Debug, Clone, Copy, PartialEq, Eq)]
pub enum LoopEvent {
    /// A round begins, with or without particles, and with or without some to erase.
    Begun { idle: bool, has_previous: bool },
    /// Waiting for input is over. No signal will ever come again if it is `disconnected`.
    Waited { wait: Wait, disconnected: bool },
    /// All signals that were there have been handled.
    Drained { now: u64 },
    /// The time of the configuration file was read.
    FileTime { mtime: Option<i128> },
    /// The configuration was loaded, and says how long a frame lasts; or it could not be.
    Loaded { interval: Option<u64> },
    /// The state of the particles after all input.
    Observed { idle: bool, has_previous: bool, now: u64 },
    /// The frame was drawn and sent.
    Drawn { now: u64 },
    /// The frame is on its way to the screen.
    Flushed { now: u64 },
}

/// What the render loop does next.
#[derive(Debug, Clone, Copy, PartialEq, Eq, Structural)]
pub enum LoopAction {
    /// Leave the loop.
    End,
    /// Wait for a signal, and handle it if one comes.
    Wait(Wait),
    /// Handle all signals that are there.
    Drain,
    /// Read the time of the configuration file.
    ReadFileTime,
    /// Load the configuration; keep the previous one if that fails.
    LoadConfig,
    /// Look at the particles.
    Observe,
    /// Advance the particles by that many nanoseconds, and draw and send them.
    Draw { nanos: u64 },
    /// Raise the window if asked to, and flush.
    Flush { raise: bool },
    /// Sleep for that many nanoseconds, and begin a round.
    Sleep { nanos: u64 },
    /// Begin a round.
    Begin,
}

/// The render loop: when it draws, sleeps, raises the window and looks at the configuration.
#[derive(Debug, Clone, Copy)]
pub struct RenderLoop {
    pub clock: FrameClock,
    pub raise: Throttle,
    pub config_check: Throttle,
    pub config: ConfigWatch,
}

impl RenderLoop {
    /// The loop after an event, and what it does next.
    pub open spec fn step(self, event: LoopEvent) -> (RenderLoop, LoopAction) {
        match event {
            // With nothing to draw or erase the loop blocks, so that it uses no CPU at all.
            LoopEvent::Begun { idle, has_previous } => (
                self,
                LoopAction::Wait(
                    if idle && !has_previous {
                        Wait::Block { millis: 500 }
                    } else {
                        Wait::Poll
                    },
                ),
            ),
            LoopEvent::Waited { wait, disconnected } => (
                self,
                if wait is Block && disconnected {
                    LoopAction::End
                } else {
                    LoopAction::Drain
                },
            ),
            LoopEvent::Drained { now } => (
                RenderLoop { config_check: self.config_check.looked_at(now), ..self },
                if self.config_check.passed(now) && self.config.watched {
                    LoopAction::ReadFileTime
                } else {
                    LoopAction::Observe
                },
            ),
            LoopEvent::FileTime { mtime } => (
                RenderLoop { config: self.config.seen(mtime, self.config.differs(mtime)), ..self },
                if self.config.differs(mtime) {
                    LoopAction::LoadConfig
                } else {
                    LoopAction::Observe
                },
            ),
            LoopEvent::Loaded { interval } => (
                match interval {
                    Some(interval) => RenderLoop {
                        clock: FrameClock { interval, ..self.clock },
                        ..self
                    },
                    None => self,
                },
                LoopAction::Observe,
            ),
            LoopEvent::Observed { idle, has_previous, now } => (
                RenderLoop { clock: FrameClock { last_tick: now, ..self.clock }, ..self },
                if idle && !has_previous {
                    LoopAction::Begin
                } else {
                    LoopAction::Draw {
                        nanos: crate::pacing::time_since(now, self.clock.last_tick) as u64,
                    }
                },
            ),
            LoopEvent::Drawn { now } => (
                RenderLoop { raise: self.raise.looked_at(now), ..self },
                LoopAction::Flush { raise: self.raise.passed(now) },
            ),
            LoopEvent::Flushed { now } => (
                self,
                match self.clock.remaining(now) {
                    Some(nanos) => LoopAction::Sleep { nanos },
                    None => LoopAction::Begin,
                },
            ),
        }
    }

    /// Starts the loop: the window is raised every second, and the configuration is looked at
    /// every two seconds.
    pub fn new(now: u64, interval: u64, config: ConfigWatch) -> (l: Self)
        ensures
            l == (RenderLoop {
                clock: FrameClock { last_tick: now, interval },
                raise: Throttle { last: now, period: 1_000_000_000 },
                config_check: Throttle { last: now, period: CONFIG_POLL },
                config,
            }),
    {
        RenderLoop {
            clock: FrameClock::new(now, interval),
            raise: Throttle::new(now, 1_000_000_000),
            config_check: Throttle::new(now, CONFIG_POLL),
            config,
        }
    }

    /// Runs the loop in steps: takes what happened, and says what to do next.
    pub fn run(&mut self, event: LoopEvent) -> (action: LoopAction)
        ensures
            (*final(self), action) == old(self).step(event),
    {
        match event {
            LoopEvent::Begun { idle, has_previous } => {
                if idle && !has_previous {
                    LoopAction::Wait(Wait::Block { millis: 500 })
                } else {
                    LoopAction::Wait(Wait::Poll)
                }
            },
            LoopEvent::Waited { wait, disconnected } => {
                let blocked = match wait {
                    Wait::Block { .. } => true,
                    Wait::Poll => false,
                };
                if blocked && disconnected {
                    LoopAction::End
                } else {
                    LoopAction::Drain
                }
            },
            LoopEvent::Drained { now } => {
                if self.config_check.due(now) && self.config.watched {
                    LoopAction::ReadFileTime
                } else {
                    LoopAction::Observe
                }
            },
            LoopEvent::FileTime { mtime } => {
                if self.config.changed(mtime) {
                    LoopAction::LoadConfig
                } else {
                    LoopAction::Observe
                }
            },
            LoopEvent::Loaded { interval } => {
                if let Some(interval) = interval {
                    self.clock.set_interval(interval);
                }
                LoopAction::Observe
            },
            LoopEvent::Observed { idle, has_previous, now } => {
                match self.clock.begin_frame(idle && !has_previous, now) {
                    Some(nanos) => LoopAction::Draw { nanos },
                    None => LoopAction::Begin,
                }
            },
            LoopEvent::Drawn { now } => LoopAction::Flush { raise: self.raise.due(now) },
            LoopEvent::Flushed { now } => {
                match self.clock.pause(now) {
                    Some(nanos) => LoopAction::Sleep { nanos },
                    None => LoopAction::Begin,
                }
            },
        }
    }
}

/// A loop without particles and without any to erase draws nothing, and begins the next round by
/// blocking.
pub proof fn a_quiet_loop_draws_nothing_and_blocks(pace: RenderLoop, now: u64)
    ensures
        pace.step(LoopEvent::Observed { idle: true, has_previous: false, now }).1
            == LoopAction::Begin,
        pace.step(LoopEvent::Begun { idle: true, has_previous: false }).1 matches LoopAction::Wait(
            wait,
        ) && wait is Block,
{
}

/// As long as there is something to draw or to erase, the loop draws, whatever the time, and never
/// blocks for input.
pub proof fn a_busy_loop_draws_and_never_blocks(
    pace: RenderLoop,
    idle: bool,
    has_previous: bool,
    now: u64,
)
    requires
        !idle || has_previous,
    ensures
        pace.step(LoopEvent::Observed { idle, has_previous, now }).1 is Draw,
        pace.step(LoopEvent::Begun { idle, has_previous }).1 == LoopAction::Wait(Wait::Poll),
{
}

/// After a file was seen with a time, the same time again does not load it.
pub proof fn an_unchanged_file_is_not_loaded_again(pace: RenderLoop, mtime: Option<i128>)
    ensures
        pace.step(LoopEvent::FileTime { mtime }).0.step(LoopEvent::FileTime { mtime }).1
            == LoopAction::Observe,
{
}

/// A frame that was drawn in less than its interval is followed by a sleep for the rest of it.
pub proof fn sleeping_completes_the_interval(pace: RenderLoop, now: u64)
    requires
        pace.clock.last_tick <= now,
    ensures
        pace.step(LoopEvent::Flushed { now }).1 matches LoopAction::Sleep { nanos } ==> now + nanos
            == pace.clock.last_tick + pace.clock.interval,
{
}

/// The pieces hold exactly the pixels of the rectangle from the given row on.
pub proof fn chunks_hold_exactly_the_rectangle(rect: DirtyRect, top: int, px: int, py: int)
    requires
        rect.w >= 0,
        rect.bottom() <= i32::MAX,
        0 <= top,
    ensures
        rect.contains(px, py) && py >= rect.y + top <==> exists|i: int|
            0 <= i < chunks_from(rect, top).len() && (#[trigger] chunks_from(
                rect,
                top,
            )[i]).contains(px, py),
    decreases rect.h - top,
{
    let all = chunks_from(rect, top);
    if top < rect.h {
        let rows = crate::rect::least(rows_per_chunk(rect.w as int), rect.h - top);
        let first = chunk_at(rect, top);
        let rest = chunks_from(rect, top + rows);
        chunks_hold_exactly_the_rectangle(rect, top + rows, px, py);
        assert(all[0] == first);
        assert(forall|i: int| 0 <= i < rest.len() ==> all[i + 1] == #[trigger] rest[i]);
        assert(first.contains(px, py) <==> rect.contains(px, py) && rect.y + top <= py < rect.y
            + top + rows);
        if rect.contains(px, py) && py >= rect.y + top {
            if py < rect.y + top + rows {
                assert(all[0].contains(px, py));
            } else {
                let i = choose|i: int| 0 <= i < rest.len() && (#[trigger] rest[i]).contains(px, py);
                assert(all[i + 1].contains(px, py));
            }
        }
        if exists|i: int| 0 <= i < all.len() && (#[trigger] all[i]).contains(px, py) {
            let i = choose|i: int| 0 <= i < all.len() && (#[trigger] all[i]).contains(px, py);
            if i > 0 {
                assert(rest[i - 1].contains(px, py));
            }
        }
    }
}

/// No two pieces share a pixel.
pub proof fn chunks_do_not_overlap(rect: DirtyRect, top: int, i: int, j: int, px: int, py: int)
    requires
        rect.w >= 0,
        rect.bottom() <= i32::MAX,
        0 <= top,
        0 <= i < j < chunks_from(rect, top).len(),
        chunks_from(rect, top)[i].contains(px, py),
    ensures
        !chunks_from(rect, top)[j].contains(px, py),
    decreases rect.h - top,
{
    let all = chunks_from(rect, top);
    if top < rect.h {
        let rows = crate::rect::least(rows_per_chunk(rect.w as int), rect.h - top);
        let rest = chunks_from(rect, top + rows);
        assert(all[0] == chunk_at(rect, top));
        assert(all[j] == rest[j - 1]);
        if i == 0 {
            chunks_hold_exactly_the_rectangle(rect, top + rows, px, py);
        } else {
            assert(all[i] == rest[i - 1]);
            chunks_do_not_overlap(rect, top + rows, i - 1, j - 1, px, py);
        }
    }
}

/// Every piece spans the full width and some rows, and stays in the limit unless it is a single
/// row.
pub proof fn chunks_stay_in_the_limit(rect: DirtyRect, top: int, i: int)
    requires
        rect.w >= 0,
        rect.bottom() <= i32::MAX,
        0 <= top,
        0 <= i < chunks_from(rect, top).len(),
    ensures
        chunks_from(rect, top)[i].x == rect.x,
        chunks_from(rect, top)[i].w == rect.w,
        chunks_from(rect, top)[i].h >= 1,
        chunks_from(rect, top)[i].h == 1 || chunks_from(rect, top)[i].h * (rect.w * 4)
            <= MAX_CHUNK_BYTES,
    decreases rect.h - top,
{
    let rows = crate::rect::least(rows_per_chunk(rect.w as int), rect.h - top);
    let rest = chunks_from(rect, top + rows);
    let row_bytes = crate::rect::greatest(rect.w * 4, 1);
    if top < rect.h {
        if i == 0 {
            assert(chunks_from(rect, top)[0] == chunk_at(rect, top));
            assert(rows_per_chunk(rect.w as int) <= MAX_CHUNK_BYTES) by (nonlinear_arith)
                requires
                    row_bytes >= 1,
                    rows_per_chunk(rect.w as int) == crate::rect::greatest(
                        MAX_CHUNK_BYTES as int / row_bytes,
                        1,
                    ),
                    MAX_CHUNK_BYTES == 262_144,
            ;
            if rows > 1 {
                assert(rows <= MAX_CHUNK_BYTES as int / row_bytes);
                assert(rows * row_bytes <= MAX_CHUNK_BYTES) by (nonlinear_arith)
                    requires
                        row_bytes >= 1,
                        rows <= MAX_CHUNK_BYTES as int / row_bytes,
                ;
                assert(rows * (rect.w * 4) <= rows * row_bytes) by (nonlinear_arith)
                    requires
                        rect.w * 4 <= row_bytes,
                        rows >= 1,
                ;
            }
        } else {
            assert(chunks_from(rect, top)[i] == rest[i - 1]);
            chunks_stay_in_the_limit(rect, top + rows, i - 1);
        }
    }
}

/// The first depth with 32 bits has 32 bits, and no other one with 32 bits comes before it.
pub proof fn the_first_depth_with_alpha_comes_first(depths: Seq<DepthInfo>, i: int, j: int)
    requires
        first_with_alpha(depths, i),
        0 <= j < depths.len(),
        depths[j].depth == 32,
    ensures
        0 <= i <= j,
        depths[i].depth == 32,
{
}

/// Where a depth has 32 bits there is a first one.
pub proof fn a_depth_with_alpha_is_found(depths: Seq<DepthInfo>, j: int)
    requires
        0 <= j < depths.len(),
        depths[j].depth == 32,
    ensures
        exists|i: int| #[trigger] first_with_alpha(depths, i),
    decreases j,
{
    if exists|k: int| 0 <= k < j && (#[trigger] depths[k]).depth == 32 {
        let k = choose|k: int| 0 <= k < j && (#[trigger] depths[k]).depth == 32;
        a_depth_with_alpha_is_found(depths, k);
    } else {
        assert(first_with_alpha(depths, j));
    }
}

/// The pieces follow each other from top to bottom without a gap, and are as high as they may be:
/// one more row would bring a piece past the limit, unless it is the last. A row without pixels
/// counts as a byte.
pub proof fn chunks_are_as_large_as_they_may_be(rect: DirtyRect, top: int, i: int)
    requires
        rect.w >= 0,
        rect.bottom() <= i32::MAX,
        rect.y + top >= i32::MIN,
        0 <= top,
        0 <= i < chunks_from(rect, top).len(),
    ensures
        chunks_from(rect, top)[0].y == rect.y + top,
        i + 1 < chunks_from(rect, top).len() ==> {
            let chunk = chunks_from(rect, top)[i];
            &&& chunks_from(rect, top)[i + 1].y == chunk.y + chunk.h
            &&& rect.w > 0 ==> (chunk.h + 1) * (rect.w * 4) > MAX_CHUNK_BYTES
            &&& rect.w == 0 ==> chunk.h == MAX_CHUNK_BYTES
        },
        i + 1 == chunks_from(rect, top).len() ==> {
            let chunk = chunks_from(rect, top)[i];
            chunk.y + chunk.h == rect.y + rect.h
        },
    decreases rect.h - top,
{
    let all = chunks_from(rect, top);
    let per_chunk = rows_per_chunk(rect.w as int);
    let rows = crate::rect::least(per_chunk, rect.h - top);
    let rest = chunks_from(rect, top + rows);
    let row_bytes = crate::rect::greatest(rect.w * 4, 1);
    if top < rect.h {
        assert(all[0] == chunk_at(rect, top));
        assert(1 <= per_chunk <= MAX_CHUNK_BYTES) by (nonlinear_arith)
            requires
                row_bytes >= 1,
                per_chunk == crate::rect::greatest(MAX_CHUNK_BYTES as int / row_bytes, 1),
                MAX_CHUNK_BYTES == 262_144,
        ;
        if i == 0 {
            if top + rows < rect.h {
                assert(rest[0] == chunk_at(rect, top + rows));
                assert(all[1] == rest[0]);
                assert((per_chunk + 1) * row_bytes > MAX_CHUNK_BYTES) by (nonlinear_arith)
                    requires
                        row_bytes >= 1,
                        per_chunk >= MAX_CHUNK_BYTES as int / row_bytes,
                ;
            } else {
                assert(rest.len() == 0);
            }
        } else {
            chunks_are_as_large_as_they_may_be(rect, top + rows, i - 1);
            assert(all[i] == rest[i - 1]);
            if i + 1 < all.len() {
                assert(all[i + 1] == rest[i]);
            }
        }
    }
}

/// A round begins by blocking for half a second if there is nothing to draw or to erase, and by
/// taking a signal that is there otherwise. The loop ends exactly if it blocked and no signal will
/// ever come again; else the signals are drained. None of this changes the loop.
pub proof fn a_round_begins_with_the_input(
    pace: RenderLoop,
    idle: bool,
    has_previous: bool,
    wait: Wait,
    disconnected: bool,
)
    ensures
        ({
            let (next, action) = pace.step(LoopEvent::Begun { idle, has_previous });
            &&& next == pace
            &&& action == LoopAction::Wait(Wait::Block { millis: 500 }) <==> idle && !has_previous
            &&& action == LoopAction::Wait(Wait::Poll) <==> !idle || has_previous
        }),
        ({
            let (next, action) = pace.step(LoopEvent::Waited { wait, disconnected });
            &&& next == pace
            &&& action == LoopAction::End <==> wait != Wait::Poll && disconnected
            &&& action == LoopAction::Drain <==> wait == Wait::Poll || !disconnected
        }),
{
}

/// The file's time is read exactly if there is a file to watch and the period of its check has
/// passed, which then starts anew even without a file. The file is loaded exactly if its time is
/// another one, which is then remembered. In every other case the particles are next, and nothing
/// else of the loop changes.
pub proof fn the_configuration_is_checked_in_time(
    pace: RenderLoop,
    now: u64,
    mtime: Option<i128>,
)
    ensures
        ({
            let (next, action) = pace.step(LoopEvent::Drained { now });
            let elapsed = if now >= pace.config_check.last {
                now - pace.config_check.last
            } else {
                0
            };
            let due = elapsed >= pace.config_check.period;
            &&& action == LoopAction::ReadFileTime <==> due && pace.config.watched
            &&& action == LoopAction::Observe <==> !due || !pace.config.watched
            &&& next.config_check.last == if due {
                now
            } else {
                pace.config_check.last
            }
            &&& next.config_check.period == pace.config_check.period
            &&& next.clock == pace.clock && next.raise == pace.raise && next.config == pace.config
        }),
        ({
            let (next, action) = pace.step(LoopEvent::FileTime { mtime });
            let changed = pace.config.watched && mtime != pace.config.mtime;
            &&& action == LoopAction::LoadConfig <==> changed
            &&& action == LoopAction::Observe <==> !changed
            &&& next.config.watched == pace.config.watched
            &&& next.config.mtime == if changed {
                mtime
            } else {
                pace.config.mtime
            }
            &&& next.clock == pace.clock && next.raise == pace.raise && next.config_check
                == pace.config_check
        }),
{
}

/// A configuration that was loaded sets how long a frame lasts; one that could not be loaded
/// changes nothing. Either way the particles are next.
pub proof fn a_loaded_configuration_sets_the_interval(pace: RenderLoop, interval: Option<u64>)
    ensures
        ({
            let (next, action) = pace.step(LoopEvent::Loaded { interval });
            &&& action == LoopAction::Observe
            &&& next.clock.interval == if interval is Some {
                interval->0
            } else {
                pace.clock.interval
            }
            &&& next.clock.last_tick == pace.clock.last_tick
            &&& next.raise == pace.raise && next.config_check == pace.config_check && next.config
                == pace.config
        }),
{
}

/// Particles that are drawn advance by exactly the time since they were last looked at, and every
/// look starts that time anew, whether or not anything is drawn.
pub proof fn particles_advance_by_the_time_that_passed(
    pace: RenderLoop,
    idle: bool,
    has_previous: bool,
    now: u64,
)
    ensures
        ({
            let elapsed = if now >= pace.clock.last_tick {
                now - pace.clock.last_tick
            } else {
                0
            };
            let (next, action) = pace.step(LoopEvent::Observed { idle, has_previous, now });
            &&& idle && !has_previous ==> action == LoopAction::Begin
            &&& !idle || has_previous ==> (action matches LoopAction::Draw { nanos } && nanos
                == elapsed)
            &&& next.clock.last_tick == now
            &&& next.clock.interval == pace.clock.interval
            &&& next.raise == pace.raise && next.config_check == pace.config_check && next.config
                == pace.config
        }),
{
}

/// Every frame is flushed, and the window raised with it exactly if the period has passed since it
/// was last raised. A flushed frame is followed by a sleep for the rest of its interval, or by the
/// next round if nothing is left of it.
pub proof fn frames_are_flushed_and_paced(pace: RenderLoop, now: u64)
    ensures
        ({
            let (next, action) = pace.step(LoopEvent::Drawn { now });
            let elapsed = if now >= pace.raise.last {
                now - pace.raise.last
            } else {
                0
            };
            let due = elapsed >= pace.raise.period;
            &&& action == (LoopAction::Flush { raise: due })
            &&& next.raise.last == if due {
                now
            } else {
                pace.raise.last
            }
            &&& next.raise.period == pace.raise.period
            &&& next.clock == pace.clock && next.config_check == pace.config_check && next.config
                == pace.config
        }),
        ({
            let elapsed = if now >= pace.clock.last_tick {
                now - pace.clock.last_tick
            } else {
                0
            };
            let (next, action) = pace.step(LoopEvent::Flushed { now });
            &&& next == pace
            &&& elapsed >= pace.clock.interval ==> action == LoopAction::Begin
            &&& elapsed < pace.clock.interval ==> (action matches LoopAction::Sleep { nanos }
                && elapsed + nanos == pace.clock.interval)
        }),
{
}

} // verus!
