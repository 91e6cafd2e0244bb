//! The keyboard hook, the queue that it fills, and the pace of the render loop.

use vstd::prelude::*;
use crate::keys::{EmitKind, KeyClass};
use crate::pacing::{ConfigWatch, FrameClock, Throttle};
use crate::rect::{clamp_to, clamped, DirtyRect};

verus! {

/// Bounded so a stalled render loop cannot grow the queue without limit.
pub const MAX_QUEUED_KEYS: usize = 64;

/// How often the configuration file is looked at, in nanoseconds: often, so that tuning feels
/// live.
pub const CONFIG_POLL: u64 = 400_000_000;

pub const VK_BACK: u16 = 8;

pub const VK_SHIFT: u16 = 16;

pub const VK_CONTROL: u16 = 17;

pub const VK_MENU: u16 = 18;

pub const VK_CAPITAL: u16 = 20;

pub const VK_DELETE: u16 = 46;

pub const VK_LWIN: u16 = 91;

pub const VK_RWIN: u16 = 92;

pub const VK_NUMLOCK: u16 = 144;

pub const VK_SCROLL: u16 = 145;

pub const VK_LSHIFT: u16 = 160;

pub const VK_RSHIFT: u16 = 161;

pub const VK_LCONTROL: u16 = 162;

pub const VK_RCONTROL: u16 = 163;

pub const VK_LMENU: u16 = 164;

pub const VK_RMENU: u16 = 165;

/// The hook code of a message that is to be processed.
pub const HC_ACTION: i32 = 0;

pub const WM_QUIT: u32 = 18;

pub const WM_KEYDOWN: u32 = 256;

pub const WM_SYSKEYDOWN: u32 = 260;

/// The keys that change the meaning of others, or lock something.
pub open spec fn modifiers() -> Set<u16> {
    set![
        VK_SHIFT,
        VK_LSHIFT,
        VK_RSHIFT,
        VK_CONTROL,
        VK_LCONTROL,
        VK_RCONTROL,
        VK_MENU,
        VK_LMENU,
        VK_RMENU,
        VK_LWIN,
        VK_RWIN,
        VK_CAPITAL,
        VK_NUMLOCK,
        VK_SCROLL,
    ]
}

/// The class of a virtual key, of whose code the low 16 bits count.
pub open spec fn class_of(vk: u32) -> KeyClass {
    let key = (vk % 0x1_0000) as u16;
    if key == VK_BACK || key == VK_DELETE {
        KeyClass::Delete
    } else if modifiers().contains(key) {
        KeyClass::Ignore
    } else {
        KeyClass::Text
    }
}

/// Classifies a virtual key.
pub fn classify_vk(vk: u32) -> (class: KeyClass)
    ensures
        class == class_of(vk),
{
    let key: u16 = (vk % 0x1_0000) as u16;
    if key == VK_BACK || key == VK_DELETE {
        return KeyClass::Delete;
    }
    if key == VK_SHIFT || key == VK_LSHIFT || key == VK_RSHIFT || key == VK_CONTROL || key
        == VK_LCONTROL || key == VK_RCONTROL || key == VK_MENU || key == VK_LMENU || key == VK_RMENU
        || key == VK_LWIN || key == VK_RWIN || key == VK_CAPITAL || key == VK_NUMLOCK || key
        == VK_SCROLL {
        return KeyClass::Ignore;
    }
    KeyClass::Text
}

/// Whether the hook was called because a key went down.
pub fn is_key_down(code: i32, message: u32) -> (down: bool)
    ensures
        down == (code == HC_ACTION && (message == WM_KEYDOWN || message == WM_SYSKEYDOWN)),
{
    code == HC_ACTION && (message == WM_KEYDOWN || message == WM_SYSKEYDOWN)
}

/// Whether a message of the queue ends the program.
pub fn is_quit(message: u32) -> (quit: bool)
    ensures
        quit == (message == WM_QUIT),
{
    message == WM_QUIT
}

/// The keys that the hook saw and the render loop has not handled yet.
#[derive(Debug)]
pub struct KeyQueue {
    pub keys: Vec<KeyClass>,
}

/// The effects of keys, in order.
pub open spec fn effects_of(keys: Seq<KeyClass>) -> Seq<EmitKind>
    decreases keys.len(),
{
    if keys.len() == 0 {
        Seq::empty()
    } else {
        let earlier = effects_of(keys.drop_last());
        match keys.last().effect() {
            Some(kind) => earlier.push(kind),
            None => earlier,
        }
    }
}

/// An effect, and where it is set off.
#[derive(Debug, Clone, Copy, PartialEq, Eq)]
pub struct Emission {
    pub kind: EmitKind,
    pub x: i32,
    pub y: i32,
}

/// What drained keys set off: all their effects at the position of the cursor, in order; nothing
/// where the cursor has none.
pub open spec fn emissions_of(kinds: Seq<EmitKind>, cursor: Option<(i32, i32)>) -> Seq<Emission> {
    match cursor {
        Some((x, y)) => kinds.map_values(|kind: EmitKind| Emission { kind, x, y }),
        None => Seq::empty(),
    }
}

/// Puts the effects of drained keys at the position of the cursor. Without one they are lost.
pub fn emissions(kinds: &Vec<EmitKind>, cursor: Option<(i32, i32)>) -> (emits: Vec<Emission>)
    ensures
        emits@ == emissions_of(kinds@, cursor),
{
    let mut emits: Vec<Emission> = Vec::new();
    if let Some((x, y)) = cursor {
        let mut i: usize = 0;
        while i < kinds.len()
            invariant
                i <= kinds@.len(),
                emits@ == emissions_of(kinds@.take(i as int), Some((x, y))),
            decreases kinds@.len() - i,
        {
            emits.push(Emission { kind: kinds[i], x, y });
            i = i + 1;
            assert(emits@ =~= emissions_of(kinds@.take(i as int), Some((x, y))));
        }
        assert(kinds@.take(i as int) == kinds@);
    }
    emits
}

impl KeyQueue {
    /// The effects of the keys, in order; none while the effects are switched off.
    pub open spec fn drained(self, enabled: bool) -> Seq<EmitKind> {
        if enabled {
            effects_of(self.keys@)
        } else {
            Seq::empty()
        }
    }

    /// The keys after another one went down.
    pub open spec fn with_key(self, vk: u32) -> Seq<KeyClass> {
        if class_of(vk) != KeyClass::Ignore && self.keys@.len() < MAX_QUEUED_KEYS {
            self.keys@.push(class_of(vk))
        } else {
            self.keys@
        }
    }

    /// The queue is bounded and holds only keys that have an effect.
    pub open spec fn well_formed(self) -> bool {
        &&& self.keys@.len() <= MAX_QUEUED_KEYS
        &&& forall|i: int| 0 <= i < self.keys@.len() ==> #[trigger] self.keys@[i] != KeyClass::Ignore
    }

    /// An empty queue.
    pub fn new() -> (q: Self)
        ensures
            q.well_formed(),
            q.keys@.len() == 0,
    {
        KeyQueue { keys: Vec::new() }
    }

    /// A key went down: it is queued if it has an effect and the queue is not full.
    pub fn key_down(&mut self, vk: u32)
        requires
            old(self).well_formed(),
        ensures
            final(self).well_formed(),
            final(self).keys@ == old(self).with_key(vk),
            final(self).keys@ == if class_of(vk) != KeyClass::Ignore && old(self).keys@.len()
                < MAX_QUEUED_KEYS {
                old(self).keys@.push(class_of(vk))
            } else {
                old(self).keys@
            },
    {
        let class = classify_vk(vk);
        if class != KeyClass::Ignore && self.keys.len() < MAX_QUEUED_KEYS {
            self.keys.push(class);
        }
    }

    /// Empties the queue and returns the effects of its keys, in order. While the effects are
    /// switched off the keys are lost.
    pub fn drain(&mut self, enabled: bool) -> (kinds: Vec<EmitKind>)
        requires
            old(self).well_formed(),
        ensures
            final(self).well_formed(),
            final(self).keys@.len() == 0,
            kinds@ == old(self).drained(enabled),
    {
        let mut kinds: Vec<EmitKind> = Vec::new();
        if enabled {
            let mut i: usize = 0;
            while i < self.keys.len()
                invariant
                    i <= self.keys@.len(),
                    self.keys@ == old(self).keys@,
                    kinds@ == effects_of(self.keys@.take(i as int)),
                decreases self.keys@.len() - i,
            {
                assert(self.keys@.take(i as int + 1).drop_last() == self.keys@.take(i as int));
                if let Some(kind) = self.keys[i].emit_kind() {
                    kinds.push(kind);
                }
                i = i + 1;
            }
            assert(self.keys@.take(i as int) == old(self).keys@);
        }
        self.keys = Vec::new();
        kinds
    }
}

/// Every key that was queued has its effect: none is lost while the effects are on.
pub proof fn every_queued_key_has_its_effect(queue: KeyQueue, i: int)
    requires
        queue.well_formed(),
        0 <= i < queue.keys@.len(),
    ensures
        effects_of(queue.keys@).len() == queue.keys@.len(),
        queue.keys@[i].effect() == Some(effects_of(queue.keys@)[i]),
{
    effects_match_keys(queue.keys@, i);
}

/// While the effects are on and the cursor has a position, every queued key sets off its effect
/// there, once and in order; otherwise none does.
pub proof fn drained_keys_take_effect_at_the_cursor(
    queue: KeyQueue,
    enabled: bool,
    cursor: Option<(i32, i32)>,
    i: int,
)
    requires
        queue.well_formed(),
    ensures
        !enabled || cursor is None ==> emissions_of(queue.drained(enabled), cursor).len() == 0,
        enabled && cursor is Some && 0 <= i < queue.keys@.len() ==> {
            let emits = emissions_of(queue.drained(enabled), cursor);
            &&& emits.len() == queue.keys@.len()
            &&& Some(emits[i].kind) == queue.keys@[i].effect()
            &&& (emits[i].x, emits[i].y) == cursor->0
        },
{
    if 0 <= i < queue.keys@.len() {
        effects_match_keys(queue.keys@, i);
    }
}

proof fn effects_match_keys(keys: Seq<KeyClass>, i: int)
    requires
        forall|j: int| 0 <= j < keys.len() ==> #[trigger] keys[j] != KeyClass::Ignore,
        0 <= i < keys.len(),
    ensures
        effects_of(keys).len() == keys.len(),
        keys[i].effect() == Some(effects_of(keys)[i]),
    decreases keys.len(),
{
    let front = keys.drop_last();
    let earlier = effects_of(front);
    assert(keys.last() == keys[keys.len() - 1]);
    assert(keys.last() != KeyClass::Ignore);
    if front.len() > 0 {
        assert forall|j: int| 0 <= j < front.len() implies #[trigger] front[j] != KeyClass::Ignore by {
            assert(front[j] == keys[j]);
        }
        effects_match_keys(
            front,
            if i < front.len() {
                i
            } else {
                0
            },
        );
    } else {
        assert(earlier.len() == 0);
    }
    assert(effects_of(keys) == earlier.push(keys.last().effect()->0));
    if i < front.len() {
        assert(front[i] == keys[i]);
    }
}

/// Where a frame is shown: the window covers `bounds` of the screen, and the frame is drawn in
/// `area` of the pixmap.
#[derive(Debug, Clone, Copy, PartialEq, Eq, Structural)]
pub struct Placement {
    pub bounds: DirtyRect,
    pub area: DirtyRect,
}

/// Where a frame is shown, given the bounds of its particles: as much of them as is on the
/// screen. `None` if there is nothing to show.
pub open spec fn placement_of(bounds: Option<DirtyRect>, screen: DirtyRect) -> Option<Placement> {
    match bounds {
        Some(b) => match clamped(b, screen) {
            Some(visible) => Some(
                Placement {
                    bounds: visible,
                    area: DirtyRect { x: 0, y: 0, w: visible.w, h: visible.h },
                },
            ),
            None => None,
        },
        None => None,
    }
}

/// Finds out where a frame is shown.
fn place_frame(bounds: Option<DirtyRect>, screen: DirtyRect) -> (placement: Option<Placement>)
    requires
        bounds is Some ==> bounds->0.edges_fit(),
        screen.edges_fit(),
    ensures
        placement == placement_of(bounds, screen),
        placement matches Some(p) ==> p.area.w > 0 && p.area.h > 0,
{
    match bounds {
        Some(b) => match clamp_to(b, screen) {
            Some(visible) => Some(
                Placement {
                    bounds: visible,
                    area: DirtyRect { x: 0, y: 0, w: visible.w, h: visible.h },
                },
            ),
            None => None,
        },
        None => None,
    }
}

/// What the render loop was told.
#[derive(Debug, Clone, Copy, PartialEq, Eq)]
pub enum LoopEvent {
    /// The window messages were handled; one of them may have asked to quit.
    Pumped { quit: bool },
    /// The queued keys were handled.
    Drained { now: u64 },
    /// The time of the configuration file was read; a reload may have been requested.
    FileTime { mtime: Option<i128>, requested: bool },
    /// The configuration was loaded, and says how long a frame lasts; or it could not be.
    Loaded { interval: Option<u64> },
    /// Whether any particle is left.
    Observed { idle: bool, now: u64 },
    /// The particles were advanced, and have these bounds.
    Advanced { bounds: Option<DirtyRect>, screen: DirtyRect },
    /// The pixmap could not be made large enough.
    PixmapFailed,
    /// The frame was shown, or the window was hidden.
    Shown { now: u64 },
}

/// What the render loop does next.
#[derive(Debug, Clone, Copy, PartialEq, Eq, Structural)]
pub enum LoopAction {
    /// Leave the loop.
    End,
    /// Handle the queued keys.
    Drain,
    /// Read the time of the configuration file.
    ReadFileTime,
    /// Load the configuration; keep the previous one if that fails. The request to reload is
    /// used up or still stands.
    LoadConfig { request_used: bool },
    /// Look whether any particle is left.
    Observe,
    /// Hide the window, sleep for that many milliseconds, and begin a round.
    Rest { millis: u64 },
    /// Advance the particles by that many nanoseconds.
    Advance { nanos: u64 },
    /// Draw the particles and show them there.
    Show(Placement),
    /// Hide the window.
    Conceal,
    /// Sleep for that many nanoseconds, and begin a round.
    Sleep { nanos: u64 },
    /// Begin a round.
    Begin,
}

/// The render loop: when it draws, rests and looks at the configuration.
#[derive(Debug, Clone, Copy)]
pub struct RenderLoop {
    pub clock: FrameClock,
    pub config_check: Throttle,
    pub config: ConfigWatch,
}

impl RenderLoop {
    /// The rectangles of the event have edges that are coordinates.
    pub open spec fn event_fits(event: LoopEvent) -> bool {
        event matches LoopEvent::Advanced { bounds, screen } ==> {
            &&& bounds is Some ==> bounds->0.edges_fit()
            &&& screen.edges_fit()
        }
    }

    /// The loop after an event, and what it does next.
    pub open spec fn step(self, event: LoopEvent) -> (RenderLoop, LoopAction) {
        match event {
            LoopEvent::Pumped { quit } => (
                self,
                if quit {
                    LoopAction::End
                } else {
                    LoopAction::Drain
                },
            ),
            LoopEvent::Drained { now } => (
                RenderLoop { config_check: self.config_check.looked_at(now), ..self },
                if self.config_check.passed(now) && self.config.watched {
                    LoopAction::ReadFileTime
                } else {
                    LoopAction::Observe
                },
            ),
            // A request is used up only where the time had not changed anyway.
            LoopEvent::FileTime { mtime, requested } => {
                let load = self.config.watched && (self.config.differs(mtime) || requested);
                (
                    RenderLoop { config: self.config.seen(mtime, load), ..self },
                    if load {
                        LoopAction::LoadConfig { request_used: !self.config.differs(mtime) }
                    } else {
                        LoopAction::Observe
                    },
                )
            },
            LoopEvent::Loaded { interval } => (
                match interval {
                    Some(interval) => RenderLoop {
                        clock: FrameClock { interval, ..self.clock },
                        ..self
                    },
                    None => self,
                },
                LoopAction::Observe,
            ),
            LoopEvent::Observed { idle, now } => (
                RenderLoop { clock: FrameClock { last_tick: now, ..self.clock }, ..self },
                if idle {
                    LoopAction::Rest { millis: 8 }
                } else {
                    LoopAction::Advance {
                        nanos: crate::pacing::time_since(now, self.clock.last_tick) as u64,
                    }
                },
            ),
            LoopEvent::Advanced { bounds, screen } => (
                self,
                match placement_of(bounds, screen) {
                    Some(placement) => LoopAction::Show(placement),
                    None => LoopAction::Conceal,
                },
            ),
            LoopEvent::PixmapFailed => (self, LoopAction::Begin),
            LoopEvent::Shown { now } => (
                self,
                match self.clock.remaining(now) {
                    Some(nanos) => LoopAction::Sleep { nanos },
                    None => LoopAction::Begin,
                },
            ),
        }
    }

    /// Starts the loop. The configuration is looked at every 400 ms.
    pub fn new(now: u64, interval: u64, config: ConfigWatch) -> (l: Self)
        ensures
            l == (RenderLoop {
                clock: FrameClock { last_tick: now, interval },
                config_check: Throttle { last: now, period: CONFIG_POLL },
                config,
            }),
    {
        RenderLoop {
            clock: FrameClock::new(now, interval),
            config_check: Throttle::new(now, CONFIG_POLL),
            config,
        }
    }

    /// Runs the loop in steps: takes what happened, and says what to do next.
    pub fn run(&mut self, event: LoopEvent) -> (action: LoopAction)
        requires
            RenderLoop::event_fits(event),
        ensures
            (*final(self), action) == old(self).step(event),
    {
        match event {
            LoopEvent::Pumped { quit } => {
                if quit {
                    LoopAction::End
                } else {
                    LoopAction::Drain
                }
            },
            LoopEvent::Drained { now } => {
                if self.config_check.due(now) && self.config.watched {
                    LoopAction::ReadFileTime
                } else {
                    LoopAction::Observe
                }
            },
            LoopEvent::FileTime { mtime, requested } => {
                let mut request = requested;
                if self.config.changed_or_requested(mtime, &mut request) {
                    LoopAction::LoadConfig { request_used: requested && !request }
                } else {
                    LoopAction::Observe
                }
            },
            LoopEvent::Loaded { interval } => {
                if let Some(interval) = interval {
                    self.clock.set_interval(interval);
                }
                LoopAction::Observe
            },
            LoopEvent::Observed { idle, now } => {
                match self.clock.begin_frame(idle, now) {
                    Some(nanos) => LoopAction::Advance { nanos },
                    None => LoopAction::Rest { millis: 8 },
                }
            },
            LoopEvent::Advanced { bounds, screen } => {
                match place_frame(bounds, screen) {
                    Some(placement) => LoopAction::Show(placement),
                    None => LoopAction::Conceal,
                }
            },
            LoopEvent::PixmapFailed => LoopAction::Begin,
            LoopEvent::Shown { now } => {
                match self.clock.pause(now) {
                    Some(nanos) => LoopAction::Sleep { nanos },
                    None => LoopAction::Begin,
                }
            },
        }
    }
}

/// What is shown is exactly the part of the bounds that lies on the screen, drawn in an area of the
/// same size; the window is hidden only where there is no such part.
pub proof fn frames_are_shown_on_the_screen(
    pace: RenderLoop,
    bounds: Option<DirtyRect>,
    screen: DirtyRect,
    px: int,
    py: int,
)
    requires
        RenderLoop::event_fits(LoopEvent::Advanced { bounds, screen }),
    ensures
        pace.step(LoopEvent::Advanced { bounds, screen }).1 matches LoopAction::Show(p) ==> {
            &&& p.bounds.contains(px, py) <==> bounds->0.contains(px, py) && screen.contains(
                px,
                py,
            )
            &&& p.area.w == p.bounds.w && p.area.h == p.bounds.h
            &&& p.bounds.w > 0 && p.bounds.h > 0
        },
        pace.step(LoopEvent::Advanced { bounds, screen }).1 is Conceal && bounds is Some ==> !(
        bounds->0.contains(px, py) && screen.contains(px, py)),
{
}

/// A request to reload is honoured at the next look at a file that is watched, and used up at the
/// latest by a second look that finds the same time.
pub proof fn a_reload_request_is_honoured(pace: RenderLoop, mtime: Option<i128>)
    requires
        pace.config.watched,
    ensures
        pace.step(LoopEvent::FileTime { mtime, requested: true }).1 is LoadConfig,
        pace.step(LoopEvent::FileTime { mtime, requested: true }).0.step(
            LoopEvent::FileTime { mtime, requested: true },
        ).1 == (LoopAction::LoadConfig { request_used: true }),
{
}

/// Of a virtual key the low 16 bits count. Backspace and delete are the keys that delete; the
/// modifiers and locks are ignored; every other key types.
pub proof fn every_other_key_types(vk: u32)
    ensures
        ({
            let key = vk as int % 0x1_0000;
            &&& class_of(vk) == KeyClass::Delete <==> key == VK_BACK || key == VK_DELETE
            &&& class_of(vk) == KeyClass::Ignore <==> {
                ||| key == VK_SHIFT || key == VK_LSHIFT || key == VK_RSHIFT
                ||| key == VK_CONTROL || key == VK_LCONTROL || key == VK_RCONTROL
                ||| key == VK_MENU || key == VK_LMENU || key == VK_RMENU
                ||| key == VK_LWIN || key == VK_RWIN
                ||| key == VK_CAPITAL || key == VK_NUMLOCK || key == VK_SCROLL
            }
        }),
{
}

/// Effects are set off one for one, in order and all where the cursor is; none without a position.
pub proof fn effects_are_set_off_at_the_cursor(
    kinds: Seq<EmitKind>,
    cursor: Option<(i32, i32)>,
    i: int,
)
    ensures
        cursor is None ==> emissions_of(kinds, cursor).len() == 0,
        cursor matches Some((x, y)) ==> {
            &&& emissions_of(kinds, cursor).len() == kinds.len()
            &&& 0 <= i < kinds.len() ==> emissions_of(kinds, cursor)[i] == (Emission {
                kind: kinds[i],
                x,
                y,
            })
        },
{
}

/// A frame is drawn in the corner of a pixmap that is as large as the window: pixel for pixel, what
/// is at a place of the bounds is drawn at the same distance from the pixmap's corner.
pub proof fn frames_are_drawn_in_the_corner_of_the_pixmap(
    pace: RenderLoop,
    bounds: Option<DirtyRect>,
    screen: DirtyRect,
    px: int,
    py: int,
)
    requires
        RenderLoop::event_fits(LoopEvent::Advanced { bounds, screen }),
    ensures
        pace.step(LoopEvent::Advanced { bounds, screen }).0 == pace,
        pace.step(LoopEvent::Advanced { bounds, screen }).1 matches LoopAction::Show(p) ==> {
            &&& p.area.x == 0 && p.area.y == 0
            &&& p.area.w == p.bounds.w && p.area.h == p.bounds.h
            &&& p.area.within(p.bounds.w as int, p.bounds.h as int)
            &&& p.bounds.contains(px, py) <==> p.area.contains(px - p.bounds.x, py - p.bounds.y)
        },
        bounds is None ==> pace.step(LoopEvent::Advanced { bounds, screen }).1
            == LoopAction::Conceal,
        bounds is Some && bounds->0.contains(px, py) && screen.contains(px, py) ==> pace.step(
            LoopEvent::Advanced { bounds, screen },
        ).1 is Show,
        pace.step(LoopEvent::Advanced { bounds, screen }).1 is Show || pace.step(
            LoopEvent::Advanced { bounds, screen },
        ).1 is Conceal,
{
}

/// The loop ends exactly if it is asked to; otherwise the queued keys are next.
pub proof fn the_loop_ends_when_asked_to(pace: RenderLoop, quit: bool)
    ensures
        pace.step(LoopEvent::Pumped { quit }).0 == pace,
        quit ==> pace.step(LoopEvent::Pumped { quit }).1 == LoopAction::End,
        !quit ==> pace.step(LoopEvent::Pumped { quit }).1 == LoopAction::Drain,
{
}

/// The file's time is read exactly if there is a file to watch and the period of its check has
/// passed, which then starts anew even without a file. The file is loaded exactly if its time is
/// another one or a reload is requested, and its time is then remembered; a request is used up
/// exactly if it alone was the reason. Nothing else of the loop changes.
pub proof fn the_configuration_is_checked_in_time(
    pace: RenderLoop,
    now: u64,
    mtime: Option<i128>,
    requested: bool,
)
    ensures
        ({
            let (next, action) = pace.step(LoopEvent::Drained { now });
            let elapsed = if now >= pace.config_check.last {
                now - pace.config_check.last
            } else {
                0
            };
            let due = elapsed >= pace.config_check.period;
            &&& action == LoopAction::ReadFileTime <==> due && pace.config.watched
            &&& action == LoopAction::Observe <==> !due || !pace.config.watched
            &&& next.config_check.last == if due {
                now
            } else {
                pace.config_check.last
            }
            &&& next.config_check.period == pace.config_check.period
            &&& next.clock == pace.clock && next.config == pace.config
        }),
        ({
            let (next, action) = pace.step(LoopEvent::FileTime { mtime, requested });
            let changed = mtime != pace.config.mtime;
            let load = pace.config.watched && (changed || requested);
            &&& load ==> action == (LoopAction::LoadConfig { request_used: !changed })
            &&& !load ==> action == LoopAction::Observe
            &&& next.config.watched == pace.config.watched
            &&& next.config.mtime == if load {
                mtime
            } else {
                pace.config.mtime
            }
            &&& next.clock == pace.clock && next.config_check == pace.config_check
        }),
{
}

/// A configuration that was loaded sets how long a frame lasts; one that could not be loaded
/// changes nothing. Either way the particles are next.
pub proof fn a_loaded_configuration_sets_the_interval(pace: RenderLoop, interval: Option<u64>)
    ensures
        ({
            let (next, action) = pace.step(LoopEvent::Loaded { interval });
            &&& action == LoopAction::Observe
            &&& next.clock.interval == if interval is Some {
                interval->0
            } else {
                pace.clock.interval
            }
            &&& next.clock.last_tick == pace.clock.last_tick
            &&& next.config_check == pace.config_check && next.config == pace.config
        }),
{
}

/// Without particles the loop rests for 8 ms; otherwise they advance by exactly the time since they
/// were last looked at. Every look starts that time anew.
pub proof fn particles_advance_by_the_time_that_passed(pace: RenderLoop, idle: bool, now: u64)
    ensures
        ({
            let elapsed = if now >= pace.clock.last_tick {
                now - pace.clock.last_tick
            } else {
                0
            };
            let (next, action) = pace.step(LoopEvent::Observed { idle, now });
            &&& idle ==> action == (LoopAction::Rest { millis: 8 })
            &&& !idle ==> (action matches LoopAction::Advance { nanos } && nanos == elapsed)
            &&& next.clock.last_tick == now
            &&& next.clock.interval == pace.clock.interval
            &&& next.config_check == pace.config_check && next.config == pace.config
        }),
{
}

/// A frame that was shown is followed by a sleep for the rest of its interval, or by the next round
/// if nothing is left of it. A frame without a pixmap is followed by the next round at once.
pub proof fn frames_are_paced(pace: RenderLoop, now: u64)
    ensures
        ({
            let elapsed = if now >= pace.clock.last_tick {
                now - pace.clock.last_tick
            } else {
                0
            };
            let (next, action) = pace.step(LoopEvent::Shown { now });
            &&& next == pace
            &&& elapsed >= pace.clock.interval ==> action == LoopAction::Begin
            &&& elapsed < pace.clock.interval ==> (action matches LoopAction::Sleep { nanos }
                && elapsed + nanos == pace.clock.interval)
        }),
        pace.step(LoopEvent::PixmapFailed) == (pace, LoopAction::Begin),
{
}

/// A key that has an effect is queued behind all others as long as fewer than 64 are waiting. A key
/// without one, or one too many, leaves the queue as it is.
pub proof fn keys_are_queued_in_order(queue: KeyQueue, vk: u32)
    requires
        queue.well_formed(),
    ensures
        queue.with_key(vk).len() <= 64,
        class_of(vk).effect() is Some && queue.keys@.len() < 64 ==> {
            &&& queue.with_key(vk).len() == queue.keys@.len() + 1
            &&& queue.with_key(vk).drop_last() == queue.keys@
            &&& queue.with_key(vk).last() == class_of(vk)
        },
        class_of(vk).effect() is None || queue.keys@.len() == 64 ==> queue.with_key(vk)
            == queue.keys@,
{
    if class_of(vk).effect() is Some && queue.keys@.len() < 64 {
        assert(queue.with_key(vk).drop_last() == queue.keys@);
    }
}

/// Only a key that goes down counts, with or without the Alt key, and only where the hook is to
/// act; only the quit message quits.
pub proof fn only_keys_that_go_down_count(
    code: i32,
    message: u32,
    down: bool,
    quit: bool,
)
    requires
        call_ensures(is_key_down, (code, message), down),
        call_ensures(is_quit, (message,), quit),
    ensures
        down ==> code == 0,
        code == 0 ==> (down <==> message == WM_KEYDOWN || message == WM_SYSKEYDOWN),
        quit <==> message == WM_QUIT,
        !(down && quit),
{
}

} // verus!
