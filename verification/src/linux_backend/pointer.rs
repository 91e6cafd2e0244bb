//! Where the particles spawn: the position of the pointer, from whichever source can tell it.

use vstd::prelude::*;
use crate::keys::{EmitKind, KeyClass};
use crate::text::{join_path, split_once, trim};

verus! {

/// Tracks the pointer by adding up raw relative motion inside the bounds of the screen.
///
/// The pointer starts in the middle of the screen, which need not be a whole pixel. Coordinates
/// are therefore kept in half pixels, in which every position is exact.
#[derive(Debug, Clone, Copy, PartialEq, Eq)]
pub struct Relative {
    pub half_x: i128,
    pub half_y: i128,
    pub width: i64,
    pub height: i64,
    pub seeded: bool,
}

/// The value in `low ..= high` that is nearest to `v`.
pub open spec fn nearest_in(v: int, low: int, high: int) -> int {
    if v < low {
        low
    } else if v > high {
        high
    } else {
        v
    }
}

/// A side of the screen is at least one pixel long.
pub open spec fn at_least_one(v: i64) -> i64 {
    if v >= 1 {
        v
    } else {
        1
    }
}

impl Relative {
    /// The position lies between the first and the last pixel of a screen that has at least one.
    pub open spec fn well_formed(self) -> bool {
        &&& self.width >= 1 && self.height >= 1
        &&& 0 <= self.half_x <= 2 * (self.width - 1)
        &&& 0 <= self.half_y <= 2 * (self.height - 1)
    }

    /// The tracker at the position nearest to the given one that is on the screen.
    pub open spec fn moved_to(self, half_x: int, half_y: int) -> Relative {
        Relative {
            half_x: nearest_in(half_x, 0, 2 * (self.width - 1)) as i128,
            half_y: nearest_in(half_y, 0, 2 * (self.height - 1)) as i128,
            ..self
        }
    }

    /// The tracker on a screen of another size. The first time the pointer is put in the middle.
    pub open spec fn resized(self, width: i64, height: i64) -> Relative {
        let (width, height) = (at_least_one(width), at_least_one(height));
        let screen = Relative { width, height, seeded: true, ..self };
        if self.seeded {
            screen.moved_to(self.half_x as int, self.half_y as int)
        } else {
            screen.moved_to(width as int, height as int)
        }
    }

    /// The tracker after the pointer moved by whole pixels.
    pub open spec fn moved_by(self, dx: i32, dy: i32) -> Relative {
        self.moved_to(self.half_x + 2 * dx, self.half_y + 2 * dy)
    }

    /// Starts in the corner of a full HD screen, until the bounds are known.
    pub fn new() -> (r: Self)
        ensures
            r.well_formed(),
            r == (Relative { half_x: 0, half_y: 0, width: 1920, height: 1080, seeded: false }),
    {
        Relative { half_x: 0, half_y: 0, width: 1920, height: 1080, seeded: false }
    }

    /// Sets the size of the screen.
    pub fn set_bounds(&mut self, width: i64, height: i64)
        ensures
            final(self).well_formed(),
            *final(self) == old(self).resized(width, height),
    {
        self.width = if width >= 1 { width } else { 1 };
        self.height = if height >= 1 { height } else { 1 };
        if !self.seeded {
            self.half_x = self.width as i128;
            self.half_y = self.height as i128;
            self.seeded = true;
        }
        self.clamp();
    }

    /// Moves the pointer by whole pixels, as far as the screen goes.
    pub fn motion(&mut self, dx: i32, dy: i32)
        requires
            old(self).well_formed(),
        ensures
            final(self).well_formed(),
            *final(self) == old(self).moved_by(dx, dy),
    {
        self.half_x = self.half_x + 2 * (dx as i128);
        self.half_y = self.half_y + 2 * (dy as i128);
        self.clamp();
    }

    fn clamp(&mut self)
        requires
            old(self).width >= 1,
            old(self).height >= 1,
        ensures
            final(self).well_formed(),
            *final(self) == old(self).moved_to(old(self).half_x as int, old(self).half_y as int),
    {
        let last_x: i128 = 2 * (self.width as i128 - 1);
        let last_y: i128 = 2 * (self.height as i128 - 1);
        if self.half_x < 0 {
            self.half_x = 0;
        } else if self.half_x > last_x {
            self.half_x = last_x;
        }
        if self.half_y < 0 {
            self.half_y = 0;
        } else if self.half_y > last_y {
            self.half_y = last_y;
        }
    }
}

/// Where the particles spawn. Wayland deliberately offers no way to query the
/// global pointer position, so each compositor family needs its own route.
#[derive(Debug, Clone)]
pub enum Pointer {
    /// Hyprland exposes `cursorpos` over its control socket: exact, cheap.
    Hyprland { socket: String, fallback: Relative },
    /// X11 answers QueryPointer against the root window: exact.
    X11 { root: u32 },
    /// Anything else: integrate raw evdev motion. Approximate, since the
    /// compositor's acceleration curve is not reproduced.
    Relative(Relative),
}

/// The position of the pointer.
#[derive(Debug, Clone, Copy, PartialEq, Eq)]
pub enum Position {
    /// The one that the source answered: real numbers, carried along by their IEEE 754 bits.
    Queried { x: u32, y: u32 },
    /// The one that the tracker estimates, in half pixels.
    Estimated { half_x: i128, half_y: i128 },
}

/// An effect, and where it is set off.
#[derive(Debug, Clone, Copy, PartialEq, Eq)]
pub struct Emission {
    pub kind: EmitKind,
    pub at: Position,
}

/// What a key sets off: its effect, if it has one, at the pointer's position, if there is one.
pub open spec fn emission_of(kind: Option<EmitKind>, position: Option<Position>) -> Option<
    Emission,
> {
    match (kind, position) {
        (Some(kind), Some(at)) => Some(Emission { kind, at }),
        _ => None,
    }
}

/// Puts an effect at the pointer's position. Without a position nothing is set off.
pub fn emission(kind: Option<EmitKind>, position: Option<Position>) -> (emit: Option<Emission>)
    ensures
        emit == emission_of(kind, position),
{
    match (kind, position) {
        (Some(kind), Some(at)) => Some(Emission { kind, at }),
        _ => None,
    }
}

impl Pointer {
    /// The tracked position, if there is one, is on the screen.
    pub open spec fn well_formed(self) -> bool {
        match self {
            Pointer::Hyprland { fallback, .. } => fallback.well_formed(),
            Pointer::X11 { .. } => true,
            Pointer::Relative(rel) => rel.well_formed(),
        }
    }

    /// The tracker that motion is added to, if the source has one.
    pub open spec fn tracker(self) -> Option<Relative> {
        match self {
            Pointer::Hyprland { fallback, .. } => Some(fallback),
            Pointer::X11 { .. } => None,
            Pointer::Relative(rel) => Some(rel),
        }
    }

    /// The same source with another state of its tracker.
    pub open spec fn with_tracker(self, tracker: Relative) -> Pointer {
        match self {
            Pointer::Hyprland { socket, .. } => Pointer::Hyprland { socket, fallback: tracker },
            Pointer::X11 { root } => Pointer::X11 { root },
            Pointer::Relative(_) => Pointer::Relative(tracker),
        }
    }

    /// The source on a screen of another size, which only a tracker takes note of.
    pub open spec fn resized(self, width: i64, height: i64) -> Pointer {
        match self.tracker() {
            Some(t) => self.with_tracker(t.resized(width, height)),
            None => self,
        }
    }

    /// The source after relative motion, which only a tracker takes note of.
    pub open spec fn moved_by(self, dx: i32, dy: i32) -> Pointer {
        match self.tracker() {
            Some(t) => self.with_tracker(t.moved_by(dx, dy)),
            None => self,
        }
    }

    /// The position that the tracker estimates, if the source has one.
    pub open spec fn estimate(self) -> Option<Position> {
        match self.tracker() {
            Some(t) => Some(Position::Estimated { half_x: t.half_x, half_y: t.half_y }),
            None => None,
        }
    }

    /// The position, given what the source answered: the answer if there is one, else the
    /// estimate. Nothing answers for relative motion, which is always estimated.
    pub open spec fn located(self, answer: Option<(u32, u32)>) -> Option<Position> {
        match answer {
            Some((x, y)) if self !is Relative => Some(Position::Queried { x, y }),
            _ => self.estimate(),
        }
    }

    /// Whether an X server is to be asked for the pointer: only where there is no Hyprland socket
    /// and no Wayland display.
    pub fn wants_x11(socket: &Option<String>, wayland_display: bool) -> (b: bool)
        ensures
            b == (socket is None && !wayland_display),
    {
        socket.is_none() && !wayland_display
    }

    /// Picks the best source: the Hyprland socket, else, without a Wayland display, the X server
    /// that answered with its root window, else relative motion.
    pub fn detect(socket: Option<String>, wayland_display: bool, x11_root: Option<u32>) -> (p: Self)
        ensures
            p.well_formed(),
            socket matches Some(path) ==> (p matches Pointer::Hyprland { socket: s, .. } && s
                == path),
            socket is None && !wayland_display && x11_root is Some ==> p == (Pointer::X11 {
                root: x11_root->0,
            }),
            socket is None && (wayland_display || x11_root is None) ==> p is Relative,
            p.tracker() matches Some(t) ==> t == (Relative {
                half_x: 0,
                half_y: 0,
                width: 1920,
                height: 1080,
                seeded: false,
            }),
    {
        if let Some(path) = socket {
            return Pointer::Hyprland { socket: path, fallback: Relative::new() };
        }
        if !wayland_display {
            if let Some(root) = x11_root {
                return Pointer::X11 { root };
            }
        }
        Pointer::Relative(Relative::new())
    }

    /// Tells the source the size of the screen.
    pub fn set_bounds(&mut self, width: i64, height: i64)
        ensures
            final(self).well_formed(),
            *final(self) == old(self).resized(width, height),
    {
        match self {
            Pointer::Hyprland { fallback, .. } => fallback.set_bounds(width, height),
            Pointer::Relative(rel) => rel.set_bounds(width, height),
            Pointer::X11 { .. } => {},
        }
    }

    /// Tells the source of relative motion. An exact source without a tracker ignores it.
    pub fn on_motion(&mut self, dx: i32, dy: i32)
        requires
            old(self).well_formed(),
        ensures
            final(self).well_formed(),
            *final(self) == old(self).moved_by(dx, dy),
    {
        match self {
            Pointer::Hyprland { fallback, .. } => fallback.motion(dx, dy),
            Pointer::Relative(rel) => rel.motion(dx, dy),
            Pointer::X11 { .. } => {},
        }
    }

    /// The position, given what the source answered when it was asked. A source that does not
    /// answer falls back to its tracker, and without one there is no position.
    pub fn position(&self, answer: Option<(u32, u32)>) -> (position: Option<Position>)
        ensures
            position == self.located(answer),
    {
        match self {
            Pointer::Hyprland { fallback, .. } => match answer {
                Some((x, y)) => Some(Position::Queried { x, y }),
                None => Some(
                    Position::Estimated { half_x: fallback.half_x, half_y: fallback.half_y },
                ),
            },
            Pointer::X11 { .. } => match answer {
                Some((x, y)) => Some(Position::Queried { x, y }),
                None => None,
            },
            Pointer::Relative(rel) => Some(
                Position::Estimated { half_x: rel.half_x, half_y: rel.half_y },
            ),
        }
    }
}

/// A key sets off exactly its own effect, at the position of the pointer, if it has an effect and
/// the pointer a position. Only an X server that does not answer leaves the pointer without one.
pub proof fn keys_take_effect_where_the_pointer_is(
    pointer: Pointer,
    class: KeyClass,
    answer: Option<(u32, u32)>,
)
    ensures
        emission_of(class.effect(), pointer.located(answer)) is Some <==> class.effect() is Some && !(
        pointer is X11 && answer is None),
        emission_of(class.effect(), pointer.located(answer)) matches Some(e) ==> Some(e.kind)
            == class.effect() && Some(e.at) == pointer.located(answer),
{
}

/// The path of an instance's socket below a directory.
pub open spec fn socket_below(directory: Seq<char>, signature: Seq<char>) -> Seq<char> {
    crate::text::joined_path(
        crate::text::joined_path(directory, signature),
        ".socket.sock"@,
    )
}

/// Where the socket of the Hyprland instance with a signature may be, best first: in the runtime
/// directory, if one is set, and in the directory that older releases used.
pub open spec fn socket_paths(signature: Seq<char>, runtime_dir: Option<Seq<char>>) -> Seq<
    Seq<char>,
> {
    let old_place = socket_below("/tmp/hypr"@, signature);
    match runtime_dir {
        Some(dir) => seq![
            socket_below(crate::text::joined_path(dir, "hypr"@), signature),
            old_place,
        ],
        None => seq![old_place],
    }
}

/// The texts that strings hold.
pub open spec fn texts(strings: Seq<String>) -> Seq<Seq<char>> {
    strings.map_values(|s: String| s@)
}

fn socket_path(directory: &str, signature: &str) -> (path: String)
    ensures
        path@ == socket_below(directory@, signature@),
{
    let instance = join_path(directory, signature);
    join_path(instance.as_str(), ".socket.sock")
}

/// The paths at which to look for Hyprland's socket, best first; none without a signature.
pub fn socket_candidates(signature: Option<&str>, runtime_dir: Option<&str>) -> (paths: Vec<String>)
    ensures
        signature is None ==> paths@.len() == 0,
        signature matches Some(sig) ==> texts(paths@) == socket_paths(
            sig@,
            match runtime_dir {
                Some(dir) => Some(dir@),
                None => None,
            },
        ),
{
    let mut paths: Vec<String> = Vec::new();
    if let Some(sig) = signature {
        if let Some(dir) = runtime_dir {
            let hypr = join_path(dir, "hypr");
            paths.push(socket_path(hypr.as_str(), sig));
        }
        paths.push(socket_path("/tmp/hypr", sig));
    }
    paths
}

/// The first path that exists.
pub fn hyprland_socket(paths: &Vec<String>, exists: &Vec<bool>) -> (socket: Option<String>)
    requires
        paths@.len() == exists@.len(),
    ensures
        socket is None <==> forall|i: int| 0 <= i < exists@.len() ==> !#[trigger] exists@[i],
        socket matches Some(s) ==> exists|i: int|
            0 <= i < exists@.len() && #[trigger] exists@[i] && s@ == paths@[i]@ && forall|j: int|
                0 <= j < i ==> !#[trigger] exists@[j],
{
    let mut i: usize = 0;
    while i < exists.len()
        invariant
            i <= exists@.len(),
            paths@.len() == exists@.len(),
            forall|j: int| 0 <= j < i ==> !#[trigger] exists@[j],
        decreases exists@.len() - i,
    {
        if exists[i] {
            return Some(paths[i].clone());
        }
        i = i + 1;
    }
    None
}

/// The two numbers in Hyprland's answer to `cursorpos`, as text: what stands before and after the
/// first comma, without the white space around it. `None` without a comma.
pub open spec fn cursor_numbers(reply: Seq<char>) -> Option<(Seq<char>, Seq<char>)> {
    match crate::text::parted(crate::text::trimmed(reply), ',') {
        Some((x, y)) => Some((crate::text::trimmed(x), crate::text::trimmed(y))),
        None => None,
    }
}

/// Takes Hyprland's answer to `cursorpos` apart.
pub fn split_cursor_reply(reply: &str) -> (numbers: Option<(&str, &str)>)
    ensures
        numbers is Some <==> cursor_numbers(reply@) is Some,
        numbers matches Some((x, y)) ==> (x@, y@) == cursor_numbers(reply@)->0,
{
    match split_once(trim(reply), ',') {
        Some((x, y)) => Some((trim(x), trim(y))),
        None => None,
    }
}

/// However the pointer is moved and the screen resized, a tracked position stays on the screen.
pub proof fn tracked_position_stays_on_screen(
    tracker: Relative,
    dx: i32,
    dy: i32,
    width: i64,
    height: i64,
)
    requires
        tracker.well_formed(),
    ensures
        tracker.moved_by(dx, dy).well_formed(),
        tracker.resized(width, height).well_formed(),
{
}

/// Once the pointer was placed, only a screen that became too small moves it.
pub proof fn resizing_keeps_a_position_that_fits(tracker: Relative, width: i64, height: i64)
    requires
        tracker.seeded,
        tracker.well_formed(),
        tracker.half_x <= 2 * (width - 1),
        tracker.half_y <= 2 * (height - 1),
    ensures
        tracker.resized(width, height).half_x == tracker.half_x,
        tracker.resized(width, height).half_y == tracker.half_y,
{
}

/// Motion that stays on the screen adds up, and is undone by moving back.
pub proof fn motion_on_screen_adds_up(tracker: Relative, dx: i32, dy: i32)
    requires
        tracker.well_formed(),
        0 <= tracker.half_x + 2 * dx <= 2 * (tracker.width - 1),
        0 <= tracker.half_y + 2 * dy <= 2 * (tracker.height - 1),
        dx > i32::MIN,
        dy > i32::MIN,
    ensures
        tracker.moved_by(dx, dy).half_x == tracker.half_x + 2 * dx,
        tracker.moved_by(dx, dy).half_y == tracker.half_y + 2 * dy,
        tracker.moved_by(dx, dy).moved_by((-dx) as i32, (-dy) as i32) == tracker,
{
}

/// Motion moves the pointer by whole pixels along each axis, and stops at the edge of the screen
/// that it would leave. Nothing but the position changes.
pub proof fn motion_stops_at_the_edges(tracker: Relative, dx: i32, dy: i32)
    requires
        tracker.well_formed(),
    ensures
        ({
            let moved = tracker.moved_by(dx, dy);
            let (x, y) = (tracker.half_x + 2 * dx, tracker.half_y + 2 * dy);
            let (last_x, last_y) = (2 * (tracker.width - 1), 2 * (tracker.height - 1));
            &&& moved.half_x == if x < 0 { 0 } else if x > last_x { last_x } else { x }
            &&& moved.half_y == if y < 0 { 0 } else if y > last_y { last_y } else { y }
            &&& moved.width == tracker.width && moved.height == tracker.height
            &&& moved.seeded == tracker.seeded
        }),
{
}

/// The screen gets the size that is set, but at least one pixel. The first size puts the pointer in
/// the middle; a later one moves it only as far as the screen has become too small.
pub proof fn resizing_places_or_keeps_the_pointer(tracker: Relative, width: i64, height: i64)
    ensures
        ({
            let resized = tracker.resized(width, height);
            &&& resized.seeded
            &&& resized.width == if width >= 1 { width } else { 1 }
            &&& resized.height == if height >= 1 { height } else { 1 }
            &&& !tracker.seeded && width >= 2 ==> resized.half_x == width
            &&& !tracker.seeded && height >= 2 ==> resized.half_y == height
            &&& tracker.seeded && 0 <= tracker.half_x <= 2 * (resized.width - 1) ==> resized.half_x
                == tracker.half_x
            &&& tracker.seeded && tracker.half_x < 0 ==> resized.half_x == 0
            &&& tracker.seeded && tracker.half_y < 0 ==> resized.half_y == 0
            &&& tracker.seeded && tracker.half_x > 2 * (resized.width - 1) ==> resized.half_x == 2
                * (resized.width - 1)
            &&& tracker.seeded && 0 <= tracker.half_y <= 2 * (resized.height - 1) ==> resized.half_y
                == tracker.half_y
            &&& tracker.seeded && tracker.half_y > 2 * (resized.height - 1) ==> resized.half_y == 2
                * (resized.height - 1)
            &&& width < 2 ==> resized.half_x == 0
            &&& height < 2 ==> resized.half_y == 0
        }),
{
}

/// Motion and sizes reach the tracker of a source that has one, and change nothing else of it; the
/// X server's pointer has none and never changes.
pub proof fn only_trackers_follow_the_pointer(
    pointer: Pointer,
    dx: i32,
    dy: i32,
    width: i64,
    height: i64,
)
    ensures
        pointer is X11 ==> pointer.moved_by(dx, dy) == pointer && pointer.resized(width, height)
            == pointer && pointer.tracker() is None,
        pointer matches Pointer::Relative(t) ==> {
            &&& pointer.moved_by(dx, dy) == Pointer::Relative(t.moved_by(dx, dy))
            &&& pointer.resized(width, height) == Pointer::Relative(t.resized(width, height))
            &&& pointer.tracker() == Some(t)
        },
        pointer matches Pointer::Hyprland { socket, fallback: t } ==> {
            &&& pointer.moved_by(dx, dy) == (Pointer::Hyprland {
                socket,
                fallback: t.moved_by(dx, dy),
            })
            &&& pointer.resized(width, height) == (Pointer::Hyprland {
                socket,
                fallback: t.resized(width, height),
            })
            &&& pointer.tracker() == Some(t)
        },
{
}

/// An exact source that answers is believed; Hyprland's silence is made up for by its tracker, the
/// X server's by nothing. Relative motion is where its tracker is, whatever was answered.
pub proof fn exact_answers_are_preferred(pointer: Pointer, x: u32, y: u32)
    ensures
        pointer !is Relative ==> pointer.located(Some((x, y))) == Some(Position::Queried { x, y }),
        pointer is X11 ==> pointer.located(None) is None,
        pointer matches Pointer::Hyprland { fallback: t, .. } ==> pointer.located(None) == Some(
            Position::Estimated { half_x: t.half_x, half_y: t.half_y },
        ),
        pointer matches Pointer::Relative(t) ==> pointer.located(None) == pointer.located(
            Some((x, y)),
        ) && pointer.located(None) == Some(
            Position::Estimated { half_x: t.half_x, half_y: t.half_y },
        ),
{
}

/// The socket of an instance is looked for first in the runtime directory, if one is set, and then
/// below `/tmp/hypr`: in each in a directory with the instance's signature.
pub proof fn sockets_are_below_the_runtime_directory(signature: Seq<char>, directory: Seq<char>)
    requires
        signature.len() > 0,
        signature[0] != '/',
        signature[signature.len() - 1] != '/',
        directory.len() > 0,
        directory[directory.len() - 1] != '/',
    ensures
        socket_paths(signature, None) == seq!["/tmp/hypr/"@ + signature + "/.socket.sock"@],
        socket_paths(signature, Some(directory)) == seq![
            directory + "/hypr/"@ + signature + "/.socket.sock"@,
            "/tmp/hypr/"@ + signature + "/.socket.sock"@,
        ],
{
    reveal_strlit("hypr");
    reveal_strlit("/hypr/");
    reveal_strlit("/tmp/hypr");
    reveal_strlit("/tmp/hypr/");
    reveal_strlit(".socket.sock");
    reveal_strlit("/.socket.sock");
    sockets_stand_in_the_instance_directory("/tmp/hypr"@, signature);
    assert("/tmp/hypr"@ + seq!['/'] == "/tmp/hypr/"@);
    let hypr = crate::text::joined_path(directory, "hypr"@);
    assert(hypr == directory + seq!['/'] + "hypr"@);
    assert(hypr.last() == 'r');
    sockets_stand_in_the_instance_directory(hypr, signature);
    assert(hypr + seq!['/'] == directory + "/hypr/"@);
}

proof fn sockets_stand_in_the_instance_directory(directory: Seq<char>, signature: Seq<char>)
    requires
        signature.len() > 0,
        signature[0] != '/',
        signature[signature.len() - 1] != '/',
        directory.len() > 0,
        directory[directory.len() - 1] != '/',
    ensures
        socket_below(directory, signature) == directory + seq!['/'] + signature
            + "/.socket.sock"@,
{
    reveal_strlit(".socket.sock");
    reveal_strlit("/.socket.sock");
    let instance = directory + seq!['/'] + signature;
    assert(instance.last() == signature[signature.len() - 1]);
    assert(instance + seq!['/'] + ".socket.sock"@ == instance + "/.socket.sock"@);
}

/// Hyprland's answer is two texts with a comma between them, whatever white space is around either
/// of them; an answer without a comma is none.
pub proof fn a_cursor_reply_is_two_texts(
    reply: Seq<char>,
    before_x: Seq<char>,
    x: Seq<char>,
    after_x: Seq<char>,
    before_y: Seq<char>,
    y: Seq<char>,
    after_y: Seq<char>,
)
    requires
        forall|i: int|
            0 <= i < before_x.len() ==> crate::text::is_white_space(#[trigger] before_x[i]),
        forall|i: int|
            0 <= i < after_x.len() ==> crate::text::is_white_space(#[trigger] after_x[i]),
        forall|i: int|
            0 <= i < before_y.len() ==> crate::text::is_white_space(#[trigger] before_y[i]),
        forall|i: int|
            0 <= i < after_y.len() ==> crate::text::is_white_space(#[trigger] after_y[i]),
        x.len() > 0 && !crate::text::is_white_space(x[0]) && !crate::text::is_white_space(
            x[x.len() - 1],
        ),
        y.len() > 0 && !crate::text::is_white_space(y[0]) && !crate::text::is_white_space(
            y[y.len() - 1],
        ),
        !x.contains(','),
    ensures
        cursor_numbers(
            before_x + (x + after_x + seq![','] + before_y + y) + after_y,
        ) == Some((x, y)),
        !reply.contains(',') ==> cursor_numbers(reply) is None,
{
    let left = x + after_x;
    let right = before_y + y;
    let inner = x + after_x + seq![','] + before_y + y;
    assert(inner == left + seq![','] + right);
    crate::text::trimming_ignores_white_space_around(before_x, inner, after_y);
    assert(inner.first() == x[0]);
    assert(inner.last() == y[y.len() - 1]);
    crate::text::a_bare_text_is_not_trimmed(inner);
    assert(!crate::text::is_white_space(','));
    assert(!left.contains(',')) by {
        if left.contains(',') {
            let i = choose|i: int| 0 <= i < left.len() && left[i] == ',';
            if i < x.len() {
                assert(x[i] == ',');
            } else {
                assert(after_x[i - x.len()] == ',');
            }
        }
    }
    crate::text::parting_is_undone_by_joining(left, ',', right);
    let none = Seq::<char>::empty();
    crate::text::trimming_ignores_white_space_around(none, x, after_x);
    assert(none + x + after_x == left);
    crate::text::a_bare_text_is_not_trimmed(x);
    crate::text::trimming_ignores_white_space_around(before_y, y, none);
    assert(before_y + y + none == right);
    crate::text::a_bare_text_is_not_trimmed(y);
    if !reply.contains(',') {
        trimming_adds_nothing(reply, ',');
        crate::text::a_text_without_the_character_is_not_parted(crate::text::trimmed(reply), ',');
    }
}

proof fn trimming_adds_nothing(s: Seq<char>, c: char)
    ensures
        crate::text::trimmed(s).contains(c) ==> s.contains(c),
{
    trimming_the_start_adds_nothing(s, c);
    trimming_the_end_adds_nothing(crate::text::trimmed_start(s), c);
}

proof fn trimming_the_start_adds_nothing(s: Seq<char>, c: char)
    ensures
        crate::text::trimmed_start(s).contains(c) ==> s.contains(c),
    decreases s.len(),
{
    if s.len() > 0 && crate::text::is_white_space(s.first()) {
        let rest = s.drop_first();
        trimming_the_start_adds_nothing(rest, c);
        if rest.contains(c) {
            let i = choose|i: int| 0 <= i < rest.len() && rest[i] == c;
            assert(s[i + 1] == c);
        }
    }
}

proof fn trimming_the_end_adds_nothing(s: Seq<char>, c: char)
    ensures
        crate::text::trimmed_end(s).contains(c) ==> s.contains(c),
    decreases s.len(),
{
    if s.len() > 0 && crate::text::is_white_space(s.last()) {
        let rest = s.drop_last();
        trimming_the_end_adds_nothing(rest, c);
        if rest.contains(c) {
            let i = choose|i: int| 0 <= i < rest.len() && rest[i] == c;
            assert(s[i] == c);
        }
    }
}

/// The socket is preferred to everything, and an X server is asked, and believed, only where there
/// is neither a socket nor a Wayland display. What is left is relative motion.
pub proof fn the_best_source_is_picked(
    socket: Option<String>,
    wayland_display: bool,
    root: Option<u32>,
    pointer: Pointer,
    asked: bool,
)
    requires
        call_ensures(Pointer::detect, (socket, wayland_display, root), pointer),
        call_ensures(Pointer::wants_x11, (&socket, wayland_display), asked),
    ensures
        pointer is Hyprland <==> socket is Some,
        pointer matches Pointer::Hyprland { socket: s, .. } ==> socket == Some(s),
        pointer is X11 <==> asked && root is Some,
        pointer matches Pointer::X11 { root: r } ==> root == Some(r),
        asked <==> socket is None && !wayland_display,
        pointer.tracker() matches Some(t) ==> !t.seeded,
{
}

/// Whatever the signature and the directory, a socket's path is made by joining the directory, the
/// signature and the socket's name, in this order; the runtime directory comes before the old one.
pub proof fn sockets_are_joined_paths(signature: Seq<char>, directory: Seq<char>)
    ensures
        ({
            let old_place = crate::text::joined_path(
                crate::text::joined_path("/tmp/hypr"@, signature),
                ".socket.sock"@,
            );
            let hypr = crate::text::joined_path(directory, "hypr"@);
            let new_place = crate::text::joined_path(
                crate::text::joined_path(hypr, signature),
                ".socket.sock"@,
            );
            &&& socket_paths(signature, None) == seq![old_place]
            &&& socket_paths(signature, Some(directory)) == seq![new_place, old_place]
        }),
{
}

/// Any answer is parted at its first comma, and each part is trimmed.
pub proof fn a_cursor_reply_is_parted_at_its_first_comma(left: Seq<char>, right: Seq<char>)
    requires
        !left.contains(','),
    ensures
        cursor_numbers(left + seq![','] + right) == Some(
            (crate::text::trimmed(left), crate::text::trimmed(right)),
        ),
{
    let start = crate::text::trimmed_start(left);
    let end = crate::text::trimmed_end(right);
    let before = crate::text::the_start_is_white_space(left);
    let after = crate::text::the_end_is_white_space(right);
    let inner = start + seq![','] + end;
    let none = Seq::<char>::empty();
    assert(left + seq![','] + right == before + inner + after);
    crate::text::trimming_ignores_white_space_around(before, inner, after);
    crate::text::trimmed_ends_are_bare(left);
    crate::text::trimmed_ends_are_bare(right);
    assert(!crate::text::is_white_space(','));
    assert(inner.first() == if start.len() > 0 {
        start.first()
    } else {
        ','
    });
    assert(inner.last() == if end.len() > 0 {
        end.last()
    } else {
        ','
    });
    crate::text::a_bare_text_is_not_trimmed(inner);
    trimming_the_start_adds_nothing(left, ',');
    crate::text::parting_is_undone_by_joining(start, ',', end);
    crate::text::trimming_ignores_white_space_around(before, start, none);
    assert(before + start + none == left);
    crate::text::trimming_ignores_white_space_around(none, end, after);
    assert(none + end + after == right);
}

/// The texts of strings are what each of them holds, in order.
pub proof fn every_string_holds_its_text(strings: Seq<String>, i: int)
    ensures
        texts(strings).len() == strings.len(),
        0 <= i < strings.len() ==> texts(strings)[i] == strings[i]@,
{
}

} // verus!
