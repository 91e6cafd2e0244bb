//! Which display server the overlay talks to.

use vstd::prelude::*;
use crate::linux_backend::keyboard::InputSignal;
use crate::linux_backend::pointer::Pointer;

verus! {

#[derive(Debug, Clone, Copy, PartialEq, Eq, Structural)]
pub enum Session {
    Wayland,
    X11,
}

/// The session that the environment suggests, given whether `WAYLAND_DISPLAY` is set.
pub fn detect_session(wayland_display: bool) -> (session: Session)
    ensures
        session == if wayland_display {
            Session::Wayland
        } else {
            Session::X11
        },
{
    if wayland_display {
        Session::Wayland
    } else {
        Session::X11
    }
}

/// The session to run: the one that was asked for, else the one that the environment suggests.
pub fn choose_session(asked: Option<Session>, wayland_display: bool) -> (session: Session)
    ensures
        asked matches Some(s) ==> session == s,
        asked is None ==> session == if wayland_display {
            Session::Wayland
        } else {
            Session::X11
        },
{
    match asked {
        Some(session) => session,
        None => detect_session(wayland_display),
    }
}

/// Whether relative motion has to be collected: on Wayland whenever the pointer has a tracker, on
/// X11 only if it has nothing else.
pub fn needs_motion(session: Session, pointer: &Pointer) -> (b: bool)
    ensures
        session == Session::Wayland ==> b == (pointer.tracker() is Some),
        session == Session::X11 ==> b == (pointer is Relative),
{
    match pointer {
        Pointer::Relative(_) => true,
        Pointer::Hyprland { .. } => session == Session::Wayland,
        Pointer::X11 { .. } => false,
    }
}

/// Whether a signal is handed on: keys always, motion only if it is needed.
pub fn forwards(needs_motion: bool, signal: InputSignal) -> (b: bool)
    ensures
        b == (needs_motion || signal is Key),
{
    match signal {
        InputSignal::Motion { .. } => needs_motion,
        InputSignal::Key(_) => true,
    }
}

/// Motion that is not handed on would have changed nothing on Wayland.
pub proof fn dropped_motion_has_no_effect_on_wayland(pointer: Pointer, dx: i32, dy: i32)
    requires
        pointer.tracker() is None,
    ensures
        pointer.moved_by(dx, dy) == pointer,
{
}

/// Keys are always handed on, and motion just where it is collected; it is collected wherever
/// nothing else tells the position.
pub proof fn keys_are_always_handed_on(
    collect: bool,
    signal: InputSignal,
    handed_on: bool,
    session: Session,
    pointer: Pointer,
    collected: bool,
)
    requires
        call_ensures(forwards, (collect, signal), handed_on),
        call_ensures(needs_motion, (session, &pointer), collected),
    ensures
        signal is Key ==> handed_on,
        signal is Motion ==> handed_on == collect,
        pointer is Relative ==> collected,
        pointer is X11 ==> !collected,
        pointer is Hyprland ==> (collected <==> session is Wayland),
{
}

/// The session that is asked for is run, whatever the environment; without one the environment
/// decides.
pub proof fn the_session_asked_for_is_run(
    asked: Option<Session>,
    wayland_display: bool,
    chosen: Session,
    detected: Session,
)
    requires
        call_ensures(choose_session, (asked, wayland_display), chosen),
        call_ensures(detect_session, (wayland_display,), detected),
    ensures
        asked is Some ==> chosen == asked->0,
        asked is None ==> chosen == detected,
        detected is Wayland <==> wayland_display,
{
}

} // verus!
