//! Linux: evdev input, a layer-shell overlay on Wayland, an override-redirect window on X11.

pub mod keyboard;
pub mod overlay;
pub mod pointer;
pub mod session;
pub mod surface;
pub mod x11;
