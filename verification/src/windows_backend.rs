//! Windows: a keyboard hook feeds a click-through layered window that hugs the live particles.

pub mod hook;
pub mod layer;
pub mod tray;
