//! The decisions behind an overlay that lets particles fly from the pointer while one types:
//! colours, input, the surfaces on every output, and when to draw what.

pub mod color;
pub mod keys;
pub mod linux_backend;
pub mod pacing;
pub mod rect;
pub mod text;
pub mod windows_backend;
