//! Core engine of a ghost-leg (ladder lottery) game.
//!
//! N vertical lanes are joined by horizontal rungs placed at discrete rows in
//! the gaps between adjacent lanes.  The engine generates a rung layout in
//! which no two rungs ever meet at the same vertex, traces the zig-zag path a
//! token takes from any starting lane to the bottom, and paces an animation
//! that reveals such a path a few cells per frame.  Rendering, keyboard input
//! and argument parsing are left to the caller: every function here consumes
//! and produces plain structural data.

pub mod anim;
pub mod interact;
pub mod ladder;
pub mod layout;
pub mod point;
pub mod trace;
