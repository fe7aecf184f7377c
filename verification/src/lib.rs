//! A verified interpreter for the classic 4KB 8-bit virtual machine with a
//! 64x32 monochrome framebuffer, sixteen 8-bit registers, a 16-entry call
//! stack and two countdown timers.
//!
//! The instruction-set semantics are stated once, as spec functions over a
//! ghost machine state (`isa`), and the executable interpreter (`cpu`) is
//! proved to follow them cycle by cycle.  Rendering the framebuffer to a
//! window and delivering key events are left to an unverified driver.

#![allow(non_snake_case)]

pub mod cpu;
pub mod display;
pub mod isa;
pub mod keypad;
