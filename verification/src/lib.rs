//! Drawing on a 1024x768 BGRA linear framebuffer, the register program that
//! switches a Bochs VBE adapter into that mode, and the bounded queue of print
//! jobs that a kernel task drains.

pub mod framebuffer;
pub mod kernel;
pub mod task;
