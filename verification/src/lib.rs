//! A verified text-mode console core: an 80x25 grid of character cells, a
//! writer that renders bytes onto the bottom row with line wrap and scroll,
//! and the colour-attribute encoding that goes with each cell.
//!
//! The grid is held here as owned data so that every cell update is visible
//! to the verifier. The glue that a freestanding binary needs around this
//! core (the memory-mapped hardware buffer, the lock-guarded global writer)
//! lives outside the verified library.

pub mod color;
pub mod qemu;
pub mod vga_buffer;
