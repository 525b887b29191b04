//! A CHIP-8 virtual machine core with verified instruction semantics.
//!
//! The crate models the architectural state of the machine (memory,
//! registers, stack, timers, framebuffer) and proves that the
//! fetch-decode-execute cycle follows the instruction-set semantics
//! stated in [`semantics`].  Terminal rendering and keyboard collection
//! are left to the host program.

pub mod errors;
pub mod semantics;
pub mod chip8;
pub mod laws;
pub mod rng;

pub use crate::chip8::Chip8;
pub use crate::errors::EmulationError;
