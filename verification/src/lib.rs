//! A verified CHIP-8 virtual machine with the Super-CHIP and XO-Chip
//! opcode extensions.
//!
//! The machine state, the fetch/decode/execute loop and both extension
//! handlers are executable code whose behaviour is pinned down by a
//! functional specification (`model::MState` and the step functions); the
//! dispatch order between extensions and the base opcode table is part of
//! that specification.

pub mod conf;
pub mod error;
pub mod model;
pub mod extensions;
pub mod debugger;
pub mod display;
pub mod superchip;
pub mod laws;
pub mod vm;
pub mod xo;
