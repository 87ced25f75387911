//! An interpreter for a minimal eight-instruction tape language.
//!
//! A program is loaded from raw bytes: bytes outside the eight-symbol
//! alphabet are commentary and are skipped, and the brackets of what remains
//! are paired in a jump table. The interpreter then runs the instructions
//! one by one over a growable tape of byte cells.
pub mod error;
pub mod opcode;
pub mod brackets;
pub mod machine;
pub mod interpreter;
