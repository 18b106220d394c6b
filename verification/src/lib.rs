//! A small ahead-of-time compiler back end: a linear three-address IR with
//! per-block liveness analysis, a linear-scan register allocator with
//! spill-to-stack and caller-save handling, a bit-exact AArch64 instruction
//! encoder, and a Mach-O executable image builder.

use vstd::prelude::*;

pub mod analyze;
pub mod ir;
pub mod synthesize;

verus! {

/// The compiler front object: owns nothing, and exists so that callers can
/// name one entry point for the whole pipeline.
pub struct Compiler;

impl Compiler {
    pub fn new() -> Compiler {
        Compiler
    }
}

} // verus!
