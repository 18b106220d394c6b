//! Architecture-independent shape of the synthesis stage.

use vstd::prelude::*;

use crate::ir::IR;

pub mod arm;

verus! {

/// A flat machine-code buffer plus the byte offset of the program entry.
pub struct MachineCode {
    pub instructions: Vec<u8>,
    pub entry_point_offset: u64,
}

impl MachineCode {
    pub fn new() -> (r: MachineCode)
        ensures
            r.instructions@.len() == 0,
            r.entry_point_offset == 0,
    {
        MachineCode { instructions: Vec::new(), entry_point_offset: 0 }
    }
}

/// Turning a whole program in linear IR into machine code.
pub trait Assemble {
    /// The programs this assembler accepts; handing it anything else is a
    /// programmer error.
    spec fn input_ok(ir: IR) -> bool;

    fn assemble(ir: IR) -> MachineCode
        requires
            Self::input_ok(ir),
    ;
}

} // verus!
