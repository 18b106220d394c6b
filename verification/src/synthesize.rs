//! The back end: machine-code synthesis for AArch64 and the executable
//! container around it.

pub mod arch;
pub mod exe;
