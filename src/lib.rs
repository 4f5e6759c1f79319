//! Guest state of a RISC-V emulator: a flat guest address space made of
//! permission-checked regions, the general-purpose register file, and the
//! loader that fills the address space from an ELF image.

pub mod permissions;
pub mod registers;
pub mod memory;
pub mod guest;
