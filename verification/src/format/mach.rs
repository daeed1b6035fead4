//! Constants of the Mach-O container. Mach-O images are recognised by their signature only:
//! no loader reads them yet.
use vstd::prelude::*;

verus! {

/// First four bytes of a 32-bit image, as they lie in the file (the number 0xfeedface).
pub const MACHO_HEADER_MAGIC32: [u8; 4] = [0xce, 0xfa, 0xed, 0xfe];

/// First four bytes of a 64-bit image, as they lie in the file (the number 0xfeedfacf).
pub const MACHO_HEADER_MAGIC64: [u8; 4] = [0xcf, 0xfa, 0xed, 0xfe];

pub const MACHO_MACHINE_X86: u32 = 0x00000007;

pub const MACHO_MACHINE_ARM: u32 = 0x0000000C;

pub const MACHO_FILETYPE_RELOC: u32 = 0x00000001;

pub const MACHO_FILETYPE_EXEC: u32 = 0x00000005;

pub const MACHO_FILETYPE_DYLIB: u32 = 0x00000006;

pub struct Mach {}

} // verus!
