//! Verified core pieces of the Tifflin kernel: the owned and fixed-capacity
//! string types, the VFS handle rules, the ISO9660 on-disk format walkers,
//! the native video shim's framebuffer and keyboard logic, and the amd64
//! architecture hooks.
use vstd::prelude::*;

pub mod arch;
pub mod iso9660;
pub mod string;
pub mod vfs;
pub mod video;

verus! {
} // verus!
