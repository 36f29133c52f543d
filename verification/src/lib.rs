//! Verified core logic of a small modular kernel: logical-CPU bookkeeping,
//! PSCI call construction, device-tree lookups, secondary-CPU bring-up
//! planning, a file-system registry, the `tuple_for_each` expansion plan,
//! system-call handling for a minimal user program, and the integer square
//! root used by the parallel summation demo.
pub mod nosched;
pub mod psci;
pub mod lcpu;
pub mod qemu_lcpu;
pub mod dtb;
pub mod names;
pub mod platform;
pub mod mp;
pub mod vfs;
pub mod fs;
pub mod tuple_for_each;
pub mod syscall;
pub mod loader;
pub mod build_cfg;
