//! The decisions of a CPU loop that runs a guest partly in a hypervisor and
//! partly in an emulator, over plain values.

pub mod coverage;
pub mod cpu_loop;
pub mod exits;
pub mod kicker;
pub mod mem_reader;
pub mod persist;
pub mod regions;
pub mod virtmem;
pub mod vmexit;

pub use crate::mem_reader::MemReader;
