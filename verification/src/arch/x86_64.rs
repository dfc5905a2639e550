//! The x86-64 platform: interrupt controllers, descriptor tables, the
//! paravirtual clock and the multiprocessor table.

pub mod apic;
pub mod kvmclock;
pub mod mptable;
