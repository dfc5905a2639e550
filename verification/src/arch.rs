//! What depends on the machine.

pub mod x86_64;
