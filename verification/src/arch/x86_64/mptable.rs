//! The multiprocessor table that the firmware leaves in memory.

use vstd::prelude::*;

verus! {

/// The length of the header of the configuration table.
pub const MP_TABLE_HEADER_LEN: usize = 44;

/// The length of the entry of a processor.
pub const PROCESSOR_ENTRY_SIZE: usize = 20;

/// The length of every other entry.
pub const NON_PROCESSOR_ENTRY_SIZE: usize = 8;

/// The floating pointer structure, which says where the configuration
/// table is. Its signature is "_MP_".
#[derive(Debug, Copy, Clone)]
pub struct MpfStructure {
    pub signature: [u8; 4],
    pub configuration_table: u32,
    pub length: u8,
    pub specification_revision: u8,
    pub checksum: u8,
    pub default_configuration: u8,
    pub features: u32,
}

/// The header of the configuration table. Its signature is "PCMP".
#[derive(Debug, Copy, Clone)]
pub struct MpTable {
    pub signature: [u8; 4],
    pub length: u16,
    pub mp_specification_revision: u8,
    pub checksum: u8,
    pub oem_id: [u8; 8],
    pub product_id: [u8; 12],
    pub oem_table: u32,
    pub oem_table_size: u16,
    pub entry_count: u16,
    pub lapic_address: u32,
    pub extended_table_length: u16,
    pub extended_table_checksum: u8,
    pub reserved: u8,
}

/// The entry of a processor in the configuration table.
#[derive(Debug, Copy, Clone, PartialEq, Eq, Structural)]
pub struct MpProcessor {
    pub entry_type: u8,
    pub local_apic_id: u8,
    pub local_apic_version: u8,
    pub flags: u8,
    pub signature: u32,
    pub feature_flags: u32,
    pub reserved: u64,
}

/// Whether the structure at `at` in `memory` starts with `signature`.
pub open spec fn has_signature(memory: Seq<u8>, at: int, signature: Seq<u8>) -> bool {
    0 <= at && at + 4 <= memory.len() && memory.subrange(at, at + 4) == signature
}

/// The place of the first floating pointer structure in `memory`, which
/// stands at a multiple of sixteen bytes, from the paragraph `from` on and
/// before the paragraph `count`.
pub open spec fn floating_pointer(memory: Seq<u8>, count: int, from: int) -> Option<int>
    decreases count - from,
{
    if from >= count || from < 0 {
        None
    } else if has_signature(memory, 16 * from, seq![0x5fu8, 0x4du8, 0x50u8, 0x5fu8]) {
        Some(16 * from)
    } else {
        floating_pointer(memory, count, from + 1)
    }
}

/// Looks for the floating pointer structure in the first `length` bytes
/// of `memory`, at every multiple of sixteen bytes.
pub fn find_mp_table(memory: &[u8], length: usize) -> (r: Option<usize>)
    ensures
        match r {
            Some(at) => floating_pointer(memory@, length as int / 16, 0) == Some(at as int),
            None => floating_pointer(memory@, length as int / 16, 0) is None,
        },
{
    let total: usize = memory.len();
    let count: usize = length / 16;
    let mut i: usize = 0;
    while i < count
        invariant
            i <= count,
            count == length / 16,
            total == memory@.len(),
            floating_pointer(memory@, count as int, 0) == floating_pointer(memory@, count as int, i as int),
        decreases count - i,
    {
        let at: usize = 16 * i;
        if at + 4 <= total {
            if memory[at] == 0x5f && memory[at + 1] == 0x4d && memory[at + 2] == 0x50 && memory[at + 3] == 0x5f {
                assert(memory@.subrange(at as int, at + 4) =~= seq![0x5fu8, 0x4du8, 0x50u8, 0x5fu8]);
                return Some(at);
            }
            assert(memory@.subrange(at as int, at + 4) != seq![0x5fu8, 0x4du8, 0x50u8, 0x5fu8]) by {
                let sub = memory@.subrange(at as int, at + 4);
                assert(sub[0] == memory@[at as int] && sub[1] == memory@[at + 1] && sub[2] == memory@[at + 2] && sub[3]
                    == memory@[at + 3]);
            }
        }
        i += 1;
    }
    None
}

/// The number of processors among the entries `entries`, from `at` on:
/// an entry of type 0 is a processor and twenty bytes long, and every
/// other entry is eight bytes long.
pub open spec fn processors_from(entries: Seq<u8>, at: int) -> nat
    decreases
            (if at < entries.len() {
                entries.len() - at
            } else {
                0
            }),
{
    if at < 0 || at >= entries.len() {
        0
    } else if entries[at] == 0 {
        1 + processors_from(entries, at + 20)
    } else {
        processors_from(entries, at + 8)
    }
}

/// Counts the processors among the entries of the configuration table.
pub fn get_mp_table(entries: &[u8]) -> (num_of_cpus: usize)
    ensures
        num_of_cpus == processors_from(entries@, 0),
{
    let total: usize = entries.len();
    let mut num_of_cpus: usize = 0;
    let mut at: usize = 0;
    while at < total
        invariant
            total == entries@.len(),
            num_of_cpus <= at,
            processors_from(entries@, 0) == num_of_cpus + processors_from(entries@, at as int),
        decreases
                (if at < total {
                    total - at
                } else {
                    0
                }),
    {
        if entries[at] == 0 {
            num_of_cpus = num_of_cpus + 1;
            if total - at < PROCESSOR_ENTRY_SIZE {
                assert(processors_from(entries@, at + 20) == 0);
                return num_of_cpus;
            }
            at = at + PROCESSOR_ENTRY_SIZE;
        } else {
            if total - at < NON_PROCESSOR_ENTRY_SIZE {
                assert(processors_from(entries@, at + 8) == 0);
                return num_of_cpus;
            }
            at = at + NON_PROCESSOR_ENTRY_SIZE;
        }
    }
    num_of_cpus
}

} // verus!
