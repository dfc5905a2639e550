//! What the boot loader hands over: the boot parameters with the kernel
//! command line and the map of physical memory.

use vstd::prelude::*;

verus! {

/// The offset of the number of entries of the memory map.
pub const OFFSET_E820_ENTRIES: usize = 0x01e8;

/// The offset of the boot flag, which is 0xaa55.
pub const OFFSET_BOOT_FLAG: usize = 0x01fe;

/// The offset of the header magic, which is "HdrS".
pub const OFFSET_HEADER: usize = 0x0202;

/// The offset of the version of the boot protocol.
pub const OFFSET_VERSION: usize = 0x0206;

/// The offset of the address of the command line.
pub const OFFSET_CMD_LINE_PTR: usize = 0x0228;

/// The offset of the greatest length of the command line.
pub const OFFSET_CMD_LINE_SIZE: usize = 0x0238;

/// The offset of the memory map.
pub const OFFSET_E820_TABLE: usize = 0x02d0;

/// The length of one entry of the memory map.
pub const E820_ENTRY_LEN: usize = 20;

/// One range of the map of physical memory.
#[derive(Debug, Copy, Clone, PartialEq, Eq, Structural)]
pub struct E820Entry {
    pub addr: u64,
    pub size: u64,
    pub entry_type: u32,
}

/// The integer whose `n` bytes stand in `b` from `at` on, least
/// significant first.
pub open spec fn le_value(b: Seq<u8>, at: int, n: nat) -> nat
    decreases n,
{
    if n == 0 {
        0
    } else {
        (b[at] + 256 * le_value(b, at + 1, (n - 1) as nat)) as nat
    }
}

pub proof fn lemma_le_bound(b: Seq<u8>, at: int, n: nat)
    requires
        n <= 8,
    ensures
        n == 0 ==> le_value(b, at, n) == 0,
        n == 1 ==> le_value(b, at, n) < 0x100,
        n == 2 ==> le_value(b, at, n) < 0x1_0000,
        n == 3 ==> le_value(b, at, n) < 0x100_0000,
        n == 4 ==> le_value(b, at, n) < 0x1_0000_0000,
        n == 5 ==> le_value(b, at, n) < 0x100_0000_0000,
        n == 6 ==> le_value(b, at, n) < 0x1_0000_0000_0000,
        n == 7 ==> le_value(b, at, n) < 0x100_0000_0000_0000,
        n == 8 ==> le_value(b, at, n) < 0x1_0000_0000_0000_0000,
    decreases n,
{
    if n > 0 {
        lemma_le_bound(b, at + 1, (n - 1) as nat);
    }
}

/// Reads an integer of two bytes, least significant first.
pub fn read_u16(b: &[u8], at: usize) -> (r: u16)
    requires
        at + 2 <= b@.len(),
    ensures
        r == le_value(b@, at as int, 2),
{
    proof {
        reveal_with_fuel(le_value, 3);
    }
    (b[at] as u16) + 256 * (b[at + 1] as u16)
}

/// Reads an integer of four bytes, least significant first.
pub fn read_u32(b: &[u8], at: usize) -> (r: u32)
    requires
        at + 4 <= b@.len(),
    ensures
        r == le_value(b@, at as int, 4),
{
    proof {
        reveal_with_fuel(le_value, 5);
    }
    (b[at] as u32) + 256 * ((b[at + 1] as u32) + 256 * ((b[at + 2] as u32) + 256 * (b[at + 3] as u32)))
}

/// Reads an integer of eight bytes, least significant first.
pub fn read_u64(b: &[u8], at: usize) -> (r: u64)
    requires
        at + 8 <= b@.len(),
    ensures
        r == le_value(b@, at as int, 8),
{
    proof {
        lemma_le_bound(b@, at + 4, 4);
        assert(le_value(b@, at as int, 8) == le_value(b@, at as int, 4) + 0x1_0000_0000 * le_value(b@, at + 4, 4)) by {
            reveal_with_fuel(le_value, 5);
        }
    }
    let total: usize = b.len();
    let low: u64 = read_u32(b, at) as u64;
    let high: u64 = read_u32(b, at + 4) as u64;
    low + 0x1_0000_0000 * high
}

/// The name of a kind of memory range.
pub open spec fn entry_type_name(entry_type: u32) -> Seq<char> {
    if entry_type == 1 {
        "USABLE"@
    } else if entry_type == 2 {
        "RESERVED"@
    } else if entry_type == 3 {
        "ACPI"@
    } else if entry_type == 4 {
        "NVS"@
    } else if entry_type == 5 {
        "UNUSABLE"@
    } else if entry_type == 128 {
        "RESERVER_KERN"@
    } else {
        "unknown"@
    }
}

impl E820Entry {
    pub fn get_addr(&self) -> (r: u64)
        ensures
            r == self.addr,
    {
        self.addr
    }

    pub fn get_size(&self) -> (r: u64)
        ensures
            r == self.size,
    {
        self.size
    }

    pub fn get_entry_type(&self) -> (r: u32)
        ensures
            r == self.entry_type,
    {
        self.entry_type
    }

    pub fn get_entry_type_str(&self) -> (r: &'static str)
        ensures
            r@ == entry_type_name(self.entry_type),
    {
        match self.entry_type {
            1 => "USABLE",
            2 => "RESERVED",
            3 => "ACPI",
            4 => "NVS",
            5 => "UNUSABLE",
            128 => "RESERVER_KERN",
            _ => "unknown",
        }
    }

    /// The entry in the twenty bytes of `b` from `at` on.
    pub open spec fn at(b: Seq<u8>, at: int) -> E820Entry {
        E820Entry {
            addr: le_value(b, at, 8) as u64,
            size: le_value(b, at + 8, 8) as u64,
            entry_type: le_value(b, at + 16, 4) as u32,
        }
    }
}

/// The boot flag of the boot parameters.
pub fn get_boot_flag(boot_params: &[u8]) -> (r: u16)
    requires
        boot_params@.len() >= 0x0200,
    ensures
        r == le_value(boot_params@, 0x01fe, 2),
{
    read_u16(boot_params, OFFSET_BOOT_FLAG)
}

/// The header magic of the boot parameters.
pub fn get_header(boot_params: &[u8]) -> (r: u32)
    requires
        boot_params@.len() >= 0x0206,
    ensures
        r == le_value(boot_params@, 0x0202, 4),
{
    read_u32(boot_params, OFFSET_HEADER)
}

/// The version of the boot protocol.
pub fn get_version(boot_params: &[u8]) -> (r: u16)
    requires
        boot_params@.len() >= 0x0208,
    ensures
        r == le_value(boot_params@, 0x0206, 2),
{
    read_u16(boot_params, OFFSET_VERSION)
}

/// The length of a command line: the place of the first zero byte among
/// the first `size` bytes of `memory`.
pub open spec fn cmdline_end(memory: Seq<u8>, size: int, from: int) -> Option<int>
    decreases size - from,
{
    if from >= size || from >= memory.len() || from < 0 {
        None
    } else if memory[from] == 0 {
        Some(from)
    } else {
        cmdline_end(memory, size, from + 1)
    }
}

/// The kernel command line in `memory`, which starts at the address that
/// the boot parameters give: the bytes before the first zero byte. There
/// is none if no byte among the first `size` is zero.
pub fn get_cmdline(memory: &[u8], size: usize) -> (r: Option<&[u8]>)
    ensures
        match r {
            Some(line) => cmdline_end(memory@, size as int, 0) matches Some(n) && line@ == memory@.subrange(0, n),
            None => cmdline_end(memory@, size as int, 0) is None,
        },
{
    let total: usize = memory.len();
    let mut i: usize = 0;
    while i < size && i < total
        invariant
            total == memory@.len(),
            cmdline_end(memory@, size as int, 0) == cmdline_end(memory@, size as int, i as int),
        decreases total - i,
    {
        if memory[i] == 0 {
            return Some(vstd::slice::slice_subrange(memory, 0, i));
        }
        i += 1;
    }
    None
}

/// The map of physical memory: as many entries as the boot parameters
/// state, as far as they lie inside the parameters.
pub fn get_e820(boot_params: &[u8]) -> (r: Vec<E820Entry>)
    requires
        boot_params@.len() >= 0x02d0,
    ensures
        r@.len() <= boot_params@[0x01e8],
        r@.len() == boot_params@[0x01e8] || 0x02d0 + 20 * (r@.len() + 1) > boot_params@.len(),
        forall|k: int| 0 <= k < r@.len() ==> #[trigger] r@[k] == E820Entry::at(boot_params@, 0x02d0 + 20 * k),
{
    let total: usize = boot_params.len();
    let count: usize = boot_params[OFFSET_E820_ENTRIES] as usize;
    let mut entries: Vec<E820Entry> = Vec::new();
    let mut k: usize = 0;
    while k < count && OFFSET_E820_TABLE + E820_ENTRY_LEN * (k + 1) <= total
        invariant
            k <= count,
            count == boot_params@[0x01e8],
            total == boot_params@.len(),
            entries@.len() == k,
            forall|j: int| 0 <= j < k ==> #[trigger] entries@[j] == E820Entry::at(boot_params@, 0x02d0 + 20 * j),
        decreases count - k,
    {
        let at: usize = OFFSET_E820_TABLE + E820_ENTRY_LEN * k;
        proof {
            lemma_le_bound(boot_params@, at as int, 8);
            lemma_le_bound(boot_params@, at + 8, 8);
            lemma_le_bound(boot_params@, at + 16, 4);
        }
        entries.push(
            E820Entry {
                addr: read_u64(boot_params, at),
                size: read_u64(boot_params, at + 8),
                entry_type: read_u32(boot_params, at + 16),
            },
        );
        k += 1;
    }
    entries
}

} // verus!
