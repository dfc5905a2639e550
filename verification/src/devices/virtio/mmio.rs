//! The memory-mapped virtio transport: where the kernel command line says
//! a device is, what identifies such a device, and what is written to and
//! read from its registers.

use vstd::prelude::*;
use vstd::string::*;
use crate::devices::virtio::{DeviceCommand, VirtioDevice, Virtqueue, used_ring_offset, wrap64};

verus! {

/// The value of the magic register of a virtio device: "virt".
pub const MMIO_MAGIC: u32 = 0x7472_6976;

/// The version of the transport that is driven.
pub const MMIO_VERSION: u32 = 2;

/// The offset of the magic register.
pub const REG_MAGIC: u64 = 0x000;

/// The offset of the version register.
pub const REG_VERSION: u64 = 0x004;

/// The offset of the register with the kind of device.
pub const REG_DEVICE_ID: u64 = 0x008;

/// The offset of the register with one half of the device's features.
pub const REG_DEVICE_FEATURES: u64 = 0x010;

/// The offset of the register that selects the half of the device's features.
pub const REG_DEVICE_FEATURES_SEL: u64 = 0x014;

/// The offset of the register for one half of the accepted features.
pub const REG_DRIVER_FEATURES: u64 = 0x020;

/// The offset of the register that selects the half of the accepted features.
pub const REG_DRIVER_FEATURES_SEL: u64 = 0x024;

/// The offset of the register that selects a queue.
pub const REG_QUEUE_SEL: u64 = 0x030;

/// The offset of the register with the size that the device offers for the queue.
pub const REG_QUEUE_NUM_MAX: u64 = 0x034;

/// The offset of the register for the size of the queue.
pub const REG_QUEUE_NUM: u64 = 0x038;

/// The offset of the register that makes the queue ready.
pub const REG_QUEUE_READY: u64 = 0x044;

/// The offset of the register that tells the device of new buffers.
pub const REG_QUEUE_NOTIFY: u64 = 0x050;

/// The offset of the register with the pending interrupt causes.
pub const REG_INTERRUPT_STATUS: u64 = 0x060;

/// The offset of the register that acknowledges interrupt causes.
pub const REG_INTERRUPT_ACK: u64 = 0x064;

/// The offset of the status register.
pub const REG_STATUS: u64 = 0x070;

/// The offset of the low half of the address of the descriptor table.
pub const REG_QUEUE_DESC_LOW: u64 = 0x080;

/// The offset of the high half of the address of the descriptor table.
pub const REG_QUEUE_DESC_HIGH: u64 = 0x084;

/// The offset of the low half of the address of the available ring.
pub const REG_QUEUE_DRIVER_LOW: u64 = 0x090;

/// The offset of the high half of the address of the available ring.
pub const REG_QUEUE_DRIVER_HIGH: u64 = 0x094;

/// The offset of the low half of the address of the used ring.
pub const REG_QUEUE_DEVICE_LOW: u64 = 0x0a0;

/// The offset of the high half of the address of the used ring.
pub const REG_QUEUE_DEVICE_HIGH: u64 = 0x0a4;

/// The offset of the configuration space.
pub const REG_CONFIG: u64 = 0x100;

/// Why there is no device.
#[derive(Debug, Copy, Clone, PartialEq, Eq, Structural)]
pub enum Error {
    /// The command line names no such device.
    NotFound,
    /// A number of the device's entry does not fit its type.
    OutOfRange,
    /// What is at the address is no virtio device of the driven version.
    InvalidDevice,
}

/// The key that starts the entry of a device.
pub open spec fn device_key() -> Seq<u8> {
    seq![
        0x76u8, 0x69u8, 0x72u8, 0x74u8, 0x69u8, 0x6fu8, 0x5fu8, 0x6du8, 0x6du8, 0x69u8, 0x6fu8, 0x2eu8, 0x64u8, 0x65u8,
        0x76u8, 0x69u8, 0x63u8, 0x65u8, 0x3du8,
    ]
}

/// What starts the address of an entry: "@0x".
pub open spec fn address_mark() -> Seq<u8> {
    seq![0x40u8, 0x30u8, 0x78u8]
}

/// Whether `pattern` stands in `s` at `at`.
pub open spec fn matches_at(s: Seq<u8>, pattern: Seq<u8>, at: int) -> bool {
    0 <= at && at + pattern.len() <= s.len() && s.subrange(at, at + pattern.len()) == pattern
}

/// The first place at or after `from` where `pattern` stands in `s`.
pub open spec fn first_match(s: Seq<u8>, pattern: Seq<u8>, from: int) -> Option<int>
    decreases
            (if from <= s.len() {
                s.len() - from
            } else {
                0
            }),
{
    if from < 0 || pattern.len() == 0 || from + pattern.len() > s.len() {
        None
    } else if matches_at(s, pattern, from) {
        Some(from)
    } else {
        first_match(s, pattern, from + 1)
    }
}

/// The place behind the key of the entry number `n`, counted from 0, among
/// the entries whose key starts at or after `from`.
pub open spec fn entry_start(s: Seq<u8>, n: nat, from: int) -> Option<int>
    decreases n,
{
    match first_match(s, device_key(), from) {
        None => None,
        Some(j) => if n == 0 {
            Some(j + 19)
        } else {
            entry_start(s, (n - 1) as nat, j + 19)
        },
    }
}

/// The value of a size after one more character: a digit adds a decimal
/// place, `k` and `m` in either case multiply, and anything else is passed
/// over.
pub open spec fn size_digit(v: nat, c: u8) -> nat {
    if 0x30 <= c <= 0x39 {
        (v * 10 + (c - 0x30)) as nat
    } else if c == 0x6b || c == 0x4b {
        v * 1024
    } else if c == 0x6d || c == 0x4d {
        v * 1024 * 1024
    } else {
        v
    }
}

/// The value of a size.
pub open spec fn size_value(t: Seq<u8>) -> nat
    decreases t.len(),
{
    if t.len() == 0 {
        0
    } else {
        size_digit(size_value(t.drop_last()), t.last())
    }
}

/// The value of a hexadecimal digit, in either case.
pub open spec fn hex_digit(c: u8) -> Option<nat> {
    if 0x30 <= c <= 0x39 {
        Some((c - 0x30) as nat)
    } else if 0x61 <= c <= 0x66 {
        Some((c - 0x61 + 10) as nat)
    } else if 0x41 <= c <= 0x46 {
        Some((c - 0x41 + 10) as nat)
    } else {
        None
    }
}

/// The value of a hexadecimal number; what is no digit is passed over.
pub open spec fn hex_value(t: Seq<u8>) -> nat
    decreases t.len(),
{
    if t.len() == 0 {
        0
    } else {
        match hex_digit(t.last()) {
            Some(d) => hex_value(t.drop_last()) * 16 + d,
            None => hex_value(t.drop_last()),
        }
    }
}

/// The value of a decimal number; what is no digit is passed over.
pub open spec fn decimal_value(t: Seq<u8>) -> nat
    decreases t.len(),
{
    if t.len() == 0 {
        0
    } else if 0x30 <= t.last() <= 0x39 {
        (decimal_value(t.drop_last()) * 10 + (t.last() - 0x30)) as nat
    } else {
        decimal_value(t.drop_last())
    }
}

/// Where the parts of an entry stand in the command line: the size from
/// `size` to the address mark, the address from `addr` to the colon, the
/// interrupt line from `irq` to `tail`.
pub struct EntryLayout {
    pub size: int,
    pub addr: int,
    pub irq: int,
    pub tail: int,
}

/// The layout of the entry number `idx` of the command line `s`: behind
/// the key, the first address mark; behind that, the first colon; behind
/// that, the first blank or the end of the line.
pub open spec fn entry_layout(s: Seq<u8>, idx: nat) -> Option<EntryLayout> {
    match entry_start(s, idx, 0) {
        None => None,
        Some(size) => match first_match(s, address_mark(), size) {
            None => None,
            Some(mark) => match first_match(s, seq![0x3au8], mark + 3) {
                None => None,
                Some(colon) => Some(
                    EntryLayout {
                        size,
                        addr: mark + 3,
                        irq: colon + 1,
                        tail: match first_match(s, seq![0x20u8], colon + 1) {
                            Some(blank) => blank,
                            None => s.len() as int,
                        },
                    },
                ),
            },
        },
    }
}

/// The size, the address and the interrupt line of an entry.
pub open spec fn entry_values(s: Seq<u8>, l: EntryLayout) -> (nat, nat, nat) {
    (
        size_value(s.subrange(l.size, l.addr - 3)),
        hex_value(s.subrange(l.addr, l.irq - 1)),
        decimal_value(s.subrange(l.irq, l.tail)),
    )
}

/// The device that the entry number `idx` of the command line `s`
/// describes.
pub open spec fn entry_of(s: Seq<u8>, idx: nat) -> Result<MmioWindow, Error> {
    match entry_layout(s, idx) {
        None => Err(Error::NotFound),
        Some(l) => {
            let v = entry_values(s, l);
            if v.0 <= usize::MAX && v.1 <= u64::MAX && v.2 <= u8::MAX {
                Ok(MmioWindow { addr: v.1 as u64, size: v.0 as usize, irq: v.2 as u8 })
            } else {
                Err(Error::OutOfRange)
            }
        },
    }
}

/// A register write: the offset of the register from the start of the
/// window, and the value.
#[derive(Debug, Copy, Clone, PartialEq, Eq, Structural)]
pub struct RegisterWrite {
    pub offset: u64,
    pub value: u32,
}

/// The writes that hand a queue of `size` slots to the device.
pub open spec fn queue_writes(size: u16, desc: u64, avail: u64, used: u64) -> Seq<RegisterWrite> {
    seq![
        RegisterWrite { offset: REG_QUEUE_NUM, value: size as u32 },
        RegisterWrite { offset: REG_QUEUE_DESC_LOW, value: (desc & 0xffff_ffff) as u32 },
        RegisterWrite { offset: REG_QUEUE_DESC_HIGH, value: (desc >> 32) as u32 },
        RegisterWrite { offset: REG_QUEUE_DRIVER_LOW, value: (avail & 0xffff_ffff) as u32 },
        RegisterWrite { offset: REG_QUEUE_DRIVER_HIGH, value: (avail >> 32) as u32 },
        RegisterWrite { offset: REG_QUEUE_DEVICE_LOW, value: (used & 0xffff_ffff) as u32 },
        RegisterWrite { offset: REG_QUEUE_DEVICE_HIGH, value: (used >> 32) as u32 },
    ]
}

/// Where a device is: the address and the size of its window of
/// registers, and its interrupt line.
#[derive(Debug, Copy, Clone, PartialEq, Eq, Structural)]
pub struct MmioWindow {
    pub addr: u64,
    pub size: usize,
    pub irq: u8,
}

/// Memory whose every read and write reaches the hardware. What a read
/// gives is the hardware's matter.
pub trait VolatileMemory {
    fn read_u32(&self, addr: u64) -> (r: u32)
    ;

    fn write_u32(&mut self, addr: u64, value: u32)
    ;

    fn read_u8(&self, addr: u64) -> (r: u8)
    ;
}

/// One virtio device behind a window of memory-mapped registers.
pub struct VirtioMMIO<M: VolatileMemory> {
    addr: u64,
    size: usize,
    irq: u8,
    indirect_buf_cap: bool,
    event_idx_cap: bool,
    memory: M,
    commands: Ghost<Seq<DeviceCommand>>,
    issued: Ghost<Seq<RegisterWrite>>,
}

/// Whether `pattern` stands in `s` at `at`.
fn stands_at(s: &[u8], pattern: &[u8], at: usize) -> (r: bool)
    requires
        at + pattern@.len() <= s@.len(),
    ensures
        r == matches_at(s@, pattern@, at as int),
{
    let n: usize = pattern.len();
    let total: usize = s.len();
    let mut i: usize = 0;
    while i < n
        invariant
            i <= n,
            n == pattern@.len(),
            total == s@.len(),
            at + n <= total,
            forall|j: int| 0 <= j < i ==> s@[at + j] == pattern@[j],
        decreases n - i,
    {
        if s[at + i] != pattern[i] {
            assert(s@.subrange(at as int, at + n)[i as int] != pattern@[i as int]);
            return false;
        }
        i += 1;
    }
    assert(s@.subrange(at as int, at + n) =~= pattern@);
    true
}

/// The first place at or after `from` where `pattern` stands in `s`.
pub fn find(s: &[u8], pattern: &[u8], from: usize) -> (r: Option<usize>)
    requires
        pattern@.len() > 0,
    ensures
        match r {
            Some(at) => first_match(s@, pattern@, from as int) == Some(at as int) && from <= at && at + pattern@.len()
                <= s@.len(),
            None => first_match(s@, pattern@, from as int) is None,
        },
{
    let n: usize = s.len();
    let m: usize = pattern.len();
    if m > n || from > n - m {
        return None;
    }
    let mut at: usize = from;
    while at <= n - m
        invariant
            from <= at,
            n == s@.len(),
            m == pattern@.len(),
            0 < m <= n,
            at <= n - m + 1,
            first_match(s@, pattern@, from as int) == first_match(s@, pattern@, at as int),
        decreases n - at,
    {
        if stands_at(s, pattern, at) {
            return Some(at);
        }
        at += 1;
    }
    None
}

/// The bytes of the key that starts the entry of a device.
fn device_key_bytes() -> (r: [u8; 19])
    ensures
        r@ == device_key(),
{
    let r: [u8; 19] = [
        0x76, 0x69, 0x72, 0x74, 0x69, 0x6f, 0x5f, 0x6d, 0x6d, 0x69, 0x6f, 0x2e, 0x64, 0x65, 0x76, 0x69, 0x63, 0x65, 0x3d,
    ];
    assert(r@ =~= device_key());
    r
}

/// Reads the entry number `idx` from the bytes of the command line.
pub fn parse(cmdline: &[u8], idx: usize) -> (r: Result<MmioWindow, Error>)
    ensures
        r == entry_of(cmdline@, idx as nat),
{
    let key = device_key_bytes();
    let total: usize = cmdline.len();
    let mut keyidx: usize = 0;
    let mut i: usize = 0;
    assert(device_key().len() == 19);
    loop
        invariant_except_break
            i <= idx,
            entry_start(cmdline@, idx as nat, 0) == entry_start(cmdline@, (idx - i) as nat, keyidx as int),
        invariant
            key@ == device_key(),
            key@.len() == 19,
            total == cmdline@.len(),
            keyidx <= cmdline@.len(),
        ensures
            entry_start(cmdline@, idx as nat, 0) == Some(keyidx as int),
        decreases idx - i,
    {
        match find(cmdline, key.as_slice(), keyidx) {
            Some(j) => {
                keyidx = j + 19;
            },
            None => {
                return Err(Error::NotFound);
            },
        }
        if i == idx {
            break ;
        }
        i += 1;
    }
    let size_idx: usize = keyidx;
    let mark: [u8; 3] = [0x40, 0x30, 0x78];
    assert(mark@ =~= address_mark());
    let addr_idx: usize = match find(cmdline, mark.as_slice(), size_idx) {
        Some(at) => at + 3,
        None => {
            return Err(Error::NotFound);
        },
    };
    let colon: [u8; 1] = [0x3a];
    assert(colon@ =~= seq![0x3au8]);
    let irq_idx: usize = match find(cmdline, colon.as_slice(), addr_idx) {
        Some(at) => at + 1,
        None => {
            return Err(Error::NotFound);
        },
    };
    let blank: [u8; 1] = [0x20];
    assert(blank@ =~= seq![0x20u8]);
    let tail_idx: usize = match find(cmdline, blank.as_slice(), irq_idx) {
        Some(at) => at,
        None => total,
    };
    let ghost l = EntryLayout { size: size_idx as int, addr: addr_idx as int, irq: irq_idx as int, tail: tail_idx as int };
    assert(entry_layout(cmdline@, idx as nat) == Some(l));
    let size_val = read_size(cmdline, size_idx, addr_idx - 3);
    let addr_val = read_hex(cmdline, addr_idx, irq_idx - 1);
    let irq_val = read_decimal(cmdline, irq_idx, tail_idx);
    match (size_val, addr_val, irq_val) {
        (Some(size), Some(addr), Some(irq)) => Ok(MmioWindow { addr, size, irq }),
        _ => Err(Error::OutOfRange),
    }
}

/// The size in `s[from..to]`, if it fits.
pub fn read_size(s: &[u8], from: usize, to: usize) -> (r: Option<usize>)
    requires
        from <= to <= s@.len(),
    ensures
        r == (if size_value(s@.subrange(from as int, to as int)) <= usize::MAX {
            Some(size_value(s@.subrange(from as int, to as int)) as usize)
        } else {
            None
        }),
{
    let mut v: usize = 0;
    let mut i: usize = from;
    assert(s@.subrange(from as int, from as int) =~= Seq::<u8>::empty());
    while i < to
        invariant
            from <= i <= to <= s@.len(),
            v == size_value(s@.subrange(from as int, i as int)),
        decreases to - i,
    {
        let c: u8 = s[i];
        let ghost t = s@.subrange(from as int, i + 1);
        proof {
            assert(t.drop_last() =~= s@.subrange(from as int, i as int));
            assert(t.last() == c);
            lemma_size_grows(s@.subrange(from as int, to as int), (i + 1 - from) as int);
            assert(s@.subrange(from as int, to as int).subrange(0, i + 1 - from) =~= t);
        }
        let next: Option<usize> = if 0x30 <= c && c <= 0x39 {
            match v.checked_mul(10) {
                Some(w) => w.checked_add((c - 0x30) as usize),
                None => None,
            }
        } else if c == 0x6b || c == 0x4b {
            v.checked_mul(1024)
        } else if c == 0x6d || c == 0x4d {
            match v.checked_mul(1024) {
                Some(w) => w.checked_mul(1024),
                None => None,
            }
        } else {
            Some(v)
        };
        match next {
            Some(w) => {
                v = w;
            },
            None => {
                assert(size_value(t) > usize::MAX) by (nonlinear_arith)
                    requires
                        size_value(t) == size_digit(v as nat, c),
                        (0x30 <= c <= 0x39 && v * 10 + (c - 0x30) > usize::MAX) || ((c == 0x6b || c == 0x4b) && v
                            * 1024 > usize::MAX) || ((c == 0x6d || c == 0x4d) && v * 1024 * 1024 > usize::MAX),
                ;
                return None;
            },
        }
        i += 1;
    }
    Some(v)
}

/// A size only grows with every further character.
pub proof fn lemma_size_grows(t: Seq<u8>, n: int)
    requires
        0 <= n <= t.len(),
    ensures
        size_value(t.subrange(0, n)) <= size_value(t),
    decreases t.len() - n,
{
    if n < t.len() {
        lemma_size_grows(t, n + 1);
        assert(t.subrange(0, n + 1).drop_last() =~= t.subrange(0, n));
        let v = size_value(t.subrange(0, n));
        assert(v <= size_digit(v, t[n])) by (nonlinear_arith);
    } else {
        assert(t.subrange(0, n) =~= t);
    }
}

/// A hexadecimal number only grows with every further character.
pub proof fn lemma_hex_grows(t: Seq<u8>, n: int)
    requires
        0 <= n <= t.len(),
    ensures
        hex_value(t.subrange(0, n)) <= hex_value(t),
    decreases t.len() - n,
{
    if n < t.len() {
        lemma_hex_grows(t, n + 1);
        assert(t.subrange(0, n + 1).drop_last() =~= t.subrange(0, n));
    } else {
        assert(t.subrange(0, n) =~= t);
    }
}

/// A decimal number only grows with every further character.
pub proof fn lemma_decimal_grows(t: Seq<u8>, n: int)
    requires
        0 <= n <= t.len(),
    ensures
        decimal_value(t.subrange(0, n)) <= decimal_value(t),
    decreases t.len() - n,
{
    if n < t.len() {
        lemma_decimal_grows(t, n + 1);
        assert(t.subrange(0, n + 1).drop_last() =~= t.subrange(0, n));
    } else {
        assert(t.subrange(0, n) =~= t);
    }
}

/// The hexadecimal number in `s[from..to]`, if it fits.
pub fn read_hex(s: &[u8], from: usize, to: usize) -> (r: Option<u64>)
    requires
        from <= to <= s@.len(),
    ensures
        r == (if hex_value(s@.subrange(from as int, to as int)) <= u64::MAX {
            Some(hex_value(s@.subrange(from as int, to as int)) as u64)
        } else {
            None
        }),
{
    let mut v: u64 = 0;
    let mut i: usize = from;
    assert(s@.subrange(from as int, from as int) =~= Seq::<u8>::empty());
    while i < to
        invariant
            from <= i <= to <= s@.len(),
            v == hex_value(s@.subrange(from as int, i as int)),
        decreases to - i,
    {
        let c: u8 = s[i];
        let ghost t = s@.subrange(from as int, i + 1);
        proof {
            assert(t.drop_last() =~= s@.subrange(from as int, i as int));
            assert(t.last() == c);
            lemma_hex_grows(s@.subrange(from as int, to as int), (i + 1 - from) as int);
            assert(s@.subrange(from as int, to as int).subrange(0, i + 1 - from) =~= t);
        }
        let digit: Option<u64> = if 0x30 <= c && c <= 0x39 {
            Some((c - 0x30) as u64)
        } else if 0x61 <= c && c <= 0x66 {
            Some((c - 0x61 + 10) as u64)
        } else if 0x41 <= c && c <= 0x46 {
            Some((c - 0x41 + 10) as u64)
        } else {
            None
        };
        match digit {
            Some(d) => {
                let next = match v.checked_mul(16) {
                    Some(w) => w.checked_add(d),
                    None => None,
                };
                match next {
                    Some(w) => {
                        v = w;
                    },
                    None => {
                        return None;
                    },
                }
            },
            None => {},
        }
        i += 1;
    }
    Some(v)
}

/// The decimal number in `s[from..to]`, if it fits in eight bits.
pub fn read_decimal(s: &[u8], from: usize, to: usize) -> (r: Option<u8>)
    requires
        from <= to <= s@.len(),
    ensures
        r == (if decimal_value(s@.subrange(from as int, to as int)) <= u8::MAX {
            Some(decimal_value(s@.subrange(from as int, to as int)) as u8)
        } else {
            None
        }),
{
    let mut v: u8 = 0;
    let mut i: usize = from;
    assert(s@.subrange(from as int, from as int) =~= Seq::<u8>::empty());
    while i < to
        invariant
            from <= i <= to <= s@.len(),
            v == decimal_value(s@.subrange(from as int, i as int)),
        decreases to - i,
    {
        let c: u8 = s[i];
        let ghost t = s@.subrange(from as int, i + 1);
        proof {
            assert(t.drop_last() =~= s@.subrange(from as int, i as int));
            assert(t.last() == c);
            lemma_decimal_grows(s@.subrange(from as int, to as int), (i + 1 - from) as int);
            assert(s@.subrange(from as int, to as int).subrange(0, i + 1 - from) =~= t);
        }
        if 0x30 <= c && c <= 0x39 {
            let next = match v.checked_mul(10) {
                Some(w) => w.checked_add(c - 0x30),
                None => None,
            };
            match next {
                Some(w) => {
                    v = w;
                },
                None => {
                    return None;
                },
            }
        }
        i += 1;
    }
    Some(v)
}

/// Says whether what the magic and version registers hold is a device
/// of the driven version.
pub fn check_identity(magic: u32, version: u32) -> (r: Result<(), Error>)
    ensures
        r == (if magic == MMIO_MAGIC && version == MMIO_VERSION {
            Ok::<(), Error>(())
        } else {
            Err::<(), Error>(Error::InvalidDevice)
        }),
{
    if magic != MMIO_MAGIC {
        return Err(Error::InvalidDevice);
    }
    if version != MMIO_VERSION {
        return Err(Error::InvalidDevice);
    }
    Ok(())
}

/// The features that the device offers, from the two halves read
/// with the selector at 1 and at 0.
pub fn available_features(high: u32, low: u32) -> (r: u64)
    ensures
        r == ((high as u64) << 32) | (low as u64),
{
    ((high as u64) << 32) | (low as u64)
}

/// The writes that tell the device the accepted features: the high
/// half with the selector at 1, then the low half with the selector
/// at 0.
pub fn enabled_features_writes(features: u64) -> (r: [RegisterWrite; 4])
    ensures
        r@ == seq![
            RegisterWrite { offset: REG_DRIVER_FEATURES_SEL, value: 1 },
            RegisterWrite { offset: REG_DRIVER_FEATURES, value: (features >> 32) as u32 },
            RegisterWrite { offset: REG_DRIVER_FEATURES_SEL, value: 0 },
            RegisterWrite { offset: REG_DRIVER_FEATURES, value: (features & 0xffff_ffff) as u32 },
        ],
{
    let r = [
        RegisterWrite { offset: REG_DRIVER_FEATURES_SEL, value: 1 },
        RegisterWrite { offset: REG_DRIVER_FEATURES, value: (features >> 32) as u32 },
        RegisterWrite { offset: REG_DRIVER_FEATURES_SEL, value: 0 },
        RegisterWrite { offset: REG_DRIVER_FEATURES, value: (features & 0xffff_ffff) as u32 },
    ];
    assert(r@ =~= seq![
        RegisterWrite { offset: REG_DRIVER_FEATURES_SEL, value: 1 },
        RegisterWrite { offset: REG_DRIVER_FEATURES, value: (features >> 32) as u32 },
        RegisterWrite { offset: REG_DRIVER_FEATURES_SEL, value: 0 },
        RegisterWrite { offset: REG_DRIVER_FEATURES, value: (features & 0xffff_ffff) as u32 },
    ]);
    r
}

/// The writes that hand a queue to the device: its size, and the
/// addresses of its descriptor table, available ring and used ring,
/// each as a low and a high half.
pub fn setup_queue_writes(queue: &Virtqueue) -> (r: [RegisterWrite; 7])
    requires
        queue.wf(),
    ensures
        r@ == queue_writes(
            queue@.size,
            queue@.base_addr,
            wrap64(queue@.base_addr + 16 * queue@.size),
            wrap64(queue@.base_addr + used_ring_offset(queue@.size)),
        ),
{
    let desc: u64 = queue.get_descriptor_addr();
    let avail: u64 = queue.get_avail_addr();
    let used: u64 = queue.get_used_addr();
    let r = [
        RegisterWrite { offset: REG_QUEUE_NUM, value: queue.get_size() as u32 },
        RegisterWrite { offset: REG_QUEUE_DESC_LOW, value: (desc & 0xffff_ffff) as u32 },
        RegisterWrite { offset: REG_QUEUE_DESC_HIGH, value: (desc >> 32) as u32 },
        RegisterWrite { offset: REG_QUEUE_DRIVER_LOW, value: (avail & 0xffff_ffff) as u32 },
        RegisterWrite { offset: REG_QUEUE_DRIVER_HIGH, value: (avail >> 32) as u32 },
        RegisterWrite { offset: REG_QUEUE_DEVICE_LOW, value: (used & 0xffff_ffff) as u32 },
        RegisterWrite { offset: REG_QUEUE_DEVICE_HIGH, value: (used >> 32) as u32 },
    ];
    assert(r@ =~= queue_writes(queue@.size, desc, avail, used));
    r
}

/// The size that the device offers for a queue, from the register that
/// holds it: its low sixteen bits.
pub fn queue_size_of(register: u32) -> (r: u16)
    ensures
        r == (register & 0xffff) as u16,
        r == register % 0x1_0000,
{
    assert(register & 0xffff <= 0xffff && register & 0xffff == register % 0x1_0000) by (bit_vector);
    (register & 0xffff) as u16
}

/// The status of the device, from the register that holds it: its low
/// eight bits.
pub fn status_of(register: u32) -> (r: u8)
    ensures
        r == (register & 0xff) as u8,
        r == register % 0x100,
{
    assert(register & 0xff <= 0xff && register & 0xff == register % 0x100) by (bit_vector);
    (register & 0xff) as u8
}

/// What an interrupt status says: 1 if the device has used a buffer,
/// 0 if not. The status is to be written back as the acknowledgement.
pub fn used_ring_interrupt(intr_status: u32) -> (r: u8)
    ensures
        r == (intr_status & 0x01) as u8,
        r <= 1,
{
    assert(intr_status & 0x01 <= 1) by (bit_vector);
    (intr_status & 0x01) as u8
}

impl<M: VolatileMemory> VirtioMMIO<M> {
    /// Where the device is.
    pub closed spec fn window(&self) -> MmioWindow {
        MmioWindow { addr: self.addr, size: self.size, irq: self.irq }
    }

    /// The memory that holds the registers.
    pub closed spec fn memory(&self) -> M {
        self.memory
    }

    /// The commands given to the device so far.
    pub closed spec fn device_commands(&self) -> Seq<DeviceCommand> {
        self.commands@
    }

    /// The register writes made so far, by the offset of the register from
    /// the start of the window.
    pub closed spec fn issued(&self) -> Seq<RegisterWrite> {
        self.issued@
    }

    /// Whether indirect descriptors may be used.
    pub closed spec fn indirect(&self) -> bool {
        self.indirect_buf_cap
    }

    /// Whether the event index may be used.
    pub closed spec fn event_idx(&self) -> bool {
        self.event_idx_cap
    }

    /// Finds the entry number `idx`, counted from 0, of the form
    /// `virtio_mmio.device=<size>[kKmM]@0x<address>:<irq>` in the kernel
    /// command line, and looks at the address for a virtio device of the
    /// driven version.
    pub fn new(cmdline: &str, idx: usize, memory: M) -> (r: Result<VirtioMMIO<M>, Error>)
        ensures
            match entry_of(cmdline.spec_bytes(), idx as nat) {
                Err(e) => r is Err && r->Err_0 == e,
                Ok(window) => match r {
                    Ok(dev) => {
                        &&& dev.window() == window
                        &&& dev.memory() == memory
                        &&& dev.device_commands() == Seq::<DeviceCommand>::empty()
                        &&& dev.issued() == Seq::<RegisterWrite>::empty()
                        &&& !dev.indirect()
                        &&& !dev.event_idx()
                    },
                    Err(e) => e == Error::InvalidDevice,
                },
            },
    {
        let window = match parse(cmdline.as_bytes(), idx) {
            Ok(w) => w,
            Err(e) => {
                return Err(e);
            },
        };
        let magic: u32 = memory.read_u32(window.addr.wrapping_add(REG_MAGIC));
        let version: u32 = memory.read_u32(window.addr.wrapping_add(REG_VERSION));
        match check_identity(magic, version) {
            Ok(_) => Ok(
                VirtioMMIO {
                    addr: window.addr,
                    size: window.size,
                    irq: window.irq,
                    indirect_buf_cap: false,
                    event_idx_cap: false,
                    memory,
                    commands: Ghost(Seq::empty()),
                    issued: Ghost(Seq::empty()),
                },
            ),
            Err(e) => Err(e),
        }
    }

    pub fn get_addr(&self) -> (r: u64)
        ensures
            r == self.window().addr,
    {
        self.addr
    }

    pub fn get_size(&self) -> (r: usize)
        ensures
            r == self.window().size,
    {
        self.size
    }

    pub fn get_irq(&self) -> (r: u8)
        ensures
            r == self.window().irq,
    {
        self.irq
    }

    /// The memory that holds the registers.
    pub fn get_memory(&self) -> (r: &M)
        ensures
            *r == self.memory(),
    {
        &self.memory
    }

    /// Writes `value` to the register at `offset`.
    fn write_register(&mut self, offset: u64, value: u32)
        ensures
            final(self).window() == old(self).window(),
            final(self).device_commands() == old(self).device_commands(),
            final(self).indirect() == old(self).indirect(),
            final(self).event_idx() == old(self).event_idx(),
            final(self).issued() == old(self).issued().push(RegisterWrite { offset, value }),
    {
        self.memory.write_u32(self.addr.wrapping_add(offset), value);
        proof {
            self.issued@ = self.issued@.push(RegisterWrite { offset, value });
        }
    }

}

impl<M: VolatileMemory> VirtioDevice for VirtioMMIO<M> {
    open spec fn commands(&self) -> Seq<DeviceCommand> {
        self.device_commands()
    }

    open spec fn irq_line(&self) -> u8 {
        self.window().irq
    }

    open spec fn indirect_buf_cap(&self) -> bool {
        self.indirect()
    }

    open spec fn event_idx_cap(&self) -> bool {
        self.event_idx()
    }

    /// Reads the register with the kind of device.
    fn get_type(&self) -> (r: u32) {
        self.memory.read_u32(self.addr.wrapping_add(REG_DEVICE_ID))
    }

    fn get_irq(&self) -> (r: u8) {
        self.irq
    }

    /// Reads the interrupt status and writes it back as the
    /// acknowledgement.
    fn read_and_ack_isr(&mut self) -> (r: u8)
        ensures
            final(self).window() == old(self).window(),
            final(self).issued().len() == old(self).issued().len() + 1,
            final(self).issued().drop_last() == old(self).issued(),
            final(self).issued().last().offset == REG_INTERRUPT_ACK,
            r == (final(self).issued().last().value & 0x01) as u8,
    {
        let intr_status: u32 = self.memory.read_u32(self.addr.wrapping_add(REG_INTERRUPT_STATUS));
        self.write_register(REG_INTERRUPT_ACK, intr_status);
        proof {
            self.commands@ = self.commands@.push(DeviceCommand::AckInterrupt);
            assert(self.issued().drop_last() =~= old(self).issued());
        }
        used_ring_interrupt(intr_status)
    }

    fn select_queue(&mut self, queue: u32)
        ensures
            final(self).window() == old(self).window(),
            final(self).issued() == old(self).issued().push(RegisterWrite { offset: REG_QUEUE_SEL, value: queue }),
    {
        self.write_register(REG_QUEUE_SEL, queue);
        proof {
            self.commands@ = self.commands@.push(DeviceCommand::SelectQueue(queue));
        }
    }

    /// Reads the register with the size that the device offers for the
    /// selected queue.
    fn get_queue_size(&self) -> (r: u16) {
        queue_size_of(self.memory.read_u32(self.addr.wrapping_add(REG_QUEUE_NUM_MAX)))
    }

    fn setup_queue(&mut self, queue: &Virtqueue)
        ensures
            final(self).window() == old(self).window(),
            final(self).issued() == old(self).issued() + queue_writes(
                queue@.size,
                queue@.base_addr,
                wrap64(queue@.base_addr + 16 * queue@.size),
                wrap64(queue@.base_addr + used_ring_offset(queue@.size)),
            ),
    {
        let writes = setup_queue_writes(queue);
        let mut i: usize = 0;
        while i < 7
            invariant
                i <= 7,
                writes@.len() == 7,
                self.window() == old(self).window(),
                self.device_commands() == old(self).device_commands(),
                self.indirect() == old(self).indirect(),
                self.event_idx() == old(self).event_idx(),
                self.issued() == old(self).issued() + writes@.subrange(0, i as int),
            decreases 7 - i,
        {
            let w = writes[i];
            self.write_register(w.offset, w.value);
            i += 1;
            assert(self.issued() =~= old(self).issued() + writes@.subrange(0, i as int));
        }
        proof {
            assert(writes@.subrange(0, 7) =~= writes@);
            self.commands@ = self.commands@.push(
                DeviceCommand::SetupQueue { size: queue@.size, base_addr: queue@.base_addr },
            );
        }
    }

    fn activate_queue(&mut self, queue: u32)
        ensures
            final(self).window() == old(self).window(),
            final(self).issued() == old(self).issued().push(RegisterWrite { offset: REG_QUEUE_READY, value: 1 }),
    {
        self.write_register(REG_QUEUE_READY, 1);
        proof {
            self.commands@ = self.commands@.push(DeviceCommand::ActivateQueue(queue));
        }
    }

    fn kick_queue(&mut self, queue: u32)
        ensures
            final(self).window() == old(self).window(),
            final(self).issued() == old(self).issued().push(RegisterWrite { offset: REG_QUEUE_NOTIFY, value: queue }),
    {
        self.write_register(REG_QUEUE_NOTIFY, queue);
        proof {
            self.commands@ = self.commands@.push(DeviceCommand::KickQueue(queue));
        }
    }

    /// Reads the high half of the features with the selector at 1, then
    /// the low half with the selector at 0.
    fn get_available_features(&mut self) -> (r: u64)
        ensures
            final(self).window() == old(self).window(),
            final(self).issued() == old(self).issued().push(
                RegisterWrite { offset: REG_DEVICE_FEATURES_SEL, value: 1 },
            ).push(RegisterWrite { offset: REG_DEVICE_FEATURES_SEL, value: 0 }),
    {
        self.write_register(REG_DEVICE_FEATURES_SEL, 1);
        let high: u32 = self.memory.read_u32(self.addr.wrapping_add(REG_DEVICE_FEATURES));
        self.write_register(REG_DEVICE_FEATURES_SEL, 0);
        let low: u32 = self.memory.read_u32(self.addr.wrapping_add(REG_DEVICE_FEATURES));
        available_features(high, low)
    }

    fn set_enabled_features(&mut self, features: u64)
        ensures
            final(self).window() == old(self).window(),
            final(self).issued() == old(self).issued() + seq![
                RegisterWrite { offset: REG_DRIVER_FEATURES_SEL, value: 1 },
                RegisterWrite { offset: REG_DRIVER_FEATURES, value: (features >> 32) as u32 },
                RegisterWrite { offset: REG_DRIVER_FEATURES_SEL, value: 0 },
                RegisterWrite { offset: REG_DRIVER_FEATURES, value: (features & 0xffff_ffff) as u32 },
            ],
    {
        let writes = enabled_features_writes(features);
        self.write_register(writes[0].offset, writes[0].value);
        self.write_register(writes[1].offset, writes[1].value);
        self.write_register(writes[2].offset, writes[2].value);
        self.write_register(writes[3].offset, writes[3].value);
        proof {
            assert(self.issued() =~= old(self).issued() + writes@);
            self.commands@ = self.commands@.push(DeviceCommand::SetFeatures(features));
        }
    }

    /// Reads the status register.
    fn get_status(&self) -> (r: u8) {
        status_of(self.memory.read_u32(self.addr.wrapping_add(REG_STATUS)))
    }

    fn set_status(&mut self, status: u8)
        ensures
            final(self).window() == old(self).window(),
            final(self).issued() == old(self).issued().push(RegisterWrite { offset: REG_STATUS, value: status as u32 }),
    {
        self.write_register(REG_STATUS, status as u32);
        proof {
            self.commands@ = self.commands@.push(DeviceCommand::SetStatus(status));
        }
    }

    /// Reads the byte at `offset` of the configuration space.
    fn read_config(&self, offset: usize) -> (r: u8) {
        self.memory.read_u8(self.addr.wrapping_add(REG_CONFIG).wrapping_add(offset as u64))
    }

    /// This transport has no shared memory regions.
    fn get_shm(&self, id: u8, addr: u64, length: usize) -> (r: bool)
        ensures
            !r,
    {
        false
    }

    /// This transport is of version 2, which is not the legacy interface.
    fn is_legacy(&self) -> (r: bool)
        ensures
            !r,
    {
        false
    }

    fn set_indirect_buf_cap(&mut self, flag: bool)
        ensures
            final(self).window() == old(self).window(),
            final(self).issued() == old(self).issued(),
    {
        self.indirect_buf_cap = flag;
    }

    fn get_indirect_buf_cap(&self) -> (r: bool) {
        self.indirect_buf_cap
    }

    fn set_event_idx_cap(&mut self, flag: bool)
        ensures
            final(self).window() == old(self).window(),
            final(self).issued() == old(self).issued(),
    {
        self.event_idx_cap = flag;
    }

    fn get_event_idx_cap(&self) -> (r: bool) {
        self.event_idx_cap
    }
}

} // verus!
