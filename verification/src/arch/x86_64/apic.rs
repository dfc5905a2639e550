//! The local and the I/O interrupt controller, and the interrupt
//! descriptor table: which values go to which registers.

use vstd::prelude::*;

verus! {

/// The first interrupt vector of the external interrupt lines.
pub const VECTOR_IRQ_BASE: u32 = 48;

/// The interrupt line of the timer.
pub const TIMER_IRQ: u32 = 0;

/// The bit that makes the timer periodic.
pub const TIMER_PERIODIC: u32 = 0x20000;

/// The bit that masks an interrupt line.
pub const IOAPIC_MASKED: u32 = 0x1_0000;

/// The number of interrupt lines whose registers have an index of eight
/// bits.
pub const IOAPIC_LINES: u8 = 120;

/// The register with the identifier of the local interrupt controller.
pub const APIC_REG_APICID: u64 = 0xfee0_0020;

/// The task priority register.
pub const APIC_REG_TPR: u64 = 0xfee0_0080;

/// The register that ends an interrupt.
pub const APIC_REG_EOI: u64 = 0xfee0_00b0;

/// The logical destination register.
pub const APIC_REG_LOGICAL_DEST: u64 = 0xfee0_00d0;

/// The destination format register.
pub const APIC_REG_DEST_FORMAT: u64 = 0xfee0_00e0;

/// The register of the spurious interrupt vector.
pub const APIC_REG_SPURIOUS_INT: u64 = 0xfee0_00f0;

/// The vector register of the timer.
pub const APIC_REG_LVT_TIMER: u64 = 0xfee0_0320;

/// The vector register of the error line.
pub const APIC_REG_LVT_ERROR: u64 = 0xfee0_0370;

/// The register with the count that the timer starts from.
pub const APIC_REG_TIMER_INITCNT: u64 = 0xfee0_0380;

/// The register with the count that the timer has reached.
pub const APIC_REG_TIMER_CURCNT: u64 = 0xfee0_0390;

/// The register with the divider of the timer.
pub const APIC_REG_TIMER_DIV: u64 = 0xfee0_03e0;

/// The divider of the timer.
pub const APIC_TIMER_DIV: u32 = 0x03;

/// The address of the I/O interrupt controller.
pub const IOAPIC_ADDR: u64 = 0xfec0_0000;

/// The index of the version register of the I/O interrupt controller.
pub const IOAPIC_REG_IOAPICVER: u8 = 0x01;

/// A write to a register of the local interrupt controller.
#[derive(Debug, Copy, Clone, PartialEq, Eq, Structural)]
pub struct ApicWrite {
    pub addr: u64,
    pub value: u32,
}

/// The writes that set the local interrupt controller up, in their
/// order: spurious interrupts enabled, every priority let through, the
/// flat model with this processor as the first, and the timer and the
/// error line masked.
pub open spec fn init_sequence() -> Seq<ApicWrite> {
    seq![
        ApicWrite { addr: APIC_REG_SPURIOUS_INT, value: 0x100 },
        ApicWrite { addr: APIC_REG_TPR, value: 0 },
        ApicWrite { addr: APIC_REG_LOGICAL_DEST, value: 0x0100_0000 },
        ApicWrite { addr: APIC_REG_DEST_FORMAT, value: 0xffff_ffff },
        ApicWrite { addr: APIC_REG_LVT_TIMER, value: 0x1_0000 },
        ApicWrite { addr: APIC_REG_LVT_ERROR, value: 0x1_0000 },
    ]
}

/// The writes that set the local interrupt controller up.
pub fn init() -> (r: [ApicWrite; 6])
    ensures
        r@ == init_sequence(),
{
    let r = [
        ApicWrite { addr: APIC_REG_SPURIOUS_INT, value: 0x100 },
        ApicWrite { addr: APIC_REG_TPR, value: 0 },
        ApicWrite { addr: APIC_REG_LOGICAL_DEST, value: 0x0100_0000 },
        ApicWrite { addr: APIC_REG_DEST_FORMAT, value: 0xffff_ffff },
        ApicWrite { addr: APIC_REG_LVT_TIMER, value: 0x1_0000 },
        ApicWrite { addr: APIC_REG_LVT_ERROR, value: 0x1_0000 },
    ];
    assert(r@ =~= init_sequence());
    r
}

/// The value that enables the local interrupt controller, from the value
/// of its base register.
pub fn apic_base_enabled(base: u64) -> (r: u64)
    ensures
        r == (base & 0xffff_f100) | 0x0800,
{
    (base & 0xffff_f100) | 0x0800
}

/// The count that makes the timer tick every two milliseconds, where it
/// counted 0xfffff ticks between the times `before` and `after` of the
/// monotonic clock, in nanoseconds.
pub fn timer_initial_count(before: u64, after: u64) -> (r: u64)
    requires
        after > before,
    ensures
        r == (2_000_000int * 0xfffff) / (after - before),
{
    let ticks: u64 = 2_000_000 * 0xfffff;
    ticks / (after - before)
}

/// The address of the handler of the vector `vector`, where the handlers
/// stand sixteen bytes apart from `first` on.
pub fn handler_address(first: u64, vector: u8) -> (r: u64)
    requires
        first + 0x10 * 255 <= u64::MAX,
    ensures
        r == first + 0x10 * vector,
{
    first + 0x10 * (vector as u64)
}

/// A write to a register of the I/O interrupt controller.
#[derive(Debug, Copy, Clone, PartialEq, Eq, Structural)]
pub struct IoApicWrite {
    pub reg: u8,
    pub value: u32,
}

/// The register that describes where the interrupt descriptor table is.
#[derive(Debug, Copy, Clone, PartialEq, Eq, Structural)]
pub struct IDTRegister {
    pub limit: u16,
    pub base: u64,
}

impl IDTRegister {
    pub fn new() -> (r: IDTRegister)
        ensures
            r == (IDTRegister { limit: 0, base: 0 }),
    {
        IDTRegister { limit: 0, base: 0 }
    }

    pub fn set_limit(&mut self, limit: u16)
        ensures
            *final(self) == (IDTRegister { limit, ..*old(self) }),
    {
        self.limit = limit;
    }

    pub fn set_base(&mut self, base: u64)
        ensures
            *final(self) == (IDTRegister { base, ..*old(self) }),
    {
        self.base = base;
    }
}

/// One entry of the interrupt descriptor table.
#[derive(Debug, Copy, Clone, PartialEq, Eq, Structural)]
pub struct IDTEntry {
    pub offsetl: u16,
    pub selector: u16,
    pub zero: u8,
    pub attribute: u8,
    pub offsetm: u16,
    pub offseth: u32,
    pub zero2: u32,
}

impl IDTEntry {
    pub fn new() -> (r: IDTEntry)
        ensures
            r == (IDTEntry { offsetl: 0, selector: 0, zero: 0, attribute: 0, offsetm: 0, offseth: 0, zero2: 0 }),
    {
        IDTEntry { offsetl: 0, selector: 0, zero: 0, attribute: 0, offsetm: 0, offseth: 0, zero2: 0 }
    }

    /// The address of the handler that the entry leads to.
    pub open spec fn offset(&self) -> u64 {
        (self.offsetl as u64) | ((self.offsetm as u64) << 16) | ((self.offseth as u64) << 32)
    }

    /// Makes the entry a present interrupt descriptor of the kernel that
    /// leads to the handler at `offset`.
    pub fn set_offset(&mut self, offset: u64)
        ensures
            final(self).offset() == offset,
            final(self).attribute == 0x8e,
            final(self).selector == 8,
            final(self).zero == old(self).zero,
            final(self).zero2 == old(self).zero2,
    {
        self.offsetl = (offset & 0x0000_0000_0000_ffff) as u16;
        self.offsetm = ((offset & 0x0000_0000_ffff_0000) >> 16) as u16;
        self.offseth = ((offset & 0xffff_ffff_0000_0000) >> 32) as u32;
        self.attribute = 0x8e;
        self.selector = 8;
        assert((((offset & 0x0000_0000_0000_ffff) as u16) as u64) | ((((offset & 0x0000_0000_ffff_0000) >> 16) as u16) as u64)
            << 16 | ((((offset & 0xffff_ffff_0000_0000) >> 32) as u32) as u64) << 32 == offset) by (bit_vector);
    }
}

/// The identifier of the local interrupt controller, from its register.
pub fn get_lapic_id(register: u32) -> (r: u8)
    ensures
        r == (register >> 24) as u8,
{
    assert(register >> 24 <= 0xff) by (bit_vector);
    (register >> 24) as u8
}

/// The index of the register with the low half of the entry of the
/// interrupt line `n`.
pub fn ioapic_reg_low(n: u8) -> (r: u8)
    requires
        n < IOAPIC_LINES,
    ensures
        r == 0x10 + 2 * n,
{
    0x10 + n * 2
}

/// The index of the register with the high half of the entry of the
/// interrupt line `n`.
pub fn ioapic_reg_high(n: u8) -> (r: u8)
    requires
        n < IOAPIC_LINES,
    ensures
        r == 0x10 + 2 * n + 1,
{
    0x10 + n * 2 + 1
}

/// The writes that route the interrupt line `irq` to its vector.
pub fn enable_irq(irq: u8) -> (r: [IoApicWrite; 2])
    requires
        irq < IOAPIC_LINES,
    ensures
        r@ == seq![
            IoApicWrite { reg: (0x10 + 2 * irq + 1) as u8, value: 0 },
            IoApicWrite { reg: (0x10 + 2 * irq) as u8, value: (VECTOR_IRQ_BASE + irq) as u32 },
        ],
{
    let r = [
        IoApicWrite { reg: ioapic_reg_high(irq), value: 0 },
        IoApicWrite { reg: ioapic_reg_low(irq), value: VECTOR_IRQ_BASE + irq as u32 },
    ];
    assert(r@ =~= seq![
        IoApicWrite { reg: (0x10 + 2 * irq + 1) as u8, value: 0 },
        IoApicWrite { reg: (0x10 + 2 * irq) as u8, value: (VECTOR_IRQ_BASE + irq) as u32 },
    ]);
    r
}

/// The writes that mask the interrupt line `irq`.
pub fn disable_irq(irq: u8) -> (r: [IoApicWrite; 2])
    requires
        irq < IOAPIC_LINES,
    ensures
        r@ == seq![
            IoApicWrite { reg: (0x10 + 2 * irq + 1) as u8, value: 0 },
            IoApicWrite { reg: (0x10 + 2 * irq) as u8, value: IOAPIC_MASKED },
        ],
{
    let r = [
        IoApicWrite { reg: ioapic_reg_high(irq), value: 0 },
        IoApicWrite { reg: ioapic_reg_low(irq), value: IOAPIC_MASKED },
    ];
    assert(r@ =~= seq![
        IoApicWrite { reg: (0x10 + 2 * irq + 1) as u8, value: 0 },
        IoApicWrite { reg: (0x10 + 2 * irq) as u8, value: IOAPIC_MASKED },
    ]);
    r
}

/// The number of interrupt lines of the I/O interrupt controller, from its
/// version register.
pub fn ioapic_lines(version: u32) -> (r: u32)
    ensures
        r == (version >> 16) + 1,
{
    assert(version >> 16 <= 0xffff) by (bit_vector);
    (version >> 16) + 1
}

/// The value of the timer's vector register: the vector of the timer
/// line, periodic.
pub fn timer_vector() -> (r: u32)
    ensures
        r == ((VECTOR_IRQ_BASE + TIMER_IRQ) as u32) | TIMER_PERIODIC,
{
    (VECTOR_IRQ_BASE + TIMER_IRQ) | TIMER_PERIODIC
}

} // verus!
