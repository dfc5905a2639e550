//! A software router and host stack for paravirtualised network devices:
//! the virtqueue transport, the network driver built on it, the forwarding
//! tables and the packet-processing stages that answer ARP and ICMP echo.

pub mod arch;
pub mod asynchronous;
pub mod bootparams;
pub mod devices;
pub mod interrupt;
pub mod net;
pub mod ringbuf;
pub mod spinlock;
pub mod task;

use vstd::prelude::*;

verus! {

/// What the interrupt entry code saves before it calls the handler.
#[derive(Debug, Copy, Clone)]
pub struct InterruptFrame {
    pub rax: u64,
    pub rbx: u64,
    pub rcx: u64,
    pub rdx: u64,
    pub rsi: u64,
    pub rbp: u64,
    pub r8: u64,
    pub r9: u64,
    pub r10: u64,
    pub r11: u64,
    pub r12: u64,
    pub r13: u64,
    pub r14: u64,
    pub r15: u64,
    pub xmm0: u128,
    pub xmm1: u128,
    pub xmm2: u128,
    pub xmm3: u128,
    pub xmm4: u128,
    pub xmm5: u128,
    pub xmm6: u128,
    pub xmm7: u128,
    pub xmm8: u128,
    pub xmm9: u128,
    pub xmm10: u128,
    pub xmm11: u128,
    pub xmm12: u128,
    pub xmm13: u128,
    pub xmm14: u128,
    pub xmm15: u128,
    pub rdi: u64,
    pub error: u64,
    pub rip: u64,
    pub cs: u64,
    pub rflags: u64,
    pub rsp: u64,
    pub ss: u64,
}

/// The highest vector of a processor exception.
pub const LAST_EXCEPTION_VECTOR: u8 = 20;

/// The first vector of the external interrupt lines.
pub const FIRST_IRQ_VECTOR: u8 = 48;

/// What is done about an interrupt vector.
#[derive(Debug, Copy, Clone, PartialEq, Eq, Structural)]
pub enum VectorAction {
    /// A processor exception, from which there is no recovery.
    Fatal,
    /// The interrupt line of this number is served.
    Irq(u8),
    /// Nothing is done.
    Ignore,
}

/// Says what is done about the interrupt vector `intvec`.
pub fn interrupt_handler(intvec: u8) -> (r: VectorAction)
    ensures
        r == (if intvec <= LAST_EXCEPTION_VECTOR {
            VectorAction::Fatal
        } else if intvec >= FIRST_IRQ_VECTOR {
            VectorAction::Irq((intvec - FIRST_IRQ_VECTOR) as u8)
        } else {
            VectorAction::Ignore
        }),
{
    if intvec <= LAST_EXCEPTION_VECTOR {
        VectorAction::Fatal
    } else if intvec >= FIRST_IRQ_VECTOR {
        VectorAction::Irq(intvec - FIRST_IRQ_VECTOR)
    } else {
        VectorAction::Ignore
    }
}

/// The difference of the first bytes in which the first `n` bytes of `a`
/// and `b` differ, from `from` on; 0 if they do not differ.
pub open spec fn first_difference(a: Seq<u8>, b: Seq<u8>, n: int, from: int) -> int
    decreases n - from,
{
    if from >= n {
        0
    } else if a[from] != b[from] {
        a[from] - b[from]
    } else {
        first_difference(a, b, n, from + 1)
    }
}

/// The difference of the first bytes in which the first `n` bytes of `a`
/// and `b` differ, from `from` on; 0 if they do not differ.
pub open spec fn bytes_difference(a: Seq<u8>, b: Seq<u8>, n: usize, from: usize) -> int {
    first_difference(a, b, n as int, from as int)
}

/// The difference of two bytes.
pub fn byte_difference(a: u8, b: u8) -> (r: i32)
    ensures
        r == a - b,
{
    a as i32 - b as i32
}

/// Compares the first `n` bytes of `s1` and `s2`: the result is the
/// difference of the first bytes that differ, and 0 if none do.
pub fn memcmp(s1: &[u8], s2: &[u8], n: usize) -> (r: i32)
    requires
        n <= s1@.len(),
        n <= s2@.len(),
    ensures
        r == bytes_difference(s1@, s2@, n, 0),
{
    let mut i: usize = 0;
    while i < n
        invariant
            i <= n,
            n <= s1@.len(),
            n <= s2@.len(),
            bytes_difference(s1@, s2@, n, 0) == bytes_difference(s1@, s2@, n, i),
        decreases n - i,
    {
        let a = s1[i];
        let b = s2[i];
        if a != b {
            return byte_difference(a, b);
        }
        i += 1;
    }
    0
}

/// Compares the first `n` bytes of `s1` and `s2`: the result is 0 if and
/// only if they are the same.
pub fn bcmp(s1: &[u8], s2: &[u8], n: usize) -> (r: i32)
    requires
        n <= s1@.len(),
        n <= s2@.len(),
    ensures
        r == bytes_difference(s1@, s2@, n, 0),
{
    memcmp(s1, s2, n)
}

/// Sets the first `n` bytes of `s` to the low eight bits of `c`.
pub fn memset(s: &mut [u8], c: i32, n: usize)
    requires
        n <= old(s)@.len(),
    ensures
        final(s)@ == Seq::new(n as nat, |i: int| (c & 0xff) as u8) + old(s)@.subrange(n as int, old(s)@.len() as int),
{
    let byte: u8 = (c & 0xff) as u8;
    let mut i: usize = 0;
    while i < n
        invariant
            i <= n,
            n <= s@.len(),
            s@.len() == old(s)@.len(),
            byte == (c & 0xff) as u8,
            forall|j: int| 0 <= j < i ==> s@[j] == byte,
            forall|j: int| i <= j < s@.len() ==> s@[j] == old(s)@[j],
        decreases n - i,
    {
        s[i] = byte;
        i += 1;
    }
    assert(s@ =~= Seq::new(n as nat, |i: int| (c & 0xff) as u8) + old(s)@.subrange(n as int, old(s)@.len() as int));
}

/// Copies the first `n` bytes of `src` to `dest`.
pub fn memcpy(dest: &mut [u8], src: &[u8], n: usize)
    requires
        n <= old(dest)@.len(),
        n <= src@.len(),
    ensures
        final(dest)@ == src@.subrange(0, n as int) + old(dest)@.subrange(n as int, old(dest)@.len() as int),
{
    let mut i: usize = 0;
    while i < n
        invariant
            i <= n,
            n <= dest@.len(),
            n <= src@.len(),
            dest@.len() == old(dest)@.len(),
            forall|j: int| 0 <= j < i ==> dest@[j] == src@[j],
            forall|j: int| i <= j < dest@.len() ==> dest@[j] == old(dest)@[j],
        decreases n - i,
    {
        dest[i] = src[i];
        i += 1;
    }
    assert(dest@ =~= src@.subrange(0, n as int) + old(dest)@.subrange(n as int, old(dest)@.len() as int));
}

/// Moves `n` bytes inside `memory` from `src` to `dest`. The two ranges
/// may overlap: the bytes are copied from the end where the source lies
/// before the destination, and from the start where it does not.
pub fn memmove(memory: &mut [u8], dest: usize, src: usize, n: usize)
    requires
        dest + n <= old(memory)@.len(),
        src + n <= old(memory)@.len(),
    ensures
        final(memory)@.len() == old(memory)@.len(),
        forall|j: int|
            0 <= j < old(memory)@.len() ==> #[trigger] final(memory)@[j] == (if dest <= j < dest + n {
                old(memory)@[j - dest + src]
            } else {
                old(memory)@[j]
            }),
{
    let total: usize = memory.len();
    if src < dest {
        let mut i: usize = n;
        while i != 0
            invariant
                i <= n,
                total == memory@.len(),
                memory@.len() == old(memory)@.len(),
                dest + n <= total,
                src + n <= total,
                src < dest,
                forall|j: int|
                    0 <= j < total ==> #[trigger] memory@[j] == (if dest + i <= j < dest + n {
                        old(memory)@[j - dest + src]
                    } else {
                        old(memory)@[j]
                    }),
            decreases i,
        {
            i -= 1;
            memory[dest + i] = memory[src + i];
        }
    } else {
        let mut i: usize = 0;
        while i < n
            invariant
                i <= n,
                total == memory@.len(),
                memory@.len() == old(memory)@.len(),
                dest + n <= total,
                src + n <= total,
                src >= dest,
                forall|j: int|
                    0 <= j < total ==> #[trigger] memory@[j] == (if dest <= j < dest + i {
                        old(memory)@[j - dest + src]
                    } else {
                        old(memory)@[j]
                    }),
            decreases n - i,
        {
            memory[dest + i] = memory[src + i];
            i += 1;
        }
    }
}

} // verus!
