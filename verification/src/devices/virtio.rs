//! The virtio transport: the split-ring virtqueue and the contract of a
//! virtio device.

pub mod mmio;
pub mod net;

use vstd::prelude::*;
use crate::devices::buffer::{Buffer, is_power_of_two, layout_ok, round_up};

verus! {

/// The alignment of the rings and of the region that holds them.
pub const QUEUE_ALIGN: usize = 4096;

/// The flags of a descriptor that the device may only read.
pub const DESC_DEVICE_READS: u16 = 0;

/// The flags of a descriptor that the device may write.
pub const DESC_DEVICE_WRITES: u16 = 2;

/// One entry of the descriptor table.
#[derive(Debug, Copy, Clone, PartialEq, Eq, Structural)]
pub struct VirtqueueDescriptor {
    pub addr: u64,
    pub len: u32,
    pub flags: u16,
    pub next: u16,
}

/// One entry of the used ring: the descriptor that the device is done with
/// and the number of bytes it wrote.
#[derive(Debug, Copy, Clone, PartialEq, Eq, Structural)]
pub struct VirtqueueUsedElement {
    pub id: u32,
    pub len: u32,
}

/// Why a buffer was not queued.
#[derive(Debug, Copy, Clone, PartialEq, Eq, Structural)]
pub enum QueueError {
    /// Every descriptor slot holds a buffer.
    Full,
}

/// What a driver tells a virtio device.
pub enum DeviceCommand {
    /// The status register is set to this value.
    SetStatus(u8),
    /// The features that the driver accepts.
    SetFeatures(u64),
    /// The queue that the next queue commands speak of.
    SelectQueue(u32),
    /// The size of the selected queue and the address of the region that
    /// holds its rings.
    SetupQueue { size: u16, base_addr: u64 },
    /// The queue is ready for use.
    ActivateQueue(u32),
    /// New buffers are available in the queue.
    KickQueue(u32),
    /// The pending interrupt causes were read and acknowledged.
    AckInterrupt,
}

/// A virtio device as its driver sees it, whatever the transport. The
/// commands that the driver gives are kept as a record, oldest first; what
/// the device answers is its own matter.
pub trait VirtioDevice {
    /// The commands given so far.
    spec fn commands(&self) -> Seq<DeviceCommand>;

    /// The interrupt line of the device.
    spec fn irq_line(&self) -> u8;

    /// Whether the driver may use indirect descriptors.
    spec fn indirect_buf_cap(&self) -> bool;

    /// Whether the driver may use the event index.
    spec fn event_idx_cap(&self) -> bool;

    /// The kind of device: 1 is a network device.
    fn get_type(&self) -> (r: u32)
    ;

    fn get_irq(&self) -> (r: u8)
        ensures
            r == self.irq_line(),
    ;

    /// Reads the pending interrupt causes and acknowledges them; the result
    /// is not 0 if the device has used a buffer.
    fn read_and_ack_isr(&mut self) -> (r: u8)
        ensures
            final(self).commands() == old(self).commands().push(DeviceCommand::AckInterrupt),
            final(self).irq_line() == old(self).irq_line(),
            final(self).indirect_buf_cap() == old(self).indirect_buf_cap(),
            final(self).event_idx_cap() == old(self).event_idx_cap(),
    ;

    fn select_queue(&mut self, queue: u32)
        ensures
            final(self).commands() == old(self).commands().push(DeviceCommand::SelectQueue(queue)),
            final(self).irq_line() == old(self).irq_line(),
            final(self).indirect_buf_cap() == old(self).indirect_buf_cap(),
            final(self).event_idx_cap() == old(self).event_idx_cap(),
    ;

    /// The size that the device offers for the selected queue.
    fn get_queue_size(&self) -> (r: u16)
    ;

    fn setup_queue(&mut self, queue: &Virtqueue)
        requires
            queue.wf(),
        ensures
            final(self).commands() == old(self).commands().push(
                DeviceCommand::SetupQueue { size: queue@.size, base_addr: queue@.base_addr },
            ),
            final(self).irq_line() == old(self).irq_line(),
            final(self).indirect_buf_cap() == old(self).indirect_buf_cap(),
            final(self).event_idx_cap() == old(self).event_idx_cap(),
    ;

    fn activate_queue(&mut self, queue: u32)
        ensures
            final(self).commands() == old(self).commands().push(DeviceCommand::ActivateQueue(queue)),
            final(self).irq_line() == old(self).irq_line(),
            final(self).indirect_buf_cap() == old(self).indirect_buf_cap(),
            final(self).event_idx_cap() == old(self).event_idx_cap(),
    ;

    fn kick_queue(&mut self, queue: u32)
        ensures
            final(self).commands() == old(self).commands().push(DeviceCommand::KickQueue(queue)),
            final(self).irq_line() == old(self).irq_line(),
            final(self).indirect_buf_cap() == old(self).indirect_buf_cap(),
            final(self).event_idx_cap() == old(self).event_idx_cap(),
    ;

    /// The features that the device offers.
    fn get_available_features(&mut self) -> (r: u64)
        ensures
            final(self).commands() == old(self).commands(),
            final(self).irq_line() == old(self).irq_line(),
            final(self).indirect_buf_cap() == old(self).indirect_buf_cap(),
            final(self).event_idx_cap() == old(self).event_idx_cap(),
    ;

    fn set_enabled_features(&mut self, features: u64)
        ensures
            final(self).commands() == old(self).commands().push(DeviceCommand::SetFeatures(features)),
            final(self).irq_line() == old(self).irq_line(),
            final(self).indirect_buf_cap() == old(self).indirect_buf_cap(),
            final(self).event_idx_cap() == old(self).event_idx_cap(),
    ;

    fn get_status(&self) -> (r: u8)
    ;

    fn set_status(&mut self, status: u8)
        ensures
            final(self).commands() == old(self).commands().push(DeviceCommand::SetStatus(status)),
            final(self).irq_line() == old(self).irq_line(),
            final(self).indirect_buf_cap() == old(self).indirect_buf_cap(),
            final(self).event_idx_cap() == old(self).event_idx_cap(),
    ;

    /// One byte of the device's configuration space.
    fn read_config(&self, offset: usize) -> (r: u8)
    ;

    fn get_shm(&self, id: u8, addr: u64, length: usize) -> (r: bool)
    ;

    fn is_legacy(&self) -> (r: bool)
    ;

    fn set_indirect_buf_cap(&mut self, flag: bool)
        ensures
            final(self).indirect_buf_cap() == flag,
            final(self).commands() == old(self).commands(),
            final(self).irq_line() == old(self).irq_line(),
            final(self).event_idx_cap() == old(self).event_idx_cap(),
    ;

    fn get_indirect_buf_cap(&self) -> (r: bool)
        ensures
            r == self.indirect_buf_cap(),
    ;

    fn set_event_idx_cap(&mut self, flag: bool)
        ensures
            final(self).event_idx_cap() == flag,
            final(self).commands() == old(self).commands(),
            final(self).irq_line() == old(self).irq_line(),
            final(self).indirect_buf_cap() == old(self).indirect_buf_cap(),
    ;

    fn get_event_idx_cap(&self) -> (r: bool)
        ensures
            r == self.event_idx_cap(),
    ;
}

/// How far the free-running counter `a` is ahead of `b`.
pub open spec fn ring_distance(a: u16, b: u16) -> int {
    if a >= b {
        a - b
    } else {
        a + 0x1_0000 - b
    }
}

/// The counter after `idx`.
pub open spec fn ring_next(idx: u16) -> u16 {
    if idx == 0xffff {
        0
    } else {
        (idx + 1) as u16
    }
}

/// The ring position of a free-running counter.
pub open spec fn ring_slot(idx: u16, size: u16) -> int {
    (idx & ((size - 1) as u16)) as int
}

/// The slot `j` places after `head`, going round a ring of `size` slots.
pub open spec fn slot_after(head: int, j: int, size: int) -> int {
    if head + j < size {
        head + j
    } else {
        head + j - size
    }
}

/// How many places slot `i` lies after `head`.
pub open spec fn slot_offset(head: int, i: int, size: int) -> int {
    if i >= head {
        i - head
    } else {
        i + size - head
    }
}

/// The first multiple of the ring alignment after `x`.
pub open spec fn page_up(x: int) -> int {
    (x / 4096 + 1) * 4096
}

/// The offset of the used ring from the start of the region: the
/// descriptor table and the available ring, padded to the ring alignment.
pub open spec fn used_ring_offset(size: u16) -> int {
    page_up(16 * size + 3 * 2 + 2 * size - 1)
}

/// The length of the region of a queue of `size` slots: the descriptor
/// table with the available ring, and the used ring, each padded to the
/// ring alignment.
pub open spec fn queue_region_len(size: u16) -> int {
    used_ring_offset(size) + page_up(3 * 2 + 8 * size - 1)
}

/// The value of `x` in 64 bits.
pub open spec fn wrap64(x: int) -> u64 {
    (x % 0x1_0000_0000_0000_0000) as u64
}

/// What the descriptor of slot `i` holds while `b` is queued there.
pub open spec fn descriptor_of(d: VirtqueueDescriptor, b: Buffer, i: int, size: u16) -> bool {
    &&& d.addr == b.address()
    &&& d.len == b.size()
    &&& (d.flags == DESC_DEVICE_READS || d.flags == DESC_DEVICE_WRITES)
    &&& d.next == slot_after(i, 1, size as int)
}

/// A virtqueue as plain values.
pub struct VirtqueueView {
    pub size: u16,
    pub is_indirect: bool,
    pub base_addr: u64,
    pub region_len: nat,
    pub descriptors: Seq<VirtqueueDescriptor>,
    pub avail_flags: u16,
    pub avail_idx: u16,
    pub avail_ring: Seq<u16>,
    pub used_flags: u16,
    pub used_idx: u16,
    pub used_ring: Seq<VirtqueueUsedElement>,
    pub buffers: Seq<Option<Buffer>>,
    pub free_head: u16,
    pub last_used_idx: u16,
}

impl VirtqueueView {
    /// The buffers that were queued and not yet handed back by `pop`.
    pub open spec fn pending(self) -> int {
        ring_distance(self.avail_idx, self.last_used_idx)
    }

    /// The buffers that the device is done with and `pop` has not yet
    /// handed back.
    pub open spec fn done(self) -> int {
        ring_distance(self.used_idx, self.last_used_idx)
    }

    /// The buffers that the device still holds.
    pub open spec fn in_flight(self) -> int {
        ring_distance(self.avail_idx, self.used_idx)
    }

    /// The slot of the oldest buffer that `pop` has not yet handed back.
    pub open spec fn head(self) -> int {
        ring_slot(self.last_used_idx, self.size)
    }

    /// Whether slot `i` holds a buffer by the counters: its place after the
    /// head is among the pending ones.
    pub open spec fn is_pending(self, i: int) -> bool {
        slot_offset(self.head(), i, self.size as int) < self.pending()
    }

    /// Whether the device is done with slot `i`.
    pub open spec fn is_done(self, i: int) -> bool {
        slot_offset(self.head(), i, self.size as int) < self.done()
    }

    /// The queue after `buffer` was queued in the slot of the free head.
    pub open spec fn pushed(self, buffer: Buffer, device_reads: bool) -> VirtqueueView {
        let slot = self.free_head as int;
        let next = slot_after(slot, 1, self.size as int) as u16;
        VirtqueueView {
            descriptors: self.descriptors.update(
                slot,
                VirtqueueDescriptor {
                    addr: buffer.address(),
                    len: buffer.size() as u32,
                    flags: if device_reads {
                        DESC_DEVICE_READS
                    } else {
                        DESC_DEVICE_WRITES
                    },
                    next,
                },
            ),
            avail_ring: self.avail_ring.update(ring_slot(self.avail_idx, self.size), self.free_head),
            avail_idx: ring_next(self.avail_idx),
            buffers: self.buffers.update(slot, Some(buffer)),
            free_head: next,
            ..self
        }
    }

    /// The buffers that the device is done with, oldest first.
    pub open spec fn completed_buffers(self) -> Seq<Buffer> {
        Seq::new(
            self.done() as nat,
            |j: int| self.buffers[slot_after(self.head(), j, self.size as int)].unwrap(),
        )
    }

    /// The queue after `pop` took out the buffers that the device is done
    /// with.
    pub open spec fn popped(self) -> VirtqueueView {
        VirtqueueView {
            last_used_idx: self.used_idx,
            buffers: Seq::new(
                self.size as nat,
                |i: int|
                    if self.is_done(i) {
                        None
                    } else {
                        self.buffers[i]
                    },
            ),
            ..self
        }
    }

    /// The slot that the device finishes next.
    pub open spec fn next_used(self) -> int {
        ring_slot(self.used_idx, self.size)
    }

    /// Whether the device can finish the descriptor `id` by writing `n`
    /// bytes: it holds a buffer, the descriptor is that of the buffer it
    /// has held longest, the bytes fit, and it writes only where it may.
    pub open spec fn can_complete(self, id: u32, n: nat) -> bool {
        &&& self.done() < self.pending()
        &&& id == self.next_used()
        &&& n <= self.buffers[self.next_used()].unwrap().size()
        &&& n <= u32::MAX
        &&& (n == 0 || self.descriptors[self.next_used()].flags == DESC_DEVICE_WRITES)
    }

    /// Whether `next` is this queue after the device wrote `written` to the
    /// start of its oldest buffer and entered it in the used ring.
    pub open spec fn completes_to(self, next: VirtqueueView, written: Seq<u8>) -> bool {
        let slot = self.next_used();
        let before = self.buffers[slot].unwrap();
        &&& next.used_ring == self.used_ring.update(
            slot,
            VirtqueueUsedElement { id: slot as u32, len: written.len() as u32 },
        )
        &&& next.used_idx == ring_next(self.used_idx)
        &&& next.buffers.len() == self.buffers.len()
        &&& forall|i: int| 0 <= i < self.buffers.len() && i != slot ==> next.buffers[i] == self.buffers[i]
        &&& next.buffers[slot] matches Some(after) && {
            &&& after.wf()
            &&& after.region() == written + before.region().subrange(
                written.len() as int,
                before.capacity() as int,
            )
            &&& after.position() == before.position()
            &&& after.size() == before.size()
            &&& after.capacity() == before.capacity()
            &&& after.alignment() == before.alignment()
            &&& after.address() == before.address()
        }
        &&& next.size == self.size
        &&& next.is_indirect == self.is_indirect
        &&& next.base_addr == self.base_addr
        &&& next.descriptors == self.descriptors
        &&& next.avail_flags == self.avail_flags
        &&& next.avail_idx == self.avail_idx
        &&& next.avail_ring == self.avail_ring
        &&& next.used_flags == self.used_flags
        &&& next.free_head == self.free_head
        &&& next.last_used_idx == self.last_used_idx
    }

    /// The invariant of a virtqueue.
    pub open spec fn wf(self) -> bool {
        &&& is_queue_size(self.size)
        &&& self.size > 0
        &&& self.base_addr != 0
        &&& self.base_addr % 4096 == 0
        &&& self.region_len == queue_region_len(self.size)
        &&& self.base_addr + self.region_len <= usize::MAX
        &&& self.size & ((self.size - 1) as u16) == 0
        &&& self.descriptors.len() == self.size
        &&& self.avail_ring.len() == self.size
        &&& self.used_ring.len() == self.size
        &&& self.buffers.len() == self.size
        &&& 0 <= self.head() < self.size
        &&& self.done() <= self.pending() <= self.size
        &&& self.free_head == ring_slot(self.avail_idx, self.size)
        &&& ring_slot(self.avail_idx, self.size) == slot_after(self.head(), self.pending(), self.size as int)
        &&& ring_slot(self.used_idx, self.size) == slot_after(self.head(), self.done(), self.size as int)
        &&& forall|i: int| 0 <= i < self.size ==> ((#[trigger] self.buffers[i]) is Some <==> self.is_pending(i))
        &&& forall|i: int|
            0 <= i < self.size && self.is_pending(i) ==> {
                &&& (#[trigger] self.buffers[i]).unwrap().wf()
                &&& self.avail_ring[i] == i
                &&& descriptor_of(self.descriptors[i], self.buffers[i].unwrap(), i, self.size)
            }
        &&& forall|i: int| 0 <= i < self.size && self.is_done(i) ==> (#[trigger] self.used_ring[i]).id == i
    }
}

/// The ring alignment is a power of two, and a region of up to a megabyte
/// with that alignment can be made.
pub proof fn lemma_page_layout(size: usize)
    requires
        size <= 0x10_0000,
    ensures
        is_power_of_two(QUEUE_ALIGN),
        layout_ok(size, QUEUE_ALIGN),
{
    assert(4096usize & 4095usize == 0) by (bit_vector);
}

/// Whether `after` is `before` with `count` more buffers queued: what the
/// device has finished and what was queued before are as they were.
pub open spec fn refilled(before: VirtqueueView, after: VirtqueueView, count: int) -> bool {
    &&& after.size == before.size
    &&& after.is_indirect == before.is_indirect
    &&& after.base_addr == before.base_addr
    &&& after.avail_flags == before.avail_flags
    &&& after.used_flags == before.used_flags
    &&& after.used_idx == before.used_idx
    &&& after.used_ring == before.used_ring
    &&& after.last_used_idx == before.last_used_idx
    &&& ring_distance(after.avail_idx, before.avail_idx) == count
    &&& after.pending() == before.pending() + count
    &&& forall|i: int| 0 <= i < before.size && before.is_pending(i) ==> #[trigger] after.buffers[i] == before.buffers[i]
    &&& forall|i: int|
        0 <= i < before.size && before.is_pending(i) ==> #[trigger] after.descriptors[i] == before.descriptors[i]
}

/// Whether a queue can have `size` slots: the size is a power of two.
pub open spec fn is_queue_size(size: u16) -> bool {
    size == 1 || size == 2 || size == 4 || size == 8 || size == 0x10 || size == 0x20 || size == 0x40 || size == 0x80
        || size == 0x100 || size == 0x200 || size == 0x400 || size == 0x800 || size == 0x1000 || size == 0x2000 || size
        == 0x4000 || size == 0x8000
}

/// The powers of two are the sizes that share no bit with the size below
/// them.
pub proof fn lemma_queue_size(size: u16)
    by (bit_vector)
    ensures
        (size > 0 && size & ((size - 1) as u16) == 0) <==> (size == 1 || size == 2 || size == 4 || size == 8 || size
            == 0x10 || size == 0x20 || size == 0x40 || size == 0x80 || size == 0x100 || size == 0x200 || size == 0x400
            || size == 0x800 || size == 0x1000 || size == 0x2000 || size == 0x4000 || size == 0x8000),
{
}

/// Says whether a queue can have the size that a device offers.
pub fn queue_size_usable(size: u16) -> (r: bool)
    ensures
        r == is_queue_size(size),
{
    proof {
        lemma_queue_size(size);
    }
    size != 0 && size & (size - 1) == 0
}

proof fn lemma_ring_bits(x: u16, s: u16, size: u16)
    by (bit_vector)
    requires
        size > 0,
        size & ((size - 1) as u16) == 0,
        s < size,
    ensures
        x & ((size - 1) as u16) < size,
        size <= 0x8000,
        ((if x == 0xffffu16 { 0u16 } else { (x + 1) as u16 }) & ((size - 1) as u16)) == (if (x & ((size - 1) as u16)) + 1 == size {
            0u16
        } else {
            ((x & ((size - 1) as u16)) + 1) as u16
        }),
        (((s + 1) as u16) & ((size - 1) as u16)) == (if s + 1 == size { 0u16 } else { (s + 1) as u16 }),
        s & ((size - 1) as u16) == s,
{
}

/// A split-ring virtqueue: the descriptor table, the available ring that
/// the driver fills and the used ring that the device fills, with the
/// buffers that are queued, each in the slot of its descriptor.
pub struct Virtqueue {
    mem: Buffer,
    size: u16,
    descriptor: Vec<VirtqueueDescriptor>,
    avail_flags: u16,
    avail_idx: u16,
    avail_ring: Vec<u16>,
    used_flags: u16,
    used_idx: u16,
    used_ring: Vec<VirtqueueUsedElement>,
    buffers: Vec<Option<Buffer>>,
    free_head: u16,
    last_used_idx: u16,
    is_indirect: bool,
}

impl Virtqueue {
    pub closed spec fn view(&self) -> VirtqueueView {
        VirtqueueView {
            size: self.size,
            is_indirect: self.is_indirect,
            base_addr: self.mem.address(),
            region_len: self.mem.size(),
            descriptors: self.descriptor@,
            avail_flags: self.avail_flags,
            avail_idx: self.avail_idx,
            avail_ring: self.avail_ring@,
            used_flags: self.used_flags,
            used_idx: self.used_idx,
            used_ring: self.used_ring@,
            buffers: self.buffers@,
            free_head: self.free_head,
            last_used_idx: self.last_used_idx,
        }
    }

    /// The invariant of a virtqueue.
    pub closed spec fn wf(&self) -> bool {
        self@.wf() && self.mem.wf()
    }

    pub proof fn lemma_wf(&self)
        requires
            self.wf(),
        ensures
            self@.wf(),
    {
    }

    /// Makes an empty queue of `size` slots. The device is asked to
    /// interrupt when it has used a buffer only if `used_interrupt` is set.
    pub fn new(size: u16, is_indirect: bool, used_interrupt: bool) -> (r: Virtqueue)
        requires
            is_queue_size(size),
        ensures
            r.wf(),
            r@.size == size,
            r@.is_indirect == is_indirect,
            r@.avail_flags == (if used_interrupt { 0u16 } else { 1u16 }),
            r@.used_flags == 0,
            r@.avail_idx == 0,
            r@.used_idx == 0,
            r@.last_used_idx == 0,
            r@.free_head == 0,
            r@.descriptors == Seq::new(size as nat, |i: int| VirtqueueDescriptor { addr: 0, len: 0, flags: 0, next: 0 }),
            r@.avail_ring == Seq::new(size as nat, |i: int| 0u16),
            r@.used_ring == Seq::new(size as nat, |i: int| VirtqueueUsedElement { id: 0, len: 0 }),
            r@.buffers == Seq::new(size as nat, |i: int| None::<Buffer>),
            r@.base_addr != 0,
            r@.base_addr % 4096 == 0,
            r@.region_len == queue_region_len(size),
            r@.base_addr + r@.region_len <= usize::MAX,
    {
        proof {
            lemma_queue_size(size);
        }
        let align: usize = QUEUE_ALIGN;
        let n: usize = size as usize;
        let alloc_size: usize = ((16 * n + 3 * 2 + 2 * n - 1) / align + 1) * align + ((3 * 2 + 8 * n - 1) / align
            + 1) * align;
        proof {
            lemma_ring_bits(0, 0, size);
            lemma_page_layout(alloc_size);
            assert(alloc_size % 4096 == 0);
        }
        let mem = match Buffer::new(alloc_size, align) {
            Ok(b) => b,
            Err(_) => vstd::pervasive::unreached(),
        };
        proof {
            mem.lemma_wf();
        }
        let mut descriptor: Vec<VirtqueueDescriptor> = Vec::new();
        let mut avail_ring: Vec<u16> = Vec::new();
        let mut used_ring: Vec<VirtqueueUsedElement> = Vec::new();
        let mut buffers: Vec<Option<Buffer>> = Vec::new();
        let mut i: usize = 0;
        while i < n
            invariant
                i <= n,
                descriptor@ == Seq::new(i as nat, |i: int| VirtqueueDescriptor { addr: 0, len: 0, flags: 0, next: 0 }),
                avail_ring@ == Seq::new(i as nat, |i: int| 0u16),
                used_ring@ == Seq::new(i as nat, |i: int| VirtqueueUsedElement { id: 0, len: 0 }),
                buffers@ == Seq::new(i as nat, |i: int| None::<Buffer>),
            decreases n - i,
        {
            descriptor.push(VirtqueueDescriptor { addr: 0, len: 0, flags: 0, next: 0 });
            avail_ring.push(0);
            used_ring.push(VirtqueueUsedElement { id: 0, len: 0 });
            buffers.push(None);
            i += 1;
            assert(descriptor@ =~= Seq::new(
                i as nat,
                |i: int| VirtqueueDescriptor { addr: 0, len: 0, flags: 0, next: 0 },
            ));
            assert(avail_ring@ =~= Seq::new(i as nat, |i: int| 0u16));
            assert(used_ring@ =~= Seq::new(i as nat, |i: int| VirtqueueUsedElement { id: 0, len: 0 }));
            assert(buffers@ =~= Seq::new(i as nat, |i: int| None::<Buffer>));
        }
        let r = Virtqueue {
            mem,
            size,
            descriptor,
            avail_flags: if used_interrupt {
                0
            } else {
                1
            },
            avail_idx: 0,
            avail_ring,
            used_flags: 0,
            used_idx: 0,
            used_ring,
            buffers,
            free_head: 0,
            last_used_idx: 0,
            is_indirect,
        };
        proof {
            lemma_ring_bits(0, 0, size);
            let a = r.mem.address();
            assert(a & 0xfffu64 == 0 ==> a % 4096 == 0) by (bit_vector);
        }
        r
    }

    /// The address of the descriptor table.
    pub fn get_descriptor_addr(&self) -> (r: u64)
        ensures
            r == self@.base_addr,
    {
        self.mem.get_address()
    }

    /// The address of the available ring, which follows the descriptor
    /// table.
    pub fn get_avail_addr(&self) -> (r: u64)
        ensures
            r == wrap64(self@.base_addr + 16 * self@.size),
    {
        self.mem.get_address().wrapping_add(16 * (self.size as u64))
    }

    /// The address of the used ring, at the next multiple of the ring
    /// alignment after the available ring.
    pub fn get_used_addr(&self) -> (r: u64)
        ensures
            r == wrap64(self@.base_addr + used_ring_offset(self@.size)),
    {
        let n: u64 = self.size as u64;
        let offset: u64 = ((16 * n + 3 * 2 + 2 * n - 1) / 4096 + 1) * 4096;
        self.mem.get_address().wrapping_add(offset)
    }

    /// The length of the region that holds the three parts of the queue.
    pub fn get_region_size(&self) -> (r: usize)
        ensures
            r == self@.region_len,
    {
        self.mem.get_size()
    }

    pub fn get_size(&self) -> (r: u16)
        ensures
            r == self@.size,
    {
        self.size
    }

    /// The counter of the buffers queued.
    pub fn get_avail_idx(&self) -> (r: u16)
        ensures
            r == self@.avail_idx,
    {
        self.avail_idx
    }

    /// The counter of the buffers that the device is done with.
    pub fn get_used_idx(&self) -> (r: u16)
        ensures
            r == self@.used_idx,
    {
        self.used_idx
    }

    /// The counter of the buffers handed back by `pop`.
    pub fn get_last_used_idx(&self) -> (r: u16)
        ensures
            r == self@.last_used_idx,
    {
        self.last_used_idx
    }

    /// The slot that the next buffer goes to.
    pub fn get_free_head(&self) -> (r: u16)
        ensures
            r == self@.free_head,
    {
        self.free_head
    }

    /// The flags of the available ring: 1 asks the device not to
    /// interrupt.
    pub fn get_avail_flags(&self) -> (r: u16)
        ensures
            r == self@.avail_flags,
    {
        self.avail_flags
    }

    /// The flags of the used ring.
    pub fn get_used_flags(&self) -> (r: u16)
        ensures
            r == self@.used_flags,
    {
        self.used_flags
    }

    /// Whether indirect descriptors were agreed on. None are used.
    pub fn get_indirect(&self) -> (r: bool)
        ensures
            r == self@.is_indirect,
    {
        self.is_indirect
    }

    /// The descriptor of the slot `i`.
    pub fn get_descriptor(&self, i: u16) -> (r: Option<VirtqueueDescriptor>)
        requires
            self.wf(),
        ensures
            r == (if i < self@.size {
                Some(self@.descriptors[i as int])
            } else {
                None
            }),
    {
        if i < self.size {
            Some(self.descriptor[i as usize])
        } else {
            None
        }
    }

    /// The entry `i` of the available ring.
    pub fn get_avail_entry(&self, i: u16) -> (r: Option<u16>)
        requires
            self.wf(),
        ensures
            r == (if i < self@.size {
                Some(self@.avail_ring[i as int])
            } else {
                None
            }),
    {
        if i < self.size {
            Some(self.avail_ring[i as usize])
        } else {
            None
        }
    }

    /// The entry `i` of the used ring.
    pub fn get_used_entry(&self, i: u16) -> (r: Option<VirtqueueUsedElement>)
        requires
            self.wf(),
        ensures
            r == (if i < self@.size {
                Some(self@.used_ring[i as int])
            } else {
                None
            }),
    {
        if i < self.size {
            Some(self.used_ring[i as usize])
        } else {
            None
        }
    }

    /// The buffer that is queued in the slot `i`.
    pub fn get_buffer(&self, i: u16) -> (r: Option<&Buffer>)
        requires
            self.wf(),
        ensures
            match r {
                Some(b) => i < self@.size && self@.buffers[i as int] == Some(*b),
                None => i >= self@.size || self@.buffers[i as int] is None,
            },
    {
        if i < self.size {
            match &self.buffers[i as usize] {
                Some(b) => Some(b),
                None => None,
            }
        } else {
            None
        }
    }
}

impl Virtqueue {
    /// How many buffers can still be queued: the slots that hold no
    /// buffer. A slot is free again once `pop` has handed its buffer back.
    pub fn get_avail_free_size(&self) -> (r: u16)
        requires
            self.wf(),
        ensures
            r == self@.size - self@.pending(),
    {
        let pending: u16 = self.avail_idx.wrapping_sub(self.last_used_idx);
        self.size - pending
    }

    /// Queues `buffer` for the device, which may read it if `device_reads`
    /// is set and write it if not: the buffer gets the descriptor of the
    /// free head, which is entered in the available ring. A queue in which
    /// every slot holds a buffer is full, and is left as it is.
    pub fn push(&mut self, buffer: Buffer, device_reads: bool) -> (r: Result<(), QueueError>)
        requires
            old(self).wf(),
            buffer.wf(),
            buffer.size() <= u32::MAX,
        ensures
            final(self).wf(),
            r is Err <==> old(self)@.pending() == old(self)@.size,
            r is Err ==> r == Err::<(), QueueError>(QueueError::Full),
            r is Err ==> final(self)@ == old(self)@,
            r is Ok ==> final(self)@ == old(self)@.pushed(buffer, device_reads),
    {
        let pending: u16 = self.avail_idx.wrapping_sub(self.last_used_idx);
        if pending >= self.size {
            return Err(QueueError::Full);
        }
        let desc_idx: usize = self.free_head as usize;
        let mask: u16 = self.size - 1;
        proof {
            lemma_ring_bits(self.avail_idx, self.free_head, self.size);
            lemma_ring_bits(self.last_used_idx, self.free_head, self.size);
        }
        let pos: usize = (self.avail_idx & mask) as usize;
        self.avail_ring[pos] = desc_idx as u16;
        self.avail_idx = self.avail_idx.wrapping_add(1);
        let next: u16 = (self.free_head + 1) & mask;
        self.descriptor[desc_idx] = VirtqueueDescriptor {
            addr: buffer.get_address(),
            len: buffer.get_size() as u32,
            flags: if device_reads {
                DESC_DEVICE_READS
            } else {
                DESC_DEVICE_WRITES
            },
            next,
        };
        self.buffers[desc_idx] = Some(buffer);
        self.free_head = next;
        proof {
            assert(self@ =~= old(self)@.pushed(buffer, device_reads));
            lemma_pushed(old(self)@, buffer, device_reads);
        }
        Ok(())
    }

    /// Takes out the buffers that the device is done with, in the order in
    /// which it finished them.
    pub fn pop(&mut self) -> (ret: Vec<Buffer>)
        requires
            old(self).wf(),
        ensures
            final(self).wf(),
            final(self)@ == old(self)@.popped(),
            ret@ == old(self)@.completed_buffers(),
            forall|j: int| 0 <= j < ret@.len() ==> (#[trigger] ret@[j]).wf(),
    {
        let mut ret: Vec<Buffer> = Vec::new();
        let ghost v0 = self@;
        let mask: u16 = self.size - 1;
        while self.last_used_idx != self.used_idx
            invariant
                v0.wf(),
                v0 == old(self)@,
                self.wf(),
                mask == self.size - 1,
                self@ == (VirtqueueView { last_used_idx: self@.last_used_idx, buffers: self@.buffers, ..v0 }),
                ret@.len() == v0.done() - self@.done(),
                self@.pending() == v0.pending() - ret@.len(),
                self@.head() == slot_after(v0.head(), ret@.len() as int, v0.size as int),
                forall|i: int|
                    0 <= i < v0.size ==> #[trigger] self@.buffers[i] == (if slot_offset(v0.head(), i, v0.size as int)
                        < ret@.len() {
                        None
                    } else {
                        v0.buffers[i]
                    }),
                forall|j: int|
                    0 <= j < ret@.len() ==> #[trigger] ret@[j] == v0.buffers[slot_after(
                        v0.head(),
                        j,
                        v0.size as int,
                    )].unwrap(),
            decreases self@.done(),
        {
            let ghost v = self@;
            let ghost k = ret@.len() as int;
            proof {
                lemma_ring_bits(self.last_used_idx, 0, self.size);
            }
            let slot: usize = (self.last_used_idx & mask) as usize;
            assert(v.is_done(slot as int));
            assert(v.is_pending(slot as int));
            let desc_idx: usize = self.used_ring[slot].id as usize;
            let taken = self.buffers[desc_idx].take();
            if let Some(buff) = taken {
                ret.push(buff);
            }
            self.last_used_idx = self.last_used_idx.wrapping_add(1);
            proof {
                let v1 = self@;
                assert(v1.head() == slot_after(v.head(), 1, v.size as int));
                assert(v1.done() == v.done() - 1);
                assert(v1.pending() == v.pending() - 1);
                assert(v0.buffers[slot as int] == v.buffers[slot as int]);
                assert forall|i: int| 0 <= i < v1.size implies ((#[trigger] v1.buffers[i]) is Some <==> v1.is_pending(
                    i,
                )) by {
                    assert(v.buffers[i] is Some <==> v.is_pending(i));
                }
                assert forall|i: int| 0 <= i < v1.size && v1.is_pending(i) implies {
                    &&& (#[trigger] v1.buffers[i]).unwrap().wf()
                    &&& v1.avail_ring[i] == i
                    &&& descriptor_of(v1.descriptors[i], v1.buffers[i].unwrap(), i, v1.size)
                } by {
                    assert(v.is_pending(i));
                    assert(v.buffers[i].unwrap().wf());
                }
                assert forall|i: int| 0 <= i < v1.size && v1.is_done(i) implies (#[trigger] v1.used_ring[i]).id
                    == i by {
                    assert(v.is_done(i));
                }
            }
        }
        proof {
            assert(self@.done() == 0);
            assert(ret@ =~= v0.completed_buffers());
            assert(self@.buffers =~= v0.popped().buffers);
            assert forall|j: int| 0 <= j < ret@.len() implies (#[trigger] ret@[j]).wf() by {
                let i = slot_after(v0.head(), j, v0.size as int);
                assert(v0.is_pending(i));
                assert(v0.buffers[i].unwrap().wf());
            }
        }
        ret
    }

    /// What the device does when it finishes the descriptor `id`: it
    /// writes `written` to the start of the descriptor's buffer, enters the
    /// descriptor and the number of bytes in the used ring, and advances
    /// its counter. The driver hands descriptors out in the order of the
    /// slots and takes them back in that order, so the device is held to
    /// finish them in the order in which it got them. The queue is left as
    /// it is, and `false` returned, where the device holds no buffer, where
    /// `id` is not the descriptor that it has held longest, where the bytes
    /// do not fit, and where it would write to a buffer that it may only
    /// read.
    pub fn complete(&mut self, id: u32, written: &[u8]) -> (r: bool)
        requires
            old(self).wf(),
        ensures
            final(self).wf(),
            r == old(self)@.can_complete(id, written@.len()),
            !r ==> final(self)@ == old(self)@,
            r ==> old(self)@.completes_to(final(self)@, written@),
    {
        let pending: u16 = self.avail_idx.wrapping_sub(self.last_used_idx);
        let done: u16 = self.used_idx.wrapping_sub(self.last_used_idx);
        if done >= pending {
            return false;
        }
        let mask: u16 = self.size - 1;
        proof {
            lemma_ring_bits(self.used_idx, 0, self.size);
            lemma_ring_bits(self.last_used_idx, 0, self.size);
        }
        let slot: usize = (self.used_idx & mask) as usize;
        assert(self@.is_pending(slot as int));
        if id != slot as u32 {
            return false;
        }
        let writable: bool = self.descriptor[slot].flags == DESC_DEVICE_WRITES;
        let room: usize = match self.buffers[slot].as_ref() {
            Some(b) => b.get_size(),
            None => 0,
        };
        let n: usize = written.len();
        if n > room || n > 0xffff_ffff || (n > 0 && !writable) {
            return false;
        }
        let taken = self.buffers[slot].take();
        if let Some(mut b) = taken {
            proof {
                b.lemma_wf();
            }
            b.store(0, written);
            assert(b.region() =~= written@ + old(self)@.buffers[slot as int].unwrap().region().subrange(
                written@.len() as int,
                b.capacity() as int,
            ));
            self.buffers[slot] = Some(b);
        }
        self.used_ring[slot] = VirtqueueUsedElement { id: slot as u32, len: n as u32 };
        self.used_idx = self.used_idx.wrapping_add(1);
        proof {
            let v0 = old(self)@;
            let v1 = self@;
            assert(v1.head() == v0.head());
            assert(v1.pending() == v0.pending());
            assert(v1.done() == v0.done() + 1);
            assert forall|i: int| 0 <= i < v1.size implies ((#[trigger] v1.buffers[i]) is Some <==> v1.is_pending(
                i,
            )) by {
                assert(v0.buffers[i] is Some <==> v0.is_pending(i));
            }
            assert forall|i: int| 0 <= i < v1.size && v1.is_pending(i) implies {
                &&& (#[trigger] v1.buffers[i]).unwrap().wf()
                &&& v1.avail_ring[i] == i
                &&& descriptor_of(v1.descriptors[i], v1.buffers[i].unwrap(), i, v1.size)
            } by {
                assert(v0.is_pending(i));
                assert(v0.buffers[i].unwrap().wf());
                assert(descriptor_of(v0.descriptors[i], v0.buffers[i].unwrap(), i, v0.size));
            }
            assert forall|i: int| 0 <= i < v1.size && v1.is_done(i) implies (#[trigger] v1.used_ring[i]).id
                == i by {
                if i != slot {
                    assert(v0.is_done(i));
                }
            }
        }
        true
    }
}

/// The counters of a queue never part by more than its size, and a slot
/// holds a buffer exactly if its place lies between the counter of the
/// buffers handed back and the counter of the buffers queued. Once `pop`
/// has taken out what the device finished, that is between the device's
/// counter and the counter of the buffers queued.
pub proof fn law_ring_occupancy(v: VirtqueueView)
    requires
        v.wf(),
    ensures
        0 <= v.in_flight() <= v.size,
        v.in_flight() == v.pending() - v.done(),
        forall|i: int| 0 <= i < v.size ==> ((#[trigger] v.buffers[i]) is Some <==> v.is_pending(i)),
        v.done() == 0 ==> forall|i: int|
            0 <= i < v.size ==> ((#[trigger] v.buffers[i]) is Some <==> slot_offset(
                ring_slot(v.used_idx, v.size),
                i,
                v.size as int,
            ) < v.in_flight()),
{
    lemma_ring_bits(v.last_used_idx, 0, v.size);
    assert(v.done() == 0 ==> v.used_idx == v.last_used_idx);
}

proof fn lemma_pushed(v0: VirtqueueView, buffer: Buffer, device_reads: bool)
    requires
        v0.wf(),
        buffer.wf(),
        buffer.size() <= u32::MAX,
        v0.pending() < v0.size,
    ensures
        v0.pushed(buffer, device_reads).wf(),
        v0.pushed(buffer, device_reads).pending() == v0.pending() + 1,
        v0.pushed(buffer, device_reads).done() == v0.done(),
        !v0.is_pending(v0.free_head as int),
{
    let v1 = v0.pushed(buffer, device_reads);
    let slot = v0.free_head as int;
    lemma_ring_bits(v0.avail_idx, v0.free_head, v0.size);
    lemma_ring_bits(v0.last_used_idx, v0.free_head, v0.size);
    assert(v1.head() == v0.head());
    assert(v1.pending() == v0.pending() + 1);
    assert(v1.done() == v0.done());
    assert forall|i: int| 0 <= i < v1.size implies ((#[trigger] v1.buffers[i]) is Some <==> v1.is_pending(i)) by {
        assert(v0.buffers[i] is Some <==> v0.is_pending(i));
    }
    assert forall|i: int| 0 <= i < v1.size && v1.is_pending(i) implies {
        &&& (#[trigger] v1.buffers[i]).unwrap().wf()
        &&& v1.avail_ring[i] == i
        &&& descriptor_of(v1.descriptors[i], v1.buffers[i].unwrap(), i, v1.size)
    } by {
        if i != slot {
            assert(v0.is_pending(i));
            assert(v0.buffers[i].unwrap().wf());
        }
    }
    assert forall|i: int| 0 <= i < v1.size && v1.is_done(i) implies (#[trigger] v1.used_ring[i]).id == i by {
        assert(v0.is_done(i));
    }
}

/// The number of buffers in the first `k` slots.
pub open spec fn buffers_held(buffers: Seq<Option<Buffer>>, k: int) -> int
    decreases k,
{
    if k <= 0 {
        0
    } else {
        buffers_held(buffers, k - 1) + (if buffers[k - 1] is Some {
            1int
        } else {
            0int
        })
    }
}

proof fn lemma_buffers_held(v: VirtqueueView, k: int)
    requires
        v.wf(),
        0 <= k <= v.size,
    ensures
        ({
            let wrapped = v.pending() - v.size + v.head();
            let low = if k < wrapped {
                k
            } else {
                wrapped
            };
            let high = if k < v.head() + v.pending() {
                k
            } else {
                v.head() + v.pending()
            };
            buffers_held(v.buffers, k) == (if low > 0 {
                low
            } else {
                0
            }) + (if high > v.head() {
                high - v.head()
            } else {
                0
            })
        }),
    decreases k,
{
    if k > 0 {
        lemma_buffers_held(v, k - 1);
        assert(v.buffers[k - 1] is Some <==> v.is_pending(k - 1));
    }
}

/// A queue holds exactly the buffers that were queued and not yet handed
/// back: one for each pending slot, and none besides. A buffer has one
/// holder at a time; it passes to the queue with `push` and to the caller
/// with `pop`.
pub proof fn law_buffers_held(v: VirtqueueView)
    requires
        v.wf(),
    ensures
        buffers_held(v.buffers, v.size as int) == v.pending(),
        v.pending() == 0 <==> forall|i: int| 0 <= i < v.size ==> (#[trigger] v.buffers[i]) is None,
{
    lemma_buffers_held(v, v.size as int);
    if v.pending() > 0 {
        assert(v.is_pending(v.head()));
        assert(v.buffers[v.head()] is Some);
    }
}

/// The three parts of a queue lie in its region, one after the other: the
/// descriptor table at its start, the available ring behind the table, and
/// the used ring at the next multiple of the ring alignment. No address
/// of the region wraps.
pub proof fn law_rings_in_region(v: VirtqueueView)
    requires
        v.wf(),
    ensures
        16 * v.size + 4 + 2 * v.size <= used_ring_offset(v.size),
        used_ring_offset(v.size) % 4096 == 0,
        used_ring_offset(v.size) + 4 + 8 * v.size <= v.region_len,
        wrap64(v.base_addr + 16 * v.size) == v.base_addr + 16 * v.size,
        wrap64(v.base_addr + used_ring_offset(v.size)) == v.base_addr + used_ring_offset(v.size),
{
}

/// Queuing a buffer hands it to the queue once: where a slot is free, the
/// buffer stands afterwards in the slot of the old free head, which was
/// empty, every other slot is as it was, and the queue holds one buffer
/// more. The queue takes only buffers whose size a descriptor can hold.
pub proof fn law_push_holds_one_more(v: VirtqueueView, buffer: Buffer, device_reads: bool)
    requires
        v.wf(),
        buffer.wf(),
        buffer.size() <= u32::MAX,
        v.pending() < v.size,
    ensures
        v.pushed(buffer, device_reads).wf(),
        v.buffers[v.free_head as int] is None,
        v.pushed(buffer, device_reads).buffers[v.free_head as int] == Some(buffer),
        forall|i: int|
            0 <= i < v.size && i != v.free_head ==> #[trigger] v.pushed(buffer, device_reads).buffers[i] == v.buffers[i],
        buffers_held(v.pushed(buffer, device_reads).buffers, v.size as int) == buffers_held(v.buffers, v.size as int)
            + 1,
{
    lemma_pushed(v, buffer, device_reads);
    law_buffers_held(v);
    law_buffers_held(v.pushed(buffer, device_reads));
    lemma_ring_bits(v.avail_idx, v.free_head, v.size);
    assert(v.buffers[v.free_head as int] is Some <==> v.is_pending(v.free_head as int));
}

} // verus!
