//! The virtio network driver: bring-up, receive refill, transmission and
//! the hand-over of received frames.

use vstd::prelude::*;
use crate::devices::buffer;
use crate::devices::buffer::{Buffer, layout_ok};
use crate::devices::netif;
use crate::devices::netif::Netif;
use crate::devices::virtio::{
    DESC_DEVICE_WRITES, DeviceCommand, QUEUE_ALIGN, VirtioDevice, Virtqueue, VirtqueueView, lemma_page_layout,
    queue_size_usable,
    refilled, ring_distance,
};
use crate::net::{
    DataFromNetif, FrameView, ProcessingNode, RequestView, TransmitRequest, frames_of, frames_queued_on, interface_macs,
    requests_of, reversed,
};
use crate::net::ethernet::{EthernetIn, ethernet_in_requests, ethernet_in_tables};
use crate::net::fib::{ForwardingTables, ForwardingTablesView};
use crate::net::ethernet::MacAddress;

verus! {

/// The alignment of packet buffers.
pub const ALIGN: usize = 4096;

/// The length of the header that stands before every frame in a buffer of
/// the device.
pub const NET_HEADER_LEN: usize = 12;

/// The index of the receive queue.
pub const RX_QUEUE: u32 = 0;

/// The index of the transmit queue.
pub const TX_QUEUE: u32 = 1;

/// The index of the control queue.
pub const CONTROL_QUEUE: u32 = 2;

/// The status bit by which the driver says that it has seen the device.
pub const STATUS_ACKNOWLEDGE: u8 = 0x01;

/// The status bit by which the driver says that it can drive the device.
pub const STATUS_DRIVER: u8 = 0x02;

/// The status bit by which the driver says that it is ready.
pub const STATUS_DRIVER_OK: u8 = 0x04;

/// The status bit by which the features are agreed on.
pub const STATUS_FEATURES_OK: u8 = 0x08;

/// The feature of indirect descriptors.
pub const FEATURE_INDIRECT_DESC: u64 = 0x1000_0000;

/// The feature of the event index.
pub const FEATURE_EVENT_IDX: u64 = 0x2000_0000;

/// The device handles packets with a partial checksum.
pub const FEATURE_CSUM: u64 = 0x00_0001;

/// The driver handles packets with a partial checksum.
pub const FEATURE_GUEST_CSUM: u64 = 0x00_0002;

/// The device has a link-layer address.
pub const FEATURE_MAC: u64 = 0x00_0020;

/// The driver can receive segmented TCP over IPv4.
pub const FEATURE_GUEST_TSO4: u64 = 0x00_0080;

/// The driver can receive segmented TCP with congestion notification.
pub const FEATURE_GUEST_ECN: u64 = 0x00_0200;

/// The driver can receive fragmented UDP.
pub const FEATURE_GUEST_UFO: u64 = 0x00_0400;

/// The device can receive segmented TCP over IPv4.
pub const FEATURE_HOST_TSO4: u64 = 0x00_0800;

/// The device can receive segmented TCP with congestion notification.
pub const FEATURE_HOST_ECN: u64 = 0x00_2000;

/// The driver can merge receive buffers.
pub const FEATURE_MRG_RXBUF: u64 = 0x00_8000;

/// The configuration space has a status field.
pub const FEATURE_STATUS: u64 = 0x01_0000;

/// Every feature that the driver offers to use.
pub const DRIVER_FEATURES: u64 = 0x3001_AEA3;

/// The receive queue is refilled only when more than this many buffers can
/// be queued.
pub const RX_REFILL_THRESHOLD: u16 = 32;

/// The network features that driver and device agreed on.
#[derive(Debug, Copy, Clone, PartialEq, Eq, Structural)]
pub struct NetFeatures {
    pub csum: bool,
    pub guest_csum: bool,
    pub mac: bool,
    pub guest_tso4: bool,
    pub guest_ecn: bool,
    pub guest_ufo: bool,
    pub host_tso4: bool,
    pub host_ecn: bool,
    pub mergeable_rxbufs: bool,
    pub status: bool,
}

/// The features that both sides have: those that the device offers among
/// those that the driver offers.
pub open spec fn accepted_features(device_features: u64) -> u64 {
    device_features & DRIVER_FEATURES
}

/// The network features in a set of feature bits.
pub open spec fn net_features_of(bits: u64) -> NetFeatures {
    NetFeatures {
        csum: bits & FEATURE_CSUM != 0,
        guest_csum: bits & FEATURE_GUEST_CSUM != 0,
        mac: bits & FEATURE_MAC != 0,
        guest_tso4: bits & FEATURE_GUEST_TSO4 != 0,
        guest_ecn: bits & FEATURE_GUEST_ECN != 0,
        guest_ufo: bits & FEATURE_GUEST_UFO != 0,
        host_tso4: bits & FEATURE_HOST_TSO4 != 0,
        host_ecn: bits & FEATURE_HOST_ECN != 0,
        mergeable_rxbufs: bits & FEATURE_MRG_RXBUF != 0,
        status: bits & FEATURE_STATUS != 0,
    }
}

/// The size of a receive buffer: seventeen pages where merged receive
/// buffers and a large-receive feature are in use, one page if not.
pub open spec fn rx_buffer_size_of(features: NetFeatures) -> usize {
    if features.mergeable_rxbufs && (features.guest_tso4 || features.guest_ufo) {
        (17 * 4096) as usize
    } else {
        4096
    }
}

/// The octets of the address that the driver makes up from a reading of
/// the timestamp counter, for a device that has no address of its own.
pub open spec fn generated_mac_octets(tsc: u64) -> Seq<u8> {
    seq![
        0x00u8,
        0x16u8,
        0x3eu8,
        (((tsc >> 0) & 0xff) ^ ((tsc >> 40) & 0xff) ^ ((tsc >> 16) & 0xff)) as u8,
        (((tsc >> 56) & 0xff) ^ ((tsc >> 32) & 0xff) ^ ((tsc >> 8) & 0xff)) as u8,
        (((tsc >> 48) & 0xff) ^ ((tsc >> 24) & 0xff) ^ ((tsc >> 0) & 0xff)) as u8,
    ]
}

impl NetFeatures {
    /// The network features in a set of feature bits.
    pub fn from_bits(bits: u64) -> (r: NetFeatures)
        ensures
            r == net_features_of(bits),
    {
        NetFeatures {
            csum: bits & FEATURE_CSUM != 0,
            guest_csum: bits & FEATURE_GUEST_CSUM != 0,
            mac: bits & FEATURE_MAC != 0,
            guest_tso4: bits & FEATURE_GUEST_TSO4 != 0,
            guest_ecn: bits & FEATURE_GUEST_ECN != 0,
            guest_ufo: bits & FEATURE_GUEST_UFO != 0,
            host_tso4: bits & FEATURE_HOST_TSO4 != 0,
            host_ecn: bits & FEATURE_HOST_ECN != 0,
            mergeable_rxbufs: bits & FEATURE_MRG_RXBUF != 0,
            status: bits & FEATURE_STATUS != 0,
        }
    }

    /// The size of a receive buffer under these features.
    pub fn rx_buffer_size(&self) -> (r: usize)
        ensures
            r == rx_buffer_size_of(*self),
    {
        if self.mergeable_rxbufs && (self.guest_tso4 || self.guest_ufo) {
            17 * ALIGN
        } else {
            ALIGN
        }
    }
}

/// Says whether a device of the kind `device_type` is a network device.
pub fn is_network_device(device_type: u32) -> (r: bool)
    ensures
        r == (device_type == 1),
{
    device_type == 0x01
}

/// Says whether the device has the features agreed on: a legacy device
/// is not asked, and any other has kept `FEATURES_OK` in the status that
/// was read back.
pub fn features_agreed(legacy: bool, status: u8) -> (r: bool)
    ensures
        r == (legacy || status & STATUS_FEATURES_OK == STATUS_FEATURES_OK),
{
    legacy || status & STATUS_FEATURES_OK == STATUS_FEATURES_OK
}

/// Makes up a link-layer address from a reading of the timestamp counter.
pub fn generate_macaddress(tsc: u64) -> (r: MacAddress)
    ensures
        r.octets() == generated_mac_octets(tsc),
        r.wf(),
{
    MacAddress::new(
        [
            0x00,
            0x16,
            0x3e,
            (((tsc >> 0) & 0xff) ^ ((tsc >> 40) & 0xff) ^ ((tsc >> 16) & 0xff)) as u8,
            (((tsc >> 56) & 0xff) ^ ((tsc >> 32) & 0xff) ^ ((tsc >> 8) & 0xff)) as u8,
            (((tsc >> 48) & 0xff) ^ ((tsc >> 24) & 0xff) ^ ((tsc >> 0) & 0xff)) as u8,
        ],
    )
}

/// The invariant of a receive queue: every buffer in it is as it was made,
/// one of the receive buffers whose whole region the device may write.
pub open spec fn rx_queue_inv(q: VirtqueueView, buffer_size: usize) -> bool {
    forall|i: int|
        0 <= i < q.size && q.is_pending(i) ==> {
            &&& (#[trigger] q.buffers[i]).unwrap().position() == 0
            &&& q.buffers[i].unwrap().size() == buffer_size
            &&& q.descriptors[i].flags == DESC_DEVICE_WRITES
        }
}

/// Whether a queue is as `Virtqueue::new` makes it.
pub open spec fn queue_is_new(q: VirtqueueView) -> bool {
    &&& q.avail_idx == 0
    &&& q.used_idx == 0
    &&& q.last_used_idx == 0
    &&& q.free_head == 0
    &&& q.used_flags == 0
    &&& q.buffers == Seq::new(q.size as nat, |i: int| None::<Buffer>)
}

/// Queuing one more buffer keeps what was queued before.
proof fn lemma_refilled_push(v0: VirtqueueView, v: VirtqueueView, buffer: Buffer, k: int)
    requires
        v0.wf(),
        v.wf(),
        0 <= k,
        refilled(v0, v, k),
        v.pending() < v.size,
    ensures
        refilled(v0, v.pushed(buffer, false), k + 1),
{
    let v1 = v.pushed(buffer, false);
    assert(!v.is_pending(v.free_head as int));
    assert(v.pending() == v0.pending() + k);
    assert(ring_distance(v.avail_idx, v0.avail_idx) == k);
    assert(v1.avail_idx == crate::devices::virtio::ring_next(v.avail_idx));
    assert(ring_distance(v1.avail_idx, v0.avail_idx) == k + 1);
    assert(v1.pending() == v0.pending() + k + 1);
    assert forall|i: int| 0 <= i < v0.size && v0.is_pending(i) implies #[trigger] v1.buffers[i] == v0.buffers[i] by {
        assert(v.buffers[i] == v0.buffers[i]);
        assert(v.is_pending(i));
    }
    assert forall|i: int| 0 <= i < v0.size && v0.is_pending(i) implies #[trigger] v1.descriptors[i]
        == v0.descriptors[i] by {
        assert(v.descriptors[i] == v0.descriptors[i]);
        assert(v.buffers[i] == v0.buffers[i]);
        assert(v.is_pending(i));
    }
}

/// Queuing a fresh receive buffer keeps the invariant of the receive queue.
proof fn lemma_rx_inv_push(v: VirtqueueView, buffer: Buffer, buffer_size: usize)
    requires
        v.wf(),
        rx_queue_inv(v, buffer_size),
        v.pending() < v.size,
        buffer.position() == 0,
        buffer.size() == buffer_size,
    ensures
        rx_queue_inv(v.pushed(buffer, false), buffer_size),
{
    let v1 = v.pushed(buffer, false);
    assert forall|i: int| 0 <= i < v1.size && v1.is_pending(i) implies {
        &&& (#[trigger] v1.buffers[i]).unwrap().position() == 0
        &&& v1.buffers[i].unwrap().size() == buffer_size
        &&& v1.descriptors[i].flags == DESC_DEVICE_WRITES
    } by {
        if i != v.free_head {
            assert(v.is_pending(i));
            assert(v.buffers[i].unwrap().position() == 0);
        }
    }
}

/// Queues `count` fresh receive buffers of `buffer_size` bytes.
fn fill_queue(rxq: &mut Virtqueue, count: u16, buffer_size: usize)
    requires
        old(rxq).wf(),
        rx_queue_inv(old(rxq)@, buffer_size),
        old(rxq)@.pending() + count <= old(rxq)@.size,
        buffer_size == 4096 || buffer_size == 17 * 4096,
    ensures
        final(rxq).wf(),
        rx_queue_inv(final(rxq)@, buffer_size),
        refilled(old(rxq)@, final(rxq)@, count as int),
{
    let mut k: u16 = 0;
    proof {
        old(rxq).lemma_wf();
    }
    while k < count
        invariant
            k <= count,
            rxq.wf(),
            old(rxq)@.wf(),
            rx_queue_inv(rxq@, buffer_size),
            refilled(old(rxq)@, rxq@, k as int),
            old(rxq)@.pending() + count <= old(rxq)@.size,
            buffer_size == 4096 || buffer_size == 17 * 4096,
        decreases count - k,
    {
        proof {
            lemma_page_layout(buffer_size);
            rxq.lemma_wf();
        }
        let ghost v = rxq@;
        match Buffer::new(buffer_size, ALIGN) {
            Ok(buffer) => {
                let pushed = rxq.push(buffer, false);
                proof {
                    assert(pushed is Ok);
                    lemma_refilled_push(old(rxq)@, v, buffer, k as int);
                    lemma_rx_inv_push(v, buffer, buffer_size);
                }
            },
            Err(_) => {
                assert(false);
            },
        }
        k += 1;
    }
}

/// What the device answered while it was brought up.
#[derive(Debug, Copy, Clone)]
pub struct BringupAnswers {
    /// The kind of device.
    pub device_type: u32,
    /// The status read after the reset.
    pub status_reset: u8,
    /// The status read after the driver acknowledged the device.
    pub status_acknowledged: u8,
    /// The features that the device offers.
    pub features: u64,
    /// Whether the device follows the legacy interface.
    pub legacy: bool,
    /// The status read after the features were set.
    pub status_negotiated: u8,
    /// The status read back after the driver asked for `FEATURES_OK`.
    pub status_features_ok: u8,
    /// The first six bytes of the configuration space, which are read if
    /// the device has a link-layer address; zeros if they were not read.
    pub config: [u8; 6],
    /// The status read before the driver declared itself ready.
    pub status_ready: u8,
}

/// The commands that set one queue up.
pub open spec fn queue_setup_commands(idx: u32, q: VirtqueueView) -> Seq<DeviceCommand> {
    seq![
        DeviceCommand::SelectQueue(idx),
        DeviceCommand::SetupQueue { size: q.size, base_addr: q.base_addr },
        DeviceCommand::ActivateQueue(idx),
    ]
}

/// The commands of a bring-up, in their order: reset, acknowledge, driver,
/// the accepted features and, but for a legacy device, `FEATURES_OK`; then
/// the receive, transmit and control queues; then the kick of the filled
/// receive queue and `DRIVER_OK`.
pub open spec fn bringup_commands(a: BringupAnswers, rx: VirtqueueView, tx: VirtqueueView, cx: VirtqueueView) -> Seq<
    DeviceCommand,
> {
    seq![
        DeviceCommand::SetStatus(0),
        DeviceCommand::SetStatus(a.status_reset | STATUS_ACKNOWLEDGE),
        DeviceCommand::SetStatus(a.status_acknowledged | STATUS_DRIVER),
        DeviceCommand::SetFeatures(accepted_features(a.features)),
    ] + (if a.legacy {
        Seq::<DeviceCommand>::empty()
    } else {
        seq![DeviceCommand::SetStatus(a.status_negotiated | STATUS_FEATURES_OK)]
    }) + queue_setup_commands(RX_QUEUE, rx) + queue_setup_commands(TX_QUEUE, tx) + queue_setup_commands(
        CONTROL_QUEUE,
        cx,
    ) + seq![DeviceCommand::KickQueue(RX_QUEUE), DeviceCommand::SetStatus(a.status_ready | STATUS_DRIVER_OK)]
}

/// Sets the queue `idx` up with the size that the device offers for it.
/// There is no queue where the device offers a size that is not a power of
/// two.
fn setup_queue<T: VirtioDevice>(dev: &mut T, idx: u32, need_interrupt: bool) -> (r: Option<Virtqueue>)
    ensures
        final(dev).irq_line() == old(dev).irq_line(),
        final(dev).indirect_buf_cap() == old(dev).indirect_buf_cap(),
        final(dev).event_idx_cap() == old(dev).event_idx_cap(),
        match r {
            Some(q) => {
                &&& q.wf()
                &&& queue_is_new(q@)
                &&& q@.is_indirect == old(dev).indirect_buf_cap()
                &&& q@.avail_flags == (if need_interrupt {
                    0u16
                } else {
                    1u16
                })
                &&& final(dev).commands() == old(dev).commands() + queue_setup_commands(idx, q@)
            },
            None => final(dev).commands() == old(dev).commands().push(DeviceCommand::SelectQueue(idx)),
        },
{
    dev.select_queue(idx);
    let size: u16 = dev.get_queue_size();
    if !queue_size_usable(size) {
        return None;
    }
    let queue = Virtqueue::new(size, dev.get_indirect_buf_cap(), need_interrupt);
    dev.setup_queue(&queue);
    dev.activate_queue(idx);
    assert(dev.commands() =~= old(dev).commands() + queue_setup_commands(idx, queue@));
    Some(queue)
}

/// The driver of one virtio network device.
pub struct VirtioNet<T: VirtioDevice> {
    id: usize,
    virtio: T,
    rxq: Virtqueue,
    txq: Virtqueue,
    cxq: Virtqueue,
    macaddr: MacAddress,
    features: NetFeatures,
    answers: BringupAnswers,
    sent: Ghost<Seq<Seq<u8>>>,
}

impl<T: VirtioDevice> VirtioNet<T> {
    /// The device that is driven.
    pub closed spec fn device(&self) -> T {
        self.virtio
    }

    /// The index of the interface.
    pub closed spec fn interface_id(&self) -> usize {
        self.id
    }

    /// The link-layer address of the interface.
    pub closed spec fn address(&self) -> MacAddress {
        self.macaddr
    }

    /// The network features agreed on.
    pub closed spec fn features(&self) -> NetFeatures {
        self.features
    }

    /// What the device answered while it was brought up.
    pub closed spec fn answers(&self) -> BringupAnswers {
        self.answers
    }

    /// The frames that were queued for transmission, oldest first.
    pub closed spec fn frames_sent(&self) -> Seq<Seq<u8>> {
        self.sent@
    }

    /// The receive queue.
    pub closed spec fn rx(&self) -> Virtqueue {
        self.rxq
    }

    /// The transmit queue.
    pub closed spec fn tx(&self) -> Virtqueue {
        self.txq
    }

    /// The control queue.
    pub closed spec fn cx(&self) -> Virtqueue {
        self.cxq
    }

    /// The receive queue as plain values.
    pub open spec fn rx_queue(&self) -> VirtqueueView {
        self.rx()@
    }

    /// The transmit queue as plain values.
    pub open spec fn tx_queue(&self) -> VirtqueueView {
        self.tx()@
    }

    /// The control queue as plain values.
    pub open spec fn control_queue(&self) -> VirtqueueView {
        self.cx()@
    }

    /// The invariant of the driver: its queues are well formed, the
    /// receive queue holds only fresh receive buffers, and its address is
    /// one of 48 bits.
    pub open spec fn inv(&self) -> bool {
        &&& self.rx().wf()
        &&& self.tx().wf()
        &&& self.cx().wf()
        &&& rx_queue_inv(self.rx_queue(), rx_buffer_size_of(self.features()))
        &&& self.address().wf()
    }

    /// Whether this driver is what a bring-up makes of a device to which
    /// the commands `before` had been given, where the device answered `a`
    /// and the timestamp counter read `tsc`.
    pub open spec fn brought_up(&self, before: Seq<DeviceCommand>, a: BringupAnswers, tsc: u64) -> bool {
        let accepted = accepted_features(a.features);
        let rx = self.rx_queue();
        let tx = self.tx_queue();
        let cx = self.control_queue();
        &&& a.device_type == 1
        &&& a.legacy || a.status_features_ok & STATUS_FEATURES_OK == STATUS_FEATURES_OK
        &&& self.device().commands() == before + bringup_commands(a, rx, tx, cx)
        &&& self.device().indirect_buf_cap() == (accepted & FEATURE_INDIRECT_DESC != 0)
        &&& self.device().event_idx_cap() == (accepted & FEATURE_EVENT_IDX != 0)
        &&& self.features() == net_features_of(accepted)
        &&& self.address().octets() == (if self.features().mac {
            a.config@
        } else {
            generated_mac_octets(tsc)
        })
        &&& rx.is_indirect == self.device().indirect_buf_cap()
        &&& tx.is_indirect == self.device().indirect_buf_cap()
        &&& cx.is_indirect == self.device().indirect_buf_cap()
        &&& rx.avail_flags == 0
        &&& tx.avail_flags == 1
        &&& cx.avail_flags == 0
        &&& queue_is_new(tx)
        &&& queue_is_new(cx)
        &&& rx.used_idx == 0
        &&& rx.last_used_idx == 0
        &&& rx.avail_idx == rx.size / 3
        &&& self.frames_sent() == Seq::<Seq<u8>>::empty()
    }

    /// Brings a network device up: reset, feature negotiation, the three
    /// queues, a third of the receive queue filled with fresh buffers, and
    /// `DRIVER_OK`. `tsc` is a reading of the timestamp counter, from which
    /// the address is made up where the device has none. There is no
    /// driver for a device that is no network device, for one that does not keep
    /// `FEATURES_OK`, and for one that offers a queue size that is not a
    /// power of two.
    pub fn new(id: usize, dev: T, tsc: u64) -> (r: Option<VirtioNet<T>>)
        ensures
            r matches Some(net) ==> net.inv(),
            r matches Some(net) ==> net.interface_id() == id,
            r matches Some(net) ==> net.device().irq_line() == dev.irq_line(),
            r matches Some(net) ==> net.brought_up(dev.commands(), net.answers(), tsc),
    {
        let ghost before = dev.commands();
        let mut device = dev;
        let device_type: u32 = device.get_type();
        if !is_network_device(device_type) {
            return None;
        }
        device.set_status(0);
        let status_reset: u8 = device.get_status();
        device.set_status(status_reset | STATUS_ACKNOWLEDGE);
        let status_acknowledged: u8 = device.get_status();
        device.set_status(status_acknowledged | STATUS_DRIVER);
        let dev_features: u64 = device.get_available_features();
        let subset_features: u64 = dev_features & DRIVER_FEATURES;
        device.set_indirect_buf_cap((subset_features & FEATURE_INDIRECT_DESC) != 0);
        device.set_event_idx_cap((subset_features & FEATURE_EVENT_IDX) != 0);
        let features = NetFeatures::from_bits(subset_features);
        device.set_enabled_features(subset_features);
        let legacy: bool = device.is_legacy();
        let mut status_negotiated: u8 = 0;
        let mut status_features_ok: u8 = 0;
        if !legacy {
            status_negotiated = device.get_status();
            device.set_status(status_negotiated | STATUS_FEATURES_OK);
            status_features_ok = device.get_status();
            if !features_agreed(legacy, status_features_ok) {
                return None;
            }
        }
        let mut config: [u8; 6] = [0, 0, 0, 0, 0, 0];
        let macaddr = if !features.mac {
            generate_macaddress(tsc)
        } else {
            let octets: [u8; 6] = [
                device.read_config(0),
                device.read_config(1),
                device.read_config(2),
                device.read_config(3),
                device.read_config(4),
                device.read_config(5),
            ];
            config = octets;
            MacAddress::new(octets)
        };
        let ghost prefix = device.commands();
        let rxq = match setup_queue(&mut device, RX_QUEUE, true) {
            Some(q) => q,
            None => {
                return None;
            },
        };
        let txq = match setup_queue(&mut device, TX_QUEUE, false) {
            Some(q) => q,
            None => {
                return None;
            },
        };
        let cxq = match setup_queue(&mut device, CONTROL_QUEUE, true) {
            Some(q) => q,
            None => {
                return None;
            },
        };
        let mut rxq = rxq;
        let ghost rx_new = rxq@;
        proof {
            rxq.lemma_wf();
        }
        let count: u16 = rxq.get_avail_free_size() / 3;
        fill_queue(&mut rxq, count, features.rx_buffer_size());
        device.kick_queue(RX_QUEUE);
        let status_ready: u8 = device.get_status();
        device.set_status(status_ready | STATUS_DRIVER_OK);
        let answers = BringupAnswers {
            device_type,
            status_reset,
            status_acknowledged,
            features: dev_features,
            legacy,
            status_negotiated,
            status_features_ok,
            config,
            status_ready,
        };
        let net = VirtioNet {
            id,
            virtio: device,
            rxq,
            txq,
            cxq,
            macaddr,
            features,
            answers,
            sent: Ghost(Seq::empty()),
        };
        proof {
            assert(queue_setup_commands(RX_QUEUE, rx_new) == queue_setup_commands(RX_QUEUE, net.rx_queue()));
            assert(net.device().commands() =~= before + bringup_commands(
                answers,
                net.rx_queue(),
                net.tx_queue(),
                net.control_queue(),
            ));
            assert(net.brought_up(before, answers, tsc));
            assert(net.inv());
            assert(net.interface_id() == id);
        }
        Some(net)
    }

    /// Queues fresh receive buffers where more than the threshold can be
    /// queued, one fewer than there is room for, and tells the device.
    fn fill_rx_queue(&mut self)
        requires
            old(self).inv(),
        ensures
            final(self).inv(),
            final(self).interface_id() == old(self).interface_id(),
            final(self).address() == old(self).address(),
            final(self).features() == old(self).features(),
            final(self).answers() == old(self).answers(),
            final(self).tx_queue() == old(self).tx_queue(),
            final(self).control_queue() == old(self).control_queue(),
            final(self).frames_sent() == old(self).frames_sent(),
            final(self).device().irq_line() == old(self).device().irq_line(),
            final(self).device().indirect_buf_cap() == old(self).device().indirect_buf_cap(),
            final(self).device().event_idx_cap() == old(self).device().event_idx_cap(),
            refilled(old(self).rx_queue(), final(self).rx_queue(), rx_refill_count(old(self).rx_queue())),
            final(self).device().commands() == (if rx_refill_count(old(self).rx_queue()) > 0 {
                old(self).device().commands().push(DeviceCommand::KickQueue(RX_QUEUE))
            } else {
                old(self).device().commands()
            }),
    {
        proof {
            self.rxq.lemma_wf();
        }
        let free: u16 = self.rxq.get_avail_free_size();
        if free == 0 {
            return ;
        }
        let size: u16 = free - 1;
        if size > RX_REFILL_THRESHOLD {
            fill_queue(&mut self.rxq, size, self.features.rx_buffer_size());
            self.virtio.kick_queue(RX_QUEUE);
        }
    }

    /// What the device does when it finishes the descriptor `id` of the
    /// queue `queue`, writing `written` to its buffer: see
    /// `Virtqueue::complete`. There is no queue above the control queue.
    pub fn complete(&mut self, queue: u32, id: u32, written: &[u8]) -> (r: bool)
        requires
            old(self).inv(),
        ensures
            final(self).inv(),
            final(self).interface_id() == old(self).interface_id(),
            final(self).address() == old(self).address(),
            final(self).features() == old(self).features(),
            final(self).device() == old(self).device(),
            final(self).answers() == old(self).answers(),
            final(self).frames_sent() == old(self).frames_sent(),
            r == (queue <= CONTROL_QUEUE && old(self).queue(queue).can_complete(id, written@.len())),
            forall|other: u32| other <= CONTROL_QUEUE && (other != queue || !r) ==> final(self).queue(other) == old(
                self,
            ).queue(other),
            r ==> old(self).queue(queue).completes_to(final(self).queue(queue), written@),
    {
        if queue == RX_QUEUE {
            let ghost v0 = self.rxq@;
            proof {
                self.rxq.lemma_wf();
            }
            let r = self.rxq.complete(id, written);
            proof {
                self.rxq.lemma_wf();
                let v1 = self.rxq@;
                let size = rx_buffer_size_of(self.features);
                if r {
                    assert forall|i: int| 0 <= i < v1.size && v1.is_pending(i) implies {
                        &&& (#[trigger] v1.buffers[i]).unwrap().position() == 0
                        &&& v1.buffers[i].unwrap().size() == size
                        &&& v1.descriptors[i].flags == DESC_DEVICE_WRITES
                    } by {
                        assert(v0.is_pending(i));
                        assert(v0.buffers[i].unwrap().position() == 0);
                    }
                }
            }
            r
        } else if queue == TX_QUEUE {
            self.txq.complete(id, written)
        } else if queue == CONTROL_QUEUE {
            self.cxq.complete(id, written)
        } else {
            false
        }
    }

    /// The queue of an index: receive, transmit, control.
    pub open spec fn queue(&self, idx: u32) -> VirtqueueView {
        if idx == RX_QUEUE {
            self.rx_queue()
        } else if idx == TX_QUEUE {
            self.tx_queue()
        } else {
            self.control_queue()
        }
    }
}

impl<T: VirtioDevice> VirtioNet<T> {
    /// Whether `after` is this driver after an interrupt in which the
    /// device reported nothing: the causes were acknowledged and nothing
    /// else was done.
    pub open spec fn idle_interrupt(&self, after: &VirtioNet<T>, batch: Seq<DataFromNetif>) -> bool {
        &&& batch.len() == 0
        &&& after.rx_queue() == self.rx_queue()
        &&& after.device().commands() == self.device().commands().push(DeviceCommand::AckInterrupt)
    }

    /// Whether `after` and `batch` are what serving the receive queue makes
    /// of this driver: the causes acknowledged, the receive queue refilled
    /// and the device told of it, and every buffer that the device had
    /// finished handed over in its order, with the read offset behind the
    /// device's header.
    pub open spec fn served_interrupt(&self, after: &VirtioNet<T>, batch: Seq<DataFromNetif>) -> bool {
        self.served_after(self.device().commands().push(DeviceCommand::AckInterrupt), after, batch)
    }

    /// The frames that the device has finished and that have not been
    /// taken out: each is what its buffer holds behind the device's header.
    pub open spec fn received_frames(&self) -> Seq<FrameView> {
        let finished = self.rx_queue().completed_buffers();
        Seq::new(
            finished.len(),
            |j: int|
                FrameView {
                    netif: self.interface_id(),
                    bytes: finished[j].region().subrange(NET_HEADER_LEN as int, finished[j].capacity() as int),
                },
        )
    }

    /// Whether `after` and `batch` are what serving the receive queue makes
    /// of this driver, where `commands` had been given to the device
    /// before: the receive queue is refilled and the device told of it, and
    /// every buffer that the device had finished is handed over in its
    /// order, with the read offset behind the device's header.
    pub open spec fn served_after(
        &self,
        commands: Seq<DeviceCommand>,
        after: &VirtioNet<T>,
        batch: Seq<DataFromNetif>,
    ) -> bool {
        let rx = self.rx_queue();
        let count = rx_refill_count(rx);
        let finished = rx.completed_buffers();
        &&& rx_served(rx, after.rx_queue())
        &&& frames_of(batch) == self.received_frames()
        &&& after.device().commands() == (if count > 0 {
            commands.push(DeviceCommand::KickQueue(RX_QUEUE))
        } else {
            commands
        })
        &&& batch.len() == finished.len()
        &&& forall|j: int|
            0 <= j < batch.len() ==> {
                &&& (#[trigger] batch[j]).wf()
                &&& batch[j].netif() == self.interface_id()
                &&& batch[j].buffer().position() == NET_HEADER_LEN
                &&& batch[j].buffer().region() == finished[j].region()
                &&& batch[j].buffer().size() == finished[j].size()
            }
    }

    /// What the device answered while it was brought up.
    pub fn get_answers(&self) -> (r: BringupAnswers)
        ensures
            r == self.answers(),
    {
        self.answers
    }

    /// The network features agreed on.
    pub fn get_features(&self) -> (r: NetFeatures)
        ensures
            r == self.features(),
    {
        self.features
    }

    /// The device that is driven.
    pub fn get_device(&self) -> (r: &T)
        ensures
            *r == self.device(),
    {
        &self.virtio
    }

    /// The queue of an index, if there is one.
    pub fn get_queue(&self, idx: u32) -> (r: Option<&Virtqueue>)
        requires
            self.inv(),
        ensures
            r is Some <==> idx <= CONTROL_QUEUE,
            r matches Some(q) ==> q.wf() && q@ == self.queue(idx),
    {
        if idx == RX_QUEUE {
            Some(&self.rxq)
        } else if idx == TX_QUEUE {
            Some(&self.txq)
        } else if idx == CONTROL_QUEUE {
            Some(&self.cxq)
        } else {
            None
        }
    }

    /// The interrupt line of the device.
    pub fn irq_line(&self) -> (r: u8)
        ensures
            r == self.device().irq_line(),
    {
        self.virtio.get_irq()
    }

    /// Serves an interrupt of the device: acknowledges its causes and,
    /// where the device has used a buffer, refills the receive queue and
    /// takes the received frames out, oldest first. The frames are for the
    /// Ethernet ingress stage.
    pub fn receive(&mut self) -> (batch: Vec<DataFromNetif>)
        requires
            old(self).inv(),
        ensures
            final(self).inv(),
            final(self).interface_id() == old(self).interface_id(),
            final(self).address() == old(self).address(),
            final(self).features() == old(self).features(),
            final(self).answers() == old(self).answers(),
            final(self).tx_queue() == old(self).tx_queue(),
            final(self).control_queue() == old(self).control_queue(),
            final(self).frames_sent() == old(self).frames_sent(),
            final(self).device().irq_line() == old(self).device().irq_line(),
            old(self).idle_interrupt(final(self), batch@) || old(self).served_interrupt(final(self), batch@),
    {
        let isr: u8 = self.acknowledge();
        self.serve_causes(isr)
    }

    /// Reads the causes of the device's interrupt and acknowledges them.
    /// The result is what the device answered: 0 if it has used no buffer.
    pub fn acknowledge(&mut self) -> (isr: u8)
        requires
            old(self).inv(),
        ensures
            final(self).inv(),
            final(self).interface_id() == old(self).interface_id(),
            final(self).address() == old(self).address(),
            final(self).features() == old(self).features(),
            final(self).answers() == old(self).answers(),
            final(self).rx() == old(self).rx(),
            final(self).tx() == old(self).tx(),
            final(self).cx() == old(self).cx(),
            final(self).frames_sent() == old(self).frames_sent(),
            final(self).device().irq_line() == old(self).device().irq_line(),
            final(self).device().commands() == old(self).device().commands().push(DeviceCommand::AckInterrupt),
    {
        self.virtio.read_and_ack_isr()
    }

    /// Does what the causes that the device reported ask for. `isr` is
    /// what the device answered when its causes were read: 0 if it has used
    /// no buffer. Then nothing is done. If it has used one, the receive
    /// queue is refilled and the device told of it, and the frames that the
    /// device has finished are taken out, oldest first.
    pub fn serve_causes(&mut self, isr: u8) -> (batch: Vec<DataFromNetif>)
        requires
            old(self).inv(),
        ensures
            final(self).inv(),
            final(self).interface_id() == old(self).interface_id(),
            final(self).address() == old(self).address(),
            final(self).features() == old(self).features(),
            final(self).answers() == old(self).answers(),
            final(self).tx_queue() == old(self).tx_queue(),
            final(self).control_queue() == old(self).control_queue(),
            final(self).frames_sent() == old(self).frames_sent(),
            final(self).device().irq_line() == old(self).device().irq_line(),
            isr == 0 ==> batch@.len() == 0 && final(self).rx_queue() == old(self).rx_queue() && final(self).device()
                == old(self).device(),
            isr != 0 ==> old(self).served_after(old(self).device().commands(), final(self), batch@),
    {
        let mut data: Vec<DataFromNetif> = Vec::new();
        if isr == 0 {
            return data;
        }
        self.fill_rx_queue();
        let ghost mid = self.rxq@;
        let ghost finished = mid.completed_buffers();
        proof {
            self.rxq.lemma_wf();
            old(self).rxq.lemma_wf();
            assert(finished =~= old(self).rx_queue().completed_buffers()) by {
                assert forall|j: int| 0 <= j < finished.len() implies finished[j] == old(
                    self,
                ).rx_queue().completed_buffers()[j] by {
                    let i = crate::devices::virtio::slot_after(mid.head(), j, mid.size as int);
                    assert(old(self).rx_queue().is_pending(i));
                }
            }
            assert forall|j: int| 0 <= j < finished.len() implies (#[trigger] finished[j]).position() == 0
                && finished[j].size() == rx_buffer_size_of(self.features) by {
                let i = crate::devices::virtio::slot_after(mid.head(), j, mid.size as int);
                assert(mid.is_pending(i));
                assert(mid.buffers[i].unwrap().position() == 0);
            }
        }
        let rxdata = self.rxq.pop();
        proof {
            self.rxq.lemma_wf();
            let v1 = self.rxq@;
            let rx = old(self).rx_queue();
            assert forall|i: int| 0 <= i < rx.size && rx.is_pending(i) implies #[trigger] v1.buffers[i] == (if rx.is_done(
                i,
            ) {
                None
            } else {
                rx.buffers[i]
            }) by {
                assert(mid.buffers[i] == rx.buffers[i]);
                assert(mid.is_done(i) == rx.is_done(i));
            }
            assert forall|i: int| 0 <= i < v1.size && v1.is_pending(i) implies {
                &&& (#[trigger] v1.buffers[i]).unwrap().position() == 0
                &&& v1.buffers[i].unwrap().size() == rx_buffer_size_of(self.features)
                &&& v1.descriptors[i].flags == DESC_DEVICE_WRITES
            } by {
                assert(mid.is_pending(i));
                assert(mid.buffers[i].unwrap().position() == 0);
            }
        }
        let mut rest = reversed(rxdata);
        while rest.len() > 0
            invariant
                rest@.len() + data@.len() == finished.len(),
                forall|j: int| 0 <= j < rest@.len() ==> #[trigger] rest@[j] == finished[finished.len() - 1 - j],
                forall|j: int|
                    0 <= j < finished.len() ==> (#[trigger] finished[j]).wf() && finished[j].position() == 0
                        && finished[j].size() == rx_buffer_size_of(self.features),
                forall|j: int|
                    0 <= j < data@.len() ==> {
                        &&& (#[trigger] data@[j]).wf()
                        &&& data@[j].netif() == self.id
                        &&& data@[j].buffer().position() == NET_HEADER_LEN
                        &&& data@[j].buffer().region() == finished[j].region()
                        &&& data@[j].buffer().size() == finished[j].size()
                        &&& data@[j].buffer().capacity() == finished[j].capacity()
                    },
            decreases rest@.len(),
        {
            match rest.pop() {
                Some(pkt) => {
                    let mut pkt = pkt;
                    proof {
                        pkt.lemma_wf();
                    }
                    pkt.slide_position(NET_HEADER_LEN);
                    data.push(DataFromNetif::new(self.id, pkt));
                },
                None => {},
            }
        }
        proof {
            let frames = old(self).received_frames();
            assert(frames_of(data@) =~= frames) by {
                assert forall|j: int| 0 <= j < data@.len() implies frames_of(data@)[j] == frames[j] by {
                    assert(data@[j].frame().bytes =~= frames[j].bytes);
                }
            }
        }
        data
    }
}

impl<T: VirtioDevice> Netif for VirtioNet<T> {
    open spec fn wf(&self) -> bool {
        self.inv()
    }

    open spec fn id(&self) -> usize {
        self.interface_id()
    }

    open spec fn macaddress(&self) -> MacAddress {
        self.address()
    }

    open spec fn header_len(&self) -> nat {
        NET_HEADER_LEN as nat
    }

    open spec fn transmitted(&self) -> Seq<Seq<u8>> {
        self.frames_sent()
    }

    open spec fn can_xmit(&self) -> bool {
        self.tx_queue().in_flight() < self.tx_queue().size
    }

    open spec fn can_allocate(&self, size: usize) -> bool {
        size + NET_HEADER_LEN <= usize::MAX && layout_ok((size + NET_HEADER_LEN) as usize, ALIGN)
    }

    fn pre_xmit(&self, size: usize) -> (r: Result<Buffer, buffer::Error>) {
        match size.checked_add(NET_HEADER_LEN) {
            Some(actual_size) => {
                match Buffer::new(actual_size, ALIGN) {
                    Ok(buffer) => {
                        let mut buffer = buffer;
                        proof {
                            buffer.lemma_wf();
                        }
                        buffer.slide_position(NET_HEADER_LEN);
                        Ok(buffer)
                    },
                    Err(e) => Err(e),
                }
            },
            None => Err(buffer::Error::LayoutError),
        }
    }

    /// Frees the buffers that the device has sent, queues `buffer` for
    /// transmission and tells the device. The frame is not queued where
    /// the device still holds as many buffers as the queue has slots.
    fn xmit(&mut self, buffer: Buffer) -> (r: Result<(), netif::Error>)
        ensures
            final(self).interface_id() == old(self).interface_id(),
            final(self).features() == old(self).features(),
            final(self).answers() == old(self).answers(),
            final(self).address() == old(self).address(),
            final(self).rx_queue() == old(self).rx_queue(),
            final(self).control_queue() == old(self).control_queue(),
            final(self).device().irq_line() == old(self).device().irq_line(),
            r is Err <==> old(self).tx_queue().in_flight() == old(self).tx_queue().size,
            r is Ok ==> final(self).tx_queue() == old(self).tx_queue().popped().pushed(buffer, true)
                && final(self).device().commands() == old(self).device().commands().push(
                DeviceCommand::KickQueue(TX_QUEUE),
            ),
            r is Err ==> final(self).tx_queue() == old(self).tx_queue().popped() && final(self).device().commands()
                == old(self).device().commands(),
    {
        proof {
            self.txq.lemma_wf();
            crate::devices::virtio::law_ring_occupancy(self.txq@);
        }
        let _released = self.txq.pop();
        proof {
            self.txq.lemma_wf();
        }
        match self.txq.push(buffer, true) {
            Ok(_) => {
                self.virtio.kick_queue(TX_QUEUE);
                proof {
                    self.sent@ = self.sent@.push(buffer.payload());
                }
                Ok(())
            },
            Err(_) => Err(netif::Error::TransmitError),
        }
    }

    fn recv(&self) {
    }

    fn get_id(&self) -> (r: usize) {
        self.id
    }

    fn get_macaddress(&self) -> (r: &MacAddress) {
        &self.macaddr
    }

    fn get_drivername(&self) -> (r: &'static str)
        ensures
            r@ == "virtio-net"@,
    {
        "virtio-net"
    }
}

/// Whether `after` is the interface `before` after the frames `sent` were
/// queued on it for transmission: the frames are on record, the device was
/// told of each, and what does not serve transmission is as it was.
pub open spec fn same_but_sent<T: VirtioDevice>(before: VirtioNet<T>, after: VirtioNet<T>, sent: Seq<Seq<u8>>) -> bool {
    &&& after.interface_id() == before.interface_id()
    &&& after.address() == before.address()
    &&& after.features() == before.features()
    &&& after.answers() == before.answers()
    &&& after.rx_queue() == before.rx_queue()
    &&& after.control_queue() == before.control_queue()
    &&& after.device().irq_line() == before.device().irq_line()
    &&& after.frames_sent() == before.frames_sent() + sent
    &&& after.device().commands() == before.device().commands() + tx_kicks(sent.len())
    &&& after.tx_queue().size == before.tx_queue().size
    &&& after.tx_queue().in_flight() == before.tx_queue().in_flight() + sent.len()
}

/// Whether the interface `net` takes a frame of `size` bytes for
/// transmission: a buffer can be made for the frame and its header, a
/// descriptor can hold their length, and the device holds fewer buffers
/// than the transmit queue has slots.
pub open spec fn takes_frame<T: VirtioDevice>(net: VirtioNet<T>, size: nat, held: int) -> bool {
    &&& size + NET_HEADER_LEN <= u32::MAX
    &&& layout_ok((size + NET_HEADER_LEN) as usize, ALIGN)
    &&& held < net.tx_queue().size
}

/// Whether the frame `j` of `requests` is queued, where `outcome` says so
/// of the frames before it and the interfaces were `before` when the first
/// was sent: its interface exists and takes it, the frames queued on that
/// interface before it counted among those that the device holds.
pub open spec fn frame_taken<T: VirtioDevice>(
    before: Seq<VirtioNet<T>>,
    requests: Seq<RequestView>,
    outcome: Seq<bool>,
    j: int,
) -> bool {
    let netif = requests[j].netif as int;
    &&& netif < before.len()
    &&& takes_frame(
        before[netif],
        requests[j].bytes.len(),
        before[netif].tx_queue().in_flight() + frames_queued_on(
            requests.subrange(0, j),
            outcome.subrange(0, j),
            netif,
        ).len(),
    )
}

proof fn lemma_nothing_sent<T: VirtioDevice>(net: VirtioNet<T>)
    ensures
        same_but_sent(net, net, Seq::<Seq<u8>>::empty()),
{
    assert(net.frames_sent() + Seq::<Seq<u8>>::empty() =~= net.frames_sent());
    assert(net.device().commands() + tx_kicks(0) =~= net.device().commands());
}

proof fn lemma_sent_more<T: VirtioDevice>(
    first: VirtioNet<T>,
    second: VirtioNet<T>,
    third: VirtioNet<T>,
    sent: Seq<Seq<u8>>,
    more: Seq<Seq<u8>>,
)
    requires
        same_but_sent(first, second, sent),
        same_but_sent(second, third, more),
    ensures
        same_but_sent(first, third, sent + more),
{
    assert(first.frames_sent() + (sent + more) =~= (first.frames_sent() + sent) + more);
    assert(tx_kicks((sent + more).len()) =~= tx_kicks(sent.len()) + tx_kicks(more.len()));
    assert(first.device().commands() + tx_kicks((sent + more).len()) =~= (first.device().commands() + tx_kicks(
        sent.len(),
    )) + tx_kicks(more.len()));
}

/// The frame of a request as the list of frames that it adds to the
/// record of its interface: the frame if it was queued on the interface
/// `netif`, and nothing if not.
pub open spec fn frame_queued_on(request: RequestView, queued: bool, netif: int) -> Seq<Seq<u8>> {
    if queued && request.netif == netif {
        seq![request.bytes]
    } else {
        Seq::<Seq<u8>>::empty()
    }
}

/// Sends one frame on its interface and says whether it was queued.
fn send_on<T: VirtioDevice>(netifs: &mut Vec<VirtioNet<T>>, request: &TransmitRequest) -> (queued: bool)
    requires
        forall|i: int| 0 <= i < old(netifs)@.len() ==> (#[trigger] old(netifs)@[i]).inv(),
    ensures
        final(netifs)@.len() == old(netifs)@.len(),
        queued <==> request.netif < old(netifs)@.len() && takes_frame(
            old(netifs)@[request.netif as int],
            request.frame@.len(),
            old(netifs)@[request.netif as int].tx_queue().in_flight(),
        ),
        forall|i: int| 0 <= i < final(netifs)@.len() ==> (#[trigger] final(netifs)@[i]).inv(),
        forall|i: int|
            0 <= i < final(netifs)@.len() ==> same_but_sent(
                old(netifs)@[i],
                #[trigger] final(netifs)@[i],
                frame_queued_on(request@, queued, i),
            ),
{
    let netif: usize = request.netif;
    proof {
        assert forall|i: int| 0 <= i < netifs@.len() implies same_but_sent(
            netifs@[i],
            #[trigger] netifs@[i],
            Seq::<Seq<u8>>::empty(),
        ) by {
            lemma_nothing_sent(netifs@[i]);
        }
    }
    if netif >= netifs.len() {
        return false;
    }
    let size: usize = request.frame.len();
    match netifs[netif].pre_xmit(size) {
        Ok(buffer) => {
            let mut buffer = buffer;
            proof {
                buffer.lemma_wf();
            }
            if buffer.get_size() > 0xffff_ffff {
                return false;
            }
            buffer.write(0, request.frame.as_slice());
            proof {
                buffer.lemma_wf();
                assert(buffer.payload() =~= request.frame@);
            }
            let ghost before = netifs@;
            proof {
                crate::devices::virtio::law_ring_occupancy(before[netif as int].tx_queue());
            }
            let sent = netifs[netif].xmit(buffer);
            let queued = sent.is_ok();
            proof {
                let target = netifs@[netif as int];
                let was = before[netif as int];
                crate::devices::virtio::law_ring_occupancy(target.tx_queue());
                if queued {
                    assert(was.frames_sent() + seq![request.frame@] =~= was.frames_sent().push(request.frame@));
                    assert(was.device().commands() + tx_kicks(1) =~= was.device().commands().push(
                        DeviceCommand::KickQueue(TX_QUEUE),
                    ));
                    assert(same_but_sent(was, target, frame_queued_on(request@, queued, netif as int)));
                } else {
                    assert(was.frames_sent() + Seq::<Seq<u8>>::empty() =~= was.frames_sent());
                    assert(was.device().commands() + tx_kicks(0) =~= was.device().commands());
                    assert(same_but_sent(was, target, frame_queued_on(request@, queued, netif as int)));
                }
                assert forall|i: int| 0 <= i < netifs@.len() implies same_but_sent(
                    old(netifs)@[i],
                    #[trigger] netifs@[i],
                    frame_queued_on(request@, queued, i),
                ) by {
                    if i != netif {
                        assert(netifs@[i] == before[i]);
                        lemma_nothing_sent(before[i]);
                    }
                }
            }
            queued
        },
        Err(_) => false,
    }
}

/// Sends the frames of `requests`, first to last, each on its interface,
/// and says of each whether it was queued: see `crate::net::transmit`.
/// Of these interfaces more is known than of any: what each was told, and
/// that its receive side is as it was.
pub fn transmit_frames<T: VirtioDevice>(netifs: &mut Vec<VirtioNet<T>>, requests: Vec<TransmitRequest>) -> (outcome:
    Vec<bool>)
    requires
        forall|i: int| 0 <= i < old(netifs)@.len() ==> (#[trigger] old(netifs)@[i]).inv(),
    ensures
        final(netifs)@.len() == old(netifs)@.len(),
        outcome@.len() == requests@.len(),
        forall|i: int| 0 <= i < final(netifs)@.len() ==> (#[trigger] final(netifs)@[i]).inv(),
        forall|j: int|
            0 <= j < outcome@.len() ==> #[trigger] outcome@[j] == frame_taken(
                old(netifs)@,
                requests_of(requests@),
                outcome@,
                j,
            ),
        forall|i: int|
            0 <= i < final(netifs)@.len() ==> same_but_sent(
                old(netifs)@[i],
                #[trigger] final(netifs)@[i],
                frames_queued_on(requests_of(requests@), outcome@, i),
            ),
{
    let ghost all = requests_of(requests@);
    let ghost count = requests@.len();
    let mut outcome: Vec<bool> = Vec::new();
    let mut rest = reversed(requests);
    proof {
        assert(all.subrange(0, 0) =~= Seq::<RequestView>::empty());
        assert forall|i: int| 0 <= i < netifs@.len() implies same_but_sent(
            old(netifs)@[i],
            #[trigger] netifs@[i],
            frames_queued_on(all.subrange(0, 0), outcome@, i),
        ) by {
            lemma_nothing_sent(netifs@[i]);
        }
    }
    while rest.len() > 0
        invariant
            netifs@.len() == old(netifs)@.len(),
            all == requests_of(requests@),
            count == requests@.len(),
            rest@.len() + outcome@.len() == count,
            forall|j: int| 0 <= j < rest@.len() ==> #[trigger] rest@[j] == requests@[count - 1 - j],
            forall|i: int| 0 <= i < netifs@.len() ==> (#[trigger] netifs@[i]).inv(),
            forall|j: int| 0 <= j < outcome@.len() ==> #[trigger] outcome@[j] == frame_taken(old(netifs)@, all, outcome@, j),
            forall|i: int|
                0 <= i < netifs@.len() ==> same_but_sent(
                    old(netifs)@[i],
                    #[trigger] netifs@[i],
                    frames_queued_on(all.subrange(0, outcome@.len() as int), outcome@, i),
                ),
        decreases rest@.len(),
    {
        let ghost k = outcome@.len() as int;
        let ghost before = netifs@;
        let ghost outcome0 = outcome@;
        match rest.pop() {
            Some(request) => {
                assert(request == requests@[k]);
                let queued = send_on(netifs, &request);
                outcome.push(queued);
                proof {
                    assert(all.subrange(0, k + 1).drop_last() =~= all.subrange(0, k));
                    assert(outcome@.drop_last() =~= outcome0);
                    assert(all.subrange(0, k + 1).last() == request@);
                    assert forall|j: int| 0 <= j < outcome@.len() implies #[trigger] outcome@[j] == frame_taken(
                        old(netifs)@,
                        all,
                        outcome@,
                        j,
                    ) by {
                        if j < k {
                            assert(outcome@.subrange(0, j) =~= outcome0.subrange(0, j));
                            assert(outcome@[j] == outcome0[j]);
                        } else {
                            assert(outcome@.subrange(0, k) =~= outcome0);
                            assert(all[k] == request@);
                            if request.netif < before.len() {
                                assert(same_but_sent(
                                    old(netifs)@[request.netif as int],
                                    before[request.netif as int],
                                    frames_queued_on(all.subrange(0, k), outcome0, request.netif as int),
                                ));
                            }
                        }
                    }
                    assert forall|i: int| 0 <= i < netifs@.len() implies same_but_sent(
                        old(netifs)@[i],
                        #[trigger] netifs@[i],
                        frames_queued_on(all.subrange(0, k + 1), outcome@, i),
                    ) by {
                        let sent0 = frames_queued_on(all.subrange(0, k), outcome0, i);
                        let more = frame_queued_on(request@, queued, i);
                        assert(same_but_sent(old(netifs)@[i], before[i], sent0));
                        assert(same_but_sent(before[i], netifs@[i], more));
                        lemma_sent_more(old(netifs)@[i], before[i], netifs@[i], sent0, more);
                        assert(frames_queued_on(all.subrange(0, k + 1), outcome@, i) =~= sent0 + more);
                    }
                }
            },
            None => {},
        }
    }
    assert(all.subrange(0, count as int) =~= all);
    outcome
}

/// What each device of `netifs` was told so far.
pub open spec fn commands_of<T: VirtioDevice>(netifs: Seq<VirtioNet<T>>) -> Seq<Seq<DeviceCommand>> {
    Seq::new(netifs.len(), |i: int| netifs[i].device().commands())
}

/// Whether the interfaces `after`, the tables `tables_after` and `outcome`
/// are what serving the causes `isr` of the interface `index` makes of the
/// interfaces `before`, whose devices had been told `commands`, and of the
/// tables `tables_before`. If the device has used a buffer, the receive
/// queue of the interface is served and the device told of a refill; the
/// frames received go through the graph of stages; the frames that the
/// graph answers with are sent, each on its interface, as far as the
/// interface takes them, and each device is told of every frame queued on
/// it. Nothing else changes.
pub open spec fn interface_served<T: VirtioDevice>(
    before: Seq<VirtioNet<T>>,
    commands: Seq<Seq<DeviceCommand>>,
    tables_before: ForwardingTablesView,
    index: int,
    isr: u8,
    after: Seq<VirtioNet<T>>,
    tables_after: ForwardingTablesView,
    outcome: Seq<bool>,
) -> bool {
    let frames = if isr == 0 {
        Seq::<FrameView>::empty()
    } else {
        before[index].received_frames()
    };
    let requests = ethernet_in_requests(tables_before, interface_macs(before), frames);
    let refilled = isr != 0 && rx_refill_count(before[index].rx_queue()) > 0;
    &&& tables_after == ethernet_in_tables(tables_before, frames)
    &&& outcome.len() == requests.len()
    &&& after.len() == before.len()
    &&& forall|i: int|
        0 <= i < after.len() ==> (#[trigger] after[i]).frames_sent() == before[i].frames_sent() + frames_queued_on(
            requests,
            outcome,
            i,
        )
    &&& forall|i: int|
        0 <= i < after.len() ==> (#[trigger] after[i]).device().commands() == (if i == index && refilled {
            commands[i].push(DeviceCommand::KickQueue(RX_QUEUE))
        } else {
            commands[i]
        }) + tx_kicks(frames_queued_on(requests, outcome, i).len())
    &&& forall|j: int| 0 <= j < outcome.len() ==> #[trigger] outcome[j] == frame_taken(before, requests, outcome, j)
    &&& forall|i: int| 0 <= i < after.len() ==> (#[trigger] after[i]).control_queue() == before[i].control_queue()
    &&& forall|i: int|
        0 <= i < after.len() && (i != index || isr == 0) ==> (#[trigger] after[i]).rx_queue() == before[i].rx_queue()
    &&& isr != 0 ==> rx_served(before[index].rx_queue(), after[index].rx_queue())
}

/// Serves the causes `isr` that the device of the interface `index`
/// reported: see `interface_served`. The result says of each frame that
/// the graph answered with whether it was queued.
pub fn serve_interface_causes<T: VirtioDevice>(
    netifs: &mut Vec<VirtioNet<T>>,
    index: usize,
    tables: &mut ForwardingTables,
    isr: u8,
) -> (outcome: Vec<bool>)
    requires
        index < old(netifs)@.len(),
        forall|i: int| 0 <= i < old(netifs)@.len() ==> (#[trigger] old(netifs)@[i]).inv(),
        old(tables).wf(),
    ensures
        final(netifs)@.len() == old(netifs)@.len(),
        forall|i: int| 0 <= i < final(netifs)@.len() ==> (#[trigger] final(netifs)@[i]).inv(),
        final(tables).wf(),
        interface_served(
            old(netifs)@,
            commands_of(old(netifs)@),
            old(tables)@,
            index as int,
            isr,
            final(netifs)@,
            final(tables)@,
            outcome@,
        ),
{
    let ghost macs = interface_macs(netifs@);
    let batch = netifs[index].serve_causes(isr);
    let ghost mid = netifs@;
    let ghost received = frames_of(batch@);
    proof {
        assert forall|i: int| 0 <= i < mid.len() && i != index implies mid[i] == old(netifs)@[i] by {}
        assert(interface_macs(mid) =~= macs);
        if isr == 0 {
            assert(received =~= Seq::<FrameView>::empty());
        }
    }
    let requests = EthernetIn::new().process(tables, netifs, batch);
    let ghost wanted = requests_of(requests@);
    let outcome = transmit_frames(netifs, requests);
    proof {
        let before = old(netifs)@;
        let after = netifs@;
        assert forall|i: int| 0 <= i < after.len() implies (#[trigger] after[i]).frames_sent() == before[i].frames_sent()
            + frames_queued_on(wanted, outcome@, i) by {
            assert(same_but_sent(mid[i], after[i], frames_queued_on(wanted, outcome@, i)));
        }
        assert forall|i: int| 0 <= i < after.len() implies (#[trigger] after[i]).control_queue()
            == before[i].control_queue() by {
            assert(same_but_sent(mid[i], after[i], frames_queued_on(wanted, outcome@, i)));
        }
        assert forall|i: int| 0 <= i < after.len() && (i != index || isr == 0) implies (#[trigger] after[i]).rx_queue()
            == before[i].rx_queue() by {
            assert(same_but_sent(mid[i], after[i], frames_queued_on(wanted, outcome@, i)));
        }
        assert forall|i: int| 0 <= i < after.len() implies (#[trigger] after[i]).device().commands() == (if i == index
            && isr != 0 && rx_refill_count(before[index as int].rx_queue()) > 0 {
            commands_of(before)[i].push(DeviceCommand::KickQueue(RX_QUEUE))
        } else {
            commands_of(before)[i]
        }) + tx_kicks(frames_queued_on(wanted, outcome@, i).len()) by {
            assert(same_but_sent(mid[i], after[i], frames_queued_on(wanted, outcome@, i)));
        }
        assert(same_but_sent(mid[index as int], after[index as int], frames_queued_on(wanted, outcome@, index as int)));
        assert forall|j: int| 0 <= j < outcome@.len() implies #[trigger] outcome@[j] == frame_taken(
            before,
            wanted,
            outcome@,
            j,
        ) by {
            assert(outcome@[j] == frame_taken(mid, wanted, outcome@, j));
            let netif = wanted[j].netif as int;
            if netif < mid.len() {
                assert(mid[netif].tx_queue() == before[netif].tx_queue());
            }
        }
    }
    outcome
}

/// Serves an interrupt of the interface `index`: the causes are read
/// and acknowledged, and what the device answered is served as
/// `serve_interface_causes` says.
pub fn serve_interface<T: VirtioDevice>(netifs: &mut Vec<VirtioNet<T>>, index: usize, tables: &mut ForwardingTables) -> (outcome:
    Vec<bool>)
    requires
        index < old(netifs)@.len(),
        forall|i: int| 0 <= i < old(netifs)@.len() ==> (#[trigger] old(netifs)@[i]).inv(),
        old(tables).wf(),
    ensures
        final(netifs)@.len() == old(netifs)@.len(),
        forall|i: int| 0 <= i < final(netifs)@.len() ==> (#[trigger] final(netifs)@[i]).inv(),
        final(tables).wf(),
        exists|isr: u8| #[trigger]
            interface_served(
                old(netifs)@,
                commands_of(old(netifs)@).update(
                    index as int,
                    old(netifs)@[index as int].device().commands().push(DeviceCommand::AckInterrupt),
                ),
                old(tables)@,
                index as int,
                isr,
                final(netifs)@,
                final(tables)@,
                outcome@,
            ),
{
    let isr: u8 = netifs[index].acknowledge();
    let ghost mid = netifs@;
    proof {
        assert forall|i: int| 0 <= i < mid.len() && i != index implies mid[i] == old(netifs)@[i] by {}
        assert(interface_macs(mid) =~= interface_macs(old(netifs)@));
        assert(commands_of(mid) =~= commands_of(old(netifs)@).update(
            index as int,
            old(netifs)@[index as int].device().commands().push(DeviceCommand::AckInterrupt),
        ));
        assert(mid[index as int].received_frames() =~= old(netifs)@[index as int].received_frames());
    }
    let outcome = serve_interface_causes(netifs, index, tables, isr);
    proof {
        assert(interface_served(
            old(netifs)@,
            commands_of(mid),
            old(tables)@,
            index as int,
            isr,
            netifs@,
            tables@,
            outcome@,
        ));
    }
    outcome
}

/// Whether `after` is the receive queue `rx` after it was served: it was
/// refilled, and the buffers that the device had finished were taken out.
/// What the device still holds is as it was.
pub open spec fn rx_served(rx: VirtqueueView, after: VirtqueueView) -> bool {
    &&& after.size == rx.size
    &&& after.used_idx == rx.used_idx
    &&& after.last_used_idx == rx.used_idx
    &&& ring_distance(after.avail_idx, rx.avail_idx) == rx_refill_count(rx)
    &&& after.used_ring == rx.used_ring
    &&& forall|i: int|
        0 <= i < rx.size && rx.is_pending(i) ==> #[trigger] after.buffers[i] == (if rx.is_done(i) {
            None
        } else {
            rx.buffers[i]
        })
}

/// As many kicks of the transmit queue as frames were queued.
pub open spec fn tx_kicks(n: nat) -> Seq<DeviceCommand> {
    Seq::new(n, |j: int| DeviceCommand::KickQueue(TX_QUEUE))
}

/// How many buffers a refill of the receive queue adds: one fewer than
/// there is room for, and none unless that is more than the threshold.
pub open spec fn rx_refill_count(rx: VirtqueueView) -> int {
    let free = rx.size - rx.pending();
    if free - 1 > RX_REFILL_THRESHOLD {
        free - 1
    } else {
        0
    }
}

} // verus!
