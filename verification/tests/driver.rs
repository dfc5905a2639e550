use std::cell::RefCell;
use std::rc::Rc;
use urchin::devices::buffer::Buffer;
use urchin::devices::netif::{Error, Netif};
use urchin::devices::virtio::mmio::{Error as MmioError, VirtioMMIO, VolatileMemory};
use urchin::devices::virtio::net::{generate_macaddress, NetFeatures, VirtioNet, DRIVER_FEATURES};
use urchin::devices::virtio::{VirtioDevice, Virtqueue};
use urchin::interrupt::{InterruptWork, Interruptable};
use urchin::net::ethernet::MacAddress;

const BASE: u64 = 0xd000_0000;

struct State {
    magic: u32,
    version: u32,
    device_type: u32,
    features: u64,
    features_sel: u32,
    status: u32,
    sticky_mask: u32,
    config: [u8; 6],
    queue_sizes: [u32; 3],
    selected: u32,
    isr: u32,
    writes: Vec<(u64, u32)>,
}

#[derive(Clone)]
struct FakeMemory {
    state: Rc<RefCell<State>>,
}

impl FakeMemory {
    fn new(features: u64, queue_sizes: [u32; 3]) -> FakeMemory {
        FakeMemory {
            state: Rc::new(RefCell::new(State {
                magic: 0x7472_6976,
                version: 2,
                device_type: 1,
                features,
                features_sel: 0,
                status: 0,
                sticky_mask: 0xff,
                config: [0x52, 0x54, 0x00, 0x12, 0x34, 0x56],
                queue_sizes,
                selected: 0,
                isr: 0,
                writes: Vec::new(),
            })),
        }
    }

    fn writes(&self) -> Vec<(u64, u32)> {
        self.state.borrow().writes.clone()
    }

    fn raise(&self) {
        self.state.borrow_mut().isr = 1;
    }
}

impl VolatileMemory for FakeMemory {
    fn read_u32(&self, addr: u64) -> u32 {
        let s = self.state.borrow();
        match addr - BASE {
            0x000 => s.magic,
            0x004 => s.version,
            0x008 => s.device_type,
            0x010 => {
                if s.features_sel == 1 {
                    (s.features >> 32) as u32
                } else {
                    s.features as u32
                }
            },
            0x034 => s.queue_sizes[s.selected as usize],
            0x044 => 0,
            0x060 => s.isr,
            0x070 => s.status,
            _ => 0,
        }
    }

    fn write_u32(&mut self, addr: u64, value: u32) {
        let mut s = self.state.borrow_mut();
        let offset = addr - BASE;
        s.writes.push((offset, value));
        match offset {
            0x014 => s.features_sel = value,
            0x030 => s.selected = value,
            0x064 => s.isr = s.isr & !value,
            0x070 => s.status = value & s.sticky_mask,
            _ => {},
        }
    }

    fn read_u8(&self, addr: u64) -> u8 {
        self.state.borrow().config[(addr - BASE - 0x100) as usize]
    }
}

const CMDLINE: &str = "console=ttyS0 virtio_mmio.device=4k@0xd0000000:5 quiet";

fn device(memory: &FakeMemory) -> VirtioMMIO<FakeMemory> {
    VirtioMMIO::new(CMDLINE, 0, memory.clone()).ok().unwrap()
}

fn bring_up(id: usize, features: u64, queue_sizes: [u32; 3], tsc: u64) -> (FakeMemory, Option<VirtioNet<VirtioMMIO<FakeMemory>>>) {
    let memory = FakeMemory::new(features, queue_sizes);
    let net = VirtioNet::new(id, device(&memory), tsc);
    (memory, net)
}

fn finish(net: &mut VirtioNet<VirtioMMIO<FakeMemory>>, queue: u32, written: &[u8]) -> bool {
    let id = match net.get_queue(queue) {
        Some(q) => (q.get_used_idx() & (q.get_size() - 1)) as u32,
        None => 0,
    };
    net.complete(queue, id, written)
}

fn queue_setup(idx: u32, q: &Virtqueue) -> Vec<(u64, u32)> {
    vec![
        (0x030, idx),
        (0x038, q.get_size() as u32),
        (0x080, q.get_descriptor_addr() as u32),
        (0x084, (q.get_descriptor_addr() >> 32) as u32),
        (0x090, q.get_avail_addr() as u32),
        (0x094, (q.get_avail_addr() >> 32) as u32),
        (0x0a0, q.get_used_addr() as u32),
        (0x0a4, (q.get_used_addr() >> 32) as u32),
        (0x044, 1),
    ]
}

#[test]
fn the_driver_offers_its_features() {
    assert_eq!(DRIVER_FEATURES, 0x3000_0000 | 0x1_AEA3);
    assert_eq!(
        DRIVER_FEATURES,
        (1 << 28) | (1 << 29) | 1 | (1 << 1) | (1 << 5) | (1 << 7) | (1 << 9) | (1 << 10) | (1 << 11) | (1 << 13)
            | (1 << 15) | (1 << 16)
    );
}

#[test]
fn features_are_read_bit_by_bit() {
    let none = NetFeatures::from_bits(0);
    assert!(!none.csum && !none.guest_csum && !none.mac && !none.guest_tso4 && !none.guest_ecn);
    assert!(!none.guest_ufo && !none.host_tso4 && !none.host_ecn && !none.mergeable_rxbufs && !none.status);
    assert_eq!(none.rx_buffer_size(), 4096);
    let f = NetFeatures::from_bits(0x20 | 0x8000);
    assert!(f.mac && f.mergeable_rxbufs && !f.csum && !f.guest_tso4 && !f.guest_ufo);
    assert_eq!(f.rx_buffer_size(), 4096);
    assert_eq!(NetFeatures::from_bits(0x8000 | 0x80).rx_buffer_size(), 17 * 4096);
    assert_eq!(NetFeatures::from_bits(0x8000 | 0x400).rx_buffer_size(), 17 * 4096);
    assert_eq!(NetFeatures::from_bits(0x80 | 0x400).rx_buffer_size(), 4096);
    let all = NetFeatures::from_bits(0x1_AEA3);
    assert!(all.csum && all.guest_csum && all.mac && all.guest_tso4 && all.guest_ecn);
    assert!(all.guest_ufo && all.host_tso4 && all.host_ecn && all.mergeable_rxbufs && all.status);
    let other = NetFeatures::from_bits(!0x1_AEA3u64);
    assert_eq!(other, none);
}

#[test]
fn an_address_is_made_up_from_the_timestamp_counter() {
    let m = generate_macaddress(0x0102_0304_0506_0708);
    assert_eq!(m.get_array(), [0x00, 0x16, 0x3e, 0x08 ^ 0x03 ^ 0x06, 0x01 ^ 0x04 ^ 0x07, 0x02 ^ 0x05 ^ 0x08]);
    assert_eq!(generate_macaddress(0).get_array(), [0x00, 0x16, 0x3e, 0, 0, 0]);
}

#[test]
fn the_transport_checks_magic_and_version() {
    let memory = FakeMemory::new(0, [8, 8, 8]);
    let dev = device(&memory);
    assert_eq!(dev.get_addr(), 0xd000_0000);
    assert_eq!(dev.get_size(), 4096);
    assert_eq!(VirtioDevice::get_irq(&dev), 5);
    assert_eq!(dev.get_type(), 1);
    assert!(!dev.is_legacy());
    assert!(!dev.get_shm(0, 0, 0));
    assert!(memory.writes().is_empty());
    memory.state.borrow_mut().magic = 0x7472_6977;
    assert!(matches!(VirtioMMIO::new(CMDLINE, 0, memory.clone()), Err(MmioError::InvalidDevice)));
    memory.state.borrow_mut().magic = 0x7472_6976;
    memory.state.borrow_mut().version = 1;
    assert!(matches!(VirtioMMIO::new(CMDLINE, 0, memory.clone()), Err(MmioError::InvalidDevice)));
    assert!(matches!(VirtioMMIO::new(CMDLINE, 1, memory.clone()), Err(MmioError::NotFound)));
}

#[test]
fn the_transport_reads_and_writes_its_registers() {
    let memory = FakeMemory::new(0x0123_4567_89ab_cdef, [8, 4, 2]);
    let mut dev = device(&memory);
    assert_eq!(dev.get_available_features(), 0x0123_4567_89ab_cdef);
    assert_eq!(memory.writes(), vec![(0x014, 1), (0x014, 0)]);
    dev.set_enabled_features(0x1122_3344_5566_7788);
    assert_eq!(memory.writes()[2..], [(0x024, 1), (0x020, 0x1122_3344), (0x024, 0), (0x020, 0x5566_7788)]);
    dev.select_queue(1);
    assert_eq!(dev.get_queue_size(), 4);
    dev.select_queue(2);
    assert_eq!(dev.get_queue_size(), 2);
    let q = Virtqueue::new(2, false, true);
    let before = memory.writes().len();
    dev.setup_queue(&q);
    dev.activate_queue(2);
    dev.kick_queue(2);
    let mut expected = queue_setup(2, &q);
    expected.remove(0);
    expected.push((0x050, 2));
    assert_eq!(memory.writes()[before..], expected[..]);
    dev.set_status(0x0b);
    assert_eq!(dev.get_status(), 0x0b);
    assert_eq!(memory.writes().last(), Some(&(0x070, 0x0b)));
    assert_eq!(dev.read_config(0), 0x52);
    assert_eq!(dev.read_config(5), 0x56);
    assert_eq!(dev.read_and_ack_isr(), 0);
    assert_eq!(memory.writes().last(), Some(&(0x064, 0)));
    memory.state.borrow_mut().isr = 3;
    assert_eq!(dev.read_and_ack_isr(), 1);
    assert_eq!(memory.writes().last(), Some(&(0x064, 3)));
    assert_eq!(memory.state.borrow().isr, 0);
    dev.set_indirect_buf_cap(true);
    assert!(dev.get_indirect_buf_cap());
    assert!(!dev.get_event_idx_cap());
    dev.set_event_idx_cap(true);
    dev.set_indirect_buf_cap(false);
    assert!(dev.get_event_idx_cap());
    assert!(!dev.get_indirect_buf_cap());
}

#[test]
fn bring_up_follows_the_strict_order() {
    let (memory, net) = bring_up(3, 0xffff_ffff_ffff_ffff, [8, 4, 2], 0);
    let net = net.unwrap();
    assert_eq!(net.get_id(), 3);
    assert_eq!(net.get_drivername(), "virtio-net");
    let rx = net.get_queue(0).unwrap();
    let tx = net.get_queue(1).unwrap();
    let cx = net.get_queue(2).unwrap();
    let mut expected = vec![
        (0x070, 0),
        (0x070, 0x01),
        (0x070, 0x03),
        (0x014, 1),
        (0x014, 0),
        (0x024, 1),
        (0x020, 0),
        (0x024, 0),
        (0x020, 0x3001_AEA3),
        (0x070, 0x0b),
    ];
    expected.extend(queue_setup(0, rx));
    expected.extend(queue_setup(1, tx));
    expected.extend(queue_setup(2, cx));
    expected.push((0x050, 0));
    expected.push((0x070, 0x0f));
    assert_eq!(memory.writes(), expected);
    assert!(net.get_device().get_indirect_buf_cap());
    assert!(net.get_device().get_event_idx_cap());
    let a = net.get_answers();
    assert_eq!(a.device_type, 1);
    assert_eq!(a.features, 0xffff_ffff_ffff_ffff);
    assert!(!a.legacy);
    assert_eq!((a.status_reset, a.status_acknowledged, a.status_negotiated), (0x00, 0x01, 0x03));
    assert_eq!((a.status_features_ok, a.status_ready), (0x0b, 0x0b));
    assert_eq!(a.config, [0x52, 0x54, 0x00, 0x12, 0x34, 0x56]);
    assert_eq!(rx.get_avail_flags(), 0);
    assert_eq!(tx.get_avail_flags(), 1);
    assert_eq!(cx.get_avail_flags(), 0);
    assert!(rx.get_indirect() && tx.get_indirect() && cx.get_indirect());
}

#[test]
fn bring_up_fills_a_third_of_the_receive_queue() {
    let (_, net) = bring_up(0, 0x20, [256, 256, 64], 0);
    let net = net.unwrap();
    let rx = net.get_queue(0).unwrap();
    assert_eq!(rx.get_size(), 256);
    assert_eq!(rx.get_avail_idx(), 85);
    assert_eq!(rx.get_avail_free_size(), 171);
    let d = rx.get_descriptor(84).unwrap();
    assert_eq!(d.flags, 2);
    assert_eq!(d.len, 4096);
    assert_eq!(d.addr % 4096, 0);
    assert!(rx.get_buffer(84).is_some());
    assert!(rx.get_buffer(85).is_none());
    assert_eq!(net.get_queue(1).unwrap().get_avail_idx(), 0);
    assert_eq!(net.get_queue(2).unwrap().get_avail_idx(), 0);
    assert!(net.get_queue(3).is_none());
    let (_, big) = bring_up(0, 0x8000 | 0x80, [8, 8, 8], 0);
    let big = big.unwrap();
    assert_eq!(big.get_queue(0).unwrap().get_descriptor(0).unwrap().len, 17 * 4096);
    assert_eq!(big.get_queue(0).unwrap().get_avail_idx(), 2);
}

#[test]
fn the_address_comes_from_the_device_if_it_has_one() {
    let (_, with) = bring_up(0, 0x20, [8, 8, 8], 0x1111);
    let with = with.unwrap();
    assert_eq!(with.get_macaddress().get_array(), [0x52, 0x54, 0x00, 0x12, 0x34, 0x56]);
    assert!(with.get_features().mac);
    assert!(!with.get_device().get_indirect_buf_cap());
    let (_, without) = bring_up(0, 0x1, [8, 8, 8], 0x0102_0304_0506_0708);
    let without = without.unwrap();
    assert_eq!(*without.get_macaddress(), generate_macaddress(0x0102_0304_0506_0708));
    assert_eq!(without.get_answers().config, [0; 6]);
    assert_eq!(without.get_answers().features, 0x1);
    assert!(!without.get_features().mac);
    assert!(without.get_features().csum);
}

#[test]
fn only_offered_features_are_accepted() {
    let (memory, net) = bring_up(0, 0xffff_ffff_0000_0000 | 0x4 | 0x20, [8, 8, 8], 0);
    let net = net.unwrap();
    assert_eq!(memory.writes()[5..9], [(0x024, 1), (0x020, 0), (0x024, 0), (0x020, 0x20)]);
    assert_eq!(net.get_features(), NetFeatures::from_bits(0x20));
}

#[test]
fn there_is_no_driver_for_another_kind_of_device() {
    let memory = FakeMemory::new(0, [8, 8, 8]);
    memory.state.borrow_mut().device_type = 2;
    assert!(VirtioNet::new(0, device(&memory), 0).is_none());
    assert!(memory.writes().is_empty());
}

#[test]
fn there_is_no_driver_if_features_ok_does_not_stick() {
    let memory = FakeMemory::new(0x20, [8, 8, 8]);
    memory.state.borrow_mut().sticky_mask = !0x08;
    assert!(VirtioNet::new(0, device(&memory), 0).is_none());
}

#[test]
fn there_is_no_driver_for_a_queue_size_that_is_no_power_of_two() {
    assert!(bring_up(0, 0x20, [8, 6, 8], 0).1.is_none());
    assert!(bring_up(0, 0x20, [0, 8, 8], 0).1.is_none());
    assert!(bring_up(0, 0x20, [8, 8, 3], 0).1.is_none());
    assert!(bring_up(0, 0x20, [1, 1, 1], 0).1.is_some());
}

#[test]
fn pre_xmit_leaves_room_for_the_device_header() {
    let (_, net) = bring_up(0, 0x20, [8, 8, 8], 0);
    let net = net.unwrap();
    let b: Buffer = net.pre_xmit(42).ok().unwrap();
    assert_eq!(b.get_size(), 54);
    assert_eq!(b.get_position(), 12);
    assert_eq!(b.get_address() % 4096, 0);
    assert!(b.slice().len() >= 42);
    assert!(b.slice().iter().all(|x| *x == 0));
    assert!(net.pre_xmit(usize::MAX).is_err());
    assert!(net.pre_xmit(usize::MAX - 12).is_err());
}

#[test]
fn xmit_queues_for_the_device_and_kicks() {
    let (memory, net) = bring_up(0, 0x20, [8, 2, 8], 0);
    let mut net = net.unwrap();
    let before = memory.writes().len();
    let mut b = net.pre_xmit(3).ok().unwrap();
    b.write(0, &[7, 8, 9]);
    let addr = b.get_address();
    assert_eq!(net.xmit(b), Ok(()));
    assert_eq!(memory.writes()[before..], [(0x050, 1)]);
    let tx = net.get_queue(1).unwrap();
    assert_eq!(tx.get_avail_idx(), 1);
    let d = tx.get_descriptor(0).unwrap();
    assert_eq!(d.addr, addr);
    assert_eq!(d.len, 15);
    assert_eq!(d.flags, 0);
    assert_eq!(&tx.get_buffer(0).unwrap().slice()[..3], &[7, 8, 9]);
}

#[test]
fn xmit_fails_while_the_device_holds_every_slot() {
    let (memory, net) = bring_up(0, 0x20, [8, 2, 8], 0);
    let mut net = net.unwrap();
    assert_eq!(net.xmit(net.pre_xmit(10).ok().unwrap()), Ok(()));
    assert_eq!(net.xmit(net.pre_xmit(10).ok().unwrap()), Ok(()));
    let kicks = memory.writes().len();
    assert_eq!(net.xmit(net.pre_xmit(10).ok().unwrap()), Err(Error::TransmitError));
    assert_eq!(memory.writes().len(), kicks);
    assert!(finish(&mut net, 1, &[]));
    assert_eq!(net.xmit(net.pre_xmit(10).ok().unwrap()), Ok(()));
    assert_eq!(net.get_queue(1).unwrap().get_avail_idx(), 3);
    assert_eq!(net.get_queue(1).unwrap().get_last_used_idx(), 1);
}

#[test]
fn an_interrupt_without_cause_delivers_nothing() {
    let (memory, net) = bring_up(0, 0x20, [8, 8, 8], 0);
    let mut net = net.unwrap();
    assert!(finish(&mut net, 0, &[0; 64]));
    let before = memory.writes().len();
    let batch = net.receive();
    assert!(batch.is_empty());
    assert_eq!(memory.writes()[before..], [(0x064, 0)]);
    assert_eq!(net.get_queue(0).unwrap().get_last_used_idx(), 0);
}

#[test]
fn received_frames_come_without_the_device_header() {
    let (memory, net) = bring_up(4, 0x20, [8, 8, 8], 0);
    let mut net = net.unwrap();
    let mut first = vec![0u8; 12];
    first.extend_from_slice(&[0xde, 0xad, 0xbe, 0xef]);
    let mut second = vec![0u8; 12];
    second.extend_from_slice(&[1, 2, 3]);
    assert!(finish(&mut net, 0, &first));
    assert!(finish(&mut net, 0, &second));
    assert!(!finish(&mut net, 0, &second));
    assert!(!finish(&mut net, 7, &second));
    memory.raise();
    let batch = net.receive();
    assert_eq!(batch.len(), 2);
    assert_eq!(batch[0].get_netif(), 4);
    assert_eq!(batch[0].get_buffer().get_position(), 12);
    assert_eq!(&batch[0].get_buffer().slice()[..5], &[0xde, 0xad, 0xbe, 0xef, 0]);
    assert_eq!(&batch[1].get_buffer().slice()[..4], &[1, 2, 3, 0]);
    assert_eq!(batch[1].get_buffer().slice().len(), 4084);
    assert_eq!(net.get_queue(0).unwrap().get_last_used_idx(), 2);
}

#[test]
fn the_receive_queue_is_refilled_above_the_threshold() {
    let (memory, net) = bring_up(0, 0x20, [256, 8, 8], 0);
    let mut net = net.unwrap();
    assert_eq!(net.get_queue(0).unwrap().get_avail_idx(), 85);
    let before = memory.writes().len();
    memory.raise();
    let batch = net.receive();
    assert!(batch.is_empty());
    assert_eq!(net.get_queue(0).unwrap().get_avail_idx(), 85 + 170);
    assert_eq!(net.get_queue(0).unwrap().get_avail_free_size(), 1);
    assert_eq!(memory.writes()[before..], [(0x064, 1), (0x050, 0)]);
    let (memory, net) = bring_up(0, 0x20, [32, 8, 8], 0);
    let mut net = net.unwrap();
    let before = memory.writes().len();
    memory.raise();
    let _ = net.receive();
    assert_eq!(net.get_queue(0).unwrap().get_avail_idx(), 10);
    assert_eq!(memory.writes()[before..], [(0x064, 1)]);
}

#[test]
fn the_driver_serves_its_interrupt_line() {
    let (memory, net) = bring_up(0, 0x20, [8, 8, 8], 0);
    let mut net = net.unwrap();
    assert_eq!(Interruptable::get_irq(&net), 5);
    assert_eq!(net.irq_line(), 5);
    let mut frame = vec![0u8; 12];
    frame.extend_from_slice(&[9, 9]);
    assert!(finish(&mut net, 0, &frame));
    memory.raise();
    match net.interrupt_handler(0) {
        InterruptWork::Frames(batch) => {
            assert_eq!(batch.len(), 1);
            assert_eq!(&batch[0].get_buffer().slice()[..2], &[9, 9]);
        },
        _ => panic!("frames expected"),
    }
    let mac: MacAddress = *net.get_macaddress();
    assert_eq!(mac.get_array(), [0x52, 0x54, 0x00, 0x12, 0x34, 0x56]);
    net.recv();
}

#[test]
fn the_causes_decide_what_is_done() {
    let (memory, net) = bring_up(2, 0x20, [64, 8, 8], 0);
    let mut net = net.unwrap();
    let mut frame = vec![0u8; 12];
    frame.extend_from_slice(&[4, 5, 6]);
    assert!(finish(&mut net, 0, &frame));
    let before = memory.writes().len();
    assert!(net.serve_causes(0).is_empty());
    assert_eq!(net.get_queue(0).unwrap().get_last_used_idx(), 0);
    assert_eq!(net.get_queue(0).unwrap().get_avail_idx(), 21);
    assert_eq!(memory.writes().len(), before);
    let batch = net.serve_causes(1);
    assert_eq!(batch.len(), 1);
    assert_eq!(batch[0].get_netif(), 2);
    assert_eq!(&batch[0].get_buffer().slice()[..3], &[4, 5, 6]);
    assert_eq!(net.get_queue(0).unwrap().get_last_used_idx(), 1);
    assert_eq!(net.get_queue(0).unwrap().get_avail_idx(), 21 + 42);
    assert_eq!(memory.writes()[before..], [(0x050, 0)]);
    assert!(net.serve_causes(0x80).is_empty());
    assert_eq!(memory.writes().len(), before + 1);
}

#[test]
fn a_completion_out_of_order_is_refused() {
    let (_, net) = bring_up(0, 0x20, [8, 8, 8], 0);
    let mut net = net.unwrap();
    assert!(!net.complete(0, 1, &[0; 16]));
    assert!(!net.complete(3, 0, &[0; 16]));
    assert!(net.complete(0, 0, &[0; 16]));
    assert!(!net.complete(0, 0, &[0; 16]));
    assert!(net.complete(0, 1, &[0; 16]));
    assert!(!net.complete(0, 2, &[0; 16]));
}

#[test]
fn the_causes_are_read_and_acknowledged() {
    let (memory, net) = bring_up(0, 0x20, [8, 8, 8], 0);
    let mut net = net.unwrap();
    let before = memory.writes().len();
    assert_eq!(net.acknowledge(), 0);
    assert_eq!(memory.writes()[before..], [(0x064, 0)]);
    memory.raise();
    assert_eq!(net.acknowledge(), 1);
    assert_eq!(memory.writes()[before..], [(0x064, 0), (0x064, 1)]);
    assert_eq!(net.acknowledge(), 0);
    assert_eq!(net.get_queue(0).unwrap().get_last_used_idx(), 0);
}
