use urchin::devices::buffer::{Buffer, Error};
use urchin::devices::virtio::{QueueError, Virtqueue, VirtqueueUsedElement};

fn buffer(size: usize) -> Buffer {
    Buffer::new(size, 4096).ok().unwrap()
}

fn finish(q: &mut Virtqueue, written: &[u8]) -> bool {
    let id = (q.get_used_idx() & (q.get_size() - 1)) as u32;
    q.complete(id, written)
}

#[test]
fn a_buffer_is_padded_zeroed_and_aligned() {
    let b = buffer(100);
    assert_eq!(b.get_size(), 100);
    assert_eq!(b.get_capacity(), 4096);
    assert_eq!(b.get_position(), 0);
    assert_eq!(b.get_address() % 4096, 0);
    assert!(b.get_address() != 0);
    assert_eq!(b.get_address(), b.slice().as_ptr() as u64);
    assert_eq!(b.slice().len(), 4096);
    assert!(b.slice().iter().all(|x| *x == 0));
    let c = buffer(4097);
    assert_eq!(c.get_capacity(), 8192);
    let d = buffer(8192);
    assert_eq!(d.get_capacity(), 8192);
    let e = Buffer::new(10, 16).ok().unwrap();
    assert_eq!(e.get_capacity(), 16);
    assert_eq!(e.get_address() % 16, 0);
}

#[test]
fn a_buffer_needs_a_power_of_two_alignment() {
    assert!(matches!(Buffer::new(100, 0), Err(Error::LayoutError)));
    assert!(matches!(Buffer::new(100, 3), Err(Error::LayoutError)));
    assert!(matches!(Buffer::new(100, 4095), Err(Error::LayoutError)));
    assert!(matches!(Buffer::new(usize::MAX, 4096), Err(Error::LayoutError)));
    assert!(Buffer::new(0, 1).is_ok());
}

#[test]
fn the_read_offset_hides_what_lies_before_it() {
    let mut b = buffer(64);
    b.write(0, &[1, 2, 3, 4, 5, 6, 7, 8]);
    assert_eq!(&b.slice()[..8], &[1, 2, 3, 4, 5, 6, 7, 8]);
    let base = b.get_address();
    b.slide_position(3);
    assert_eq!(b.get_address(), base);
    assert_eq!(b.slice().as_ptr() as u64, base + 3);
    assert_eq!(b.get_position(), 3);
    assert_eq!(b.slice().len(), 4093);
    assert_eq!(&b.slice()[..5], &[4, 5, 6, 7, 8]);
    b.write(1, &[0xaa, 0xbb]);
    assert_eq!(&b.slice()[..5], &[4, 0xaa, 0xbb, 7, 8]);
    b.store(0, &[9, 9]);
    assert_eq!(&b.slice()[..2], &[4, 0xaa]);
    b.slide_position(4093);
    assert_eq!(b.slice().len(), 0);
}

#[test]
fn a_new_queue_is_empty_and_laid_out_in_pages() {
    let q = Virtqueue::new(256, false, true);
    assert_eq!(q.get_size(), 256);
    assert_eq!(q.get_avail_idx(), 0);
    assert_eq!(q.get_used_idx(), 0);
    assert_eq!(q.get_last_used_idx(), 0);
    assert_eq!(q.get_free_head(), 0);
    assert_eq!(q.get_avail_flags(), 0);
    assert_eq!(q.get_used_flags(), 0);
    assert_eq!(q.get_avail_free_size(), 256);
    assert!(!q.get_indirect());
    let base = q.get_descriptor_addr();
    assert_eq!(base % 4096, 0);
    assert_eq!(q.get_avail_addr(), base + 16 * 256);
    assert_eq!(q.get_used_addr(), base + 8192);
    let quiet = Virtqueue::new(8, true, false);
    assert_eq!(quiet.get_avail_flags(), 1);
    assert!(quiet.get_indirect());
    assert_eq!(quiet.get_avail_addr(), quiet.get_descriptor_addr() + 128);
    assert_eq!(quiet.get_used_addr(), quiet.get_descriptor_addr() + 4096);
    assert!(quiet.get_descriptor(8).is_none());
    assert!(quiet.get_buffer(0).is_none());
}

#[test]
fn push_installs_one_descriptor() {
    let mut q = Virtqueue::new(4, false, true);
    let tx = buffer(60);
    let tx_addr = tx.get_address();
    assert_eq!(q.push(tx, true), Ok(()));
    let rx = buffer(4096);
    let rx_addr = rx.get_address();
    assert_eq!(q.push(rx, false), Ok(()));
    assert_eq!(q.get_avail_idx(), 2);
    assert_eq!(q.get_free_head(), 2);
    assert_eq!(q.get_avail_free_size(), 2);
    let d0 = q.get_descriptor(0).unwrap();
    assert_eq!(d0.addr, tx_addr);
    assert_eq!(d0.len, 60);
    assert_eq!(d0.flags, 0);
    assert_eq!(d0.next, 1);
    let d1 = q.get_descriptor(1).unwrap();
    assert_eq!(d1.addr, rx_addr);
    assert_eq!(d1.len, 4096);
    assert_eq!(d1.flags, 2);
    assert_eq!(d1.next, 2);
    assert_eq!(q.get_avail_entry(0), Some(0));
    assert_eq!(q.get_avail_entry(1), Some(1));
    assert!(q.get_buffer(0).is_some());
    assert!(q.get_buffer(1).is_some());
    assert!(q.get_buffer(2).is_none());
}

#[test]
fn a_full_queue_takes_no_buffer() {
    let mut q = Virtqueue::new(2, false, true);
    assert_eq!(q.push(buffer(10), true), Ok(()));
    assert_eq!(q.push(buffer(20), true), Ok(()));
    assert_eq!(q.get_avail_free_size(), 0);
    assert_eq!(q.push(buffer(30), true), Err(QueueError::Full));
    assert_eq!(q.get_avail_idx(), 2);
    assert_eq!(q.get_descriptor(0).unwrap().len, 10);
    assert_eq!(q.get_descriptor(1).unwrap().len, 20);
    assert!(finish(&mut q, &[]));
    assert_eq!(q.push(buffer(30), true), Err(QueueError::Full));
    assert_eq!(q.pop().len(), 1);
    assert_eq!(q.push(buffer(30), true), Ok(()));
    assert_eq!(q.get_descriptor(0).unwrap().len, 30);
}

#[test]
fn pop_hands_back_in_the_order_of_completion() {
    let mut q = Virtqueue::new(8, false, true);
    assert_eq!(q.push(buffer(100), false), Ok(()));
    assert_eq!(q.push(buffer(200), false), Ok(()));
    assert_eq!(q.push(buffer(300), false), Ok(()));
    assert!(q.pop().is_empty());
    assert!(finish(&mut q, &[1, 2, 3]));
    assert!(finish(&mut q, &[4, 5]));
    assert_eq!(q.get_used_idx(), 2);
    assert_eq!(q.get_used_entry(0), Some(VirtqueueUsedElement { id: 0, len: 3 }));
    assert_eq!(q.get_used_entry(1), Some(VirtqueueUsedElement { id: 1, len: 2 }));
    let done = q.pop();
    assert_eq!(done.len(), 2);
    assert_eq!(done[0].get_size(), 100);
    assert_eq!(&done[0].slice()[..4], &[1, 2, 3, 0]);
    assert_eq!(done[1].get_size(), 200);
    assert_eq!(&done[1].slice()[..3], &[4, 5, 0]);
    assert_eq!(q.get_last_used_idx(), 2);
    assert!(q.get_buffer(0).is_none());
    assert!(q.get_buffer(1).is_none());
    assert!(q.get_buffer(2).is_some());
    assert!(q.pop().is_empty());
    assert_eq!(q.get_avail_free_size(), 7);
}

#[test]
fn the_device_cannot_finish_what_it_was_not_given() {
    let mut q = Virtqueue::new(4, false, true);
    assert!(!finish(&mut q, &[]));
    assert_eq!(q.push(buffer(8), true), Ok(()));
    assert!(!finish(&mut q, &[1]));
    assert_eq!(q.get_used_idx(), 0);
    assert!(finish(&mut q, &[]));
    assert!(!finish(&mut q, &[]));
    assert_eq!(q.push(buffer(8), false), Ok(()));
    assert!(!finish(&mut q, &[0; 9]));
    assert!(finish(&mut q, &[0; 8]));
    assert_eq!(q.get_used_idx(), 2);
}

#[test]
fn the_counters_run_free_over_sixteen_bits() {
    let mut q = Virtqueue::new(4, false, true);
    let mut n: u32 = 0;
    while n < 70_000 {
        let free = q.get_avail_free_size();
        assert!(free >= 2);
        assert_eq!(q.push(buffer(16), false), Ok(()));
        assert_eq!(q.push(buffer(16), false), Ok(()));
        let in_flight = q.get_avail_idx().wrapping_sub(q.get_used_idx());
        assert!(in_flight <= 4);
        assert!(finish(&mut q, &[n as u8]));
        assert!(finish(&mut q, &[(n >> 8) as u8]));
        let done = q.pop();
        assert_eq!(done.len(), 2);
        assert_eq!(done[0].slice()[0], n as u8);
        assert_eq!(done[1].slice()[0], (n >> 8) as u8);
        n += 1;
    }
    assert_eq!(q.get_avail_idx(), (140_000u32 % 65_536) as u16);
    assert_eq!(q.get_used_idx(), q.get_avail_idx());
    assert_eq!(q.get_free_head(), 0);
    assert_eq!(q.get_avail_free_size(), 4);
}

#[test]
fn a_slot_holds_a_buffer_exactly_while_it_is_pending() {
    let mut q = Virtqueue::new(4, false, true);
    let mut step: u32 = 0;
    while step < 50 {
        let pushes = step % 3 + 1;
        let mut k = 0;
        while k < pushes {
            let _ = q.push(buffer(32), false);
            k += 1;
        }
        if step % 2 == 0 {
            let _ = finish(&mut q, &[]);
        }
        if step % 5 == 0 {
            let _ = q.pop();
        }
        let pending = q.get_avail_idx().wrapping_sub(q.get_last_used_idx());
        assert!(pending <= 4);
        assert!(q.get_avail_idx().wrapping_sub(q.get_used_idx()) <= 4);
        let head = q.get_last_used_idx() & 3;
        let mut i: u16 = 0;
        while i < 4 {
            let offset = (i + 4 - head) & 3;
            assert_eq!(q.get_buffer(i).is_some(), offset < pending);
            i += 1;
        }
        step += 1;
    }
}

#[test]
fn the_device_finishes_descriptors_in_the_order_it_got_them() {
    let mut q = Virtqueue::new(4, false, true);
    assert_eq!(q.push(buffer(8), false), Ok(()));
    assert_eq!(q.push(buffer(8), false), Ok(()));
    assert_eq!(q.push(buffer(8), false), Ok(()));
    assert!(!q.complete(1, &[1]));
    assert!(!q.complete(2, &[1]));
    assert!(!q.complete(4, &[1]));
    assert!(!q.complete(0x1_0000, &[1]));
    assert_eq!(q.get_used_idx(), 0);
    assert!(q.pop().is_empty());
    assert!(q.complete(0, &[7]));
    assert!(!q.complete(0, &[8]));
    assert!(!q.complete(2, &[8]));
    assert!(q.complete(1, &[8]));
    assert_eq!(q.get_used_entry(1), Some(VirtqueueUsedElement { id: 1, len: 1 }));
    let done = q.pop();
    assert_eq!(done.len(), 2);
    assert_eq!(done[0].slice()[0], 7);
    assert_eq!(done[1].slice()[0], 8);
    assert!(q.complete(2, &[]));
    assert!(!q.complete(3, &[]));
}

#[test]
fn the_region_of_a_queue_holds_its_three_parts() {
    for (size, used_at, len) in [(1u16, 4096u64, 8192usize), (8, 4096, 8192), (128, 4096, 8192), (256, 8192, 12288), (1024, 20480, 32768), (32768, 593920, 860160)] {
        let q = Virtqueue::new(size, false, true);
        let base = q.get_descriptor_addr();
        assert_ne!(base, 0);
        assert_eq!(base % 4096, 0);
        assert_eq!(q.get_used_addr() - base, used_at);
        assert_eq!(q.get_region_size(), len);
        assert!(used_at as usize + 4 + 8 * size as usize <= len);
    }
}
