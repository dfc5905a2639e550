use urchin::arch::x86_64::apic::{
    apic_base_enabled, disable_irq, enable_irq, get_lapic_id, handler_address, init, ioapic_lines, ioapic_reg_high,
    ioapic_reg_low, timer_initial_count, timer_vector, IDTEntry, IDTRegister,
};
use urchin::arch::x86_64::kvmclock::{
    get_calendar, get_calendar_from_epoch, get_monotonic_time, init_kvmclock, time_info_stable, wall_clock_seconds,
    wall_clock_stable, ClockRegisters, PVClockVcpuTimeInfo, PVClockWallClock,
};
use urchin::arch::x86_64::mptable::{find_mp_table, get_mp_table};
use urchin::bootparams::{get_boot_flag, get_cmdline, get_e820, get_header, get_version, read_u64, E820Entry};
use urchin::devices::serial::{init_serial, is_received, is_transmit_empty, SerialPort, COM1PORT};
use urchin::devices::virtio::mmio::{
    available_features, check_identity, enabled_features_writes, find, parse, queue_size_of, read_decimal, read_hex,
    read_size, status_of, used_ring_interrupt, Error, MmioWindow,
};
use urchin::devices::virtio::net::{features_agreed, is_network_device};
use urchin::devices::virtio::queue_size_usable;
use urchin::ringbuf::RingBuffer;
use urchin::spinlock::RawSpinlock;
use urchin::task::{DummyTask, Task};
use urchin::{bcmp, interrupt_handler, memcmp, memcpy, memmove, memset, VectorAction};

#[test]
fn the_command_line_names_the_devices_in_order() {
    let line = b"console=ttyS0 virtio_mmio.device=4k@0xd0000000:5 virtio_mmio.device=2M@0xD0001000:11 root=/dev/vda";
    assert_eq!(parse(line, 0), Ok(MmioWindow { addr: 0xd000_0000, size: 4096, irq: 5 }));
    assert_eq!(parse(line, 1), Ok(MmioWindow { addr: 0xd000_1000, size: 2 * 1024 * 1024, irq: 11 }));
    assert_eq!(parse(line, 2), Err(Error::NotFound));
    assert_eq!(parse(b"", 0), Err(Error::NotFound));
    assert_eq!(parse(b"virtio_mmio.device=512@0xabc:7", 0), Ok(MmioWindow { addr: 0xabc, size: 512, irq: 7 }));
    assert_eq!(parse(b"virtio_mmio.device=1K@0x10:0 ", 0), Ok(MmioWindow { addr: 0x10, size: 1024, irq: 0 }));
}

#[test]
fn an_entry_needs_all_its_parts() {
    assert_eq!(parse(b"virtio_mmio.device=4k", 0), Err(Error::NotFound));
    assert_eq!(parse(b"virtio_mmio.device=4k@0xd0000000", 0), Err(Error::NotFound));
    assert_eq!(parse(b"virtio_mmio.device=4k@d0000000:5", 0), Err(Error::NotFound));
    assert_eq!(parse(b"virtio_mmio.devic=4k@0xd0000000:5", 0), Err(Error::NotFound));
}

#[test]
fn numbers_that_do_not_fit_are_refused() {
    assert_eq!(parse(b"virtio_mmio.device=4k@0xd0000000:256", 0), Err(Error::OutOfRange));
    assert_eq!(parse(b"virtio_mmio.device=4k@0xd0000000:255", 0).map(|w| w.irq), Ok(255));
    assert_eq!(parse(b"virtio_mmio.device=4k@0x10000000000000000:5", 0), Err(Error::OutOfRange));
    assert_eq!(parse(b"virtio_mmio.device=4k@0xffffffffffffffff:5", 0).map(|w| w.addr), Ok(u64::MAX));
    assert_eq!(parse(b"virtio_mmio.device=99999999999999999999999@0x1:5", 0), Err(Error::OutOfRange));
    assert_eq!(read_size(b"17179869184M", 0, 12), if usize::MAX as u128 > u64::MAX as u128 - 1 { Some(17179869184 << 20) } else { None });
    assert_eq!(read_size(b"17592186044416M", 0, 15), None);
}

#[test]
fn digits_are_read_and_other_characters_passed_over() {
    assert_eq!(read_size(b"4k", 0, 2), Some(4096));
    assert_eq!(read_size(b"4K", 0, 2), Some(4096));
    assert_eq!(read_size(b"3m", 0, 2), Some(3 << 20));
    assert_eq!(read_size(b"1x2", 0, 3), Some(12));
    assert_eq!(read_size(b"12345", 1, 4), Some(234));
    assert_eq!(read_size(b"", 0, 0), Some(0));
    assert_eq!(read_hex(b"dEadBeef", 0, 8), Some(0xdead_beef));
    assert_eq!(read_hex(b"1g2", 0, 3), Some(0x12));
    assert_eq!(read_decimal(b"042", 0, 3), Some(42));
    assert_eq!(read_decimal(b"2a5", 0, 3), Some(25));
    assert_eq!(read_decimal(b"300", 0, 3), None);
    assert_eq!(find(b"abcabc", b"bc", 0), Some(1));
    assert_eq!(find(b"abcabc", b"bc", 2), Some(4));
    assert_eq!(find(b"abcabc", b"bc", 5), None);
    assert_eq!(find(b"abc", b"abcd", 0), None);
}

#[test]
fn a_device_is_known_by_magic_and_version() {
    assert_eq!(check_identity(0x7472_6976, 2), Ok(()));
    assert_eq!(check_identity(0x7472_6976, 1), Err(Error::InvalidDevice));
    assert_eq!(check_identity(0x7472_6977, 2), Err(Error::InvalidDevice));
    assert_eq!(check_identity(0, 0), Err(Error::InvalidDevice));
}

#[test]
fn features_travel_in_two_halves() {
    assert_eq!(available_features(0x1234_5678, 0x9abc_def0), 0x1234_5678_9abc_def0);
    let w = enabled_features_writes(0x1234_5678_9abc_def0);
    assert_eq!((w[0].offset, w[0].value), (0x24, 1));
    assert_eq!((w[1].offset, w[1].value), (0x20, 0x1234_5678));
    assert_eq!((w[2].offset, w[2].value), (0x24, 0));
    assert_eq!((w[3].offset, w[3].value), (0x20, 0x9abc_def0));
    assert_eq!(used_ring_interrupt(0), 0);
    assert_eq!(used_ring_interrupt(1), 1);
    assert_eq!(used_ring_interrupt(2), 0);
    assert_eq!(used_ring_interrupt(0xffff_ffff), 1);
}

#[test]
fn the_epoch_is_the_first_of_january_1970() {
    let c = get_calendar_from_epoch(0);
    assert_eq!((c.year, c.month, c.day, c.hour, c.min, c.sec), (1970, 1, 1, 0, 0, 0));
    let c = get_calendar_from_epoch(86_399);
    assert_eq!((c.year, c.month, c.day, c.hour, c.min, c.sec), (1970, 1, 1, 23, 59, 59));
    let c = get_calendar_from_epoch(86_400);
    assert_eq!((c.year, c.month, c.day), (1970, 1, 2));
}

#[test]
fn leap_days_and_the_days_around_them() {
    let at = |s: u64| {
        let c = get_calendar_from_epoch(s);
        (c.year, c.month, c.day, c.hour, c.min, c.sec)
    };
    assert_eq!(at(951_782_400), (2000, 2, 29, 0, 0, 0));
    assert_eq!(at(951_782_399), (2000, 2, 28, 23, 59, 59));
    assert_eq!(at(951_868_800), (2000, 3, 1, 0, 0, 0));
    assert_eq!(at(1_709_210_096), (2024, 2, 29, 12, 34, 56));
    assert_eq!(at(4_107_456_000), (2100, 2, 28, 0, 0, 0));
    assert_eq!(at(4_107_542_400), (2100, 3, 1, 0, 0, 0));
    assert_eq!(at(68_169_600), (1972, 2, 29, 0, 0, 0));
    assert_eq!(at(1_000_000_000), (2001, 9, 9, 1, 46, 40));
    assert_eq!(at(1_767_225_599), (2025, 12, 31, 23, 59, 59));
    assert_eq!(at(1_767_225_600), (2026, 1, 1, 0, 0, 0));
    assert_eq!(at(13_574_563_200), (2400, 2, 29, 0, 0, 0));
    assert_eq!(at(2_005_949_145_599), (65535, 12, 31, 23, 59, 59));
}

#[test]
fn every_day_follows_the_day_before() {
    let month_days = [31u8, 28, 31, 30, 31, 30, 31, 31, 30, 31, 30, 31];
    let mut prev = get_calendar_from_epoch(0);
    let mut day: u64 = 1;
    while day < 200_000 {
        let c = get_calendar_from_epoch(day * 86_400 + 3_661);
        assert_eq!((c.hour, c.min, c.sec), (1, 1, 1));
        let leap = prev.year % 4 == 0 && (prev.year % 100 != 0 || prev.year % 400 == 0);
        let last = if prev.month == 2 && leap { 29 } else { month_days[prev.month as usize - 1] };
        if prev.day < last {
            assert_eq!((c.year, c.month, c.day), (prev.year, prev.month, prev.day + 1));
        } else if prev.month < 12 {
            assert_eq!((c.year, c.month, c.day), (prev.year, prev.month + 1, 1));
        } else {
            assert_eq!((c.year, c.month, c.day), (prev.year + 1, 1, 1));
        }
        prev = c;
        day += 1;
    }
}

#[test]
fn the_clock_scales_the_timestamp_counter() {
    let mut info = PVClockVcpuTimeInfo::new();
    assert_eq!(info.version, 0);
    assert_eq!(info.tsc_to_system_mul, 0);
    info.tsc_timestamp = 1_000;
    info.tsc_to_system_mul = 0x8000_0000;
    assert_eq!(get_monotonic_time(3_000, &info), 1_000);
    info.tsc_shift = 1;
    assert_eq!(get_monotonic_time(3_000, &info), 2_000);
    info.tsc_shift = -2;
    assert_eq!(get_monotonic_time(3_000, &info), 250);
    info.tsc_shift = 31;
    info.tsc_to_system_mul = 0xffff_ffff;
    info.tsc_timestamp = 0;
    assert_eq!(
        get_monotonic_time(u64::MAX, &info),
        ((((u64::MAX as u128) << 31) * 0xffff_ffffu128) >> 32) as u64
    );
    let wall = PVClockWallClock::new();
    assert_eq!((wall.version, wall.sec, wall.nsec), (0, 0, 0));
    assert_eq!(wall_clock_seconds(10, 999_999_999, 1), 11);
    assert_eq!(wall_clock_seconds(10, 999_999_999, 0), 10);
    let c = get_calendar(951_782_400, 500_000_000, 86_400_500_000_000);
    assert_eq!((c.year, c.month, c.day, c.hour, c.min, c.sec), (2000, 3, 1, 0, 0, 1));
}

#[test]
fn the_clock_is_set_up_by_the_features_of_the_host() {
    assert_eq!(init_kvmclock(0x8), Ok(ClockRegisters { wall_clock: 0x4b56_4d00, system_time: 0x4b56_4d01 }));
    assert_eq!(init_kvmclock(0x9), Ok(ClockRegisters { wall_clock: 0x4b56_4d00, system_time: 0x4b56_4d01 }));
    assert_eq!(init_kvmclock(0x1), Ok(ClockRegisters { wall_clock: 0x11, system_time: 0x12 }));
    assert_eq!(init_kvmclock(0x6), Err(()));
    assert!(time_info_stable(4, 4));
    assert!(time_info_stable(5, 4));
    assert!(!time_info_stable(4, 5));
    assert!(!time_info_stable(4, 6));
    assert!(wall_clock_stable(4, 4));
    assert!(!wall_clock_stable(5, 4));
    assert!(!wall_clock_stable(5, 5));
}

#[test]
fn the_boot_parameters_are_read_least_significant_byte_first() {
    let mut params = vec![0u8; 0x2d0 + 3 * 20];
    params[0x1fe] = 0x55;
    params[0x1ff] = 0xaa;
    params[0x202..0x206].copy_from_slice(b"HdrS");
    params[0x206] = 0x0f;
    params[0x207] = 0x02;
    assert_eq!(get_boot_flag(&params), 0xaa55);
    assert_eq!(get_header(&params), 0x5372_6448);
    assert_eq!(get_version(&params), 0x020f);
    assert_eq!(read_u64(&[1, 2, 3, 4, 5, 6, 7, 8, 9], 1), 0x0908_0706_0504_0302);
    params[0x1e8] = 4;
    params[0x2d0..0x2d8].copy_from_slice(&0x1000u64.to_le_bytes());
    params[0x2d8..0x2e0].copy_from_slice(&0x9_f000u64.to_le_bytes());
    params[0x2e0..0x2e4].copy_from_slice(&1u32.to_le_bytes());
    params[0x2e4..0x2ec].copy_from_slice(&0x10_0000u64.to_le_bytes());
    params[0x2ec..0x2f4].copy_from_slice(&0x3ff0_0000u64.to_le_bytes());
    params[0x2f4..0x2f8].copy_from_slice(&128u32.to_le_bytes());
    let map = get_e820(&params);
    assert_eq!(map.len(), 3);
    assert_eq!(map[0], E820Entry { addr: 0x1000, size: 0x9_f000, entry_type: 1 });
    assert_eq!(map[0].get_addr(), 0x1000);
    assert_eq!(map[0].get_size(), 0x9_f000);
    assert_eq!(map[0].get_entry_type(), 1);
    assert_eq!(map[0].get_entry_type_str(), "USABLE");
    assert_eq!(map[1].get_entry_type_str(), "RESERVER_KERN");
    assert_eq!(map[2].get_entry_type_str(), "unknown");
    let name = |t: u32| E820Entry { addr: 0, size: 0, entry_type: t }.get_entry_type_str();
    assert_eq!((name(2), name(3), name(4), name(5)), ("RESERVED", "ACPI", "NVS", "UNUSABLE"));
}

#[test]
fn the_command_line_ends_at_the_first_zero_byte() {
    assert_eq!(get_cmdline(b"quiet\0rest", 10), Some(&b"quiet"[..]));
    assert_eq!(get_cmdline(b"quiet\0rest", 6), Some(&b"quiet"[..]));
    assert_eq!(get_cmdline(b"quiet\0rest", 5), None);
    assert_eq!(get_cmdline(b"quiet", 100), None);
    assert_eq!(get_cmdline(b"\0", 1), Some(&b""[..]));
    assert_eq!(get_cmdline(b"", 0), None);
}

#[test]
fn the_serial_port_is_set_up_in_seven_writes() {
    let w = init_serial(COM1PORT);
    let pairs: Vec<(u16, u8)> = w.iter().map(|x| (x.port, x.value)).collect();
    assert_eq!(
        pairs,
        vec![(0x3f9, 0x00), (0x3fb, 0x80), (0x3f8, 0x03), (0x3f9, 0x00), (0x3fb, 0x03), (0x3fa, 0xc7), (0x3fc, 0x0b)]
    );
    let port = SerialPort::new(COM1PORT);
    assert_eq!(port.port, 0x3f8);
    assert_eq!(port.status_port(), 0x3fd);
    let b = port.write_byte(0x41);
    assert_eq!((b.port, b.value), (0x3f8, 0x41));
    let s: Vec<(u16, u8)> = port.write_str(b"ok").iter().map(|x| (x.port, x.value)).collect();
    assert_eq!(s, vec![(0x3f8, b'o'), (0x3f8, b'k')]);
    assert!(is_received(0x01) && is_received(0x61) && !is_received(0x60));
    assert!(is_transmit_empty(0x20) && is_transmit_empty(0x61) && !is_transmit_empty(0x41));
}

#[test]
fn interrupt_lines_are_routed_to_their_vectors() {
    assert_eq!(ioapic_reg_low(0), 0x10);
    assert_eq!(ioapic_reg_high(0), 0x11);
    assert_eq!(ioapic_reg_low(5), 0x1a);
    assert_eq!(ioapic_reg_high(119), 0xff);
    let on = enable_irq(5);
    assert_eq!(((on[0].reg, on[0].value), (on[1].reg, on[1].value)), ((0x1b, 0), (0x1a, 53)));
    let off = disable_irq(5);
    assert_eq!(((off[0].reg, off[0].value), (off[1].reg, off[1].value)), ((0x1b, 0), (0x1a, 0x1_0000)));
    assert_eq!(get_lapic_id(0x0700_0000), 7);
    assert_eq!(get_lapic_id(0xff12_3456), 0xff);
    assert_eq!(ioapic_lines(0x0017_0011), 24);
    assert_eq!(timer_vector(), 48 | 0x20000);
    assert_eq!(apic_base_enabled(0xfee0_0123), 0xfee0_0900);
    assert_eq!(timer_initial_count(1_000, 5_001), 2_000_000 * 0xfffff / 4_001);
    assert_eq!(handler_address(0x10_0000, 48), 0x10_0300);
    let w: Vec<(u64, u32)> = init().iter().map(|x| (x.addr, x.value)).collect();
    assert_eq!(
        w,
        vec![
            (0xfee0_00f0, 0x100),
            (0xfee0_0080, 0),
            (0xfee0_00d0, 0x0100_0000),
            (0xfee0_00e0, 0xffff_ffff),
            (0xfee0_0320, 0x1_0000),
            (0xfee0_0370, 0x1_0000),
        ]
    );
}

#[test]
fn a_descriptor_leads_to_its_handler() {
    let mut e = IDTEntry::new();
    assert_eq!((e.offsetl, e.offsetm, e.offseth, e.attribute, e.selector), (0, 0, 0, 0, 0));
    e.set_offset(0x1234_5678_9abc_def0);
    assert_eq!((e.offsetl, e.offsetm, e.offseth), (0xdef0, 0x9abc, 0x1234_5678));
    assert_eq!((e.attribute, e.selector, e.zero, e.zero2), (0x8e, 8, 0, 0));
    let mut r = IDTRegister::new();
    r.set_limit(16 * 256 - 1);
    r.set_base(0xdead_0000);
    assert_eq!((r.limit, r.base), (4095, 0xdead_0000));
}

#[test]
fn vectors_are_exceptions_interrupt_lines_or_nothing() {
    assert_eq!(interrupt_handler(0), VectorAction::Fatal);
    assert_eq!(interrupt_handler(20), VectorAction::Fatal);
    assert_eq!(interrupt_handler(21), VectorAction::Ignore);
    assert_eq!(interrupt_handler(47), VectorAction::Ignore);
    assert_eq!(interrupt_handler(48), VectorAction::Irq(0));
    assert_eq!(interrupt_handler(53), VectorAction::Irq(5));
    assert_eq!(interrupt_handler(255), VectorAction::Irq(207));
}

#[test]
fn the_ring_buffer_is_first_in_first_out() {
    let mut ring: RingBuffer<u32> = RingBuffer::new();
    assert_eq!(ring.len(), 0);
    assert_eq!(ring.get(), None);
    ring.put(7);
    ring.put(8);
    assert_eq!(ring.len(), 2);
    assert_eq!(ring.get(), Some(&7));
    ring.put(9);
    assert_eq!(ring.get(), Some(&8));
    assert_eq!(ring.get(), Some(&9));
    assert_eq!(ring.get(), None);
    let mut lap = 0;
    while lap < 3 {
        let mut n: u32 = 0;
        while n < 9_999 {
            ring.put(n);
            n += 1;
        }
        assert_eq!(ring.len(), 9_999);
        let mut n: u32 = 0;
        while n < 9_999 {
            assert_eq!(ring.get(), Some(&n));
            n += 1;
        }
        assert_eq!(ring.get(), None);
        ring.put(1);
        assert_eq!(ring.get(), Some(&1));
        lap += 1;
    }
}

#[test]
fn the_spinlock_is_taken_by_whoever_finds_it_free() {
    let mut lock = RawSpinlock::new();
    assert!(lock.try_lock());
    assert!(!lock.try_lock());
    assert!(!lock.try_lock());
    lock.unlock();
    lock.lock();
    assert!(!lock.try_lock());
    lock.unlock();
    assert!(lock.try_lock());
}

#[test]
fn a_task_may_run_on_every_processor() {
    let t = DummyTask;
    assert_eq!(t.get_cpu_affinity_mask(), 0xffff_ffff_ffff_ffff);
    t.exec();
}

#[test]
fn memory_is_compared_set_copied_and_moved() {
    assert_eq!(memcmp(&[1, 2, 3], &[1, 2, 4], 3), -1);
    assert_eq!(memcmp(&[1, 2, 3], &[1, 2, 4], 2), 0);
    assert_eq!(memcmp(&[0xff, 0], &[0x01, 9], 2), 0xfe);
    assert_eq!(memcmp(&[], &[], 0), 0);
    assert_eq!(bcmp(&[5, 6], &[5, 6], 2), 0);
    assert_eq!(bcmp(&[5, 6], &[5, 7], 2), -1);
    let mut m = [9u8; 6];
    memset(&mut m, 0x1_41, 4);
    assert_eq!(m, [0x41, 0x41, 0x41, 0x41, 9, 9]);
    memcpy(&mut m, &[1, 2, 3], 2);
    assert_eq!(m, [1, 2, 0x41, 0x41, 9, 9]);
    let mut a = [1u8, 2, 3, 4, 5, 6, 7, 8];
    memmove(&mut a, 2, 0, 5);
    assert_eq!(a, [1, 2, 1, 2, 3, 4, 5, 8]);
    let mut b = [1u8, 2, 3, 4, 5, 6, 7, 8];
    memmove(&mut b, 0, 2, 5);
    assert_eq!(b, [3, 4, 5, 6, 7, 6, 7, 8]);
    let mut c = [1u8, 2, 3];
    memmove(&mut c, 1, 1, 2);
    assert_eq!(c, [1, 2, 3]);
}

#[test]
fn the_multiprocessor_table_is_searched_and_counted() {
    let mut memory = vec![0u8; 64];
    assert_eq!(find_mp_table(&memory, 64), None);
    memory[33..37].copy_from_slice(b"_MP_");
    assert_eq!(find_mp_table(&memory, 64), None);
    memory[48..52].copy_from_slice(b"_MP_");
    assert_eq!(find_mp_table(&memory, 64), Some(48));
    assert_eq!(find_mp_table(&memory, 48), None);
    memory[16..20].copy_from_slice(b"_MP_");
    assert_eq!(find_mp_table(&memory, 64), Some(16));
    let mut entries = Vec::new();
    entries.extend_from_slice(&[0u8; 20]);
    entries.extend_from_slice(&[1, 0, 0, 0, 0, 0, 0, 0]);
    let mut cpu = [0u8; 20];
    cpu[1] = 1;
    entries.extend_from_slice(&cpu);
    entries.extend_from_slice(&[2, 0, 0, 0, 0, 0, 0, 0]);
    entries.extend_from_slice(&[3, 0, 0, 0, 0, 0, 0, 0]);
    entries.extend_from_slice(&cpu);
    assert_eq!(get_mp_table(&entries), 3);
    assert_eq!(get_mp_table(&[]), 0);
    assert_eq!(get_mp_table(&[0]), 1);
    assert_eq!(get_mp_table(&[4, 0, 0, 0, 0, 0, 0, 0, 0]), 1);
}

#[test]
fn what_a_device_answers_decides_whether_it_is_driven() {
    assert_eq!(queue_size_of(0x0001_0100), 0x0100);
    assert_eq!(queue_size_of(0xffff_ffff), 0xffff);
    assert_eq!(queue_size_of(8), 8);
    assert_eq!(status_of(0x0000_010b), 0x0b);
    assert_eq!(status_of(0xffff_ff00), 0);
    assert!(is_network_device(1));
    assert!(!is_network_device(0) && !is_network_device(2) && !is_network_device(0x101));
    assert!(features_agreed(false, 0x0b) && features_agreed(false, 0x08) && features_agreed(true, 0x03));
    assert!(!features_agreed(false, 0x03) && !features_agreed(false, 0xf7));
    let mut size: u32 = 0;
    while size <= 0xffff {
        assert_eq!(queue_size_usable(size as u16), size.count_ones() == 1);
        size += 1;
    }
}
