//! The paravirtual clock: what the host shares with the guest, how a
//! reading of the timestamp counter becomes nanoseconds, and how seconds
//! since the epoch become a date.

use vstd::prelude::*;
use vstd::arithmetic::div_mod::lemma_fundamental_div_mod_converse;

verus! {

/// The time information that the host keeps up to date for one virtual
/// processor.
#[derive(Debug, Copy, Clone, PartialEq, Eq, Structural)]
pub struct PVClockVcpuTimeInfo {
    pub version: u32,
    pub pad0: u32,
    pub tsc_timestamp: u64,
    pub system_time: u64,
    pub tsc_to_system_mul: u32,
    pub tsc_shift: i8,
    pub flags: u8,
    pub pad1: u16,
}

impl PVClockVcpuTimeInfo {
    pub fn new() -> (r: PVClockVcpuTimeInfo)
        ensures
            r == (PVClockVcpuTimeInfo {
                version: 0,
                pad0: 0,
                tsc_timestamp: 0,
                system_time: 0,
                tsc_to_system_mul: 0,
                tsc_shift: 0,
                flags: 0,
                pad1: 0,
            }),
    {
        PVClockVcpuTimeInfo {
            version: 0,
            pad0: 0,
            tsc_timestamp: 0,
            system_time: 0,
            tsc_to_system_mul: 0,
            tsc_shift: 0,
            flags: 0,
            pad1: 0,
        }
    }
}

/// The wall-clock time at which the guest was started.
#[derive(Debug, Copy, Clone, PartialEq, Eq, Structural)]
pub struct PVClockWallClock {
    pub version: u32,
    pub sec: u32,
    pub nsec: u32,
}

impl PVClockWallClock {
    pub fn new() -> (r: PVClockWallClock)
        ensures
            r == (PVClockWallClock { version: 0, sec: 0, nsec: 0 }),
    {
        PVClockWallClock { version: 0, sec: 0, nsec: 0 }
    }
}

/// The bit of the feature word that announces the clock at its first
/// pair of registers.
pub const KVM_FEATURE_CLOCKSOURCE: u32 = 0;

/// The bit of the feature word that announces the clock at its second
/// pair of registers.
pub const KVM_FEATURE_CLOCKSOURCE2: u32 = 3;

/// The registers through which the guest tells the host where to keep the
/// wall clock and the time information.
#[derive(Debug, Copy, Clone, PartialEq, Eq, Structural)]
pub struct ClockRegisters {
    pub wall_clock: u32,
    pub system_time: u32,
}

/// Which registers the clock is set up through, by the features of the
/// host: the second pair where it is announced, else the first, and none
/// where the host has no clock.
pub fn init_kvmclock(features: u32) -> (r: Result<ClockRegisters, ()>)
    ensures
        r == (if features & 0x8 != 0 {
            Ok::<ClockRegisters, ()>(ClockRegisters { wall_clock: 0x4b56_4d00, system_time: 0x4b56_4d01 })
        } else if features & 0x1 != 0 {
            Ok::<ClockRegisters, ()>(ClockRegisters { wall_clock: 0x11, system_time: 0x12 })
        } else {
            Err::<ClockRegisters, ()>(())
        }),
{
    if (features & 0x8) != 0 {
        Ok(ClockRegisters { wall_clock: 0x4b56_4d00, system_time: 0x4b56_4d01 })
    } else if (features & 0x1) != 0 {
        Ok(ClockRegisters { wall_clock: 0x11, system_time: 0x12 })
    } else {
        Err(())
    }
}

/// Whether a reading of the time information can be used: the host was
/// not writing when the reading ended, and the version is that of the
/// start of the reading.
pub fn time_info_stable(old_version: u32, new_version: u32) -> (r: bool)
    ensures
        r == (new_version & 1 == 0 && new_version == old_version & !1u32),
{
    if new_version & 1 != 0 {
        false
    } else if new_version != (old_version & !1u32) {
        false
    } else {
        true
    }
}

/// Whether a reading of the wall clock can be used: the host was not
/// writing when the reading ended, and the version did not change.
pub fn wall_clock_stable(old_version: u32, new_version: u32) -> (r: bool)
    ensures
        r == (new_version & 1 == 0 && new_version == old_version),
{
    if new_version & 1 != 0 {
        false
    } else if new_version != old_version {
        false
    } else {
        true
    }
}

/// The nanoseconds that the timestamp counter stands for: the ticks since
/// the host's timestamp, shifted, times the multiplier, and of that the
/// part above the low 32 bits.
pub open spec fn scaled_ticks(delta: u64, shift: i8, mul: u32) -> u64 {
    let shifted: u128 = if shift >= 0 {
        (delta as u128) << (shift as u128)
    } else {
        (delta as u128) >> ((-shift) as u128)
    };
    (((shifted * (mul as u128)) as u128) >> 32u128) as u64
}

/// The monotonic time in nanoseconds for the reading `nowtsc` of the
/// timestamp counter. The reading is not before the host's timestamp, and
/// the shift is one of -32 to 31, within which nothing overflows.
pub fn get_monotonic_time(nowtsc: u64, info: &PVClockVcpuTimeInfo) -> (r: u64)
    requires
        nowtsc >= info.tsc_timestamp,
        -32 <= info.tsc_shift <= 31,
    ensures
        r == scaled_ticks((nowtsc - info.tsc_timestamp) as u64, info.tsc_shift, info.tsc_to_system_mul),
{
    let delta: u64 = nowtsc - info.tsc_timestamp;
    let tsc_delta: u128 = delta as u128;
    let shift: i8 = info.tsc_shift;
    let shifted_delta: u128 = if shift >= 0 {
        let amount: u128 = shift as u128;
        assert((tsc_delta << amount) <= 0x7fff_ffff_ffff_ffff_ffff_ffffu128) by (bit_vector)
            requires
                tsc_delta <= 0xffff_ffff_ffff_ffffu128,
                amount <= 31,
        ;
        tsc_delta << amount
    } else {
        let amount: u128 = (-shift) as u128;
        assert((tsc_delta >> amount) <= 0xffff_ffff_ffff_ffffu128) by (bit_vector)
            requires
                tsc_delta <= 0xffff_ffff_ffff_ffffu128,
        ;
        tsc_delta >> amount
    };
    let mul: u128 = info.tsc_to_system_mul as u128;
    assert(shifted_delta * mul <= 0x7fff_ffff_ffff_ffff_ffff_ffffu128 * 0xffff_ffffu128) by (nonlinear_arith)
        requires
            shifted_delta <= 0x7fff_ffff_ffff_ffff_ffff_ffffu128,
            mul <= 0xffff_ffffu128,
    ;
    let product: u128 = shifted_delta * mul;
    #[verifier::truncate]
    ((product >> 32) as u64)
}

/// The seconds since the epoch: the wall-clock time of the start of the
/// guest plus the monotonic time.
pub fn wall_clock_seconds(sec: u32, nsec: u32, monotonic: u64) -> (r: u64)
    requires
        sec * 1_000_000_000 + nsec + monotonic <= u64::MAX,
    ensures
        r == (sec * 1_000_000_000 + nsec + monotonic) / 1_000_000_000,
{
    let nsec_from_epoch: u64 = (sec as u64) * 1_000_000_000 + (nsec as u64) + monotonic;
    nsec_from_epoch / 1_000_000_000
}

/// A date and a time of day.
#[derive(Debug, Copy, Clone, PartialEq, Eq, Structural)]
pub struct CalendarTime {
    pub year: u16,
    pub month: u8,
    pub day: u8,
    pub hour: u8,
    pub min: u8,
    pub sec: u8,
}

/// Whether `y` is a leap year.
pub open spec fn is_leap_year(y: int) -> bool {
    y % 4 == 0 && (y % 100 != 0 || y % 400 == 0)
}

/// The days from the first of January of the year 0 to the first of
/// January of the year `y`.
pub open spec fn days_before_year(y: int) -> int {
    365 * y + (y + 3) / 4 - (y + 99) / 100 + (y + 399) / 400
}

/// The days of the year before the first of the month `m`.
pub open spec fn days_before_month(m: int, leap: bool) -> int {
    let extra: int = if leap && m > 2 {
        1
    } else {
        0
    };
    extra + (if m == 1 {
        0int
    } else if m == 2 {
        31
    } else if m == 3 {
        59
    } else if m == 4 {
        90
    } else if m == 5 {
        120
    } else if m == 6 {
        151
    } else if m == 7 {
        181
    } else if m == 8 {
        212
    } else if m == 9 {
        243
    } else if m == 10 {
        273
    } else if m == 11 {
        304
    } else {
        334
    })
}

/// The days of the month `m`.
pub open spec fn days_in_month(m: int, leap: bool) -> int {
    if m == 2 {
        if leap {
            29
        } else {
            28
        }
    } else if m == 4 || m == 6 || m == 9 || m == 11 {
        30
    } else {
        31
    }
}

/// The days from the first of January of the year 0 to the date.
pub open spec fn day_number(y: int, m: int, d: int) -> int {
    days_before_year(y) + days_before_month(m, is_leap_year(y)) + d - 1
}

/// Whether there is such a date.
pub open spec fn valid_date(y: int, m: int, d: int) -> bool {
    y >= 0 && 1 <= m <= 12 && 1 <= d <= days_in_month(m, is_leap_year(y))
}

/// The day number of the epoch, the first of January 1970.
pub const EPOCH_DAY: u64 = 719528;

/// The first second whose year does not fit in sixteen bits.
pub const CALENDAR_END: u64 = 2_005_949_145_600;

/// The days before the first of March of the year `y`, counted from the
/// first of March of the year 0.
pub open spec fn days_before_march(y: int) -> int {
    365 * y + y / 4 - y / 100 + y / 400
}

/// The days of a year that starts in March before the first of its month
/// number `md`, where March is number 0.
pub open spec fn march_days_before(md: int) -> int {
    if md == 0 {
        0
    } else if md == 1 {
        31
    } else if md == 2 {
        61
    } else if md == 3 {
        92
    } else if md == 4 {
        122
    } else if md == 5 {
        153
    } else if md == 6 {
        184
    } else if md == 7 {
        214
    } else if md == 8 {
        245
    } else if md == 9 {
        275
    } else if md == 10 {
        306
    } else {
        337
    }
}

proof fn lemma_round_up(y: int, d: int)
    requires
        y >= 0,
        d > 1,
    ensures
        (y + d - 1) / d == y / d + (if y % d == 0 { 0int } else { 1int }),
        (y + d) / d == y / d + 1,
{
    let q = y / d;
    let r = y % d;
    vstd::arithmetic::div_mod::lemma_fundamental_div_mod(y, d);
    assert(y == q * d + r) by (nonlinear_arith)
        requires
            y == d * q + r,
    ;
    vstd::arithmetic::div_mod::lemma_mod_bound(y, d);
    if r == 0 {
        lemma_fundamental_div_mod_converse(y + d - 1, d, q, d - 1);
    } else {
        assert(y + d - 1 == (q + 1) * d + (r - 1)) by (nonlinear_arith)
            requires
                y == q * d + r,
        ;
        lemma_fundamental_div_mod_converse(y + d - 1, d, q + 1, r - 1);
    }
    assert(y + d == (q + 1) * d + r) by (nonlinear_arith)
        requires
            y == q * d + r,
    ;
    lemma_fundamental_div_mod_converse(y + d, d, q + 1, r);
}

proof fn lemma_march_years(y: int)
    requires
        y >= 0,
    ensures
        days_before_year(y) + (if is_leap_year(y) { 1int } else { 0int }) == days_before_march(y) + 1,
        days_before_year(y + 1) == days_before_march(y) + 366,
{
    lemma_round_up(y, 4);
    lemma_round_up(y, 100);
    lemma_round_up(y, 400);
    if y % 100 == 0 {
        lemma_fundamental_div_mod_converse(y, 4, 25 * (y / 100), 0);
    }
    if y % 400 == 0 {
        lemma_fundamental_div_mod_converse(y, 100, 4 * (y / 400), 0);
    }
}

proof fn lemma_days_before_march(a: int, n: int, b: int, c: int)
    requires
        a >= 0,
        0 <= n <= 3,
        0 <= b <= 24,
        0 <= c <= 3,
    ensures
        days_before_march(400 * a + 100 * n + 4 * b + c) == 146097 * a + 36524 * n + 1461 * b + 365 * c,
{
    let y = 400 * a + 100 * n + 4 * b + c;
    lemma_fundamental_div_mod_converse(y, 4, 100 * a + 25 * n + b, c);
    lemma_fundamental_div_mod_converse(y, 100, 4 * a + n, 4 * b + c);
    lemma_fundamental_div_mod_converse(y, 400, a, 100 * n + 4 * b + c);
}

/// The last day of a cycle of 400 years is the 29th of February of the
/// year that ends the cycle.
proof fn lemma_leap_day_of_cycle(a: int)
    requires
        a >= 0,
    ensures
        valid_date(400 * a + 400, 2, 29),
        day_number(400 * a + 400, 2, 29) == 146097 * a + 146096 + 60,
{
    let y = 400 * a + 400;
    lemma_fundamental_div_mod_converse(y, 4, 100 * a + 100, 0);
    lemma_fundamental_div_mod_converse(y, 100, 4 * a + 4, 0);
    lemma_fundamental_div_mod_converse(y, 400, a + 1, 0);
    lemma_march_years(y);
}

/// The last day of four years that end in a leap year is the 29th of
/// February of that year.
proof fn lemma_leap_day_of_four(a: int, n: int, b: int)
    requires
        a >= 0,
        0 <= n <= 3,
        0 <= b <= 23,
    ensures
        valid_date(400 * a + 100 * n + 4 * b + 4, 2, 29),
        day_number(400 * a + 100 * n + 4 * b + 4, 2, 29) == 146097 * a + 36524 * n + 1461 * b + 1460 + 60,
{
    let y = 400 * a + 100 * n + 4 * b + 4;
    lemma_fundamental_div_mod_converse(y, 4, 100 * a + 25 * n + b + 1, 0);
    lemma_fundamental_div_mod_converse(y, 100, 4 * a + n, 4 * b + 4);
    lemma_days_before_march(a, n, b + 1, 0);
    lemma_march_years(y);
}

/// A day that is no 29th of February, by the year that starts in March
/// and the place of the day in that year.
proof fn lemma_ordinary_day(a: int, n: int, b: int, c: int, rem: int, md: int)
    requires
        a >= 0,
        0 <= n <= 3,
        0 <= b <= 24,
        0 <= c <= 3,
        0 <= rem <= 364,
        md == (rem * 5 + 2) / 153,
    ensures
        0 <= md <= 11,
        march_days_before(md) <= rem,
        ({
            let ym = 400 * a + 100 * n + 4 * b + c;
            let d = rem - march_days_before(md) + 1;
            let y = if md > 9 {
                ym + 1
            } else {
                ym
            };
            let m = if md > 9 {
                md - 9
            } else {
                md + 3
            };
            valid_date(y, m, d) && day_number(y, m, d) == 146097 * a + 36524 * n + 1461 * b + 365 * c + rem + 60
        }),
{
    let ym = 400 * a + 100 * n + 4 * b + c;
    lemma_days_before_march(a, n, b, c);
    lemma_march_years(ym);
}

/// The date and the time of day at `sec` seconds after the epoch, for
/// the seconds whose year fits in sixteen bits.
pub fn get_calendar_from_epoch(sec: u64) -> (r: CalendarTime)
    requires
        sec < CALENDAR_END,
    ensures
        valid_date(r.year as int, r.month as int, r.day as int),
        day_number(r.year as int, r.month as int, r.day as int) == sec / 86400 + EPOCH_DAY,
        r.hour == (sec / 3600) % 24,
        r.min == (sec / 60) % 60,
        r.sec == sec % 60,
{
    let second: u64 = sec % 60;
    let minute: u64 = (sec / 60) % 60;
    let hour: u64 = (sec / 3600) % 24;
    let day_from_epoch: u64 = sec / (24 * 60 * 60);
    let day_from_march: u64 = day_from_epoch + 719468;
    let cycles: u64 = day_from_march / 146097;
    let in_cycle: u64 = day_from_march % 146097;
    let centuries: u64 = in_cycle / 36524;
    let in_century: u64 = in_cycle % 36524;
    let mut year: u64 = 400 * cycles + centuries * 100;
    let month: u64;
    let day: u64;
    if centuries == 4 {
        proof {
            lemma_leap_day_of_cycle(cycles as int);
        }
        month = 2;
        day = 29;
    } else {
        let fours: u64 = in_century / 1461;
        let in_four: u64 = in_century % 1461;
        let years: u64 = in_four / 365;
        let in_year: u64 = in_four % 365;
        year = year + fours * 4 + years;
        if years == 4 {
            proof {
                lemma_leap_day_of_four(cycles as int, centuries as int, fours as int);
            }
            month = 2;
            day = 29;
        } else {
            let month_diff: u64 = (in_year * 5 + 2) / 153;
            proof {
                lemma_ordinary_day(
                    cycles as int,
                    centuries as int,
                    fours as int,
                    years as int,
                    in_year as int,
                    month_diff as int,
                );
            }
            let before: u64 = if month_diff == 0 {
                0
            } else if month_diff == 1 {
                31
            } else if month_diff == 2 {
                61
            } else if month_diff == 3 {
                92
            } else if month_diff == 4 {
                122
            } else if month_diff == 5 {
                153
            } else if month_diff == 6 {
                184
            } else if month_diff == 7 {
                214
            } else if month_diff == 8 {
                245
            } else if month_diff == 9 {
                275
            } else if month_diff == 10 {
                306
            } else {
                337
            };
            day = in_year - before + 1;
            if month_diff > 9 {
                year = year + 1;
                month = month_diff - 9;
            } else {
                month = month_diff + 3;
            }
        }
    }
    proof {
        assert(day_number(year as int, month as int, day as int) == day_from_march + 60);
        lemma_year_in_range(year as int, month as int, day as int);
    }
    CalendarTime {
        year: year as u16,
        month: month as u8,
        day: day as u8,
        hour: hour as u8,
        min: minute as u8,
        sec: second as u8,
    }
}

/// The date and the time of day, from the wall-clock time of the start of
/// the guest and the monotonic time.
pub fn get_calendar(sec: u32, nsec: u32, monotonic: u64) -> (r: CalendarTime)
    requires
        sec * 1_000_000_000 + nsec + monotonic <= u64::MAX,
        (sec * 1_000_000_000 + nsec + monotonic) / 1_000_000_000 < CALENDAR_END,
    ensures
        ({
            let now = (sec * 1_000_000_000 + nsec + monotonic) / 1_000_000_000;
            &&& valid_date(r.year as int, r.month as int, r.day as int)
            &&& day_number(r.year as int, r.month as int, r.day as int) == now / 86400 + EPOCH_DAY
            &&& r.hour == (now / 3600) % 24
            &&& r.min == (now / 60) % 60
            &&& r.sec == now % 60
        }),
{
    get_calendar_from_epoch(wall_clock_seconds(sec, nsec, monotonic))
}

/// A date before the first of January of the year 65536 is in a year
/// below 65536.
proof fn lemma_year_in_range(y: int, m: int, d: int)
    requires
        valid_date(y, m, d),
        day_number(y, m, d) < 23936532,
    ensures
        y < 65536,
{
    if y >= 65536 {
        lemma_days_before_year_grows(65536, y);
        assert(days_before_year(65536) == 23936532) by {
            lemma_fundamental_div_mod_converse(65539, 4, 16384, 3);
            lemma_fundamental_div_mod_converse(65635, 100, 656, 35);
            lemma_fundamental_div_mod_converse(65935, 400, 164, 335);
        }
    }
}

/// Later years start later.
proof fn lemma_days_before_year_grows(x: int, y: int)
    requires
        0 <= x <= y,
    ensures
        days_before_year(x) <= days_before_year(y),
    decreases y - x,
{
    if x < y {
        lemma_days_before_year_grows(x, y - 1);
        lemma_march_years(y - 1);
        lemma_round_up(y - 1, 4);
        lemma_round_up(y - 1, 100);
        lemma_round_up(y - 1, 400);
        if (y - 1) % 100 == 0 {
            lemma_fundamental_div_mod_converse(y - 1, 4, 25 * ((y - 1) / 100), 0);
        }
        if (y - 1) % 400 == 0 {
            lemma_fundamental_div_mod_converse(y - 1, 100, 4 * ((y - 1) / 400), 0);
        }
    }
}

} // verus!
