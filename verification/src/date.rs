//! FAT directory-entry timestamps.
//!
//! A date packs `(year - 1980) << 9 | month << 5 | day`, a time packs
//! `hour << 11 | minute << 5 | second / 2`, and the optional creation field
//! counts 10 ms units from 0 to 199. FAT stores local time with no zone.

use vstd::prelude::*;

verus! {

/// The earliest encodable instant, 1980-01-01 00:00:00, as
/// `(date, time, tenths)`.
pub const MIN: (u16, u16, u8) = (33, 0, 0);
/// The latest encodable instant, 2107-12-31 23:59:59.99, as
/// `(date, time, tenths)`.
pub const MAX: (u16, u16, u8) = (65439, 49021, 199);

/// The years after 1980 that the date field holds for `year`: clamped to
/// 0 through 127.
pub open spec fn year_offset(year: u16) -> u16 {
    if year < 1980 {
        0
    } else if year - 1980 > 127 {
        127
    } else {
        (year - 1980) as u16
    }
}

/// The packed date of `year`, `month` and `day`: the year clamped, the
/// month and day cut to their 4 and 5 bits.
pub open spec fn packed_date(year: u16, month: u8, day: u8) -> u16 {
    (year_offset(year) * 512 + (month % 16) as int * 32 + (day % 32) as int) as u16
}

/// The packed time of `hour`, `minute` and `second`: each cut to its bits,
/// the seconds counted in twos.
pub open spec fn packed_time(hour: u8, minute: u8, second: u8) -> u16 {
    ((hour % 32) as int * 2048 + (minute % 64) as int * 32 + (second / 2) % 32) as u16
}

/// Packs calendar fields into `(date, time)`. Years outside 1980 to 2107
/// are clamped; other fields are masked, not validated.
pub fn pack(year: u16, month: u8, day: u8, hour: u8, minute: u8, second: u8) -> (r: (u16, u16))
    ensures
        r == (packed_date(year, month, day), packed_time(hour, minute, second)),
{
    let offset: u16 = if year < 1980 {
        0
    } else if year - 1980 > 127 {
        127
    } else {
        year - 1980
    };
    let m = month as u16;
    let d = day as u16;
    let date = (offset << 9u16) | ((m & 0x0F) << 5u16) | (d & 0x1F);
    assert(date == offset * 512 + (m % 16) * 32 + d % 32) by (bit_vector)
        requires
            offset <= 127,
            m <= 255,
            d <= 255,
            date == (offset << 9u16) | ((m & 0x0F) << 5u16) | (d & 0x1F),
    ;
    let h = hour as u16;
    let mi = minute as u16;
    let s = second as u16;
    let time = ((h & 0x1F) << 11u16) | ((mi & 0x3F) << 5u16) | ((s / 2) & 0x1F);
    assert(time == (h % 32) * 2048 + (mi % 64) * 32 + (s / 2) % 32) by (bit_vector)
        requires
            h <= 255,
            mi <= 255,
            s <= 255,
            time == ((h & 0x1F) << 11u16) | ((mi & 0x3F) << 5u16) | ((s / 2) & 0x1F),
    ;
    (date, time)
}

/// The fields a packed date and time hold read back as what was packed:
/// the clamped year, and the month, day, hour, minute and half-second
/// count when they fit their bits.
pub proof fn lemma_pack_fields(year: u16, month: u8, day: u8, hour: u8, minute: u8, second: u8)
    requires
        month < 16,
        day < 32,
        hour < 32,
        minute < 64,
        second < 64,
    ensures
        ({
            let date = packed_date(year, month, day);
            let time = packed_time(hour, minute, second);
            &&& date / 512 == year_offset(year)
            &&& (date / 32) % 16 == month
            &&& date % 32 == day
            &&& time / 2048 == hour
            &&& (time / 32) % 64 == minute
            &&& time % 32 == second / 2
        }),
{
    let y = year_offset(year) as int;
    let m = month as int;
    let d = day as int;
    let date = packed_date(year, month, day) as int;
    assert(date == y * 512 + m * 32 + d);
    assert(date / 512 == y && (date / 32) % 16 == m && date % 32 == d) by (nonlinear_arith)
        requires
            date == y * 512 + m * 32 + d,
            0 <= y <= 127,
            0 <= m < 16,
            0 <= d < 32,
    ;
    let h = hour as int;
    let mi = minute as int;
    let s = (second / 2) as int;
    let time = packed_time(hour, minute, second) as int;
    assert(time == h * 2048 + mi * 32 + s);
    assert(time / 2048 == h && (time / 32) % 64 == mi && time % 32 == s) by (nonlinear_arith)
        requires
            time == h * 2048 + mi * 32 + s,
            0 <= h < 32,
            0 <= mi < 64,
            0 <= s < 32,
    ;
}

/// Nanoseconds in a tenth of a second's tenth: one unit of the creation
/// time's 10 ms field.
pub const NANOS_PER_TENTH: u32 = 10_000_000;

/// Whether `year` of the Gregorian calendar is a leap year.
pub open spec fn is_leap(year: int) -> bool {
    (year % 4 == 0 && year % 100 != 0) || year % 400 == 0
}

/// The days of `month` in `year`.
pub open spec fn days_in_month(year: int, month: int) -> int {
    if month == 2 {
        if is_leap(year) {
            29
        } else {
            28
        }
    } else if month == 4 || month == 6 || month == 9 || month == 11 {
        30
    } else {
        31
    }
}

/// The fields of a stored timestamp, read as a calendar date and a clock
/// time.
#[derive(Debug, Clone, Copy, PartialEq, Eq)]
pub struct StoredTime {
    /// The year, 1980 to 2107.
    pub year: i32,
    /// The month, 1 to 12.
    pub month: u8,
    /// The day of the month.
    pub day: u8,
    /// The hour, 0 to 23.
    pub hour: u8,
    /// The minute, 0 to 59.
    pub minute: u8,
    /// The second, even, 0 to 58.
    pub second: u8,
    /// Whole seconds the creation time's 10 ms field adds: 0 or 1.
    pub extra_seconds: u8,
    /// Nanoseconds the creation time's 10 ms field adds.
    pub nanos: u32,
}

/// What [`decode`] reads from a stored `(date, time, tenths)`:
/// `None` when the month, day, hour, minute or second is out of range,
/// which includes the all-zero "not set" value. A `tenths` value above 199
/// counts as zero.
pub open spec fn spec_decode(date: u16, time: u16, tenths: u8) -> Option<StoredTime> {
    let year = 1980 + date as int / 512;
    let month = (date as int / 32) % 16;
    let day = date as int % 32;
    let hour = time as int / 2048;
    let minute = (time as int / 32) % 64;
    let second = (time as int % 32) * 2;
    let t = if tenths > 199 {
        0
    } else {
        tenths as int
    };
    if !(1 <= month <= 12) || !(1 <= day <= days_in_month(year, month)) || hour > 23 || minute
        > 59 || second > 59 {
        None
    } else {
        Some(
            StoredTime {
                year: year as i32,
                month: month as u8,
                day: day as u8,
                hour: hour as u8,
                minute: minute as u8,
                second: second as u8,
                extra_seconds: (t / 100) as u8,
                nanos: ((t % 100) * NANOS_PER_TENTH) as u32,
            },
        )
    }
}

/// Reads a stored timestamp's fields, or `None` when the date or time is
/// out of range.
pub fn decode(date: u16, time: u16, tenths: u8) -> (r: Option<StoredTime>)
    ensures
        r == spec_decode(date, time, tenths),
{
    assert(date >> 9u16 == date / 512 && (date >> 5u16) & 0x0F == (date / 32) % 16 && date & 0x1F
        == date % 32) by (bit_vector);
    assert(time >> 11u16 == time / 2048 && (time >> 5u16) & 0x3F == (time / 32) % 64 && time & 0x1F
        == time % 32) by (bit_vector);
    let year = 1980 + (date >> 9u16) as i32;
    let month = ((date >> 5u16) & 0x0F) as u8;
    let day = (date & 0x1F) as u8;
    let hour = (time >> 11u16) as u8;
    let minute = ((time >> 5u16) & 0x3F) as u8;
    let second = ((time & 0x1F) * 2) as u8;
    let leap = (year % 4 == 0 && year % 100 != 0) || year % 400 == 0;
    let days: u8 = if month == 2 {
        if leap {
            29
        } else {
            28
        }
    } else if month == 4 || month == 6 || month == 9 || month == 11 {
        30
    } else {
        31
    };
    if !(1 <= month && month <= 12) || !(1 <= day && day <= days) || hour > 23 || minute > 59
        || second > 59 {
        return None;
    }
    let t = if tenths > 199 {
        0
    } else {
        tenths
    };
    Some(
        StoredTime {
            year,
            month,
            day,
            hour,
            minute,
            second,
            extra_seconds: t / 100,
            nanos: (t % 100) as u32 * NANOS_PER_TENTH,
        },
    )
}

/// A stored date decodes exactly when it is a real day of the Gregorian
/// calendar and the time a real time: months 1 to 12; days up to 31 in
/// January, March, May, July, August, October and December, up to 30 in
/// April, June, September and November, and up to 28 in February, 29 in
/// a leap year (divisible by 4, and by 400 when by 100); hours up to 23,
/// minutes up to 59, seconds (stored in twos) up to 58. Then the fields
/// read back as stored, and the 10 ms field adds its count of 10 ms, or
/// nothing when it is above 199.
pub proof fn lemma_decode_calendar(date: u16, time: u16, tenths: u8)
    ensures
        ({
            let year = 1980 + date as int / 512;
            let month = (date as int / 32) % 16;
            let day = date as int % 32;
            let hour = time as int / 2048;
            let minute = (time as int / 32) % 64;
            let second = (time as int % 32) * 2;
            let leap = (year % 4 == 0 && year % 100 != 0) || year % 400 == 0;
            let length: int = if month == 1 || month == 3 || month == 5 || month == 7 || month == 8
                || month == 10 || month == 12 {
                31
            } else if month == 4 || month == 6 || month == 9 || month == 11 {
                30
            } else if leap {
                29
            } else {
                28
            };
            &&& spec_decode(date, time, tenths) is Some <==> (1 <= month <= 12 && 1 <= day
                <= length && hour <= 23 && minute <= 59 && second <= 58)
            &&& spec_decode(date, time, tenths) matches Some(t) ==> t.year == year && t.month
                == month && t.day == day && t.hour == hour && t.minute == minute && t.second
                == second && t.nanos < 1_000_000_000 && t.extra_seconds * 1_000_000_000 + t.nanos
                == (if tenths <= 199 {
                tenths as int
            } else {
                0
            }) * 10_000_000
        }),
{
}

/// What [`encode`] stores for a local time: [`MIN`] before 1980,
/// [`MAX`] after 2107, else the packed fields and the odd second and the
/// hundredths in the 10 ms field.
pub open spec fn spec_encode(
    year: i32,
    month: u8,
    day: u8,
    hour: u8,
    minute: u8,
    second: u8,
    nanos: u32,
) -> (u16, u16, u8) {
    if year < 1980 {
        MIN
    } else if year > 2107 {
        MAX
    } else {
        (
            packed_date(year as u16, month, day),
            packed_time(hour, minute, second),
            ((second % 2) * 100 + nanos / NANOS_PER_TENTH) as u8,
        )
    }
}

/// Stores a local time given by its calendar fields and nanoseconds as
/// `(date, time, tenths)`, clamped to [`MIN`] and [`MAX`].
pub fn encode(
    year: i32,
    month: u8,
    day: u8,
    hour: u8,
    minute: u8,
    second: u8,
    nanos: u32,
) -> (r: (u16, u16, u8))
    requires
        nanos < 1_000_000_000,
    ensures
        r == spec_encode(year, month, day, hour, minute, second, nanos),
{
    if year < 1980 {
        return MIN;
    }
    if year > 2107 {
        return MAX;
    }
    let (date, time) = pack(year as u16, month, day, hour, minute, second);
    let tenths = (second % 2) * 100 + (nanos / NANOS_PER_TENTH) as u8;
    (date, time, tenths)
}

/// What is stored is read back: encoding a valid local time from 1980 to
/// 2107 and decoding it gives its fields again, the seconds to the
/// nearest pair below and the rest in the 10 ms field; decoded without
/// the 10 ms field, it is the time at that even second.
pub proof fn lemma_encode_decode(
    year: i32,
    month: u8,
    day: u8,
    hour: u8,
    minute: u8,
    second: u8,
    nanos: u32,
)
    requires
        1980 <= year <= 2107,
        1 <= month <= 12,
        1 <= day <= days_in_month(year as int, month as int),
        hour <= 23,
        minute <= 59,
        second <= 59,
        nanos < 1_000_000_000,
    ensures
        ({
            let (date, time, tenths) = spec_encode(year, month, day, hour, minute, second, nanos);
            spec_decode(date, time, tenths) == Some(
                StoredTime {
                    year,
                    month,
                    day,
                    hour,
                    minute,
                    second: (second - second % 2) as u8,
                    extra_seconds: second % 2,
                    nanos: (nanos / NANOS_PER_TENTH * NANOS_PER_TENTH) as u32,
                },
            ) && spec_decode(date, time, 0) == Some(
                StoredTime {
                    year,
                    month,
                    day,
                    hour,
                    minute,
                    second: (second - second % 2) as u8,
                    extra_seconds: 0,
                    nanos: 0,
                },
            )
        }),
{
    lemma_pack_fields(year as u16, month, day, hour, minute, second);
}

} // verus!
