//! Cell-level parsing: null markers, booleans, dates and timestamps.
use crate::calendar::{
    chrono_naive_date, chrono_naive_datetime, chrono_offset_datetime, chrono_rfc3339,
    naive_date_days_from_ce, naive_datetime_instant, offset_datetime_instant, rfc3339_instant,
};
use crate::paths::{
    ext_is, extension_chars, has_extension, path_file_stem, std_path_extension, std_path_file_stem,
};
use crate::text::{
    all_digits, chars_of, count_char, float_syntax, is_ascii_digit, is_digit_char, is_float_syntax,
    eq_ignore_ascii_case, eq_ignore_case, parse_i128_chars, parse_i128_spec, string_from_chars,
    trim, trimmed,
};
use colored::Colorize;
use vstd::prelude::*;

verus! {

// ---------------------------------------------------------------- null & bool

pub open spec fn is_null_word(t: Seq<char>) -> bool {
    ||| eq_ignore_ascii_case(t, seq!['n', 'u', 'l', 'l'])
    ||| eq_ignore_ascii_case(t, seq!['n', 'o', 'n', 'e'])
    ||| eq_ignore_ascii_case(t, seq!['n', 'a', 'n'])
    ||| eq_ignore_ascii_case(t, seq!['n', '/', 'a'])
    ||| eq_ignore_ascii_case(t, seq!['n', 'a'])
    ||| eq_ignore_ascii_case(t, seq!['n', 'd'])
    ||| eq_ignore_ascii_case(t, seq!['n', 'r'])
    ||| eq_ignore_ascii_case(t, seq!['-'])
    ||| eq_ignore_ascii_case(t, seq!['-', '-'])
}

/// A cell that stands for a missing value: blank, or one of the null markers
/// `null`, `none`, `nan`, `n/a`, `na`, `nd`, `nr`, `-`, `--` in any ASCII case,
/// surrounding whitespace ignored.
pub open spec fn spec_is_null_text(v: Seq<char>) -> bool {
    let t = trim(v);
    t.len() == 0 || is_null_word(t)
}

pub open spec fn is_true_word(t: Seq<char>) -> bool {
    ||| eq_ignore_ascii_case(t, seq!['t', 'r', 'u', 'e'])
    ||| eq_ignore_ascii_case(t, seq!['1'])
    ||| eq_ignore_ascii_case(t, seq!['t'])
    ||| eq_ignore_ascii_case(t, seq!['y'])
    ||| eq_ignore_ascii_case(t, seq!['y', 'e', 's'])
    ||| eq_ignore_ascii_case(t, seq!['o', 'n'])
}

pub open spec fn is_false_word(t: Seq<char>) -> bool {
    ||| eq_ignore_ascii_case(t, seq!['f', 'a', 'l', 's', 'e'])
    ||| eq_ignore_ascii_case(t, seq!['0'])
    ||| eq_ignore_ascii_case(t, seq!['f'])
    ||| eq_ignore_ascii_case(t, seq!['n'])
    ||| eq_ignore_ascii_case(t, seq!['n', 'o'])
    ||| eq_ignore_ascii_case(t, seq!['o', 'f', 'f'])
}

/// Boolean reading of a cell: `true 1 t y yes on` and `false 0 f n no off`,
/// in any ASCII case, surrounding whitespace ignored.
pub open spec fn spec_parse_bool(v: Seq<char>) -> Option<bool> {
    let t = trim(v);
    if is_true_word(t) {
        Some(true)
    } else if is_false_word(t) {
        Some(false)
    } else {
        None
    }
}

fn is_null_word_chars(t: &[char]) -> (b: bool)
    ensures
        b == is_null_word(t@),
{
    eq_ignore_case(t, &['n', 'u', 'l', 'l']) || eq_ignore_case(t, &['n', 'o', 'n', 'e'])
        || eq_ignore_case(t, &['n', 'a', 'n']) || eq_ignore_case(t, &['n', '/', 'a'])
        || eq_ignore_case(t, &['n', 'a']) || eq_ignore_case(t, &['n', 'd']) || eq_ignore_case(
        t,
        &['n', 'r'],
    ) || eq_ignore_case(t, &['-']) || eq_ignore_case(t, &['-', '-'])
}

pub fn is_null_text(v: &str) -> (b: bool)
    ensures
        b == spec_is_null_text(v@),
{
    let t = trimmed(v);
    t.len() == 0 || is_null_word_chars(t.as_slice())
}

/// Boolean reading of already trimmed characters.
fn parse_bool_trimmed(t: &[char]) -> (r: Option<bool>)
    ensures
        r == (if is_true_word(t@) {
            Some(true)
        } else if is_false_word(t@) {
            Some(false)
        } else {
            None::<bool>
        }),
{
    if eq_ignore_case(t, &['t', 'r', 'u', 'e']) || eq_ignore_case(t, &['1']) || eq_ignore_case(
        t,
        &['t'],
    ) || eq_ignore_case(t, &['y']) || eq_ignore_case(t, &['y', 'e', 's']) || eq_ignore_case(
        t,
        &['o', 'n'],
    ) {
        Some(true)
    } else if eq_ignore_case(t, &['f', 'a', 'l', 's', 'e']) || eq_ignore_case(t, &['0'])
        || eq_ignore_case(t, &['f']) || eq_ignore_case(t, &['n']) || eq_ignore_case(
        t,
        &['n', 'o'],
    ) || eq_ignore_case(t, &['o', 'f', 'f']) {
        Some(false)
    } else {
        None
    }
}

pub fn parse_bool(v: &str) -> (r: Option<bool>)
    ensures
        r == spec_parse_bool(v@),
{
    let t = trimmed(v);
    parse_bool_trimmed(t.as_slice())
}


// ---------------------------------------------------------------- formats

/// Datetime layouts with an explicit UTC offset, tried in this order.
pub open spec fn offset_format(i: int) -> Seq<char> {
    if i == 0 {
        "%Y-%m-%d %H:%M:%S%:z"@
    } else if i == 1 {
        "%Y-%m-%d %H:%M:%S%.f%:z"@
    } else if i == 2 {
        "%Y-%m-%dT%H:%M:%S%:z"@
    } else if i == 3 {
        "%Y-%m-%dT%H:%M:%S%.f%:z"@
    } else if i == 4 {
        "%Y-%m-%d %H:%M:%S%z"@
    } else if i == 5 {
        "%Y-%m-%d %H:%M:%S%.f%z"@
    } else if i == 6 {
        "%Y-%m-%dT%H:%M:%S%z"@
    } else {
        "%Y-%m-%dT%H:%M:%S%.f%z"@
    }
}

pub const OFFSET_FORMAT_COUNT: usize = 8;

/// Naive datetime layouts (read as UTC), tried in this order.
pub open spec fn naive_format(i: int) -> Seq<char> {
    if i == 0 {
        "%Y-%m-%d %H:%M:%S%.f"@
    } else if i == 1 {
        "%Y-%m-%dT%H:%M:%S%.f"@
    } else if i == 2 {
        "%Y-%m-%d %H:%M:%S"@
    } else if i == 3 {
        "%Y-%m-%dT%H:%M:%S"@
    } else if i == 4 {
        "%d/%m/%Y %H:%M:%S"@
    } else {
        "%Y/%m/%d %H:%M:%S"@
    }
}

pub const NAIVE_FORMAT_COUNT: usize = 6;

/// Date layouts, tried in this order (day-first wins over month-first).
pub open spec fn date_format(i: int) -> Seq<char> {
    if i == 0 {
        "%Y-%m-%d"@
    } else if i == 1 {
        "%d/%m/%Y"@
    } else {
        "%m/%d/%Y"@
    }
}

pub const DATE_FORMAT_COUNT: usize = 3;

fn offset_format_str(i: usize) -> (f: &'static str)
    requires
        i < OFFSET_FORMAT_COUNT,
    ensures
        f@ == offset_format(i as int),
{
    if i == 0 {
        "%Y-%m-%d %H:%M:%S%:z"
    } else if i == 1 {
        "%Y-%m-%d %H:%M:%S%.f%:z"
    } else if i == 2 {
        "%Y-%m-%dT%H:%M:%S%:z"
    } else if i == 3 {
        "%Y-%m-%dT%H:%M:%S%.f%:z"
    } else if i == 4 {
        "%Y-%m-%d %H:%M:%S%z"
    } else if i == 5 {
        "%Y-%m-%d %H:%M:%S%.f%z"
    } else if i == 6 {
        "%Y-%m-%dT%H:%M:%S%z"
    } else {
        "%Y-%m-%dT%H:%M:%S%.f%z"
    }
}

fn naive_format_str(i: usize) -> (f: &'static str)
    requires
        i < NAIVE_FORMAT_COUNT,
    ensures
        f@ == naive_format(i as int),
{
    if i == 0 {
        "%Y-%m-%d %H:%M:%S%.f"
    } else if i == 1 {
        "%Y-%m-%dT%H:%M:%S%.f"
    } else if i == 2 {
        "%Y-%m-%d %H:%M:%S"
    } else if i == 3 {
        "%Y-%m-%dT%H:%M:%S"
    } else if i == 4 {
        "%d/%m/%Y %H:%M:%S"
    } else {
        "%Y/%m/%d %H:%M:%S"
    }
}

fn date_format_str(i: usize) -> (f: &'static str)
    requires
        i < DATE_FORMAT_COUNT,
    ensures
        f@ == date_format(i as int),
{
    if i == 0 {
        "%Y-%m-%d"
    } else if i == 1 {
        "%d/%m/%Y"
    } else {
        "%m/%d/%Y"
    }
}

// ---------------------------------------------------------------- dates

/// First date layout, from the `i`-th on, that accepts `t`: its day number.
pub open spec fn first_date_from(t: Seq<char>, i: int) -> Option<i32>
    decreases 3 - i,
{
    if i >= 3 || i < 0 {
        None
    } else {
        match chrono_naive_date(t, date_format(i)) {
            Some(d) => Some(d),
            None => first_date_from(t, i + 1),
        }
    }
}

/// Day number of 1970-01-01 counted from the common era.
pub open spec fn unix_epoch_day() -> int {
    719_163
}

/// Days since 1970-01-01 of the date a cell holds, if it fits in an `i32`.
pub open spec fn spec_parse_date_ymd(v: Seq<char>) -> Option<i32> {
    let t = trim(v);
    if t.len() == 0 {
        None
    } else {
        match first_date_from(t, 0) {
            Some(ce) => {
                let days = ce - unix_epoch_day();
                if i32::MIN <= days && days <= i32::MAX {
                    Some(days as i32)
                } else {
                    None
                }
            },
            None => None,
        }
    }
}

fn first_date(text: &str) -> (r: Option<i32>)
    ensures
        r == first_date_from(text@, 0),
{
    let mut i: usize = 0;
    while i < DATE_FORMAT_COUNT
        invariant
            i <= DATE_FORMAT_COUNT,
            first_date_from(text@, 0) == first_date_from(text@, i as int),
        decreases DATE_FORMAT_COUNT - i,
    {
        let d = naive_date_days_from_ce(text, date_format_str(i));
        if d.is_some() {
            return d;
        }
        i = i + 1;
    }
    None
}

/// Days since 1970-01-01 of the date `ce` days into the common era, if that
/// fits in an `i32`.
pub open spec fn spec_epoch_days(ce: int) -> Option<i32> {
    let days = ce - unix_epoch_day();
    if i32::MIN <= days && days <= i32::MAX {
        Some(days as i32)
    } else {
        None
    }
}

pub fn epoch_days_from_ce(ce: i32) -> (r: Option<i32>)
    ensures
        r == spec_epoch_days(ce as int),
{
    let days: i64 = ce as i64 - 719_163;
    if i32::MIN as i64 <= days && days <= i32::MAX as i64 {
        Some(days as i32)
    } else {
        None
    }
}

pub fn parse_date_ymd(v: &str) -> (r: Option<i32>)
    ensures
        r == spec_parse_date_ymd(v@),
{
    let t = trimmed(v);
    if t.len() == 0 {
        return None;
    }
    let text = string_from_chars(t.as_slice());
    match first_date(text.as_str()) {
        None => None,
        Some(ce) => epoch_days_from_ce(ce),
    }
}

// ---------------------------------------------------------------- datetimes

/// An instant: whole seconds since 1970-01-01T00:00:00Z and the nanoseconds
/// past that second.
#[derive(Clone, Copy, Debug, PartialEq, Eq, Structural)]
pub struct UtcInstant {
    pub seconds: i64,
    pub nanos: u32,
}

pub open spec fn first_offset_from(v: Seq<char>, i: int) -> Option<(i64, u32)>
    decreases 8 - i,
{
    if i >= 8 || i < 0 {
        None
    } else {
        match chrono_offset_datetime(v, offset_format(i)) {
            Some(x) => Some(x),
            None => first_offset_from(v, i + 1),
        }
    }
}

pub open spec fn first_naive_from(v: Seq<char>, i: int) -> Option<(i64, u32)>
    decreases 6 - i,
{
    if i >= 6 || i < 0 {
        None
    } else {
        match chrono_naive_datetime(v, naive_format(i)) {
            Some(x) => Some(x),
            None => first_naive_from(v, i + 1),
        }
    }
}

/// The instant a textual datetime denotes: RFC 3339 first, then the layouts
/// with an offset, then the naive layouts read as UTC.
pub open spec fn spec_textual_datetime(v: Seq<char>) -> Option<(i64, u32)> {
    match chrono_rfc3339(v) {
        Some(x) => Some(x),
        None => match first_offset_from(v, 0) {
            Some(x) => Some(x),
            None => first_naive_from(v, 0),
        },
    }
}

pub open spec fn instant_of(x: Option<(i64, u32)>) -> Option<UtcInstant> {
    match x {
        Some(p) => Some(UtcInstant { seconds: p.0, nanos: p.1 }),
        None => None,
    }
}

/// Parse a textual datetime: RFC 3339, explicit offset, or naive read as UTC.
pub fn parse_textual_datetime(v: &str) -> (r: Option<UtcInstant>)
    ensures
        r == instant_of(spec_textual_datetime(v@)),
{
    if let Some(p) = rfc3339_instant(v) {
        return Some(UtcInstant { seconds: p.0, nanos: p.1 });
    }
    let mut i: usize = 0;
    while i < OFFSET_FORMAT_COUNT
        invariant
            i <= OFFSET_FORMAT_COUNT,
            chrono_rfc3339(v@) is None,
            first_offset_from(v@, 0) == first_offset_from(v@, i as int),
        decreases OFFSET_FORMAT_COUNT - i,
    {
        if let Some(p) = offset_datetime_instant(v, offset_format_str(i)) {
            return Some(UtcInstant { seconds: p.0, nanos: p.1 });
        }
        i = i + 1;
    }
    let mut j: usize = 0;
    while j < NAIVE_FORMAT_COUNT
        invariant
            j <= NAIVE_FORMAT_COUNT,
            chrono_rfc3339(v@) is None,
            first_offset_from(v@, 0) is None,
            first_naive_from(v@, 0) == first_naive_from(v@, j as int),
        decreases NAIVE_FORMAT_COUNT - j,
    {
        if let Some(p) = naive_datetime_instant(v, naive_format_str(j)) {
            return Some(UtcInstant { seconds: p.0, nanos: p.1 });
        }
        j = j + 1;
    }
    None
}

// ---------------------------------------------------------------- time units

/// Resolution of a timestamp column.
#[derive(Clone, Copy, Debug, PartialEq, Eq, Structural)]
pub enum TimeUnit {
    Second,
    Millisecond,
    Microsecond,
    Nanosecond,
}

pub open spec fn unit_scale(unit: TimeUnit) -> int {
    match unit {
        TimeUnit::Second => 1,
        TimeUnit::Millisecond => 1_000,
        TimeUnit::Microsecond => 1_000_000,
        TimeUnit::Nanosecond => 1_000_000_000,
    }
}

pub fn ticks_per_second(unit: TimeUnit) -> (r: i128)
    ensures
        r == unit_scale(unit),
{
    match unit {
        TimeUnit::Second => 1,
        TimeUnit::Millisecond => 1_000,
        TimeUnit::Microsecond => 1_000_000,
        TimeUnit::Nanosecond => 1_000_000_000,
    }
}

/// An integer epoch in `unit` lies in the plausibility window
/// 2001-09-09 .. 2096-10-02, that is `[1e9, 4e9)` seconds.
pub open spec fn in_epoch_window(x: int, unit: TimeUnit) -> bool {
    1_000_000_000 * unit_scale(unit) <= x && x < 4_000_000_000 * unit_scale(unit)
}

/// The first unit, from seconds to nanoseconds, whose window holds `x`.
pub open spec fn spec_integer_epoch_unit(x: int) -> Option<TimeUnit> {
    if in_epoch_window(x, TimeUnit::Second) {
        Some(TimeUnit::Second)
    } else if in_epoch_window(x, TimeUnit::Millisecond) {
        Some(TimeUnit::Millisecond)
    } else if in_epoch_window(x, TimeUnit::Microsecond) {
        Some(TimeUnit::Microsecond)
    } else if in_epoch_window(x, TimeUnit::Nanosecond) {
        Some(TimeUnit::Nanosecond)
    } else {
        None
    }
}

fn integer_epoch_unit(x: i128) -> (r: Option<TimeUnit>)
    ensures
        r == spec_integer_epoch_unit(x as int),
{
    if 1_000_000_000 <= x && x < 4_000_000_000 {
        Some(TimeUnit::Second)
    } else if 1_000_000_000_000 <= x && x < 4_000_000_000_000 {
        Some(TimeUnit::Millisecond)
    } else if 1_000_000_000_000_000 <= x && x < 4_000_000_000_000_000 {
        Some(TimeUnit::Microsecond)
    } else if 1_000_000_000_000_000_000 <= x && x < 4_000_000_000_000_000_000 {
        Some(TimeUnit::Nanosecond)
    } else {
        None
    }
}

pub open spec fn fits_i64(v: int) -> bool {
    i64::MIN <= v && v <= i64::MAX
}

pub open spec fn some_i64(v: int) -> Option<i64> {
    if fits_i64(v) {
        Some(v as i64)
    } else {
        None
    }
}

/// An epoch `x` counted in `from` ticks, expressed in `to` ticks (truncated
/// when `to` is coarser).
pub open spec fn spec_rescale_epoch(x: int, from: TimeUnit, to: TimeUnit) -> Option<i64> {
    if unit_scale(to) >= unit_scale(from) {
        some_i64(x * (unit_scale(to) / unit_scale(from)))
    } else {
        some_i64(x / (unit_scale(from) / unit_scale(to)))
    }
}

fn rescale_epoch(x: i128, from: TimeUnit, to: TimeUnit) -> (r: Option<i64>)
    requires
        in_epoch_window(x as int, from),
    ensures
        r == spec_rescale_epoch(x as int, from, to),
{
    let from_scale = ticks_per_second(from);
    let to_scale = ticks_per_second(to);
    let value: i128 = if to_scale >= from_scale {
        let k = to_scale / from_scale;
        assert(0 < x * k <= 4_000_000_000_000_000_000 * 1_000_000_000) by (nonlinear_arith)
            requires
                0 < x < 4_000_000_000_000_000_000,
                1 <= k <= 1_000_000_000,
        ;
        x * k
    } else {
        x / (from_scale / to_scale)
    };
    if i64::MIN as i128 <= value && value <= i64::MAX as i128 {
        Some(value as i64)
    } else {
        None
    }
}

/// An instant counted in ticks of `unit`, as `chrono` counts it: whole
/// seconds for seconds; otherwise the seconds scaled plus the nanoseconds
/// past the second truncated to the unit (a leap second's nanoseconds run
/// past one second). In nanoseconds the scaled part itself must fit in an
/// `i64`, taken from the next second up for instants before the epoch.
pub open spec fn spec_instant_in_unit(seconds: int, nanos: int, unit: TimeUnit) -> Option<i64> {
    match unit {
        TimeUnit::Second => some_i64(seconds),
        TimeUnit::Millisecond => some_i64(seconds * 1_000 + nanos / 1_000_000),
        TimeUnit::Microsecond => some_i64(seconds * 1_000_000 + nanos / 1_000),
        TimeUnit::Nanosecond => if seconds < 0 {
            if fits_i64((seconds + 1) * 1_000_000_000) {
                some_i64((seconds + 1) * 1_000_000_000 + (nanos - 1_000_000_000))
            } else {
                None
            }
        } else if fits_i64(seconds * 1_000_000_000) {
            some_i64(seconds * 1_000_000_000 + nanos)
        } else {
            None
        },
    }
}

/// Ticks of `unit` since the Unix epoch at instant `dt`, if they fit in an `i64`.
pub fn datetime_in_unit(dt: UtcInstant, unit: TimeUnit) -> (r: Option<i64>)
    ensures
        r == spec_instant_in_unit(dt.seconds as int, dt.nanos as int, unit),
{
    let secs = dt.seconds as i128;
    let nanos = dt.nanos as i128;
    let value: i128 = match unit {
        TimeUnit::Second => secs,
        TimeUnit::Millisecond => secs * 1_000 + nanos / 1_000_000,
        TimeUnit::Microsecond => secs * 1_000_000 + nanos / 1_000,
        TimeUnit::Nanosecond => {
            let (whole, rest) = if secs < 0 {
                (secs + 1, nanos - 1_000_000_000)
            } else {
                (secs, nanos)
            };
            let scaled = whole * 1_000_000_000;
            if !(i64::MIN as i128 <= scaled && scaled <= i64::MAX as i128) {
                return None;
            }
            scaled + rest
        },
    };
    if i64::MIN as i128 <= value && value <= i64::MAX as i128 {
        Some(value as i64)
    } else {
        None
    }
}

/// Ticks of `unit` for a timestamp cell: a textual datetime, or an integer
/// epoch whose magnitude places it in the plausibility window of some unit.
pub open spec fn spec_parse_timestamp(v: Seq<char>, unit: TimeUnit) -> Option<i64> {
    let t = trim(v);
    if t.len() == 0 {
        None
    } else {
        match spec_textual_datetime(t) {
            Some(p) => spec_instant_in_unit(p.0 as int, p.1 as int, unit),
            None => match parse_i128_spec(t) {
                Some(x) => match spec_integer_epoch_unit(x as int) {
                    Some(from) => spec_rescale_epoch(x as int, from, unit),
                    None => None,
                },
                None => None,
            },
        }
    }
}

/// Parse a timestamp cell into ticks of `unit`, keeping its native precision.
pub fn parse_timestamp(v: &str, unit: TimeUnit) -> (r: Option<i64>)
    ensures
        r == spec_parse_timestamp(v@, unit),
{
    let t = trimmed(v);
    if t.len() == 0 {
        return None;
    }
    let text = string_from_chars(t.as_slice());
    if let Some(dt) = parse_textual_datetime(text.as_str()) {
        return datetime_in_unit(dt, unit);
    }
    match parse_i128_chars(t.as_slice()) {
        None => None,
        Some(x) => match integer_epoch_unit(x) {
            None => None,
            Some(from) => rescale_epoch(x, from, unit),
        },
    }
}

pub fn parse_timestamp_ms(v: &str) -> (r: Option<i64>)
    ensures
        r == spec_parse_timestamp(v@, TimeUnit::Millisecond),
{
    parse_timestamp(v, TimeUnit::Millisecond)
}


/// A slash-separated datetime is read year, month, day: when `chrono` reads
/// the trimmed cell with the layout `%Y/%m/%d %H:%M:%S` as the UTC instant
/// `x`, and neither RFC 3339, a layout with an offset nor an earlier naive
/// layout accepts it, the cell's timestamp is `x`, in seconds and in
/// milliseconds.
pub proof fn law_slash_datetime_is_year_month_day(v: Seq<char>, x: (i64, u32))
    requires
        trim(v).len() > 0,
        chrono_naive_datetime(trim(v), "%Y/%m/%d %H:%M:%S"@) == Some(x),
        chrono_rfc3339(trim(v)) is None,
        first_offset_from(trim(v), 0) is None,
        chrono_naive_datetime(trim(v), "%Y-%m-%d %H:%M:%S%.f"@) is None,
        chrono_naive_datetime(trim(v), "%Y-%m-%dT%H:%M:%S%.f"@) is None,
        chrono_naive_datetime(trim(v), "%Y-%m-%d %H:%M:%S"@) is None,
        chrono_naive_datetime(trim(v), "%Y-%m-%dT%H:%M:%S"@) is None,
        chrono_naive_datetime(trim(v), "%d/%m/%Y %H:%M:%S"@) is None,
    ensures
        spec_parse_timestamp(v, TimeUnit::Second) == Some(x.0),
        i64::MIN <= x.0 * 1_000 + x.1 / 1_000_000 <= i64::MAX ==> spec_parse_timestamp(
            v,
            TimeUnit::Millisecond,
        ) == Some((x.0 * 1_000 + x.1 / 1_000_000) as i64),
{
    let t = trim(v);
    assert(first_naive_from(t, 5) == Some(x));
    assert(first_naive_from(t, 4) == Some(x));
    assert(first_naive_from(t, 3) == Some(x));
    assert(first_naive_from(t, 2) == Some(x));
    assert(first_naive_from(t, 1) == Some(x));
    assert(first_naive_from(t, 0) == Some(x));
    assert(spec_textual_datetime(t) == Some(x));
}

// ---------------------------------------------------------------- file names

/// The extension names a compression format.
pub open spec fn has_compression_ext(p: Seq<char>) -> bool {
    ||| has_extension(p, seq!['g', 'z'])
    ||| has_extension(p, seq!['g', 'z', 'i', 'p'])
    ||| has_extension(p, seq!['z', 's', 't'])
    ||| has_extension(p, seq!['z', 's', 't', 'd'])
    ||| has_extension(p, seq!['b', 'z', '2'])
    ||| has_extension(p, seq!['b', 'z', 'i', 'p', '2'])
    ||| has_extension(p, seq!['x', 'z'])
    ||| has_extension(p, seq!['l', 'z', 'm', 'a'])
}

/// The name with every trailing compression extension removed:
/// "data.csv.gz" gives "data.csv", "data.parquet.zst" gives "data.parquet".
pub open spec fn spec_strip_compression_ext(name: Seq<char>) -> Seq<char>
    decreases name.len(),
{
    if has_compression_ext(name) {
        match std_path_file_stem(name) {
            Some(stem) => if stem.len() < name.len() {
                spec_strip_compression_ext(stem)
            } else {
                name
            },
            None => name,
        }
    } else {
        name
    }
}

/// Stripping is idempotent: what it leaves has no compression extension to
/// strip, so stripping it again changes nothing.
pub proof fn law_strip_compression_idempotent(name: Seq<char>)
    ensures
        spec_strip_compression_ext(spec_strip_compression_ext(name))
            == spec_strip_compression_ext(name),
    decreases name.len(),
{
    if has_compression_ext(name) {
        match std_path_file_stem(name) {
            Some(stem) => if stem.len() < name.len() {
                law_strip_compression_idempotent(stem);
            },
            None => {},
        }
    }
}

fn compression_ext_chars(ext: &Option<Vec<char>>) -> (b: bool)
    ensures
        b == match ext {
            Some(e) => {
                ||| eq_ignore_ascii_case(e@, seq!['g', 'z'])
                ||| eq_ignore_ascii_case(e@, seq!['g', 'z', 'i', 'p'])
                ||| eq_ignore_ascii_case(e@, seq!['z', 's', 't'])
                ||| eq_ignore_ascii_case(e@, seq!['z', 's', 't', 'd'])
                ||| eq_ignore_ascii_case(e@, seq!['b', 'z', '2'])
                ||| eq_ignore_ascii_case(e@, seq!['b', 'z', 'i', 'p', '2'])
                ||| eq_ignore_ascii_case(e@, seq!['x', 'z'])
                ||| eq_ignore_ascii_case(e@, seq!['l', 'z', 'm', 'a'])
            },
            None => false,
        },
{
    ext_is(ext, &['g', 'z']) || ext_is(ext, &['g', 'z', 'i', 'p']) || ext_is(ext, &['z', 's', 't'])
        || ext_is(ext, &['z', 's', 't', 'd']) || ext_is(ext, &['b', 'z', '2']) || ext_is(
        ext,
        &['b', 'z', 'i', 'p', '2'],
    ) || ext_is(ext, &['x', 'z']) || ext_is(ext, &['l', 'z', 'm', 'a'])
}

/// Strip known compression extension(s), yielding the underlying base name.
pub fn strip_compression_ext(name: &str) -> (r: String)
    ensures
        r@ == spec_strip_compression_ext(name@),
        !has_compression_ext(r@),
    decreases name@.len(),
{
    let ext = extension_chars(name);
    if compression_ext_chars(&ext) {
        match path_file_stem(name) {
            Some(stem) => strip_compression_ext(stem.as_str()),
            None => name.to_owned(),
        }
    } else {
        name.to_owned()
    }
}

/// How an input file is compressed, judged by its extension.
#[derive(Clone, Copy, Debug, PartialEq, Eq, Structural)]
pub enum Compression {
    Plain,
    Gzip,
    Zstd,
    /// bzip2: not read directly; `bzcat` into standard input instead.
    Bzip2,
    /// xz or lzma: not read directly; `xzcat` into standard input instead.
    Xz,
}

pub open spec fn spec_compression_of(p: Seq<char>) -> Compression {
    if has_extension(p, seq!['g', 'z']) || has_extension(p, seq!['g', 'z', 'i', 'p']) {
        Compression::Gzip
    } else if has_extension(p, seq!['z', 's', 't']) || has_extension(p, seq!['z', 's', 't', 'd']) {
        Compression::Zstd
    } else if has_extension(p, seq!['b', 'z', '2']) || has_extension(p, seq!['b', 'z', 'i', 'p', '2']) {
        Compression::Bzip2
    } else if has_extension(p, seq!['x', 'z']) || has_extension(p, seq!['l', 'z', 'm', 'a']) {
        Compression::Xz
    } else {
        Compression::Plain
    }
}

/// The decompression an input needs before conversion.
pub fn compression_of(path: &str) -> (c: Compression)
    ensures
        c == spec_compression_of(path@),
{
    let ext = extension_chars(path);
    if ext_is(&ext, &['g', 'z']) || ext_is(&ext, &['g', 'z', 'i', 'p']) {
        Compression::Gzip
    } else if ext_is(&ext, &['z', 's', 't']) || ext_is(&ext, &['z', 's', 't', 'd']) {
        Compression::Zstd
    } else if ext_is(&ext, &['b', 'z', '2']) || ext_is(&ext, &['b', 'z', 'i', 'p', '2']) {
        Compression::Bzip2
    } else if ext_is(&ext, &['x', 'z']) || ext_is(&ext, &['l', 'z', 'm', 'a']) {
        Compression::Xz
    } else {
        Compression::Plain
    }
}

// ---------------------------------------------------------------- column names

pub open spec fn digit_char(d: int) -> char {
    if d == 0 {
        '0'
    } else if d == 1 {
        '1'
    } else if d == 2 {
        '2'
    } else if d == 3 {
        '3'
    } else if d == 4 {
        '4'
    } else if d == 5 {
        '5'
    } else if d == 6 {
        '6'
    } else if d == 7 {
        '7'
    } else if d == 8 {
        '8'
    } else {
        '9'
    }
}

/// Decimal notation of `n`, as `format!("{n}")` writes it.
pub open spec fn decimal(n: nat) -> Seq<char>
    decreases n,
{
    if n < 10 {
        seq![digit_char(n as int)]
    } else {
        decimal(n / 10).push(digit_char((n % 10) as int))
    }
}

proof fn lemma_decimal_len(n: nat)
    ensures
        decimal(n).len() >= 1,
        n < 10 ==> decimal(n).len() == 1,
        n >= 10 ==> decimal(n).len() >= 2,
    decreases n,
{
    if n >= 10 {
        lemma_decimal_len(n / 10);
    }
}

/// The decimal notation of a number holds only ASCII digits.
pub proof fn lemma_decimal_digits(n: nat)
    ensures
        forall|i: int| 0 <= i < decimal(n).len() ==> '0' <= #[trigger] decimal(n)[i] <= '9',
    decreases n,
{
    if n >= 10 {
        lemma_decimal_digits(n / 10);
        assert forall|i: int| 0 <= i < decimal(n).len() implies '0' <= #[trigger] decimal(n)[i]
            <= '9' by {
            if i < decimal(n / 10).len() {
                assert(decimal(n)[i] == decimal(n / 10)[i]);
            }
        }
    }
}

/// Distinct numbers have distinct decimal notations.
pub proof fn lemma_decimal_injective(a: nat, b: nat)
    requires
        decimal(a) == decimal(b),
    ensures
        a == b,
    decreases a,
{
    lemma_decimal_len(a);
    lemma_decimal_len(b);
    if a < 10 && b < 10 {
        assert(decimal(a)[0] == digit_char(a as int));
        assert(decimal(b)[0] == digit_char(b as int));
    } else if a >= 10 && b >= 10 {
        assert(decimal(a).last() == digit_char((a % 10) as int));
        assert(decimal(b).last() == digit_char((b % 10) as int));
        assert(decimal(a).drop_last() =~= decimal(a / 10));
        assert(decimal(b).drop_last() =~= decimal(b / 10));
        lemma_decimal_injective(a / 10, b / 10);
    }
}

fn digit_of(d: usize) -> (c: char)
    requires
        d < 10,
    ensures
        c == digit_char(d as int),
{
    if d == 0 {
        '0'
    } else if d == 1 {
        '1'
    } else if d == 2 {
        '2'
    } else if d == 3 {
        '3'
    } else if d == 4 {
        '4'
    } else if d == 5 {
        '5'
    } else if d == 6 {
        '6'
    } else if d == 7 {
        '7'
    } else if d == 8 {
        '8'
    } else {
        '9'
    }
}

/// Append the decimal notation of `n` to `out`.
pub(crate) fn push_decimal(n: usize, out: &mut Vec<char>)
    ensures
        final(out)@ == old(out)@ + decimal(n as nat),
    decreases n,
{
    if n < 10 {
        out.push(digit_of(n));
    } else {
        push_decimal(n / 10, out);
        out.push(digit_of(n % 10));
        assert(old(out)@ + decimal(n as nat) =~= old(out)@ + decimal((n / 10) as nat) + seq![digit_char((n % 10) as int)]);
    }
}

/// `col_0`, `col_1`, ...: the names given to the columns of a headerless input.
pub open spec fn generated_name(i: nat) -> Seq<char> {
    seq!['c', 'o', 'l', '_'] + decimal(i)
}

pub fn generate_column_names(nb: usize) -> (names: Vec<String>)
    ensures
        names@.len() == nb,
        forall|i: int| 0 <= i < nb ==> (#[trigger] names@[i])@ == generated_name(i as nat),
{
    let mut names: Vec<String> = Vec::new();
    let mut i: usize = 0;
    while i < nb
        invariant
            i <= nb,
            names@.len() == i,
            forall|k: int| 0 <= k < i ==> (#[trigger] names@[k])@ == generated_name(k as nat),
        decreases nb - i,
    {
        let mut cs: Vec<char> = Vec::new();
        cs.push('c');
        cs.push('o');
        cs.push('l');
        cs.push('_');
        push_decimal(i, &mut cs);
        assert(cs@ =~= generated_name(i as nat));
        names.push(string_from_chars(cs.as_slice()));
        i = i + 1;
    }
    names
}

// ---------------------------------------------------------------- delimiter & header detection

/// Lines inspected to pick a delimiter.
pub const DELIMITER_SAMPLE_LINES: usize = 20;

pub open spec fn delimiter_candidate(i: int) -> char {
    if i == 0 {
        ','
    } else if i == 1 {
        ';'
    } else if i == 2 {
        '\t'
    } else {
        '|'
    }
}

/// Occurrences of `c` over the first `n` lines.
pub open spec fn char_score(lines: Seq<String>, c: char, n: int) -> nat
    decreases n,
{
    if n <= 0 {
        0
    } else {
        char_score(lines, c, n - 1) + count_char(lines[n - 1]@, c)
    }
}

pub open spec fn sampled_lines(len: int) -> int {
    if len < DELIMITER_SAMPLE_LINES {
        len
    } else {
        DELIMITER_SAMPLE_LINES as int
    }
}

/// Score of candidate `i`: how often it occurs in the sampled lines.
pub open spec fn delimiter_score(lines: Seq<String>, i: int) -> nat {
    char_score(lines, delimiter_candidate(i), sampled_lines(lines.len() as int))
}

/// The candidate with the highest score; on a tie, the later candidate
/// (`,` `;` tab `|` in that order). When no candidate occurs at all, `,`.
pub open spec fn spec_choose_delimiter(lines: Seq<String>) -> char {
    if delimiter_score(lines, 0) == 0 && delimiter_score(lines, 1) == 0
        && delimiter_score(lines, 2) == 0 && delimiter_score(lines, 3) == 0 {
        ','
    } else {
        spec_best_delimiter(lines)
    }
}

/// The candidate with the highest score, ties going to the later candidate.
pub open spec fn spec_best_delimiter(lines: Seq<String>) -> char {
    let b1 = if delimiter_score(lines, 1) >= delimiter_score(lines, 0) {
        1int
    } else {
        0int
    };
    let b2 = if delimiter_score(lines, 2) >= delimiter_score(lines, b1) {
        2int
    } else {
        b1
    };
    let b3 = if delimiter_score(lines, 3) >= delimiter_score(lines, b2) {
        3int
    } else {
        b2
    };
    delimiter_candidate(b3)
}

fn count_in(line: &String, c: char) -> (n: u64)
    ensures
        n == count_char(line@, c),
{
    let cs = chars_of(line.as_str());
    let mut n: u64 = 0;
    let mut i: usize = 0;
    while i < cs.len()
        invariant
            i <= cs@.len(),
            cs@ == line@,
            n == count_char(cs@.take(i as int), c),
            n <= i,
        decreases cs@.len() - i,
    {
        assert(cs@.take(i + 1).drop_last() =~= cs@.take(i as int));
        if cs[i] == c {
            n = n + 1;
        }
        i = i + 1;
    }
    assert(cs@.take(cs@.len() as int) =~= cs@);
    n
}

fn score_of(lines: &Vec<String>, c: char) -> (s: u128)
    ensures
        s == char_score(lines@, c, sampled_lines(lines@.len() as int)),
{
    let n = if lines.len() < DELIMITER_SAMPLE_LINES {
        lines.len()
    } else {
        DELIMITER_SAMPLE_LINES
    };
    let mut s: u128 = 0;
    let mut i: usize = 0;
    while i < n
        invariant
            i <= n,
            n <= lines@.len(),
            n <= DELIMITER_SAMPLE_LINES,
            s == char_score(lines@, c, i as int),
            s <= i * 0xFFFF_FFFF_FFFF_FFFF,
        decreases n - i,
    {
        let k = count_in(&lines[i], c);
        s = s + k as u128;
        i = i + 1;
    }
    s
}

/// Byte of the delimiter that occurs most in the first lines.
pub fn choose_delimiter(lines: &Vec<String>) -> (d: u8)
    ensures
        d as u32 == spec_choose_delimiter(lines@) as u32,
{
    let s0 = score_of(lines, ',');
    let s1 = score_of(lines, ';');
    let s2 = score_of(lines, '\t');
    let s3 = score_of(lines, '|');
    if s0 == 0 && s1 == 0 && s2 == 0 && s3 == 0 {
        return 44;
    }
    let mut best: u8 = 44;
    let mut best_score = s0;
    if s1 >= best_score {
        best = 59;
        best_score = s1;
    }
    if s2 >= best_score {
        best = 9;
        best_score = s2;
    }
    if s3 >= best_score {
        best = 124;
    }
    best
}

/// Occurrences of `c` in the lines inspected for the delimiter.
pub open spec fn delimiter_count(lines: Seq<String>, c: char) -> nat {
    char_score(lines, c, sampled_lines(lines.len() as int))
}

/// The candidate (`,` `;` tab `|`) that occurs strictly more often than each
/// of the others in the first lines is the delimiter; when none occurs, `,`.
pub proof fn law_most_frequent_delimiter_wins(lines: Seq<String>)
    ensures
        delimiter_count(lines, ',') > delimiter_count(lines, ';') && delimiter_count(lines, ',')
            > delimiter_count(lines, '\t') && delimiter_count(lines, ',') > delimiter_count(lines, '|')
            ==> spec_choose_delimiter(lines) == ',',
        delimiter_count(lines, ';') > delimiter_count(lines, ',') && delimiter_count(lines, ';')
            > delimiter_count(lines, '\t') && delimiter_count(lines, ';') > delimiter_count(lines, '|')
            ==> spec_choose_delimiter(lines) == ';',
        delimiter_count(lines, '\t') > delimiter_count(lines, ',') && delimiter_count(lines, '\t')
            > delimiter_count(lines, ';') && delimiter_count(lines, '\t') > delimiter_count(lines, '|')
            ==> spec_choose_delimiter(lines) == '\t',
        delimiter_count(lines, '|') > delimiter_count(lines, ',') && delimiter_count(lines, '|')
            > delimiter_count(lines, ';') && delimiter_count(lines, '|') > delimiter_count(lines, '\t')
            ==> spec_choose_delimiter(lines) == '|',
        delimiter_count(lines, ',') == 0 && delimiter_count(lines, ';') == 0 && delimiter_count(
            lines,
            '\t',
        ) == 0 && delimiter_count(lines, '|') == 0 ==> spec_choose_delimiter(lines) == ',',
{
    assert(delimiter_score(lines, 0) == delimiter_count(lines, ','));
    assert(delimiter_score(lines, 1) == delimiter_count(lines, ';'));
    assert(delimiter_score(lines, 2) == delimiter_count(lines, '\t'));
    assert(delimiter_score(lines, 3) == delimiter_count(lines, '|'));
}

/// Whether `char::is_alphanumeric` holds (Unicode Alphabetic or Numeric).
pub uninterp spec fn unicode_alphanumeric(c: char) -> bool;

/// Calls `char::is_alphanumeric`. Claimed: the result is `unicode_alphanumeric(c)`,
/// and, as the documentation's examples show, ASCII letters and digits are
/// alphanumeric.
#[verifier::external_body]
fn is_alphanumeric_char(c: char) -> (b: bool)
    ensures
        b == unicode_alphanumeric(c),
        ('a' <= c <= 'z' || 'A' <= c <= 'Z' || '0' <= c <= '9') ==> b,
{
    c.is_alphanumeric()
}

pub open spec fn identifier_char(c: char) -> bool {
    unicode_alphanumeric(c) || c == '_' || c == '-' || c == '.' || c == ' ' || c == '(' || c
        == ')' || c == '/' || c == '\'' || c == '+' || c == ':'
}

/// A value shaped like a column name: non-blank, at most 64 bytes once
/// trimmed, and only letters, digits and `_ - . space ( ) / ' + :`.
pub open spec fn spec_looks_like_identifier(v: Seq<char>) -> bool {
    let t = trim(v);
    t.len() > 0 && vstd::utf8::encode_utf8(t).len() <= 64 && forall|i: int|
        0 <= i < t.len() ==> identifier_char(#[trigger] t[i])
}

pub fn looks_like_identifier(v: &str) -> (b: bool)
    ensures
        b == spec_looks_like_identifier(v@),
{
    let t = trimmed(v);
    let ts = string_from_chars(t.as_slice());
    let tstr = ts.as_str();
    let blen = tstr.as_bytes().len();
    assert(tstr@ == t@);
    assert(blen == vstd::utf8::encode_utf8(t@).len());
    if t.len() == 0 || blen > 64 {
        return false;
    }
    let mut i: usize = 0;
    while i < t.len()
        invariant
            i <= t@.len(),
            t@ == trim(v@),
            t@.len() > 0,
            vstd::utf8::encode_utf8(t@).len() <= 64,
            forall|j: int| 0 <= j < i ==> identifier_char(#[trigger] t@[j]),
        decreases t@.len() - i,
    {
        let c = t[i];
        if !(is_alphanumeric_char(c) || c == '_' || c == '-' || c == '.' || c == ' ' || c == '('
            || c == ')' || c == '/' || c == '\'' || c == '+' || c == ':') {
            return false;
        }
        i = i + 1;
    }
    true
}

/// `str::parse::<i64>` accepts the text.
pub open spec fn is_i64_text(t: Seq<char>) -> bool {
    parse_i128_spec(t) matches Some(x) && i64::MIN <= x && x <= i64::MAX
}

/// How typed a value looks, in tenths: blank 0; an integer, a float, a date or
/// a timestamp 10; a boolean word 8; anything else 0.
pub open spec fn spec_value_type_score(v: Seq<char>) -> u8 {
    let t = trim(v);
    if t.len() == 0 {
        0
    } else if is_i64_text(t) || float_syntax(t) {
        10
    } else if spec_parse_bool(t) is Some {
        8
    } else if spec_parse_date_ymd(t) is Some || spec_parse_timestamp(t, TimeUnit::Millisecond) is Some {
        10
    } else {
        0
    }
}

pub fn value_type_score(v: &str) -> (s: u8)
    ensures
        s == spec_value_type_score(v@),
{
    let t = trimmed(v);
    if t.len() == 0 {
        return 0;
    }
    let is_int = match parse_i128_chars(t.as_slice()) {
        Some(x) => i64::MIN as i128 <= x && x <= i64::MAX as i128,
        None => false,
    };
    if is_int || is_float_syntax(t.as_slice()) {
        return 10;
    }
    let ts = string_from_chars(t.as_slice());
    if parse_bool(ts.as_str()).is_some() {
        return 8;
    }
    if parse_date_ymd(ts.as_str()).is_some() || parse_timestamp_ms(ts.as_str()).is_some() {
        return 10;
    }
    0
}

pub open spec fn has_ascii_digit(t: Seq<char>) -> bool {
    exists|i: int| 0 <= i < t.len() && is_ascii_digit(#[trigger] t[i])
}

/// Some value holds no ASCII digit once trimmed (pure text, like a column name).
pub fn has_pure_text(values: &Vec<String>) -> (b: bool)
    ensures
        b == exists|k: int| 0 <= k < values@.len() && !has_ascii_digit(trim(#[trigger] values@[k]@)),
{
    let mut k: usize = 0;
    while k < values.len()
        invariant
            k <= values@.len(),
            forall|j: int| 0 <= j < k ==> has_ascii_digit(trim(#[trigger] values@[j]@)),
        decreases values@.len() - k,
    {
        let t = trimmed(values[k].as_str());
        let mut i: usize = 0;
        let mut digit = false;
        while i < t.len()
            invariant
                i <= t@.len(),
                !digit ==> forall|j: int| 0 <= j < i ==> !is_ascii_digit(#[trigger] t@[j]),
                digit ==> has_ascii_digit(t@),
            decreases t@.len() - i,
        {
            if is_digit_char(t[i]) {
                digit = true;
            }
            i = i + 1;
        }
        if !digit {
            return true;
        }
        k = k + 1;
    }
    false
}

/// Every value is blank or an `i64` once trimmed: a line of numbers is data.
pub fn all_numeric(values: &Vec<String>) -> (b: bool)
    ensures
        b == forall|k: int|
            0 <= k < values@.len() ==> trim(#[trigger] values@[k]@).len() == 0 || is_i64_text(
                trim(values@[k]@),
            ),
{
    let mut k: usize = 0;
    while k < values.len()
        invariant
            k <= values@.len(),
            forall|j: int|
                0 <= j < k ==> trim(#[trigger] values@[j]@).len() == 0 || is_i64_text(trim(values@[j]@)),
        decreases values@.len() - k,
    {
        let t = trimmed(values[k].as_str());
        if t.len() > 0 {
            let ok = match parse_i128_chars(t.as_slice()) {
                Some(x) => i64::MIN as i128 <= x && x <= i64::MAX as i128,
                None => false,
            };
            if !ok {
                return false;
            }
        }
        k = k + 1;
    }
    true
}

/// No two values are equal.
pub fn all_distinct(values: &Vec<String>) -> (b: bool)
    ensures
        b == forall|i: int, j: int| 0 <= i < j < values@.len() ==> values@[i]@ != values@[j]@,
{
    let mut i: usize = 0;
    while i < values.len()
        invariant
            i <= values@.len(),
            forall|a: int, c: int| 0 <= a < c < values@.len() && a < i ==> values@[a]@ != values@[c]@,
        decreases values@.len() - i,
    {
        let mut j: usize = i + 1;
        while j < values.len()
            invariant
                i < j <= values@.len(),
                forall|a: int, c: int| 0 <= a < c < values@.len() && a < i ==> values@[a]@ != values@[c]@,
                forall|c: int| i < c < j ==> values@[i as int]@ != values@[c]@,
            decreases values@.len() - j,
        {
            if values[i] == values[j] {
                return false;
            }
            j = j + 1;
        }
        i = i + 1;
    }
    true
}

/// A sampled line repeats the first line: some column holds the same
/// non-empty value in both.
pub fn repeats_first_line(record: &Vec<String>, first: &Vec<String>) -> (b: bool)
    ensures
        b == exists|i: int|
            0 <= i < record@.len() && i < first@.len() && first@[i]@.len() > 0 && (#[trigger] record@[i])@
                == first@[i]@,
{
    let mut i: usize = 0;
    while i < record.len() && i < first.len()
        invariant
            i <= record@.len(),
            forall|j: int|
                0 <= j < i && j < first@.len() ==> !(first@[j]@.len() > 0 && (#[trigger] record@[j])@
                    == first@[j]@),
        decreases record@.len() - i,
    {
        if !first[i].as_str().is_empty() && record[i] == first[i] {
            return true;
        }
        i = i + 1;
    }
    false
}

// ---------------------------------------------------------------- header detection

/// Most data lines looked at after the first line.
pub const HEADER_SAMPLE: usize = 200;

/// Bytes of the UTF-8 encoding (what `str::len` counts).
pub open spec fn byte_len(s: Seq<char>) -> nat {
    vstd::utf8::encode_utf8(s).len()
}

/// Sum of the values' type scores, in tenths.
pub open spec fn line_score(vs: Seq<String>) -> nat
    decreases vs.len(),
{
    if vs.len() == 0 {
        0
    } else {
        line_score(vs.drop_last()) + spec_value_type_score(vs.last()@) as nat
    }
}

/// Sum of the values' byte lengths.
pub open spec fn line_bytes(vs: Seq<String>) -> nat
    decreases vs.len(),
{
    if vs.len() == 0 {
        0
    } else {
        line_bytes(vs.drop_last()) + byte_len(vs.last()@)
    }
}

pub open spec fn spec_repeats(record: Seq<String>, first: Seq<String>) -> bool {
    exists|i: int|
        0 <= i < record.len() && i < first.len() && first[i]@.len() > 0 && (#[trigger] record[i])@
            == first[i]@
}

/// Number of data lines that take part in the decision.
pub open spec fn sample_count(sample: Seq<Vec<String>>) -> int {
    if sample.len() < HEADER_SAMPLE {
        sample.len() as int
    } else {
        HEADER_SAMPLE as int
    }
}

/// Score sum (tenths) of the first `n` data lines.
pub open spec fn sample_score(sample: Seq<Vec<String>>, n: int) -> nat
    decreases n,
{
    if n <= 0 {
        0
    } else {
        sample_score(sample, n - 1) + line_score(sample[n - 1]@)
    }
}

/// Byte total of the first `n` data lines.
pub open spec fn sample_bytes(sample: Seq<Vec<String>>, n: int) -> nat
    decreases n,
{
    if n <= 0 {
        0
    } else {
        sample_bytes(sample, n - 1) + line_bytes(sample[n - 1]@)
    }
}

/// How many of the first `n` data lines repeat a value of the first line in
/// its column.
pub open spec fn sample_repeats(sample: Seq<Vec<String>>, first: Seq<String>, n: int) -> nat
    decreases n,
{
    if n <= 0 {
        0
    } else {
        sample_repeats(sample, first, n - 1) + if spec_repeats(sample[n - 1]@, first) {
            1nat
        } else {
            0nat
        }
    }
}

pub open spec fn all_identifiers(vs: Seq<String>) -> bool {
    forall|k: int| 0 <= k < vs.len() ==> spec_looks_like_identifier(#[trigger] vs[k]@)
}

pub open spec fn some_pure_text(vs: Seq<String>) -> bool {
    exists|k: int| 0 <= k < vs.len() && !has_ascii_digit(trim(#[trigger] vs[k]@))
}

pub open spec fn spec_all_numeric(vs: Seq<String>) -> bool {
    forall|k: int|
        0 <= k < vs.len() ==> trim(#[trigger] vs[k]@).len() == 0 || is_i64_text(trim(vs[k]@))
}

pub open spec fn spec_all_distinct(vs: Seq<String>) -> bool {
    forall|i: int, j: int| 0 <= i < j < vs.len() ==> vs[i]@ != vs[j]@
}

/// Whether the first line of a delimited file is a header, judged from its
/// values and the data lines after it (at most `HEADER_SAMPLE` of them).
///
/// With `n` data lines, `cc` values on the first line, `fl` its bytes, `fs`
/// its score (tenths), and `L`, `S`, `R` the data lines' byte total, score total
/// and number of lines repeating a first-line value:
/// - no values: no header;
/// - no data line: a header when every value looks like an identifier and
///   one holds no digit;
/// - a header when the first line is over twice as long as the average data
///   line (`fl * n > 2 * L`) and all its values look like identifiers;
/// - a header when its average score is more than 0.2 below the data's
///   (`fs * n + 2 * cc * n < S`);
/// - else a header when all values look like identifiers, are distinct, the
///   line is shorter than 0.7 of the average data line (`10 * fl * n < 7 * L`),
///   under 5% of data lines repeat one of its values (`20 * R < n`), and not
///   every value is blank or an integer.
/// The averages are compared exactly, as rationals.
pub open spec fn spec_detect_header(first: Seq<String>, sample: Seq<Vec<String>>) -> bool {
    let cc = first.len() as int;
    let n = sample_count(sample);
    let fl = line_bytes(first) as int;
    let fs = line_score(first) as int;
    let total_len = sample_bytes(sample, n) as int;
    let total_score = sample_score(sample, n) as int;
    let reps = sample_repeats(sample, first, n) as int;
    if cc == 0 {
        false
    } else if n == 0 {
        all_identifiers(first) && some_pure_text(first)
    } else {
        (fl * n > 2 * total_len && all_identifiers(first)) || fs * n + 2 * cc * n < total_score || (
        all_identifiers(first) && spec_all_distinct(first) && 10 * fl * n < 7 * total_len && 20
            * reps < n && !spec_all_numeric(first))
    }
}

/// A file of one line is read as headerless data when every value of that
/// line holds a digit.
pub proof fn law_lone_line_with_digits_is_data(first: Seq<String>)
    requires
        forall|k: int| 0 <= k < first.len() ==> has_ascii_digit(trim(#[trigger] first[k]@)),
    ensures
        !spec_detect_header(first, Seq::empty()),
{
}

/// When the data lines score higher than the first line by more than 0.2
/// on average, the first line is a header.
pub proof fn law_typed_data_below_text_is_header(first: Seq<String>, sample: Seq<Vec<String>>)
    requires
        first.len() > 0,
        sample_count(sample) > 0,
        line_score(first) * sample_count(sample) + 2 * first.len() * sample_count(sample)
            < sample_score(sample, sample_count(sample)),
    ensures
        spec_detect_header(first, sample),
{
}

/// Distinct identifier-like names on a line shorter than 0.7 of the average
/// data line, with under 5% of data lines repeating one of them, make a header
/// as soon as one name is neither blank nor an integer.
pub proof fn law_distinct_text_names_make_a_header(first: Seq<String>, sample: Seq<Vec<String>>)
    requires
        first.len() > 0,
        sample_count(sample) > 0,
        forall|k: int| 0 <= k < first.len() ==> spec_looks_like_identifier(#[trigger] first[k]@),
        forall|i: int, j: int| 0 <= i < j < first.len() ==> first[i]@ != first[j]@,
        10 * line_bytes(first) * sample_count(sample) < 7 * sample_bytes(sample, sample_count(sample)),
        20 * sample_repeats(sample, first, sample_count(sample)) < sample_count(sample),
        exists|k: int|
            0 <= k < first.len() && trim(#[trigger] first[k]@).len() > 0 && !is_i64_text(
                trim(first[k]@),
            ),
    ensures
        spec_detect_header(first, sample),
{
    let k = choose|k: int|
        0 <= k < first.len() && trim(#[trigger] first[k]@).len() > 0 && !is_i64_text(
            trim(first[k]@),
        );
    assert(!spec_all_numeric(first)) by {
        assert(!(trim(first[k]@).len() == 0 || is_i64_text(trim(first[k]@))));
    }
    assert(all_identifiers(first));
    assert(spec_all_distinct(first));
}

/// A first line of blanks and integers alone is not taken for a header by the
/// distinct-names rule: unless it is over twice as long as the average data
/// line with identifier-like values, or scores more than 0.2 below the data,
/// it is data.
pub proof fn law_integer_first_line_is_data(first: Seq<String>, sample: Seq<Vec<String>>)
    requires
        sample_count(sample) > 0,
        forall|k: int|
            0 <= k < first.len() ==> trim(#[trigger] first[k]@).len() == 0 || is_i64_text(
                trim(first[k]@),
            ),
        line_bytes(first) * sample_count(sample) <= 2 * sample_bytes(sample, sample_count(sample)),
        line_score(first) * sample_count(sample) + 2 * first.len() * sample_count(sample)
            >= sample_score(sample, sample_count(sample)),
    ensures
        !spec_detect_header(first, sample),
{
    assert(spec_all_numeric(first));
}

proof fn lemma_line_score_bound(vs: Seq<String>)
    ensures
        line_score(vs) <= 10 * vs.len(),
    decreases vs.len(),
{
    if vs.len() > 0 {
        lemma_line_score_bound(vs.drop_last());
    }
}

fn line_totals(vs: &Vec<String>) -> (r: (u128, u128))
    requires
        line_bytes(vs@) <= usize::MAX,
    ensures
        r.0 == line_score(vs@),
        r.1 == line_bytes(vs@),
{
    let mut score: u128 = 0;
    let mut bytes: u128 = 0;
    let mut i: usize = 0;
    proof {
        lemma_line_score_bound(vs@);
    }
    while i < vs.len()
        invariant
            i <= vs@.len(),
            score == line_score(vs@.subrange(0, i as int)),
            bytes == line_bytes(vs@.subrange(0, i as int)),
            line_bytes(vs@) <= usize::MAX,
            line_score(vs@) <= 10 * vs@.len(),
        decreases vs@.len() - i,
    {
        proof {
            let head = vs@.subrange(0, i as int + 1);
            assert(head.drop_last() =~= vs@.subrange(0, i as int));
            lemma_line_prefix_bounds(vs@, i as int + 1);
        }
        let v = &vs[i];
        score = score + value_type_score(v.as_str()) as u128;
        bytes = bytes + v.as_str().len() as u128;
        i = i + 1;
    }
    assert(vs@.subrange(0, vs@.len() as int) =~= vs@);
    (score, bytes)
}

proof fn lemma_line_prefix_bounds(vs: Seq<String>, k: int)
    requires
        0 <= k <= vs.len(),
    ensures
        line_bytes(vs.subrange(0, k)) <= line_bytes(vs),
        line_score(vs.subrange(0, k)) <= line_score(vs),
    decreases vs.len() - k,
{
    if k < vs.len() {
        lemma_line_prefix_bounds(vs, k + 1);
        let head = vs.subrange(0, k + 1);
        assert(head.drop_last() =~= vs.subrange(0, k));
    } else {
        assert(vs.subrange(0, k) =~= vs);
    }
}

/// `detect_header` on lines already split into values: the first line and
/// the data lines that follow it (only the first `HEADER_SAMPLE` count).
pub fn detect_header(first: &Vec<String>, sample: &Vec<Vec<String>>) -> (b: bool)
    requires
        line_bytes(first@) <= usize::MAX,
        forall|i: int|
            0 <= i < sample_count(sample@) ==> line_bytes(#[trigger] sample@[i]@) <= usize::MAX,
    ensures
        b == spec_detect_header(first@, sample@),
{
    let cc = first.len();
    if cc == 0 {
        return false;
    }
    let n: usize = if sample.len() < HEADER_SAMPLE {
        sample.len()
    } else {
        HEADER_SAMPLE
    };
    let ids = all_identifiers_exec(first);
    if n == 0 {
        return ids && has_pure_text(first);
    }
    let (fs, fl) = line_totals(first);
    let mut total_score: u128 = 0;
    let mut total_len: u128 = 0;
    let mut reps: u128 = 0;
    let mut i: usize = 0;
    while i < n
        invariant
            i <= n,
            n == sample_count(sample@),
            n <= HEADER_SAMPLE,
            forall|j: int|
                0 <= j < sample_count(sample@) ==> line_bytes(#[trigger] sample@[j]@) <= usize::MAX,
            total_score == sample_score(sample@, i as int),
            total_len == sample_bytes(sample@, i as int),
            reps == sample_repeats(sample@, first@, i as int),
            total_score <= i * 10 * usize::MAX,
            total_len <= i * usize::MAX,
            reps <= i,
        decreases n - i,
    {
        let line = &sample[i];
        let line_len = line.len();
        let (ls, lb) = line_totals(line);
        proof {
            lemma_line_score_bound(line@);
            assert(line@.len() == line_len);
            assert(ls <= 10 * usize::MAX) by (nonlinear_arith)
                requires
                    ls <= 10 * line@.len(),
                    line@.len() <= usize::MAX,
            ;
            assert(i * 10 * usize::MAX + 10 * usize::MAX == (i + 1) * 10 * usize::MAX) by (nonlinear_arith);
            assert(i * usize::MAX + usize::MAX == (i + 1) * usize::MAX) by (nonlinear_arith);
            assert((i + 1) * 10 * usize::MAX <= 200 * 10 * usize::MAX) by (nonlinear_arith)
                requires
                    i + 1 <= 200,
            ;
            assert((i + 1) * usize::MAX <= 200 * usize::MAX) by (nonlinear_arith)
                requires
                    i + 1 <= 200,
            ;
        }
        total_score = total_score + ls;
        total_len = total_len + lb;
        if repeats_first_line(line, first) {
            reps = reps + 1;
        }
        i = i + 1;
    }
    let n128 = n as u128;
    let cc128 = cc as u128;
    proof {
        assert(total_score <= 200 * 10 * usize::MAX) by (nonlinear_arith)
            requires
                total_score <= n * 10 * usize::MAX,
                n <= 200,
        ;
        assert(total_len <= 200 * usize::MAX) by (nonlinear_arith)
            requires
                total_len <= n * usize::MAX,
                n <= 200,
        ;
        lemma_line_score_bound(first@);
        assert(fs <= 10 * usize::MAX) by (nonlinear_arith)
            requires
                fs <= 10 * first@.len(),
                first@.len() <= usize::MAX,
        ;
        assert(fl * n128 <= usize::MAX * 200) by (nonlinear_arith)
            requires
                fl <= usize::MAX,
                n128 <= 200,
        ;
        assert(10 * fl * n128 <= 10 * usize::MAX * 200) by (nonlinear_arith)
            requires
                fl <= usize::MAX,
                n128 <= 200,
        ;
        assert(fs * n128 <= 10 * usize::MAX * 200) by (nonlinear_arith)
            requires
                fs <= 10 * usize::MAX,
                n128 <= 200,
        ;
        assert(2 * cc128 * n128 <= 2 * usize::MAX * 200) by (nonlinear_arith)
            requires
                cc128 <= usize::MAX,
                n128 <= 200,
        ;
    }
    if fl * n128 > 2 * total_len && ids {
        return true;
    }
    if fs * n128 + 2 * cc128 * n128 < total_score {
        return true;
    }
    ids && all_distinct(first) && 10 * fl * n128 < 7 * total_len && 20 * reps < n128
        && !all_numeric(first)
}

fn all_identifiers_exec(vs: &Vec<String>) -> (b: bool)
    ensures
        b == all_identifiers(vs@),
{
    let mut k: usize = 0;
    while k < vs.len()
        invariant
            k <= vs@.len(),
            forall|j: int| 0 <= j < k ==> spec_looks_like_identifier(#[trigger] vs@[j]@),
        decreases vs@.len() - k,
    {
        if !looks_like_identifier(vs[k].as_str()) {
            return false;
        }
        k = k + 1;
    }
    true
}

// ---------------------------------------------------------------- terminal styling

pub open spec fn ansi_reset() -> Seq<char> {
    seq!['\x1b', '[', '0', 'm']
}

/// `prefix + msg + reset`, the styled text, when `msg` holds no escape
/// character; or `msg` unchanged, when `colored` decides not to colorize.
pub open spec fn painted(prefix: Seq<char>, msg: Seq<char>, out: Seq<char>) -> bool {
    !msg.contains('\x1b') ==> (out == msg || out == prefix + msg + ansi_reset())
}

pub open spec fn red_bold_prefix() -> Seq<char> {
    seq!['\x1b', '[', '1', ';', '3', '1', 'm']
}

pub open spec fn yellow_prefix() -> Seq<char> {
    seq!['\x1b', '[', '3', '3', 'm']
}

pub open spec fn green_prefix() -> Seq<char> {
    seq!['\x1b', '[', '3', '2', 'm']
}

pub open spec fn cyan_prefix() -> Seq<char> {
    seq!['\x1b', '[', '3', '6', 'm']
}

/// Calls `colored::Colorize::red` then `bold` and renders the result. The
/// rendering depends on the environment (`NO_COLOR`, `CLICOLOR`), so only this
/// is claimed: for text without an escape character, the text unchanged, or
/// the text between the bold-red sequence and the reset sequence.
#[verifier::external_body]
fn paint_red_bold(msg: &str) -> (r: String)
    ensures
        painted(red_bold_prefix(), msg@, r@),
{
    msg.red().bold().to_string()
}

/// Calls `colored::Colorize::yellow` and renders the result; claimed as for
/// `paint_red_bold`, with the yellow sequence.
#[verifier::external_body]
fn paint_yellow(msg: &str) -> (r: String)
    ensures
        painted(yellow_prefix(), msg@, r@),
{
    msg.yellow().to_string()
}

/// Calls `colored::Colorize::green` and renders the result; claimed as for
/// `paint_red_bold`, with the green sequence.
#[verifier::external_body]
fn paint_green(msg: &str) -> (r: String)
    ensures
        painted(green_prefix(), msg@, r@),
{
    msg.green().to_string()
}

/// Calls `colored::Colorize::cyan` and renders the result; claimed as for
/// `paint_red_bold`, with the cyan sequence.
#[verifier::external_body]
fn paint_cyan(msg: &str) -> (r: String)
    ensures
        painted(cyan_prefix(), msg@, r@),
{
    msg.cyan().to_string()
}

/// An error message, bold red when the terminal shows colors.
pub fn error(msg: &str, colors_enabled: bool) -> (r: String)
    ensures
        !colors_enabled ==> r@ == msg@,
        colors_enabled ==> painted(red_bold_prefix(), msg@, r@),
{
    if colors_enabled {
        paint_red_bold(msg)
    } else {
        msg.to_owned()
    }
}

/// A warning, yellow when the terminal shows colors.
pub fn warning(msg: &str, colors_enabled: bool) -> (r: String)
    ensures
        !colors_enabled ==> r@ == msg@,
        colors_enabled ==> painted(yellow_prefix(), msg@, r@),
{
    if colors_enabled {
        paint_yellow(msg)
    } else {
        msg.to_owned()
    }
}

/// A success message, green when the terminal shows colors.
pub fn success(msg: &str, colors_enabled: bool) -> (r: String)
    ensures
        !colors_enabled ==> r@ == msg@,
        colors_enabled ==> painted(green_prefix(), msg@, r@),
{
    if colors_enabled {
        paint_green(msg)
    } else {
        msg.to_owned()
    }
}

/// A displayed path, cyan when the terminal shows colors.
pub fn path(p: &str, colors_enabled: bool) -> (r: String)
    ensures
        !colors_enabled ==> r@ == p@,
        colors_enabled ==> painted(cyan_prefix(), p@, r@),
{
    if colors_enabled {
        paint_cyan(p)
    } else {
        p.to_owned()
    }
}

} // verus!
