//! Display strings for sizes, durations and creation times, computed in
//! integer arithmetic.
use vstd::prelude::*;
use crate::text::{dec, pad2, pad4, dec_string, pad2_string, pad4_string};
use crate::paths::{occurs_at, matches_at};

verus! {

pub const KB: u64 = 1024;
pub const MB: u64 = 1048576;
pub const GB: u64 = 1073741824;

/// `bytes / unit` in hundredths, rounded to the nearest hundredth; an
/// exact tie goes to the even neighbour, as two-decimal formatting of the
/// quotient does.
pub open spec fn hundredths(bytes: nat, unit: nat) -> nat
    recommends
        unit > 0,
{
    let q = (bytes * 100) / unit;
    let r = (bytes * 100) % unit;
    if 2 * r > unit || (2 * r == unit && q % 2 == 1) { q + 1 } else { q }
}

/// A number of hundredths written with two decimals, then a unit label.
pub open spec fn two_decimals(h: nat, label: Seq<char>) -> Seq<char> {
    dec(h / 100) + seq!['.'] + pad2(h % 100) + seq![' '] + label
}

/// The display text of a byte count: bytes below one KiB, otherwise the
/// largest of KiB, MiB and GiB that fits, with two decimals.
pub open spec fn size_text(bytes: nat) -> Seq<char> {
    if bytes >= GB {
        two_decimals(hundredths(bytes, GB as nat), seq!['G', 'B'])
    } else if bytes >= MB {
        two_decimals(hundredths(bytes, MB as nat), seq!['M', 'B'])
    } else if bytes >= KB {
        two_decimals(hundredths(bytes, KB as nat), seq!['K', 'B'])
    } else {
        dec(bytes) + seq![' ', 'B']
    }
}

proof fn lemma_hundredths_split(bytes: nat, unit: nat)
    requires
        unit > 0,
    ensures
        (bytes * 100) / unit == (bytes / unit) * 100 + ((bytes % unit) * 100) / unit,
        (bytes * 100) % unit == ((bytes % unit) * 100) % unit,
        ((bytes % unit) * 100) / unit < 100,
{
    let qb = bytes / unit;
    let r0 = bytes % unit;
    let q2 = (r0 * 100) / unit;
    let r2 = (r0 * 100) % unit;
    assert(bytes == qb * unit + r0) by (nonlinear_arith)
        requires qb == bytes / unit, r0 == bytes % unit, unit > 0;
    assert(r0 * 100 == q2 * unit + r2 && 0 <= r2 < unit) by (nonlinear_arith)
        requires q2 == (r0 * 100) / unit, r2 == (r0 * 100) % unit, unit > 0;
    assert(bytes * 100 == (qb * 100 + q2) * unit + r2) by (nonlinear_arith)
        requires bytes == qb * unit + r0, r0 * 100 == q2 * unit + r2;
    vstd::arithmetic::div_mod::lemma_fundamental_div_mod_converse(
        (bytes * 100) as int, unit as int, (qb * 100 + q2) as int, r2 as int);
    assert(q2 < 100) by (nonlinear_arith)
        requires r0 < unit, r0 * 100 == q2 * unit + r2, 0 <= r2, unit > 0;
}

fn render_two_decimals(h: u64, label: &str) -> (r: String)
    ensures
        r@ == two_decimals(h as nat, label@),
{
    let mut s = dec_string(h / 100);
    proof {
        reveal_strlit(".");
        reveal_strlit(" ");
    }
    s.append(".");
    let f = pad2_string(h % 100);
    s.append(f.as_str());
    s.append(" ");
    s.append(label);
    s
}

fn scaled_hundredths(bytes: u64, unit: u64) -> (h: u64)
    requires
        KB <= unit <= GB,
    ensures
        h as nat == hundredths(bytes as nat, unit as nat),
{
    proof { lemma_hundredths_split(bytes as nat, unit as nat); }
    let qb = bytes / unit;
    let r0 = bytes % unit;
    assert(qb <= u64::MAX / 1024) by (nonlinear_arith)
        requires qb == bytes / unit, unit >= 1024;
    assert(r0 * 100 <= u64::MAX) by (nonlinear_arith)
        requires r0 < unit, unit <= 1073741824;
    let q = qb * 100 + (r0 * 100) / unit;
    let r = (r0 * 100) % unit;
    if 2 * r > unit || (2 * r == unit && q % 2 == 1) { q + 1 } else { q }
}

/// Formats a byte count for display ("512 B", "1.50 KB", "2.00 GB").
pub fn format_size(bytes: u64) -> (r: String)
    ensures
        r@ == size_text(bytes as nat),
{
    proof {
        reveal_strlit("GB");
        reveal_strlit("MB");
        reveal_strlit("KB");
        reveal_strlit(" B");
    }
    if bytes >= GB {
        render_two_decimals(scaled_hundredths(bytes, GB), "GB")
    } else if bytes >= MB {
        render_two_decimals(scaled_hundredths(bytes, MB), "MB")
    } else if bytes >= KB {
        render_two_decimals(scaled_hundredths(bytes, KB), "KB")
    } else {
        let mut s = dec_string(bytes);
        s.append(" B");
        s
    }
}

/// Three numbers written as `HH:MM:SS`-style fields of at least two digits.
pub open spec fn clock_text(a: nat, b: nat, c: nat) -> Seq<char> {
    pad2(a) + seq![':'] + pad2(b) + seq![':'] + pad2(c)
}

/// The display text of a duration of `total` whole seconds.
pub open spec fn duration_text(total: nat) -> Seq<char> {
    clock_text(total / 3600, (total % 3600) / 60, total % 60)
}

fn render_clock(a: u64, b: u64, c: u64) -> (r: String)
    ensures
        r@ == clock_text(a as nat, b as nat, c as nat),
{
    proof { reveal_strlit(":"); }
    let mut s = pad2_string(a);
    let sb = pad2_string(b);
    let sc = pad2_string(c);
    s.append(":");
    s.append(sb.as_str());
    s.append(":");
    s.append(sc.as_str());
    s
}

/// Formats a duration of whole seconds as hours, minutes and seconds
/// (`61` gives "00:01:01").
pub fn format_duration(total_seconds: u64) -> (r: String)
    ensures
        r@ == duration_text(total_seconds as nat),
{
    render_clock(total_seconds / 3600, (total_seconds % 3600) / 60, total_seconds % 60)
}

/// The display text of a creation time given in seconds since the Unix
/// epoch, on a simplified calendar of 365-day years and 30-day months.
pub open spec fn created_text(secs: nat) -> Seq<char> {
    let days = secs / 86400;
    let rem = secs % 86400;
    let doy = days % 365;
    pad4(1970 + days / 365) + seq!['-'] + pad2(doy / 30 + 1) + seq!['-'] + pad2(doy % 30 + 1)
        + seq![' '] + clock_text(rem / 3600, (rem % 3600) / 60, rem % 60)
}

/// Formats a creation time (seconds since the Unix epoch) as
/// `YYYY-MM-DD HH:MM:SS` on the simplified calendar of `created_text`.
pub fn format_created_at(secs: u64) -> (r: String)
    ensures
        r@ == created_text(secs as nat),
{
    proof {
        reveal_strlit("-");
        reveal_strlit(" ");
    }
    let days = secs / 86400;
    let rem = secs % 86400;
    let doy = days % 365;
    let mut s = pad4_string(1970 + days / 365);
    let month = pad2_string(doy / 30 + 1);
    let day = pad2_string(doy % 30 + 1);
    let clock = render_clock(rem / 3600, (rem % 3600) / 60, rem % 60);
    s.append("-");
    s.append(month.as_str());
    s.append("-");
    s.append(day.as_str());
    s.append(" ");
    s.append(clock.as_str());
    s
}

/// The time zone in which creation times are shown, in seconds east of UTC.
pub const DISPLAY_OFFSET_SECS: i32 = 28800;

/// The wall-clock text ("YYYY-MM-DD HH:MM:SS") of the instant `nanos`
/// nanoseconds after the Unix epoch, in the zone `offset_secs` east of UTC.
pub uninterp spec fn datetime_text(nanos: int, offset_secs: int) -> Seq<char>;

/// Relies on chrono's `DateTime::from_timestamp_nanos` (defined for every
/// `i64`), `FixedOffset::east_opt` (some for offsets under one day) and
/// `format("%Y-%m-%d %H:%M:%S")`: the text depends on the two numbers alone.
#[verifier::external_body]
fn offset_datetime_text(nanos: i64, offset_secs: i32) -> (r: String)
    requires
        -86400 < offset_secs < 86400,
    ensures
        r@ == datetime_text(nanos as int, offset_secs as int),
{
    let utc = chrono::DateTime::from_timestamp_nanos(nanos);
    let zone = chrono::FixedOffset::east_opt(offset_secs).unwrap();
    utc.with_timezone(&zone).format("%Y-%m-%d %H:%M:%S").to_string()
}

/// The display text of a file's creation time, given in nanoseconds since
/// the Unix epoch; none where the file system gave none.
pub fn get_systemtime_created(created_nanos: Option<i64>) -> (r: Option<String>)
    ensures
        match created_nanos {
            Some(n) => (r matches Some(t) && t@ == datetime_text(n as int, DISPLAY_OFFSET_SECS as int)),
            None => r is None,
        },
{
    match created_nanos {
        Some(n) => Some(offset_datetime_text(n, DISPLAY_OFFSET_SECS)),
        None => None,
    }
}

/// Whether `c` is an ASCII digit.
pub open spec fn is_digit(c: char) -> bool {
    '0' <= c && c <= '9'
}

pub open spec fn duration_tag() -> Seq<char> {
    seq!['D', 'u', 'r', 'a', 't', 'i', 'o', 'n', ':', ' ']
}

/// Whether the media tool's report holds `Duration: HH:MM:SS.CC` at
/// position `i`, each field two ASCII digits.
pub open spec fn duration_field_at(s: Seq<char>, i: int) -> bool {
    &&& occurs_at(s, i, duration_tag())
    &&& i + 21 <= s.len()
    &&& is_digit(s[i + 10]) && is_digit(s[i + 11]) && s[i + 12] == ':'
    &&& is_digit(s[i + 13]) && is_digit(s[i + 14]) && s[i + 15] == ':'
    &&& is_digit(s[i + 16]) && is_digit(s[i + 17]) && s[i + 18] == '.'
    &&& is_digit(s[i + 19]) && is_digit(s[i + 20])
}

fn digit_at(s: &str, i: usize) -> (r: bool)
    requires
        i < s@.len(),
    ensures
        r == is_digit(s@[i as int]),
{
    let c = s.get_char(i);
    '0' <= c && c <= '9'
}

fn duration_field_check(s: &str, i: usize) -> (r: bool)
    requires
        i + 21 <= s@.len(),
    ensures
        r == duration_field_at(s@, i as int),
{
    proof { reveal_strlit("Duration: "); }
    assert("Duration: "@ =~= duration_tag());
    // Fixes that the positions below fit in a `usize`.
    let _len = s.unicode_len();
    matches_at(s, i, "Duration: ")
        && digit_at(s, i + 10) && digit_at(s, i + 11) && s.get_char(i + 12) == ':'
        && digit_at(s, i + 13) && digit_at(s, i + 14) && s.get_char(i + 15) == ':'
        && digit_at(s, i + 16) && digit_at(s, i + 17) && s.get_char(i + 18) == '.'
        && digit_at(s, i + 19) && digit_at(s, i + 20)
}

/// Finds the first `Duration: HH:MM:SS.CC` in a media tool's report and
/// returns its `HH:MM:SS`; none when the report holds no such field.
pub fn parse_reported_duration(report: &str) -> (r: Option<String>)
    ensures
        match r {
            Some(t) => exists|i: int| {
                &&& duration_field_at(report@, i)
                &&& forall|j: int| 0 <= j < i ==> !#[trigger] duration_field_at(report@, j)
                &&& t@ == report@.subrange(i + 10, i + 18)
            },
            None => forall|i: int| !#[trigger] duration_field_at(report@, i),
        },
{
    let n = report.unicode_len();
    if n < 21 {
        return None;
    }
    let mut i: usize = 0;
    while i <= n - 21
        invariant
            n == report@.len(),
            n >= 21,
            i <= n - 20,
            forall|j: int| 0 <= j < i ==> !#[trigger] duration_field_at(report@, j),
        decreases n - i,
    {
        if duration_field_check(report, i) {
            return Some(String::from_str(report.substring_char(i + 10, i + 18)));
        }
        i = i + 1;
    }
    None
}

} // verus!
