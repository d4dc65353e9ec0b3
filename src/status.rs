use vstd::prelude::*;
use crate::text::{digit_char, digit, dec, push_char, push_str, push_dec};

verus! {

/// File size with one decimal in MB (10^6 bytes) or KB (10^3 bytes), the decimal
/// cut off rather than rounded; plain bytes below 1000.
pub open spec fn file_size_text(b: int) -> Seq<char> {
    if b >= 1_000_000 {
        dec((b / 1_000_000) as nat) + seq!['.', digit((b % 1_000_000) / 100_000)] + " MB"@
    } else if b >= 1_000 {
        dec((b / 1_000) as nat) + seq!['.', digit((b % 1_000) / 100)] + " KB"@
    } else {
        dec(b as nat) + " B"@
    }
}


pub fn format_file_size(bytes: u64) -> (r: String)
    ensures
        r@ == file_size_text(bytes as int),
{
    let mut s = String::new();
    if bytes >= 1_000_000 {
        push_dec(&mut s, bytes / 1_000_000);
        push_char(&mut s, '.');
        push_char(&mut s, digit_char((bytes % 1_000_000) / 100_000));
        push_str(&mut s, " MB");
    } else if bytes >= 1_000 {
        push_dec(&mut s, bytes / 1_000);
        push_char(&mut s, '.');
        push_char(&mut s, digit_char((bytes % 1_000) / 100));
        push_str(&mut s, " KB");
    } else {
        push_dec(&mut s, bytes);
        push_str(&mut s, " B");
    }
    assert(s@ =~= file_size_text(bytes as int));
    s
}

/// Proleptic Gregorian date `(year, month, day)` of the day `days` after
/// 1970-01-01, by the era / day-of-era / year-of-era decomposition (eras of
/// 400 years, 146097 days, years counted from March).
pub open spec fn civil_from_days(days: int) -> (int, int, int) {
    let z = days + 719468;
    let era = z / 146097;
    let doe = z - era * 146097;
    let yoe = (doe - doe / 1460 + doe / 36524 - doe / 146096) / 365;
    let y = yoe + era * 400;
    let doy = doe - (365 * yoe + yoe / 4 - yoe / 100);
    let mp = (5 * doy + 2) / 153;
    let d = doy - (153 * mp + 2) / 5 + 1;
    let m = if mp < 10 { mp + 3 } else { mp - 9 };
    (if m <= 2 { y + 1 } else { y }, m, d)
}

/// The date `days` after 1970-01-01.
pub fn days_to_date(days: u64) -> (r: (u64, u64, u64))
    requires
        days <= u64::MAX - 719468,
    ensures
        (r.0 as int, r.1 as int, r.2 as int) == civil_from_days(days as int),
{
    let z: u64 = days + 719468;
    let era: u64 = z / 146097;
    assert(era * 146097 <= z) by (nonlinear_arith)
        requires era == z / 146097;
    let doe: u64 = z - era * 146097;
    assert(doe < 146097) by (nonlinear_arith)
        requires era == z / 146097, doe == z - era * 146097;
    let yoe: u64 = (doe - doe / 1460 + doe / 36524 - doe / 146096) / 365;
    assert(yoe <= 400);
    assert(era * 400 <= z) by (nonlinear_arith)
        requires era == z / 146097;
    let y: u64 = yoe + era * 400;
    let doy: u64 = doe - (365 * yoe + yoe / 4 - yoe / 100);
    let mp: u64 = (5 * doy + 2) / 153;
    let d: u64 = doy - (153 * mp + 2) / 5 + 1;
    let m: u64 = if mp < 10 { mp + 3 } else { mp - 9 };
    let yy: u64 = if m <= 2 { y + 1 } else { y };
    (yy, m, d)
}

/// `n` with leading zeros up to two digits.
pub open spec fn pad2(n: int) -> Seq<char> {
    if n < 10 { seq!['0'] + dec(n as nat) } else { dec(n as nat) }
}

/// `n` with leading zeros up to four digits.
pub open spec fn pad4(n: int) -> Seq<char> {
    (if n < 1000 { seq!['0'] } else { Seq::empty() }) + (if n < 100 { seq!['0'] } else {
        Seq::empty()
    }) + (if n < 10 { seq!['0'] } else { Seq::empty() }) + dec(n as nat)
}

/// "YYYY-MM-DD HH:MM" (UTC) of a time `secs` seconds after the Unix epoch.
pub open spec fn timestamp_text(secs: int) -> Seq<char> {
    let date = civil_from_days(secs / 86400);
    let tod = secs % 86400;
    pad4(date.0) + seq!['-'] + pad2(date.1) + seq!['-'] + pad2(date.2) + seq![' '] + pad2(tod / 3600)
        + seq![':'] + pad2((tod % 3600) / 60)
}

fn push_pad(s: &mut String, n: u64, width: u64)
    requires
        width == 2 || width == 4,
    ensures
        width == 2 ==> final(s)@ == old(s)@ + pad2(n as int),
        width == 4 ==> final(s)@ == old(s)@ + pad4(n as int),
{
    if width == 4 && n < 1000 {
        push_char(s, '0');
    }
    if width == 4 && n < 100 {
        push_char(s, '0');
    }
    if n < 10 {
        push_char(s, '0');
    }
    push_dec(s, n);
    assert(width == 2 ==> final(s)@ =~= old(s)@ + pad2(n as int));
    assert(width == 4 ==> final(s)@ =~= old(s)@ + pad4(n as int));
}

/// Formats a modification time given in seconds since the Unix epoch.
pub fn format_system_time(secs: u64) -> (r: String)
    ensures
        r@ == timestamp_text(secs as int),
{
    let days = secs / 86400;
    let tod = secs % 86400;
    let (y, m, d) = days_to_date(days);
    let mut s = String::new();
    push_pad(&mut s, y, 4);
    push_char(&mut s, '-');
    push_pad(&mut s, m, 2);
    push_char(&mut s, '-');
    push_pad(&mut s, d, 2);
    push_char(&mut s, ' ');
    push_pad(&mut s, tod / 3600, 2);
    push_char(&mut s, ':');
    push_pad(&mut s, (tod % 3600) / 60, 2);
    assert(s@ =~= timestamp_text(secs as int));
    s
}

} // verus!
