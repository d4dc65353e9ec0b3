use vstd::prelude::*;
use vstd::string::StringSliceAdditionalSpecFns;

verus! {

/// A field separator of an EXIF date: ':' or ' '.
pub open spec fn is_sep(b: u8) -> bool {
    b == 0x3A || b == 0x20
}

/// Index of the first separator at or after `i`, or the length when none is left.
pub open spec fn next_sep(b: Seq<u8>, i: int) -> int
    decreases b.len() - i,
{
    if i >= b.len() {
        b.len() as int
    } else if is_sep(b[i]) {
        i
    } else {
        next_sep(b, i + 1)
    }
}

/// Start of field `k` (counted from 0) when splitting at every separator.
pub open spec fn field_start(b: Seq<u8>, k: nat) -> int
    decreases k, 0nat,
{
    if k == 0 {
        0
    } else {
        field_end(b, (k - 1) as nat) + 1
    }
}

/// End (exclusive) of field `k`.
pub open spec fn field_end(b: Seq<u8>, k: nat) -> int
    decreases k, 1nat,
{
    next_sep(b, field_start(b, k))
}

pub open spec fn field(b: Seq<u8>, k: nat) -> Seq<u8> {
    b.subrange(field_start(b, k), field_end(b, k))
}

pub open spec fn is_digit(c: u8) -> bool {
    0x30 <= c <= 0x39
}

/// Value of a string of decimal digits.
pub open spec fn digits_value(d: Seq<u8>) -> int
    decreases d.len(),
{
    if d.len() == 0 {
        0
    } else {
        digits_value(d.drop_last()) * 10 + (d.last() - 0x30)
    }
}

/// What parsing `f` as an unsigned 64-bit decimal gives: an optional '+', then
/// at least one digit, the value within range.
pub open spec fn parse_u64_spec(f: Seq<u8>) -> Option<int> {
    if unsigned_part(f).len() == 0 || !all_digits(unsigned_part(f)) {
        None
    } else if digits_value(unsigned_part(f)) > u64::MAX {
        None
    } else {
        Some(digits_value(unsigned_part(f)))
    }
}

/// `f` without one leading '+' (kept when it is all there is).
pub open spec fn unsigned_part(f: Seq<u8>) -> Seq<u8> {
    if f.len() > 1 && f[0] == 0x2Bu8 { f.drop_first() } else { f }
}

pub open spec fn all_digits(g: Seq<u8>) -> bool {
    forall|i: int| 0 <= i < g.len() ==> is_digit(#[trigger] g[i])
}

/// Seconds since 1970 of a date and time, counting every month as 30 days and
/// every fourth year from 1972 as a leap year: an ordering key, not a calendar.
pub open spec fn approx_timestamp(y: int, mo: int, d: int, h: int, mi: int, s: int) -> int {
    ((y - 1970) * 365 + (y - 1969) / 4 + (mo - 1) * 30 + d) * 86400 + h * 3600 + mi * 60 + s
}

/// The ordering key of "YYYY:MM:DD HH:MM:SS": at least six fields split at ':'
/// and ' ', the first six unsigned numbers, a year from 1970, a month 1 to 12, a
/// day 1 to 31, and a key that fits in 64 bits.
pub open spec fn exif_datetime(b: Seq<u8>) -> Option<int> {
    if field_end(b, 4) >= b.len() {
        None
    } else {
        match (
            parse_u64_spec(field(b, 0)),
            parse_u64_spec(field(b, 1)),
            parse_u64_spec(field(b, 2)),
            parse_u64_spec(field(b, 3)),
            parse_u64_spec(field(b, 4)),
            parse_u64_spec(field(b, 5)),
        ) {
            (Some(y), Some(mo), Some(d), Some(h), Some(mi), Some(s)) => if y < 1970 || mo == 0
                || mo > 12 || d == 0 || d > 31 {
                None
            } else if approx_timestamp(y, mo, d, h, mi, s) > u64::MAX {
                None
            } else {
                Some(approx_timestamp(y, mo, d, h, mi, s))
            },
            _ => None,
        }
    }
}

proof fn lemma_next_sep_range(b: Seq<u8>, i: int)
    requires
        0 <= i,
    ensures
        i <= next_sep(b, i) || i > b.len(),
        next_sep(b, i) <= b.len(),
        next_sep(b, i) < b.len() ==> is_sep(b[next_sep(b, i)]),
    decreases b.len() - i,
{
    if i < b.len() && !is_sep(b[i]) {
        lemma_next_sep_range(b, i + 1);
    }
}

/// Finds the end of the field that starts at `i`.
fn find_sep(b: &[u8], i: usize) -> (r: usize)
    requires
        i <= b@.len(),
    ensures
        r as int == next_sep(b@, i as int),
{
    let mut j: usize = i;
    while j < b.len() && b[j] != 0x3A && b[j] != 0x20
        invariant
            i <= j <= b@.len(),
            next_sep(b@, i as int) == next_sep(b@, j as int),
        decreases b@.len() - j,
    {
        j = j + 1;
    }
    j
}

proof fn lemma_digits_push(d: Seq<u8>, c: u8)
    ensures
        digits_value(d.push(c)) == digits_value(d) * 10 + (c - 0x30),
{
    assert(d.push(c).drop_last() =~= d);
}

/// Parses `b[start..end]` as an unsigned 64-bit decimal.
fn parse_u64(b: &[u8], start: usize, end: usize) -> (r: Option<u64>)
    requires
        start <= end <= b@.len(),
    ensures
        r matches Some(v) ==> parse_u64_spec(b@.subrange(start as int, end as int)) == Some(v as int),
        r is None ==> parse_u64_spec(b@.subrange(start as int, end as int)) is None,
{
    let ghost f = b@.subrange(start as int, end as int);
    let s: usize = if end - start > 1 && b[start] == 0x2B { start + 1 } else { start };
    let ghost g = b@.subrange(s as int, end as int);
    assert(g =~= unsigned_part(f));
    if s == end {
        return None;
    }
    let mut v: u64 = 0;
    let mut i: usize = s;
    while i < end
        invariant
            s <= i <= end <= b@.len(),
            g == b@.subrange(s as int, end as int),
            start <= s,
            f == b@.subrange(start as int, end as int),
            g == unsigned_part(f),
            g.len() > 0,
            forall|k: int| s <= k < i ==> is_digit(#[trigger] b@[k]),
            v as int == digits_value(b@.subrange(s as int, i as int)),
        decreases end - i,
    {
        let c = b[i];
        if c < 0x30 || c > 0x39 {
            proof {
                let k = i - s;
                assert(g[k] == c);
                assert(!is_digit(g[k]));
                assert(!all_digits(g));
            }
            return None;
        }
        let dgt: u64 = (c - 0x30) as u64;
        proof {
            lemma_digits_push(b@.subrange(s as int, i as int), c);
            assert(b@.subrange(s as int, i + 1) =~= b@.subrange(s as int, i as int).push(c));
        }
        if v > (u64::MAX - dgt) / 10 {
            proof {
                assert(v * 10 + dgt > u64::MAX) by (nonlinear_arith)
                    requires v > (u64::MAX - dgt) / 10, dgt <= 9;
                if all_digits(g) {
                    lemma_digits_prefix_bound(g, (i + 1 - s) as int);
                    assert(g.subrange(0, (i + 1 - s) as int) =~= b@.subrange(s as int, i + 1));
                    assert(digits_value(g) > u64::MAX);
                }
                assert(parse_u64_spec(f) is None);
            }
            return None;
        }
        v = v * 10 + dgt;
        i = i + 1;
    }
    assert(b@.subrange(s as int, i as int) =~= g);
    Some(v)
}

/// A longer digit string is worth at least as much as its prefix.
proof fn lemma_digits_prefix_bound(g: Seq<u8>, n: int)
    requires
        0 <= n <= g.len(),
        forall|i: int| 0 <= i < g.len() ==> is_digit(#[trigger] g[i]),
    ensures
        digits_value(g) >= digits_value(g.subrange(0, n)),
    decreases g.len(),
{
    if n < g.len() {
        let h = g.drop_last();
        assert forall|i: int| 0 <= i < h.len() implies is_digit(#[trigger] h[i]) by {
            assert(h[i] == g[i]);
        }
        lemma_digits_prefix_bound(h, n);
        assert(h.subrange(0, n) =~= g.subrange(0, n));
        lemma_digits_nonneg(h);
    } else {
        assert(g.subrange(0, n) =~= g);
    }
}

proof fn lemma_digits_nonneg(g: Seq<u8>)
    requires
        forall|i: int| 0 <= i < g.len() ==> is_digit(#[trigger] g[i]),
    ensures
        digits_value(g) >= 0,
    decreases g.len(),
{
    if g.len() > 0 {
        let h = g.drop_last();
        assert forall|i: int| 0 <= i < h.len() implies is_digit(#[trigger] h[i]) by {
            assert(h[i] == g[i]);
        }
        lemma_digits_nonneg(h);
    }
}

/// The ordering key of an EXIF date "YYYY:MM:DD HH:MM:SS", as [`exif_datetime`]
/// says; used to sort images by the date they were taken.
pub fn parse_exif_datetime(s: &str) -> (r: Option<u64>)
    ensures
        r matches Some(v) ==> exif_datetime(s.spec_bytes()) == Some(v as int),
        r is None ==> exif_datetime(s.spec_bytes()) is None,
{
    let b = s.as_bytes();
    let len: usize = b.len();
    let ghost d = b@;
    let e0 = find_sep(b, 0);
    if e0 >= len {
        proof { lemma_fields_run_out(d, 0); }
        return None;
    }
    let e1 = find_sep(b, e0 + 1);
    if e1 >= len {
        proof { lemma_fields_run_out(d, 1); }
        return None;
    }
    let e2 = find_sep(b, e1 + 1);
    if e2 >= len {
        proof { lemma_fields_run_out(d, 2); }
        return None;
    }
    let e3 = find_sep(b, e2 + 1);
    if e3 >= len {
        proof { lemma_fields_run_out(d, 3); }
        return None;
    }
    let e4 = find_sep(b, e3 + 1);
    if e4 >= len {
        return None;
    }
    let e5 = find_sep(b, e4 + 1);
    proof {
        lemma_next_sep_range(d, 0);
        lemma_next_sep_range(d, e0 + 1);
        lemma_next_sep_range(d, e1 + 1);
        lemma_next_sep_range(d, e2 + 1);
        lemma_next_sep_range(d, e3 + 1);
        lemma_next_sep_range(d, e4 + 1);
        assert(field_start(d, 0) == 0);
        assert(field_end(d, 0) == e0);
        assert(field_end(d, 1) == e1);
        assert(field_end(d, 2) == e2);
        assert(field_end(d, 3) == e3);
        assert(field_end(d, 4) == e4);
        assert(field_end(d, 5) == e5);
    }
    let y = match parse_u64(b, 0, e0) { Some(v) => v, None => return None };
    let mo = match parse_u64(b, e0 + 1, e1) { Some(v) => v, None => return None };
    let dd = match parse_u64(b, e1 + 1, e2) { Some(v) => v, None => return None };
    let h = match parse_u64(b, e2 + 1, e3) { Some(v) => v, None => return None };
    let mi = match parse_u64(b, e3 + 1, e4) { Some(v) => v, None => return None };
    let sec = match parse_u64(b, e4 + 1, e5) { Some(v) => v, None => return None };
    if y < 1970 || mo == 0 || mo > 12 || dd == 0 || dd > 31 {
        return None;
    }
    let days: u128 = (y as u128 - 1970) * 365 + (y as u128 - 1969) / 4 + (mo as u128 - 1) * 30 + dd as u128;
    proof {
        assert(days <= 0x1_0000_0000_0000_0000_0000_0000) by (nonlinear_arith)
            requires days == (y - 1970) * 365 + (y - 1969) / 4 + (mo - 1) * 30 + dd, y <= u64::MAX, mo <= 12, dd <= 31, y >= 1970;
    }
    let total: u128 = days * 86400 + h as u128 * 3600 + mi as u128 * 60 + sec as u128;
    if total > u64::MAX as u128 {
        return None;
    }
    Some(total as u64)
}

/// Once a field runs to the end, every later field ends there too.
proof fn lemma_fields_run_out(b: Seq<u8>, k: nat)
    requires
        field_end(b, k) >= b.len(),
        k <= 4,
    ensures
        field_end(b, 4) >= b.len(),
    decreases 4 - k,
{
    if k < 4 {
        assert(field_start(b, k + 1) == field_end(b, k) + 1);
        assert(field_end(b, k + 1) == b.len());
        lemma_fields_run_out(b, k + 1);
    }
}

} // verus!
