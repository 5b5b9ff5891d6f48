//! The taginfo `data_until` timestamp: the parent's replication timestamp
//! if set, else the archive directory's modification time, else now;
//! formatted as taginfo does, `YYYY-MM-DDThh:mm:ssZ` (UTC, second
//! precision). Reading the directory's mtime and the clock is the caller's.

use vstd::prelude::*;
use vstd::string::*;
use osmflat::Osm;
use time::OffsetDateTime;
use crate::archive::replication_timestamp;

verus! {

/// The proleptic Gregorian date `(year, month 1-12, day 1-31)` of a day
/// count from 1970-01-01, counting in 400-year eras of 146097 days with
/// years taken to start on 1 March (so that leap days fall last).
pub open spec fn civil_date(days: int) -> (int, int, int) {
    let z = days + 719468;
    let era = z / 146097;
    let doe = z - era * 146097;
    let yoe = (doe - doe / 1460 + doe / 36524 - doe / 146096) / 365;
    let doy = doe - (365 * yoe + yoe / 4 - yoe / 100);
    let mp = (5 * doy + 2) / 153;
    let d = doy - (153 * mp + 2) / 5 + 1;
    let m = if mp < 10 { mp + 3 } else { mp - 9 };
    (yoe + era * 400 + (if m <= 2 { 1int } else { 0int }), m, d)
}

/// The UTC calendar date of a Unix timestamp: that of its day, the seconds
/// divided by 86400 and rounded down.
pub open spec fn utc_date(secs: i64) -> (int, int, int) {
    civil_date(secs as int / 86400)
}

/// The timestamps every build of `time` can represent: years -9999 to 9999.
pub open spec fn representable(secs: i64) -> bool {
    -377705116800 <= secs <= 253402300799
}

/// The timestamps some build of `time` can represent: years -999999 to
/// 999999, with its `large-dates` feature.
pub open spec fn representable_in_some_build(secs: i64) -> bool {
    -31619087596800 <= secs <= 31494784780799
}

/// `OffsetDateTime::from_unix_timestamp(secs)` taken apart into
/// `(year, month, day, hour, minute, second)`, or `None` where `time` refuses
/// the timestamp. Assumed of it (time's source and documentation): every
/// `representable` timestamp is accepted and none beyond
/// `representable_in_some_build`; the date is the proleptic Gregorian date
/// of the timestamp's day (`utc_date`); the time of day is the seconds
/// within the day (`rem_euclid`) split into hours, minutes and seconds.
#[verifier::external_body]
fn utc_fields(secs: i64) -> (r: Option<(i32, u8, u8, u8, u8, u8)>)
    ensures
        representable(secs) ==> r is Some,
        !representable_in_some_build(secs) ==> r is None,
        r matches Some(f) ==> {
            &&& f.0 as int == utc_date(secs).0
            &&& f.1 as int == utc_date(secs).1
            &&& f.2 as int == utc_date(secs).2
            &&& f.3 == (secs % 86400) / 3600
            &&& f.4 == (secs % 3600) / 60
            &&& f.5 == secs % 60
        },
{
    match OffsetDateTime::from_unix_timestamp(secs) {
        Ok(dt) => Some(
            (dt.year(), u8::from(dt.month()), dt.day(), dt.hour(), dt.minute(), dt.second()),
        ),
        Err(_) => None,
    }
}


/// The character of a decimal digit.
pub open spec fn digit_char(d: int) -> char {
    (d + 48) as char
}

/// The decimal digits of `n`.
pub open spec fn decimal(n: nat) -> Seq<char>
    decreases n,
{
    if n < 10 {
        seq![digit_char(n as int)]
    } else {
        decimal(n / 10).push(digit_char((n % 10) as int))
    }
}

/// `n` as `format!("{:0width$}")` writes it: the sign, then zeros until the
/// sign and digits fill `width`, then the digits.
pub open spec fn zero_padded(n: int, width: int) -> Seq<char> {
    let digits = decimal((if n < 0 { -n } else { n }) as nat);
    let sign: Seq<char> = if n < 0 { seq!['-'] } else { Seq::empty() };
    let fill = width - sign.len() - digits.len();
    sign + Seq::new((if fill > 0 { fill } else { 0 }) as nat, |i: int| '0') + digits
}

/// `YYYY-MM-DDThh:mm:ssZ` for the given fields.
pub open spec fn utc_text(f: (i32, u8, u8, u8, u8, u8)) -> Seq<char> {
    zero_padded(f.0 as int, 4) + seq!['-'] + zero_padded(f.1 as int, 2) + seq!['-']
        + zero_padded(f.2 as int, 2) + seq!['T'] + zero_padded(f.3 as int, 2) + seq![':']
        + zero_padded(f.4 as int, 2) + seq![':'] + zero_padded(f.5 as int, 2) + seq!['Z']
}

/// The fields of a Unix timestamp: its UTC date and time of day.
pub open spec fn utc_fields_of(secs: i64) -> (i32, u8, u8, u8, u8, u8) {
    let d = utc_date(secs);
    (
        d.0 as i32,
        d.1 as u8,
        d.2 as u8,
        ((secs % 86400) / 3600) as u8,
        ((secs % 3600) / 60) as u8,
        (secs % 60) as u8,
    )
}

/// The text written for the epoch, used when a timestamp is out of range.
pub open spec fn epoch_text() -> Seq<char> {
    seq!['1', '9', '7', '0', '-', '0', '1', '-', '0', '1', 'T', '0', '0', ':', '0', '0', ':', '0', '0', 'Z']
}

/// What `format_utc` writes for `secs`: its UTC text where every build of
/// `time` represents it, the epoch's where none does, and in between
/// (years beyond ±9999 that only a `large-dates` build represents) the one
/// or the other, as the build has it.
pub open spec fn utc_text_or_epoch(secs: i64, s: Seq<char>) -> bool {
    if representable(secs) {
        s == utc_text(utc_fields_of(secs))
    } else if representable_in_some_build(secs) {
        s == utc_text(utc_fields_of(secs)) || s == epoch_text()
    } else {
        s == epoch_text()
    }
}

fn digit_str(d: u64) -> (s: &'static str)
    requires
        d < 10,
    ensures
        s@ == seq![digit_char(d as int)],
{
    proof {
        reveal_strlit("0");
        reveal_strlit("1");
        reveal_strlit("2");
        reveal_strlit("3");
        reveal_strlit("4");
        reveal_strlit("5");
        reveal_strlit("6");
        reveal_strlit("7");
        reveal_strlit("8");
        reveal_strlit("9");
    }
    match d {
        0 => "0",
        1 => "1",
        2 => "2",
        3 => "3",
        4 => "4",
        5 => "5",
        6 => "6",
        7 => "7",
        8 => "8",
        _ => "9",
    }
}

fn push_decimal(s: &mut String, n: u64)
    ensures
        final(s)@ == old(s)@ + decimal(n as nat),
    decreases n,
{
    if n >= 10 {
        push_decimal(s, n / 10);
    }
    s.append(digit_str(n % 10));
    proof {
        if n >= 10 {
            assert(final(s)@ =~= old(s)@ + decimal(n as nat));
        }
    }
}

proof fn lemma_decimal_len_le(n: nat)
    ensures
        n >= 10 ==> decimal(n / 10).len() < n,
        decimal(n).len() <= n + 1,
    decreases n,
{
    if n >= 10 {
        lemma_decimal_len_le(n / 10);
    }
}

fn decimal_len(n: u64) -> (l: u64)
    ensures
        l == decimal(n as nat).len(),
    decreases n,
{
    if n < 10 {
        1
    } else {
        let l = decimal_len(n / 10);
        assert(l < n) by {
            lemma_decimal_len_le(n as nat);
        }
        l + 1
    }
}

fn push_zero_padded(s: &mut String, n: i64, width: u64)
    requires
        n > i64::MIN,
    ensures
        final(s)@ == old(s)@ + zero_padded(n as int, width as int),
{
    let magnitude: u64 = if n < 0 { (-n) as u64 } else { n as u64 };
    let sign_len: u64 = if n < 0 { 1 } else { 0 };
    if n < 0 {
        proof {
            reveal_strlit("-");
        }
        s.append("-");
    }
    let used: u128 = sign_len as u128 + decimal_len(magnitude) as u128;
    let ghost after_sign = s@;
    let fill: u64 = if width as u128 > used { (width as u128 - used) as u64 } else { 0 };
    let ghost zeros = fill;
    let mut written: u64 = 0;
    while written < fill
        invariant
            written <= fill,
            s@ == after_sign + Seq::new(written as nat, |i: int| '0'),
        decreases fill - written,
    {
        proof {
            reveal_strlit("0");
        }
        s.append("0");
        written = written + 1;
        proof {
            assert(s@ =~= after_sign + Seq::new(written as nat, |i: int| '0'));
        }
    }
    push_decimal(s, magnitude);
    proof {
        assert(final(s)@ =~= old(s)@ + zero_padded(n as int, width as int));
    }
}

/// Within a 400-year era, the year of the era and the day of that
/// (March-based) year stay in range.
proof fn lemma_era_day_bounds(doe: int)
    requires
        0 <= doe <= 146096,
    ensures
        ({
            let yoe = (doe - doe / 1460 + doe / 36524 - doe / 146096) / 365;
            let doy = doe - (365 * yoe + yoe / 4 - yoe / 100);
            &&& 0 <= yoe <= 399
            &&& 0 <= doy <= 365
            &&& doe <= 146036 && yoe == 399 ==> doy <= 305
        }),
{
}

/// From the epoch to the end of year 9999, the date has a year of at most
/// four digits, a month in 1..=12 and a day in 1..=31.
proof fn lemma_civil_date_bounds(days: int)
    requires
        0 <= days <= 2932896,
    ensures
        1970 <= civil_date(days).0 <= 9999,
        1 <= civil_date(days).1 <= 12,
        1 <= civil_date(days).2 <= 31,
{
    let z = days + 719468;
    let era = z / 146097;
    let doe = z - era * 146097;
    assert(4 <= era <= 24);
    assert(0 <= doe <= 146096);
    lemma_era_day_bounds(doe);
    if era == 24 {
        assert(doe <= 146036);
    }
    if days < 365 {
        assert(era == 4);
    }
}

/// `10` to the power `k`.
pub open spec fn pow10(k: nat) -> nat
    decreases k,
{
    if k == 0 {
        1
    } else {
        10 * pow10((k - 1) as nat)
    }
}

/// A number below `10^k` has at most `k` decimal digits.
proof fn lemma_decimal_len_below(n: nat, k: nat)
    requires
        k >= 1,
        n < pow10(k),
    ensures
        decimal(n).len() <= k,
    decreases k,
{
    if n >= 10 {
        if k == 1 {
            assert(pow10(1) == 10) by {
                reveal_with_fuel(pow10, 2);
            }
        }
        lemma_decimal_len_below(n / 10, (k - 1) as nat);
    }
}

/// A non-negative number below `10^width` is written in exactly `width`
/// characters, zeros first.
proof fn lemma_zero_padded_len(n: int, width: nat)
    requires
        width >= 1,
        0 <= n < pow10(width),
    ensures
        zero_padded(n, width as int).len() == width,
{
    lemma_decimal_len_below(n as nat, width);
}

/// Every timestamp from the epoch to the end of year 9999 is written in
/// exactly 20 characters, `YYYY-MM-DDThh:mm:ssZ`.
pub proof fn lemma_utc_text_len(secs: i64)
    requires
        0 <= secs <= 253402300799,
    ensures
        utc_text(utc_fields_of(secs)).len() == 20,
{
    let days = secs as int / 86400;
    lemma_civil_date_bounds(days);
    let f = utc_fields_of(secs);
    assert(pow10(2) == 100 && pow10(4) == 10000) by {
        reveal_with_fuel(pow10, 5);
    }
    lemma_zero_padded_len(f.0 as int, 4);
    lemma_zero_padded_len(f.1 as int, 2);
    lemma_zero_padded_len(f.2 as int, 2);
    lemma_zero_padded_len(f.3 as int, 2);
    lemma_zero_padded_len(f.4 as int, 2);
    lemma_zero_padded_len(f.5 as int, 2);
}

/// `2026-06-29T00:00:00Z` for a Unix timestamp; the epoch's text if `time`
/// refuses it.
pub fn format_utc(unix_secs: i64) -> (s: String)
    ensures
        utc_text_or_epoch(unix_secs, s@),
        0 <= unix_secs <= 253402300799 ==> s@.len() == 20,
{
    proof {
        if 0 <= unix_secs <= 253402300799 {
            lemma_utc_text_len(unix_secs);
        }
    }
    match utc_fields(unix_secs) {
        Some(f) => {
            let mut s = String::new();
            push_zero_padded(&mut s, f.0 as i64, 4);
            proof { reveal_strlit("-"); reveal_strlit("T"); reveal_strlit(":"); reveal_strlit("Z"); }
            s.append("-");
            push_zero_padded(&mut s, f.1 as i64, 2);
            s.append("-");
            push_zero_padded(&mut s, f.2 as i64, 2);
            s.append("T");
            push_zero_padded(&mut s, f.3 as i64, 2);
            s.append(":");
            push_zero_padded(&mut s, f.4 as i64, 2);
            s.append(":");
            push_zero_padded(&mut s, f.5 as i64, 2);
            s.append("Z");
            assert(f == utc_fields_of(unix_secs));
            assert(s@ =~= utc_text(f));
            s
        },
        None => {
            let s = String::from_str("1970-01-01T00:00:00Z");
            proof {
                reveal_strlit("1970-01-01T00:00:00Z");
            }
            assert(s@ =~= epoch_text());
            s
        },
    }
}

/// A replication timestamp counts when it is positive.
pub open spec fn replication_secs_of(ts: i64) -> Option<i64> {
    if ts > 0 {
        Some(ts)
    } else {
        None
    }
}

/// A stored replication timestamp, if it is set (positive).
pub fn replication_secs(ts: i64) -> (r: Option<i64>)
    ensures
        r == replication_secs_of(ts),
{
    if ts > 0 {
        Some(ts)
    } else {
        None
    }
}

/// The parent's replication timestamp, if it is set (positive).
pub fn parent_replication_secs(parent: &Osm) -> (r: Option<i64>)
    ensures
        r matches Some(ts) ==> ts > 0,
{
    replication_secs(replication_timestamp(parent))
}

/// The freshness source in priority order: the replication timestamp, else
/// the directory mtime, else now.
pub open spec fn chosen_secs(replication: Option<i64>, dir_mtime: Option<i64>, now: i64) -> i64 {
    match replication {
        Some(ts) => ts,
        None => match dir_mtime {
            Some(m) => m,
            None => now,
        },
    }
}

/// The Unix seconds `data_until` reports: the replication timestamp if
/// set, else the directory mtime if readable, else now.
pub fn freshness_secs(replication: Option<i64>, dir_mtime: Option<i64>, now: i64) -> (s: i64)
    ensures
        s == chosen_secs(replication, dir_mtime, now),
{
    match replication {
        Some(ts) => ts,
        None => match dir_mtime {
            Some(m) => m,
            None => now,
        },
    }
}

/// The `data_until` text for the parent archive, given its directory's
/// modification time (if readable) and the current time, both in Unix
/// seconds.
pub fn data_until(parent: &Osm, dir_mtime: Option<i64>, now: i64) -> (s: String)
    ensures
        exists|replication: Option<i64>|
            (replication matches Some(ts) ==> ts > 0) && utc_text_or_epoch(
                #[trigger] chosen_secs(replication, dir_mtime, now),
                s@,
            ),
{
    let replication = parent_replication_secs(parent);
    format_utc(freshness_secs(replication, dir_mtime, now))
}

} // verus!
