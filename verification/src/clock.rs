//! The wall clock: the current UTC date and time, and the two forms in
//! which it is written (RFC 3339 for catalog rows, `YYYYmmdd-HHMMSS` for
//! backup file names).

use vstd::prelude::*;
use crate::oauth::{decimal, decimal_text};

verus! {

/// A UTC date and time of day, as the `chrono` crate hands it out.
#[derive(Debug)]
pub struct UtcTime {
    pub year: i32,
    pub month: u32,
    pub day: u32,
    pub hour: u32,
    pub minute: u32,
    pub second: u32,
    pub nanosecond: u32,
}

impl UtcTime {
    /// Every field lies in its range.
    pub open spec fn valid(self) -> bool {
        &&& 1 <= self.month <= 12
        &&& 1 <= self.day <= 31
        &&& self.hour < 24
        &&& self.minute < 60
        &&& self.second < 60
        &&& self.nanosecond < 1_000_000_000
    }
}

/// The start of the unix epoch, 1970-01-01 00:00:00 UTC.
pub open spec fn epoch_time() -> UtcTime {
    UtcTime { year: 1970, month: 1, day: 1, hour: 0, minute: 0, second: 0, nanosecond: 0 }
}

/// The calendar date (year, month, day) of the UTC day that holds the unix
/// time `secs`, as `chrono` computes it; `None` outside `chrono`'s range.
pub uninterp spec fn utc_date_of(secs: i64) -> Option<(i32, u32, u32)>;

/// `std::time::SystemTime::now` measured against `UNIX_EPOCH` with
/// `duration_since`: the time since the epoch (`Ok`) or, for a clock set
/// before it, the time before it (`Err`, from `SystemTimeError::duration`),
/// each as whole seconds and the nanoseconds beyond them. The reading is the
/// machine's: only that the nanoseconds stay below a second is stated.
#[verifier::external_body]
pub(crate) fn system_clock() -> (r: Result<(u64, u32), (u64, u32)>)
    ensures
        match r {
            Ok((_, n)) => n < 1_000_000_000,
            Err((_, n)) => n < 1_000_000_000,
        },
{
    match std::time::SystemTime::now().duration_since(std::time::UNIX_EPOCH) {
        Ok(d) => Ok((d.as_secs(), d.subsec_nanos())),
        Err(e) => Err((e.duration().as_secs(), e.duration().subsec_nanos())),
    }
}

/// `chrono::DateTime::from_timestamp(secs, nanos)` read back through
/// `Datelike` and `Timelike`. The date is given the name `utc_date_of`; the
/// call fails exactly when that date is outside `chrono`'s range. The time
/// of day is the seconds past midnight (`secs` modulo a day) and the
/// nanoseconds handed in.
#[verifier::external_body]
fn utc_fields(secs: i64, nanos: u32) -> (r: Option<UtcTime>)
    requires
        nanos < 1_000_000_000,
    ensures
        match r {
            Some(t) => {
                &&& utc_date_of(secs) == Some((t.year, t.month, t.day))
                &&& 1 <= t.month <= 12
                &&& 1 <= t.day <= 31
                &&& t.hour < 24
                &&& t.minute < 60
                &&& t.second < 60
                &&& t.hour * 3600 + t.minute * 60 + t.second == secs % 86400
                &&& t.nanosecond == nanos
            },
            None => utc_date_of(secs) is None,
        },
{
    chrono::DateTime::from_timestamp(secs, nanos).map(
        |d| UtcTime {
            year: chrono::Datelike::year(&d),
            month: chrono::Datelike::month(&d),
            day: chrono::Datelike::day(&d),
            hour: chrono::Timelike::hour(&d),
            minute: chrono::Timelike::minute(&d),
            second: chrono::Timelike::second(&d),
            nanosecond: chrono::Timelike::nanosecond(&d),
        },
    )
}

/// `t` is the UTC date and time of some unix time.
pub open spec fn is_utc_reading(t: UtcTime) -> bool {
    exists|secs: i64|
        #[trigger] utc_date_of(secs) == Some((t.year, t.month, t.day)) && t.hour * 3600 + t.minute
            * 60 + t.second == secs % 86400
}

/// A clock reading (see `system_clock`) as signed seconds since the epoch
/// and the nanoseconds beyond them, counting back from the epoch as
/// `chrono` reads a time before it.
pub open spec fn signed_reading(reading: Result<(u64, u32), (u64, u32)>) -> (int, int) {
    match reading {
        Ok((s, n)) => (s as int, n as int),
        Err((s, n)) => if n == 0 {
            (-s, 0)
        } else {
            (-s - 1, 1_000_000_000 - n)
        },
    }
}

/// The UTC date and time of a clock reading: the date `chrono` gives for
/// its seconds, the time of day from the seconds past midnight, and its
/// nanoseconds. A reading whose seconds do not fit an `i64`, or whose date
/// is outside `chrono`'s range, gives the epoch.
pub fn utc_time_of(reading: Result<(u64, u32), (u64, u32)>) -> (r: UtcTime)
    requires
        match reading {
            Ok((_, n)) => n < 1_000_000_000,
            Err((_, n)) => n < 1_000_000_000,
        },
    ensures
        r.valid(),
        ({
            let (secs, nanos) = signed_reading(reading);
            if i64::MIN <= secs <= i64::MAX && utc_date_of(secs as i64) is Some {
                &&& utc_date_of(secs as i64) == Some((r.year, r.month, r.day))
                &&& r.hour * 3600 + r.minute * 60 + r.second == secs % 86400
                &&& r.nanosecond == nanos
            } else {
                r == epoch_time()
            }
        }),
{
    let epoch = UtcTime { year: 1970, month: 1, day: 1, hour: 0, minute: 0, second: 0, nanosecond: 0 };
    let (secs, nanos): (i128, u32) = match reading {
        Ok((s, n)) => (s as i128, n),
        Err((s, n)) => {
            if n == 0 {
                (-(s as i128), 0)
            } else {
                (-(s as i128) - 1, 1_000_000_000 - n)
            }
        },
    };
    if secs < -9_223_372_036_854_775_808i128 || secs > 9_223_372_036_854_775_807i128 {
        return epoch;
    }
    match utc_fields(secs as i64, nanos) {
        Some(t) => t,
        None => epoch,
    }
}

/// The current UTC date and time (see `utc_time_of`).
pub fn utc_now() -> (r: UtcTime)
    ensures
        r.valid(),
        is_utc_reading(r) || r == epoch_time(),
{
    let reading = system_clock();
    let r = utc_time_of(reading);
    proof {
        let (secs, nanos) = signed_reading(reading);
        if i64::MIN <= secs <= i64::MAX && utc_date_of(secs as i64) is Some {
            assert(utc_date_of(secs as i64) == Some((r.year, r.month, r.day)));
        }
    }
    r
}

/// `n` zeros.
pub open spec fn zeros(n: nat) -> Seq<char>
    decreases n,
{
    if n == 0 {
        Seq::empty()
    } else {
        zeros((n - 1) as nat).push('0')
    }
}

/// `n` in decimal, padded with zeros in front to at least `width` digits.
pub open spec fn padded(n: nat, width: nat) -> Seq<char> {
    let d = decimal(n);
    if d.len() < width {
        zeros((width - d.len()) as nat) + d
    } else {
        d
    }
}

/// `n` in decimal, padded with zeros in front to at least `width` digits.
pub fn padded_text(n: u64, width: usize) -> (r: String)
    ensures
        r@ == padded(n as nat, width as nat),
{
    proof {
        reveal_strlit("0");
    }
    let d = decimal_text(n);
    let len = d.as_str().unicode_len();
    let mut r = String::new();
    if len < width {
        let count = width - len;
        let mut i: usize = 0;
        while i < count
            invariant
                i <= count,
                r@ == zeros(i as nat),
                "0"@ == seq!['0'],
            decreases count - i,
        {
            r.append("0");
            i = i + 1;
        }
    }
    r.append(d.as_str());
    r
}

/// A year as `chrono` writes it in `%Y` and RFC 3339: four digits for the
/// years 0 to 9999, otherwise with its sign (at least four digits).
pub open spec fn year_text(y: int) -> Seq<char> {
    if 0 <= y <= 9999 {
        padded(y as nat, 4)
    } else if y > 9999 {
        seq!['+'] + decimal(y as nat)
    } else {
        seq!['-'] + padded((-y) as nat, 4)
    }
}

/// A year as `chrono` writes it (see `year_text`).
pub fn year_string(y: i32) -> (r: String)
    ensures
        r@ == year_text(y as int),
{
    proof {
        reveal_strlit("+");
        reveal_strlit("-");
    }
    if 0 <= y && y <= 9999 {
        padded_text(y as u64, 4)
    } else if y > 9999 {
        let mut r = String::from_str("+");
        let d = decimal_text(y as u64);
        r.append(d.as_str());
        r
    } else {
        let mut r = String::from_str("-");
        let m: i64 = -(y as i64);
        let d = padded_text(m as u64, 4);
        r.append(d.as_str());
        r
    }
}

/// The compact form `YYYYmmdd-HHMMSS` (chrono's `%Y%m%d-%H%M%S`).
pub open spec fn compact_stamp_of(t: UtcTime) -> Seq<char> {
    year_text(t.year as int) + padded(t.month as nat, 2) + padded(t.day as nat, 2) + seq!['-']
        + padded(t.hour as nat, 2) + padded(t.minute as nat, 2) + padded(t.second as nat, 2)
}

/// The compact form of a date and time (see `compact_stamp_of`).
pub fn compact_stamp(t: &UtcTime) -> (r: String)
    ensures
        r@ == compact_stamp_of(*t),
{
    proof {
        reveal_strlit("-");
    }
    let mut r = year_string(t.year);
    r.append(padded_text(t.month as u64, 2).as_str());
    r.append(padded_text(t.day as u64, 2).as_str());
    r.append("-");
    r.append(padded_text(t.hour as u64, 2).as_str());
    r.append(padded_text(t.minute as u64, 2).as_str());
    r.append(padded_text(t.second as u64, 2).as_str());
    r
}

/// The fraction of a second in RFC 3339 as `chrono` writes it by default:
/// none for a whole second, else milli-, micro- or nanoseconds, whichever
/// is exact.
pub open spec fn fraction_text(nano: nat) -> Seq<char> {
    if nano == 0 {
        Seq::empty()
    } else if nano % 1_000_000 == 0 {
        seq!['.'] + padded(nano / 1_000_000, 3)
    } else if nano % 1000 == 0 {
        seq!['.'] + padded(nano / 1000, 6)
    } else {
        seq!['.'] + padded(nano, 9)
    }
}

/// A UTC date and time in RFC 3339 (chrono's `to_rfc3339` of a UTC time):
/// `YYYY-MM-DDTHH:MM:SS`, the fraction, and `+00:00`.
pub open spec fn rfc3339_of(t: UtcTime) -> Seq<char> {
    year_text(t.year as int) + seq!['-'] + padded(t.month as nat, 2) + seq!['-'] + padded(
        t.day as nat,
        2,
    ) + seq!['T'] + padded(t.hour as nat, 2) + seq![':'] + padded(t.minute as nat, 2) + seq![':']
        + padded(t.second as nat, 2) + fraction_text(t.nanosecond as nat) + "+00:00"@
}

/// An ASCII decimal digit.
pub open spec fn is_digit(c: char) -> bool {
    '0' <= c <= '9'
}

proof fn lemma_decimal_shape(n: nat)
    ensures
        decimal(n).len() >= 1,
        forall|i: int| 0 <= i < decimal(n).len() ==> is_digit(#[trigger] decimal(n)[i]),
        n < 10 ==> decimal(n).len() == 1,
        n < 100 ==> decimal(n).len() <= 2,
        n < 1000 ==> decimal(n).len() <= 3,
        n < 10000 ==> decimal(n).len() <= 4,
    decreases n,
{
    if n >= 10 {
        lemma_decimal_shape(n / 10);
        let d = decimal(n / 10);
        assert forall|i: int| 0 <= i < decimal(n).len() implies is_digit(#[trigger] decimal(n)[i]) by {
            if i < d.len() {
                assert(decimal(n)[i] == d[i]);
            }
        }
    }
}

proof fn lemma_zeros(n: nat)
    ensures
        zeros(n).len() == n,
        forall|i: int| 0 <= i < n ==> #[trigger] zeros(n)[i] == '0',
    decreases n,
{
    if n > 0 {
        lemma_zeros((n - 1) as nat);
        assert forall|i: int| 0 <= i < n implies #[trigger] zeros(n)[i] == '0' by {
            if i < n - 1 {
                assert(zeros(n)[i] == zeros((n - 1) as nat)[i]);
            }
        }
    }
}

proof fn lemma_padded_shape(n: nat, width: nat)
    requires
        width == 2 && n < 100 || width == 4 && n < 10000,
    ensures
        padded(n, width).len() == width,
        forall|i: int| 0 <= i < width ==> is_digit(#[trigger] padded(n, width)[i]),
{
    lemma_decimal_shape(n);
    let d = decimal(n);
    if d.len() < width {
        lemma_zeros((width - d.len()) as nat);
        let z = zeros((width - d.len()) as nat);
        assert forall|i: int| 0 <= i < width implies is_digit(#[trigger] padded(n, width)[i]) by {
            if i < z.len() {
                assert(padded(n, width)[i] == z[i]);
            } else {
                assert(padded(n, width)[i] == d[i - z.len()]);
            }
        }
    }
}

/// For the years 0 to 9999 the compact form is fifteen characters: eight
/// digits, `-`, and six digits.
pub proof fn lemma_compact_stamp_shape(t: UtcTime)
    requires
        t.valid(),
        0 <= t.year <= 9999,
    ensures
        compact_stamp_of(t).len() == 15,
        compact_stamp_of(t)[8] == '-',
        forall|i: int| 0 <= i < 15 && i != 8 ==> is_digit(#[trigger] compact_stamp_of(t)[i]),
{
    let y = padded(t.year as nat, 4);
    let mo = padded(t.month as nat, 2);
    let d = padded(t.day as nat, 2);
    let h = padded(t.hour as nat, 2);
    let mi = padded(t.minute as nat, 2);
    let s = padded(t.second as nat, 2);
    lemma_padded_shape(t.year as nat, 4);
    lemma_padded_shape(t.month as nat, 2);
    lemma_padded_shape(t.day as nat, 2);
    lemma_padded_shape(t.hour as nat, 2);
    lemma_padded_shape(t.minute as nat, 2);
    lemma_padded_shape(t.second as nat, 2);
    let c = compact_stamp_of(t);
    assert(c == y + mo + d + seq!['-'] + h + mi + s);
    assert forall|i: int| 0 <= i < 15 && i != 8 implies is_digit(#[trigger] c[i]) by {
        if i < 4 {
            assert(c[i] == y[i]);
        } else if i < 6 {
            assert(c[i] == mo[i - 4]);
        } else if i < 8 {
            assert(c[i] == d[i - 6]);
        } else if i < 11 {
            assert(c[i] == h[i - 9]);
        } else if i < 13 {
            assert(c[i] == mi[i - 11]);
        } else {
            assert(c[i] == s[i - 13]);
        }
    }
}

/// A UTC date and time in RFC 3339 (see `rfc3339_of`).
pub fn rfc3339_text(t: &UtcTime) -> (r: String)
    ensures
        r@ == rfc3339_of(*t),
{
    proof {
        reveal_strlit("-");
        reveal_strlit("T");
        reveal_strlit(":");
        reveal_strlit(".");
    }
    let mut r = year_string(t.year);
    r.append("-");
    r.append(padded_text(t.month as u64, 2).as_str());
    r.append("-");
    r.append(padded_text(t.day as u64, 2).as_str());
    r.append("T");
    r.append(padded_text(t.hour as u64, 2).as_str());
    r.append(":");
    r.append(padded_text(t.minute as u64, 2).as_str());
    r.append(":");
    r.append(padded_text(t.second as u64, 2).as_str());
    let ghost head = r@;
    let nano = t.nanosecond;
    if nano == 0 {
    } else if nano % 1_000_000 == 0 {
        r.append(".");
        r.append(padded_text((nano / 1_000_000) as u64, 3).as_str());
    } else if nano % 1000 == 0 {
        r.append(".");
        r.append(padded_text((nano / 1000) as u64, 6).as_str());
    } else {
        r.append(".");
        r.append(padded_text(nano as u64, 9).as_str());
    }
    assert(r@ =~= head + fraction_text(nano as nat));
    r.append("+00:00");
    r
}

/// The current time in RFC 3339 (see `utc_now` and `rfc3339_of`).
pub fn now_iso() -> (r: String)
    ensures
        exists|t: UtcTime| t.valid() && (is_utc_reading(t) || t == epoch_time()) && r@ == rfc3339_of(t),
{
    let t = utc_now();
    rfc3339_text(&t)
}

} // verus!
