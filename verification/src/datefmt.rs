//! French-language date and time text from epoch timestamps. The calendar
//! arithmetic converts days since the epoch into civil year, month and
//! day; the formatters render the French weekday and month names. The hour
//! shift mirrors the fixed offset the rest of the system displays in.

use vstd::prelude::*;

use crate::dec::dec_bytes;
use crate::text::chars_of_bytes;

verus! {

/// Civil `(year, month, day)` of a day count since the epoch
/// (1970-01-01 is day zero). Follows the standard era decomposition of the
/// proleptic Gregorian calendar.
pub open spec fn civil_from_days(days: int) -> (int, int, int) {
    let z = days + 719468;
    let era = z / 146097;
    let doe = z - era * 146097;
    let yoe = (doe - doe / 1460 + doe / 36524 - doe / 146096) / 365;
    let y = yoe + era * 400;
    let doy = doe - (365 * yoe + yoe / 4 - yoe / 100);
    let mp = (5 * doy + 2) / 153;
    let d = doy - (153 * mp + 2) / 5 + 1;
    let m = if mp < 10 {
        mp + 3
    } else {
        mp - 9
    };
    ((if m <= 2 {
        y + 1
    } else {
        y
    }), m, d)
}

/// Law: the civil date of any day count on or after the epoch is a valid
/// Gregorian date: the month is one of the twelve and the day is within
/// the month's longest possible run.
pub proof fn lemma_civil_from_days_valid(days: int)
    requires
        days >= 0,
    ensures
        1 <= civil_from_days(days).1 <= 12,
        1 <= civil_from_days(days).2 <= 31,
{
    let z = days + 719468;
    let era = z / 146097;
    let doe = z - era * 146097;
    assert(0 <= doe <= 146096);
    let nn = doe - doe / 1460 + doe / 36524 - doe / 146096;
    let yoe = nn / 365;
    assert(0 <= nn <= 145999);
    assert(0 <= yoe <= 399);
    let doy = doe - (365 * yoe + yoe / 4 - yoe / 100);
    assert(365 * yoe + yoe / 4 - yoe / 100 <= doe);
    assert(doy <= 365) by {
        assert(365 * yoe > nn - 365);
        assert(nn >= doe - doe / 1460 + doe / 36524 - 1);
        assert(yoe / 4 >= doe / 1460 - 1) by {
            assert(365 * (4 * (doe / 1460)) <= nn + 365);
        }
        assert(yoe / 100 <= doe / 36524 + 1) by {
            assert(365 * (100 * (doe / 36524)) >= 36500 * (doe / 36524));
        }
    }
    let mp = (5 * doy + 2) / 153;
    assert(0 <= mp <= 11);
    let d = doy - (153 * mp + 2) / 5 + 1;
    assert(1 <= d);
    assert(d <= 31) by {
        assert(153 * mp > 5 * doy + 2 - 153);
        assert((153 * mp + 2) / 5 >= doy - 30);
    }
}

/// The day count of a civil date, inverse to `civil_from_days`: the same
/// era decomposition run forwards.
pub open spec fn days_from_civil(y: int, m: int, d: int) -> int {
    let yy = if m <= 2 {
        y - 1
    } else {
        y
    };
    let era = yy / 400;
    let yoe = yy - era * 400;
    let doy = (153 * (if m > 2 {
        m - 3
    } else {
        m + 9
    }) + 2) / 5 + d - 1;
    let doe = yoe * 365 + yoe / 4 - yoe / 100 + doy;
    era * 146097 + doe - 719468
}

/// Law: converting a day count to its civil date and back returns the day
/// count: `civil_from_days` inverts `days_from_civil`.
pub proof fn lemma_civil_days_round(days: int)
    requires
        days >= 0,
    ensures
        days_from_civil(
            civil_from_days(days).0,
            civil_from_days(days).1,
            civil_from_days(days).2,
        ) == days,
{
    let z = days + 719468;
    let era = z / 146097;
    let doe = z - era * 146097;
    assert(0 <= doe <= 146096);
    let nn = doe - doe / 1460 + doe / 36524 - doe / 146096;
    let yoe = nn / 365;
    assert(0 <= nn <= 145999);
    assert(0 <= yoe <= 399);
    let y = yoe + era * 400;
    let doy = doe - (365 * yoe + yoe / 4 - yoe / 100);
    assert(365 * yoe + yoe / 4 - yoe / 100 <= doe);
    let mp = (5 * doy + 2) / 153;
    assert(0 <= mp <= 11);
    let d = doy - (153 * mp + 2) / 5 + 1;
    assert((153 * mp + 2) / 5 <= doy);
    let m = if mp < 10 {
        mp + 3
    } else {
        mp - 9
    };
    let yf = if m <= 2 {
        y + 1
    } else {
        y
    };
    assert(civil_from_days(days) == (yf, m, d));
    let yy = if m <= 2 {
        yf - 1
    } else {
        yf
    };
    assert(yy == yoe + era * 400);
    assert(era >= 0);
    assert(yy / 400 == era) by {
        assert((yoe + era * 400) / 400 == era + yoe / 400);
    }
    let mp2 = if m > 2 {
        m - 3
    } else {
        m + 9
    };
    assert(mp2 == mp);
    assert((153 * mp + 2) / 5 + d - 1 == doy);
}

/// The weekday of a day count, with Sunday as zero.
pub open spec fn weekday_of_days(days: int) -> int {
    (days + 4) % 7
}

/// The full French weekday name.
pub open spec fn weekday_name(w: int) -> Seq<char> {
    if w == 1 {
        "lundi"@
    } else if w == 2 {
        "mardi"@
    } else if w == 3 {
        "mercredi"@
    } else if w == 4 {
        "jeudi"@
    } else if w == 5 {
        "vendredi"@
    } else if w == 6 {
        "samedi"@
    } else if w == 0 {
        "dimanche"@
    } else {
        ""@
    }
}

/// The short French weekday name.
pub open spec fn weekday_short(w: int) -> Seq<char> {
    if w == 1 {
        "lun"@
    } else if w == 2 {
        "mar"@
    } else if w == 3 {
        "mer"@
    } else if w == 4 {
        "jeu"@
    } else if w == 5 {
        "ven"@
    } else if w == 6 {
        "sam"@
    } else if w == 0 {
        "dim"@
    } else {
        ""@
    }
}

/// The French month name.
pub open spec fn month_name(m: int) -> Seq<char> {
    if m == 1 {
        "janvier"@
    } else if m == 2 {
        "f\u{e9}vrier"@
    } else if m == 3 {
        "mars"@
    } else if m == 4 {
        "avril"@
    } else if m == 5 {
        "mai"@
    } else if m == 6 {
        "juin"@
    } else if m == 7 {
        "juillet"@
    } else if m == 8 {
        "ao\u{fb}t"@
    } else if m == 9 {
        "septembre"@
    } else if m == 10 {
        "octobre"@
    } else if m == 11 {
        "novembre"@
    } else if m == 12 {
        "d\u{e9}cembre"@
    } else {
        ""@
    }
}

/// The decimal text of a non-negative number.
pub open spec fn num_chars(n: int) -> Seq<char>
    recommends
        n >= 0,
{
    chars_of_bytes(dec_bytes(n as nat))
}

/// A day ordinal in French: the first takes `er`.
pub open spec fn day_chars(d: int) -> Seq<char>
    recommends
        d >= 0,
{
    if d == 1 {
        "1er"@
    } else {
        num_chars(d)
    }
}

/// A two-digit zero-padded number.
pub open spec fn pad2_chars(n: int) -> Seq<char>
    recommends
        n >= 0,
{
    if n < 10 {
        seq!['0'] + num_chars(n)
    } else {
        num_chars(n)
    }
}

/// The long French date of a timestamp, shifted one hour ahead:
/// weekday, day, month, year.
pub open spec fn string_date_spec(ts: int) -> Seq<char> {
    let days = (ts + 3600) / 86400;
    let c = civil_from_days(days);
    weekday_name(weekday_of_days(days)) + " "@ + day_chars(c.2) + " "@ + month_name(c.1) + " "@
        + num_chars(c.0)
}

/// The short French date of a timestamp, shifted one hour ahead:
/// weekday, then `day/month` two digits each.
pub open spec fn slash_date_spec(ts: int) -> Seq<char> {
    let days = (ts + 3600) / 86400;
    let c = civil_from_days(days);
    weekday_short(weekday_of_days(days)) + " "@ + pad2_chars(c.2) + "/"@ + pad2_chars(c.1)
}

/// The French clock text of a time of day: hours unpadded, minutes two
/// digits, an `h` between.
pub open spec fn times_spec(ts: int) -> Seq<char> {
    let h = (ts / 3600) % 24;
    let m = (ts / 60) % 60;
    num_chars(h) + "h"@ + pad2_chars(m)
}

/// The decimal text of a number, as a string.
fn num_string(n: u64) -> (r: String)
    ensures
        r@ == num_chars(n as int),
{
    let mut bytes: Vec<u8> = Vec::new();
    crate::dec::write_u64_dec(&mut bytes, n);
    proof {
        crate::text::lemma_dec_bytes_ascii(n as nat);
        assert(bytes@ =~= dec_bytes(n as nat));
    }
    crate::text::ascii_string(bytes)
}

/// A two-digit zero-padded number, as a string.
fn pad2_string(n: u64) -> (r: String)
    ensures
        r@ == pad2_chars(n as int),
{
    let digits = num_string(n);
    if n < 10 {
        let mut r = "0".to_owned();
        r.append(digits.as_str());
        proof {
            reveal_strlit("0");
            assert("0"@ =~= seq!['0']);
        }
        r
    } else {
        digits
    }
}

/// The weekday, month and day of a day count, computed as
/// `civil_from_days` says.
fn civil_parts(days: u64) -> (r: (u64, u64, u64))
    requires
        days <= 146096999999,
    ensures
        (r.0 as int, r.1 as int, r.2 as int) == civil_from_days(days as int),
{
    let z = days + 719468;
    let era = z / 146097;
    let doe = z - era * 146097;
    let yoe = (doe - doe / 1460 + doe / 36524 - doe / 146096) / 365;
    let y = yoe + era * 400;
    proof {
        assert(doe <= 146096);
        assert(365 * yoe + yoe / 4 - yoe / 100 <= doe);
    }
    let doy = doe - (365 * yoe + yoe / 4 - yoe / 100);
    let mp = (5 * doy + 2) / 153;
    proof {
        assert((153 * mp + 2) / 5 <= doy);
    }
    let d = doy - (153 * mp + 2) / 5 + 1;
    let m = if mp < 10 {
        mp + 3
    } else {
        mp - 9
    };
    let yy = if m <= 2 {
        y + 1
    } else {
        y
    };
    (yy, m, d)
}

/// The full French weekday name.
fn weekday_name_str(w: u64) -> (r: &'static str)
    ensures
        r@ == weekday_name(w as int),
{
    if w == 1 {
        "lundi"
    } else if w == 2 {
        "mardi"
    } else if w == 3 {
        "mercredi"
    } else if w == 4 {
        "jeudi"
    } else if w == 5 {
        "vendredi"
    } else if w == 6 {
        "samedi"
    } else if w == 0 {
        "dimanche"
    } else {
        ""
    }
}

/// The short French weekday name.
fn weekday_short_str(w: u64) -> (r: &'static str)
    ensures
        r@ == weekday_short(w as int),
{
    if w == 1 {
        "lun"
    } else if w == 2 {
        "mar"
    } else if w == 3 {
        "mer"
    } else if w == 4 {
        "jeu"
    } else if w == 5 {
        "ven"
    } else if w == 6 {
        "sam"
    } else if w == 0 {
        "dim"
    } else {
        ""
    }
}

/// The French month name.
fn month_name_str(m: u64) -> (r: &'static str)
    ensures
        r@ == month_name(m as int),
{
    if m == 1 {
        "janvier"
    } else if m == 2 {
        "f\u{e9}vrier"
    } else if m == 3 {
        "mars"
    } else if m == 4 {
        "avril"
    } else if m == 5 {
        "mai"
    } else if m == 6 {
        "juin"
    } else if m == 7 {
        "juillet"
    } else if m == 8 {
        "ao\u{fb}t"
    } else if m == 9 {
        "septembre"
    } else if m == 10 {
        "octobre"
    } else if m == 11 {
        "novembre"
    } else if m == 12 {
        "d\u{e9}cembre"
    } else {
        ""
    }
}

/// Renders a timestamp as the long French date, such as
/// `jeudi 21 d\u{e9}cembre 2023`.
pub fn format_timestamp_into_string_date(timestamp: i64) -> (r: String)
    requires
        0 <= timestamp <= 12622780799000,
    ensures
        r@ == string_date_spec(timestamp as int),
{
    let ts = timestamp as u64;
    let days = (ts + 3600) / 86400;
    let (y, m, d) = civil_parts(days);
    let w = (days + 4) % 7;
    let mut r = weekday_name_str(w).to_owned();
    r.append(" ");
    if d == 1 {
        r.append("1er");
        proof {
            reveal_strlit("1er");
        }
    } else {
        let dstr = num_string(d);
        r.append(dstr.as_str());
    }
    r.append(" ");
    r.append(month_name_str(m));
    r.append(" ");
    let ystr = num_string(y);
    r.append(ystr.as_str());
    proof {
        assert(r@ =~= string_date_spec(timestamp as int));
    }
    r
}

/// Renders a timestamp as the short French date, such as `jeu 21/12`.
pub fn format_timestamp_into_slash_date(timestamp: i64) -> (r: String)
    requires
        0 <= timestamp <= 12622780799000,
    ensures
        r@ == slash_date_spec(timestamp as int),
{
    let ts = timestamp as u64;
    let days = (ts + 3600) / 86400;
    let (_y, m, d) = civil_parts(days);
    let w = (days + 4) % 7;
    let mut r = weekday_short_str(w).to_owned();
    r.append(" ");
    let dstr = pad2_string(d);
    r.append(dstr.as_str());
    r.append("/");
    let mstr = pad2_string(m);
    r.append(mstr.as_str());
    proof {
        assert(r@ =~= slash_date_spec(timestamp as int));
    }
    r
}

/// Renders a time of day as French clock text, such as `9h00`.
pub fn format_timestamp_into_string_times(timestamp: i32) -> (r: String)
    requires
        0 <= timestamp,
    ensures
        r@ == times_spec(timestamp as int),
{
    let ts = timestamp as u64;
    let h = (ts / 3600) % 24;
    let m = (ts / 60) % 60;
    let mut r = num_string(h);
    r.append("h");
    let mstr = pad2_string(m);
    r.append(mstr.as_str());
    proof {
        assert(r@ =~= times_spec(timestamp as int));
    }
    r
}

} // verus!
