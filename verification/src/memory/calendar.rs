//! Timestamps: the proleptic Gregorian calendar and ISO 8601.

use vstd::prelude::*;
use core::time::Duration;
use crate::text::{decimal, one_line, zero_padded, zero_padded_text};
use crate::time::whole_nanos;

verus! {

// ---------------------------------------------------------------------------
// The calendar
// ---------------------------------------------------------------------------

/// Whether `y` is a leap year.
pub open spec fn is_leap(y: int) -> bool {
    y % 4 == 0 && (y % 100 != 0 || y % 400 == 0)
}

/// The number of days in a month.
pub open spec fn days_in_month(y: int, m: int) -> int {
    if m == 2 {
        if is_leap(y) {
            29
        } else {
            28
        }
    } else if m == 4 || m == 6 || m == 9 || m == 11 {
        30
    } else {
        31
    }
}

/// Whether there is such a date.
pub open spec fn is_date(y: int, m: int, d: int) -> bool {
    1 <= m <= 12 && 1 <= d <= days_in_month(y, m)
}

/// The days from 1 January of year 1 to 1 January of year `y`.
pub open spec fn days_before_year(y: int) -> int {
    365 * (y - 1) + (y - 1) / 4 - (y - 1) / 100 + (y - 1) / 400
}

/// The days from 1 January to the first of month `m` in year `y`.
pub open spec fn days_before_month(y: int, m: int) -> int
    decreases m,
{
    if m <= 1 {
        0
    } else {
        days_before_month(y, m - 1) + days_in_month(y, m - 1)
    }
}

/// The days from 1 January 1970 to a date.
pub open spec fn day_number(y: int, m: int, d: int) -> int {
    days_before_year(y) - 719_162 + days_before_month(y, m) + d - 1
}

/// The days before a month, month by month.
proof fn lemma_days_before_month(y: int)
    ensures
        days_before_month(y, 1) == 0,
        days_before_month(y, 2) == 31,
        days_before_month(y, 3) == 59 + (if is_leap(y) {
            1int
        } else {
            0
        }),
        days_before_month(y, 4) == 31 + days_before_month(y, 3),
        days_before_month(y, 5) == 61 + days_before_month(y, 3),
        days_before_month(y, 6) == 92 + days_before_month(y, 3),
        days_before_month(y, 7) == 122 + days_before_month(y, 3),
        days_before_month(y, 8) == 153 + days_before_month(y, 3),
        days_before_month(y, 9) == 184 + days_before_month(y, 3),
        days_before_month(y, 10) == 214 + days_before_month(y, 3),
        days_before_month(y, 11) == 245 + days_before_month(y, 3),
        days_before_month(y, 12) == 275 + days_before_month(y, 3),
{
    reveal_with_fuel(days_before_month, 13);
}

/// The days of the years of one 400-year era, counted from 1 March, before its
/// year `n`.
spec fn era_days(n: int) -> int {
    365 * n + n / 4 - n / 100
}

/// The year of the era that day `doe` of the era falls in.
proof fn lemma_year_of_era(doe: int)
    requires
        0 <= doe < 146_097,
    ensures
        ({
            let yoe = (doe - doe / 1460 + doe / 36_524 - doe / 146_096) / 365;
            &&& 0 <= yoe <= 399
            &&& era_days(yoe) <= doe
            &&& doe - era_days(yoe) <= 365
            &&& (doe - era_days(yoe) == 365 ==> (yoe + 1) % 4 == 0 && ((yoe + 1) % 100 != 0 || yoe
                == 399))
        }),
{
    let a = doe / 1460;
    let b = doe / 36_524;
    let c = doe / 146_096;
    let n = doe - a + b - c;
    let yoe = n / 365;
    assert(0 <= b <= 4);
    assert(0 <= c <= 1);
}

/// The date of day `z` as the year, month and day that the March-based
/// reckoning gives.
proof fn lemma_civil(z: int, era: int, doe: int, yoe: int, doy: int, mp: int)
    requires
        z + 719_468 == 146_097 * era + doe,
        0 <= doe < 146_097,
        0 <= yoe <= 399,
        doy == doe - era_days(yoe),
        0 <= doy <= 365,
        doy == 365 ==> (yoe + 1) % 4 == 0 && ((yoe + 1) % 100 != 0 || yoe == 399),
        mp == (5 * doy + 2) / 153,
    ensures
        ({
            let d = doy - (153 * mp + 2) / 5 + 1;
            let m = if mp < 10 {
                mp + 3
            } else {
                mp - 9
            };
            let y = if m <= 2 {
                yoe + 400 * era + 1
            } else {
                yoe + 400 * era
            };
            &&& 0 <= mp <= 11
            &&& is_date(y, m, d)
            &&& day_number(y, m, d) == z
        }),
{
    let d = doy - (153 * mp + 2) / 5 + 1;
    let m = if mp < 10 {
        mp + 3
    } else {
        mp - 9
    };
    let march = yoe + 400 * era;
    let y = if m <= 2 {
        march + 1
    } else {
        march
    };
    assert(0 <= mp <= 11);
    lemma_days_before_month(y);
    assert(march / 4 == yoe / 4 + 100 * era);
    assert(march / 100 == yoe / 100 + 4 * era);
    assert(march / 400 == era);
    assert(march % 4 == yoe % 4);
    assert(march % 100 == yoe % 100);
    assert(march % 400 == yoe % 400);
    if m <= 2 {
        assert(days_before_year(y) == 365 * march + march / 4 - march / 100 + march / 400);
        assert((march + 1) % 4 == (yoe + 1) % 4);
        assert((march + 1) % 100 == (yoe + 1) % 100);
        assert((march + 1) % 400 == (yoe + 1) % 400);
        if mp == 10 {
            assert(d == doy - 305);
            assert(is_date(y, m, d));
        } else {
            assert(mp == 11);
            assert(d == doy - 336);
            assert(is_date(y, m, d));
        }
    } else {
        lemma_leap_step(march);
        if mp == 0 {
            assert(d == doy + 1);
        } else if mp == 1 {
            assert(d == doy - 30);
        } else if mp == 2 {
            assert(d == doy - 60);
        } else if mp == 3 {
            assert(d == doy - 91);
        } else if mp == 4 {
            assert(d == doy - 121);
        } else if mp == 5 {
            assert(d == doy - 152);
        } else if mp == 6 {
            assert(d == doy - 183);
        } else if mp == 7 {
            assert(d == doy - 213);
        } else if mp == 8 {
            assert(d == doy - 244);
        } else {
            assert(d == doy - 274);
        }
        assert(is_date(y, m, d));
    }
}

/// A year is longer than 365 days by one exactly when it is a leap year.
proof fn lemma_leap_step(y: int)
    ensures
        days_before_year(y + 1) == 365 + days_before_year(y) + (if is_leap(y) {
            1int
        } else {
            0
        }),
{
    assert(y / 4 - (y - 1) / 4 == if y % 4 == 0 {
        1int
    } else {
        0
    });
    assert(y / 100 - (y - 1) / 100 == if y % 100 == 0 {
        1int
    } else {
        0
    });
    assert(y / 400 - (y - 1) / 400 == if y % 400 == 0 {
        1int
    } else {
        0
    });
    assert(y % 400 == 0 ==> y % 100 == 0);
    assert(y % 100 == 0 ==> y % 4 == 0);
}

/// The date of a day, counted from 1 January 1970.
pub fn civil_from_days(z: i64) -> (r: (i64, u32, u32))
    requires
        z + 719_468 <= i64::MAX,
    ensures
        is_date(r.0 as int, r.1 as int, r.2 as int),
        day_number(r.0 as int, r.1 as int, r.2 as int) == z,
{
    let s: i64 = z + 719_468;
    let era: i64 = match s.checked_div_euclid(146_097) {
        Some(q) => q,
        None => 0,
    };
    assert(era == (s as int) / 146_097);
    let doe: i64 = s - era * 146_097;
    assert(0 <= doe < 146_097);
    let yoe: i64 = (doe - doe / 1460 + doe / 36_524 - doe / 146_096) / 365;
    proof {
        lemma_year_of_era(doe as int);
    }
    let y: i64 = yoe + era * 400;
    let doy: i64 = doe - (365 * yoe + yoe / 4 - yoe / 100);
    let mp: i64 = (5 * doy + 2) / 153;
    proof {
        lemma_civil(z as int, era as int, doe as int, yoe as int, doy as int, mp as int);
    }
    let d: u32 = (doy - (153 * mp + 2) / 5 + 1) as u32;
    let m: u32 = (if mp < 10 {
        mp + 3
    } else {
        mp - 9
    }) as u32;
    (if m <= 2 {
        y + 1
    } else {
        y
    }, m, d)
}

/// The months of a year follow each other without a gap.
proof fn lemma_month_order(y: int, m: int, k: int)
    requires
        1 <= m < k <= 13,
    ensures
        days_before_month(y, m) + days_in_month(y, m) <= days_before_month(y, k),
    decreases k,
{
    if m < k - 1 {
        lemma_month_order(y, m, k - 1);
    }
}

/// The years follow each other without a gap.
proof fn lemma_year_order(y: int, k: int)
    requires
        y < k,
    ensures
        days_before_year(y) + 365 + (if is_leap(y) {
            1int
        } else {
            0
        }) <= days_before_year(k),
    decreases k - y,
{
    lemma_leap_step(k - 1);
    if y < k - 1 {
        lemma_year_order(y, k - 1);
    }
}

proof fn lemma_day_of_year(y: int, m: int, d: int)
    requires
        is_date(y, m, d),
    ensures
        0 <= days_before_month(y, m) + d - 1 < 365 + (if is_leap(y) {
            1int
        } else {
            0
        }),
{
    lemma_days_before_month(y);
}

/// A later date has a larger day number, so no two dates share one: the date
/// that [`civil_from_days`] gives is the only one with that number.
pub proof fn law_day_numbers_follow_dates(y1: int, m1: int, d1: int, y2: int, m2: int, d2: int)
    requires
        is_date(y1, m1, d1),
        is_date(y2, m2, d2),
    ensures
        (y1 < y2 || (y1 == y2 && (m1 < m2 || (m1 == m2 && d1 < d2)))) <==> day_number(y1, m1, d1)
            < day_number(y2, m2, d2),
        day_number(y1, m1, d1) == day_number(y2, m2, d2) ==> y1 == y2 && m1 == m2 && d1 == d2,
{
    lemma_day_of_year(y1, m1, d1);
    lemma_day_of_year(y2, m2, d2);
    if y1 < y2 {
        lemma_year_order(y1, y2);
    } else if y2 < y1 {
        lemma_year_order(y2, y1);
    } else if m1 < m2 {
        lemma_month_order(y1, m1, m2);
    } else if m2 < m1 {
        lemma_month_order(y1, m2, m1);
    }
}

// ---------------------------------------------------------------------------
// ISO 8601
// ---------------------------------------------------------------------------

/// A year in at least four characters, a sign among them.
pub open spec fn year_text(y: int) -> Seq<char> {
    if y >= 0 {
        zero_padded(y as nat, 4)
    } else {
        "-"@ + zero_padded((-y) as nat, 3)
    }
}

/// The text of a date and a time of day.
pub open spec fn stamp_text(y: int, m: int, d: int, second_of_day: int, millis: int) -> Seq<char> {
    year_text(y) + "-"@ + zero_padded(m as nat, 2) + "-"@ + zero_padded(d as nat, 2) + "T"@
        + zero_padded((second_of_day / 3600) as nat, 2) + ":"@ + zero_padded(
        (second_of_day % 3600 / 60) as nat,
        2,
    ) + ":"@ + zero_padded((second_of_day % 60) as nat, 2) + "."@ + zero_padded(millis as nat, 3)
        + "Z"@
}

/// Whether `text` is the ISO 8601 form of the moment `secs` seconds and
/// `millis` milliseconds after the start of 1970.
pub open spec fn is_iso8601(text: Seq<char>, secs: int, millis: int) -> bool {
    exists|y: int, m: int, d: int|
        #![trigger day_number(y, m, d)]
        {
            &&& is_date(y, m, d)
            &&& day_number(y, m, d) == secs / 86_400
            &&& text == stamp_text(y, m, d, secs % 86_400, millis)
        }
}

proof fn lemma_decimal_one_line(n: nat)
    ensures
        one_line(decimal(n)),
    decreases n,
{
    if n >= 10 {
        lemma_decimal_one_line(n / 10);
    }
}

/// A line stays one behind which a mark of one character and a number stand.
proof fn lemma_append_number(line: Seq<char>, mark: Seq<char>, n: nat, width: nat)
    requires
        one_line(line),
        mark.len() == 1,
        mark[0] != '\n',
    ensures
        one_line(line + mark + zero_padded(n, width)),
{
    lemma_decimal_one_line(n);
    assert(one_line(zero_padded(n, width)));
}

proof fn lemma_stamp_one_line(y: int, m: int, d: int, s: int, millis: int)
    ensures
        one_line(stamp_text(y, m, d, s, millis)),
{
    reveal_strlit("-");
    reveal_strlit("T");
    reveal_strlit(":");
    reveal_strlit(".");
    reveal_strlit("Z");
    let a = year_text(y);
    assert(one_line(a)) by {
        lemma_decimal_one_line(y as nat);
        lemma_decimal_one_line((-y) as nat);
    }
    lemma_append_number(a, "-"@, m as nat, 2);
    let b = a + "-"@ + zero_padded(m as nat, 2);
    lemma_append_number(b, "-"@, d as nat, 2);
    let c = b + "-"@ + zero_padded(d as nat, 2);
    lemma_append_number(c, "T"@, (s / 3600) as nat, 2);
    let e = c + "T"@ + zero_padded((s / 3600) as nat, 2);
    lemma_append_number(e, ":"@, (s % 3600 / 60) as nat, 2);
    let f = e + ":"@ + zero_padded((s % 3600 / 60) as nat, 2);
    lemma_append_number(f, ":"@, (s % 60) as nat, 2);
    let g = f + ":"@ + zero_padded((s % 60) as nat, 2);
    lemma_append_number(g, "."@, millis as nat, 3);
    let h = g + "."@ + zero_padded(millis as nat, 3);
    assert(one_line(h + "Z"@));
}

/// The ISO 8601 form of a moment has no line feed.
pub proof fn lemma_iso8601_one_line(text: Seq<char>)
    ensures
        forall|secs: int, millis: int| is_iso8601(text, secs, millis) ==> one_line(text),
{
    assert forall|secs: int, millis: int| is_iso8601(text, secs, millis) implies one_line(
        text,
    ) by {
        let (y, m, d) = choose|y: int, m: int, d: int|
            #![trigger day_number(y, m, d)]
            {
                &&& is_date(y, m, d)
                &&& day_number(y, m, d) == secs / 86_400
                &&& text == stamp_text(y, m, d, secs % 86_400, millis)
            };
        lemma_stamp_one_line(y, m, d, secs % 86_400, millis);
    }
}

/// The ISO 8601 form, with milliseconds, of the moment `secs` seconds and
/// `millis` milliseconds after the start of 1970.
pub fn format_iso8601(secs: i64, millis: u32) -> (r: String)
    ensures
        is_iso8601(r@, secs as int, millis as int),
{
    let days: i64 = match secs.checked_div_euclid(86_400) {
        Some(q) => q,
        None => 0,
    };
    assert(days == (secs as int) / 86_400);
    let second: i64 = match secs.checked_rem_euclid(86_400) {
        Some(q) => q,
        None => 0,
    };
    assert(second == (secs as int) % 86_400);
    let (y, m, d) = civil_from_days(days);
    assert(-293_000_000_000 < y < 293_000_000_000) by {
        lemma_year_bounds(y as int, m as int, d as int, days as int);
    }
    let mut r = if y >= 0 {
        zero_padded_text(y as u64, 4)
    } else {
        let mut t = "-".to_owned();
        t.append(zero_padded_text((-y) as u64, 3).as_str());
        t
    };
    r.append("-");
    r.append(zero_padded_text(m as u64, 2).as_str());
    r.append("-");
    r.append(zero_padded_text(d as u64, 2).as_str());
    r.append("T");
    r.append(zero_padded_text((second / 3600) as u64, 2).as_str());
    r.append(":");
    r.append(zero_padded_text((second % 3600 / 60) as u64, 2).as_str());
    r.append(":");
    r.append(zero_padded_text((second % 60) as u64, 2).as_str());
    r.append(".");
    r.append(zero_padded_text(millis as u64, 3).as_str());
    r.append("Z");
    assert(r@ == stamp_text(
        y as int,
        m as int,
        d as int,
        (secs as int) % 86_400,
        millis as int,
    ));
    r
}

proof fn lemma_year_bounds(y: int, m: int, d: int, z: int)
    requires
        is_date(y, m, d),
        day_number(y, m, d) == z,
        -106_751_991_167_301 <= z <= 106_751_991_167_300,
    ensures
        -293_000_000_000 < y < 293_000_000_000,
{
    lemma_day_of_year(y, m, d);
}

/// `SystemTime::elapsed` of std on the start of 1970: the time that has passed
/// since then, or nothing where the clock is set before it.  What the clock
/// says is not known, so nothing is promised.
#[verifier::external_body]
fn since_epoch() -> Option<Duration> {
    std::time::UNIX_EPOCH.elapsed().ok()
}

/// The ISO 8601 form of the moment a given time after the start of 1970.
/// Seconds that do not fit in 64 bits with a sign wrap round.
pub fn iso8601_after(elapsed: Duration) -> (r: String)
    ensures
        whole_nanos(elapsed) / 1_000_000_000 <= i64::MAX ==> is_iso8601(
            r@,
            whole_nanos(elapsed) as int / 1_000_000_000,
            whole_nanos(elapsed) as int / 1_000_000 % 1000,
        ),
        exists|secs: i64, millis: u32|
            #![trigger is_iso8601(r@, secs as int, millis as int)]
            millis < 1000 && is_iso8601(r@, secs as int, millis as int),
{
    let total: u128 = elapsed.as_nanos();
    let secs: i64 = #[verifier::truncate] ((total / 1_000_000_000) as i64);
    let millis: u32 = (total / 1_000_000 % 1000) as u32;
    format_iso8601(secs, millis)
}

/// Current UTC time as ISO 8601 with milliseconds, e.g. `2026-09-13T08:15:30.123Z`.
pub fn now_iso8601() -> (r: String)
    ensures
        exists|secs: i64, millis: u32|
            #![trigger is_iso8601(r@, secs as int, millis as int)]
            millis < 1000 && is_iso8601(r@, secs as int, millis as int),
{
    match since_epoch() {
        Some(elapsed) => iso8601_after(elapsed),
        None => format_iso8601(0, 0),
    }
}

/// One moment has one ISO 8601 form.
pub proof fn law_iso8601_is_unique(a: Seq<char>, b: Seq<char>, secs: int, millis: int)
    requires
        is_iso8601(a, secs, millis),
        is_iso8601(b, secs, millis),
    ensures
        a == b,
{
    let (y1, m1, d1) = choose|y: int, m: int, d: int|
        #![trigger day_number(y, m, d)]
        is_date(y, m, d) && day_number(y, m, d) == secs / 86_400 && a == stamp_text(
            y,
            m,
            d,
            secs % 86_400,
            millis,
        );
    let (y2, m2, d2) = choose|y: int, m: int, d: int|
        #![trigger day_number(y, m, d)]
        is_date(y, m, d) && day_number(y, m, d) == secs / 86_400 && b == stamp_text(
            y,
            m,
            d,
            secs % 86_400,
            millis,
        );
    law_day_numbers_follow_dates(y1, m1, d1, y2, m2, d2);
}

/// Days are counted one after the other, from the start of 1970, through the
/// months and the years; February has a 29th day in every fourth year, save
/// those of full centuries that are not a multiple of four hundred.
pub proof fn law_days_follow_each_other(y: int, m: int, d: int)
    ensures
        day_number(1970, 1, 1) == 0,
        day_number(y, m, d + 1) == day_number(y, m, d) + 1,
        1 <= m < 12 ==> day_number(y, m + 1, 1) == day_number(y, m, days_in_month(y, m)) + 1,
        day_number(y + 1, 1, 1) == day_number(y, 12, 31) + 1,
        days_in_month(y, 2) == (if y % 400 == 0 || (y % 4 == 0 && y % 100 != 0) {
            29int
        } else {
            28int
        }),
        1 <= m <= 12 && m != 2 ==> days_in_month(y, m) == (if m == 4 || m == 6 || m == 9 || m
            == 11 {
            30int
        } else {
            31int
        }),
{
    reveal_with_fuel(days_before_month, 13);
    assert(y % 400 == 0 ==> y % 4 == 0 && y % 100 == 0);
    assert(day_number(y, 12, 31) == days_before_year(y) - 719_162 + (if is_leap(y) {
        366int
    } else {
        365int
    }) - 1);
    assert(days_before_year(y + 1) - days_before_year(y) == if is_leap(y) {
        366int
    } else {
        365int
    });
}

/// A date and a time of day are written as year, month, day, hour, minute,
/// second and millisecond, the hour, the minute and the second being those that
/// the seconds of the day come to.
pub proof fn law_stamps_hold_every_field(
    y: int,
    m: int,
    d: int,
    hour: int,
    minute: int,
    second: int,
    millis: int,
)
    requires
        0 <= hour,
        0 <= minute < 60,
        0 <= second < 60,
    ensures
        stamp_text(y, m, d, hour * 3600 + minute * 60 + second, millis) == (if y >= 0 {
            zero_padded(y as nat, 4)
        } else {
            "-"@ + zero_padded((-y) as nat, 3)
        }) + "-"@ + zero_padded(m as nat, 2) + "-"@ + zero_padded(d as nat, 2) + "T"@
            + zero_padded(hour as nat, 2) + ":"@ + zero_padded(minute as nat, 2) + ":"@
            + zero_padded(second as nat, 2) + "."@ + zero_padded(millis as nat, 3) + "Z"@,
{
    let s = hour * 3600 + minute * 60 + second;
    assert(s / 3600 == hour);
    assert(s % 3600 == minute * 60 + second);
    assert((minute * 60 + second) / 60 == minute);
    assert(s % 60 == second);
}

/// The form of a moment is that of its date and its time of day: the moment
/// lies as many whole days and seconds after the start of 1970 as they say.
pub proof fn law_moments_are_written_as_their_date(
    y: int,
    m: int,
    d: int,
    hour: int,
    minute: int,
    second: int,
    millis: int,
    text: Seq<char>,
)
    requires
        is_date(y, m, d),
        0 <= hour < 24,
        0 <= minute < 60,
        0 <= second < 60,
    ensures
        is_iso8601(
            text,
            day_number(y, m, d) * 86_400 + hour * 3600 + minute * 60 + second,
            millis,
        ) <==> text == stamp_text(y, m, d, hour * 3600 + minute * 60 + second, millis),
{
    let s = hour * 3600 + minute * 60 + second;
    let secs = day_number(y, m, d) * 86_400 + s;
    assert(secs == day_number(y, m, d) * 86_400 + hour * 3600 + minute * 60 + second);
    assert(secs / 86_400 == day_number(y, m, d));
    assert(secs % 86_400 == s);
    let want = stamp_text(y, m, d, s, millis);
    assert(is_iso8601(want, secs, millis));
    if is_iso8601(text, secs, millis) {
        law_iso8601_is_unique(text, want, secs, millis);
    }
}

} // verus!
