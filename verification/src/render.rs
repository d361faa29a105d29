//! Textual rendering: decimal numbers, zero-padded fields, clock times,
//! durations, and calendar-date forms. Every executable formatter has a spec
//! twin that pins the exact character sequence produced.

use crate::dates::{date_in_range, date_pred, date_valid, prev_date, Date};
use vstd::prelude::*;
use vstd::string::StringExecFns;

verus! {

pub open spec fn digit_char(n: int) -> char
    recommends
        0 <= n <= 9,
{
    if n == 0 {
        '0'
    } else if n == 1 {
        '1'
    } else if n == 2 {
        '2'
    } else if n == 3 {
        '3'
    } else if n == 4 {
        '4'
    } else if n == 5 {
        '5'
    } else if n == 6 {
        '6'
    } else if n == 7 {
        '7'
    } else if n == 8 {
        '8'
    } else {
        '9'
    }
}

/// The decimal digits of `n`, most significant first, no leading zeros.
pub open spec fn dec_spec(n: nat) -> Seq<char>
    decreases n,
{
    if n < 10 {
        seq![digit_char(n as int)]
    } else {
        dec_spec(n / 10).push(digit_char((n % 10) as int))
    }
}

fn digit_str(d: u64) -> (r: &'static str)
    requires
        d <= 9,
    ensures
        r@ == seq![digit_char(d as int)],
{
    if d == 0 {
        proof {
            reveal_strlit("0");
            assert("0"@ =~= seq![digit_char(0int)]);
        }
        "0"
    } else if d == 1 {
        proof {
            reveal_strlit("1");
            assert("1"@ =~= seq![digit_char(1int)]);
        }
        "1"
    } else if d == 2 {
        proof {
            reveal_strlit("2");
            assert("2"@ =~= seq![digit_char(2int)]);
        }
        "2"
    } else if d == 3 {
        proof {
            reveal_strlit("3");
            assert("3"@ =~= seq![digit_char(3int)]);
        }
        "3"
    } else if d == 4 {
        proof {
            reveal_strlit("4");
            assert("4"@ =~= seq![digit_char(4int)]);
        }
        "4"
    } else if d == 5 {
        proof {
            reveal_strlit("5");
            assert("5"@ =~= seq![digit_char(5int)]);
        }
        "5"
    } else if d == 6 {
        proof {
            reveal_strlit("6");
            assert("6"@ =~= seq![digit_char(6int)]);
        }
        "6"
    } else if d == 7 {
        proof {
            reveal_strlit("7");
            assert("7"@ =~= seq![digit_char(7int)]);
        }
        "7"
    } else if d == 8 {
        proof {
            reveal_strlit("8");
            assert("8"@ =~= seq![digit_char(8int)]);
        }
        "8"
    } else {
        proof {
            reveal_strlit("9");
            assert("9"@ =~= seq![digit_char(9int)]);
        }
        "9"
    }
}

/// `n` in decimal, without padding.
pub fn u64_dec(n: u64) -> (r: String)
    ensures
        r@ == dec_spec(n as nat),
    decreases n,
{
    if n < 10 {
        digit_str(n).to_owned()
    } else {
        let mut s = u64_dec(n / 10);
        s.append(digit_str(n % 10));
        proof {
            assert(s@ =~= dec_spec(n as nat));
        }
        s
    }
}

/// Two decimal digits, zero-padded.
pub open spec fn pad2_spec(n: int) -> Seq<char>
    recommends
        0 <= n <= 99,
{
    seq![digit_char(n / 10), digit_char(n % 10)]
}

pub fn pad2(n: u64) -> (r: String)
    requires
        n <= 99,
    ensures
        r@ == pad2_spec(n as int),
{
    let mut s = digit_str(n / 10).to_owned();
    s.append(digit_str(n % 10));
    proof {
        assert(s@ =~= pad2_spec(n as int));
    }
    s
}

/// Four decimal digits, zero-padded.
pub open spec fn pad4_spec(n: int) -> Seq<char>
    recommends
        0 <= n <= 9999,
{
    seq![
        digit_char(n / 1000),
        digit_char((n / 100) % 10),
        digit_char((n / 10) % 10),
        digit_char(n % 10),
    ]
}

pub fn pad4(n: u64) -> (r: String)
    requires
        n <= 9999,
    ensures
        r@ == pad4_spec(n as int),
{
    let mut s = digit_str(n / 1000).to_owned();
    s.append(digit_str((n / 100) % 10));
    s.append(digit_str((n / 10) % 10));
    s.append(digit_str(n % 10));
    proof {
        assert(s@ =~= pad4_spec(n as int));
    }
    s
}

/// A year as the calendar formats it: zero-padded to four digits, a leading
/// `+` beyond 9999, a leading `-` before year 0.
pub open spec fn year_spec(y: int) -> Seq<char> {
    if 0 <= y <= 9999 {
        pad4_spec(y)
    } else if y > 9999 {
        "+"@ + dec_spec(y as nat)
    } else if -y <= 9999 {
        "-"@ + pad4_spec(-y)
    } else {
        "-"@ + dec_spec((-y) as nat)
    }
}

pub fn year4(y: i32) -> (r: String)
    ensures
        r@ == year_spec(y as int),
{
    if 0 <= y && y <= 9999 {
        pad4(y as u64)
    } else if y > 9999 {
        let mut s = "+".to_owned();
        let digits = u64_dec(y as u64);
        s.append(digits.as_str());
        s
    } else {
        let pos: i64 = -(y as i64);
        let mut s = "-".to_owned();
        if pos <= 9999 {
            let digits = pad4(pos as u64);
            s.append(digits.as_str());
        } else {
            let digits = u64_dec(pos as u64);
            s.append(digits.as_str());
        }
        s
    }
}

/// The English three-letter month abbreviation.
pub open spec fn month_abbrev_spec(m: int) -> Seq<char>
    recommends
        1 <= m <= 12,
{
    if m == 1 {
        "Jan"@
    } else if m == 2 {
        "Feb"@
    } else if m == 3 {
        "Mar"@
    } else if m == 4 {
        "Apr"@
    } else if m == 5 {
        "May"@
    } else if m == 6 {
        "Jun"@
    } else if m == 7 {
        "Jul"@
    } else if m == 8 {
        "Aug"@
    } else if m == 9 {
        "Sep"@
    } else if m == 10 {
        "Oct"@
    } else if m == 11 {
        "Nov"@
    } else {
        "Dec"@
    }
}

pub fn month_abbrev(m: u8) -> (r: &'static str)
    requires
        1 <= m <= 12,
    ensures
        r@ == month_abbrev_spec(m as int),
{
    if m == 1 {
        "Jan"
    } else if m == 2 {
        "Feb"
    } else if m == 3 {
        "Mar"
    } else if m == 4 {
        "Apr"
    } else if m == 5 {
        "May"
    } else if m == 6 {
        "Jun"
    } else if m == 7 {
        "Jul"
    } else if m == 8 {
        "Aug"
    } else if m == 9 {
        "Sep"
    } else if m == 10 {
        "Oct"
    } else if m == 11 {
        "Nov"
    } else {
        "Dec"
    }
}

/// A clock time `HH:MM`, 24-hour, zero-padded.
pub open spec fn clock_spec(hour: int, minute: int) -> Seq<char>
    recommends
        0 <= hour <= 23,
        0 <= minute <= 59,
{
    pad2_spec(hour) + ":"@ + pad2_spec(minute)
}

pub fn format_time(hour: u8, minute: u8) -> (r: String)
    requires
        hour <= 23,
        minute <= 59,
    ensures
        r@ == clock_spec(hour as int, minute as int),
{
    let mut s = pad2(hour as u64);
    s.append(":");
    let m = pad2(minute as u64);
    s.append(m.as_str());
    proof {
        assert(s@ =~= clock_spec(hour as int, minute as int));
    }
    s
}

/// A duration in seconds as `"<N> h <M> min"`, or `"<M> min"` when the whole
/// hours are zero. Minutes are the total minutes modulo 60, unpadded;
/// seconds are dropped, not rounded.
pub open spec fn duration_spec(secs: int) -> Seq<char>
    recommends
        secs >= 0,
{
    let h = secs / 3600;
    let m = (secs / 60) % 60;
    (if h > 0 {
        dec_spec(h as nat) + " h "@
    } else {
        Seq::<char>::empty()
    }) + dec_spec(m as nat) + " min"@
}

pub fn format_duration(secs: u64) -> (r: String)
    ensures
        r@ == duration_spec(secs as int),
{
    let h = secs / 3600;
    let m = (secs / 60) % 60;
    let mut s = if h > 0 {
        let mut t = u64_dec(h);
        t.append(" h ");
        t
    } else {
        String::new()
    };
    let minutes = u64_dec(m);
    s.append(minutes.as_str());
    s.append(" min");
    proof {
        assert(s@ =~= duration_spec(secs as int));
    }
    s
}

/// The relative-day suffix of an entry line: nothing when the entry started
/// today, `"yesterday"` for exactly one calendar day earlier, otherwise a
/// short `"<DD> <Mon>"` date. A three-way tie-break on calendar-date
/// equality, not on elapsed time.
pub open spec fn rel_day_spec(sd: Date, today: Date) -> Option<Seq<char>> {
    if sd == today {
        None
    } else if sd == date_pred(today) {
        Some("yesterday"@)
    } else {
        Some(pad2_spec(sd.day as int) + " "@ + month_abbrev_spec(sd.month as int))
    }
}

pub fn format_date(sd: &Date, today: &Date) -> (r: Option<String>)
    requires
        date_in_range(*sd),
        date_valid(*today),
        today.year > i32::MIN,
    ensures
        r is Some <==> rel_day_spec(*sd, *today) is Some,
        r matches Some(s) ==> s@ == rel_day_spec(*sd, *today)->0,
{
    if *sd == *today {
        None
    } else {
        let yesterday = prev_date(today);
        if *sd == yesterday {
            Some("yesterday".to_owned())
        } else {
            let mut s = pad2(sd.day as u64);
            s.append(" ");
            s.append(month_abbrev(sd.month));
            Some(s)
        }
    }
}

/// A full date as `YYYY-MM-DD`.
pub open spec fn date_ymd_spec(d: Date) -> Seq<char>
    recommends
        date_in_range(d),
{
    year_spec(d.year as int) + "-"@ + pad2_spec(d.month as int) + "-"@ + pad2_spec(d.day as int)
}

pub fn format_date_ymd(d: &Date) -> (r: String)
    requires
        date_in_range(*d),
    ensures
        r@ == date_ymd_spec(*d),
{
    let mut s = year4(d.year);
    s.append("-");
    let m = pad2(d.month as u64);
    s.append(m.as_str());
    s.append("-");
    let day = pad2(d.day as u64);
    s.append(day.as_str());
    proof {
        assert(s@ =~= date_ymd_spec(*d));
    }
    s
}

/// The total-elapsed header fragment `"⌛<H> hours <MM> minutes"`; unlike the
/// per-entry duration format, minutes are zero-padded to two digits here.
pub open spec fn total_header_spec(total: int) -> Seq<char>
    recommends
        total >= 0,
{
    "⌛"@ + dec_spec((total / 3600) as nat) + " hours "@ + pad2_spec((total / 60) % 60)
        + " minutes"@
}

pub fn format_total_header(total: u64) -> (r: String)
    ensures
        r@ == total_header_spec(total as int),
{
    let h = total / 3600;
    let m = (total / 60) % 60;
    let mut s = "⌛".to_owned();
    let hours = u64_dec(h);
    s.append(hours.as_str());
    s.append(" hours ");
    let minutes = pad2(m);
    s.append(minutes.as_str());
    s.append(" minutes");
    proof {
        assert(s@ =~= total_header_spec(total as int));
    }
    s
}

} // verus!
