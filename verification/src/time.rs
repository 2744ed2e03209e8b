//! Decoders for the two time-shaped values: the bracketed timestamp
//! (`year/month/day hour:minute:second`, fixed widths, 24-hour clock,
//! calendar-checked) and the uptime value
//! (`<int> days <int> hrs <int> min (modulo <int> days)`).

use vstd::prelude::*;

use crate::error::Error;
use crate::error::ErrorV;
use crate::structs::DateTime;
use crate::structs::Uptime;
use crate::text::all_digits;
use crate::text::check_digit;
use crate::text::dec_val;
use crate::text::digit_run_end;
use crate::text::digit_val;
use crate::text::hspace_run_end;
use crate::text::is_digit;
use crate::text::lemma_digit_run_end;
use crate::text::parse_u64_digits;
use crate::text::scan_digits;
use crate::text::scan_hspace;
use crate::text::str_eq;

verus! {

// ---------------------------------------------------------------------------
// calendar
// ---------------------------------------------------------------------------

pub open spec fn is_leap_year(y: int) -> bool {
    y % 4 == 0 && (y % 100 != 0 || y % 400 == 0)
}

/// Days in a month of the Gregorian calendar; month is in `[1, 12]`.
pub open spec fn days_in_month(y: int, m: int) -> int {
    if m == 2 {
        if is_leap_year(y) {
            29
        } else {
            28
        }
    } else if m == 4 || m == 6 || m == 9 || m == 11 {
        30
    } else {
        31
    }
}

fn days_in_month_x(y: u32, m: u32) -> (d: u32)
    requires
        1 <= m <= 12,
    ensures
        d as int == days_in_month(y as int, m as int),
{
    if m == 2 {
        if y % 4 == 0 && (y % 100 != 0 || y % 400 == 0) {
            29
        } else {
            28
        }
    } else if m == 4 || m == 6 || m == 9 || m == 11 {
        30
    } else {
        31
    }
}

/// The fields describe a real calendar date and a real time of day.
pub open spec fn valid_datetime(dt: DateTime) -> bool {
    &&& 1 <= dt.month <= 12
    &&& 1 <= dt.day <= days_in_month(dt.year as int, dt.month as int)
    &&& dt.hour < 24
    &&& dt.minute < 60
    &&& dt.second < 60
}

// ---------------------------------------------------------------------------
// timestamp
// ---------------------------------------------------------------------------

/// The fixed lexical shape `yyyy/mm/dd hh:mm:ss`.
pub open spec fn datetime_shape(c: Seq<char>) -> bool {
    &&& c.len() == 19
    &&& is_digit(c[0]) && is_digit(c[1]) && is_digit(c[2]) && is_digit(c[3])
    &&& c[4] == '/'
    &&& is_digit(c[5]) && is_digit(c[6])
    &&& c[7] == '/'
    &&& is_digit(c[8]) && is_digit(c[9])
    &&& c[10] == ' '
    &&& is_digit(c[11]) && is_digit(c[12])
    &&& c[13] == ':'
    &&& is_digit(c[14]) && is_digit(c[15])
    &&& c[16] == ':'
    &&& is_digit(c[17]) && is_digit(c[18])
}

/// The timestamp content decoded, when its shape is exact and the calendar
/// date and time of day are possible.
pub open spec fn spec_decode_datetime(c: Seq<char>) -> Option<DateTime> {
    if datetime_shape(c) {
        let year = digit_val(c[0]) * 1000 + digit_val(c[1]) * 100 + digit_val(c[2]) * 10
            + digit_val(c[3]);
        let month = digit_val(c[5]) * 10 + digit_val(c[6]);
        let day = digit_val(c[8]) * 10 + digit_val(c[9]);
        let hour = digit_val(c[11]) * 10 + digit_val(c[12]);
        let minute = digit_val(c[14]) * 10 + digit_val(c[15]);
        let second = digit_val(c[17]) * 10 + digit_val(c[18]);
        if 1 <= month <= 12 && 1 <= day <= days_in_month(year, month) && hour < 24 && minute < 60
            && second < 60 {
            Some(
                DateTime {
                    year: year as u16,
                    month: month as u8,
                    day: day as u8,
                    hour: hour as u8,
                    minute: minute as u8,
                    second: second as u8,
                },
            )
        } else {
            None
        }
    } else {
        None
    }
}

fn digit_at(c: &str, i: usize) -> (r: Option<u32>)
    requires
        i < c@.len(),
    ensures
        match r {
            Some(d) => is_digit(c@[i as int]) && d as int == digit_val(c@[i as int]) && d <= 9,
            None => !is_digit(c@[i as int]),
        },
{
    let ch = c.get_char(i);
    if check_digit(ch) {
        Some(ch as u32 - '0' as u32)
    } else {
        None
    }
}

/// Decodes the text between the timestamp brackets.
pub fn decode_datetime(c: &str) -> (r: Option<DateTime>)
    ensures
        r == spec_decode_datetime(c@),
{
    if c.unicode_len() != 19 {
        return None;
    }
    if !(c.get_char(4) == '/' && c.get_char(7) == '/' && c.get_char(10) == ' ' && c.get_char(13)
        == ':' && c.get_char(16) == ':') {
        return None;
    }
    let d0 = match digit_at(c, 0) {
        Some(d) => d,
        None => {
            return None;
        },
    };
    let d1 = match digit_at(c, 1) {
        Some(d) => d,
        None => {
            return None;
        },
    };
    let d2 = match digit_at(c, 2) {
        Some(d) => d,
        None => {
            return None;
        },
    };
    let d3 = match digit_at(c, 3) {
        Some(d) => d,
        None => {
            return None;
        },
    };
    let d5 = match digit_at(c, 5) {
        Some(d) => d,
        None => {
            return None;
        },
    };
    let d6 = match digit_at(c, 6) {
        Some(d) => d,
        None => {
            return None;
        },
    };
    let d8 = match digit_at(c, 8) {
        Some(d) => d,
        None => {
            return None;
        },
    };
    let d9 = match digit_at(c, 9) {
        Some(d) => d,
        None => {
            return None;
        },
    };
    let d11 = match digit_at(c, 11) {
        Some(d) => d,
        None => {
            return None;
        },
    };
    let d12 = match digit_at(c, 12) {
        Some(d) => d,
        None => {
            return None;
        },
    };
    let d14 = match digit_at(c, 14) {
        Some(d) => d,
        None => {
            return None;
        },
    };
    let d15 = match digit_at(c, 15) {
        Some(d) => d,
        None => {
            return None;
        },
    };
    let d17 = match digit_at(c, 17) {
        Some(d) => d,
        None => {
            return None;
        },
    };
    let d18 = match digit_at(c, 18) {
        Some(d) => d,
        None => {
            return None;
        },
    };
    let year: u32 = d0 * 1000 + d1 * 100 + d2 * 10 + d3;
    let month: u32 = d5 * 10 + d6;
    let day: u32 = d8 * 10 + d9;
    let hour: u32 = d11 * 10 + d12;
    let minute: u32 = d14 * 10 + d15;
    let second: u32 = d17 * 10 + d18;
    if 1 <= month && month <= 12 && 1 <= day && day <= days_in_month_x(year, month) && hour < 24
        && minute < 60 && second < 60 {
        Some(
            DateTime {
                year: year as u16,
                month: month as u8,
                day: day as u8,
                hour: hour as u8,
                minute: minute as u8,
                second: second as u8,
            },
        )
    } else {
        None
    }
}

// ---------------------------------------------------------------------------
// uptime
// ---------------------------------------------------------------------------

/// The literal `l` stands in `s` at position `i`.
pub open spec fn has_lit_at(s: Seq<char>, i: int, l: Seq<char>) -> bool {
    &&& 0 <= i
    &&& i + l.len() <= s.len()
    &&& s.subrange(i, i + l.len() as int) == l
}

/// Decodes an uptime value of the shape
/// `<days> days <hours> hrs <minutes> min (modulo <days> days)`,
/// horizontal whitespace free between tokens, nothing after. The elapsed
/// duration is `days*86400 + hours*3600 + minutes*60` seconds; the modulo
/// period is `modulo*86400` seconds.
pub open spec fn spec_decode_uptime(u: Seq<char>) -> Result<Uptime, ErrorV> {
    let e1 = digit_run_end(u, 0);
    if e1 == 0 {
        Err(ErrorV::Duration { remain: u })
    } else if dec_val(u.subrange(0, e1)) > u64::MAX {
        Err(ErrorV::Integer { remain: u })
    } else {
        let days = dec_val(u.subrange(0, e1));
        let p1 = hspace_run_end(u, e1);
        if !has_lit_at(u, p1, "days"@) {
            Err(ErrorV::Duration { remain: u.skip(p1) })
        } else {
            let p2 = hspace_run_end(u, p1 + 4);
            let e2 = digit_run_end(u, p2);
            if e2 == p2 {
                Err(ErrorV::Duration { remain: u.skip(p2) })
            } else if dec_val(u.subrange(p2, e2)) > u64::MAX {
                Err(ErrorV::Integer { remain: u.skip(p2) })
            } else {
                let hours = dec_val(u.subrange(p2, e2));
                let p3 = hspace_run_end(u, e2);
                if !has_lit_at(u, p3, "hrs"@) {
                    Err(ErrorV::Duration { remain: u.skip(p3) })
                } else {
                    let p4 = hspace_run_end(u, p3 + 3);
                    let e3 = digit_run_end(u, p4);
                    if e3 == p4 {
                        Err(ErrorV::Duration { remain: u.skip(p4) })
                    } else if dec_val(u.subrange(p4, e3)) > u64::MAX {
                        Err(ErrorV::Integer { remain: u.skip(p4) })
                    } else {
                        let minutes = dec_val(u.subrange(p4, e3));
                        let p5 = hspace_run_end(u, e3);
                        if !has_lit_at(u, p5, "min (modulo"@) {
                            Err(ErrorV::Duration { remain: u.skip(p5) })
                        } else {
                            let p6 = hspace_run_end(u, p5 + 11);
                            let e4 = digit_run_end(u, p6);
                            if e4 == p6 {
                                Err(ErrorV::Duration { remain: u.skip(p6) })
                            } else if dec_val(u.subrange(p6, e4)) > u64::MAX {
                                Err(ErrorV::Integer { remain: u.skip(p6) })
                            } else {
                                let modulo = dec_val(u.subrange(p6, e4));
                                let p7 = hspace_run_end(u, e4);
                                if !has_lit_at(u, p7, "days)"@) {
                                    Err(ErrorV::Duration { remain: u.skip(p7) })
                                } else {
                                    let p8 = hspace_run_end(u, p7 + 5);
                                    if p8 != u.len() {
                                        Err(ErrorV::Duration { remain: u.skip(p8) })
                                    } else if days * 86400 + hours * 3600 + minutes * 60
                                        > u64::MAX {
                                        Err(ErrorV::Integer { remain: u })
                                    } else if modulo * 86400 > u64::MAX {
                                        Err(ErrorV::Integer { remain: u.skip(p6) })
                                    } else {
                                        Ok(
                                            Uptime {
                                                duration: (days * 86400 + hours * 3600 + minutes
                                                    * 60) as u64,
                                                modulo: (modulo * 86400) as u64,
                                            },
                                        )
                                    }
                                }
                            }
                        }
                    }
                }
            }
        }
    }
}

/// The literal `lit` stands in `s` at position `i`.
fn lit_at(s: &str, i: usize, lit: &str) -> (r: bool)
    requires
        i <= s@.len(),
    ensures
        r == has_lit_at(s@, i as int, lit@),
{
    let n = s.unicode_len();
    let m = lit.unicode_len();
    if m > n - i {
        return false;
    }
    let r = str_eq(s.substring_char(i, i + m), lit);
    proof {
        assert(s@.subrange(i as int, i + m) == lit@ <==> has_lit_at(s@, i as int, lit@));
    }
    r
}

/// One decimal number inside the uptime value, beginning at `from`:
/// the digit run and its value.
fn uptime_int(u: &str, from: usize) -> (r: Result<(u64, usize), bool>)
    requires
        from <= u@.len(),
    ensures
        match r {
            Ok((v, e)) => e as int == digit_run_end(u@, from as int) && e > from && v as int
                == dec_val(u@.subrange(from as int, e as int)) && e <= u@.len(),
            Err(over) => (digit_run_end(u@, from as int) == from && !over) || (dec_val(
                u@.subrange(from as int, digit_run_end(u@, from as int)),
            ) > u64::MAX && over),
        },
{
    let e = scan_digits(u, from);
    if e == from {
        return Err(false);
    }
    let part = u.substring_char(from, e);
    proof {
        lemma_digit_run_end(u@, from as int);
        assert(all_digits(part@)) by {
            assert forall|j: int| 0 <= j < part@.len() implies is_digit(#[trigger] part@[j]) by {
                assert(part@[j] == u@[from + j]);
            }
        }
    }
    match parse_u64_digits(part) {
        Some(v) => Ok((v, e)),
        None => Err(true),
    }
}

/// Decodes the uptime value.
pub fn decode_uptime(u: &str) -> (r: Result<Uptime, Error>)
    ensures
        match r {
            Ok(up) => spec_decode_uptime(u@) == Ok::<Uptime, ErrorV>(up),
            Err(e) => spec_decode_uptime(u@) == Err::<Uptime, ErrorV>(e@),
        },
{
    let n = u.unicode_len();
    let (days, e1) = match uptime_int(u, 0) {
        Ok(p) => p,
        Err(over) => {
            let remain = String::from_str(u);
            return if over {
                Err(Error::Integer { remain })
            } else {
                Err(Error::Duration { remain })
            };
        },
    };
    let p1 = scan_hspace(u, e1);
    if !lit_at(u, p1, "days") {
        return Err(Error::Duration { remain: String::from_str(u.substring_char(p1, n)) });
    }
    proof {
        reveal_strlit("days");
    }
    let p2 = scan_hspace(u, p1 + 4);
    let (hours, e2) = match uptime_int(u, p2) {
        Ok(p) => p,
        Err(over) => {
            let remain = String::from_str(u.substring_char(p2, n));
            return if over {
                Err(Error::Integer { remain })
            } else {
                Err(Error::Duration { remain })
            };
        },
    };
    let p3 = scan_hspace(u, e2);
    if !lit_at(u, p3, "hrs") {
        return Err(Error::Duration { remain: String::from_str(u.substring_char(p3, n)) });
    }
    proof {
        reveal_strlit("hrs");
    }
    let p4 = scan_hspace(u, p3 + 3);
    let (minutes, e3) = match uptime_int(u, p4) {
        Ok(p) => p,
        Err(over) => {
            let remain = String::from_str(u.substring_char(p4, n));
            return if over {
                Err(Error::Integer { remain })
            } else {
                Err(Error::Duration { remain })
            };
        },
    };
    let p5 = scan_hspace(u, e3);
    if !lit_at(u, p5, "min (modulo") {
        return Err(Error::Duration { remain: String::from_str(u.substring_char(p5, n)) });
    }
    proof {
        reveal_strlit("min (modulo");
    }
    let p6 = scan_hspace(u, p5 + 11);
    let (modulo, e4) = match uptime_int(u, p6) {
        Ok(p) => p,
        Err(over) => {
            let remain = String::from_str(u.substring_char(p6, n));
            return if over {
                Err(Error::Integer { remain })
            } else {
                Err(Error::Duration { remain })
            };
        },
    };
    let p7 = scan_hspace(u, e4);
    if !lit_at(u, p7, "days)") {
        return Err(Error::Duration { remain: String::from_str(u.substring_char(p7, n)) });
    }
    proof {
        reveal_strlit("days)");
    }
    let p8 = scan_hspace(u, p7 + 5);
    if p8 != n {
        return Err(Error::Duration { remain: String::from_str(u.substring_char(p8, n)) });
    }
    if days > u64::MAX / 86400 {
        return Err(Error::Integer { remain: String::from_str(u) });
    }
    let dur_days: u64 = days * 86400;
    if hours > (u64::MAX - dur_days) / 3600 {
        return Err(Error::Integer { remain: String::from_str(u) });
    }
    let dur_hours: u64 = dur_days + hours * 3600;
    if minutes > (u64::MAX - dur_hours) / 60 {
        return Err(Error::Integer { remain: String::from_str(u) });
    }
    let duration: u64 = dur_hours + minutes * 60;
    if modulo > u64::MAX / 86400 {
        return Err(Error::Integer { remain: String::from_str(u.substring_char(p6, n)) });
    }
    Ok(Uptime { duration, modulo: modulo * 86400 })
}

} // verus!
