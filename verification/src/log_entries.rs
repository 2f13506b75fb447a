//! Parsed access-log entries and the log-line grammar.
//!
//! A log line has the shape
//! `IP - USER [DD/Mon/YYYY:HH:MM:SS +ZZZZ] "METHOD" CODE NBYTES "REFERRER" "UA"`.
//! A line that does not fit the shape is rejected; it never stops a
//! batch.
use vstd::prelude::*;
use vstd::string::{StrSliceExecFns, StringExecFns};

use crate::civil::{days_in_month, epoch_millis, month_num, spec_days_in_month, spec_epoch_millis,
    spec_month_num};
use crate::scan::{find_char, lemma_digits_val_upper, lemma_pow10_small, parse_num, pow10,
    spec_all_digits, spec_digits_val, spec_find};

verus! {

/// One parsed access-log line. `time` is the entry's timestamp in UTC
/// milliseconds since the Unix epoch.
pub struct LogEntry {
    pub ip: String,
    pub time: i64,
    pub method: String,
    pub code: u32,
    pub nbytes: u32,
    pub referrer: String,
    pub ua: String,
    pub line: String,
}

/// Mathematical image of a `LogEntry`.
pub struct LogEntryV {
    pub ip: Seq<char>,
    pub time: int,
    pub method: Seq<char>,
    pub code: int,
    pub nbytes: int,
    pub referrer: Seq<char>,
    pub ua: Seq<char>,
    pub line: Seq<char>,
}

impl View for LogEntry {
    type V = LogEntryV;

    open spec fn view(&self) -> LogEntryV {
        LogEntryV {
            ip: self.ip@,
            time: self.time as int,
            method: self.method@,
            code: self.code as int,
            nbytes: self.nbytes as int,
            referrer: self.referrer@,
            ua: self.ua@,
            line: self.line@,
        }
    }
}

impl Clone for LogEntry {
    fn clone(&self) -> (e: Self)
        ensures
            e@ == self@,
    {
        LogEntry {
            ip: self.ip.clone(),
            time: self.time,
            method: self.method.clone(),
            code: self.code,
            nbytes: self.nbytes,
            referrer: self.referrer.clone(),
            ua: self.ua.clone(),
            line: self.line.clone(),
        }
    }
}

/// A line that does not fit the log-line grammar.
#[derive(Debug)]
pub enum ParseError {
    Malformed,
}

/// The printed form of an entry: one indented line per field, the
/// raw line, then `end`.
pub open spec fn spec_logentry_text(e: LogEntryV) -> Seq<char> {
    "  time: "@ + crate::civil::spec_time_text(e.time) + "\n  method: "@ + e.method + "\n  code: "@
        + crate::scan::spec_dec_string(e.code) + "\n  nbytes: "@ + crate::scan::spec_dec_string(
        e.nbytes,
    ) + "\n  referrer: "@ + e.referrer + "\n  user agent: "@ + e.ua + "\n  logged: "@ + e.line
        + ":\nend\n"@
}

impl LogEntry {
    /// The entry as printable text; the timestamp must name an
    /// instant from year 1 on, as every parsed entry's does.
    pub fn to_display_string(&self) -> (s: String)
        requires
            -62135596800000 <= self.time <= 250000000000000,
        ensures
            s@ == spec_logentry_text(self@),
    {
        let mut s = String::from_str("  time: ");
        s.append(crate::civil::time_text(self.time).as_str());
        s.append("\n  method: ");
        s.append(self.method.as_str());
        s.append("\n  code: ");
        s.append(crate::scan::u32_to_string(self.code).as_str());
        s.append("\n  nbytes: ");
        s.append(crate::scan::u32_to_string(self.nbytes).as_str());
        s.append("\n  referrer: ");
        s.append(self.referrer.as_str());
        s.append("\n  user agent: ");
        s.append(self.ua.as_str());
        s.append("\n  logged: ");
        s.append(self.line.as_str());
        s.append(":\nend\n");
        proof {
            assert(s@ =~= spec_logentry_text(self@));
        }
        s
    }
}

/// Timestamp field of a log line: `DD/Mon/YYYY:HH:MM:SS +ZZZZ`, read
/// as UTC milliseconds since the epoch, or nothing if the field is
/// ill-formed or names no real instant.
pub open spec fn spec_parse_log_time(t: Seq<char>) -> Option<int> {
    if t.len() != 26 {
        None
    } else if !(spec_all_digits(t, 0, 2) && t[2] == '/' && t[6] == '/' && spec_all_digits(t, 7, 11)
        && t[11] == ':' && spec_all_digits(t, 12, 14) && t[14] == ':' && spec_all_digits(t, 15, 17)
        && t[17] == ':' && spec_all_digits(t, 18, 20) && t[20] == ' ' && (t[21] == '+' || t[21]
        == '-') && spec_all_digits(t, 22, 26)) {
        None
    } else {
        let day = spec_digits_val(t, 0, 2);
        let mon = spec_month_num(t[3], t[4], t[5]);
        let year = spec_digits_val(t, 7, 11);
        let h = spec_digits_val(t, 12, 14);
        let mi = spec_digits_val(t, 15, 17);
        let se = spec_digits_val(t, 18, 20);
        let oh = spec_digits_val(t, 22, 24);
        let om = spec_digits_val(t, 24, 26);
        let off = if t[21] == '-' {
            -(oh * 3600 + om * 60)
        } else {
            oh * 3600 + om * 60
        };
        if mon == 0 || year < 1 || day < 1 || day > spec_days_in_month(year, mon) || h > 23 || mi
            > 59 || se > 59 || oh > 23 || om > 59 {
            None
        } else {
            Some(spec_epoch_millis(year, mon, day, h, mi, se, off))
        }
    }
}

/// Reads the timestamp field of a log line.
pub fn parse_log_time(t: &str) -> (r: Option<i64>)
    ensures
        r matches Some(v) ==> spec_parse_log_time(t@) == Some(v as int),
        r is None ==> spec_parse_log_time(t@) is None,
{
    let n = t.unicode_len();
    if n != 26 {
        return None;
    }
    if !(t.get_char(2) == '/' && t.get_char(6) == '/' && t.get_char(11) == ':' && t.get_char(14)
        == ':' && t.get_char(17) == ':' && t.get_char(20) == ' ') {
        return None;
    }
    let sign_c = t.get_char(21);
    if !(sign_c == '+' || sign_c == '-') {
        return None;
    }
    proof {
        lemma_pow10_small();
    }
    let day_v = match parse_num(t, 0, 2) {
        Some(v) => v,
        None => {
            proof {
                if spec_all_digits(t@, 0, 2) {
                    lemma_digits_val_upper(t@, 0, 2);
                }
            }
            return None;
        },
    };
    let year_v = match parse_num(t, 7, 11) {
        Some(v) => v,
        None => {
            proof {
                if spec_all_digits(t@, 7, 11) {
                    lemma_digits_val_upper(t@, 7, 11);
                }
            }
            return None;
        },
    };
    let h_v = match parse_num(t, 12, 14) {
        Some(v) => v,
        None => {
            proof {
                if spec_all_digits(t@, 12, 14) {
                    lemma_digits_val_upper(t@, 12, 14);
                }
            }
            return None;
        },
    };
    let mi_v = match parse_num(t, 15, 17) {
        Some(v) => v,
        None => {
            proof {
                if spec_all_digits(t@, 15, 17) {
                    lemma_digits_val_upper(t@, 15, 17);
                }
            }
            return None;
        },
    };
    let se_v = match parse_num(t, 18, 20) {
        Some(v) => v,
        None => {
            proof {
                if spec_all_digits(t@, 18, 20) {
                    lemma_digits_val_upper(t@, 18, 20);
                }
            }
            return None;
        },
    };
    match parse_num(t, 22, 26) {
        Some(_) => (),
        None => {
            proof {
                if spec_all_digits(t@, 22, 26) {
                    lemma_digits_val_upper(t@, 22, 26);
                }
            }
            return None;
        },
    }
    let oh_v = match parse_num(t, 22, 24) {
        Some(v) => v,
        None => {
            proof {
                assert(spec_all_digits(t@, 22, 24));
                lemma_digits_val_upper(t@, 22, 24);
            }
            return None;
        },
    };
    let om_v = match parse_num(t, 24, 26) {
        Some(v) => v,
        None => {
            proof {
                assert(spec_all_digits(t@, 24, 26));
                lemma_digits_val_upper(t@, 24, 26);
            }
            return None;
        },
    };
    let mon: i64 = month_num(t.get_char(3), t.get_char(4), t.get_char(5));
    let day: i64 = day_v as i64;
    let year: i64 = year_v as i64;
    let h: i64 = h_v as i64;
    let mi: i64 = mi_v as i64;
    let se: i64 = se_v as i64;
    let oh: i64 = oh_v as i64;
    let om: i64 = om_v as i64;
    proof {
        lemma_digits_val_upper(t@, 7, 11);
    }
    if mon == 0 || year < 1 || day < 1 {
        return None;
    }
    let dim = days_in_month(year, mon);
    if day > dim || h > 23 || mi > 59 || se > 59 || oh > 23 || om > 59 {
        return None;
    }
    let off: i64 = if sign_c == '-' {
        -(oh * 3600 + om * 60)
    } else {
        oh * 3600 + om * 60
    };
    Some(epoch_millis(year, mon, day, h, mi, se, off))
}

/// The log-line grammar. A line is, in order: the client IP (up to
/// the first space), ` - `, a non-empty remote-user field (up to the
/// space before the first `[`), the bracketed timestamp, then
/// `"METHOD" CODE NBYTES "REFERRER" "UA"` where the line ends at the
/// user agent's closing quote, the method and referrer contain no
/// quote, and code and nbytes are decimal numbers that fit in `u32`.
pub open spec fn spec_parse_entry(s: Seq<char>) -> Option<LogEntryV> {
    let n = s.len() as int;
    let ip_end = spec_find(s, 0, ' ');
    if ip_end < 1 || !(ip_end + 3 <= n && s[ip_end + 1] == '-' && s[ip_end + 2] == ' ') {
        None
    } else {
        let ru_start = ip_end + 3;
        let br = spec_find(s, ru_start, '[');
        if br < ru_start + 2 || s[br - 1] != ' ' {
            None
        } else {
            let t_start = br + 1;
            let rb = spec_find(s, t_start, ']');
            if rb < 0 || !(rb + 3 <= n && s[rb + 1] == ' ' && s[rb + 2] == '"') {
                None
            } else {
                let m_start = rb + 3;
                let m_end = spec_find(s, m_start, '"');
                if m_end < 0 || !(m_end + 2 <= n && s[m_end + 1] == ' ') {
                    None
                } else {
                    let c_start = m_end + 2;
                    let c_end = spec_find(s, c_start, ' ');
                    if c_end <= c_start || !(spec_all_digits(s, c_start, c_end) && spec_digits_val(
                        s,
                        c_start,
                        c_end,
                    ) <= u32::MAX as int) {
                        None
                    } else {
                        let nb_start = c_end + 1;
                        let nb_end = spec_find(s, nb_start, ' ');
                        if nb_end <= nb_start || !(spec_all_digits(s, nb_start, nb_end)
                            && spec_digits_val(s, nb_start, nb_end) <= u32::MAX as int) {
                            None
                        } else if !(nb_end + 2 <= n && s[nb_end + 1] == '"') {
                            None
                        } else {
                            let r_start = nb_end + 2;
                            let r_end = spec_find(s, r_start, '"');
                            if r_end < 0 || !(r_end + 3 <= n && s[r_end + 1] == ' ' && s[r_end + 2]
                                == '"') {
                                None
                            } else {
                                let u_start = r_end + 3;
                                if !(u_start + 1 <= n && s[n - 1] == '"') {
                                    None
                                } else {
                                    match spec_parse_log_time(s.subrange(t_start, rb)) {
                                        None => None,
                                        Some(tm) => Some(
                                            LogEntryV {
                                                ip: s.subrange(0, ip_end),
                                                time: tm,
                                                method: s.subrange(m_start, m_end),
                                                code: spec_digits_val(s, c_start, c_end),
                                                nbytes: spec_digits_val(s, nb_start, nb_end),
                                                referrer: s.subrange(r_start, r_end),
                                                ua: s.subrange(u_start, n - 1),
                                                line: s,
                                            },
                                        ),
                                    }
                                }
                            }
                        }
                    }
                }
            }
        }
    }
}

impl LogEntry {
    /// Parses one log line; a line outside the grammar, or whose
    /// timestamp names no real instant, is rejected.
    pub fn parse(line: &str) -> (r: Result<LogEntry, ParseError>)
        ensures
            r matches Ok(le) ==> spec_parse_entry(line@) == Some(le@),
            r is Err ==> spec_parse_entry(line@) is None,
    {
        let n = line.unicode_len();
        let ip_end = match find_char(line, 0, ' ') {
            Some(i) => i,
            None => {
                return Err(ParseError::Malformed);
            },
        };
        if ip_end < 1 || n - ip_end < 3 || !(line.get_char(ip_end + 1) == '-' && line.get_char(
            ip_end + 2,
        ) == ' ') {
            return Err(ParseError::Malformed);
        }
        let ru_start = ip_end + 3;
        let br = match find_char(line, ru_start, '[') {
            Some(i) => i,
            None => {
                return Err(ParseError::Malformed);
            },
        };
        if br - ru_start < 2 || line.get_char(br - 1) != ' ' {
            return Err(ParseError::Malformed);
        }
        let t_start = br + 1;
        let rb = match find_char(line, t_start, ']') {
            Some(i) => i,
            None => {
                return Err(ParseError::Malformed);
            },
        };
        if n - rb < 3 || !(line.get_char(rb + 1) == ' ' && line.get_char(rb + 2) == '"') {
            return Err(ParseError::Malformed);
        }
        let m_start = rb + 3;
        let m_end = match find_char(line, m_start, '"') {
            Some(i) => i,
            None => {
                return Err(ParseError::Malformed);
            },
        };
        if n - m_end < 2 || line.get_char(m_end + 1) != ' ' {
            return Err(ParseError::Malformed);
        }
        let c_start = m_end + 2;
        let c_end = match find_char(line, c_start, ' ') {
            Some(i) => i,
            None => {
                return Err(ParseError::Malformed);
            },
        };
        if c_end <= c_start {
            return Err(ParseError::Malformed);
        }
        let code = match parse_num(line, c_start, c_end) {
            Some(v) => v,
            None => {
                return Err(ParseError::Malformed);
            },
        };
        let nb_start = c_end + 1;
        let nb_end = match find_char(line, nb_start, ' ') {
            Some(i) => i,
            None => {
                return Err(ParseError::Malformed);
            },
        };
        if nb_end <= nb_start {
            return Err(ParseError::Malformed);
        }
        let nbytes = match parse_num(line, nb_start, nb_end) {
            Some(v) => v,
            None => {
                return Err(ParseError::Malformed);
            },
        };
        if n - nb_end < 2 || line.get_char(nb_end + 1) != '"' {
            return Err(ParseError::Malformed);
        }
        let r_start = nb_end + 2;
        let r_end = match find_char(line, r_start, '"') {
            Some(i) => i,
            None => {
                return Err(ParseError::Malformed);
            },
        };
        if n - r_end < 3 || !(line.get_char(r_end + 1) == ' ' && line.get_char(r_end + 2) == '"') {
            return Err(ParseError::Malformed);
        }
        let u_start = r_end + 3;
        if u_start >= n || line.get_char(n - 1) != '"' {
            return Err(ParseError::Malformed);
        }
        let time_field = line.substring_char(t_start, rb);
        let time = match parse_log_time(time_field) {
            Some(v) => v,
            None => {
                return Err(ParseError::Malformed);
            },
        };
        let le = LogEntry {
            ip: line.substring_char(0, ip_end).to_owned(),
            time,
            method: line.substring_char(m_start, m_end).to_owned(),
            code,
            nbytes,
            referrer: line.substring_char(r_start, r_end).to_owned(),
            ua: line.substring_char(u_start, n - 1).to_owned(),
            line: line.to_owned(),
        };
        Ok(le)
    }
}

} // verus!
