//! The query layer: time windows, IP ordering and deduplication, and
//! the country and organization filters over enriched data.
use vstd::multiset::Multiset;
use vstd::prelude::*;
use vstd::string::{StrSliceExecFns, StringExecFns};

use crate::civil::{days_in_month, epoch_millis, spec_days_in_month, spec_epoch_millis};
use crate::contains_string;
use crate::scan::{lemma_digits_val_upper, lemma_pow10_small, parse_num, pow10, spec_all_digits,
    spec_digits_val};

verus! {

/// A half-open time window `[start, end)`, in UTC milliseconds since
/// the Unix epoch.
pub struct DateRange {
    pub start: i64,
    pub end: i64,
}

/// One country with the IPs active in the window that geolocate to it.
pub struct CountryWithIps {
    pub country: String,
    pub ips: Vec<String>,
}

/// Mathematical image of a `CountryWithIps`.
pub struct CountryWithIpsV {
    pub country: Seq<char>,
    pub ips: Seq<Seq<char>>,
}

impl View for CountryWithIps {
    type V = CountryWithIpsV;

    open spec fn view(&self) -> CountryWithIpsV {
        CountryWithIpsV { country: self.country@, ips: self.ips.deep_view() }
    }
}

impl Clone for CountryWithIps {
    fn clone(&self) -> (c: Self)
        ensures
            c@ == self@,
    {
        let ips = self.ips.clone();
        proof {
            assert(ips.deep_view() =~= self.ips.deep_view());
        }
        CountryWithIps { country: self.country.clone(), ips }
    }
}

/// One organization with the IPs active in the window that geolocate
/// to it.
pub struct OrgWithIps {
    pub org: String,
    pub ips: Vec<String>,
}

/// Mathematical image of an `OrgWithIps`.
pub struct OrgWithIpsV {
    pub org: Seq<char>,
    pub ips: Seq<Seq<char>>,
}

impl View for OrgWithIps {
    type V = OrgWithIpsV;

    open spec fn view(&self) -> OrgWithIpsV {
        OrgWithIpsV { org: self.org@, ips: self.ips.deep_view() }
    }
}

impl Clone for OrgWithIps {
    fn clone(&self) -> (o: Self)
        ensures
            o@ == self@,
    {
        let ips = self.ips.clone();
        proof {
            assert(ips.deep_view() =~= self.ips.deep_view());
        }
        OrgWithIps { org: self.org.clone(), ips }
    }
}

/// A query failed before it touched the store: a window bound is not
/// a timestamp, or a pattern is not a regular expression.
#[derive(Debug)]
pub enum QueryError {
    BadTime,
    BadPattern,
}

/// A window bound `YYYY-MM-DDThh:mm:ssZ` or
/// `YYYY-MM-DDThh:mm:ss+hh:mm` (or `-hh:mm`), read as UTC
/// milliseconds since the epoch, or nothing if it is ill-formed or
/// names no real instant.
pub open spec fn spec_parse_rfc3339(s: Seq<char>) -> Option<int> {
    if !(s.len() == 20 || s.len() == 25) {
        None
    } else if !(spec_all_digits(s, 0, 4) && s[4] == '-' && spec_all_digits(s, 5, 7) && s[7] == '-'
        && spec_all_digits(s, 8, 10) && s[10] == 'T' && spec_all_digits(s, 11, 13) && s[13] == ':'
        && spec_all_digits(s, 14, 16) && s[16] == ':' && spec_all_digits(s, 17, 19)) {
        None
    } else if s.len() == 20 && s[19] != 'Z' {
        None
    } else if s.len() == 25 && !((s[19] == '+' || s[19] == '-') && spec_all_digits(s, 20, 22)
        && s[22] == ':' && spec_all_digits(s, 23, 25)) {
        None
    } else {
        let year = spec_digits_val(s, 0, 4);
        let mon = spec_digits_val(s, 5, 7);
        let day = spec_digits_val(s, 8, 10);
        let h = spec_digits_val(s, 11, 13);
        let mi = spec_digits_val(s, 14, 16);
        let se = spec_digits_val(s, 17, 19);
        let oh = if s.len() == 25 {
            spec_digits_val(s, 20, 22)
        } else {
            0
        };
        let om = if s.len() == 25 {
            spec_digits_val(s, 23, 25)
        } else {
            0
        };
        let off = if s.len() == 25 && s[19] == '-' {
            -(oh * 3600 + om * 60)
        } else {
            oh * 3600 + om * 60
        };
        if year < 1 || mon < 1 || mon > 12 || day < 1 || day > spec_days_in_month(year, mon) || h
            > 23 || mi > 59 || se > 59 || oh > 23 || om > 59 {
            None
        } else {
            Some(spec_epoch_millis(year, mon, day, h, mi, se, off))
        }
    }
}

/// Reads one window bound.
pub fn parse_rfc3339(s: &str) -> (r: Option<i64>)
    ensures
        r matches Some(v) ==> spec_parse_rfc3339(s@) == Some(v as int),
        r is None ==> spec_parse_rfc3339(s@) is None,
{
    let n = s.unicode_len();
    if !(n == 20 || n == 25) {
        return None;
    }
    if !(s.get_char(4) == '-' && s.get_char(7) == '-' && s.get_char(10) == 'T' && s.get_char(13)
        == ':' && s.get_char(16) == ':') {
        return None;
    }
    proof {
        lemma_pow10_small();
    }
    let year_v = match parse_num(s, 0, 4) {
        Some(v) => v,
        None => {
            proof {
                if spec_all_digits(s@, 0, 4) {
                    lemma_digits_val_upper(s@, 0, 4);
                }
            }
            return None;
        },
    };
    let mon_v = match parse_num(s, 5, 7) {
        Some(v) => v,
        None => {
            proof {
                if spec_all_digits(s@, 5, 7) {
                    lemma_digits_val_upper(s@, 5, 7);
                }
            }
            return None;
        },
    };
    let day_v = match parse_num(s, 8, 10) {
        Some(v) => v,
        None => {
            proof {
                if spec_all_digits(s@, 8, 10) {
                    lemma_digits_val_upper(s@, 8, 10);
                }
            }
            return None;
        },
    };
    let h_v = match parse_num(s, 11, 13) {
        Some(v) => v,
        None => {
            proof {
                if spec_all_digits(s@, 11, 13) {
                    lemma_digits_val_upper(s@, 11, 13);
                }
            }
            return None;
        },
    };
    let mi_v = match parse_num(s, 14, 16) {
        Some(v) => v,
        None => {
            proof {
                if spec_all_digits(s@, 14, 16) {
                    lemma_digits_val_upper(s@, 14, 16);
                }
            }
            return None;
        },
    };
    let se_v = match parse_num(s, 17, 19) {
        Some(v) => v,
        None => {
            proof {
                if spec_all_digits(s@, 17, 19) {
                    lemma_digits_val_upper(s@, 17, 19);
                }
            }
            return None;
        },
    };
    let mut oh: i64 = 0;
    let mut om: i64 = 0;
    let mut negate: bool = false;
    if n == 20 {
        if s.get_char(19) != 'Z' {
            return None;
        }
    } else {
        let sign_c = s.get_char(19);
        if !(sign_c == '+' || sign_c == '-') {
            return None;
        }
        if s.get_char(22) != ':' {
            return None;
        }
        let oh_v = match parse_num(s, 20, 22) {
            Some(v) => v,
            None => {
                proof {
                    if spec_all_digits(s@, 20, 22) {
                        lemma_digits_val_upper(s@, 20, 22);
                    }
                }
                return None;
            },
        };
        let om_v = match parse_num(s, 23, 25) {
            Some(v) => v,
            None => {
                proof {
                    if spec_all_digits(s@, 23, 25) {
                        lemma_digits_val_upper(s@, 23, 25);
                    }
                }
                return None;
            },
        };
        oh = oh_v as i64;
        om = om_v as i64;
        negate = sign_c == '-';
    }
    let year: i64 = year_v as i64;
    let mon: i64 = mon_v as i64;
    let day: i64 = day_v as i64;
    let h: i64 = h_v as i64;
    let mi: i64 = mi_v as i64;
    let se: i64 = se_v as i64;
    proof {
        lemma_digits_val_upper(s@, 0, 4);
    }
    if year < 1 || mon < 1 || mon > 12 || day < 1 {
        return None;
    }
    let dim = days_in_month(year, mon);
    if day > dim || h > 23 || mi > 59 || se > 59 || oh > 23 || om > 59 {
        return None;
    }
    let off: i64 = if negate {
        -(oh * 3600 + om * 60)
    } else {
        oh * 3600 + om * 60
    };
    Some(epoch_millis(year, mon, day, h, mi, se, off))
}

/// The window `[start, end)` named by two timestamp strings; rejected
/// if either bound is not a timestamp.
pub fn time_str_to_daterange(start_str: &str, end_str: &str) -> (r: Result<DateRange, QueryError>)
    ensures
        r is Ok <==> (spec_parse_rfc3339(start_str@) is Some && spec_parse_rfc3339(end_str@)
            is Some),
        r matches Ok(dr) ==> spec_parse_rfc3339(start_str@) == Some(dr.start as int)
            && spec_parse_rfc3339(end_str@) == Some(dr.end as int),
        r matches Err(e) ==> e is BadTime,
{
    let start = match parse_rfc3339(start_str) {
        Some(v) => v,
        None => {
            return Err(QueryError::BadTime);
        },
    };
    let end = match parse_rfc3339(end_str) {
        Some(v) => v,
        None => {
            return Err(QueryError::BadTime);
        },
    };
    Ok(DateRange { start, end })
}

/// `a` comes no later than `b` in the code-point lexicographic order,
/// comparing from position `i` on.
pub open spec fn lex_le_from(a: Seq<char>, b: Seq<char>, i: int) -> bool
    decreases a.len() - i,
{
    if i < 0 || i >= a.len() {
        true
    } else if i >= b.len() {
        false
    } else if a[i] < b[i] {
        true
    } else if b[i] < a[i] {
        false
    } else {
        lex_le_from(a, b, i + 1)
    }
}

/// Code-point lexicographic order on strings.
pub open spec fn lex_le(a: Seq<char>, b: Seq<char>) -> bool {
    lex_le_from(a, b, 0)
}

proof fn lemma_lex_from_refl(a: Seq<char>, i: int)
    ensures
        lex_le_from(a, a, i),
    decreases a.len() - i,
{
    if 0 <= i < a.len() {
        lemma_lex_from_refl(a, i + 1);
    }
}

proof fn lemma_lex_from_conn(a: Seq<char>, b: Seq<char>, i: int)
    ensures
        lex_le_from(a, b, i) || lex_le_from(b, a, i),
    decreases a.len() - i,
{
    if 0 <= i < a.len() && i < b.len() && a[i] == b[i] {
        lemma_lex_from_conn(a, b, i + 1);
    }
}

proof fn lemma_lex_from_antisym(a: Seq<char>, b: Seq<char>, i: int)
    requires
        0 <= i <= a.len(),
        i <= b.len(),
        lex_le_from(a, b, i),
        lex_le_from(b, a, i),
    ensures
        a.len() == b.len(),
        forall|k: int| i <= k < a.len() ==> a[k] == b[k],
    decreases a.len() - i,
{
    if i >= a.len() {
        assert(i >= b.len());
    } else {
        assert(i < b.len());
        assert(a[i] == b[i]);
        lemma_lex_from_antisym(a, b, i + 1);
    }
}

proof fn lemma_lex_from_trans(a: Seq<char>, b: Seq<char>, c: Seq<char>, i: int)
    requires
        0 <= i,
        lex_le_from(a, b, i),
        lex_le_from(b, c, i),
    ensures
        lex_le_from(a, c, i),
    decreases a.len() - i,
{
    if i < a.len() {
        assert(i < b.len());
        assert(i < c.len());
        if a[i] == b[i] && b[i] == c[i] {
            lemma_lex_from_trans(a, b, c, i + 1);
        } else {
            assert(!(b[i] < a[i]) && !(c[i] < b[i]));
            assert(a[i] < c[i]);
        }
    }
}

/// The order is reflexive.
pub proof fn lemma_lex_refl(a: Seq<char>)
    ensures
        lex_le(a, a),
{
    lemma_lex_from_refl(a, 0);
}

/// Any two strings compare one way or the other.
pub proof fn lemma_lex_conn(a: Seq<char>, b: Seq<char>)
    ensures
        lex_le(a, b) || lex_le(b, a),
{
    lemma_lex_from_conn(a, b, 0);
}

/// Strings that compare no-later both ways are equal.
pub proof fn lemma_lex_antisym(a: Seq<char>, b: Seq<char>)
    requires
        lex_le(a, b),
        lex_le(b, a),
    ensures
        a == b,
{
    lemma_lex_from_antisym(a, b, 0);
    assert(a =~= b);
}

/// The order is transitive.
pub proof fn lemma_lex_trans(a: Seq<char>, b: Seq<char>, c: Seq<char>)
    requires
        lex_le(a, b),
        lex_le(b, c),
    ensures
        lex_le(a, c),
{
    lemma_lex_from_trans(a, b, c, 0);
}

/// `a` comes no later than `b`, by code point.
pub fn str_le(a: &String, b: &String) -> (r: bool)
    ensures
        r == lex_le(a@, b@),
{
    str_le_from(a, b, 0)
}

fn str_le_from(a: &String, b: &String, i: usize) -> (r: bool)
    ensures
        r == lex_le_from(a@, b@, i as int),
    decreases a@.len() - i,
{
    if i >= a.as_str().unicode_len() {
        true
    } else if i >= b.as_str().unicode_len() {
        false
    } else {
        let ca = a.as_str().get_char(i);
        let cb = b.as_str().get_char(i);
        if ca < cb {
            true
        } else if cb < ca {
            false
        } else {
            str_le_from(a, b, i + 1)
        }
    }
}

/// The strings of `s` stand in ascending code-point order.
pub open spec fn ips_sorted(s: Seq<Seq<char>>) -> bool {
    forall|i: int, j: int| 0 <= i < j < s.len() ==> lex_le(#[trigger] s[i], #[trigger] s[j])
}

/// Sorts the IPs ascending by code point.
pub fn sort_ips(ips: &mut Vec<String>)
    ensures
        final(ips)@.len() == old(ips)@.len(),
        ips_sorted(final(ips).deep_view()),
        final(ips).deep_view().to_multiset() == old(ips).deep_view().to_multiset(),
{
    broadcast use vstd::seq_lib::group_to_multiset_ensures;

    let mut out: Vec<String> = Vec::new();
    while ips.len() > 0
        invariant
            out.deep_view().to_multiset().add(ips.deep_view().to_multiset()) == old(
                ips,
            ).deep_view().to_multiset(),
            out@.len() + ips@.len() == old(ips)@.len(),
            ips_sorted(out.deep_view()),
            forall|p: int, q: int|
                0 <= p < out.deep_view().len() && 0 <= q < ips.deep_view().len() ==> lex_le(
                    #[trigger] out.deep_view()[p],
                    #[trigger] ips.deep_view()[q],
                ),
        decreases ips@.len(),
    {
        let mut m: usize = 0;
        let mut j: usize = 1;
        proof {
            lemma_lex_refl(ips.deep_view()[0]);
        }
        while j < ips.len()
            invariant
                0 < ips@.len(),
                m < j <= ips@.len(),
                forall|k: int| 0 <= k < j ==> lex_le(ips.deep_view()[m as int], #[trigger] ips.deep_view()[k]),
            decreases ips@.len() - j,
        {
            if str_le(&ips[j], &ips[m]) {
                proof {
                    lemma_lex_refl(ips.deep_view()[j as int]);
                    assert forall|k: int| 0 <= k < j implies lex_le(
                        ips.deep_view()[j as int],
                        #[trigger] ips.deep_view()[k],
                    ) by {
                        lemma_lex_trans(
                            ips.deep_view()[j as int],
                            ips.deep_view()[m as int],
                            ips.deep_view()[k],
                        );
                    }
                }
                m = j;
            } else {
                proof {
                    lemma_lex_conn(ips.deep_view()[j as int], ips.deep_view()[m as int]);
                }
            }
            j = j + 1;
        }
        let ghost prev_ips = ips.deep_view();
        let ghost prev_out = out.deep_view();
        let x = ips.remove(m);
        out.push(x);
        proof {
            assert(ips.deep_view() =~= prev_ips.remove(m as int));
            assert(out.deep_view() =~= prev_out.push(x@));
            assert(x@ == prev_ips[m as int]);
            prev_out.to_multiset_ensures();
            prev_ips.to_multiset_ensures();
            assert(prev_out.push(x@).to_multiset() =~= prev_out.to_multiset().insert(x@));
            assert(prev_ips.remove(m as int).to_multiset() =~= prev_ips.to_multiset().remove(
                prev_ips[m as int],
            ));
            assert(out.deep_view().to_multiset() == prev_out.to_multiset().insert(x@));
            assert(ips.deep_view().to_multiset() == prev_ips.to_multiset().remove(x@));
            assert(prev_ips.contains(prev_ips[m as int]));
            assert(prev_ips.to_multiset().contains(x@));
            assert(out.deep_view().to_multiset().add(ips.deep_view().to_multiset()) =~= prev_out.to_multiset().add(prev_ips.to_multiset()));
            // the chosen element is no later than everything that stays
            assert forall|q: int| 0 <= q < ips.deep_view().len() implies lex_le(
                x@,
                #[trigger] ips.deep_view()[q],
            ) by {
                if q < m {
                    assert(ips.deep_view()[q] == prev_ips[q]);
                } else {
                    assert(ips.deep_view()[q] == prev_ips[q + 1]);
                }
            }
            assert forall|p: int, q: int|
                0 <= p < q < out.deep_view().len() implies lex_le(
                #[trigger] out.deep_view()[p],
                #[trigger] out.deep_view()[q],
            ) by {
                if q < out.deep_view().len() - 1 {
                    assert(lex_le(prev_out[p], prev_out[q]));
                }
            }
        }
    }
    let mut i: usize = 0;
    proof {
        assert(ips.deep_view().to_multiset() =~= Multiset::empty());
        assert(out.deep_view().to_multiset() =~= old(ips).deep_view().to_multiset());
    }
    *ips = out;
}

/// Two searches of one unchanged store agree: sorted listings with
/// the same strings are the same listing, so an identical query asked
/// twice returns the same IPs in the same order.
pub proof fn lemma_sorted_ips_unique(x: Seq<Seq<char>>, y: Seq<Seq<char>>)
    requires
        ips_sorted(x),
        ips_sorted(y),
        x.to_multiset() == y.to_multiset(),
    ensures
        x == y,
    decreases x.len(),
{
    x.to_multiset_ensures();
    y.to_multiset_ensures();
    if x.len() == 0 {
        assert(y.to_multiset().len() == 0);
        assert(x =~= y);
    } else {
        assert(x.contains(x[0]));
        assert(x.to_multiset().count(x[0]) > 0);
        assert(y.to_multiset().count(x[0]) > 0);
        assert(y.contains(x[0]));
        assert(y.len() > 0);
        assert(y.contains(y[0]));
        assert(y.to_multiset().count(y[0]) > 0);
        assert(x.to_multiset().count(y[0]) > 0);
        assert(x.contains(y[0]));
        let kx = choose|k: int| 0 <= k < y.len() && y[k] == x[0];
        let ky = choose|k: int| 0 <= k < x.len() && x[k] == y[0];
        if kx > 0 {
            assert(lex_le(y[0], y[kx]));
        } else {
            lemma_lex_refl(y[0]);
        }
        if ky > 0 {
            assert(lex_le(x[0], x[ky]));
        } else {
            lemma_lex_refl(x[0]);
        }
        lemma_lex_antisym(x[0], y[0]);
        assert(x[0] == y[0]);
        let xs = x.remove(0);
        let ys = y.remove(0);
        assert(xs.to_multiset() == x.to_multiset().remove(x[0]));
        assert(ys.to_multiset() == y.to_multiset().remove(y[0]));
        assert(xs.to_multiset() == ys.to_multiset());
        assert(ips_sorted(xs)) by {
            assert forall|i: int, j: int| 0 <= i < j < xs.len() implies lex_le(
                #[trigger] xs[i],
                #[trigger] xs[j],
            ) by {
                assert(xs[i] == x[i + 1] && xs[j] == x[j + 1]);
            }
        }
        assert(ips_sorted(ys)) by {
            assert forall|i: int, j: int| 0 <= i < j < ys.len() implies lex_le(
                #[trigger] ys[i],
                #[trigger] ys[j],
            ) by {
                assert(ys[i] == y[i + 1] && ys[j] == y[j + 1]);
            }
        }
        lemma_sorted_ips_unique(xs, ys);
        assert(x =~= y) by {
            assert(forall|k: int| 1 <= k < x.len() ==> x[k] == xs[k - 1] && y[k] == ys[k - 1]);
        }
    }
}

/// First-occurrence deduplication of a listing.
pub open spec fn spec_dedup(v: Seq<Seq<char>>) -> Seq<Seq<char>>
    decreases v.len(),
{
    if v.len() == 0 {
        Seq::empty()
    } else {
        let rest = spec_dedup(v.drop_last());
        if rest.contains(v.last()) {
            rest
        } else {
            rest.push(v.last())
        }
    }
}

/// Drops repeated strings, keeping first occurrences in order.
pub fn dedup_strings(v: &Vec<String>) -> (r: Vec<String>)
    ensures
        r.deep_view() == spec_dedup(v.deep_view()),
{
    let mut r: Vec<String> = Vec::new();
    let mut i: usize = 0;
    while i < v.len()
        invariant
            i <= v@.len(),
            r.deep_view() == spec_dedup(v.deep_view().take(i as int)),
        decreases v@.len() - i,
    {
        let ghost prev = r.deep_view();
        if !contains_string(&r, &v[i]) {
            r.push(v[i].clone());
            proof {
                assert(r.deep_view() =~= prev.push(v@[i as int]@));
            }
        }
        proof {
            assert(v.deep_view().take(i as int + 1).drop_last() =~= v.deep_view().take(i as int));
            assert(v.deep_view().take(i as int + 1).last() == v.deep_view()[i as int]);
        }
        i = i + 1;
    }
    proof {
        assert(v.deep_view().take(v@.len() as int) =~= v.deep_view());
    }
    r
}

/// A deduplicated listing lists exactly the strings of the input,
/// each once.
pub proof fn lemma_dedup_distinct(v: Seq<Seq<char>>)
    ensures
        forall|i: int, j: int|
            0 <= i < j < spec_dedup(v).len() ==> spec_dedup(v)[i] != spec_dedup(v)[j],
        forall|x: Seq<char>| #[trigger] spec_dedup(v).contains(x) <==> v.contains(x),
    decreases v.len(),
{
    if v.len() > 0 {
        lemma_dedup_distinct(v.drop_last());
        let rest = spec_dedup(v.drop_last());
        let full = spec_dedup(v);
        assert forall|x: Seq<char>| #[trigger] full.contains(x) implies v.contains(x) by {
            if rest.contains(x) {
                assert(v.drop_last().contains(x));
                let k = choose|k: int| 0 <= k < v.drop_last().len() && v.drop_last()[k] == x;
                assert(v[k] == x);
            } else {
                assert(x == v.last());
                assert(v[v.len() - 1] == x);
            }
        }
        assert forall|x: Seq<char>| v.contains(x) implies #[trigger] full.contains(x) by {
            let k = choose|k: int| 0 <= k < v.len() && v[k] == x;
            if k < v.len() - 1 {
                assert(v.drop_last()[k] == x);
                assert(rest.contains(x));
                if rest.contains(v.last()) {
                    assert(full == rest);
                } else {
                    assert(forall|m: int| 0 <= m < rest.len() ==> full[m] == rest[m]);
                }
            } else {
                if rest.contains(v.last()) {
                    assert(full.contains(x));
                } else {
                    assert(full.last() == x);
                }
            }
        }
    }
}

/// A country is listed when the accept-list holds it, or when the
/// accept-list is empty (then every country is accepted).
pub open spec fn spec_country_ok(accept: Seq<Seq<char>>, c: Seq<char>) -> bool {
    accept.len() == 0 || accept.contains(c)
}

/// Views of a batch of country groupings.
pub open spec fn country_views(list: Seq<CountryWithIps>) -> Seq<CountryWithIpsV> {
    list.map_values(|c: CountryWithIps| c@)
}

/// The groupings whose country the accept-list admits, in order.
pub open spec fn spec_accepted_countries(list: Seq<CountryWithIpsV>, accept: Seq<Seq<char>>) -> Seq<
    CountryWithIpsV,
>
    decreases list.len(),
{
    if list.len() == 0 {
        Seq::empty()
    } else {
        let rest = spec_accepted_countries(list.drop_last(), accept);
        if spec_country_ok(accept, list.last().country) {
            rest.push(list.last())
        } else {
            rest
        }
    }
}

/// Keeps the country groupings the accept-list admits: all of them
/// when the list is empty, else exactly the named countries.
pub fn filter_countries(list: &Vec<CountryWithIps>, accept: &Vec<String>) -> (r: Vec<
    CountryWithIps,
>)
    ensures
        country_views(r@) == spec_accepted_countries(country_views(list@), accept.deep_view()),
{
    let mut r: Vec<CountryWithIps> = Vec::new();
    let mut i: usize = 0;
    while i < list.len()
        invariant
            i <= list@.len(),
            country_views(r@) == spec_accepted_countries(
                country_views(list@).take(i as int),
                accept.deep_view(),
            ),
        decreases list@.len() - i,
    {
        let ghost prev = country_views(r@);
        if accept.len() == 0 || contains_string(accept, &list[i].country) {
            r.push(list[i].clone());
            proof {
                assert(country_views(r@) =~= prev.push(list@[i as int]@));
            }
        }
        proof {
            assert(country_views(list@).take(i as int + 1).drop_last() =~= country_views(
                list@,
            ).take(i as int));
            assert(country_views(list@).take(i as int + 1).last() == list@[i as int]@);
        }
        i = i + 1;
    }
    proof {
        assert(country_views(list@).take(list@.len() as int) =~= country_views(list@));
    }
    r
}

#[verifier::external_type_specification]
#[verifier::external_body]
pub struct ExRegex(regex::Regex);

#[verifier::external_type_specification]
#[verifier::external_body]
pub struct ExRegexError(regex::Error);

/// Whether `pattern` is a regular expression that compiles.
pub uninterp spec fn regex_ok(pattern: Seq<char>) -> bool;

/// Whether the regular expression `pattern` matches somewhere in
/// `text`.
pub uninterp spec fn regex_match(pattern: Seq<char>, text: Seq<char>) -> bool;

/// A compiled search pattern, kept beside its source text.
pub struct Matcher {
    re: regex::Regex,
    pattern: String,
}

impl Matcher {
    /// The pattern text this matcher was compiled from.
    pub closed spec fn pattern_view(&self) -> Seq<char> {
        self.pattern@
    }

    /// Relies on regex::Regex::new: whether a pattern compiles is
    /// decided by the pattern text alone, and the matcher built here
    /// holds the regex compiled from exactly that text.
    #[verifier::external_body]
    pub fn compile(pattern: &str) -> (r: Result<Matcher, regex::Error>)
        ensures
            r is Ok <==> regex_ok(pattern@),
            r matches Ok(m) ==> m.pattern_view() == pattern@,
    {
        match regex::Regex::new(pattern) {
            Ok(re) => Ok(Matcher { re, pattern: pattern.to_string() }),
            Err(e) => Err(e),
        }
    }

    /// Relies on regex::Regex::is_match: whether the pattern matches
    /// somewhere in the text depends on the pattern and the text
    /// alone.
    #[verifier::external_body]
    pub fn is_match(&self, text: &str) -> (r: bool)
        ensures
            r == regex_match(self.pattern_view(), text@),
    {
        self.re.is_match(text)
    }
}

/// Views of a batch of organization groupings.
pub open spec fn org_views(list: Seq<OrgWithIps>) -> Seq<OrgWithIpsV> {
    list.map_values(|o: OrgWithIps| o@)
}

/// The groupings whose organization the pattern matches, in order.
pub open spec fn spec_matching_orgs(list: Seq<OrgWithIpsV>, pat: Seq<char>) -> Seq<OrgWithIpsV>
    decreases list.len(),
{
    if list.len() == 0 {
        Seq::empty()
    } else {
        let rest = spec_matching_orgs(list.drop_last(), pat);
        if regex_match(pat, list.last().org) {
            rest.push(list.last())
        } else {
            rest
        }
    }
}

/// Keeps the organization groupings whose name the compiled pattern
/// matches.
pub fn filter_orgs_matching(list: &Vec<OrgWithIps>, m: &Matcher) -> (r: Vec<OrgWithIps>)
    ensures
        org_views(r@) == spec_matching_orgs(org_views(list@), m.pattern_view()),
{
    let mut r: Vec<OrgWithIps> = Vec::new();
    let mut i: usize = 0;
    while i < list.len()
        invariant
            i <= list@.len(),
            org_views(r@) == spec_matching_orgs(org_views(list@).take(i as int), m.pattern_view()),
        decreases list@.len() - i,
    {
        let ghost prev = org_views(r@);
        if m.is_match(list[i].org.as_str()) {
            r.push(list[i].clone());
            proof {
                assert(org_views(r@) =~= prev.push(list@[i as int]@));
            }
        }
        proof {
            assert(org_views(list@).take(i as int + 1).drop_last() =~= org_views(list@).take(
                i as int,
            ));
            assert(org_views(list@).take(i as int + 1).last() == list@[i as int]@);
        }
        i = i + 1;
    }
    proof {
        assert(org_views(list@).take(list@.len() as int) =~= org_views(list@));
    }
    r
}

/// The organization groupings whose name matches `pattern`; rejected
/// when `pattern` is not a regular expression.
pub fn select_orgs(pattern: &str, list: &Vec<OrgWithIps>) -> (r: Result<
    Vec<OrgWithIps>,
    QueryError,
>)
    ensures
        r is Ok <==> regex_ok(pattern@),
        r matches Ok(v) ==> org_views(v@) == spec_matching_orgs(org_views(list@), pattern@),
        r matches Err(e) ==> e is BadPattern,
{
    let m = match Matcher::compile(pattern) {
        Ok(m) => m,
        Err(_) => {
            return Err(QueryError::BadPattern);
        },
    };
    Ok(filter_orgs_matching(list, &m))
}

} // verus!
