//! Enrichment of web-server access-log entries with network context:
//! per-IP reverse-DNS and geolocation profiles, deduplicated against
//! a persistent store, plus a query layer over the persisted data.
use vstd::prelude::*;
use vstd::string::StringExecFns;

pub mod args;
pub mod civil;
pub mod geo;
pub mod lkup;
pub mod log_entries;
pub mod query;
pub mod scan;

use crate::geo::Geodata;
use crate::geo::GeodataV;
use crate::lkup::RevLookupData;
use crate::lkup::RevLookupDataV;
use crate::log_entries::{spec_parse_entry, LogEntry, LogEntryV};

verus! {

/// Startup configuration: geolocation API key, store connection
/// string, database name.
pub struct Config {
    pub api_key: String,
    pub db_uri: String,
    pub db_name: String,
}

/// Enrichment record for one IP address, persisted under a unique
/// constraint on `ip`.
pub struct HostData {
    pub ip: String,
    pub geodata: Geodata,
    pub ptr_records: Vec<String>,
}

/// Mathematical image of a `HostData`.
pub struct HostDataV {
    pub ip: Seq<char>,
    pub geodata: GeodataV,
    pub ptr_records: Seq<Seq<char>>,
}

impl View for HostData {
    type V = HostDataV;

    open spec fn view(&self) -> HostDataV {
        HostDataV {
            ip: self.ip@,
            geodata: self.geodata@,
            ptr_records: self.ptr_records.deep_view(),
        }
    }
}

/// The printed form of a host record: the IP line, the geolocation
/// profile, then one line per reverse-DNS record.
pub open spec fn spec_hostdata_text(h: HostDataV) -> Seq<char> {
    "IP: "@ + h.ip + "\n"@ + crate::geo::spec_geodata_text(h.geodata) + spec_host_records_text(
        h.ptr_records,
    )
}

/// One `host: ` line per reverse-DNS record.
pub open spec fn spec_host_records_text(records: Seq<Seq<char>>) -> Seq<char>
    decreases records.len(),
{
    if records.len() == 0 {
        Seq::empty()
    } else {
        spec_host_records_text(records.drop_last()) + "host: "@ + records.last() + "\n"@
    }
}

impl HostData {
    /// The host record as printable text.
    pub fn to_display_string(&self) -> (s: String)
        ensures
            s@ == spec_hostdata_text(self@),
    {
        let mut s = String::from_str("IP: ");
        s.append(self.ip.as_str());
        s.append("\n");
        s.append(self.geodata.to_display_string().as_str());
        let mut i: usize = 0;
        let ghost head = "IP: "@ + self@.ip + "\n"@ + crate::geo::spec_geodata_text(self@.geodata);
        proof {
            assert(s@ =~= head + spec_host_records_text(self.ptr_records.deep_view().take(0)));
        }
        while i < self.ptr_records.len()
            invariant
                i <= self.ptr_records@.len(),
                s@ == head + spec_host_records_text(self.ptr_records.deep_view().take(i as int)),
            decreases self.ptr_records@.len() - i,
        {
            s.append("host: ");
            s.append(self.ptr_records[i].as_str());
            s.append("\n");
            proof {
                assert(self.ptr_records.deep_view().take(i as int + 1).drop_last()
                    =~= self.ptr_records.deep_view().take(i as int));
                assert(self.ptr_records.deep_view().take(i as int + 1).last()
                    == self.ptr_records.deep_view()[i as int]);
                assert(s@ =~= head + spec_host_records_text(
                    self.ptr_records.deep_view().take(i as int + 1),
                ));
            }
            i = i + 1;
        }
        proof {
            assert(self.ptr_records.deep_view().take(self.ptr_records@.len() as int)
                =~= self.ptr_records.deep_view());
            assert(s@ =~= spec_hostdata_text(self@));
        }
        s
    }
}

/// Counters reported after one enrichment run.
pub struct Counts {
    pub n_logents: usize,
    pub n_unique_ips: usize,
    pub n_new_ips: usize,
    pub n_inserted_les: usize,
    pub n_skipped_les: usize,
}

/// Views of a batch of parsed entries.
pub open spec fn entry_views(entries: Seq<LogEntry>) -> Seq<LogEntryV> {
    entries.map_values(|e: LogEntry| e@)
}

/// The entries of the lines that parse, in order.
pub open spec fn spec_good_entries(lines: Seq<String>) -> Seq<LogEntryV>
    decreases lines.len(),
{
    if lines.len() == 0 {
        Seq::empty()
    } else {
        let rest = spec_good_entries(lines.drop_last());
        match spec_parse_entry(lines.last()@) {
            Some(e) => rest.push(e),
            None => rest,
        }
    }
}

/// The lines that do not parse, in order.
pub open spec fn spec_bad_lines(lines: Seq<String>) -> Seq<Seq<char>>
    decreases lines.len(),
{
    if lines.len() == 0 {
        Seq::empty()
    } else {
        let rest = spec_bad_lines(lines.drop_last());
        match spec_parse_entry(lines.last()@) {
            Some(_) => rest,
            None => rest.push(lines.last()@),
        }
    }
}

/// Parses a batch of raw lines. A malformed line lands in the second
/// vector and never stops the batch; every other line yields exactly
/// one entry, in input order.
pub fn parse_lines(lines: &Vec<String>) -> (r: (Vec<LogEntry>, Vec<String>))
    ensures
        entry_views(r.0@) == spec_good_entries(lines@),
        r.1.deep_view() == spec_bad_lines(lines@),
        r.0@.len() + r.1@.len() == lines@.len(),
{
    let mut good: Vec<LogEntry> = Vec::new();
    let mut bad: Vec<String> = Vec::new();
    let mut i: usize = 0;
    while i < lines.len()
        invariant
            i <= lines@.len(),
            entry_views(good@) == spec_good_entries(lines@.take(i as int)),
            bad.deep_view() == spec_bad_lines(lines@.take(i as int)),
            good@.len() + bad@.len() == i,
        decreases lines@.len() - i,
    {
        let line = &lines[i];
        match LogEntry::parse(line.as_str()) {
            Ok(le) => {
                let ghost prev = good@;
                good.push(le);
                proof {
                    assert(entry_views(good@) =~= entry_views(prev).push(le@));
                }
            },
            Err(_) => {
                let ghost prev = bad.deep_view();
                bad.push(line.clone());
                proof {
                    assert(bad.deep_view() =~= prev.push(line@));
                }
            },
        }
        proof {
            assert(lines@.take(i as int + 1).drop_last() =~= lines@.take(i as int));
            assert(lines@.take(i as int + 1).last() == lines@[i as int]);
        }
        i = i + 1;
    }
    proof {
        assert(lines@.take(lines@.len() as int) =~= lines@);
    }
    (good, bad)
}

/// `s` occurs among the strings of `v`.
pub fn contains_string(v: &Vec<String>, s: &String) -> (r: bool)
    ensures
        r == v.deep_view().contains(s@),
{
    let mut j: usize = 0;
    while j < v.len()
        invariant
            j <= v@.len(),
            forall|k: int| 0 <= k < j ==> v.deep_view()[k] != s@,
        decreases v@.len() - j,
    {
        if v[j] == *s {
            assert(v.deep_view()[j as int] == s@);
            return true;
        }
        j = j + 1;
    }
    false
}

/// The distinct client IPs of a batch, in order of first occurrence.
pub open spec fn spec_unique_ips(entries: Seq<LogEntryV>) -> Seq<Seq<char>>
    decreases entries.len(),
{
    if entries.len() == 0 {
        Seq::empty()
    } else {
        let rest = spec_unique_ips(entries.drop_last());
        if rest.contains(entries.last().ip) {
            rest
        } else {
            rest.push(entries.last().ip)
        }
    }
}

/// The IP set of a batch: each client IP once, first occurrence
/// first.
pub fn logents_to_ips_set(logentries: &Vec<LogEntry>) -> (ips: Vec<String>)
    ensures
        ips.deep_view() == spec_unique_ips(entry_views(logentries@)),
{
    let mut ips: Vec<String> = Vec::new();
    let mut i: usize = 0;
    while i < logentries.len()
        invariant
            i <= logentries@.len(),
            ips.deep_view() == spec_unique_ips(entry_views(logentries@).take(i as int)),
        decreases logentries@.len() - i,
    {
        let ghost prev = ips.deep_view();
        if !contains_string(&ips, &logentries[i].ip) {
            ips.push(logentries[i].ip.clone());
            proof {
                assert(ips.deep_view() =~= prev.push(logentries@[i as int].ip@));
            }
        }
        proof {
            assert(entry_views(logentries@).take(i as int + 1).drop_last() =~= entry_views(
                logentries@,
            ).take(i as int));
            assert(entry_views(logentries@).take(i as int + 1).last() == logentries@[i as int]@);
        }
        i = i + 1;
    }
    proof {
        assert(entry_views(logentries@).take(logentries@.len() as int) =~= entry_views(
            logentries@,
        ));
    }
    ips
}

/// Every IP of the set turns up in the batch, each IP of the batch is
/// in the set, and no IP is listed twice.
pub proof fn lemma_unique_ips_set(entries: Seq<LogEntryV>)
    ensures
        forall|x: Seq<char>|
            #[trigger] spec_unique_ips(entries).contains(x) <==> (exists|k: int|
                0 <= k < entries.len() && (#[trigger] entries[k]).ip == x),
        forall|i: int, j: int|
            0 <= i < j < spec_unique_ips(entries).len() ==> spec_unique_ips(entries)[i]
                != spec_unique_ips(entries)[j],
    decreases entries.len(),
{
    if entries.len() > 0 {
        lemma_unique_ips_set(entries.drop_last());
        let rest = spec_unique_ips(entries.drop_last());
        let full = spec_unique_ips(entries);
        assert forall|x: Seq<char>| #[trigger] full.contains(x) implies (exists|k: int|
            0 <= k < entries.len() && (#[trigger] entries[k]).ip == x) by {
            if rest.contains(x) {
                let k = choose|k: int|
                    0 <= k < entries.drop_last().len() && (#[trigger] entries.drop_last()[k]).ip
                        == x;
                assert(entries[k].ip == x);
            } else {
                assert(x == entries.last().ip);
                assert(entries[entries.len() - 1].ip == x);
            }
        }
        assert forall|x: Seq<char>| (exists|k: int|
            0 <= k < entries.len() && (#[trigger] entries[k]).ip == x) implies #[trigger] full.contains(
            x,
        ) by {
            let k = choose|k: int| 0 <= k < entries.len() && (#[trigger] entries[k]).ip == x;
            if k < entries.len() - 1 {
                assert(entries.drop_last()[k].ip == x);
                assert(rest.contains(x));
                if rest.contains(entries.last().ip) {
                    assert(full == rest);
                } else {
                    assert(forall|m: int| 0 <= m < rest.len() ==> full[m] == rest[m]);
                }
            } else {
                if rest.contains(entries.last().ip) {
                    assert(full.contains(x));
                } else {
                    assert(full.last() == x);
                }
            }
        }
    }
}

/// The entries of `ips` whose flag in `known` equals `want`, in
/// order.
pub open spec fn spec_select(ips: Seq<Seq<char>>, known: Seq<bool>, want: bool) -> Seq<Seq<char>>
    recommends
        ips.len() == known.len(),
    decreases ips.len(),
{
    if ips.len() == 0 {
        Seq::empty()
    } else {
        let rest = spec_select(ips.drop_last(), known.drop_last(), want);
        if known.last() == want {
            rest.push(ips.last())
        } else {
            rest
        }
    }
}

/// Every candidate IP is classified as exactly one of
/// needs-enrichment or already-enriched: the two selections
/// together account for the whole IP set.
pub proof fn lemma_classification_complete(ips: Seq<Seq<char>>, known: Seq<bool>)
    requires
        ips.len() == known.len(),
    ensures
        spec_select(ips, known, false).len() + spec_select(ips, known, true).len() == ips.len(),
    decreases ips.len(),
{
    if ips.len() > 0 {
        lemma_classification_complete(ips.drop_last(), known.drop_last());
    }
}

/// An IP stands in a selection exactly when it stands in the IP set
/// at a position whose flag matches.
pub proof fn lemma_select_membership(
    ips: Seq<Seq<char>>,
    known: Seq<bool>,
    want: bool,
    x: Seq<char>,
)
    requires
        ips.len() == known.len(),
    ensures
        spec_select(ips, known, want).contains(x) <==> exists|i: int|
            0 <= i < ips.len() && ips[i] == x && (#[trigger] known[i]) == want,
    decreases ips.len(),
{
    if ips.len() > 0 {
        lemma_select_membership(ips.drop_last(), known.drop_last(), want, x);
        let rest = spec_select(ips.drop_last(), known.drop_last(), want);
        let full = spec_select(ips, known, want);
        let n = ips.len() - 1;
        if full.contains(x) {
            if rest.contains(x) {
                let i = choose|i: int|
                    0 <= i < n && ips.drop_last()[i] == x && (#[trigger] known.drop_last()[i])
                        == want;
                assert(ips[i] == x && known[i] == want);
            } else {
                assert(known.last() == want && ips.last() == x);
                assert(ips[n] == x && known[n] == want);
            }
        }
        if exists|i: int| 0 <= i < ips.len() && ips[i] == x && (#[trigger] known[i]) == want {
            let i = choose|i: int| 0 <= i < ips.len() && ips[i] == x && (#[trigger] known[i]) == want;
            if i < n {
                assert(ips.drop_last()[i] == x && known.drop_last()[i] == want);
                assert(rest.contains(x));
                if known.last() == want {
                    let j = choose|j: int| 0 <= j < rest.len() && rest[j] == x;
                    assert(full[j] == x);
                }
                assert(full.contains(x));
            } else {
                if known.last() == want {
                    assert(full.last() == x);
                }
                assert(full.contains(x));
            }
        }
    }
}

/// With distinct candidate IPs -- as the IP set of a batch always is
/// -- no IP is classified both needs-enrichment and
/// already-enriched: together with `lemma_classification_complete`,
/// every candidate lands in exactly one of the two.
pub proof fn lemma_classification_exclusive(
    ips: Seq<Seq<char>>,
    known: Seq<bool>,
    x: Seq<char>,
)
    requires
        ips.len() == known.len(),
        forall|i: int, j: int| 0 <= i < j < ips.len() ==> ips[i] != ips[j],
        spec_select(ips, known, false).contains(x),
    ensures
        !spec_select(ips, known, true).contains(x),
{
    lemma_select_membership(ips, known, false, x);
    lemma_select_membership(ips, known, true, x);
    if spec_select(ips, known, true).contains(x) {
        let i = choose|i: int| 0 <= i < ips.len() && ips[i] == x && (#[trigger] known[i]) == false;
        let j = choose|j: int| 0 <= j < ips.len() && ips[j] == x && (#[trigger] known[j]) == true;
        assert(ips[i] == ips[j] && i != j);
    }
}

/// Splits the IP set by the store's answer: `known[i]` says whether
/// `ips[i]` is already on record. Returns (needs-enrichment,
/// already-enriched).
pub fn partition_ips(ips: &Vec<String>, known: &Vec<bool>) -> (r: (Vec<String>, Vec<String>))
    requires
        ips@.len() == known@.len(),
    ensures
        r.0.deep_view() == spec_select(ips.deep_view(), known@, false),
        r.1.deep_view() == spec_select(ips.deep_view(), known@, true),
        r.0@.len() + r.1@.len() == ips@.len(),
{
    let mut needs: Vec<String> = Vec::new();
    let mut already: Vec<String> = Vec::new();
    let mut i: usize = 0;
    while i < ips.len()
        invariant
            i <= ips@.len() == known@.len(),
            needs.deep_view() == spec_select(
                ips.deep_view().take(i as int),
                known@.take(i as int),
                false,
            ),
            already.deep_view() == spec_select(
                ips.deep_view().take(i as int),
                known@.take(i as int),
                true,
            ),
            needs@.len() + already@.len() == i,
        decreases ips@.len() - i,
    {
        let ghost prev_needs = needs.deep_view();
        let ghost prev_already = already.deep_view();
        if known[i] {
            already.push(ips[i].clone());
            proof {
                assert(already.deep_view() =~= prev_already.push(ips@[i as int]@));
            }
        } else {
            needs.push(ips[i].clone());
            proof {
                assert(needs.deep_view() =~= prev_needs.push(ips@[i as int]@));
            }
        }
        proof {
            assert(ips.deep_view().take(i as int + 1).drop_last() =~= ips.deep_view().take(
                i as int,
            ));
            assert(known@.take(i as int + 1).drop_last() =~= known@.take(i as int));
            assert(ips.deep_view().take(i as int + 1).last() == ips.deep_view()[i as int]);
            assert(known@.take(i as int + 1).last() == known@[i as int]);
        }
        i = i + 1;
    }
    proof {
        assert(ips.deep_view().take(ips@.len() as int) =~= ips.deep_view());
        assert(known@.take(known@.len() as int) =~= known@);
    }
    (needs, already)
}

/// Views of a batch of reverse-DNS results.
pub open spec fn rdns_views(rdns: Seq<RevLookupData>) -> Seq<RevLookupDataV> {
    rdns.map_values(|r: RevLookupData| r@)
}

/// First index `j >= from` whose result is for `ip`, or -1.
pub open spec fn spec_find_rdns(rdns: Seq<RevLookupDataV>, from: int, ip: Seq<char>) -> int
    decreases rdns.len() - from,
{
    if from < 0 || from >= rdns.len() {
        -1
    } else if rdns[from].ip_addr == ip {
        from
    } else {
        spec_find_rdns(rdns, from + 1, ip)
    }
}

/// First reverse-DNS result for `ip`, scanning from `from`.
pub fn find_rdns(rdns: &Vec<RevLookupData>, from: usize, ip: &String) -> (r: Option<usize>)
    requires
        from <= rdns@.len(),
    ensures
        (match r {
            Some(j) => j as int,
            None => -1,
        }) == spec_find_rdns(rdns_views(rdns@), from as int, ip@),
        r matches Some(j) ==> from <= j < rdns@.len(),
    decreases rdns@.len() - from,
{
    if from >= rdns.len() {
        None
    } else if rdns[from].ip_addr == *ip {
        Some(from)
    } else {
        find_rdns(rdns, from + 1, ip)
    }
}

/// Joins geolocation and reverse-DNS results by IP into host records,
/// one per geolocation result, in order. A geolocation result
/// without a matching reverse-DNS result would break the rule that
/// every needs-enrichment IP yields one result on each channel, so
/// the caller must rule it out.
pub fn merge_hostdata(geos: &Vec<Geodata>, rdns: &Vec<RevLookupData>) -> (hds: Vec<HostData>)
    requires
        forall|i: int|
            0 <= i < geos@.len() ==> spec_find_rdns(rdns_views(rdns@), 0, (#[trigger] geos@[i])@.ip)
                >= 0,
    ensures
        hds@.len() == geos@.len(),
        forall|i: int|
            0 <= i < geos@.len() ==> {
                let j = spec_find_rdns(rdns_views(rdns@), 0, geos@[i]@.ip);
                (#[trigger] hds@[i])@.ip == geos@[i]@.ip && hds@[i]@.geodata == geos@[i]@
                    && hds@[i]@.ptr_records == rdns_views(rdns@)[j].ptr_records
            },
{
    let mut hds: Vec<HostData> = Vec::new();
    let mut i: usize = 0;
    while i < geos.len()
        invariant
            i <= geos@.len(),
            hds@.len() == i,
            forall|i0: int|
                0 <= i0 < geos@.len() ==> spec_find_rdns(
                    rdns_views(rdns@),
                    0,
                    (#[trigger] geos@[i0])@.ip,
                ) >= 0,
            forall|k: int|
                0 <= k < i ==> {
                    let j = spec_find_rdns(rdns_views(rdns@), 0, geos@[k]@.ip);
                    (#[trigger] hds@[k])@.ip == geos@[k]@.ip && hds@[k]@.geodata == geos@[k]@
                        && hds@[k]@.ptr_records == rdns_views(rdns@)[j].ptr_records
                },
        decreases geos@.len() - i,
    {
        let g = geos[i].clone();
        let j = match find_rdns(rdns, 0, &g.ip) {
            Some(j) => j,
            None => {
                proof {
                    assert(spec_find_rdns(rdns_views(rdns@), 0, geos@[i as int]@.ip) >= 0);
                }
                unreached()
            },
        };
        let recs = rdns[j].ptr_records.clone();
        proof {
            assert(recs.deep_view() =~= rdns@[j as int].ptr_records.deep_view());
            assert(rdns_views(rdns@)[j as int].ptr_records == rdns@[j as int]@.ptr_records);
        }
        let ip = g.ip.clone();
        hds.push(HostData { ip, geodata: g, ptr_records: recs });
        i = i + 1;
    }
    hds
}

/// One run builds exactly one host record per needs-enrichment IP.
/// So, for any batch: |host records produced this run| +
/// |already-enriched IPs| == |unique IPs in the batch|.
pub proof fn lemma_enrichment_accounting(
    ips: Seq<Seq<char>>,
    known: Seq<bool>,
    n_records: int,
)
    requires
        ips.len() == known.len(),
        n_records == spec_select(ips, known, false).len(),
    ensures
        n_records + spec_select(ips, known, true).len() == ips.len(),
{
    lemma_classification_complete(ips, known);
}

/// The entries of the batch whose client IP is `ip`, in order.
pub open spec fn spec_entries_for_ip(entries: Seq<LogEntryV>, ip: Seq<char>) -> Seq<LogEntryV>
    decreases entries.len(),
{
    if entries.len() == 0 {
        Seq::empty()
    } else {
        let rest = spec_entries_for_ip(entries.drop_last(), ip);
        if entries.last().ip == ip {
            rest.push(entries.last())
        } else {
            rest
        }
    }
}

/// The log entries of one client IP, in input order.
pub fn entries_for_ip(entries: &Vec<LogEntry>, ip: &String) -> (r: Vec<LogEntry>)
    ensures
        entry_views(r@) == spec_entries_for_ip(entry_views(entries@), ip@),
{
    let mut r: Vec<LogEntry> = Vec::new();
    let mut i: usize = 0;
    while i < entries.len()
        invariant
            i <= entries@.len(),
            entry_views(r@) == spec_entries_for_ip(entry_views(entries@).take(i as int), ip@),
        decreases entries@.len() - i,
    {
        let ghost prev = entry_views(r@);
        if entries[i].ip == *ip {
            r.push(entries[i].clone());
            proof {
                assert(entry_views(r@) =~= prev.push(entries@[i as int]@));
            }
        }
        proof {
            assert(entry_views(entries@).take(i as int + 1).drop_last() =~= entry_views(
                entries@,
            ).take(i as int));
            assert(entry_views(entries@).take(i as int + 1).last() == entries@[i as int]@);
        }
        i = i + 1;
    }
    proof {
        assert(entry_views(entries@).take(entries@.len() as int) =~= entry_views(entries@));
    }
    r
}

/// How the store answered one insert: accepted, rejected as a
/// duplicate of its unique key, or failed for another reason (that
/// one insert is abandoned, the batch goes on).
#[derive(Clone, Copy, Debug)]
pub enum InsertOutcome {
    Inserted,
    DuplicateKey,
    OtherError,
}

/// How many outcomes are `Inserted`.
pub open spec fn spec_count_inserted(outcomes: Seq<InsertOutcome>) -> int
    decreases outcomes.len(),
{
    if outcomes.len() == 0 {
        0
    } else {
        spec_count_inserted(outcomes.drop_last()) + if outcomes.last() is Inserted {
            1int
        } else {
            0int
        }
    }
}

/// How many outcomes are `DuplicateKey`.
pub open spec fn spec_count_skipped(outcomes: Seq<InsertOutcome>) -> int
    decreases outcomes.len(),
{
    if outcomes.len() == 0 {
        0
    } else {
        spec_count_skipped(outcomes.drop_last()) + if outcomes.last() is DuplicateKey {
            1int
        } else {
            0int
        }
    }
}

/// Tallies a run of log-entry inserts: inserted count and
/// skipped-as-duplicate count.
pub fn count_inserts(outcomes: &Vec<InsertOutcome>) -> (r: (usize, usize))
    ensures
        r.0 == spec_count_inserted(outcomes@),
        r.1 == spec_count_skipped(outcomes@),
{
    let mut n_ins: usize = 0;
    let mut n_skip: usize = 0;
    let mut i: usize = 0;
    while i < outcomes.len()
        invariant
            i <= outcomes@.len(),
            n_ins == spec_count_inserted(outcomes@.take(i as int)),
            n_skip == spec_count_skipped(outcomes@.take(i as int)),
            n_ins + n_skip <= i,
        decreases outcomes@.len() - i,
    {
        proof {
            assert(outcomes@.take(i as int + 1).drop_last() =~= outcomes@.take(i as int));
            assert(outcomes@.take(i as int + 1).last() == outcomes@[i as int]);
        }
        match outcomes[i] {
            InsertOutcome::Inserted => {
                n_ins = n_ins + 1;
            },
            InsertOutcome::DuplicateKey => {
                n_skip = n_skip + 1;
            },
            InsertOutcome::OtherError => {},
        }
        i = i + 1;
    }
    proof {
        assert(outcomes@.take(outcomes@.len() as int) =~= outcomes@);
    }
    (n_ins, n_skip)
}

/// The counters of one run: batch size, IP-set size, newly enriched
/// IPs, and the insert tallies.
pub fn run_counts(
    n_logents: usize,
    n_unique_ips: usize,
    n_new_ips: usize,
    outcomes: &Vec<InsertOutcome>,
) -> (c: Counts)
    ensures
        c.n_logents == n_logents,
        c.n_unique_ips == n_unique_ips,
        c.n_new_ips == n_new_ips,
        c.n_inserted_les == spec_count_inserted(outcomes@),
        c.n_skipped_les == spec_count_skipped(outcomes@),
{
    let (n_inserted_les, n_skipped_les) = count_inserts(outcomes);
    Counts { n_logents, n_unique_ips, n_new_ips, n_inserted_les, n_skipped_les }
}

/// A pass whose every insert hits the unique key of a record already
/// on file inserts nothing and skips the whole batch: so a second
/// pass over an unchanged log file reports zero inserted and all
/// skipped.
pub proof fn lemma_rerun_counts(outcomes: Seq<InsertOutcome>)
    requires
        forall|i: int| 0 <= i < outcomes.len() ==> (#[trigger] outcomes[i]) is DuplicateKey,
    ensures
        spec_count_inserted(outcomes) == 0,
        spec_count_skipped(outcomes) == outcomes.len(),
    decreases outcomes.len(),
{
    if outcomes.len() > 0 {
        lemma_rerun_counts(outcomes.drop_last());
    }
}

} // verus!
