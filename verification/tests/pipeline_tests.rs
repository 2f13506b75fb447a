use loglook::geo::{Geodata, GeoOutcome, geodata_from_outcome};
use loglook::lkup::{RevLookupData, RevOutcome, rev_lookup_from_outcome};
use loglook::log_entries::LogEntry;
use loglook::{
    count_inserts, entries_for_ip, logents_to_ips_set, merge_hostdata, partition_ips, run_counts,
    InsertOutcome,
};

fn entry(ip: &str) -> LogEntry {
    LogEntry {
        ip: ip.to_string(),
        time: 1700889418000,
        method: "GET / HTTP/1.1".to_string(),
        code: 200,
        nbytes: 1,
        referrer: "-".to_string(),
        ua: "ua".to_string(),
        line: format!("{} - - ...", ip),
    }
}

fn geodata(ip: &str, country: &str, org: &str) -> Geodata {
    Geodata {
        ip: ip.to_string(),
        country_name: country.to_string(),
        state_prov: "".to_string(),
        city: "".to_string(),
        isp: "".to_string(),
        organization: org.to_string(),
    }
}

fn rev(ip: &str, records: &[&str]) -> RevLookupData {
    RevLookupData {
        ip_addr: ip.to_string(),
        ptr_records: records.iter().map(|r| r.to_string()).collect(),
    }
}

// A batch with entries from IP A (twice) and IP B (once) yields the
// unique IP set {A, B} and, after a full run, exactly two host
// records.
#[test]
fn two_ips_yield_two_host_records() {
    let batch = vec![entry("10.0.0.1"), entry("10.0.0.2"), entry("10.0.0.1")];
    let ips = logents_to_ips_set(&batch);
    assert_eq!(ips, vec!["10.0.0.1".to_string(), "10.0.0.2".to_string()]);

    // neither IP is on record yet
    let known = vec![false, false];
    let (needs, already) = partition_ips(&ips, &known);
    assert_eq!(needs.len(), 2);
    assert_eq!(already.len(), 0);

    let geos = vec![
        geodata("10.0.0.1", "France", "OrgA"),
        geodata("10.0.0.2", "Japan", "OrgB"),
    ];
    let rdns = vec![rev("10.0.0.2", &["b.example"]), rev("10.0.0.1", &["a.example"])];
    let hds = merge_hostdata(&geos, &rdns);
    assert_eq!(hds.len(), 2);
    assert_eq!(hds.len() + already.len(), ips.len());
    assert_eq!(hds[0].ip, "10.0.0.1");
    assert_eq!(hds[0].ptr_records, vec!["a.example".to_string()]);
    assert_eq!(hds[0].geodata.country_name, "France");
    assert_eq!(hds[1].ip, "10.0.0.2");
    assert_eq!(hds[1].ptr_records, vec!["b.example".to_string()]);
}

#[test]
fn partition_respects_store_answers() {
    let ips = vec!["a".to_string(), "b".to_string(), "c".to_string()];
    let known = vec![true, false, true];
    let (needs, already) = partition_ips(&ips, &known);
    assert_eq!(needs, vec!["b".to_string()]);
    assert_eq!(already, vec!["a".to_string(), "c".to_string()]);
    assert_eq!(needs.len() + already.len(), ips.len());
}

// A reverse-DNS query that exceeds its deadline yields exactly the
// sentinel list ["timed out"].
#[test]
fn timed_out_lookup_sentinel() {
    let r = rev_lookup_from_outcome("1.2.3.4".to_string(), RevOutcome::TimedOut);
    assert_eq!(r.ip_addr, "1.2.3.4");
    assert_eq!(r.ptr_records, vec!["timed out".to_string()]);
}

#[test]
fn lookup_records_never_empty() {
    let cases = vec![
        rev_lookup_from_outcome("a".to_string(), RevOutcome::Success(vec!["h1".to_string()])),
        rev_lookup_from_outcome("b".to_string(), RevOutcome::Success(vec![])),
        rev_lookup_from_outcome("c".to_string(), RevOutcome::NoRecords),
        rev_lookup_from_outcome("d".to_string(), RevOutcome::TimedOut),
    ];
    for r in &cases {
        assert!(!r.ptr_records.is_empty());
    }
    assert_eq!(cases[0].ptr_records, vec!["h1".to_string()]);
    assert_eq!(cases[1].ptr_records, vec!["unknown".to_string()]);
    assert_eq!(cases[2].ptr_records, vec!["unknown".to_string()]);
}

// A geolocation call answered with HTTP 500 yields a record whose
// city carries the message and whose other fields are empty.
#[test]
fn http_error_geodata_sentinel() {
    let g = geodata_from_outcome("1.2.3.4", GeoOutcome::HttpError(500));
    assert_eq!(g.ip, "1.2.3.4");
    assert_eq!(
        g.city,
        "Error in geodata lookup: error acquiring geodata for IP \"1.2.3.4\""
    );
    assert_eq!(g.country_name, "");
    assert_eq!(g.state_prov, "");
    assert_eq!(g.isp, "");
    assert_eq!(g.organization, "");
}

#[test]
fn decode_error_geodata_sentinel() {
    let g = geodata_from_outcome(
        "5.6.7.8",
        GeoOutcome::DecodeError("expected value at line 1".to_string()),
    );
    assert_eq!(
        g.city,
        "Error in geodata lookup: error decoding json expected value at line 1"
    );
    assert_eq!(g.ip, "5.6.7.8");
    assert_eq!(g.country_name, "");
}

#[test]
fn success_geodata_passes_through() {
    let g = geodata_from_outcome("9.9.9.9", GeoOutcome::Success(geodata("9.9.9.9", "Japan", "O")));
    assert_eq!(g.country_name, "Japan");
    assert_eq!(g.organization, "O");
}

#[test]
fn geodata_new_blank() {
    let g = Geodata::new("1.1.1.1");
    assert_eq!(g.ip, "1.1.1.1");
    assert_eq!(g.country_name, "");
    assert_eq!(g.city, "");
}

#[test]
fn rev_lookup_new_empty() {
    let r = RevLookupData::new("2.2.2.2".to_string());
    assert_eq!(r.ip_addr, "2.2.2.2");
    assert!(r.ptr_records.is_empty());
}

#[test]
fn insert_counting_mixed() {
    let outcomes = vec![
        InsertOutcome::Inserted,
        InsertOutcome::DuplicateKey,
        InsertOutcome::Inserted,
        InsertOutcome::OtherError,
        InsertOutcome::DuplicateKey,
    ];
    let (ins, skip) = count_inserts(&outcomes);
    assert_eq!(ins, 2);
    assert_eq!(skip, 2);
    let c = run_counts(5, 2, 1, &outcomes);
    assert_eq!(c.n_logents, 5);
    assert_eq!(c.n_unique_ips, 2);
    assert_eq!(c.n_new_ips, 1);
    assert_eq!(c.n_inserted_les, 2);
    assert_eq!(c.n_skipped_les, 2);
}

// A second pass over an unchanged file: every insert is rejected as a
// duplicate, so nothing is inserted and all entries are skipped.
#[test]
fn second_run_inserts_nothing() {
    let n = 7;
    let outcomes = vec![InsertOutcome::DuplicateKey; n];
    let (ins, skip) = count_inserts(&outcomes);
    assert_eq!(ins, 0);
    assert_eq!(skip, n);
}

#[test]
fn entries_for_ip_filters() {
    let batch = vec![entry("a"), entry("b"), entry("a")];
    let picked = entries_for_ip(&batch, &"a".to_string());
    assert_eq!(picked.len(), 2);
    assert!(picked.iter().all(|e| e.ip == "a"));
    let none = entries_for_ip(&batch, &"z".to_string());
    assert!(none.is_empty());
}

// When two reverse-DNS results carry the same IP, the merge takes
// the first.
#[test]
fn merge_takes_first_matching_rdns() {
    let geos = vec![geodata("7.7.7.7", "France", "O")];
    let rdns = vec![rev("7.7.7.7", &["first.example"]), rev("7.7.7.7", &["second.example"])];
    let hds = merge_hostdata(&geos, &rdns);
    assert_eq!(hds.len(), 1);
    assert_eq!(hds[0].ptr_records, vec!["first.example".to_string()]);
}

#[test]
fn host_record_display_text() {
    let hd = loglook::HostData {
        ip: "1.2.3.4".to_string(),
        geodata: Geodata {
            ip: "1.2.3.4".to_string(),
            country_name: "France".to_string(),
            state_prov: "IdF".to_string(),
            city: "Paris".to_string(),
            isp: "ISP".to_string(),
            organization: "Org".to_string(),
        },
        ptr_records: vec!["h1.example".to_string(), "h2.example".to_string()],
    };
    assert_eq!(
        hd.to_display_string(),
        "IP: 1.2.3.4\nLoc: Paris, IdF, France\nISP: ISP\nOrg: Org\nhost: h1.example\nhost: h2.example\n"
    );
    assert_eq!(
        hd.geodata.to_display_string(),
        "Loc: Paris, IdF, France\nISP: ISP\nOrg: Org\n"
    );
}

#[test]
fn rev_lookup_display_text() {
    let r = rev("1.2.3.4", &["h1", "h2"]);
    assert_eq!(r.to_display_string(), "host: h1host: h2");
}
