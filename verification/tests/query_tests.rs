use loglook::query::{
    dedup_strings, filter_countries, select_orgs, sort_ips, time_str_to_daterange,
    CountryWithIps, OrgWithIps, QueryError,
};

fn country(name: &str, ips: &[&str]) -> CountryWithIps {
    CountryWithIps {
        country: name.to_string(),
        ips: ips.iter().map(|s| s.to_string()).collect(),
    }
}

fn org(name: &str, ips: &[&str]) -> OrgWithIps {
    OrgWithIps { org: name.to_string(), ips: ips.iter().map(|s| s.to_string()).collect() }
}

#[test]
fn daterange_from_iso_strings() {
    let dr = time_str_to_daterange("2023-11-25T00:00:00Z", "2023-11-26T00:00:00Z").unwrap();
    assert_eq!(dr.start, 1700870400000);
    assert_eq!(dr.end, 1700956800000);
}

#[test]
fn daterange_with_offset() {
    let dr = time_str_to_daterange("2023-11-25T00:16:58-05:00", "2023-11-26T00:00:00+00:00")
        .unwrap();
    assert_eq!(dr.start, 1700889418000);
    assert_eq!(dr.end, 1700956800000);
}

#[test]
fn daterange_rejects_bad_time() {
    let r = time_str_to_daterange("2023-11-25", "2023-11-26T00:00:00Z");
    assert!(matches!(r, Err(QueryError::BadTime)));
    let r2 = time_str_to_daterange("2023-11-25T00:00:00Z", "2023-02-30T00:00:00Z");
    assert!(matches!(r2, Err(QueryError::BadTime)));
}

#[test]
fn sort_ips_ascending() {
    let mut ips = vec![
        "94.102.61.7".to_string(),
        "180.149.125.164".to_string(),
        "10.0.0.2".to_string(),
    ];
    sort_ips(&mut ips);
    assert_eq!(
        ips,
        vec![
            "10.0.0.2".to_string(),
            "180.149.125.164".to_string(),
            "94.102.61.7".to_string(),
        ]
    );
}

// Two identical searches over an unchanged store see the same
// strings, and sorting makes the printed order the same too.
#[test]
fn sort_is_deterministic_across_runs() {
    let mut first = vec!["b".to_string(), "a".to_string(), "c".to_string()];
    let mut second = vec!["c".to_string(), "b".to_string(), "a".to_string()];
    sort_ips(&mut first);
    sort_ips(&mut second);
    assert_eq!(first, second);
}

#[test]
fn dedup_keeps_first_occurrences() {
    let v = vec![
        "a".to_string(),
        "b".to_string(),
        "a".to_string(),
        "c".to_string(),
        "b".to_string(),
    ];
    let d = dedup_strings(&v);
    assert_eq!(d, vec!["a".to_string(), "b".to_string(), "c".to_string()]);
}

// A country search for France and Germany over a window with France,
// Germany and Japan activity returns only the French and German
// groupings; the Japanese IPs are excluded.
#[test]
fn country_accept_list_filters() {
    let groups = vec![
        country("France", &["1.1.1.1", "2.2.2.2"]),
        country("Germany", &["3.3.3.3"]),
        country("Japan", &["4.4.4.4"]),
    ];
    let accept = vec!["France".to_string(), "Germany".to_string()];
    let kept = filter_countries(&groups, &accept);
    assert_eq!(kept.len(), 2);
    assert_eq!(kept[0].country, "France");
    assert_eq!(kept[0].ips, vec!["1.1.1.1".to_string(), "2.2.2.2".to_string()]);
    assert_eq!(kept[1].country, "Germany");
    assert!(kept.iter().all(|c| c.country != "Japan"));
}

// An empty accept-list accepts every country.
#[test]
fn empty_accept_list_accepts_all() {
    let groups = vec![country("France", &["1.1.1.1"]), country("Japan", &["4.4.4.4"])];
    let kept = filter_countries(&groups, &Vec::new());
    assert_eq!(kept.len(), 2);
}

// The organization filter runs the real pattern matcher: a pattern
// that matches some names and not others keeps exactly the matching
// groupings.
#[test]
fn org_regex_filters() {
    let groups = vec![
        org("Google LLC", &["8.8.8.8"]),
        org("OVH SAS", &["5.5.5.5"]),
        org("Googlebot", &["6.6.6.6"]),
    ];
    let kept = select_orgs("Goo.*", &groups).unwrap();
    assert_eq!(kept.len(), 2);
    assert_eq!(kept[0].org, "Google LLC");
    assert_eq!(kept[1].org, "Googlebot");

    let none = select_orgs("^Amazon", &groups).unwrap();
    assert!(none.is_empty());
}

#[test]
fn rfc3339_rejects_malformed_bounds() {
    // wrong separator, wrong offset shape, trailing text
    for bad in [
        "2023-11-25 00:00:00Z",
        "2023-11-25T00:00:00",
        "2023-11-25T00:00:00+0500",
        "2023-11-25T00:00:00Zx",
        "2023-13-01T00:00:00Z",
        "2023-11-25T24:00:00Z",
    ] {
        assert!(
            time_str_to_daterange(bad, "2023-11-26T00:00:00Z").is_err(),
            "accepted: {}",
            bad
        );
    }
}

#[test]
fn sort_handles_empty_and_duplicates() {
    let mut empty: Vec<String> = Vec::new();
    sort_ips(&mut empty);
    assert!(empty.is_empty());

    let mut dups = vec!["b".to_string(), "a".to_string(), "b".to_string()];
    sort_ips(&mut dups);
    assert_eq!(dups, vec!["a".to_string(), "b".to_string(), "b".to_string()]);
}

#[test]
fn org_bad_pattern_rejected() {
    let groups = vec![org("Google LLC", &["8.8.8.8"])];
    let r = select_orgs("(", &groups);
    assert!(matches!(r, Err(QueryError::BadPattern)));
}
