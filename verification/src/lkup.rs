//! Reverse-DNS results. A completed lookup always carries at least
//! one record: real PTR records, or exactly one sentinel string.
use vstd::prelude::*;
use vstd::string::StringExecFns;

verus! {

/// Reverse-DNS record list for one IP address.
pub struct RevLookupData {
    pub ip_addr: String,
    pub ptr_records: Vec<String>,
}

/// Mathematical image of a `RevLookupData`.
pub struct RevLookupDataV {
    pub ip_addr: Seq<char>,
    pub ptr_records: Seq<Seq<char>>,
}

impl View for RevLookupData {
    type V = RevLookupDataV;

    open spec fn view(&self) -> RevLookupDataV {
        RevLookupDataV { ip_addr: self.ip_addr@, ptr_records: self.ptr_records.deep_view() }
    }
}

impl Clone for RevLookupData {
    fn clone(&self) -> (r: Self)
        ensures
            r@ == self@,
    {
        let ptr_records = self.ptr_records.clone();
        proof {
            assert(ptr_records.deep_view() =~= self.ptr_records.deep_view());
        }
        RevLookupData { ip_addr: self.ip_addr.clone(), ptr_records }
    }
}

impl RevLookupData {
    /// An empty record list for `ip_addr`.
    pub fn new(ip_addr: String) -> (r: RevLookupData)
        ensures
            r@.ip_addr == ip_addr@,
            r@.ptr_records.len() == 0,
    {
        RevLookupData { ip_addr, ptr_records: Vec::new() }
    }
}

/// The printed form of a record list: `host: ` before each record.
pub open spec fn spec_rev_records_text(records: Seq<Seq<char>>) -> Seq<char>
    decreases records.len(),
{
    if records.len() == 0 {
        Seq::empty()
    } else {
        spec_rev_records_text(records.drop_last()) + "host: "@ + records.last()
    }
}

impl RevLookupData {
    /// The record list as printable text.
    pub fn to_display_string(&self) -> (s: String)
        ensures
            s@ == spec_rev_records_text(self@.ptr_records),
    {
        let mut s = String::new();
        let mut i: usize = 0;
        while i < self.ptr_records.len()
            invariant
                i <= self.ptr_records@.len(),
                s@ == spec_rev_records_text(self.ptr_records.deep_view().take(i as int)),
            decreases self.ptr_records@.len() - i,
        {
            s.append("host: ");
            s.append(self.ptr_records[i].as_str());
            proof {
                assert(self.ptr_records.deep_view().take(i as int + 1).drop_last()
                    =~= self.ptr_records.deep_view().take(i as int));
                assert(self.ptr_records.deep_view().take(i as int + 1).last()
                    == self.ptr_records.deep_view()[i as int]);
            }
            i = i + 1;
        }
        proof {
            assert(self.ptr_records.deep_view().take(self.ptr_records@.len() as int)
                =~= self.ptr_records.deep_view());
        }
        s
    }
}

/// What one reverse-DNS query came to: formatted PTR answers, an
/// answer with no records, or a client-side timeout.
pub enum RevOutcome {
    Success(Vec<String>),
    NoRecords,
    TimedOut,
}

/// The record list kept for `ip_addr` given how the query came out:
/// the PTR answers if there are any, the sentinel `"unknown"` when
/// the resolver answered without records, the sentinel `"timed out"`
/// when the deadline passed. The list is never empty.
pub fn rev_lookup_from_outcome(ip_addr: String, outcome: RevOutcome) -> (r: RevLookupData)
    ensures
        r@.ip_addr == ip_addr@,
        r@.ptr_records.len() > 0,
        outcome matches RevOutcome::Success(recs) ==> (if recs@.len() > 0 {
            r@.ptr_records == recs.deep_view()
        } else {
            r@.ptr_records == seq!["unknown"@]
        }),
        outcome is NoRecords ==> r@.ptr_records == seq!["unknown"@],
        outcome is TimedOut ==> r@.ptr_records == seq!["timed out"@],
{
    let ptr_records: Vec<String> = match outcome {
        RevOutcome::Success(recs) => {
            if recs.len() > 0 {
                recs
            } else {
                let mut v: Vec<String> = Vec::new();
                v.push(String::from_str("unknown"));
                proof {
                    assert(v.deep_view() =~= seq!["unknown"@]);
                }
                v
            }
        },
        RevOutcome::NoRecords => {
            let mut v: Vec<String> = Vec::new();
            v.push(String::from_str("unknown"));
            proof {
                assert(v.deep_view() =~= seq!["unknown"@]);
            }
            v
        },
        RevOutcome::TimedOut => {
            let mut v: Vec<String> = Vec::new();
            v.push(String::from_str("timed out"));
            proof {
                assert(v.deep_view() =~= seq!["timed out"@]);
            }
            v
        },
    };
    RevLookupData { ip_addr, ptr_records }
}

} // verus!
