//! Geolocation results. A lookup failure is encoded as data: the
//! `city` field carries a message and every other field is blank, so
//! the record shape stays uniform.
use vstd::prelude::*;
use vstd::string::{StrSliceExecFns, StringExecFns};

verus! {

/// Geolocation profile of one IP address.
pub struct Geodata {
    pub ip: String,
    pub country_name: String,
    pub state_prov: String,
    pub city: String,
    pub isp: String,
    pub organization: String,
}

/// Mathematical image of a `Geodata`.
pub struct GeodataV {
    pub ip: Seq<char>,
    pub country_name: Seq<char>,
    pub state_prov: Seq<char>,
    pub city: Seq<char>,
    pub isp: Seq<char>,
    pub organization: Seq<char>,
}

impl View for Geodata {
    type V = GeodataV;

    open spec fn view(&self) -> GeodataV {
        GeodataV {
            ip: self.ip@,
            country_name: self.country_name@,
            state_prov: self.state_prov@,
            city: self.city@,
            isp: self.isp@,
            organization: self.organization@,
        }
    }
}

impl Clone for Geodata {
    fn clone(&self) -> (g: Self)
        ensures
            g@ == self@,
    {
        Geodata {
            ip: self.ip.clone(),
            country_name: self.country_name.clone(),
            state_prov: self.state_prov.clone(),
            city: self.city.clone(),
            isp: self.isp.clone(),
            organization: self.organization.clone(),
        }
    }
}

/// What one geolocation call came to: a decoded payload, a non-200
/// HTTP status, or a body that would not decode (with a description).
pub enum GeoOutcome {
    Success(Geodata),
    HttpError(u16),
    DecodeError(String),
}

/// The `city` field of a failed lookup.
pub open spec fn spec_error_city(msg: Seq<char>) -> Seq<char> {
    "Error in geodata lookup: "@ + msg
}

/// Message recorded when the service answers with a non-200 status.
pub open spec fn spec_http_error_msg(ip: Seq<char>) -> Seq<char> {
    "error acquiring geodata for IP \""@ + ip + "\""@
}

/// Message recorded when the response body does not decode;
/// `emsg` describes the decoding failure.
pub open spec fn spec_decode_error_msg(emsg: Seq<char>) -> Seq<char> {
    "error decoding json "@ + emsg
}

impl Geodata {
    /// A blank profile for `ip`.
    pub fn new(ip: &str) -> (g: Geodata)
        ensures
            g@.ip == ip@,
            g@.country_name.len() == 0,
            g@.state_prov.len() == 0,
            g@.city.len() == 0,
            g@.isp.len() == 0,
            g@.organization.len() == 0,
    {
        Geodata {
            ip: ip.to_owned(),
            country_name: String::new(),
            state_prov: String::new(),
            city: String::new(),
            isp: String::new(),
            organization: String::new(),
        }
    }
}

/// The printed form of a profile: location line, ISP line,
/// organization line.
pub open spec fn spec_geodata_text(g: GeodataV) -> Seq<char> {
    "Loc: "@ + g.city + ", "@ + g.state_prov + ", "@ + g.country_name + "\nISP: "@ + g.isp
        + "\nOrg: "@ + g.organization + "\n"@
}

impl Geodata {
    /// The profile as printable text.
    pub fn to_display_string(&self) -> (s: String)
        ensures
            s@ == spec_geodata_text(self@),
    {
        let mut s = String::from_str("Loc: ");
        s.append(self.city.as_str());
        s.append(", ");
        s.append(self.state_prov.as_str());
        s.append(", ");
        s.append(self.country_name.as_str());
        s.append("\nISP: ");
        s.append(self.isp.as_str());
        s.append("\nOrg: ");
        s.append(self.organization.as_str());
        s.append("\n");
        proof {
            assert(s@ =~= spec_geodata_text(self@));
        }
        s
    }
}

/// A profile for `ip` whose `city` field carries the failure message
/// `msg` and whose remaining fields are blank.
pub fn error_geodata(ip: &str, msg: &str) -> (g: Geodata)
    ensures
        g@.ip == ip@,
        g@.city == spec_error_city(msg@),
        g@.country_name.len() == 0,
        g@.state_prov.len() == 0,
        g@.isp.len() == 0,
        g@.organization.len() == 0,
{
    let mut g = Geodata::new(ip);
    g.city = String::from_str("Error in geodata lookup: ").concat(msg);
    g
}

/// The profile recorded for `ip` given how the geolocation call came
/// out: the decoded payload on success, else a blank profile whose
/// `city` field describes the failure.
pub fn geodata_from_outcome(ip: &str, outcome: GeoOutcome) -> (g: Geodata)
    ensures
        outcome matches GeoOutcome::Success(p) ==> g@ == p@,
        outcome is HttpError ==> g@.ip == ip@ && g@.city == spec_error_city(spec_http_error_msg(ip@))
            && g@.country_name.len() == 0 && g@.state_prov.len() == 0 && g@.isp.len() == 0
            && g@.organization.len() == 0,
        outcome matches GeoOutcome::DecodeError(emsg) ==> g@.ip == ip@ && g@.city == spec_error_city(
            spec_decode_error_msg(emsg@),
        ) && g@.country_name.len() == 0 && g@.state_prov.len() == 0 && g@.isp.len() == 0
            && g@.organization.len() == 0,
{
    match outcome {
        GeoOutcome::Success(p) => p,
        GeoOutcome::HttpError(_code) => {
            let msg = String::from_str("error acquiring geodata for IP \"").concat(ip).concat(
                "\"",
            );
            error_geodata(ip, msg.as_str())
        },
        GeoOutcome::DecodeError(emsg) => {
            let msg = String::from_str("error decoding json ").concat(emsg.as_str());
            error_geodata(ip, msg.as_str())
        },
    }
}

} // verus!
