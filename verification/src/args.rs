//! The command-line surface, as plain data. The binary's argument
//! parser fills these in and hands them over.
use vstd::prelude::*;

verus! {

/// Top-level command line: one subcommand.
pub struct Cli {
    pub command: Commands,
}

/// The subcommands.
pub enum Commands {
    Read(ReadArgs),
    FindTime(TimeArgs),
    FindIp(FindIpArgs),
    FindOrg(FindOrgArgs),
    FindCountry(FindCountryArgs),
}

/// Arguments of `read`: the path of the log file.
pub struct ReadArgs {
    pub path: String,
}

/// Arguments of a time-window query.
pub struct TimeArgs {
    pub end: Option<String>,
}

/// Arguments of a country search.
pub struct FindCountryArgs {
    pub country: String,
}

/// Arguments of an organization search.
pub struct FindOrgArgs {
    pub org: String,
}

/// Arguments of an IP search.
pub struct FindIpArgs {
    pub ip: String,
}

/// The argument kinds, by name.
pub enum LoglookArgs {
    ReadArgs,
    TimeArgs,
    FindCountryArgs,
    FindIpArgs,
}

} // verus!
