//! Periodically samples the host's process table, derives per-process
//! resource-usage metrics, and encodes each sample as an immutable,
//! timestamped binary snapshot.
//!
//! The verified core covers the sampling-and-derivation pipeline: the
//! per-cycle scan step, the incremental CPU-usage estimator, the
//! aggregate-CPU-time line parser, and the snapshot data model with its
//! canonical binary encoding. Reading `/proc`, the command line, and the
//! output directory is left to a thin unverified shell around this crate.

use vstd::prelude::*;

pub mod codec;
pub mod collector;
pub mod procstat;
pub mod snapshot;
pub mod usage;

verus! {

/// The run configuration the collector consumes, built from
/// already-parsed command-line values.
#[derive(Debug)]
pub struct Config {
    /// Hostname of the server, stamped into every snapshot.
    pub hostname: String,
    /// Seconds to sleep after each scan of the process table.
    pub delay: u64,
    /// If true, runs as server and records stats.
    pub server: bool,
    /// The time from which the client reads recorded data.
    pub client_time_from: String,
    /// The order in which the client sorts processed data.
    pub client_sort_by: String,
}

impl Config {
    /// Builds the run configuration from raw argument values: the
    /// delay argument is parsed as a decimal number of seconds and
    /// falls back to 60 when absent or unparsable, the client options
    /// fall back to an empty time and memory-ordering.
    pub fn new(
        hostname: String,
        delay_arg: Option<&String>,
        server: bool,
        time_from: Option<&String>,
        sort_by: Option<&String>,
    ) -> (r: Config)
        ensures
            r.hostname == hostname,
            r.delay == (match delay_arg {
                Some(d) => match crate::procstat::spec_parse_u64(d@) {
                    Some(v) => v,
                    None => 60u64,
                },
                None => 60u64,
            }),
            r.server == server,
            r.client_time_from@ == (match time_from {
                Some(s) => s@,
                None => ""@,
            }),
            r.client_sort_by@ == (match sort_by {
                Some(s) => s@,
                None => "m"@,
            }),
    {
        let delay: u64 = match delay_arg {
            Some(d) => match crate::procstat::parse_u64(d.as_str()) {
                Some(v) => v,
                None => 60,
            },
            None => 60,
        };
        Config {
            hostname,
            delay,
            server,
            client_time_from: match time_from {
                Some(s) => s.clone(),
                None => "".to_owned(),
            },
            client_sort_by: match sort_by {
                Some(s) => s.clone(),
                None => "m".to_owned(),
            },
        }
    }
}

/// Checks whether the given effective uid is root's. This does not check
/// that the caller can actually read every process's status or write the
/// data directory; it only compares the uid against 0.
pub fn check_sudo(uid: u32) -> (r: Result<(), &'static str>)
    ensures
        r is Ok <==> uid == 0,
        r matches Err(m) ==> m@ == "Error: Run as root."@,
{
    if uid == 0 {
        Ok(())
    } else {
        Err("Error: Run as root.")
    }
}

} // verus!
