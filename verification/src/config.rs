//! How the dashboard is started: where its events come from and whether
//! they are enriched with intel and run through the detection rules.

use std::path::PathBuf;
use std::time::Duration;
use vstd::prelude::*;

verus! {

/// `std::path::PathBuf`, carried through unchanged.
#[verifier::external_type_specification]
#[verifier::external_body]
pub struct ExPathBuf(PathBuf);

/// Where the dashboard's events come from.
pub enum Source {
    /// Replay a capture file, paced so it is watchable.
    Replay { path: PathBuf, interval: Duration, looping: bool },
    /// Capture from an interface in process.
    Live { interface: String, filter: Option<String> },
}

pub struct TuiConfig {
    pub source: Source,
    pub intel: bool,
    pub detect: bool,
    pub db: Option<PathBuf>,
}

} // verus!
