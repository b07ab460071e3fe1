use vstd::prelude::*;
use crate::types::{ScanResult, ScanStats};

verus! {

/// The greeting shown to `name`.
pub fn greet(name: &str) -> (r: String)
    ensures
        r@ == "Hello, "@ + name@ + "! Welcome to Miktos Kosmos."@,
{
    let mut out = "Hello, ".to_owned();
    out.append(name);
    out.append("! Welcome to Miktos Kosmos.");
    out
}

/// The statistics of a scan.
pub fn get_scan_stats(result: ScanResult) -> (r: ScanStats)
    ensures
        r == result.stats,
{
    result.stats
}

} // verus!
