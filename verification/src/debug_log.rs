//! Naming of the opt-in debug log.

use vstd::prelude::*;

use crate::text::{push_decimal, spec_decimal};

verus! {

/// Calls `SystemTime::elapsed` on `UNIX_EPOCH`: the time from the epoch to
/// the clock's current reading, `None` when the clock reads earlier than the
/// epoch. Nothing is stated of the value: it depends on the clock.
#[verifier::external_body]
fn epoch_elapsed() -> Option<std::time::Duration> {
    std::time::UNIX_EPOCH.elapsed().ok()
}

/// Calls `Duration::as_secs`: the whole seconds of `d`. Nothing is stated of
/// the value, as the library holds no view of a `Duration`.
#[verifier::external_body]
fn whole_secs(d: &std::time::Duration) -> u64 {
    d.as_secs()
}

/// The name of the debug log written at `secs` seconds after the epoch.
pub open spec fn spec_log_name(secs: u64) -> Seq<char> {
    "exportbranch-"@ + spec_decimal(secs as nat) + ".log"@
}

/// The name of the debug log written at `secs` seconds after the epoch:
/// `exportbranch-<secs>.log`.
pub fn log_path_for_secs(secs: u64) -> (path: String)
    ensures
        path@ == spec_log_name(secs),
{
    let mut path = String::from_str("exportbranch-");
    push_decimal(&mut path, secs as u128);
    path.append(".log");
    path
}

/// Path of the debug log used when `--debug` is passed without a value:
/// `exportbranch-<unix_secs>.log` in the current directory, with `0` seconds
/// when the clock reads earlier than the epoch.
pub fn default_log_path() -> (path: String)
    ensures
        exists|secs: u64| path@ == spec_log_name(secs),
{
    let secs = match epoch_elapsed() {
        Some(d) => whole_secs(&d),
        None => 0,
    };
    log_path_for_secs(secs)
}

} // verus!
