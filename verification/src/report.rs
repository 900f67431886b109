//! The lines printed while and after exporting.

use vstd::prelude::*;

use crate::export::{spec_total, ExportStats};
use crate::text::{push_decimal, spec_decimal};

verus! {

/// The per-file line: the verb, padded to seven columns, then the source
/// and the destination.
pub open spec fn spec_file_line(only_copy: bool, source: Seq<char>, destination: Seq<char>) -> Seq<char> {
    (if only_copy {
        "copy   "@
    } else {
        "convert"@
    }) + " "@ + source + " → "@ + destination
}

/// The line printed for each exported file, e.g.
/// `convert /src/foo.prg → /dst/foo.prg` or `copy    /src/lib.a → /dst/lib.a`.
pub fn format_file_line(only_copy: bool, source: &str, destination: &str) -> (line: String)
    ensures
        line@ == spec_file_line(only_copy, source@, destination@),
{
    let mut line = if only_copy {
        String::from_str("copy   ")
    } else {
        String::from_str("convert")
    };
    line.append(" ");
    line.append(source);
    line.append(" → ");
    line.append(destination);
    line
}

/// The summary line printed at the end of a run.
pub open spec fn spec_done_line(elapsed_secs: u64, stats: ExportStats) -> Seq<char> {
    "Done in "@ + spec_decimal(elapsed_secs as nat) + "s · "@ + spec_decimal(
        spec_total(stats) as nat,
    ) + " files: "@ + spec_decimal(stats.converted as nat) + " converted, "@ + spec_decimal(
        stats.copied as nat,
    ) + " copied, "@ + spec_decimal(stats.skipped as nat) + " skipped"@
}

/// The summary line printed at the end of a run, e.g.
/// `Done in 4s · 1390 files: 897 converted, 337 copied, 156 skipped`.
pub fn format_done(elapsed_secs: u64, stats: ExportStats) -> (line: String)
    requires
        spec_total(stats) <= usize::MAX,
    ensures
        line@ == spec_done_line(elapsed_secs, stats),
{
    let mut line = String::from_str("Done in ");
    push_decimal(&mut line, elapsed_secs as u128);
    line.append("s · ");
    push_decimal(&mut line, stats.total() as u128);
    line.append(" files: ");
    push_decimal(&mut line, stats.converted as u128);
    line.append(" converted, ");
    push_decimal(&mut line, stats.copied as u128);
    line.append(" copied, ");
    push_decimal(&mut line, stats.skipped as u128);
    line.append(" skipped");
    line
}

} // verus!
