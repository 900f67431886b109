//! Per-file outcomes of an export and the counts aggregated from them.

use vstd::prelude::*;

use crate::configuration::Configuration;
use crate::file_checker::{spec_check, FileChecker, FileStatus, FileUpdate};

verus! {

/// Counts emitted by an export run. `converted + copied + skipped` equals
/// the number of files that matched the filter; files that did not match
/// are not counted.
#[derive(Debug, Clone, Copy, PartialEq, Eq, Structural)]
pub struct ExportStats {
    pub converted: usize,
    pub copied: usize,
    pub skipped: usize,
}

impl Default for ExportStats {
    fn default() -> (s: Self)
        ensures
            s.converted == 0 && s.copied == 0 && s.skipped == 0,
    {
        ExportStats { converted: 0, copied: 0, skipped: 0 }
    }
}

/// The counts of `a` and `b` together, as mathematical integers.
pub open spec fn stats_sum(a: ExportStats, b: ExportStats) -> (int, int, int) {
    (a.converted + b.converted, a.copied + b.copied, a.skipped + b.skipped)
}

/// The counts of `s` as a triple.
pub open spec fn stats_counts(s: ExportStats) -> (int, int, int) {
    (s.converted as int, s.copied as int, s.skipped as int)
}

/// The counts of `a` and `b` can be added without overflow.
pub open spec fn can_merge(a: ExportStats, b: ExportStats) -> bool {
    &&& a.converted + b.converted <= usize::MAX
    &&& a.copied + b.copied <= usize::MAX
    &&& a.skipped + b.skipped <= usize::MAX
}

/// The total of the counts of `s`.
pub open spec fn spec_total(s: ExportStats) -> int {
    s.converted + s.copied + s.skipped
}

impl ExportStats {
    /// Adds the counts of `other` to those of `self`.
    pub fn merge(self, other: ExportStats) -> (m: ExportStats)
        requires
            can_merge(self, other),
        ensures
            stats_counts(m) == stats_sum(self, other),
    {
        ExportStats {
            converted: self.converted + other.converted,
            copied: self.copied + other.copied,
            skipped: self.skipped + other.skipped,
        }
    }

    /// The number of files counted.
    pub fn total(self) -> (t: usize)
        requires
            spec_total(self) <= usize::MAX,
        ensures
            t == spec_total(self),
    {
        self.converted + self.copied + self.skipped
    }
}

/// Merging counts does not depend on the order of the operands.
pub proof fn law_merge_commutes(a: ExportStats, b: ExportStats)
    ensures
        stats_sum(a, b) == stats_sum(b, a),
{
}

/// Merging counts does not depend on how the merges are grouped.
pub proof fn law_merge_associates(a: ExportStats, b: ExportStats, c: ExportStats, ab: ExportStats, bc: ExportStats)
    requires
        stats_counts(ab) == stats_sum(a, b),
        stats_counts(bc) == stats_sum(b, c),
    ensures
        stats_sum(ab, c) == stats_sum(a, bc),
{
}

/// The default counts are neutral for merging.
pub proof fn law_merge_default_is_neutral(a: ExportStats, zero: ExportStats)
    requires
        zero.converted == 0 && zero.copied == 0 && zero.skipped == 0,
    ensures
        stats_sum(a, zero) == stats_counts(a),
        stats_sum(zero, a) == stats_counts(a),
{
}

/// The total of merged counts is the sum of their totals.
pub proof fn law_total_of_merge(a: ExportStats, b: ExportStats, m: ExportStats)
    requires
        stats_counts(m) == stats_sum(a, b),
    ensures
        spec_total(m) == spec_total(a) + spec_total(b),
{
}

/// Outcome of considering a single file for export.
#[derive(Debug)]
pub enum FileOutcome {
    /// The file was converted or copied; carries the metadata to persist.
    Updated(FileUpdate),
    /// The file matched the filter but had not changed since the last run.
    Skipped,
    /// The file was excluded by the file filters; it is not counted.
    Filtered,
}

/// How many of `updates` were copied byte for byte.
pub open spec fn count_only_copy(updates: Seq<FileUpdate>) -> nat
    decreases updates.len(),
{
    if updates.len() == 0 {
        0
    } else {
        count_only_copy(updates.drop_last()) + if updates.last().only_copy {
            1nat
        } else {
            0nat
        }
    }
}

proof fn lemma_count_only_copy_concat(a: Seq<FileUpdate>, b: Seq<FileUpdate>)
    ensures
        count_only_copy(a + b) == count_only_copy(a) + count_only_copy(b),
    decreases b.len(),
{
    if b.len() == 0 {
        assert(a + b =~= a);
    } else {
        lemma_count_only_copy_concat(a, b.drop_last());
        assert((a + b).drop_last() =~= a + b.drop_last());
        assert((a + b).last() == b.last());
    }
}

/// Result of walking a directory subtree: every modification that needs to
/// be persisted plus the aggregate counts for reporting.
#[derive(Debug)]
pub struct ExportOutcome {
    pub updates: Vec<FileUpdate>,
    pub stats: ExportStats,
}

impl ExportOutcome {
    /// Every exported file has exactly one update, and the updates that
    /// were copies are exactly the copies counted.
    pub open spec fn wf(&self) -> bool {
        &&& self.updates@.len() == self.stats.converted + self.stats.copied
        &&& count_only_copy(self.updates@) == self.stats.copied
    }

    /// The outcome of an empty walk.
    pub fn empty() -> (o: ExportOutcome)
        ensures
            o.wf(),
            o.updates@.len() == 0,
            stats_counts(o.stats) == (0int, 0int, 0int),
    {
        ExportOutcome { updates: Vec::new(), stats: ExportStats::default() }
    }

    /// The outcomes of two subtrees together: the updates of `self`
    /// followed by those of `other`, and the sum of the counts.
    pub fn merge(self, other: ExportOutcome) -> (m: ExportOutcome)
        requires
            can_merge(self.stats, other.stats),
            self.wf(),
            other.wf(),
        ensures
            m.wf(),
            m.updates@ == self.updates@ + other.updates@,
            stats_counts(m.stats) == stats_sum(self.stats, other.stats),
    {
        let mut updates = self.updates;
        let mut others = other.updates;
        let ghost a = updates@;
        let ghost b = others@;
        updates.append(&mut others);
        proof {
            lemma_count_only_copy_concat(a, b);
        }
        ExportOutcome { updates, stats: self.stats.merge(other.stats) }
    }
}

/// The counts one file contributes to a walk: one converted or copied file
/// for an update, one skipped file, or nothing for a filtered file.
pub open spec fn outcome_counts(outcome: FileOutcome) -> (int, int, int) {
    match outcome {
        FileOutcome::Updated(update) => if update.only_copy {
            (0, 1, 0)
        } else {
            (1, 0, 0)
        },
        FileOutcome::Skipped => (0, 0, 1),
        FileOutcome::Filtered => (0, 0, 0),
    }
}

/// The updates one file contributes to a walk.
pub open spec fn outcome_updates(outcome: FileOutcome) -> Seq<FileUpdate> {
    match outcome {
        FileOutcome::Updated(update) => seq![update],
        _ => Seq::empty(),
    }
}

/// The contribution of one file to the outcome of a walk: an update counted
/// as converted or copied, a skipped file, or nothing for a filtered one.
pub fn file_outcome_to_export_outcome(outcome: FileOutcome) -> (o: ExportOutcome)
    ensures
        o.wf(),
        o.updates@ == outcome_updates(outcome),
        stats_counts(o.stats) == outcome_counts(outcome),
{
    let mut stats = ExportStats::default();
    let updates = match outcome {
        FileOutcome::Updated(update) => {
            if update.only_copy {
                stats.copied = 1;
            } else {
                stats.converted = 1;
            }
            let mut v: Vec<FileUpdate> = Vec::new();
            v.push(update);
            assert(v@.drop_last() =~= Seq::<FileUpdate>::empty());
            assert(count_only_copy(Seq::<FileUpdate>::empty()) == 0);
            assert(count_only_copy(v@) == count_only_copy(v@.drop_last()) + if v@.last().only_copy {
                1nat
            } else {
                0nat
            });
            v
        },
        FileOutcome::Skipped => {
            stats.skipped = 1;
            Vec::new()
        },
        FileOutcome::Filtered => Vec::new(),
    };
    ExportOutcome { updates, stats }
}

/// The counts of the files of a walk, added up.
pub open spec fn walk_counts(outcomes: Seq<FileOutcome>) -> (int, int, int)
    decreases outcomes.len(),
{
    if outcomes.len() == 0 {
        (0, 0, 0)
    } else {
        let (a, b, c) = walk_counts(outcomes.drop_last());
        let (x, y, z) = outcome_counts(outcomes.last());
        (a + x, b + y, c + z)
    }
}

/// The updates of the files of a walk, in order.
pub open spec fn walk_updates(outcomes: Seq<FileOutcome>) -> Seq<FileUpdate>
    decreases outcomes.len(),
{
    if outcomes.len() == 0 {
        Seq::empty()
    } else {
        walk_updates(outcomes.drop_last()) + outcome_updates(outcomes.last())
    }
}

/// The number of files of a walk that matched the filter.
pub open spec fn matched_files(outcomes: Seq<FileOutcome>) -> int
    decreases outcomes.len(),
{
    if outcomes.len() == 0 {
        0
    } else {
        matched_files(outcomes.drop_last()) + if outcomes.last() is Filtered {
            0int
        } else {
            1int
        }
    }
}

/// Converted, copied and skipped files add up to the files that matched the
/// filter; filtered files are not counted. Every converted or copied file
/// leaves exactly one update, and the updates marked as copies are the
/// copied files.
pub proof fn law_counts_cover_matched_files(outcomes: Seq<FileOutcome>)
    ensures
        walk_counts(outcomes).0 + walk_counts(outcomes).1 + walk_counts(outcomes).2
            == matched_files(outcomes),
        walk_updates(outcomes).len() == walk_counts(outcomes).0 + walk_counts(outcomes).1,
        count_only_copy(walk_updates(outcomes)) == walk_counts(outcomes).1,
    decreases outcomes.len(),
{
    if outcomes.len() > 0 {
        let rest = outcomes.drop_last();
        law_counts_cover_matched_files(rest);
        let last = outcomes.last();
        lemma_count_only_copy_concat(walk_updates(rest), outcome_updates(last));
        let one = outcome_updates(last);
        assert(count_only_copy(Seq::<FileUpdate>::empty()) == 0);
        if let FileOutcome::Updated(u) = last {
            assert(one.drop_last() =~= Seq::<FileUpdate>::empty());
            assert(one.last() == u);
        }
    }
}

/// The outcome for a file that matched the filter, given its status and
/// whether it is copied byte for byte: skipped when up to date, otherwise
/// updated with the modification time to record.
pub fn outcome_for_status(status: FileStatus, path: String, only_copy: bool) -> (o: FileOutcome)
    ensures
        o == match status {
            FileStatus::UpToDate => FileOutcome::Skipped,
            FileStatus::Modified(t) => FileOutcome::Updated(
                FileUpdate { path, modified: t, only_copy },
            ),
        },
{
    match status {
        FileStatus::UpToDate => FileOutcome::Skipped,
        FileStatus::Modified(modified) => FileOutcome::Updated(FileUpdate { path, modified, only_copy }),
    }
}

/// Whether a file that matched the filter must be exported again: always
/// with `--reload`, and with `--exists` when its destination copy is
/// missing; otherwise when its modification time differs from the recorded
/// one. `modified` is its current modification time (`None` when it could
/// not be read), `now` the current time.
pub fn file_need_update(
    file: &str,
    configuration: &Configuration,
    checker: &FileChecker,
    destination_exists: bool,
    modified: Option<u128>,
    now: u128,
) -> (status: FileStatus)
    ensures
        status == if configuration.spec_flags().2 || (configuration.spec_flags().1
            && !destination_exists) {
            FileStatus::Modified(
                match modified {
                    Some(t) => t,
                    None => now,
                },
            )
        } else {
            spec_check(checker@, file@, modified, now)
        },
{
    if configuration.reload() || (configuration.exists_flag() && !destination_exists) {
        return checker.force_update(modified, now);
    }
    checker.check(file, modified, now)
}

} // verus!
