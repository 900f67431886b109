//! One source → destination export: the filters in force for the source and
//! the recording of what the walk exported.

use vstd::prelude::*;

use crate::configuration::Configuration;
use crate::error::ExportError;
use crate::export::{ExportOutcome, ExportStats};
use crate::export_branch_files::{
    check_configuration_file, globs_regexes, regex_set_builds, GlobSet,
    selected_filters, selected_only_copy, spec_join, views, SourceOverrides,
};
use crate::file_checker::{apply_updates, FileChecker};

verus! {

/// The export of one source root into one destination root.
pub struct ExportBranch<'a> {
    pub source: String,
    pub destination: String,
    pub configuration: &'a Configuration,
    pub file_checker: &'a mut FileChecker,
}

impl<'a> ExportBranch<'a> {
    /// Gathers what one export needs.
    pub fn build(
        source: String,
        destination: String,
        configuration: &'a Configuration,
        file_checker: &'a mut FileChecker,
    ) -> (b: ExportBranch<'a>)
        ensures
            b.source == source,
            b.destination == destination,
            b.configuration == configuration,
            *b.file_checker == *old(file_checker),
    {
        ExportBranch { source, destination, configuration, file_checker }
    }

    /// The file filters and only-copy globs in force for this source, given
    /// what its override files list (see `check_configuration_file`).
    pub fn filters(&self, overrides: &SourceOverrides) -> (r: Result<(GlobSet, GlobSet), ExportError>)
        ensures
            ({
                let filters = selected_filters(*overrides, self.configuration.spec_file_filters());
                let copy = selected_only_copy(*overrides, self.configuration.spec_only_copy_files());
                match r {
                    Ok((f, c)) => f.regexes() == globs_regexes(filters) && c.regexes()
                        == globs_regexes(copy) && regex_set_builds(globs_regexes(filters))
                        && regex_set_builds(globs_regexes(copy)),
                    Err(ExportError::InvalidGlob { pattern, .. }) => if regex_set_builds(
                        globs_regexes(filters),
                    ) {
                        !regex_set_builds(globs_regexes(copy)) && pattern@ == spec_join(copy, ","@)
                    } else {
                        pattern@ == spec_join(filters, ","@)
                    },
                    Err(_) => false,
                }
            }),
    {
        check_configuration_file(
            overrides,
            self.configuration.file_filters().as_slice(),
            self.configuration.only_copy_files().as_slice(),
        )
    }

    /// Records what the walk of this source exported: every update, in
    /// order, goes into the modification-time tracker. Returns the counts of
    /// the walk.
    pub fn perform_exporting(&mut self, outcome: ExportOutcome) -> (stats: ExportStats)
        requires
            old(self).file_checker.wf(),
        ensures
            final(self).file_checker.wf(),
            final(self).file_checker@ == apply_updates(old(self).file_checker@, outcome.updates@),
            final(self).file_checker.spec_directory() == old(self).file_checker.spec_directory(),
            final(self).source == old(self).source,
            final(self).destination == old(self).destination,
            stats == outcome.stats,
    {
        let mut i: usize = 0;
        while i < outcome.updates.len()
            invariant
                i <= outcome.updates@.len(),
                self.file_checker.wf(),
                self.file_checker@ == apply_updates(
                    old(self).file_checker@,
                    outcome.updates@.take(i as int),
                ),
                self.file_checker.spec_directory() == old(self).file_checker.spec_directory(),
                self.source == old(self).source,
                self.destination == old(self).destination,
            decreases outcome.updates@.len() - i,
        {
            self.file_checker.apply(&outcome.updates[i]);
            proof {
                assert(outcome.updates@.take(i + 1).drop_last() =~= outcome.updates@.take(i as int));
            }
            i += 1;
        }
        assert(outcome.updates@.take(outcome.updates@.len() as int) =~= outcome.updates@);
        outcome.stats
    }
}

} // verus!
