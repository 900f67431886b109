//! The parsed command line and the configuration derived from it.

use vstd::prelude::*;

use crate::error::ExportError;
use crate::export_branch_files::{join, keep_nonempty, spec_join, views};
use crate::text::{chars_of, push_char, split_on};

verus! {

/// The command line as given, before defaults are applied. List options
/// hold one string per occurrence; each may name several items separated
/// by `;`.
pub struct CommandLine {
    /// `-s`: source path(s).
    pub source: Vec<String>,
    /// `-d`: destination path(s).
    pub destination: Vec<String>,
    /// `-c`: globs copied byte for byte.
    pub only_copy_files: Vec<String>,
    /// `-f`: globs selected for export.
    pub file_filters: Vec<String>,
    /// `--show`: print the configuration before exporting.
    pub show: bool,
    /// `--exists`: re-export files whose destination copy is missing.
    pub exists: bool,
    /// `--md5`: deprecated alias of `--exists`.
    pub md5: bool,
    /// `--reload`: re-export every file.
    pub reload: bool,
    /// `--lower`: lowercase names under the destination.
    pub lower: bool,
    /// `-q`: print nothing but errors.
    pub quiet: bool,
}

/// `pieces`, with the empty ones dropped unless `keep_empty`.
pub open spec fn items_of(pieces: Seq<Seq<char>>, keep_empty: bool) -> Seq<Seq<char>> {
    if keep_empty {
        pieces
    } else {
        keep_nonempty(pieces)
    }
}

/// The pieces of one occurrence of a list option split at `;`, empty
/// pieces kept or dropped.
pub open spec fn occurrence_items(value: Seq<char>, keep_empty: bool) -> Seq<Seq<char>> {
    items_of(split_on(value, ';'), keep_empty)
}

/// The items named by the occurrences of a list option: each occurrence
/// split at `;`, with its empty items kept or dropped.
pub open spec fn spec_split_items(values: Seq<Seq<char>>, keep_empty: bool) -> Seq<Seq<char>>
    decreases values.len(),
{
    if values.len() == 0 {
        Seq::empty()
    } else {
        spec_split_items(values.drop_last(), keep_empty) + occurrence_items(values.last(), keep_empty)
    }
}

/// The paths named by the occurrences of `-s` or `-d`: each occurrence split
/// at `;`, empty items dropped.
pub open spec fn spec_split_list(values: Seq<Seq<char>>) -> Seq<Seq<char>> {
    spec_split_items(values, false)
}

/// Globs copied byte for byte when `-c` is not given.
pub open spec fn default_only_copy_files() -> Seq<Seq<char>> {
    seq!["*.a"@, "*.so"@, "*.h"@, "*.0"@, "*.18"@]
}

/// Globs selected for export when `-f` is not given.
pub open spec fn default_file_filters() -> Seq<Seq<char>> {
    seq![
        "*.prg"@, "*.mke"@, "*.mkp"@, "*.mks"@, "*.mkc"@, "*.hbp"@, "*.hbc"@, "*.hbm"@,
        "*.ch"@, "*.so*"@, "*.cpp"@, "*.a"@, "*.c"@, "*.h"@, "*.sh"@, "*.0"@, "*.18"@,
        "*.jar"@, "*.spec"@,
    ]
}

/// Without `-f` the file filters are the nineteen Harbour, C and build globs
/// below, in this order; without `-c` the copied globs are the five below.
pub proof fn law_default_globs()
    ensures
        default_file_filters().len() == 19,
        default_file_filters()[0] == "*.prg"@,
        default_file_filters()[1] == "*.mke"@,
        default_file_filters()[2] == "*.mkp"@,
        default_file_filters()[3] == "*.mks"@,
        default_file_filters()[4] == "*.mkc"@,
        default_file_filters()[5] == "*.hbp"@,
        default_file_filters()[6] == "*.hbc"@,
        default_file_filters()[7] == "*.hbm"@,
        default_file_filters()[8] == "*.ch"@,
        default_file_filters()[9] == "*.so*"@,
        default_file_filters()[10] == "*.cpp"@,
        default_file_filters()[11] == "*.a"@,
        default_file_filters()[12] == "*.c"@,
        default_file_filters()[13] == "*.h"@,
        default_file_filters()[14] == "*.sh"@,
        default_file_filters()[15] == "*.0"@,
        default_file_filters()[16] == "*.18"@,
        default_file_filters()[17] == "*.jar"@,
        default_file_filters()[18] == "*.spec"@,
        default_only_copy_files().len() == 5,
        default_only_copy_files()[0] == "*.a"@,
        default_only_copy_files()[1] == "*.so"@,
        default_only_copy_files()[2] == "*.h"@,
        default_only_copy_files()[3] == "*.0"@,
        default_only_copy_files()[4] == "*.18"@,
{
}

/// Directories, relative to each source root, that are never exported.
pub open spec fn disregarded_relative_directories() -> Seq<Seq<char>> {
    seq![
        "bin"@, "lib"@, "new/fivewin"@, "programas_externos/conversoes"@,
        "programas_externos/hbfunctions"@,
    ]
}

fn strings(items: &[&str]) -> (v: Vec<String>)
    ensures
        views(v@) == items@.map_values(|s: &str| s@),
{
    let mut v: Vec<String> = Vec::new();
    let mut i: usize = 0;
    while i < items.len()
        invariant
            i <= items@.len(),
            v@.len() == i,
            views(v@) == items@.take(i as int).map_values(|s: &str| s@),
        decreases items@.len() - i,
    {
        let ghost prev = v@;
        v.push(String::from_str(items[i]));
        assert(views(v@) =~= views(prev).push(items@[i as int]@));
        i += 1;
        assert(views(v@) =~= items@.take(i as int).map_values(|s: &str| s@));
    }
    assert(items@.take(items@.len() as int) =~= items@);
    v
}

/// The globs copied byte for byte when `-c` is not given.
pub fn default_only_copy() -> (v: Vec<String>)
    ensures
        views(v@) == default_only_copy_files(),
{
    let items: [&str; 5] = ["*.a", "*.so", "*.h", "*.0", "*.18"];
    let v = strings(items.as_slice());
    assert(views(v@) =~= default_only_copy_files());
    v
}

/// The globs selected for export when `-f` is not given.
pub fn default_filters() -> (v: Vec<String>)
    ensures
        views(v@) == default_file_filters(),
{
    let items: [&str; 19] = [
        "*.prg", "*.mke", "*.mkp", "*.mks", "*.mkc", "*.hbp", "*.hbc", "*.hbm", "*.ch", "*.so*",
        "*.cpp", "*.a", "*.c", "*.h", "*.sh", "*.0", "*.18", "*.jar", "*.spec",
    ];
    let v = strings(items.as_slice());
    assert(views(v@) =~= default_file_filters());
    v
}

/// The directories, relative to each source root, that are never exported.
pub fn disregarded_relative_paths() -> (v: Vec<String>)
    ensures
        views(v@) == disregarded_relative_directories(),
{
    let items: [&str; 5] = [
        "bin",
        "lib",
        "new/fivewin",
        "programas_externos/conversoes",
        "programas_externos/hbfunctions",
    ];
    let v = strings(items.as_slice());
    assert(views(v@) =~= disregarded_relative_directories());
    v
}

fn push_items(target: &mut Vec<String>, value: &str, keep_empty: bool)
    ensures
        views(final(target)@) == views(old(target)@) + occurrence_items(value@, keep_empty),
{
    let chars = chars_of(value);
    let mut current = String::new();
    let ghost mut done: Seq<Seq<char>> = Seq::empty();
    let mut i: usize = 0;
    proof {
        assert(chars@.take(0) =~= Seq::<char>::empty());
        assert(split_on(chars@.take(0), ';') =~= done.push(current@));
        assert(views(target@) =~= views(old(target)@) + items_of(done, keep_empty));
    }
    while i < chars.len()
        invariant
            i <= chars@.len(),
            chars@ == value@,
            split_on(chars@.take(i as int), ';') == done.push(current@),
            views(target@) == views(old(target)@) + items_of(done, keep_empty),
        decreases chars@.len() - i,
    {
        let c = chars[i];
        proof {
            assert(chars@.take(i + 1).drop_last() =~= chars@.take(i as int));
            assert(chars@.take(i + 1).last() == c);
        }
        if c == ';' {
            let ghost before = target@;
            if keep_empty || !current.as_str().is_empty() {
                target.push(current);
            }
            proof {
                assert(done.push(current@).drop_last() =~= done);
                if keep_empty || current@.len() > 0 {
                    assert(views(target@) =~= views(before).push(current@));
                }
                assert(views(target@) =~= views(old(target)@) + items_of(done.push(current@), keep_empty));
                done = done.push(current@);
            }
            current = String::new();
        } else {
            push_char(&mut current, c);
        }
        i += 1;
    }
    proof {
        assert(chars@.take(chars@.len() as int) =~= chars@);
    }
    let ghost before = target@;
    if keep_empty || !current.as_str().is_empty() {
        target.push(current);
    }
    proof {
        assert(done.push(current@).drop_last() =~= done);
        if keep_empty || current@.len() > 0 {
            assert(views(target@) =~= views(before).push(current@));
        }
        assert(views(target@) =~= views(old(target)@) + items_of(done.push(current@), keep_empty));
    }
}

/// The items named by the occurrences of a list option, with empty items
/// kept or dropped.
pub fn split_items(values: &[String], keep_empty: bool) -> (items: Vec<String>)
    ensures
        views(items@) == spec_split_items(views(values@), keep_empty),
{
    let mut items: Vec<String> = Vec::new();
    let mut i: usize = 0;
    while i < values.len()
        invariant
            i <= values@.len(),
            views(items@) == spec_split_items(views(values@.take(i as int)), keep_empty),
        decreases values@.len() - i,
    {
        push_items(&mut items, values[i].as_str(), keep_empty);
        proof {
            assert(views(values@.take(i + 1)).drop_last() =~= views(values@.take(i as int)));
            assert(views(values@.take(i + 1)).last() == values@[i as int]@);
        }
        i += 1;
    }
    assert(values@.take(values@.len() as int) =~= values@);
    items
}

/// The paths named by the occurrences of `-s` or `-d`: empty items dropped.
pub fn split_list(values: &[String]) -> (items: Vec<String>)
    ensures
        views(items@) == spec_split_list(views(values@)),
{
    split_items(values, false)
}

/// `label` followed by `items` joined by `;`.
pub open spec fn banner_line(label: Seq<char>, items: Seq<Seq<char>>) -> Seq<char> {
    label + spec_join(items, ";"@)
}

/// The one-line entry `line` where `present` holds, nothing otherwise.
pub open spec fn entry_if(present: bool, line: Seq<char>) -> Seq<Seq<char>> {
    if present {
        seq![line]
    } else {
        Seq::empty()
    }
}

/// The entries that `--show` adds to the banner: the globs and flags that
/// differ from the built-in defaults, nothing else.
pub open spec fn banner_extras(c: Configuration) -> Seq<Seq<char>> {
    let (show, exists, reload, lower, _) = c.spec_flags();
    if !show {
        Seq::empty()
    } else {
        entry_if(
            c.spec_only_copy_files() != default_only_copy_files(),
            banner_line("only_copy    = "@, c.spec_only_copy_files()),
        ) + entry_if(
            c.spec_file_filters() != default_file_filters(),
            banner_line("file_filters = "@, c.spec_file_filters()),
        ) + entry_if(exists, "exists       = true"@) + entry_if(reload, "reload       = true"@)
            + entry_if(lower, "lower        = true"@)
    }
}

/// The lines printed before exporting: the source and destination roots,
/// the customised entries when `--show` is given, then `Exporting...`;
/// nothing at all under `--quiet`.
pub open spec fn spec_banner(c: Configuration) -> Seq<Seq<char>> {
    if c.spec_flags().4 {
        Seq::empty()
    } else {
        seq![
            banner_line("source       = "@, c.spec_source()),
            banner_line("destination  = "@, c.spec_destination()),
        ] + banner_extras(c) + seq!["Exporting..."@]
    }
}

/// Whether two lists hold the same strings in the same order.
fn same_strings(a: &Vec<String>, b: &Vec<String>) -> (r: bool)
    ensures
        r == (views(a@) == views(b@)),
{
    if a.len() != b.len() {
        proof {
            if views(a@) == views(b@) {
                assert(views(a@).len() == views(b@).len());
            }
        }
        return false;
    }
    let mut i: usize = 0;
    while i < a.len()
        invariant
            i <= a@.len(),
            a@.len() == b@.len(),
            forall|j: int| 0 <= j < i ==> a@[j]@ == b@[j]@,
        decreases a@.len() - i,
    {
        if !(a[i] == b[i]) {
            proof {
                if views(a@) == views(b@) {
                    assert(views(a@)[i as int] == views(b@)[i as int]);
                }
            }
            return false;
        }
        i += 1;
    }
    assert(views(a@) =~= views(b@));
    true
}

fn labelled(label: &str, items: &Vec<String>) -> (line: String)
    ensures
        line@ == banner_line(label@, views(items@)),
{
    let mut line = String::from_str(label);
    let joined = join(items.as_slice(), ";");
    line.append(joined.as_str());
    line
}

fn push_if(lines: &mut Vec<String>, present: bool, line: String)
    ensures
        views(final(lines)@) == views(old(lines)@) + entry_if(present, line@),
{
    let ghost before = lines@;
    if present {
        lines.push(line);
        assert(views(lines@) =~= views(before) + seq![line@]);
    } else {
        assert(views(lines@) =~= views(before) + Seq::<Seq<char>>::empty());
    }
}

/// The configuration of an export run.
pub struct Configuration {
    source: Vec<String>,
    destination: Vec<String>,
    only_copy_files: Vec<String>,
    file_filters: Vec<String>,
    show: bool,
    exists: bool,
    reload: bool,
    lower: bool,
    quiet: bool,
    disregarded_directories: Vec<String>,
}

impl Configuration {
    /// The source roots.
    pub closed spec fn spec_source(&self) -> Seq<Seq<char>> {
        views(self.source@)
    }

    /// The destination roots.
    pub closed spec fn spec_destination(&self) -> Seq<Seq<char>> {
        views(self.destination@)
    }

    /// The globs copied byte for byte.
    pub closed spec fn spec_only_copy_files(&self) -> Seq<Seq<char>> {
        views(self.only_copy_files@)
    }

    /// The globs selected for export.
    pub closed spec fn spec_file_filters(&self) -> Seq<Seq<char>> {
        views(self.file_filters@)
    }

    /// The flags `show`, `exists`, `reload`, `lower`, `quiet`, in that order.
    pub closed spec fn spec_flags(&self) -> (bool, bool, bool, bool, bool) {
        (self.show, self.exists, self.reload, self.lower, self.quiet)
    }

    /// The directories never exported.
    pub closed spec fn spec_disregarded(&self) -> Seq<Seq<char>> {
        views(self.disregarded_directories@)
    }

    /// Derives the configuration from the command line: list options are
    /// split at `;`, with empty items dropped from the sources and
    /// destinations, globs not given take the defaults, and `--md5` counts as `--exists`. Fails with
    /// [`ExportError::InvalidArgs`] when no source or no destination is left.
    /// No directory is disregarded yet.
    pub fn build(cli: &CommandLine) -> (r: Result<Configuration, ExportError>)
        ensures
            ({
                let source = spec_split_list(views(cli.source@));
                let destination = spec_split_list(views(cli.destination@));
                match r {
                    Ok(c) => {
                        &&& source.len() > 0 && destination.len() > 0
                        &&& c.spec_source() == source
                        &&& c.spec_destination() == destination
                        &&& c.spec_only_copy_files() == if cli.only_copy_files@.len() == 0 {
                            default_only_copy_files()
                        } else {
                            spec_split_items(views(cli.only_copy_files@), true)
                        }
                        &&& c.spec_file_filters() == if cli.file_filters@.len() == 0 {
                            default_file_filters()
                        } else {
                            spec_split_items(views(cli.file_filters@), true)
                        }
                        &&& c.spec_flags() == (
                            cli.show,
                            cli.exists || cli.md5,
                            cli.reload,
                            cli.lower,
                            cli.quiet,
                        )
                        &&& c.spec_disregarded() == Seq::<Seq<char>>::empty()
                    },
                    Err(ExportError::InvalidArgs(msg)) => (source.len() == 0 || destination.len()
                        == 0) && msg@ == "source and destination cannot be empty"@,
                    Err(_) => false,
                }
            }),
    {
        let source = split_list(cli.source.as_slice());
        let destination = split_list(cli.destination.as_slice());
        if source.len() == 0 || destination.len() == 0 {
            return Err(
                ExportError::InvalidArgs(String::from_str("source and destination cannot be empty")),
            );
        }
        let only_copy = split_items(cli.only_copy_files.as_slice(), true);
        let filters = split_items(cli.file_filters.as_slice(), true);
        let c = Configuration {
            source,
            destination,
            only_copy_files: if cli.only_copy_files.len() == 0 {
                default_only_copy()
            } else {
                only_copy
            },
            file_filters: if cli.file_filters.len() == 0 {
                default_filters()
            } else {
                filters
            },
            show: cli.show,
            exists: cli.exists || cli.md5,
            reload: cli.reload,
            lower: cli.lower,
            quiet: cli.quiet,
            disregarded_directories: Vec::new(),
        };
        assert(c.spec_disregarded() =~= Seq::<Seq<char>>::empty());
        Ok(c)
    }

    /// The lines printed before exporting (see [`spec_banner`]), e.g.
    /// `source       = L:\trunk`, `destination  = R:\`, `Exporting...`.
    pub fn banner(&self) -> (lines: Vec<String>)
        ensures
            views(lines@) == spec_banner(*self),
    {
        let mut lines: Vec<String> = Vec::new();
        if self.quiet {
            assert(views(lines@) =~= spec_banner(*self));
            return lines;
        }
        lines.push(labelled("source       = ", &self.source));
        lines.push(labelled("destination  = ", &self.destination));
        let ghost head = views(lines@);
        if self.show {
            let custom_copy = !same_strings(&self.only_copy_files, &default_only_copy());
            push_if(&mut lines, custom_copy, labelled("only_copy    = ", &self.only_copy_files));
            let custom_filters = !same_strings(&self.file_filters, &default_filters());
            push_if(&mut lines, custom_filters, labelled("file_filters = ", &self.file_filters));
            push_if(&mut lines, self.exists, String::from_str("exists       = true"));
            push_if(&mut lines, self.reload, String::from_str("reload       = true"));
            push_if(&mut lines, self.lower, String::from_str("lower        = true"));
        }
        let ghost body = views(lines@);
        lines.push(String::from_str("Exporting..."));
        proof {
            assert(views(lines@) =~= body + seq!["Exporting..."@]);
            assert(body =~= head + banner_extras(*self));
            assert(head =~= seq![
                banner_line("source       = "@, self.spec_source()),
                banner_line("destination  = "@, self.spec_destination()),
            ]);
        }
        lines
    }

    /// Marks `directory` (a canonical path) as never exported.
    pub fn add_disregarded_directory(&mut self, directory: String)
        ensures
            final(self).spec_disregarded() == if old(self).spec_disregarded().contains(directory@) {
                old(self).spec_disregarded()
            } else {
                old(self).spec_disregarded().push(directory@)
            },
            final(self).spec_source() == old(self).spec_source(),
            final(self).spec_destination() == old(self).spec_destination(),
            final(self).spec_only_copy_files() == old(self).spec_only_copy_files(),
            final(self).spec_file_filters() == old(self).spec_file_filters(),
            final(self).spec_flags() == old(self).spec_flags(),
    {
        if !self.is_disregarded(&directory) {
            let ghost before = self.disregarded_directories@;
            self.disregarded_directories.push(directory);
            assert(views(self.disregarded_directories@) =~= views(before).push(directory@));
        }
    }

    /// Whether `directory` (a canonical path) is never exported.
    pub fn is_disregarded(&self, directory: &String) -> (r: bool)
        ensures
            r == self.spec_disregarded().contains(directory@),
    {
        let mut i: usize = 0;
        while i < self.disregarded_directories.len()
            invariant
                i <= self.disregarded_directories@.len(),
                forall|j: int| 0 <= j < i ==> self.disregarded_directories@[j]@ != directory@,
            decreases self.disregarded_directories@.len() - i,
        {
            if self.disregarded_directories[i] == *directory {
                assert(self.spec_disregarded()[i as int] == directory@);
                return true;
            }
            i += 1;
        }
        assert forall|j: int| 0 <= j < self.spec_disregarded().len() implies self.spec_disregarded()[j]
            != directory@ by {
            assert(self.spec_disregarded()[j] == self.disregarded_directories@[j]@);
        }
        false
    }

    /// The source roots.
    pub fn source(&self) -> (r: &Vec<String>)
        ensures
            views(r@) == self.spec_source(),
    {
        &self.source
    }

    /// The destination roots.
    pub fn destination(&self) -> (r: &Vec<String>)
        ensures
            views(r@) == self.spec_destination(),
    {
        &self.destination
    }

    /// The globs copied byte for byte.
    pub fn only_copy_files(&self) -> (r: &Vec<String>)
        ensures
            views(r@) == self.spec_only_copy_files(),
    {
        &self.only_copy_files
    }

    /// The globs selected for export.
    pub fn file_filters(&self) -> (r: &Vec<String>)
        ensures
            views(r@) == self.spec_file_filters(),
    {
        &self.file_filters
    }

    /// Whether the configuration is printed before exporting.
    pub fn show(&self) -> (r: bool)
        ensures
            r == self.spec_flags().0,
    {
        self.show
    }

    /// Whether files whose destination copy is missing are exported again.
    pub fn exists_flag(&self) -> (r: bool)
        ensures
            r == self.spec_flags().1,
    {
        self.exists
    }

    /// Whether every file is exported again.
    pub fn reload(&self) -> (r: bool)
        ensures
            r == self.spec_flags().2,
    {
        self.reload
    }

    /// Whether names under the destination are lowercased.
    pub fn lower(&self) -> (r: bool)
        ensures
            r == self.spec_flags().3,
    {
        self.lower
    }

    /// Whether only errors are printed.
    pub fn quiet(&self) -> (r: bool)
        ensures
            r == self.spec_flags().4,
    {
        self.quiet
    }

    /// The directories never exported.
    pub fn disregarded_directories(&self) -> (r: &Vec<String>)
        ensures
            views(r@) == self.spec_disregarded(),
    {
        &self.disregarded_directories
    }
}

} // verus!
