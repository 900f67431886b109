//! Per-file modification-time tracker, persisted alongside the destination
//! tree as lines `<source path>;<nanoseconds since the epoch>`.

use vstd::prelude::*;
use vstd::hash_map::StringHashMap;

use crate::text::{
    chars_of, lemma_decimal_reads_back, lemma_split_append_no_sep, parse_u128, push_char,
    push_decimal, spec_decimal, spec_parse_u128, split_on, string_of,
};

verus! {

/// Whether a source file must be exported again.
#[derive(Debug, Clone, Copy, PartialEq, Eq, Structural)]
pub enum FileStatus {
    /// Its modification time is the one recorded at the last export.
    UpToDate,
    /// It changed (or its time could not be read); carries the modification
    /// time, in nanoseconds since the epoch, to record once it is exported.
    Modified(u128),
}

/// A modification to persist once a file has been exported.
#[derive(Debug)]
pub struct FileUpdate {
    /// The source file.
    pub path: String,
    /// Its modification time in nanoseconds since the epoch.
    pub modified: u128,
    /// Whether it was copied byte for byte (rather than converted).
    pub only_copy: bool,
}

// ---------------------------------------------------------------------------
// The metadata file format.

/// A line without the `\r` of a `\r\n` line ending.
pub open spec fn strip_cr(line: Seq<char>) -> Seq<char> {
    if line.len() > 0 && line.last() == '\r' {
        line.drop_last()
    } else {
        line
    }
}

/// The lines of `s`, as `str::lines` yields them: split at `\n` or `\r\n`,
/// the final line ending optional.
pub open spec fn spec_lines(s: Seq<char>) -> Seq<Seq<char>> {
    let p = split_on(s, '\n');
    let ended = p.drop_last().map_values(|l: Seq<char>| strip_cr(l));
    if p.last().len() == 0 {
        ended
    } else {
        ended.push(p.last())
    }
}

/// Index of the first `c` in `s` at or after `from`.
pub open spec fn find_char(s: Seq<char>, c: char, from: int) -> Option<int>
    decreases s.len() - from,
{
    if from < 0 || from >= s.len() {
        None
    } else if s[from] == c {
        Some(from)
    } else {
        find_char(s, c, from + 1)
    }
}

/// The entry a metadata line records: the path before the first `;` and
/// the time after it. Lines without `;` or whose time does not read as a
/// `u128` (such as entries of an older format) record nothing.
pub open spec fn parse_entry(line: Seq<char>) -> Option<(Seq<char>, u128)> {
    match find_char(line, ';', 0) {
        None => None,
        Some(j) => match spec_parse_u128(line.skip(j + 1)) {
            Some(n) => Some((line.take(j), n)),
            None => None,
        },
    }
}

/// Records the entries of `lines`, in order, on top of `m`; a later entry
/// for a path overrides an earlier one.
pub open spec fn apply_lines(m: Map<Seq<char>, u128>, lines: Seq<Seq<char>>) -> Map<
    Seq<char>,
    u128,
>
    decreases lines.len(),
{
    if lines.len() == 0 {
        m
    } else {
        let before = apply_lines(m, lines.drop_last());
        match parse_entry(lines.last()) {
            Some((k, n)) => before.insert(k, n),
            None => before,
        }
    }
}

/// The entries recorded by a metadata file.
pub open spec fn spec_parse_metadata(text: Seq<char>) -> Map<Seq<char>, u128> {
    apply_lines(Map::empty(), spec_lines(text))
}

/// The line that records `path` with time `nanos`.
pub open spec fn entry_line(path: Seq<char>, nanos: u128) -> Seq<char> {
    path + seq![';'] + spec_decimal(nanos as nat)
}

/// The metadata file recording `m`, one line per path of `keys`, in order.
pub open spec fn spec_serialize(keys: Seq<Seq<char>>, m: Map<Seq<char>, u128>) -> Seq<char>
    decreases keys.len(),
{
    if keys.len() == 0 {
        Seq::empty()
    } else {
        spec_serialize(keys.drop_last(), m) + entry_line(keys.last(), m[keys.last()]) + seq!['\n']
    }
}

/// A path the metadata format can hold: one without `;` or `\n`.
pub open spec fn storable_path(path: Seq<char>) -> bool {
    !path.contains(';') && !path.contains('\n')
}

/// The status of `file` against the recorded times `m`, given its current
/// modification time (`None` when it could not be read) and the current
/// time: up to date when the recorded time is the current one, modified at
/// the current modification time otherwise, and modified now when that
/// time is unknown.
pub open spec fn spec_check(
    m: Map<Seq<char>, u128>,
    file: Seq<char>,
    modified: Option<u128>,
    now: u128,
) -> FileStatus {
    match modified {
        Some(current) => if m.contains_key(file) && m[file] == current {
            FileStatus::UpToDate
        } else {
            FileStatus::Modified(current)
        },
        None => FileStatus::Modified(now),
    }
}

/// The recorded times after recording `updates`, in order, on top of `m`.
pub open spec fn apply_updates(m: Map<Seq<char>, u128>, updates: Seq<FileUpdate>) -> Map<
    Seq<char>,
    u128,
>
    decreases updates.len(),
{
    if updates.len() == 0 {
        m
    } else {
        apply_updates(m, updates.drop_last()).insert(updates.last().path@, updates.last().modified)
    }
}

// ---------------------------------------------------------------------------
// The tracker.

/// Modification-time tracker for the files of one export.
pub struct FileChecker {
    directory: String,
    files: StringHashMap<u128>,
    order: Vec<String>,
}

impl View for FileChecker {
    type V = Map<Seq<char>, u128>;

    /// The recorded time of each path.
    closed spec fn view(&self) -> Map<Seq<char>, u128> {
        self.files@
    }
}

impl FileChecker {
    /// The recorded paths, in the order they were first recorded.
    pub closed spec fn key_order(&self) -> Seq<Seq<char>> {
        self.order@.map_values(|s: String| s@)
    }

    /// The directory the metadata file lives in.
    pub closed spec fn spec_directory(&self) -> Seq<char> {
        self.directory@
    }

    /// Each recorded path appears once in the order, and the order lists
    /// exactly the recorded paths.
    pub closed spec fn wf(&self) -> bool {
        &&& self.key_order().no_duplicates()
        &&& self.key_order().to_set() == self.files@.dom()
    }

    fn empty(directory: String) -> (c: FileChecker)
        ensures
            c.wf(),
            c@ == Map::<Seq<char>, u128>::empty(),
            c.key_order() == Seq::<Seq<char>>::empty(),
            c.spec_directory() == directory@,
    {
        let c = FileChecker { directory, files: StringHashMap::new(), order: Vec::new() };
        assert(c.key_order() =~= Seq::<Seq<char>>::empty());
        assert(c.key_order().to_set() =~= c.files@.dom());
        c
    }

    fn insert(&mut self, key: String, nanos: u128)
        requires
            old(self).wf(),
        ensures
            final(self).wf(),
            final(self)@ == old(self)@.insert(key@, nanos),
            final(self).key_order() == if old(self)@.contains_key(key@) {
                old(self).key_order()
            } else {
                old(self).key_order().push(key@)
            },
            final(self).spec_directory() == old(self).spec_directory(),
    {
        let ghost old_order = self.key_order();
        let ghost old_dom = self.files@.dom();
        proof {
            assert forall|x: Seq<char>| old_order.contains(x) <==> old_dom.contains(x) by {
                assert(old_order.to_set().contains(x) == old_dom.contains(x));
            }
        }
        if !self.files.contains_key(key.as_str()) {
            self.order.push(key.clone());
            proof {
                let new_order = old_order.push(key@);
                assert(self.key_order() =~= new_order);
                assert forall|x: Seq<char>| new_order.contains(x) <==> (old_order.contains(x) || x
                    == key@) by {
                    if new_order.contains(x) && x != key@ {
                        let i = choose|i: int| 0 <= i < new_order.len() && new_order[i] == x;
                        assert(old_order[i] == x);
                    }
                    if old_order.contains(x) {
                        let i = choose|i: int| 0 <= i < old_order.len() && old_order[i] == x;
                        assert(new_order[i] == x);
                    }
                    if x == key@ {
                        assert(new_order[old_order.len() as int] == x);
                    }
                }
            }
        }
        self.files.insert(key, nanos);
        assert(self.key_order().to_set() =~= self.files@.dom());
    }

    /// A tracker for `directory` holding the entries of `stored`, the text of
    /// its metadata file, or no entries when there is none.
    pub fn new(directory: String, stored: Option<&str>) -> (c: FileChecker)
        ensures
            c.wf(),
            c.spec_directory() == directory@,
            c@ == match stored {
                Some(text) => spec_parse_metadata(text@),
                None => Map::<Seq<char>, u128>::empty(),
            },
    {
        match stored {
            Some(text) => FileChecker::build(directory, text),
            None => FileChecker::empty(directory),
        }
    }

    /// Records the entry of `chars[from..to]`, if the line holds one.
    fn load_line(&mut self, chars: &[char], from: usize, to: usize)
        requires
            old(self).wf(),
            from <= to <= chars@.len(),
        ensures
            final(self).wf(),
            final(self).spec_directory() == old(self).spec_directory(),
            final(self)@ == match parse_entry(chars@.subrange(from as int, to as int)) {
                Some((k, n)) => old(self)@.insert(k, n),
                None => old(self)@,
            },
    {
        let ghost line = chars@.subrange(from as int, to as int);
        let mut j = from;
        while j < to && chars[j] != ';'
            invariant
                from <= j <= to <= chars@.len(),
                line == chars@.subrange(from as int, to as int),
                find_char(line, ';', 0) == find_char(line, ';', j - from),
            decreases to - j,
        {
            j += 1;
        }
        if j == to {
            return;
        }
        proof {
            assert(line[j - from] == ';');
            assert(find_char(line, ';', 0) == Some(j - from));
            assert(line.skip(j - from + 1) =~= chars@.subrange(j + 1, to as int));
            assert(line.take(j - from) =~= chars@.subrange(from as int, j as int));
        }
        match parse_u128(chars, j + 1, to) {
            Some(n) => {
                let key = string_of(chars, from, j);
                self.insert(key, n);
            },
            None => {},
        }
    }

    /// A tracker for `directory` holding the entries of the metadata text
    /// `contents`.
    pub fn build(directory: String, contents: &str) -> (c: FileChecker)
        ensures
            c.wf(),
            c.spec_directory() == directory@,
            c@ == spec_parse_metadata(contents@),
    {
        let chars = chars_of(contents);
        let mut checker = FileChecker::empty(directory);
        let ghost mut ended: Seq<Seq<char>> = Seq::empty();
        let mut line_start: usize = 0;
        let mut i: usize = 0;
        proof {
            assert(chars@.take(0) =~= Seq::<char>::empty());
            assert(split_on(chars@.take(0), '\n') =~= ended.push(chars@.subrange(0, 0)));
        }
        while i < chars.len()
            invariant
                line_start <= i <= chars@.len(),
                checker.wf(),
                checker.spec_directory() == directory@,
                split_on(chars@.take(i as int), '\n') == ended.push(
                    chars@.subrange(line_start as int, i as int),
                ),
                checker@ == apply_lines(
                    Map::empty(),
                    ended.map_values(|l: Seq<char>| strip_cr(l)),
                ),
            decreases chars@.len() - i,
        {
            let ghost prefix = chars@.take(i as int);
            proof {
                assert(chars@.take(i + 1).drop_last() =~= prefix);
                assert(chars@.take(i + 1).last() == chars@[i as int]);
            }
            if chars[i] == '\n' {
                let mut line_end = i;
                if line_end > line_start && chars[line_end - 1] == '\r' {
                    line_end -= 1;
                }
                let ghost raw = chars@.subrange(line_start as int, i as int);
                proof {
                    if line_end < i {
                        assert(strip_cr(raw) =~= chars@.subrange(line_start as int, line_end as int));
                    } else {
                        assert(strip_cr(raw) =~= raw);
                    }
                }
                checker.load_line(chars.as_slice(), line_start, line_end);
                proof {
                    let stripped = ended.map_values(|l: Seq<char>| strip_cr(l));
                    assert(ended.push(raw).map_values(|l: Seq<char>| strip_cr(l)) =~= stripped.push(
                        strip_cr(raw),
                    ));
                    assert(ended.push(raw).map_values(|l: Seq<char>| strip_cr(l)).drop_last()
                        =~= stripped);
                    ended = ended.push(raw);
                    assert(chars@.subrange((i + 1) as int, (i + 1) as int) =~= Seq::<char>::empty());
                }
                line_start = i + 1;
            } else {
                proof {
                    assert(chars@.subrange(line_start as int, i + 1) =~= chars@.subrange(
                        line_start as int,
                        i as int,
                    ).push(chars@[i as int]));
                }
            }
            i += 1;
        }
        proof {
            assert(chars@.take(chars@.len() as int) =~= chars@);
        }
        let ghost last = chars@.subrange(line_start as int, chars@.len() as int);
        if line_start < chars.len() {
            checker.load_line(chars.as_slice(), line_start, chars.len());
            proof {
                let stripped = ended.map_values(|l: Seq<char>| strip_cr(l));
                assert(stripped.push(last).drop_last() =~= stripped);
                assert(ended.push(last).drop_last() =~= ended);
            }
        } else {
            proof {
                assert(ended.push(last).drop_last() =~= ended);
            }
        }
        checker
    }

    /// The recorded time of `file`, if any.
    pub fn stored(&self, file: &str) -> (r: Option<u128>)
        ensures
            r == if self@.contains_key(file@) {
                Some(self@[file@])
            } else {
                None::<u128>
            },
    {
        match self.files.get(file) {
            Some(n) => Some(*n),
            None => None,
        }
    }

    /// Whether `file` must be exported again, given its current modification
    /// time (`None` when it could not be read) and the current time.
    pub fn check(&self, file: &str, modified: Option<u128>, now: u128) -> (status: FileStatus)
        ensures
            status == spec_check(self@, file@, modified, now),
    {
        match modified {
            Some(current) => match self.files.get(file) {
                Some(stored) if *stored == current => FileStatus::UpToDate,
                _ => FileStatus::Modified(current),
            },
            None => FileStatus::Modified(now),
        }
    }

    /// The status of a file that is exported whatever was recorded: modified
    /// at its current modification time, or at the current time when that
    /// could not be read.
    pub fn force_update(&self, modified: Option<u128>, now: u128) -> (status: FileStatus)
        ensures
            status == FileStatus::Modified(
                match modified {
                    Some(current) => current,
                    None => now,
                },
            ),
    {
        match modified {
            Some(current) => FileStatus::Modified(current),
            None => FileStatus::Modified(now),
        }
    }

    /// Records `nanos` as the modification time of `file`.
    pub fn add_file(&mut self, file: &str, nanos: u128)
        requires
            old(self).wf(),
        ensures
            final(self).wf(),
            final(self)@ == old(self)@.insert(file@, nanos),
            final(self).spec_directory() == old(self).spec_directory(),
    {
        self.insert(String::from_str(file), nanos);
    }

    /// Records the modification time carried by `update`.
    pub fn apply(&mut self, update: &FileUpdate)
        requires
            old(self).wf(),
        ensures
            final(self).wf(),
            final(self)@ == old(self)@.insert(update.path@, update.modified),
            final(self).spec_directory() == old(self).spec_directory(),
    {
        self.add_file(update.path.as_str(), update.modified);
    }

    /// The directory the metadata file lives in.
    pub fn directory(&self) -> (d: &str)
        ensures
            d@ == self.spec_directory(),
    {
        self.directory.as_str()
    }

    /// The text of the metadata file that records every entry: one line
    /// `<path>;<nanoseconds>` per path, in the order the paths were first
    /// recorded.
    pub fn save(&self) -> (text: String)
        requires
            self.wf(),
        ensures
            text@ == spec_serialize(self.key_order(), self@),
    {
        let mut text = String::new();
        let mut i: usize = 0;
        while i < self.order.len()
            invariant
                i <= self.order@.len(),
                self.wf(),
                text@ == spec_serialize(self.key_order().take(i as int), self@),
            decreases self.order@.len() - i,
        {
            let key = &self.order[i];
            proof {
                assert(self.key_order()[i as int] == key@);
                assert(self.key_order().to_set().contains(key@));
                assert(self.key_order().take(i + 1).drop_last() =~= self.key_order().take(i as int));
            }
            let nanos = match self.files.get(key.as_str()) {
                Some(n) => *n,
                None => 0,
            };
            text.append(key.as_str());
            push_char(&mut text, ';');
            push_decimal(&mut text, nanos);
            push_char(&mut text, '\n');
            i += 1;
            assert(text@ =~= spec_serialize(self.key_order().take(i as int), self@));
        }
        assert(self.key_order().take(self.order@.len() as int) =~= self.key_order());
        text
    }
}

// ---------------------------------------------------------------------------
// Saving then reloading gives back the same entries.

/// The lines of `m`'s entries, for the paths of `keys`.
pub open spec fn entry_lines(keys: Seq<Seq<char>>, m: Map<Seq<char>, u128>) -> Seq<Seq<char>> {
    keys.map_values(|k: Seq<char>| entry_line(k, m[k]))
}

proof fn lemma_entry_line_shape(k: Seq<char>, n: u128)
    requires
        storable_path(k),
    ensures
        !entry_line(k, n).contains('\n'),
        entry_line(k, n).len() > 0,
        entry_line(k, n).last() != '\r',
        parse_entry(entry_line(k, n)) == Some((k, n)),
{
    let l = entry_line(k, n);
    let d = spec_decimal(n as nat);
    lemma_decimal_reads_back(n as nat);
    assert forall|i: int| 0 <= i < l.len() implies l[i] != '\n' by {
        if i < k.len() {
            assert(l[i] == k[i]);
        } else if i > k.len() {
            assert(l[i] == d[i - k.len() - 1]);
            assert(crate::text::is_digit(d[i - k.len() - 1]));
        }
    }
    assert(l.last() == d[d.len() - 1]);
    assert(crate::text::is_digit(d[d.len() - 1]));
    assert(l.skip(k.len() as int + 1) =~= d);
    assert(l =~= k + seq![';'] + l.skip(k.len() as int + 1));
    assert forall|j: int| 0 <= j <= k.len() implies find_char(l, ';', j) == Some(k.len() as int) by {
        lemma_find_semicolon(k, l, j);
    }
    assert(l.skip(k.len() as int + 1) =~= d);
    assert(l.take(k.len() as int) =~= k);
}

proof fn lemma_find_semicolon(k: Seq<char>, l: Seq<char>, j: int)
    requires
        !k.contains(';'),
        l == k + seq![';'] + l.skip(k.len() as int + 1),
        0 <= j <= k.len(),
    ensures
        find_char(l, ';', j) == Some(k.len() as int),
    decreases k.len() - j,
{
    if j < k.len() {
        assert(l[j] == k[j]);
        assert(k[j] != ';');
        lemma_find_semicolon(k, l, j + 1);
    } else {
        assert(l[j] == ';');
    }
}

proof fn lemma_split_serialize(keys: Seq<Seq<char>>, m: Map<Seq<char>, u128>)
    requires
        forall|i: int| 0 <= i < keys.len() ==> storable_path(#[trigger] keys[i]),
    ensures
        split_on(spec_serialize(keys, m), '\n') == entry_lines(keys, m).push(Seq::<char>::empty()),
    decreases keys.len(),
{
    if keys.len() == 0 {
        assert(split_on(Seq::<char>::empty(), '\n') =~= seq![Seq::<char>::empty()]);
        assert(entry_lines(keys, m) =~= Seq::<Seq<char>>::empty());
        assert(entry_lines(keys, m).push(Seq::<char>::empty()) =~= seq![Seq::<char>::empty()]);
    } else {
        let rest = keys.drop_last();
        let k = keys.last();
        assert(storable_path(keys[keys.len() - 1]));
        lemma_split_serialize(rest, m);
        let prev = spec_serialize(rest, m);
        let line = entry_line(k, m[k]);
        lemma_entry_line_shape(k, m[k]);
        lemma_split_append_no_sep(prev, line, '\n');
        let p = entry_lines(rest, m).push(Seq::<char>::empty());
        assert(Seq::<char>::empty() + line =~= line);
        assert(split_on(prev + line, '\n') =~= entry_lines(rest, m).push(line));
        assert(entry_lines(keys, m) =~= entry_lines(rest, m).push(line));
        let whole = prev + line + seq!['\n'];
        assert(whole.drop_last() =~= prev + line);
        assert(whole.last() == '\n');
    }
}

proof fn lemma_apply_entry_lines(keys: Seq<Seq<char>>, m: Map<Seq<char>, u128>)
    requires
        forall|i: int| 0 <= i < keys.len() ==> storable_path(#[trigger] keys[i]),
    ensures
        apply_lines(Map::empty(), entry_lines(keys, m)) == Map::new(
            |k: Seq<char>| keys.contains(k),
            |k: Seq<char>| m[k],
        ),
    decreases keys.len(),
{
    if keys.len() == 0 {
        assert(Map::new(|k: Seq<char>| keys.contains(k), |k: Seq<char>| m[k]) =~= Map::empty());
    } else {
        let rest = keys.drop_last();
        let k = keys.last();
        assert(storable_path(keys[keys.len() - 1]));
        lemma_apply_entry_lines(rest, m);
        lemma_entry_line_shape(k, m[k]);
        assert(entry_lines(keys, m).drop_last() =~= entry_lines(rest, m));
        assert(entry_lines(keys, m).last() == entry_line(k, m[k]));
        let before = Map::new(|x: Seq<char>| rest.contains(x), |x: Seq<char>| m[x]);
        assert forall|x: Seq<char>| keys.contains(x) <==> (rest.contains(x) || x == k) by {
            if keys.contains(x) && x != k {
                let i = choose|i: int| 0 <= i < keys.len() && keys[i] == x;
                assert(rest[i] == x);
            }
            if rest.contains(x) {
                let i = choose|i: int| 0 <= i < rest.len() && rest[i] == x;
                assert(keys[i] == x);
            }
            if x == k {
                assert(keys[keys.len() - 1] == x);
            }
        }
        assert(before.insert(k, m[k]) =~= Map::new(|x: Seq<char>| keys.contains(x), |x: Seq<char>| m[x]));
    }
}

/// Saving a tracker's entries and reading the saved text back gives the same
/// entries, provided no recorded path holds `;` or `\n`.
pub proof fn law_metadata_round_trip(keys: Seq<Seq<char>>, m: Map<Seq<char>, u128>)
    requires
        keys.to_set() == m.dom(),
        forall|i: int| 0 <= i < keys.len() ==> storable_path(#[trigger] keys[i]),
    ensures
        spec_parse_metadata(spec_serialize(keys, m)) == m,
{
    lemma_split_serialize(keys, m);
    let lines = entry_lines(keys, m);
    let p = lines.push(Seq::<char>::empty());
    assert(p.drop_last() =~= lines);
    assert forall|i: int| 0 <= i < lines.len() implies strip_cr(#[trigger] lines[i]) == lines[i] by {
        assert(storable_path(keys[i]));
        lemma_entry_line_shape(keys[i], m[keys[i]]);
    }
    assert(lines.map_values(|l: Seq<char>| strip_cr(l)) =~= lines);
    assert(spec_lines(spec_serialize(keys, m)) =~= lines);
    lemma_apply_entry_lines(keys, m);
    assert forall|x: Seq<char>| keys.contains(x) <==> m.dom().contains(x) by {
        assert(keys.to_set().contains(x) == keys.contains(x));
    }
    assert(Map::new(|k: Seq<char>| keys.contains(k), |k: Seq<char>| m[k]) =~= m);
}

/// A tracker saved and built again from the saved text holds the same
/// entries, provided no recorded path holds `;` or `\n`.
pub proof fn law_save_then_build(c: &FileChecker)
    requires
        c.wf(),
        forall|k: Seq<char>| c@.contains_key(k) ==> storable_path(k),
    ensures
        spec_parse_metadata(spec_serialize(c.key_order(), c@)) == c@,
{
    assert forall|i: int| 0 <= i < c.key_order().len() implies storable_path(
        #[trigger] c.key_order()[i],
    ) by {
        assert(c.key_order().to_set().contains(c.key_order()[i]));
    }
    law_metadata_round_trip(c.key_order(), c@);
}

/// A file recorded with its modification time is up to date when checked
/// again with that same time, as long as no later update names the same
/// path.
pub proof fn law_recorded_file_is_up_to_date(
    m: Map<Seq<char>, u128>,
    updates: Seq<FileUpdate>,
    i: int,
    now: u128,
)
    requires
        0 <= i < updates.len(),
        forall|j: int| i < j < updates.len() ==> updates[j].path@ != updates[i].path@,
    ensures
        spec_check(apply_updates(m, updates), updates[i].path@, Some(updates[i].modified), now)
            == FileStatus::UpToDate,
    decreases updates.len(),
{
    if i < updates.len() - 1 {
        assert(updates.drop_last()[i] == updates[i]);
        assert forall|j: int| i < j < updates.drop_last().len() implies updates.drop_last()[j].path@
            != updates.drop_last()[i].path@ by {
            assert(updates.drop_last()[j] == updates[j]);
        }
        law_recorded_file_is_up_to_date(m, updates.drop_last(), i, now);
        assert(updates.last() == updates[updates.len() - 1]);
    }
}

/// A file recorded with its modification time, saved and reloaded, is up
/// to date when checked again with that same time (its path being one the
/// metadata format can hold, like every other recorded path).
pub proof fn law_recorded_file_is_up_to_date_after_reload(
    keys: Seq<Seq<char>>,
    m: Map<Seq<char>, u128>,
    path: Seq<char>,
    nanos: u128,
    now: u128,
)
    requires
        keys.to_set() == m.insert(path, nanos).dom(),
        forall|i: int| 0 <= i < keys.len() ==> storable_path(#[trigger] keys[i]),
    ensures
        spec_check(
            spec_parse_metadata(spec_serialize(keys, m.insert(path, nanos))),
            path,
            Some(nanos),
            now,
        ) == FileStatus::UpToDate,
{
    law_metadata_round_trip(keys, m.insert(path, nanos));
}

/// A file is up to date exactly when its path is recorded with the very
/// modification time it has now; any other recorded time (older or newer),
/// or no record, makes it modified at its current time, and a time that
/// could not be read makes it modified now.
pub proof fn law_up_to_date_only_at_recorded_time(
    m: Map<Seq<char>, u128>,
    file: Seq<char>,
    current: u128,
    now: u128,
)
    ensures
        (spec_check(m, file, Some(current), now) == FileStatus::UpToDate) <==> (m.contains_key(
            file,
        ) && m[file] == current),
        (m.contains_key(file) && m[file] != current) ==> spec_check(m, file, Some(current), now)
            == FileStatus::Modified(current),
        !m.contains_key(file) ==> spec_check(m, file, Some(current), now) == FileStatus::Modified(
            current,
        ),
        spec_check(m, file, None, now) == FileStatus::Modified(now),
{
}

} // verus!
