//! Where an export lands: the destination root derived from a source root,
//! and how paths are shown.

use vstd::prelude::*;

use crate::error::ExportError;
use crate::export_branch_files::{spec_join, views};
use crate::text::{chars_of, lowercase, push_char, string_of, to_lowercase};

verus! {

/// The path conventions of the platform the export runs on.
#[derive(Debug, Clone, Copy, PartialEq, Eq, Structural)]
pub enum PathStyle {
    /// `/`-separated paths; the destination is used as given.
    Unix,
    /// Drive-prefixed paths separated by `\` or `/`; the source layout is
    /// mirrored under the destination.
    Windows,
}

/// A Windows path separator.
pub open spec fn is_separator(c: char) -> bool {
    c == '\\' || c == '/'
}

/// An ASCII letter.
pub open spec fn is_ascii_letter(c: char) -> bool {
    ('a' <= c && c <= 'z') || ('A' <= c && c <= 'Z')
}

/// `path` starts with a drive prefix such as `C:`.
pub open spec fn has_drive_prefix(path: Seq<char>) -> bool {
    path.len() >= 2 && is_ascii_letter(path[0]) && path[1] == ':'
}

/// The end of the path component of `s` that begins at `from`: the index of
/// the next separator (only `\` in a verbatim path), or the length of `s`.
pub open spec fn component_end(s: Seq<char>, from: int, verbatim: bool) -> int
    decreases s.len() - from,
{
    if from < 0 || from >= s.len() {
        s.len() as int
    } else if s[from] == '\\' || (!verbatim && s[from] == '/') {
        from
    } else {
        component_end(s, from + 1, verbatim)
    }
}

/// The length of the Windows path prefix that begins `s`, if it has one:
/// `\\?\UNC\server\share`, `\\?\C:`, `\\?\name` (verbatim forms, written
/// with `\` only), `\\.\device`, `\\server\share` (both parts non-empty), or
/// a drive such as `C:`.
pub open spec fn prefix_len(s: Seq<char>) -> Option<int> {
    if s.len() >= 2 && is_separator(s[0]) && is_separator(s[1]) {
        if s.len() >= 4 && s[0] == '\\' && s[1] == '\\' && s[2] == '?' && s[3] == '\\' {
            if s.len() >= 8 && s[4] == 'U' && s[5] == 'N' && s[6] == 'C' && is_separator(s[7]) {
                let server_end = component_end(s, 8, true);
                if server_end < s.len() && component_end(s, server_end + 1, true) > server_end
                    + 1 {
                    Some(component_end(s, server_end + 1, true))
                } else {
                    Some(server_end)
                }
            } else if s.len() >= 6 && is_ascii_letter(s[4]) && s[5] == ':' && (s.len() == 6
                || s[6] == '\\') {
                Some(6)
            } else {
                Some(component_end(s, 4, true))
            }
        } else if s.len() >= 4 && s[2] == '.' && is_separator(s[3]) {
            Some(component_end(s, 4, false))
        } else {
            let server_end = component_end(s, 2, false);
            if server_end > 2 && server_end < s.len() && component_end(s, server_end + 1, false)
                > server_end + 1 {
                Some(component_end(s, server_end + 1, false))
            } else {
                None
            }
        }
    } else if has_drive_prefix(s) {
        Some(2)
    } else {
        None
    }
}

/// `s` begins with a Windows path prefix.
pub open spec fn has_prefix(s: Seq<char>) -> bool {
    prefix_len(s) is Some
}

fn component_end_at(chars: &Vec<char>, from: usize, verbatim: bool) -> (e: usize)
    requires
        from <= chars@.len(),
    ensures
        e == component_end(chars@, from as int, verbatim),
        from <= e <= chars@.len(),
{
    let mut i = from;
    while i < chars.len() && chars[i] != '\\' && (verbatim || chars[i] != '/')
        invariant
            from <= i <= chars@.len(),
            component_end(chars@, from as int, verbatim) == component_end(chars@, i as int, verbatim),
        decreases chars@.len() - i,
    {
        i += 1;
    }
    i
}

fn sep_at(chars: &Vec<char>, i: usize) -> (r: bool)
    requires
        i < chars@.len(),
    ensures
        r == is_separator(chars@[i as int]),
{
    chars[i] == '\\' || chars[i] == '/'
}

fn letter_at(chars: &Vec<char>, i: usize) -> (r: bool)
    requires
        i < chars@.len(),
    ensures
        r == is_ascii_letter(chars@[i as int]),
{
    (chars[i] >= 'a' && chars[i] <= 'z') || (chars[i] >= 'A' && chars[i] <= 'Z')
}

/// The length of the Windows path prefix that begins `chars` (see
/// [`prefix_len`]).
fn prefix_length(chars: &Vec<char>) -> (r: Option<usize>)
    ensures
        match r {
            Some(n) => prefix_len(chars@) == Some(n as int) && n <= chars@.len(),
            None => prefix_len(chars@) is None,
        },
{
    let n = chars.len();
    if n >= 2 && sep_at(chars, 0) && sep_at(chars, 1) {
        if n >= 4 && chars[0] == '\\' && chars[1] == '\\' && chars[2] == '?' && chars[3] == '\\' {
            if n >= 8 && chars[4] == 'U' && chars[5] == 'N' && chars[6] == 'C' && sep_at(chars, 7) {
                let server_end = component_end_at(chars, 8, true);
                if server_end < n {
                    let share_end = component_end_at(chars, server_end + 1, true);
                    if share_end > server_end + 1 {
                        return Some(share_end);
                    }
                }
                Some(server_end)
            } else if n >= 6 && letter_at(chars, 4) && chars[5] == ':' && (n == 6 || chars[6]
                == '\\') {
                Some(6)
            } else {
                Some(component_end_at(chars, 4, true))
            }
        } else if n >= 4 && chars[2] == '.' && sep_at(chars, 3) {
            Some(component_end_at(chars, 4, false))
        } else {
            let server_end = component_end_at(chars, 2, false);
            if server_end > 2 && server_end < n {
                let share_end = component_end_at(chars, server_end + 1, false);
                if share_end > server_end + 1 {
                    return Some(share_end);
                }
            }
            None
        }
    } else if n >= 2 && letter_at(chars, 0) && chars[1] == ':' {
        Some(2)
    } else {
        None
    }
}

/// The pieces of `s` between separators (always at least one).
pub open spec fn split_separators(s: Seq<char>) -> Seq<Seq<char>>
    decreases s.len(),
{
    if s.len() == 0 {
        seq![Seq::<char>::empty()]
    } else {
        let p = split_separators(s.drop_last());
        if is_separator(s.last()) {
            p.push(Seq::<char>::empty())
        } else {
            p.update(p.len() - 1, p.last().push(s.last()))
        }
    }
}

/// The named components among `pieces`: empty pieces (from the root and
/// repeated separators) and `.` are dropped.
pub open spec fn named_components(pieces: Seq<Seq<char>>) -> Seq<Seq<char>>
    decreases pieces.len(),
{
    if pieces.len() == 0 {
        Seq::empty()
    } else {
        let r = named_components(pieces.drop_last());
        let last = pieces.last();
        if last.len() == 0 || last == seq!['.'] {
            r
        } else {
            r.push(last)
        }
    }
}

/// What follows the first `n` characters of `source` (its prefix), as a
/// relative path: its named components joined by `\`.
pub open spec fn relative_after(source: Seq<char>, n: int) -> Seq<char> {
    spec_join(named_components(split_separators(source.skip(n))), seq!['\\'])
}

/// `base` followed by `relative`, with a `\` between them unless `base` is
/// empty, ends with a separator or is a bare drive such as `R:`.
pub open spec fn join_windows(base: Seq<char>, relative: Seq<char>) -> Seq<char> {
    let need_separator = base.len() > 0 && !is_separator(base.last()) && !(base.len() == 2
        && has_drive_prefix(base));
    if need_separator {
        base + seq!['\\'] + relative
    } else {
        base + relative
    }
}

/// `path` pushed onto `base` as `PathBuf::push` does: an absolute path (on
/// Windows, one with a prefix) replaces `base`; on Windows a path with a
/// root but no prefix keeps only the prefix of `base`; otherwise `path` is
/// appended as a component (see [`join_windows`] for the separator).
pub open spec fn spec_push_path(base: Seq<char>, path: Seq<char>, style: PathStyle) -> Seq<char> {
    match style {
        PathStyle::Unix => if path.len() > 0 && path[0] == '/' {
            path
        } else if base.len() > 0 && base.last() != '/' {
            base + seq!['/'] + path
        } else {
            base + path
        },
        PathStyle::Windows => if has_prefix(path) {
            path
        } else if path.len() > 0 && is_separator(path[0]) {
            match prefix_len(base) {
                Some(n) => base.take(n) + path,
                None => path,
            }
        } else {
            join_windows(base, path)
        },
    }
}

/// The destination root of an export of `source` into `destination`: on
/// Windows what follows the source's prefix (drive, UNC share or verbatim
/// prefix), pushed onto `destination`; `None` when the source has no prefix.
pub open spec fn spec_destination_path(source: Seq<char>, destination: Seq<char>, style: PathStyle) -> Option<Seq<char>> {
    match style {
        PathStyle::Unix => Some(destination),
        PathStyle::Windows => match prefix_len(source) {
            Some(n) => Some(spec_push_path(destination, relative_after(source, n), style)),
            None => None,
        },
    }
}

fn components_after(chars: &Vec<char>, first: usize) -> (parts: Vec<String>)
    requires
        first <= chars@.len(),
    ensures
        parts@.map_values(|s: String| s@) == named_components(split_separators(chars@.skip(first as int))),
{
    let mut parts: Vec<String> = Vec::new();
    let mut start: usize = first;
    let mut i: usize = first;
    let ghost mut done: Seq<Seq<char>> = Seq::empty();
    proof {
        assert(chars@.subrange(first as int, first as int) =~= Seq::<char>::empty());
        assert(chars@.skip(first as int).take(0) =~= Seq::<char>::empty());
        assert(split_separators(chars@.skip(first as int).take(0)) =~= done.push(chars@.subrange(first as int, first as int)));
        assert(parts@.map_values(|s: String| s@) =~= named_components(done));
    }
    while i < chars.len()
        invariant
            first <= start <= i <= chars@.len(),
            split_separators(chars@.skip(first as int).take(i - first)) == done.push(
                chars@.subrange(start as int, i as int),
            ),
            parts@.map_values(|s: String| s@) == named_components(done),
        decreases chars@.len() - i,
    {
        let c = chars[i];
        proof {
            assert(chars@.skip(first as int).take(i - first + 1).drop_last() =~= chars@.skip(first as int).take(i - first));
            assert(chars@.skip(first as int).take(i - first + 1).last() == c);
        }
        if c == '\\' || c == '/' {
            let ghost piece = chars@.subrange(start as int, i as int);
            let ghost before = parts@;
            let is_dot = i == start + 1 && chars[start] == '.';
            if i > start && !is_dot {
                parts.push(string_of(chars.as_slice(), start, i));
            }
            proof {
                if is_dot {
                    assert(piece =~= seq!['.']);
                }
                if piece == seq!['.'] {
                    assert(piece.len() == 1 && piece[0] == '.');
                }
                assert(done.push(piece).drop_last() =~= done);
                if i > start && !is_dot {
                    assert(parts@.map_values(|s: String| s@) =~= before.map_values(|s: String| s@).push(piece));
                }
                done = done.push(piece);
                assert(chars@.subrange((i + 1) as int, (i + 1) as int) =~= Seq::<char>::empty());
            }
            start = i + 1;
        } else {
            proof {
                assert(chars@.subrange(start as int, i + 1) =~= chars@.subrange(start as int, i as int).push(c));
            }
        }
        i += 1;
    }
    let ghost piece = chars@.subrange(start as int, chars@.len() as int);
    proof {
        assert(chars@.skip(first as int).take(chars@.len() - first) =~= chars@.skip(first as int));
    }
    let ghost before = parts@;
    let is_dot = chars.len() - start == 1 && chars[start] == '.';
    if chars.len() > start && !is_dot {
        parts.push(string_of(chars.as_slice(), start, chars.len()));
    }
    proof {
        if is_dot {
            assert(piece =~= seq!['.']);
        }
        if piece == seq!['.'] {
            assert(piece.len() == 1 && piece[0] == '.');
        }
        assert(done.push(piece).drop_last() =~= done);
        if chars.len() > start && !is_dot {
            assert(parts@.map_values(|s: String| s@) =~= before.map_values(|s: String| s@).push(piece));
        }
    }
    parts
}

/// Builds the destination root for an export.
///
/// With [`PathStyle::Windows`], `destination` is used as a root and the
/// source layout minus its prefix is mirrored underneath it: the prefix
/// (drive) of the source is stripped, the rest is taken as a relative path and joined
/// onto `destination`. Examples:
///
/// - `-s L:\trunk\frente -d R:\` → `R:\trunk\frente`
/// - `-s L:\trunk\frente -d R:\Trunk2` → `R:\Trunk2\trunk\frente`
/// - `-s T:\new -d L:\trunk2\` → `L:\trunk2\new`
///
/// The prefix may also be a UNC share (`\\server\share\dir` with `R:\`
/// gives `R:\dir`) or a verbatim prefix (`\\?\C:\x` gives `R:\x`). A source
/// without a prefix fails with [`ExportError::MissingDrivePrefix`]. With
/// [`PathStyle::Unix`] the
/// destination is used as given.
pub fn destination_path(raw_source: &str, destination: &str, style: PathStyle) -> (r: Result<
    String,
    ExportError,
>)
    ensures
        match spec_destination_path(raw_source@, destination@, style) {
            Some(path) => r matches Ok(p) && p@ == path,
            None => r matches Err(ExportError::MissingDrivePrefix(p)) && p@ == raw_source@,
        },
{
    match style {
        PathStyle::Unix => Ok(String::from_str(destination)),
        PathStyle::Windows => {
            let chars = chars_of(raw_source);
            let n = match prefix_length(&chars) {
                Some(n) => n,
                None => {
                    return Err(ExportError::MissingDrivePrefix(String::from_str(raw_source)));
                },
            };
            let parts = components_after(&chars, n);
            let relative = crate::export_branch_files::join(parts.as_slice(), "\\");
            proof {
                reveal_strlit("\\");
                assert("\\"@ =~= seq!['\\']);
            }
            Ok(join_path(destination, relative.as_str(), PathStyle::Windows))
        },
    }
}

/// A path separator of `style`: `/`, and on Windows `\` as well.
pub open spec fn is_style_separator(c: char, style: PathStyle) -> bool {
    match style {
        PathStyle::Unix => c == '/',
        PathStyle::Windows => is_separator(c),
    }
}

/// `s` without its leading separators.
pub open spec fn skip_separators(s: Seq<char>, style: PathStyle) -> Seq<char>
    decreases s.len(),
{
    if s.len() > 0 && is_style_separator(s[0], style) {
        skip_separators(s.skip(1), style)
    } else {
        s
    }
}

/// `path` lies at or below `root`: the text of `root` starts it and ends at
/// a component boundary (a separator, or on Windows a bare drive such as
/// `R:`).
pub open spec fn is_below(path: Seq<char>, root: Seq<char>, style: PathStyle) -> bool {
    &&& root.len() <= path.len()
    &&& path.take(root.len() as int) == root
    &&& (path.len() == root.len() || is_style_separator(path[root.len() as int], style) || (
    root.len() > 0 && is_style_separator(root.last(), style)) || (style == PathStyle::Windows
        && root.len() == 2 && has_drive_prefix(root)))
}

/// Pushes `path` onto `base` as `PathBuf::push` does (see
/// [`spec_push_path`]).
pub fn join_path(base: &str, path: &str, style: PathStyle) -> (r: String)
    ensures
        r@ == spec_push_path(base@, path@, style),
{
    let chars = chars_of(base);
    let tail = chars_of(path);
    let n = chars.len();
    match style {
        PathStyle::Unix => {
            if tail.len() > 0 && tail[0] == '/' {
                return String::from_str(path);
            }
        },
        PathStyle::Windows => {
            if prefix_length(&tail).is_some() {
                return String::from_str(path);
            }
            if tail.len() > 0 && sep_at(&tail, 0) {
                match prefix_length(&chars) {
                    Some(k) => {
                        let mut out = string_of(chars.as_slice(), 0, k);
                        out.append(path);
                        proof {
                            assert(chars@.subrange(0, k as int) =~= chars@.take(k as int));
                        }
                        return out;
                    },
                    None => {
                        return String::from_str(path);
                    },
                }
            }
        },
    }
    let mut out = String::from_str(base);
    let needs_separator = match style {
        PathStyle::Unix => n > 0 && chars[n - 1] != '/',
        PathStyle::Windows => n > 0 && chars[n - 1] != '\\' && chars[n - 1] != '/' && !(n == 2
            && starts_with_drive(&chars)),
    };
    proof {
        if n > 0 {
            assert(chars@.last() == chars@[n - 1]);
        }
    }
    if needs_separator {
        match style {
            PathStyle::Unix => push_char(&mut out, '/'),
            PathStyle::Windows => push_char(&mut out, '\\'),
        }
    }
    out.append(path);
    out
}

/// Where a file or directory lands under `--lower`: the part of the path
/// below the destination root (the whole path when it is not below it) is
/// lowercased and pushed onto the root, which is kept as given.
pub open spec fn spec_format_lower(
    destination: Seq<char>,
    raw_destination: Seq<char>,
    lower: bool,
    style: PathStyle,
) -> Seq<char> {
    if !lower {
        destination
    } else {
        let tail = if is_below(destination, raw_destination, style) {
            skip_separators(destination.skip(raw_destination.len() as int), style)
        } else {
            destination
        };
        spec_push_path(raw_destination, lowercase(tail), style)
    }
}

fn is_separator_of(c: char, style: PathStyle) -> (r: bool)
    ensures
        r == is_style_separator(c, style),
{
    match style {
        PathStyle::Unix => c == '/',
        PathStyle::Windows => c == '\\' || c == '/',
    }
}

fn starts_with_chars(path: &Vec<char>, root: &Vec<char>) -> (r: bool)
    ensures
        r == (root@.len() <= path@.len() && path@.take(root@.len() as int) == root@),
{
    if root.len() > path.len() {
        return false;
    }
    let mut i: usize = 0;
    while i < root.len()
        invariant
            i <= root@.len() <= path@.len(),
            forall|j: int| 0 <= j < i ==> path@[j] == root@[j],
        decreases root@.len() - i,
    {
        if path[i] != root[i] {
            proof {
                assert(path@.take(root@.len() as int)[i as int] == path@[i as int]);
            }
            return false;
        }
        i += 1;
    }
    assert(path@.take(root@.len() as int) =~= root@);
    true
}

proof fn lemma_skip_separators_step(path: Seq<char>, k: int, style: PathStyle)
    requires
        0 <= k < path.len(),
        is_style_separator(path[k], style),
    ensures
        skip_separators(path.skip(k), style) == skip_separators(path.skip(k + 1), style),
{
    assert(path.skip(k)[0] == path[k]);
    assert(path.skip(k).skip(1) =~= path.skip(k + 1));
}

/// The destination of a file or directory under `--lower` (see
/// [`spec_format_lower`]): `R:\Trunk\Frente\Foo.PRG` below the root `R:\Trunk`
/// becomes `R:\Trunk\frente\foo.prg`; without `--lower` the path is kept.
pub fn format_lower(destination: &str, raw_destination: &str, lower: bool, style: PathStyle) -> (r:
    String)
    ensures
        r@ == spec_format_lower(destination@, raw_destination@, lower, style),
{
    if !lower {
        return String::from_str(destination);
    }
    let path = chars_of(destination);
    let root = chars_of(raw_destination);
    let bare_drive = style == PathStyle::Windows && root.len() == 2 && starts_with_drive(&root);
    let below = starts_with_chars(&path, &root) && (path.len() == root.len() || is_separator_of(
        path[root.len()],
        style,
    ) || (root.len() > 0 && is_separator_of(root[root.len() - 1], style)) || bare_drive);
    proof {
        if root@.len() > 0 {
            assert(root@.last() == root@[root@.len() - 1]);
        }
    }
    if !below {
        let lowered = to_lowercase(destination);
        return join_path(raw_destination, lowered.as_str(), style);
    }
    let mut k: usize = root.len();
    while k < path.len() && is_separator_of(path[k], style)
        invariant
            root@.len() <= k <= path@.len(),
            skip_separators(path@.skip(root@.len() as int), style) == skip_separators(
                path@.skip(k as int),
                style,
            ),
        decreases path@.len() - k,
    {
        proof {
            lemma_skip_separators_step(path@, k as int, style);
        }
        k += 1;
    }
    proof {
        assert(path@.subrange(k as int, path@.len() as int) =~= path@.skip(k as int));
        if path@.skip(k as int).len() > 0 {
            assert(path@.skip(k as int)[0] == path@[k as int]);
        }
    }
    let rest = string_of(path.as_slice(), k, path.len());
    let lowered = to_lowercase(rest.as_str());
    join_path(raw_destination, lowered.as_str(), style)
}

/// `item` with the prefix (drive) of `first` put in front of it when it has
/// none.
pub open spec fn with_drive_of(item: Seq<char>, first: Seq<char>) -> Seq<char> {
    if has_prefix(item) {
        item
    } else {
        match prefix_len(first) {
            Some(n) => first.take(n) + item,
            None => item,
        }
    }
}

/// The source roots once drives are inherited: with [`PathStyle::Windows`]
/// every item without a prefix takes the prefix (drive) of the first item,
/// which must have one (`None` when it does not). With [`PathStyle::Unix`]
/// the items are kept as given.
pub open spec fn spec_inherit_drive(sources: Seq<Seq<char>>, style: PathStyle) -> Option<
    Seq<Seq<char>>,
> {
    match style {
        PathStyle::Unix => Some(sources),
        PathStyle::Windows => if sources.len() == 0 {
            Some(sources)
        } else if !has_prefix(sources[0]) {
            None
        } else {
            Some(sources.map_values(|item: Seq<char>| with_drive_of(item, sources[0])))
        },
    }
}

fn copy_strings(items: &Vec<String>) -> (out: Vec<String>)
    ensures
        views(out@) == views(items@),
{
    let mut out: Vec<String> = Vec::new();
    let mut i: usize = 0;
    while i < items.len()
        invariant
            i <= items@.len(),
            views(out@) == views(items@.take(i as int)),
        decreases items@.len() - i,
    {
        out.push(items[i].clone());
        proof {
            assert(views(items@.take(i + 1)) =~= views(items@.take(i as int)).push(items@[i as int]@));
        }
        i += 1;
        assert(views(out@) =~= views(items@.take(i as int)));
    }
    assert(items@.take(items@.len() as int) =~= items@);
    out
}

fn starts_with_drive(chars: &Vec<char>) -> (r: bool)
    ensures
        r == has_drive_prefix(chars@),
{
    chars.len() >= 2 && ((chars[0] >= 'a' && chars[0] <= 'z') || (chars[0] >= 'A' && chars[0]
        <= 'Z')) && chars[1] == ':'
}

/// Resolves the drives of the source roots (see [`spec_inherit_drive`]):
/// on Windows `T:\new;\src;\include` stands for `T:\new;T:\src;T:\include`.
/// Fails with [`ExportError::MissingDrivePrefix`], naming the first item,
/// when that item has no drive.
pub fn inherit_drive(sources: &Vec<String>, style: PathStyle) -> (r: Result<
    Vec<String>,
    ExportError,
>)
    ensures
        match spec_inherit_drive(views(sources@), style) {
            Some(v) => r matches Ok(out) && views(out@) == v,
            None => r matches Err(ExportError::MissingDrivePrefix(p)) && p@ == sources@[0]@,
        },
{
    if style == PathStyle::Unix || sources.len() == 0 {
        let out = copy_strings(sources);
        return Ok(out);
    }
    let first = chars_of(sources[0].as_str());
    let k = match prefix_length(&first) {
        Some(k) => k,
        None => {
            return Err(ExportError::MissingDrivePrefix(sources[0].clone()));
        },
    };
    let drive = string_of(first.as_slice(), 0, k);
    proof {
        assert(first@.subrange(0, k as int) =~= first@.take(k as int));
    }
    let ghost f = sources@[0]@;
    let mut out: Vec<String> = Vec::new();
    let mut i: usize = 0;
    while i < sources.len()
        invariant
            i <= sources@.len(),
            sources@.len() > 0,
            f == sources@[0]@,
            prefix_len(f) == Some(k as int),
            drive@ == f.take(k as int),
            views(out@) == views(sources@.take(i as int)).map_values(
                |item: Seq<char>| with_drive_of(item, f),
            ),
        decreases sources@.len() - i,
    {
        let item = chars_of(sources[i].as_str());
        let resolved = if prefix_length(&item).is_some() {
            sources[i].clone()
        } else {
            let mut s = drive.clone();
            s.append(sources[i].as_str());
            s
        };
        let ghost before = out@;
        out.push(resolved);
        proof {
            assert(views(sources@.take(i + 1)) =~= views(sources@.take(i as int)).push(sources@[i as int]@));
            assert(views(out@) =~= views(before).push(with_drive_of(sources@[i as int]@, f)));
        }
        i += 1;
        assert(views(out@) =~= views(sources@.take(i as int)).map_values(
            |item: Seq<char>| with_drive_of(item, f),
        ));
    }
    proof {
        assert(sources@.take(sources@.len() as int) =~= sources@);
        assert(views(sources@)[0] == f);
    }
    Ok(out)
}

/// How a source path is shown: with [`PathStyle::Windows`] the verbatim
/// prefix `\\?\` that canonical paths carry is left out.
pub open spec fn spec_source_path_display(path: Seq<char>, style: PathStyle) -> Seq<char> {
    let verbatim = seq!['\\', '\\', '?', '\\'];
    if style == PathStyle::Windows && path.len() >= 4 && path.take(4) == verbatim {
        path.skip(4)
    } else {
        path
    }
}

/// How a source path is shown in the per-file lines.
pub fn source_path_display(path: &str, style: PathStyle) -> (shown: String)
    ensures
        shown@ == spec_source_path_display(path@, style),
{
    let chars = chars_of(path);
    if style == PathStyle::Windows && chars.len() >= 4 && chars[0] == '\\' && chars[1] == '\\'
        && chars[2] == '?' && chars[3] == '\\' {
        assert(chars@.take(4) =~= seq!['\\', '\\', '?', '\\']);
        assert(chars@.subrange(4, chars@.len() as int) =~= chars@.skip(4));
        string_of(chars.as_slice(), 4, chars.len())
    } else {
        proof {
            if style == PathStyle::Windows && chars@.len() >= 4 && chars@.take(4) == seq!['\\', '\\', '?', '\\'] {
                assert(chars@.take(4)[0] == chars@[0]);
                assert(chars@.take(4)[1] == chars@[1]);
                assert(chars@.take(4)[2] == chars@[2]);
                assert(chars@.take(4)[3] == chars@[3]);
            }
        }
        String::from_str(path)
    }
}

/// A path that begins with an ASCII letter, of either case, and `:` has a
/// drive prefix of two characters.
pub proof fn law_drive_letter_is_prefix(s: Seq<char>)
    requires
        s.len() >= 2,
        ('a' <= s[0] && s[0] <= 'z') || ('A' <= s[0] && s[0] <= 'Z'),
        s[1] == ':',
    ensures
        prefix_len(s) == Some(2int),
{
}

/// On Windows a source on a drive lands under the destination with its
/// drive stripped, whatever the case of the drive letter: `c:\x` and
/// `C:\x` (or any other drive) give the same destination, the rest of the
/// source pushed onto the destination.
pub proof fn law_drive_case_does_not_matter(
    rest: Seq<char>,
    destination: Seq<char>,
    lower: char,
    upper: char,
)
    requires
        'a' <= lower && lower <= 'z',
        'A' <= upper && upper <= 'Z',
    ensures
        spec_destination_path(seq![lower, ':'] + rest, destination, PathStyle::Windows)
            == spec_destination_path(seq![upper, ':'] + rest, destination, PathStyle::Windows),
        spec_destination_path(seq![upper, ':'] + rest, destination, PathStyle::Windows) == Some(
            spec_push_path(
                destination,
                spec_join(named_components(split_separators(rest)), seq!['\\']),
                PathStyle::Windows,
            ),
        ),
{
    let sl = seq![lower, ':'] + rest;
    let su = seq![upper, ':'] + rest;
    law_drive_letter_is_prefix(sl);
    law_drive_letter_is_prefix(su);
    assert(sl.skip(2) =~= rest);
    assert(su.skip(2) =~= rest);
}

} // verus!
