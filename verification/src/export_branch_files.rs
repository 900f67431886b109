//! Glob patterns: their translation to anchored regular expressions, the
//! per-source override files that replace the defaults, and matching file
//! names against a compiled set.

use vstd::prelude::*;

use regex::RegexSet;

use crate::error::ExportError;
use crate::text::{chars_of, push_char, split_on, string_of};

verus! {

/// `regex::RegexSet`: a compiled set of regular expressions.
#[verifier::external_type_specification]
#[verifier::external_body]
pub struct ExRegexSet(regex::RegexSet);

/// The patterns a `RegexSet` was built from, in the order given.
pub uninterp spec fn regex_set_patterns(set: RegexSet) -> Seq<Seq<char>>;

/// Whether `RegexSet::new` accepts the given patterns.
pub uninterp spec fn regex_set_builds(patterns: Seq<Seq<char>>) -> bool;

/// Whether some regular expression of a set that `RegexSet::new` built
/// from `patterns` (with the builder's default options) matches somewhere in
/// `haystack`.
pub uninterp spec fn regex_set_is_match(patterns: Seq<Seq<char>>, haystack: Seq<char>) -> bool;

/// The views of a list of strings.
pub open spec fn views(strings: Seq<String>) -> Seq<Seq<char>> {
    strings.map_values(|s: String| s@)
}

/// Calls `RegexSet::new`. Its source builds the set through
/// `RegexSetBuilder::build`, which keeps the given patterns, in order, as the
/// set's `patterns()`; whether it succeeds depends on the patterns alone
/// (their syntax and the builder's default size limits). The error value
/// returned on failure is not described.
#[verifier::external_body]
fn regex_set_new(patterns: &Vec<String>) -> (r: Result<RegexSet, regex::Error>)
    ensures
        r is Ok <==> regex_set_builds(views(patterns@)),
        r matches Ok(set) ==> regex_set_patterns(set) == views(patterns@),
{
    RegexSet::new(patterns)
}

/// A compiled set of anchored glob regexes. Only [`checked_to_regex_set`]
/// builds one, always through `RegexSet::new`, so the set matches as the
/// default options of the `regex` crate make its patterns match.
pub struct GlobSet {
    set: RegexSet,
    regexes: Vec<String>,
}

impl GlobSet {
    /// The set was built from the kept regex texts.
    #[verifier::type_invariant]
    spec fn built_from_regexes(self) -> bool {
        regex_set_patterns(self.set) == views(self.regexes@)
    }

    /// The regular expressions of the set, in order.
    pub closed spec fn regexes(&self) -> Seq<Seq<char>> {
        views(self.regexes@)
    }

    /// Calls `RegexSet::is_match` on the set, which `RegexSet::new` built:
    /// whether one of its expressions matches somewhere in `haystack`. The
    /// documentation of `RegexSet::empty` states that an empty set matches
    /// nothing.
    #[verifier::external_body]
    fn set_is_match(&self, haystack: &str) -> (r: bool)
        ensures
            r == regex_set_is_match(regex_set_patterns(self.set), haystack@),
            regex_set_patterns(self.set).len() == 0 ==> !r,
    {
        self.set.is_match(haystack)
    }

    /// Whether one of the set's expressions matches somewhere in `haystack`.
    pub fn is_match(&self, haystack: &str) -> (r: bool)
        ensures
            r == regex_set_is_match(self.regexes(), haystack@),
            self.regexes().len() == 0 ==> !r,
    {
        proof {
            use_type_invariant(self);
        }
        self.set_is_match(haystack)
    }

    /// The regular expressions of the set, in order.
    pub fn patterns(&self) -> (r: &Vec<String>)
        ensures
            views(r@) == self.regexes(),
    {
        &self.regexes
    }

    /// The number of expressions in the set.
    pub fn len(&self) -> (n: usize)
        ensures
            n == self.regexes().len(),
    {
        self.regexes.len()
    }
}

/// The regular-expression text that stands for one glob character: `.` is
/// escaped, `*` matches any run of characters, anything else stands for
/// itself.
pub open spec fn glob_char_regex(c: char) -> Seq<char> {
    if c == '.' {
        seq!['\\', '.']
    } else if c == '*' {
        seq!['.', '*']
    } else {
        seq![c]
    }
}

/// The regular-expression text of the body of a glob.
pub open spec fn glob_body_regex(glob: Seq<char>) -> Seq<char>
    decreases glob.len(),
{
    if glob.len() == 0 {
        Seq::empty()
    } else {
        glob_body_regex(glob.drop_last()) + glob_char_regex(glob.last())
    }
}

/// The regular expression a glob compiles to: its body, anchored at both
/// ends, so that `*.h` matches `foo.h` but not `foo.html`.
pub open spec fn spec_glob_regex(glob: Seq<char>) -> Seq<char> {
    seq!['^'] + glob_body_regex(glob) + seq!['$']
}

/// The regular expressions of a list of globs.
pub open spec fn globs_regexes(globs: Seq<Seq<char>>) -> Seq<Seq<char>> {
    globs.map_values(|g: Seq<char>| spec_glob_regex(g))
}

/// The items of `parts` joined by `sep`.
pub open spec fn spec_join(parts: Seq<Seq<char>>, sep: Seq<char>) -> Seq<char>
    decreases parts.len(),
{
    if parts.len() == 0 {
        Seq::empty()
    } else if parts.len() == 1 {
        parts[0]
    } else {
        spec_join(parts.drop_last(), sep) + sep + parts.last()
    }
}

/// Translates a glob into an anchored regular expression.
pub fn glob_to_regex(glob: &str) -> (r: String)
    ensures
        r@ == spec_glob_regex(glob@),
{
    let chars = chars_of(glob);
    let mut r = String::new();
    push_char(&mut r, '^');
    let mut i: usize = 0;
    while i < chars.len()
        invariant
            i <= chars@.len(),
            chars@ == glob@,
            r@ == seq!['^'] + glob_body_regex(chars@.take(i as int)),
        decreases chars@.len() - i,
    {
        let c = chars[i];
        if c == '.' {
            push_char(&mut r, '\\');
            push_char(&mut r, '.');
        } else if c == '*' {
            push_char(&mut r, '.');
            push_char(&mut r, '*');
        } else {
            push_char(&mut r, c);
        }
        proof {
            assert(chars@.take(i + 1).drop_last() =~= chars@.take(i as int));
            assert(chars@.take(i + 1).last() == c);
        }
        i += 1;
        assert(r@ =~= seq!['^'] + glob_body_regex(chars@.take(i as int)));
    }
    push_char(&mut r, '$');
    assert(chars@.take(chars@.len() as int) =~= chars@);
    r
}

/// The items of `parts` joined by `sep`.
pub fn join(parts: &[String], sep: &str) -> (r: String)
    ensures
        r@ == spec_join(views(parts@), sep@),
{
    let mut r = String::new();
    let mut i: usize = 0;
    while i < parts.len()
        invariant
            i <= parts@.len(),
            r@ == spec_join(views(parts@.take(i as int)), sep@),
        decreases parts@.len() - i,
    {
        if i > 0 {
            r.append(sep);
        }
        r.append(parts[i].as_str());
        proof {
            let v = views(parts@.take(i + 1));
            assert(v.drop_last() =~= views(parts@.take(i as int)));
            assert(v.last() == parts@[i as int]@);
            if i == 0 {
                assert(views(parts@.take(0)) =~= Seq::<Seq<char>>::empty());
                assert(r@ =~= v[0]);
            }
        }
        i += 1;
    }
    proof {
        assert(parts@.take(parts@.len() as int) =~= parts@);
    }
    r
}

/// Compiles a list of globs into a set of anchored regular expressions.
/// Fails with [`ExportError::InvalidGlob`], naming all the globs joined by
/// `,`, when `RegexSet::new` refuses the expressions.
pub fn checked_to_regex_set(checked: &[String]) -> (r: Result<GlobSet, ExportError>)
    ensures
        match r {
            Ok(set) => set.regexes() == globs_regexes(views(checked@)) && regex_set_builds(
                globs_regexes(views(checked@)),
            ),
            Err(ExportError::InvalidGlob { pattern, .. }) => !regex_set_builds(
                globs_regexes(views(checked@)),
            ) && pattern@ == spec_join(views(checked@), ","@),
            Err(_) => false,
        },
{
    let mut patterns: Vec<String> = Vec::new();
    let mut i: usize = 0;
    while i < checked.len()
        invariant
            i <= checked@.len(),
            patterns@.len() == i,
            views(patterns@) == globs_regexes(views(checked@.take(i as int))),
        decreases checked@.len() - i,
    {
        let regex = glob_to_regex(checked[i].as_str());
        let ghost prev = patterns@;
        patterns.push(regex);
        proof {
            let want = globs_regexes(views(checked@.take(i + 1)));
            assert forall|j: int| 0 <= j < i + 1 implies #[trigger] views(patterns@)[j] == want[j] by {
                if j < i {
                    assert(patterns@[j] == prev[j]);
                    assert(views(prev)[j] == globs_regexes(views(checked@.take(i as int)))[j]);
                }
            }
            assert(views(patterns@) =~= want);
        }
        i += 1;
    }
    assert(checked@.take(checked@.len() as int) =~= checked@);
    match regex_set_new(&patterns) {
        Ok(set) => Ok(GlobSet { set, regexes: patterns }),
        Err(source) => {
            let pattern = join(checked, ",");
            proof {
                reveal_strlit(",");
            }
            Err(ExportError::InvalidGlob { pattern, source })
        },
    }
}

/// Whether a file whose name (the last component of its path, `None` when
/// the path has none) is `file_name` is selected by `filters`.
pub fn file_match(file_name: Option<&str>, filters: &GlobSet) -> (r: bool)
    ensures
        r == match file_name {
            Some(name) => regex_set_is_match(filters.regexes(), name@),
            None => false,
        },
{
    match file_name {
        Some(name) => filters.is_match(name),
        None => false,
    }
}

/// Name of the per-source file whose globs replace the file filters.
pub const FILE_FILTERS_FILE: &'static str = "filtrosarquivos.exb";

/// Name of the per-source file whose globs also replace the file filters
/// (used when [`FILE_FILTERS_FILE`] is absent).
pub const FILE_EXTENSIONS_FILE: &'static str = "extecoesarquivos.exb";

/// Name of the per-source file whose globs are copied byte for byte.
pub const ONLY_COPY_FILE: &'static str = "extecoesapenascopiar.exb";

/// Name of the per-source file whose globs are copied without converting
/// accented characters.
pub const DO_NOT_CONVERT_FILE: &'static str = "naoconverteacentos.exb";

/// `s` without its `\n` and `\r` characters.
pub open spec fn strip_newlines(s: Seq<char>) -> Seq<char>
    decreases s.len(),
{
    if s.len() == 0 {
        Seq::empty()
    } else {
        let r = strip_newlines(s.drop_last());
        if s.last() == '\n' || s.last() == '\r' {
            r
        } else {
            r.push(s.last())
        }
    }
}

/// The non-empty items of `items`, in order.
pub open spec fn keep_nonempty(items: Seq<Seq<char>>) -> Seq<Seq<char>>
    decreases items.len(),
{
    if items.len() == 0 {
        Seq::empty()
    } else {
        let r = keep_nonempty(items.drop_last());
        if items.last().len() > 0 {
            r.push(items.last())
        } else {
            r
        }
    }
}

/// The globs listed by an override file: its text split at `;`, each item
/// stripped of line breaks, empty items dropped.
pub open spec fn spec_config_list(text: Seq<char>) -> Seq<Seq<char>> {
    keep_nonempty(split_on(text, ';').map_values(|p: Seq<char>| strip_newlines(p)))
}

/// Reads the globs listed by the text of an override file.
pub fn parse_config_list(contents: &str) -> (list: Vec<String>)
    ensures
        views(list@) == spec_config_list(contents@),
{
    let chars = chars_of(contents);
    let mut list: Vec<String> = Vec::new();
    let mut current = String::new();
    let ghost mut done: Seq<Seq<char>> = Seq::empty();
    let ghost mut raw: Seq<char> = Seq::empty();
    let mut i: usize = 0;
    proof {
        assert(chars@.take(0) =~= Seq::<char>::empty());
        assert(split_on(chars@.take(0), ';') =~= done.push(raw));
        assert(views(list@) =~= keep_nonempty(done.map_values(|p: Seq<char>| strip_newlines(p))));
    }
    while i < chars.len()
        invariant
            i <= chars@.len(),
            split_on(chars@.take(i as int), ';') == done.push(raw),
            current@ == strip_newlines(raw),
            views(list@) == keep_nonempty(done.map_values(|p: Seq<char>| strip_newlines(p))),
        decreases chars@.len() - i,
    {
        let c = chars[i];
        proof {
            assert(chars@.take(i + 1).drop_last() =~= chars@.take(i as int));
            assert(chars@.take(i + 1).last() == c);
        }
        if c == ';' {
            let ghost before = list@;
            if !current.as_str().is_empty() {
                list.push(current);
            }
            proof {
                let stripped = done.map_values(|p: Seq<char>| strip_newlines(p));
                assert(done.push(raw).map_values(|p: Seq<char>| strip_newlines(p)) =~= stripped.push(
                    strip_newlines(raw),
                ));
                assert(done.push(raw).map_values(|p: Seq<char>| strip_newlines(p)).drop_last()
                    =~= stripped);
                if strip_newlines(raw).len() > 0 {
                    assert(views(list@) =~= views(before).push(strip_newlines(raw)));
                }
                done = done.push(raw);
                raw = Seq::empty();
            }
            current = String::new();
        } else {
            if c != '\n' && c != '\r' {
                push_char(&mut current, c);
            }
            proof {
                assert(raw.push(c).drop_last() =~= raw);
                raw = raw.push(c);
            }
        }
        i += 1;
    }
    proof {
        assert(chars@.take(chars@.len() as int) =~= chars@);
    }
    let ghost before = list@;
    if !current.as_str().is_empty() {
        list.push(current);
    }
    proof {
        let stripped = done.map_values(|p: Seq<char>| strip_newlines(p));
        assert(done.push(raw).map_values(|p: Seq<char>| strip_newlines(p)) =~= stripped.push(
            strip_newlines(raw),
        ));
        assert(done.push(raw).map_values(|p: Seq<char>| strip_newlines(p)).drop_last() =~= stripped);
        if strip_newlines(raw).len() > 0 {
            assert(views(list@) =~= views(before).push(strip_newlines(raw)));
        }
    }
    list
}

/// The globs read from the override files at the root of a source
/// directory; `None` for a file that is absent.
pub struct SourceOverrides {
    /// Contents of [`FILE_FILTERS_FILE`].
    pub file_filters: Option<Vec<String>>,
    /// Contents of [`FILE_EXTENSIONS_FILE`].
    pub file_extensions: Option<Vec<String>>,
    /// Contents of [`ONLY_COPY_FILE`].
    pub only_copy: Option<Vec<String>>,
    /// Contents of [`DO_NOT_CONVERT_FILE`].
    pub do_not_convert: Option<Vec<String>>,
}

/// The views of an optional list of strings (empty when absent).
pub open spec fn opt_views(list: Option<Vec<String>>) -> Seq<Seq<char>> {
    match list {
        Some(l) => views(l@),
        None => Seq::empty(),
    }
}

/// The file filters in force for a source: those of the filters override
/// file, else those of the extensions override file, else the defaults.
pub open spec fn selected_filters(o: SourceOverrides, defaults: Seq<Seq<char>>) -> Seq<Seq<char>> {
    match o.file_filters {
        Some(l) => views(l@),
        None => match o.file_extensions {
            Some(l) => views(l@),
            None => defaults,
        },
    }
}

/// The only-copy globs in force for a source: those of the only-copy and
/// do-not-convert override files together, or the defaults when these
/// list none.
pub open spec fn selected_only_copy(o: SourceOverrides, defaults: Seq<Seq<char>>) -> Seq<Seq<char>> {
    let listed = opt_views(o.only_copy) + opt_views(o.do_not_convert);
    if listed.len() == 0 {
        defaults
    } else {
        listed
    }
}

fn append_all(target: &mut Vec<String>, items: &Option<Vec<String>>)
    ensures
        views(final(target)@) == views(old(target)@) + opt_views(*items),
{
    match items {
        Some(list) => {
            let mut i: usize = 0;
            while i < list.len()
                invariant
                    i <= list@.len(),
                    views(target@) == views(old(target)@) + views(list@.take(i as int)),
                decreases list@.len() - i,
            {
                let ghost prev = target@;
                target.push(list[i].clone());
                proof {
                    assert(views(target@) =~= views(prev).push(list@[i as int]@));
                    assert(views(list@.take(i + 1)) =~= views(list@.take(i as int)).push(list@[i as int]@));
                }
                i += 1;
                assert(views(target@) =~= views(old(target)@) + views(list@.take(i as int)));
            }
            assert(list@.take(list@.len() as int) =~= list@);
        },
        None => {
            assert(views(target@) =~= views(old(target)@) + opt_views(*items));
        },
    }
}

/// Compiles the file filters and the only-copy globs in force for a source
/// (see [`selected_filters`] and [`selected_only_copy`]).
pub fn check_configuration_file(
    overrides: &SourceOverrides,
    default_file_filters: &[String],
    default_only_copy: &[String],
) -> (r: Result<(GlobSet, GlobSet), ExportError>)
    ensures
        ({
            let filters = selected_filters(*overrides, views(default_file_filters@));
            let copy = selected_only_copy(*overrides, views(default_only_copy@));
            match r {
                Ok((f, c)) => f.regexes() == globs_regexes(filters) && c.regexes() == globs_regexes(
                    copy,
                ) && regex_set_builds(globs_regexes(filters)) && regex_set_builds(
                    globs_regexes(copy),
                ),
                Err(ExportError::InvalidGlob { pattern, .. }) => if regex_set_builds(
                    globs_regexes(filters),
                ) {
                    !regex_set_builds(globs_regexes(copy)) && pattern@ == spec_join(copy, ","@)
                } else {
                    pattern@ == spec_join(filters, ","@)
                },
                Err(_) => false,
            }
        }),
{
    let file_filters: &[String] = match &overrides.file_filters {
        Some(list) => list.as_slice(),
        None => match &overrides.file_extensions {
            Some(list) => list.as_slice(),
            None => default_file_filters,
        },
    };
    let mut only_copy: Vec<String> = Vec::new();
    append_all(&mut only_copy, &overrides.only_copy);
    append_all(&mut only_copy, &overrides.do_not_convert);
    assert(views(Seq::<String>::empty()) =~= Seq::<Seq<char>>::empty());
    let only_copy_slice: &[String] = if only_copy.len() == 0 {
        default_only_copy
    } else {
        only_copy.as_slice()
    };
    assert(views(only_copy_slice@) == selected_only_copy(*overrides, views(default_only_copy@)));
    let filters = checked_to_regex_set(file_filters)?;
    let copy = checked_to_regex_set(only_copy_slice)?;
    Ok((filters, copy))
}

proof fn lemma_glob_body_concat(a: Seq<char>, b: Seq<char>)
    ensures
        glob_body_regex(a + b) == glob_body_regex(a) + glob_body_regex(b),
    decreases b.len(),
{
    if b.len() == 0 {
        assert(a + b =~= a);
        assert(glob_body_regex(a) + glob_body_regex(b) =~= glob_body_regex(a));
    } else {
        assert((a + b).drop_last() =~= a + b.drop_last());
        assert((a + b).last() == b.last());
        lemma_glob_body_concat(a, b.drop_last());
        assert(glob_body_regex(a + b) =~= glob_body_regex(a) + glob_body_regex(b));
    }
}

/// The regex of a glob is `^`, then a piece for each glob character in
/// order, then `$`: `\.` for `.`, `.*` for `*`, and the character itself,
/// as written (letters keep their case), for any other. Stated as: the
/// empty glob gives `^$`, a one-character glob gives its piece between the
/// anchors, and the regex of two globs one after the other is the body of
/// the first followed by the body of the second.
pub proof fn law_glob_regex_pieces(a: Seq<char>, b: Seq<char>, c: char)
    ensures
        spec_glob_regex(Seq::<char>::empty()) == seq!['^', '$'],
        c == '.' ==> spec_glob_regex(seq![c]) == seq!['^', '\\', '.', '$'],
        c == '*' ==> spec_glob_regex(seq![c]) == seq!['^', '.', '*', '$'],
        c != '.' && c != '*' ==> spec_glob_regex(seq![c]) == seq!['^', c, '$'],
        spec_glob_regex(a).len() >= 2,
        spec_glob_regex(a)[0] == '^' && spec_glob_regex(a).last() == '$',
        spec_glob_regex(a + b) == seq!['^'] + spec_glob_regex(a).subrange(
            1,
            spec_glob_regex(a).len() - 1,
        ) + spec_glob_regex(b).subrange(1, spec_glob_regex(b).len() - 1) + seq!['$'],
{
    assert(glob_body_regex(Seq::<char>::empty()) =~= Seq::<char>::empty());
    assert(seq![c].drop_last() =~= Seq::<char>::empty());
    assert(glob_body_regex(seq![c]) =~= glob_char_regex(c));
    assert(spec_glob_regex(Seq::<char>::empty()) =~= seq!['^', '$']);
    assert(spec_glob_regex(seq![c]) =~= seq!['^'] + glob_char_regex(c) + seq!['$']);
    if c == '.' {
        assert(spec_glob_regex(seq![c]) =~= seq!['^', '\\', '.', '$']);
    } else if c == '*' {
        assert(spec_glob_regex(seq![c]) =~= seq!['^', '.', '*', '$']);
    } else {
        assert(spec_glob_regex(seq![c]) =~= seq!['^', c, '$']);
    }
    lemma_glob_body_concat(a, b);
    let ra = spec_glob_regex(a);
    let rb = spec_glob_regex(b);
    assert(ra.subrange(1, ra.len() - 1) =~= glob_body_regex(a));
    assert(rb.subrange(1, rb.len() - 1) =~= glob_body_regex(b));
    assert(spec_glob_regex(a + b) =~= seq!['^'] + ra.subrange(1, ra.len() - 1) + rb.subrange(
        1,
        rb.len() - 1,
    ) + seq!['$']);
}

/// The globs copied byte for byte for a source: the only-copy file's globs
/// followed by the do-not-convert file's globs, whichever of the two files
/// exist, as long as they list any; the defaults only when neither lists a
/// glob. So every glob of the do-not-convert file is copied byte for byte,
/// with or without an only-copy file.
pub proof fn law_only_copy_globs(o: SourceOverrides, defaults: Seq<Seq<char>>)
    ensures
        ({
            let a = match o.only_copy {
                Some(l) => views(l@),
                None => Seq::<Seq<char>>::empty(),
            };
            let b = match o.do_not_convert {
                Some(l) => views(l@),
                None => Seq::<Seq<char>>::empty(),
            };
            &&& a.len() + b.len() > 0 ==> selected_only_copy(o, defaults) == a + b
            &&& a.len() + b.len() == 0 ==> selected_only_copy(o, defaults) == defaults
            &&& forall|i: int|
                0 <= i < b.len() ==> selected_only_copy(o, defaults).contains(#[trigger] b[i])
            &&& forall|i: int|
                0 <= i < a.len() ==> selected_only_copy(o, defaults).contains(#[trigger] a[i])
        }),
{
    let a = match o.only_copy {
        Some(l) => views(l@),
        None => Seq::<Seq<char>>::empty(),
    };
    let b = match o.do_not_convert {
        Some(l) => views(l@),
        None => Seq::<Seq<char>>::empty(),
    };
    assert(opt_views(o.only_copy) == a);
    assert(opt_views(o.do_not_convert) == b);
    assert forall|i: int| 0 <= i < b.len() implies selected_only_copy(o, defaults).contains(
        #[trigger] b[i],
    ) by {
        assert((a + b)[a.len() + i] == b[i]);
    }
    assert forall|i: int| 0 <= i < a.len() implies selected_only_copy(o, defaults).contains(
        #[trigger] a[i],
    ) by {
        assert((a + b)[i] == a[i]);
    }
}

/// The file filters for a source: those of `filtrosarquivos.exb` when it
/// exists, else those of `extecoesarquivos.exb` when it exists, else the
/// defaults.
pub proof fn law_file_filters_chosen(o: SourceOverrides, defaults: Seq<Seq<char>>)
    ensures
        o.file_filters matches Some(l) ==> selected_filters(o, defaults) == views(l@),
        o.file_filters is None ==> (o.file_extensions matches Some(l) ==> selected_filters(
            o,
            defaults,
        ) == views(l@)),
        (o.file_filters is None && o.file_extensions is None) ==> selected_filters(o, defaults)
            == defaults,
{
}

} // verus!
