use vstd::prelude::*;
use crate::root_relative_path::RootRelativePath;
use crate::text::chars_of;

verus! {

#[verifier::external_type_specification]
#[verifier::external_body]
pub struct ExRegexSet(regex::RegexSet);

/// Whether an entry is included in or excluded from a sync by a filter.
#[derive(Clone, Copy, Debug, PartialEq, Eq, Structural)]
pub enum FilterKind {
    Include,
    Exclude,
}

/// The outcome of checking a path against a set of filters.
#[derive(Clone, Copy, Debug, PartialEq, Eq, Structural)]
pub enum FilterResult {
    Include,
    Exclude,
}

/// Whether the regex engine accepts all of the given patterns (`RegexSet::new` succeeds).
pub uninterp spec fn regex_set_compiles(patterns: Seq<Seq<char>>) -> bool;

/// The text of the error that the regex engine reports for patterns that it rejects.
pub uninterp spec fn regex_set_error_text(patterns: Seq<Seq<char>>) -> Seq<char>;

/// The indices of the patterns that match somewhere in the haystack (`RegexSet::matches`).
pub uninterp spec fn regex_set_matches(patterns: Seq<Seq<char>>, haystack: Seq<char>) -> Seq<usize>;

/// The view of a list of strings.
pub open spec fn strings_view(v: Seq<String>) -> Seq<Seq<char>> {
    v.map_values(|s: String| s@)
}

/// A list of include/exclude filters: regular expressions, each with the kind of filter it is.
/// The compiled regex set always belongs to the stored patterns: values of this type are only
/// built by `Filters::new`, which compiles the patterns it stores.
pub struct Filters {
    regex_set: regex::RegexSet,
    patterns: Vec<String>,
    kinds: Vec<FilterKind>,
}

/// Compiles a list of patterns into a regex set (`regex::RegexSet::new`).
/// Success depends on the patterns alone, as does the text of the error.
#[verifier::external_body]
fn compile_regex_set(patterns: &Vec<String>) -> (r: Result<regex::RegexSet, String>)
    ensures
        r is Ok <==> regex_set_compiles(strings_view(patterns@)),
        r matches Err(e) ==> e@ == regex_set_error_text(strings_view(patterns@)),
{
    regex::RegexSet::new(patterns).map_err(|e| e.to_string())
}

/// Matches a path against the compiled regex set of some filters (`regex::RegexSet::matches`).
/// The regex crate documents that the indices refer to the patterns the set was built from and
/// come in ascending order.
#[verifier::external_body]
fn matches_of(filters: &Filters, haystack: &str) -> (r: Vec<usize>)
    ensures
        r@ == regex_set_matches(filters.patterns(), haystack@),
        forall|i: int| 0 <= i < r@.len() ==> #[trigger] r@[i] < filters.patterns().len(),
        forall|i: int, j: int| 0 <= i < j < r@.len() ==> #[trigger] r@[i] < #[trigger] r@[j],
{
    filters.regex_set.matches(haystack).into_iter().collect()
}

/// The default outcome for a path that no filter matches: the opposite of the first filter's
/// kind, or inclusion when there are no filters.
pub open spec fn default_outcome(kinds: Seq<FilterKind>) -> FilterResult {
    if kinds.len() == 0 {
        FilterResult::Include
    } else if kinds[0] == FilterKind::Include {
        FilterResult::Exclude
    } else {
        FilterResult::Include
    }
}

pub open spec fn kind_outcome(k: FilterKind) -> FilterResult {
    match k {
        FilterKind::Include => FilterResult::Include,
        FilterKind::Exclude => FilterResult::Exclude,
    }
}

/// The outcome for a path matched by the filters at the given indices, in order: the last
/// matching filter decides, and with no match the default applies.
pub open spec fn filter_outcome(kinds: Seq<FilterKind>, matches: Seq<usize>) -> FilterResult {
    if matches.len() == 0 {
        default_outcome(kinds)
    } else {
        kind_outcome(kinds[matches.last() as int])
    }
}

/// Decides whether a path is included, given the filters that matched it (in ascending order).
pub fn resolve_filter_matches(kinds: &Vec<FilterKind>, matches: &Vec<usize>) -> (r: FilterResult)
    requires
        forall|i: int| 0 <= i < matches@.len() ==> #[trigger] matches@[i] < kinds@.len(),
    ensures
        r == filter_outcome(kinds@, matches@),
{
    let mut result = if kinds.len() == 0 {
        FilterResult::Include
    } else {
        match kinds[0] {
            FilterKind::Include => FilterResult::Exclude,
            FilterKind::Exclude => FilterResult::Include,
        }
    };
    let mut i: usize = 0;
    while i < matches.len()
        invariant
            0 <= i <= matches.len(),
            forall|j: int| 0 <= j < matches@.len() ==> #[trigger] matches@[j] < kinds@.len(),
            result == filter_outcome(kinds@, matches@.take(i as int)),
        decreases matches.len() - i,
    {
        result = match kinds[matches[i]] {
            FilterKind::Include => FilterResult::Include,
            FilterKind::Exclude => FilterResult::Exclude,
        };
        assert(matches@.take(i + 1).last() == matches@[i as int]);
        i = i + 1;
    }
    assert(matches@.take(matches.len() as int) =~= matches@);
    result
}

impl Filters {
    /// The regular expressions of the filters.
    pub closed spec fn patterns(&self) -> Seq<Seq<char>> {
        strings_view(self.patterns@)
    }

    /// The kinds of the filters, one per pattern.
    pub closed spec fn kinds(&self) -> Seq<FilterKind> {
        self.kinds@
    }

    /// There is one kind per pattern.
    pub closed spec fn wf(&self) -> bool {
        self.patterns@.len() == self.kinds@.len()
    }

    /// Compiles the given regular expressions, each with its kind.
    /// Fails exactly when the regex engine rejects the patterns.
    pub fn new(patterns: Vec<String>, kinds: Vec<FilterKind>) -> (r: Result<Filters, String>)
        requires
            patterns@.len() == kinds@.len(),
        ensures
            r is Ok <==> regex_set_compiles(strings_view(patterns@)),
            r matches Ok(f) ==> f.wf() && f.patterns() == strings_view(patterns@) && f.kinds() == kinds@,
            r matches Err(e) ==> e@ == regex_set_error_text(strings_view(patterns@)),
    {
        match compile_regex_set(&patterns) {
            Ok(regex_set) => Ok(Filters { regex_set, patterns, kinds }),
            Err(e) => Err(e),
        }
    }

    /// The kinds of the filters, in order.
    pub fn kinds_list(&self) -> (r: &Vec<FilterKind>)
        ensures
            r@ == self.kinds(),
    {
        &self.kinds
    }

    /// The regular expressions of the filters, in order.
    pub fn pattern_list(&self) -> (r: &Vec<String>)
        ensures
            strings_view(r@) == self.patterns(),
    {
        &self.patterns
    }
}

/// Checks a path against the filters.
/// The root is always included; otherwise, of the filters whose regex matches the path, the one
/// with the largest index (the last in the list) decides,
/// and a path that no filter matches gets the opposite of the first filter's kind
/// (inclusion if there are no filters).
pub fn apply_filters(path: &RootRelativePath, filters: &Filters) -> (r: FilterResult)
    requires
        filters.wf(),
    ensures
        r == (if path@.len() == 0 {
            FilterResult::Include
        } else {
            filter_outcome(filters.kinds(), regex_set_matches(filters.patterns(), path@))
        }),
        path@.len() > 0 ==> forall|i: int| #![trigger regex_set_matches(filters.patterns(), path@)[i]]
            0 <= i < regex_set_matches(filters.patterns(), path@).len()
            && (forall|j: int| 0 <= j < regex_set_matches(filters.patterns(), path@).len()
                ==> regex_set_matches(filters.patterns(), path@)[j] <= regex_set_matches(filters.patterns(), path@)[i])
            ==> r == kind_outcome(filters.kinds()[regex_set_matches(filters.patterns(), path@)[i] as int]),
{
    if path.is_root() {
        return FilterResult::Include;
    }
    let matches = matches_of(filters, path.as_str());
    proof {
        let ms = matches@;
        assert forall|i: int| 0 <= i < ms.len() && (forall|j: int| 0 <= j < ms.len() ==> ms[j] <= ms[i])
            implies ms[i] == ms.last() by {
            if i < ms.len() - 1 {
                assert(ms[i] < ms[ms.len() - 1]);
                assert(ms[ms.len() - 1] <= ms[i]);
            }
        }
    }
    resolve_filter_matches(&filters.kinds, &matches)
}

/// The pattern of a filter as written by the user (`+regex` or `-regex`), anchored at both ends.
pub open spec fn anchored_pattern(f: Seq<char>) -> Seq<char> {
    seq!['^'] + f.drop_first() + seq!['$']
}

/// Whether a user filter starts with a valid kind marker.
pub open spec fn has_kind_prefix(f: Seq<char>) -> bool {
    f.len() > 0 && (f[0] == '+' || f[0] == '-')
}

pub open spec fn prefix_kind(f: Seq<char>) -> FilterKind {
    if f[0] == '+' { FilterKind::Include } else { FilterKind::Exclude }
}

/// The result of compiling the user's filters: the first filter without a `+` or `-` prefix is
/// an error; otherwise the anchored patterns are compiled, which fails if the regex engine
/// rejects them.
pub open spec fn spec_compile_filters(fs: Seq<Seq<char>>) -> Result<(Seq<Seq<char>>, Seq<FilterKind>), Seq<char>> {
    if exists|i: int| 0 <= i < fs.len() && !#[trigger] has_kind_prefix(fs[i]) {
        let i = choose|i: int| 0 <= i < fs.len() && !#[trigger] has_kind_prefix(fs[i])
            && forall|j: int| 0 <= j < i ==> has_kind_prefix(fs[j]);
        Err("Invalid filter '"@ + fs[i] + "': Must start with a '+' or '-'"@)
    } else {
        let patterns = fs.map_values(|f: Seq<char>| anchored_pattern(f));
        if regex_set_compiles(patterns) {
            Ok((patterns, fs.map_values(|f: Seq<char>| prefix_kind(f))))
        } else {
            Err("Invalid filter: "@ + regex_set_error_text(patterns))
        }
    }
}

/// Whether every user filter starts with a `+` or `-`, so that compiling them can fail only in
/// the regex engine.
pub fn all_have_kind_prefix(filter_strings: &Vec<String>) -> (r: bool)
    ensures
        r == forall|i: int| 0 <= i < filter_strings@.len() ==> #[trigger] has_kind_prefix(strings_view(filter_strings@)[i]),
{
    let ghost fs = strings_view(filter_strings@);
    let mut i: usize = 0;
    while i < filter_strings.len()
        invariant
            0 <= i <= filter_strings.len(),
            fs == strings_view(filter_strings@),
            forall|j: int| 0 <= j < i ==> #[trigger] has_kind_prefix(fs[j]),
        decreases filter_strings.len() - i,
    {
        let cs = chars_of(filter_strings[i].as_str());
        assert(cs@ == fs[i as int]);
        if cs.len() == 0 || (cs[0] != '+' && cs[0] != '-') {
            assert(!has_kind_prefix(fs[i as int]));
            return false;
        }
        i = i + 1;
    }
    true
}

/// Builds the filters of a sync from the user's filter strings, each a regex prefixed with `+`
/// (include) or `-` (exclude). Each regex is anchored to match the whole path.
pub fn compile_filters(filter_strings: &Vec<String>) -> (r: Result<Filters, String>)
    ensures
        match (r, spec_compile_filters(strings_view(filter_strings@))) {
            (Ok(f), Ok((p, k))) => f.wf() && f.patterns() == p && f.kinds() == k,
            (Err(e), Err(se)) => e@ == se,
            _ => false,
        },
{
    let ghost fs = strings_view(filter_strings@);
    let mut patterns: Vec<String> = Vec::new();
    let mut kinds: Vec<FilterKind> = Vec::new();
    let mut i: usize = 0;
    while i < filter_strings.len()
        invariant
            0 <= i <= filter_strings.len(),
            fs == strings_view(filter_strings@),
            patterns@.len() == i,
            kinds@.len() == i,
            forall|j: int| 0 <= j < i ==> #[trigger] has_kind_prefix(fs[j]),
            forall|j: int| 0 <= j < i ==> #[trigger] patterns@[j]@ == anchored_pattern(fs[j]),
            forall|j: int| 0 <= j < i ==> #[trigger] kinds@[j] == prefix_kind(fs[j]),
        decreases filter_strings.len() - i,
    {
        let f: &String = &filter_strings[i];
        let cs = chars_of(f.as_str());
        assert(cs@ == fs[i as int]);
        if cs.len() == 0 || (cs[0] != '+' && cs[0] != '-') {
            assert(!has_kind_prefix(fs[i as int]));
            proof {
                reveal_strlit("Invalid filter '");
                reveal_strlit("': Must start with a '+' or '-'");
                let w = choose|w: int| 0 <= w < fs.len() && !#[trigger] has_kind_prefix(fs[w])
                    && forall|j: int| 0 <= j < w ==> has_kind_prefix(fs[j]);
                assert(w == i) by {
                    if w < i { assert(has_kind_prefix(fs[w])); }
                    if w > i { assert(has_kind_prefix(fs[i as int])); }
                }
            }
            let mut msg = String::from_str("Invalid filter '");
            msg.append(f.as_str());
            msg.append("': Must start with a '+' or '-'");
            return Err(msg);
        }
        let kind = if cs[0] == '+' { FilterKind::Include } else { FilterKind::Exclude };
        let rest = f.as_str().substring_char(1, cs.len());
        let mut pattern = String::from_str("^");
        pattern.append(rest);
        pattern.append("$");
        proof {
            reveal_strlit("^");
            reveal_strlit("$");
            assert(rest@ =~= fs[i as int].drop_first());
        }
        assert(pattern@ =~= anchored_pattern(fs[i as int]));
        patterns.push(pattern);
        kinds.push(kind);
        i = i + 1;
    }
    assert(strings_view(patterns@) =~= fs.map_values(|f: Seq<char>| anchored_pattern(f)));
    assert(kinds@ =~= fs.map_values(|f: Seq<char>| prefix_kind(f)));
    match Filters::new(patterns, kinds) {
        Ok(f) => Ok(f),
        Err(e) => {
            let mut msg = String::from_str("Invalid filter: ");
            msg.append(e.as_str());
            Err(msg)
        }
    }
}

} // verus!
