use vstd::prelude::*;
use crate::text::{push_char, chars_of, with_separator};

verus! {

/// A path relative to the source or destination root, held in a platform-independent form:
/// components joined with forward slashes. The root itself is the empty path.
#[derive(Debug, Clone, PartialEq, Eq, Hash)]
pub struct RootRelativePath {
    inner: String,
}

/// The characters that separate path components on either supported platform.
pub open spec fn is_slash(c: char) -> bool {
    c == '/' || c == '\\'
}

/// Joins the given components with forward slashes.
pub open spec fn join_components(components: Seq<Seq<char>>) -> Seq<char>
    decreases components.len(),
{
    if components.len() == 0 {
        Seq::empty()
    } else if components.len() == 1 {
        components[0]
    } else {
        join_components(components.drop_last()) + seq!['/'] + components.last()
    }
}

/// Whether a component holds a slash.
pub open spec fn has_slash(c: Seq<char>) -> bool {
    exists|j: int| 0 <= j < c.len() && #[trigger] is_slash(c[j])
}

/// The error for the first component, from `i` on, that cannot be part of a path: one that is not
/// valid Unicode (`None`), or one that holds a slash.
pub open spec fn first_component_error(components: Seq<Option<Seq<char>>>, i: int) -> Option<Seq<char>>
    decreases components.len() - i,
{
    if i < 0 || i >= components.len() {
        None
    } else if components[i] is None {
        Some("Can't convert path component"@)
    } else if has_slash(components[i]->0) {
        Some("Illegal characters in path"@)
    } else {
        first_component_error(components, i + 1)
    }
}

/// What converting a relative path, given by its components, gives: an error for an absolute path,
/// or for the first component that is not valid Unicode or that holds a slash, otherwise the
/// components joined with forward slashes.
pub open spec fn spec_from_components(is_absolute: bool, components: Seq<Option<Seq<char>>>) -> Result<Seq<char>, Seq<char>> {
    if is_absolute {
        Err("Must be relative"@)
    } else {
        match first_component_error(components, 0) {
            Some(e) => Err(e),
            None => Ok(join_components(components.map_values(|c: Option<Seq<char>>| c->0))),
        }
    }
}

impl View for RootRelativePath {
    type V = Seq<char>;

    closed spec fn view(&self) -> Seq<char> {
        self.inner@
    }
}

impl RootRelativePath {
    /// A normalized path holds no backslash: a component with a slash of either kind is refused,
    /// and components are joined with forward slashes only.
    pub closed spec fn is_normalized(self) -> bool {
        !self.inner@.contains('\\')
    }

    /// The path of the root itself.
    pub fn root() -> (r: RootRelativePath)
        ensures
            r@ == Seq::<char>::empty(),
            r.is_normalized(),
    {
        RootRelativePath { inner: String::new() }
    }

    /// Does this path refer to the root itself?
    pub fn is_root(&self) -> (r: bool)
        ensures
            r == (self@.len() == 0),
    {
        self.inner.as_str().unicode_len() == 0
    }

    /// The normalized (forward-slash) text of this path.
    pub fn as_str(&self) -> (r: &str)
        ensures
            r@ == self@,
    {
        self.inner.as_str()
    }

    /// A copy of this path.
    pub fn duplicate(&self) -> (r: RootRelativePath)
        ensures
            r == *self,
    {
        RootRelativePath { inner: self.inner.clone() }
    }

    /// Whether two paths are the same.
    pub fn same_as(&self, other: &RootRelativePath) -> (r: bool)
        ensures
            r == (self@ == other@),
    {
        self.inner == other.inner
    }

    /// Builds a normalized path from the components of a relative path.
    /// `None` stands for a component that could not be converted to Unicode.
    pub fn from_components(is_absolute: bool, components: &Vec<Option<String>>) -> (r: Result<RootRelativePath, String>)
        ensures
            spec_from_components(is_absolute, components@.map_values(|c: Option<String>| opt_view(c)))
                == (match r { Ok(p) => Ok(p@), Err(e) => Err(e@) }),
            r is Ok ==> r->Ok_0.is_normalized(),
    {
        let ghost comps = components@.map_values(|c: Option<String>| opt_view(c));
        if is_absolute {
            proof { reveal_strlit("Must be relative"); }
            return Err(String::from_str("Must be relative"));
        }
        let mut result = String::new();
        let mut k: usize = 0;
        while k < components.len()
            invariant
                0 <= k <= components.len(),
                !is_absolute,
                comps == components@.map_values(|c: Option<String>| opt_view(c)),
                first_component_error(comps, 0) == first_component_error(comps, k as int),
                forall|i: int| 0 <= i < k ==> (#[trigger] comps[i]) is Some,
                result@ == join_components(comps.take(k as int).map_values(|c: Option<Seq<char>>| c->0)),
                !result@.contains('\\'),
            decreases components.len() - k,
        {
            let comp: &String = match &components[k] {
                Some(c) => c,
                None => {
                    proof { reveal_strlit("Can't convert path component"); }
                    assert(comps[k as int] is None);
                    return Err(String::from_str("Can't convert path component"));
                }
            };
            let cs = chars_of(comp.as_str());
            let mut j: usize = 0;
            while j < cs.len()
                invariant
                    0 <= j <= cs.len(),
                    0 <= k < components.len(),
                    !is_absolute,
                    comps == components@.map_values(|c: Option<String>| opt_view(c)),
                    first_component_error(comps, 0) == first_component_error(comps, k as int),
                    comps[k as int] is Some,
                    cs@ == comps[k as int]->0,
                    forall|jj: int| 0 <= jj < j ==> !#[trigger] is_slash(cs@[jj]),
                decreases cs.len() - j,
            {
                if cs[j] == '/' || cs[j] == '\\' {
                    proof { reveal_strlit("Illegal characters in path"); }
                    assert(is_slash(comps[k as int]->0[j as int]));
                    assert(has_slash(comps[k as int]->0));
                    return Err(String::from_str("Illegal characters in path"));
                }
                j = j + 1;
            }
            assert(!has_slash(comps[k as int]->0));
            let ghost before = comps.take(k as int).map_values(|c: Option<Seq<char>>| c->0);
            let ghost after = comps.take(k + 1).map_values(|c: Option<Seq<char>>| c->0);
            assert(after.drop_last() =~= before);
            let ghost prior = result@;
            if k > 0 {
                push_char(&mut result, '/');
            }
            let ghost joined = result@;
            assert(!joined.contains('\\')) by {
                assert forall|i: int| 0 <= i < joined.len() implies #[trigger] joined[i] != '\\' by {
                    if i < prior.len() {
                        assert(joined[i] == prior[i]);
                    }
                }
            }
            result.append(comp.as_str());
            assert(!result@.contains('\\')) by {
                assert forall|i: int| 0 <= i < result@.len() implies #[trigger] result@[i] != '\\' by {
                    if i < joined.len() {
                        assert(result@[i] == joined[i]);
                    } else {
                        assert(result@[i] == cs@[i - joined.len()]);
                        assert(!is_slash(cs@[i - joined.len()]));
                    }
                }
            }
            assert(result@ == join_components(after));
            k = k + 1;
        }
        assert(comps.take(comps.len() as int) =~= comps);
        Ok(RootRelativePath { inner: result })
    }

    /// The path with its forward slashes replaced by the given separator, for use on a platform
    /// that uses that separator.
    /// Written with `/` it is the path itself; written with a backslash it turns back into the path when each
    /// backslash becomes `/` again.
    pub fn to_platform_path(&self, dir_separator: char) -> (r: String)
        ensures
            r@ == replaced(self@, '/', dir_separator),
            dir_separator == '/' ==> r@ == self@,
            self.is_normalized() && dir_separator == '\\' ==> replaced(r@, '\\', '/') == self@,
    {
        proof {
            if self.is_normalized() {
                lemma_platform_separators(*self, dir_separator);
            }
            assert(replaced(self@, '/', '/') =~= self@);
        }
        with_separator(self.inner.as_str(), dir_separator)
    }

    /// The full path of this entry under the given root, in the local platform's syntax: the root
    /// itself for the root, otherwise the root joined with this path: the root, at most one
    /// separator (a forward or a backward slash), then this path.
    pub fn get_full_path(&self, root: &str) -> (r: String)
        ensures
            self@.len() == 0 ==> r@ == root@,
            self@.len() > 0 && joins_plainly(root@, self@) ==> joined_path(root@, self@, r@),
    {
        if self.is_root() {
            root.to_string()
        } else {
            join_path(root, self.inner.as_str())
        }
    }

    /// Text shown to the user for this path: the path itself, or `<ROOT>` for the root.
    pub fn display_string(&self) -> (r: String)
        ensures
            r@ == (if self@.len() == 0 { "<ROOT>"@ } else { self@ }),
    {
        if self.is_root() {
            String::from_str("<ROOT>")
        } else {
            self.inner.clone()
        }
    }
}

/// The text with each occurrence of one character replaced by another.
pub open spec fn replaced(s: Seq<char>, from: char, to: char) -> Seq<char> {
    s.map_values(|c: char| if c == from { to } else { c })
}

/// Changing which separator a path is written with: the form for any separator is the
/// forward-slash form with each `/` replaced by it, and the backslash form turns back into the
/// normalized path when each backslash becomes `/` again.
pub proof fn lemma_platform_separators(p: RootRelativePath, sep: char)
    requires
        p.is_normalized(),
    ensures
        replaced(p@, '/', sep) == replaced(replaced(p@, '/', '/'), '/', sep),
        replaced(replaced(p@, '/', '\\'), '\\', '/') == p@,
{
    assert(replaced(p@, '/', '/') =~= p@);
    let back = replaced(replaced(p@, '/', '\\'), '\\', '/');
    assert forall|i: int| 0 <= i < p@.len() implies #[trigger] back[i] == p@[i] by {
        assert(p@[i] != '\\') by {
            if p@[i] == '\\' {
                assert(p@.contains('\\'));
            }
        }
    }
    assert(back =~= p@);
}

/// Whether a relative path is joined onto a root by plainly appending it: the relative path is
/// not empty, starts with no slash and holds no colon (so it has neither a root nor a Windows
/// drive prefix), and the root is not a Windows verbatim path (`\\?\`), under which joining
/// also normalizes.
pub open spec fn joins_plainly(root: Seq<char>, relative: Seq<char>) -> bool {
    &&& relative.len() > 0
    &&& !is_slash(relative[0])
    &&& !relative.contains(':')
    &&& !(root.len() >= 4 && root.take(4) == seq!['\\', '\\', '?', '\\'])
}

/// What joining holds on every platform: the root, then at most one separator (a forward or a
/// backward slash), then the relative path.
pub open spec fn joined_path(root: Seq<char>, relative: Seq<char>, r: Seq<char>) -> bool {
    &&& root.len() + relative.len() <= r.len() <= root.len() + relative.len() + 1
    &&& r.take(root.len() as int) == root
    &&& r.skip(r.len() - relative.len()) == relative
    &&& r.len() == root.len() + relative.len() + 1 ==> is_slash(r[root.len() as int])
}

/// Joins a relative path onto another (`std::path::Path::join`), with the local platform's
/// separator where one is needed. Trusted: where the relative path is joined plainly, the result
/// is the root, at most one separator, then the relative path, and a separator put in is a
/// forward or a backward slash; whether one goes in, and which of the two, depends on the
/// platform, and is not stated.
#[verifier::external_body]
fn join_path(root: &str, relative: &str) -> (r: String)
    ensures
        joins_plainly(root@, relative@) ==> joined_path(root@, relative@, r@),
{
    std::path::Path::new(root).join(relative).to_string_lossy().to_string()
}

/// The view of an optional string.
pub open spec fn opt_view(c: Option<String>) -> Option<Seq<char>> {
    match c {
        Some(s) => Some(s@),
        None => None,
    }
}

} // verus!
