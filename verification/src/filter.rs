use vstd::prelude::*;

use crate::fs_path::FsPath;

verus! {

/// Whether the case-sensitive wildcard `pattern` (`*` matches any sequence of
/// characters, `?` matches exactly one) matches the whole of `text`. The
/// matching primitive is supplied by an outside library; only the name of its
/// result is used here.
pub uninterp spec fn wild_match_of(pattern: Seq<char>, text: Seq<char>) -> bool;

/// Relies on wildmatch::WildMatchPattern::{new, matches}: whether the
/// case-sensitive wildcard pattern matches the whole text; the result
/// depends on the pattern and the text alone.
#[verifier::external_body]
fn wild_matches(pattern: &String, text: &String) -> (r: bool)
    ensures
        r == wild_match_of(pattern@, text@),
{
    wildmatch::WildMatch::new(pattern.as_str()).matches(text.as_str())
}

/// Some pattern of the set matches the name.
pub open spec fn spec_name_ignored(patterns: Seq<Seq<char>>, name: Seq<char>) -> bool {
    exists|i: int| 0 <= i < patterns.len() && wild_match_of(patterns[i], name)
}

/// A path is ignored when it has a base name and some pattern matches it;
/// a path without a final component is never ignored.
pub open spec fn spec_path_ignored(patterns: Seq<Seq<char>>, path: Seq<Seq<char>>) -> bool {
    path.len() > 0 && spec_name_ignored(patterns, path.last())
}

/// The set of wildcard ignore patterns derived from one profile.
/// Matching is against base names only, and any match ignores the entry,
/// so the order of the patterns does not affect the outcome.
pub struct IgnoreFilter {
    pub patterns: Vec<String>,
}

impl View for IgnoreFilter {
    type V = Seq<Seq<char>>;

    open spec fn view(&self) -> Seq<Seq<char>> {
        self.patterns.deep_view()
    }
}

impl IgnoreFilter {
    /// Builds the filter that holds the given patterns.
    pub fn new(ignores: &Vec<String>) -> (r: IgnoreFilter)
        ensures
            r@ == ignores.deep_view(),
    {
        let mut patterns: Vec<String> = Vec::new();
        let mut i: usize = 0;
        while i < ignores.len()
            invariant
                i <= ignores.len(),
                patterns.deep_view() == ignores.deep_view().take(i as int),
            decreases ignores.len() - i,
        {
            proof {
                assert(ignores.deep_view().len() == ignores@.len());
                assert(patterns.deep_view().len() == patterns@.len());
            }
            let ghost prev = patterns.deep_view();
            let c: &String = &ignores[i];
            proof {
                assert(*c == ignores@[i as int]);
            }
            patterns.push(c.clone());
            proof {
                assert forall|j: int| 0 <= j < patterns@.len() implies patterns.deep_view()[j]
                    == ignores.deep_view().take(i + 1)[j] by {
                    if j < i {
                        assert(prev[j] == ignores.deep_view().take(i as int)[j]);
                        assert(patterns.deep_view()[j] == prev[j]);
                    }
                }
                assert(patterns.deep_view() =~= ignores.deep_view().take(i + 1));
            }
            i = i + 1;
        }
        proof {
            assert(ignores.deep_view().take(ignores.deep_view().len() as int)
                =~= ignores.deep_view());
        }
        IgnoreFilter { patterns }
    }

    /// Determines if the specified path is ignored at all by this filter:
    /// true exactly when the path has a base name and some configured
    /// wildcard pattern matches it.
    pub fn is_ignored(&self, path: &FsPath) -> (r: bool)
        ensures
            r == spec_path_ignored(self@, path@),
    {
        match path.base_name() {
            None => false,
            Some(name) => {
                let mut i: usize = 0;
                while i < self.patterns.len()
                    invariant
                        i <= self.patterns.len(),
                        path@.len() > 0,
                        name@ == path@.last(),
                        forall|j: int| 0 <= j < i ==> !wild_match_of(self@[j], name@),
                    decreases self.patterns.len() - i,
                {
                    proof {
                        assert(self@[i as int] == self.patterns@[i as int]@);
                    }
                    if wild_matches(&self.patterns[i], name) {
                        return true;
                    }
                    i = i + 1;
                }
                false
            },
        }
    }
}

} // verus!
