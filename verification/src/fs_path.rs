use vstd::prelude::*;

verus! {

/// A filesystem path, modeled as the sequence of its name components.
///
/// The root itself is not a component: `/data/a` is held as `["data", "a"]`.
/// A path with no components stands for a bare root and has no base name.
pub struct FsPath {
    pub components: Vec<String>,
}

impl View for FsPath {
    type V = Seq<Seq<char>>;

    open spec fn view(&self) -> Seq<Seq<char>> {
        self.components.deep_view()
    }
}

impl DeepView for FsPath {
    type V = Seq<Seq<char>>;

    open spec fn deep_view(&self) -> Seq<Seq<char>> {
        self.view()
    }
}

/// `p` names the same directory as `q` or an ancestor of it.
pub open spec fn is_prefix_of(p: Seq<Seq<char>>, q: Seq<Seq<char>>) -> bool {
    p.len() <= q.len() && p == q.take(p.len() as int)
}

impl FsPath {
    /// Builds a path from its components.
    pub fn new(components: Vec<String>) -> (r: FsPath)
        ensures
            r@ == components.deep_view(),
    {
        FsPath { components }
    }

    /// An independent copy of the path.
    pub fn duplicate(&self) -> (r: FsPath)
        ensures
            r@ == self@,
    {
        proof {
            assert(self@.len() == self.components@.len());
        }
        let r = self.take_prefix(self.components.len());
        proof {
            assert(self@.take(self@.len() as int) =~= self@);
        }
        r
    }

    /// The path of the first `k` components alone.
    pub fn take_prefix(&self, k: usize) -> (r: FsPath)
        requires
            k <= self@.len(),
        ensures
            r@ == self@.take(k as int),
    {
        let mut components: Vec<String> = Vec::new();
        let mut i: usize = 0;
        while i < k
            invariant
                i <= k <= self.components.len(),
                components.deep_view() == self@.take(i as int),
            decreases k - i,
        {
            proof {
                assert(self@.len() == self.components@.len());
                assert(self@.take(i as int).len() == i as int);
                assert(components.deep_view().len() == components@.len());
            }
            let ghost prev = components.deep_view();
            let c: &String = &self.components[i];
            proof {
                assert(*c == self.components@[i as int]);
            }
            components.push(c.clone());
            proof {
                assert forall|j: int| 0 <= j < components@.len() implies components.deep_view()[j]
                    == self@.take(i + 1)[j] by {
                    if j < i {
                        assert(prev[j] == self@.take(i as int)[j]);
                        assert(components.deep_view()[j] == prev[j]);
                    }
                }
                assert(components.deep_view() =~= self@.take(i + 1));
            }
            i = i + 1;
        }
        FsPath { components }
    }

    /// The path of the entry `name` directly inside `self`.
    pub fn join(&self, name: &String) -> (r: FsPath)
        ensures
            r@ == self@.push(name@),
    {
        let mut r = self.duplicate();
        r.components.push(name.clone());
        proof {
            assert(r@ =~= self@.push(name@));
        }
        r
    }

    /// Whether `prefix` names this path or one of its ancestors.
    pub fn starts_with(&self, prefix: &FsPath) -> (r: bool)
        ensures
            r == is_prefix_of(prefix@, self@),
    {
        if prefix.components.len() > self.components.len() {
            proof {
                assert(!is_prefix_of(prefix@, self@));
            }
            return false;
        }
        let mut i: usize = 0;
        while i < prefix.components.len()
            invariant
                i <= prefix.components.len() <= self.components.len(),
                forall|j: int| 0 <= j < i ==> prefix@[j] == self@[j],
            decreases prefix.components.len() - i,
        {
            if !(self.components[i] == prefix.components[i]) {
                proof {
                    assert(self@.take(prefix@.len() as int)[i as int] == self@[i as int]);
                    assert(prefix@ != self@.take(prefix@.len() as int));
                }
                return false;
            }
            i = i + 1;
        }
        proof {
            assert(prefix@ =~= self@.take(prefix@.len() as int));
        }
        true
    }

    /// The path relative to `prefix`: the components below it, when
    /// `prefix` is an ancestor of (or equal to) this path.
    pub fn strip_prefix(&self, prefix: &FsPath) -> (r: Option<FsPath>)
        ensures
            r is Some <==> is_prefix_of(prefix@, self@),
            r is Some ==> r->0@ == self@.skip(prefix@.len() as int),
    {
        if !self.starts_with(prefix) {
            return None;
        }
        let mut components: Vec<String> = Vec::new();
        let mut i: usize = prefix.components.len();
        while i < self.components.len()
            invariant
                prefix.components.len() <= i <= self.components.len(),
                components.deep_view() == self@.subrange(prefix@.len() as int, i as int),
            decreases self.components.len() - i,
        {
            proof {
                assert(self@.len() == self.components@.len());
                assert(self@.subrange(prefix@.len() as int, i as int).len() == i
                    - prefix@.len());
                assert(components.deep_view().len() == components@.len());
            }
            let ghost prev = components.deep_view();
            let c: &String = &self.components[i];
            proof {
                assert(*c == self.components@[i as int]);
            }
            let cc = c.clone();
            components.push(cc);
            proof {
                assert forall|j: int| 0 <= j < components@.len() implies components.deep_view()[j]
                    == self@.subrange(prefix@.len() as int, i + 1)[j] by {
                    if j < components@.len() - 1 {
                        assert(prev[j] == self@.subrange(prefix@.len() as int, i as int)[j]);
                        assert(components.deep_view()[j] == prev[j]);
                    }
                }
                assert(components.deep_view() =~= self@.subrange(prefix@.len() as int, i + 1));
            }
            i = i + 1;
        }
        Some(FsPath { components })
    }

    /// The base name: the final component, when there is one.
    pub fn base_name(&self) -> (r: Option<&String>)
        ensures
            r is Some <==> self@.len() > 0,
            r is Some ==> r->0@ == self@.last(),
    {
        if self.components.len() == 0 {
            None
        } else {
            Some(&self.components[self.components.len() - 1])
        }
    }
}

/// The archive entry name of a relative path: its components joined by `/`.
pub open spec fn join_rel(rel: Seq<Seq<char>>) -> Seq<char>
    decreases rel.len(),
{
    if rel.len() == 0 {
        Seq::empty()
    } else if rel.len() == 1 {
        rel[0]
    } else {
        join_rel(rel.drop_last()) + seq!['/'] + rel.last()
    }
}

/// Joins the components of a relative path with `/` separators.
pub fn to_entry_name(rel: &FsPath) -> (r: String)
    ensures
        r@ == join_rel(rel@),
{
    let mut r = String::new();
    let mut i: usize = 0;
    while i < rel.components.len()
        invariant
            i <= rel.components.len(),
            r@ == join_rel(rel@.take(i as int)),
        decreases rel.components.len() - i,
    {
        if i > 0 {
            r.append("/");
            proof {
                reveal_strlit("/");
            }
        }
        r.append(rel.components[i].as_str());
        proof {
            assert(rel@.take(i + 1).drop_last() =~= rel@.take(i as int));
            assert(rel@.take(i + 1).last() == rel@[i as int]);
            if i > 0 {
                assert(r@ =~= join_rel(rel@.take(i + 1)));
            } else {
                assert(r@ =~= join_rel(rel@.take(1)));
            }
        }
        i = i + 1;
    }
    proof {
        assert(rel@.take(rel@.len() as int) =~= rel@);
    }
    r
}

} // verus!
