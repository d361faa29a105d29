//! The upward search for a local configuration override, modelled on plain
//! values: a directory is its path components, the home boundary is a pure
//! prefix predicate, and the walk is the bounded list of ancestors from the
//! working directory up to home. Filesystem probing stays outside; the
//! first probe that hits wins, as [`first_match`] fixes.

use vstd::prelude::*;

verus! {

/// A filesystem directory, as its path components from the root downward.
#[derive(Debug)]
pub struct DirPath {
    pub components: Vec<String>,
}

impl View for DirPath {
    type V = Seq<Seq<char>>;

    open spec fn view(&self) -> Seq<Seq<char>> {
        self.components.deep_view()
    }
}

impl DeepView for DirPath {
    type V = Seq<Seq<char>>;

    open spec fn deep_view(&self) -> Seq<Seq<char>> {
        self.view()
    }
}

/// `prefix` is an ancestor of `path` or `path` itself, component-wise.
pub open spec fn starts_with_spec(path: Seq<Seq<char>>, prefix: Seq<Seq<char>>) -> bool {
    prefix.len() <= path.len() && forall|i: int| 0 <= i < prefix.len() ==> path[i] == prefix[i]
}

/// The boundary predicate of the walk, free of any filesystem state.
pub fn path_starts_with(path: &DirPath, prefix: &DirPath) -> (r: bool)
    ensures
        r == starts_with_spec(path@, prefix@),
{
    let n = prefix.components.len();
    if n > path.components.len() {
        return false;
    }
    let mut i: usize = 0;
    while i < n
        invariant
            0 <= i <= n,
            n == prefix.components@.len(),
            n <= path.components@.len(),
            forall|j: int| 0 <= j < i ==> path@[j] == prefix@[j],
        decreases n - i,
    {
        proof {
            assert(path@[i as int] == path.components@[i as int]@);
            assert(prefix@[i as int] == prefix.components@[i as int]@);
        }
        if !(path.components[i] == prefix.components[i]) {
            return false;
        }
        i = i + 1;
    }
    true
}

/// The directories the walk probes, nearest first: the working directory,
/// then each ancestor, ending at home. Empty when the working directory is
/// not a descendant of home, in which case nothing at all is probed.
pub open spec fn candidates_spec(cwd: Seq<Seq<char>>, home: Seq<Seq<char>>) -> Seq<
    Seq<Seq<char>>,
> {
    if !starts_with_spec(cwd, home) {
        Seq::empty()
    } else {
        Seq::new((cwd.len() - home.len() + 1) as nat, |i: int| cwd.take(cwd.len() - i))
    }
}

pub fn local_config_candidates(cwd: &DirPath, home: &DirPath) -> (r: Vec<DirPath>)
    requires
        cwd.components@.len() < usize::MAX,
    ensures
        r.deep_view() == candidates_spec(cwd@, home@),
        !starts_with_spec(cwd@, home@) ==> r@.len() == 0,
{
    if !path_starts_with(cwd, home) {
        let r: Vec<DirPath> = Vec::new();
        proof {
            assert(r.deep_view() =~~= candidates_spec(cwd@, home@));
        }
        return r;
    }
    let cwd_len = cwd.components.len();
    let total = cwd_len - home.components.len() + 1;
    let mut out: Vec<DirPath> = Vec::new();
    let mut i: usize = 0;
    while i < total
        invariant
            0 <= i <= total,
            cwd_len == cwd.components@.len(),
            total == cwd_len - home.components@.len() + 1,
            starts_with_spec(cwd@, home@),
            out.deep_view() =~~= candidates_spec(cwd@, home@).take(i as int),
        decreases total - i,
    {
        let keep = cwd_len - i;
        let mut comps: Vec<String> = Vec::new();
        let mut j: usize = 0;
        while j < keep
            invariant
                0 <= j <= keep,
                keep <= cwd.components@.len(),
                comps.deep_view() =~~= cwd@.take(keep as int).take(j as int),
            decreases keep - j,
        {
            let ghost before = comps.deep_view();
            comps.push(cwd.components[j].clone());
            proof {
                assert(comps.deep_view() =~~= before.push(cwd.components@[j as int]@));
                assert(cwd@[j as int] == cwd.components@[j as int]@);
                assert(comps.deep_view() =~~= cwd@.take(keep as int).take(j as int + 1));
            }
            j = j + 1;
        }
        let ghost out_before = out.deep_view();
        out.push(DirPath { components: comps });
        proof {
            assert(cwd@.take(keep as int).take(keep as int) =~= cwd@.take(keep as int));
            assert(out.deep_view() =~~= out_before.push(cwd@.take(keep as int)));
            assert(candidates_spec(cwd@, home@)[i as int] == cwd@.take(keep as int));
            assert(out.deep_view() =~~= candidates_spec(cwd@, home@).take(i as int + 1));
        }
        i = i + 1;
    }
    proof {
        assert(candidates_spec(cwd@, home@).take(total as int) =~~= candidates_spec(
            cwd@,
            home@,
        ));
    }
    out
}

/// The index of the first probe that found the file: the walk stops and
/// returns on the first match.
pub fn first_match(exists: &Vec<bool>) -> (r: Option<usize>)
    ensures
        r matches Some(i) ==> i < exists@.len() && exists@[i as int] && (forall|j: int|
            0 <= j < i ==> !exists@[j]),
        r is None ==> forall|j: int| 0 <= j < exists@.len() ==> !exists@[j],
{
    let n = exists.len();
    let mut i: usize = 0;
    while i < n
        invariant
            0 <= i <= n,
            n == exists@.len(),
            forall|j: int| 0 <= j < i ==> !exists@[j],
        decreases n - i,
    {
        if exists[i] {
            return Some(i);
        }
        i = i + 1;
    }
    None
}

} // verus!
