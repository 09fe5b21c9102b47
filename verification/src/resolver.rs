//! Traversal-safe resolution of a dataset reference.
//!
//! The caller resolves the configured base directory and the joined
//! candidate to their real (symlink-free) forms and hands both over as
//! component lists; the decision which path may be used is made here.

use vstd::prelude::*;
use vstd::string::*;

verus! {

/// The components of a path as character sequences.
pub open spec fn path_view(p: Seq<String>) -> Seq<Seq<char>> {
    p.map_values(|s: String| s@)
}

/// `p` is the base itself or a descendant of it: the base's components are
/// a prefix of `p`'s.
pub open spec fn is_within(base: Seq<Seq<char>>, p: Seq<Seq<char>>) -> bool {
    base.len() <= p.len() && p.take(base.len() as int) == base
}

/// Decide which directory a dataset reference may use.  The candidate is
/// accepted only if its real path lies under the real base directory;
/// otherwise the base itself is returned, a deliberately inert fallback so
/// that a traversal attempt resolves to nothing outside the sandbox.
pub fn resolve_dataset_path(base_real: &Vec<String>, candidate_real: &Vec<String>) -> (r: Vec<
    String,
>)
    ensures
        is_within(path_view(base_real@), path_view(r@)),
        is_within(path_view(base_real@), path_view(candidate_real@)) ==> path_view(r@)
            == path_view(candidate_real@),
        !is_within(path_view(base_real@), path_view(candidate_real@)) ==> path_view(r@)
            == path_view(base_real@),
{
    if is_prefix(base_real, candidate_real) {
        let r = copy_strings(candidate_real);
        proof {
            assert(path_view(r@) =~= path_view(candidate_real@));
        }
        r
    } else {
        let r = copy_strings(base_real);
        proof {
            assert(path_view(r@) =~= path_view(base_real@));
            assert(path_view(r@).take(path_view(base_real@).len() as int) =~= path_view(
                base_real@,
            ));
        }
        r
    }
}

/// Whether the base components are a prefix of the candidate components.
fn is_prefix(base: &Vec<String>, cand: &Vec<String>) -> (r: bool)
    ensures
        r == is_within(path_view(base@), path_view(cand@)),
{
    if base.len() > cand.len() {
        return false;
    }
    let mut i: usize = 0;
    while i < base.len()
        invariant
            i <= base@.len() <= cand@.len(),
            forall|k: int|
                0 <= k < i ==> #[trigger] path_view(cand@)[k] == path_view(base@)[k],
        decreases base.len() - i,
    {
        if !strings_equal(&base[i], &cand[i]) {
            proof {
                if is_within(path_view(base@), path_view(cand@)) {
                    assert(path_view(cand@).take(path_view(base@).len() as int)[i as int]
                        == path_view(cand@)[i as int]);
                    assert(false);
                }
            }
            return false;
        }
        i += 1;
    }
    proof {
        assert(path_view(cand@).take(base@.len() as int) =~= path_view(base@));
    }
    true
}

/// Compare two strings by their characters.
fn strings_equal(a: &String, b: &String) -> (r: bool)
    ensures
        r == (a@ == b@),
{
    a.eq(b)
}

/// Copy a component list.
fn copy_strings(v: &Vec<String>) -> (r: Vec<String>)
    ensures
        r@.len() == v@.len(),
        forall|k: int| 0 <= k < v@.len() ==> #[trigger] r@[k]@ == v@[k]@,
{
    let mut out: Vec<String> = Vec::new();
    let mut i: usize = 0;
    while i < v.len()
        invariant
            i <= v@.len(),
            out@.len() == i,
            forall|k: int| 0 <= k < i ==> #[trigger] out@[k]@ == v@[k]@,
        decreases v.len() - i,
    {
        out.push(v[i].clone());
        i += 1;
    }
    out
}

} // verus!
