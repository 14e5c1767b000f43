//! Scope filters over project paths: which files the analysis should
//! include, as plain path strings.

use vstd::prelude::*;
use crate::strings::{contains_sub, spec_contains_sub, spec_ends_with};

verus! {

/// Whether `path` passes the source-directory filter: no filter, or
/// some listed source root occurs in it.
pub open spec fn spec_passes_src(src: Option<Seq<Seq<char>>>, path: Seq<char>) -> bool {
    match src {
        None => true,
        Some(roots) => exists|k: int| 0 <= k < roots.len() && spec_contains_sub(path, #[trigger] roots[k]),
    }
}

/// Whether `path` passes the scope filter: no filter, or some scope
/// fragment occurs in it.
pub open spec fn spec_passes_scope(scope: Option<Seq<Seq<char>>>, path: Seq<char>) -> bool {
    match scope {
        None => true,
        Some(frags) => exists|k: int|
            0 <= k < frags.len() && spec_contains_sub(path, #[trigger] frags[k]),
    }
}

/// Whether `path` passes the exclusion filter: no filter, or no listed
/// fragment occurs in it.
pub open spec fn spec_passes_exclude(exclude: Option<Seq<Seq<char>>>, path: Seq<char>) -> bool {
    match exclude {
        None => true,
        Some(frags) => !(exists|k: int|
            0 <= k < frags.len() && spec_contains_sub(path, #[trigger] frags[k])),
    }
}

/// The fragment-list view of an optional filter.
pub open spec fn opt_views(o: Option<Vec<String>>) -> Option<Seq<Seq<char>>> {
    match o {
        None => None,
        Some(v) => Some(v@.map_values(|s: String| s@)),
    }
}

/// Whether any fragment of `frags` occurs in `path`.
#[verifier::loop_isolation(false)]
fn any_fragment_occurs(frags: &Vec<String>, path: &str) -> (r: bool)
    ensures
        r == exists|k: int|
            0 <= k < frags@.len() && spec_contains_sub(path@, (#[trigger] frags@[k])@),
{
    let mut k: usize = 0;
    while k < frags.len()
        invariant
            0 <= k <= frags@.len(),
            forall|k2: int| 0 <= k2 < k ==> !spec_contains_sub(path@, (#[trigger] frags@[k2])@),
        decreases frags@.len() - k,
    {
        if contains_sub(path, frags[k].as_str()) {
            proof {
                assert(spec_contains_sub(path@, (frags@[k as int])@));
            }
            return true;
        }
        k = k + 1;
    }
    false
}

proof fn lemma_fragment_transfer(frags: Seq<String>, path: Seq<char>)
    ensures
        ({
            let views = frags.map_values(|s: String| s@);
            (exists|k: int|
                0 <= k < frags.len() && spec_contains_sub(path, (#[trigger] frags[k])@)) <==> (
            exists|k: int| 0 <= k < views.len() && spec_contains_sub(path, #[trigger] views[k]))
        }),
{
    let views = frags.map_values(|s: String| s@);
    if exists|k: int| 0 <= k < frags.len() && spec_contains_sub(path, (#[trigger] frags[k])@) {
        let k = choose|k: int|
            0 <= k < frags.len() && spec_contains_sub(path, (#[trigger] frags[k])@);
        assert(views[k] == frags[k]@);
        assert(spec_contains_sub(path, views[k]));
    }
    if exists|k: int| 0 <= k < views.len() && spec_contains_sub(path, #[trigger] views[k]) {
        let k = choose|k: int| 0 <= k < views.len() && spec_contains_sub(path, #[trigger] views[k]);
        assert(views[k] == frags[k]@);
        assert(spec_contains_sub(path, frags[k]@));
    }
}

/// The source-directory filter.
pub fn passes_src(src: &Option<Vec<String>>, path: &str) -> (r: bool)
    ensures
        r == spec_passes_src(opt_views(*src), path@),
{
    match src {
        None => true,
        Some(roots) => {
            let r = any_fragment_occurs(roots, path);
            proof {
                lemma_fragment_transfer(roots@, path@);
            }
            r
        },
    }
}

/// The scope filter.
pub fn passes_scope(scope: &Option<Vec<String>>, path: &str) -> (r: bool)
    ensures
        r == spec_passes_scope(opt_views(*scope), path@),
{
    match scope {
        None => true,
        Some(frags) => {
            let r = any_fragment_occurs(frags, path);
            proof {
                lemma_fragment_transfer(frags@, path@);
            }
            r
        },
    }
}

/// The exclusion filter.
pub fn passes_exclude(exclude: &Option<Vec<String>>, path: &str) -> (r: bool)
    ensures
        r == spec_passes_exclude(opt_views(*exclude), path@),
{
    match exclude {
        None => true,
        Some(frags) => {
            let r = !any_fragment_occurs(frags, path);
            proof {
                assert(opt_views(*exclude) == Some(frags@.map_values(|s: String| s@)));
                lemma_fragment_transfer(frags@, path@);
            }
            r
        },
    }
}

/// Keeps the paths that pass all three filters, in order.
#[verifier::loop_isolation(false)]
pub fn get_relevant_pathbufs(
    pathbufs: &Vec<String>,
    src: &Option<Vec<String>>,
    scope: &Option<Vec<String>>,
    exclude: &Option<Vec<String>>,
) -> (r: Vec<String>)
    ensures
        r@.map_values(|s: String| s@) == pathbufs@.map_values(|s: String| s@).filter(
            |p: Seq<char>|
                spec_passes_src(opt_views(*src), p) && spec_passes_scope(opt_views(*scope), p)
                    && spec_passes_exclude(opt_views(*exclude), p),
        ),
{
    let ghost pred = |p: Seq<char>|
        spec_passes_src(opt_views(*src), p) && spec_passes_scope(opt_views(*scope), p)
            && spec_passes_exclude(opt_views(*exclude), p);
    let mut r: Vec<String> = Vec::new();
    let mut i: usize = 0;
    while i < pathbufs.len()
        invariant
            0 <= i <= pathbufs@.len(),
            r@.map_values(|s: String| s@) == pathbufs@.map_values(|s: String| s@).subrange(
                0,
                i as int,
            ).filter(pred),
        decreases pathbufs@.len() - i,
    {
        let p = &pathbufs[i];
        let keep = passes_src(src, p.as_str()) && passes_scope(scope, p.as_str()) && passes_exclude(
            exclude,
            p.as_str(),
        );
        proof {
            let views = pathbufs@.map_values(|s: String| s@);
            let prefix = views.subrange(0, i as int);
            let next = views.subrange(0, i as int + 1);
            assert(next.drop_last() =~= prefix);
            assert(next.last() == p@);
            reveal(Seq::filter);
            assert(keep == pred(p@));
        }
        if keep {
            r.push(p.clone());
            proof {
                let views = pathbufs@.map_values(|s: String| s@);
                assert(r@.map_values(|s: String| s@) =~= views.subrange(0, i as int).filter(
                    pred,
                ).push(p@));
                assert(views.subrange(0, i as int + 1).filter(pred) =~= views.subrange(
                    0,
                    i as int,
                ).filter(pred).push(p@));
            }
        } else {
            proof {
                let views = pathbufs@.map_values(|s: String| s@);
                assert(views.subrange(0, i as int + 1).filter(pred) =~= views.subrange(
                    0,
                    i as int,
                ).filter(pred));
            }
        }
        i = i + 1;
    }
    proof {
        assert(pathbufs@.map_values(|s: String| s@).subrange(
            0,
            pathbufs@.len() as int,
        ) =~= pathbufs@.map_values(|s: String| s@));
    }
    r
}

} // verus!
