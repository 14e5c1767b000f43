//! The build-output interface: the shapes handed over by the external
//! build-discovery collaborator, and the pure matching of build-output
//! files to the sources in scope.

use vstd::prelude::*;
use crate::ast::AstPayload;
use crate::strings::{contains_sub, spec_contains_sub};

verus! {

/// One build-output file's payload: the parsed syntax tree it carries.
pub struct FoundryOutput {
    pub ast: AstPayload,
}

/// What build discovery hands the core: the source directory, the
/// source files, and the matching build-output files.
pub struct LoadedFoundry {
    pub src_path: String,
    pub src_filepaths: Vec<String>,
    pub output_filepaths: Vec<String>,
}

/// The default source directory of a build configuration.
pub fn default_src() -> (r: String)
    ensures
        r@ == "src"@,
{
    String::from_str("src")
}

/// The default output directory of a build configuration.
pub fn default_out() -> (r: String)
    ensures
        r@ == "out"@,
{
    String::from_str("out")
}

/// The final path component of a slash-separated path: everything after
/// the last separator.
pub open spec fn spec_file_name(p: Seq<char>) -> Seq<char>
    decreases p.len(),
{
    if p.len() == 0 {
        p
    } else if p[p.len() - 1] == '/' {
        Seq::empty()
    } else {
        spec_file_name(p.subrange(0, p.len() - 1)).push(p[p.len() - 1])
    }
}

/// The final path component of a slash-separated path.
#[verifier::loop_isolation(false)]
pub fn file_name(p: &str) -> (r: String)
    ensures
        r@ == spec_file_name(p@),
{
    let n = p.unicode_len();
    let mut cut: usize = n;
    while cut > 0
        invariant
            0 <= cut <= n,
            n == p@.len(),
            forall|q: int| cut <= q < n ==> p@[q] != '/',
        decreases cut,
    {
        if p.get_char(cut - 1) == '/' {
            break ;
        }
        cut = cut - 1;
    }
    let r = p.substring_char(cut, n).to_owned();
    proof {
        lemma_file_name_suffix(p@, cut as int);
        assert(r@ =~= p@.subrange(cut as int, n as int));
    }
    r
}

proof fn lemma_file_name_suffix(p: Seq<char>, cut: int)
    requires
        0 <= cut <= p.len(),
        cut > 0 ==> p[cut - 1] == '/',
        forall|q: int| cut <= q < p.len() ==> p[q] != '/',
    ensures
        spec_file_name(p) == p.subrange(cut, p.len() as int),
    decreases p.len(),
{
    if p.len() == 0 {
        assert(spec_file_name(p) =~= p.subrange(0, 0));
    } else if p[p.len() - 1] == '/' {
        assert(cut == p.len());
        assert(spec_file_name(p) =~= p.subrange(cut, p.len() as int));
    } else {
        assert(cut < p.len());
        lemma_file_name_suffix(p.subrange(0, p.len() - 1), cut);
        assert(p.subrange(0, p.len() - 1).subrange(cut, p.len() - 1) =~= p.subrange(
            cut,
            p.len() - 1,
        ));
        assert(spec_file_name(p) =~= p.subrange(cut, p.len() as int));
    }
}

/// Whether an output path matches some source file: it contains that
/// source's file name.
pub open spec fn spec_output_matches(out: Seq<char>, srcs: Seq<String>) -> bool {
    exists|k: int|
        0 <= k < srcs.len() && spec_contains_sub(out, spec_file_name((#[trigger] srcs[k])@))
}

/// Keeps the build-output files that correspond to a source in scope:
/// the subsequence of the inputs, order preserved, of those whose path
/// contains some source file's name.  (Old or import-only outputs match
/// no source and are dropped.)
#[verifier::loop_isolation(false)]
pub fn get_matching_output_files(
    json_output_filepaths: &Vec<String>,
    src_filepaths: &Vec<String>,
) -> (r: Vec<String>)
    ensures
        r@.map_values(|s: String| s@) == json_output_filepaths@.map_values(|s: String| s@).filter(
            |p: Seq<char>| spec_output_matches(p, src_filepaths@),
        ),
{
    let ghost pred = |p: Seq<char>| spec_output_matches(p, src_filepaths@);
    let mut r: Vec<String> = Vec::new();
    let mut i: usize = 0;
    while i < json_output_filepaths.len()
        invariant
            0 <= i <= json_output_filepaths@.len(),
            r@.map_values(|s: String| s@) == json_output_filepaths@.map_values(
                |s: String| s@,
            ).subrange(0, i as int).filter(pred),
        decreases json_output_filepaths@.len() - i,
    {
        let out = &json_output_filepaths[i];
        let mut matched = false;
        let mut k: usize = 0;
        while k < src_filepaths.len()
            invariant
                0 <= k <= src_filepaths@.len(),
                matched ==> spec_output_matches(out@, src_filepaths@),
                !matched ==> forall|k2: int|
                    0 <= k2 < k ==> !spec_contains_sub(
                        out@,
                        spec_file_name((#[trigger] src_filepaths@[k2])@),
                    ),
            decreases src_filepaths@.len() - k,
        {
            let name = file_name(src_filepaths[k].as_str());
            if contains_sub(out.as_str(), name.as_str()) {
                matched = true;
            }
            k = k + 1;
        }
        proof {
            if !matched && spec_output_matches(out@, src_filepaths@) {
                let k2 = choose|k2: int|
                    0 <= k2 < src_filepaths@.len() && spec_contains_sub(
                        out@,
                        spec_file_name((#[trigger] src_filepaths@[k2])@),
                    );
                assert(false);
            }
            let views = json_output_filepaths@.map_values(|s: String| s@);
            let prefix = views.subrange(0, i as int);
            let next = views.subrange(0, i as int + 1);
            assert(next.drop_last() =~= prefix);
            assert(next.last() == out@);
            reveal(Seq::filter);
            assert(matched == pred(out@));
        }
        if matched {
            r.push(out.clone());
            proof {
                let views = json_output_filepaths@.map_values(|s: String| s@);
                assert(r@.map_values(|s: String| s@) =~= views.subrange(0, i as int).filter(
                    pred,
                ).push(out@));
                assert(views.subrange(0, i as int + 1).filter(pred) =~= views.subrange(
                    0,
                    i as int,
                ).filter(pred).push(out@));
            }
        } else {
            proof {
                let views = json_output_filepaths@.map_values(|s: String| s@);
                assert(views.subrange(0, i as int + 1).filter(pred) =~= views.subrange(
                    0,
                    i as int,
                ).filter(pred));
            }
        }
        i = i + 1;
    }
    proof {
        assert(json_output_filepaths@.map_values(|s: String| s@).subrange(
            0,
            json_output_filepaths@.len() as int,
        ) =~= json_output_filepaths@.map_values(|s: String| s@));
    }
    r
}

} // verus!
