pub mod compile_task;
pub mod enviroment;
pub mod text;

use vstd::prelude::*;

use crate::text::{spec_join, spec_split};

verus! {

/// The namespace a compiled file gets: the last `/`-separated component of
/// its path.
pub open spec fn spec_namespace_of(path: Seq<char>) -> Seq<char> {
    spec_split(path, '/').last()
}

/// The last `/`-separated component of a path, the name the datapack's
/// namespace is taken from.
pub fn namespace_of(path: &str) -> (r: String)
    ensures
        r@ == spec_namespace_of(path@),
{
    let chars = crate::text::to_char_vec(path);
    let parts = crate::text::split_on_char(&chars, '/');
    proof {
        crate::text::lemma_split_len(path@, '/');
        assert(crate::compile_task::strs_view(parts@).last() == parts@[parts@.len() - 1]@);
    }
    parts[parts.len() - 1].clone()
}

/// The candidate roots a project marker is searched in: the `\`-separated
/// prefixes of the path, longest first, each joined with `/`.
pub fn chest_candidates(path: &str) -> (r: Vec<String>)
    ensures
        ({
            let parts = spec_split(path@, '\\');
            r@.len() == parts.len() && forall|i: int|
                0 <= i < r@.len() ==> r@[i]@ == spec_join(
                    parts.take(parts.len() - i),
                    "/".view(),
                )
        }),
{
    let chars = crate::text::to_char_vec(path);
    let parts = crate::text::split_on_char(&chars, '\\');
    let ghost partsv = spec_split(path@, '\\');
    let n = parts.len();
    let mut r: Vec<String> = Vec::new();
    let mut i: usize = 0;
    while i < n
        invariant
            i <= n,
            n == parts@.len(),
            crate::compile_task::strs_view(parts@) == partsv,
            partsv.len() == n,
            r@.len() == i,
            forall|k: int|
                0 <= k < i ==> r@[k]@ == spec_join(partsv.take(partsv.len() - k), "/".view()),
        decreases n - i,
    {
        let mut prefix: Vec<String> = Vec::new();
        let mut j: usize = 0;
        while j < n - i
            invariant
                j <= n - i,
                i < n || j == 0,
                n == parts@.len(),
                crate::compile_task::strs_view(parts@) == partsv,
                partsv.len() == n,
                crate::compile_task::strs_view(prefix@) =~= partsv.take(j as int),
            decreases n - i - j,
        {
            let ghost before = crate::compile_task::strs_view(prefix@);
            prefix.push(parts[j].clone());
            proof {
                assert(crate::compile_task::strs_view(prefix@) =~= before.push(
                    parts@[j as int]@,
                ));
            }
            j = j + 1;
        }
        let joined = crate::text::join_strings(&prefix, "/");
        proof {
            assert(crate::compile_task::strs_view(prefix@) =~= partsv.take(n - i));
        }
        r.push(joined);
        i = i + 1;
    }
    r
}

} // verus!
