//! The search driver: enumerate candidates size by size and return the first
//! one consistent with the sample.
use crate::skeleton::{formulae, lemma_formulae_shape, skeletons, SkeletonTree};
use crate::syntax::{formula_size, well_formed, SyntaxTree};
use crate::trace::Sample;
use rayon::iter::{IntoParallelIterator, ParallelIterator};
use vstd::prelude::*;

verus! {

/// Below this size the serial search is used even in parallel mode: the cost
/// of spreading the work over threads outweighs the gain.
pub const PARALLEL_THRESHOLD: usize = 6;

/// The formulae of each skeleton of `sks` over `n` variables, one skeleton after the other.
pub open spec fn formulae_of(sks: Seq<SkeletonTree>, n: nat) -> Seq<SyntaxTree>
    decreases sks.len(),
{
    if sks.len() == 0 {
        Seq::empty()
    } else {
        formulae_of(sks.drop_last(), n) + formulae(sks.last(), n)
    }
}

/// All candidate formulae of the given size over `n` variables, in the order of enumeration.
pub open spec fn candidates(size: nat, n: nat) -> Seq<SyntaxTree> {
    formulae_of(skeletons(size), n)
}

/// No formula of `fs` is consistent with the sample.
pub open spec fn none_consistent<const N: usize>(sample: &Sample<N>, fs: Seq<SyntaxTree>) -> bool {
    forall|k: int| 0 <= k < fs.len() ==> !sample.consistent_with(#[trigger] fs[k])
}

/// `f` is the first formula of `fs` that is consistent with the sample.
pub open spec fn first_consistent<const N: usize>(
    sample: &Sample<N>,
    fs: Seq<SyntaxTree>,
    f: SyntaxTree,
) -> bool {
    exists|k: int|
        0 <= k < fs.len() && fs[k] == f && sample.consistent_with(f) && none_consistent(
            sample,
            #[trigger] fs.take(k),
        )
}

/// `f` is a candidate consistent with the sample, and no candidate of a smaller
/// size is.
pub open spec fn minimal_solution<const N: usize>(sample: &Sample<N>, f: SyntaxTree) -> bool {
    &&& candidates(formula_size(f), N as nat).contains(f)
    &&& sample.consistent_with(f)
    &&& forall|m: nat| 1 <= m < formula_size(f) ==> none_consistent(sample, #[trigger] candidates(m, N as nat))
}

/// Every candidate of `formulae_of(sks, n)` is well formed over `n` variables and
/// has the size of its skeleton.
pub proof fn lemma_formulae_of_shape(sks: Seq<SkeletonTree>, n: nat, size: nat)
    requires
        forall|k: int| 0 <= k < sks.len() ==> crate::skeleton::skeleton_size(#[trigger] sks[k]) == size,
    ensures
        forall|k: int|
            0 <= k < formulae_of(sks, n).len() ==> well_formed(#[trigger] formulae_of(sks, n)[k], n)
                && formula_size(formulae_of(sks, n)[k]) == size,
    decreases sks.len(),
{
    if sks.len() > 0 {
        lemma_formulae_of_shape(sks.drop_last(), n, size);
        let last = sks.last();
        assert(crate::skeleton::skeleton_size(last) == size);
        lemma_formulae_shape(&last, n);
        let (a, b) = (formulae_of(sks.drop_last(), n), formulae(last, n));
        assert forall|k: int| 0 <= k < (a + b).len() implies well_formed(#[trigger] (a + b)[k], n)
            && formula_size((a + b)[k]) == size by {
            if k < a.len() {
                assert((a + b)[k] == a[k]);
            } else {
                assert((a + b)[k] == b[k - a.len()]);
            }
        }
    }
}

/// Every candidate of the given size is well formed and has that size.
pub proof fn lemma_candidates_shape(size: nat, n: nat)
    ensures
        forall|k: int|
            0 <= k < candidates(size, n).len() ==> well_formed(#[trigger] candidates(size, n)[k], n)
                && formula_size(candidates(size, n)[k]) == size,
{
    crate::skeleton::lemma_skeletons_have_size(size);
    lemma_formulae_of_shape(skeletons(size), n, size);
}

/// Relies on rayon's `flat_map` and `find_any`: the formulae of all skeletons are
/// searched in parallel, and some formula that passes the consistency test is
/// returned, or `None` when none does. Which one comes back depends on scheduling.
#[verifier::external_body]
fn find_any_consistent<const N: usize>(sks: Vec<SkeletonTree>, sample: &Sample<N>) -> (r: Option<
    SyntaxTree,
>)
    requires
        sample.well_formed(),
        forall|k: int|
            0 <= k < formulae_of(sks@, N as nat).len() ==> well_formed(
                #[trigger] formulae_of(sks@, N as nat)[k],
                N as nat,
            ),
    ensures
        match r {
            Some(f) => formulae_of(sks@, N as nat).contains(f) && sample.consistent_with(f),
            None => none_consistent(sample, formulae_of(sks@, N as nat)),
        },
{
    sks.into_par_iter().flat_map(|s: SkeletonTree| s.gen_formulae::<N>()).find_any(
        |f: &SyntaxTree| sample.is_consistent(f),
    )
}

/// The first formula of the skeletons' formulae, in order, that is consistent with the sample.
pub fn find_first_consistent<const N: usize>(sks: &Vec<SkeletonTree>, sample: &Sample<N>) -> (r:
    Option<SyntaxTree>)
    requires
        sample.well_formed(),
        forall|k: int|
            0 <= k < formulae_of(sks@, N as nat).len() ==> well_formed(
                #[trigger] formulae_of(sks@, N as nat)[k],
                N as nat,
            ),
    ensures
        match r {
            Some(f) => first_consistent(sample, formulae_of(sks@, N as nat), f),
            None => none_consistent(sample, formulae_of(sks@, N as nat)),
        },
{
    let ghost all = formulae_of(sks@, N as nat);
    let mut i: usize = 0;
    while i < sks.len()
        invariant
            sample.well_formed(),
            i <= sks.len(),
            all == formulae_of(sks@, N as nat),
            forall|k: int| 0 <= k < all.len() ==> well_formed(#[trigger] all[k], N as nat),
            all.take(formulae_of(sks@.take(i as int), N as nat).len() as int) == formulae_of(
                sks@.take(i as int),
                N as nat,
            ),
            formulae_of(sks@.take(i as int), N as nat).len() <= all.len(),
            none_consistent(sample, formulae_of(sks@.take(i as int), N as nat)),
        decreases sks.len() - i,
    {
        proof {
            lemma_formulae_of_prefix(sks@, i as int + 1, N as nat);
            assert(sks@.take(i + 1).drop_last() =~= sks@.take(i as int));
        }
        let ghost done = formulae_of(sks@.take(i as int), N as nat);
        let fs = sks[i].gen_formulae::<N>();
        let mut j: usize = 0;
        while j < fs.len()
            invariant
                sample.well_formed(),
                i < sks.len(),
                j <= fs.len(),
                fs@ == formulae(sks@[i as int], N as nat),
                all == formulae_of(sks@, N as nat),
                forall|k: int| 0 <= k < all.len() ==> well_formed(#[trigger] all[k], N as nat),
                done == formulae_of(sks@.take(i as int), N as nat),
                all.take((done.len() + fs.len()) as int) == done + fs@,
                done.len() + fs.len() <= all.len(),
                none_consistent(sample, done + fs@.take(j as int)),
            decreases fs.len() - j,
        {
            proof {
                assert(all[done.len() + j] == (done + fs@)[done.len() + j]);
            }
            if sample.is_consistent(&fs[j]) {
                proof {
                    let k = done.len() + j;
                    assert(all.take(k) =~= done + fs@.take(j as int));
                    assert(all[k] == fs@[j as int]);
                }
                return Some(fs[j].share());
            }
            proof {
                assert(done + fs@.take(j + 1) =~= (done + fs@.take(j as int)).push(fs@[j as int]));
            }
            j += 1;
        }
        proof {
            assert(fs@.take(j as int) =~= fs@);
        }
        i += 1;
    }
    proof {
        assert(sks@.take(i as int) =~= sks@);
    }
    None
}

/// `formulae_of` of a prefix is a prefix of `formulae_of`.
proof fn lemma_formulae_of_prefix(sks: Seq<SkeletonTree>, i: int, n: nat)
    requires
        0 <= i <= sks.len(),
    ensures
        formulae_of(sks, n).take(formulae_of(sks.take(i), n).len() as int) == formulae_of(
            sks.take(i),
            n,
        ),
        formulae_of(sks.take(i), n).len() <= formulae_of(sks, n).len(),
    decreases sks.len() - i,
{
    if i < sks.len() {
        lemma_formulae_of_prefix(sks, i + 1, n);
        assert(sks.take(i + 1).drop_last() =~= sks.take(i));
        let (a, b) = (formulae_of(sks.take(i), n), formulae(sks[i], n));
        assert(formulae_of(sks.take(i + 1), n) == a + b);
        assert((a + b).take(a.len() as int) =~= a);
    } else {
        assert(sks.take(i) =~= sks);
        assert(formulae_of(sks, n).take(formulae_of(sks, n).len() as int) =~= formulae_of(sks, n));
    }
}

/// Searches the candidates of one size. In parallel mode, from
/// `PARALLEL_THRESHOLD` on, the candidates are searched on many threads and any
/// consistent one may come back; otherwise the first consistent one does.
pub fn solve_size<const N: usize>(sample: &Sample<N>, size: usize, parallel: bool) -> (r: Option<
    SyntaxTree,
>)
    requires
        sample.well_formed(),
        size >= 1,
    ensures
        match r {
            Some(f) => {
                &&& candidates(size as nat, N as nat).contains(f)
                &&& sample.consistent_with(f)
                &&& formula_size(f) == size
                &&& (!parallel || size < PARALLEL_THRESHOLD) ==> first_consistent(
                    sample,
                    candidates(size as nat, N as nat),
                    f,
                )
            },
            None => none_consistent(sample, candidates(size as nat, N as nat)),
        },
{
    let sks = SkeletonTree::gen(size);
    proof {
        lemma_candidates_shape(size as nat, N as nat);
        assert(candidates(size as nat, N as nat) == formulae_of(sks@, N as nat));
    }
    let r = if parallel && size >= PARALLEL_THRESHOLD {
        find_any_consistent(sks, sample)
    } else {
        find_first_consistent(&sks, sample)
    };
    proof {
        let cs = candidates(size as nat, N as nat);
        if r is Some {
            let f = r->Some_0;
            if !parallel || size < PARALLEL_THRESHOLD {
                let k = choose|k: int|
                    0 <= k < cs.len() && cs[k] == f && sample.consistent_with(f) && none_consistent(
                        sample,
                        #[trigger] cs.take(k),
                    );
                assert(cs[k] == f);
            }
            let k = choose|k: int| 0 <= k < cs.len() && cs[k] == f;
            assert(formula_size(cs[k]) == size);
        }
    }
    r
}

/// Finds a formula of least size consistent with the sample, trying sizes 1, 2, ...
/// in turn. In serial mode the result is the first consistent candidate of
/// that size.
pub fn solve<const N: usize>(sample: &Sample<N>, parallel: bool) -> (r: Option<SyntaxTree>)
    requires
        sample.well_formed(),
    ensures
        match r {
            Some(f) => {
                &&& minimal_solution(sample, f)
                &&& (!parallel || formula_size(f) < PARALLEL_THRESHOLD) ==> first_consistent(
                    sample,
                    candidates(formula_size(f), N as nat),
                    f,
                )
            },
            None => forall|m: nat|
                1 <= m <= usize::MAX ==> none_consistent(sample, #[trigger] candidates(m, N as nat)),
        },
{
    let mut size: usize = 1;
    loop
        invariant
            sample.well_formed(),
            1 <= size,
            forall|m: nat| 1 <= m < size ==> none_consistent(sample, #[trigger] candidates(m, N as nat)),
        decreases usize::MAX - size,
    {
        match solve_size(sample, size, parallel) {
            Some(f) => {
                return Some(f);
            },
            None => {},
        }
        if size == usize::MAX {
            return None;
        }
        size += 1;
    }
}

/// Two minimal solutions of one sample have the same size: the serial and the
/// parallel search agree on the size of what they return.
pub proof fn lemma_minimal_solutions_agree_on_size<const N: usize>(
    sample: &Sample<N>,
    f: SyntaxTree,
    g: SyntaxTree,
)
    requires
        minimal_solution(sample, f),
        minimal_solution(sample, g),
    ensures
        formula_size(f) == formula_size(g),
{
    lemma_candidates_shape(formula_size(f), N as nat);
    lemma_candidates_shape(formula_size(g), N as nat);
    if formula_size(f) < formula_size(g) {
        let cs = candidates(formula_size(f), N as nat);
        let k = choose|k: int| 0 <= k < cs.len() && cs[k] == f;
        assert(formula_size(f) >= 1);
        assert(none_consistent(sample, cs));
        assert(!sample.consistent_with(cs[k]));
    } else if formula_size(g) < formula_size(f) {
        let cs = candidates(formula_size(g), N as nat);
        let k = choose|k: int| 0 <= k < cs.len() && cs[k] == g;
        assert(formula_size(g) >= 1);
        assert(none_consistent(sample, cs));
        assert(!sample.consistent_with(cs[k]));
    }
}

} // verus!
