//! Learning minimal LTL formulae from labelled samples of finite traces.
//!
//! Candidate formulae are enumerated by increasing size: first the shapes of
//! the trees ([`SkeletonTree::gen`]), then their labellings with operators and
//! atoms ([`SkeletonTree::gen_formulae`]), pruned by a local equivalence
//! filter ([`filter`]). The search ([`solve`]) returns the first candidate
//! that every positive trace satisfies and no negative trace does.
use vstd::prelude::*;

pub mod equivalences;
pub mod filter;
pub mod search;
pub mod skeleton;
pub mod syntax;
pub mod trace;

pub use filter::{
    check_and, check_finally, check_globally, check_implies, check_next, check_not, check_or,
    check_until,
};
pub use search::{find_first_consistent, solve, solve_size, PARALLEL_THRESHOLD};
pub use skeleton::SkeletonTree;
pub use syntax::SyntaxTree;
pub use trace::Sample;

verus! {

} // verus!
