//! The equivalences of finite-trace LTL that the filter's rules rest on: each
//! shape that a rule drops agrees, at every position of every trace, with the
//! shape written beside it, which is never larger. The constant shapes are
//! the exception: no candidate of at most 3 nodes is constant.
use crate::syntax::SyntaxTree;
use crate::trace::{holds, truth_values};
use std::sync::Arc;
use vstd::prelude::*;

verus! {

pub open spec fn neg(a: SyntaxTree) -> SyntaxTree {
    SyntaxTree::Not(Arc::new(a))
}

pub open spec fn next(a: SyntaxTree) -> SyntaxTree {
    SyntaxTree::Next(Arc::new(a))
}

pub open spec fn always(a: SyntaxTree) -> SyntaxTree {
    SyntaxTree::Globally(Arc::new(a))
}

pub open spec fn eventually(a: SyntaxTree) -> SyntaxTree {
    SyntaxTree::Finally(Arc::new(a))
}

pub open spec fn conj(a: SyntaxTree, b: SyntaxTree) -> SyntaxTree {
    SyntaxTree::And(Arc::new(a), Arc::new(b))
}

pub open spec fn disj(a: SyntaxTree, b: SyntaxTree) -> SyntaxTree {
    SyntaxTree::Or(Arc::new(a), Arc::new(b))
}

pub open spec fn imp(a: SyntaxTree, b: SyntaxTree) -> SyntaxTree {
    SyntaxTree::Implies(Arc::new(a), Arc::new(b))
}

pub open spec fn until(a: SyntaxTree, b: SyntaxTree) -> SyntaxTree {
    SyntaxTree::Until(Arc::new(a), Arc::new(b))
}

/// `a` and `b` have the same truth value at every position of `tr`.
pub open spec fn agree<const N: usize>(a: SyntaxTree, b: SyntaxTree, tr: Seq<[bool; N]>) -> bool {
    forall|t: int| 0 <= t < tr.len() ==> #[trigger] holds(a, tr, t) == holds(b, tr, t)
}

/// Propositional rewrites: ¬¬a ≡ a, ¬(a → b) ≡ a ∧ ¬b, ¬a → b ≡ a ∨ b,
/// a → ¬b ≡ ¬(a ∧ b), a → (b → c) ≡ (a ∧ b) → c, ¬a ∨ b ≡ a → b,
/// ¬(¬a ∧ b) ≡ a ∨ ¬b, ¬(¬a ∨ b) ≡ a ∧ ¬b, ¬(a ∧ ¬b) ≡ ¬a ∨ b,
/// ¬(a ∨ ¬b) ≡ ¬a ∧ b, ¬a ∧ ¬b ≡ ¬(a ∨ b).
pub proof fn lemma_propositional_rewrites<const N: usize>(
    a: SyntaxTree,
    b: SyntaxTree,
    c: SyntaxTree,
    tr: Seq<[bool; N]>,
)
    ensures
        agree(neg(neg(a)), a, tr),
        agree(neg(imp(a, b)), conj(a, neg(b)), tr),
        agree(imp(neg(a), b), disj(a, b), tr),
        agree(imp(a, neg(b)), neg(conj(a, b)), tr),
        agree(imp(a, imp(b, c)), imp(conj(a, b), c), tr),
        agree(disj(neg(a), b), imp(a, b), tr),
        agree(neg(conj(neg(a), b)), disj(a, neg(b)), tr),
        agree(neg(disj(neg(a), b)), conj(a, neg(b)), tr),
        agree(neg(conj(a, neg(b))), disj(neg(a), b), tr),
        agree(neg(disj(a, neg(b))), conj(neg(a), b), tr),
        agree(conj(neg(a), neg(b)), neg(disj(a, b)), tr),
{
    reveal_with_fuel(truth_values, 4);
}

/// ¬F a ≡ G ¬a.
pub proof fn lemma_not_finally<const N: usize>(a: SyntaxTree, tr: Seq<[bool; N]>)
    ensures
        agree(neg(eventually(a)), always(neg(a)), tr),
{
    let v = truth_values(a, tr);
    let nv = truth_values(neg(a), tr);
    let f = truth_values(eventually(a), tr);
    let g = truth_values(always(neg(a)), tr);
    assert(forall|s: int| 0 <= s < tr.len() ==> #[trigger] nv[s] == !v[s]);
    assert forall|t: int| 0 <= t < tr.len() implies #[trigger] holds(neg(eventually(a)), tr, t)
        == holds(always(neg(a)), tr, t) by {
        assert(holds(neg(eventually(a)), tr, t) == !f[t]);
        if !g[t] {
            let s = choose|s: int| t <= s < tr.len() && !#[trigger] nv[s];
            assert(v[s]);
        }
        if f[t] {
            let s = choose|s: int| t <= s < tr.len() && #[trigger] v[s];
            assert(!nv[s]);
        }
    }
}

/// X ¬a ≡ ¬X a.
pub proof fn lemma_next_not<const N: usize>(a: SyntaxTree, tr: Seq<[bool; N]>)
    ensures
        agree(next(neg(a)), neg(next(a)), tr),
{
    reveal_with_fuel(truth_values, 3);
}

/// G G a ≡ G a and F F a ≡ F a.
pub proof fn lemma_idempotence<const N: usize>(a: SyntaxTree, tr: Seq<[bool; N]>)
    ensures
        agree(always(always(a)), always(a), tr),
        agree(eventually(eventually(a)), eventually(a), tr),
{
    let v = truth_values(a, tr);
    let g = truth_values(always(a), tr);
    let gg = truth_values(always(always(a)), tr);
    let f = truth_values(eventually(a), tr);
    let ff = truth_values(eventually(eventually(a)), tr);
    assert forall|t: int| 0 <= t < tr.len() implies #[trigger] holds(always(always(a)), tr, t)
        == holds(always(a), tr, t) by {
        if g[t] {
            assert forall|s: int| t <= s < tr.len() implies #[trigger] g[s] by {
                assert forall|u: int| s <= u < tr.len() implies #[trigger] v[u] by {
                    assert(t <= u);
                }
            }
        }
        if gg[t] {
            assert(g[t]);
        }
    }
    assert forall|t: int| 0 <= t < tr.len() implies #[trigger] holds(eventually(eventually(a)), tr, t)
        == holds(eventually(a), tr, t) by {
        if ff[t] {
            let s = choose|s: int| t <= s < tr.len() && #[trigger] f[s];
            let u = choose|u: int| s <= u < tr.len() && #[trigger] v[u];
            assert(t <= u);
        }
        if f[t] {
            assert(f[t]);
        }
    }
}

/// X G a ≡ G X a and X F a ≡ F X a: the last state is its own successor.
pub proof fn lemma_next_commutes<const N: usize>(a: SyntaxTree, tr: Seq<[bool; N]>)
    ensures
        agree(next(always(a)), always(next(a)), tr),
        agree(next(eventually(a)), eventually(next(a)), tr),
{
    let len = tr.len();
    let v = truth_values(a, tr);
    let xv = truth_values(next(a), tr);
    let g = truth_values(always(a), tr);
    let f = truth_values(eventually(a), tr);
    assert(forall|s: int| 0 <= s < len ==> #[trigger] xv[s] == v[crate::trace::successor(len, s)]);
    assert forall|t: int| 0 <= t < len implies #[trigger] holds(next(always(a)), tr, t) == holds(
        always(next(a)),
        tr,
        t,
    ) by {
        let n = crate::trace::successor(len, t);
        assert(holds(next(always(a)), tr, t) == g[n]);
        if g[n] {
            assert forall|s: int| t <= s < len implies #[trigger] xv[s] by {
                assert(v[crate::trace::successor(len, s)]);
            }
        }
        if forall|s: int| t <= s < len ==> #[trigger] xv[s] {
            assert forall|u: int| n <= u < len implies #[trigger] v[u] by {
                if u >= t + 1 {
                    assert(xv[u - 1]);
                } else {
                    assert(xv[u]);
                }
            }
        }
    }
    assert forall|t: int| 0 <= t < len implies #[trigger] holds(next(eventually(a)), tr, t) == holds(
        eventually(next(a)),
        tr,
        t,
    ) by {
        let n = crate::trace::successor(len, t);
        assert(holds(next(eventually(a)), tr, t) == f[n]);
        if f[n] {
            let u = choose|u: int| n <= u < len && #[trigger] v[u];
            if u >= t + 1 {
                assert(xv[u - 1]);
            } else {
                assert(xv[u]);
            }
        }
        if exists|s: int| t <= s < len && #[trigger] xv[s] {
            let s = choose|s: int| t <= s < len && #[trigger] xv[s];
            assert(v[crate::trace::successor(len, s)]);
        }
    }
}

/// Propositional rewrites on two binary nodes: (a → b) ∧ (a → c) ≡ a → (b ∧ c),
/// (a → c) ∧ (b → c) ≡ (a ∨ b) → c, (a → b) ∨ (a → c) ≡ a → (b ∨ c),
/// (a → c) ∨ (b → c) ≡ (a ∧ b) → c, (a ∨ b) ∧ a ≡ a, (a ∧ b) ∨ a ≡ a,
/// (a ∨ b) ∧ (a ∨ c) ≡ a ∨ (b ∧ c), (a ∧ b) ∨ (a ∧ c) ≡ a ∧ (b ∨ c).
pub proof fn lemma_shared_child_rewrites<const N: usize>(
    a: SyntaxTree,
    b: SyntaxTree,
    c: SyntaxTree,
    tr: Seq<[bool; N]>,
)
    ensures
        agree(conj(imp(a, b), imp(a, c)), imp(a, conj(b, c)), tr),
        agree(conj(imp(a, c), imp(b, c)), imp(disj(a, b), c), tr),
        agree(disj(imp(a, b), imp(a, c)), imp(a, disj(b, c)), tr),
        agree(disj(imp(a, c), imp(b, c)), imp(conj(a, b), c), tr),
        agree(conj(disj(a, b), a), a, tr),
        agree(disj(conj(a, b), a), a, tr),
        agree(conj(disj(a, b), disj(a, c)), disj(a, conj(b, c)), tr),
        agree(disj(conj(a, b), conj(a, c)), conj(a, disj(b, c)), tr),
{
    reveal_with_fuel(truth_values, 4);
}

/// X a ∧ X b ≡ X (a ∧ b), X a ∨ X b ≡ X (a ∨ b), G a ∧ G b ≡ G (a ∧ b) and
/// F a ∨ F b ≡ F (a ∨ b).
pub proof fn lemma_distribution<const N: usize>(a: SyntaxTree, b: SyntaxTree, tr: Seq<[bool; N]>)
    ensures
        agree(conj(next(a), next(b)), next(conj(a, b)), tr),
        agree(disj(next(a), next(b)), next(disj(a, b)), tr),
        agree(conj(always(a), always(b)), always(conj(a, b)), tr),
        agree(disj(eventually(a), eventually(b)), eventually(disj(a, b)), tr),
{
    reveal_with_fuel(truth_values, 3);
    let (va, vb) = (truth_values(a, tr), truth_values(b, tr));
    let ab = truth_values(conj(a, b), tr);
    let aob = truth_values(disj(a, b), tr);
    assert(forall|s: int| 0 <= s < tr.len() ==> #[trigger] ab[s] == (va[s] && vb[s]));
    assert(forall|s: int| 0 <= s < tr.len() ==> #[trigger] aob[s] == (va[s] || vb[s]));
    let (ga, gb) = (truth_values(always(a), tr), truth_values(always(b), tr));
    let gab = truth_values(always(conj(a, b)), tr);
    assert forall|t: int| 0 <= t < tr.len() implies #[trigger] holds(
        conj(always(a), always(b)),
        tr,
        t,
    ) == holds(always(conj(a, b)), tr, t) by {
        assert(holds(conj(always(a), always(b)), tr, t) == (ga[t] && gb[t]));
        if ga[t] && gb[t] {
            assert forall|s: int| t <= s < tr.len() implies #[trigger] ab[s] by {
                assert(va[s] && vb[s]);
            }
        }
        if !ga[t] {
            let s = choose|s: int| t <= s < tr.len() && !#[trigger] va[s];
            assert(!ab[s]);
        }
        if !gb[t] {
            let s = choose|s: int| t <= s < tr.len() && !#[trigger] vb[s];
            assert(!ab[s]);
        }
    }
    assert forall|t: int| 0 <= t < tr.len() implies #[trigger] holds(
        disj(eventually(a), eventually(b)),
        tr,
        t,
    ) == holds(eventually(disj(a, b)), tr, t) by {
        if exists|s: int| t <= s < tr.len() && #[trigger] aob[s] {
            let s = choose|s: int| t <= s < tr.len() && #[trigger] aob[s];
            if va[s] {
                assert(truth_values(eventually(a), tr)[t]);
            } else {
                assert(truth_values(eventually(b), tr)[t]);
            }
        }
        if truth_values(eventually(a), tr)[t] {
            let s = choose|s: int| t <= s < tr.len() && #[trigger] va[s];
            assert(aob[s]);
        }
        if truth_values(eventually(b), tr)[t] {
            let s = choose|s: int| t <= s < tr.len() && #[trigger] vb[s];
            assert(aob[s]);
        }
    }
}

/// G a ≡ a ∧ X G a and F a ≡ a ∨ X F a.
pub proof fn lemma_unrolling<const N: usize>(a: SyntaxTree, tr: Seq<[bool; N]>)
    ensures
        agree(conj(a, next(always(a))), always(a), tr),
        agree(disj(a, next(eventually(a))), eventually(a), tr),
{
    let v = truth_values(a, tr);
    let g = truth_values(always(a), tr);
    let f = truth_values(eventually(a), tr);
    let len = tr.len();
    assert forall|t: int| 0 <= t < len implies #[trigger] holds(conj(a, next(always(a))), tr, t)
        == holds(always(a), tr, t) by {
        crate::trace::lemma_all_step(v, t);
        assert(holds(next(always(a)), tr, t) == g[crate::trace::successor(len, t)]);
    }
    assert forall|t: int| 0 <= t < len implies #[trigger] holds(disj(a, next(eventually(a))), tr, t)
        == holds(eventually(a), tr, t) by {
        crate::trace::lemma_any_step(v, t);
        assert(holds(next(eventually(a)), tr, t) == f[crate::trace::successor(len, t)]);
    }
}

/// a U b ≡ b ∨ (a ∧ X (a U b)).
pub proof fn lemma_until_unrolling<const N: usize>(a: SyntaxTree, b: SyntaxTree, tr: Seq<[bool; N]>)
    ensures
        agree(disj(b, conj(a, next(until(a, b)))), until(a, b), tr),
{
    let (va, vb) = (truth_values(a, tr), truth_values(b, tr));
    let u = truth_values(until(a, b), tr);
    let len = tr.len();
    assert forall|t: int| 0 <= t < len implies #[trigger] holds(
        disj(b, conj(a, next(until(a, b)))),
        tr,
        t,
    ) == holds(until(a, b), tr, t) by {
        crate::trace::lemma_until_step(va, vb, t);
        assert(holds(next(until(a, b)), tr, t) == u[crate::trace::successor(len, t)]);
        assert(holds(conj(a, next(until(a, b))), tr, t) == (va[t] && u[crate::trace::successor(len, t)]));
    }
}

/// a U a ≡ a and a U (a U b) ≡ a U b.
pub proof fn lemma_until_absorption<const N: usize>(a: SyntaxTree, b: SyntaxTree, tr: Seq<[bool; N]>)
    ensures
        agree(until(a, a), a, tr),
        agree(until(a, until(a, b)), until(a, b), tr),
{
    let (va, vb) = (truth_values(a, tr), truth_values(b, tr));
    let u = truth_values(until(a, b), tr);
    let uu = truth_values(until(a, until(a, b)), tr);
    let aa = truth_values(until(a, a), tr);
    let len = tr.len();
    assert forall|t: int| 0 <= t < len implies #[trigger] holds(until(a, a), tr, t) == holds(a, tr, t) by {
        if aa[t] {
            let s = choose|s: int|
                t <= s < len && #[trigger] va[s] && forall|q: int| t <= q < s ==> #[trigger] va[q];
            if s > t {
                assert(va[t]);
            }
        }
        if va[t] {
            assert(forall|q: int| t <= q < t ==> #[trigger] va[q]);
        }
    }
    assert forall|t: int| 0 <= t < len implies #[trigger] holds(until(a, until(a, b)), tr, t)
        == holds(until(a, b), tr, t) by {
        if uu[t] {
            let s = choose|s: int|
                t <= s < len && #[trigger] u[s] && forall|q: int| t <= q < s ==> #[trigger] va[q];
            let s2 = choose|s2: int|
                s <= s2 < len && #[trigger] vb[s2] && forall|q: int| s <= q < s2 ==> #[trigger] va[q];
            assert(forall|q: int| t <= q < s2 ==> #[trigger] va[q]);
        }
        if u[t] {
            assert(forall|q: int| t <= q < t ==> #[trigger] va[q]);
        }
    }
}

/// (a U c) ∧ (b U c) ≡ (a ∧ b) U c and (a U b) ∨ (a U c) ≡ a U (b ∨ c).
pub proof fn lemma_until_shared_side<const N: usize>(
    a: SyntaxTree,
    b: SyntaxTree,
    c: SyntaxTree,
    tr: Seq<[bool; N]>,
)
    ensures
        agree(conj(until(a, c), until(b, c)), until(conj(a, b), c), tr),
        agree(disj(until(a, b), until(a, c)), until(a, disj(b, c)), tr),
{
    let (va, vb, vc) = (truth_values(a, tr), truth_values(b, tr), truth_values(c, tr));
    let (ac, bc) = (truth_values(until(a, c), tr), truth_values(until(b, c), tr));
    let (ab, ab_c) = (truth_values(conj(a, b), tr), truth_values(until(conj(a, b), c), tr));
    let (abu, acu) = (truth_values(until(a, b), tr), truth_values(until(a, c), tr));
    let (boc, a_boc) = (truth_values(disj(b, c), tr), truth_values(until(a, disj(b, c)), tr));
    let len = tr.len();
    assert(forall|s: int| 0 <= s < len ==> #[trigger] ab[s] == (va[s] && vb[s]));
    assert(forall|s: int| 0 <= s < len ==> #[trigger] boc[s] == (vb[s] || vc[s]));
    assert forall|t: int| 0 <= t < len implies #[trigger] holds(
        conj(until(a, c), until(b, c)),
        tr,
        t,
    ) == holds(until(conj(a, b), c), tr, t) by {
        assert(holds(conj(until(a, c), until(b, c)), tr, t) == (ac[t] && bc[t]));
        if ac[t] && bc[t] {
            let s1 = choose|s: int|
                t <= s < len && #[trigger] vc[s] && forall|q: int| t <= q < s ==> #[trigger] va[q];
            let s2 = choose|s: int|
                t <= s < len && #[trigger] vc[s] && forall|q: int| t <= q < s ==> #[trigger] vb[q];
            let s = if s1 <= s2 { s1 } else { s2 };
            assert(forall|q: int| t <= q < s ==> #[trigger] ab[q]);
            assert(vc[s]);
            assert(ab_c[t]);
        }
        if ab_c[t] {
            let s = choose|s: int|
                t <= s < len && #[trigger] vc[s] && forall|q: int| t <= q < s ==> #[trigger] ab[q];
            assert forall|q: int| t <= q < s implies #[trigger] va[q] by {
                assert(ab[q]);
            }
            assert forall|q: int| t <= q < s implies #[trigger] vb[q] by {
                assert(ab[q]);
            }
            assert(ac[t]);
            assert(bc[t]);
        }
    }
    assert forall|t: int| 0 <= t < len implies #[trigger] holds(
        disj(until(a, b), until(a, c)),
        tr,
        t,
    ) == holds(until(a, disj(b, c)), tr, t) by {
        if a_boc[t] {
            let s = choose|s: int|
                t <= s < len && #[trigger] boc[s] && forall|q: int| t <= q < s ==> #[trigger] va[q];
            if vb[s] {
                assert(abu[t]);
            } else {
                assert(acu[t]);
            }
        }
        if abu[t] {
            let s = choose|s: int|
                t <= s < len && #[trigger] vb[s] && forall|q: int| t <= q < s ==> #[trigger] va[q];
            assert(boc[s]);
        }
        if acu[t] {
            let s = choose|s: int|
                t <= s < len && #[trigger] vc[s] && forall|q: int| t <= q < s ==> #[trigger] va[q];
            assert(boc[s]);
        }
    }
}

proof fn lemma_next_until_at<const N: usize>(a: SyntaxTree, b: SyntaxTree, tr: Seq<[bool; N]>, t: int)
    requires
        0 <= t < tr.len(),
    ensures
        holds(until(next(a), next(b)), tr, t) == holds(next(until(a, b)), tr, t),
    decreases tr.len() - t,
{
    let len = tr.len();
    let (va, vb) = (truth_values(a, tr), truth_values(b, tr));
    let (xa, xb) = (truth_values(next(a), tr), truth_values(next(b), tr));
    let u = truth_values(until(a, b), tr);
    let lhs = truth_values(until(next(a), next(b)), tr);
    assert(forall|s: int| 0 <= s < len ==> #[trigger] xa[s] == va[crate::trace::successor(len, s)]);
    assert(forall|s: int| 0 <= s < len ==> #[trigger] xb[s] == vb[crate::trace::successor(len, s)]);
    assert(holds(next(until(a, b)), tr, t) == u[crate::trace::successor(len, t)]);
    crate::trace::lemma_until_step(xa, xb, t);
    crate::trace::lemma_until_step(va, vb, len - 1);
    if t + 1 < len {
        lemma_next_until_at(a, b, tr, t + 1);
        crate::trace::lemma_until_step(va, vb, t + 1);
        assert(xa[t] == va[t + 1]);
        assert(xb[t] == vb[t + 1]);
    }
}

/// X (a U b) ≡ (X a) U (X b).
pub proof fn lemma_next_until<const N: usize>(a: SyntaxTree, b: SyntaxTree, tr: Seq<[bool; N]>)
    ensures
        agree(until(next(a), next(b)), next(until(a, b)), tr),
{
    assert forall|t: int| 0 <= t < tr.len() implies #[trigger] holds(until(next(a), next(b)), tr, t)
        == holds(next(until(a, b)), tr, t) by {
        lemma_next_until_at(a, b, tr, t);
    }
}

/// Commutativity, associativity and idempotence of ∧ and ∨.
pub proof fn lemma_commutative_associative<const N: usize>(
    a: SyntaxTree,
    b: SyntaxTree,
    c: SyntaxTree,
    tr: Seq<[bool; N]>,
)
    ensures
        agree(conj(a, b), conj(b, a), tr),
        agree(disj(a, b), disj(b, a), tr),
        agree(conj(conj(a, b), c), conj(a, conj(b, c)), tr),
        agree(disj(disj(a, b), c), disj(a, disj(b, c)), tr),
        agree(conj(a, a), a, tr),
        agree(disj(a, a), a, tr),
{
    reveal_with_fuel(truth_values, 3);
}

/// a ∧ ¬a and ¬(a → a) are false everywhere; a ∨ ¬a and a → a true
/// everywhere. No candidate of at most 3 nodes is constant, so the filter drops these shapes
/// without an equivalent candidate.
pub proof fn lemma_constant_shapes<const N: usize>(a: SyntaxTree, tr: Seq<[bool; N]>, t: int)
    requires
        0 <= t < tr.len(),
    ensures
        !holds(conj(a, neg(a)), tr, t),
        !holds(conj(neg(a), a), tr, t),
        holds(disj(a, neg(a)), tr, t),
        holds(imp(a, a), tr, t),
{
    reveal_with_fuel(truth_values, 3);
}

} // verus!
