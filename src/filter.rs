//! Local syntactic predicates that drop a candidate formula whose shape a
//! known equivalence rewrites into another shape of no greater size; the
//! equivalences themselves are proved in `equivalences`.
use crate::syntax::{precedes, SyntaxTree};
use std::sync::Arc;
use vstd::prelude::*;

verus! {

/// `b` is the negation of `a`.
pub open spec fn negates(b: SyntaxTree, a: SyntaxTree) -> bool {
    b == SyntaxTree::Not(Arc::new(a))
}

/// `f` is a binary node with a direct child equal to `c`.
pub open spec fn has_child(f: SyntaxTree, c: SyntaxTree) -> bool {
    match f {
        SyntaxTree::And(l, r) | SyntaxTree::Or(l, r) | SyntaxTree::Implies(l, r)
        | SyntaxTree::Until(l, r) => *l == c || *r == c,
        _ => false,
    }
}

/// The two binary nodes have a direct child in common.
pub open spec fn share_child(f: SyntaxTree, g: SyntaxTree) -> bool {
    match f {
        SyntaxTree::And(l, r) | SyntaxTree::Or(l, r) | SyntaxTree::Implies(l, r)
        | SyntaxTree::Until(l, r) => has_child(g, *l) || has_child(g, *r),
        _ => false,
    }
}

/// Admit `Not(c)`.
pub open spec fn keep_not(c: SyntaxTree) -> bool {
    match c {
        SyntaxTree::Not(_) | SyntaxTree::Implies(_, _) | SyntaxTree::Finally(_) => false,
        SyntaxTree::And(l, r) | SyntaxTree::Or(l, r) => !(*l is Not) && !(*r is Not),
        _ => true,
    }
}

/// Admit `Next(c)`.
pub open spec fn keep_next(c: SyntaxTree) -> bool {
    !(c is Not || c is Globally || c is Finally)
}

/// Admit `Globally(c)`.
pub open spec fn keep_globally(c: SyntaxTree) -> bool {
    !(c is Globally)
}

/// Admit `Finally(c)`.
pub open spec fn keep_finally(c: SyntaxTree) -> bool {
    !(c is Finally)
}

/// Admit `And(l, r)`.
pub open spec fn keep_and(l: SyntaxTree, r: SyntaxTree) -> bool {
    &&& precedes(l, r)
    &&& !negates(r, l) && !negates(l, r)
    &&& !(l is And)
    &&& !(l is Not && r is Not) && !(l is Next && r is Next) && !(l is Globally && r is Globally)
    &&& !(l is Implies && r is Implies && (l->Implies_0 == r->Implies_0 || l->Implies_1
        == r->Implies_1))
    &&& !(l is Until && r is Until && l->Until_1 == r->Until_1)
    &&& !(l is Or && has_child(l, r)) && !(r is Or && has_child(r, l))
    &&& !(l is Or && r is Or && share_child(l, r))
    &&& r != SyntaxTree::Next(Arc::new(SyntaxTree::Globally(Arc::new(l))))
    &&& l != SyntaxTree::Next(Arc::new(SyntaxTree::Globally(Arc::new(r))))
}

/// `f` is `X(phi U psi)`.
pub open spec fn next_until_of(f: SyntaxTree, phi: SyntaxTree, psi: SyntaxTree) -> bool {
    f == SyntaxTree::Next(Arc::new(SyntaxTree::Until(Arc::new(phi), Arc::new(psi))))
}

/// `conj` is `phi ∧ X(phi U psi)` for some `phi`: the one-step unrolling of an
/// until whose right side is `psi`.
pub open spec fn unrolls_until(psi: SyntaxTree, conj: SyntaxTree) -> bool {
    match conj {
        SyntaxTree::And(a, b) => next_until_of(*b, *a, psi),
        _ => false,
    }
}

/// Admit `Or(l, r)`.
pub open spec fn keep_or(l: SyntaxTree, r: SyntaxTree) -> bool {
    &&& precedes(l, r)
    &&& !negates(r, l) && !negates(l, r)
    &&& !(l is Or) && !(l is Not)
    &&& !(l is Next && r is Next) && !(l is Finally && r is Finally)
    &&& !(l is Implies && r is Implies && (l->Implies_0 == r->Implies_0 || l->Implies_1
        == r->Implies_1))
    &&& !(l is Until && r is Until && l->Until_0 == r->Until_0)
    &&& !(l is And && has_child(l, r)) && !(r is And && has_child(r, l))
    &&& !(l is And && r is And && share_child(l, r))
    &&& r != SyntaxTree::Next(Arc::new(SyntaxTree::Finally(Arc::new(l))))
    &&& l != SyntaxTree::Next(Arc::new(SyntaxTree::Finally(Arc::new(r))))
    &&& !unrolls_until(l, r)
    &&& !unrolls_until(r, l)
}

/// Admit `Implies(l, r)`.
pub open spec fn keep_implies(l: SyntaxTree, r: SyntaxTree) -> bool {
    l != r && !(l is Not) && !(r is Not) && !(r is Implies)
}

/// Admit `Until(l, r)`.
pub open spec fn keep_until(l: SyntaxTree, r: SyntaxTree) -> bool {
    &&& l != r
    &&& !(l is Next && r is Next)
    &&& !(r is Until && *r->Until_0 == l)
}

/// Whether `Not(child)` survives the filter.
pub fn check_not(child: &SyntaxTree) -> (r: bool)
    ensures
        r == keep_not(*child),
{
    match child {
        // ¬¬φ ≡ φ; ¬(φ → ψ) ≡ φ ∧ ¬ψ; ¬Fφ ≡ G¬φ
        SyntaxTree::Not(_) | SyntaxTree::Implies(_, _) | SyntaxTree::Finally(_) => false,
        // ¬(¬φ ∧ ψ) ≡ φ ∨ ¬ψ, and the like: keep negations innermost
        SyntaxTree::And(l, r) | SyntaxTree::Or(l, r) => !matches!(**l, SyntaxTree::Not(_))
            && !matches!(**r, SyntaxTree::Not(_)),
        _ => true,
    }
}

/// Whether `Next(child)` survives the filter.
pub fn check_next(child: &SyntaxTree) -> (r: bool)
    ensures
        r == keep_next(*child),
{
    // X¬φ ≡ ¬Xφ; XGφ ≡ GXφ; XFφ ≡ FXφ
    !matches!(child, SyntaxTree::Not(_) | SyntaxTree::Globally(_) | SyntaxTree::Finally(_))
}

/// Whether `Globally(child)` survives the filter.
pub fn check_globally(child: &SyntaxTree) -> (r: bool)
    ensures
        r == keep_globally(*child),
{
    // GGφ ≡ Gφ
    !matches!(child, SyntaxTree::Globally(_))
}

/// Whether `Finally(child)` survives the filter.
pub fn check_finally(child: &SyntaxTree) -> (r: bool)
    ensures
        r == keep_finally(*child),
{
    // FFφ ≡ Fφ
    !matches!(child, SyntaxTree::Finally(_))
}

fn is_negation_of(b: &SyntaxTree, a: &SyntaxTree) -> (r: bool)
    ensures
        r == negates(*b, *a),
{
    match b {
        SyntaxTree::Not(c) => c.equals(a),
        _ => false,
    }
}

fn has_child_exec(f: &SyntaxTree, c: &SyntaxTree) -> (r: bool)
    ensures
        r == has_child(*f, *c),
{
    match f {
        SyntaxTree::And(l, r) | SyntaxTree::Or(l, r) | SyntaxTree::Implies(l, r)
        | SyntaxTree::Until(l, r) => l.equals(c) || r.equals(c),
        _ => false,
    }
}

fn share_child_exec(f: &SyntaxTree, g: &SyntaxTree) -> (r: bool)
    ensures
        r == share_child(*f, *g),
{
    match f {
        SyntaxTree::And(l, r) | SyntaxTree::Or(l, r) | SyntaxTree::Implies(l, r)
        | SyntaxTree::Until(l, r) => has_child_exec(g, l) || has_child_exec(g, r),
        _ => false,
    }
}

/// Whether `f` is `Next(Globally(c))`.
fn is_next_globally_of(f: &SyntaxTree, c: &SyntaxTree) -> (r: bool)
    ensures
        r == (*f == SyntaxTree::Next(Arc::new(SyntaxTree::Globally(Arc::new(*c))))),
{
    match f {
        SyntaxTree::Next(x) => match &**x {
            SyntaxTree::Globally(y) => y.equals(c),
            _ => false,
        },
        _ => false,
    }
}

/// Whether `f` is `Next(Finally(c))`.
fn is_next_finally_of(f: &SyntaxTree, c: &SyntaxTree) -> (r: bool)
    ensures
        r == (*f == SyntaxTree::Next(Arc::new(SyntaxTree::Finally(Arc::new(*c))))),
{
    match f {
        SyntaxTree::Next(x) => match &**x {
            SyntaxTree::Finally(y) => y.equals(c),
            _ => false,
        },
        _ => false,
    }
}

/// Whether `f` is `Next(Until(phi, psi))`.
fn is_next_until_of(f: &SyntaxTree, phi: &SyntaxTree, psi: &SyntaxTree) -> (r: bool)
    ensures
        r == next_until_of(*f, *phi, *psi),
{
    match f {
        SyntaxTree::Next(x) => match &**x {
            SyntaxTree::Until(p, q) => p.equals(phi) && q.equals(psi),
            _ => false,
        },
        _ => false,
    }
}

fn unrolls_until_exec(psi: &SyntaxTree, conj: &SyntaxTree) -> (r: bool)
    ensures
        r == unrolls_until(*psi, *conj),
{
    match conj {
        SyntaxTree::And(a, b) => is_next_until_of(b, a, psi),
        _ => false,
    }
}

/// Whether `And(left, right)` survives the filter.
pub fn check_and(left: &SyntaxTree, right: &SyntaxTree) -> (r: bool)
    ensures
        r == keep_and(*left, *right),
{
    // commutativity: one order of the two children
    if !left.precedes(right) {
        return false;
    }
    // excluded middle
    if is_negation_of(right, left) || is_negation_of(left, right) {
        return false;
    }
    match (left, right) {
        // associativity; De Morgan; X and G distribute over ∧
        (SyntaxTree::And(_, _), _)
        | (SyntaxTree::Not(_), SyntaxTree::Not(_))
        | (SyntaxTree::Next(_), SyntaxTree::Next(_))
        | (SyntaxTree::Globally(_), SyntaxTree::Globally(_)) => return false,
        // (φ → ψ1) ∧ (φ → ψ2) ≡ φ → (ψ1 ∧ ψ2), and dually
        (SyntaxTree::Implies(a1, b1), SyntaxTree::Implies(a2, b2)) => {
            if a1.equals(a2) || b1.equals(b2) {
                return false;
            }
        },
        // (φ1 U ψ) ∧ (φ2 U ψ) ≡ (φ1 ∧ φ2) U ψ
        (SyntaxTree::Until(_, b1), SyntaxTree::Until(_, b2)) => {
            if b1.equals(b2) {
                return false;
            }
        },
        _ => {},
    }
    // absorption and distributivity
    let left_or = matches!(left, SyntaxTree::Or(_, _));
    let right_or = matches!(right, SyntaxTree::Or(_, _));
    if (left_or && has_child_exec(left, right)) || (right_or && has_child_exec(right, left)) {
        return false;
    }
    if left_or && right_or && share_child_exec(left, right) {
        return false;
    }
    // Gφ ≡ φ ∧ X(Gφ)
    !is_next_globally_of(right, left) && !is_next_globally_of(left, right)
}

/// Whether `Or(left, right)` survives the filter.
pub fn check_or(left: &SyntaxTree, right: &SyntaxTree) -> (r: bool)
    ensures
        r == keep_or(*left, *right),
{
    // commutativity: one order of the two children
    if !left.precedes(right) {
        return false;
    }
    // excluded middle
    if is_negation_of(right, left) || is_negation_of(left, right) {
        return false;
    }
    match (left, right) {
        // associativity; ¬φ ∨ ψ ≡ φ → ψ; X and F distribute over ∨
        (SyntaxTree::Or(_, _), _)
        | (SyntaxTree::Not(_), _)
        | (SyntaxTree::Next(_), SyntaxTree::Next(_))
        | (SyntaxTree::Finally(_), SyntaxTree::Finally(_)) => return false,
        // (φ → ψ1) ∨ (φ → ψ2) ≡ φ → (ψ1 ∨ ψ2), and dually
        (SyntaxTree::Implies(a1, b1), SyntaxTree::Implies(a2, b2)) => {
            if a1.equals(a2) || b1.equals(b2) {
                return false;
            }
        },
        // (φ U ψ1) ∨ (φ U ψ2) ≡ φ U (ψ1 ∨ ψ2)
        (SyntaxTree::Until(a1, _), SyntaxTree::Until(a2, _)) => {
            if a1.equals(a2) {
                return false;
            }
        },
        _ => {},
    }
    // absorption and distributivity
    let left_and = matches!(left, SyntaxTree::And(_, _));
    let right_and = matches!(right, SyntaxTree::And(_, _));
    if (left_and && has_child_exec(left, right)) || (right_and && has_child_exec(right, left)) {
        return false;
    }
    if left_and && right_and && share_child_exec(left, right) {
        return false;
    }
    // Fφ ≡ φ ∨ X(Fφ)
    if is_next_finally_of(right, left) || is_next_finally_of(left, right) {
        return false;
    }
    // φ U ψ ≡ ψ ∨ (φ ∧ X(φ U ψ))
    !unrolls_until_exec(left, right) && !unrolls_until_exec(right, left)
}

/// Whether `Implies(left, right)` survives the filter.
pub fn check_implies(left: &SyntaxTree, right: &SyntaxTree) -> (r: bool)
    ensures
        r == keep_implies(*left, *right),
{
    // ¬φ → ψ ≡ φ ∨ ψ; φ → ¬ψ ≡ ¬(φ ∧ ψ); φ1 → (φ2 → ψ) ≡ (φ1 ∧ φ2) → ψ
    !left.equals(right) && !matches!(left, SyntaxTree::Not(_)) && !matches!(
        right,
        SyntaxTree::Not(_) | SyntaxTree::Implies(_, _)
    )
}

/// Whether `Until(left, right)` survives the filter.
pub fn check_until(left: &SyntaxTree, right: &SyntaxTree) -> (r: bool)
    ensures
        r == keep_until(*left, *right),
{
    // φ U φ ≡ φ
    if left.equals(right) {
        return false;
    }
    match (left, right) {
        // X(φ U ψ) ≡ (Xφ) U (Xψ)
        (SyntaxTree::Next(_), SyntaxTree::Next(_)) => false,
        // φ U (φ U ψ) ≡ φ U ψ
        (_, SyntaxTree::Until(a, _)) => !a.equals(left),
        _ => true,
    }
}

/// Of `And(a, b)` and `And(b, a)` at most one survives, and likewise for `Or`.
pub proof fn lemma_one_order_kept(a: &SyntaxTree, b: &SyntaxTree)
    ensures
        !(keep_and(*a, *b) && keep_and(*b, *a)),
        !(keep_or(*a, *b) && keep_or(*b, *a)),
{
    crate::syntax::lemma_precedes_total(a, b);
}

} // verus!
