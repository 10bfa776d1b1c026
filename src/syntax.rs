//! LTL formulae: the syntax tree, its size, and a structural total order.
use std::sync::Arc;
use vstd::prelude::*;

verus! {

/// An LTL formula over propositional variables `Atom(0)`, `Atom(1)`, ...
/// Subtrees are shared through `Arc` and never changed after construction.
#[derive(Debug, Clone, PartialEq, Eq, Hash)]
pub enum SyntaxTree {
    Atom(usize),
    Not(Arc<SyntaxTree>),
    Next(Arc<SyntaxTree>),
    Globally(Arc<SyntaxTree>),
    Finally(Arc<SyntaxTree>),
    And(Arc<SyntaxTree>, Arc<SyntaxTree>),
    Or(Arc<SyntaxTree>, Arc<SyntaxTree>),
    Implies(Arc<SyntaxTree>, Arc<SyntaxTree>),
    Until(Arc<SyntaxTree>, Arc<SyntaxTree>),
}

/// The size of a formula: the number of nodes of its tree.
pub open spec fn formula_size(f: SyntaxTree) -> nat
    decreases f,
{
    match f {
        SyntaxTree::Atom(_) => 1,
        SyntaxTree::Not(c) | SyntaxTree::Next(c) | SyntaxTree::Globally(c) | SyntaxTree::Finally(
            c,
        ) => 1 + formula_size(*c),
        SyntaxTree::And(l, r) | SyntaxTree::Or(l, r) | SyntaxTree::Implies(l, r)
        | SyntaxTree::Until(l, r) => 1 + formula_size(*l) + formula_size(*r),
    }
}

/// Every atom of `f` names one of the first `n` variables.
pub open spec fn well_formed(f: SyntaxTree, n: nat) -> bool
    decreases f,
{
    match f {
        SyntaxTree::Atom(i) => i < n,
        SyntaxTree::Not(c) | SyntaxTree::Next(c) | SyntaxTree::Globally(c) | SyntaxTree::Finally(
            c,
        ) => well_formed(*c, n),
        SyntaxTree::And(l, r) | SyntaxTree::Or(l, r) | SyntaxTree::Implies(l, r)
        | SyntaxTree::Until(l, r) => well_formed(*l, n) && well_formed(*r, n),
    }
}

/// Position of the root operator in the order of the variants.
pub open spec fn rank(f: SyntaxTree) -> nat {
    match f {
        SyntaxTree::Atom(_) => 0,
        SyntaxTree::Not(_) => 1,
        SyntaxTree::Next(_) => 2,
        SyntaxTree::Globally(_) => 3,
        SyntaxTree::Finally(_) => 4,
        SyntaxTree::And(_, _) => 5,
        SyntaxTree::Or(_, _) => 6,
        SyntaxTree::Implies(_, _) => 7,
        SyntaxTree::Until(_, _) => 8,
    }
}

/// The strict structural order on formulae: first by root operator, then by
/// atom index or, lexicographically, by the children.
pub open spec fn precedes(a: SyntaxTree, b: SyntaxTree) -> bool
    decreases a,
{
    if rank(a) != rank(b) {
        rank(a) < rank(b)
    } else {
        match a {
            SyntaxTree::Atom(i) => i < b->Atom_0,
            SyntaxTree::Not(x) => precedes(*x, *b->Not_0),
            SyntaxTree::Next(x) => precedes(*x, *b->Next_0),
            SyntaxTree::Globally(x) => precedes(*x, *b->Globally_0),
            SyntaxTree::Finally(x) => precedes(*x, *b->Finally_0),
            SyntaxTree::And(x, y) => precedes(*x, *b->And_0) || (*x == *b->And_0 && precedes(
                *y,
                *b->And_1,
            )),
            SyntaxTree::Or(x, y) => precedes(*x, *b->Or_0) || (*x == *b->Or_0 && precedes(
                *y,
                *b->Or_1,
            )),
            SyntaxTree::Implies(x, y) => precedes(*x, *b->Implies_0) || (*x == *b->Implies_0
                && precedes(*y, *b->Implies_1)),
            SyntaxTree::Until(x, y) => precedes(*x, *b->Until_0) || (*x == *b->Until_0
                && precedes(*y, *b->Until_1)),
        }
    }
}

impl SyntaxTree {
    /// The number of nodes of the formula.
    pub fn size(&self) -> (r: usize)
        requires
            formula_size(*self) <= usize::MAX,
        ensures
            r == formula_size(*self),
        decreases self,
    {
        match self {
            SyntaxTree::Atom(_) => 1,
            SyntaxTree::Not(c) | SyntaxTree::Next(c) | SyntaxTree::Globally(c)
            | SyntaxTree::Finally(c) => 1 + c.size(),
            SyntaxTree::And(l, r) | SyntaxTree::Or(l, r) | SyntaxTree::Implies(l, r)
            | SyntaxTree::Until(l, r) => 1 + l.size() + r.size(),
        }
    }

    /// A copy of the root node that shares the subtrees.
    pub fn share(&self) -> (r: SyntaxTree)
        ensures
            r == *self,
    {
        match self {
            SyntaxTree::Atom(i) => SyntaxTree::Atom(*i),
            SyntaxTree::Not(c) => SyntaxTree::Not(c.clone()),
            SyntaxTree::Next(c) => SyntaxTree::Next(c.clone()),
            SyntaxTree::Globally(c) => SyntaxTree::Globally(c.clone()),
            SyntaxTree::Finally(c) => SyntaxTree::Finally(c.clone()),
            SyntaxTree::And(l, r) => SyntaxTree::And(l.clone(), r.clone()),
            SyntaxTree::Or(l, r) => SyntaxTree::Or(l.clone(), r.clone()),
            SyntaxTree::Implies(l, r) => SyntaxTree::Implies(l.clone(), r.clone()),
            SyntaxTree::Until(l, r) => SyntaxTree::Until(l.clone(), r.clone()),
        }
    }

    /// Deep structural equality.
    pub fn equals(&self, other: &SyntaxTree) -> (r: bool)
        ensures
            r == (*self == *other),
        decreases self,
    {
        match (self, other) {
            (SyntaxTree::Atom(i), SyntaxTree::Atom(j)) => *i == *j,
            (SyntaxTree::Not(x), SyntaxTree::Not(y)) => x.equals(y),
            (SyntaxTree::Next(x), SyntaxTree::Next(y)) => x.equals(y),
            (SyntaxTree::Globally(x), SyntaxTree::Globally(y)) => x.equals(y),
            (SyntaxTree::Finally(x), SyntaxTree::Finally(y)) => x.equals(y),
            (SyntaxTree::And(x1, y1), SyntaxTree::And(x2, y2)) => x1.equals(x2) && y1.equals(y2),
            (SyntaxTree::Or(x1, y1), SyntaxTree::Or(x2, y2)) => x1.equals(x2) && y1.equals(y2),
            (SyntaxTree::Implies(x1, y1), SyntaxTree::Implies(x2, y2)) => x1.equals(x2)
                && y1.equals(y2),
            (SyntaxTree::Until(x1, y1), SyntaxTree::Until(x2, y2)) => x1.equals(x2) && y1.equals(
                y2,
            ),
            _ => false,
        }
    }

    fn rank(&self) -> (r: u8)
        ensures
            r as nat == rank(*self),
    {
        match self {
            SyntaxTree::Atom(_) => 0,
            SyntaxTree::Not(_) => 1,
            SyntaxTree::Next(_) => 2,
            SyntaxTree::Globally(_) => 3,
            SyntaxTree::Finally(_) => 4,
            SyntaxTree::And(_, _) => 5,
            SyntaxTree::Or(_, _) => 6,
            SyntaxTree::Implies(_, _) => 7,
            SyntaxTree::Until(_, _) => 8,
        }
    }

    /// Whether `self` comes strictly before `other` in the structural order.
    pub fn precedes(&self, other: &SyntaxTree) -> (r: bool)
        ensures
            r == precedes(*self, *other),
        decreases self,
    {
        let (ra, rb) = (self.rank(), other.rank());
        if ra != rb {
            return ra < rb;
        }
        match (self, other) {
            (SyntaxTree::Atom(i), SyntaxTree::Atom(j)) => *i < *j,
            (SyntaxTree::Not(x), SyntaxTree::Not(y)) => x.precedes(y),
            (SyntaxTree::Next(x), SyntaxTree::Next(y)) => x.precedes(y),
            (SyntaxTree::Globally(x), SyntaxTree::Globally(y)) => x.precedes(y),
            (SyntaxTree::Finally(x), SyntaxTree::Finally(y)) => x.precedes(y),
            (SyntaxTree::And(x1, y1), SyntaxTree::And(x2, y2))
            | (SyntaxTree::Or(x1, y1), SyntaxTree::Or(x2, y2))
            | (SyntaxTree::Implies(x1, y1), SyntaxTree::Implies(x2, y2))
            | (SyntaxTree::Until(x1, y1), SyntaxTree::Until(x2, y2)) => x1.precedes(x2) || (
            x1.equals(x2) && y1.precedes(y2)),
            _ => false,
        }
    }
}

/// No formula precedes itself, and of two different formulae exactly one
/// precedes the other.
pub proof fn lemma_precedes_total(a: &SyntaxTree, b: &SyntaxTree)
    ensures
        !precedes(*a, *a),
        *a != *b ==> precedes(*a, *b) != precedes(*b, *a),
    decreases a,
{
    match (a, b) {
        (SyntaxTree::Not(x), SyntaxTree::Not(y)) | (SyntaxTree::Next(x), SyntaxTree::Next(y))
        | (SyntaxTree::Globally(x), SyntaxTree::Globally(y)) | (
            SyntaxTree::Finally(x),
            SyntaxTree::Finally(y),
        ) => {
            lemma_precedes_total(&**x, &**y);
        },
        (SyntaxTree::And(x1, y1), SyntaxTree::And(x2, y2)) | (
            SyntaxTree::Or(x1, y1),
            SyntaxTree::Or(x2, y2),
        ) | (SyntaxTree::Implies(x1, y1), SyntaxTree::Implies(x2, y2)) | (
            SyntaxTree::Until(x1, y1),
            SyntaxTree::Until(x2, y2),
        ) => {
            lemma_precedes_total(&**x1, &**x2);
            lemma_precedes_total(&**y1, &**y2);
        },
        _ => {
            match a {
                SyntaxTree::Not(x) | SyntaxTree::Next(x) | SyntaxTree::Globally(x)
                | SyntaxTree::Finally(x) => {
                    lemma_precedes_total(&**x, &**x);
                },
                SyntaxTree::And(x, y) | SyntaxTree::Or(x, y) | SyntaxTree::Implies(x, y)
                | SyntaxTree::Until(x, y) => {
                    lemma_precedes_total(&**x, &**x);
                    lemma_precedes_total(&**y, &**y);
                },
                _ => {},
            }
        },
    }
}

spec fn precedes_at(a: &SyntaxTree, b: &SyntaxTree) -> bool {
    precedes(*a, *b)
}

/// The structural order is transitive.
pub proof fn lemma_precedes_transitive(a: &SyntaxTree, b: &SyntaxTree, c: &SyntaxTree)
    requires
        precedes(*a, *b),
        precedes(*b, *c),
    ensures
        precedes(*a, *c),
    decreases a,
{
    if rank(*a) == rank(*b) && rank(*b) == rank(*c) {
        match (a, b, c) {
            (SyntaxTree::Not(x), SyntaxTree::Not(y), SyntaxTree::Not(z))
            | (SyntaxTree::Next(x), SyntaxTree::Next(y), SyntaxTree::Next(z))
            | (SyntaxTree::Globally(x), SyntaxTree::Globally(y), SyntaxTree::Globally(z))
            | (SyntaxTree::Finally(x), SyntaxTree::Finally(y), SyntaxTree::Finally(z)) => {
                lemma_precedes_transitive(&**x, &**y, &**z);
            },
            (SyntaxTree::And(x1, y1), SyntaxTree::And(x2, y2), SyntaxTree::And(x3, y3))
            | (SyntaxTree::Or(x1, y1), SyntaxTree::Or(x2, y2), SyntaxTree::Or(x3, y3))
            | (
                SyntaxTree::Implies(x1, y1),
                SyntaxTree::Implies(x2, y2),
                SyntaxTree::Implies(x3, y3),
            )
            | (SyntaxTree::Until(x1, y1), SyntaxTree::Until(x2, y2), SyntaxTree::Until(x3, y3)) => {
                if precedes_at(&**x1, &**x2) && precedes_at(&**x2, &**x3) {
                    lemma_precedes_transitive(&**x1, &**x2, &**x3);
                } else if precedes_at(&**x1, &**x2) {
                    assert(**x2 == **x3);
                } else if precedes_at(&**x2, &**x3) {
                    assert(**x1 == **x2);
                } else {
                    lemma_precedes_transitive(&**y1, &**y2, &**y3);
                }
            },
            _ => {},
        }
    }
}

} // verus!
