//! Unlabelled tree shapes, and the formulae that label them.
use crate::filter::{
    check_and, check_finally, check_globally, check_implies, check_next, check_not, check_or,
    check_until, keep_and, keep_finally, keep_globally, keep_implies, keep_next, keep_not, keep_or,
    keep_until,
};
use crate::syntax::{formula_size, well_formed, SyntaxTree};
use std::sync::Arc;
use vstd::prelude::*;

verus! {

/// A tree with unary and binary nodes that carries no data.
#[derive(Debug, Clone, PartialEq, Eq, Hash)]
pub enum SkeletonTree {
    Leaf,
    UnaryNode(Arc<SkeletonTree>),
    BinaryNode(Arc<SkeletonTree>, Arc<SkeletonTree>),
}

/// The size of a skeleton: the number of its nodes.
pub open spec fn skeleton_size(s: SkeletonTree) -> nat
    decreases s,
{
    match s {
        SkeletonTree::Leaf => 1,
        SkeletonTree::UnaryNode(c) => 1 + skeleton_size(*c),
        SkeletonTree::BinaryNode(l, r) => 1 + skeleton_size(*l) + skeleton_size(*r),
    }
}

/// All skeletons of size `n`, in the order of enumeration: unary roots first,
/// then binary roots by increasing size of the left child.
pub open spec fn skeletons(n: nat) -> Seq<SkeletonTree>
    decreases n, n,
{
    if n == 0 {
        Seq::empty()
    } else if n == 1 {
        seq![SkeletonTree::Leaf]
    } else {
        skeletons((n - 1) as nat).map_values(|c: SkeletonTree| SkeletonTree::UnaryNode(Arc::new(c)))
            + binaries_below(n, (n - 1) as nat)
    }
}

/// The binary skeletons of size `n` whose left child has a size below `k`.
pub open spec fn binaries_below(n: nat, k: nat) -> Seq<SkeletonTree>
    decreases n, k,
{
    if k <= 1 || k >= n {
        Seq::empty()
    } else {
        binaries_below(n, (k - 1) as nat) + pairs(skeletons((k - 1) as nat), skeletons((n - k) as nat))
    }
}

/// `BinaryNode(l, r)` for each `l` in `ls` and `r` in `rs`, `l` varying slowest.
pub open spec fn pairs(ls: Seq<SkeletonTree>, rs: Seq<SkeletonTree>) -> Seq<SkeletonTree>
    decreases ls.len(),
{
    if ls.len() == 0 {
        Seq::empty()
    } else {
        pairs(ls.drop_last(), rs) + rs.map_values(
            |r: SkeletonTree| SkeletonTree::BinaryNode(Arc::new(ls.last()), Arc::new(r)),
        )
    }
}

/// The formulae that label `s` over `n` variables and pass the filter, in the
/// order of enumeration.
pub open spec fn formulae(s: SkeletonTree, n: nat) -> Seq<SyntaxTree>
    decreases s,
{
    match s {
        SkeletonTree::Leaf => Seq::new(n, |i: int| SyntaxTree::Atom(i as usize)),
        SkeletonTree::UnaryNode(c) => unary_layer(formulae(*c, n)),
        SkeletonTree::BinaryNode(l, r) => binary_layer(formulae(*l, n), formulae(*r, n)),
    }
}

/// The unary formulae over `c` that pass the filter: ¬, X, G, F in this order.
pub open spec fn unary_candidates(c: SyntaxTree) -> Seq<SyntaxTree> {
    let a = Arc::new(c);
    (if keep_not(c) { seq![SyntaxTree::Not(a)] } else { seq![] }) + (if keep_next(c) {
        seq![SyntaxTree::Next(a)]
    } else {
        seq![]
    }) + (if keep_globally(c) { seq![SyntaxTree::Globally(a)] } else { seq![] }) + (if keep_finally(c) {
        seq![SyntaxTree::Finally(a)]
    } else {
        seq![]
    })
}

/// The binary formulae over `l` and `r` that pass the filter: ∧, ∨, →, U in this order.
pub open spec fn binary_candidates(l: SyntaxTree, r: SyntaxTree) -> Seq<SyntaxTree> {
    let (a, b) = (Arc::new(l), Arc::new(r));
    (if keep_and(l, r) { seq![SyntaxTree::And(a, b)] } else { seq![] }) + (if keep_or(l, r) {
        seq![SyntaxTree::Or(a, b)]
    } else {
        seq![]
    }) + (if keep_implies(l, r) { seq![SyntaxTree::Implies(a, b)] } else { seq![] }) + (
    if keep_until(l, r) {
        seq![SyntaxTree::Until(a, b)]
    } else {
        seq![]
    })
}

pub open spec fn unary_layer(cs: Seq<SyntaxTree>) -> Seq<SyntaxTree>
    decreases cs.len(),
{
    if cs.len() == 0 {
        Seq::empty()
    } else {
        unary_layer(cs.drop_last()) + unary_candidates(cs.last())
    }
}

pub open spec fn binary_row(l: SyntaxTree, rs: Seq<SyntaxTree>) -> Seq<SyntaxTree>
    decreases rs.len(),
{
    if rs.len() == 0 {
        Seq::empty()
    } else {
        binary_row(l, rs.drop_last()) + binary_candidates(l, rs.last())
    }
}

pub open spec fn binary_layer(ls: Seq<SyntaxTree>, rs: Seq<SyntaxTree>) -> Seq<SyntaxTree>
    decreases ls.len(),
{
    if ls.len() == 0 {
        Seq::empty()
    } else {
        binary_layer(ls.drop_last(), rs) + binary_row(ls.last(), rs)
    }
}

impl SkeletonTree {
    /// A copy of the root node that shares the subtrees.
    pub fn share(&self) -> (r: SkeletonTree)
        ensures
            r == *self,
    {
        match self {
            SkeletonTree::Leaf => SkeletonTree::Leaf,
            SkeletonTree::UnaryNode(c) => SkeletonTree::UnaryNode(c.clone()),
            SkeletonTree::BinaryNode(l, r) => SkeletonTree::BinaryNode(l.clone(), r.clone()),
        }
    }

    /// All skeletons with `size` nodes.
    pub fn gen(size: usize) -> (r: Vec<SkeletonTree>)
        requires
            size >= 1,
        ensures
            r@ == skeletons(size as nat),
        decreases size,
    {
        if size == 1 {
            return vec![SkeletonTree::Leaf];
        }
        let smaller = Self::gen(size - 1);
        let mut result: Vec<SkeletonTree> = Vec::new();
        let mut i: usize = 0;
        while i < smaller.len()
            invariant
                i <= smaller.len(),
                result@ == smaller@.take(i as int).map_values(
                    |c: SkeletonTree| SkeletonTree::UnaryNode(Arc::new(c)),
                ),
            decreases smaller.len() - i,
        {
            result.push(SkeletonTree::UnaryNode(Arc::new(smaller[i].share())));
            i += 1;
            assert(result@ =~= smaller@.take(i as int).map_values(
                |c: SkeletonTree| SkeletonTree::UnaryNode(Arc::new(c)),
            ));
        }
        assert(smaller@.take(i as int) =~= smaller@);
        let mut left_size: usize = 1;
        while left_size < size - 1
            invariant
                size >= 2,
                1 <= left_size <= size - 1,
                result@ == skeletons((size - 1) as nat).map_values(
                    |c: SkeletonTree| SkeletonTree::UnaryNode(Arc::new(c)),
                ) + binaries_below(size as nat, left_size as nat),
            decreases size - left_size,
        {
            let lefts = Self::gen(left_size);
            let rights = Self::gen(size - 1 - left_size);
            push_pairs(&mut result, &lefts, &rights);
            left_size += 1;
            assert(result@ =~= skeletons((size - 1) as nat).map_values(
                |c: SkeletonTree| SkeletonTree::UnaryNode(Arc::new(c)),
            ) + binaries_below(size as nat, left_size as nat));
        }
        result
    }

    /// All formulae over `N` variables that fit the shape of `self` and pass
    /// the filter: leaves become atoms, unary nodes unary operators, binary
    /// nodes binary operators.
    pub fn gen_formulae<const N: usize>(&self) -> (r: Vec<SyntaxTree>)
        ensures
            r@ == formulae(*self, N as nat),
        decreases self,
    {
        match self {
            SkeletonTree::Leaf => {
                let mut trees: Vec<SyntaxTree> = Vec::new();
                let mut i: usize = 0;
                while i < N
                    invariant
                        i <= N,
                        trees@ == Seq::new(i as nat, |k: int| SyntaxTree::Atom(k as usize)),
                    decreases N - i,
                {
                    trees.push(SyntaxTree::Atom(i));
                    i += 1;
                    assert(trees@ =~= Seq::new(i as nat, |k: int| SyntaxTree::Atom(k as usize)));
                }
                trees
            },
            SkeletonTree::UnaryNode(child) => {
                let children = child.gen_formulae::<N>();
                // at most four unary formulae over each child
                let mut trees: Vec<SyntaxTree> = Vec::with_capacity(capacity_hint(children.len(), 4));
                let mut i: usize = 0;
                while i < children.len()
                    invariant
                        i <= children.len(),
                        trees@ == unary_layer(children@.take(i as int)),
                    decreases children.len() - i,
                {
                    push_unary(&mut trees, Arc::new(children[i].share()));
                    assert(children@.take(i + 1).drop_last() =~= children@.take(i as int));
                    i += 1;
                }
                assert(children@.take(i as int) =~= children@);
                trees
            },
            SkeletonTree::BinaryNode(left, right) => {
                let lefts = left.gen_formulae::<N>();
                let rights = right.gen_formulae::<N>();
                // at most four binary formulae over each pair of children
                let hint = match lefts.len().checked_mul(rights.len()) {
                    Some(pairs) => capacity_hint(pairs, 4),
                    None => 0,
                };
                let mut trees: Vec<SyntaxTree> = Vec::with_capacity(hint);
                let mut i: usize = 0;
                while i < lefts.len()
                    invariant
                        i <= lefts.len(),
                        trees@ == binary_layer(lefts@.take(i as int), rights@),
                    decreases lefts.len() - i,
                {
                    let l = Arc::new(lefts[i].share());
                    let ghost row_start = trees@;
                    let mut j: usize = 0;
                    while j < rights.len()
                        invariant
                            j <= rights.len(),
                            *l == lefts@[i as int],
                            trees@ == row_start + binary_row(lefts@[i as int], rights@.take(j as int)),
                        decreases rights.len() - j,
                    {
                        let r = Arc::new(rights[j].share());
                        push_binary(&mut trees, &l, r);
                        assert(rights@.take(j + 1).drop_last() =~= rights@.take(j as int));
                        j += 1;
                    }
                    assert(rights@.take(j as int) =~= rights@);
                    assert(lefts@.take(i + 1).drop_last() =~= lefts@.take(i as int));
                    i += 1;
                }
                assert(lefts@.take(i as int) =~= lefts@);
                trees
            },
        }
    }
}

/// Above this many formulae no room is reserved in advance: a formula takes
/// far fewer than 64 bytes, so a reservation within the limit never exceeds
/// the largest allocation a `Vec` may ask for.
const CAPACITY_LIMIT: usize = usize::MAX / 128;

/// Room for `count * per_item` formulae, or none when that is beyond `CAPACITY_LIMIT`.
fn capacity_hint(count: usize, per_item: usize) -> (r: usize)
    ensures
        r <= CAPACITY_LIMIT,
        count * per_item <= CAPACITY_LIMIT ==> r == count * per_item,
{
    match count.checked_mul(per_item) {
        Some(n) if n <= CAPACITY_LIMIT => n,
        _ => 0,
    }
}

fn push_unary(trees: &mut Vec<SyntaxTree>, c: Arc<SyntaxTree>)
    ensures
        final(trees)@ == old(trees)@ + unary_candidates(*c),
{
    let ghost before = trees@;
    if check_not(&*c) {
        trees.push(SyntaxTree::Not(c.clone()));
    }
    if check_next(&*c) {
        trees.push(SyntaxTree::Next(c.clone()));
    }
    if check_globally(&*c) {
        trees.push(SyntaxTree::Globally(c.clone()));
    }
    if check_finally(&*c) {
        trees.push(SyntaxTree::Finally(c));
    }
    assert(trees@ =~= before + unary_candidates(*c));
}

fn push_binary(trees: &mut Vec<SyntaxTree>, l: &Arc<SyntaxTree>, r: Arc<SyntaxTree>)
    ensures
        final(trees)@ == old(trees)@ + binary_candidates(**l, *r),
{
    let ghost before = trees@;
    let keep_and = check_and(&**l, &*r);
    let keep_or = check_or(&**l, &*r);
    let keep_implies = check_implies(&**l, &*r);
    let keep_until = check_until(&**l, &*r);
    if keep_and {
        trees.push(SyntaxTree::And(l.clone(), r.clone()));
    }
    if keep_or {
        trees.push(SyntaxTree::Or(l.clone(), r.clone()));
    }
    if keep_implies {
        trees.push(SyntaxTree::Implies(l.clone(), r.clone()));
    }
    if keep_until {
        trees.push(SyntaxTree::Until(l.clone(), r));
    }
    assert(trees@ =~= before + binary_candidates(**l, *r));
}

fn push_pairs(out: &mut Vec<SkeletonTree>, lefts: &Vec<SkeletonTree>, rights: &Vec<SkeletonTree>)
    ensures
        final(out)@ == old(out)@ + pairs(lefts@, rights@),
{
    let ghost start = out@;
    let mut i: usize = 0;
    while i < lefts.len()
        invariant
            i <= lefts.len(),
            out@ == start + pairs(lefts@.take(i as int), rights@),
        decreases lefts.len() - i,
    {
        let left = Arc::new(lefts[i].share());
        let ghost before = out@;
        let mut j: usize = 0;
        while j < rights.len()
            invariant
                j <= rights.len(),
                *left == lefts@[i as int],
                out@ == before + rights@.take(j as int).map_values(
                    |r: SkeletonTree| SkeletonTree::BinaryNode(Arc::new(lefts@[i as int]), Arc::new(r)),
                ),
            decreases rights.len() - j,
        {
            out.push(SkeletonTree::BinaryNode(left.clone(), Arc::new(rights[j].share())));
            j += 1;
            assert(out@ =~= before + rights@.take(j as int).map_values(
                |r: SkeletonTree| SkeletonTree::BinaryNode(Arc::new(lefts@[i as int]), Arc::new(r)),
            ));
        }
        assert(rights@.take(j as int) =~= rights@);
        assert(lefts@.take(i + 1).drop_last() =~= lefts@.take(i as int));
        i += 1;
        assert(out@ =~= start + pairs(lefts@.take(i as int), rights@));
    }
    assert(lefts@.take(i as int) =~= lefts@);
}

} // verus!

verus! {

/// A property of every element of `a` and of `b` holds of every element of `a + b`.
proof fn lemma_concat_all<T>(a: Seq<T>, b: Seq<T>, p: spec_fn(T) -> bool)
    requires
        forall|k: int| 0 <= k < a.len() ==> p(#[trigger] a[k]),
        forall|k: int| 0 <= k < b.len() ==> p(#[trigger] b[k]),
    ensures
        forall|k: int| 0 <= k < (a + b).len() ==> p(#[trigger] (a + b)[k]),
{
    assert forall|k: int| 0 <= k < (a + b).len() implies p(#[trigger] (a + b)[k]) by {
        if k < a.len() {
            assert((a + b)[k] == a[k]);
        } else {
            assert((a + b)[k] == b[k - a.len()]);
        }
    }
}

/// Every skeleton that `skeletons(n)` lists has `n` nodes.
pub proof fn lemma_skeletons_have_size(n: nat)
    ensures
        forall|k: int| 0 <= k < skeletons(n).len() ==> skeleton_size(#[trigger] skeletons(n)[k]) == n,
    decreases n, n,
{
    if n >= 2 {
        let m = (n - 1) as nat;
        lemma_skeletons_have_size(m);
        let us = skeletons(m).map_values(|c: SkeletonTree| SkeletonTree::UnaryNode(Arc::new(c)));
        assert forall|k: int| 0 <= k < us.len() implies skeleton_size(#[trigger] us[k]) == n by {
            assert(skeleton_size(skeletons(m)[k]) == m);
        }
        lemma_binaries_below_have_size(n, m);
        lemma_concat_all(us, binaries_below(n, m), |x: SkeletonTree| skeleton_size(x) == n);
    }
}

proof fn lemma_binaries_below_have_size(n: nat, k: nat)
    ensures
        forall|i: int|
            0 <= i < binaries_below(n, k).len() ==> skeleton_size(#[trigger] binaries_below(n, k)[i])
                == n,
    decreases n, k,
{
    if !(k <= 1 || k >= n) {
        lemma_binaries_below_have_size(n, (k - 1) as nat);
        lemma_skeletons_have_size((k - 1) as nat);
        lemma_skeletons_have_size((n - k) as nat);
        let ps = pairs(skeletons((k - 1) as nat), skeletons((n - k) as nat));
        lemma_pairs_have_size(skeletons((k - 1) as nat), skeletons((n - k) as nat), (k - 1) as nat, (n - k) as nat);
        lemma_concat_all(binaries_below(n, (k - 1) as nat), ps, |x: SkeletonTree| skeleton_size(x) == n);
    }
}

proof fn lemma_pairs_have_size(ls: Seq<SkeletonTree>, rs: Seq<SkeletonTree>, a: nat, b: nat)
    requires
        forall|k: int| 0 <= k < ls.len() ==> skeleton_size(#[trigger] ls[k]) == a,
        forall|k: int| 0 <= k < rs.len() ==> skeleton_size(#[trigger] rs[k]) == b,
    ensures
        forall|k: int| 0 <= k < pairs(ls, rs).len() ==> skeleton_size(#[trigger] pairs(ls, rs)[k]) == 1 + a + b,
    decreases ls.len(),
{
    if ls.len() > 0 {
        lemma_pairs_have_size(ls.drop_last(), rs, a, b);
        assert(skeleton_size(ls.last()) == a);
        let row = rs.map_values(|r: SkeletonTree| SkeletonTree::BinaryNode(Arc::new(ls.last()), Arc::new(r)));
        assert forall|k: int| 0 <= k < row.len() implies skeleton_size(#[trigger] row[k]) == 1 + a + b by {
            assert(skeleton_size(rs[k]) == b);
        }
        lemma_concat_all(pairs(ls.drop_last(), rs), row, |x: SkeletonTree| skeleton_size(x) == 1 + a + b);
    }
}

spec fn labels_of(s: &SkeletonTree, n: nat) -> Seq<SyntaxTree> {
    formulae(*s, n)
}

spec fn size_of_ref(s: &SkeletonTree) -> nat {
    skeleton_size(*s)
}

/// Every formula that labels `s` over `n` variables is well formed and has as
/// many nodes as `s`.
pub proof fn lemma_formulae_shape(s: &SkeletonTree, n: nat)
    ensures
        forall|k: int|
            0 <= k < formulae(*s, n).len() ==> {
                &&& well_formed(#[trigger] formulae(*s, n)[k], n)
                &&& formula_size(formulae(*s, n)[k]) == skeleton_size(*s)
            },
    decreases s,
{
    match s {
        SkeletonTree::Leaf => {},
        SkeletonTree::UnaryNode(c) => {
            lemma_formulae_shape(&**c, n);
            lemma_unary_layer_shape(labels_of(&**c, n), n, size_of_ref(&**c));
        },
        SkeletonTree::BinaryNode(l, r) => {
            lemma_formulae_shape(&**l, n);
            lemma_formulae_shape(&**r, n);
            lemma_binary_layer_shape(
                labels_of(&**l, n),
                labels_of(&**r, n),
                n,
                size_of_ref(&**l),
                size_of_ref(&**r),
            );
        },
    }
}

proof fn lemma_unary_layer_shape(cs: Seq<SyntaxTree>, n: nat, size: nat)
    requires
        forall|k: int| 0 <= k < cs.len() ==> well_formed(#[trigger] cs[k], n) && formula_size(cs[k]) == size,
    ensures
        forall|k: int|
            0 <= k < unary_layer(cs).len() ==> well_formed(#[trigger] unary_layer(cs)[k], n)
                && formula_size(unary_layer(cs)[k]) == size + 1,
    decreases cs.len(),
{
    if cs.len() > 0 {
        lemma_unary_layer_shape(cs.drop_last(), n, size);
        let c = cs.last();
        assert(well_formed(c, n) && formula_size(c) == size);
        let u = unary_candidates(c);
        assert forall|k: int| 0 <= k < u.len() implies well_formed(#[trigger] u[k], n) && formula_size(u[k]) == size + 1 by {
            let a = Arc::new(c);
            assert(u[k] == SyntaxTree::Not(a) || u[k] == SyntaxTree::Next(a) || u[k] == SyntaxTree::Globally(a) || u[k] == SyntaxTree::Finally(a));
        }
        lemma_concat_all(unary_layer(cs.drop_last()), u, |x: SyntaxTree| well_formed(x, n) && formula_size(x) == size + 1);
    }
}

proof fn lemma_binary_row_shape(l: SyntaxTree, rs: Seq<SyntaxTree>, n: nat, a: nat, b: nat)
    requires
        well_formed(l, n) && formula_size(l) == a,
        forall|k: int| 0 <= k < rs.len() ==> well_formed(#[trigger] rs[k], n) && formula_size(rs[k]) == b,
    ensures
        forall|k: int|
            0 <= k < binary_row(l, rs).len() ==> well_formed(#[trigger] binary_row(l, rs)[k], n)
                && formula_size(binary_row(l, rs)[k]) == 1 + a + b,
    decreases rs.len(),
{
    if rs.len() > 0 {
        lemma_binary_row_shape(l, rs.drop_last(), n, a, b);
        let r = rs.last();
        assert(well_formed(r, n) && formula_size(r) == b);
        let u = binary_candidates(l, r);
        assert forall|k: int| 0 <= k < u.len() implies well_formed(#[trigger] u[k], n) && formula_size(u[k]) == 1 + a + b by {
            let (x, y) = (Arc::new(l), Arc::new(r));
            assert(u[k] == SyntaxTree::And(x, y) || u[k] == SyntaxTree::Or(x, y) || u[k] == SyntaxTree::Implies(x, y) || u[k] == SyntaxTree::Until(x, y));
        }
        lemma_concat_all(binary_row(l, rs.drop_last()), u, |x: SyntaxTree| well_formed(x, n) && formula_size(x) == 1 + a + b);
    }
}

proof fn lemma_binary_layer_shape(ls: Seq<SyntaxTree>, rs: Seq<SyntaxTree>, n: nat, a: nat, b: nat)
    requires
        forall|k: int| 0 <= k < ls.len() ==> well_formed(#[trigger] ls[k], n) && formula_size(ls[k]) == a,
        forall|k: int| 0 <= k < rs.len() ==> well_formed(#[trigger] rs[k], n) && formula_size(rs[k]) == b,
    ensures
        forall|k: int|
            0 <= k < binary_layer(ls, rs).len() ==> well_formed(#[trigger] binary_layer(ls, rs)[k], n)
                && formula_size(binary_layer(ls, rs)[k]) == 1 + a + b,
    decreases ls.len(),
{
    if ls.len() > 0 {
        lemma_binary_layer_shape(ls.drop_last(), rs, n, a, b);
        lemma_binary_row_shape(ls.last(), rs, n, a, b);
        lemma_concat_all(binary_layer(ls.drop_last(), rs), binary_row(ls.last(), rs), |x: SyntaxTree| well_formed(x, n) && formula_size(x) == 1 + a + b);
    }
}

} // verus!
