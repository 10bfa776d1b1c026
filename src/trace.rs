//! Finite traces, labelled samples, and the satisfaction relation of LTL
//! with the last state acting as its own successor.
use crate::syntax::{well_formed, SyntaxTree};
use std::sync::Arc;
use vstd::prelude::*;

verus! {

/// The truth value of `f` at each position of the trace `tr`.
pub open spec fn truth_values<const N: usize>(f: SyntaxTree, tr: Seq<[bool; N]>) -> Seq<bool>
    decreases f,
{
    let len = tr.len();
    match f {
        SyntaxTree::Atom(i) => Seq::new(len, |t: int| tr[t]@[i as int]),
        SyntaxTree::Not(c) => {
            let v = truth_values(*c, tr);
            Seq::new(len, |t: int| !v[t])
        },
        SyntaxTree::Next(c) => {
            let v = truth_values(*c, tr);
            Seq::new(len, |t: int| v[successor(len, t)])
        },
        SyntaxTree::Globally(c) => {
            let v = truth_values(*c, tr);
            Seq::new(len, |t: int| forall|s: int| t <= s < len ==> #[trigger] v[s])
        },
        SyntaxTree::Finally(c) => {
            let v = truth_values(*c, tr);
            Seq::new(len, |t: int| exists|s: int| t <= s < len && #[trigger] v[s])
        },
        SyntaxTree::And(l, r) => {
            let (a, b) = (truth_values(*l, tr), truth_values(*r, tr));
            Seq::new(len, |t: int| a[t] && b[t])
        },
        SyntaxTree::Or(l, r) => {
            let (a, b) = (truth_values(*l, tr), truth_values(*r, tr));
            Seq::new(len, |t: int| a[t] || b[t])
        },
        SyntaxTree::Implies(l, r) => {
            let (a, b) = (truth_values(*l, tr), truth_values(*r, tr));
            Seq::new(len, |t: int| !a[t] || b[t])
        },
        SyntaxTree::Until(l, r) => {
            let (a, b) = (truth_values(*l, tr), truth_values(*r, tr));
            Seq::new(
                len,
                |t: int|
                    exists|s: int|
                        t <= s < len && #[trigger] b[s] && forall|q: int| t <= q < s ==> #[trigger] a[q],
            )
        },
    }
}

/// Whether `f` holds at position `t` of the trace `tr`.
pub open spec fn holds<const N: usize>(f: SyntaxTree, tr: Seq<[bool; N]>, t: int) -> bool {
    truth_values(f, tr)[t]
}

/// The position after `t` in a trace of length `len`; the last position is its own successor.
pub open spec fn successor(len: nat, t: int) -> int {
    if t + 1 < len {
        t + 1
    } else {
        len - 1
    }
}

/// `tr ⊨ f`: the formula holds at the first position.
pub open spec fn satisfies<const N: usize>(f: SyntaxTree, tr: Seq<[bool; N]>) -> bool {
    holds(f, tr, 0)
}

/// A labelled sample: traces that a consistent formula accepts, and traces it rejects.
pub struct Sample<const N: usize> {
    pub positive_traces: Vec<Vec<[bool; N]>>,
    pub negative_traces: Vec<Vec<[bool; N]>>,
}

impl<const N: usize> Sample<N> {
    pub open spec fn positives(&self) -> Seq<Seq<[bool; N]>> {
        self.positive_traces@.map_values(|t: Vec<[bool; N]>| t@)
    }

    pub open spec fn negatives(&self) -> Seq<Seq<[bool; N]>> {
        self.negative_traces@.map_values(|t: Vec<[bool; N]>| t@)
    }

    /// Every trace of the sample is non-empty.
    pub open spec fn well_formed(&self) -> bool {
        &&& forall|k: int| 0 <= k < self.positive_traces.len() ==> #[trigger] self.positive_traces[k].len() > 0
        &&& forall|k: int| 0 <= k < self.negative_traces.len() ==> #[trigger] self.negative_traces[k].len() > 0
    }

    /// Every positive trace satisfies `f` and no negative trace does.
    pub open spec fn consistent_with(&self, f: SyntaxTree) -> bool {
        &&& forall|k: int| 0 <= k < self.positives().len() ==> satisfies(f, #[trigger] self.positives()[k])
        &&& forall|k: int| 0 <= k < self.negatives().len() ==> !satisfies(f, #[trigger] self.negatives()[k])
    }

    /// Whether every positive trace satisfies `f` and no negative trace does.
    pub fn is_consistent(&self, f: &SyntaxTree) -> (r: bool)
        requires
            self.well_formed(),
            well_formed(*f, N as nat),
        ensures
            r == self.consistent_with(*f),
    {
        let mut k: usize = 0;
        while k < self.positive_traces.len()
            invariant
                self.well_formed(),
                well_formed(*f, N as nat),
                k <= self.positive_traces.len(),
                forall|j: int| 0 <= j < k ==> satisfies(*f, #[trigger] self.positives()[j]),
            decreases self.positive_traces.len() - k,
        {
            assert(self.positive_traces[k as int].len() > 0);
            if !f.eval(self.positive_traces[k].as_slice()) {
                assert(!satisfies(*f, self.positives()[k as int]));
                return false;
            }
            k += 1;
        }
        let mut k: usize = 0;
        while k < self.negative_traces.len()
            invariant
                self.well_formed(),
                well_formed(*f, N as nat),
                k <= self.negative_traces.len(),
                forall|j: int| 0 <= j < self.positives().len() ==> satisfies(*f, #[trigger] self.positives()[j]),
                forall|j: int| 0 <= j < k ==> !satisfies(*f, #[trigger] self.negatives()[j]),
            decreases self.negative_traces.len() - k,
        {
            assert(self.negative_traces[k as int].len() > 0);
            if f.eval(self.negative_traces[k].as_slice()) {
                assert(satisfies(*f, self.negatives()[k as int]));
                return false;
            }
            k += 1;
        }
        true
    }
}

pub(crate) proof fn lemma_all_step(v: Seq<bool>, t: int)
    requires
        0 <= t < v.len(),
    ensures
        (forall|s: int| t <= s < v.len() ==> #[trigger] v[s]) == (v[t] && (t + 1 < v.len()
            ==> forall|s: int| t + 1 <= s < v.len() ==> #[trigger] v[s])),
{
}

pub(crate) proof fn lemma_any_step(v: Seq<bool>, t: int)
    requires
        0 <= t < v.len(),
    ensures
        (exists|s: int| t <= s < v.len() && #[trigger] v[s]) == (v[t] || (t + 1 < v.len()
            && exists|s: int| t + 1 <= s < v.len() && #[trigger] v[s])),
{
    if !v[t] && exists|s: int| t <= s < v.len() && #[trigger] v[s] {
        let s = choose|s: int| t <= s < v.len() && #[trigger] v[s];
        assert(t + 1 <= s);
    }
}

pub(crate) proof fn lemma_until_step(a: Seq<bool>, b: Seq<bool>, t: int)
    requires
        0 <= t < a.len(),
        a.len() == b.len(),
    ensures
        (exists|s: int|
            t <= s < b.len() && #[trigger] b[s] && forall|q: int| t <= q < s ==> #[trigger] a[q])
            == (b[t] || (t + 1 < b.len() && a[t] && exists|s: int|
            t + 1 <= s < b.len() && #[trigger] b[s] && forall|q: int|
                t + 1 <= q < s ==> #[trigger] a[q])),
{
    if !b[t] && exists|s: int|
        t <= s < b.len() && #[trigger] b[s] && forall|q: int| t <= q < s ==> #[trigger] a[q] {
        let s = choose|s: int|
            t <= s < b.len() && #[trigger] b[s] && forall|q: int| t <= q < s ==> #[trigger] a[q];
        assert(t + 1 <= s);
        assert(a[t]);
        assert(forall|q: int| t + 1 <= q < s ==> #[trigger] a[q]);
    }
    if !b[t] && t + 1 < b.len() && a[t] && exists|s: int|
        t + 1 <= s < b.len() && #[trigger] b[s] && forall|q: int|
            t + 1 <= q < s ==> #[trigger] a[q] {
        let s = choose|s: int|
            t + 1 <= s < b.len() && #[trigger] b[s] && forall|q: int|
                t + 1 <= q < s ==> #[trigger] a[q];
        assert(forall|q: int| t <= q < s ==> #[trigger] a[q]);
    }
    if b[t] {
        assert(forall|q: int| t <= q < t ==> #[trigger] a[q]);
    }
}

impl SyntaxTree {
    /// The truth value of the formula at every position of the trace.
    pub fn eval_positions<const N: usize>(&self, trace: &[[bool; N]]) -> (r: Vec<bool>)
        requires
            well_formed(*self, N as nat),
        ensures
            r@ == truth_values(*self, trace@),
        decreases self,
    {
        let len = trace.len();
        let ghost want = truth_values(*self, trace@);
        match self {
            SyntaxTree::Atom(i) => {
                let mut r: Vec<bool> = Vec::with_capacity(len);
                let mut t: usize = 0;
                while t < len
                    invariant
                        *i < N,
                        want == Seq::new(len as nat, |s: int| trace@[s]@[*i as int]),
                        len == trace.len(),
                        t <= len,
                        r@ == want.take(t as int),
                    decreases len - t,
                {
                    r.push(trace[t][*i]);
                    t += 1;
                    assert(r@ =~= want.take(t as int));
                }
                assert(r@ =~= want);
                r
            },
            SyntaxTree::Not(c) => {
                let mut r = c.eval_positions(trace);
                let ghost v = r@;
                let mut t: usize = 0;
                while t < len
                    invariant
                        want == Seq::new(len as nat, |s: int| !v[s]),
                        len == trace.len(),
                        t <= len,
                        r.len() == len,
                        v.len() == len,
                        forall|s: int| 0 <= s < t ==> r[s] == want[s],
                        forall|s: int| t <= s < len ==> r[s] == v[s],
                    decreases len - t,
                {
                    let b = !r[t];
                    r.set(t, b);
                    t += 1;
                }
                assert(r@ =~= want);
                r
            },
            SyntaxTree::Next(c) => {
                let v = c.eval_positions(trace);
                let mut r: Vec<bool> = Vec::with_capacity(len);
                let mut t: usize = 0;
                while t < len
                    invariant
                        want == Seq::new(len as nat, |s: int| v@[successor(len as nat, s)]),
                        len == trace.len(),
                        t <= len,
                        v.len() == len,
                        r@ == want.take(t as int),
                    decreases len - t,
                {
                    let next = if t + 1 < len {
                        t + 1
                    } else {
                        len - 1
                    };
                    r.push(v[next]);
                    t += 1;
                    assert(r@ =~= want.take(t as int));
                }
                assert(r@ =~= want);
                r
            },
            SyntaxTree::Globally(c) => {
                let mut r = c.eval_positions(trace);
                let ghost v = r@;
                let mut t: usize = len;
                while t > 0
                    invariant
                        want == Seq::new(
                            len as nat,
                            |u: int| forall|s: int| u <= s < len ==> #[trigger] v[s],
                        ),
                        len == trace.len(),
                        t <= len,
                        r.len() == len,
                        v.len() == len,
                        forall|s: int| 0 <= s < t ==> r[s] == v[s],
                        forall|s: int| t <= s < len ==> r[s] == want[s],
                    decreases t,
                {
                    t -= 1;
                    proof {
                        lemma_all_step(v, t as int);
                        assert(want[t as int] == (v[t as int] && (t + 1 < len ==> want[t + 1])));
                    }
                    if t + 1 < len {
                        let b = r[t] && r[t + 1];
                        r.set(t, b);
                    }
                }
                assert(r@ =~= want);
                r
            },
            SyntaxTree::Finally(c) => {
                let mut r = c.eval_positions(trace);
                let ghost v = r@;
                let mut t: usize = len;
                while t > 0
                    invariant
                        want == Seq::new(
                            len as nat,
                            |u: int| exists|s: int| u <= s < len && #[trigger] v[s],
                        ),
                        len == trace.len(),
                        t <= len,
                        r.len() == len,
                        v.len() == len,
                        forall|s: int| 0 <= s < t ==> r[s] == v[s],
                        forall|s: int| t <= s < len ==> r[s] == want[s],
                    decreases t,
                {
                    t -= 1;
                    proof {
                        lemma_any_step(v, t as int);
                        assert(want[t as int] == (v[t as int] || (t + 1 < len && want[t + 1])));
                    }
                    if t + 1 < len {
                        let b = r[t] || r[t + 1];
                        r.set(t, b);
                    }
                }
                assert(r@ =~= want);
                r
            },
            SyntaxTree::Until(a, b) => {
                let va = a.eval_positions(trace);
                let mut r = b.eval_positions(trace);
                let ghost vb = r@;
                let mut t: usize = len;
                while t > 0
                    invariant
                        want == Seq::new(
                            len as nat,
                            |u: int|
                                exists|s: int|
                                    u <= s < len && #[trigger] vb[s] && forall|q: int|
                                        u <= q < s ==> #[trigger] va@[q],
                        ),
                        len == trace.len(),
                        t <= len,
                        r.len() == len,
                        va.len() == len,
                        vb.len() == len,
                        forall|s: int| 0 <= s < t ==> r[s] == vb[s],
                        forall|s: int| t <= s < len ==> r[s] == want[s],
                    decreases t,
                {
                    t -= 1;
                    proof {
                        lemma_until_step(va@, vb, t as int);
                        assert(want[t as int] == (vb[t as int] || (t + 1 < len && va[t as int]
                            && want[t + 1])));
                    }
                    if t + 1 < len {
                        let x = r[t] || (va[t] && r[t + 1]);
                        r.set(t, x);
                    }
                }
                assert(r@ =~= want);
                r
            },
            SyntaxTree::And(a, b) | SyntaxTree::Or(a, b) | SyntaxTree::Implies(a, b) => {
                let mut r = a.eval_positions(trace);
                let ghost va = r@;
                let vb = b.eval_positions(trace);
                let mut t: usize = 0;
                while t < len
                    invariant
                        *self == SyntaxTree::And(*a, *b) || *self == SyntaxTree::Or(*a, *b) || *self
                            == SyntaxTree::Implies(*a, *b),
                        va == truth_values(**a, trace@),
                        vb@ == truth_values(**b, trace@),
                        want == truth_values(*self, trace@),
                        len == trace.len(),
                        t <= len,
                        r.len() == len,
                        va.len() == len,
                        vb.len() == len,
                        forall|s: int| 0 <= s < t ==> r[s] == want[s],
                        forall|s: int| t <= s < len ==> r[s] == va[s],
                    decreases len - t,
                {
                    let x = match self {
                        SyntaxTree::And(_, _) => r[t] && vb[t],
                        SyntaxTree::Or(_, _) => r[t] || vb[t],
                        _ => !r[t] || vb[t],
                    };
                    r.set(t, x);
                    t += 1;
                }
                assert(r@ =~= want);
                r
            },
        }
    }

    /// `trace ⊨ self`: whether the formula holds at the first position of the trace.
    pub fn eval<const N: usize>(&self, trace: &[[bool; N]]) -> (r: bool)
        requires
            well_formed(*self, N as nat),
            trace.len() > 0,
        ensures
            r == satisfies(*self, trace@),
    {
        let v = self.eval_positions(trace);
        v[0]
    }
}

/// At the last position `Next(f)` means `f`: the last state is its own successor.
pub proof fn lemma_next_stutters_at_end<const N: usize>(f: SyntaxTree, tr: Seq<[bool; N]>)
    requires
        tr.len() > 0,
    ensures
        holds(SyntaxTree::Next(Arc::new(f)), tr, tr.len() - 1) == holds(f, tr, tr.len() - 1),
{
}

/// `G f` holds exactly where `F ¬f` does not.
pub proof fn lemma_globally_dual<const N: usize>(f: SyntaxTree, tr: Seq<[bool; N]>, t: int)
    requires
        0 <= t < tr.len(),
    ensures
        holds(SyntaxTree::Globally(Arc::new(f)), tr, t) == !holds(
            SyntaxTree::Finally(Arc::new(SyntaxTree::Not(Arc::new(f)))),
            tr,
            t,
        ),
{
    let v = truth_values(f, tr);
    let nv = truth_values(SyntaxTree::Not(Arc::new(f)), tr);
    assert(forall|s: int| 0 <= s < tr.len() ==> #[trigger] nv[s] == !v[s]);
    if !holds(SyntaxTree::Globally(Arc::new(f)), tr, t) {
        let s = choose|s: int| t <= s < tr.len() && !#[trigger] v[s];
        assert(nv[s]);
    }
}

/// `F f` holds exactly where `(p ∨ ¬p) U f` does, for any atom `p`.
pub proof fn lemma_finally_is_true_until<const N: usize>(
    f: SyntaxTree,
    i: usize,
    tr: Seq<[bool; N]>,
    t: int,
)
    requires
        0 <= t < tr.len(),
    ensures
        holds(SyntaxTree::Finally(Arc::new(f)), tr, t) == holds(
            SyntaxTree::Until(
                Arc::new(
                    SyntaxTree::Or(
                        Arc::new(SyntaxTree::Atom(i)),
                        Arc::new(SyntaxTree::Not(Arc::new(SyntaxTree::Atom(i)))),
                    ),
                ),
                Arc::new(f),
            ),
            tr,
            t,
        ),
{
    let p = SyntaxTree::Atom(i);
    let top = SyntaxTree::Or(Arc::new(p), Arc::new(SyntaxTree::Not(Arc::new(p))));
    let tv = truth_values(top, tr);
    let v = truth_values(f, tr);
    let a = truth_values(p, tr);
    let na = truth_values(SyntaxTree::Not(Arc::new(p)), tr);
    assert(forall|s: int| 0 <= s < tr.len() ==> #[trigger] na[s] == !a[s]);
    assert(forall|s: int| 0 <= s < tr.len() ==> #[trigger] tv[s] == (a[s] || na[s]));
    assert(forall|s: int| 0 <= s < tr.len() ==> #[trigger] tv[s]);
    if holds(SyntaxTree::Finally(Arc::new(f)), tr, t) {
        let s = choose|s: int| t <= s < tr.len() && #[trigger] v[s];
        assert(forall|q: int| t <= q < s ==> #[trigger] tv[q]);
    }
}

} // verus!
