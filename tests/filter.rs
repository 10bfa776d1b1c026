use learn_ltl::syntax::SyntaxTree;
use learn_ltl::{
    check_and, check_finally, check_globally, check_implies, check_next, check_not, check_or,
    check_until, SkeletonTree,
};
use std::collections::HashSet;
use std::sync::Arc;

fn atom(i: usize) -> SyntaxTree {
    SyntaxTree::Atom(i)
}

fn not(f: SyntaxTree) -> SyntaxTree {
    SyntaxTree::Not(Arc::new(f))
}

fn next(f: SyntaxTree) -> SyntaxTree {
    SyntaxTree::Next(Arc::new(f))
}

fn globally(f: SyntaxTree) -> SyntaxTree {
    SyntaxTree::Globally(Arc::new(f))
}

fn finally(f: SyntaxTree) -> SyntaxTree {
    SyntaxTree::Finally(Arc::new(f))
}

fn and(l: SyntaxTree, r: SyntaxTree) -> SyntaxTree {
    SyntaxTree::And(Arc::new(l), Arc::new(r))
}

fn or(l: SyntaxTree, r: SyntaxTree) -> SyntaxTree {
    SyntaxTree::Or(Arc::new(l), Arc::new(r))
}

fn implies(l: SyntaxTree, r: SyntaxTree) -> SyntaxTree {
    SyntaxTree::Implies(Arc::new(l), Arc::new(r))
}

fn until(l: SyntaxTree, r: SyntaxTree) -> SyntaxTree {
    SyntaxTree::Until(Arc::new(l), Arc::new(r))
}

#[test]
fn unary_rules() {
    let (p, q) = (atom(0), atom(1));
    assert!(check_not(&p));
    assert!(!check_not(&not(p.clone())));
    assert!(!check_not(&implies(p.clone(), q.clone())));
    assert!(!check_not(&finally(p.clone())));
    assert!(!check_not(&and(not(p.clone()), q.clone())));
    assert!(!check_not(&or(p.clone(), not(q.clone()))));
    assert!(check_not(&and(p.clone(), q.clone())));
    assert!(check_not(&globally(p.clone())));
    assert!(!check_next(&not(p.clone())));
    assert!(!check_next(&globally(p.clone())));
    assert!(!check_next(&finally(p.clone())));
    assert!(check_next(&next(p.clone())));
    assert!(!check_globally(&globally(p.clone())));
    assert!(check_globally(&finally(p.clone())));
    assert!(!check_finally(&finally(p.clone())));
    assert!(check_finally(&globally(p)));
}

#[test]
fn and_rules() {
    let (p, q, r) = (atom(0), atom(1), atom(2));
    assert!(check_and(&p, &q));
    assert!(!check_and(&q, &p));
    assert!(!check_and(&p, &p));
    assert!(!check_and(&p, &not(p.clone())));
    assert!(!check_and(&and(p.clone(), q.clone()), &not(r.clone())));
    assert!(!check_and(&not(p.clone()), &not(q.clone())));
    assert!(!check_and(&next(p.clone()), &next(q.clone())));
    assert!(!check_and(&globally(p.clone()), &globally(q.clone())));
    assert!(!check_and(&implies(p.clone(), q.clone()), &implies(p.clone(), r.clone())));
    assert!(!check_and(&until(p.clone(), r.clone()), &until(q.clone(), r.clone())));
    assert!(check_and(&until(r.clone(), p.clone()), &until(r.clone(), q.clone())));
    assert!(!check_and(&p, &or(p.clone(), q.clone())));
    assert!(!check_and(&or(p.clone(), q.clone()), &or(q.clone(), r.clone())));
    assert!(!check_and(&p, &next(globally(p.clone()))));
    assert!(check_and(&p, &next(globally(q.clone()))));
}

#[test]
fn or_rules() {
    let (p, q, r) = (atom(0), atom(1), atom(2));
    assert!(check_or(&p, &q));
    assert!(!check_or(&q, &p));
    assert!(!check_or(&p, &not(p.clone())));
    assert!(!check_or(&or(p.clone(), q.clone()), &not(r.clone())));
    assert!(!check_or(&not(p.clone()), &next(q.clone())));
    assert!(!check_or(&next(p.clone()), &next(q.clone())));
    assert!(!check_or(&finally(p.clone()), &finally(q.clone())));
    assert!(!check_or(&implies(p.clone(), r.clone()), &implies(q.clone(), r.clone())));
    assert!(!check_or(&until(p.clone(), q.clone()), &until(p.clone(), r.clone())));
    assert!(check_or(&until(q.clone(), p.clone()), &until(r.clone(), p.clone())));
    assert!(!check_or(&p, &and(p.clone(), q.clone())));
    assert!(!check_or(&and(p.clone(), q.clone()), &and(p.clone(), r.clone())));
    assert!(!check_or(&p, &next(finally(p.clone()))));
    assert!(check_or(&p, &next(finally(q.clone()))));
    // q ∨ (p ∧ X(p U q))
    let unrolled = and(p.clone(), next(until(p.clone(), q.clone())));
    assert!(!check_or(&q, &unrolled));
    assert!(check_or(&r, &unrolled));
    // the unrolling is dropped whatever operator the until's right side has
    let unrolled_next = and(p.clone(), next(until(p.clone(), next(q.clone()))));
    assert!(!check_or(&next(q.clone()), &unrolled_next));
    // the rule names the conjunction φ ∧ X(φ U ψ) only, not X(φ U ψ) ∧ φ
    let g = globally(p.clone());
    let swapped = and(next(until(g.clone(), q.clone())), g);
    assert!(check_and(&next(until(globally(p.clone()), q.clone())), &globally(p.clone())));
    assert!(check_or(&q, &swapped));
    assert!(check_or(&r, &swapped));
}

#[test]
fn implies_and_until_rules() {
    let (p, q, r) = (atom(0), atom(1), atom(2));
    assert!(check_implies(&p, &q));
    assert!(check_implies(&q, &p));
    assert!(!check_implies(&p, &p));
    assert!(!check_implies(&not(p.clone()), &q));
    assert!(!check_implies(&p, &not(q.clone())));
    assert!(!check_implies(&p, &implies(q.clone(), r.clone())));
    assert!(check_until(&p, &q));
    assert!(!check_until(&p, &p));
    assert!(!check_until(&next(p.clone()), &next(q.clone())));
    assert!(!check_until(&p, &until(p.clone(), q.clone())));
    assert!(check_until(&p, &until(q.clone(), p.clone())));
}

fn with_children(cs: &[SyntaxTree], out: &mut Vec<SyntaxTree>) {
    for c in cs {
        out.push(not(c.clone()));
        out.push(next(c.clone()));
        out.push(globally(c.clone()));
        out.push(finally(c.clone()));
    }
}

/// Every formula of the given node count over `n` atoms, unfiltered.
fn all_formulae(size: usize, n: usize, memo: &mut Vec<Vec<SyntaxTree>>) -> Vec<SyntaxTree> {
    while memo.len() <= size {
        let s = memo.len();
        let mut out = vec![];
        if s == 1 {
            out = (0..n).map(atom).collect();
        } else if s > 1 {
            let smaller = memo[s - 1].clone();
            with_children(&smaller, &mut out);
            for left in 1..s - 1 {
                let (ls, rs) = (memo[left].clone(), memo[s - 1 - left].clone());
                for l in &ls {
                    for r in &rs {
                        out.push(and(l.clone(), r.clone()));
                        out.push(or(l.clone(), r.clone()));
                        out.push(implies(l.clone(), r.clone()));
                        out.push(until(l.clone(), r.clone()));
                    }
                }
            }
        }
        memo.push(out);
    }
    memo[size].clone()
}

fn traces<const N: usize>(max_len: usize) -> Vec<Vec<[bool; N]>> {
    let mut states: Vec<[bool; N]> = vec![];
    for m in 0..(1usize << N) {
        let mut s = [false; N];
        for (i, b) in s.iter_mut().enumerate() {
            *b = (m >> i) & 1 == 1;
        }
        states.push(s);
    }
    let mut out = vec![];
    let mut layer: Vec<Vec<[bool; N]>> = vec![vec![]];
    for _ in 0..max_len {
        let mut nl = vec![];
        for t in &layer {
            for s in &states {
                let mut u = t.clone();
                u.push(*s);
                nl.push(u);
            }
        }
        out.extend(nl.iter().cloned());
        layer = nl;
    }
    out
}

fn signature<const N: usize>(f: &SyntaxTree, ts: &[Vec<[bool; N]>]) -> Vec<bool> {
    ts.iter().flat_map(|t| f.eval_positions(t)).collect()
}

fn soundness<const N: usize>(max_size: usize, max_len: usize) {
    let ts = traces::<N>(max_len);
    let mut memo = vec![vec![]];
    let mut kept_signatures: HashSet<Vec<bool>> = HashSet::new();
    for size in 1..=max_size {
        let kept: Vec<SyntaxTree> = SkeletonTree::gen(size)
            .into_iter()
            .flat_map(|s| s.gen_formulae::<N>())
            .collect();
        for f in &kept {
            kept_signatures.insert(signature(f, &ts));
        }
        let kept_set: HashSet<SyntaxTree> = kept.into_iter().collect();
        for f in all_formulae(size, N, &mut memo) {
            if !kept_set.contains(&f) {
                let sig = signature(&f, &ts);
                // constant formulae (p → p, p ∧ ¬p, ...) may have no kept
                // equivalent: no candidate of at most 3 nodes is constant
                if sig.iter().all(|b| *b) || sig.iter().all(|b| !*b) {
                    continue;
                }
                assert!(
                    kept_signatures.contains(&sig),
                    "{:?} was dropped without a kept equivalent",
                    f
                );
            }
        }
    }
}

#[test]
fn tautology_is_dropped() {
    let p = atom(0);
    assert!(!check_implies(&p, &p));
    assert!(!check_or(&p, &not(p.clone())));
    let ts = traces::<1>(3);
    assert!(signature(&implies(p.clone(), p), &ts).iter().all(|b| *b));
}

#[test]
fn filter_soundness_one_atom() {
    soundness::<1>(5, 4);
}

#[test]
fn filter_soundness_two_atoms() {
    soundness::<2>(5, 4);
}

#[test]
fn filter_soundness_three_atoms() {
    soundness::<3>(5, 4);
}
