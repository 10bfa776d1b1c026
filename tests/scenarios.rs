use learn_ltl::syntax::SyntaxTree;
use learn_ltl::{solve, solve_size, Sample, SkeletonTree};
use std::sync::Arc;

const T: bool = true;
const F: bool = false;

fn trace(states: &[(bool, bool)]) -> Vec<[bool; 2]> {
    states.iter().map(|&(a, b)| [a, b]).collect()
}

fn sample(p: Vec<Vec<[bool; 2]>>, q: Vec<Vec<[bool; 2]>>) -> Sample<2> {
    Sample { positive_traces: p, negative_traces: q }
}

fn atom(i: usize) -> SyntaxTree {
    SyntaxTree::Atom(i)
}

fn next(f: SyntaxTree) -> SyntaxTree {
    SyntaxTree::Next(Arc::new(f))
}

fn globally(f: SyntaxTree) -> SyntaxTree {
    SyntaxTree::Globally(Arc::new(f))
}

fn finally(f: SyntaxTree) -> SyntaxTree {
    SyntaxTree::Finally(Arc::new(f))
}

/// No candidate of a size below the result's is consistent, and the result is.
fn assert_minimal(s: &Sample<2>, f: &SyntaxTree) {
    assert!(s.is_consistent(f));
    for size in 1..f.size() {
        for sk in SkeletonTree::gen(size) {
            for g in sk.gen_formulae::<2>() {
                assert!(!s.is_consistent(&g), "{:?} of size {} is consistent", g, size);
            }
        }
    }
}

fn check_both_modes(s: &Sample<2>) -> SyntaxTree {
    let serial = solve(s, false).unwrap();
    let parallel = solve(s, true).unwrap();
    assert_eq!(serial.size(), parallel.size());
    assert_minimal(s, &serial);
    assert_minimal(s, &parallel);
    serial
}

#[test]
fn single_atom() {
    let s = sample(vec![trace(&[(T, F)])], vec![trace(&[(F, F)])]);
    let f = check_both_modes(&s);
    assert_eq!(f, atom(0));
    assert_eq!(f.size(), 1);
}

#[test]
fn always_first_atom() {
    let s = sample(vec![trace(&[(T, F), (T, F)])], vec![trace(&[(T, F), (F, F)])]);
    let f = check_both_modes(&s);
    assert_eq!(f.size(), 2);
    // Globally(Atom(0)) separates the sample too, but Next(Atom(0)) is enumerated first
    assert!(s.is_consistent(&globally(atom(0))));
    assert_eq!(f, next(atom(0)));
}

#[test]
fn eventually_first_atom() {
    let s = sample(vec![trace(&[(F, F), (T, F)])], vec![trace(&[(F, F), (F, F)])]);
    let f = check_both_modes(&s);
    assert_eq!(f.size(), 2);
    // Finally(Atom(0)) separates the sample too, but Next(Atom(0)) is enumerated first
    assert!(s.is_consistent(&finally(atom(0))));
    assert_eq!(f, next(atom(0)));
}

#[test]
fn next_second_atom() {
    let s = sample(vec![trace(&[(T, F), (F, T)])], vec![trace(&[(T, F), (F, F)])]);
    let f = check_both_modes(&s);
    assert_eq!(f, next(atom(1)));
    assert_eq!(f.size(), 2);
}

#[test]
fn conjunction_of_atoms() {
    let s = sample(vec![trace(&[(T, T)])], vec![trace(&[(T, F)]), trace(&[(F, T)])]);
    let f = check_both_modes(&s);
    assert_eq!(f, SyntaxTree::And(Arc::new(atom(0)), Arc::new(atom(1))));
    assert_eq!(f.size(), 3);
}

#[test]
fn until_sample() {
    let s = sample(
        vec![trace(&[(T, F), (T, F), (F, T)])],
        vec![trace(&[(T, F), (F, T), (F, T)])],
    );
    let f = check_both_modes(&s);
    // the negative trace satisfies Until(Atom(0), Atom(1)) too; Next(Atom(0)) separates the sample
    let until = SyntaxTree::Until(Arc::new(atom(0)), Arc::new(atom(1)));
    assert!(!s.is_consistent(&until));
    assert_eq!(f, next(atom(0)));
    assert_eq!(f.size(), 2);
}

#[test]
fn parallel_search_of_one_size() {
    let s = sample(vec![trace(&[(T, F)])], vec![trace(&[(F, F)])]);
    let par = solve_size(&s, 6, true).unwrap();
    let ser = solve_size(&s, 6, false).unwrap();
    assert_eq!(par.size(), 6);
    assert_eq!(ser.size(), 6);
    assert!(s.is_consistent(&par));
    assert!(s.is_consistent(&ser));
}

#[test]
fn no_formula_of_a_size() {
    // identical positive and negative traces: nothing is consistent
    let s = sample(vec![trace(&[(T, F)])], vec![trace(&[(T, F)])]);
    for size in 1..=4 {
        assert_eq!(solve_size(&s, size, false), None);
    }
    assert_eq!(solve_size(&s, 6, true), None);
}

#[test]
fn consistency_definition() {
    let s = sample(
        vec![trace(&[(T, F)]), trace(&[(T, T), (F, F)])],
        vec![trace(&[(F, T)])],
    );
    assert!(s.is_consistent(&atom(0)));
    assert!(!s.is_consistent(&atom(1)));
    let empty = sample(vec![], vec![]);
    assert!(empty.is_consistent(&atom(1)));
}

#[test]
fn tautology_sample_needs_a_larger_candidate() {
    // only positive traces: Implies(Atom(0), Atom(0)) of size 3 is consistent,
    // but no candidate of at most 3 nodes is a constant, so the search goes past size 3
    let s = sample(vec![trace(&[(T, F)]), trace(&[(F, T)]), trace(&[(F, F)])], vec![]);
    let taut = SyntaxTree::Implies(Arc::new(atom(0)), Arc::new(atom(0)));
    assert!(s.is_consistent(&taut));
    let f = solve(&s, false).unwrap();
    assert!(s.is_consistent(&f));
    assert!(f.size() > 3);
}
