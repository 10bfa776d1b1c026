use learn_ltl::syntax::SyntaxTree;
use std::sync::Arc;

const T: bool = true;
const F: bool = false;

fn atom(i: usize) -> SyntaxTree {
    SyntaxTree::Atom(i)
}

fn un(op: fn(Arc<SyntaxTree>) -> SyntaxTree, f: SyntaxTree) -> SyntaxTree {
    op(Arc::new(f))
}

fn bin(op: fn(Arc<SyntaxTree>, Arc<SyntaxTree>) -> SyntaxTree, l: SyntaxTree, r: SyntaxTree) -> SyntaxTree {
    op(Arc::new(l), Arc::new(r))
}

fn all_traces(max_len: usize) -> Vec<Vec<[bool; 2]>> {
    let states = [[F, F], [F, T], [T, F], [T, T]];
    let mut out: Vec<Vec<[bool; 2]>> = vec![];
    let mut layer: Vec<Vec<[bool; 2]>> = vec![vec![]];
    for _ in 0..max_len {
        let mut nextl = vec![];
        for t in &layer {
            for s in &states {
                let mut u = t.clone();
                u.push(*s);
                nextl.push(u);
            }
        }
        out.extend(nextl.iter().cloned());
        layer = nextl;
    }
    out
}

#[test]
fn eval_atoms_and_operators() {
    let tr = vec![[T, F], [F, T], [F, F]];
    assert!(atom(0).eval(&tr));
    assert!(!atom(1).eval(&tr));
    assert!(un(SyntaxTree::Next, atom(1)).eval(&tr));
    assert!(!un(SyntaxTree::Globally, atom(0)).eval(&tr));
    assert!(un(SyntaxTree::Finally, atom(1)).eval(&tr));
    assert!(bin(SyntaxTree::Until, atom(0), atom(1)).eval(&tr));
    assert!(bin(SyntaxTree::Until, atom(1), atom(0)).eval(&tr));
    assert!(bin(SyntaxTree::Implies, atom(1), atom(0)).eval(&tr));
    assert!(bin(SyntaxTree::Or, atom(1), atom(0)).eval(&tr));
    assert!(!bin(SyntaxTree::And, atom(1), atom(0)).eval(&tr));
    assert_eq!(
        un(SyntaxTree::Globally, atom(0)).eval_positions(&tr),
        vec![F, F, F]
    );
    assert_eq!(
        un(SyntaxTree::Finally, atom(1)).eval_positions(&tr),
        vec![T, T, F]
    );
    assert_eq!(
        bin(SyntaxTree::Until, atom(0), atom(1)).eval_positions(&tr),
        vec![T, T, F]
    );
}

#[test]
fn until_needs_the_left_side_until_the_right() {
    let tr = vec![[T, F], [F, F], [F, T]];
    assert!(!bin(SyntaxTree::Until, atom(0), atom(1)).eval(&tr));
    let tr = vec![[F, F], [F, F], [F, F]];
    assert!(!bin(SyntaxTree::Until, atom(0), atom(1)).eval(&tr));
}

#[test]
fn next_stutters_at_end() {
    let f = un(SyntaxTree::Next, atom(0));
    for tr in all_traces(4) {
        let last = tr.len() - 1;
        assert_eq!(f.eval_positions(&tr)[last], atom(0).eval_positions(&tr)[last]);
    }
    assert!(f.eval(&[[T, F]]));
}

#[test]
fn dualities() {
    let phis = vec![
        atom(0),
        un(SyntaxTree::Next, atom(1)),
        bin(SyntaxTree::Until, atom(1), atom(0)),
    ];
    let taut = bin(SyntaxTree::Or, atom(0), un(SyntaxTree::Not, atom(0)));
    for phi in phis {
        let g = un(SyntaxTree::Globally, phi.clone());
        let fnot = un(SyntaxTree::Finally, un(SyntaxTree::Not, phi.clone()));
        let fin = un(SyntaxTree::Finally, phi.clone());
        let tu = bin(SyntaxTree::Until, taut.clone(), phi.clone());
        for tr in all_traces(4) {
            let (gv, fv) = (g.eval_positions(&tr), fnot.eval_positions(&tr));
            let (f1, f2) = (fin.eval_positions(&tr), tu.eval_positions(&tr));
            for t in 0..tr.len() {
                assert_eq!(gv[t], !fv[t]);
                assert_eq!(f1[t], f2[t]);
            }
        }
    }
}

#[test]
fn size_and_order() {
    let f = bin(SyntaxTree::And, atom(0), un(SyntaxTree::Next, atom(1)));
    assert_eq!(f.size(), 4);
    assert!(atom(0).precedes(&atom(1)));
    assert!(!atom(1).precedes(&atom(0)));
    assert!(!atom(1).precedes(&atom(1)));
    assert!(atom(1).precedes(&un(SyntaxTree::Not, atom(0))));
    assert!(f.equals(&f.clone()));
    assert!(!f.equals(&atom(0)));
}
