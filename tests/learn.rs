use learn_ltl::syntax::SyntaxTree;
use learn_ltl::SkeletonTree;

fn atoms_below(f: &SyntaxTree, n: usize) -> bool {
    match f {
        SyntaxTree::Atom(i) => *i < n,
        SyntaxTree::Not(c) | SyntaxTree::Next(c) | SyntaxTree::Globally(c) | SyntaxTree::Finally(c) => {
            atoms_below(c, n)
        }
        SyntaxTree::And(l, r)
        | SyntaxTree::Or(l, r)
        | SyntaxTree::Implies(l, r)
        | SyntaxTree::Until(l, r) => atoms_below(l, n) && atoms_below(r, n),
    }
}

#[test]
fn formulae() {
    for size in 1..=9 {
        let mut formulae = 0usize;
        for skeleton in SkeletonTree::gen(size) {
            for f in skeleton.gen_formulae::<5>() {
                assert_eq!(f.size(), size);
                assert!(atoms_below(&f, 5));
                formulae += 1;
            }
        }
        println!("formulae found (size {size}, vars 5): {formulae}");
        assert!(formulae > 0);
    }
}

#[test]
fn formula_counts() {
    let counts: Vec<usize> = (1..=6)
        .map(|size| {
            SkeletonTree::gen(size)
                .into_iter()
                .map(|skeleton| skeleton.gen_formulae::<5>().len())
                .sum()
        })
        .collect();
    assert_eq!(counts, vec![5, 20, 105, 845, 6325, 52955]);
}

#[test]
fn skeleton_counts() {
    // 1, 1, 2, 4, 9, 21: the Motzkin numbers count unary-binary trees by node count
    let counts: Vec<usize> = (1..=6).map(|n| SkeletonTree::gen(n).len()).collect();
    assert_eq!(counts, vec![1, 1, 2, 4, 9, 21]);
}

#[test]
fn leaves_are_atoms() {
    let fs = SkeletonTree::Leaf.gen_formulae::<3>();
    assert_eq!(fs, vec![SyntaxTree::Atom(0), SyntaxTree::Atom(1), SyntaxTree::Atom(2)]);
}

#[test]
fn unary_layer_order() {
    let sk = SkeletonTree::gen(2);
    assert_eq!(sk.len(), 1);
    let fs = sk[0].gen_formulae::<1>();
    let a = std::sync::Arc::new(SyntaxTree::Atom(0));
    assert_eq!(
        fs,
        vec![
            SyntaxTree::Not(a.clone()),
            SyntaxTree::Next(a.clone()),
            SyntaxTree::Globally(a.clone()),
            SyntaxTree::Finally(a),
        ]
    );
}

#[test]
fn binary_layer_over_two_atoms() {
    let sk = SkeletonTree::gen(3);
    assert_eq!(sk.len(), 2);
    let fs = sk[1].gen_formulae::<2>();
    let p = std::sync::Arc::new(SyntaxTree::Atom(0));
    let q = std::sync::Arc::new(SyntaxTree::Atom(1));
    assert_eq!(
        fs,
        vec![
            SyntaxTree::And(p.clone(), q.clone()),
            SyntaxTree::Or(p.clone(), q.clone()),
            SyntaxTree::Implies(p.clone(), q.clone()),
            SyntaxTree::Until(p.clone(), q.clone()),
            SyntaxTree::Implies(q.clone(), p.clone()),
            SyntaxTree::Until(q, p),
        ]
    );
}
