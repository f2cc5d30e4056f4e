use kind2::{Match, Oper, Src, StringHashSet, Term};

fn tv_var(name: &str) -> Term {
    Term::Var { nam: name.to_string() }
}

fn tv_lam(name: &str, bod: Term) -> Term {
    Term::Lam { nam: name.to_string(), bod: Box::new(bod) }
}

fn tv_app(fun: Term, arg: Term) -> Term {
    Term::App { fun: Box::new(fun), arg: Box::new(arg) }
}

fn tv_src(ini: u64, end: u64, val: Term) -> Term {
    Term::Src { src: Src::new(0, ini, end), val: Box::new(val) }
}

fn tv_free(term: &Term, bound: &[&str]) -> StringHashSet {
    let mut env = im::Vector::new();
    for name in bound {
        env.push_back(name.to_string());
    }
    let mut free = StringHashSet::new();
    term.get_free_vars(env, &mut free);
    free
}

fn tv_match(name: &str, cases: Vec<(&str, Term)>, moti: Option<Term>) -> Term {
    Term::Mch {
        mch: Box::new(Match {
            name: name.to_string(),
            expr: tv_var(name),
            cses: cases.into_iter().map(|(n, t)| (n.to_string(), t)).collect(),
            moti,
        }),
    }
}

fn tv_has_match(term: &Term) -> bool {
    match term {
        Term::Mch { .. } => true,
        Term::All { inp, bod, .. } => tv_has_match(inp) || tv_has_match(bod),
        Term::Lam { bod, .. } => tv_has_match(bod),
        Term::App { fun, arg } => tv_has_match(fun) || tv_has_match(arg),
        Term::Ann { val, typ, .. } => tv_has_match(val) || tv_has_match(typ),
        Term::Slf { typ, bod, .. } => tv_has_match(typ) || tv_has_match(bod),
        Term::Ins { val } => tv_has_match(val),
        Term::Op2 { fst, snd, .. } => tv_has_match(fst) || tv_has_match(snd),
        Term::Swi { x, z, s, p, .. } => {
            tv_has_match(x) || tv_has_match(z) || tv_has_match(s) || tv_has_match(p)
        }
        Term::Let { val, bod, .. } => tv_has_match(val) || tv_has_match(bod),
        Term::Use { val, bod, .. } => tv_has_match(val) || tv_has_match(bod),
        Term::Src { val, .. } => tv_has_match(val),
        _ => false,
    }
}

#[test]
fn free_vars_of_lambda_application() {
    let term = tv_lam("x", tv_app(tv_var("x"), tv_var("y")));
    let free = tv_free(&term, &[]);
    assert_eq!(free.len(), 1);
    assert!(free.contains("y"));
    assert!(!free.contains("x"));
}

#[test]
fn free_vars_of_forall_over_its_own_name() {
    let term = Term::All {
        nam: "x".to_string(),
        inp: Box::new(Term::Uni),
        bod: Box::new(tv_var("x")),
    };
    let free = tv_free(&term, &[]);
    assert_eq!(free.len(), 0);
}

#[test]
fn free_vars_of_closed_term() {
    let term = tv_lam("x", tv_lam("y", tv_app(tv_var("x"), tv_var("y"))));
    assert_eq!(tv_free(&term, &[]).len(), 0);
}

#[test]
fn free_vars_forall_does_not_bind_in_its_input() {
    let term = Term::All {
        nam: "x".to_string(),
        inp: Box::new(tv_var("x")),
        bod: Box::new(tv_var("x")),
    };
    let free = tv_free(&term, &[]);
    assert_eq!(free.len(), 1);
    assert!(free.contains("x"));
}

#[test]
fn free_vars_respect_the_given_environment() {
    let term = tv_app(tv_var("a"), tv_var("b"));
    let free = tv_free(&term, &["a"]);
    assert_eq!(free.len(), 1);
    assert!(free.contains("b"));
}

#[test]
fn free_vars_are_added_to_those_already_there() {
    let term = tv_var("b");
    let mut free = StringHashSet::new();
    free.insert("a".to_string());
    term.get_free_vars(im::Vector::new(), &mut free);
    assert_eq!(free.len(), 2);
    assert!(free.contains("a"));
    assert!(free.contains("b"));
}

#[test]
fn free_vars_switch_binds_predecessor_and_name() {
    let term = Term::Swi {
        nam: "n".to_string(),
        x: Box::new(tv_var("n")),
        z: Box::new(tv_var("n-1")),
        s: Box::new(tv_app(tv_var("n-1"), tv_var("n"))),
        p: Box::new(tv_app(tv_var("n"), tv_var("n-1"))),
    };
    let free = tv_free(&term, &[]);
    // the scrutinee and the zero branch bind nothing; the successor branch
    // binds only `n-1`; the motive binds only `n`
    assert_eq!(free.len(), 2);
    assert!(free.contains("n"));
    assert!(free.contains("n-1"));

    let closed = Term::Swi {
        nam: "n".to_string(),
        x: Box::new(Term::Num { val: 1 }),
        z: Box::new(Term::Num { val: 0 }),
        s: Box::new(tv_var("n-1")),
        p: Box::new(tv_var("n")),
    };
    assert_eq!(tv_free(&closed, &[]).len(), 0);
}

#[test]
fn free_vars_let_and_use_bind_in_body_only() {
    let term = Term::Let {
        nam: "x".to_string(),
        val: Box::new(tv_var("x")),
        bod: Box::new(tv_var("x")),
    };
    let free = tv_free(&term, &[]);
    assert_eq!(free.len(), 1);
    assert!(free.contains("x"));
    let term = Term::Use {
        nam: "y".to_string(),
        val: Box::new(Term::U60),
        bod: Box::new(tv_app(tv_var("y"), tv_var("z"))),
    };
    let free = tv_free(&term, &[]);
    assert_eq!(free.len(), 1);
    assert!(free.contains("z"));
}

#[test]
fn free_vars_ignore_holes_and_literals() {
    let term = tv_app(
        Term::Hol { nam: "h".to_string() },
        tv_app(Term::Txt { txt: "t".to_string() }, tv_app(Term::Nat { nat: 3 }, Term::Met {})),
    );
    assert_eq!(tv_free(&term, &[]).len(), 0);
}

#[test]
fn cons_appends_and_leaves_its_argument() {
    let mut env: im::Vector<String> = im::Vector::new();
    env.push_back("a".to_string());
    let longer = kind2::cons(&env, "b".to_string());
    assert_eq!(env.len(), 1);
    assert_eq!(longer.len(), 2);
    assert_eq!(longer[0], "a");
    assert_eq!(longer[1], "b");
}

#[test]
fn clean_drops_every_span() {
    let term = tv_src(0, 9, tv_lam("x", tv_src(3, 8, tv_app(tv_src(4, 5, tv_var("x")), tv_var("y")))));
    let expected = tv_lam("x", tv_app(tv_var("x"), tv_var("y")));
    assert_eq!(term.clean(), expected);
}

#[test]
fn clean_is_idempotent() {
    let term = tv_src(
        0,
        9,
        Term::Op2 {
            opr: Oper::Add,
            fst: Box::new(tv_src(1, 2, Term::Num { val: 1 })),
            snd: Box::new(tv_src(3, 4, tv_src(3, 4, Term::Num { val: 2 }))),
        },
    );
    let once = term.clean();
    let twice = once.clean();
    assert_eq!(once, twice);
    assert_eq!(
        once,
        Term::Op2 {
            opr: Oper::Add,
            fst: Box::new(Term::Num { val: 1 }),
            snd: Box::new(Term::Num { val: 2 }),
        }
    );
}

#[test]
fn clean_keeps_every_other_shape() {
    let term = Term::Swi {
        nam: "n".to_string(),
        x: Box::new(Term::Ins { val: Box::new(tv_var("n")) }),
        z: Box::new(Term::Ann {
            chk: true,
            val: Box::new(Term::Hol { nam: "h".to_string() }),
            typ: Box::new(Term::U60),
        }),
        s: Box::new(Term::Slf {
            nam: "s".to_string(),
            typ: Box::new(Term::Uni),
            bod: Box::new(Term::Txt { txt: "hi".to_string() }),
        }),
        p: Box::new(Term::Let {
            nam: "a".to_string(),
            val: Box::new(Term::Nat { nat: 7 }),
            bod: Box::new(Term::Use {
                nam: "b".to_string(),
                val: Box::new(Term::Met {}),
                bod: Box::new(Term::All {
                    nam: "c".to_string(),
                    inp: Box::new(Term::Uni),
                    bod: Box::new(tv_var("c")),
                }),
            }),
        }),
    };
    assert_eq!(term.clean(), term);
}

#[test]
fn clone_copies_the_whole_tree() {
    let term = tv_match(
        "x",
        vec![("succ", tv_lam("p", tv_var("p"))), ("zero", Term::Num { val: 0 })],
        Some(Term::U60),
    );
    let copy = term.clone();
    assert_eq!(copy, term);
    let copy = term.deep_clone();
    assert_eq!(copy, term);
}

#[test]
fn new_match_applies_scrutinee_to_motive_and_cases() {
    let mat = Match {
        name: "x".to_string(),
        expr: tv_var("v"),
        cses: vec![("succ".to_string(), tv_var("s")), ("zero".to_string(), tv_var("z"))],
        moti: Some(Term::U60),
    };
    let expected = tv_app(
        tv_app(
            tv_app(Term::Ins { val: Box::new(tv_var("v")) }, tv_lam("x", Term::U60)),
            tv_var("s"),
        ),
        tv_var("z"),
    );
    assert_eq!(Term::new_match(&mat), expected);
}

#[test]
fn new_match_without_motive_uses_a_metavariable() {
    let mat = Match { name: "x".to_string(), expr: tv_var("x"), cses: vec![], moti: None };
    let expected = tv_app(Term::Ins { val: Box::new(tv_var("x")) }, Term::Met {});
    assert_eq!(Term::new_match(&mat), expected);
}

#[test]
fn desugar_removes_every_match() {
    let inner = tv_match("y", vec![("a", tv_var("p"))], None);
    let mut term = tv_lam(
        "x",
        tv_match("x", vec![("succ", inner), ("zero", Term::Num { val: 0 })], Some(Term::U60)),
    );
    term.desugar();
    assert!(!tv_has_match(&term));
    let inner_expanded = tv_app(
        tv_app(Term::Ins { val: Box::new(tv_var("y")) }, Term::Met {}),
        tv_var("p"),
    );
    let expected = tv_lam(
        "x",
        tv_app(
            tv_app(
                tv_app(Term::Ins { val: Box::new(tv_var("x")) }, tv_lam("x", Term::U60)),
                inner_expanded,
            ),
            Term::Num { val: 0 },
        ),
    );
    assert_eq!(term, expected);
}

#[test]
fn desugar_is_idempotent() {
    let mut term = tv_app(
        tv_match("x", vec![("a", tv_match("y", vec![], Some(tv_var("m"))))], None),
        Term::Txt { txt: "s".to_string() },
    );
    term.desugar();
    let once = term.clone();
    term.desugar();
    assert_eq!(term, once);
}

#[test]
fn desugar_reaches_matches_in_scrutinee_and_motive() {
    let mut term = Term::Mch {
        mch: Box::new(Match {
            name: "x".to_string(),
            expr: tv_match("a", vec![], None),
            cses: vec![],
            moti: Some(tv_match("b", vec![], None)),
        }),
    };
    term.desugar();
    assert!(!tv_has_match(&term));
}

#[test]
fn desugar_of_expansion_equals_desugar_of_match() {
    let mat = Match {
        name: "x".to_string(),
        expr: tv_var("x"),
        cses: vec![("a".to_string(), tv_match("y", vec![("b", tv_var("q"))], None))],
        moti: None,
    };
    let mut expanded = Term::new_match(&mat);
    expanded.desugar();
    let mut sugar = Term::Mch { mch: Box::new(mat) };
    sugar.desugar();
    assert_eq!(expanded, sugar);
}

#[test]
fn desugar_leaves_core_terms_and_literals() {
    let mut term = tv_src(
        1,
        2,
        tv_app(Term::Nat { nat: 3 }, tv_app(Term::Txt { txt: "t".to_string() }, tv_var("x"))),
    );
    let before = term.clone();
    term.desugar();
    assert_eq!(term, before);
}

#[test]
fn has_match_finds_nested_sugar() {
    let plain = tv_lam("x", tv_app(tv_var("x"), Term::Nat { nat: 1 }));
    assert!(!plain.has_match());
    let sugar = tv_lam("x", tv_src(0, 1, tv_app(tv_var("f"), tv_match("x", vec![], None))));
    assert!(sugar.has_match());
    let mut sugar = sugar;
    sugar.desugar();
    assert!(!sugar.has_match());
}

#[test]
fn free_names_of_a_term_on_its_own() {
    let term = tv_lam("x", tv_app(tv_var("x"), tv_app(tv_var("y"), tv_var("z"))));
    let free = term.free_names();
    assert_eq!(free.len(), 2);
    assert!(free.contains("y"));
    assert!(free.contains("z"));
    assert_eq!(tv_lam("x", tv_var("x")).free_names().len(), 0);
}
