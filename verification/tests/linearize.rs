use kind2::{Match, Src, StringHashSet, Term};

fn ln_var(name: &str) -> Term {
    Term::Var { nam: name.to_string() }
}

fn ln_lam(name: &str, bod: Term) -> Term {
    Term::Lam { nam: name.to_string(), bod: Box::new(bod) }
}

fn ln_args(list: Vec<(&str, Term)>) -> im::Vector<(String, Term)> {
    let mut args = im::Vector::new();
    for (name, typ) in list {
        args.push_back((name.to_string(), typ));
    }
    args
}

fn ln_switch(name: &str, z: Term, s: Term) -> Term {
    Term::Swi {
        nam: name.to_string(),
        x: Box::new(ln_var(name)),
        z: Box::new(z),
        s: Box::new(s),
        p: Box::new(Term::Uni),
    }
}

#[test]
fn add_lam_wraps_one_binder() {
    let mut term = ln_var("v");
    term.add_lam("a");
    assert_eq!(term, ln_lam("a", ln_var("v")));
}

#[test]
fn add_all_wraps_one_typed_binder() {
    let mut term = ln_var("v");
    term.add_all("a", &Term::U60);
    assert_eq!(
        term,
        Term::All { nam: "a".to_string(), inp: Box::new(Term::U60), bod: Box::new(ln_var("v")) }
    );
}

#[test]
fn add_lams_plain_value_two_arguments() {
    let mut term = ln_var("v");
    term.add_lams(ln_args(vec![("a", Term::Met {}), ("b", Term::Met {})]));
    assert_eq!(term, ln_lam("a", ln_lam("b", ln_var("v"))));
}

#[test]
fn add_lams_without_arguments_changes_nothing() {
    let mut term = ln_switch("n", ln_var("k"), ln_var("k"));
    let before = term.clone();
    term.add_lams(ln_args(vec![]));
    assert_eq!(term, before);
}

#[test]
fn add_alls_types_each_binder() {
    let mut term = Term::Uni;
    term.add_alls(ln_args(vec![("a", Term::U60), ("b", ln_var("a"))]));
    assert_eq!(
        term,
        Term::All {
            nam: "a".to_string(),
            inp: Box::new(Term::U60),
            bod: Box::new(Term::All {
                nam: "b".to_string(),
                inp: Box::new(ln_var("a")),
                bod: Box::new(Term::Uni),
            }),
        }
    );
}

#[test]
fn add_alls_never_looks_for_a_case_split() {
    let mut term = ln_switch("n", ln_var("k"), ln_var("k"));
    let inner = term.clone();
    term.add_alls(ln_args(vec![("n", Term::U60)]));
    assert_eq!(
        term,
        Term::All { nam: "n".to_string(), inp: Box::new(Term::U60), bod: Box::new(inner) }
    );
}

#[test]
fn add_lams_switch_on_first_argument() {
    let mut term = ln_switch("n", ln_var("k"), ln_var("k"));
    term.add_lams(ln_args(vec![("n", Term::Met {}), ("k", Term::Met {})]));
    let expected = ln_lam(
        "n",
        ln_switch("n", ln_lam("k", ln_var("k")), ln_lam("k", ln_var("k"))),
    );
    assert_eq!(term, expected);
    // `k` is bound in both branches: nothing is free but what the switch
    // itself leaves free
    let mut free = StringHashSet::new();
    term.get_free_vars(im::Vector::new(), &mut free);
    assert_eq!(free.len(), 0);
}

#[test]
fn add_lams_switch_on_another_name_is_plain() {
    let mut term = ln_switch("m", ln_var("k"), ln_var("k"));
    let inner = term.clone();
    term.add_lams(ln_args(vec![("n", Term::Met {}), ("k", Term::Met {})]));
    assert_eq!(term, ln_lam("n", ln_lam("k", inner)));
}

#[test]
fn add_lams_nested_switches_follow_the_arguments() {
    let inner_z = ln_switch("m", ln_var("a"), ln_var("b"));
    let mut term = ln_switch("n", inner_z, ln_var("c"));
    term.add_lams(ln_args(vec![("n", Term::Met {}), ("m", Term::Met {}), ("k", Term::Met {})]));
    let expected = ln_lam(
        "n",
        ln_switch(
            "n",
            ln_lam("m", ln_switch("m", ln_lam("k", ln_var("a")), ln_lam("k", ln_var("b")))),
            ln_lam("m", ln_lam("k", ln_var("c"))),
        ),
    );
    assert_eq!(term, expected);
}

#[test]
fn add_lams_passes_through_wrappers() {
    let src = Src::new(1, 2, 3);
    let mut term = Term::Src {
        src,
        val: Box::new(Term::Ann {
            chk: true,
            val: Box::new(ln_var("v")),
            typ: Box::new(Term::U60),
        }),
    };
    term.add_lams(ln_args(vec![("a", Term::Met {})]));
    let expected = Term::Src {
        src,
        val: Box::new(Term::Ann {
            chk: true,
            val: Box::new(ln_lam("a", ln_var("v"))),
            typ: Box::new(Term::U60),
        }),
    };
    assert_eq!(term, expected);
}

#[test]
fn add_lams_match_on_first_argument() {
    let mut term = Term::Mch {
        mch: Box::new(Match {
            name: "x".to_string(),
            expr: ln_var("x"),
            cses: vec![("a".to_string(), ln_var("k")), ("b".to_string(), ln_var("x"))],
            moti: Some(Term::U60),
        }),
    };
    term.add_lams(ln_args(vec![("x", Term::Met {}), ("k", Term::Met {})]));
    let expected = ln_lam(
        "x",
        Term::Mch {
            mch: Box::new(Match {
                name: "x".to_string(),
                expr: ln_var("x"),
                cses: vec![
                    ("a".to_string(), ln_lam("k", ln_var("k"))),
                    ("b".to_string(), ln_lam("k", ln_var("x"))),
                ],
                moti: Some(Term::U60),
            }),
        },
    );
    assert_eq!(term, expected);
}

#[test]
fn add_lams_match_on_another_name_is_plain() {
    let mut term = Term::Mch {
        mch: Box::new(Match {
            name: "y".to_string(),
            expr: ln_var("y"),
            cses: vec![("a".to_string(), ln_var("k"))],
            moti: None,
        }),
    };
    let inner = term.clone();
    term.add_lams(ln_args(vec![("x", Term::Met {})]));
    assert_eq!(term, ln_lam("x", inner));
}

#[test]
fn add_plain_lams_ignores_case_splits() {
    let mut term = ln_switch("n", ln_var("k"), ln_var("k"));
    let inner = term.clone();
    term.add_plain_lams(&ln_args(vec![("n", Term::Met {}), ("k", Term::Met {})]));
    assert_eq!(term, ln_lam("n", ln_lam("k", inner)));
}
