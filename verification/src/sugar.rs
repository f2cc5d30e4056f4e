//! Pattern-match sugar and its elimination.
//!
//! A match on a value of an inductive type is sugar for eliminating the
//! value: the scrutinee is instantiated, applied to the motive, and then to
//! the body of each case, in the order the cases are written.

use vstd::prelude::*;
use crate::term::{cases_view, option_view, Expr, Match, Term};
use crate::traverse::no_match;

verus! {

/// `head` applied to each of `args` in turn, the first argument innermost.
pub open spec fn apply_all(head: Expr, args: Seq<Expr>) -> Expr
    decreases args.len(),
{
    if args.len() == 0 {
        head
    } else {
        Expr::App { fun: Box::new(apply_all(head, args.drop_last())), arg: Box::new(args.last()) }
    }
}

/// The bodies of a list of cases, in order.
pub open spec fn case_bodies(cses: Seq<(Seq<char>, Expr)>) -> Seq<Expr> {
    Seq::new(cses.len(), |i: int| cses[i].1)
}

/// The motive that a match hands to the eliminator: the written motive
/// under a binder for the scrutinee's name, or a metavariable when none was
/// written.
pub open spec fn motive_of(name: Seq<char>, moti: Option<Box<Expr>>) -> Expr {
    match moti {
        Some(m) => Expr::Lam { nam: name, bod: m },
        None => Expr::Met,
    }
}

/// The core term that a match stands for.
pub open spec fn expand_match(
    name: Seq<char>,
    expr: Expr,
    cses: Seq<(Seq<char>, Expr)>,
    moti: Option<Box<Expr>>,
) -> Expr {
    apply_all(
        Expr::App {
            fun: Box::new(Expr::Ins { val: Box::new(expr) }),
            arg: Box::new(motive_of(name, moti)),
        },
        case_bodies(cses),
    )
}

/// The cases of a match with each body desugared.
pub open spec fn desugared_cases(cses: Seq<(Seq<char>, Expr)>) -> Seq<(Seq<char>, Expr)>
    decreases cses,
{
    Seq::new(
        cses.len(),
        |i: int|
            if 0 <= i < cses.len() {
                (cses[i].0, desugared(cses[i].1))
            } else {
                (Seq::empty(), Expr::Met)
            },
    )
}

/// The term with every match replaced by the core term it stands for,
/// innermost matches first. Numeric and text literals are left alone.
pub open spec fn desugared(e: Expr) -> Expr
    decreases e,
{
    match e {
        Expr::All { nam, inp, bod } => Expr::All {
            nam,
            inp: Box::new(desugared(*inp)),
            bod: Box::new(desugared(*bod)),
        },
        Expr::Lam { nam, bod } => Expr::Lam { nam, bod: Box::new(desugared(*bod)) },
        Expr::App { fun, arg } => Expr::App {
            fun: Box::new(desugared(*fun)),
            arg: Box::new(desugared(*arg)),
        },
        Expr::Ann { chk, val, typ } => Expr::Ann {
            chk,
            val: Box::new(desugared(*val)),
            typ: Box::new(desugared(*typ)),
        },
        Expr::Slf { nam, typ, bod } => Expr::Slf {
            nam,
            typ: Box::new(desugared(*typ)),
            bod: Box::new(desugared(*bod)),
        },
        Expr::Ins { val } => Expr::Ins { val: Box::new(desugared(*val)) },
        Expr::Op2 { opr, fst, snd } => Expr::Op2 {
            opr,
            fst: Box::new(desugared(*fst)),
            snd: Box::new(desugared(*snd)),
        },
        Expr::Swi { nam, x, z, s, p } => Expr::Swi {
            nam,
            x: Box::new(desugared(*x)),
            z: Box::new(desugared(*z)),
            s: Box::new(desugared(*s)),
            p: Box::new(desugared(*p)),
        },
        Expr::Let { nam, val, bod } => Expr::Let {
            nam,
            val: Box::new(desugared(*val)),
            bod: Box::new(desugared(*bod)),
        },
        Expr::Use { nam, val, bod } => Expr::Use {
            nam,
            val: Box::new(desugared(*val)),
            bod: Box::new(desugared(*bod)),
        },
        Expr::Src { src, val } => Expr::Src { src, val: Box::new(desugared(*val)) },
        Expr::Mch { name, expr, cses, moti } => expand_match(
            name,
            desugared(*expr),
            desugared_cases(cses),
            match moti {
                Some(m) => Some(Box::new(desugared(*m))),
                None => None,
            },
        ),
        _ => e,
    }
}

/// Applying a match-free head to match-free arguments gives a match-free
/// term.
pub proof fn lemma_apply_all_no_match(head: Expr, args: Seq<Expr>)
    requires
        no_match(head),
        forall|i: int| 0 <= i < args.len() ==> no_match(#[trigger] args[i]),
    ensures
        no_match(apply_all(head, args)),
    decreases args.len(),
{
    if args.len() > 0 {
        lemma_apply_all_no_match(head, args.drop_last());
    }
}

/// Desugaring goes through an application spine: the head and each
/// argument are desugared where they stand.
pub proof fn lemma_desugared_apply_all(head: Expr, args: Seq<Expr>)
    ensures
        desugared(apply_all(head, args)) == apply_all(
            desugared(head),
            Seq::new(args.len(), |i: int| desugared(args[i])),
        ),
    decreases args.len(),
{
    let mapped = Seq::new(args.len(), |i: int| desugared(args[i]));
    if args.len() > 0 {
        lemma_desugared_apply_all(head, args.drop_last());
        assert(mapped.drop_last() =~= Seq::new(
            args.drop_last().len(),
            |i: int| desugared(args.drop_last()[i]),
        ));
    }
}

/// The desugared term holds no match.
pub proof fn lemma_desugared_no_match(e: Expr)
    ensures
        no_match(desugared(e)),
    decreases e,
{
    match e {
        Expr::All { nam, inp, bod } => {
            lemma_desugared_no_match(*inp);
            lemma_desugared_no_match(*bod);
        },
        Expr::Lam { nam, bod } => {
            lemma_desugared_no_match(*bod);
        },
        Expr::App { fun, arg } => {
            lemma_desugared_no_match(*fun);
            lemma_desugared_no_match(*arg);
        },
        Expr::Ann { chk, val, typ } => {
            lemma_desugared_no_match(*val);
            lemma_desugared_no_match(*typ);
        },
        Expr::Slf { nam, typ, bod } => {
            lemma_desugared_no_match(*typ);
            lemma_desugared_no_match(*bod);
        },
        Expr::Ins { val } => {
            lemma_desugared_no_match(*val);
        },
        Expr::Op2 { opr, fst, snd } => {
            lemma_desugared_no_match(*fst);
            lemma_desugared_no_match(*snd);
        },
        Expr::Swi { nam, x, z, s, p } => {
            lemma_desugared_no_match(*x);
            lemma_desugared_no_match(*z);
            lemma_desugared_no_match(*s);
            lemma_desugared_no_match(*p);
        },
        Expr::Let { nam, val, bod } => {
            lemma_desugared_no_match(*val);
            lemma_desugared_no_match(*bod);
        },
        Expr::Use { nam, val, bod } => {
            lemma_desugared_no_match(*val);
            lemma_desugared_no_match(*bod);
        },
        Expr::Src { src, val } => {
            lemma_desugared_no_match(*val);
        },
        Expr::Mch { name, expr, cses, moti } => {
            lemma_desugared_no_match(*expr);
            match moti {
                Some(m) => {
                    lemma_desugared_no_match(*m);
                },
                None => {},
            }
            let bodies = case_bodies(desugared_cases(cses));
            assert forall|i: int| 0 <= i < bodies.len() implies no_match(#[trigger] bodies[i]) by {
                lemma_desugared_no_match(cses[i].1);
            }
            let moti2: Option<Box<Expr>> = match moti {
                Some(m) => Some(Box::new(desugared(*m))),
                None => None,
            };
            let head = Expr::App {
                fun: Box::new(Expr::Ins { val: Box::new(desugared(*expr)) }),
                arg: Box::new(motive_of(name, moti2)),
            };
            assert(no_match(Expr::Ins { val: Box::new(desugared(*expr)) }));
            assert(no_match(motive_of(name, moti2)));
            lemma_apply_all_no_match(head, bodies);
        },
        _ => {},
    }
}

/// Desugaring leaves a term without matches as it is.
pub proof fn lemma_desugar_fixes_core(e: Expr)
    requires
        no_match(e),
    ensures
        desugared(e) == e,
    decreases e,
{
    match e {
        Expr::All { nam, inp, bod } => {
            lemma_desugar_fixes_core(*inp);
            lemma_desugar_fixes_core(*bod);
        },
        Expr::Lam { nam, bod } => {
            lemma_desugar_fixes_core(*bod);
        },
        Expr::App { fun, arg } => {
            lemma_desugar_fixes_core(*fun);
            lemma_desugar_fixes_core(*arg);
        },
        Expr::Ann { chk, val, typ } => {
            lemma_desugar_fixes_core(*val);
            lemma_desugar_fixes_core(*typ);
        },
        Expr::Slf { nam, typ, bod } => {
            lemma_desugar_fixes_core(*typ);
            lemma_desugar_fixes_core(*bod);
        },
        Expr::Ins { val } => {
            lemma_desugar_fixes_core(*val);
        },
        Expr::Op2 { opr, fst, snd } => {
            lemma_desugar_fixes_core(*fst);
            lemma_desugar_fixes_core(*snd);
        },
        Expr::Swi { nam, x, z, s, p } => {
            lemma_desugar_fixes_core(*x);
            lemma_desugar_fixes_core(*z);
            lemma_desugar_fixes_core(*s);
            lemma_desugar_fixes_core(*p);
        },
        Expr::Let { nam, val, bod } => {
            lemma_desugar_fixes_core(*val);
            lemma_desugar_fixes_core(*bod);
        },
        Expr::Use { nam, val, bod } => {
            lemma_desugar_fixes_core(*val);
            lemma_desugar_fixes_core(*bod);
        },
        Expr::Src { src, val } => {
            lemma_desugar_fixes_core(*val);
        },
        _ => {},
    }
}

/// Desugaring reaches a fixpoint in one pass: the result holds no match, and
/// desugaring it again changes nothing.
pub proof fn lemma_desugar_fixpoint(e: Expr)
    ensures
        no_match(desugared(e)),
        desugared(desugared(e)) == desugared(e),
{
    lemma_desugared_no_match(e);
    lemma_desugar_fixes_core(desugared(e));
}

/// Desugaring a match is desugaring the term it stands for: replacing the
/// match by its expansion first, and desugaring what comes out, gives the
/// same term as desugaring the parts of the match and expanding then.
pub proof fn lemma_desugar_expansion(
    name: Seq<char>,
    expr: Expr,
    cses: Seq<(Seq<char>, Expr)>,
    moti: Option<Box<Expr>>,
)
    ensures
        desugared(expand_match(name, expr, cses, moti)) == desugared(
            Expr::Mch { name, expr: Box::new(expr), cses, moti },
        ),
{
    let head = Expr::App {
        fun: Box::new(Expr::Ins { val: Box::new(expr) }),
        arg: Box::new(motive_of(name, moti)),
    };
    let moti2: Option<Box<Expr>> = match moti {
        Some(m) => Some(Box::new(desugared(*m))),
        None => None,
    };
    let head2 = Expr::App {
        fun: Box::new(Expr::Ins { val: Box::new(desugared(expr)) }),
        arg: Box::new(motive_of(name, moti2)),
    };
    lemma_desugared_apply_all(head, case_bodies(cses));
    assert(desugared(Expr::Ins { val: Box::new(expr) }) == Expr::Ins {
        val: Box::new(desugared(expr)),
    });
    assert(desugared(motive_of(name, moti)) == motive_of(name, moti2));
    assert(desugared(head) == head2);
    assert(Seq::new(case_bodies(cses).len(), |i: int| desugared(case_bodies(cses)[i]))
        =~= case_bodies(desugared_cases(cses)));
}

impl Term {
    /// Builds the core term that a match stands for.
    pub fn new_match(mat: &Match) -> (res: Term)
        ensures
            res@ == expand_match(
                mat.name@,
                mat.expr@,
                cases_view(mat.cses@),
                option_view(mat.moti),
            ),
    {
        let motive = match &mat.moti {
            Some(m) => Term::Lam { nam: mat.name.clone(), bod: Box::new(m.deep_clone()) },
            None => Term::Met {  },
        };
        assert(motive@ == motive_of(mat.name@, option_view(mat.moti)));
        let scrutinee = Term::Ins { val: Box::new(mat.expr.deep_clone()) };
        assert(scrutinee@ == Expr::Ins { val: Box::new(mat.expr@) });
        let mut term = Term::App { fun: Box::new(scrutinee), arg: Box::new(motive) };
        let ghost head = term@;
        let ghost bodies = case_bodies(cases_view(mat.cses@));
        let mut i: usize = 0;
        while i < mat.cses.len()
            invariant
                i <= mat.cses.len(),
                bodies == case_bodies(cases_view(mat.cses@)),
                term@ == apply_all(head, bodies.take(i as int)),
            decreases mat.cses.len() - i,
        {
            let body = mat.cses[i].1.deep_clone();
            proof {
                assert(bodies.take(i + 1).drop_last() =~= bodies.take(i as int));
                assert(bodies.take(i + 1).last() == body@);
            }
            term = Term::App { fun: Box::new(term), arg: Box::new(body) };
            i += 1;
        }
        assert(bodies.take(i as int) =~= bodies);
        term
    }

    /// Replaces every match in this term by the core term it stands for.
    pub fn desugar(&mut self)
        ensures
            final(self)@ == desugared(old(self)@),
            no_match(final(self)@),
        decreases *old(self),
    {
        proof {
            lemma_desugared_no_match(old(self)@);
        }
        match self {
            Term::Mch { mch } => {
                let ghost before: Match = **mch;
                mch.expr.desugar();
                match &mut mch.moti {
                    Some(m) => {
                        m.desugar();
                    },
                    None => {},
                }
                let mut i: usize = 0;
                while i < mch.cses.len()
                    invariant
                        *old(self) == (Term::Mch { mch: Box::new(before) }),
                        i <= mch.cses.len(),
                        mch.cses.len() == before.cses.len(),
                        mch.name == before.name,
                        mch.expr@ == desugared(before.expr@),
                        option_view(mch.moti) == match option_view(before.moti) {
                            Some(m) => Some(Box::new(desugared(*m))),
                            None => None,
                        },
                        forall|j: int| i <= j < mch.cses.len() ==> mch.cses@[j] == before.cses@[j],
                        forall|j: int|
                            0 <= j < i ==> mch.cses@[j].0@ == before.cses@[j].0@ && mch.cses@[j].1@
                                == desugared(before.cses@[j].1@),
                    decreases mch.cses.len() - i,
                {
                    proof {
                        assert(decreases_to!(*old(self) => *(*old(self))->mch));
                        assert(decreases_to!(before.cses@ => before.cses@[i as int]));
                    }
                    mch.cses[i].1.desugar();
                    i += 1;
                }
                assert(cases_view(mch.cses@) =~= desugared_cases(cases_view(before.cses@)));
                let term = Term::new_match(mch);
                *self = term;
            },
            Term::All { nam: _, inp, bod } => {
                inp.desugar();
                bod.desugar();
            },
            Term::Lam { nam: _, bod } => {
                bod.desugar();
            },
            Term::App { fun, arg } => {
                fun.desugar();
                arg.desugar();
            },
            Term::Ann { chk: _, val, typ } => {
                val.desugar();
                typ.desugar();
            },
            Term::Slf { nam: _, typ, bod } => {
                typ.desugar();
                bod.desugar();
            },
            Term::Ins { val } => {
                val.desugar();
            },
            Term::Op2 { opr: _, fst, snd } => {
                fst.desugar();
                snd.desugar();
            },
            Term::Swi { nam: _, x, z, s, p } => {
                x.desugar();
                z.desugar();
                s.desugar();
                p.desugar();
            },
            Term::Let { nam: _, val, bod } => {
                val.desugar();
                bod.desugar();
            },
            Term::Use { nam: _, val, bod } => {
                val.desugar();
                bod.desugar();
            },
            Term::Src { src: _, val } => {
                val.desugar();
            },
            Term::Uni => {},
            Term::U60 => {},
            Term::Num { val: _ } => {},
            Term::Nat { nat: _ } => {},
            Term::Txt { txt: _ } => {},
            Term::Var { nam: _ } => {},
            Term::Hol { nam: _ } => {},
            Term::Met {  } => {},
        }
    }
}

} // verus!
