//! Wrapping binders around a definition's type and value, one per argument.
//!
//! On the type side every argument becomes a forall. On the value side an
//! argument becomes a lambda, and when the value is a case split on the
//! very first argument the remaining arguments are bound again inside each
//! branch of the split instead of once around it.

use vstd::prelude::*;
use crate::persistent::{args_clone, args_index, args_len, args_of, args_split_at};
use crate::term::{cases_view, option_view, Expr, Match, Term};

verus! {

/// `e` under one lambda per argument, the first argument outermost.
pub open spec fn wrap_lams(e: Expr, args: Seq<(Seq<char>, Expr)>) -> Expr
    decreases args.len(),
{
    if args.len() == 0 {
        e
    } else {
        Expr::Lam { nam: args[0].0, bod: Box::new(wrap_lams(e, args.skip(1))) }
    }
}

/// `e` under one forall per argument, the first argument outermost, each
/// typed as the argument list says.
pub open spec fn wrap_alls(e: Expr, args: Seq<(Seq<char>, Expr)>) -> Expr
    decreases args.len(),
{
    if args.len() == 0 {
        e
    } else {
        Expr::All {
            nam: args[0].0,
            inp: Box::new(args[0].1),
            bod: Box::new(wrap_alls(e, args.skip(1))),
        }
    }
}

/// The cases of a match with `args` linearized into each body.
pub open spec fn linearized_cases(
    cses: Seq<(Seq<char>, Expr)>,
    args: Seq<(Seq<char>, Expr)>,
) -> Seq<(Seq<char>, Expr)>
    decreases cses,
{
    Seq::new(
        cses.len(),
        |i: int|
            if 0 <= i < cses.len() {
                (cses[i].0, linearized(cses[i].1, args))
            } else {
                (Seq::empty(), Expr::Met)
            },
    )
}

/// `e` with the arguments bound around it, the way a definition's value
/// binds its parameters:
/// - a source-span wrapper or an annotation stays where it is, and the
///   arguments go around the value inside it;
/// - a numeric switch whose scrutinee is named like the first argument gets
///   one lambda for that argument around it, and the remaining arguments
///   linearized into its zero branch and into its successor branch;
/// - a match whose scrutinee is named like the first argument gets one
///   lambda for that argument around it, and the remaining arguments
///   linearized into the body of every case;
/// - anything else goes under one lambda per argument.
pub open spec fn linearized(e: Expr, args: Seq<(Seq<char>, Expr)>) -> Expr
    decreases e,
{
    match e {
        Expr::Src { src, val } => Expr::Src { src, val: Box::new(linearized(*val, args)) },
        Expr::Ann { chk, val, typ } => Expr::Ann {
            chk,
            val: Box::new(linearized(*val, args)),
            typ,
        },
        Expr::Swi { nam, x, z, s, p } => if args.len() >= 1 && args[0].0 == nam {
            Expr::Lam {
                nam: args[0].0,
                bod: Box::new(
                    Expr::Swi {
                        nam,
                        x,
                        z: Box::new(linearized(*z, args.skip(1))),
                        s: Box::new(linearized(*s, args.skip(1))),
                        p,
                    },
                ),
            }
        } else {
            wrap_lams(e, args)
        },
        Expr::Mch { name, expr, cses, moti } => if args.len() >= 1 && args[0].0 == name {
            Expr::Lam {
                nam: args[0].0,
                bod: Box::new(
                    Expr::Mch { name, expr, cses: linearized_cases(cses, args.skip(1)), moti },
                ),
            }
        } else {
            wrap_lams(e, args)
        },
        _ => wrap_lams(e, args),
    }
}

/// A term that is neither a wrapper nor a case split goes under one lambda
/// per argument, the first argument outermost; with two arguments `a` and
/// `b` that is `λa λb e`.
pub proof fn lemma_linearize_plain(e: Expr, args: Seq<(Seq<char>, Expr)>)
    requires
        !(e is Src),
        !(e is Ann),
        !(e is Swi),
        !(e is Mch),
    ensures
        linearized(e, args) == wrap_lams(e, args),
        args.len() == 2 ==> linearized(e, args) == (Expr::Lam {
            nam: args[0].0,
            bod: Box::new(Expr::Lam { nam: args[1].0, bod: Box::new(e) }),
        }),
{
    if args.len() == 2 {
        assert(args.skip(1).len() == 1);
        assert(args.skip(1)[0] == args[1]);
        assert(args.skip(1).skip(1).len() == 0);
        assert(wrap_lams(e, args.skip(1).skip(1)) == e);
        assert(wrap_lams(e, args.skip(1)) == Expr::Lam { nam: args[1].0, bod: Box::new(e) });
    }
}

/// A numeric switch on the first argument gets exactly one binder around
/// it, for that argument; the remaining arguments are linearized into its
/// zero branch and into its successor branch, each branch on its own. The
/// scrutinee and the motive are left alone.
pub proof fn lemma_linearize_switch(
    nam: Seq<char>,
    x: Expr,
    z: Expr,
    s: Expr,
    p: Expr,
    typ: Expr,
    rest: Seq<(Seq<char>, Expr)>,
)
    ensures
        linearized(
            Expr::Swi { nam, x: Box::new(x), z: Box::new(z), s: Box::new(s), p: Box::new(p) },
            seq![(nam, typ)] + rest,
        ) == (Expr::Lam {
            nam,
            bod: Box::new(
                Expr::Swi {
                    nam,
                    x: Box::new(x),
                    z: Box::new(linearized(z, rest)),
                    s: Box::new(linearized(s, rest)),
                    p: Box::new(p),
                },
            ),
        }),
{
    let args = seq![(nam, typ)] + rest;
    assert(args.skip(1) =~= rest);
    assert(args[0] == (nam, typ));
}

/// A match on the first argument gets exactly one binder around it, for
/// that argument; the remaining arguments are linearized into the body of
/// every case.
pub proof fn lemma_linearize_match(
    name: Seq<char>,
    expr: Expr,
    cses: Seq<(Seq<char>, Expr)>,
    moti: Option<Box<Expr>>,
    typ: Expr,
    rest: Seq<(Seq<char>, Expr)>,
)
    ensures
        linearized(
            Expr::Mch { name, expr: Box::new(expr), cses, moti },
            seq![(name, typ)] + rest,
        ) == (Expr::Lam {
            nam: name,
            bod: Box::new(
                Expr::Mch { name, expr: Box::new(expr), cses: linearized_cases(cses, rest), moti },
            ),
        }),
{
    let args = seq![(name, typ)] + rest;
    assert(args.skip(1) =~= rest);
    assert(args[0] == (name, typ));
}

/// Wrappers are never disturbed: the arguments of a term under a
/// source-span wrapper or an annotation are bound around the value inside.
pub proof fn lemma_linearize_through_wrappers(
    src: crate::span::Src,
    chk: bool,
    val: Expr,
    typ: Expr,
    args: Seq<(Seq<char>, Expr)>,
)
    ensures
        linearized(Expr::Src { src, val: Box::new(val) }, args) == (Expr::Src {
            src,
            val: Box::new(linearized(val, args)),
        }),
        linearized(Expr::Ann { chk, val: Box::new(val), typ: Box::new(typ) }, args) == (Expr::Ann {
            chk,
            val: Box::new(linearized(val, args)),
            typ: Box::new(typ),
        }),
{
}

impl Term {
    /// Wraps a lambda that binds `arg` around this term.
    pub fn add_lam(&mut self, arg: &str)
        ensures
            final(self)@ == (Expr::Lam { nam: arg@, bod: Box::new(old(self)@) }),
    {
        let mut body = Term::Met {  };
        std::mem::swap(self, &mut body);
        *self = Term::Lam { nam: arg.to_owned(), bod: Box::new(body) };
    }

    /// Wraps a forall that binds `arg` at type `typ` around this term.
    pub fn add_all(&mut self, arg: &str, typ: &Term)
        ensures
            final(self)@ == (Expr::All {
                nam: arg@,
                inp: Box::new(typ@),
                bod: Box::new(old(self)@),
            }),
    {
        let mut body = Term::Met {  };
        std::mem::swap(self, &mut body);
        *self = Term::All { nam: arg.to_owned(), inp: Box::new(typ.deep_clone()), bod: Box::new(body) };
    }

    /// Wraps one lambda per argument around this term, the first argument
    /// outermost.
    pub fn add_plain_lams(&mut self, args: &im::Vector<(String, Term)>)
        ensures
            final(self)@ == wrap_lams(old(self)@, args_of(*args)),
    {
        let mut i: usize = args_len(args);
        assert(args_of(*args).skip(i as int) =~= Seq::empty());
        while i > 0
            invariant
                i <= args_of(*args).len(),
                self@ == wrap_lams(old(self)@, args_of(*args).skip(i as int)),
            decreases i,
        {
            i -= 1;
            let arg = args_index(args, i);
            proof {
                assert(args_of(*args).skip(i as int).skip(1) =~= args_of(*args).skip(i + 1));
            }
            self.add_lam(arg.0.as_str());
        }
        assert(args_of(*args).skip(0) =~= args_of(*args));
    }

    /// Wraps one forall per argument around this term, the first argument
    /// outermost.
    pub fn add_alls(&mut self, args: im::Vector<(String, Term)>)
        ensures
            final(self)@ == wrap_alls(old(self)@, args_of(args)),
    {
        let mut i: usize = args_len(&args);
        assert(args_of(args).skip(i as int) =~= Seq::empty());
        while i > 0
            invariant
                i <= args_of(args).len(),
                self@ == wrap_alls(old(self)@, args_of(args).skip(i as int)),
            decreases i,
        {
            i -= 1;
            let arg = args_index(&args, i);
            proof {
                assert(args_of(args).skip(i as int).skip(1) =~= args_of(args).skip(i + 1));
            }
            self.add_all(arg.0.as_str(), &arg.1);
        }
        assert(args_of(args).skip(0) =~= args_of(args));
    }

    /// Binds the arguments around this term as a definition's value binds
    /// its parameters, pushing them into the branches of a case split on the
    /// first argument.
    pub fn add_lams(&mut self, args: im::Vector<(String, Term)>)
        ensures
            final(self)@ == linearized(old(self)@, args_of(args)),
        decreases *old(self),
    {
        match self {
            Term::Src { src: _, val } => {
                val.add_lams(args);
            },
            Term::Ann { chk: _, val, typ: _ } => {
                val.add_lams(args);
            },
            Term::Swi { nam, x: _, z, s, p: _ } => {
                if args_len(&args) >= 1 && args_index(&args, 0).0 == *nam {
                    let ghost all = args_of(args);
                    let (head, tail) = args_split_at(args, 1);
                    z.add_lams(args_clone(&tail));
                    s.add_lams(tail);
                    let first = args_index(&head, 0).0.clone();
                    assert(first@ == all[0].0);
                    self.add_lam(first.as_str());
                } else {
                    self.add_plain_lams(&args);
                }
            },
            Term::Mch { mch } => {
                if args_len(&args) >= 1 && args_index(&args, 0).0 == mch.name {
                    let ghost all = args_of(args);
                    let ghost before: Match = **mch;
                    let (head, tail) = args_split_at(args, 1);
                    let mut i: usize = 0;
                    while i < mch.cses.len()
                        invariant
                            *old(self) == (Term::Mch { mch: Box::new(before) }),
                            args_of(tail) == all.skip(1),
                            i <= mch.cses.len(),
                            mch.cses.len() == before.cses.len(),
                            mch.name == before.name,
                            mch.expr == before.expr,
                            mch.moti == before.moti,
                            forall|j: int|
                                i <= j < mch.cses.len() ==> mch.cses@[j] == before.cses@[j],
                            forall|j: int|
                                0 <= j < i ==> mch.cses@[j].0@ == before.cses@[j].0@
                                    && mch.cses@[j].1@ == linearized(
                                    before.cses@[j].1@,
                                    all.skip(1),
                                ),
                        decreases mch.cses.len() - i,
                    {
                        proof {
                            assert(decreases_to!(*old(self) => *(*old(self))->mch));
                            assert(decreases_to!(before.cses@ => before.cses@[i as int]));
                        }
                        mch.cses[i].1.add_lams(args_clone(&tail));
                        i += 1;
                    }
                    assert(cases_view(mch.cses@) =~= linearized_cases(
                        cases_view(before.cses@),
                        all.skip(1),
                    ));
                    let first = args_index(&head, 0).0.clone();
                    assert(first@ == all[0].0);
                    self.add_lam(first.as_str());
                } else {
                    self.add_plain_lams(&args);
                }
            },
            _ => {
                self.add_plain_lams(&args);
            },
        }
    }
}

} // verus!
