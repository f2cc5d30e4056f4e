//! Structural operations on core terms: free variables and the removal of
//! source-span wrappers.

use vstd::prelude::*;
use vstd::hash_set::StringHashSet;
use vstd::string::StringExecFns;
use crate::persistent::{cons, env_clone, env_contains, env_new, names_of};
use crate::term::{Expr, Term};

verus! {

/// True when no pattern-match sugar occurs anywhere in the term. Free
/// variables and cleaning are defined on such terms only.
pub open spec fn no_match(e: Expr) -> bool
    decreases e,
{
    match e {
        Expr::All { nam, inp, bod } => no_match(*inp) && no_match(*bod),
        Expr::Lam { nam, bod } => no_match(*bod),
        Expr::App { fun, arg } => no_match(*fun) && no_match(*arg),
        Expr::Ann { chk, val, typ } => no_match(*val) && no_match(*typ),
        Expr::Slf { nam, typ, bod } => no_match(*typ) && no_match(*bod),
        Expr::Ins { val } => no_match(*val),
        Expr::Op2 { opr, fst, snd } => no_match(*fst) && no_match(*snd),
        Expr::Swi { nam, x, z, s, p } => no_match(*x) && no_match(*z) && no_match(*s) && no_match(
            *p,
        ),
        Expr::Let { nam, val, bod } => no_match(*val) && no_match(*bod),
        Expr::Use { nam, val, bod } => no_match(*val) && no_match(*bod),
        Expr::Src { src, val } => no_match(*val),
        Expr::Mch { .. } => false,
        _ => true,
    }
}

/// True when the term holds neither a source-span wrapper nor a match.
pub open spec fn no_src(e: Expr) -> bool
    decreases e,
{
    match e {
        Expr::All { nam, inp, bod } => no_src(*inp) && no_src(*bod),
        Expr::Lam { nam, bod } => no_src(*bod),
        Expr::App { fun, arg } => no_src(*fun) && no_src(*arg),
        Expr::Ann { chk, val, typ } => no_src(*val) && no_src(*typ),
        Expr::Slf { nam, typ, bod } => no_src(*typ) && no_src(*bod),
        Expr::Ins { val } => no_src(*val),
        Expr::Op2 { opr, fst, snd } => no_src(*fst) && no_src(*snd),
        Expr::Swi { nam, x, z, s, p } => no_src(*x) && no_src(*z) && no_src(*s) && no_src(*p),
        Expr::Let { nam, val, bod } => no_src(*val) && no_src(*bod),
        Expr::Use { nam, val, bod } => no_src(*val) && no_src(*bod),
        Expr::Src { .. } => false,
        Expr::Mch { .. } => false,
        _ => true,
    }
}

/// The name that the successor branch of a numeric switch binds: the
/// scrutinee's name followed by `-1`.
pub open spec fn pred_name(nam: Seq<char>) -> Seq<char> {
    nam + seq!['-', '1']
}

/// The set of names that occur in a sequence.
pub open spec fn name_set(names: Seq<Seq<char>>) -> Set<Seq<char>> {
    Set::new(|n: Seq<char>| names.contains(n))
}

/// The variables of `e` that no enclosing binder of `e` and no name in
/// `bound` captures. A forall, lambda, self type, let and use bind their name
/// in their body; a numeric switch binds `<name>-1` in its successor branch
/// and `<name>` in its motive. A match has no free variables of its own: it
/// has to be desugared first.
pub open spec fn free_vars(e: Expr, bound: Set<Seq<char>>) -> Set<Seq<char>>
    decreases e,
{
    match e {
        Expr::All { nam, inp, bod } => free_vars(*inp, bound) + free_vars(*bod, bound.insert(nam)),
        Expr::Lam { nam, bod } => free_vars(*bod, bound.insert(nam)),
        Expr::App { fun, arg } => free_vars(*fun, bound) + free_vars(*arg, bound),
        Expr::Ann { chk, val, typ } => free_vars(*val, bound) + free_vars(*typ, bound),
        Expr::Slf { nam, typ, bod } => free_vars(*typ, bound) + free_vars(*bod, bound.insert(nam)),
        Expr::Ins { val } => free_vars(*val, bound),
        Expr::Op2 { opr, fst, snd } => free_vars(*fst, bound) + free_vars(*snd, bound),
        Expr::Swi { nam, x, z, s, p } => free_vars(*x, bound) + free_vars(*z, bound) + free_vars(
            *s,
            bound.insert(pred_name(nam)),
        ) + free_vars(*p, bound.insert(nam)),
        Expr::Let { nam, val, bod } => free_vars(*val, bound) + free_vars(*bod, bound.insert(nam)),
        Expr::Use { nam, val, bod } => free_vars(*val, bound) + free_vars(*bod, bound.insert(nam)),
        Expr::Src { src, val } => free_vars(*val, bound),
        Expr::Var { nam } => if bound.contains(nam) {
            Set::empty()
        } else {
            Set::empty().insert(nam)
        },
        _ => Set::empty(),
    }
}

/// The term with every source-span wrapper dropped and nothing else
/// changed. A match is left as it is: it has to be desugared first.
pub open spec fn cleaned(e: Expr) -> Expr
    decreases e,
{
    match e {
        Expr::All { nam, inp, bod } => Expr::All {
            nam,
            inp: Box::new(cleaned(*inp)),
            bod: Box::new(cleaned(*bod)),
        },
        Expr::Lam { nam, bod } => Expr::Lam { nam, bod: Box::new(cleaned(*bod)) },
        Expr::App { fun, arg } => Expr::App {
            fun: Box::new(cleaned(*fun)),
            arg: Box::new(cleaned(*arg)),
        },
        Expr::Ann { chk, val, typ } => Expr::Ann {
            chk,
            val: Box::new(cleaned(*val)),
            typ: Box::new(cleaned(*typ)),
        },
        Expr::Slf { nam, typ, bod } => Expr::Slf {
            nam,
            typ: Box::new(cleaned(*typ)),
            bod: Box::new(cleaned(*bod)),
        },
        Expr::Ins { val } => Expr::Ins { val: Box::new(cleaned(*val)) },
        Expr::Op2 { opr, fst, snd } => Expr::Op2 {
            opr,
            fst: Box::new(cleaned(*fst)),
            snd: Box::new(cleaned(*snd)),
        },
        Expr::Swi { nam, x, z, s, p } => Expr::Swi {
            nam,
            x: Box::new(cleaned(*x)),
            z: Box::new(cleaned(*z)),
            s: Box::new(cleaned(*s)),
            p: Box::new(cleaned(*p)),
        },
        Expr::Let { nam, val, bod } => Expr::Let {
            nam,
            val: Box::new(cleaned(*val)),
            bod: Box::new(cleaned(*bod)),
        },
        Expr::Use { nam, val, bod } => Expr::Use {
            nam,
            val: Box::new(cleaned(*val)),
            bod: Box::new(cleaned(*bod)),
        },
        Expr::Src { src, val } => cleaned(*val),
        _ => e,
    }
}

/// Pushing a name onto an environment inserts it into the set of its names.
pub proof fn lemma_name_set_push(names: Seq<Seq<char>>, nam: Seq<char>)
    ensures
        name_set(names.push(nam)) == name_set(names).insert(nam),
{
    assert forall|n: Seq<char>| name_set(names.push(nam)).contains(n) <==> name_set(names).insert(
        nam,
    ).contains(n) by {
        if names.push(nam).contains(n) {
            let i = choose|i: int| 0 <= i < names.push(nam).len() && names.push(nam)[i] == n;
            if i < names.len() {
                assert(names[i] == n);
            }
        }
        if names.contains(n) {
            let i = choose|i: int| 0 <= i < names.len() && names[i] == n;
            assert(names.push(nam)[i] == n);
        }
        if n == nam {
            assert(names.push(nam)[names.len() as int] == n);
        }
    }
    assert(name_set(names.push(nam)) =~= name_set(names).insert(nam));
}

/// No bound name is ever free: the free variables of a term avoid the
/// names it was told are bound.
pub proof fn lemma_free_vars_avoid_bound(e: Expr, bound: Set<Seq<char>>)
    ensures
        free_vars(e, bound).disjoint(bound),
    decreases e,
{
    match e {
        Expr::All { nam, inp, bod } => {
            lemma_free_vars_avoid_bound(*inp, bound);
            lemma_free_vars_avoid_bound(*bod, bound.insert(nam));
        },
        Expr::Lam { nam, bod } => {
            lemma_free_vars_avoid_bound(*bod, bound.insert(nam));
        },
        Expr::App { fun, arg } => {
            lemma_free_vars_avoid_bound(*fun, bound);
            lemma_free_vars_avoid_bound(*arg, bound);
        },
        Expr::Ann { chk, val, typ } => {
            lemma_free_vars_avoid_bound(*val, bound);
            lemma_free_vars_avoid_bound(*typ, bound);
        },
        Expr::Slf { nam, typ, bod } => {
            lemma_free_vars_avoid_bound(*typ, bound);
            lemma_free_vars_avoid_bound(*bod, bound.insert(nam));
        },
        Expr::Ins { val } => {
            lemma_free_vars_avoid_bound(*val, bound);
        },
        Expr::Op2 { opr, fst, snd } => {
            lemma_free_vars_avoid_bound(*fst, bound);
            lemma_free_vars_avoid_bound(*snd, bound);
        },
        Expr::Swi { nam, x, z, s, p } => {
            lemma_free_vars_avoid_bound(*x, bound);
            lemma_free_vars_avoid_bound(*z, bound);
            lemma_free_vars_avoid_bound(*s, bound.insert(pred_name(nam)));
            lemma_free_vars_avoid_bound(*p, bound.insert(nam));
        },
        Expr::Let { nam, val, bod } => {
            lemma_free_vars_avoid_bound(*val, bound);
            lemma_free_vars_avoid_bound(*bod, bound.insert(nam));
        },
        Expr::Use { nam, val, bod } => {
            lemma_free_vars_avoid_bound(*val, bound);
            lemma_free_vars_avoid_bound(*bod, bound.insert(nam));
        },
        Expr::Src { src, val } => {
            lemma_free_vars_avoid_bound(*val, bound);
        },
        _ => {},
    }
}

/// A binder captures its own name: the body of a lambda contributes no
/// free occurrence of the name the lambda binds.
pub proof fn lemma_lambda_binds(nam: Seq<char>, bod: Expr, bound: Set<Seq<char>>)
    ensures
        !free_vars(Expr::Lam { nam, bod: Box::new(bod) }, bound).contains(nam),
{
    lemma_free_vars_avoid_bound(bod, bound.insert(nam));
}

/// Cleaning is idempotent: a second pass changes nothing.
pub proof fn lemma_clean_idempotent(e: Expr)
    ensures
        cleaned(cleaned(e)) == cleaned(e),
    decreases e,
{
    match e {
        Expr::All { nam, inp, bod } => {
            lemma_clean_idempotent(*inp);
            lemma_clean_idempotent(*bod);
        },
        Expr::Lam { nam, bod } => {
            lemma_clean_idempotent(*bod);
        },
        Expr::App { fun, arg } => {
            lemma_clean_idempotent(*fun);
            lemma_clean_idempotent(*arg);
        },
        Expr::Ann { chk, val, typ } => {
            lemma_clean_idempotent(*val);
            lemma_clean_idempotent(*typ);
        },
        Expr::Slf { nam, typ, bod } => {
            lemma_clean_idempotent(*typ);
            lemma_clean_idempotent(*bod);
        },
        Expr::Ins { val } => {
            lemma_clean_idempotent(*val);
        },
        Expr::Op2 { opr, fst, snd } => {
            lemma_clean_idempotent(*fst);
            lemma_clean_idempotent(*snd);
        },
        Expr::Swi { nam, x, z, s, p } => {
            lemma_clean_idempotent(*x);
            lemma_clean_idempotent(*z);
            lemma_clean_idempotent(*s);
            lemma_clean_idempotent(*p);
        },
        Expr::Let { nam, val, bod } => {
            lemma_clean_idempotent(*val);
            lemma_clean_idempotent(*bod);
        },
        Expr::Use { nam, val, bod } => {
            lemma_clean_idempotent(*val);
            lemma_clean_idempotent(*bod);
        },
        Expr::Src { src, val } => {
            lemma_clean_idempotent(*val);
        },
        _ => {},
    }
}

/// Cleaning a term without matches leaves no source-span wrapper in it, and
/// brings in no match.
pub proof fn lemma_clean_removes_spans(e: Expr)
    requires
        no_match(e),
    ensures
        no_src(cleaned(e)),
        no_match(cleaned(e)),
    decreases e,
{
    match e {
        Expr::All { nam, inp, bod } => {
            lemma_clean_removes_spans(*inp);
            lemma_clean_removes_spans(*bod);
        },
        Expr::Lam { nam, bod } => {
            lemma_clean_removes_spans(*bod);
        },
        Expr::App { fun, arg } => {
            lemma_clean_removes_spans(*fun);
            lemma_clean_removes_spans(*arg);
        },
        Expr::Ann { chk, val, typ } => {
            lemma_clean_removes_spans(*val);
            lemma_clean_removes_spans(*typ);
        },
        Expr::Slf { nam, typ, bod } => {
            lemma_clean_removes_spans(*typ);
            lemma_clean_removes_spans(*bod);
        },
        Expr::Ins { val } => {
            lemma_clean_removes_spans(*val);
        },
        Expr::Op2 { opr, fst, snd } => {
            lemma_clean_removes_spans(*fst);
            lemma_clean_removes_spans(*snd);
        },
        Expr::Swi { nam, x, z, s, p } => {
            lemma_clean_removes_spans(*x);
            lemma_clean_removes_spans(*z);
            lemma_clean_removes_spans(*s);
            lemma_clean_removes_spans(*p);
        },
        Expr::Let { nam, val, bod } => {
            lemma_clean_removes_spans(*val);
            lemma_clean_removes_spans(*bod);
        },
        Expr::Use { nam, val, bod } => {
            lemma_clean_removes_spans(*val);
            lemma_clean_removes_spans(*bod);
        },
        Expr::Src { src, val } => {
            lemma_clean_removes_spans(*val);
        },
        _ => {},
    }
}

impl Term {
    /// Whether pattern-match sugar occurs anywhere in this term. The
    /// traversals of core terms take a term only when it does not.
    pub fn has_match(&self) -> (res: bool)
        ensures
            res == !no_match(self@),
        decreases self,
    {
        match self {
            Term::All { nam: _, inp, bod } => inp.has_match() || bod.has_match(),
            Term::Lam { nam: _, bod } => bod.has_match(),
            Term::App { fun, arg } => fun.has_match() || arg.has_match(),
            Term::Ann { chk: _, val, typ } => val.has_match() || typ.has_match(),
            Term::Slf { nam: _, typ, bod } => typ.has_match() || bod.has_match(),
            Term::Ins { val } => val.has_match(),
            Term::Op2 { opr: _, fst, snd } => fst.has_match() || snd.has_match(),
            Term::Swi { nam: _, x, z, s, p } => x.has_match() || z.has_match() || s.has_match()
                || p.has_match(),
            Term::Let { nam: _, val, bod } => val.has_match() || bod.has_match(),
            Term::Use { nam: _, val, bod } => val.has_match() || bod.has_match(),
            Term::Src { src: _, val } => val.has_match(),
            Term::Mch { .. } => true,
            _ => false,
        }
    }

    /// Adds to `free_vars` every variable of this term that neither one of
    /// its own binders nor a name in `env` captures.
    pub fn get_free_vars(&self, env: im::Vector<String>, free_vars: &mut StringHashSet)
        requires
            no_match(self@),
        ensures
            final(free_vars)@ == old(free_vars)@ + self::free_vars(self@, name_set(names_of(env))),
        decreases self,
    {
        match self {
            Term::All { nam, inp, bod } => {
                proof {
                    lemma_name_set_push(names_of(env), nam@);
                }
                inp.get_free_vars(env_clone(&env), free_vars);
                bod.get_free_vars(cons(&env, nam.clone()), free_vars);
            },
            Term::Lam { nam, bod } => {
                proof {
                    lemma_name_set_push(names_of(env), nam@);
                }
                bod.get_free_vars(cons(&env, nam.clone()), free_vars);
            },
            Term::App { fun, arg } => {
                fun.get_free_vars(env_clone(&env), free_vars);
                arg.get_free_vars(env_clone(&env), free_vars);
            },
            Term::Ann { chk: _, val, typ } => {
                val.get_free_vars(env_clone(&env), free_vars);
                typ.get_free_vars(env_clone(&env), free_vars);
            },
            Term::Slf { nam, typ, bod } => {
                proof {
                    lemma_name_set_push(names_of(env), nam@);
                }
                typ.get_free_vars(env_clone(&env), free_vars);
                bod.get_free_vars(cons(&env, nam.clone()), free_vars);
            },
            Term::Ins { val } => {
                val.get_free_vars(env_clone(&env), free_vars);
            },
            Term::Uni => {},
            Term::U60 => {},
            Term::Num { val: _ } => {},
            Term::Op2 { opr: _, fst, snd } => {
                fst.get_free_vars(env_clone(&env), free_vars);
                snd.get_free_vars(env_clone(&env), free_vars);
            },
            Term::Swi { nam, x, z, s, p } => {
                let pred = nam.clone().concat("-1");
                proof {
                    reveal_strlit("-1");
                    assert(pred@ =~= pred_name(nam@));
                    lemma_name_set_push(names_of(env), nam@);
                    lemma_name_set_push(names_of(env), pred@);
                }
                x.get_free_vars(env_clone(&env), free_vars);
                z.get_free_vars(env_clone(&env), free_vars);
                s.get_free_vars(cons(&env, pred), free_vars);
                p.get_free_vars(cons(&env, nam.clone()), free_vars);
            },
            Term::Nat { nat: _ } => {},
            Term::Txt { txt: _ } => {},
            Term::Let { nam, val, bod } => {
                proof {
                    lemma_name_set_push(names_of(env), nam@);
                }
                val.get_free_vars(env_clone(&env), free_vars);
                bod.get_free_vars(cons(&env, nam.clone()), free_vars);
            },
            Term::Use { nam, val, bod } => {
                proof {
                    lemma_name_set_push(names_of(env), nam@);
                }
                val.get_free_vars(env_clone(&env), free_vars);
                bod.get_free_vars(cons(&env, nam.clone()), free_vars);
            },
            Term::Hol { nam: _ } => {},
            Term::Met {  } => {},
            Term::Src { src: _, val } => {
                val.get_free_vars(env, free_vars);
            },
            Term::Var { nam } => {
                if !env_contains(&env, nam) {
                    free_vars.insert(nam.clone());
                }
            },
            Term::Mch { .. } => {
                proof {
                    assert(false);
                }
            },
        }
        assert(final(free_vars)@ =~= old(free_vars)@ + self::free_vars(
            self@,
            name_set(names_of(env)),
        ));
    }

    /// The free variables of this term when nothing is bound around it.
    pub fn free_names(&self) -> (res: StringHashSet)
        requires
            no_match(self@),
        ensures
            res@ == self::free_vars(self@, Set::empty()),
    {
        let env = env_new();
        let mut free = StringHashSet::new();
        assert(name_set(names_of(env)) =~= Set::<Seq<char>>::empty());
        self.get_free_vars(env, &mut free);
        assert(free@ =~= self::free_vars(self@, Set::empty()));
        free
    }

    /// A copy of this term without its source-span wrappers.
    pub fn clean(&self) -> (res: Term)
        requires
            no_match(self@),
        ensures
            res@ == cleaned(self@),
            no_src(res@),
            no_match(res@),
        decreases self,
    {
        proof {
            lemma_clean_removes_spans(self@);
        }
        match self {
            Term::All { nam, inp, bod } => Term::All {
                nam: nam.clone(),
                inp: Box::new(inp.clean()),
                bod: Box::new(bod.clean()),
            },
            Term::Lam { nam, bod } => Term::Lam { nam: nam.clone(), bod: Box::new(bod.clean()) },
            Term::App { fun, arg } => Term::App {
                fun: Box::new(fun.clean()),
                arg: Box::new(arg.clean()),
            },
            Term::Ann { chk, val, typ } => Term::Ann {
                chk: *chk,
                val: Box::new(val.clean()),
                typ: Box::new(typ.clean()),
            },
            Term::Slf { nam, typ, bod } => Term::Slf {
                nam: nam.clone(),
                typ: Box::new(typ.clean()),
                bod: Box::new(bod.clean()),
            },
            Term::Ins { val } => Term::Ins { val: Box::new(val.clean()) },
            Term::Uni => Term::Uni,
            Term::U60 => Term::U60,
            Term::Num { val } => Term::Num { val: *val },
            Term::Op2 { opr, fst, snd } => Term::Op2 {
                opr: *opr,
                fst: Box::new(fst.clean()),
                snd: Box::new(snd.clean()),
            },
            Term::Swi { nam, x, z, s, p } => Term::Swi {
                nam: nam.clone(),
                x: Box::new(x.clean()),
                z: Box::new(z.clean()),
                s: Box::new(s.clean()),
                p: Box::new(p.clean()),
            },
            Term::Nat { nat: n } => Term::Nat { nat: *n },
            Term::Txt { txt } => Term::Txt { txt: txt.clone() },
            Term::Let { nam, val, bod } => Term::Let {
                nam: nam.clone(),
                val: Box::new(val.clean()),
                bod: Box::new(bod.clean()),
            },
            Term::Use { nam, val, bod } => Term::Use {
                nam: nam.clone(),
                val: Box::new(val.clean()),
                bod: Box::new(bod.clean()),
            },
            Term::Var { nam } => Term::Var { nam: nam.clone() },
            Term::Hol { nam } => Term::Hol { nam: nam.clone() },
            Term::Met {  } => Term::Met {  },
            Term::Src { src: _, val } => val.clean(),
            Term::Mch { .. } => {
                proof {
                    assert(false);
                }
                Term::Met {  }
            },
        }
    }
}

} // verus!
