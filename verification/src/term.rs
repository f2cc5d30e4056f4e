//! The term tree, its mathematical model, and verified deep copies.

use vstd::prelude::*;
use crate::span::Src;

verus! {

/// Binary operators on the primitive numeric type.
#[derive(Clone, Copy, Debug, PartialEq, Eq)]
pub enum Oper {
    Add,
    Sub,
    Mul,
    Div,
    Mod,
    Eq,
    Ne,
    Lt,
    Gt,
    Lte,
    Gte,
    And,
    Or,
    Xor,
    Lsh,
    Rsh,
}

impl View for Oper {
    type V = Oper;

    open spec fn view(&self) -> Oper {
        *self
    }
}

/// A term of the calculus. The first seventeen variants are the core; `Mch`,
/// `Nat` and `Txt` are surface sugar.
#[derive(Debug, PartialEq, Eq)]
#[allow(inconsistent_fields)]
pub enum Term {
    All { nam: String, inp: Box<Term>, bod: Box<Term> },
    Lam { nam: String, bod: Box<Term> },
    App { fun: Box<Term>, arg: Box<Term> },
    Ann { chk: bool, val: Box<Term>, typ: Box<Term> },
    Slf { nam: String, typ: Box<Term>, bod: Box<Term> },
    Ins { val: Box<Term> },
    Uni,
    U60,
    Num { val: u64 },
    Op2 { opr: Oper, fst: Box<Term>, snd: Box<Term> },
    Swi { nam: String, x: Box<Term>, z: Box<Term>, s: Box<Term>, p: Box<Term> },
    Let { nam: String, val: Box<Term>, bod: Box<Term> },
    Use { nam: String, val: Box<Term>, bod: Box<Term> },
    Var { nam: String },
    Hol { nam: String },
    Met {},
    Src { src: Src, val: Box<Term> },
    Mch { mch: Box<Match> },
    Nat { nat: u64 },
    Txt { txt: String },
}

/// Pattern-match sugar over a user-defined inductive type: the name the
/// scrutinee goes by, the scrutinee, one body per constructor, and an
/// optional motive.
#[derive(Debug, PartialEq, Eq)]
pub struct Match {
    pub name: String,
    pub expr: Term,
    pub cses: Vec<(String, Term)>,
    pub moti: Option<Term>,
}

/// The mathematical model of a [`Term`]: the same tree with names as
/// sequences of characters.
#[allow(inconsistent_fields)]
pub enum Expr {
    All { nam: Seq<char>, inp: Box<Expr>, bod: Box<Expr> },
    Lam { nam: Seq<char>, bod: Box<Expr> },
    App { fun: Box<Expr>, arg: Box<Expr> },
    Ann { chk: bool, val: Box<Expr>, typ: Box<Expr> },
    Slf { nam: Seq<char>, typ: Box<Expr>, bod: Box<Expr> },
    Ins { val: Box<Expr> },
    Uni,
    U60,
    Num { val: u64 },
    Op2 { opr: Oper, fst: Box<Expr>, snd: Box<Expr> },
    Swi { nam: Seq<char>, x: Box<Expr>, z: Box<Expr>, s: Box<Expr>, p: Box<Expr> },
    Let { nam: Seq<char>, val: Box<Expr>, bod: Box<Expr> },
    Use { nam: Seq<char>, val: Box<Expr>, bod: Box<Expr> },
    Var { nam: Seq<char> },
    Hol { nam: Seq<char> },
    Met,
    Src { src: Src, val: Box<Expr> },
    Mch { name: Seq<char>, expr: Box<Expr>, cses: Seq<(Seq<char>, Expr)>, moti: Option<Box<Expr>> },
    Nat { nat: u64 },
    Txt { txt: Seq<char> },
}

/// The model of a list of match cases.
pub open spec fn cases_view(cses: Seq<(String, Term)>) -> Seq<(Seq<char>, Expr)>
    decreases cses,
{
    Seq::new(
        cses.len(),
        |i: int|
            if 0 <= i < cses.len() {
                (cses[i].0@, cses[i].1.model())
            } else {
                (Seq::empty(), Expr::Met)
            },
    )
}

impl Term {
    /// The model of this term.
    pub open spec fn model(&self) -> Expr
        decreases self,
    {
        match self {
            Term::All { nam, inp, bod } => Expr::All {
                nam: nam@,
                inp: Box::new(inp.model()),
                bod: Box::new(bod.model()),
            },
            Term::Lam { nam, bod } => Expr::Lam { nam: nam@, bod: Box::new(bod.model()) },
            Term::App { fun, arg } => Expr::App {
                fun: Box::new(fun.model()),
                arg: Box::new(arg.model()),
            },
            Term::Ann { chk, val, typ } => Expr::Ann {
                chk: *chk,
                val: Box::new(val.model()),
                typ: Box::new(typ.model()),
            },
            Term::Slf { nam, typ, bod } => Expr::Slf {
                nam: nam@,
                typ: Box::new(typ.model()),
                bod: Box::new(bod.model()),
            },
            Term::Ins { val } => Expr::Ins { val: Box::new(val.model()) },
            Term::Uni => Expr::Uni,
            Term::U60 => Expr::U60,
            Term::Num { val } => Expr::Num { val: *val },
            Term::Op2 { opr, fst, snd } => Expr::Op2 {
                opr: *opr,
                fst: Box::new(fst.model()),
                snd: Box::new(snd.model()),
            },
            Term::Swi { nam, x, z, s, p } => Expr::Swi {
                nam: nam@,
                x: Box::new(x.model()),
                z: Box::new(z.model()),
                s: Box::new(s.model()),
                p: Box::new(p.model()),
            },
            Term::Let { nam, val, bod } => Expr::Let {
                nam: nam@,
                val: Box::new(val.model()),
                bod: Box::new(bod.model()),
            },
            Term::Use { nam, val, bod } => Expr::Use {
                nam: nam@,
                val: Box::new(val.model()),
                bod: Box::new(bod.model()),
            },
            Term::Var { nam } => Expr::Var { nam: nam@ },
            Term::Hol { nam } => Expr::Hol { nam: nam@ },
            Term::Met {  } => Expr::Met,
            Term::Src { src, val } => Expr::Src { src: *src, val: Box::new(val.model()) },
            Term::Mch { mch } => Expr::Mch {
                name: mch.name@,
                expr: Box::new(mch.expr.model()),
                cses: cases_view(mch.cses@),
                moti: match mch.moti {
                    Some(m) => Some(Box::new(m.model())),
                    None => None,
                },
            },
            Term::Nat { nat: n } => Expr::Nat { nat: *n },
            Term::Txt { txt } => Expr::Txt { txt: txt@ },
        }
    }
}

impl View for Term {
    type V = Expr;

    open spec fn view(&self) -> Expr {
        self.model()
    }
}

/// The model of an optional term.
pub open spec fn option_view(t: Option<Term>) -> Option<Box<Expr>> {
    match t {
        Some(m) => Some(Box::new(m.model())),
        None => None,
    }
}

/// Copies a list of match cases, name by name and body by body.
pub fn clone_cases(cses: &Vec<(String, Term)>) -> (res: Vec<(String, Term)>)
    ensures
        cases_view(res@) == cases_view(cses@),
    decreases cses,
{
    let mut res: Vec<(String, Term)> = Vec::new();
    let mut i: usize = 0;
    while i < cses.len()
        invariant
            i <= cses.len(),
            res.len() == i,
            forall|j: int| 0 <= j < i ==> res@[j].0@ == cses@[j].0@ && res@[j].1@ == cses@[j].1@,
        decreases cses.len() - i,
    {
        let nam = cses[i].0.clone();
        let bod = cses[i].1.deep_clone();
        res.push((nam, bod));
        i += 1;
    }
    assert(cases_view(res@) =~= cases_view(cses@));
    res
}

impl Term {
    /// A deep copy: a fresh tree with the same model.
    pub fn deep_clone(&self) -> (res: Term)
        ensures
            res@ == self@,
        decreases self,
    {
        match self {
            Term::All { nam, inp, bod } => Term::All {
                nam: nam.clone(),
                inp: Box::new(inp.deep_clone()),
                bod: Box::new(bod.deep_clone()),
            },
            Term::Lam { nam, bod } => Term::Lam { nam: nam.clone(), bod: Box::new(bod.deep_clone()) },
            Term::App { fun, arg } => Term::App {
                fun: Box::new(fun.deep_clone()),
                arg: Box::new(arg.deep_clone()),
            },
            Term::Ann { chk, val, typ } => Term::Ann {
                chk: *chk,
                val: Box::new(val.deep_clone()),
                typ: Box::new(typ.deep_clone()),
            },
            Term::Slf { nam, typ, bod } => Term::Slf {
                nam: nam.clone(),
                typ: Box::new(typ.deep_clone()),
                bod: Box::new(bod.deep_clone()),
            },
            Term::Ins { val } => Term::Ins { val: Box::new(val.deep_clone()) },
            Term::Uni => Term::Uni,
            Term::U60 => Term::U60,
            Term::Num { val } => Term::Num { val: *val },
            Term::Op2 { opr, fst, snd } => Term::Op2 {
                opr: *opr,
                fst: Box::new(fst.deep_clone()),
                snd: Box::new(snd.deep_clone()),
            },
            Term::Swi { nam, x, z, s, p } => Term::Swi {
                nam: nam.clone(),
                x: Box::new(x.deep_clone()),
                z: Box::new(z.deep_clone()),
                s: Box::new(s.deep_clone()),
                p: Box::new(p.deep_clone()),
            },
            Term::Let { nam, val, bod } => Term::Let {
                nam: nam.clone(),
                val: Box::new(val.deep_clone()),
                bod: Box::new(bod.deep_clone()),
            },
            Term::Use { nam, val, bod } => Term::Use {
                nam: nam.clone(),
                val: Box::new(val.deep_clone()),
                bod: Box::new(bod.deep_clone()),
            },
            Term::Var { nam } => Term::Var { nam: nam.clone() },
            Term::Hol { nam } => Term::Hol { nam: nam.clone() },
            Term::Met {  } => Term::Met {  },
            Term::Src { src, val } => Term::Src { src: *src, val: Box::new(val.deep_clone()) },
            Term::Mch { mch } => {
                let moti = match &mch.moti {
                    Some(m) => Some(m.deep_clone()),
                    None => None,
                };
                Term::Mch {
                    mch: Box::new(
                        Match {
                            name: mch.name.clone(),
                            expr: mch.expr.deep_clone(),
                            cses: clone_cases(&mch.cses),
                            moti,
                        },
                    ),
                }
            },
            Term::Nat { nat: n } => Term::Nat { nat: *n },
            Term::Txt { txt } => Term::Txt { txt: txt.clone() },
        }
    }
}

impl Clone for Term {
    fn clone(&self) -> (res: Term)
        ensures
            res@ == self@,
    {
        self.deep_clone()
    }
}

impl Clone for Match {
    fn clone(&self) -> (res: Match)
        ensures
            res.name@ == self.name@,
            res.expr@ == self.expr@,
            cases_view(res.cses@) == cases_view(self.cses@),
            option_view(res.moti) == option_view(self.moti),
    {
        let moti = match &self.moti {
            Some(m) => Some(m.deep_clone()),
            None => None,
        };
        Match {
            name: self.name.clone(),
            expr: self.expr.deep_clone(),
            cses: clone_cases(&self.cses),
            moti,
        }
    }
}

} // verus!
