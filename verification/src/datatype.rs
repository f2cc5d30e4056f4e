//! Inductive-type declarations and their encoding as core terms.
//!
//! A declared type stands for a self type: a value of the type is what
//! eliminates itself. Given a motive `P` over the indices and the value,
//! and one case per constructor that yields `P` at that constructor's
//! indices and application, it yields `P` at its own indices and itself.

use vstd::prelude::*;
use vstd::string::StringExecFns;
use crate::binders::{wrap_alls, wrap_lams};
use crate::sugar::apply_all;
use crate::term::{cases_view, Expr, Term};

verus! {

/// One constructor of an inductive type: its name, its fields, and the
/// indices of the type it constructs.
#[derive(Debug, PartialEq, Eq)]
pub struct Constructor {
    pub name: String,
    pub flds: Vec<(String, Term)>,
    pub idxs: Vec<Term>,
}

/// An inductive-type declaration: its name, its parameters, its indices
/// with their types, and its constructors.
#[derive(Debug, PartialEq, Eq)]
pub struct ADT {
    pub name: String,
    pub pars: Vec<String>,
    pub idxs: Vec<(String, Term)>,
    pub ctrs: Vec<Constructor>,
}

/// The model of a [`Constructor`].
pub struct CtrExpr {
    pub name: Seq<char>,
    pub flds: Seq<(Seq<char>, Expr)>,
    pub idxs: Seq<Expr>,
}

/// The model of an [`ADT`].
pub struct AdtExpr {
    pub name: Seq<char>,
    pub pars: Seq<Seq<char>>,
    pub idxs: Seq<(Seq<char>, Expr)>,
    pub ctrs: Seq<CtrExpr>,
}

/// The models of a list of terms.
pub open spec fn terms_view(terms: Seq<Term>) -> Seq<Expr> {
    Seq::new(terms.len(), |i: int| terms[i]@)
}

/// The characters of a list of names.
pub open spec fn names_view(names: Seq<String>) -> Seq<Seq<char>> {
    Seq::new(names.len(), |i: int| names[i]@)
}

/// The models of a list of constructors.
pub open spec fn ctrs_view(ctrs: Seq<Constructor>) -> Seq<CtrExpr> {
    Seq::new(ctrs.len(), |i: int| ctrs[i]@)
}

impl View for Constructor {
    type V = CtrExpr;

    open spec fn view(&self) -> CtrExpr {
        CtrExpr { name: self.name@, flds: cases_view(self.flds@), idxs: terms_view(self.idxs@) }
    }
}

impl View for ADT {
    type V = AdtExpr;

    open spec fn view(&self) -> AdtExpr {
        AdtExpr {
            name: self.name@,
            pars: names_view(self.pars@),
            idxs: cases_view(self.idxs@),
            ctrs: ctrs_view(self.ctrs@),
        }
    }
}

/// One variable per name.
pub open spec fn var_terms(names: Seq<Seq<char>>) -> Seq<Expr> {
    Seq::new(names.len(), |i: int| Expr::Var { nam: names[i] })
}

/// The names of a list of binders.
pub open spec fn binder_names(binders: Seq<(Seq<char>, Expr)>) -> Seq<Seq<char>> {
    Seq::new(binders.len(), |i: int| binders[i].0)
}

/// One binder per name, each at type `typ`.
pub open spec fn typed_at(names: Seq<Seq<char>>, typ: Expr) -> Seq<(Seq<char>, Expr)> {
    Seq::new(names.len(), |i: int| (names[i], typ))
}

/// The name that a constructor goes by outside its type: the type's name,
/// a dot, the constructor's name.
pub open spec fn ctr_name(adt: Seq<char>, ctr: Seq<char>) -> Seq<char> {
    adt + seq!['.'] + ctr
}

/// The declared type applied to its parameters and indices.
pub open spec fn self_type(adt: AdtExpr) -> Expr {
    apply_all(
        Expr::Var { nam: adt.name },
        var_terms(adt.pars) + var_terms(binder_names(adt.idxs)),
    )
}

/// The type of the motive: for all indices and a value `x` of the type at
/// those indices, a type.
pub open spec fn motive_type(adt: AdtExpr) -> Expr {
    wrap_alls(
        Expr::All {
            nam: seq!['x'],
            inp: Box::new(self_type(adt)),
            bod: Box::new(Expr::Uni),
        },
        adt.idxs,
    )
}

/// The type of the case for one constructor: for all its fields, the motive
/// at the constructor's indices and at the constructor applied to the
/// parameters and the fields.
pub open spec fn case_type(adt: AdtExpr, ctr: CtrExpr) -> Expr {
    wrap_alls(
        Expr::App {
            fun: Box::new(apply_all(Expr::Var { nam: seq!['P'] }, ctr.idxs)),
            arg: Box::new(
                apply_all(
                    Expr::Var { nam: ctr_name(adt.name, ctr.name) },
                    var_terms(adt.pars) + var_terms(binder_names(ctr.flds)),
                ),
            ),
        },
        ctr.flds,
    )
}

/// One binder per constructor: its name, at the type of its case.
pub open spec fn case_binders(adt: AdtExpr) -> Seq<(Seq<char>, Expr)> {
    Seq::new(adt.ctrs.len(), |i: int| (adt.ctrs[i].name, case_type(adt, adt.ctrs[i])))
}

/// The core term that a declared type stands for.
pub open spec fn encode_adt(adt: AdtExpr) -> Expr {
    Expr::Slf {
        nam: seq!['s', 'e', 'l', 'f'],
        typ: Box::new(self_type(adt)),
        bod: Box::new(
            Expr::All {
                nam: seq!['P'],
                inp: Box::new(motive_type(adt)),
                bod: Box::new(
                    wrap_alls(
                        Expr::App {
                            fun: Box::new(
                                apply_all(
                                    Expr::Var { nam: seq!['P'] },
                                    var_terms(binder_names(adt.idxs)),
                                ),
                            ),
                            arg: Box::new(Expr::Var { nam: seq!['s', 'e', 'l', 'f'] }),
                        },
                        case_binders(adt),
                    ),
                ),
            },
        ),
    }
}

/// The binders of a declared type: its parameters, each a type, then its
/// indices.
pub open spec fn adt_binders(adt: AdtExpr) -> Seq<(Seq<char>, Expr)> {
    typed_at(adt.pars, Expr::Uni) + adt.idxs
}

/// The type of a declared type: a function from its parameters and indices
/// to types, parameters outermost.
pub open spec fn adt_type(adt: AdtExpr) -> Expr {
    wrap_alls(Expr::Uni, adt_binders(adt))
}

/// The value of a declared type: its encoding under one lambda per
/// parameter and index, parameters outermost.
pub open spec fn adt_value(adt: AdtExpr) -> Expr {
    wrap_lams(encode_adt(adt), adt_binders(adt))
}

/// Binding `first` and then `second` is binding their concatenation.
pub proof fn lemma_wrap_alls_concat(
    e: Expr,
    first: Seq<(Seq<char>, Expr)>,
    second: Seq<(Seq<char>, Expr)>,
)
    ensures
        wrap_alls(wrap_alls(e, second), first) == wrap_alls(e, first + second),
    decreases first.len(),
{
    if first.len() == 0 {
        assert(first + second =~= second);
    } else {
        lemma_wrap_alls_concat(e, first.skip(1), second);
        assert((first + second).skip(1) =~= first.skip(1) + second);
    }
}

/// Binding `first` and then `second` is binding their concatenation.
pub proof fn lemma_wrap_lams_concat(
    e: Expr,
    first: Seq<(Seq<char>, Expr)>,
    second: Seq<(Seq<char>, Expr)>,
)
    ensures
        wrap_lams(wrap_lams(e, second), first) == wrap_lams(e, first + second),
    decreases first.len(),
{
    if first.len() == 0 {
        assert(first + second =~= second);
    } else {
        lemma_wrap_lams_concat(e, first.skip(1), second);
        assert((first + second).skip(1) =~= first.skip(1) + second);
    }
}

/// Applying to `first` and then to `second` is applying to their
/// concatenation.
pub proof fn lemma_apply_all_concat(head: Expr, first: Seq<Expr>, second: Seq<Expr>)
    ensures
        apply_all(apply_all(head, first), second) == apply_all(head, first + second),
    decreases second.len(),
{
    if second.len() == 0 {
        assert(first + second =~= first);
    } else {
        lemma_apply_all_concat(head, first, second.drop_last());
        assert((first + second).drop_last() =~= first + second.drop_last());
    }
}

/// `head` applied to a variable for each name, in order.
pub fn apply_vars(head: Term, names: &Vec<String>) -> (res: Term)
    ensures
        res@ == apply_all(head@, var_terms(names_view(names@))),
{
    let ghost args = var_terms(names_view(names@));
    let ghost start = head@;
    let mut term = head;
    let mut i: usize = 0;
    while i < names.len()
        invariant
            i <= names.len(),
            args == var_terms(names_view(names@)),
            term@ == apply_all(start, args.take(i as int)),
        decreases names.len() - i,
    {
        let arg = Term::Var { nam: names[i].clone() };
        proof {
            assert(args.take(i + 1).drop_last() =~= args.take(i as int));
            assert(args.take(i + 1).last() == arg@);
        }
        term = Term::App { fun: Box::new(term), arg: Box::new(arg) };
        i += 1;
    }
    assert(args.take(i as int) =~= args);
    term
}

/// `head` applied to a variable for each binder's name, in order.
pub fn apply_binders(head: Term, binders: &Vec<(String, Term)>) -> (res: Term)
    ensures
        res@ == apply_all(head@, var_terms(binder_names(cases_view(binders@)))),
{
    let ghost args = var_terms(binder_names(cases_view(binders@)));
    let ghost start = head@;
    let mut term = head;
    let mut i: usize = 0;
    while i < binders.len()
        invariant
            i <= binders.len(),
            args == var_terms(binder_names(cases_view(binders@))),
            term@ == apply_all(start, args.take(i as int)),
        decreases binders.len() - i,
    {
        let arg = Term::Var { nam: binders[i].0.clone() };
        proof {
            assert(args.take(i + 1).drop_last() =~= args.take(i as int));
            assert(args.take(i + 1).last() == arg@);
        }
        term = Term::App { fun: Box::new(term), arg: Box::new(arg) };
        i += 1;
    }
    assert(args.take(i as int) =~= args);
    term
}

/// `head` applied to a copy of each term, in order.
pub fn apply_terms(head: Term, args: &Vec<Term>) -> (res: Term)
    ensures
        res@ == apply_all(head@, terms_view(args@)),
{
    let ghost models = terms_view(args@);
    let ghost start = head@;
    let mut term = head;
    let mut i: usize = 0;
    while i < args.len()
        invariant
            i <= args.len(),
            models == terms_view(args@),
            term@ == apply_all(start, models.take(i as int)),
        decreases args.len() - i,
    {
        let arg = args[i].deep_clone();
        proof {
            assert(models.take(i + 1).drop_last() =~= models.take(i as int));
            assert(models.take(i + 1).last() == arg@);
        }
        term = Term::App { fun: Box::new(term), arg: Box::new(arg) };
        i += 1;
    }
    assert(models.take(i as int) =~= models);
    term
}

/// `body` under one forall per binder, the first binder outermost.
pub fn all_over(body: Term, binders: &Vec<(String, Term)>) -> (res: Term)
    ensures
        res@ == wrap_alls(body@, cases_view(binders@)),
{
    let ghost list = cases_view(binders@);
    let ghost start = body@;
    let mut term = body;
    let mut i: usize = binders.len();
    assert(list.skip(i as int) =~= Seq::empty());
    while i > 0
        invariant
            i <= binders.len(),
            list == cases_view(binders@),
            term@ == wrap_alls(start, list.skip(i as int)),
        decreases i,
    {
        i -= 1;
        proof {
            assert(list.skip(i as int).skip(1) =~= list.skip(i + 1));
        }
        term.add_all(binders[i].0.as_str(), &binders[i].1);
    }
    assert(list.skip(0) =~= list);
    term
}

/// `body` under one lambda per binder, the first binder outermost.
pub fn lam_over(body: Term, binders: &Vec<(String, Term)>) -> (res: Term)
    ensures
        res@ == wrap_lams(body@, cases_view(binders@)),
{
    let ghost list = cases_view(binders@);
    let ghost start = body@;
    let mut term = body;
    let mut i: usize = binders.len();
    assert(list.skip(i as int) =~= Seq::empty());
    while i > 0
        invariant
            i <= binders.len(),
            list == cases_view(binders@),
            term@ == wrap_lams(start, list.skip(i as int)),
        decreases i,
    {
        i -= 1;
        proof {
            assert(list.skip(i as int).skip(1) =~= list.skip(i + 1));
        }
        term.add_lam(binders[i].0.as_str());
    }
    assert(list.skip(0) =~= list);
    term
}

/// One binder per name, each at the universe of types.
pub fn type_binders(names: &Vec<String>) -> (res: Vec<(String, Term)>)
    ensures
        cases_view(res@) == typed_at(names_view(names@), Expr::Uni),
{
    let mut res: Vec<(String, Term)> = Vec::new();
    let mut i: usize = 0;
    while i < names.len()
        invariant
            i <= names.len(),
            res.len() == i,
            forall|j: int| 0 <= j < i ==> res@[j].0@ == names@[j]@ && res@[j].1@ == Expr::Uni,
        decreases names.len() - i,
    {
        res.push((names[i].clone(), Term::Uni));
        i += 1;
    }
    assert(cases_view(res@) =~= typed_at(names_view(names@), Expr::Uni));
    res
}

impl Term {
    /// Builds the core term that a declared type stands for.
    pub fn new_adt(adt: &ADT) -> (res: Term)
        ensures
            res@ == encode_adt(adt@),
    {
        let ghost model = adt@;
        let this = "self";
        let motive = "P";
        let witness = "x";
        proof {
            reveal_strlit("self");
            reveal_strlit("P");
            reveal_strlit("x");
            reveal_strlit(".");
            assert("self"@ =~= seq!['s', 'e', 'l', 'f']);
            assert("P"@ =~= seq!['P']);
            assert("x"@ =~= seq!['x']);
        }
        // The type applied to its parameters and indices.
        let head = Term::Var { nam: adt.name.clone() };
        assert(head@ == Expr::Var { nam: model.name });
        let head = apply_vars(head, &adt.pars);
        let self_typ = apply_binders(head, &adt.idxs);
        proof {
            lemma_apply_all_concat(
                Expr::Var { nam: model.name },
                var_terms(model.pars),
                var_terms(binder_names(model.idxs)),
            );
        }
        assert(self_typ@ == self_type(model));
        // The type of the motive.
        let universe = Term::Uni;
        assert(universe@ == Expr::Uni);
        let over_witness = Term::All {
            nam: witness.to_owned(),
            inp: Box::new(self_typ.deep_clone()),
            bod: Box::new(universe),
        };
        assert(over_witness@ == Expr::All {
            nam: seq!['x'],
            inp: Box::new(self_type(model)),
            bod: Box::new(Expr::Uni),
        });
        let motive_typ = all_over(over_witness, &adt.idxs);
        assert(motive_typ@ == motive_type(model));
        // One binder per constructor.
        let mut cases: Vec<(String, Term)> = Vec::new();
        let mut i: usize = 0;
        while i < adt.ctrs.len()
            invariant
                i <= adt.ctrs.len(),
                model == adt@,
                cases.len() == i,
                motive@ == seq!['P'],
                "."@ == seq!['.'],
                forall|j: int|
                    0 <= j < i ==> cases@[j].0@ == model.ctrs[j].name && cases@[j].1@ == case_type(
                        model,
                        model.ctrs[j],
                    ),
            decreases adt.ctrs.len() - i,
        {
            let ctr = &adt.ctrs[i];
            let ghost c = model.ctrs[i as int];
            assert(c == ctr@);
            let motive_var = Term::Var { nam: motive.to_owned() };
            assert(motive_var@ == Expr::Var { nam: seq!['P'] });
            let result = apply_terms(motive_var, &ctr.idxs);
            let full = adt.name.clone().concat(".").concat(ctr.name.as_str());
            assert(full@ =~= ctr_name(model.name, c.name));
            let ctr_var = Term::Var { nam: full };
            assert(ctr_var@ == Expr::Var { nam: ctr_name(model.name, c.name) });
            let made = apply_vars(ctr_var, &adt.pars);
            let made = apply_binders(made, &ctr.flds);
            proof {
                lemma_apply_all_concat(
                    Expr::Var { nam: ctr_name(model.name, c.name) },
                    var_terms(model.pars),
                    var_terms(binder_names(c.flds)),
                );
            }
            let ghost result_model = result@;
            let ghost made_model = made@;
            let applied = Term::App { fun: Box::new(result), arg: Box::new(made) };
            assert(applied@ == Expr::App {
                fun: Box::new(result_model),
                arg: Box::new(made_model),
            });
            let case = all_over(applied, &ctr.flds);
            assert(case@ == case_type(model, c));
            cases.push((ctr.name.clone(), case));
            i += 1;
        }
        assert(cases_view(cases@) =~= case_binders(model));
        // The motive at the type's own indices and at the value itself.
        let motive_var = Term::Var { nam: motive.to_owned() };
        assert(motive_var@ == Expr::Var { nam: seq!['P'] });
        let at_indices = apply_binders(motive_var, &adt.idxs);
        let this_var = Term::Var { nam: this.to_owned() };
        assert(this_var@ == Expr::Var { nam: seq!['s', 'e', 'l', 'f'] });
        let ghost at_indices_model = at_indices@;
        let goal = Term::App { fun: Box::new(at_indices), arg: Box::new(this_var) };
        assert(goal@ == Expr::App {
            fun: Box::new(at_indices_model),
            arg: Box::new(Expr::Var { nam: seq!['s', 'e', 'l', 'f'] }),
        });
        let cased = all_over(goal, &cases);
        let ghost cased_model = cased@;
        let body = Term::All {
            nam: motive.to_owned(),
            inp: Box::new(motive_typ),
            bod: Box::new(cased),
        };
        assert(body@ == Expr::All {
            nam: seq!['P'],
            inp: Box::new(motive_type(model)),
            bod: Box::new(cased_model),
        });
        Term::Slf { nam: this.to_owned(), typ: Box::new(self_typ), bod: Box::new(body) }
    }
}

} // verus!
