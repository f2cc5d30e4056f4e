//! Top-level declarations: `use` aliases, definitions, inductive types, and
//! the book of a whole file.
//!
//! As in the grammar of terms, a rule that repeats compares offsets before
//! it goes on. Each round reads at least one byte, so the comparison always
//! holds where a rule reaches it.

use vstd::prelude::*;
use vstd::string::{StrSliceExecFns, StringExecFns, StringSliceAdditionalSpecFns};
use crate::binders::{linearized, wrap_alls};
use crate::book::Book;
use crate::datatype::{
    adt_type, adt_value, all_over, binder_names, ctrs_view, encode_adt, lam_over,
    lemma_wrap_alls_concat, lemma_wrap_lams_concat, names_view, terms_view, type_binders, typed_at,
    AdtExpr, Constructor, CtrExpr, ADT,
};
use crate::grammar::{resolve, term};
use crate::lexer::{
    byte_at, is_alpha, lex_name, lex_text, lex_token, outcome, outcome_by, push_char, skip_trivia,
    starts_with, KindParser, ParseError, Parsed,
};
use crate::persistent::{
    aliases_of, args_clone, args_new, args_of, args_push_back, uses_get, uses_insert, uses_new,
};
use crate::sugar::desugared;
use crate::term::{cases_view, Expr, Term};

verus! {

/// The part of a dotted name after its last dot: the whole name when it has
/// no dot, nothing when it ends in one.
pub open spec fn last_segment(name: Seq<char>) -> Seq<char>
    decreases name.len(),
{
    if name.len() == 0 || name.last() == '.' {
        Seq::empty()
    } else {
        last_segment(name.drop_last()).push(name.last())
    }
}

/// One `use` target at offset `i`, read with `prefix` before it: a path,
/// which registers the alias from its last segment to the whole path, or a
/// path followed by a group of targets in braces, each read with the path
/// as its prefix.
pub open spec fn use_decl(
    s: Seq<u8>,
    i: int,
    prefix: Seq<char>,
    uses: Map<Seq<char>, Seq<char>>,
) -> Parsed<Map<Seq<char>, Seq<char>>>
    decreases s.len() - i, 1int,
{
    let n = lex_name(s, i);
    let path = prefix + n->value;
    let k = skip_trivia(s, n.next());
    let a = lex_token(s, k, "{");
    let at = skip_trivia(s, a.next());
    if n is Fail {
        n.fail()
    } else if !byte_at(s, k, 0x7B) {
        Parsed::Done { value: uses.insert(last_segment(path), path), next: k }
    } else if a is Fail {
        a.fail()
    } else if i < at <= s.len() {
        use_items(s, at, path, uses)
    } else {
        Parsed::Fail { at, expected: "name"@, info: None }
    }
}

/// The targets of a group from offset `at` on, separated by `,` and closed
/// by `}`.
pub open spec fn use_items(
    s: Seq<u8>,
    at: int,
    prefix: Seq<char>,
    uses: Map<Seq<char>, Seq<char>>,
) -> Parsed<Map<Seq<char>, Seq<char>>>
    decreases s.len() - at, 2int,
{
    let u = use_decl(s, at, prefix, uses);
    let k = skip_trivia(s, u.next());
    if u is Fail {
        u
    } else if byte_at(s, k, 0x2C) {
        let c = lex_token(s, k, ",");
        if c is Fail {
            c.fail()
        } else if at < c.next() <= s.len() {
            use_items(s, c.next(), prefix, u->value)
        } else {
            Parsed::Fail { at: c.next(), expected: "name"@, info: None }
        }
    } else if byte_at(s, k, 0x7D) {
        let c = lex_token(s, k, "}");
        if c is Fail {
            c.fail()
        } else {
            Parsed::Done { value: u->value, next: c.next() }
        }
    } else {
        Parsed::Fail { at: k, expected: "comma (`,`) or semicolon (`;`)"@, info: None }
    }
}

/// The `use` declarations from offset `i` on, each adding to the table, up
/// to the first thing that is no `use` declaration. Trivia after each
/// declaration is skipped.
pub open spec fn uses_decls(s: Seq<u8>, i: int, uses: Map<Seq<char>, Seq<char>>) -> Parsed<
    Map<Seq<char>, Seq<char>>,
>
    decreases s.len() - i,
{
    if starts_with(s, i, "use ".spec_bytes()) {
        let a = lex_token(s, i, "use");
        let u = use_decl(s, a.next(), Seq::empty(), uses);
        let k = skip_trivia(s, u.next());
        if a is Fail {
            a.fail()
        } else if u is Fail {
            u
        } else if i < k <= s.len() {
            uses_decls(s, k, u->value)
        } else {
            Parsed::Fail { at: k, expected: "use"@, info: None }
        }
    } else {
        Parsed::Done { value: uses, next: i }
    }
}

/// The alias table of a file: trivia, then its `use` declarations, read
/// into an empty table.
pub open spec fn uses_section(s: Seq<u8>, i: int) -> Parsed<Map<Seq<char>, Seq<char>>> {
    uses_decls(s, skip_trivia(s, i), Map::empty())
}

/// The run of bare argument names at offset `i`, each typed by a
/// metavariable, added to `acc`. A name has to start with a letter.
pub open spec fn bare_args(s: Seq<u8>, i: int, acc: Seq<(Seq<char>, Expr)>) -> Parsed<
    Seq<(Seq<char>, Expr)>,
>
    decreases s.len() - i,
{
    if 0 <= i < s.len() && is_alpha(s[i]) {
        let n = lex_name(s, i);
        let k = skip_trivia(s, n.next());
        if n is Fail {
            n.fail()
        } else if i < k <= s.len() {
            bare_args(s, k, acc.push((n->value, Expr::Met)))
        } else {
            Parsed::Fail { at: k, expected: "name"@, info: None }
        }
    } else {
        Parsed::Done { value: acc, next: i }
    }
}

/// The run of typed arguments `(<name>: <term>)` at offset `i`, added to
/// `acc`.
pub open spec fn typed_args(
    s: Seq<u8>,
    i: int,
    fid: u64,
    uses: Map<Seq<char>, Seq<char>>,
    acc: Seq<(Seq<char>, Expr)>,
) -> Parsed<Seq<(Seq<char>, Expr)>>
    decreases s.len() - i,
{
    if byte_at(s, i, 0x28) {
        let a = lex_token(s, i, "(");
        let n = lex_name(s, a.next());
        let c = lex_token(s, n.next(), ":");
        let t = term(s, c.next(), fid, uses);
        let d = lex_token(s, t.next(), ")");
        let k = skip_trivia(s, d.next());
        if a is Fail {
            a.fail()
        } else if n is Fail {
            n.fail()
        } else if c is Fail {
            c.fail()
        } else if t is Fail {
            t.fail()
        } else if d is Fail {
            d.fail()
        } else if i < k <= s.len() {
            typed_args(s, k, fid, uses, acc.push((n->value, t->value)))
        } else {
            Parsed::Fail { at: k, expected: "("@, info: None }
        }
    } else {
        Parsed::Done { value: acc, next: i }
    }
}

/// An ordinary definition at offset `i`:
///
/// ```text
/// <name> <name>* (<name>: <term>)* [: <term>] = <term>
/// ```
///
/// The name goes through the alias table. The type is the written return
/// type, or a metavariable when none is written, under one forall per
/// argument; the value is the written value with the arguments linearized
/// around it. Both are desugared. The check flag is set exactly when no
/// return type is written.
pub open spec fn def_plain(s: Seq<u8>, i: int, fid: u64, uses: Map<Seq<char>, Seq<char>>) -> Parsed<
    (Seq<char>, Expr),
> {
    let n = lex_name(s, i);
    let k = skip_trivia(s, n.next());
    let a = bare_args(s, k, Seq::empty());
    let b = typed_args(s, a.next(), fid, uses, a->value);
    let m = b.next();
    let annotated = byte_at(s, m, 0x3A);
    let c = lex_token(s, m, ":");
    let t = term(s, c.next(), fid, uses);
    let e = lex_token(
        s,
        if annotated {
            t.next()
        } else {
            m
        },
        "=",
    );
    let v = term(s, e.next(), fid, uses);
    if n is Fail {
        n.fail()
    } else if a is Fail {
        a.fail()
    } else if b is Fail {
        b.fail()
    } else if annotated && c is Fail {
        c.fail()
    } else if annotated && t is Fail {
        t.fail()
    } else if e is Fail {
        e.fail()
    } else if v is Fail {
        v.fail()
    } else {
        let args = b->value;
        let typ = if annotated {
            t->value
        } else {
            Expr::Met
        };
        Parsed::Done {
            value: (
                resolve(uses, n->value),
                Expr::Ann {
                    chk: !annotated,
                    val: Box::new(desugared(linearized(v->value, args))),
                    typ: Box::new(desugared(wrap_alls(typ, args))),
                },
            ),
            next: v.next(),
        }
    }
}

/// Each of `names` in turn, as a given text.
pub open spec fn lex_names(s: Seq<u8>, i: int, names: Seq<Seq<char>>) -> Parsed<()>
    decreases names.len(),
{
    if names.len() == 0 {
        Parsed::Done { value: (), next: i }
    } else {
        let a = lex_text(s, i, names[0]);
        if a is Fail {
            a
        } else {
            lex_names(s, a.next(), names.skip(1))
        }
    }
}

/// The terms from offset `i` up to a closing parenthesis, added to `acc`.
/// Trivia after each term is skipped.
pub open spec fn result_terms(
    s: Seq<u8>,
    i: int,
    fid: u64,
    uses: Map<Seq<char>, Seq<char>>,
    acc: Seq<Expr>,
) -> Parsed<Seq<Expr>>
    decreases s.len() - i,
{
    if byte_at(s, i, 0x29) {
        Parsed::Done { value: acc, next: i }
    } else {
        let t = term(s, i, fid, uses);
        let k = skip_trivia(s, t.next());
        if t is Fail {
            t.fail()
        } else if i < k <= s.len() {
            result_terms(s, k, fid, uses, acc.push(t->value))
        } else {
            Parsed::Fail { at: k, expected: ")"@, info: None }
        }
    }
}

/// What a constructor constructs, at offset `i`: a colon, then the declared
/// type's name alone, or in parentheses the name, the type's parameters as
/// declared, and one term per index. The value is the index terms.
pub open spec fn ctr_result(
    s: Seq<u8>,
    i: int,
    fid: u64,
    uses: Map<Seq<char>, Seq<char>>,
    name: Seq<char>,
    pars: Seq<Seq<char>>,
) -> Parsed<Seq<Expr>> {
    let a = lex_token(s, i, ":");
    let k = skip_trivia(s, a.next());
    if a is Fail {
        a.fail()
    } else if byte_at(s, k, 0x28) {
        let b = lex_token(s, k, "(");
        let c = lex_text(s, b.next(), name);
        let d = lex_names(s, c.next(), pars);
        let r = result_terms(s, skip_trivia(s, d.next()), fid, uses, Seq::empty());
        let e = lex_token(s, r.next(), ")");
        if b is Fail {
            b.fail()
        } else if c is Fail {
            c.fail()
        } else if d is Fail {
            d.fail()
        } else if r is Fail {
            r
        } else if e is Fail {
            e.fail()
        } else {
            Parsed::Done { value: r->value, next: e.next() }
        }
    } else {
        let c = lex_text(s, k, name);
        if c is Fail {
            c.fail()
        } else {
            Parsed::Done { value: Seq::empty(), next: c.next() }
        }
    }
}

/// The constructors from offset `i` on, each `| <name> (<field>: <term>)*`
/// with an optional result, added to `acc`. Trivia after each constructor
/// is skipped.
pub open spec fn ctrs_decls(
    s: Seq<u8>,
    i: int,
    fid: u64,
    uses: Map<Seq<char>, Seq<char>>,
    name: Seq<char>,
    pars: Seq<Seq<char>>,
    acc: Seq<CtrExpr>,
) -> Parsed<Seq<CtrExpr>>
    decreases s.len() - i,
{
    if byte_at(s, i, 0x7C) {
        let a = lex_token(s, i, "|");
        let n = lex_name(s, a.next());
        let f = typed_args(s, skip_trivia(s, n.next()), fid, uses, Seq::empty());
        let m = f.next();
        let has_result = byte_at(s, m, 0x3A);
        let r = ctr_result(s, m, fid, uses, name, pars);
        let end = if has_result {
            skip_trivia(s, r.next())
        } else {
            m
        };
        if a is Fail {
            a.fail()
        } else if n is Fail {
            n.fail()
        } else if f is Fail {
            f.fail()
        } else if has_result && r is Fail {
            r.fail()
        } else if i < end <= s.len() {
            ctrs_decls(
                s,
                end,
                fid,
                uses,
                name,
                pars,
                acc.push(
                    CtrExpr {
                        name: n->value,
                        flds: f->value,
                        idxs: if has_result {
                            r->value
                        } else {
                            Seq::empty()
                        },
                    },
                ),
            )
        } else {
            Parsed::Fail { at: end, expected: "|"@, info: None }
        }
    } else {
        Parsed::Done { value: acc, next: i }
    }
}

/// An inductive-type declaration at offset `i`:
///
/// ```text
/// data <name> <par>* (<index>: <term>)* ( | <ctr> (<field>: <term>)* [: <result>] )*
/// <result> ::= <name> | ( <name> <par>* <term>* )
/// ```
///
/// The type's name goes through the alias table.
pub open spec fn data_decl(s: Seq<u8>, i: int, fid: u64, uses: Map<Seq<char>, Seq<char>>) -> Parsed<
    AdtExpr,
> {
    let a = lex_token(s, i, "data ");
    let n = lex_name(s, a.next());
    let name = resolve(uses, n->value);
    let p = bare_args(s, skip_trivia(s, n.next()), Seq::empty());
    let pars = binder_names(p->value);
    let x = typed_args(s, p.next(), fid, uses, Seq::empty());
    let c = ctrs_decls(s, skip_trivia(s, x.next()), fid, uses, name, pars, Seq::empty());
    if a is Fail {
        a.fail()
    } else if n is Fail {
        n.fail()
    } else if p is Fail {
        p.fail()
    } else if x is Fail {
        x.fail()
    } else if c is Fail {
        c.fail()
    } else {
        Parsed::Done { value: AdtExpr { name, pars, idxs: x->value, ctrs: c->value }, next: c.next() }
    }
}

/// The definition that an inductive-type declaration makes: under the
/// type's name, its encoding as a value, annotated with its type, and
/// trusted as written.
pub open spec fn def_data(s: Seq<u8>, i: int, fid: u64, uses: Map<Seq<char>, Seq<char>>) -> Parsed<
    (Seq<char>, Expr),
> {
    match data_decl(s, i, fid, uses) {
        Parsed::Fail { at, expected, info } => Parsed::Fail { at, expected, info },
        Parsed::Done { value, next } => Parsed::Done {
            value: (
                value.name,
                Expr::Ann {
                    chk: false,
                    val: Box::new(adt_value(value)),
                    typ: Box::new(adt_type(value)),
                },
            ),
            next,
        },
    }
}

/// A top-level definition at offset `i`: an inductive-type declaration when
/// `data ` stands there, an ordinary definition otherwise.
pub open spec fn definition(s: Seq<u8>, i: int, fid: u64, uses: Map<Seq<char>, Seq<char>>) -> Parsed<
    (Seq<char>, Expr),
> {
    if starts_with(s, i, "data ".spec_bytes()) {
        def_data(s, i, fid, uses)
    } else {
        def_plain(s, i, fid, uses)
    }
}

/// The definitions from offset `i` to the end of the input, each inserted
/// into `acc` under its name, a later one replacing an earlier one of the
/// same name. Trivia after each definition is skipped.
pub open spec fn book_defs(
    s: Seq<u8>,
    i: int,
    fid: u64,
    uses: Map<Seq<char>, Seq<char>>,
    acc: Map<Seq<char>, Expr>,
) -> Parsed<Map<Seq<char>, Expr>>
    decreases s.len() - i,
{
    if 0 <= i < s.len() {
        let d = definition(s, i, fid, uses);
        let k = skip_trivia(s, d.next());
        if d is Fail {
            d.fail()
        } else if i < k <= s.len() {
            book_defs(s, k, fid, uses, acc.insert(d->value.0, d->value.1))
        } else {
            Parsed::Fail { at: k, expected: "definition"@, info: None }
        }
    } else {
        Parsed::Done { value: acc, next: i }
    }
}

/// The book of the file called `name`: its alias table, to which the alias
/// from the last segment of `name` to `name` itself is added, then its
/// definitions.
pub open spec fn book(s: Seq<u8>, i: int, name: Seq<char>, fid: u64) -> Parsed<
    Map<Seq<char>, Expr>,
> {
    let u = uses_section(s, i);
    if u is Fail {
        u.fail()
    } else {
        book_defs(s, u.next(), fid, u->value.insert(last_segment(name), name), Map::empty())
    }
}

/// The definitions from offset `i` to the end of the input, in source
/// order, added to `acc`. Trivia after each definition is skipped. Names
/// play no part: a name that is defined again is one more item of the list.
pub open spec fn file_defs(
    s: Seq<u8>,
    i: int,
    fid: u64,
    uses: Map<Seq<char>, Seq<char>>,
    acc: Seq<(Seq<char>, Expr)>,
) -> Parsed<Seq<(Seq<char>, Expr)>>
    decreases s.len() - i,
{
    if 0 <= i < s.len() {
        let d = definition(s, i, fid, uses);
        let k = skip_trivia(s, d.next());
        if d is Fail {
            d.fail()
        } else if i < k <= s.len() {
            file_defs(s, k, fid, uses, acc.push(d->value))
        } else {
            Parsed::Fail { at: k, expected: "definition"@, info: None }
        }
    } else {
        Parsed::Done { value: acc, next: i }
    }
}

/// The definitions of the file called `name`, in source order, read with
/// the file's alias table.
pub open spec fn book_source(s: Seq<u8>, i: int, name: Seq<char>, fid: u64) -> Parsed<
    Seq<(Seq<char>, Expr)>,
> {
    let u = uses_section(s, i);
    if u is Fail {
        u.fail()
    } else {
        file_defs(s, u.next(), fid, u->value.insert(last_segment(name), name), Seq::empty())
    }
}

/// The map that a list of definitions makes when each is inserted in turn.
pub open spec fn collected(defs: Seq<(Seq<char>, Expr)>) -> Map<Seq<char>, Expr>
    decreases defs.len(),
{
    if defs.len() == 0 {
        Map::empty()
    } else {
        collected(defs.drop_last()).insert(defs.last().0, defs.last().1)
    }
}

/// True when some definition of the list carries the name.
pub open spec fn defines(defs: Seq<(Seq<char>, Expr)>, name: Seq<char>) -> bool {
    exists|k: int| 0 <= k < defs.len() && (#[trigger] defs[k]).0 == name
}

/// True when the definition at `k` is the last of its name in the list.
pub open spec fn last_of_its_name(defs: Seq<(Seq<char>, Expr)>, k: int) -> bool {
    &&& 0 <= k < defs.len()
    &&& forall|j: int| k < j < defs.len() ==> (#[trigger] defs[j]).0 != defs[k].0
}

/// The result of a rule that lists definitions, with the list made into a
/// map.
pub open spec fn collected_result(listed: Parsed<Seq<(Seq<char>, Expr)>>) -> Parsed<
    Map<Seq<char>, Expr>,
> {
    match listed {
        Parsed::Done { value, next } => Parsed::Done { value: collected(value), next },
        Parsed::Fail { at, expected, info } => Parsed::Fail { at, expected, info },
    }
}

/// A collected list defines exactly the names that occur in it.
pub proof fn lemma_collected_names(defs: Seq<(Seq<char>, Expr)>)
    ensures
        forall|name: Seq<char>| collected(defs).contains_key(name) <==> defines(defs, name),
    decreases defs.len(),
{
    if defs.len() > 0 {
        let front = defs.drop_last();
        lemma_collected_names(front);
        assert forall|name: Seq<char>| collected(defs).contains_key(name) <==> defines(
            defs,
            name,
        ) by {
            if defines(defs, name) {
                let k = choose|k: int| 0 <= k < defs.len() && (#[trigger] defs[k]).0 == name;
                if k < defs.len() - 1 {
                    assert(front[k].0 == name);
                    assert(defines(front, name));
                }
            }
            if collected(defs).contains_key(name) {
                if name == defs.last().0 {
                    assert(defs[defs.len() - 1].0 == name);
                } else {
                    assert(collected(front).contains_key(name));
                    assert(defines(front, name));
                    let k = choose|k: int| 0 <= k < front.len() && (#[trigger] front[k]).0 == name;
                    assert(defs[k].0 == name);
                }
            }
        }
    }
}

/// The last definition of a name is the one that stays.
pub proof fn lemma_collected_last_wins(defs: Seq<(Seq<char>, Expr)>, k: int)
    requires
        last_of_its_name(defs, k),
    ensures
        collected(defs).contains_key(defs[k].0),
        collected(defs)[defs[k].0] == defs[k].1,
    decreases defs.len(),
{
    if k < defs.len() - 1 {
        let front = defs.drop_last();
        assert(defs[defs.len() - 1].0 != defs[k].0);
        assert(last_of_its_name(front, k)) by {
            assert forall|j: int| k < j < front.len() implies (#[trigger] front[j]).0
                != front[k].0 by {
                assert(defs[j].0 != defs[k].0);
            }
        }
        lemma_collected_last_wins(front, k);
    }
}

/// Inserting the definitions one by one into a map is collecting their
/// list.
pub proof fn lemma_book_defs_collects(
    s: Seq<u8>,
    i: int,
    fid: u64,
    uses: Map<Seq<char>, Seq<char>>,
    acc: Seq<(Seq<char>, Expr)>,
)
    ensures
        book_defs(s, i, fid, uses, collected(acc)) == collected_result(
            file_defs(s, i, fid, uses, acc),
        ),
    decreases s.len() - i,
{
    if 0 <= i < s.len() {
        let d = definition(s, i, fid, uses);
        let k = skip_trivia(s, d.next());
        if d is Done && i < k <= s.len() {
            let longer = acc.push(d->value);
            assert(longer.drop_last() =~= acc);
            assert(collected(longer) == collected(acc).insert(d->value.0, d->value.1));
            lemma_book_defs_collects(s, k, fid, uses, longer);
        }
    }
}

/// Book overwrite, over a whole file. The book of a file is its list of
/// definitions collected into a map, and it fails exactly where listing the
/// definitions fails, so never on account of a name that is defined again.
/// The book defines exactly the names that occur in the list, and each
/// name stands for the last definition that carries it.
pub proof fn lemma_book_last_definition_wins(s: Seq<u8>, i: int, name: Seq<char>, fid: u64)
    ensures
        book(s, i, name, fid) == collected_result(book_source(s, i, name, fid)),
        book_source(s, i, name, fid) is Done ==> {
            let defs = book_source(s, i, name, fid)->value;
            let made = book(s, i, name, fid)->value;
            &&& book(s, i, name, fid) is Done
            &&& forall|n: Seq<char>| made.contains_key(n) <==> defines(defs, n)
            &&& forall|k: int| #[trigger]
                last_of_its_name(defs, k) ==> made.contains_key(defs[k].0) && made[defs[k].0]
                    == defs[k].1
        },
{
    let u = uses_section(s, i);
    if u is Done {
        let table = u->value.insert(last_segment(name), name);
        assert(collected(Seq::<(Seq<char>, Expr)>::empty()) == Map::<Seq<char>, Expr>::empty());
        lemma_book_defs_collects(s, u.next(), fid, table, Seq::empty());
    }
    if book_source(s, i, name, fid) is Done {
        let defs = book_source(s, i, name, fid)->value;
        lemma_collected_names(defs);
        assert forall|k: int| #[trigger] last_of_its_name(defs, k) implies collected(
            defs,
        ).contains_key(defs[k].0) && collected(defs)[defs[k].0] == defs[k].1 by {
            lemma_collected_last_wins(defs, k);
        }
    }
}

/// True when a parser that fills an alias table ended as the grammar rule
/// says: with the table the rule gives, or with its failure.
pub open spec fn uses_outcome(
    res: Result<(), ParseError>,
    index: int,
    table: Map<Seq<char>, Seq<char>>,
    rule: Parsed<Map<Seq<char>, Seq<char>>>,
    text: Seq<char>,
) -> bool {
    match rule {
        Parsed::Done { value, next } => res is Ok && table == value && index == next,
        Parsed::Fail { at, expected, info } => res is Err && index == at && res->Err_0.reports(
            at,
            expected,
            info,
            text,
        ),
    }
}

/// The part of a dotted name after its last dot.
pub fn last_part(name: &str) -> (res: String)
    ensures
        res@ == last_segment(name@),
{
    let total = name.unicode_len();
    let mut part = String::new();
    let mut i: usize = 0;
    assert(name@.take(0) =~= Seq::empty());
    while i < total
        invariant
            i <= total,
            total == name@.len(),
            part@ == last_segment(name@.take(i as int)),
        decreases total - i,
    {
        let c = name.get_char(i);
        proof {
            assert(name@.take(i + 1).drop_last() =~= name@.take(i as int));
            assert(name@.take(i + 1).last() == c);
        }
        if c == '.' {
            part = String::new();
        } else {
            push_char(&mut part, c);
        }
        i += 1;
    }
    assert(name@.take(total as int) =~= name@);
    part
}

impl<'i> KindParser<'i> {
    /// Reads one `use` target, with `nam` as the path read so far, and
    /// registers its aliases in `uses`. When reading fails, `uses` keeps
    /// the aliases registered up to the failure.
    pub fn parse_use(&mut self, fid: u64, nam: String, uses: &mut im::HashMap<String, String>) -> (res:
        Result<(), ParseError>)
        requires
            old(self).wf(),
        ensures
            final(self).wf(),
            old(self).same_input(final(self)),
            uses_outcome(
                res,
                final(self).pos(),
                aliases_of(*final(uses)),
                use_decl(old(self).bytes(), old(self).pos(), nam@, aliases_of(*old(uses))),
                old(self).text(),
            ),
            old(self).pos() <= final(self).pos(),
            res is Ok ==> old(self).pos() < final(self).pos(),
        decreases old(self).bytes().len() - old(self).pos(),
    {
        proof {
            reveal_strlit("{");
            reveal_strlit(",");
        }
        let ghost s = self.bytes();
        let ghost start = self.pos();
        let ghost table = aliases_of(*uses);
        let add = self.parse_name()?;
        self.skip_trivia();
        let path = nam.concat(add.as_str());
        if self.peek_one() == Some(0x7Bu8) {
            self.consume("{")?;
            self.skip_trivia();
            loop
                invariant
                    self.wf(),
                    old(self).same_input(self),
                    self.bytes() == s,
                    old(self).bytes() == s,
                    old(self).pos() == start,
                    start < self.pos(),
                    table == aliases_of(*old(uses)),
                    use_decl(s, start, nam@, table) == use_items(
                        s,
                        self.pos(),
                        path@,
                        aliases_of(*uses),
                    ),
                decreases s.len() - self.pos(),
            {
                self.parse_use(fid, path.clone(), uses)?;
                self.skip_trivia();
                let next = self.peek_one();
                if next == Some(0x2Cu8) {
                    self.consume(",")?;
                } else if next == Some(0x7Du8) {
                    self.consume("}")?;
                    return Ok(());
                } else {
                    return self.expected("comma (`,`) or semicolon (`;`)");
                }
            }
        } else {
            let key = last_part(path.as_str());
            uses_insert(uses, key, path);
            Ok(())
        }
    }

    /// Reads the `use` declarations at the top of a file into a fresh alias
    /// table.
    pub fn parse_uses(&mut self, fid: u64) -> (res: Result<im::HashMap<String, String>, ParseError>)
        requires
            old(self).wf(),
        ensures
            final(self).wf(),
            old(self).same_input(final(self)),
            match uses_section(old(self).bytes(), old(self).pos()) {
                Parsed::Done { value, next } => res is Ok && aliases_of(res->Ok_0) == value
                    && final(self).pos() == next,
                Parsed::Fail { at, expected, info } => res is Err && final(self).pos() == at
                    && res->Err_0.reports(at, expected, info, old(self).text()),
            },
            old(self).pos() <= final(self).pos(),
    {
        proof {
            reveal_strlit("use");
        }
        let ghost s = self.bytes();
        let mut uses = uses_new();
        assert(aliases_of(uses) =~= Map::<Seq<char>, Seq<char>>::empty());
        self.skip_trivia();
        let ghost first = self.pos();
        while self.starts_with("use ")
            invariant
                self.wf(),
                old(self).same_input(self),
                self.bytes() == s,
                old(self).bytes() == s,
                old(self).pos() <= first <= self.pos(),
                uses_section(s, old(self).pos()) == uses_decls(s, self.pos(), aliases_of(uses)),
            decreases s.len() - self.pos(),
        {
            self.consume("use")?;
            match self.parse_use(fid, String::new(), &mut uses) {
                Err(e) => {
                    return Err(e);
                },
                Ok(()) => {},
            }
            self.skip_trivia();
        }
        Ok(uses)
    }

    /// Reads a run of bare names, each starting with a letter.
    pub fn parse_bare_names(&mut self) -> (res: Result<Vec<String>, ParseError>)
        requires
            old(self).wf(),
        ensures
            final(self).wf(),
            old(self).same_input(final(self)),
            outcome_by(
                res,
                final(self).pos(),
                bare_args(old(self).bytes(), old(self).pos(), Seq::empty()),
                old(self).text(),
                |names: Vec<String>| typed_at(names_view(names@), Expr::Met),
            ),
            old(self).pos() <= final(self).pos(),
    {
        let ghost s = self.bytes();
        let mut names: Vec<String> = Vec::new();
        assert(typed_at(names_view(names@), Expr::Met) =~= Seq::empty());
        loop
            invariant
                self.wf(),
                old(self).same_input(self),
                self.bytes() == s,
                old(self).bytes() == s,
                old(self).pos() <= self.pos(),
                bare_args(s, old(self).pos(), Seq::empty()) == bare_args(
                    s,
                    self.pos(),
                    typed_at(names_view(names@), Expr::Met),
                ),
            ensures
                self.wf(),
                old(self).same_input(self),
                old(self).pos() <= self.pos(),
                bare_args(s, old(self).pos(), Seq::empty()) == (Parsed::Done {
                    value: typed_at(names_view(names@), Expr::Met),
                    next: self.pos(),
                }),
            decreases s.len() - self.pos(),
        {
            let letter = match self.peek_one() {
                Some(b) => (0x41 <= b && b <= 0x5A) || (0x61 <= b && b <= 0x7A),
                None => false,
            };
            if !letter {
                break ;
            }
            let name = match self.parse_name() {
                Ok(name) => name,
                Err(e) => {
                    return Err(e);
                },
            };
            self.skip_trivia();
            let ghost before = typed_at(names_view(names@), Expr::Met);
            let ghost added = name@;
            names.push(name);
            assert(typed_at(names_view(names@), Expr::Met) =~= before.push((added, Expr::Met)));
        }
        Ok(names)
    }

    /// Reads a run of typed binders `(<name>: <term>)`.
    pub fn parse_typed_binders(&mut self, fid: u64, uses: &im::HashMap<String, String>) -> (res:
        Result<Vec<(String, Term)>, ParseError>)
        requires
            old(self).wf(),
        ensures
            final(self).wf(),
            old(self).same_input(final(self)),
            outcome_by(
                res,
                final(self).pos(),
                typed_args(
                    old(self).bytes(),
                    old(self).pos(),
                    fid,
                    aliases_of(*uses),
                    Seq::empty(),
                ),
                old(self).text(),
                |binders: Vec<(String, Term)>| cases_view(binders@),
            ),
            old(self).pos() <= final(self).pos(),
    {
        let ghost s = self.bytes();
        let ghost table = aliases_of(*uses);
        let mut binders: Vec<(String, Term)> = Vec::new();
        assert(cases_view(binders@) =~= Seq::empty());
        loop
            invariant
                self.wf(),
                old(self).same_input(self),
                self.bytes() == s,
                old(self).bytes() == s,
                table == aliases_of(*uses),
                old(self).pos() <= self.pos(),
                typed_args(s, old(self).pos(), fid, table, Seq::empty()) == typed_args(
                    s,
                    self.pos(),
                    fid,
                    table,
                    cases_view(binders@),
                ),
            ensures
                self.wf(),
                old(self).same_input(self),
                old(self).pos() <= self.pos(),
                typed_args(s, old(self).pos(), fid, table, Seq::empty()) == (Parsed::Done {
                    value: cases_view(binders@),
                    next: self.pos(),
                }),
            decreases s.len() - self.pos(),
        {
            if self.peek_one() != Some(0x28u8) {
                break ;
            }
            proof {
                reveal_strlit("(");
            }
            match self.consume("(") {
                Ok(()) => {},
                Err(e) => {
                    return Err(e);
                },
            }
            let name = match self.parse_name() {
                Ok(n) => n,
                Err(e) => {
                    return Err(e);
                },
            };
            match self.consume(":") {
                Ok(()) => {},
                Err(e) => {
                    return Err(e);
                },
            }
            let typ = match self.parse_term(fid, uses) {
                Ok(t) => t,
                Err(e) => {
                    return Err(e);
                },
            };
            match self.consume(")") {
                Ok(()) => {},
                Err(e) => {
                    return Err(e);
                },
            }
            self.skip_trivia();
            let ghost before = cases_view(binders@);
            let ghost added = (name@, typ@);
            binders.push((name, typ));
            assert(cases_view(binders@) =~= before.push(added));
        }
        Ok(binders)
    }

    /// Reads what a constructor constructs: the index terms of its result.
    pub fn parse_ctr_result(
        &mut self,
        fid: u64,
        uses: &im::HashMap<String, String>,
        name: &String,
        pars: &Vec<String>,
    ) -> (res: Result<Vec<Term>, ParseError>)
        requires
            old(self).wf(),
        ensures
            final(self).wf(),
            old(self).same_input(final(self)),
            outcome_by(
                res,
                final(self).pos(),
                ctr_result(
                    old(self).bytes(),
                    old(self).pos(),
                    fid,
                    aliases_of(*uses),
                    name@,
                    names_view(pars@),
                ),
                old(self).text(),
                |terms: Vec<Term>| terms_view(terms@),
            ),
            old(self).pos() <= final(self).pos(),
    {
        let ghost s = self.bytes();
        let ghost start = self.pos();
        let ghost table = aliases_of(*uses);
        let mut terms: Vec<Term> = Vec::new();
        assert(terms_view(terms@) =~= Seq::empty());
        self.consume(":")?;
        self.skip_trivia();
        if self.peek_one() == Some(0x28u8) {
            self.consume("(")?;
            self.consume(name.as_str())?;
            let ghost after_name = self.pos();
            let mut k: usize = 0;
            assert(names_view(pars@).skip(0) =~= names_view(pars@));
            while k < pars.len()
                invariant
                    self.wf(),
                    old(self).same_input(self),
                    self.bytes() == s,
                    old(self).bytes() == s,
                    old(self).pos() == start,
                    table == aliases_of(*uses),
                    start <= self.pos(),
                    k <= pars.len(),
                    terms@.len() == 0,
                    lex_token(s, start, ":") is Done,
                    byte_at(s, skip_trivia(s, lex_token(s, start, ":").next()), 0x28),
                    lex_token(s, skip_trivia(s, lex_token(s, start, ":").next()), "(") is Done,
                    lex_text(
                        s,
                        lex_token(s, skip_trivia(s, lex_token(s, start, ":").next()), "(").next(),
                        name@,
                    ) == (Parsed::Done { value: (), next: after_name }),
                    lex_names(s, after_name, names_view(pars@)) == lex_names(
                        s,
                        self.pos(),
                        names_view(pars@).skip(k as int),
                    ),
                decreases pars.len() - k,
            {
                proof {
                    assert(names_view(pars@).skip(k as int).skip(1) =~= names_view(pars@).skip(
                        k + 1,
                    ));
                }
                match self.consume(pars[k].as_str()) {
                    Ok(()) => {},
                    Err(e) => {
                        return Err(e);
                    },
                }
                k += 1;
            }
            let ghost after_pars = self.pos();
            self.skip_trivia();
            let ghost first = self.pos();
            loop
                invariant
                    self.wf(),
                    old(self).same_input(self),
                    self.bytes() == s,
                    old(self).bytes() == s,
                    old(self).pos() == start,
                    table == aliases_of(*uses),
                    start <= self.pos(),
                    lex_token(s, start, ":") is Done,
                    byte_at(s, skip_trivia(s, lex_token(s, start, ":").next()), 0x28),
                    lex_token(s, skip_trivia(s, lex_token(s, start, ":").next()), "(") is Done,
                    lex_text(
                        s,
                        lex_token(s, skip_trivia(s, lex_token(s, start, ":").next()), "(").next(),
                        name@,
                    ) == (Parsed::Done { value: (), next: after_name }),
                    lex_names(s, after_name, names_view(pars@)) == (Parsed::Done {
                        value: (),
                        next: after_pars,
                    }),
                    first == skip_trivia(s, after_pars),
                    result_terms(s, first, fid, table, Seq::empty()) == result_terms(
                        s,
                        self.pos(),
                        fid,
                        table,
                        terms_view(terms@),
                    ),
                ensures
                    self.wf(),
                    old(self).same_input(self),
                    start <= self.pos(),
                    result_terms(s, first, fid, table, Seq::empty()) == (Parsed::Done {
                        value: terms_view(terms@),
                        next: self.pos(),
                    }),
                decreases s.len() - self.pos(),
            {
                if self.peek_one() == Some(0x29u8) {
                    break ;
                }
                let index = match self.parse_term(fid, uses) {
                    Ok(t) => t,
                    Err(e) => {
                        return Err(e);
                    },
                };
                self.skip_trivia();
                let ghost before = terms_view(terms@);
                let ghost added = index@;
                terms.push(index);
                assert(terms_view(terms@) =~= before.push(added));
            }
            self.consume(")")?;
            Ok(terms)
        } else {
            self.consume(name.as_str())?;
            Ok(terms)
        }
    }

    /// Reads an inductive-type declaration of file `fid`.
    pub fn parse_adt(&mut self, fid: u64, uses: &im::HashMap<String, String>) -> (res: Result<
        ADT,
        ParseError,
    >)
        requires
            old(self).wf(),
        ensures
            final(self).wf(),
            old(self).same_input(final(self)),
            outcome(
                res,
                final(self).pos(),
                data_decl(old(self).bytes(), old(self).pos(), fid, aliases_of(*uses)),
                old(self).text(),
            ),
            old(self).pos() <= final(self).pos(),
            res is Ok ==> old(self).pos() < final(self).pos(),
    {
        proof {
            reveal_strlit("data ");
            reveal_strlit("|");
        }
        let ghost s = self.bytes();
        let ghost start = self.pos();
        let ghost table = aliases_of(*uses);
        self.consume("data ")?;
        let name = self.parse_name()?;
        let name = match uses_get(uses, &name) {
            Some(full) => full.clone(),
            None => name,
        };
        self.skip_trivia();
        let pars = self.parse_bare_names()?;
        assert(names_view(pars@) =~= binder_names(typed_at(names_view(pars@), Expr::Met)));
        let idxs = self.parse_typed_binders(fid, uses)?;
        self.skip_trivia();
        let ghost first = self.pos();
        let mut ctrs: Vec<Constructor> = Vec::new();
        assert(ctrs_view(ctrs@) =~= Seq::empty());
        loop
            invariant
                self.wf(),
                old(self).same_input(self),
                self.bytes() == s,
                old(self).bytes() == s,
                old(self).pos() == start,
                table == aliases_of(*uses),
                start < self.pos(),
                data_decl(s, start, fid, table) == match ctrs_decls(
                    s,
                    self.pos(),
                    fid,
                    table,
                    name@,
                    names_view(pars@),
                    ctrs_view(ctrs@),
                ) {
                    Parsed::Fail { at, expected, info } => Parsed::Fail { at, expected, info },
                    Parsed::Done { value, next } => Parsed::Done {
                        value: AdtExpr {
                            name: name@,
                            pars: names_view(pars@),
                            idxs: cases_view(idxs@),
                            ctrs: value,
                        },
                        next,
                    },
                },
            ensures
                self.wf(),
                old(self).same_input(self),
                start < self.pos(),
                data_decl(s, start, fid, table) == (Parsed::Done {
                    value: AdtExpr {
                        name: name@,
                        pars: names_view(pars@),
                        idxs: cases_view(idxs@),
                        ctrs: ctrs_view(ctrs@),
                    },
                    next: self.pos(),
                }),
            decreases s.len() - self.pos(),
        {
            if self.peek_one() != Some(0x7Cu8) {
                break ;
            }
            match self.consume("|") {
                Ok(()) => {},
                Err(e) => {
                    return Err(e);
                },
            }
            let ctr_name = match self.parse_name() {
                Ok(n) => n,
                Err(e) => {
                    return Err(e);
                },
            };
            self.skip_trivia();
            let flds = match self.parse_typed_binders(fid, uses) {
                Ok(f) => f,
                Err(e) => {
                    return Err(e);
                },
            };
            let mut indices: Vec<Term> = Vec::new();
            assert(terms_view(indices@) =~= Seq::empty());
            if self.peek_one() == Some(0x3Au8) {
                indices = match self.parse_ctr_result(fid, uses, &name, &pars) {
                    Ok(r) => r,
                    Err(e) => {
                        return Err(e);
                    },
                };
                self.skip_trivia();
            }
            let ghost before = ctrs_view(ctrs@);
            let ctr = Constructor { name: ctr_name, flds, idxs: indices };
            let ghost added = ctr@;
            ctrs.push(ctr);
            assert(ctrs_view(ctrs@) =~= before.push(added));
        }
        Ok(ADT { name, pars, idxs, ctrs })
    }

    /// Reads one top-level definition of file `fid`: its name, resolved
    /// through `uses`, and its annotated term.
    pub fn parse_def(&mut self, fid: u64, uses: &im::HashMap<String, String>) -> (res: Result<
        (String, Term),
        ParseError,
    >)
        requires
            old(self).wf(),
        ensures
            final(self).wf(),
            old(self).same_input(final(self)),
            outcome(
                res,
                final(self).pos(),
                definition(old(self).bytes(), old(self).pos(), fid, aliases_of(*uses)),
                old(self).text(),
            ),
            old(self).pos() <= final(self).pos(),
            res is Ok ==> old(self).pos() < final(self).pos(),
    {
        let ghost s = self.bytes();
        let ghost table = aliases_of(*uses);
        if self.starts_with("data ") {
            let adt = self.parse_adt(fid, uses)?;
            let ghost model = adt@;
            let pars = type_binders(&adt.pars);
            let typ = all_over(all_over(Term::Uni, &adt.idxs), &pars);
            let val = lam_over(lam_over(Term::new_adt(&adt), &adt.idxs), &pars);
            proof {
                lemma_wrap_alls_concat(Expr::Uni, cases_view(pars@), model.idxs);
                lemma_wrap_lams_concat(encode_adt(model), cases_view(pars@), model.idxs);
            }
            return Ok((adt.name, Term::Ann { chk: false, val: Box::new(val), typ: Box::new(typ) }));
        }
        let nam = self.parse_name()?;
        let nam = match uses_get(uses, &nam) {
            Some(full) => full.clone(),
            None => nam,
        };
        self.skip_trivia();
        let ghost after_name = self.pos();
        let mut args = args_new();
        assert(args_of(args) =~= Seq::empty());
        loop
            invariant
                self.wf(),
                old(self).same_input(self),
                self.bytes() == s,
                old(self).pos() < after_name <= self.pos(),
                old(self).bytes() == s,
                table == aliases_of(*uses),
                !starts_with(s, old(self).pos(), "data ".spec_bytes()),
                lex_name(s, old(self).pos()) is Done,
                skip_trivia(s, lex_name(s, old(self).pos()).next()) == after_name,
                bare_args(s, after_name, Seq::empty()) == bare_args(s, self.pos(), args_of(args)),
            ensures
                self.wf(),
                old(self).same_input(self),
                self.bytes() == s,
                old(self).pos() < after_name <= self.pos(),
                bare_args(s, after_name, Seq::empty()) == (Parsed::Done {
                    value: args_of(args),
                    next: self.pos(),
                }),
            decreases s.len() - self.pos(),
        {
            let letter = match self.peek_one() {
                Some(b) => (0x41 <= b && b <= 0x5A) || (0x61 <= b && b <= 0x7A),
                None => false,
            };
            if !letter {
                break ;
            }
            let par = match self.parse_name() {
                Ok(par) => par,
                Err(e) => {
                    return Err(e);
                },
            };
            self.skip_trivia();
            args_push_back(&mut args, par, Term::Met {  });
        }
        let ghost after_bare = self.pos();
        let ghost bare = args_of(args);
        loop
            invariant
                self.wf(),
                old(self).same_input(self),
                self.bytes() == s,
                old(self).pos() < after_bare <= self.pos(),
                old(self).bytes() == s,
                !starts_with(s, old(self).pos(), "data ".spec_bytes()),
                lex_name(s, old(self).pos()) is Done,
                skip_trivia(s, lex_name(s, old(self).pos()).next()) == after_name,
                bare_args(s, after_name, Seq::empty()) == (Parsed::Done {
                    value: bare,
                    next: after_bare,
                }),
                typed_args(s, after_bare, fid, table, bare) == typed_args(
                    s,
                    self.pos(),
                    fid,
                    table,
                    args_of(args),
                ),
                table == aliases_of(*uses),
            ensures
                self.wf(),
                old(self).same_input(self),
                self.bytes() == s,
                old(self).pos() < after_bare <= self.pos(),
                typed_args(s, after_bare, fid, table, bare) == (Parsed::Done {
                    value: args_of(args),
                    next: self.pos(),
                }),
            decreases s.len() - self.pos(),
        {
            if self.peek_one() != Some(0x28u8) {
                break ;
            }
            proof {
                reveal_strlit("(");
            }
            match self.consume("(") {
                Ok(()) => {},
                Err(e) => {
                    return Err(e);
                },
            }
            let arg_name = match self.parse_name() {
                Ok(n) => n,
                Err(e) => {
                    return Err(e);
                },
            };
            match self.consume(":") {
                Ok(()) => {},
                Err(e) => {
                    return Err(e);
                },
            }
            let arg_type = match self.parse_term(fid, uses) {
                Ok(t) => t,
                Err(e) => {
                    return Err(e);
                },
            };
            match self.consume(")") {
                Ok(()) => {},
                Err(e) => {
                    return Err(e);
                },
            }
            args_push_back(&mut args, arg_name, arg_type);
            self.skip_trivia();
        }
        let mut typ;
        let ann;
        if self.peek_one() == Some(0x3Au8) {
            self.consume(":")?;
            typ = self.parse_term(fid, uses)?;
            ann = true;
        } else {
            typ = Term::Met {  };
            ann = false;
        }
        self.consume("=")?;
        let mut val = self.parse_term(fid, uses)?;
        typ.add_alls(args_clone(&args));
        val.add_lams(args_clone(&args));
        typ.desugar();
        val.desugar();
        Ok((nam, Term::Ann { chk: !ann, val: Box::new(val), typ: Box::new(typ) }))
    }

    /// Parses the whole file called `name`, of identifier `fid`, into a
    /// book.
    pub fn parse_book(&mut self, name: &str, fid: u64) -> (res: Result<Book, ParseError>)
        requires
            old(self).wf(),
        ensures
            final(self).wf(),
            old(self).same_input(final(self)),
            outcome(
                res,
                final(self).pos(),
                book(old(self).bytes(), old(self).pos(), name@, fid),
                old(self).text(),
            ),
            res is Ok ==> res->Ok_0.wf(),
            res is Ok ==> res->Ok_0@.dom().finite(),
            res is Ok ==> res->Ok_0.entries().len() == res->Ok_0@.dom().len(),
    {
        let ghost s = self.bytes();
        let mut book = Book::new();
        let mut uses = self.parse_uses(fid)?;
        uses_insert(&mut uses, last_part(name), name.to_owned());
        let ghost table = aliases_of(uses);
        let ghost first = self.pos();
        while !self.is_eof()
            invariant
                self.wf(),
                old(self).same_input(self),
                self.bytes() == s,
                old(self).bytes() == s,
                book.wf(),
                table == aliases_of(uses),
                self::book(s, old(self).pos(), name@, fid) == book_defs(
                    s,
                    self.pos(),
                    fid,
                    table,
                    book@,
                ),
            decreases s.len() - self.pos(),
        {
            let (name, term) = match self.parse_def(fid, &uses) {
                Ok(def) => def,
                Err(e) => {
                    return Err(e);
                },
            };
            book.insert(name, term);
            self.skip_trivia();
        }
        proof {
            book.lemma_len_counts_names();
        }
        Ok(book)
    }
}

} // verus!
