//! The grammar of terms, and the recursive-descent parser that follows it.
//!
//! ```text
//! <term> ::=
//!   ALL | ∀(<name>: <term>) <term>
//!   LAM | λ<name> <term>
//!   APP | (<term> <term>)
//!   OP2 | (<oper> <term> <term>)
//!   ANN | {<term>: <term>}
//!   SLF | $(<name>: <term>) <term>
//!   INS | ~<term>
//!   SET | *
//!   U60 | U60
//!   NUM | <uint>
//!   SWI | switch <name> = <term> { 0: <term>; +: <term> }: <term>
//!   HOL | ?<name>
//!   MET | _
//!   CHR | '<char>'
//!   STR | "<string>"
//!   LET | let <name> = <term> <term>
//!   USE | use <name> = <term> <term>
//!   MCH | match <name> [= <term>] { <name>: <term> ... } [: <term>]
//!   VAR | <name>
//! ```
//!
//! Every term comes out under a source-span wrapper that records where it
//! stood. A variable's name goes through the alias table.
//!
//! The rules are functions from the input bytes and an offset to a value
//! and the offset after it. A rule that nests or repeats compares offsets
//! before it goes on: every rule reads at least one byte before it nests
//! or repeats, so the comparison always holds where a rule reaches it, and
//! it is what makes the recursion well-founded.

use vstd::prelude::*;
use vstd::string::StringSliceAdditionalSpecFns;
use crate::lexer::{
    byte_at, lex_name, lex_token, outcome, outcome_by, skip_trivia, starts_with, KindParser,
    ParseError, Parsed,
};
use crate::literals::{lex_quoted_char, lex_quoted_string, lex_u64};
use crate::persistent::{aliases_of, uses_get};
use crate::span::Src;
use crate::term::{cases_view, Expr, Match, Oper, Term};

verus! {

/// The qualified name that the alias table gives for `nam`, or `nam` itself
/// when the table has no entry for it.
pub open spec fn resolve(uses: Map<Seq<char>, Seq<char>>, nam: Seq<char>) -> Seq<char> {
    if uses.contains_key(nam) {
        uses[nam]
    } else {
        nam
    }
}

/// A byte that an operator can start with.
pub open spec fn is_oper_start(b: u8) -> bool {
    b == 0x2B || b == 0x2D || b == 0x2A || b == 0x2F || b == 0x25 || b == 0x3D || b == 0x21 || b
        == 0x3C || b == 0x3E || b == 0x26 || b == 0x7C || b == 0x5E
}

/// A binary operator at offset `k`: one of `+ - * / % == != < > <= >= & | ^
/// << >>`, the longest that fits.
pub open spec fn lex_oper(s: Seq<u8>, k: int) -> Parsed<Oper> {
    if byte_at(s, k, 0x2B) {
        Parsed::Done { value: Oper::Add, next: k + 1 }
    } else if byte_at(s, k, 0x2D) {
        Parsed::Done { value: Oper::Sub, next: k + 1 }
    } else if byte_at(s, k, 0x2A) {
        Parsed::Done { value: Oper::Mul, next: k + 1 }
    } else if byte_at(s, k, 0x2F) {
        Parsed::Done { value: Oper::Div, next: k + 1 }
    } else if byte_at(s, k, 0x25) {
        Parsed::Done { value: Oper::Mod, next: k + 1 }
    } else if byte_at(s, k, 0x3D) {
        if byte_at(s, k + 1, 0x3D) {
            Parsed::Done { value: Oper::Eq, next: k + 2 }
        } else {
            Parsed::Fail { at: k, expected: "=="@, info: None }
        }
    } else if byte_at(s, k, 0x21) {
        if byte_at(s, k + 1, 0x3D) {
            Parsed::Done { value: Oper::Ne, next: k + 2 }
        } else {
            Parsed::Fail { at: k, expected: "!="@, info: None }
        }
    } else if byte_at(s, k, 0x3C) {
        if byte_at(s, k + 1, 0x3D) {
            Parsed::Done { value: Oper::Lte, next: k + 2 }
        } else if byte_at(s, k + 1, 0x3C) {
            Parsed::Done { value: Oper::Lsh, next: k + 2 }
        } else {
            Parsed::Done { value: Oper::Lt, next: k + 1 }
        }
    } else if byte_at(s, k, 0x3E) {
        if byte_at(s, k + 1, 0x3D) {
            Parsed::Done { value: Oper::Gte, next: k + 2 }
        } else if byte_at(s, k + 1, 0x3E) {
            Parsed::Done { value: Oper::Rsh, next: k + 2 }
        } else {
            Parsed::Done { value: Oper::Gt, next: k + 1 }
        }
    } else if byte_at(s, k, 0x26) {
        Parsed::Done { value: Oper::And, next: k + 1 }
    } else if byte_at(s, k, 0x7C) {
        Parsed::Done { value: Oper::Or, next: k + 1 }
    } else if byte_at(s, k, 0x5E) {
        Parsed::Done { value: Oper::Xor, next: k + 1 }
    } else {
        Parsed::Fail { at: k, expected: "operator"@, info: None }
    }
}

/// A term nested in the term that started at `from`. The nested term
/// starts at `at`, which lies after `from` whenever a rule gets this far:
/// every rule reads a token before its first nested term.
pub open spec fn sub_term(
    s: Seq<u8>,
    from: int,
    at: int,
    fid: u64,
    uses: Map<Seq<char>, Seq<char>>,
) -> Parsed<Expr>
    decreases s.len() - from, 0int,
{
    if from < at <= s.len() {
        term(s, at, fid, uses)
    } else {
        Parsed::Fail { at, expected: "term"@, info: None }
    }
}

/// `∀(<name>: <term>) <term>`
pub open spec fn form_all(
    s: Seq<u8>,
    from: int,
    j: int,
    fid: u64,
    uses: Map<Seq<char>, Seq<char>>,
) -> Parsed<Expr>
    decreases s.len() - from, 1int,
{
    let a = lex_token(s, j, "∀");
    let b = lex_token(s, a.next(), "(");
    let c = lex_name(s, b.next());
    let d = lex_token(s, c.next(), ":");
    let e = sub_term(s, from, d.next(), fid, uses);
    let f = lex_token(s, e.next(), ")");
    let g = sub_term(s, from, f.next(), fid, uses);
    if a is Fail {
        a.fail()
    } else if b is Fail {
        b.fail()
    } else if c is Fail {
        c.fail()
    } else if d is Fail {
        d.fail()
    } else if e is Fail {
        e
    } else if f is Fail {
        f.fail()
    } else if g is Fail {
        g
    } else {
        Parsed::Done {
            value: Expr::All { nam: c->value, inp: Box::new(e->value), bod: Box::new(g->value) },
            next: g.next(),
        }
    }
}

/// `λ<name> <term>`
pub open spec fn form_lam(
    s: Seq<u8>,
    from: int,
    j: int,
    fid: u64,
    uses: Map<Seq<char>, Seq<char>>,
) -> Parsed<Expr>
    decreases s.len() - from, 1int,
{
    let a = lex_token(s, j, "λ");
    let c = lex_name(s, a.next());
    let g = sub_term(s, from, c.next(), fid, uses);
    if a is Fail {
        a.fail()
    } else if c is Fail {
        c.fail()
    } else if g is Fail {
        g
    } else {
        Parsed::Done { value: Expr::Lam { nam: c->value, bod: Box::new(g->value) }, next: g.next() }
    }
}

/// `(<oper> <term> <term>)` when an operator follows the parenthesis,
/// `(<term> <term>)` otherwise.
pub open spec fn form_paren(
    s: Seq<u8>,
    from: int,
    j: int,
    fid: u64,
    uses: Map<Seq<char>, Seq<char>>,
) -> Parsed<Expr>
    decreases s.len() - from, 1int,
{
    let a = lex_token(s, j, "(");
    let k = skip_trivia(s, a.next());
    if a is Fail {
        a.fail()
    } else if 0 <= k < s.len() && is_oper_start(s[k]) {
        let o = lex_oper(s, k);
        let x = sub_term(s, from, o.next(), fid, uses);
        let y = sub_term(s, from, x.next(), fid, uses);
        let z = lex_token(s, y.next(), ")");
        if o is Fail {
            o.fail()
        } else if x is Fail {
            x
        } else if y is Fail {
            y
        } else if z is Fail {
            z.fail()
        } else {
            Parsed::Done {
                value: Expr::Op2 { opr: o->value, fst: Box::new(x->value), snd: Box::new(y->value) },
                next: z.next(),
            }
        }
    } else {
        let x = sub_term(s, from, k, fid, uses);
        let y = sub_term(s, from, x.next(), fid, uses);
        let z = lex_token(s, y.next(), ")");
        if x is Fail {
            x
        } else if y is Fail {
            y
        } else if z is Fail {
            z.fail()
        } else {
            Parsed::Done {
                value: Expr::App { fun: Box::new(x->value), arg: Box::new(y->value) },
                next: z.next(),
            }
        }
    }
}

/// `{<term>: <term>}`: a value with the type its author gave it, which is
/// not to be derived again.
pub open spec fn form_ann(
    s: Seq<u8>,
    from: int,
    j: int,
    fid: u64,
    uses: Map<Seq<char>, Seq<char>>,
) -> Parsed<Expr>
    decreases s.len() - from, 1int,
{
    let a = lex_token(s, j, "{");
    let x = sub_term(s, from, a.next(), fid, uses);
    let b = lex_token(s, x.next(), ":");
    let y = sub_term(s, from, b.next(), fid, uses);
    let c = lex_token(s, y.next(), "}");
    if a is Fail {
        a.fail()
    } else if x is Fail {
        x
    } else if b is Fail {
        b.fail()
    } else if y is Fail {
        y
    } else if c is Fail {
        c.fail()
    } else {
        Parsed::Done {
            value: Expr::Ann { chk: false, val: Box::new(x->value), typ: Box::new(y->value) },
            next: c.next(),
        }
    }
}

/// `$(<name>: <term>) <term>`
pub open spec fn form_slf(
    s: Seq<u8>,
    from: int,
    j: int,
    fid: u64,
    uses: Map<Seq<char>, Seq<char>>,
) -> Parsed<Expr>
    decreases s.len() - from, 1int,
{
    let a = lex_token(s, j, "$(");
    let c = lex_name(s, a.next());
    let d = lex_token(s, c.next(), ":");
    let e = sub_term(s, from, d.next(), fid, uses);
    let f = lex_token(s, e.next(), ")");
    let g = sub_term(s, from, f.next(), fid, uses);
    if a is Fail {
        a.fail()
    } else if c is Fail {
        c.fail()
    } else if d is Fail {
        d.fail()
    } else if e is Fail {
        e
    } else if f is Fail {
        f.fail()
    } else if g is Fail {
        g
    } else {
        Parsed::Done {
            value: Expr::Slf { nam: c->value, typ: Box::new(e->value), bod: Box::new(g->value) },
            next: g.next(),
        }
    }
}

/// `~<term>`
pub open spec fn form_ins(
    s: Seq<u8>,
    from: int,
    j: int,
    fid: u64,
    uses: Map<Seq<char>, Seq<char>>,
) -> Parsed<Expr>
    decreases s.len() - from, 1int,
{
    let a = lex_token(s, j, "~");
    let x = sub_term(s, from, a.next(), fid, uses);
    if a is Fail {
        a.fail()
    } else if x is Fail {
        x
    } else {
        Parsed::Done { value: Expr::Ins { val: Box::new(x->value) }, next: x.next() }
    }
}

/// `switch <name> = <term> { 0: <term>; +: <term> }: <term>`
pub open spec fn form_swi(
    s: Seq<u8>,
    from: int,
    j: int,
    fid: u64,
    uses: Map<Seq<char>, Seq<char>>,
) -> Parsed<Expr>
    decreases s.len() - from, 1int,
{
    let a = lex_token(s, j, "switch ");
    let n = lex_name(s, a.next());
    let b = lex_token(s, n.next(), "=");
    let x = sub_term(s, from, b.next(), fid, uses);
    let c = lex_token(s, x.next(), "{");
    let d = lex_token(s, c.next(), "0");
    let e = lex_token(s, d.next(), ":");
    let z = sub_term(s, from, e.next(), fid, uses);
    let f = lex_token(s, z.next(), ";");
    let g = lex_token(s, f.next(), "+");
    let h = lex_token(s, g.next(), ":");
    let t = sub_term(s, from, h.next(), fid, uses);
    let k = lex_token(s, t.next(), "}");
    let l = lex_token(s, k.next(), ":");
    let p = sub_term(s, from, l.next(), fid, uses);
    if a is Fail {
        a.fail()
    } else if n is Fail {
        n.fail()
    } else if b is Fail {
        b.fail()
    } else if x is Fail {
        x
    } else if c is Fail {
        c.fail()
    } else if d is Fail {
        d.fail()
    } else if e is Fail {
        e.fail()
    } else if z is Fail {
        z
    } else if f is Fail {
        f.fail()
    } else if g is Fail {
        g.fail()
    } else if h is Fail {
        h.fail()
    } else if t is Fail {
        t
    } else if k is Fail {
        k.fail()
    } else if l is Fail {
        l.fail()
    } else if p is Fail {
        p
    } else {
        Parsed::Done {
            value: Expr::Swi {
                nam: n->value,
                x: Box::new(x->value),
                z: Box::new(z->value),
                s: Box::new(t->value),
                p: Box::new(p->value),
            },
            next: p.next(),
        }
    }
}

/// `let <name> = <term> <term>` when `recursive` is set, `use <name> =
/// <term> <term>` otherwise.
pub open spec fn form_let(
    s: Seq<u8>,
    from: int,
    j: int,
    fid: u64,
    uses: Map<Seq<char>, Seq<char>>,
    recursive: bool,
) -> Parsed<Expr>
    decreases s.len() - from, 1int,
{
    let a = if recursive {
        lex_token(s, j, "let ")
    } else {
        lex_token(s, j, "use ")
    };
    let n = lex_name(s, a.next());
    let b = lex_token(s, n.next(), "=");
    let x = sub_term(s, from, b.next(), fid, uses);
    let y = sub_term(s, from, x.next(), fid, uses);
    if a is Fail {
        a.fail()
    } else if n is Fail {
        n.fail()
    } else if b is Fail {
        b.fail()
    } else if x is Fail {
        x
    } else if y is Fail {
        y
    } else if recursive {
        Parsed::Done {
            value: Expr::Let { nam: n->value, val: Box::new(x->value), bod: Box::new(y->value) },
            next: y.next(),
        }
    } else {
        Parsed::Done {
            value: Expr::Use { nam: n->value, val: Box::new(x->value), bod: Box::new(y->value) },
            next: y.next(),
        }
    }
}

/// The cases `<name>: <term>` of a match from offset `i`, which lies after
/// trivia, up to the closing brace, added to `acc`. Trivia after each case
/// is skipped.
pub open spec fn match_cases(
    s: Seq<u8>,
    i: int,
    fid: u64,
    uses: Map<Seq<char>, Seq<char>>,
    acc: Seq<(Seq<char>, Expr)>,
) -> Parsed<Seq<(Seq<char>, Expr)>>
    decreases s.len() - i, 1int,
{
    if byte_at(s, i, 0x7D) {
        Parsed::Done { value: acc, next: i }
    } else {
        let n = lex_name(s, i);
        let c = lex_token(s, n.next(), ":");
        let t = sub_term(s, i, c.next(), fid, uses);
        let k = skip_trivia(s, t.next());
        if n is Fail {
            n.fail()
        } else if c is Fail {
            c.fail()
        } else if t is Fail {
            t.fail()
        } else if i < k <= s.len() {
            match_cases(s, k, fid, uses, acc.push((n->value, t->value)))
        } else {
            Parsed::Fail { at: k, expected: "}"@, info: None }
        }
    }
}

/// `match <name> [= <term>] { <name>: <term> ... } [: <term>]`: a match on
/// the named scrutinee, which is the variable of that name when no term is
/// given for it, with one body per constructor and an optional motive.
pub open spec fn form_mch(
    s: Seq<u8>,
    from: int,
    j: int,
    fid: u64,
    uses: Map<Seq<char>, Seq<char>>,
) -> Parsed<Expr>
    decreases s.len() - from, 1int,
{
    let a = lex_token(s, j, "match ");
    let n = lex_name(s, a.next());
    let k = skip_trivia(s, n.next());
    let has_expr = byte_at(s, k, 0x3D);
    let b = lex_token(s, k, "=");
    let x = sub_term(s, from, b.next(), fid, uses);
    let c = lex_token(
        s,
        if has_expr {
            x.next()
        } else {
            k
        },
        "{",
    );
    let at = skip_trivia(s, c.next());
    let cs = if from < at <= s.len() {
        match_cases(s, at, fid, uses, Seq::empty())
    } else {
        Parsed::Fail { at, expected: "}"@, info: None }
    };
    let d = lex_token(s, cs.next(), "}");
    let has_moti = byte_at(s, skip_trivia(s, d.next()), 0x3A);
    let e = lex_token(s, d.next(), ":");
    let p = sub_term(s, from, e.next(), fid, uses);
    if a is Fail {
        a.fail()
    } else if n is Fail {
        n.fail()
    } else if has_expr && b is Fail {
        b.fail()
    } else if has_expr && x is Fail {
        x
    } else if c is Fail {
        c.fail()
    } else if cs is Fail {
        cs.fail()
    } else if d is Fail {
        d.fail()
    } else if has_moti && e is Fail {
        e.fail()
    } else if has_moti && p is Fail {
        p
    } else {
        Parsed::Done {
            value: Expr::Mch {
                name: n->value,
                expr: Box::new(
                    if has_expr {
                        x->value
                    } else {
                        Expr::Var { nam: n->value }
                    },
                ),
                cses: cs->value,
                moti: if has_moti {
                    Some(Box::new(p->value))
                } else {
                    None
                },
            },
            next: if has_moti {
                p.next()
            } else {
                d.next()
            },
        }
    }
}

/// The forms without a nested term: `*`, `U60`, a number, `?<name>`, `_`,
/// a quoted character (which stands for its scalar value), a quoted
/// string, and a variable.
pub open spec fn form_atom(s: Seq<u8>, j: int, uses: Map<Seq<char>, Seq<char>>) -> Parsed<Expr> {
    if starts_with(s, j, "*".spec_bytes()) {
        match lex_token(s, j, "*") {
            Parsed::Done { value, next } => Parsed::Done { value: Expr::Uni, next },
            Parsed::Fail { at, expected, info } => Parsed::Fail { at, expected, info },
        }
    } else if starts_with(s, j, "U60".spec_bytes()) {
        match lex_token(s, j, "U60") {
            Parsed::Done { value, next } => Parsed::Done { value: Expr::U60, next },
            Parsed::Fail { at, expected, info } => Parsed::Fail { at, expected, info },
        }
    } else if 0 <= j < s.len() && 0x30 <= s[j] <= 0x39 {
        match lex_u64(s, j) {
            Parsed::Done { value, next } => Parsed::Done { value: Expr::Num { val: value }, next },
            Parsed::Fail { at, expected, info } => Parsed::Fail { at, expected, info },
        }
    } else if starts_with(s, j, "?".spec_bytes()) {
        let a = lex_token(s, j, "?");
        let n = lex_name(s, a.next());
        if a is Fail {
            a.fail()
        } else if n is Fail {
            n.fail()
        } else {
            Parsed::Done { value: Expr::Hol { nam: n->value }, next: n.next() }
        }
    } else if starts_with(s, j, "_".spec_bytes()) {
        match lex_token(s, j, "_") {
            Parsed::Done { value, next } => Parsed::Done { value: Expr::Met, next },
            Parsed::Fail { at, expected, info } => Parsed::Fail { at, expected, info },
        }
    } else if starts_with(s, j, "'".spec_bytes()) {
        match lex_quoted_char(s, j) {
            Parsed::Done { value, next } => Parsed::Done {
                value: Expr::Num { val: value as u64 },
                next,
            },
            Parsed::Fail { at, expected, info } => Parsed::Fail { at, expected, info },
        }
    } else if starts_with(s, j, "\"".spec_bytes()) {
        match lex_quoted_string(s, j) {
            Parsed::Done { value, next } => Parsed::Done { value: Expr::Txt { txt: value }, next },
            Parsed::Fail { at, expected, info } => Parsed::Fail { at, expected, info },
        }
    } else {
        match lex_name(s, j) {
            Parsed::Done { value, next } => Parsed::Done {
                value: Expr::Var { nam: resolve(uses, value) },
                next,
            },
            Parsed::Fail { at, expected, info } => Parsed::Fail { at, expected, info },
        }
    }
}

/// The form that stands at offset `j`, chosen by how the input goes on
/// there.
#[verifier::opaque]
pub open spec fn form(
    s: Seq<u8>,
    from: int,
    j: int,
    fid: u64,
    uses: Map<Seq<char>, Seq<char>>,
) -> Parsed<Expr>
    decreases s.len() - from, 2int,
{
    if starts_with(s, j, "∀".spec_bytes()) {
        form_all(s, from, j, fid, uses)
    } else if starts_with(s, j, "λ".spec_bytes()) {
        form_lam(s, from, j, fid, uses)
    } else if starts_with(s, j, "(".spec_bytes()) {
        form_paren(s, from, j, fid, uses)
    } else if starts_with(s, j, "{".spec_bytes()) {
        form_ann(s, from, j, fid, uses)
    } else if starts_with(s, j, "$(".spec_bytes()) {
        form_slf(s, from, j, fid, uses)
    } else if starts_with(s, j, "~".spec_bytes()) {
        form_ins(s, from, j, fid, uses)
    } else if starts_with(s, j, "switch ".spec_bytes()) {
        form_swi(s, from, j, fid, uses)
    } else if starts_with(s, j, "let ".spec_bytes()) {
        form_let(s, from, j, fid, uses, true)
    } else if starts_with(s, j, "use ".spec_bytes()) {
        form_let(s, from, j, fid, uses, false)
    } else if starts_with(s, j, "match ".spec_bytes()) {
        form_mch(s, from, j, fid, uses)
    } else {
        form_atom(s, j, uses)
    }
}

/// A term at offset `i`: trivia, then one form, under a source-span wrapper
/// for file `fid` that runs from the form's first byte to just after its
/// last.
pub open spec fn term(s: Seq<u8>, i: int, fid: u64, uses: Map<Seq<char>, Seq<char>>) -> Parsed<
    Expr,
>
    decreases s.len() - i, 3int,
{
    let j = skip_trivia(s, i);
    match form(s, i, j, fid, uses) {
        Parsed::Done { value, next } => Parsed::Done {
            value: Expr::Src {
                src: Src { ini: j as u64, end: next as u64, fid },
                val: Box::new(value),
            },
            next,
        },
        Parsed::Fail { at, expected, info } => Parsed::Fail { at, expected, info },
    }
}

/// Whether an operator can start with the byte.
pub fn is_oper_byte(b: u8) -> (res: bool)
    ensures
        res == is_oper_start(b),
{
    b == 0x2B || b == 0x2D || b == 0x2A || b == 0x2F || b == 0x25 || b == 0x3D || b == 0x21 || b
        == 0x3C || b == 0x3E || b == 0x26 || b == 0x7C || b == 0x5E
}

impl<'i> KindParser<'i> {
    /// Reads a binary operator that starts at the offset reached.
    pub fn parse_oper(&mut self) -> (res: Result<Oper, ParseError>)
        requires
            old(self).wf(),
        ensures
            final(self).wf(),
            old(self).same_input(final(self)),
            outcome(
                res,
                final(self).pos(),
                lex_oper(old(self).bytes(), old(self).pos()),
                old(self).text(),
            ),
            old(self).pos() <= final(self).pos(),
            res is Ok ==> old(self).pos() < final(self).pos(),
    {
        let b = match self.peek_one() {
            Some(b) => b,
            None => {
                return self.expected("operator");
            },
        };
        let c = self.peek_nth(1);
        if b == 0x2B {
            self.step();
            Ok(Oper::Add)
        } else if b == 0x2D {
            self.step();
            Ok(Oper::Sub)
        } else if b == 0x2A {
            self.step();
            Ok(Oper::Mul)
        } else if b == 0x2F {
            self.step();
            Ok(Oper::Div)
        } else if b == 0x25 {
            self.step();
            Ok(Oper::Mod)
        } else if b == 0x3D {
            if c == Some(0x3D) {
                self.skip_bytes(2);
                Ok(Oper::Eq)
            } else {
                self.expected("==")
            }
        } else if b == 0x21 {
            if c == Some(0x3D) {
                self.skip_bytes(2);
                Ok(Oper::Ne)
            } else {
                self.expected("!=")
            }
        } else if b == 0x3C {
            if c == Some(0x3D) {
                self.skip_bytes(2);
                Ok(Oper::Lte)
            } else if c == Some(0x3C) {
                self.skip_bytes(2);
                Ok(Oper::Lsh)
            } else {
                self.step();
                Ok(Oper::Lt)
            }
        } else if b == 0x3E {
            if c == Some(0x3D) {
                self.skip_bytes(2);
                Ok(Oper::Gte)
            } else if c == Some(0x3E) {
                self.skip_bytes(2);
                Ok(Oper::Rsh)
            } else {
                self.step();
                Ok(Oper::Gt)
            }
        } else if b == 0x26 {
            self.step();
            Ok(Oper::And)
        } else if b == 0x7C {
            self.step();
            Ok(Oper::Or)
        } else if b == 0x5E {
            self.step();
            Ok(Oper::Xor)
        } else {
            self.expected("operator")
        }
    }

    /// Reads a forall, for the term that started at `from`.
    fn parse_all(
        &mut self,
        Ghost(from): Ghost<int>,
        fid: u64,
        uses: &im::HashMap<String, String>,
    ) -> (res: Result<Term, ParseError>)
        requires
            old(self).wf(),
            from <= old(self).pos(),
        ensures
            final(self).wf(),
            old(self).same_input(final(self)),
            outcome(
                res,
                final(self).pos(),
                form_all(old(self).bytes(), from, old(self).pos(), fid, aliases_of(*uses)),
                old(self).text(),
            ),
            old(self).pos() <= final(self).pos(),
            res is Ok ==> old(self).pos() < final(self).pos(),
        decreases old(self).bytes().len() - from, 1int,
    {
        proof {
            reveal_strlit("∀");
        }
        self.consume("∀")?;
        self.consume("(")?;
        let nam = self.parse_name()?;
        self.consume(":")?;
        let inp = self.parse_term(fid, uses)?;
        self.consume(")")?;
        let bod = self.parse_term(fid, uses)?;
        Ok(Term::All { nam, inp: Box::new(inp), bod: Box::new(bod) })
    }

    /// Reads a lambda, for the term that started at `from`.
    fn parse_lam(
        &mut self,
        Ghost(from): Ghost<int>,
        fid: u64,
        uses: &im::HashMap<String, String>,
    ) -> (res: Result<Term, ParseError>)
        requires
            old(self).wf(),
            from <= old(self).pos(),
        ensures
            final(self).wf(),
            old(self).same_input(final(self)),
            outcome(
                res,
                final(self).pos(),
                form_lam(old(self).bytes(), from, old(self).pos(), fid, aliases_of(*uses)),
                old(self).text(),
            ),
            old(self).pos() <= final(self).pos(),
            res is Ok ==> old(self).pos() < final(self).pos(),
        decreases old(self).bytes().len() - from, 1int,
    {
        proof {
            reveal_strlit("λ");
        }
        self.consume("λ")?;
        let nam = self.parse_name()?;
        let bod = self.parse_term(fid, uses)?;
        Ok(Term::Lam { nam, bod: Box::new(bod) })
    }

    /// Reads a binary operation or an application, for the term that
    /// started at `from`.
    fn parse_paren(
        &mut self,
        Ghost(from): Ghost<int>,
        fid: u64,
        uses: &im::HashMap<String, String>,
    ) -> (res: Result<Term, ParseError>)
        requires
            old(self).wf(),
            from <= old(self).pos(),
        ensures
            final(self).wf(),
            old(self).same_input(final(self)),
            outcome(
                res,
                final(self).pos(),
                form_paren(old(self).bytes(), from, old(self).pos(), fid, aliases_of(*uses)),
                old(self).text(),
            ),
            old(self).pos() <= final(self).pos(),
            res is Ok ==> old(self).pos() < final(self).pos(),
        decreases old(self).bytes().len() - from, 1int,
    {
        proof {
            reveal_strlit("(");
        }
        self.consume("(")?;
        self.skip_trivia();
        let operator = match self.peek_one() {
            Some(b) => is_oper_byte(b),
            None => false,
        };
        if operator {
            let opr = self.parse_oper()?;
            let fst = self.parse_term(fid, uses)?;
            let snd = self.parse_term(fid, uses)?;
            self.consume(")")?;
            Ok(Term::Op2 { opr, fst: Box::new(fst), snd: Box::new(snd) })
        } else {
            let fun = self.parse_term(fid, uses)?;
            let arg = self.parse_term(fid, uses)?;
            self.consume(")")?;
            Ok(Term::App { fun: Box::new(fun), arg: Box::new(arg) })
        }
    }

    /// Reads an annotation, for the term that started at `from`.
    fn parse_ann(
        &mut self,
        Ghost(from): Ghost<int>,
        fid: u64,
        uses: &im::HashMap<String, String>,
    ) -> (res: Result<Term, ParseError>)
        requires
            old(self).wf(),
            from <= old(self).pos(),
        ensures
            final(self).wf(),
            old(self).same_input(final(self)),
            outcome(
                res,
                final(self).pos(),
                form_ann(old(self).bytes(), from, old(self).pos(), fid, aliases_of(*uses)),
                old(self).text(),
            ),
            old(self).pos() <= final(self).pos(),
            res is Ok ==> old(self).pos() < final(self).pos(),
        decreases old(self).bytes().len() - from, 1int,
    {
        proof {
            reveal_strlit("{");
        }
        self.consume("{")?;
        let val = self.parse_term(fid, uses)?;
        self.consume(":")?;
        let typ = self.parse_term(fid, uses)?;
        self.consume("}")?;
        Ok(Term::Ann { chk: false, val: Box::new(val), typ: Box::new(typ) })
    }

    /// Reads a self type, for the term that started at `from`.
    fn parse_slf(
        &mut self,
        Ghost(from): Ghost<int>,
        fid: u64,
        uses: &im::HashMap<String, String>,
    ) -> (res: Result<Term, ParseError>)
        requires
            old(self).wf(),
            from <= old(self).pos(),
        ensures
            final(self).wf(),
            old(self).same_input(final(self)),
            outcome(
                res,
                final(self).pos(),
                form_slf(old(self).bytes(), from, old(self).pos(), fid, aliases_of(*uses)),
                old(self).text(),
            ),
            old(self).pos() <= final(self).pos(),
            res is Ok ==> old(self).pos() < final(self).pos(),
        decreases old(self).bytes().len() - from, 1int,
    {
        proof {
            reveal_strlit("$(");
        }
        self.consume("$(")?;
        let nam = self.parse_name()?;
        self.consume(":")?;
        let typ = self.parse_term(fid, uses)?;
        self.consume(")")?;
        let bod = self.parse_term(fid, uses)?;
        Ok(Term::Slf { nam, typ: Box::new(typ), bod: Box::new(bod) })
    }

    /// Reads an instantiation, for the term that started at `from`.
    fn parse_ins(
        &mut self,
        Ghost(from): Ghost<int>,
        fid: u64,
        uses: &im::HashMap<String, String>,
    ) -> (res: Result<Term, ParseError>)
        requires
            old(self).wf(),
            from <= old(self).pos(),
        ensures
            final(self).wf(),
            old(self).same_input(final(self)),
            outcome(
                res,
                final(self).pos(),
                form_ins(old(self).bytes(), from, old(self).pos(), fid, aliases_of(*uses)),
                old(self).text(),
            ),
            old(self).pos() <= final(self).pos(),
            res is Ok ==> old(self).pos() < final(self).pos(),
        decreases old(self).bytes().len() - from, 1int,
    {
        proof {
            reveal_strlit("~");
        }
        self.consume("~")?;
        let val = self.parse_term(fid, uses)?;
        Ok(Term::Ins { val: Box::new(val) })
    }

    /// Reads a numeric switch, for the term that started at `from`.
    fn parse_swi(
        &mut self,
        Ghost(from): Ghost<int>,
        fid: u64,
        uses: &im::HashMap<String, String>,
    ) -> (res: Result<Term, ParseError>)
        requires
            old(self).wf(),
            from <= old(self).pos(),
        ensures
            final(self).wf(),
            old(self).same_input(final(self)),
            outcome(
                res,
                final(self).pos(),
                form_swi(old(self).bytes(), from, old(self).pos(), fid, aliases_of(*uses)),
                old(self).text(),
            ),
            old(self).pos() <= final(self).pos(),
            res is Ok ==> old(self).pos() < final(self).pos(),
        decreases old(self).bytes().len() - from, 1int,
    {
        proof {
            reveal_strlit("switch ");
        }
        self.consume("switch ")?;
        let nam = self.parse_name()?;
        self.consume("=")?;
        let x = self.parse_term(fid, uses)?;
        self.consume("{")?;
        self.consume("0")?;
        self.consume(":")?;
        let z = self.parse_term(fid, uses)?;
        self.consume(";")?;
        self.consume("+")?;
        self.consume(":")?;
        let s = self.parse_term(fid, uses)?;
        self.consume("}")?;
        self.consume(":")?;
        let p = self.parse_term(fid, uses)?;
        Ok(Term::Swi { nam, x: Box::new(x), z: Box::new(z), s: Box::new(s), p: Box::new(p) })
    }

    /// Reads a `let` when `recursive` is set, a `use` otherwise, for the
    /// term that started at `from`.
    fn parse_let(
        &mut self,
        Ghost(from): Ghost<int>,
        fid: u64,
        uses: &im::HashMap<String, String>,
        recursive: bool,
    ) -> (res: Result<Term, ParseError>)
        requires
            old(self).wf(),
            from <= old(self).pos(),
        ensures
            final(self).wf(),
            old(self).same_input(final(self)),
            outcome(
                res,
                final(self).pos(),
                form_let(
                    old(self).bytes(),
                    from,
                    old(self).pos(),
                    fid,
                    aliases_of(*uses),
                    recursive,
                ),
                old(self).text(),
            ),
            old(self).pos() <= final(self).pos(),
            res is Ok ==> old(self).pos() < final(self).pos(),
        decreases old(self).bytes().len() - from, 1int,
    {
        proof {
            reveal_strlit("let ");
            reveal_strlit("use ");
        }
        if recursive {
            self.consume("let ")?;
        } else {
            self.consume("use ")?;
        }
        let nam = self.parse_name()?;
        self.consume("=")?;
        let val = self.parse_term(fid, uses)?;
        let bod = self.parse_term(fid, uses)?;
        if recursive {
            Ok(Term::Let { nam, val: Box::new(val), bod: Box::new(bod) })
        } else {
            Ok(Term::Use { nam, val: Box::new(val), bod: Box::new(bod) })
        }
    }

    /// Reads the cases of a match up to its closing brace.
    #[verifier::spinoff_prover]
    fn parse_match_cases(&mut self, fid: u64, uses: &im::HashMap<String, String>) -> (res: Result<
        Vec<(String, Term)>,
        ParseError,
    >)
        requires
            old(self).wf(),
        ensures
            final(self).wf(),
            old(self).same_input(final(self)),
            outcome_by(
                res,
                final(self).pos(),
                match_cases(
                    old(self).bytes(),
                    old(self).pos(),
                    fid,
                    aliases_of(*uses),
                    Seq::empty(),
                ),
                old(self).text(),
                |cases: Vec<(String, Term)>| cases_view(cases@),
            ),
            old(self).pos() <= final(self).pos(),
        decreases old(self).bytes().len() - old(self).pos(), 1int,
    {
        let ghost s = self.bytes();
        let ghost start = self.pos();
        let ghost table = aliases_of(*uses);
        let mut cases: Vec<(String, Term)> = Vec::new();
        assert(cases_view(cases@) =~= Seq::empty());
        loop
            invariant
                self.wf(),
                old(self).same_input(self),
                self.bytes() == s,
                old(self).bytes() == s,
                old(self).pos() == start,
                table == aliases_of(*uses),
                start <= self.pos(),
                match_cases(s, start, fid, table, Seq::empty()) == match_cases(
                    s,
                    self.pos(),
                    fid,
                    table,
                    cases_view(cases@),
                ),
            ensures
                self.wf(),
                old(self).same_input(self),
                start <= self.pos(),
                match_cases(s, start, fid, table, Seq::empty()) == (Parsed::Done {
                    value: cases_view(cases@),
                    next: self.pos(),
                }),
            decreases s.len() - self.pos(),
        {
            if self.peek_one() == Some(0x7Du8) {
                break ;
            }
            let ghost here = self.pos();
            let name = match self.parse_name() {
                Ok(n) => n,
                Err(e) => {
                    return Err(e);
                },
            };
            match self.consume(":") {
                Ok(()) => {},
                Err(e) => {
                    return Err(e);
                },
            }
            assert(sub_term(s, here, self.pos(), fid, table) == term(s, self.pos(), fid, table));
            let body = match self.parse_term(fid, uses) {
                Ok(t) => t,
                Err(e) => {
                    return Err(e);
                },
            };
            self.skip_trivia();
            let ghost before = cases_view(cases@);
            let ghost added = (name@, body@);
            cases.push((name, body));
            assert(cases_view(cases@) =~= before.push(added));
        }
        Ok(cases)
    }

    /// Reads a match, for the term that started at `from`.
    #[verifier::spinoff_prover]
    fn parse_mch(
        &mut self,
        Ghost(from): Ghost<int>,
        fid: u64,
        uses: &im::HashMap<String, String>,
    ) -> (res: Result<Term, ParseError>)
        requires
            old(self).wf(),
            from <= old(self).pos(),
        ensures
            final(self).wf(),
            old(self).same_input(final(self)),
            outcome(
                res,
                final(self).pos(),
                form_mch(old(self).bytes(), from, old(self).pos(), fid, aliases_of(*uses)),
                old(self).text(),
            ),
            old(self).pos() <= final(self).pos(),
            res is Ok ==> old(self).pos() < final(self).pos(),
        decreases old(self).bytes().len() - from, 1int,
    {
        proof {
            reveal_strlit("match ");
        }
        self.consume("match ")?;
        let name = self.parse_name()?;
        self.skip_trivia();
        let ghost s = self.bytes();
        let ghost table = aliases_of(*uses);
        let expr = if self.peek_one() == Some(0x3Du8) {
            self.consume("=")?;
            assert(sub_term(s, from, self.pos(), fid, table) == term(s, self.pos(), fid, table));
            self.parse_term(fid, uses)?
        } else {
            Term::Var { nam: name.clone() }
        };
        self.consume("{")?;
        self.skip_trivia();
        let cses = self.parse_match_cases(fid, uses)?;
        self.consume("}")?;
        let mut probe = self.fork();
        probe.skip_trivia();
        let moti = if probe.peek_one() == Some(0x3Au8) {
            self.consume(":")?;
            assert(sub_term(s, from, self.pos(), fid, table) == term(s, self.pos(), fid, table));
            Some(self.parse_term(fid, uses)?)
        } else {
            None
        };
        let ghost expr_model = expr@;
        let ghost cses_model = cases_view(cses@);
        let ghost moti_model = crate::term::option_view(moti);
        let res = Term::Mch { mch: Box::new(Match { name, expr, cses, moti }) };
        assert(res@ == Expr::Mch {
            name: name@,
            expr: Box::new(expr_model),
            cses: cses_model,
            moti: moti_model,
        });
        Ok(res)
    }

    /// Reads a form without a nested term.
    fn parse_atom(&mut self, uses: &im::HashMap<String, String>) -> (res: Result<
        Term,
        ParseError,
    >)
        requires
            old(self).wf(),
        ensures
            final(self).wf(),
            old(self).same_input(final(self)),
            outcome(
                res,
                final(self).pos(),
                form_atom(old(self).bytes(), old(self).pos(), aliases_of(*uses)),
                old(self).text(),
            ),
            old(self).pos() <= final(self).pos(),
            res is Ok ==> old(self).pos() < final(self).pos(),
    {
        proof {
            reveal_strlit("*");
            reveal_strlit("U60");
            reveal_strlit("?");
            reveal_strlit("_");
        }
        let digit = match self.peek_one() {
            Some(b) => 0x30 <= b && b <= 0x39,
            None => false,
        };
        if self.starts_with("*") {
            self.consume("*")?;
            Ok(Term::Uni)
        } else if self.starts_with("U60") {
            self.consume("U60")?;
            Ok(Term::U60)
        } else if digit {
            let val = self.parse_u64()?;
            Ok(Term::Num { val })
        } else if self.starts_with("?") {
            self.consume("?")?;
            let nam = self.parse_name()?;
            Ok(Term::Hol { nam })
        } else if self.starts_with("_") {
            self.consume("_")?;
            Ok(Term::Met {  })
        } else if self.starts_with("'") {
            let chr = self.parse_quoted_char()?;
            Ok(Term::Num { val: chr as u64 })
        } else if self.starts_with("\"") {
            let txt = self.parse_quoted_string()?;
            Ok(Term::Txt { txt })
        } else {
            let nam = self.parse_name()?;
            let nam = match uses_get(uses, &nam) {
                Some(full) => full.clone(),
                None => nam,
            };
            Ok(Term::Var { nam })
        }
    }

    /// Reads the form that stands at the offset reached, for the term that
    /// started at `from`.
    fn parse_form(
        &mut self,
        Ghost(from): Ghost<int>,
        fid: u64,
        uses: &im::HashMap<String, String>,
    ) -> (res: Result<Term, ParseError>)
        requires
            old(self).wf(),
            from <= old(self).pos(),
        ensures
            final(self).wf(),
            old(self).same_input(final(self)),
            outcome(
                res,
                final(self).pos(),
                form(old(self).bytes(), from, old(self).pos(), fid, aliases_of(*uses)),
                old(self).text(),
            ),
            old(self).pos() <= final(self).pos(),
            res is Ok ==> old(self).pos() < final(self).pos(),
        decreases old(self).bytes().len() - from, 2int,
    {
        reveal(form);
        if self.starts_with("∀") {
            self.parse_all(Ghost(from), fid, uses)
        } else if self.starts_with("λ") {
            self.parse_lam(Ghost(from), fid, uses)
        } else if self.starts_with("(") {
            self.parse_paren(Ghost(from), fid, uses)
        } else if self.starts_with("{") {
            self.parse_ann(Ghost(from), fid, uses)
        } else if self.starts_with("$(") {
            self.parse_slf(Ghost(from), fid, uses)
        } else if self.starts_with("~") {
            self.parse_ins(Ghost(from), fid, uses)
        } else if self.starts_with("switch ") {
            self.parse_swi(Ghost(from), fid, uses)
        } else if self.starts_with("let ") {
            self.parse_let(Ghost(from), fid, uses, true)
        } else if self.starts_with("use ") {
            self.parse_let(Ghost(from), fid, uses, false)
        } else if self.starts_with("match ") {
            self.parse_mch(Ghost(from), fid, uses)
        } else {
            self.parse_atom(uses)
        }
    }

    /// Parses one term of file `fid`, resolving variable names through
    /// `uses`.
    #[verifier::spinoff_prover]
    pub fn parse_term(&mut self, fid: u64, uses: &im::HashMap<String, String>) -> (res: Result<
        Term,
        ParseError,
    >)
        requires
            old(self).wf(),
        ensures
            final(self).wf(),
            old(self).same_input(final(self)),
            outcome(
                res,
                final(self).pos(),
                term(old(self).bytes(), old(self).pos(), fid, aliases_of(*uses)),
                old(self).text(),
            ),
            old(self).pos() <= final(self).pos(),
            res is Ok ==> old(self).pos() < final(self).pos(),
        decreases old(self).bytes().len() - old(self).pos(), 3int,
    {
        let ghost from = self.pos();
        self.skip_trivia();
        let ini = self.index();
        match self.parse_form(Ghost(from), fid, uses) {
            Err(e) => Err(e),
            Ok(val) => {
                let end = self.index();
                let src = Src::new(fid, ini as u64, end as u64);
                let ghost inner = val@;
                let res = Term::Src { src, val: Box::new(val) };
                assert(res@ == Expr::Src { src, val: Box::new(inner) });
                Ok(res)
            },
        }
    }
}

} // verus!
