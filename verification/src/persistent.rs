//! The persistent collections of the `im` crate that the library threads
//! through its traversals and its parser: environments of bound names,
//! argument lists and alias tables. Verus does not look inside them; each
//! operation the library needs is declared here with the contract it is
//! trusted to meet.

use vstd::prelude::*;
use crate::term::{Expr, Term};

verus! {

#[verifier::external_type_specification]
#[verifier::external_body]
#[verifier::reject_recursive_types(A)]
pub struct ExVector<A>(im::Vector<A>);

#[verifier::external_type_specification]
#[verifier::external_body]
#[verifier::reject_recursive_types(K)]
#[verifier::reject_recursive_types(V)]
#[verifier::reject_recursive_types(S)]
pub struct ExHashMap<K, V, S>(im::HashMap<K, V, S>);

/// The names that an environment holds, in the order they were pushed.
pub uninterp spec fn names_of(env: im::Vector<String>) -> Seq<Seq<char>>;

/// The `(name, type)` pairs that an argument list holds, first argument
/// first, each type by its model.
pub uninterp spec fn args_of(args: im::Vector<(String, Term)>) -> Seq<(Seq<char>, Expr)>;

/// The short-name to qualified-name pairs that an alias table holds.
pub uninterp spec fn aliases_of(uses: im::HashMap<String, String>) -> Map<Seq<char>, Seq<char>>;

/// `im::Vector::new`: an environment that holds no name.
#[verifier::external_body]
pub(crate) fn env_new() -> (res: im::Vector<String>)
    ensures
        names_of(res).len() == 0,
{
    im::Vector::new()
}

/// `im::Vector::clone`: the copy holds the same names in the same order.
#[verifier::external_body]
pub(crate) fn env_clone(env: &im::Vector<String>) -> (res: im::Vector<String>)
    ensures
        names_of(res) == names_of(*env),
{
    env.clone()
}

/// `im::Vector::push_back`: the name is appended after those already held.
#[verifier::external_body]
pub(crate) fn env_push_back(env: &mut im::Vector<String>, value: String)
    ensures
        names_of(*final(env)) == names_of(*old(env)).push(value@),
{
    env.push_back(value)
}

/// `im::Vector::contains`: whether some held name has the same characters.
#[verifier::external_body]
pub(crate) fn env_contains(env: &im::Vector<String>, value: &String) -> (res: bool)
    ensures
        res == names_of(*env).contains(value@),
{
    env.contains(value)
}

/// `im::Vector::new`: an argument list that holds nothing.
#[verifier::external_body]
pub(crate) fn args_new() -> (res: im::Vector<(String, Term)>)
    ensures
        args_of(res).len() == 0,
{
    im::Vector::new()
}

/// `im::Vector::clone`: the copy holds the same pairs in the same order.
#[verifier::external_body]
pub(crate) fn args_clone(args: &im::Vector<(String, Term)>) -> (res: im::Vector<(String, Term)>)
    ensures
        args_of(res) == args_of(*args),
{
    args.clone()
}

/// `im::Vector::push_back`: the pair is appended after those already held.
#[verifier::external_body]
pub(crate) fn args_push_back(args: &mut im::Vector<(String, Term)>, name: String, typ: Term)
    ensures
        args_of(*final(args)) == args_of(*old(args)).push((name@, typ@)),
{
    args.push_back((name, typ))
}

/// `im::Vector::len`: the number of pairs held.
#[verifier::external_body]
pub(crate) fn args_len(args: &im::Vector<(String, Term)>) -> (res: usize)
    ensures
        res == args_of(*args).len(),
{
    args.len()
}

/// `im::Vector::index`: a reference to the pair at a position inside the
/// list. The outside function panics past the end, which `requires` rules
/// out.
#[verifier::external_body]
pub(crate) fn args_index(args: &im::Vector<(String, Term)>, index: usize) -> (res: &(String, Term))
    requires
        index < args_of(*args).len(),
    ensures
        (res.0@, res.1@) == args_of(*args)[index as int],
{
    &args[index]
}

/// `im::Vector::split_at`: the first `index` pairs, and the rest, both in
/// order. The outside function panics when `index` is past the end, which
/// `requires` rules out.
#[verifier::external_body]
pub(crate) fn args_split_at(args: im::Vector<(String, Term)>, index: usize) -> (res: (
    im::Vector<(String, Term)>,
    im::Vector<(String, Term)>,
))
    requires
        index <= args_of(args).len(),
    ensures
        args_of(res.0) == args_of(args).take(index as int),
        args_of(res.1) == args_of(args).skip(index as int),
{
    args.split_at(index)
}

/// `im::HashMap::new`: an alias table that holds nothing.
#[verifier::external_body]
pub(crate) fn uses_new() -> (res: im::HashMap<String, String>)
    ensures
        aliases_of(res).dom() == Set::<Seq<char>>::empty(),
{
    im::HashMap::new()
}

/// `im::HashMap::insert`: the key maps to the value afterwards, replacing
/// what it mapped to before; other keys are untouched.
#[verifier::external_body]
pub(crate) fn uses_insert(uses: &mut im::HashMap<String, String>, key: String, value: String)
    ensures
        aliases_of(*final(uses)) == aliases_of(*old(uses)).insert(key@, value@),
{
    uses.insert(key, value);
}

/// `im::HashMap::get`: the value that the key maps to, if it maps to one.
#[verifier::external_body]
pub(crate) fn uses_get<'a>(uses: &'a im::HashMap<String, String>, key: &String) -> (res: Option<
    &'a String,
>)
    ensures
        res is Some <==> aliases_of(*uses).contains_key(key@),
        res is Some ==> res.unwrap()@ == aliases_of(*uses)[key@],
{
    uses.get(key)
}

/// A copy of `vector` with `value` appended.
pub fn cons(vector: &im::Vector<String>, value: String) -> (res: im::Vector<String>)
    ensures
        names_of(res) == names_of(*vector).push(value@),
{
    let mut new_vector = env_clone(vector);
    env_push_back(&mut new_vector, value);
    new_vector
}

} // verus!
