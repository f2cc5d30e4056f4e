//! The book: the definitions of one file, by qualified name.

use vstd::prelude::*;
use crate::term::{Expr, Term};

verus! {

/// The definitions parsed from one file. Each name occurs once; defining a
/// name again replaces what it stood for.
#[derive(Debug)]
pub struct Book {
    defs: Vec<(String, Term)>,
}

/// True when some entry before `upto` carries the name.
pub open spec fn names_before(defs: Seq<(String, Term)>, upto: int, name: Seq<char>) -> bool {
    exists|i: int| 0 <= i < upto && i < defs.len() && (#[trigger] defs[i]).0@ == name
}

/// The names of the first `n` entries.
pub open spec fn names_upto(defs: Seq<(String, Term)>, n: int) -> Set<Seq<char>>
    decreases n,
{
    if n <= 0 {
        Set::empty()
    } else {
        names_upto(defs, n - 1).insert(defs[n - 1].0@)
    }
}

/// Entries with distinct names have as many names as there are entries.
pub proof fn lemma_names_upto(defs: Seq<(String, Term)>, n: int)
    requires
        0 <= n <= defs.len(),
        forall|i: int, j: int|
            0 <= i < j < defs.len() ==> (#[trigger] defs[i]).0@ != (#[trigger] defs[j]).0@,
    ensures
        names_upto(defs, n).finite(),
        names_upto(defs, n).len() == n,
        forall|name: Seq<char>|
            names_upto(defs, n).contains(name) <==> names_before(defs, n, name),
    decreases n,
{
    if n > 0 {
        lemma_names_upto(defs, n - 1);
        let last = defs[n - 1].0@;
        assert(!names_upto(defs, n - 1).contains(last)) by {
            if names_before(defs, n - 1, last) {
                let i = choose|i: int| 0 <= i < n - 1 && i < defs.len() && (#[trigger] defs[i]).0@
                    == last;
                assert(defs[i].0@ != defs[n - 1].0@);
            }
        }
        assert forall|name: Seq<char>|
            names_upto(defs, n).contains(name) <==> names_before(defs, n, name) by {
            if names_before(defs, n, name) {
                let i = choose|i: int| 0 <= i < n && i < defs.len() && (#[trigger] defs[i]).0@
                    == name;
                if i < n - 1 {
                    assert(names_before(defs, n - 1, name));
                    assert(names_upto(defs, n - 1).contains(name));
                }
            }
            if names_upto(defs, n).contains(name) {
                if name == last {
                    assert(defs[n - 1].0@ == name);
                } else {
                    assert(names_upto(defs, n - 1).contains(name));
                    assert(names_before(defs, n - 1, name));
                    let i = choose|i: int| 0 <= i < n - 1 && i < defs.len() && (
                    #[trigger] defs[i]).0@ == name;
                    assert(defs[i].0@ == name);
                }
            }
        }
    }
}

impl Book {
    /// The entries, in the order their names were first defined.
    pub closed spec fn entries(&self) -> Seq<(String, Term)> {
        self.defs@
    }

    /// No two entries carry the same name.
    pub open spec fn wf(&self) -> bool {
        forall|i: int, j: int|
            0 <= i < j < self.entries().len() ==> (#[trigger] self.entries()[i]).0@ != (
            #[trigger] self.entries()[j]).0@
    }

    /// A book without definitions.
    pub fn new() -> (res: Book)
        ensures
            res.wf(),
            res.entries().len() == 0,
            res@ == Map::<Seq<char>, Expr>::empty(),
    {
        let res = Book { defs: Vec::new() };
        assert(res@ =~= Map::<Seq<char>, Expr>::empty());
        res
    }

    /// The number of definitions: in a well-formed book, the number of
    /// names that it defines.
    pub fn len(&self) -> (res: usize)
        ensures
            res == self.entries().len(),
            self.wf() ==> self@.dom().finite() && res == self@.dom().len(),
    {
        proof {
            if self.wf() {
                self.lemma_len_counts_names();
            }
        }
        self.defs.len()
    }

    /// A well-formed book has one entry for each name that it defines, and
    /// no other.
    pub proof fn lemma_len_counts_names(&self)
        requires
            self.wf(),
        ensures
            self@.dom().finite(),
            self@.dom().len() == self.entries().len(),
    {
        let defs = self.entries();
        lemma_names_upto(defs, defs.len() as int);
        assert forall|name: Seq<char>|
            self@.dom().contains(name) <==> names_upto(defs, defs.len() as int).contains(
                name,
            ) by {
            if self@.dom().contains(name) {
                let k = choose|k: int| 0 <= k < defs.len() && defs[k].0@ == name;
                assert(defs[k].0@ == name);
                assert(names_before(defs, defs.len() as int, name));
            }
            if names_before(defs, defs.len() as int, name) {
                let i = choose|i: int| 0 <= i < defs.len() && i < defs.len() && (
                #[trigger] defs[i]).0@ == name;
                assert(defs[i].0@ == name);
            }
        }
        assert(self@.dom() =~= names_upto(defs, defs.len() as int));
    }

    /// The name of the definition at a position.
    pub fn name_at(&self, index: usize) -> (res: &String)
        requires
            index < self.entries().len(),
        ensures
            res@ == self.entries()[index as int].0@,
    {
        &self.defs[index].0
    }

    /// The term of the definition at a position.
    pub fn term_at(&self, index: usize) -> (res: &Term)
        requires
            index < self.entries().len(),
        ensures
            res@ == self.entries()[index as int].1@,
    {
        &self.defs[index].1
    }

    /// The position of the entry that carries `name`, if there is one.
    pub fn position(&self, name: &String) -> (res: Option<usize>)
        ensures
            match res {
                Some(i) => i < self.entries().len() && self.entries()[i as int].0@ == name@,
                None => !self@.contains_key(name@),
            },
    {
        let mut i: usize = 0;
        while i < self.defs.len()
            invariant
                i <= self.defs.len(),
                !names_before(self.defs@, i as int, name@),
            decreases self.defs.len() - i,
        {
            if self.defs[i].0 == *name {
                return Some(i);
            }
            i += 1;
        }
        None
    }

    /// The term that `name` is defined as, if it is defined.
    pub fn get(&self, name: &str) -> (res: Option<&Term>)
        requires
            self.wf(),
        ensures
            res is Some <==> self@.contains_key(name@),
            res is Some ==> res->Some_0@ == self@[name@],
    {
        let owned = name.to_owned();
        match self.position(&owned) {
            Some(i) => {
                proof {
                    self.lemma_entry(i as int);
                }
                Some(&self.defs[i].1)
            },
            None => None,
        }
    }

    /// Defines `name` as `term`, in place of what it was defined as before.
    pub fn insert(&mut self, name: String, term: Term)
        requires
            old(self).wf(),
        ensures
            final(self).wf(),
            final(self)@ == old(self)@.insert(name@, term@),
            final(self).entries().len() == if old(self)@.contains_key(name@) {
                old(self).entries().len()
            } else {
                old(self).entries().len() + 1
            },
    {
        let ghost before = self.defs@;
        let ghost key = name@;
        let ghost value = term@;
        match self.position(&name) {
            Some(i) => {
                self.defs[i] = (name, term);
                assert(self.wf()) by {
                    assert forall|a: int, b: int| 0 <= a < b < self.defs@.len() implies (
                    #[trigger] self.defs@[a]).0@ != (#[trigger] self.defs@[b]).0@ by {
                        assert(before[a].0@ != before[b].0@);
                    }
                }
                assert forall|n: Seq<char>| self@.contains_key(n) <==> old(self)@.insert(
                    key,
                    value,
                ).contains_key(n) by {
                    if self@.contains_key(n) {
                        let k = choose|k: int| 0 <= k < self.defs@.len() && self.defs@[k].0@ == n;
                        assert(before[k].0@ == n);
                    }
                    if old(self)@.contains_key(n) {
                        let k = choose|k: int| 0 <= k < before.len() && before[k].0@ == n;
                        assert(self.defs@[k].0@ == n);
                    }
                    if n == key {
                        assert(self.defs@[i as int].0@ == n);
                    }
                }
                assert forall|n: Seq<char>| self@.contains_key(n) implies self@[n] == old(
                    self,
                )@.insert(key, value)[n] by {
                    let k = choose|k: int| 0 <= k < self.defs@.len() && self.defs@[k].0@ == n;
                    self.lemma_entry(k);
                    if k != i {
                        old(self).lemma_entry(k);
                    }
                }
                assert(self@ =~= old(self)@.insert(key, value));
                assert(old(self)@.contains_key(key)) by {
                    assert(before[i as int].0@ == key);
                }
            },
            None => {
                self.defs.push((name, term));
                assert(self.wf()) by {
                    assert forall|a: int, b: int| 0 <= a < b < self.defs@.len() implies (
                    #[trigger] self.defs@[a]).0@ != (#[trigger] self.defs@[b]).0@ by {
                        if b < before.len() {
                            assert(old(self).entries()[a].0@ != old(self).entries()[b].0@);
                        } else {
                            assert(old(self).entries()[a].0@ == before[a].0@);
                            assert(!names_before(before, before.len() as int, key));
                        }
                    }
                }
                assert forall|n: Seq<char>| self@.contains_key(n) <==> old(self)@.insert(
                    key,
                    value,
                ).contains_key(n) by {
                    if self@.contains_key(n) {
                        let k = choose|k: int| 0 <= k < self.defs@.len() && self.defs@[k].0@ == n;
                        if k < before.len() {
                            assert(before[k].0@ == n);
                        }
                    }
                    if old(self)@.contains_key(n) {
                        let k = choose|k: int| 0 <= k < before.len() && before[k].0@ == n;
                        assert(self.defs@[k].0@ == n);
                    }
                    if n == key {
                        assert(self.defs@[before.len() as int].0@ == n);
                    }
                }
                assert forall|n: Seq<char>| self@.contains_key(n) implies self@[n] == old(
                    self,
                )@.insert(key, value)[n] by {
                    let k = choose|k: int| 0 <= k < self.defs@.len() && self.defs@[k].0@ == n;
                    self.lemma_entry(k);
                    if k < before.len() {
                        old(self).lemma_entry(k);
                    }
                }
                assert(self@ =~= old(self)@.insert(key, value));
            },
        }
    }

    /// In a well-formed book every entry's name maps to that entry's term.
    pub proof fn lemma_entry(&self, index: int)
        requires
            self.wf(),
            0 <= index < self.entries().len(),
        ensures
            self@.contains_key(self.entries()[index].0@),
            self@[self.entries()[index].0@] == self.entries()[index].1@,
    {
        let n = self.entries()[index].0@;
        let k = choose|k: int| 0 <= k < self.entries().len() && self.entries()[k].0@ == n;
        assert(k == index) by {
            if k < index {
                assert(self.entries()[k].0@ != self.entries()[index].0@);
            } else if index < k {
                assert(self.entries()[index].0@ != self.entries()[k].0@);
            }
        }
    }
}

impl View for Book {
    type V = Map<Seq<char>, Expr>;

    /// The definitions as a map from qualified name to annotated term.
    closed spec fn view(&self) -> Map<Seq<char>, Expr> {
        Map::new(
            |n: Seq<char>| exists|k: int| 0 <= k < self.defs@.len() && self.defs@[k].0@ == n,
            |n: Seq<char>|
                {
                    let k = choose|k: int| 0 <= k < self.defs@.len() && self.defs@[k].0@ == n;
                    self.defs@[k].1@
                },
        )
    }
}

/// Defining a name twice leaves only the second definition.
pub proof fn lemma_insert_overwrites(
    defs: Map<Seq<char>, Expr>,
    name: Seq<char>,
    first: Expr,
    second: Expr,
)
    ensures
        defs.insert(name, first).insert(name, second) == defs.insert(name, second),
{
    assert(defs.insert(name, first).insert(name, second) =~= defs.insert(name, second));
}

} // verus!
