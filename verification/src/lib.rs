//! Front end of a small dependently-typed term calculus: source spans, the
//! term tree and its traversals, binder linearization, sugar elimination,
//! alias resolution and the definition parser.

pub mod span;
pub mod term;
pub mod fresh;
pub mod persistent;
pub mod traverse;
pub mod sugar;
pub mod binders;
pub mod datatype;
pub mod lexer;
pub mod literals;
pub mod grammar;
pub mod book;
pub mod define;
pub mod program;

pub use span::Src;
pub use term::{Match, Oper, Term};
pub use persistent::cons;
pub use lexer::{KindParser, ParseError};
pub use book::Book;
pub use fresh::name;
pub use program::generate_check_hvm1;
pub use vstd::hash_set::StringHashSet;
pub use datatype::{Constructor, ADT};
