use kind2::{Book, Term};

#[test]
fn book_starts_empty() {
    let book = Book::new();
    assert_eq!(book.len(), 0);
    assert!(book.get("x").is_none());
}

#[test]
fn book_insert_then_get() {
    let mut book = Book::new();
    book.insert("a".to_string(), Term::Num { val: 1 });
    book.insert("b".to_string(), Term::Num { val: 2 });
    assert_eq!(book.len(), 2);
    assert_eq!(book.get("a"), Some(&Term::Num { val: 1 }));
    assert_eq!(book.get("b"), Some(&Term::Num { val: 2 }));
    assert_eq!(book.get("c"), None);
    assert_eq!(book.name_at(0), "a");
    assert_eq!(book.term_at(1), &Term::Num { val: 2 });
}

#[test]
fn book_insert_overwrites_same_name() {
    let mut book = Book::new();
    book.insert("a".to_string(), Term::Num { val: 1 });
    book.insert("b".to_string(), Term::Num { val: 2 });
    book.insert("a".to_string(), Term::Num { val: 3 });
    assert_eq!(book.len(), 2);
    assert_eq!(book.get("a"), Some(&Term::Num { val: 3 }));
    assert_eq!(book.get("b"), Some(&Term::Num { val: 2 }));
    assert_eq!(book.position(&"a".to_string()), Some(0));
    assert_eq!(book.position(&"zz".to_string()), None);
}
