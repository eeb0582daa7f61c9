use book_lending::model::{Book, BookPayload, Error};
use book_lending::store::Store;

fn payload(title: &str, author: &str) -> BookPayload {
    BookPayload { title: title.to_string(), author: author.to_string() }
}

#[test]
fn scenario_lend_and_return() {
    let mut store = Store::new();
    let b = store.add_book(payload("Dune", "Herbert"), 100).unwrap();
    assert_eq!(b.id, 1);
    assert!(b.available);
    assert_eq!(b.created_at, 100);
    assert_eq!(b.updated_at, None);

    let r = store.rent_book(1, "alice".to_string(), 999, 200).unwrap();
    assert_eq!(r.id, 1);
    assert_eq!(r.book_id, 1);
    assert_eq!(r.user_id, "alice");
    assert_eq!(r.rented_at, 200);
    assert_eq!(r.due_date, 999);
    assert_eq!(r.returned_at, None);
    assert!(!store.get_book(1).unwrap().available);

    let second = store.rent_book(1, "bob".to_string(), 999, 250);
    assert!(matches!(second, Err(Error::BookUnavailable { .. })));
    assert!(!store.get_book(1).unwrap().available);

    let closed = store.return_book(1, 300).unwrap();
    assert_eq!(closed.id, 1);
    assert_eq!(closed.returned_at, Some(300));
    assert!(store.get_book(1).unwrap().available);

    let again = store.return_book(1, 400);
    assert!(matches!(again, Err(Error::AlreadyReturned { .. })));
    assert!(store.get_book(1).unwrap().available);
}

#[test]
fn ids_increase_and_survive_restart() {
    let mut store = Store::new();
    assert_eq!(store.add_book(payload("a", "b"), 1).unwrap().id, 1);
    assert_eq!(store.add_book(payload("c", "d"), 2).unwrap().id, 2);
    assert_eq!(store.rent_book(1, "u".to_string(), 9, 3).unwrap().id, 1);

    // a restart must reload both counters from their segments
    let mut store = store.reopen();
    assert_eq!(store.add_book(payload("e", "f"), 4).unwrap().id, 3);
    assert_eq!(store.rent_book(2, "v".to_string(), 9, 5).unwrap().id, 2);

    // ids are not reused after a delete
    store.delete_book(3).unwrap();
    assert_eq!(store.add_book(payload("g", "h"), 6).unwrap().id, 4);
}

#[test]
fn restart_keeps_tables() {
    let mut store = Store::new();
    store.add_book(payload("Dune", "Herbert"), 10).unwrap();
    store.rent_book(1, "alice".to_string(), 99, 11).unwrap();
    let store = store.reopen();
    let b = store.get_book(1).unwrap();
    assert_eq!(b.title, "Dune");
    assert!(!b.available);
}

#[test]
fn not_found_symmetry() {
    let mut store = Store::new();
    assert!(matches!(store.get_book(7), Err(Error::NotFound { .. })));
    assert!(matches!(store.update_book(7, payload("x", "y"), 1), Err(Error::NotFound { .. })));
    assert!(matches!(store.delete_book(7), Err(Error::NotFound { .. })));
    assert!(matches!(store.rent_book(7, "u".to_string(), 9, 1), Err(Error::NotFound { .. })));
    assert!(matches!(store.return_book(7, 1), Err(Error::NotFound { .. })));

    // the same once the id existed and was deleted
    let b = store.add_book(payload("a", "b"), 1).unwrap();
    store.delete_book(b.id).unwrap();
    assert!(matches!(store.get_book(b.id), Err(Error::NotFound { .. })));
    assert!(matches!(store.update_book(b.id, payload("x", "y"), 2), Err(Error::NotFound { .. })));
    assert!(matches!(store.delete_book(b.id), Err(Error::NotFound { .. })));
}

#[test]
fn availability_tracks_open_rentals() {
    let mut store = Store::new();
    store.add_book(payload("a", "b"), 1).unwrap();
    store.add_book(payload("c", "d"), 2).unwrap();
    assert!(store.get_book(1).unwrap().available);
    assert!(store.get_book(2).unwrap().available);

    let r1 = store.rent_book(1, "u".to_string(), 9, 3).unwrap();
    assert!(!store.get_book(1).unwrap().available);
    assert!(store.get_book(2).unwrap().available);

    let r2 = store.rent_book(2, "v".to_string(), 9, 4).unwrap();
    assert!(!store.get_book(2).unwrap().available);

    store.return_book(r1.id, 5).unwrap();
    assert!(store.get_book(1).unwrap().available);
    assert!(!store.get_book(2).unwrap().available);

    store.return_book(r2.id, 6).unwrap();
    assert!(store.get_book(2).unwrap().available);
}

#[test]
fn update_book_keeps_availability_and_creation() {
    let mut store = Store::new();
    store.add_book(payload("a", "b"), 1).unwrap();
    store.rent_book(1, "u".to_string(), 9, 2).unwrap();
    let b = store.update_book(1, payload("new title", "new author"), 3).unwrap();
    assert_eq!(b.id, 1);
    assert_eq!(b.title, "new title");
    assert_eq!(b.author, "new author");
    assert!(!b.available);
    assert_eq!(b.created_at, 1);
    assert_eq!(b.updated_at, Some(3));
    let got = store.get_book(1).unwrap();
    assert_eq!(got, b);
}

#[test]
fn delete_with_open_rental_is_tolerated() {
    let mut store = Store::new();
    store.add_book(payload("a", "b"), 1).unwrap();
    let r = store.rent_book(1, "u".to_string(), 9, 2).unwrap();
    let gone = store.delete_book(1).unwrap();
    assert_eq!(gone.id, 1);
    // closing the dangling rental still succeeds and skips the book update
    let closed = store.return_book(r.id, 3).unwrap();
    assert_eq!(closed.returned_at, Some(3));
    assert!(matches!(store.get_book(1), Err(Error::NotFound { .. })));
}

#[test]
fn oversized_records_are_rejected_without_change() {
    let mut store = Store::new();
    let long = "x".repeat(600);

    assert!(store.add_book(payload(&long, "a"), 1).is_none());
    assert!(matches!(store.get_book(1), Err(Error::NotFound { .. })));

    store.add_book(payload("a", "b"), 1).unwrap();
    let too_big = store.update_book(1, payload(&long, "b"), 2);
    assert!(matches!(too_big, Err(Error::StorageExhausted { .. })));
    assert_eq!(store.get_book(1).unwrap().title, "a");

    let rent = store.rent_book(1, long.clone(), 9, 3);
    assert!(matches!(rent, Err(Error::StorageExhausted { .. })));
    // no partial change: the book is still available and can be rented
    assert!(store.get_book(1).unwrap().available);
    assert!(store.rent_book(1, "u".to_string(), 9, 4).is_ok());
}

#[test]
fn records_at_the_ceiling_are_accepted() {
    let mut store = Store::new();
    // 34 header bytes + 478 ASCII text bytes sit exactly at the 512 ceiling
    let title = "t".repeat(400);
    let author = "a".repeat(78);
    let b = store.add_book(BookPayload { title: title.clone(), author: author.clone() }, 1)
        .unwrap();
    let got = store.get_book(b.id).unwrap();
    assert_eq!(got.title, title);
    assert_eq!(got.author, author);
    // one more byte of text is over the ceiling
    let over = "a".repeat(79);
    assert!(store.add_book(BookPayload { title, author: over }, 2).is_none());
}

#[test]
fn do_insert_and_raw_get_round_trip() {
    let mut store = Store::new();
    store.add_book(payload("a", "b"), 1).unwrap();
    let fetched: Option<Book> = store._get_book(1);
    assert_eq!(fetched.unwrap().title, "a");
    assert!(store._get_book(2).is_none());
}

#[test]
fn error_messages_are_stable() {
    let mut store = Store::new();
    match store.get_book(1) {
        Err(Error::NotFound { msg }) => assert_eq!(msg, "book not found"),
        _ => panic!("expected a not-found error"),
    }
    match store.return_book(1, 1) {
        Err(Error::NotFound { msg }) => assert_eq!(msg, "rental not found"),
        _ => panic!("expected a not-found error"),
    }
}
