use book_catalog::models::{Lang, NewBook, NewReview, Rating, Timestamp};
use book_catalog::store::{Catalog, StoreError};

fn book(isbn: i64, title: &str) -> NewBook<'_> {
    NewBook {
        isbn,
        title,
        author: "author",
        description: "description",
        language: Lang::Russian,
        issue_year: 2001,
    }
}

fn review<'a>(isbn: i64, username: &'a str, rating: Rating) -> NewReview<'a> {
    let t = Timestamp { secs: 100, nanos: 5 };
    NewReview { isbn, username, rating, description: "text", created_at: t, updated_at: t }
}

#[test]
fn delete_missing_book_counts_zero() {
    let mut store = Catalog::new();
    assert_eq!(store.delete_book(9_780_747_542_155), 0);
    assert_eq!(store.create_book(&book(9_780_747_542_155, "t")), Ok(1));
    assert_eq!(store.delete_book(9_780_306_406_157), 0);
    assert_eq!(store.delete_book(9_780_747_542_155), 1);
    assert_eq!(store.delete_book(9_780_747_542_155), 0);
    assert_eq!(store.load_books().len(), 0);
}

#[test]
fn duplicate_book_is_refused() {
    let mut store = Catalog::new();
    assert_eq!(store.create_book(&book(1, "first")), Ok(1));
    assert_eq!(store.create_book(&book(1, "second")), Err(StoreError::UniqueViolation));
    let b = store.get_book(1).unwrap();
    assert_eq!(b.title, "first");
    assert_eq!(store.load_books().len(), 1);
}

#[test]
fn get_missing_book_is_not_found() {
    let mut store = Catalog::new();
    assert_eq!(store.get_book(7).err(), Some(StoreError::NotFound));
    store.create_book(&book(7, "seven")).unwrap();
    let b = store.get_book(7).unwrap();
    assert_eq!(b.isbn, 7);
    assert_eq!(b.language, Lang::Russian);
}

#[test]
fn load_books_keeps_insertion_order() {
    let mut store = Catalog::new();
    assert_eq!(store.load_books().len(), 0);
    store.create_book(&book(3, "c")).unwrap();
    store.create_book(&book(1, "a")).unwrap();
    store.create_book(&book(2, "b")).unwrap();
    let all: Vec<i64> = store.load_books().iter().map(|b| b.isbn).collect();
    assert_eq!(all, vec![3, 1, 2]);
}

#[test]
fn review_key_is_isbn_and_username() {
    let mut store = Catalog::new();
    assert_eq!(store.create_review(&review(1, "ann", Rating::One)), Ok(1));
    assert_eq!(store.create_review(&review(1, "bob", Rating::Two)), Ok(1));
    assert_eq!(store.create_review(&review(2, "ann", Rating::Three)), Ok(1));
    assert_eq!(
        store.create_review(&review(1, "ann", Rating::Five)),
        Err(StoreError::UniqueViolation)
    );
    let by_book = store.get_reviews_by_book(1);
    assert_eq!(by_book.len(), 2);
    assert_eq!(by_book[0].username, "ann");
    assert_eq!(by_book[0].rating, Rating::One);
    assert_eq!(by_book[1].username, "bob");
    let by_user = store.get_reviews_by_username("ann");
    assert_eq!(by_user.len(), 2);
    assert_eq!(by_user[0].isbn, 1);
    assert_eq!(by_user[1].isbn, 2);
    assert_eq!(store.get_reviews_by_username("Ann").len(), 0);
}

#[test]
fn update_and_delete_missing_review_count_zero() {
    let mut store = Catalog::new();
    let t = Timestamp { secs: 200, nanos: 0 };
    assert_eq!(store.update_review(1, "ann", "x", Rating::Five, t), 0);
    assert_eq!(store.delete_review(1, "ann"), 0);
    store.create_review(&review(1, "ann", Rating::One)).unwrap();
    assert_eq!(store.update_review(1, "bob", "x", Rating::Five, t), 0);
    assert_eq!(store.update_review(1, "ann", "new text", Rating::Five, t), 1);
    let r = &store.get_reviews_by_book(1)[0];
    assert_eq!(r.description, "new text");
    assert_eq!(r.rating, Rating::Five);
    assert_eq!(r.created_at, Timestamp { secs: 100, nanos: 5 });
    assert_eq!(r.updated_at, t);
    assert_eq!(store.delete_review(2, "ann"), 0);
    assert_eq!(store.delete_review(1, "ann"), 1);
    assert_eq!(store.get_reviews_by_book(1).len(), 0);
}
