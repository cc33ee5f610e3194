//! An in-memory catalog with the row semantics of the relational store:
//! books keyed by `isbn`, reviews keyed by `(isbn, username)`, writes that
//! report how many rows they touched, and lookups that return the matching
//! rows in insertion order.
use vstd::prelude::*;

use crate::codec::review_views;
use crate::models::{Book, BookView, NewBook, NewReview, Rating, Review, ReviewView, Timestamp};
use crate::text::same_text;

verus! {

/// A failure reported by the store.
#[derive(Clone, Copy, Debug, PartialEq, Eq, Structural)]
pub enum StoreError {
    /// A row with the same key is already present.
    UniqueViolation,
    /// No row matches the key.
    NotFound,
}

/// The rows of a catalog.
pub struct CatalogView {
    pub books: Seq<BookView>,
    pub reviews: Seq<ReviewView>,
}

pub open spec fn same_review_key(a: ReviewView, b: ReviewView) -> bool {
    a.isbn == b.isbn && a.username == b.username
}

/// No two books share an `isbn` and no two reviews share an
/// `(isbn, username)` pair.
pub open spec fn keys_unique(v: CatalogView) -> bool {
    &&& forall|i: int, j: int|
        0 <= i < j < v.books.len() ==> v.books[i].isbn != v.books[j].isbn
    &&& forall|i: int, j: int|
        0 <= i < j < v.reviews.len() ==> !same_review_key(v.reviews[i], v.reviews[j])
}

pub open spec fn has_book(v: CatalogView, isbn: i64) -> bool {
    exists|i: int| 0 <= i < v.books.len() && v.books[i].isbn == isbn
}

pub open spec fn review_at(v: CatalogView, i: int, isbn: i64, username: Seq<char>) -> bool {
    0 <= i < v.reviews.len() && v.reviews[i].isbn == isbn && v.reviews[i].username == username
}

pub open spec fn has_review(v: CatalogView, isbn: i64, username: Seq<char>) -> bool {
    exists|i: int| review_at(v, i, isbn, username)
}

/// The reviews of the book `isbn`, in the order they are stored.
pub open spec fn reviews_of_book(s: Seq<ReviewView>, isbn: i64) -> Seq<ReviewView> {
    s.filter(|r: ReviewView| r.isbn == isbn)
}

/// The reviews written by `username`, in the order they are stored.
pub open spec fn reviews_of_user(s: Seq<ReviewView>, username: Seq<char>) -> Seq<ReviewView> {
    s.filter(|r: ReviewView| r.username == username)
}

/// A review after an update: new description, rating and update time; the
/// key and the creation time stay.
pub open spec fn updated(
    r: ReviewView,
    description: Seq<char>,
    rating: Rating,
    updated_at: Timestamp,
) -> ReviewView {
    ReviewView { description, rating, updated_at, ..r }
}

/// Once a book is stored its `isbn` is taken: a second `create_book` with
/// that `isbn` is refused and leaves the catalog, the first row included, as
/// it was.
pub proof fn lemma_isbn_taken_after_create(before: CatalogView, book: BookView)
    requires
        !has_book(before, book.isbn),
    ensures
        has_book(CatalogView { books: before.books.push(book), reviews: before.reviews }, book.isbn),
{
    let after = before.books.push(book);
    assert(after[before.books.len() as int].isbn == book.isbn);
}

/// Once a review is stored its `(isbn, username)` key is taken: a second
/// `create_review` with that key is refused and changes nothing.
pub proof fn lemma_review_key_taken_after_create(before: CatalogView, review: ReviewView)
    requires
        !has_review(before, review.isbn, review.username),
    ensures
        has_review(
            CatalogView { books: before.books, reviews: before.reviews.push(review) },
            review.isbn,
            review.username,
        ),
{
    let after = CatalogView { books: before.books, reviews: before.reviews.push(review) };
    assert(review_at(after, before.reviews.len() as int, review.isbn, review.username));
}

/// Books and reviews held in memory.
pub struct Catalog {
    books: Vec<Book>,
    reviews: Vec<Review>,
}

impl View for Catalog {
    type V = CatalogView;

    closed spec fn view(&self) -> CatalogView {
        CatalogView {
            books: self.books@.map_values(|b: Book| b@),
            reviews: review_views(self.reviews@),
        }
    }
}

fn copy_book(b: &Book) -> (r: Book)
    ensures
        r@ == b@,
{
    Book {
        isbn: b.isbn,
        title: b.title.as_str().to_owned(),
        author: b.author.as_str().to_owned(),
        description: b.description.as_str().to_owned(),
        language: b.language,
        issue_year: b.issue_year,
    }
}

fn copy_review(r: &Review) -> (c: Review)
    ensures
        c@ == r@,
{
    Review {
        isbn: r.isbn,
        username: r.username.as_str().to_owned(),
        rating: r.rating,
        description: r.description.as_str().to_owned(),
        created_at: r.created_at,
        updated_at: r.updated_at,
    }
}

impl Catalog {
    /// An empty catalog.
    pub fn new() -> (r: Catalog)
        ensures
            r@.books.len() == 0,
            r@.reviews.len() == 0,
            keys_unique(r@),
    {
        let r = Catalog { books: Vec::new(), reviews: Vec::new() };
        assert(r@.books =~= Seq::<BookView>::empty());
        assert(r@.reviews =~= Seq::<ReviewView>::empty());
        r
    }

    fn find_book(&self, isbn: i64) -> (r: Option<usize>)
        ensures
            match r {
                Some(i) => i < self@.books.len() && self@.books[i as int].isbn == isbn,
                None => !has_book(self@, isbn),
            },
    {
        let mut i: usize = 0;
        while i < self.books.len()
            invariant
                i <= self.books@.len(),
                self@.books.len() == self.books@.len(),
                forall|j: int| 0 <= j < i ==> self@.books[j].isbn != isbn,
            decreases self.books@.len() - i,
        {
            assert(self@.books[i as int] == self.books@[i as int]@);
            if self.books[i].isbn == isbn {
                return Some(i);
            }
            i = i + 1;
        }
        None
    }

    fn find_review(&self, isbn: i64, username: &str) -> (r: Option<usize>)
        ensures
            match r {
                Some(i) => review_at(self@, i as int, isbn, username@),
                None => !has_review(self@, isbn, username@),
            },
    {
        let mut i: usize = 0;
        while i < self.reviews.len()
            invariant
                i <= self.reviews@.len(),
                self@.reviews.len() == self.reviews@.len(),
                forall|j: int| 0 <= j < i ==> !review_at(self@, j, isbn, username@),
            decreases self.reviews@.len() - i,
        {
            assert(self@.reviews[i as int] == self.reviews@[i as int]@);
            let r = &self.reviews[i];
            if r.isbn == isbn && same_text(r.username.as_str(), username) {
                return Some(i);
            }
            i = i + 1;
        }
        None
    }

    /// Inserts a book. Fails with `UniqueViolation`, changing nothing, when a
    /// book with the same `isbn` is present; otherwise one row is added.
    pub fn create_book(&mut self, book: &NewBook) -> (r: Result<usize, StoreError>)
        requires
            keys_unique(old(self)@),
        ensures
            keys_unique(final(self)@),
            has_book(old(self)@, book.isbn) ==> r == Err::<usize, StoreError>(
                StoreError::UniqueViolation,
            ) && final(self)@ == old(self)@,
            !has_book(old(self)@, book.isbn) ==> r == Ok::<usize, StoreError>(1) && final(self)@.books == old(self)@.books.push(book@) && final(self)@.reviews == old(self)@.reviews,
    {
        if self.find_book(book.isbn).is_some() {
            return Err(StoreError::UniqueViolation);
        }
        let row = Book {
            isbn: book.isbn,
            title: book.title.to_owned(),
            author: book.author.to_owned(),
            description: book.description.to_owned(),
            language: book.language,
            issue_year: book.issue_year,
        };
        self.books.push(row);
        assert(self@.books =~= old(self)@.books.push(book@));
        assert forall|i: int, j: int|
            0 <= i < j < self@.books.len() implies self@.books[i].isbn != self@.books[j].isbn by {
            if j == self@.books.len() - 1 {
                assert(old(self)@.books[i].isbn != book.isbn);
            }
        }
        assert(self@.reviews == old(self)@.reviews);
        Ok(1)
    }

    /// Removes the book `isbn`; the number of rows removed, 1 or 0.
    pub fn delete_book(&mut self, isbn: i64) -> (r: usize)
        requires
            keys_unique(old(self)@),
        ensures
            keys_unique(final(self)@),
            final(self)@.reviews == old(self)@.reviews,
            !has_book(old(self)@, isbn) ==> r == 0 && final(self)@ == old(self)@,
            has_book(old(self)@, isbn) ==> r == 1 && exists|i: int|
                0 <= i < old(self)@.books.len() && old(self)@.books[i].isbn == isbn && final(self)@.books == old(self)@.books.remove(i),
            !has_book(final(self)@, isbn),
    {
        match self.find_book(isbn) {
            Some(i) => {
                let ghost before = self@.books;
                self.books.remove(i);
                assert(self@.books =~= before.remove(i as int));
                assert forall|j: int| 0 <= j < self@.books.len() implies self@.books[j].isbn
                    != isbn by {
                    if j < i {
                        assert(before[j].isbn != before[i as int].isbn);
                    } else {
                        assert(before[i as int].isbn != before[j + 1].isbn);
                    }
                }
                assert forall|a: int, b: int|
                    0 <= a < b < self@.books.len() implies self@.books[a].isbn
                    != self@.books[b].isbn by {
                    if b < i {
                    } else if a < i {
                        assert(before[a].isbn != before[b + 1].isbn);
                    } else {
                        assert(before[a + 1].isbn != before[b + 1].isbn);
                    }
                }
                assert(self@.reviews == old(self)@.reviews);
                1
            },
            None => 0,
        }
    }

    /// Every book, in insertion order.
    pub fn load_books(&self) -> (r: Vec<Book>)
        ensures
            r@.map_values(|b: Book| b@) == self@.books,
    {
        let mut out: Vec<Book> = Vec::new();
        let mut i: usize = 0;
        while i < self.books.len()
            invariant
                i <= self.books@.len(),
                self@.books.len() == self.books@.len(),
                out@.map_values(|b: Book| b@) == self@.books.take(i as int),
            decreases self.books@.len() - i,
        {
            let ghost before = out@;
            let b = copy_book(&self.books[i]);
            out.push(b);
            assert(out@.map_values(|b: Book| b@) =~= before.map_values(|b: Book| b@).push(
                self@.books[i as int],
            ));
            assert(self@.books.take(i + 1) =~= self@.books.take(i as int).push(
                self@.books[i as int],
            ));
            i = i + 1;
        }
        assert(self@.books.take(i as int) =~= self@.books);
        out
    }

    /// The book `isbn`, or `NotFound`.
    pub fn get_book(&self, isbn: i64) -> (r: Result<Book, StoreError>)
        ensures
            match r {
                Ok(b) => b@.isbn == isbn && self@.books.contains(b@),
                Err(e) => e == StoreError::NotFound && !has_book(self@, isbn),
            },
    {
        match self.find_book(isbn) {
            Some(i) => {
                let b = copy_book(&self.books[i]);
                assert(self@.books[i as int] == b@);
                Ok(b)
            },
            None => Err(StoreError::NotFound),
        }
    }

    /// Inserts a review. Fails with `UniqueViolation`, changing nothing, when
    /// the book already has a review by the same user; otherwise one row is
    /// added. The book itself need not be present.
    pub fn create_review(&mut self, review: &NewReview) -> (r: Result<usize, StoreError>)
        requires
            keys_unique(old(self)@),
        ensures
            keys_unique(final(self)@),
            has_review(old(self)@, review.isbn, review.username@) ==> r == Err::<
                usize,
                StoreError,
            >(StoreError::UniqueViolation) && final(self)@ == old(self)@,
            !has_review(old(self)@, review.isbn, review.username@) ==> r == Ok::<
                usize,
                StoreError,
            >(1) && final(self)@.reviews == old(self)@.reviews.push(review@) && final(self)@.books == old(self)@.books,
    {
        if self.find_review(review.isbn, review.username).is_some() {
            return Err(StoreError::UniqueViolation);
        }
        let row = Review {
            isbn: review.isbn,
            username: review.username.to_owned(),
            rating: review.rating,
            description: review.description.to_owned(),
            created_at: review.created_at,
            updated_at: review.updated_at,
        };
        let ghost before = self.reviews@;
        self.reviews.push(row);
        assert(self@.reviews =~= review_views(before).push(review@));
        proof {
            assert forall|i: int, j: int|
                0 <= i < j < self@.reviews.len() implies !same_review_key(
                self@.reviews[i],
                self@.reviews[j],
            ) by {
                if j == self@.reviews.len() - 1 {
                    assert(!review_at(old(self)@, i, review.isbn, review.username@));
                }
            }
        }
        Ok(1)
    }

    /// The reviews of the book `isbn`, in insertion order.
    pub fn get_reviews_by_book(&self, isbn: i64) -> (r: Vec<Review>)
        ensures
            review_views(r@) == reviews_of_book(self@.reviews, isbn),
    {
        let ghost all = self@.reviews;
        let mut out: Vec<Review> = Vec::new();
        let mut i: usize = 0;
        while i < self.reviews.len()
            invariant
                i <= self.reviews@.len(),
                all == self@.reviews,
                all.len() == self.reviews@.len(),
                review_views(out@) == reviews_of_book(all.take(i as int), isbn),
            decreases self.reviews@.len() - i,
        {
            let ghost before = out@;
            assert(all[i as int] == self.reviews@[i as int]@);
            assert(all.take(i + 1).drop_last() =~= all.take(i as int));
            proof {
                reveal(Seq::filter);
            }
            if self.reviews[i].isbn == isbn {
                let c = copy_review(&self.reviews[i]);
                out.push(c);
                assert(review_views(out@) =~= review_views(before).push(all[i as int]));
            }
            i = i + 1;
        }
        assert(all.take(i as int) =~= all);
        out
    }

    /// The reviews written by `username`, in insertion order.
    pub fn get_reviews_by_username(&self, username: &str) -> (r: Vec<Review>)
        ensures
            review_views(r@) == reviews_of_user(self@.reviews, username@),
    {
        let ghost all = self@.reviews;
        let mut out: Vec<Review> = Vec::new();
        let mut i: usize = 0;
        while i < self.reviews.len()
            invariant
                i <= self.reviews@.len(),
                all == self@.reviews,
                all.len() == self.reviews@.len(),
                review_views(out@) == reviews_of_user(all.take(i as int), username@),
            decreases self.reviews@.len() - i,
        {
            let ghost before = out@;
            assert(all[i as int] == self.reviews@[i as int]@);
            assert(all.take(i + 1).drop_last() =~= all.take(i as int));
            proof {
                reveal(Seq::filter);
            }
            if same_text(self.reviews[i].username.as_str(), username) {
                let c = copy_review(&self.reviews[i]);
                out.push(c);
                assert(review_views(out@) =~= review_views(before).push(all[i as int]));
            }
            i = i + 1;
        }
        assert(all.take(i as int) =~= all);
        out
    }

    /// Sets the description, rating and update time of the review of `isbn`
    /// by `username`; the number of rows changed, 1 or 0.
    pub fn update_review(
        &mut self,
        isbn: i64,
        username: &str,
        description: &str,
        rating: Rating,
        updated_at: Timestamp,
    ) -> (r: usize)
        requires
            keys_unique(old(self)@),
        ensures
            keys_unique(final(self)@),
            final(self)@.books == old(self)@.books,
            !has_review(old(self)@, isbn, username@) ==> r == 0 && final(self)@ == old(self)@,
            has_review(old(self)@, isbn, username@) ==> r == 1 && exists|i: int|
                review_at(old(self)@, i, isbn, username@) && final(self)@.reviews == old(self)@.reviews.update(
                    i,
                    updated(old(self)@.reviews[i], description@, rating, updated_at),
                ),
    {
        match self.find_review(isbn, username) {
            Some(i) => {
                let ghost before = self.reviews@;
                let old_row = self.reviews.remove(i);
                let row = Review {
                    isbn: old_row.isbn,
                    username: old_row.username,
                    rating,
                    description: description.to_owned(),
                    created_at: old_row.created_at,
                    updated_at,
                };
                self.reviews.insert(i, row);
                assert(self@.reviews =~= review_views(before).update(
                    i as int,
                    updated(review_views(before)[i as int], description@, rating, updated_at),
                ));
                assert forall|a: int, b: int|
                    0 <= a < b < self@.reviews.len() implies !same_review_key(
                    self@.reviews[a],
                    self@.reviews[b],
                ) by {
                    assert(!same_review_key(old(self)@.reviews[a], old(self)@.reviews[b]));
                }
                1
            },
            None => 0,
        }
    }

    /// Removes the review of `isbn` by `username`; the number of rows
    /// removed, 1 or 0.
    pub fn delete_review(&mut self, isbn: i64, username: &str) -> (r: usize)
        requires
            keys_unique(old(self)@),
        ensures
            keys_unique(final(self)@),
            final(self)@.books == old(self)@.books,
            !has_review(old(self)@, isbn, username@) ==> r == 0 && final(self)@ == old(self)@,
            has_review(old(self)@, isbn, username@) ==> r == 1 && exists|i: int|
                review_at(old(self)@, i, isbn, username@) && final(self)@.reviews == old(self)@.reviews.remove(i),
            !has_review(final(self)@, isbn, username@),
    {
        match self.find_review(isbn, username) {
            Some(i) => {
                let ghost before = self@.reviews;
                self.reviews.remove(i);
                assert(self@.reviews =~= before.remove(i as int));
                assert forall|j: int| !review_at(self@, j, isbn, username@) by {
                    if 0 <= j < i {
                        assert(!same_review_key(before[j], before[i as int]));
                    } else if i <= j < self@.reviews.len() {
                        assert(!same_review_key(before[i as int], before[j + 1]));
                    }
                }
                1
            },
            None => 0,
        }
    }
}

} // verus!
