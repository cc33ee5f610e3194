use book_catalog::codec::{decode_reviews, encode_part, encode_reviews, CodecError};
use book_catalog::isbn::parse_isbn;
use book_catalog::models::{NewReviewPart, Rating, Timestamp};
use book_catalog::service::{post_review, put_review, stamp_new_review};
use book_catalog::store::Catalog;
use std::time::{Duration, SystemTime};

fn now() -> Timestamp {
    let d = SystemTime::now().duration_since(SystemTime::UNIX_EPOCH).unwrap();
    Timestamp::new(d.as_secs(), d.subsec_nanos()).unwrap()
}

fn system_time(t: Timestamp) -> SystemTime {
    SystemTime::UNIX_EPOCH + Duration::new(t.secs, t.nanos)
}

#[test]
fn api_test() {
    let mut store = Catalog::new();
    let (isbn, username, rating, description) =
        (9_780_747_542_155, "anon", Rating::One, "really good book");

    let body = encode_part(&NewReviewPart { isbn, username, rating, description }).unwrap();
    let review = post_review(&body, now()).unwrap();
    assert_eq!(store.create_review(&review), Ok(1));

    let resp = encode_reviews(&store.get_reviews_by_book(isbn)).unwrap();
    let reviews = decode_reviews(&resp).unwrap();
    assert_eq!(reviews.len(), 1);
    assert_eq!(reviews[0].isbn, isbn);
    assert_eq!(reviews[0].username, username);
    assert_eq!(reviews[0].rating, rating);
    assert_eq!(reviews[0].description, description);
    let t = SystemTime::now();
    assert!(t.duration_since(system_time(reviews[0].created_at)).unwrap() < Duration::from_secs(1));
    assert!(t.duration_since(system_time(reviews[0].updated_at)).unwrap() < Duration::from_secs(1));
    assert_eq!(reviews[0].created_at, reviews[0].updated_at);
    let created_at = reviews[0].created_at;

    let mut later = now();
    while !created_at.is_before(later) {
        later = now();
    }
    let rating = Rating::Five;
    let body = encode_part(&NewReviewPart { isbn, username, rating, description }).unwrap();
    let change = put_review(&body, later).unwrap();
    let n = store.update_review(
        change.isbn,
        change.username,
        change.description,
        change.rating,
        change.updated_at,
    );
    assert_eq!(n, 1);

    let resp = encode_reviews(&store.get_reviews_by_username(username)).unwrap();
    let reviews = decode_reviews(&resp).unwrap();
    assert_eq!(reviews.len(), 1);
    assert_eq!(reviews[0].isbn, isbn);
    assert_eq!(reviews[0].username, username);
    assert_eq!(reviews[0].rating, rating);
    assert_eq!(reviews[0].description, description);
    assert_eq!(reviews[0].created_at, created_at);
    assert!(created_at.is_before(reviews[0].updated_at));

    assert_eq!(store.delete_review(isbn, username), 1);
    let resp = encode_reviews(&store.get_reviews_by_book(isbn)).unwrap();
    assert_eq!(decode_reviews(&resp).unwrap().len(), 0);
}

#[test]
fn request_isbn_matches_parsed_isbn() {
    assert_eq!(parse_isbn("9780747542155"), Some(9_780_747_542_155));
}

#[test]
fn stamping_sets_both_times() {
    let t = Timestamp { secs: 10, nanos: 20 };
    let r = stamp_new_review(
        NewReviewPart { isbn: 3, username: "u", rating: Rating::Two, description: "d" },
        t,
    );
    assert_eq!(r.isbn, 3);
    assert_eq!(r.username, "u");
    assert_eq!(r.rating, Rating::Two);
    assert_eq!(r.description, "d");
    assert_eq!(r.created_at, t);
    assert_eq!(r.updated_at, t);
}

#[test]
fn malformed_request_body_is_rejected() {
    let t = Timestamp { secs: 10, nanos: 20 };
    assert_eq!(post_review(&[1, 2, 3], t).err(), Some(CodecError::Malformed));
    assert_eq!(put_review(&[], t).err(), Some(CodecError::Malformed));
}

#[test]
fn update_request_keeps_its_fields() {
    let t = Timestamp { secs: 99, nanos: 1 };
    let body = encode_part(&NewReviewPart {
        isbn: 5,
        username: "x",
        rating: Rating::Four,
        description: "fine",
    })
    .unwrap();
    let u = put_review(&body, t).unwrap();
    assert_eq!(u.isbn, 5);
    assert_eq!(u.username, "x");
    assert_eq!(u.rating, Rating::Four);
    assert_eq!(u.description, "fine");
    assert_eq!(u.updated_at, t);
}
