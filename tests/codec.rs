use book_catalog::codec::{
    decode_book, decode_books, decode_part, decode_parts, decode_review, decode_reviews,
    encode_book, encode_books, encode_part, encode_parts,
    encode_review, encode_reviews, CodecError,
};
use book_catalog::models::{Book, Lang, NewReviewPart, Rating, Review, Timestamp};
use speedy::{Readable, Writable};
use std::time::{Duration, SystemTime};

fn sample_book() -> Book {
    Book {
        isbn: 9_780_747_542_155,
        title: "Harry Potter".to_string(),
        author: "J. K. Rowling".to_string(),
        description: "Мальчик, который выжил".to_string(),
        language: Lang::English,
        issue_year: 1997,
    }
}

fn sample_review(username: &str, rating: Rating) -> Review {
    Review {
        isbn: 9_780_747_542_155,
        username: username.to_string(),
        rating,
        description: "really good book".to_string(),
        created_at: Timestamp { secs: 1_700_000_000, nanos: 123_456_789 },
        updated_at: Timestamp { secs: 1_700_000_100, nanos: 0 },
    }
}

fn same_review(a: &Review, b: &Review) -> bool {
    a.isbn == b.isbn
        && a.username == b.username
        && a.rating == b.rating
        && a.description == b.description
        && a.created_at == b.created_at
        && a.updated_at == b.updated_at
}

fn system_time(t: Timestamp) -> SystemTime {
    SystemTime::UNIX_EPOCH + Duration::new(t.secs, t.nanos)
}

#[test]
fn book_encoding_is_exact() {
    let b = Book {
        isbn: 1,
        title: "A".to_string(),
        author: String::new(),
        description: "é".to_string(),
        language: Lang::German,
        issue_year: -1,
    };
    let bytes = encode_book(&b).unwrap();
    let expected: Vec<u8> = vec![
        1, 0, 0, 0, 0, 0, 0, 0, // isbn
        1, 0, 0, 0, b'A', // title
        0, 0, 0, 0, // author
        2, 0, 0, 0, 0xc3, 0xa9, // description
        3, 0, 0, 0, // language
        0xff, 0xff, 0xff, 0xff, // issue year
    ];
    assert_eq!(bytes, expected);
}

#[test]
fn book_round_trip() {
    let b = sample_book();
    let bytes = encode_book(&b).unwrap();
    let d = decode_book(&bytes).unwrap();
    assert_eq!(d.isbn, b.isbn);
    assert_eq!(d.title, b.title);
    assert_eq!(d.author, b.author);
    assert_eq!(d.description, b.description);
    assert_eq!(d.language, b.language);
    assert_eq!(d.issue_year, b.issue_year);
}

#[test]
fn review_round_trip() {
    let r = sample_review("anon", Rating::Four);
    let bytes = encode_review(&r).unwrap();
    let d = decode_review(&bytes).unwrap();
    assert!(same_review(&d, &r));
}

#[test]
fn part_round_trip() {
    let p = NewReviewPart {
        isbn: -42,
        username: "ユーザー",
        rating: Rating::Two,
        description: "",
    };
    let bytes = encode_part(&p).unwrap();
    let d = decode_part(&bytes).unwrap();
    assert_eq!(d.isbn, -42);
    assert_eq!(d.username, "ユーザー");
    assert_eq!(d.rating, Rating::Two);
    assert_eq!(d.description, "");
}

#[test]
fn review_list_round_trip() {
    let list = vec![
        sample_review("anon", Rating::One),
        sample_review("bob", Rating::Five),
        sample_review("", Rating::Three),
    ];
    let bytes = encode_reviews(&list).unwrap();
    let d = decode_reviews(&bytes).unwrap();
    assert_eq!(d.len(), 3);
    for (a, b) in d.iter().zip(list.iter()) {
        assert!(same_review(a, b));
    }
}

#[test]
fn empty_review_list_round_trip() {
    let bytes = encode_reviews(&Vec::new()).unwrap();
    assert_eq!(bytes, vec![0, 0, 0, 0]);
    assert_eq!(decode_reviews(&bytes).unwrap().len(), 0);
}

#[test]
fn truncated_buffers_fail() {
    let bytes = encode_book(&sample_book()).unwrap();
    for n in 0..bytes.len() {
        assert_eq!(decode_book(&bytes[..n]).err(), Some(CodecError::Malformed));
    }
    let list = vec![sample_review("anon", Rating::One), sample_review("bob", Rating::Two)];
    let bytes = encode_reviews(&list).unwrap();
    for n in 0..bytes.len() {
        assert_eq!(decode_reviews(&bytes[..n]).err(), Some(CodecError::Malformed));
    }
}

#[test]
fn trailing_bytes_fail() {
    let mut bytes = encode_review(&sample_review("anon", Rating::One)).unwrap();
    bytes.push(0);
    assert_eq!(decode_review(&bytes).err(), Some(CodecError::Malformed));
    let mut bytes = encode_part(&NewReviewPart {
        isbn: 1,
        username: "a",
        rating: Rating::One,
        description: "b",
    })
    .unwrap();
    bytes.extend_from_slice(&[1, 2, 3]);
    assert_eq!(decode_part(&bytes).err(), Some(CodecError::Malformed));
}

#[test]
fn length_prefix_past_the_end_fails() {
    let mut bytes = vec![0u8; 8];
    bytes.extend_from_slice(&[10, 0, 0, 0, b'a', b'b']);
    assert_eq!(decode_part(&bytes).err(), Some(CodecError::Malformed));
}

#[test]
fn out_of_range_ordinals_fail() {
    let mut bytes = encode_part(&NewReviewPart {
        isbn: 1,
        username: "a",
        rating: Rating::Five,
        description: "b",
    })
    .unwrap();
    // the rating follows the isbn (8 bytes) and the username (4 + 1 bytes)
    assert_eq!(bytes[13], 4);
    bytes[13] = 5;
    assert_eq!(decode_part(&bytes).err(), Some(CodecError::Malformed));

    let mut bytes = encode_book(&Book {
        isbn: 1,
        title: String::new(),
        author: String::new(),
        description: String::new(),
        language: Lang::Japanese,
        issue_year: 2000,
    })
    .unwrap();
    assert_eq!(bytes[20], 5);
    bytes[20] = 6;
    assert_eq!(decode_book(&bytes).err(), Some(CodecError::Malformed));
}

#[test]
fn invalid_utf8_fails() {
    let mut bytes = encode_part(&NewReviewPart {
        isbn: 1,
        username: "ab",
        rating: Rating::One,
        description: "",
    })
    .unwrap();
    bytes[12] = 0xff;
    assert_eq!(decode_part(&bytes).err(), Some(CodecError::Malformed));
}

#[test]
fn unnormalised_timestamp_fails() {
    let mut r = sample_review("anon", Rating::One);
    r.updated_at = Timestamp { secs: 1, nanos: 1_000_000_000 };
    assert_eq!(encode_review(&r).err(), Some(CodecError::Unrepresentable));
    let good = encode_review(&sample_review("anon", Rating::One)).unwrap();
    let mut bad = good.clone();
    let n = bad.len();
    bad[n - 4..].copy_from_slice(&1_000_000_000u32.to_le_bytes());
    assert_eq!(decode_review(&bad).err(), Some(CodecError::Malformed));
}

#[test]
fn decoded_text_is_the_encoded_text() {
    let bytes = encode_part(&NewReviewPart {
        isbn: 7,
        username: "Ærøskøbing",
        rating: Rating::Three,
        description: "naïve",
    })
    .unwrap();
    let d = decode_part(&bytes).unwrap();
    assert_eq!(d.username, "Ærøskøbing");
    assert_eq!(d.description, "naïve");
    assert_ne!(d.username, "");
}

#[test]
fn review_bytes_match_speedy() {
    let r = sample_review("anon", Rating::Three);
    let ours = encode_review(&r).unwrap();
    let theirs = (
        r.isbn,
        r.username.clone(),
        2u32,
        r.description.clone(),
        system_time(r.created_at),
        system_time(r.updated_at),
    )
        .write_to_vec()
        .unwrap();
    assert_eq!(ours, theirs);
}

#[test]
fn review_list_bytes_match_speedy() {
    let list = vec![sample_review("anon", Rating::One), sample_review("bob", Rating::Five)];
    let ours = encode_reviews(&list).unwrap();
    let tuples: Vec<(i64, String, u32, String, SystemTime, SystemTime)> = list
        .iter()
        .map(|r| {
            (
                r.isbn,
                r.username.clone(),
                r.rating.index(),
                r.description.clone(),
                system_time(r.created_at),
                system_time(r.updated_at),
            )
        })
        .collect();
    let theirs = tuples.write_to_vec().unwrap();
    assert_eq!(ours, theirs);
    let back: Vec<(i64, String, u32, String, SystemTime, SystemTime)> =
        Readable::read_from_buffer(&ours).unwrap();
    assert_eq!(back, tuples);
}

#[test]
fn book_bytes_match_speedy() {
    let b = sample_book();
    let ours = encode_book(&b).unwrap();
    let theirs = (b.isbn, b.title.clone(), b.author.clone(), b.description.clone(), 0u32, b.issue_year)
        .write_to_vec()
        .unwrap();
    assert_eq!(ours, theirs);
}

#[test]
fn book_list_round_trip() {
    let mut second = sample_book();
    second.isbn = 9_780_306_406_157;
    second.language = Lang::Chinese;
    second.title = "书".to_string();
    let list = vec![sample_book(), second];
    let bytes = encode_books(&list).unwrap();
    let d = decode_books(&bytes).unwrap();
    assert_eq!(d.len(), 2);
    assert_eq!(d[0].isbn, 9_780_747_542_155);
    assert_eq!(d[1].isbn, 9_780_306_406_157);
    assert_eq!(d[1].title, "书");
    assert_eq!(d[1].language, Lang::Chinese);
    for n in 0..bytes.len() {
        assert_eq!(decode_books(&bytes[..n]).err(), Some(CodecError::Malformed));
    }
}

#[test]
fn part_list_round_trip() {
    let list = vec![
        NewReviewPart { isbn: 1, username: "a", rating: Rating::One, description: "x" },
        NewReviewPart { isbn: 2, username: "b", rating: Rating::Five, description: "" },
    ];
    let bytes = encode_parts(&list).unwrap();
    let d = decode_parts(&bytes).unwrap();
    assert_eq!(d.len(), 2);
    assert_eq!(d[0].username, "a");
    assert_eq!(d[0].description, "x");
    assert_eq!(d[1].isbn, 2);
    assert_eq!(d[1].rating, Rating::Five);
    let mut longer = bytes.clone();
    longer.push(9);
    assert_eq!(decode_parts(&longer).err(), Some(CodecError::Malformed));
}

#[test]
fn list_count_past_the_end_fails() {
    let bytes = vec![3, 0, 0, 0];
    assert_eq!(decode_reviews(&bytes).err(), Some(CodecError::Malformed));
    assert_eq!(decode_books(&[]).err(), Some(CodecError::Malformed));
}
