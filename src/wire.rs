//! The review API's binary format, stated as spec functions.
//!
//! Integers are little-endian and fixed-width; a text is its UTF-8 byte
//! count as a `u32` followed by those bytes; an enumeration is its 0-based
//! ordinal as a `u32`; a timestamp is its seconds as a `u64` followed by its
//! nanoseconds as a `u32`; a list is its item count as a `u32` followed by the
//! items. Records are their fields in declaration order.
//!
//! Parsers work on a whole buffer and a position, and give the value read and
//! the position after it.
use vstd::prelude::*;
use vstd::utf8::{decode_utf8, encode_utf8, valid_utf8};

use crate::models::{
    lang_index, rating_index, BookView, Lang, Rating, ReviewPartView, ReviewView, Timestamp,
    LANG_COUNT, NANOS_PER_SEC, RATING_COUNT,
};

verus! {

pub open spec fn le_u32(v: u32) -> Seq<u8> {
    seq![v as u8, (v >> 8u32) as u8, (v >> 16u32) as u8, (v >> 24u32) as u8]
}

pub open spec fn le_u64(v: u64) -> Seq<u8> {
    seq![
        v as u8,
        (v >> 8u64) as u8,
        (v >> 16u64) as u8,
        (v >> 24u64) as u8,
        (v >> 32u64) as u8,
        (v >> 40u64) as u8,
        (v >> 48u64) as u8,
        (v >> 56u64) as u8,
    ]
}

pub open spec fn u32_of_le(b: Seq<u8>) -> u32 {
    (b[0] as u32) | ((b[1] as u32) << 8u32) | ((b[2] as u32) << 16u32) | ((b[3] as u32) << 24u32)
}

pub open spec fn u64_of_le(b: Seq<u8>) -> u64 {
    (b[0] as u64) | ((b[1] as u64) << 8u64) | ((b[2] as u64) << 16u64) | ((b[3] as u64) << 24u64)
        | ((b[4] as u64) << 32u64) | ((b[5] as u64) << 40u64) | ((b[6] as u64) << 48u64) | ((
    b[7] as u64) << 56u64)
}

pub open spec fn lang_of_index(i: u32) -> Lang
    recommends
        i < LANG_COUNT,
{
    if i == 0 {
        Lang::English
    } else if i == 1 {
        Lang::Russian
    } else if i == 2 {
        Lang::Ukrainian
    } else if i == 3 {
        Lang::German
    } else if i == 4 {
        Lang::Chinese
    } else {
        Lang::Japanese
    }
}

pub open spec fn rating_of_index(i: u32) -> Rating
    recommends
        i < RATING_COUNT,
{
    if i == 0 {
        Rating::One
    } else if i == 1 {
        Rating::Two
    } else if i == 2 {
        Rating::Three
    } else if i == 3 {
        Rating::Four
    } else {
        Rating::Five
    }
}

// ---------------------------------------------------------------- encoding

/// A text's UTF-8 byte count fits the `u32` length prefix.
pub open spec fn text_fits(s: Seq<char>) -> bool {
    encode_utf8(s).len() <= u32::MAX
}

pub open spec fn enc_text(s: Seq<char>) -> Seq<u8> {
    le_u32(encode_utf8(s).len() as u32) + encode_utf8(s)
}

pub open spec fn enc_timestamp(t: Timestamp) -> Seq<u8> {
    le_u64(t.secs) + le_u32(t.nanos)
}

pub open spec fn book_fits(v: BookView) -> bool {
    text_fits(v.title) && text_fits(v.author) && text_fits(v.description)
}

pub open spec fn enc_book(v: BookView) -> Seq<u8> {
    le_u64(v.isbn as u64) + enc_text(v.title) + enc_text(v.author) + enc_text(v.description)
        + le_u32(lang_index(v.language)) + le_u32(v.issue_year as u32)
}

pub open spec fn review_fits(v: ReviewView) -> bool {
    text_fits(v.username) && text_fits(v.description) && v.wf()
}

pub open spec fn enc_review(v: ReviewView) -> Seq<u8> {
    le_u64(v.isbn as u64) + enc_text(v.username) + le_u32(rating_index(v.rating)) + enc_text(
        v.description,
    ) + enc_timestamp(v.created_at) + enc_timestamp(v.updated_at)
}

pub open spec fn part_fits(v: ReviewPartView) -> bool {
    text_fits(v.username) && text_fits(v.description)
}

pub open spec fn enc_part(v: ReviewPartView) -> Seq<u8> {
    le_u64(v.isbn as u64) + enc_text(v.username) + le_u32(rating_index(v.rating)) + enc_text(
        v.description,
    )
}

/// Every item can be encoded and the count fits its `u32` prefix.
pub open spec fn all_fit<T>(s: Seq<T>, fits: spec_fn(T) -> bool) -> bool {
    s.len() <= u32::MAX && forall|i: int| 0 <= i < s.len() ==> #[trigger] fits(s[i])
}

/// The items of a list, encoded one after the other.
pub open spec fn enc_items<T>(s: Seq<T>, enc: spec_fn(T) -> Seq<u8>) -> Seq<u8>
    decreases s.len(),
{
    if s.len() == 0 {
        Seq::empty()
    } else {
        enc_items(s.drop_last(), enc) + enc(s.last())
    }
}

pub open spec fn enc_list<T>(s: Seq<T>, enc: spec_fn(T) -> Seq<u8>) -> Seq<u8> {
    le_u32(s.len() as u32) + enc_items(s, enc)
}

pub open spec fn book_enc() -> spec_fn(BookView) -> Seq<u8> {
    |v: BookView| enc_book(v)
}

pub open spec fn book_ok() -> spec_fn(BookView) -> bool {
    |v: BookView| book_fits(v)
}

pub open spec fn review_enc() -> spec_fn(ReviewView) -> Seq<u8> {
    |v: ReviewView| enc_review(v)
}

pub open spec fn review_ok() -> spec_fn(ReviewView) -> bool {
    |v: ReviewView| review_fits(v)
}

pub open spec fn part_enc() -> spec_fn(ReviewPartView) -> Seq<u8> {
    |v: ReviewPartView| enc_part(v)
}

pub open spec fn part_ok() -> spec_fn(ReviewPartView) -> bool {
    |v: ReviewPartView| part_fits(v)
}

pub open spec fn books_fit(s: Seq<BookView>) -> bool {
    all_fit(s, book_ok())
}

pub open spec fn enc_books(s: Seq<BookView>) -> Seq<u8> {
    enc_list(s, book_enc())
}

pub open spec fn reviews_fit(s: Seq<ReviewView>) -> bool {
    all_fit(s, review_ok())
}

pub open spec fn enc_reviews(s: Seq<ReviewView>) -> Seq<u8> {
    enc_list(s, review_enc())
}

pub open spec fn parts_fit(s: Seq<ReviewPartView>) -> bool {
    all_fit(s, part_ok())
}

pub open spec fn enc_parts(s: Seq<ReviewPartView>) -> Seq<u8> {
    enc_list(s, part_enc())
}

// ---------------------------------------------------------------- parsing

pub open spec fn take_u32(b: Seq<u8>, p: int) -> Option<(u32, int)> {
    if 0 <= p && p + 4 <= b.len() {
        Some((u32_of_le(b.subrange(p, p + 4)), p + 4))
    } else {
        None
    }
}

pub open spec fn take_u64(b: Seq<u8>, p: int) -> Option<(u64, int)> {
    if 0 <= p && p + 8 <= b.len() {
        Some((u64_of_le(b.subrange(p, p + 8)), p + 8))
    } else {
        None
    }
}

pub open spec fn take_i64(b: Seq<u8>, p: int) -> Option<(i64, int)> {
    match take_u64(b, p) {
        Some((v, q)) => Some((v as i64, q)),
        None => None,
    }
}

pub open spec fn take_i32(b: Seq<u8>, p: int) -> Option<(i32, int)> {
    match take_u32(b, p) {
        Some((v, q)) => Some((v as i32, q)),
        None => None,
    }
}

/// A length prefix, then that many bytes of valid UTF-8.
pub open spec fn take_text(b: Seq<u8>, p: int) -> Option<(Seq<char>, int)> {
    match take_u32(b, p) {
        Some((n, q)) => if q + n <= b.len() && valid_utf8(b.subrange(q, q + n)) {
            Some((decode_utf8(b.subrange(q, q + n)), q + n))
        } else {
            None
        },
        None => None,
    }
}

pub open spec fn take_lang(b: Seq<u8>, p: int) -> Option<(Lang, int)> {
    match take_u32(b, p) {
        Some((i, q)) => if i < LANG_COUNT {
            Some((lang_of_index(i), q))
        } else {
            None
        },
        None => None,
    }
}

pub open spec fn take_rating(b: Seq<u8>, p: int) -> Option<(Rating, int)> {
    match take_u32(b, p) {
        Some((i, q)) => if i < RATING_COUNT {
            Some((rating_of_index(i), q))
        } else {
            None
        },
        None => None,
    }
}

/// Seconds, then nanoseconds, which must be below one second.
pub open spec fn take_timestamp(b: Seq<u8>, p: int) -> Option<(Timestamp, int)> {
    match take_u64(b, p) {
        Some((secs, q)) => match take_u32(b, q) {
            Some((nanos, r)) => if nanos < NANOS_PER_SEC {
                Some((Timestamp { secs, nanos }, r))
            } else {
                None
            },
            None => None,
        },
        None => None,
    }
}

#[verifier::opaque]
pub open spec fn take_book(b: Seq<u8>, p: int) -> Option<(BookView, int)> {
    match take_i64(b, p) {
        Some((isbn, q1)) => match take_text(b, q1) {
            Some((title, q2)) => match take_text(b, q2) {
                Some((author, q3)) => match take_text(b, q3) {
                    Some((description, q4)) => match take_lang(b, q4) {
                        Some((language, q5)) => match take_i32(b, q5) {
                            Some((issue_year, q6)) => Some(
                                (
                                    BookView {
                                        isbn,
                                        title,
                                        author,
                                        description,
                                        language,
                                        issue_year,
                                    },
                                    q6,
                                ),
                            ),
                            None => None,
                        },
                        None => None,
                    },
                    None => None,
                },
                None => None,
            },
            None => None,
        },
        None => None,
    }
}

#[verifier::opaque]
pub open spec fn take_part(b: Seq<u8>, p: int) -> Option<(ReviewPartView, int)> {
    match take_i64(b, p) {
        Some((isbn, q1)) => match take_text(b, q1) {
            Some((username, q2)) => match take_rating(b, q2) {
                Some((rating, q3)) => match take_text(b, q3) {
                    Some((description, q4)) => Some(
                        (ReviewPartView { isbn, username, rating, description }, q4),
                    ),
                    None => None,
                },
                None => None,
            },
            None => None,
        },
        None => None,
    }
}

#[verifier::opaque]
pub open spec fn take_review(b: Seq<u8>, p: int) -> Option<(ReviewView, int)> {
    match take_part(b, p) {
        Some((part, q4)) => match take_timestamp(b, q4) {
            Some((created_at, q5)) => match take_timestamp(b, q5) {
                Some((updated_at, q6)) => Some(
                    (
                        ReviewView {
                            isbn: part.isbn,
                            username: part.username,
                            rating: part.rating,
                            description: part.description,
                            created_at,
                            updated_at,
                        },
                        q6,
                    ),
                ),
                None => None,
            },
            None => None,
        },
        None => None,
    }
}

/// `n` items, one after the other.
#[verifier::opaque]
pub open spec fn take_items<T>(
    b: Seq<u8>,
    p: int,
    n: nat,
    take: spec_fn(Seq<u8>, int) -> Option<(T, int)>,
) -> Option<(Seq<T>, int)>
    decreases n,
{
    if n == 0 {
        Some((Seq::empty(), p))
    } else {
        match take_items(b, p, (n - 1) as nat, take) {
            Some((s, q)) => match take(b, q) {
                Some((v, r)) => Some((s.push(v), r)),
                None => None,
            },
            None => None,
        }
    }
}

/// An item count, then that many items.
pub open spec fn take_list<T>(b: Seq<u8>, p: int, take: spec_fn(Seq<u8>, int) -> Option<(T, int)>) -> Option<
    (Seq<T>, int),
> {
    match take_u32(b, p) {
        Some((n, q)) => take_items(b, q, n as nat, take),
        None => None,
    }
}

pub open spec fn book_take() -> spec_fn(Seq<u8>, int) -> Option<(BookView, int)> {
    |b: Seq<u8>, p: int| take_book(b, p)
}

pub open spec fn review_take() -> spec_fn(Seq<u8>, int) -> Option<(ReviewView, int)> {
    |b: Seq<u8>, p: int| take_review(b, p)
}

pub open spec fn part_take() -> spec_fn(Seq<u8>, int) -> Option<(ReviewPartView, int)> {
    |b: Seq<u8>, p: int| take_part(b, p)
}

/// A value read from the whole buffer, with no byte left over.
pub open spec fn whole<T>(b: Seq<u8>, r: Option<(T, int)>) -> Option<T> {
    match r {
        Some((v, q)) => if q == b.len() {
            Some(v)
        } else {
            None
        },
        None => None,
    }
}

pub open spec fn decode_book_bytes(b: Seq<u8>) -> Option<BookView> {
    whole(b, take_book(b, 0))
}

pub open spec fn decode_review_bytes(b: Seq<u8>) -> Option<ReviewView> {
    whole(b, take_review(b, 0))
}

pub open spec fn decode_part_bytes(b: Seq<u8>) -> Option<ReviewPartView> {
    whole(b, take_part(b, 0))
}

pub open spec fn decode_books_bytes(b: Seq<u8>) -> Option<Seq<BookView>> {
    whole(b, take_list(b, 0, book_take()))
}

pub open spec fn decode_reviews_bytes(b: Seq<u8>) -> Option<Seq<ReviewView>> {
    whole(b, take_list(b, 0, review_take()))
}

pub open spec fn decode_parts_bytes(b: Seq<u8>) -> Option<Seq<ReviewPartView>> {
    whole(b, take_list(b, 0, part_take()))
}

} // verus!
