//! Encoder and decoder of the review API's binary format (see [`crate::wire`]).
//!
//! Encoding fails only where a length does not fit its `u32` prefix or a
//! timestamp is not normalised; decoding fails on any buffer that is not
//! exactly the encoding of a value.
use vstd::prelude::*;
use vstd::slice::slice_subrange;
use vstd::string::StringSliceAdditionalSpecFns;
use vstd::utf8::{decode_utf8, encode_utf8, valid_utf8};

use crate::models::{
    rating_index, Book, BookView, Lang, NewReviewPart, Rating, Review, ReviewPartView, ReviewView,
    Timestamp, NANOS_PER_SEC,
};
use crate::wire::{
    book_enc, book_fits, book_ok, book_take, books_fit, decode_book_bytes, decode_books_bytes, decode_part_bytes, decode_parts_bytes, decode_review_bytes, decode_reviews_bytes, enc_book, enc_books, enc_items, enc_part, enc_parts, enc_review, enc_reviews, enc_text, enc_timestamp, le_u32, le_u64, part_enc, part_fits, part_ok, part_take, parts_fit, review_enc, review_fits, review_ok, review_take, reviews_fit, take_book, take_i32, take_i64, take_items, take_lang, take_list, take_part, take_rating, take_review, take_text, take_timestamp, take_u32, take_u64, text_fits, whole,
};

verus! {

broadcast use {vstd::utf8::encode_utf8_decode_utf8, vstd::utf8::decode_utf8_encode_utf8};

/// Why a value could not be encoded or a buffer could not be decoded.
#[derive(Clone, Copy, Debug, PartialEq, Eq, Structural)]
pub enum CodecError {
    /// A text or list is longer than a `u32` prefix can count, or a timestamp
    /// has a nanosecond part of a second or more.
    Unrepresentable,
    /// The buffer is not exactly the encoding of a value.
    Malformed,
}

/// The views of a sequence of books.
pub open spec fn book_views(v: Seq<Book>) -> Seq<BookView> {
    v.map_values(|b: Book| b@)
}

/// The views of a sequence of reviews.
pub open spec fn review_views(v: Seq<Review>) -> Seq<ReviewView> {
    v.map_values(|r: Review| r@)
}

/// The views of a sequence of review requests.
pub open spec fn part_views<'a>(v: Seq<NewReviewPart<'a>>) -> Seq<ReviewPartView> {
    v.map_values(|p: NewReviewPart<'a>| p@)
}

/// Relies on `std::str::from_utf8`: it accepts exactly the well-formed UTF-8
/// byte sequences, and the string it returns is made of those same bytes.
#[verifier::external_body]
fn utf8_str<'a>(b: &'a [u8]) -> (r: Option<&'a str>)
    ensures
        r is Some <==> valid_utf8(b@),
        r is Some ==> r->0.spec_bytes() == b@,
{
    std::str::from_utf8(b).ok()
}

// ---------------------------------------------------------------- writing

fn put_u32(out: &mut Vec<u8>, v: u32)
    ensures
        final(out)@ == old(out)@ + le_u32(v),
{
    out.push(v as u8);
    out.push((v >> 8u32) as u8);
    out.push((v >> 16u32) as u8);
    out.push((v >> 24u32) as u8);
    assert(final(out)@ =~= old(out)@ + le_u32(v));
}

fn put_u64(out: &mut Vec<u8>, v: u64)
    ensures
        final(out)@ == old(out)@ + le_u64(v),
{
    out.push(v as u8);
    out.push((v >> 8u64) as u8);
    out.push((v >> 16u64) as u8);
    out.push((v >> 24u64) as u8);
    out.push((v >> 32u64) as u8);
    out.push((v >> 40u64) as u8);
    out.push((v >> 48u64) as u8);
    out.push((v >> 56u64) as u8);
    assert(final(out)@ =~= old(out)@ + le_u64(v));
}

/// `true` when the UTF-8 form of `s` fits a `u32` length prefix.
fn text_fits_prefix(s: &str) -> (r: bool)
    ensures
        r == text_fits(s@),
{
    s.as_bytes().len() as u64 <= 0xffff_ffffu64
}

fn put_text(out: &mut Vec<u8>, s: &str)
    requires
        text_fits(s@),
    ensures
        final(out)@ == old(out)@ + enc_text(s@),
{
    let b = s.as_bytes();
    put_u32(out, b.len() as u32);
    let ghost start = out@;
    let mut i: usize = 0;
    while i < b.len()
        invariant
            i <= b@.len(),
            out@ == start + b@.subrange(0, i as int),
        decreases b@.len() - i,
    {
        out.push(b[i]);
        i = i + 1;
        assert(out@ =~= start + b@.subrange(0, i as int));
    }
    assert(b@.subrange(0, b@.len() as int) =~= b@);
    assert(out@ =~= old(out)@ + enc_text(s@));
}

fn put_timestamp(out: &mut Vec<u8>, t: Timestamp)
    ensures
        final(out)@ == old(out)@ + enc_timestamp(t),
{
    put_u64(out, t.secs);
    put_u32(out, t.nanos);
    assert(final(out)@ =~= old(out)@ + enc_timestamp(t));
}

/// The fields that a review and a review request share.
fn put_part_fields(out: &mut Vec<u8>, isbn: i64, username: &str, rating: Rating, description: &str)
    requires
        text_fits(username@),
        text_fits(description@),
    ensures
        final(out)@ == old(out)@ + le_u64(isbn as u64) + enc_text(username@) + le_u32(
            rating_index(rating),
        ) + enc_text(description@),
{
    put_u64(out, isbn as u64);
    put_text(out, username);
    put_u32(out, rating.index());
    put_text(out, description);
}

fn put_review(out: &mut Vec<u8>, r: &Review)
    requires
        review_fits(r@),
    ensures
        final(out)@ == old(out)@ + enc_review(r@),
{
    put_part_fields(out, r.isbn, r.username.as_str(), r.rating, r.description.as_str());
    put_timestamp(out, r.created_at);
    put_timestamp(out, r.updated_at);
    assert(final(out)@ =~= old(out)@ + enc_review(r@));
}

fn put_book(out: &mut Vec<u8>, b: &Book)
    requires
        book_fits(b@),
    ensures
        final(out)@ == old(out)@ + enc_book(b@),
{
    put_u64(out, b.isbn as u64);
    put_text(out, b.title.as_str());
    put_text(out, b.author.as_str());
    put_text(out, b.description.as_str());
    put_u32(out, b.language.index());
    put_u32(out, b.issue_year as u32);
    assert(final(out)@ =~= old(out)@ + enc_book(b@));
}

fn book_fits_exec(b: &Book) -> (ok: bool)
    ensures
        ok == book_fits(b@),
{
    text_fits_prefix(b.title.as_str()) && text_fits_prefix(b.author.as_str())
        && text_fits_prefix(b.description.as_str())
}

fn put_part(out: &mut Vec<u8>, p: &NewReviewPart)
    requires
        part_fits(p@),
    ensures
        final(out)@ == old(out)@ + enc_part(p@),
{
    put_part_fields(out, p.isbn, p.username, p.rating, p.description);
    assert(final(out)@ =~= old(out)@ + enc_part(p@));
}

fn part_fits_exec(p: &NewReviewPart) -> (ok: bool)
    ensures
        ok == part_fits(p@),
{
    text_fits_prefix(p.username) && text_fits_prefix(p.description)
}

fn review_fits_exec(r: &Review) -> (ok: bool)
    ensures
        ok == review_fits(r@),
{
    text_fits_prefix(r.username.as_str()) && text_fits_prefix(r.description.as_str())
        && r.created_at.nanos < NANOS_PER_SEC && r.updated_at.nanos < NANOS_PER_SEC
}

/// Encodes a book; fails exactly when one of its texts is too long for the
/// format.
pub fn encode_book(b: &Book) -> (r: Result<Vec<u8>, CodecError>)
    ensures
        r is Ok <==> book_fits(b@),
        r is Ok ==> r->Ok_0@ == enc_book(b@),
        r is Err ==> r->Err_0 == CodecError::Unrepresentable,
{
    if !book_fits_exec(b) {
        return Err(CodecError::Unrepresentable);
    }
    let mut out: Vec<u8> = Vec::new();
    put_book(&mut out, b);
    assert(out@ =~= enc_book(b@));
    Ok(out)
}

/// Encodes a review; fails exactly when one of its texts is too long for the
/// format or one of its timestamps is not normalised.
pub fn encode_review(r: &Review) -> (res: Result<Vec<u8>, CodecError>)
    ensures
        res is Ok <==> review_fits(r@),
        res is Ok ==> res->Ok_0@ == enc_review(r@),
        res is Err ==> res->Err_0 == CodecError::Unrepresentable,
{
    if !review_fits_exec(r) {
        return Err(CodecError::Unrepresentable);
    }
    let mut out: Vec<u8> = Vec::new();
    put_review(&mut out, r);
    assert(out@ =~= enc_review(r@));
    Ok(out)
}

/// Encodes a review request; fails exactly when one of its texts is too long
/// for the format.
pub fn encode_part(p: &NewReviewPart) -> (r: Result<Vec<u8>, CodecError>)
    ensures
        r is Ok <==> part_fits(p@),
        r is Ok ==> r->Ok_0@ == enc_part(p@),
        r is Err ==> r->Err_0 == CodecError::Unrepresentable,
{
    if !part_fits_exec(p) {
        return Err(CodecError::Unrepresentable);
    }
    let mut out: Vec<u8> = Vec::new();
    put_part(&mut out, p);
    assert(out@ =~= enc_part(p@));
    Ok(out)
}

// ---------------------------------------------------------------- reading

fn get_u32(b: &[u8], p: usize) -> (r: Option<(u32, usize)>)
    ensures
        match r {
            Some((v, q)) => take_u32(b@, p as int) == Some((v, q as int)),
            None => take_u32(b@, p as int) is None,
        },
{
    if p > b.len() || b.len() - p < 4 {
        return None;
    }
    let v = (b[p] as u32) | ((b[p + 1] as u32) << 8u32) | ((b[p + 2] as u32) << 16u32) | ((b[p
        + 3] as u32) << 24u32);
    let ghost w = b@.subrange(p as int, p + 4);
    assert(w[0] == b@[p as int] && w[1] == b@[p + 1] && w[2] == b@[p + 2] && w[3] == b@[p + 3]);
    Some((v, p + 4))
}

fn get_u64(b: &[u8], p: usize) -> (r: Option<(u64, usize)>)
    ensures
        match r {
            Some((v, q)) => take_u64(b@, p as int) == Some((v, q as int)),
            None => take_u64(b@, p as int) is None,
        },
{
    if p > b.len() || b.len() - p < 8 {
        return None;
    }
    let v = (b[p] as u64) | ((b[p + 1] as u64) << 8u64) | ((b[p + 2] as u64) << 16u64) | ((b[p
        + 3] as u64) << 24u64) | ((b[p + 4] as u64) << 32u64) | ((b[p + 5] as u64) << 40u64) | ((b[p
        + 6] as u64) << 48u64) | ((b[p + 7] as u64) << 56u64);
    let ghost w = b@.subrange(p as int, p + 8);
    assert(w[0] == b@[p as int] && w[1] == b@[p + 1] && w[2] == b@[p + 2] && w[3] == b@[p + 3]);
    assert(w[4] == b@[p + 4] && w[5] == b@[p + 5] && w[6] == b@[p + 6] && w[7] == b@[p + 7]);
    Some((v, p + 8))
}

fn get_text<'a>(b: &'a [u8], p: usize) -> (r: Option<(&'a str, usize)>)
    ensures
        match r {
            Some((v, q)) => take_text(b@, p as int) == Some((v@, q as int)),
            None => take_text(b@, p as int) is None,
        },
{
    let (n, q) = match get_u32(b, p) {
        Some(x) => x,
        None => return None,
    };
    if n as usize > b.len() - q {
        return None;
    }
    let end = q + n as usize;
    let sub = slice_subrange(b, q, end);
    match utf8_str(sub) {
        Some(s) => {
            assert(decode_utf8(encode_utf8(s@)) == s@);
            Some((s, end))
        },
        None => None,
    }
}

fn get_timestamp(b: &[u8], p: usize) -> (r: Option<(Timestamp, usize)>)
    ensures
        match r {
            Some((v, q)) => take_timestamp(b@, p as int) == Some((v, q as int)),
            None => take_timestamp(b@, p as int) is None,
        },
{
    let (secs, q) = match get_u64(b, p) {
        Some(x) => x,
        None => return None,
    };
    let (nanos, q) = match get_u32(b, q) {
        Some(x) => x,
        None => return None,
    };
    match Timestamp::new(secs, nanos) {
        Some(t) => Some((t, q)),
        None => None,
    }
}

fn get_part<'a>(b: &'a [u8], p: usize) -> (r: Option<(NewReviewPart<'a>, usize)>)
    ensures
        match r {
            Some((v, q)) => take_part(b@, p as int) == Some((v@, q as int)),
            None => take_part(b@, p as int) is None,
        },
{
    reveal(take_part);
    let (isbn, q) = match get_u64(b, p) {
        Some(x) => x,
        None => return None,
    };
    let (username, q) = match get_text(b, q) {
        Some(x) => x,
        None => return None,
    };
    let (index, q) = match get_u32(b, q) {
        Some(x) => x,
        None => return None,
    };
    let rating = match Rating::from_index(index) {
        Some(x) => x,
        None => return None,
    };
    let (description, q) = match get_text(b, q) {
        Some(x) => x,
        None => return None,
    };
    Some((NewReviewPart { isbn: isbn as i64, username, rating, description }, q))
}

fn get_review(b: &[u8], p: usize) -> (r: Option<(Review, usize)>)
    ensures
        match r {
            Some((v, q)) => take_review(b@, p as int) == Some((v@, q as int)),
            None => take_review(b@, p as int) is None,
        },
{
    reveal(take_review);
    let (part, q) = match get_part(b, p) {
        Some(x) => x,
        None => return None,
    };
    let (created_at, q) = match get_timestamp(b, q) {
        Some(x) => x,
        None => return None,
    };
    let (updated_at, q) = match get_timestamp(b, q) {
        Some(x) => x,
        None => return None,
    };
    let review = Review {
        isbn: part.isbn,
        username: part.username.to_owned(),
        rating: part.rating,
        description: part.description.to_owned(),
        created_at,
        updated_at,
    };
    Some((review, q))
}

fn get_book(b: &[u8], p: usize) -> (r: Option<(Book, usize)>)
    ensures
        match r {
            Some((v, q)) => take_book(b@, p as int) == Some((v@, q as int)),
            None => take_book(b@, p as int) is None,
        },
{
    reveal(take_book);
    let (isbn, q) = match get_u64(b, p) {
        Some(x) => x,
        None => return None,
    };
    let (title, q) = match get_text(b, q) {
        Some(x) => x,
        None => return None,
    };
    let (author, q) = match get_text(b, q) {
        Some(x) => x,
        None => return None,
    };
    let (description, q) = match get_text(b, q) {
        Some(x) => x,
        None => return None,
    };
    let (index, q) = match get_u32(b, q) {
        Some(x) => x,
        None => return None,
    };
    let language = match Lang::from_index(index) {
        Some(x) => x,
        None => return None,
    };
    let (year, q) = match get_u32(b, q) {
        Some(x) => x,
        None => return None,
    };
    let book = Book {
        isbn: isbn as i64,
        title: title.to_owned(),
        author: author.to_owned(),
        description: description.to_owned(),
        language,
        issue_year: year as i32,
    };
    Some((book, q))
}

/// Decodes a book from a buffer that must hold exactly its encoding.
pub fn decode_book(b: &[u8]) -> (r: Result<Book, CodecError>)
    ensures
        match r {
            Ok(v) => decode_book_bytes(b@) == Some(v@),
            Err(e) => decode_book_bytes(b@) is None && e == CodecError::Malformed,
        },
{
    match get_book(b, 0) {
        Some((v, q)) => if q == b.len() {
            Ok(v)
        } else {
            Err(CodecError::Malformed)
        },
        None => Err(CodecError::Malformed),
    }
}

/// Decodes a review from a buffer that must hold exactly its encoding.
pub fn decode_review(b: &[u8]) -> (r: Result<Review, CodecError>)
    ensures
        match r {
            Ok(v) => decode_review_bytes(b@) == Some(v@),
            Err(e) => decode_review_bytes(b@) is None && e == CodecError::Malformed,
        },
{
    match get_review(b, 0) {
        Some((v, q)) => if q == b.len() {
            Ok(v)
        } else {
            Err(CodecError::Malformed)
        },
        None => Err(CodecError::Malformed),
    }
}

/// Decodes a review request from a buffer that must hold exactly its
/// encoding; its texts borrow from the buffer.
pub fn decode_part<'a>(b: &'a [u8]) -> (r: Result<NewReviewPart<'a>, CodecError>)
    ensures
        match r {
            Ok(v) => decode_part_bytes(b@) == Some(v@),
            Err(e) => decode_part_bytes(b@) is None && e == CodecError::Malformed,
        },
{
    match get_part(b, 0) {
        Some((v, q)) => if q == b.len() {
            Ok(v)
        } else {
            Err(CodecError::Malformed)
        },
        None => Err(CodecError::Malformed),
    }
}

/// Encodes a list of books; fails exactly when the list or one of its
/// items cannot be represented.
pub fn encode_books(items: &Vec<Book>) -> (r: Result<Vec<u8>, CodecError>)
    ensures
        r is Ok <==> books_fit(book_views(items@)),
        r is Ok ==> r->Ok_0@ == enc_books(book_views(items@)),
        r is Err ==> r->Err_0 == CodecError::Unrepresentable,
{
    let ghost views = book_views(items@);
    if items.len() as u64 > 0xffff_ffffu64 {
        return Err(CodecError::Unrepresentable);
    }
    let mut i: usize = 0;
    while i < items.len()
        invariant
            i <= items@.len(),
            views == book_views(items@),
            forall|j: int| 0 <= j < i ==> #[trigger] book_ok()(views[j]),
        decreases items@.len() - i,
    {
        assert(views[i as int] == items@[i as int]@);
        if !book_fits_exec(&items[i]) {
            assert(!book_ok()(views[i as int]));
            return Err(CodecError::Unrepresentable);
        }
        i = i + 1;
    }
    let mut out: Vec<u8> = Vec::new();
    put_u32(&mut out, items.len() as u32);
    let mut k: usize = 0;
    while k < items.len()
        invariant
            k <= items@.len(),
            views == book_views(items@),
            views.len() == items@.len(),
            items@.len() <= u32::MAX,
            forall|j: int| 0 <= j < items@.len() ==> #[trigger] book_ok()(views[j]),
            out@ == le_u32(items@.len() as u32) + enc_items(views.take(k as int), book_enc()),
        decreases items@.len() - k,
    {
        assert(views[k as int] == items@[k as int]@);
        assert(book_ok()(views[k as int]));
        put_book(&mut out, &items[k]);
        assert(views.take(k + 1).drop_last() =~= views.take(k as int));
        k = k + 1;
        assert(out@ =~= le_u32(items@.len() as u32) + enc_items(views.take(k as int), book_enc()));
    }
    assert(views.take(items@.len() as int) =~= views);
    Ok(out)
}

/// Encodes a list of reviews; fails exactly when the list or one of its
/// items cannot be represented.
pub fn encode_reviews(items: &Vec<Review>) -> (r: Result<Vec<u8>, CodecError>)
    ensures
        r is Ok <==> reviews_fit(review_views(items@)),
        r is Ok ==> r->Ok_0@ == enc_reviews(review_views(items@)),
        r is Err ==> r->Err_0 == CodecError::Unrepresentable,
{
    let ghost views = review_views(items@);
    if items.len() as u64 > 0xffff_ffffu64 {
        return Err(CodecError::Unrepresentable);
    }
    let mut i: usize = 0;
    while i < items.len()
        invariant
            i <= items@.len(),
            views == review_views(items@),
            forall|j: int| 0 <= j < i ==> #[trigger] review_ok()(views[j]),
        decreases items@.len() - i,
    {
        assert(views[i as int] == items@[i as int]@);
        if !review_fits_exec(&items[i]) {
            assert(!review_ok()(views[i as int]));
            return Err(CodecError::Unrepresentable);
        }
        i = i + 1;
    }
    let mut out: Vec<u8> = Vec::new();
    put_u32(&mut out, items.len() as u32);
    let mut k: usize = 0;
    while k < items.len()
        invariant
            k <= items@.len(),
            views == review_views(items@),
            views.len() == items@.len(),
            items@.len() <= u32::MAX,
            forall|j: int| 0 <= j < items@.len() ==> #[trigger] review_ok()(views[j]),
            out@ == le_u32(items@.len() as u32) + enc_items(views.take(k as int), review_enc()),
        decreases items@.len() - k,
    {
        assert(views[k as int] == items@[k as int]@);
        assert(review_ok()(views[k as int]));
        put_review(&mut out, &items[k]);
        assert(views.take(k + 1).drop_last() =~= views.take(k as int));
        k = k + 1;
        assert(out@ =~= le_u32(items@.len() as u32) + enc_items(views.take(k as int), review_enc()));
    }
    assert(views.take(items@.len() as int) =~= views);
    Ok(out)
}

/// Encodes a list of review requests; fails exactly when the list or one of its
/// items cannot be represented.
pub fn encode_parts<'a>(items: &Vec<NewReviewPart<'a>>) -> (r: Result<Vec<u8>, CodecError>)
    ensures
        r is Ok <==> parts_fit(part_views(items@)),
        r is Ok ==> r->Ok_0@ == enc_parts(part_views(items@)),
        r is Err ==> r->Err_0 == CodecError::Unrepresentable,
{
    let ghost views = part_views(items@);
    if items.len() as u64 > 0xffff_ffffu64 {
        return Err(CodecError::Unrepresentable);
    }
    let mut i: usize = 0;
    while i < items.len()
        invariant
            i <= items@.len(),
            views == part_views(items@),
            forall|j: int| 0 <= j < i ==> #[trigger] part_ok()(views[j]),
        decreases items@.len() - i,
    {
        assert(views[i as int] == items@[i as int]@);
        if !part_fits_exec(&items[i]) {
            assert(!part_ok()(views[i as int]));
            return Err(CodecError::Unrepresentable);
        }
        i = i + 1;
    }
    let mut out: Vec<u8> = Vec::new();
    put_u32(&mut out, items.len() as u32);
    let mut k: usize = 0;
    while k < items.len()
        invariant
            k <= items@.len(),
            views == part_views(items@),
            views.len() == items@.len(),
            items@.len() <= u32::MAX,
            forall|j: int| 0 <= j < items@.len() ==> #[trigger] part_ok()(views[j]),
            out@ == le_u32(items@.len() as u32) + enc_items(views.take(k as int), part_enc()),
        decreases items@.len() - k,
    {
        assert(views[k as int] == items@[k as int]@);
        assert(part_ok()(views[k as int]));
        put_part(&mut out, &items[k]);
        assert(views.take(k + 1).drop_last() =~= views.take(k as int));
        k = k + 1;
        assert(out@ =~= le_u32(items@.len() as u32) + enc_items(views.take(k as int), part_enc()));
    }
    assert(views.take(items@.len() as int) =~= views);
    Ok(out)
}

fn get_books(b: &[u8], p: usize) -> (r: Option<(Vec<Book>, usize)>)
    ensures
        match r {
            Some((v, q)) => take_list(b@, p as int, book_take()) == Some((book_views(v@), q as int)),
            None => take_list(b@, p as int, book_take()) is None,
        },
{
    let (n, start) = match get_u32(b, p) {
        Some(x) => x,
        None => return None,
    };
    let mut out: Vec<Book> = Vec::new();
    let mut q = start;
    let mut i: u32 = 0;
    proof {
        reveal(take_items);
        assert(book_views(out@) =~= Seq::<BookView>::empty());
    }
    while i < n
        invariant
            i <= n,
            take_u32(b@, p as int) == Some((n, start as int)),
            take_items(b@, start as int, i as nat, book_take()) == Some((book_views(out@), q as int)),
        decreases n - i,
    {
        proof {
            reveal(take_items);
        }
        match get_book(b, q) {
            Some((v, next)) => {
                let ghost before = out@;
                let ghost item = v@;
                out.push(v);
                q = next;
                i = i + 1;
                assert(book_views(out@) =~= book_views(before).push(item));
            },
            None => {
                proof {
                    lemma_items_stay_failed(b@, start as int, (i + 1) as nat, n as nat, book_take());
                }
                return None;
            },
        }
    }
    Some((out, q))
}

/// Decodes a list of books from a buffer that must hold exactly its
/// encoding.
pub fn decode_books(b: &[u8]) -> (r: Result<Vec<Book>, CodecError>)
    ensures
        match r {
            Ok(v) => decode_books_bytes(b@) == Some(book_views(v@)),
            Err(e) => decode_books_bytes(b@) is None && e == CodecError::Malformed,
        },
{
    match get_books(b, 0) {
        Some((v, q)) => if q == b.len() {
            Ok(v)
        } else {
            Err(CodecError::Malformed)
        },
        None => Err(CodecError::Malformed),
    }
}

fn get_reviews(b: &[u8], p: usize) -> (r: Option<(Vec<Review>, usize)>)
    ensures
        match r {
            Some((v, q)) => take_list(b@, p as int, review_take()) == Some((review_views(v@), q as int)),
            None => take_list(b@, p as int, review_take()) is None,
        },
{
    let (n, start) = match get_u32(b, p) {
        Some(x) => x,
        None => return None,
    };
    let mut out: Vec<Review> = Vec::new();
    let mut q = start;
    let mut i: u32 = 0;
    proof {
        reveal(take_items);
        assert(review_views(out@) =~= Seq::<ReviewView>::empty());
    }
    while i < n
        invariant
            i <= n,
            take_u32(b@, p as int) == Some((n, start as int)),
            take_items(b@, start as int, i as nat, review_take()) == Some((review_views(out@), q as int)),
        decreases n - i,
    {
        proof {
            reveal(take_items);
        }
        match get_review(b, q) {
            Some((v, next)) => {
                let ghost before = out@;
                let ghost item = v@;
                out.push(v);
                q = next;
                i = i + 1;
                assert(review_views(out@) =~= review_views(before).push(item));
            },
            None => {
                proof {
                    lemma_items_stay_failed(b@, start as int, (i + 1) as nat, n as nat, review_take());
                }
                return None;
            },
        }
    }
    Some((out, q))
}

/// Decodes a list of reviews from a buffer that must hold exactly its
/// encoding.
pub fn decode_reviews(b: &[u8]) -> (r: Result<Vec<Review>, CodecError>)
    ensures
        match r {
            Ok(v) => decode_reviews_bytes(b@) == Some(review_views(v@)),
            Err(e) => decode_reviews_bytes(b@) is None && e == CodecError::Malformed,
        },
{
    match get_reviews(b, 0) {
        Some((v, q)) => if q == b.len() {
            Ok(v)
        } else {
            Err(CodecError::Malformed)
        },
        None => Err(CodecError::Malformed),
    }
}

fn get_parts<'a>(b: &'a [u8], p: usize) -> (r: Option<(Vec<NewReviewPart<'a>>, usize)>)
    ensures
        match r {
            Some((v, q)) => take_list(b@, p as int, part_take()) == Some((part_views(v@), q as int)),
            None => take_list(b@, p as int, part_take()) is None,
        },
{
    let (n, start) = match get_u32(b, p) {
        Some(x) => x,
        None => return None,
    };
    let mut out: Vec<NewReviewPart<'a>> = Vec::new();
    let mut q = start;
    let mut i: u32 = 0;
    proof {
        reveal(take_items);
        assert(part_views(out@) =~= Seq::<ReviewPartView>::empty());
    }
    while i < n
        invariant
            i <= n,
            take_u32(b@, p as int) == Some((n, start as int)),
            take_items(b@, start as int, i as nat, part_take()) == Some((part_views(out@), q as int)),
        decreases n - i,
    {
        proof {
            reveal(take_items);
        }
        match get_part(b, q) {
            Some((v, next)) => {
                let ghost before = out@;
                let ghost item = v@;
                out.push(v);
                q = next;
                i = i + 1;
                assert(part_views(out@) =~= part_views(before).push(item));
            },
            None => {
                proof {
                    lemma_items_stay_failed(b@, start as int, (i + 1) as nat, n as nat, part_take());
                }
                return None;
            },
        }
    }
    Some((out, q))
}

/// Decodes a list of review requests from a buffer that must hold exactly its
/// encoding.
pub fn decode_parts<'a>(b: &'a [u8]) -> (r: Result<Vec<NewReviewPart<'a>>, CodecError>)
    ensures
        match r {
            Ok(v) => decode_parts_bytes(b@) == Some(part_views(v@)),
            Err(e) => decode_parts_bytes(b@) is None && e == CodecError::Malformed,
        },
{
    match get_parts(b, 0) {
        Some((v, q)) => if q == b.len() {
            Ok(v)
        } else {
            Err(CodecError::Malformed)
        },
        None => Err(CodecError::Malformed),
    }
}

proof fn lemma_items_stay_failed<T>(
    b: Seq<u8>,
    p: int,
    i: nat,
    n: nat,
    take: spec_fn(Seq<u8>, int) -> Option<(T, int)>,
)
    requires
        take_items(b, p, i, take) is None,
        i <= n,
    ensures
        take_items(b, p, n, take) is None,
    decreases n - i,
{
    if i < n {
        assert(take_items(b, p, i + 1, take) is None) by {
            reveal(take_items);
        }
        lemma_items_stay_failed(b, p, i + 1, n, take);
    }
}

} // verus!
