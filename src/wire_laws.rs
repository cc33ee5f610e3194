//! Laws of the binary format: every encodable value reads back as itself, and
//! a buffer that is cut short of an encoding, or runs past it, never decodes.
use vstd::prelude::*;
use vstd::utf8::{decode_utf8, encode_utf8, valid_utf8};

use crate::models::{
    lang_index, rating_index, BookView, Lang, Rating, ReviewPartView, ReviewView, Timestamp,
};
use crate::wire::{
    all_fit, book_enc, book_fits, book_ok, book_take, books_fit, decode_book_bytes, decode_books_bytes, decode_part_bytes, decode_parts_bytes, decode_review_bytes, decode_reviews_bytes, enc_book, enc_books, enc_items, enc_list, enc_part, enc_parts, enc_review, enc_reviews, enc_text, enc_timestamp, le_u32, le_u64, part_enc, part_fits, part_ok, part_take, parts_fit, review_enc, review_fits, review_ok, review_take, reviews_fit, take_book, take_i32, take_i64, take_items, take_lang, take_list, take_part, take_rating, take_review, take_text, take_timestamp, take_u32, take_u64, text_fits, u32_of_le, u64_of_le, whole,
};

verus! {

broadcast use {vstd::utf8::encode_utf8_decode_utf8, vstd::utf8::encode_utf8_valid_utf8};

/// `x` stands in `b` from position `p` on.
pub open spec fn sits_at(b: Seq<u8>, p: int, x: Seq<u8>) -> bool {
    0 <= p && p + x.len() <= b.len() && b.subrange(p, p + x.len()) == x
}

/// `b` is `c` or the start of it.
pub open spec fn is_prefix(b: Seq<u8>, c: Seq<u8>) -> bool {
    b.len() <= c.len() && c.subrange(0, b.len() as int) == b
}

pub proof fn lemma_split(b: Seq<u8>, p: int, x: Seq<u8>, y: Seq<u8>)
    requires
        sits_at(b, p, x + y),
    ensures
        sits_at(b, p, x),
        sits_at(b, p + x.len(), y),
{
    assert(b.subrange(p, p + x.len()) =~= (x + y).subrange(0, x.len() as int));
    assert((x + y).subrange(0, x.len() as int) =~= x);
    assert(b.subrange(p + x.len(), p + x.len() + y.len()) =~= (x + y).subrange(
        x.len() as int,
        (x + y).len() as int,
    ));
    assert((x + y).subrange(x.len() as int, (x + y).len() as int) =~= y);
}

proof fn lemma_split3(b: Seq<u8>, p: int, x: Seq<u8>, y: Seq<u8>, z: Seq<u8>)
    requires
        sits_at(b, p, x + y + z),
    ensures
        sits_at(b, p, x),
        sits_at(b, p + x.len(), y),
        sits_at(b, p + x.len() + y.len(), z),
{
    lemma_split(b, p, x + y, z);
    lemma_split(b, p, x, y);
}

pub proof fn lemma_u32_round_trip(v: u32)
    ensures
        u32_of_le(le_u32(v)) == v,
{
    let b = le_u32(v);
    let (b0, b1, b2, b3) = (b[0], b[1], b[2], b[3]);
    assert((b0 as u32) | ((b1 as u32) << 8u32) | ((b2 as u32) << 16u32) | ((b3 as u32) << 24u32)
        == v) by (bit_vector)
        requires
            b0 == v as u8,
            b1 == (v >> 8u32) as u8,
            b2 == (v >> 16u32) as u8,
            b3 == (v >> 24u32) as u8,
    ;
}

pub proof fn lemma_u64_round_trip(v: u64)
    ensures
        u64_of_le(le_u64(v)) == v,
{
    let b = le_u64(v);
    let (b0, b1, b2, b3, b4, b5, b6, b7) = (b[0], b[1], b[2], b[3], b[4], b[5], b[6], b[7]);
    assert((b0 as u64) | ((b1 as u64) << 8u64) | ((b2 as u64) << 16u64) | ((b3 as u64) << 24u64)
        | ((b4 as u64) << 32u64) | ((b5 as u64) << 40u64) | ((b6 as u64) << 48u64) | ((b7 as u64)
        << 56u64) == v) by (bit_vector)
        requires
            b0 == v as u8,
            b1 == (v >> 8u64) as u8,
            b2 == (v >> 16u64) as u8,
            b3 == (v >> 24u64) as u8,
            b4 == (v >> 32u64) as u8,
            b5 == (v >> 40u64) as u8,
            b6 == (v >> 48u64) as u8,
            b7 == (v >> 56u64) as u8,
    ;
}

proof fn lemma_take_u32(b: Seq<u8>, p: int, v: u32)
    requires
        sits_at(b, p, le_u32(v)),
    ensures
        take_u32(b, p) == Some((v, p + 4)),
{
    lemma_u32_round_trip(v);
}

proof fn lemma_take_i32(b: Seq<u8>, p: int, v: i32)
    requires
        sits_at(b, p, le_u32(v as u32)),
    ensures
        take_i32(b, p) == Some((v, p + 4)),
{
    lemma_u32_round_trip(v as u32);
    assert((v as u32) as i32 == v) by (bit_vector);
}

proof fn lemma_take_u64(b: Seq<u8>, p: int, v: u64)
    requires
        sits_at(b, p, le_u64(v)),
    ensures
        take_u64(b, p) == Some((v, p + 8)),
{
    lemma_u64_round_trip(v);
}

proof fn lemma_take_i64(b: Seq<u8>, p: int, v: i64)
    requires
        sits_at(b, p, le_u64(v as u64)),
    ensures
        take_i64(b, p) == Some((v, p + 8)),
{
    lemma_u64_round_trip(v as u64);
    assert((v as u64) as i64 == v) by (bit_vector);
}

proof fn lemma_take_text(b: Seq<u8>, p: int, s: Seq<char>)
    requires
        sits_at(b, p, enc_text(s)),
        text_fits(s),
    ensures
        take_text(b, p) == Some((s, p + enc_text(s).len())),
{
    let e = encode_utf8(s);
    lemma_split(b, p, le_u32(e.len() as u32), e);
    lemma_take_u32(b, p, e.len() as u32);
    assert(decode_utf8(e) == s);
    assert(valid_utf8(e));
}

proof fn lemma_take_lang(b: Seq<u8>, p: int, l: Lang)
    requires
        sits_at(b, p, le_u32(lang_index(l))),
    ensures
        take_lang(b, p) == Some((l, p + 4)),
{
    lemma_take_u32(b, p, lang_index(l));
}

proof fn lemma_take_rating(b: Seq<u8>, p: int, r: Rating)
    requires
        sits_at(b, p, le_u32(rating_index(r))),
    ensures
        take_rating(b, p) == Some((r, p + 4)),
{
    lemma_take_u32(b, p, rating_index(r));
}

proof fn lemma_take_timestamp(b: Seq<u8>, p: int, t: Timestamp)
    requires
        sits_at(b, p, enc_timestamp(t)),
        t.wf(),
    ensures
        take_timestamp(b, p) == Some((t, p + 12)),
{
    lemma_split(b, p, le_u64(t.secs), le_u32(t.nanos));
    lemma_take_u64(b, p, t.secs);
    lemma_take_u32(b, p + 8, t.nanos);
}

/// A book encoded at `p` reads back as itself.
pub proof fn lemma_take_book(b: Seq<u8>, p: int, v: BookView)
    requires
        sits_at(b, p, enc_book(v)),
        book_fits(v),
    ensures
        take_book(b, p) == Some((v, p + enc_book(v).len())),
{
    reveal(take_book);
    let a0 = le_u64(v.isbn as u64);
    let a1 = enc_text(v.title);
    let a2 = enc_text(v.author);
    let a3 = enc_text(v.description);
    let a4 = le_u32(lang_index(v.language));
    let a5 = le_u32(v.issue_year as u32);
    lemma_split(b, p, a0 + a1 + a2 + a3 + a4, a5);
    lemma_split(b, p, a0 + a1 + a2 + a3, a4);
    lemma_split(b, p, a0 + a1 + a2, a3);
    lemma_split3(b, p, a0, a1, a2);
    let q1 = p + a0.len();
    let q2 = q1 + a1.len();
    let q3 = q2 + a2.len();
    let q4 = q3 + a3.len();
    let q5 = q4 + a4.len();
    lemma_take_i64(b, p, v.isbn);
    lemma_take_text(b, q1, v.title);
    lemma_take_text(b, q2, v.author);
    lemma_take_text(b, q3, v.description);
    lemma_take_lang(b, q4, v.language);
    lemma_take_i32(b, q5, v.issue_year);
}

/// A review request encoded at `p` reads back as itself.
pub proof fn lemma_take_part(b: Seq<u8>, p: int, v: ReviewPartView)
    requires
        sits_at(b, p, enc_part(v)),
        part_fits(v),
    ensures
        take_part(b, p) == Some((v, p + enc_part(v).len())),
{
    reveal(take_part);
    let a0 = le_u64(v.isbn as u64);
    let a1 = enc_text(v.username);
    let a2 = le_u32(rating_index(v.rating));
    let a3 = enc_text(v.description);
    lemma_split(b, p, a0 + a1 + a2, a3);
    lemma_split3(b, p, a0, a1, a2);
    let q1 = p + a0.len();
    let q2 = q1 + a1.len();
    let q3 = q2 + a2.len();
    lemma_take_i64(b, p, v.isbn);
    lemma_take_text(b, q1, v.username);
    lemma_take_rating(b, q2, v.rating);
    lemma_take_text(b, q3, v.description);
}

/// A review encoded at `p` reads back as itself.
pub proof fn lemma_take_review(b: Seq<u8>, p: int, v: ReviewView)
    requires
        sits_at(b, p, enc_review(v)),
        review_fits(v),
    ensures
        take_review(b, p) == Some((v, p + enc_review(v).len())),
{
    reveal(take_review);
    let part = ReviewPartView {
        isbn: v.isbn,
        username: v.username,
        rating: v.rating,
        description: v.description,
    };
    assert(enc_review(v) == enc_part(part) + enc_timestamp(v.created_at) + enc_timestamp(
        v.updated_at,
    ));
    lemma_split3(b, p, enc_part(part), enc_timestamp(v.created_at), enc_timestamp(v.updated_at));
    lemma_take_part(b, p, part);
    let q = p + enc_part(part).len();
    lemma_take_timestamp(b, q, v.created_at);
    lemma_take_timestamp(b, q + 12, v.updated_at);
}

/// The position after a value that a parser read.
pub open spec fn pos_after<T>(r: Option<(T, int)>) -> int {
    match r {
        Some((_, q)) => q,
        None => 0,
    }
}

/// The value that a parser read.
pub open spec fn value_of<T>(r: Option<(T, int)>) -> T
    recommends
        r is Some,
{
    match r {
        Some((v, _)) => v,
        None => arbitrary(),
    }
}

proof fn lemma_prefix_range(b: Seq<u8>, c: Seq<u8>, i: int, j: int)
    requires
        is_prefix(b, c),
        0 <= i <= j <= b.len(),
    ensures
        c.subrange(i, j) == b.subrange(i, j),
{
    assert forall|k: int| 0 <= k < j - i implies c.subrange(i, j)[k] == b.subrange(i, j)[k] by {
        assert(c.subrange(0, b.len() as int)[i + k] == c[i + k]);
    }
    assert(c.subrange(i, j) =~= b.subrange(i, j));
}

proof fn lemma_extend_u32(b: Seq<u8>, c: Seq<u8>, p: int)
    requires
        is_prefix(b, c),
        take_u32(b, p) is Some,
    ensures
        take_u32(c, p) == take_u32(b, p),
{
    lemma_prefix_range(b, c, p, p + 4);
}

proof fn lemma_extend_u64(b: Seq<u8>, c: Seq<u8>, p: int)
    requires
        is_prefix(b, c),
        take_u64(b, p) is Some,
    ensures
        take_u64(c, p) == take_u64(b, p),
{
    lemma_prefix_range(b, c, p, p + 8);
}

proof fn lemma_extend_text(b: Seq<u8>, c: Seq<u8>, p: int)
    requires
        is_prefix(b, c),
        take_text(b, p) is Some,
    ensures
        take_text(c, p) == take_text(b, p),
{
    lemma_extend_u32(b, c, p);
    let n = value_of(take_u32(b, p));
    lemma_prefix_range(b, c, p + 4, p + 4 + n);
}

proof fn lemma_extend_timestamp(b: Seq<u8>, c: Seq<u8>, p: int)
    requires
        is_prefix(b, c),
        take_timestamp(b, p) is Some,
    ensures
        take_timestamp(c, p) == take_timestamp(b, p),
{
    lemma_extend_u64(b, c, p);
    lemma_extend_u32(b, c, p + 8);
}

proof fn lemma_extend_book(b: Seq<u8>, c: Seq<u8>, p: int)
    requires
        is_prefix(b, c),
        take_book(b, p) is Some,
    ensures
        take_book(c, p) == take_book(b, p),
{
    reveal(take_book);
    lemma_extend_u64(b, c, p);
    let q1 = p + 8;
    lemma_extend_text(b, c, q1);
    let q2 = pos_after(take_text(b, q1));
    lemma_extend_text(b, c, q2);
    let q3 = pos_after(take_text(b, q2));
    lemma_extend_text(b, c, q3);
    let q4 = pos_after(take_text(b, q3));
    lemma_extend_u32(b, c, q4);
    lemma_extend_u32(b, c, q4 + 4);
}

proof fn lemma_extend_part(b: Seq<u8>, c: Seq<u8>, p: int)
    requires
        is_prefix(b, c),
        take_part(b, p) is Some,
    ensures
        take_part(c, p) == take_part(b, p),
{
    reveal(take_part);
    lemma_extend_u64(b, c, p);
    let q1 = p + 8;
    lemma_extend_text(b, c, q1);
    let q2 = pos_after(take_text(b, q1));
    lemma_extend_u32(b, c, q2);
    lemma_extend_text(b, c, q2 + 4);
}

proof fn lemma_extend_review(b: Seq<u8>, c: Seq<u8>, p: int)
    requires
        is_prefix(b, c),
        take_review(b, p) is Some,
    ensures
        take_review(c, p) == take_review(b, p),
{
    reveal(take_review);
    lemma_extend_part(b, c, p);
    let q = pos_after(take_part(b, p));
    lemma_extend_timestamp(b, c, q);
    lemma_extend_timestamp(b, c, q + 12);
}

/// Decoding the encoding of a book gives back that book.
pub proof fn lemma_book_round_trip(v: BookView)
    requires
        book_fits(v),
    ensures
        decode_book_bytes(enc_book(v)) == Some(v),
{
    let e = enc_book(v);
    assert(e.subrange(0, e.len() as int) =~= e);
    lemma_take_book(e, 0, v);
}

/// A buffer that stops short of a book's encoding, or runs on past it, does
/// not decode.
pub proof fn lemma_book_mismatch_fails(v: BookView, b: Seq<u8>)
    requires
        book_fits(v),
        b != enc_book(v),
        is_prefix(b, enc_book(v)) || is_prefix(enc_book(v), b),
    ensures
        decode_book_bytes(b) is None,
{
    let e = enc_book(v);
    assert(e.subrange(0, e.len() as int) =~= e);
    lemma_take_book(e, 0, v);
    if is_prefix(e, b) {
        lemma_take_book(b, 0, v);
        assert(b.subrange(0, b.len() as int) =~= b);
        assert(b.len() != e.len());
        assert(take_book(b, 0) == Some((v, e.len() as int)));
    } else {
        let r = take_book(b, 0);
        if r is Some && pos_after(r) == b.len() {
            lemma_extend_book(b, e, 0);
            assert(e.subrange(0, b.len() as int) =~= e);
            assert(b.len() < e.len());
        }
        assert(decode_book_bytes(b) == whole(b, r));
    }
}

/// Decoding the encoding of a review gives back that review.
pub proof fn lemma_review_round_trip(v: ReviewView)
    requires
        review_fits(v),
    ensures
        decode_review_bytes(enc_review(v)) == Some(v),
{
    let e = enc_review(v);
    assert(e.subrange(0, e.len() as int) =~= e);
    lemma_take_review(e, 0, v);
}

/// A buffer that stops short of a review's encoding, or runs on past it, does
/// not decode.
pub proof fn lemma_review_mismatch_fails(v: ReviewView, b: Seq<u8>)
    requires
        review_fits(v),
        b != enc_review(v),
        is_prefix(b, enc_review(v)) || is_prefix(enc_review(v), b),
    ensures
        decode_review_bytes(b) is None,
{
    let e = enc_review(v);
    assert(e.subrange(0, e.len() as int) =~= e);
    lemma_take_review(e, 0, v);
    if is_prefix(e, b) {
        lemma_take_review(b, 0, v);
        assert(b.subrange(0, b.len() as int) =~= b);
        assert(b.len() != e.len());
        assert(take_review(b, 0) == Some((v, e.len() as int)));
    } else {
        let r = take_review(b, 0);
        if r is Some && pos_after(r) == b.len() {
            lemma_extend_review(b, e, 0);
            assert(e.subrange(0, b.len() as int) =~= e);
            assert(b.len() < e.len());
        }
        assert(decode_review_bytes(b) == whole(b, r));
    }
}

/// Decoding the encoding of a review request gives back that request.
pub proof fn lemma_part_round_trip(v: ReviewPartView)
    requires
        part_fits(v),
    ensures
        decode_part_bytes(enc_part(v)) == Some(v),
{
    let e = enc_part(v);
    assert(e.subrange(0, e.len() as int) =~= e);
    lemma_take_part(e, 0, v);
}

/// A buffer that stops short of a review request's encoding, or runs on past
/// it, does not decode.
pub proof fn lemma_part_mismatch_fails(v: ReviewPartView, b: Seq<u8>)
    requires
        part_fits(v),
        b != enc_part(v),
        is_prefix(b, enc_part(v)) || is_prefix(enc_part(v), b),
    ensures
        decode_part_bytes(b) is None,
{
    let e = enc_part(v);
    assert(e.subrange(0, e.len() as int) =~= e);
    lemma_take_part(e, 0, v);
    if is_prefix(e, b) {
        lemma_take_part(b, 0, v);
        assert(b.subrange(0, b.len() as int) =~= b);
        assert(b.len() != e.len());
        assert(take_part(b, 0) == Some((v, e.len() as int)));
    } else {
        let r = take_part(b, 0);
        if r is Some && pos_after(r) == b.len() {
            lemma_extend_part(b, e, 0);
            assert(e.subrange(0, b.len() as int) =~= e);
            assert(b.len() < e.len());
        }
        assert(decode_part_bytes(b) == whole(b, r));
    }
}

/// Each value that `fits` allows, encoded by `enc` at any position, is read
/// back by `take`.
pub open spec fn reads_back<T>(
    enc: spec_fn(T) -> Seq<u8>,
    take: spec_fn(Seq<u8>, int) -> Option<(T, int)>,
    fits: spec_fn(T) -> bool,
) -> bool {
    forall|b: Seq<u8>, p: int, v: T|
        #[trigger] sits_at(b, p, enc(v)) && fits(v) ==> take(b, p) == Some((v, p + enc(v).len()))
}

/// What `take` reads from a buffer, it reads the same from any longer buffer
/// that starts with it.
pub open spec fn stable_under_extension<T>(take: spec_fn(Seq<u8>, int) -> Option<(T, int)>) -> bool {
    forall|b: Seq<u8>, c: Seq<u8>, p: int|
        #![trigger is_prefix(b, c), take(b, p)]
        is_prefix(b, c) && take(b, p) is Some ==> take(c, p) == take(b, p)
}

proof fn lemma_take_items<T>(
    b: Seq<u8>,
    p: int,
    s: Seq<T>,
    enc: spec_fn(T) -> Seq<u8>,
    take: spec_fn(Seq<u8>, int) -> Option<(T, int)>,
    fits: spec_fn(T) -> bool,
)
    requires
        reads_back(enc, take, fits),
        sits_at(b, p, enc_items(s, enc)),
        forall|i: int| 0 <= i < s.len() ==> #[trigger] fits(s[i]),
    ensures
        take_items(b, p, s.len(), take) == Some((s, p + enc_items(s, enc).len())),
    decreases s.len(),
{
    reveal(take_items);
    if s.len() == 0 {
        assert(s =~= Seq::<T>::empty());
    } else {
        let init = s.drop_last();
        lemma_split(b, p, enc_items(init, enc), enc(s.last()));
        assert forall|i: int| 0 <= i < init.len() implies #[trigger] fits(init[i]) by {
            assert(init[i] == s[i]);
        }
        lemma_take_items(b, p, init, enc, take, fits);
        assert(fits(s[s.len() - 1]));
        assert(sits_at(b, p + enc_items(init, enc).len(), enc(s.last())));
        assert(init.push(s.last()) =~= s);
        assert(s.len() - 1 == init.len());
    }
}

proof fn lemma_take_list<T>(
    b: Seq<u8>,
    p: int,
    s: Seq<T>,
    enc: spec_fn(T) -> Seq<u8>,
    take: spec_fn(Seq<u8>, int) -> Option<(T, int)>,
    fits: spec_fn(T) -> bool,
)
    requires
        reads_back(enc, take, fits),
        sits_at(b, p, enc_list(s, enc)),
        all_fit(s, fits),
    ensures
        take_list(b, p, take) == Some((s, p + enc_list(s, enc).len())),
{
    lemma_split(b, p, le_u32(s.len() as u32), enc_items(s, enc));
    lemma_take_u32(b, p, s.len() as u32);
    lemma_take_items(b, p + 4, s, enc, take, fits);
}

proof fn lemma_extend_items<T>(
    b: Seq<u8>,
    c: Seq<u8>,
    p: int,
    n: nat,
    take: spec_fn(Seq<u8>, int) -> Option<(T, int)>,
)
    requires
        stable_under_extension(take),
        is_prefix(b, c),
        take_items(b, p, n, take) is Some,
    ensures
        take_items(c, p, n, take) == take_items(b, p, n, take),
    decreases n,
{
    reveal(take_items);
    if n > 0 {
        lemma_extend_items(b, c, p, (n - 1) as nat, take);
        let q = pos_after(take_items(b, p, (n - 1) as nat, take));
        assert(take(b, q) is Some);
        assert(take(c, q) == take(b, q));
    }
}

proof fn lemma_extend_list<T>(
    b: Seq<u8>,
    c: Seq<u8>,
    p: int,
    take: spec_fn(Seq<u8>, int) -> Option<(T, int)>,
)
    requires
        stable_under_extension(take),
        is_prefix(b, c),
        take_list(b, p, take) is Some,
    ensures
        take_list(c, p, take) == take_list(b, p, take),
{
    lemma_extend_u32(b, c, p);
    lemma_extend_items(b, c, p + 4, value_of(take_u32(b, p)) as nat, take);
}

proof fn lemma_list_round_trip<T>(
    s: Seq<T>,
    enc: spec_fn(T) -> Seq<u8>,
    take: spec_fn(Seq<u8>, int) -> Option<(T, int)>,
    fits: spec_fn(T) -> bool,
)
    requires
        reads_back(enc, take, fits),
        all_fit(s, fits),
    ensures
        whole(enc_list(s, enc), take_list(enc_list(s, enc), 0, take)) == Some(s),
{
    let e = enc_list(s, enc);
    assert(e.subrange(0, e.len() as int) =~= e);
    lemma_take_list(e, 0, s, enc, take, fits);
}

proof fn lemma_list_mismatch_fails<T>(
    s: Seq<T>,
    b: Seq<u8>,
    enc: spec_fn(T) -> Seq<u8>,
    take: spec_fn(Seq<u8>, int) -> Option<(T, int)>,
    fits: spec_fn(T) -> bool,
)
    requires
        reads_back(enc, take, fits),
        stable_under_extension(take),
        all_fit(s, fits),
        b != enc_list(s, enc),
        is_prefix(b, enc_list(s, enc)) || is_prefix(enc_list(s, enc), b),
    ensures
        whole(b, take_list(b, 0, take)) is None,
{
    let e = enc_list(s, enc);
    assert(e.subrange(0, e.len() as int) =~= e);
    lemma_take_list(e, 0, s, enc, take, fits);
    if is_prefix(e, b) {
        lemma_take_list(b, 0, s, enc, take, fits);
        assert(b.subrange(0, b.len() as int) =~= b);
        assert(b.len() != e.len());
    } else {
        let r = take_list(b, 0, take);
        if r is Some && pos_after(r) == b.len() {
            lemma_extend_list(b, e, 0, take);
            assert(e.subrange(0, b.len() as int) =~= e);
            assert(b.len() < e.len());
        }
    }
}

proof fn lemma_book_items()
    ensures
        reads_back(book_enc(), book_take(), book_ok()),
        stable_under_extension(book_take()),
{
    assert forall|b: Seq<u8>, p: int, v: BookView|
        #[trigger] sits_at(b, p, book_enc()(v)) && book_ok()(v) implies book_take()(b, p) == Some(
        (v, p + book_enc()(v).len()),
    ) by {
        lemma_take_book(b, p, v);
    }
    assert forall|b: Seq<u8>, c: Seq<u8>, p: int|
        #![trigger is_prefix(b, c), book_take()(b, p)]
        is_prefix(b, c) && book_take()(b, p) is Some implies book_take()(c, p)
        == book_take()(b, p) by {
        lemma_extend_book(b, c, p);
    }
}

proof fn lemma_review_items()
    ensures
        reads_back(review_enc(), review_take(), review_ok()),
        stable_under_extension(review_take()),
{
    assert forall|b: Seq<u8>, p: int, v: ReviewView|
        #[trigger] sits_at(b, p, review_enc()(v)) && review_ok()(v) implies review_take()(b, p)
        == Some((v, p + review_enc()(v).len())) by {
        lemma_take_review(b, p, v);
    }
    assert forall|b: Seq<u8>, c: Seq<u8>, p: int|
        #![trigger is_prefix(b, c), review_take()(b, p)]
        is_prefix(b, c) && review_take()(b, p) is Some implies review_take()(c, p)
        == review_take()(b, p) by {
        lemma_extend_review(b, c, p);
    }
}

proof fn lemma_part_items()
    ensures
        reads_back(part_enc(), part_take(), part_ok()),
        stable_under_extension(part_take()),
{
    assert forall|b: Seq<u8>, p: int, v: ReviewPartView|
        #[trigger] sits_at(b, p, part_enc()(v)) && part_ok()(v) implies part_take()(b, p) == Some(
        (v, p + part_enc()(v).len()),
    ) by {
        lemma_take_part(b, p, v);
    }
    assert forall|b: Seq<u8>, c: Seq<u8>, p: int|
        #![trigger is_prefix(b, c), part_take()(b, p)]
        is_prefix(b, c) && part_take()(b, p) is Some implies part_take()(c, p)
        == part_take()(b, p) by {
        lemma_extend_part(b, c, p);
    }
}

/// Decoding the encoding of a list of books gives back that list.
pub proof fn lemma_books_round_trip(s: Seq<BookView>)
    requires
        books_fit(s),
    ensures
        decode_books_bytes(enc_books(s)) == Some(s),
{
    lemma_book_items();
    lemma_list_round_trip(s, book_enc(), book_take(), book_ok());
}

/// A buffer that stops short of a book list's encoding, or runs on past it,
/// does not decode.
pub proof fn lemma_books_mismatch_fails(s: Seq<BookView>, b: Seq<u8>)
    requires
        books_fit(s),
        b != enc_books(s),
        is_prefix(b, enc_books(s)) || is_prefix(enc_books(s), b),
    ensures
        decode_books_bytes(b) is None,
{
    lemma_book_items();
    lemma_list_mismatch_fails(s, b, book_enc(), book_take(), book_ok());
}

/// Decoding the encoding of a list of reviews gives back that list.
pub proof fn lemma_reviews_round_trip(s: Seq<ReviewView>)
    requires
        reviews_fit(s),
    ensures
        decode_reviews_bytes(enc_reviews(s)) == Some(s),
{
    lemma_review_items();
    lemma_list_round_trip(s, review_enc(), review_take(), review_ok());
}

/// A buffer that stops short of a review list's encoding, or runs on past it,
/// does not decode.
pub proof fn lemma_reviews_mismatch_fails(s: Seq<ReviewView>, b: Seq<u8>)
    requires
        reviews_fit(s),
        b != enc_reviews(s),
        is_prefix(b, enc_reviews(s)) || is_prefix(enc_reviews(s), b),
    ensures
        decode_reviews_bytes(b) is None,
{
    lemma_review_items();
    lemma_list_mismatch_fails(s, b, review_enc(), review_take(), review_ok());
}

/// Decoding the encoding of a list of review requests gives back that list.
pub proof fn lemma_parts_round_trip(s: Seq<ReviewPartView>)
    requires
        parts_fit(s),
    ensures
        decode_parts_bytes(enc_parts(s)) == Some(s),
{
    lemma_part_items();
    lemma_list_round_trip(s, part_enc(), part_take(), part_ok());
}

/// A buffer that stops short of a review request list's encoding, or runs on
/// past it, does not decode.
pub proof fn lemma_parts_mismatch_fails(s: Seq<ReviewPartView>, b: Seq<u8>)
    requires
        parts_fit(s),
        b != enc_parts(s),
        is_prefix(b, enc_parts(s)) || is_prefix(enc_parts(s), b),
    ensures
        decode_parts_bytes(b) is None,
{
    lemma_part_items();
    lemma_list_mismatch_fails(s, b, part_enc(), part_take(), part_ok());
}

} // verus!
