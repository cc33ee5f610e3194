//! What the review API's handlers decide: a request body is decoded and
//! stamped with the server's time before it goes to the store.
use vstd::prelude::*;

use crate::codec::{decode_part, CodecError};
use crate::models::{NewReview, NewReviewPart, Rating, ReviewPartView, ReviewView, Timestamp};
use crate::wire::decode_part_bytes;

verus! {

/// The change that an update request makes to a stored review, which is
/// found by `isbn` and `username`.
#[derive(Debug, Clone, Copy)]
pub struct ReviewUpdate<'a> {
    pub isbn: i64,
    pub username: &'a str,
    pub description: &'a str,
    pub rating: Rating,
    pub updated_at: Timestamp,
}

/// A review made from a request at time `now`: created and updated then.
pub open spec fn stamped(p: ReviewPartView, now: Timestamp) -> ReviewView {
    ReviewView {
        isbn: p.isbn,
        username: p.username,
        rating: p.rating,
        description: p.description,
        created_at: now,
        updated_at: now,
    }
}

/// The review to insert for a creation request received at `now`.
pub fn stamp_new_review<'a>(part: NewReviewPart<'a>, now: Timestamp) -> (r: NewReview<'a>)
    ensures
        r@ == stamped(part@, now),
{
    NewReview {
        isbn: part.isbn,
        username: part.username,
        rating: part.rating,
        description: part.description,
        created_at: now,
        updated_at: now,
    }
}

/// Handles the body of a creation request received at `now`: the review to
/// insert, or `Malformed` when the body is not an encoded request.
pub fn post_review<'a>(body: &'a [u8], now: Timestamp) -> (r: Result<NewReview<'a>, CodecError>)
    ensures
        match decode_part_bytes(body@) {
            Some(p) => r is Ok && r->Ok_0@ == stamped(p, now),
            None => r == Err::<NewReview<'a>, CodecError>(CodecError::Malformed),
        },
{
    match decode_part(body) {
        Ok(part) => Ok(stamp_new_review(part, now)),
        Err(e) => Err(e),
    }
}

/// Handles the body of an update request received at `now`: the change to
/// make, or `Malformed` when the body is not an encoded request.
pub fn put_review<'a>(body: &'a [u8], now: Timestamp) -> (r: Result<ReviewUpdate<'a>, CodecError>)
    ensures
        match decode_part_bytes(body@) {
            Some(p) => r is Ok && r->Ok_0.isbn == p.isbn && r->Ok_0.username@ == p.username
                && r->Ok_0.description@ == p.description && r->Ok_0.rating == p.rating
                && r->Ok_0.updated_at == now,
            None => r is Err && r->Err_0 == CodecError::Malformed,
        },
{
    match decode_part(body) {
        Ok(part) => Ok(
            ReviewUpdate {
                isbn: part.isbn,
                username: part.username,
                description: part.description,
                rating: part.rating,
                updated_at: now,
            },
        ),
        Err(e) => Err(e),
    }
}

} // verus!
