//! The entities of the catalog: books, reviews and their enumerations, with
//! the textual names and ordinals that the store and the wire format use.
use vstd::prelude::*;

use crate::text::same_text;

verus! {

/// Language a book is written in.
#[derive(Clone, Copy, Debug, PartialEq, Eq, Structural, Hash)]
pub enum Lang {
    English,
    Russian,
    Ukrainian,
    German,
    Chinese,
    Japanese,
}

/// Number of variants of [`Lang`].
pub const LANG_COUNT: u32 = 6;

/// The textual name of a language.
pub open spec fn lang_name(l: Lang) -> Seq<char> {
    match l {
        Lang::English => "English"@,
        Lang::Russian => "Russian"@,
        Lang::Ukrainian => "Ukrainian"@,
        Lang::German => "German"@,
        Lang::Chinese => "Chinese"@,
        Lang::Japanese => "Japanese"@,
    }
}

/// The 0-based position of a language in declaration order.
pub open spec fn lang_index(l: Lang) -> u32 {
    match l {
        Lang::English => 0,
        Lang::Russian => 1,
        Lang::Ukrainian => 2,
        Lang::German => 3,
        Lang::Chinese => 4,
        Lang::Japanese => 5,
    }
}

impl Lang {
    /// The textual name of this language.
    pub fn to_str(self) -> (r: &'static str)
        ensures
            r@ == lang_name(self),
    {
        match self {
            Lang::English => "English",
            Lang::Russian => "Russian",
            Lang::Ukrainian => "Ukrainian",
            Lang::German => "German",
            Lang::Chinese => "Chinese",
            Lang::Japanese => "Japanese",
        }
    }

    /// The language whose name is exactly `s`, if any.
    pub fn from_name(s: &str) -> (r: Option<Lang>)
        ensures
            r is Some ==> lang_name(r->0) == s@,
            r is None ==> forall|l: Lang| lang_name(l) != s@,
    {
        let all = [
            Lang::English,
            Lang::Russian,
            Lang::Ukrainian,
            Lang::German,
            Lang::Chinese,
            Lang::Japanese,
        ];
        let mut i: usize = 0;
        while i < 6
            invariant
                i <= 6,
                all@ == seq![
                    Lang::English,
                    Lang::Russian,
                    Lang::Ukrainian,
                    Lang::German,
                    Lang::Chinese,
                    Lang::Japanese,
                ],
                forall|j: int| 0 <= j < i ==> lang_name(#[trigger] all@[j]) != s@,
            decreases 6 - i,
        {
            let l = all[i];
            if same_text(l.to_str(), s) {
                return Some(l);
            }
            i = i + 1;
        }
        proof {
            assert forall|l: Lang| lang_name(l) != s@ by {
                let j: int = lang_index(l) as int;
                assert(all@[j] == l);
            }
        }
        None
    }

    /// The 0-based position of this language in declaration order.
    pub fn index(self) -> (r: u32)
        ensures
            r == lang_index(self),
    {
        match self {
            Lang::English => 0,
            Lang::Russian => 1,
            Lang::Ukrainian => 2,
            Lang::German => 3,
            Lang::Chinese => 4,
            Lang::Japanese => 5,
        }
    }

    /// The language at position `i`, or `None` when `i` is out of range.
    pub fn from_index(i: u32) -> (r: Option<Lang>)
        ensures
            r is Some <==> i < LANG_COUNT,
            r is Some ==> lang_index(r->0) == i,
    {
        match i {
            0 => Some(Lang::English),
            1 => Some(Lang::Russian),
            2 => Some(Lang::Ukrainian),
            3 => Some(Lang::German),
            4 => Some(Lang::Chinese),
            5 => Some(Lang::Japanese),
            _ => None,
        }
    }
}

impl std::str::FromStr for Lang {
    type Err = ();

    fn from_str(s: &str) -> Result<Lang, ()> {
        match Lang::from_name(s) {
            Some(l) => Ok(l),
            None => Err(()),
        }
    }
}

/// A review's rating, from one to five.
#[derive(Clone, Copy, Debug, PartialEq, Eq, Structural, Hash)]
pub enum Rating {
    One,
    Two,
    Three,
    Four,
    Five,
}

/// Number of variants of [`Rating`].
pub const RATING_COUNT: u32 = 5;

/// The textual name of a rating.
pub open spec fn rating_name(r: Rating) -> Seq<char> {
    match r {
        Rating::One => "One"@,
        Rating::Two => "Two"@,
        Rating::Three => "Three"@,
        Rating::Four => "Four"@,
        Rating::Five => "Five"@,
    }
}

/// The 0-based position of a rating in declaration order.
pub open spec fn rating_index(r: Rating) -> u32 {
    match r {
        Rating::One => 0,
        Rating::Two => 1,
        Rating::Three => 2,
        Rating::Four => 3,
        Rating::Five => 4,
    }
}

impl Rating {
    /// The textual name of this rating.
    pub fn to_str(self) -> (r: &'static str)
        ensures
            r@ == rating_name(self),
    {
        match self {
            Rating::One => "One",
            Rating::Two => "Two",
            Rating::Three => "Three",
            Rating::Four => "Four",
            Rating::Five => "Five",
        }
    }

    /// The rating whose name is exactly `s`, if any.
    pub fn from_name(s: &str) -> (r: Option<Rating>)
        ensures
            r is Some ==> rating_name(r->0) == s@,
            r is None ==> forall|x: Rating| rating_name(x) != s@,
    {
        let all = [Rating::One, Rating::Two, Rating::Three, Rating::Four, Rating::Five];
        let mut i: usize = 0;
        while i < 5
            invariant
                i <= 5,
                all@ == seq![Rating::One, Rating::Two, Rating::Three, Rating::Four, Rating::Five],
                forall|j: int| 0 <= j < i ==> rating_name(#[trigger] all@[j]) != s@,
            decreases 5 - i,
        {
            let x = all[i];
            if same_text(x.to_str(), s) {
                return Some(x);
            }
            i = i + 1;
        }
        proof {
            assert forall|x: Rating| rating_name(x) != s@ by {
                let j: int = rating_index(x) as int;
                assert(all@[j] == x);
            }
        }
        None
    }

    /// The number of stars, from 1 to 5.
    pub fn stars(self) -> (r: u8)
        ensures
            r as u32 == rating_index(self) + 1,
    {
        match self {
            Rating::One => 1,
            Rating::Two => 2,
            Rating::Three => 3,
            Rating::Four => 4,
            Rating::Five => 5,
        }
    }

    /// The 0-based position of this rating in declaration order.
    pub fn index(self) -> (r: u32)
        ensures
            r == rating_index(self),
    {
        match self {
            Rating::One => 0,
            Rating::Two => 1,
            Rating::Three => 2,
            Rating::Four => 3,
            Rating::Five => 4,
        }
    }

    /// The rating at position `i`, or `None` when `i` is out of range.
    pub fn from_index(i: u32) -> (r: Option<Rating>)
        ensures
            r is Some <==> i < RATING_COUNT,
            r is Some ==> rating_index(r->0) == i,
    {
        match i {
            0 => Some(Rating::One),
            1 => Some(Rating::Two),
            2 => Some(Rating::Three),
            3 => Some(Rating::Four),
            4 => Some(Rating::Five),
            _ => None,
        }
    }
}

/// Nanoseconds in one second.
pub const NANOS_PER_SEC: u32 = 1_000_000_000;

/// A point in time, as seconds and nanoseconds since the Unix epoch.
#[derive(Clone, Copy, Debug, PartialEq, Eq, Structural, Hash)]
pub struct Timestamp {
    pub secs: u64,
    pub nanos: u32,
}

impl Timestamp {
    /// The nanosecond part is below one second.
    pub open spec fn wf(self) -> bool {
        self.nanos < NANOS_PER_SEC
    }

    /// Nanoseconds since the epoch.
    pub open spec fn total_nanos(self) -> int {
        self.secs as int * NANOS_PER_SEC as int + self.nanos as int
    }

    /// The timestamp `secs` seconds and `nanos` nanoseconds after the epoch;
    /// `None` when `nanos` is a second or more.
    pub fn new(secs: u64, nanos: u32) -> (r: Option<Timestamp>)
        ensures
            r is Some <==> nanos < NANOS_PER_SEC,
            r is Some ==> r->0 == (Timestamp { secs, nanos }),
    {
        if nanos < NANOS_PER_SEC {
            Some(Timestamp { secs, nanos })
        } else {
            None
        }
    }

    /// `true` when `self` comes strictly before `other`.
    pub fn is_before(self, other: Timestamp) -> (r: bool)
        ensures
            r == (self.secs < other.secs || (self.secs == other.secs && self.nanos < other.nanos)),
    {
        self.secs < other.secs || (self.secs == other.secs && self.nanos < other.nanos)
    }
}

/// A book of the catalog.
#[derive(Debug)]
pub struct Book {
    pub isbn: i64,
    pub title: String,
    pub author: String,
    pub description: String,
    pub language: Lang,
    pub issue_year: i32,
}

/// What a [`Book`] holds, with its texts as character sequences.
pub struct BookView {
    pub isbn: i64,
    pub title: Seq<char>,
    pub author: Seq<char>,
    pub description: Seq<char>,
    pub language: Lang,
    pub issue_year: i32,
}

impl View for Book {
    type V = BookView;

    open spec fn view(&self) -> BookView {
        BookView {
            isbn: self.isbn,
            title: self.title@,
            author: self.author@,
            description: self.description@,
            language: self.language,
            issue_year: self.issue_year,
        }
    }
}

/// The fields of a book to be created, borrowed from the caller.
#[derive(Debug, Clone, Copy)]
pub struct NewBook<'a> {
    pub isbn: i64,
    pub title: &'a str,
    pub author: &'a str,
    pub description: &'a str,
    pub language: Lang,
    pub issue_year: i32,
}

impl<'a> View for NewBook<'a> {
    type V = BookView;

    open spec fn view(&self) -> BookView {
        BookView {
            isbn: self.isbn,
            title: self.title@,
            author: self.author@,
            description: self.description@,
            language: self.language,
            issue_year: self.issue_year,
        }
    }
}

/// A review of a book, keyed by the book's ISBN and the name of the user who wrote it.
#[derive(Debug)]
pub struct Review {
    pub isbn: i64,
    pub username: String,
    pub rating: Rating,
    pub description: String,
    pub created_at: Timestamp,
    pub updated_at: Timestamp,
}

/// What a [`Review`] holds, with its texts as character sequences.
pub struct ReviewView {
    pub isbn: i64,
    pub username: Seq<char>,
    pub rating: Rating,
    pub description: Seq<char>,
    pub created_at: Timestamp,
    pub updated_at: Timestamp,
}

impl ReviewView {
    pub open spec fn wf(self) -> bool {
        self.created_at.wf() && self.updated_at.wf()
    }
}

impl View for Review {
    type V = ReviewView;

    open spec fn view(&self) -> ReviewView {
        ReviewView {
            isbn: self.isbn,
            username: self.username@,
            rating: self.rating,
            description: self.description@,
            created_at: self.created_at,
            updated_at: self.updated_at,
        }
    }
}

/// The fields of a review to be created, borrowed from the caller.
#[derive(Debug, Clone, Copy)]
pub struct NewReview<'a> {
    pub isbn: i64,
    pub username: &'a str,
    pub rating: Rating,
    pub description: &'a str,
    pub created_at: Timestamp,
    pub updated_at: Timestamp,
}

impl<'a> View for NewReview<'a> {
    type V = ReviewView;

    open spec fn view(&self) -> ReviewView {
        ReviewView {
            isbn: self.isbn,
            username: self.username@,
            rating: self.rating,
            description: self.description@,
            created_at: self.created_at,
            updated_at: self.updated_at,
        }
    }
}

/// The part of a review that a client sends: the timestamps are the server's.
#[derive(Debug, Clone, Copy)]
pub struct NewReviewPart<'a> {
    pub isbn: i64,
    pub username: &'a str,
    pub rating: Rating,
    pub description: &'a str,
}

/// What a [`NewReviewPart`] holds, with its texts as character sequences.
pub struct ReviewPartView {
    pub isbn: i64,
    pub username: Seq<char>,
    pub rating: Rating,
    pub description: Seq<char>,
}

impl<'a> View for NewReviewPart<'a> {
    type V = ReviewPartView;

    open spec fn view(&self) -> ReviewPartView {
        ReviewPartView {
            isbn: self.isbn,
            username: self.username@,
            rating: self.rating,
            description: self.description@,
        }
    }
}

} // verus!
