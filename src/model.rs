//! The rows of the store and the store's errors.

use vstd::prelude::*;

verus! {

/// Identifier of a row: a version-4 UUID as its 128-bit value.
pub type Id = u128;

/// A UTC instant in milliseconds since the Unix epoch.
pub type Timestamp = i64;

/// Which source a book is tracked from; it determines the discovery provider.
#[derive(Clone, Debug, PartialEq, Eq, Structural)]
pub enum BookMetadata {
    RoyalRoad(u64),
    Pale,
    TheWanderingInn,
    TheWanderingInnPatreon,
    TheDailyGrindPatreon,
    ApparatusOfChangePatreon,
}

/// Source-specific locators of one chapter.
#[derive(Clone, Debug)]
pub enum ChapterMetadata {
    RoyalRoad { royalroad_book_id: u64, royalroad_chapter_id: u64 },
    Pale { url: String },
    TheWanderingInnPatreon { url: String, password: Option<String> },
    TheDailyGrindPatreon,
    ApparatusOfChangePatreon,
}

/// A tracked serial.
#[derive(Clone, Debug)]
pub struct Book {
    pub id: Id,
    pub title: String,
    pub author: String,
    pub metadata: BookMetadata,
    pub created_at: Timestamp,
    pub updated_at: Timestamp,
}

/// What a provider hands to discovery; not yet a row.
#[derive(Clone, Debug)]
pub struct NewChapter {
    pub title: String,
    pub metadata: ChapterMetadata,
    pub book_id: Id,
    pub html: Option<Vec<u8>>,
    pub epub: Option<Vec<u8>>,
    pub published_at: Option<Timestamp>,
}

/// One installment of a book.
#[derive(Clone, Debug)]
pub struct Chapter {
    pub id: Id,
    pub title: String,
    pub metadata: ChapterMetadata,
    pub book_id: Id,
    pub html: Option<Vec<u8>>,
    pub epub: Option<Vec<u8>>,
    pub published_at: Option<Timestamp>,
    pub created_at: Timestamp,
    pub updated_at: Timestamp,
}

/// A delivery target.
#[derive(Clone, Debug)]
pub struct Subscriber {
    pub id: Id,
    pub name: String,
    pub kindle_email: Option<String>,
    pub pushover_key: Option<String>,
    pub created_at: Timestamp,
    pub updated_at: Timestamp,
}

/// A subscriber's interest in a book, with its delivery cursor.
#[derive(Clone, Debug)]
pub struct Subscription {
    pub id: Id,
    pub subscriber_id: Id,
    pub book_id: Id,
    pub chunk_size: i32,
    pub last_delivered_chapter_id: Option<Id>,
    pub last_delivered_chapter_created_at: Option<Timestamp>,
    pub created_at: Timestamp,
    pub updated_at: Timestamp,
}

/// The kinds of row an error can name.
#[derive(Clone, Copy, Debug, PartialEq, Eq, Structural)]
pub enum ResourceType {
    Book,
    Chapter,
    Subscriber,
    Subscription,
}

/// Why a request to the store was refused.
#[derive(Clone, Copy, Debug, PartialEq, Eq, Structural)]
pub enum RequestProblem {
    /// The identifier chosen for a new row is already taken.
    DuplicateId,
    /// A chunk size below one.
    ChunkSizeBelowOne,
    /// A cursor chapter that belongs to another book.
    ChapterOfOtherBook,
    /// An EPUB for a chapter that has no HTML body.
    EpubWithoutHtml,
    /// A cursor move to a chapter created before the current cursor.
    CursorWouldRetreat,
    /// A batch whose rows and identifiers differ in number.
    IdCountMismatch,
    /// A row that other rows still refer to.
    StillReferenced,
    /// A batch of chapters whose creation times would not fit.
    ClockExhausted,
}

/// Errors of the store.
#[derive(Clone, Copy, Debug, PartialEq, Eq, Structural)]
pub enum ApiError {
    InvalidRequest(RequestProblem),
    ResourceNotFound { resource_type: ResourceType, id: Id },
}

/// The ordering key of a chapter: its publication time, else its creation time.
pub open spec fn order_key(c: Chapter) -> int {
    match c.published_at {
        Some(p) => p as int,
        None => c.created_at as int,
    }
}

impl Chapter {
    /// `coalesce(published_at, created_at)`.
    pub fn order_key(&self) -> (r: Timestamp)
        ensures
            r as int == order_key(*self),
    {
        match self.published_at {
            Some(p) => p,
            None => self.created_at,
        }
    }
}

} // verus!
