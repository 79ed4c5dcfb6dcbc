//! The store that the workers coordinate through, with its invariants.

use vstd::prelude::*;
use crate::model::{order_key, ApiError, NewChapter, BookMetadata, RequestProblem, ResourceType, Id, Book, Chapter, Subscriber, Subscription, Timestamp};

verus! {

/// What the store holds, as sequences of rows in insertion order.
pub ghost struct StoreView {
    pub books: Seq<Book>,
    pub chapters: Seq<Chapter>,
    pub subscribers: Seq<Subscriber>,
    pub subscriptions: Seq<Subscription>,
}

/// Whether a row created at `created_at` lies past the cursor.
pub open spec fn after_cursor(created_at: Timestamp, cursor: Option<Timestamp>) -> bool {
    match cursor {
        None => true,
        Some(t) => created_at > t,
    }
}

/// Membership of a chapter in the next delivery batch of a subscription.
pub open spec fn in_next_batch(c: Chapter, s: Subscription) -> bool {
    &&& c.book_id == s.book_id
    &&& c.epub is Some
    &&& after_cursor(c.created_at, s.last_delivered_chapter_created_at)
}

/// `a` comes no later than `b` in the requested direction of the ordering key.
pub open spec fn key_le(a: Chapter, b: Chapter, descending: bool) -> bool {
    if descending {
        order_key(a) >= order_key(b)
    } else {
        order_key(a) <= order_key(b)
    }
}

/// `r` lists positions of `chs`, each once, ordered by the ordering key.
pub open spec fn sorted_positions(chs: Seq<Chapter>, r: Seq<usize>, descending: bool) -> bool {
    &&& forall|a: int| 0 <= a < r.len() ==> #[trigger] r[a] < chs.len()
    &&& forall|a: int, b: int| 0 <= a < b < r.len() ==> r[a] != r[b]
    &&& forall|a: int, b: int|
        0 <= a < b < r.len() ==> key_le(#[trigger] chs[r[a] as int], #[trigger] chs[r[b] as int], descending)
}

/// `r` lists exactly the positions of `chs` whose chapter satisfies `p`,
/// ordered by the ordering key.
pub open spec fn selects(chs: Seq<Chapter>, r: Seq<usize>, p: spec_fn(Chapter) -> bool, descending: bool) -> bool {
    &&& sorted_positions(chs, r, descending)
    &&& r.len() == chs.filter(p).len()
    &&& forall|i: int| 0 <= i < chs.len() ==> (r.contains(i as usize) <==> p(#[trigger] chs[i]))
}

/// The cursor of `s` names a chapter of its book, with that chapter's creation time.
pub open spec fn cursor_consistent(s: Subscription, chs: Seq<Chapter>) -> bool {
    match s.last_delivered_chapter_id {
        None => s.last_delivered_chapter_created_at is None,
        Some(cid) => exists|j: int|
            0 <= j < chs.len() && (#[trigger] chs[j]).id == cid && chs[j].book_id == s.book_id
                && s.last_delivered_chapter_created_at == Some(chs[j].created_at),
    }
}

/// Every subscription of `a` is still in `b`, at the same position, with a
/// cursor that is set wherever it was set in `a` and no earlier.
pub open spec fn cursors_not_retreated(a: StoreView, b: StoreView) -> bool {
    &&& a.subscriptions.len() <= b.subscriptions.len()
    &&& forall|i: int| 0 <= i < a.subscriptions.len() ==> cursor_kept(#[trigger] a.subscriptions[i], b.subscriptions[i])
}

/// `y` is `x` with a cursor that is set wherever `x`'s is, and no earlier.
pub open spec fn cursor_kept(x: Subscription, y: Subscription) -> bool {
    &&& y.id == x.id
    &&& y.book_id == x.book_id
    &&& (x.last_delivered_chapter_created_at matches Some(t) ==> (y.last_delivered_chapter_created_at matches Some(u)
        && t <= u))
}

/// In every valid store: a chapter with an EPUB has HTML; a subscription's
/// chunk size is at least one; and a subscription's cursor names a chapter
/// that exists, belongs to the subscription's book and was created at the
/// cursor's time.
pub proof fn store_invariants(v: StoreView)
    requires
        valid(v),
    ensures
        forall|i: int| 0 <= i < v.chapters.len() && (#[trigger] v.chapters[i]).epub is Some ==> v.chapters[i].html is Some,
        forall|i: int| 0 <= i < v.subscriptions.len() ==> (#[trigger] v.subscriptions[i]).chunk_size >= 1,
        forall|i: int| 0 <= i < v.subscriptions.len() && (#[trigger] v.subscriptions[i]).last_delivered_chapter_id is Some
            ==> exists|j: int| 0 <= j < v.chapters.len()
                && (#[trigger] v.chapters[j]).id == v.subscriptions[i].last_delivered_chapter_id->0
                && v.chapters[j].book_id == v.subscriptions[i].book_id
                && v.subscriptions[i].last_delivered_chapter_created_at == Some(v.chapters[j].created_at),
{
    assert forall|i: int| 0 <= i < v.subscriptions.len() && (#[trigger] v.subscriptions[i]).last_delivered_chapter_id is Some
        implies exists|j: int| 0 <= j < v.chapters.len()
            && (#[trigger] v.chapters[j]).id == v.subscriptions[i].last_delivered_chapter_id->0
            && v.chapters[j].book_id == v.subscriptions[i].book_id
            && v.subscriptions[i].last_delivered_chapter_created_at == Some(v.chapters[j].created_at) by {
        assert(cursor_consistent(v.subscriptions[i], v.chapters));
    }
}

/// Cursors only move forward: over any run of store operations, each of
/// which keeps cursors from retreating, no cursor retreats.
pub proof fn cursors_never_retreat(a: StoreView, b: StoreView, c: StoreView)
    requires
        cursors_not_retreated(a, b),
        cursors_not_retreated(b, c),
    ensures
        cursors_not_retreated(a, c),
{
    assert forall|i: int| 0 <= i < a.subscriptions.len() implies cursor_kept(#[trigger] a.subscriptions[i], c.subscriptions[i]) by {
        assert(cursor_kept(a.subscriptions[i], b.subscriptions[i]));
        assert(cursor_kept(b.subscriptions[i], c.subscriptions[i]));
    }
}

/// The invariants of the store.
pub open spec fn valid(v: StoreView) -> bool {
    &&& forall|i: int, j: int|
        0 <= i < j < v.books.len() ==> (#[trigger] v.books[i]).id != (#[trigger] v.books[j]).id
    &&& forall|i: int, j: int|
        0 <= i < j < v.chapters.len() ==> (#[trigger] v.chapters[i]).id != (#[trigger] v.chapters[j]).id
    &&& forall|i: int, j: int|
        0 <= i < j < v.subscribers.len() ==> (#[trigger] v.subscribers[i]).id
            != (#[trigger] v.subscribers[j]).id
    &&& forall|i: int, j: int|
        0 <= i < j < v.subscriptions.len() ==> (#[trigger] v.subscriptions[i]).id
            != (#[trigger] v.subscriptions[j]).id
    &&& forall|i: int, j: int|
        0 <= i < j < v.chapters.len() ==> (#[trigger] v.chapters[i]).created_at < (#[trigger] v.chapters[j]).created_at
    &&& forall|i: int| 0 <= i < v.chapters.len() ==> (#[trigger] v.chapters[i]).epub is Some
        ==> v.chapters[i].html is Some
    &&& forall|i: int| 0 <= i < v.subscriptions.len() ==> (#[trigger] v.subscriptions[i]).chunk_size >= 1
    &&& forall|i: int|
        0 <= i < v.subscriptions.len() ==> cursor_consistent(#[trigger] v.subscriptions[i], v.chapters)
}

/// The row filters that the workers' queries use.
enum ChapterFilter {
    /// `html IS NULL`.
    WithoutBody,
    /// `html IS NOT NULL AND epub IS NULL`.
    ReadyForConversion,
    /// The chapters of one book.
    OfBook(Id),
    /// The chapters of one book with an EPUB, created after the cursor.
    DeliverableAfter(Id, Option<Timestamp>),
}

spec fn filter_holds(f: ChapterFilter, c: Chapter) -> bool {
    match f {
        ChapterFilter::WithoutBody => c.html is None,
        ChapterFilter::ReadyForConversion => c.html is Some && c.epub is None,
        ChapterFilter::OfBook(b) => c.book_id == b,
        ChapterFilter::DeliverableAfter(b, cursor) => c.book_id == b && c.epub is Some
            && after_cursor(c.created_at, cursor),
    }
}

pub open spec fn has_book(v: StoreView, id: Id) -> bool {
    exists|i: int| 0 <= i < v.books.len() && (#[trigger] v.books[i]).id == id
}

pub open spec fn has_chapter(v: StoreView, id: Id) -> bool {
    exists|i: int| 0 <= i < v.chapters.len() && (#[trigger] v.chapters[i]).id == id
}

pub open spec fn has_subscriber(v: StoreView, id: Id) -> bool {
    exists|i: int| 0 <= i < v.subscribers.len() && (#[trigger] v.subscribers[i]).id == id
}

pub open spec fn has_subscription(v: StoreView, id: Id) -> bool {
    exists|i: int| 0 <= i < v.subscriptions.len() && (#[trigger] v.subscriptions[i]).id == id
}

/// The result of `create_subscription`, by the checks in the order they are made.
pub open spec fn subscription_outcome(
    v: StoreView,
    id: Id,
    subscriber_id: Id,
    book_id: Id,
    chunk_size: Option<i32>,
    cursor: Option<Id>,
) -> Result<usize, ApiError> {
    if !has_book(v, book_id) {
        Err(ApiError::ResourceNotFound { resource_type: ResourceType::Book, id: book_id })
    } else if cursor matches Some(cid) && !has_chapter(v, cid) {
        Err(ApiError::ResourceNotFound { resource_type: ResourceType::Chapter, id: cursor->0 })
    } else if cursor matches Some(cid) && !chapter_of_book(v, cid, book_id) {
        Err(ApiError::InvalidRequest(RequestProblem::ChapterOfOtherBook))
    } else if !has_subscriber(v, subscriber_id) {
        Err(ApiError::ResourceNotFound { resource_type: ResourceType::Subscriber, id: subscriber_id })
    } else if chunk_size matches Some(n) && n < 1 {
        Err(ApiError::InvalidRequest(RequestProblem::ChunkSizeBelowOne))
    } else if has_subscription(v, id) {
        Err(ApiError::InvalidRequest(RequestProblem::DuplicateId))
    } else {
        Ok(v.subscriptions.len() as usize)
    }
}

/// The chapter with identifier `cid` belongs to book `book_id`.
pub open spec fn chapter_of_book(v: StoreView, cid: Id, book_id: Id) -> bool {
    exists|j: int| 0 <= j < v.chapters.len() && (#[trigger] v.chapters[j]).id == cid && v.chapters[j].book_id == book_id
}

/// The subscription row that `create_subscription` writes: chunk size one
/// unless given, and a cursor at the given chapter or else at the book's
/// chapter created last.
pub open spec fn initial_subscription(
    v: StoreView,
    s: Subscription,
    id: Id,
    subscriber_id: Id,
    book_id: Id,
    chunk_size: Option<i32>,
    cursor: Option<Id>,
    now: Timestamp,
) -> bool {
    &&& s.id == id && s.subscriber_id == subscriber_id && s.book_id == book_id
    &&& s.chunk_size == (match chunk_size { Some(n) => n, None => 1i32 })
    &&& s.created_at == now && s.updated_at == now
    &&& match cursor {
        Some(cid) => s.last_delivered_chapter_id == Some(cid) && exists|j: int|
            0 <= j < v.chapters.len() && (#[trigger] v.chapters[j]).id == cid
                && s.last_delivered_chapter_created_at == Some(v.chapters[j].created_at),
        None => match s.last_delivered_chapter_id {
            None => s.last_delivered_chapter_created_at is None && forall|j: int|
                0 <= j < v.chapters.len() ==> (#[trigger] v.chapters[j]).book_id != book_id,
            Some(cid) => exists|j: int|
                0 <= j < v.chapters.len() && (#[trigger] v.chapters[j]).id == cid && v.chapters[j].book_id == book_id
                    && s.last_delivered_chapter_created_at == Some(v.chapters[j].created_at)
                    && forall|k: int| 0 <= k < v.chapters.len() && (#[trigger] v.chapters[k]).book_id == book_id
                        ==> v.chapters[k].created_at <= v.chapters[j].created_at,
        },
    }
}

/// The creation time of the first chapter of a batch inserted at `now`:
/// `now`, or just after the latest chapter where the clock has not passed it,
/// so that creation times strictly increase in insertion order.
pub open spec fn first_stamp(v: StoreView, now: Timestamp) -> int {
    if v.chapters.len() > 0 && v.chapters.last().created_at >= now {
        v.chapters.last().created_at + 1
    } else {
        now as int
    }
}

/// The rows that a batch becomes, created from `first_stamp` on.
pub open spec fn batch_rows(v: StoreView, ncs: Seq<NewChapter>, ids: Seq<Id>, now: Timestamp) -> Seq<Chapter> {
    Seq::new(ncs.len(), |k: int| chapter_row(ncs[k], ids[k], (first_stamp(v, now) + k) as i64))
}

/// The row that a new chapter becomes.
pub open spec fn chapter_row(nc: NewChapter, id: Id, at: Timestamp) -> Chapter {
    Chapter {
        id,
        title: nc.title,
        metadata: nc.metadata,
        book_id: nc.book_id,
        html: nc.html,
        epub: nc.epub,
        published_at: nc.published_at,
        created_at: at,
        updated_at: at,
    }
}

/// Why the `k`-th row of a batch cannot be inserted, if it cannot.
pub open spec fn row_error(v: StoreView, ncs: Seq<NewChapter>, ids: Seq<Id>, k: int) -> Option<ApiError> {
    if !has_book(v, ncs[k].book_id) {
        Some(ApiError::ResourceNotFound { resource_type: ResourceType::Book, id: ncs[k].book_id })
    } else if ncs[k].epub is Some && ncs[k].html is None {
        Some(ApiError::InvalidRequest(RequestProblem::EpubWithoutHtml))
    } else if has_chapter(v, ids[k]) || exists|j: int| 0 <= j < k && ids[j] == ids[k] {
        Some(ApiError::InvalidRequest(RequestProblem::DuplicateId))
    } else {
        None
    }
}

/// The error of the first row from `k` on that cannot be inserted.
pub open spec fn batch_error(v: StoreView, ncs: Seq<NewChapter>, ids: Seq<Id>, k: int) -> Option<ApiError>
    decreases ncs.len() - k,
{
    if k >= ncs.len() || k < 0 {
        None
    } else {
        match row_error(v, ncs, ids, k) {
            Some(e) => Some(e),
            None => batch_error(v, ncs, ids, k + 1),
        }
    }
}

proof fn lemma_batch_error_none(v: StoreView, ncs: Seq<NewChapter>, ids: Seq<Id>, s: int, k: int)
    requires
        0 <= s <= k < ncs.len(),
        batch_error(v, ncs, ids, s) is None,
    ensures
        row_error(v, ncs, ids, k) is None,
    decreases k - s,
{
    if s < k {
        lemma_batch_error_none(v, ncs, ids, s + 1, k);
    }
}

/// Appending the rows of a batch that no row refuses keeps the store valid.
proof fn lemma_append_rows_valid(v: StoreView, ncs: Seq<NewChapter>, ids: Seq<Id>, now: Timestamp)
    requires
        valid(v),
        ncs.len() == ids.len(),
        forall|k: int| 0 <= k < ncs.len() ==> #[trigger] row_error(v, ncs, ids, k) is None,
        ncs.len() == 0 || first_stamp(v, now) + ncs.len() - 1 <= i64::MAX,
    ensures
        valid(StoreView { chapters: v.chapters + batch_rows(v, ncs, ids, now), ..v }),
{
    let rows = batch_rows(v, ncs, ids, now);
    let after = StoreView { chapters: v.chapters + rows, ..v };
    let n0 = v.chapters.len();
    assert forall|a: int, b: int| 0 <= a < b < after.chapters.len() implies (#[trigger] after.chapters[a]).id != (#[trigger] after.chapters[b]).id by {
        if b >= n0 {
            assert(row_error(v, ncs, ids, b - n0) is None);
            if a < n0 {
                assert(v.chapters[a].id == after.chapters[a].id);
                assert(!has_chapter(v, ids[b - n0]));
            } else {
                assert(ids[a - n0] != ids[b - n0]);
            }
        }
    }
    let base = first_stamp(v, now);
    assert forall|a: int, b: int| 0 <= a < b < after.chapters.len() implies (#[trigger] after.chapters[a]).created_at
        < (#[trigger] after.chapters[b]).created_at by {
        if b >= n0 {
            assert(after.chapters[b].created_at == base + (b - n0));
            if a >= n0 {
                assert(after.chapters[a].created_at == base + (a - n0));
            } else {
                assert(after.chapters[a] == v.chapters[a]);
                if a < n0 - 1 {
                    assert(v.chapters[a].created_at < v.chapters[n0 - 1].created_at);
                }
                assert(v.chapters.last() == v.chapters[n0 - 1]);
            }
        } else {
            assert(v.chapters[a].created_at < v.chapters[b].created_at);
        }
    }
    assert forall|i: int| 0 <= i < after.chapters.len() && (#[trigger] after.chapters[i]).epub is Some
        implies after.chapters[i].html is Some by {
        if i >= n0 {
            assert(row_error(v, ncs, ids, i - n0) is None);
        }
    }
    assert forall|k: int| 0 <= k < after.subscriptions.len() implies cursor_consistent(#[trigger] after.subscriptions[k], after.chapters) by {
        let s = after.subscriptions[k];
        assert(cursor_consistent(s, v.chapters));
        if let Some(cid) = s.last_delivered_chapter_id {
            let j = choose|j: int| 0 <= j < v.chapters.len() && (#[trigger] v.chapters[j]).id == cid
                && v.chapters[j].book_id == s.book_id
                && s.last_delivered_chapter_created_at == Some(v.chapters[j].created_at);
            assert(after.chapters[j] == v.chapters[j]);
        }
    }
}

/// Replacing a chapter by one with the same identifier, book and creation
/// time, and with HTML wherever it has an EPUB, keeps the store valid.
proof fn lemma_replace_chapter_valid(before: StoreView, i: int, c: Chapter)
    requires
        valid(before),
        0 <= i < before.chapters.len(),
        c.id == before.chapters[i].id,
        c.book_id == before.chapters[i].book_id,
        c.created_at == before.chapters[i].created_at,
        c.epub is Some ==> c.html is Some,
    ensures
        valid(StoreView { chapters: before.chapters.update(i, c), ..before }),
{
    let after = StoreView { chapters: before.chapters.update(i, c), ..before };
    assert forall|k: int| 0 <= k < after.subscriptions.len() implies cursor_consistent(#[trigger] after.subscriptions[k], after.chapters) by {
        let s = after.subscriptions[k];
        assert(cursor_consistent(s, before.chapters));
        if let Some(cid) = s.last_delivered_chapter_id {
            let j = choose|j: int| 0 <= j < before.chapters.len() && (#[trigger] before.chapters[j]).id == cid
                && before.chapters[j].book_id == s.book_id
                && s.last_delivered_chapter_created_at == Some(before.chapters[j].created_at);
            assert(after.chapters[j].id == cid);
        }
    }
    assert forall|a: int, b: int| 0 <= a < b < after.chapters.len() implies (#[trigger] after.chapters[a]).id != (#[trigger] after.chapters[b]).id by {
        assert(before.chapters[a].id != before.chapters[b].id);
    }
    assert forall|a: int, b: int| 0 <= a < b < after.chapters.len() implies (#[trigger] after.chapters[a]).created_at
        < (#[trigger] after.chapters[b]).created_at by {
        assert(before.chapters[a].created_at < before.chapters[b].created_at);
    }
}

/// The persistent state that the workers coordinate through.
pub struct Store {
    books: Vec<Book>,
    chapters: Vec<Chapter>,
    subscribers: Vec<Subscriber>,
    subscriptions: Vec<Subscription>,
}

impl View for Store {
    type V = StoreView;

    closed spec fn view(&self) -> StoreView {
        StoreView {
            books: self.books@,
            chapters: self.chapters@,
            subscribers: self.subscribers@,
            subscriptions: self.subscriptions@,
        }
    }
}

impl Store {
    pub open spec fn wf(&self) -> bool {
        valid(self@)
    }

    /// An empty store.
    pub fn new() -> (r: Store)
        ensures
            r.wf(),
            r@.books.len() == 0,
            r@.chapters.len() == 0,
            r@.subscribers.len() == 0,
            r@.subscriptions.len() == 0,
    {
        Store { books: Vec::new(), chapters: Vec::new(), subscribers: Vec::new(), subscriptions: Vec::new() }
    }

    /// All books, in insertion order.
    pub fn list_books(&self) -> (r: &Vec<Book>)
        ensures
            r@ == self@.books,
    {
        &self.books
    }

    /// All chapters, in insertion order.
    pub fn chapters(&self) -> (r: &Vec<Chapter>)
        ensures
            r@ == self@.chapters,
    {
        &self.chapters
    }

    /// All subscribers, in insertion order.
    pub fn list_subscribers(&self) -> (r: &Vec<Subscriber>)
        ensures
            r@ == self@.subscribers,
    {
        &self.subscribers
    }

    /// All subscriptions, in insertion order.
    pub fn subscriptions(&self) -> (r: &Vec<Subscription>)
        ensures
            r@ == self@.subscriptions,
    {
        &self.subscriptions
    }

    /// Orders distinct chapter positions by the ordering key.
    fn sort_positions(&self, pos: Vec<usize>, descending: bool) -> (r: Vec<usize>)
        requires
            forall|a: int| 0 <= a < pos@.len() ==> #[trigger] pos@[a] < self.chapters@.len(),
            forall|a: int, b: int| 0 <= a < b < pos@.len() ==> pos@[a] != pos@[b],
        ensures
            sorted_positions(self.chapters@, r@, descending),
            forall|i: usize| r@.contains(i) <==> pos@.contains(i),
            r@.len() == pos@.len(),
    {
        let ghost chs = self.chapters@;
        let mut r: Vec<usize> = Vec::new();
        let mut k: usize = 0;
        while k < pos.len()
            invariant
                k <= pos@.len(),
                chs == self.chapters@,
                forall|a: int| 0 <= a < pos@.len() ==> #[trigger] pos@[a] < chs.len(),
                forall|a: int, b: int| 0 <= a < b < pos@.len() ==> pos@[a] != pos@[b],
                sorted_positions(chs, r@, descending),
                forall|i: usize| r@.contains(i) <==> pos@.subrange(0, k as int).contains(i),
                r@.len() == k,
            decreases pos@.len() - k,
        {
            let x = pos[k];
            let mut p: usize = r.len();
            while p > 0 && !self.key_le_at(r[p - 1], x, descending)
                invariant
                    p <= r@.len(),
                    x < chs.len(),
                    chs == self.chapters@,
                    sorted_positions(chs, r@, descending),
                    forall|q: int| p <= q < r@.len() ==> !key_le(#[trigger] chs[r@[q] as int], chs[x as int], descending),
                decreases p,
            {
                p = p - 1;
            }
            proof {
                assert(!r@.contains(x)) by {
                    if r@.contains(x) {
                        let w = choose|w: int| 0 <= w < k && pos@[w] == x;
                        assert(pos@.subrange(0, k as int)[w] == x);
                    }
                }
                assert forall|a: int| 0 <= a < p implies key_le(#[trigger] chs[r@[a] as int], chs[x as int], descending) by {
                    if a < p - 1 {
                        assert(key_le(chs[r@[a] as int], chs[r@[p - 1] as int], descending));
                    }
                }
                r@.insert_ensures(p as int, x);
            }
            let ghost old_r = r@;
            r.insert(p, x);
            proof {
                assert(pos@.subrange(0, k + 1) =~= pos@.subrange(0, k as int).push(x));
                assert forall|i: usize| r@.contains(i) <==> pos@.subrange(0, k + 1).contains(i) by {
                    if r@.contains(i) {
                        let w = choose|w: int| 0 <= w < r@.len() && r@[w] == i;
                        if w < p {
                            assert(old_r[w] == i);
                        } else if w > p {
                            assert(old_r[w - 1] == i);
                        }
                    }
                    if old_r.contains(i) {
                        let w = choose|w: int| 0 <= w < old_r.len() && old_r[w] == i;
                        if w < p {
                            assert(r@[w] == i);
                        } else {
                            assert(r@[w + 1] == i);
                        }
                    }
                    assert(r@[p as int] == x);
                    let ext = pos@.subrange(0, k + 1);
                    if ext.contains(i) {
                        let w = choose|w: int| 0 <= w < ext.len() && ext[w] == i;
                        if w < k {
                            assert(pos@.subrange(0, k as int)[w] == i);
                        }
                    }
                    if pos@.subrange(0, k as int).contains(i) {
                        let w = choose|w: int| 0 <= w < k && pos@.subrange(0, k as int)[w] == i;
                        assert(ext[w] == i);
                    }
                    if i == x {
                        assert(ext[k as int] == x);
                    }
                }
            }
            k = k + 1;
        }
        assert(pos@.subrange(0, k as int) =~= pos@);
        r
    }

    fn holds_at(&self, f: &ChapterFilter, i: usize) -> (r: bool)
        requires
            i < self.chapters@.len(),
        ensures
            r == filter_holds(*f, self.chapters@[i as int]),
    {
        let c = &self.chapters[i];
        match f {
            ChapterFilter::WithoutBody => c.html.is_none(),
            ChapterFilter::ReadyForConversion => c.html.is_some() && c.epub.is_none(),
            ChapterFilter::OfBook(b) => c.book_id == *b,
            ChapterFilter::DeliverableAfter(b, cursor) => {
                c.book_id == *b && c.epub.is_some() && match cursor {
                    None => true,
                    Some(t) => c.created_at > *t,
                }
            },
        }
    }

    /// Positions of the chapters that pass `f`, ordered by the ordering key.
    fn select(&self, f: ChapterFilter, descending: bool) -> (r: Vec<usize>)
        ensures
            selects(self@.chapters, r@, |c: Chapter| filter_holds(f, c), descending),
    {
        let mut pos: Vec<usize> = Vec::new();
        let mut i: usize = 0;
        while i < self.chapters.len()
            invariant
                i <= self.chapters@.len(),
                forall|a: int| 0 <= a < pos@.len() ==> #[trigger] pos@[a] < i,
                forall|a: int, b: int| 0 <= a < b < pos@.len() ==> pos@[a] < pos@[b],
                forall|j: usize| pos@.contains(j) <==> (j < i && filter_holds(f, #[trigger] self.chapters@[j as int])),
                pos@.len() == self.chapters@.subrange(0, i as int).filter(|c: Chapter| filter_holds(f, c)).len(),
            decreases self.chapters@.len() - i,
        {
            let ghost old_pos = pos@;
            if self.holds_at(&f, i) {
                pos.push(i);
            }
            proof {
                let pred = |c: Chapter| filter_holds(f, c);
                assert(self.chapters@.subrange(0, i + 1) =~= self.chapters@.subrange(0, i as int).push(self.chapters@[i as int]));
                self.chapters@.subrange(0, i as int).lemma_filter_push(self.chapters@[i as int], pred);
                assert forall|j: usize| pos@.contains(j) <==> (j < i + 1 && filter_holds(f, #[trigger] self.chapters@[j as int])) by {
                    if pos@.contains(j) {
                        let w = choose|w: int| 0 <= w < pos@.len() && pos@[w] == j;
                        if w < old_pos.len() {
                            assert(old_pos[w] == j);
                        }
                    }
                    if j < i && filter_holds(f, self.chapters@[j as int]) {
                        let w = choose|w: int| 0 <= w < old_pos.len() && old_pos[w] == j;
                        assert(pos@[w] == j);
                    }
                    if j == i && filter_holds(f, self.chapters@[j as int]) {
                        assert(pos@[old_pos.len() as int] == j);
                    }
                }
            }
            i = i + 1;
        }
        assert(self.chapters@.subrange(0, i as int) =~= self.chapters@);
        self.sort_positions(pos, descending)
    }

    /// Chapters lacking an HTML body, latest first by the ordering key.
    pub fn list_chapters_without_bodies(&self) -> (r: Vec<usize>)
        ensures
            selects(self@.chapters, r@, |c: Chapter| c.html is None, true),
    {
        let r = self.select(ChapterFilter::WithoutBody, true);
        proof {
            let want = |c: Chapter| c.html is None;
            assert((|c: Chapter| filter_holds(ChapterFilter::WithoutBody, c)) =~= want);
        }
        r
    }

    /// Chapters with HTML and no EPUB, latest first by the ordering key.
    pub fn list_chapters_ready_for_epub_conversion(&self) -> (r: Vec<usize>)
        ensures
            selects(self@.chapters, r@, |c: Chapter| c.html is Some && c.epub is None, true),
    {
        let r = self.select(ChapterFilter::ReadyForConversion, true);
        proof {
            let want = |c: Chapter| c.html is Some && c.epub is None;
            assert((|c: Chapter| filter_holds(ChapterFilter::ReadyForConversion, c)) =~= want);
        }
        r
    }

    /// The chapters of a book, latest first by the ordering key.
    pub fn list_chapters(&self, book_id: Id) -> (r: Vec<usize>)
        ensures
            selects(self@.chapters, r@, |c: Chapter| c.book_id == book_id, true),
    {
        let r = self.select(ChapterFilter::OfBook(book_id), true);
        proof {
            let want = |c: Chapter| c.book_id == book_id;
            assert((|c: Chapter| filter_holds(ChapterFilter::OfBook(book_id), c)) =~= want);
        }
        r
    }

    /// The chapters of a book that carry an EPUB and were created after
    /// `cursor`, earliest first by the ordering key.
    pub fn list_chapters_with_epub(&self, book_id: Id, cursor: Option<Timestamp>) -> (r: Vec<usize>)
        ensures
            selects(
                self@.chapters,
                r@,
                |c: Chapter| c.book_id == book_id && c.epub is Some && after_cursor(c.created_at, cursor),
                false,
            ),
    {
        let r = self.select(ChapterFilter::DeliverableAfter(book_id, cursor), false);
        proof {
            let want = |c: Chapter| c.book_id == book_id && c.epub is Some && after_cursor(c.created_at, cursor);
            assert((|c: Chapter| filter_holds(ChapterFilter::DeliverableAfter(book_id, cursor), c)) =~= want);
        }
        r
    }

    /// The chapter of a book created last; `None` for a book without chapters.
    pub fn most_recent_chapter_by_created_at(&self, book_id: Id) -> (r: Option<usize>)
        ensures
            r is None <==> forall|i: int| 0 <= i < self@.chapters.len() ==> (#[trigger] self@.chapters[i]).book_id != book_id,
            r matches Some(i) ==> i < self@.chapters.len() && self@.chapters[i as int].book_id == book_id
                && forall|j: int| 0 <= j < self@.chapters.len() && (#[trigger] self@.chapters[j]).book_id == book_id
                    ==> self@.chapters[j].created_at <= self@.chapters[i as int].created_at,
    {
        let mut best: Option<usize> = None;
        let mut i: usize = 0;
        while i < self.chapters.len()
            invariant
                i <= self.chapters@.len(),
                best is None <==> forall|j: int| 0 <= j < i ==> (#[trigger] self.chapters@[j]).book_id != book_id,
                best matches Some(b) ==> b < i && self.chapters@[b as int].book_id == book_id
                    && forall|j: int| 0 <= j < i && (#[trigger] self.chapters@[j]).book_id == book_id
                        ==> self.chapters@[j].created_at <= self.chapters@[b as int].created_at,
            decreases self.chapters@.len() - i,
        {
            if self.chapters[i].book_id == book_id {
                match best {
                    None => { best = Some(i); },
                    Some(b) => {
                        if self.chapters[i].created_at >= self.chapters[b].created_at {
                            best = Some(i);
                        }
                    },
                }
            }
            i = i + 1;
        }
        best
    }

    /// The chapter of a book latest by the ordering key; `None` for a book
    /// without chapters.
    pub fn most_recent_chapter_by_published_at(&self, book_id: Id) -> (r: Option<usize>)
        ensures
            r is None <==> forall|i: int| 0 <= i < self@.chapters.len() ==> (#[trigger] self@.chapters[i]).book_id != book_id,
            r matches Some(i) ==> i < self@.chapters.len() && self@.chapters[i as int].book_id == book_id
                && forall|j: int| 0 <= j < self@.chapters.len() && (#[trigger] self@.chapters[j]).book_id == book_id
                    ==> order_key(self@.chapters[j]) <= order_key(self@.chapters[i as int]),
    {
        let r = self.list_chapters(book_id);
        if r.len() == 0 {
            proof {
                assert forall|i: int| 0 <= i < self@.chapters.len() implies (#[trigger] self@.chapters[i]).book_id != book_id by {
                    if self@.chapters[i].book_id == book_id {
                        assert(r@.contains(i as usize));
                    }
                }
            }
            None
        } else {
            let n = self.chapters.len();
            proof {
                assert(r@.contains(r@[0]));
                assert forall|j: int| 0 <= j < self@.chapters.len() && (#[trigger] self@.chapters[j]).book_id == book_id
                    implies order_key(self@.chapters[j]) <= order_key(self@.chapters[r@[0] as int]) by {
                    assert(filter_holds(ChapterFilter::OfBook(book_id), self@.chapters[j]));
                    assert(r@.contains(j as usize));
                    let w = choose|w: int| 0 <= w < r@.len() && r@[w] == j as usize;
                    assert(j < n);
                    assert((j as usize) as int == j);
                    if w > 0 {
                        assert(key_le(self@.chapters[r@[0] as int], self@.chapters[r@[w] as int], true));
                    }
                }
            }
            Some(r[0])
        }
    }

    /// The position of the book with identifier `id`.
    pub fn find_book(&self, id: Id) -> (r: Option<usize>)
        ensures
            r is None <==> !has_book(self@, id),
            r matches Some(i) ==> i < self@.books.len() && self@.books[i as int].id == id,
    {
        let mut i: usize = 0;
        while i < self.books.len()
            invariant
                i <= self.books@.len(),
                forall|j: int| 0 <= j < i ==> (#[trigger] self.books@[j]).id != id,
            decreases self.books@.len() - i,
        {
            if self.books[i].id == id {
                return Some(i);
            }
            i = i + 1;
        }
        None
    }

    /// The position of the chapter with identifier `id`.
    pub fn find_chapter(&self, id: Id) -> (r: Option<usize>)
        ensures
            r is None <==> !has_chapter(self@, id),
            r matches Some(i) ==> i < self@.chapters.len() && self@.chapters[i as int].id == id,
    {
        let mut i: usize = 0;
        while i < self.chapters.len()
            invariant
                i <= self.chapters@.len(),
                forall|j: int| 0 <= j < i ==> (#[trigger] self.chapters@[j]).id != id,
            decreases self.chapters@.len() - i,
        {
            if self.chapters[i].id == id {
                return Some(i);
            }
            i = i + 1;
        }
        None
    }

    /// The position of the subscriber with identifier `id`.
    pub fn find_subscriber(&self, id: Id) -> (r: Option<usize>)
        ensures
            r is None <==> !has_subscriber(self@, id),
            r matches Some(i) ==> i < self@.subscribers.len() && self@.subscribers[i as int].id == id,
    {
        let mut i: usize = 0;
        while i < self.subscribers.len()
            invariant
                i <= self.subscribers@.len(),
                forall|j: int| 0 <= j < i ==> (#[trigger] self.subscribers@[j]).id != id,
            decreases self.subscribers@.len() - i,
        {
            if self.subscribers[i].id == id {
                return Some(i);
            }
            i = i + 1;
        }
        None
    }

    /// The position of the subscription with identifier `id`.
    pub fn find_subscription(&self, id: Id) -> (r: Option<usize>)
        ensures
            r is None <==> !has_subscription(self@, id),
            r matches Some(i) ==> i < self@.subscriptions.len() && self@.subscriptions[i as int].id == id,
    {
        let mut i: usize = 0;
        while i < self.subscriptions.len()
            invariant
                i <= self.subscriptions@.len(),
                forall|j: int| 0 <= j < i ==> (#[trigger] self.subscriptions@[j]).id != id,
            decreases self.subscriptions@.len() - i,
        {
            if self.subscriptions[i].id == id {
                return Some(i);
            }
            i = i + 1;
        }
        None
    }

    /// Registers a book. Refused when `id` is taken.
    pub fn create_book(&mut self, id: Id, title: String, author: String, metadata: BookMetadata, now: Timestamp) -> (r: Result<usize, ApiError>)
        requires
            old(self).wf(),
        ensures
            final(self).wf(),
            cursors_not_retreated(old(self)@, final(self)@),
            r is Err <==> has_book(old(self)@, id),
            r matches Err(e) ==> e == ApiError::InvalidRequest(RequestProblem::DuplicateId) && final(self)@ == old(self)@,
            r matches Ok(i) ==> i == old(self)@.books.len() && final(self)@ == (StoreView {
                books: old(self)@.books.push(Book { id, title, author, metadata, created_at: now, updated_at: now }),
                ..old(self)@
            }),
    {
        if self.find_book(id).is_some() {
            return Err(ApiError::InvalidRequest(RequestProblem::DuplicateId));
        }
        let i = self.books.len();
        self.books.push(Book { id, title, author, metadata, created_at: now, updated_at: now });
        proof {
            assert forall|a: int, b: int| 0 <= a < b < self@.books.len() implies (#[trigger] self@.books[a]).id != (#[trigger] self@.books[b]).id by {
                if b == i as int {
                    assert(old(self)@.books[a].id != id);
                }
            }
        }
        Ok(i)
    }

    /// Registers a subscriber. Refused when `id` is taken.
    pub fn create_subscriber(&mut self, id: Id, name: String, kindle_email: Option<String>, pushover_key: Option<String>, now: Timestamp) -> (r: Result<usize, ApiError>)
        requires
            old(self).wf(),
        ensures
            final(self).wf(),
            cursors_not_retreated(old(self)@, final(self)@),
            r is Err <==> has_subscriber(old(self)@, id),
            r matches Err(e) ==> e == ApiError::InvalidRequest(RequestProblem::DuplicateId) && final(self)@ == old(self)@,
            r matches Ok(i) ==> i == old(self)@.subscribers.len() && final(self)@ == (StoreView {
                subscribers: old(self)@.subscribers.push(
                    Subscriber { id, name, kindle_email, pushover_key, created_at: now, updated_at: now },
                ),
                ..old(self)@
            }),
    {
        if self.find_subscriber(id).is_some() {
            return Err(ApiError::InvalidRequest(RequestProblem::DuplicateId));
        }
        let i = self.subscribers.len();
        self.subscribers.push(Subscriber { id, name, kindle_email, pushover_key, created_at: now, updated_at: now });
        proof {
            assert forall|a: int, b: int| 0 <= a < b < self@.subscribers.len() implies (#[trigger] self@.subscribers[a]).id != (#[trigger] self@.subscribers[b]).id by {
                if b == i as int {
                    assert(old(self)@.subscribers[a].id != id);
                }
            }
        }
        Ok(i)
    }

    /// Stores the HTML body of a chapter and refreshes its update time.
    pub fn set_chapter_html(&mut self, id: Id, html: Vec<u8>, now: Timestamp) -> (r: Result<usize, ApiError>)
        requires
            old(self).wf(),
        ensures
            final(self).wf(),
            cursors_not_retreated(old(self)@, final(self)@),
            r is Err <==> !has_chapter(old(self)@, id),
            r matches Err(e) ==> e == (ApiError::ResourceNotFound { resource_type: ResourceType::Chapter, id })
                && final(self)@ == old(self)@,
            r matches Ok(i) ==> i < old(self)@.chapters.len() && old(self)@.chapters[i as int].id == id
                && final(self)@ == (StoreView {
                    chapters: old(self)@.chapters.update(
                        i as int,
                        Chapter { html: Some(html), updated_at: now, ..old(self)@.chapters[i as int] },
                    ),
                    ..old(self)@
                }),
    {
        match self.find_chapter(id) {
            None => Err(ApiError::ResourceNotFound { resource_type: ResourceType::Chapter, id }),
            Some(i) => {
                let ghost before = self@;
                let mut c = self.chapters.remove(i);
                c.html = Some(html);
                c.updated_at = now;
                self.chapters.insert(i, c);
                proof {
                    lemma_replace_chapter_valid(before, i as int, c);
                    assert(self@.chapters =~= before.chapters.update(i as int, c));
                }
                Ok(i)
            },
        }
    }

    /// Stores the EPUB of a chapter and refreshes its update time. Refused for
    /// a chapter without HTML, which is left as it was.
    pub fn set_chapter_epub(&mut self, id: Id, epub: Vec<u8>, now: Timestamp) -> (r: Result<usize, ApiError>)
        requires
            old(self).wf(),
        ensures
            final(self).wf(),
            cursors_not_retreated(old(self)@, final(self)@),
            r is Err ==> final(self)@ == old(self)@,
            !has_chapter(old(self)@, id) ==> r == Err::<usize, ApiError>(
                ApiError::ResourceNotFound { resource_type: ResourceType::Chapter, id },
            ),
            forall|i: int| 0 <= i < old(self)@.chapters.len() && (#[trigger] old(self)@.chapters[i]).id == id ==> {
                if old(self)@.chapters[i].html is None {
                    r == Err::<usize, ApiError>(ApiError::InvalidRequest(RequestProblem::EpubWithoutHtml))
                } else {
                    r == Ok::<usize, ApiError>(i as usize) && final(self)@ == (StoreView {
                        chapters: old(self)@.chapters.update(
                            i,
                            Chapter { epub: Some(epub), updated_at: now, ..old(self)@.chapters[i] },
                        ),
                        ..old(self)@
                    })
                }
            },
    {
        match self.find_chapter(id) {
            None => Err(ApiError::ResourceNotFound { resource_type: ResourceType::Chapter, id }),
            Some(i) => {
                proof {
                    assert forall|k: int| 0 <= k < self@.chapters.len() && (#[trigger] self@.chapters[k]).id == id implies k == i by {
                        if k != i {
                            assert(self@.chapters[k].id != self@.chapters[i as int].id);
                        }
                    }
                }
                if self.chapters[i].html.is_none() {
                    return Err(ApiError::InvalidRequest(RequestProblem::EpubWithoutHtml));
                }
                let ghost before = self@;
                let mut c = self.chapters.remove(i);
                c.epub = Some(epub);
                c.updated_at = now;
                self.chapters.insert(i, c);
                proof {
                    lemma_replace_chapter_valid(before, i as int, c);
                    assert(self@.chapters =~= before.chapters.update(i as int, c));
                }
                Ok(i)
            },
        }
    }

    /// Advances the delivery cursor of a subscription to a chapter of its
    /// book, keeping the denormalised creation time in step. The cursor never
    /// moves back: a chapter created before the current cursor is refused.
    pub fn set_last_delivered_chapter(&mut self, id: Id, chapter_id: Id, now: Timestamp) -> (r: Result<usize, ApiError>)
        requires
            old(self).wf(),
        ensures
            final(self).wf(),
            cursors_not_retreated(old(self)@, final(self)@),
            r is Err ==> final(self)@ == old(self)@,
            !has_subscription(old(self)@, id) ==> r == Err::<usize, ApiError>(
                ApiError::ResourceNotFound { resource_type: ResourceType::Subscription, id },
            ),
            has_subscription(old(self)@, id) && !has_chapter(old(self)@, chapter_id) ==> r == Err::<usize, ApiError>(
                ApiError::ResourceNotFound { resource_type: ResourceType::Chapter, id: chapter_id },
            ),
            forall|i: int, j: int|
                0 <= i < old(self)@.subscriptions.len() && 0 <= j < old(self)@.chapters.len()
                    && (#[trigger] old(self)@.subscriptions[i]).id == id && (#[trigger] old(self)@.chapters[j]).id == chapter_id
                    ==> {
                    let s = old(self)@.subscriptions[i];
                    let c = old(self)@.chapters[j];
                    if c.book_id != s.book_id {
                        r == Err::<usize, ApiError>(ApiError::InvalidRequest(RequestProblem::ChapterOfOtherBook))
                    } else if !(s.last_delivered_chapter_created_at matches Some(t) ==> t <= c.created_at) {
                        r == Err::<usize, ApiError>(ApiError::InvalidRequest(RequestProblem::CursorWouldRetreat))
                    } else {
                        r == Ok::<usize, ApiError>(i as usize) && final(self)@ == (StoreView {
                            subscriptions: old(self)@.subscriptions.update(i, Subscription {
                                last_delivered_chapter_id: Some(chapter_id),
                                last_delivered_chapter_created_at: Some(c.created_at),
                                updated_at: now,
                                ..s
                            }),
                            ..old(self)@
                        })
                    }
                },
    {
        let i = match self.find_subscription(id) {
            None => { return Err(ApiError::ResourceNotFound { resource_type: ResourceType::Subscription, id }); },
            Some(i) => i,
        };
        let j = match self.find_chapter(chapter_id) {
            None => { return Err(ApiError::ResourceNotFound { resource_type: ResourceType::Chapter, id: chapter_id }); },
            Some(j) => j,
        };
        let created_at = self.chapters[j].created_at;
        if self.chapters[j].book_id != self.subscriptions[i].book_id {
            return Err(ApiError::InvalidRequest(RequestProblem::ChapterOfOtherBook));
        }
        if let Some(t) = self.subscriptions[i].last_delivered_chapter_created_at {
            if created_at < t {
                return Err(ApiError::InvalidRequest(RequestProblem::CursorWouldRetreat));
            }
        }
        let ghost before = self@;
        let mut s = self.subscriptions.remove(i);
        s.last_delivered_chapter_id = Some(chapter_id);
        s.last_delivered_chapter_created_at = Some(created_at);
        s.updated_at = now;
        self.subscriptions.insert(i, s);
        proof {
            assert(self@.subscriptions =~= before.subscriptions.update(i as int, s));
            assert(cursor_consistent(s, before.chapters));
            assert forall|a: int, b: int| 0 <= a < b < self@.subscriptions.len() implies (#[trigger] self@.subscriptions[a]).id != (#[trigger] self@.subscriptions[b]).id by {
                assert(before.subscriptions[a].id != before.subscriptions[b].id);
            }
            assert forall|k: int| 0 <= k < self@.subscriptions.len() implies cursor_consistent(#[trigger] self@.subscriptions[k], self@.chapters) by {
                if k != i {
                    assert(self@.subscriptions[k] == before.subscriptions[k]);
                }
            }
            assert forall|a: int, b: int|
                0 <= a < before.subscriptions.len() && 0 <= b < before.chapters.len()
                    && (#[trigger] before.subscriptions[a]).id == id && (#[trigger] before.chapters[b]).id == chapter_id
                implies a == i && b == j by {
                if a != i {
                    assert(before.subscriptions[a].id != before.subscriptions[i as int].id);
                }
                if b != j {
                    assert(before.chapters[b].id != before.chapters[j as int].id);
                }
            }
        }
        Ok(i)
    }

    /// Subscribes a subscriber to a book. Without a cursor chapter, the cursor
    /// starts at the book's chapter created last, so that history is not
    /// delivered; a book without chapters starts with no cursor.
    pub fn create_subscription(
        &mut self,
        id: Id,
        subscriber_id: Id,
        book_id: Id,
        chunk_size: Option<i32>,
        last_delivered_chapter_id: Option<Id>,
        now: Timestamp,
    ) -> (r: Result<usize, ApiError>)
        requires
            old(self).wf(),
        ensures
            final(self).wf(),
            cursors_not_retreated(old(self)@, final(self)@),
            r is Err ==> final(self)@ == old(self)@,
            r == subscription_outcome(old(self)@, id, subscriber_id, book_id, chunk_size, last_delivered_chapter_id),
            r matches Ok(i) ==> i == old(self)@.subscriptions.len()
                && final(self)@.books == old(self)@.books
                && final(self)@.chapters == old(self)@.chapters
                && final(self)@.subscribers == old(self)@.subscribers
                && final(self)@.subscriptions.len() == i + 1
                && final(self)@.subscriptions.subrange(0, i as int) == old(self)@.subscriptions
                && initial_subscription(old(self)@, final(self)@.subscriptions[i as int], id, subscriber_id, book_id,
                    chunk_size, last_delivered_chapter_id, now),
    {
        if self.find_book(book_id).is_none() {
            return Err(ApiError::ResourceNotFound { resource_type: ResourceType::Book, id: book_id });
        }
        let cursor_pos: Option<usize> = match last_delivered_chapter_id {
            Some(cid) => match self.find_chapter(cid) {
                None => { return Err(ApiError::ResourceNotFound { resource_type: ResourceType::Chapter, id: cid }); },
                Some(j) => {
                    if self.chapters[j].book_id != book_id {
                        return Err(ApiError::InvalidRequest(RequestProblem::ChapterOfOtherBook));
                    }
                    Some(j)
                },
            },
            None => self.most_recent_chapter_by_created_at(book_id),
        };
        if self.find_subscriber(subscriber_id).is_none() {
            return Err(ApiError::ResourceNotFound { resource_type: ResourceType::Subscriber, id: subscriber_id });
        }
        let size = match chunk_size {
            Some(n) => n,
            None => 1,
        };
        if size < 1 {
            return Err(ApiError::InvalidRequest(RequestProblem::ChunkSizeBelowOne));
        }
        if self.find_subscription(id).is_some() {
            return Err(ApiError::InvalidRequest(RequestProblem::DuplicateId));
        }
        let (cursor_id, cursor_at) = match cursor_pos {
            Some(j) => (Some(self.chapters[j].id), Some(self.chapters[j].created_at)),
            None => (None, None),
        };
        let ghost before = self@;
        let i = self.subscriptions.len();
        let sub = Subscription {
            id,
            subscriber_id,
            book_id,
            chunk_size: size,
            last_delivered_chapter_id: cursor_id,
            last_delivered_chapter_created_at: cursor_at,
            created_at: now,
            updated_at: now,
        };
        self.subscriptions.push(sub);
        proof {
            assert(self@.subscriptions[i as int] == sub);
            assert(self@.subscriptions.subrange(0, i as int) =~= before.subscriptions);
            if let Some(j) = cursor_pos {
                assert(before.chapters[j as int].id == cursor_id->0);
            }
            assert(cursor_consistent(sub, before.chapters));
            assert forall|a: int, b: int| 0 <= a < b < self@.subscriptions.len() implies (#[trigger] self@.subscriptions[a]).id != (#[trigger] self@.subscriptions[b]).id by {
                if b == i as int {
                    assert(before.subscriptions[a].id != id);
                }
            }
            assert forall|k: int| 0 <= k < self@.subscriptions.len() implies cursor_consistent(#[trigger] self@.subscriptions[k], self@.chapters) by {
                if k < i as int {
                    assert(self@.subscriptions[k] == before.subscriptions[k]);
                }
            }
        }
        Ok(i)
    }

    /// Inserts a batch of new chapters as one transaction: every row is
    /// written or none is. A row is refused when its book does not exist,
    /// when it has an EPUB without HTML, or when its identifier is taken; the
    /// first refused row decides the error. The rows are created from `now`
    /// on, one millisecond apart and after every chapter already stored.
    pub fn create_chapters(&mut self, chapters: Vec<NewChapter>, ids: Vec<Id>, now: Timestamp) -> (r: Result<usize, ApiError>)
        requires
            old(self).wf(),
        ensures
            final(self).wf(),
            cursors_not_retreated(old(self)@, final(self)@),
            r is Err ==> final(self)@ == old(self)@,
            chapters@.len() != ids@.len() ==> r == Err::<usize, ApiError>(ApiError::InvalidRequest(RequestProblem::IdCountMismatch)),
            chapters@.len() == ids@.len() ==> match batch_error(old(self)@, chapters@, ids@, 0) {
                Some(e) => r == Err::<usize, ApiError>(e),
                None => if chapters@.len() > 0 && first_stamp(old(self)@, now) + chapters@.len() - 1 > i64::MAX {
                    r == Err::<usize, ApiError>(ApiError::InvalidRequest(RequestProblem::ClockExhausted))
                } else {
                    r == Ok::<usize, ApiError>(chapters@.len() as usize) && final(self)@ == (StoreView {
                        chapters: old(self)@.chapters + batch_rows(old(self)@, chapters@, ids@, now),
                        ..old(self)@
                    })
                },
            },
    {
        if chapters.len() != ids.len() {
            return Err(ApiError::InvalidRequest(RequestProblem::IdCountMismatch));
        }
        let ghost v = self@;
        let n = chapters.len();
        let mut k: usize = 0;
        while k < n
            invariant
                n == chapters@.len(),
                n == ids@.len(),
                k <= n,
                self@ == v,
                valid(v),
                batch_error(v, chapters@, ids@, 0) == batch_error(v, chapters@, ids@, k as int),
            decreases n - k,
        {
            let nc = &chapters[k];
            if self.find_book(nc.book_id).is_none() {
                return Err(ApiError::ResourceNotFound { resource_type: ResourceType::Book, id: nc.book_id });
            }
            if nc.epub.is_some() && nc.html.is_none() {
                return Err(ApiError::InvalidRequest(RequestProblem::EpubWithoutHtml));
            }
            let mut taken = self.find_chapter(ids[k]).is_some();
            let mut j: usize = 0;
            while j < k && !taken
                invariant
                    j <= k,
                    k < n,
                    n == ids@.len(),
                    taken ==> has_chapter(v, ids@[k as int]) || exists|w: int| 0 <= w < k && ids@[w] == ids@[k as int],
                    !taken ==> !has_chapter(v, ids@[k as int]) && forall|w: int| 0 <= w < j ==> ids@[w] != ids@[k as int],
                decreases k - j,
            {
                if ids[j] == ids[k] {
                    taken = true;
                }
                j = j + 1;
            }
            if taken {
                return Err(ApiError::InvalidRequest(RequestProblem::DuplicateId));
            }
            k = k + 1;
        }
        let len = self.chapters.len();
        let base: i128 = if len > 0 && self.chapters[len - 1].created_at >= now {
            self.chapters[len - 1].created_at as i128 + 1
        } else {
            now as i128
        };
        proof {
            if len > 0 {
                assert(v.chapters.last() == v.chapters[len - 1]);
            }
            assert(base == first_stamp(v, now));
        }
        if n > 0 && base + (n as i128) - 1 > i64::MAX as i128 {
            return Err(ApiError::InvalidRequest(RequestProblem::ClockExhausted));
        }
        let ghost rows = batch_rows(v, chapters@, ids@, now);
        proof {
            assert forall|k: int| 0 <= k < n implies #[trigger] row_error(v, chapters@, ids@, k) is None by {
                lemma_batch_error_none(v, chapters@, ids@, 0, k);
            }
        }
        let ghost orig = chapters@;
        let mut src = chapters;
        let mut m: usize = 0;
        while m < n
            invariant
                n == ids@.len(),
                n == orig.len(),
                m <= n,
                src@ == orig.subrange(m as int, n as int),
                rows == batch_rows(v, orig, ids@, now),
                base == first_stamp(v, now),
                n == 0 || base + n - 1 <= i64::MAX,
                now <= base,
                self@ == (StoreView { chapters: v.chapters + rows.subrange(0, m as int), ..v }),
            decreases n - m,
        {
            let nc = src.remove(0);
            proof {
                assert(nc == orig[m as int]);
            }
            let at = (base + m as i128) as i64;
            let row = Chapter {
                id: ids[m],
                title: nc.title,
                metadata: nc.metadata,
                book_id: nc.book_id,
                html: nc.html,
                epub: nc.epub,
                published_at: nc.published_at,
                created_at: at,
                updated_at: at,
            };
            self.chapters.push(row);
            proof {
                assert(row == rows[m as int]);
                assert(rows.subrange(0, m + 1) =~= rows.subrange(0, m as int).push(row));
                assert(src@ =~= orig.subrange(m + 1, n as int));
                assert(self@.chapters =~= v.chapters + rows.subrange(0, m + 1));
            }
            m = m + 1;
        }
        proof {
            assert(rows.subrange(0, n as int) =~= rows);
            lemma_append_rows_valid(v, orig, ids@, now);
        }
        Ok(n)
    }

    /// The book with identifier `id`.
    pub fn get_book(&self, id: Id) -> (r: Option<&Book>)
        ensures
            r is None <==> !has_book(self@, id),
            r matches Some(b) ==> b.id == id && self@.books.contains(*b),
    {
        match self.find_book(id) {
            Some(i) => Some(&self.books[i]),
            None => None,
        }
    }

    /// The chapter with identifier `id`.
    pub fn get_chapter(&self, id: Id) -> (r: Option<&Chapter>)
        ensures
            r is None <==> !has_chapter(self@, id),
            r matches Some(c) ==> c.id == id && self@.chapters.contains(*c),
    {
        match self.find_chapter(id) {
            Some(i) => Some(&self.chapters[i]),
            None => None,
        }
    }

    /// The subscriber with identifier `id`.
    pub fn get_subscriber(&self, id: Id) -> (r: Option<&Subscriber>)
        ensures
            r is None <==> !has_subscriber(self@, id),
            r matches Some(s) ==> s.id == id && self@.subscribers.contains(*s),
    {
        match self.find_subscriber(id) {
            Some(i) => Some(&self.subscribers[i]),
            None => None,
        }
    }

    /// The subscription with identifier `id`.
    pub fn get_subscription(&self, id: Id) -> (r: Option<&Subscription>)
        ensures
            r is None <==> !has_subscription(self@, id),
            r matches Some(s) ==> s.id == id && self@.subscriptions.contains(*s),
    {
        match self.find_subscription(id) {
            Some(i) => Some(&self.subscriptions[i]),
            None => None,
        }
    }

    /// The positions of a subscriber's subscriptions, in store order.
    pub fn list_subscriptions(&self, subscriber_id: Id) -> (r: Vec<usize>)
        ensures
            forall|m: int| 0 <= m < r@.len() ==> #[trigger] r@[m] < self@.subscriptions.len()
                && self@.subscriptions[r@[m] as int].subscriber_id == subscriber_id,
            forall|a: int, b: int| 0 <= a < b < r@.len() ==> #[trigger] r@[a] < #[trigger] r@[b],
            forall|k: int| 0 <= k < self@.subscriptions.len() && (#[trigger] self@.subscriptions[k]).subscriber_id
                == subscriber_id ==> r@.contains(k as usize),
    {
        let mut r: Vec<usize> = Vec::new();
        let mut k: usize = 0;
        while k < self.subscriptions.len()
            invariant
                k <= self.subscriptions@.len(),
                forall|m: int| 0 <= m < r@.len() ==> #[trigger] r@[m] < k
                    && self.subscriptions@[r@[m] as int].subscriber_id == subscriber_id,
                forall|a: int, b: int| 0 <= a < b < r@.len() ==> #[trigger] r@[a] < #[trigger] r@[b],
                forall|j: int| 0 <= j < k && (#[trigger] self.subscriptions@[j]).subscriber_id == subscriber_id
                    ==> r@.contains(j as usize),
            decreases self.subscriptions@.len() - k,
        {
            let ghost old_r = r@;
            if self.subscriptions[k].subscriber_id == subscriber_id {
                r.push(k);
            }
            proof {
                assert forall|j: int| 0 <= j < k + 1 && (#[trigger] self.subscriptions@[j]).subscriber_id == subscriber_id
                    implies r@.contains(j as usize) by {
                    if j < k {
                        let w = choose|w: int| 0 <= w < old_r.len() && old_r[w] == j as usize;
                        assert(r@[w] == j as usize);
                    } else {
                        assert(r@[old_r.len() as int] == k);
                    }
                }
            }
            k = k + 1;
        }
        r
    }

    /// Changes the title and author of a book where given, and refreshes its
    /// update time.
    pub fn update_book(&mut self, id: Id, title: Option<String>, author: Option<String>, now: Timestamp) -> (r: Result<
        usize,
        ApiError,
    >)
        requires
            old(self).wf(),
        ensures
            final(self).wf(),
            cursors_not_retreated(old(self)@, final(self)@),
            r is Err <==> !has_book(old(self)@, id),
            r matches Err(e) ==> e == (ApiError::ResourceNotFound { resource_type: ResourceType::Book, id })
                && final(self)@ == old(self)@,
            r matches Ok(i) ==> i < old(self)@.books.len() && old(self)@.books[i as int].id == id && ({
                let b = old(self)@.books[i as int];
                final(self)@ == (StoreView {
                    books: old(self)@.books.update(i as int, Book {
                        title: match title { Some(t) => t, None => b.title },
                        author: match author { Some(a) => a, None => b.author },
                        updated_at: now,
                        ..b
                    }),
                    ..old(self)@
                })
            }),
    {
        let i = match self.find_book(id) {
            None => { return Err(ApiError::ResourceNotFound { resource_type: ResourceType::Book, id }); },
            Some(i) => i,
        };
        let ghost before = self@;
        let mut b = self.books.remove(i);
        if let Some(t) = title {
            b.title = t;
        }
        if let Some(a) = author {
            b.author = a;
        }
        b.updated_at = now;
        self.books.insert(i, b);
        proof {
            assert(self@.books =~= before.books.update(i as int, b));
            assert forall|x: int, y: int| 0 <= x < y < self@.books.len() implies (#[trigger] self@.books[x]).id
                != (#[trigger] self@.books[y]).id by {
                assert(before.books[x].id != before.books[y].id);
            }
        }
        Ok(i)
    }

    /// Changes a subscriber's name and channels where given, and refreshes
    /// its update time.
    pub fn update_subscriber(
        &mut self,
        id: Id,
        name: Option<String>,
        kindle_email: Option<String>,
        pushover_key: Option<String>,
        now: Timestamp,
    ) -> (r: Result<usize, ApiError>)
        requires
            old(self).wf(),
        ensures
            final(self).wf(),
            cursors_not_retreated(old(self)@, final(self)@),
            r is Err <==> !has_subscriber(old(self)@, id),
            r matches Err(e) ==> e == (ApiError::ResourceNotFound { resource_type: ResourceType::Subscriber, id })
                && final(self)@ == old(self)@,
            r matches Ok(i) ==> i < old(self)@.subscribers.len() && old(self)@.subscribers[i as int].id == id && ({
                let s = old(self)@.subscribers[i as int];
                final(self)@ == (StoreView {
                    subscribers: old(self)@.subscribers.update(i as int, Subscriber {
                        name: match name { Some(x) => x, None => s.name },
                        kindle_email: match kindle_email { Some(x) => Some(x), None => s.kindle_email },
                        pushover_key: match pushover_key { Some(x) => Some(x), None => s.pushover_key },
                        updated_at: now,
                        ..s
                    }),
                    ..old(self)@
                })
            }),
    {
        let i = match self.find_subscriber(id) {
            None => { return Err(ApiError::ResourceNotFound { resource_type: ResourceType::Subscriber, id }); },
            Some(i) => i,
        };
        let ghost before = self@;
        let mut s = self.subscribers.remove(i);
        if let Some(x) = name {
            s.name = x;
        }
        if let Some(x) = kindle_email {
            s.kindle_email = Some(x);
        }
        if let Some(x) = pushover_key {
            s.pushover_key = Some(x);
        }
        s.updated_at = now;
        self.subscribers.insert(i, s);
        proof {
            assert(self@.subscribers =~= before.subscribers.update(i as int, s));
            assert forall|x: int, y: int| 0 <= x < y < self@.subscribers.len() implies (#[trigger] self@.subscribers[x]).id
                != (#[trigger] self@.subscribers[y]).id by {
                assert(before.subscribers[x].id != before.subscribers[y].id);
            }
        }
        Ok(i)
    }

    /// Changes a subscription's chunk size where given, and refreshes its
    /// update time. A chunk size below one is refused.
    pub fn update_subscription(&mut self, id: Id, chunk_size: Option<i32>, now: Timestamp) -> (r: Result<usize, ApiError>)
        requires
            old(self).wf(),
        ensures
            final(self).wf(),
            cursors_not_retreated(old(self)@, final(self)@),
            r is Err ==> final(self)@ == old(self)@,
            !has_subscription(old(self)@, id) ==> r == Err::<usize, ApiError>(
                ApiError::ResourceNotFound { resource_type: ResourceType::Subscription, id },
            ),
            has_subscription(old(self)@, id) && (chunk_size matches Some(n) && n < 1) ==> r == Err::<usize, ApiError>(
                ApiError::InvalidRequest(RequestProblem::ChunkSizeBelowOne),
            ),
            r matches Ok(i) ==> i < old(self)@.subscriptions.len() && old(self)@.subscriptions[i as int].id == id && ({
                let s = old(self)@.subscriptions[i as int];
                final(self)@ == (StoreView {
                    subscriptions: old(self)@.subscriptions.update(i as int, Subscription {
                        chunk_size: match chunk_size { Some(n) => n, None => s.chunk_size },
                        updated_at: now,
                        ..s
                    }),
                    ..old(self)@
                })
            }),
            has_subscription(old(self)@, id) && !(chunk_size matches Some(n) && n < 1) ==> r is Ok,
    {
        let i = match self.find_subscription(id) {
            None => { return Err(ApiError::ResourceNotFound { resource_type: ResourceType::Subscription, id }); },
            Some(i) => i,
        };
        if let Some(n) = chunk_size {
            if n < 1 {
                return Err(ApiError::InvalidRequest(RequestProblem::ChunkSizeBelowOne));
            }
        }
        let ghost before = self@;
        let mut s = self.subscriptions.remove(i);
        if let Some(n) = chunk_size {
            s.chunk_size = n;
        }
        s.updated_at = now;
        self.subscriptions.insert(i, s);
        proof {
            assert(self@.subscriptions =~= before.subscriptions.update(i as int, s));
            assert(cursor_consistent(before.subscriptions[i as int], before.chapters));
            assert forall|x: int, y: int| 0 <= x < y < self@.subscriptions.len() implies (#[trigger] self@.subscriptions[x]).id
                != (#[trigger] self@.subscriptions[y]).id by {
                assert(before.subscriptions[x].id != before.subscriptions[y].id);
            }
            assert forall|k: int| 0 <= k < self@.subscriptions.len() implies cursor_consistent(#[trigger] self@.subscriptions[k], self@.chapters) by {
                if k != i {
                    assert(self@.subscriptions[k] == before.subscriptions[k]);
                }
            }
        }
        Ok(i)
    }

    /// Removes a subscription.
    pub fn delete_subscription(&mut self, id: Id) -> (r: Result<(), ApiError>)
        requires
            old(self).wf(),
        ensures
            final(self).wf(),
            r is Err <==> !has_subscription(old(self)@, id),
            r is Err ==> final(self)@ == old(self)@,
            r is Ok ==> final(self)@.books == old(self)@.books && final(self)@.chapters == old(self)@.chapters
                && final(self)@.subscribers == old(self)@.subscribers
                && exists|i: int| 0 <= i < old(self)@.subscriptions.len() && (#[trigger] old(self)@.subscriptions[i]).id == id
                    && final(self)@.subscriptions == old(self)@.subscriptions.remove(i),
    {
        let i = match self.find_subscription(id) {
            None => { return Err(ApiError::ResourceNotFound { resource_type: ResourceType::Subscription, id }); },
            Some(i) => i,
        };
        let ghost before = self@;
        let _ = self.subscriptions.remove(i);
        proof {
            assert(self@.subscriptions =~= before.subscriptions.remove(i as int));
            assert forall|x: int, y: int| 0 <= x < y < self@.subscriptions.len() implies (#[trigger] self@.subscriptions[x]).id
                != (#[trigger] self@.subscriptions[y]).id by {
                let x0 = if x < i { x } else { x + 1 };
                let y0 = if y < i { y } else { y + 1 };
                assert(before.subscriptions[x0].id != before.subscriptions[y0].id);
            }
            assert forall|k: int| 0 <= k < self@.subscriptions.len() implies cursor_consistent(#[trigger] self@.subscriptions[k], self@.chapters) by {
                let k0 = if k < i { k } else { k + 1 };
                assert(self@.subscriptions[k] == before.subscriptions[k0]);
            }
            assert forall|k: int| 0 <= k < self@.subscriptions.len() implies (#[trigger] self@.subscriptions[k]).chunk_size >= 1 by {
                let k0 = if k < i { k } else { k + 1 };
                assert(self@.subscriptions[k] == before.subscriptions[k0]);
            }
        }
        Ok(())
    }

    /// Changes a chapter's title, HTML, EPUB and publication time where
    /// given, and refreshes its update time. Refused where the chapter would
    /// end with an EPUB and no HTML.
    pub fn update_chapter(
        &mut self,
        id: Id,
        title: Option<String>,
        html: Option<Vec<u8>>,
        epub: Option<Vec<u8>>,
        published_at: Option<Timestamp>,
        now: Timestamp,
    ) -> (r: Result<usize, ApiError>)
        requires
            old(self).wf(),
        ensures
            final(self).wf(),
            cursors_not_retreated(old(self)@, final(self)@),
            r is Err ==> final(self)@ == old(self)@,
            !has_chapter(old(self)@, id) ==> r == Err::<usize, ApiError>(
                ApiError::ResourceNotFound { resource_type: ResourceType::Chapter, id },
            ),
            forall|i: int| 0 <= i < old(self)@.chapters.len() && (#[trigger] old(self)@.chapters[i]).id == id ==> {
                let c = old(self)@.chapters[i];
                if epub is Some && html is None && c.html is None {
                    r == Err::<usize, ApiError>(ApiError::InvalidRequest(RequestProblem::EpubWithoutHtml))
                } else {
                    r == Ok::<usize, ApiError>(i as usize) && final(self)@ == (StoreView {
                        chapters: old(self)@.chapters.update(i, Chapter {
                            title: match title { Some(t) => t, None => c.title },
                            html: match html { Some(h) => Some(h), None => c.html },
                            epub: match epub { Some(e) => Some(e), None => c.epub },
                            published_at: match published_at { Some(p) => Some(p), None => c.published_at },
                            updated_at: now,
                            ..c
                        }),
                        ..old(self)@
                    })
                }
            },
    {
        let i = match self.find_chapter(id) {
            None => { return Err(ApiError::ResourceNotFound { resource_type: ResourceType::Chapter, id }); },
            Some(i) => i,
        };
        proof {
            assert forall|k: int| 0 <= k < self@.chapters.len() && (#[trigger] self@.chapters[k]).id == id implies k == i by {
                if k != i {
                    assert(self@.chapters[k].id != self@.chapters[i as int].id);
                }
            }
        }
        if epub.is_some() && html.is_none() && self.chapters[i].html.is_none() {
            return Err(ApiError::InvalidRequest(RequestProblem::EpubWithoutHtml));
        }
        let ghost before = self@;
        let mut c = self.chapters.remove(i);
        if let Some(t) = title {
            c.title = t;
        }
        if let Some(h) = html {
            c.html = Some(h);
        }
        if let Some(e) = epub {
            c.epub = Some(e);
        }
        if let Some(p) = published_at {
            c.published_at = Some(p);
        }
        c.updated_at = now;
        self.chapters.insert(i, c);
        proof {
            lemma_replace_chapter_valid(before, i as int, c);
            assert(self@.chapters =~= before.chapters.update(i as int, c));
        }
        Ok(i)
    }

    /// Removes a chapter. Refused while a subscription's cursor names it.
    pub fn delete_chapter(&mut self, id: Id) -> (r: Result<(), ApiError>)
        requires
            old(self).wf(),
        ensures
            final(self).wf(),
            cursors_not_retreated(old(self)@, final(self)@),
            r is Err ==> final(self)@ == old(self)@,
            !has_chapter(old(self)@, id) ==> r == Err::<(), ApiError>(
                ApiError::ResourceNotFound { resource_type: ResourceType::Chapter, id },
            ),
            has_chapter(old(self)@, id) ==> (r is Err <==> exists|k: int| 0 <= k < old(self)@.subscriptions.len()
                && (#[trigger] old(self)@.subscriptions[k]).last_delivered_chapter_id == Some(id)),
            r is Err && has_chapter(old(self)@, id) ==> r == Err::<(), ApiError>(
                ApiError::InvalidRequest(RequestProblem::StillReferenced),
            ),
            r is Ok ==> exists|i: int| 0 <= i < old(self)@.chapters.len() && (#[trigger] old(self)@.chapters[i]).id == id
                && final(self)@ == (StoreView { chapters: old(self)@.chapters.remove(i), ..old(self)@ }),
    {
        let i = match self.find_chapter(id) {
            None => { return Err(ApiError::ResourceNotFound { resource_type: ResourceType::Chapter, id }); },
            Some(i) => i,
        };
        let mut k: usize = 0;
        while k < self.subscriptions.len()
            invariant
                self@ == old(self)@,
                valid(self@),
                i < self@.chapters.len() && self@.chapters[i as int].id == id,
                k <= self.subscriptions@.len(),
                forall|j: int| 0 <= j < k ==> (#[trigger] self.subscriptions@[j]).last_delivered_chapter_id != Some(id),
            decreases self.subscriptions@.len() - k,
        {
            if self.subscriptions[k].last_delivered_chapter_id == Some(id) {
                return Err(ApiError::InvalidRequest(RequestProblem::StillReferenced));
            }
            k = k + 1;
        }
        let ghost before = self@;
        let _ = self.chapters.remove(i);
        proof {
            assert(self@.chapters =~= before.chapters.remove(i as int));
            assert forall|x: int, y: int| 0 <= x < y < self@.chapters.len() implies (#[trigger] self@.chapters[x]).id
                != (#[trigger] self@.chapters[y]).id by {
                let x0 = if x < i { x } else { x + 1 };
                let y0 = if y < i { y } else { y + 1 };
                assert(before.chapters[x0].id != before.chapters[y0].id);
            }
            assert forall|x: int| 0 <= x < self@.chapters.len() && (#[trigger] self@.chapters[x]).epub is Some
                implies self@.chapters[x].html is Some by {
                let x0 = if x < i { x } else { x + 1 };
                assert(self@.chapters[x] == before.chapters[x0]);
            }
            assert forall|q: int| 0 <= q < self@.subscriptions.len() implies cursor_consistent(#[trigger] self@.subscriptions[q], self@.chapters) by {
                let s = self@.subscriptions[q];
                assert(cursor_consistent(s, before.chapters));
                if let Some(cid) = s.last_delivered_chapter_id {
                    let j = choose|j: int| 0 <= j < before.chapters.len() && (#[trigger] before.chapters[j]).id == cid
                        && before.chapters[j].book_id == s.book_id
                        && s.last_delivered_chapter_created_at == Some(before.chapters[j].created_at);
                    assert(cid != id);
                    assert(j != i);
                    let j1 = if j < i { j } else { j - 1 };
                    assert(self@.chapters[j1] == before.chapters[j]);
                }
            }
        }
        Ok(())
    }

    /// Removes a subscriber. Refused while a subscription belongs to it.
    pub fn delete_subscriber(&mut self, id: Id) -> (r: Result<(), ApiError>)
        requires
            old(self).wf(),
        ensures
            final(self).wf(),
            cursors_not_retreated(old(self)@, final(self)@),
            r is Err ==> final(self)@ == old(self)@,
            !has_subscriber(old(self)@, id) ==> r == Err::<(), ApiError>(
                ApiError::ResourceNotFound { resource_type: ResourceType::Subscriber, id },
            ),
            has_subscriber(old(self)@, id) ==> (r is Err <==> exists|k: int| 0 <= k < old(self)@.subscriptions.len()
                && (#[trigger] old(self)@.subscriptions[k]).subscriber_id == id),
            r is Err && has_subscriber(old(self)@, id) ==> r == Err::<(), ApiError>(
                ApiError::InvalidRequest(RequestProblem::StillReferenced),
            ),
            r is Ok ==> exists|i: int| 0 <= i < old(self)@.subscribers.len() && (#[trigger] old(self)@.subscribers[i]).id == id
                && final(self)@ == (StoreView { subscribers: old(self)@.subscribers.remove(i), ..old(self)@ }),
    {
        let i = match self.find_subscriber(id) {
            None => { return Err(ApiError::ResourceNotFound { resource_type: ResourceType::Subscriber, id }); },
            Some(i) => i,
        };
        let mut k: usize = 0;
        while k < self.subscriptions.len()
            invariant
                self@ == old(self)@,
                valid(self@),
                i < self@.subscribers.len() && self@.subscribers[i as int].id == id,
                k <= self.subscriptions@.len(),
                forall|j: int| 0 <= j < k ==> (#[trigger] self.subscriptions@[j]).subscriber_id != id,
            decreases self.subscriptions@.len() - k,
        {
            if self.subscriptions[k].subscriber_id == id {
                return Err(ApiError::InvalidRequest(RequestProblem::StillReferenced));
            }
            k = k + 1;
        }
        let ghost before = self@;
        let _ = self.subscribers.remove(i);
        proof {
            assert(self@.subscribers =~= before.subscribers.remove(i as int));
            assert forall|x: int, y: int| 0 <= x < y < self@.subscribers.len() implies (#[trigger] self@.subscribers[x]).id
                != (#[trigger] self@.subscribers[y]).id by {
                let x0 = if x < i { x } else { x + 1 };
                let y0 = if y < i { y } else { y + 1 };
                assert(before.subscribers[x0].id != before.subscribers[y0].id);
            }
        }
        Ok(())
    }

    /// Removes a book. Refused while a chapter or a subscription belongs to it.
    pub fn delete_book(&mut self, id: Id) -> (r: Result<(), ApiError>)
        requires
            old(self).wf(),
        ensures
            final(self).wf(),
            cursors_not_retreated(old(self)@, final(self)@),
            r is Err ==> final(self)@ == old(self)@,
            !has_book(old(self)@, id) ==> r == Err::<(), ApiError>(
                ApiError::ResourceNotFound { resource_type: ResourceType::Book, id },
            ),
            has_book(old(self)@, id) ==> (r is Err <==> (exists|k: int| 0 <= k < old(self)@.chapters.len()
                && (#[trigger] old(self)@.chapters[k]).book_id == id) || (exists|k: int| 0 <= k
                < old(self)@.subscriptions.len() && (#[trigger] old(self)@.subscriptions[k]).book_id == id)),
            r is Err && has_book(old(self)@, id) ==> r == Err::<(), ApiError>(
                ApiError::InvalidRequest(RequestProblem::StillReferenced),
            ),
            r is Ok ==> exists|i: int| 0 <= i < old(self)@.books.len() && (#[trigger] old(self)@.books[i]).id == id
                && final(self)@ == (StoreView { books: old(self)@.books.remove(i), ..old(self)@ }),
    {
        let i = match self.find_book(id) {
            None => { return Err(ApiError::ResourceNotFound { resource_type: ResourceType::Book, id }); },
            Some(i) => i,
        };
        let mut k: usize = 0;
        while k < self.chapters.len()
            invariant
                self@ == old(self)@,
                valid(self@),
                i < self@.books.len() && self@.books[i as int].id == id,
                k <= self.chapters@.len(),
                forall|j: int| 0 <= j < k ==> (#[trigger] self.chapters@[j]).book_id != id,
            decreases self.chapters@.len() - k,
        {
            if self.chapters[k].book_id == id {
                return Err(ApiError::InvalidRequest(RequestProblem::StillReferenced));
            }
            k = k + 1;
        }
        let mut k: usize = 0;
        while k < self.subscriptions.len()
            invariant
                self@ == old(self)@,
                valid(self@),
                i < self@.books.len() && self@.books[i as int].id == id,
                k <= self.subscriptions@.len(),
                forall|j: int| 0 <= j < self.chapters@.len() ==> (#[trigger] self.chapters@[j]).book_id != id,
                forall|j: int| 0 <= j < k ==> (#[trigger] self.subscriptions@[j]).book_id != id,
            decreases self.subscriptions@.len() - k,
        {
            if self.subscriptions[k].book_id == id {
                return Err(ApiError::InvalidRequest(RequestProblem::StillReferenced));
            }
            k = k + 1;
        }
        let ghost before = self@;
        let _ = self.books.remove(i);
        proof {
            assert(self@.books =~= before.books.remove(i as int));
            assert forall|x: int, y: int| 0 <= x < y < self@.books.len() implies (#[trigger] self@.books[x]).id
                != (#[trigger] self@.books[y]).id by {
                let x0 = if x < i { x } else { x + 1 };
                let y0 = if y < i { y } else { y + 1 };
                assert(before.books[x0].id != before.books[y0].id);
            }
        }
        Ok(())
    }

    fn key_le_at(&self, a: usize, b: usize, descending: bool) -> (r: bool)
        requires
            a < self.chapters@.len(),
            b < self.chapters@.len(),
        ensures
            r == key_le(self.chapters@[a as int], self.chapters@[b as int], descending),
    {
        let ka = self.chapters[a].order_key();
        let kb = self.chapters[b].order_key();
        if descending {
            ka >= kb
        } else {
            ka <= kb
        }
    }
}

} // verus!
