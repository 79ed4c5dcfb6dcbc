//! The discovery cursor of a book, and why a second discovery run with
//! nothing new at the source adds nothing.

use vstd::prelude::*;
use crate::feeds::{feed_entry, kept_entries, FeedSource, ItemText};
use crate::model::{Chapter, Id, Timestamp};
use crate::store::Store;

verus! {

/// The latest creation time among the chapters of a book; discovery asks
/// providers for what is newer than this.
pub open spec fn latest_created(chs: Seq<Chapter>, book_id: Id) -> Option<Timestamp>
    decreases chs.len(),
{
    if chs.len() == 0 {
        None
    } else {
        let prev = latest_created(chs.drop_last(), book_id);
        let c = chs.last();
        if c.book_id != book_id {
            prev
        } else {
            match prev {
                None => Some(c.created_at),
                Some(t) => Some(if c.created_at > t { c.created_at } else { t }),
            }
        }
    }
}

/// The discovery cursor of a book: the creation time of its chapter created
/// last, `None` for a book without chapters.
pub fn discovery_cursor(store: &Store, book_id: Id) -> (r: Option<Timestamp>)
    ensures
        r == latest_created(store@.chapters, book_id),
{
    let chs = store.chapters();
    let mut r: Option<Timestamp> = None;
    let mut i: usize = 0;
    while i < chs.len()
        invariant
            chs@ == store@.chapters,
            i <= chs@.len(),
            r == latest_created(chs@.subrange(0, i as int), book_id),
        decreases chs@.len() - i,
    {
        proof {
            assert(chs@.subrange(0, i + 1).drop_last() =~= chs@.subrange(0, i as int));
        }
        let c = &chs[i];
        if c.book_id == book_id {
            r = match r {
                None => Some(c.created_at),
                Some(t) => Some(if c.created_at > t { c.created_at } else { t }),
            };
        }
        i = i + 1;
    }
    assert(chs@.subrange(0, i as int) =~= chs@);
    r
}

proof fn lemma_latest_at_least(chs: Seq<Chapter>, book_id: Id, now: Timestamp)
    requires
        exists|i: int| 0 <= i < chs.len() && (#[trigger] chs[i]).book_id == book_id && chs[i].created_at >= now,
    ensures
        latest_created(chs, book_id) matches Some(t) && t >= now,
    decreases chs.len(),
{
    let i = choose|i: int| 0 <= i < chs.len() && (#[trigger] chs[i]).book_id == book_id && chs[i].created_at >= now;
    if i < chs.len() - 1 {
        assert(chs.drop_last()[i] == chs[i]);
        lemma_latest_at_least(chs.drop_last(), book_id, now);
    }
}

proof fn lemma_nothing_after(src: FeedSource, its: Seq<ItemText>, now: Timestamp, t: Timestamp)
    requires
        now <= t,
        forall|k: int| 0 <= k < its.len() ==> (feed_entry(src, #[trigger] its[k]) matches Ok(e) ==> e.published_at <= now),
    ensures
        kept_entries(src, its, Some(t)).len() == 0,
    decreases its.len(),
{
    if its.len() > 0 {
        lemma_nothing_after(src, its.drop_last(), now, t);
        assert(its.last() == its[its.len() - 1]);
    }
}

/// Discovery run twice with nothing new at the source adds nothing the second
/// time: once the stubs of the first run are stored, created at `now` or
/// later, no item published by `now` is newer than the book's cursor.
pub proof fn discovery_twice_adds_nothing(
    src: FeedSource,
    its: Seq<ItemText>,
    chs: Seq<Chapter>,
    rows: Seq<Chapter>,
    book_id: Id,
    now: Timestamp,
)
    requires
        forall|k: int| 0 <= k < its.len() ==> (feed_entry(src, #[trigger] its[k]) matches Ok(e) ==> e.published_at <= now),
        rows.len() == kept_entries(src, its, latest_created(chs, book_id)).len(),
        forall|k: int| 0 <= k < rows.len() ==> (#[trigger] rows[k]).book_id == book_id && rows[k].created_at >= now,
    ensures
        kept_entries(src, its, latest_created(chs + rows, book_id)).len() == 0,
{
    if rows.len() == 0 {
        assert(chs + rows =~= chs);
    } else {
        let all = chs + rows;
        assert(all[chs.len() as int] == rows[0]);
        lemma_latest_at_least(all, book_id, now);
        let t = latest_created(all, book_id)->0;
        lemma_nothing_after(src, its, now, t);
    }
}

} // verus!
