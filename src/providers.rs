//! Which provider serves a book or a chapter, and which chapters the
//! hydration worker fetches.

use vstd::prelude::*;
use crate::adapters::opt_text;
use crate::feeds::{
    PaleChapterBodyProvider, PaleNewChapterProvider, RoyalroadChapterBodyProvider, RoyalroadNewChapterProvider,
};
use crate::mail::{
    ApparatusOfChangePatreonNewChapterProvider, WanderingInnPatreonChapterBodyProvider,
    WanderingInnPatreonNewChapterProvider,
};
use crate::model::{BookMetadata, Chapter, ChapterMetadata, Id, NewChapter};
use crate::store::{key_le, selects, Store};

verus! {

/// Discovery for the Daily Grind Patreon; no inbound email is read for it,
/// so it finds nothing.
pub struct DailyGrindPatreonNewChapterProvider;

impl DailyGrindPatreonNewChapterProvider {
    pub fn chapters(&self) -> (r: Vec<NewChapter>)
        ensures
            r@.len() == 0,
    {
        Vec::new()
    }
}

/// The discovery provider of a book's source.
pub enum NewChapterProvider {
    Royalroad(RoyalroadNewChapterProvider),
    Pale(PaleNewChapterProvider),
    WanderingInnPatreon(WanderingInnPatreonNewChapterProvider),
    DailyGrindPatreon(DailyGrindPatreonNewChapterProvider),
    ApparatusOfChangePatreon(ApparatusOfChangePatreonNewChapterProvider),
}

/// The body provider of a chapter's source.
pub enum ChapterBodyProvider {
    Royalroad(RoyalroadChapterBodyProvider),
    Pale(PaleChapterBodyProvider),
    WanderingInnPatreon(WanderingInnPatreonChapterBodyProvider),
}

impl BookMetadata {
    /// The discovery provider for this source; the public Wandering Inn has none.
    pub fn chapter_provider(&self) -> (r: Option<NewChapterProvider>)
        ensures
            match *self {
                BookMetadata::RoyalRoad(id) => r matches Some(NewChapterProvider::Royalroad(p)) && p.royalroad_book_id == id,
                BookMetadata::Pale => r matches Some(NewChapterProvider::Pale(_)),
                BookMetadata::TheWanderingInn => r is None,
                BookMetadata::TheWanderingInnPatreon => r matches Some(NewChapterProvider::WanderingInnPatreon(_)),
                BookMetadata::TheDailyGrindPatreon => r matches Some(NewChapterProvider::DailyGrindPatreon(_)),
                BookMetadata::ApparatusOfChangePatreon => r matches Some(
                    NewChapterProvider::ApparatusOfChangePatreon(_),
                ),
            },
    {
        match self {
            BookMetadata::RoyalRoad(id) => Some(
                NewChapterProvider::Royalroad(RoyalroadNewChapterProvider { royalroad_book_id: *id }),
            ),
            BookMetadata::Pale => Some(NewChapterProvider::Pale(PaleNewChapterProvider)),
            BookMetadata::TheWanderingInn => None,
            BookMetadata::TheWanderingInnPatreon => Some(
                NewChapterProvider::WanderingInnPatreon(WanderingInnPatreonNewChapterProvider),
            ),
            BookMetadata::TheDailyGrindPatreon => Some(
                NewChapterProvider::DailyGrindPatreon(DailyGrindPatreonNewChapterProvider),
            ),
            BookMetadata::ApparatusOfChangePatreon => Some(
                NewChapterProvider::ApparatusOfChangePatreon(ApparatusOfChangePatreonNewChapterProvider),
            ),
        }
    }
}

impl ChapterMetadata {
    /// The body provider for this chapter; chapters whose body arrives with
    /// discovery have none.
    pub fn body_provider(&self) -> (r: Option<ChapterBodyProvider>)
        ensures
            match *self {
                ChapterMetadata::RoyalRoad { royalroad_chapter_id, .. } => r matches Some(
                    ChapterBodyProvider::Royalroad(p),
                ) && p.royalroad_chapter_id == royalroad_chapter_id,
                ChapterMetadata::Pale { url } => r matches Some(ChapterBodyProvider::Pale(p)) && p.url@ == url@,
                ChapterMetadata::TheWanderingInnPatreon { url, password } => r matches Some(
                    ChapterBodyProvider::WanderingInnPatreon(p),
                ) && p.url@ == url@ && opt_text(p.password) == opt_text(password),
                ChapterMetadata::TheDailyGrindPatreon => r is None,
                ChapterMetadata::ApparatusOfChangePatreon => r is None,
            },
    {
        match self {
            ChapterMetadata::RoyalRoad { royalroad_chapter_id, .. } => Some(
                ChapterBodyProvider::Royalroad(RoyalroadChapterBodyProvider { royalroad_chapter_id: *royalroad_chapter_id }),
            ),
            ChapterMetadata::Pale { url } => Some(ChapterBodyProvider::Pale(PaleChapterBodyProvider { url: url.clone() })),
            ChapterMetadata::TheWanderingInnPatreon { url, password } => Some(
                ChapterBodyProvider::WanderingInnPatreon(WanderingInnPatreonChapterBodyProvider {
                    url: url.clone(),
                    password: match password {
                        Some(p) => Some(p.clone()),
                        None => None,
                    },
                }),
            ),
            ChapterMetadata::TheDailyGrindPatreon => None,
            ChapterMetadata::ApparatusOfChangePatreon => None,
        }
    }
}

/// The chapter sources that have a body provider.
pub open spec fn has_body_source(m: ChapterMetadata) -> bool {
    m is RoyalRoad || m is Pale || m is TheWanderingInnPatreon
}

/// `p` is the body provider of a chapter with locators `m`.
pub open spec fn provides_for(p: ChapterBodyProvider, m: ChapterMetadata) -> bool {
    match m {
        ChapterMetadata::RoyalRoad { royalroad_chapter_id, .. } => p matches ChapterBodyProvider::Royalroad(x)
            && x.royalroad_chapter_id == royalroad_chapter_id,
        ChapterMetadata::Pale { url } => p matches ChapterBodyProvider::Pale(x) && x.url@ == url@,
        ChapterMetadata::TheWanderingInnPatreon { url, password } => p matches ChapterBodyProvider::WanderingInnPatreon(
            x,
        ) && x.url@ == url@ && opt_text(x.password) == opt_text(password),
        _ => false,
    }
}

/// One chapter to hydrate: its position in the store, its identifier and
/// where its body comes from.
pub struct HydrationTask {
    pub position: usize,
    pub chapter_id: Id,
    pub provider: ChapterBodyProvider,
}

/// The chapters that lack an HTML body and have a body provider, latest
/// first by the ordering key; chapters whose body arrives with discovery are
/// left out.
pub fn hydration_queue(store: &Store) -> (r: Vec<HydrationTask>)
    ensures
        forall|m: int| 0 <= m < r@.len() ==> {
            let t = #[trigger] r@[m];
            &&& t.position < store@.chapters.len()
            &&& store@.chapters[t.position as int].id == t.chapter_id
            &&& store@.chapters[t.position as int].html is None
            &&& provides_for(t.provider, store@.chapters[t.position as int].metadata)
        },
        forall|a: int, b: int| 0 <= a < b < r@.len() ==> (#[trigger] r@[a]).position != (#[trigger] r@[b]).position
            && key_le(store@.chapters[r@[a].position as int], store@.chapters[r@[b].position as int], true),
        forall|i: int| 0 <= i < store@.chapters.len() && (#[trigger] store@.chapters[i]).html is None
            && has_body_source(store@.chapters[i].metadata) ==> exists|m: int| 0 <= m < r@.len() && r@[m].position == i,
{
    let chs = store.chapters();
    let q = store.list_chapters_without_bodies();
    let ghost pred = |c: Chapter| c.html is None;
    let mut r: Vec<HydrationTask> = Vec::new();
    let ghost mut idx: Seq<int> = Seq::empty();
    let mut k: usize = 0;
    while k < q.len()
        invariant
            chs@ == store@.chapters,
            selects(chs@, q@, pred, true),
            pred == (|c: Chapter| c.html is None),
            k <= q@.len(),
            idx.len() == r@.len(),
            forall|m: int| 0 <= m < r@.len() ==> 0 <= #[trigger] idx[m] < k && q@[idx[m]] == r@[m].position,
            forall|a: int, b: int| 0 <= a < b < r@.len() ==> #[trigger] idx[a] < #[trigger] idx[b],
            forall|m: int| 0 <= m < r@.len() ==> {
                let t = #[trigger] r@[m];
                &&& t.position < chs@.len()
                &&& chs@[t.position as int].id == t.chapter_id
                &&& chs@[t.position as int].html is None
                &&& provides_for(t.provider, chs@[t.position as int].metadata)
            },
            forall|j: int| 0 <= j < k && has_body_source(chs@[q@[j] as int].metadata) ==> exists|m: int|
                0 <= m < r@.len() && #[trigger] idx[m] == j,
        decreases q@.len() - k,
    {
        let pos = q[k];
        proof {
            assert(q@.contains(pos));
            assert(pred(chs@[pos as int]));
        }
        let ghost old_r = r@;
        let ghost old_idx = idx;
        match chs[pos].metadata.body_provider() {
            Some(p) => {
                r.push(HydrationTask { position: pos, chapter_id: chs[pos].id, provider: p });
                proof {
                    idx = idx.push(k as int);
                }
            },
            None => {},
        }
        proof {
            assert forall|j: int| 0 <= j < k + 1 && has_body_source(chs@[q@[j] as int].metadata) implies exists|m: int|
                0 <= m < r@.len() && #[trigger] idx[m] == j by {
                if j < k {
                    let m = choose|m: int| 0 <= m < old_r.len() && #[trigger] old_idx[m] == j;
                    assert(idx[m] == j);
                } else {
                    assert(idx[old_r.len() as int] == k);
                }
            }
        }
        k = k + 1;
    }
    let n = chs.len();
    proof {
        assert forall|a: int, b: int| 0 <= a < b < r@.len() implies (#[trigger] r@[a]).position != (#[trigger] r@[b]).position
            && key_le(store@.chapters[r@[a].position as int], store@.chapters[r@[b].position as int], true) by {
            assert(idx[a] < idx[b]);
        }
        assert forall|i: int| 0 <= i < store@.chapters.len() && (#[trigger] store@.chapters[i]).html is None
            && has_body_source(store@.chapters[i].metadata) implies exists|m: int| 0 <= m < r@.len() && r@[m].position == i by {
            assert(i < n);
            assert((i as usize) as int == i);
            assert(q@.contains(i as usize));
            let j = choose|j: int| 0 <= j < q@.len() && q@[j] == i as usize;
            let m = choose|m: int| 0 <= m < r@.len() && #[trigger] idx[m] == j;
            assert(r@[m].position == i);
        }
    }
    r
}

} // verus!
