//! RSS-based discovery (Royal Road, Pale) and chapter bodies drawn from
//! fetched pages.

use vstd::prelude::*;
use vstd::utf8::encode_utf8;
use crate::adapters::{
    element_text, feed_item_text, feed_items, opt_text, read_feed, rfc2822_millis, parse_rfc2822, select_elements,
    selected, FeedItem, HtmlElement,
};
use crate::model::{ChapterMetadata, Id, NewChapter, Timestamp};
use crate::text::{
    append_bytes, blank, contains, contains_text, find_text, first_occurrence, is_blank, last_index_of,
    opt_str_text, parse_u64, rfind_char, text_eq, u64_numeral,
};

verus! {

/// Why a provider could not produce chapters or a body.
#[derive(Clone, Copy, Debug, PartialEq, Eq, Structural)]
pub enum ProviderError {
    /// The feed is not a readable RSS channel.
    FeedUnreadable,
    /// An item's link does not end in a chapter number.
    BadChapterLink,
    /// An item has no link.
    MissingLink,
    /// An item has no usable title.
    MissingTitle,
    /// An item has no publication date.
    MissingPublishDate,
    /// An item's publication date is not an RFC 2822 date.
    BadPublishDate,
    /// A CSS selector did not parse.
    BadSelector,
    /// No element holds the chapter body.
    MissingBody,
    /// The chapter body is empty once trimmed.
    EmptyBody,
    /// The email does not parse.
    EmailUnreadable,
    /// The email subject holds no quoted chapter title.
    NoTitleInSubject,
}

/// The texts of a feed item: title, link and publication date.
pub type ItemText = (Option<Seq<char>>, Option<Seq<char>>, Option<Seq<char>>);

/// The texts of a matched element: outer HTML, id, text nodes, href and the
/// text of the next sibling element.
pub type ElementText = (Seq<char>, Option<Seq<char>>, Seq<Seq<char>>, Option<Seq<char>>, Option<Seq<char>>);

/// Which RSS source a feed comes from.
pub enum FeedSource {
    Royalroad(u64),
    Pale,
}

/// What discovery keeps of one feed item.
pub ghost struct Entry {
    pub title: Seq<char>,
    pub url: Seq<char>,
    pub chapter_id: u64,
    pub published_at: Timestamp,
}

/// The chapter number at the end of a Royal Road link: what follows its
/// last `/`, read as a decimal numeral.
pub open spec fn chapter_id_of_link(link: Option<Seq<char>>) -> Option<u64> {
    match link {
        None => None,
        Some(l) => if exists|i: int| last_index_of(l, '/', i) {
            let i = choose|i: int| last_index_of(l, '/', i);
            u64_numeral(l.subrange(i + 1, l.len() as int))
        } else {
            None
        },
    }
}

/// The part of a title after its first `" - "`.
pub open spec fn title_after_dash(title: Option<Seq<char>>) -> Option<Seq<char>> {
    match title {
        None => None,
        Some(t) => if contains_text(t, " - "@) {
            let i = choose|i: int| first_occurrence(t, " - "@, i);
            Some(t.subrange(i + " - "@.len(), t.len() as int))
        } else {
            None
        },
    }
}

/// The entry of a dated item, or why it has none.
pub open spec fn dated(date: Option<Seq<char>>, title: Seq<char>, url: Seq<char>, id: u64) -> Result<Entry, ProviderError> {
    match date {
        None => Err(ProviderError::MissingPublishDate),
        Some(d) => match rfc2822_millis(d) {
            None => Err(ProviderError::BadPublishDate),
            Some(p) => Ok(Entry { title, url, chapter_id: id, published_at: p }),
        },
    }
}

/// The entry of one feed item, checked field by field in the order the
/// chapter is built.
pub open spec fn feed_entry(src: FeedSource, it: ItemText) -> Result<Entry, ProviderError> {
    match src {
        FeedSource::Royalroad(_) => match chapter_id_of_link(it.1) {
            None => Err(ProviderError::BadChapterLink),
            Some(id) => match title_after_dash(it.0) {
                None => Err(ProviderError::MissingTitle),
                Some(t) => dated(it.2, t, Seq::empty(), id),
            },
        },
        FeedSource::Pale => match it.1 {
            None => Err(ProviderError::MissingLink),
            Some(l) => match it.0 {
                None => Err(ProviderError::MissingTitle),
                Some(t) => dated(it.2, t, l, 0),
            },
        },
    }
}

/// `Some(p) > cursor` in `Option`'s order: a dated item is newer than no cursor.
pub open spec fn published_after(p: Option<Timestamp>, cursor: Option<Timestamp>) -> bool {
    match (p, cursor) {
        (None, _) => false,
        (Some(_), None) => true,
        (Some(a), Some(b)) => a > b,
    }
}

/// The error of the first item that has no entry.
pub open spec fn first_feed_error(src: FeedSource, its: Seq<ItemText>) -> Option<ProviderError>
    decreases its.len(),
{
    if its.len() == 0 {
        None
    } else {
        match first_feed_error(src, its.drop_last()) {
            Some(e) => Some(e),
            None => match feed_entry(src, its.last()) {
                Err(e) => Some(e),
                Ok(_) => None,
            },
        }
    }
}

/// The entries published after the cursor, in feed order.
pub open spec fn kept_entries(src: FeedSource, its: Seq<ItemText>, cursor: Option<Timestamp>) -> Seq<Entry>
    decreases its.len(),
{
    if its.len() == 0 {
        Seq::empty()
    } else {
        let prev = kept_entries(src, its.drop_last(), cursor);
        match feed_entry(src, its.last()) {
            Ok(e) => if published_after(Some(e.published_at), cursor) {
                prev.push(e)
            } else {
                prev
            },
            Err(_) => prev,
        }
    }
}

/// `nc` is the stub chapter of entry `e` of book `book_id`.
pub open spec fn entry_chapter(src: FeedSource, e: Entry, book_id: Id, nc: NewChapter) -> bool {
    &&& nc.title@ == e.title
    &&& nc.book_id == book_id
    &&& nc.html is None
    &&& nc.epub is None
    &&& nc.published_at == Some(e.published_at)
    &&& match src {
        FeedSource::Royalroad(rb) => nc.metadata == (ChapterMetadata::RoyalRoad {
            royalroad_book_id: rb,
            royalroad_chapter_id: e.chapter_id,
        }),
        FeedSource::Pale => nc.metadata matches ChapterMetadata::Pale { url } && url@ == e.url,
    }
}

/// The outcome of discovery over feed items: the first bad item's error, or
/// the stubs of the items published after the cursor.
pub open spec fn feed_outcome(
    src: FeedSource,
    its: Seq<ItemText>,
    book_id: Id,
    cursor: Option<Timestamp>,
    r: Result<Vec<NewChapter>, ProviderError>,
) -> bool {
    match first_feed_error(src, its) {
        Some(e) => r == Err::<Vec<NewChapter>, ProviderError>(e),
        None => r matches Ok(v) && v@.len() == kept_entries(src, its, cursor).len() && forall|k: int|
            0 <= k < v@.len() ==> entry_chapter(src, kept_entries(src, its, cursor)[k], book_id, #[trigger] v@[k]),
    }
}

proof fn lemma_first_error_extends(src: FeedSource, its: Seq<ItemText>, k: int)
    requires
        0 <= k <= its.len(),
        first_feed_error(src, its.subrange(0, k)) is Some,
    ensures
        first_feed_error(src, its) == first_feed_error(src, its.subrange(0, k)),
    decreases its.len(),
{
    if k == its.len() {
        assert(its.subrange(0, k) =~= its);
    } else {
        assert(its.drop_last().subrange(0, k) =~= its.subrange(0, k));
        lemma_first_error_extends(src, its.drop_last(), k);
    }
}

/// The Royal Road chapter number at the end of an item link.
pub fn get_chapter_id_from_link(link: Option<&str>) -> (r: Result<u64, ProviderError>)
    ensures
        r == (match chapter_id_of_link(opt_str_text(link)) {
            Some(id) => Ok::<u64, ProviderError>(id),
            None => Err(ProviderError::BadChapterLink),
        }),
{
    let l = match link {
        None => { return Err(ProviderError::BadChapterLink); },
        Some(l) => l,
    };
    match rfind_char(l, '/') {
        None => Err(ProviderError::BadChapterLink),
        Some(i) => {
            let n = l.unicode_len();
            proof {
                assert(exists|j: int| last_index_of(l@, '/', j));
                let j = choose|j: int| last_index_of(l@, '/', j);
                assert(j == i);
            }
            match parse_u64(l.substring_char(i + 1, n)) {
                Some(id) => Ok(id),
                None => Err(ProviderError::BadChapterLink),
            }
        },
    }
}

/// The part of a title after its first `" - "`.
fn title_after_dash_of(title: &Option<String>) -> (r: Option<String>)
    ensures
        opt_text(r) == title_after_dash(opt_text(*title)),
{
    let t = match title {
        None => { return None; },
        Some(t) => t.as_str(),
    };
    let sep = " - ";
    match find_text(t, sep) {
        None => None,
        Some(i) => {
            let tl = t.unicode_len();
            let sl = sep.unicode_len();
            proof {
                let j = choose|j: int| first_occurrence(t@, " - "@, j);
                assert(j == i);
            }
            Some(String::from_str(t.substring_char(i + sl, tl)))
        },
    }
}

fn date_of(date: &Option<String>) -> (r: Result<Timestamp, ProviderError>)
    ensures
        match opt_text(*date) {
            None => r == Err::<Timestamp, ProviderError>(ProviderError::MissingPublishDate),
            Some(d) => match rfc2822_millis(d) {
                None => r == Err::<Timestamp, ProviderError>(ProviderError::BadPublishDate),
                Some(p) => r == Ok::<Timestamp, ProviderError>(p),
            },
        },
{
    match date {
        None => Err(ProviderError::MissingPublishDate),
        Some(d) => match parse_rfc2822(d.as_str()) {
            None => Err(ProviderError::BadPublishDate),
            Some(p) => Ok(p),
        },
    }
}

/// The stub chapter of one feed item, or why it has none.
fn item_chapter(src: &FeedSource, item: &FeedItem, book_id: Id) -> (r: Result<NewChapter, ProviderError>)
    ensures
        match feed_entry(*src, feed_item_text(*item)) {
            Err(e) => r == Err::<NewChapter, ProviderError>(e),
            Ok(en) => r matches Ok(nc) && entry_chapter(*src, en, book_id, nc),
        },
{
    match src {
        FeedSource::Royalroad(rb) => {
            let link: Option<&str> = match &item.link {
                Some(l) => Some(l.as_str()),
                None => None,
            };
            let id = get_chapter_id_from_link(link)?;
            let title = match title_after_dash_of(&item.title) {
                None => { return Err(ProviderError::MissingTitle); },
                Some(t) => t,
            };
            let p = date_of(&item.pub_date)?;
            Ok(NewChapter {
                title,
                metadata: ChapterMetadata::RoyalRoad { royalroad_book_id: *rb, royalroad_chapter_id: id },
                book_id,
                html: None,
                epub: None,
                published_at: Some(p),
            })
        },
        FeedSource::Pale => {
            let url = match &item.link {
                None => { return Err(ProviderError::MissingLink); },
                Some(l) => l.clone(),
            };
            let title = match &item.title {
                None => { return Err(ProviderError::MissingTitle); },
                Some(t) => t.clone(),
            };
            let p = date_of(&item.pub_date)?;
            Ok(NewChapter {
                title,
                metadata: ChapterMetadata::Pale { url },
                book_id,
                html: None,
                epub: None,
                published_at: Some(p),
            })
        },
    }
}

/// Whether `p` is later than `cursor` in `Option`'s order.
pub fn is_published_after(p: Option<Timestamp>, cursor: Option<Timestamp>) -> (r: bool)
    ensures
        r == published_after(p, cursor),
{
    match (p, cursor) {
        (None, _) => false,
        (Some(_), None) => true,
        (Some(a), Some(b)) => a > b,
    }
}

/// The stub chapters of the items of a feed that were published after
/// `cursor`; the first item that cannot become a chapter fails the whole feed.
pub fn chapters_from_items(src: &FeedSource, items: &Vec<FeedItem>, book_id: Id, cursor: Option<Timestamp>) -> (r: Result<
    Vec<NewChapter>,
    ProviderError,
>)
    ensures
        feed_outcome(*src, items@.map_values(|i: FeedItem| feed_item_text(i)), book_id, cursor, r),
{
    let ghost its = items@.map_values(|i: FeedItem| feed_item_text(i));
    let mut out: Vec<NewChapter> = Vec::new();
    let mut k: usize = 0;
    while k < items.len()
        invariant
            k <= items@.len(),
            its == items@.map_values(|i: FeedItem| feed_item_text(i)),
            first_feed_error(*src, its.subrange(0, k as int)) is None,
            out@.len() == kept_entries(*src, its.subrange(0, k as int), cursor).len(),
            forall|m: int| 0 <= m < out@.len() ==> entry_chapter(*src, kept_entries(*src, its.subrange(0, k as int), cursor)[m], book_id, #[trigger] out@[m]),
        decreases items@.len() - k,
    {
        proof {
            assert(its.subrange(0, k + 1).drop_last() =~= its.subrange(0, k as int));
            assert(its.subrange(0, k + 1).last() == feed_item_text(items@[k as int]));
        }
        match item_chapter(src, &items[k], book_id) {
            Err(e) => {
                proof {
                    lemma_first_error_extends(*src, its, k + 1);
                }
                return Err(e);
            },
            Ok(nc) => {
                if is_published_after(nc.published_at, cursor) {
                    out.push(nc);
                }
            },
        }
        k = k + 1;
    }
    proof {
        assert(its.subrange(0, k as int) =~= its);
    }
    Ok(out)
}

/// Discovery from a Royal Road fiction's RSS feed.
pub struct RoyalroadNewChapterProvider {
    pub royalroad_book_id: u64,
}

impl RoyalroadNewChapterProvider {
    /// The stub chapters of the feed `feed` published after `cursor`.
    pub fn chapters_from_feed(&self, feed: &[u8], book_id: Id, cursor: Option<Timestamp>) -> (r: Result<
        Vec<NewChapter>,
        ProviderError,
    >)
        ensures
            match feed_items(feed@) {
                None => r == Err::<Vec<NewChapter>, ProviderError>(ProviderError::FeedUnreadable),
                Some(its) => feed_outcome(FeedSource::Royalroad(self.royalroad_book_id), its, book_id, cursor, r),
            },
    {
        match read_feed(feed) {
            None => Err(ProviderError::FeedUnreadable),
            Some(items) => chapters_from_items(&FeedSource::Royalroad(self.royalroad_book_id), &items, book_id, cursor),
        }
    }
}

/// Discovery from Pale's WordPress RSS feed.
pub struct PaleNewChapterProvider;

impl PaleNewChapterProvider {
    /// The stub chapters of the feed `feed` published after `cursor`.
    pub fn chapters_from_feed(&self, feed: &[u8], book_id: Id, cursor: Option<Timestamp>) -> (r: Result<
        Vec<NewChapter>,
        ProviderError,
    >)
        ensures
            match feed_items(feed@) {
                None => r == Err::<Vec<NewChapter>, ProviderError>(ProviderError::FeedUnreadable),
                Some(its) => feed_outcome(FeedSource::Pale, its, book_id, cursor, r),
            },
    {
        match read_feed(feed) {
            None => Err(ProviderError::FeedUnreadable),
            Some(items) => chapters_from_items(&FeedSource::Pale, &items, book_id, cursor),
        }
    }
}

/// A text node that marks chapter navigation.
pub open spec fn navigation_text(t: Seq<char>) -> bool {
    contains_text(t, "Next Chapter"@) || contains_text(t, "Previous Chapter"@)
}

/// Whether a matched child element belongs to the chapter body: not the
/// share-buttons block (where `skip_flair` asks for that), and no navigation.
pub open spec fn keep_element(e: ElementText, skip_flair: bool) -> bool {
    &&& !(skip_flair && e.1 == Some("jp-post-flair"@))
    &&& forall|k: int| 0 <= k < e.2.len() ==> !navigation_text(#[trigger] e.2[k])
}

/// The outer HTML of the kept elements, in document order.
pub open spec fn kept_html(els: Seq<ElementText>, skip_flair: bool) -> Seq<Seq<char>>
    decreases els.len(),
{
    if els.len() == 0 {
        Seq::empty()
    } else if keep_element(els.last(), skip_flair) {
        kept_html(els.drop_last(), skip_flair).push(els.last().0)
    } else {
        kept_html(els.drop_last(), skip_flair)
    }
}

/// Texts joined with a newline between consecutive ones.
pub open spec fn join_lines(parts: Seq<Seq<char>>) -> Seq<char>
    decreases parts.len(),
{
    if parts.len() == 0 {
        Seq::empty()
    } else if parts.len() == 1 {
        parts[0]
    } else {
        join_lines(parts.drop_last()) + "\n"@ + parts.last()
    }
}

/// The body drawn from the children of a WordPress entry: their kept HTML
/// joined by newlines, refused when blank.
pub open spec fn entry_body_outcome(sel: Option<Seq<ElementText>>, skip_flair: bool, r: Result<Vec<u8>, ProviderError>) -> bool {
    match sel {
        None => r == Err::<Vec<u8>, ProviderError>(ProviderError::BadSelector),
        Some(els) => {
            let body = join_lines(kept_html(els, skip_flair));
            if blank(body) {
                r == Err::<Vec<u8>, ProviderError>(ProviderError::EmptyBody)
            } else {
                r matches Ok(b) && b@ == encode_utf8(body)
            }
        },
    }
}

/// Extracting a chapter body is a function of the page: two extractions from
/// the same page agree, byte for byte or error for error.
pub proof fn body_extraction_is_deterministic(
    sel: Option<Seq<ElementText>>,
    skip_flair: bool,
    r1: Result<Vec<u8>, ProviderError>,
    r2: Result<Vec<u8>, ProviderError>,
)
    requires
        entry_body_outcome(sel, skip_flair, r1),
        entry_body_outcome(sel, skip_flair, r2),
    ensures
        r1 is Ok <==> r2 is Ok,
        r1 is Ok ==> r1->Ok_0@ == r2->Ok_0@,
        r1 is Err ==> r1 == r2,
{
}

/// Whether any text node of `e` marks navigation.
fn has_navigation(e: &HtmlElement) -> (r: bool)
    ensures
        r == exists|k: int| 0 <= k < e.texts@.len() && navigation_text(#[trigger] e.texts@[k]@),
{
    let mut k: usize = 0;
    while k < e.texts.len()
        invariant
            k <= e.texts@.len(),
            forall|j: int| 0 <= j < k ==> !navigation_text(#[trigger] e.texts@[j]@),
        decreases e.texts@.len() - k,
    {
        let t = e.texts[k].as_str();
        if contains(t, "Next Chapter") || contains(t, "Previous Chapter") {
            return true;
        }
        k = k + 1;
    }
    false
}

/// The chapter body made of the kept elements' HTML.
pub fn body_from_elements(els: &Vec<HtmlElement>, skip_flair: bool) -> (r: Result<Vec<u8>, ProviderError>)
    ensures
        entry_body_outcome(Some(els@.map_values(|e: HtmlElement| element_text(e))), skip_flair, r),
{
    let ghost es = els@.map_values(|e: HtmlElement| element_text(e));
    let mut body = String::new();
    let mut count: usize = 0;
    let mut k: usize = 0;
    while k < els.len()
        invariant
            k <= els@.len(),
            es == els@.map_values(|e: HtmlElement| element_text(e)),
            body@ == join_lines(kept_html(es.subrange(0, k as int), skip_flair)),
            count == kept_html(es.subrange(0, k as int), skip_flair).len(),
            count <= k,
        decreases els@.len() - k,
    {
        let e = &els[k];
        let flair = skip_flair && match &e.id {
            Some(id) => text_eq(id.as_str(), "jp-post-flair"),
            None => false,
        };
        let nav = has_navigation(e);
        proof {
            let ev = es[k as int];
            assert(es.subrange(0, k + 1).drop_last() =~= es.subrange(0, k as int));
            assert(es.subrange(0, k + 1).last() == ev);
            assert(ev.2 == e.texts@.map_values(|t: String| t@));
            assert((forall|j: int| 0 <= j < ev.2.len() ==> !navigation_text(#[trigger] ev.2[j])) == !nav) by {
                if nav {
                    let j = choose|j: int| 0 <= j < e.texts@.len() && navigation_text(#[trigger] e.texts@[j]@);
                    assert(ev.2[j] == e.texts@[j]@);
                } else {
                    assert forall|j: int| 0 <= j < ev.2.len() implies !navigation_text(#[trigger] ev.2[j]) by {
                        assert(ev.2[j] == e.texts@[j]@);
                    }
                }
            }
            assert(flair == (skip_flair && ev.1 == Some("jp-post-flair"@)));
        }
        let ghost before = body@;
        if !flair && !nav {
            if count > 0 {
                body.append("\n");
            }
            body.append(e.html.as_str());
            proof {
                let kept = kept_html(es.subrange(0, k as int), skip_flair);
                assert(kept.push(e.html@).drop_last() =~= kept);
                if count == 0 {
                    assert(body@ =~= e.html@);
                }
            }
            count = count + 1;
        }
        k = k + 1;
    }
    proof {
        assert(es.subrange(0, k as int) =~= es);
    }
    if is_blank(body.as_str()) {
        return Err(ProviderError::EmptyBody);
    }
    let mut out: Vec<u8> = Vec::new();
    append_bytes(&mut out, body.as_str().as_bytes());
    Ok(out)
}

/// Body fetching for a Pale chapter.
pub struct PaleChapterBodyProvider {
    pub url: String,
}

impl PaleChapterBodyProvider {
    /// The chapter body in a fetched chapter page: the children of
    /// `div.entry-content`, without the share buttons and the navigation.
    pub fn body_from_page(&self, page: &str) -> (r: Result<Vec<u8>, ProviderError>)
        ensures
            entry_body_outcome(selected(page@, "div.entry-content > *"@), true, r),
    {
        match select_elements(page, "div.entry-content > *") {
            None => Err(ProviderError::BadSelector),
            Some(els) => body_from_elements(&els, true),
        }
    }
}

/// Body fetching for a Royal Road chapter.
pub struct RoyalroadChapterBodyProvider {
    pub royalroad_chapter_id: u64,
}

impl RoyalroadChapterBodyProvider {
    /// The chapter body in a fetched chapter page: the first
    /// `div.chapter-inner` element.
    pub fn body_from_page(&self, page: &str) -> (r: Result<Vec<u8>, ProviderError>)
        ensures
            match selected(page@, "div.chapter-inner"@) {
                None => r == Err::<Vec<u8>, ProviderError>(ProviderError::BadSelector),
                Some(els) => if els.len() == 0 {
                    r == Err::<Vec<u8>, ProviderError>(ProviderError::MissingBody)
                } else {
                    r matches Ok(b) && b@ == encode_utf8(els[0].0)
                },
            },
    {
        match select_elements(page, "div.chapter-inner") {
            None => Err(ProviderError::BadSelector),
            Some(els) => {
                if els.len() == 0 {
                    return Err(ProviderError::MissingBody);
                }
                let mut out: Vec<u8> = Vec::new();
                append_bytes(&mut out, els[0].html.as_str().as_bytes());
                Ok(out)
            },
        }
    }
}

} // verus!
