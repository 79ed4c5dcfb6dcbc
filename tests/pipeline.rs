use cereal::delivery::{assemble_html, conversion_job, finish_delivery, find_ready_deliveries, plan_delivery, Delivery};
use cereal::discovery::discovery_cursor;
use cereal::feeds::PaleNewChapterProvider;
use cereal::model::{ApiError, BookMetadata, ChapterMetadata, NewChapter, RequestProblem, ResourceType};
use cereal::providers::{hydration_queue, ChapterBodyProvider};
use cereal::store::Store;

const BOOK: u128 = 100;
const SUBSCRIBER_A: u128 = 200;
const SUBSCRIPTION_A: u128 = 300;
const SUBSCRIBER_B: u128 = 201;
const SUBSCRIPTION_B: u128 = 301;

const JAN_1: i64 = 1704067200000;
const DAY: i64 = 86400000;
const HOUR: i64 = 3600000;

fn feed(days: &[u32]) -> Vec<u8> {
    let mut xml = String::from(
        "<?xml version=\"1.0\"?><rss version=\"2.0\"><channel><title>Pale</title>\
         <link>https://palewebserial.wordpress.com</link><description>Pale</description>",
    );
    let weekdays = ["Mon", "Tue", "Wed", "Thu", "Fri", "Sat"];
    for d in days {
        let w = weekdays[(*d - 1) as usize];
        xml.push_str(&format!(
            "<item><title>Chapter {d}</title><link>https://palewebserial.wordpress.com/{d}/</link>\
             <pubDate>{w}, 0{d} Jan 2024 00:00:00 +0000</pubDate></item>"
        ));
    }
    xml.push_str("</channel></rss>");
    xml.into_bytes()
}

fn discover(store: &mut Store, days: &[u32], first_id: u128, now: i64) -> usize {
    let cursor = discovery_cursor(store, BOOK);
    let found = PaleNewChapterProvider.chapters_from_feed(&feed(days), BOOK, cursor).unwrap();
    let ids: Vec<u128> = (0..found.len() as u128).map(|k| first_id + k).collect();
    store.create_chapters(found, ids, now).unwrap()
}

fn hydrate(store: &mut Store, now: i64) {
    for i in store.list_chapters_without_bodies() {
        let c = &store.chapters()[i];
        let body = match c.metadata.body_provider() {
            Some(ChapterBodyProvider::Pale(p)) => {
                let n = p.url.trim_end_matches('/').rsplit('/').next().unwrap().to_string();
                format!("<p>body-{n}</p>").into_bytes()
            }
            _ => panic!("a Pale chapter has a Pale body provider"),
        };
        let id = c.id;
        store.set_chapter_html(id, body, now).unwrap();
    }
}

fn convert(store: &mut Store, now: i64) {
    for i in store.list_chapters_ready_for_epub_conversion() {
        let job = conversion_job(store, i).unwrap();
        let mut epub = b"EPUB-".to_vec();
        epub.extend_from_slice(&job.html);
        store.set_chapter_epub(job.chapter_id, epub, now).unwrap();
    }
}

/// One delivery tick with every send succeeding; the emails sent, as
/// (address, chapter ids covered, html).
fn deliver(store: &mut Store, now: i64) -> Vec<(String, Vec<u128>, Vec<u8>)> {
    let mut sent = Vec::new();
    let deliveries: Vec<Delivery> = find_ready_deliveries(store);
    for d in deliveries {
        let plan = plan_delivery(store, &d);
        let ids = d.chapters.iter().map(|&i| store.chapters()[i].id).collect();
        if let Some(to) = &plan.kindle_email {
            sent.push((to.clone(), ids, plan.html.clone()));
        }
        assert_eq!(finish_delivery(store, &plan, true, true, now), Ok(true));
    }
    sent
}

fn setup() -> Store {
    let mut store = Store::new();
    store.create_book(BOOK, "Pale".to_string(), "Wildbow".to_string(), BookMetadata::Pale, JAN_1).unwrap();
    store
        .create_subscriber(SUBSCRIBER_A, "A".to_string(), Some("x@example.com".to_string()), None, JAN_1)
        .unwrap();
    store.create_subscription(SUBSCRIPTION_A, SUBSCRIBER_A, BOOK, Some(2), None, JAN_1).unwrap();
    store
}

fn titles_desc(store: &Store) -> Vec<String> {
    store.list_chapters(BOOK).iter().map(|&i| store.chapters()[i].title.clone()).collect()
}

#[test]
fn fresh_book_first_discovery() {
    let mut store = setup();
    assert_eq!(discover(&mut store, &[1, 2, 3], 1, JAN_1 + 2 * DAY + 12 * HOUR), 3);
    assert_eq!(store.chapters().len(), 3);
    assert_eq!(titles_desc(&store), vec!["Chapter 3", "Chapter 2", "Chapter 1"]);
    for c in store.chapters() {
        assert!(c.html.is_none());
        assert!(c.epub.is_none());
        assert_eq!(c.book_id, BOOK);
    }
    assert_eq!(store.chapters()[0].published_at, Some(JAN_1));
    assert_eq!(store.chapters()[2].published_at, Some(JAN_1 + 2 * DAY));
}

#[test]
fn hydration_sets_bodies() {
    let mut store = setup();
    discover(&mut store, &[1, 2, 3], 1, JAN_1 + 2 * DAY + 12 * HOUR);
    hydrate(&mut store, JAN_1 + 3 * DAY);
    for (k, c) in store.chapters().iter().enumerate() {
        assert_eq!(c.html.as_deref(), Some(format!("<p>body-{}</p>", k + 1).as_bytes()));
        assert!(c.epub.is_none());
    }
    assert!(store.list_chapters_without_bodies().is_empty());
}

#[test]
fn conversion_sets_epubs() {
    let mut store = setup();
    discover(&mut store, &[1, 2, 3], 1, JAN_1 + 2 * DAY + 12 * HOUR);
    hydrate(&mut store, JAN_1 + 3 * DAY);
    convert(&mut store, JAN_1 + 3 * DAY);
    for c in store.chapters() {
        assert!(c.epub.as_ref().unwrap().starts_with(b"EPUB-"));
        let mut expected = b"EPUB-".to_vec();
        expected.extend_from_slice(c.html.as_ref().unwrap());
        assert_eq!(c.epub.as_ref().unwrap(), &expected);
    }
}

#[test]
fn delivery_cursor_with_chunk_size_two() {
    let mut store = setup();
    let t0 = JAN_1 + 2 * DAY + 12 * HOUR;
    discover(&mut store, &[1, 2, 3], 1, t0);
    hydrate(&mut store, t0);
    convert(&mut store, t0);
    let sent = deliver(&mut store, t0 + HOUR);
    assert_eq!(sent.len(), 1);
    assert_eq!(sent[0].0, "x@example.com");
    assert_eq!(sent[0].1, vec![1, 2, 3]);
    let html = String::from_utf8(sent[0].2.clone()).unwrap();
    assert_eq!(
        html,
        "<h1>Chapter 1</h1><p>body-1</p><h1>Chapter 2</h1><p>body-2</p><h1>Chapter 3</h1><p>body-3</p>"
    );
    let sub = &store.subscriptions()[0];
    assert_eq!(sub.last_delivered_chapter_id, Some(3));
    assert_eq!(sub.last_delivered_chapter_created_at, Some(t0 + 2));
    assert_eq!(store.get_chapter(3).unwrap().created_at, t0 + 2);
    assert!(deliver(&mut store, t0 + 2 * HOUR).is_empty());
}

#[test]
fn new_chapters_after_cursor() {
    let mut store = setup();
    let t0 = JAN_1 + 2 * DAY + 12 * HOUR;
    discover(&mut store, &[1, 2, 3], 1, t0);
    hydrate(&mut store, t0);
    convert(&mut store, t0);
    deliver(&mut store, t0);
    let t1 = JAN_1 + 3 * DAY + 12 * HOUR;
    assert_eq!(discover(&mut store, &[1, 2, 3, 4], 4, t1), 1);
    hydrate(&mut store, t1);
    convert(&mut store, t1);
    assert!(deliver(&mut store, t1).is_empty());
    let t2 = JAN_1 + 4 * DAY + 12 * HOUR;
    assert_eq!(discover(&mut store, &[1, 2, 3, 4, 5], 5, t2), 1);
    hydrate(&mut store, t2);
    convert(&mut store, t2);
    let sent = deliver(&mut store, t2);
    assert_eq!(sent.len(), 1);
    assert_eq!(sent[0].1, vec![4, 5]);
    assert_eq!(store.subscriptions()[0].last_delivered_chapter_id, Some(5));
    assert_eq!(store.subscriptions()[0].last_delivered_chapter_created_at, Some(t2));
}

#[test]
fn subscription_created_after_history() {
    let mut store = setup();
    let days = [JAN_1 + 2 * DAY + 12 * HOUR, JAN_1 + 3 * DAY + 12 * HOUR, JAN_1 + 4 * DAY + 12 * HOUR];
    discover(&mut store, &[1, 2, 3], 1, days[0]);
    discover(&mut store, &[1, 2, 3, 4], 4, days[1]);
    discover(&mut store, &[1, 2, 3, 4, 5], 5, days[2]);
    hydrate(&mut store, days[2]);
    convert(&mut store, days[2]);
    deliver(&mut store, days[2]);
    assert_eq!(store.subscriptions()[0].last_delivered_chapter_id, Some(5));
    store.create_subscriber(SUBSCRIBER_B, "B".to_string(), Some("b@example.com".to_string()), None, days[2]).unwrap();
    store.create_subscription(SUBSCRIPTION_B, SUBSCRIBER_B, BOOK, None, None, days[2]).unwrap();
    let b = &store.subscriptions()[1];
    assert_eq!(b.last_delivered_chapter_id, Some(5));
    assert_eq!(b.last_delivered_chapter_created_at, Some(days[2]));
    assert_eq!(b.chunk_size, 1);
    assert!(deliver(&mut store, days[2]).is_empty());
    let t3 = JAN_1 + 5 * DAY + 12 * HOUR;
    discover(&mut store, &[1, 2, 3, 4, 5, 6], 6, t3);
    hydrate(&mut store, t3);
    convert(&mut store, t3);
    let sent = deliver(&mut store, t3);
    assert_eq!(sent.len(), 1);
    assert_eq!(sent[0].0, "b@example.com");
    assert_eq!(sent[0].1, vec![6]);
}

#[test]
fn discovery_twice_is_a_no_op() {
    let mut store = setup();
    let t0 = JAN_1 + 2 * DAY + 12 * HOUR;
    assert_eq!(discover(&mut store, &[1, 2, 3], 1, t0), 3);
    assert_eq!(discover(&mut store, &[1, 2, 3], 10, t0 + HOUR), 0);
    assert_eq!(store.chapters().len(), 3);
}

#[test]
fn empty_feed_gives_no_chapters() {
    let store = setup();
    let cursor = discovery_cursor(&store, BOOK);
    assert_eq!(cursor, None);
    let found = PaleNewChapterProvider.chapters_from_feed(&feed(&[]), BOOK, cursor).unwrap();
    assert!(found.is_empty());
}

fn stub(title: &str, published_at: Option<i64>, with_epub: bool) -> NewChapter {
    NewChapter {
        title: title.to_string(),
        metadata: ChapterMetadata::TheDailyGrindPatreon,
        book_id: BOOK,
        html: if with_epub { Some(b"<p>x</p>".to_vec()) } else { None },
        epub: if with_epub { Some(b"E".to_vec()) } else { None },
        published_at,
    }
}

fn store_with_ready(n: usize, chunk_size: i32) -> Store {
    let mut store = Store::new();
    store.create_book(BOOK, "B".to_string(), "A".to_string(), BookMetadata::TheDailyGrindPatreon, 0).unwrap();
    store.create_subscriber(SUBSCRIBER_A, "A".to_string(), Some("a@example.com".to_string()), None, 0).unwrap();
    store.create_subscription(SUBSCRIPTION_A, SUBSCRIBER_A, BOOK, Some(chunk_size), None, 0).unwrap();
    let rows: Vec<NewChapter> = (0..n).map(|k| stub(&format!("c{k}"), None, true)).collect();
    let ids = (0..n as u128).map(|k| k + 1).collect();
    store.create_chapters(rows, ids, 10).unwrap();
    store
}

#[test]
fn chunk_size_equal_to_count_fires() {
    let store = store_with_ready(3, 3);
    let ready = find_ready_deliveries(&store);
    assert_eq!(ready.len(), 1);
    assert_eq!(ready[0].chapters.len(), 3);
}

#[test]
fn chunk_size_above_count_does_not_fire() {
    let store = store_with_ready(3, 4);
    assert!(find_ready_deliveries(&store).is_empty());
}

#[test]
fn chunk_size_is_a_threshold_not_a_cap() {
    let mut store = store_with_ready(7, 3);
    let ready = find_ready_deliveries(&store);
    assert_eq!(ready[0].chapters.len(), 7);
    let plan = plan_delivery(&store, &ready[0]);
    assert_eq!(plan.last_chapter_id, 7);
    assert_eq!(plan.subject, "Delivered new chapters for B. c0 through c6");
    assert_eq!(plan.cover_title, "B: c0 through c6");
    assert_eq!(finish_delivery(&mut store, &plan, false, true, 20), Ok(true));
    assert_eq!(store.subscriptions()[0].last_delivered_chapter_id, Some(7));
}

#[test]
fn unpublished_chapter_orders_by_creation() {
    let mut store = Store::new();
    store.create_book(BOOK, "B".to_string(), "A".to_string(), BookMetadata::Pale, 0).unwrap();
    store.create_chapters(vec![stub("late", Some(500), false)], vec![1], 100).unwrap();
    store.create_chapters(vec![stub("unpublished", None, false)], vec![2], 300).unwrap();
    store.create_chapters(vec![stub("early", Some(200), false)], vec![3], 400).unwrap();
    assert_eq!(titles_desc(&store), vec!["late", "unpublished", "early"]);
    assert_eq!(store.chapters()[1].order_key(), 300);
    assert_eq!(store.most_recent_chapter_by_created_at(BOOK), Some(2));
    assert_eq!(store.most_recent_chapter_by_published_at(BOOK), Some(0));
}

#[test]
fn conversion_without_html_writes_nothing() {
    let mut store = Store::new();
    store.create_book(BOOK, "B".to_string(), "A".to_string(), BookMetadata::Pale, 0).unwrap();
    store.create_chapters(vec![stub("stub", None, false)], vec![1], 100).unwrap();
    assert!(matches!(
        conversion_job(&store, 0),
        Err(ApiError::InvalidRequest(RequestProblem::EpubWithoutHtml))
    ));
    assert_eq!(
        store.set_chapter_epub(1, b"E".to_vec(), 200),
        Err(ApiError::InvalidRequest(RequestProblem::EpubWithoutHtml))
    );
    assert!(store.chapters()[0].epub.is_none());
    assert_eq!(store.chapters()[0].updated_at, 100);
}

#[test]
fn conversion_job_names_book_and_chapter() {
    let store = store_with_ready(1, 1);
    let job = conversion_job(&store, 0).unwrap();
    assert_eq!(job.cover_title, "B: c0");
    assert_eq!(job.book_title, "B");
    assert_eq!(job.author, "A");
    assert_eq!(job.html, b"<p>x</p>".to_vec());
}

#[test]
fn no_channel_means_no_cursor_move() {
    let mut store = Store::new();
    store.create_book(BOOK, "B".to_string(), "A".to_string(), BookMetadata::Pale, 0).unwrap();
    store.create_subscriber(SUBSCRIBER_A, "A".to_string(), None, None, 0).unwrap();
    store.create_subscription(SUBSCRIPTION_A, SUBSCRIBER_A, BOOK, None, None, 0).unwrap();
    store.create_chapters(vec![stub("one", None, true)], vec![1], 10).unwrap();
    let ready = find_ready_deliveries(&store);
    let plan = plan_delivery(&store, &ready[0]);
    assert!(plan.push.is_none());
    assert_eq!(finish_delivery(&mut store, &plan, true, true, 20), Ok(false));
    assert_eq!(store.subscriptions()[0].last_delivered_chapter_id, None);
}

#[test]
fn failed_send_keeps_cursor() {
    let mut store = Store::new();
    store.create_book(BOOK, "B".to_string(), "A".to_string(), BookMetadata::Pale, 0).unwrap();
    store
        .create_subscriber(SUBSCRIBER_A, "A".to_string(), Some("a@example.com".to_string()), Some("key".to_string()), 0)
        .unwrap();
    store.create_subscription(SUBSCRIPTION_A, SUBSCRIBER_A, BOOK, None, None, 0).unwrap();
    store.create_chapters(vec![stub("one", None, true)], vec![1], 10).unwrap();
    let ready = find_ready_deliveries(&store);
    let plan = plan_delivery(&store, &ready[0]);
    let push = plan.push.as_ref().unwrap();
    assert_eq!(push.user_key, "key");
    assert_eq!(push.message, "Delivered new chapter for B: one");
    assert_eq!(finish_delivery(&mut store, &plan, false, true, 20), Ok(false));
    assert_eq!(finish_delivery(&mut store, &plan, true, false, 20), Ok(false));
    assert_eq!(store.subscriptions()[0].last_delivered_chapter_id, None);
    assert_eq!(finish_delivery(&mut store, &plan, true, true, 20), Ok(true));
    assert_eq!(store.subscriptions()[0].last_delivered_chapter_id, Some(1));
}

#[test]
fn store_refusals() {
    let mut store = Store::new();
    store.create_book(BOOK, "B".to_string(), "A".to_string(), BookMetadata::Pale, 0).unwrap();
    assert_eq!(
        store.create_book(BOOK, "C".to_string(), "A".to_string(), BookMetadata::Pale, 0),
        Err(ApiError::InvalidRequest(RequestProblem::DuplicateId))
    );
    assert_eq!(
        store.create_chapters(vec![stub("x", None, false)], vec![], 1),
        Err(ApiError::InvalidRequest(RequestProblem::IdCountMismatch))
    );
    let mut orphan = stub("x", None, false);
    orphan.book_id = 999;
    assert_eq!(
        store.create_chapters(vec![stub("ok", None, false), orphan], vec![1, 2], 1),
        Err(ApiError::ResourceNotFound { resource_type: ResourceType::Book, id: 999 })
    );
    assert!(store.chapters().is_empty());
    let mut bad = stub("x", None, false);
    bad.epub = Some(b"E".to_vec());
    assert_eq!(
        store.create_chapters(vec![bad], vec![1], 1),
        Err(ApiError::InvalidRequest(RequestProblem::EpubWithoutHtml))
    );
    assert_eq!(
        store.create_chapters(vec![stub("a", None, false), stub("b", None, false)], vec![1, 1], 1),
        Err(ApiError::InvalidRequest(RequestProblem::DuplicateId))
    );
    store.create_subscriber(SUBSCRIBER_A, "A".to_string(), None, None, 0).unwrap();
    assert_eq!(
        store.create_subscription(SUBSCRIPTION_A, SUBSCRIBER_A, BOOK, Some(0), None, 0),
        Err(ApiError::InvalidRequest(RequestProblem::ChunkSizeBelowOne))
    );
    assert_eq!(
        store.create_subscription(SUBSCRIPTION_A, 7, BOOK, None, None, 0),
        Err(ApiError::ResourceNotFound { resource_type: ResourceType::Subscriber, id: 7 })
    );
    assert_eq!(
        store.create_subscription(SUBSCRIPTION_A, SUBSCRIBER_A, 8, None, None, 0),
        Err(ApiError::ResourceNotFound { resource_type: ResourceType::Book, id: 8 })
    );
    assert_eq!(
        store.create_subscription(SUBSCRIPTION_A, SUBSCRIBER_A, BOOK, None, Some(9), 0),
        Err(ApiError::ResourceNotFound { resource_type: ResourceType::Chapter, id: 9 })
    );
    assert_eq!(
        store.set_chapter_html(9, vec![], 0),
        Err(ApiError::ResourceNotFound { resource_type: ResourceType::Chapter, id: 9 })
    );
}

#[test]
fn cursor_refuses_other_book_and_retreat() {
    let mut store = Store::new();
    store.create_book(BOOK, "B".to_string(), "A".to_string(), BookMetadata::Pale, 0).unwrap();
    store.create_book(BOOK + 1, "C".to_string(), "A".to_string(), BookMetadata::Pale, 0).unwrap();
    store.create_subscriber(SUBSCRIBER_A, "A".to_string(), None, None, 0).unwrap();
    store.create_chapters(vec![stub("one", None, false)], vec![1], 10).unwrap();
    store.create_chapters(vec![stub("two", None, false)], vec![2], 20).unwrap();
    let mut other = stub("other", None, false);
    other.book_id = BOOK + 1;
    store.create_chapters(vec![other], vec![3], 30).unwrap();
    assert_eq!(
        store.create_subscription(SUBSCRIPTION_A, SUBSCRIBER_A, BOOK, None, Some(3), 0),
        Err(ApiError::InvalidRequest(RequestProblem::ChapterOfOtherBook))
    );
    store.create_subscription(SUBSCRIPTION_A, SUBSCRIBER_A, BOOK, None, Some(2), 0).unwrap();
    assert_eq!(store.subscriptions()[0].last_delivered_chapter_created_at, Some(20));
    assert_eq!(
        store.set_last_delivered_chapter(SUBSCRIPTION_A, 1, 40),
        Err(ApiError::InvalidRequest(RequestProblem::CursorWouldRetreat))
    );
    assert_eq!(
        store.set_last_delivered_chapter(SUBSCRIPTION_A, 3, 40),
        Err(ApiError::InvalidRequest(RequestProblem::ChapterOfOtherBook))
    );
    assert_eq!(
        store.set_last_delivered_chapter(SUBSCRIPTION_B, 2, 40),
        Err(ApiError::ResourceNotFound { resource_type: ResourceType::Subscription, id: SUBSCRIPTION_B })
    );
    assert_eq!(store.set_last_delivered_chapter(SUBSCRIPTION_A, 2, 40), Ok(0));
    assert_eq!(store.subscriptions()[0].updated_at, 40);
}

#[test]
fn store_updates_and_lookups() {
    let mut store = Store::new();
    store.create_book(BOOK, "B".to_string(), "A".to_string(), BookMetadata::RoyalRoad(9), 0).unwrap();
    assert_eq!(store.update_book(BOOK, Some("B2".to_string()), None, 5), Ok(0));
    let b = store.get_book(BOOK).unwrap();
    assert_eq!((b.title.as_str(), b.author.as_str(), b.updated_at), ("B2", "A", 5));
    assert_eq!(store.list_books().len(), 1);
    store.create_subscriber(SUBSCRIBER_A, "A".to_string(), None, None, 0).unwrap();
    store.update_subscriber(SUBSCRIBER_A, None, Some("k@example.com".to_string()), None, 6).unwrap();
    assert_eq!(store.get_subscriber(SUBSCRIBER_A).unwrap().kindle_email.as_deref(), Some("k@example.com"));
    assert_eq!(store.list_subscribers()[0].name, "A");
    store.create_subscription(SUBSCRIPTION_A, SUBSCRIBER_A, BOOK, None, None, 0).unwrap();
    assert_eq!(store.list_subscriptions(SUBSCRIBER_A), vec![0]);
    assert!(store.list_subscriptions(SUBSCRIBER_B).is_empty());
    assert_eq!(
        store.update_subscription(SUBSCRIPTION_A, Some(0), 7),
        Err(ApiError::InvalidRequest(RequestProblem::ChunkSizeBelowOne))
    );
    assert_eq!(store.update_subscription(SUBSCRIPTION_A, Some(4), 7), Ok(0));
    assert_eq!(store.get_subscription(SUBSCRIPTION_A).unwrap().chunk_size, 4);
    store.create_chapters(vec![stub("one", None, false)], vec![1], 10).unwrap();
    assert_eq!(
        store.update_chapter(1, None, None, Some(b"E".to_vec()), None, 11),
        Err(ApiError::InvalidRequest(RequestProblem::EpubWithoutHtml))
    );
    assert_eq!(store.update_chapter(1, Some("uno".to_string()), Some(b"h".to_vec()), Some(b"E".to_vec()), Some(3), 11), Ok(0));
    let c = store.get_chapter(1).unwrap();
    assert_eq!((c.title.as_str(), c.published_at, c.updated_at), ("uno", Some(3), 11));
    assert_eq!(c.epub.as_deref(), Some(b"E".as_slice()));
}

#[test]
fn deletes_refused_while_referenced() {
    let mut store = Store::new();
    store.create_book(BOOK, "B".to_string(), "A".to_string(), BookMetadata::Pale, 0).unwrap();
    store.create_subscriber(SUBSCRIBER_A, "A".to_string(), None, None, 0).unwrap();
    store.create_chapters(vec![stub("one", None, false)], vec![1], 10).unwrap();
    store.create_subscription(SUBSCRIPTION_A, SUBSCRIBER_A, BOOK, None, None, 20).unwrap();
    let in_use = Err(ApiError::InvalidRequest(RequestProblem::StillReferenced));
    assert_eq!(store.delete_chapter(1), in_use);
    assert_eq!(store.delete_book(BOOK), in_use);
    assert_eq!(store.delete_subscriber(SUBSCRIBER_A), in_use);
    assert_eq!(store.delete_subscription(SUBSCRIPTION_A), Ok(()));
    assert_eq!(store.delete_subscriber(SUBSCRIBER_A), Ok(()));
    assert_eq!(store.delete_book(BOOK), in_use);
    assert_eq!(store.delete_chapter(1), Ok(()));
    assert_eq!(store.delete_book(BOOK), Ok(()));
    assert_eq!(
        store.delete_book(BOOK),
        Err(ApiError::ResourceNotFound { resource_type: ResourceType::Book, id: BOOK })
    );
    assert!(store.chapters().is_empty() && store.subscriptions().is_empty());
}

#[test]
fn hydration_queue_skips_inline_bodies() {
    let mut store = Store::new();
    store.create_book(BOOK, "B".to_string(), "A".to_string(), BookMetadata::Pale, 0).unwrap();
    let mut pale = stub("pale", Some(50), false);
    pale.metadata = ChapterMetadata::Pale { url: "https://p/1".to_string() };
    let mut rr = stub("rr", Some(70), false);
    rr.metadata = ChapterMetadata::RoyalRoad { royalroad_book_id: 1, royalroad_chapter_id: 2 };
    let grind = stub("grind", Some(90), false);
    store.create_chapters(vec![pale, rr, grind], vec![1, 2, 3], 10).unwrap();
    let queue = hydration_queue(&store);
    let ids: Vec<u128> = queue.iter().map(|t| t.chapter_id).collect();
    assert_eq!(ids, vec![2, 1]);
    assert!(matches!(queue[0].provider, ChapterBodyProvider::Royalroad(ref p) if p.royalroad_chapter_id == 2));
}

#[test]
fn creation_times_strictly_increase() {
    let mut store = Store::new();
    store.create_book(BOOK, "B".to_string(), "A".to_string(), BookMetadata::Pale, 0).unwrap();
    let rows = vec![stub("a", None, false), stub("b", None, false), stub("c", None, false)];
    store.create_chapters(rows, vec![1, 2, 3], 100).unwrap();
    store.create_chapters(vec![stub("d", None, false)], vec![4], 50).unwrap();
    store.create_chapters(vec![stub("e", None, false)], vec![5], 500).unwrap();
    let created: Vec<i64> = store.chapters().iter().map(|c| c.created_at).collect();
    assert_eq!(created, vec![100, 101, 102, 103, 500]);
    assert_eq!(
        store.create_chapters(vec![stub("f", None, false), stub("g", None, false)], vec![6, 7], i64::MAX),
        Err(ApiError::InvalidRequest(RequestProblem::ClockExhausted))
    );
    assert_eq!(store.create_chapters(vec![stub("f", None, false)], vec![6], i64::MAX), Ok(1));
}

#[test]
fn batch_document_refuses_missing_html() {
    let mut store = Store::new();
    store.create_book(BOOK, "B".to_string(), "A".to_string(), BookMetadata::Pale, 0).unwrap();
    store.create_chapters(vec![stub("one", Some(5), true), stub("two", None, false)], vec![1, 2], 10).unwrap();
    let doc = assemble_html(store.chapters(), &vec![0]).unwrap();
    assert_eq!(doc, b"<h1>one</h1><p>x</p>".to_vec());
    assert_eq!(assemble_html(store.chapters(), &vec![0, 1]), None);
    assert_eq!(assemble_html(store.chapters(), &vec![]), None);
}

#[test]
fn delivery_moves_only_the_cursor() {
    let mut store = store_with_ready(2, 1);
    let ready = find_ready_deliveries(&store);
    let plan = plan_delivery(&store, &ready[0]);
    assert_eq!(plan.chapter_title, "c1");
    assert_eq!(finish_delivery(&mut store, &plan, false, true, 99), Ok(true));
    let s = &store.subscriptions()[0];
    assert_eq!(s.last_delivered_chapter_id, Some(2));
    assert_eq!(s.last_delivered_chapter_created_at, Some(store.chapters()[1].created_at));
    assert_eq!((s.chunk_size, s.updated_at), (1, 99));
}
