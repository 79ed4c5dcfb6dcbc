use cereal::adapters::HtmlElement;
use cereal::delivery::{epub_message, Message};
use cereal::feeds::{
    chapters_from_items, get_chapter_id_from_link, FeedSource, PaleChapterBodyProvider, ProviderError,
    RoyalroadChapterBodyProvider, RoyalroadNewChapterProvider,
};
use cereal::adapters::FeedItem;
use cereal::mail::{
    chapter_title_from_link, chapter_title_from_subject, extract_password, objects_after,
    ApparatusOfChangePatreonNewChapterProvider, WanderingInnPatreonChapterBodyProvider,
    WanderingInnPatreonNewChapterProvider, email_published_at,
};
use cereal::model::{BookMetadata, ChapterMetadata};
use cereal::providers::{ChapterBodyProvider, NewChapterProvider};
use cereal::text::{contains, is_blank, parse_u64};

fn royalroad_feed() -> Vec<u8> {
    b"<?xml version=\"1.0\"?><rss version=\"2.0\"><channel><title>RR</title><link>https://www.royalroad.com</link>\
      <description>d</description>\
      <item><title>Mother of Learning - Chapter 1: Good Morning</title>\
      <link>https://www.royalroad.com/fiction/21220/mother-of-learning/chapter/301778</link>\
      <pubDate>Tue, 02 Jan 2024 10:00:00 +0000</pubDate></item>\
      <item><title>Mother of Learning - Chapter 2</title>\
      <link>https://www.royalroad.com/fiction/21220/mother-of-learning/chapter/301779</link>\
      <pubDate>Wed, 03 Jan 2024 10:00:00 +0000</pubDate></item>\
      </channel></rss>"
        .to_vec()
}

#[test]
fn royalroad_feed_becomes_stubs() {
    let p = RoyalroadNewChapterProvider { royalroad_book_id: 21220 };
    let found = p.chapters_from_feed(&royalroad_feed(), 7, None).unwrap();
    assert_eq!(found.len(), 2);
    assert_eq!(found[0].title, "Chapter 1: Good Morning");
    assert_eq!(found[0].book_id, 7);
    assert_eq!(found[0].published_at, Some(1704189600000));
    assert!(matches!(
        found[0].metadata,
        ChapterMetadata::RoyalRoad { royalroad_book_id: 21220, royalroad_chapter_id: 301778 }
    ));
    let later = p.chapters_from_feed(&royalroad_feed(), 7, Some(1704189600000)).unwrap();
    assert_eq!(later.len(), 1);
    assert_eq!(later[0].title, "Chapter 2");
}

#[test]
fn unreadable_feed_is_an_error() {
    let p = RoyalroadNewChapterProvider { royalroad_book_id: 1 };
    assert_eq!(p.chapters_from_feed(b"not a feed", 7, None).err(), Some(ProviderError::FeedUnreadable));
}

fn item(title: Option<&str>, link: Option<&str>, date: Option<&str>) -> FeedItem {
    FeedItem {
        title: title.map(String::from),
        link: link.map(String::from),
        pub_date: date.map(String::from),
    }
}

#[test]
fn bad_items_fail_the_feed() {
    let good = item(Some("B - one"), Some("https://x/1"), Some("Tue, 02 Jan 2024 10:00:00 +0000"));
    let rr = FeedSource::Royalroad(1);
    let no_dash = item(Some("one"), Some("https://x/2"), Some("Tue, 02 Jan 2024 10:00:00 +0000"));
    assert_eq!(chapters_from_items(&rr, &vec![good, no_dash], 1, None).err(), Some(ProviderError::MissingTitle));
    let bad_link = item(Some("B - one"), Some("https://x/abc"), None);
    assert_eq!(chapters_from_items(&rr, &vec![bad_link], 1, None).err(), Some(ProviderError::BadChapterLink));
    let no_date = item(Some("B - one"), Some("https://x/3"), None);
    assert_eq!(chapters_from_items(&rr, &vec![no_date], 1, None).err(), Some(ProviderError::MissingPublishDate));
    let bad_date = item(Some("B - one"), Some("https://x/3"), Some("yesterday"));
    assert_eq!(chapters_from_items(&rr, &vec![bad_date], 1, None).err(), Some(ProviderError::BadPublishDate));
    let no_link = item(Some("one"), None, Some("Tue, 02 Jan 2024 10:00:00 +0000"));
    assert_eq!(chapters_from_items(&FeedSource::Pale, &vec![no_link], 1, None).err(), Some(ProviderError::MissingLink));
    assert!(chapters_from_items(&FeedSource::Pale, &vec![], 1, None).unwrap().is_empty());
}

#[test]
fn chapter_id_from_link() {
    assert_eq!(get_chapter_id_from_link(Some("https://www.royalroad.com/fiction/1/x/chapter/42")), Ok(42));
    assert_eq!(get_chapter_id_from_link(Some("a/+7")), Ok(7));
    assert_eq!(get_chapter_id_from_link(Some("a/")), Err(ProviderError::BadChapterLink));
    assert_eq!(get_chapter_id_from_link(Some("42")), Err(ProviderError::BadChapterLink));
    assert_eq!(get_chapter_id_from_link(None), Err(ProviderError::BadChapterLink));
    assert_eq!(get_chapter_id_from_link(Some("a/18446744073709551616")), Err(ProviderError::BadChapterLink));
    assert_eq!(get_chapter_id_from_link(Some("a/18446744073709551615")), Ok(u64::MAX));
}

#[test]
fn numerals_and_blanks() {
    assert_eq!(parse_u64("0"), Some(0));
    assert_eq!(parse_u64("-1"), None);
    assert_eq!(parse_u64("+"), None);
    assert_eq!(parse_u64(""), None);
    assert!(is_blank(" \t\n\u{a0}"));
    assert!(!is_blank(" x "));
    assert!(contains("Next Chapter >", "Next Chapter"));
    assert!(!contains("Next", "Next Chapter"));
}

#[test]
fn titles_from_links_and_subjects() {
    assert_eq!(chapter_title_from_link("https://wanderinginn.com/2023/01/01/9-30/"), Some("9-30"));
    assert_eq!(chapter_title_from_link("9.31 Part 2"), Some("9.31 Part 2"));
    assert_eq!(chapter_title_from_link("a/ /  /"), Some("a"));
    assert_eq!(chapter_title_from_link(" / "), None);
    assert_eq!(chapter_title_from_subject("New post: \"Apparatus Of Change - Chapter 12\" is up"), Some("Chapter 12"));
    assert_eq!(chapter_title_from_subject("\"Chapter 3"), Some("Chapter 3"));
    assert_eq!(chapter_title_from_subject("no quotes"), None);
}

fn page(children: &str) -> String {
    format!("<html><body><div class=\"entry-content\">{children}</div></body></html>")
}

#[test]
fn pale_body_drops_share_buttons_and_navigation() {
    let p = PaleChapterBodyProvider { url: "https://x".to_string() };
    let html = page("<p>one</p><p><a href=\"n\">Next Chapter</a></p><div id=\"jp-post-flair\">share</div><p>two</p>");
    let body = p.body_from_page(&html).unwrap();
    assert_eq!(String::from_utf8(body).unwrap(), "<p>one</p>\n<p>two</p>");
    let empty = page("<p><a href=\"p\">Previous Chapter</a></p><p> </p>");
    assert_eq!(
        String::from_utf8(p.body_from_page(&empty).unwrap()).unwrap(),
        "<p> </p>"
    );
    assert_eq!(p.body_from_page(&page("")), Err(ProviderError::EmptyBody));
}

#[test]
fn wandering_inn_body_keeps_flair() {
    let p = WanderingInnPatreonChapterBodyProvider { url: "u".to_string(), password: None };
    let html = page("<p>one</p><div id=\"jp-post-flair\">share</div>");
    let body = p.body_from_page(&html).unwrap();
    assert_eq!(String::from_utf8(body).unwrap(), "<p>one</p>\n<div id=\"jp-post-flair\">share</div>");
}

#[test]
fn royalroad_body_is_first_chapter_inner() {
    let p = RoyalroadChapterBodyProvider { royalroad_chapter_id: 1 };
    let html = "<div class=\"chapter-inner\"><p>a</p></div><div class=\"chapter-inner\">b</div>";
    assert_eq!(String::from_utf8(p.body_from_page(html).unwrap()).unwrap(), "<div class=\"chapter-inner\"><p>a</p></div>");
    assert_eq!(p.body_from_page("<p>x</p>"), Err(ProviderError::MissingBody));
}

fn el(texts: &[&str], sibling: Option<&str>) -> HtmlElement {
    HtmlElement {
        html: String::new(),
        id: None,
        texts: texts.iter().map(|t| t.to_string()).collect(),
        href: None,
        next_sibling_text: sibling.map(String::from),
    }
}

#[test]
fn password_from_sibling_or_following_text() {
    let paras = vec![el(&["Hello"], None), el(&["The PASSWORD is:"], Some("secret1")), el(&["bye"], None)];
    assert_eq!(extract_password(&paras), Some("secret1".to_string()));
    let flat = vec![el(&["Password:", "secret2"], None), el(&["x"], None)];
    assert_eq!(extract_password(&flat), Some("secret2".to_string()));
    let two = vec![el(&["password"], Some("a")), el(&["password"], Some("b"))];
    assert_eq!(extract_password(&two), Some("password".to_string()));
    assert_eq!(extract_password(&vec![el(&["nothing"], None)]), None);
}

fn email(subject: &str, body: &str) -> Vec<u8> {
    format!("Subject: {subject}\r\nContent-Type: text/html\r\n\r\n{body}").into_bytes()
}

#[test]
fn wandering_inn_email_links() {
    let p = WanderingInnPatreonNewChapterProvider;
    let body = "<div><p>Password: <b>x</b></p><p>hunter2</p>\
        <p><a href=\"https://wanderinginn.com/2024/01/01/10-01/\">Chapter One</a></p></div>";
    let found = p.chapters_from_email(&email("New post from Pirateaba", body), 3, Some(5)).unwrap();
    assert_eq!(found.len(), 1);
    assert_eq!(found[0].title, "10-01");
    assert_eq!(found[0].published_at, Some(5));
    match &found[0].metadata {
        ChapterMetadata::TheWanderingInnPatreon { url, password } => {
            assert_eq!(url, "https://wanderinginn.com/2024/01/01/10-01/");
            assert_eq!(password.as_deref(), Some("hunter2"));
        }
        _ => panic!("a Wandering Inn chapter"),
    }
    assert!(p.chapters_from_email(&email("Newsletter", body), 3, None).unwrap().is_empty());
}

#[test]
fn apparatus_email_chapter() {
    let p = ApparatusOfChangePatreonNewChapterProvider;
    let body = "<table><tr><td><div><span><div><div><div><div>head</div><div><p>Text</p></div>\
        </div></div></div></span></div></td></tr></table>";
    let found = p
        .chapters_from_email(&email("New post: \"Apparatus Of Change - Chapter 9\"", body), 4, None)
        .unwrap();
    assert_eq!(found.len(), 1);
    assert_eq!(found[0].title, "Chapter 9");
    assert_eq!(found[0].html.as_deref(), Some(b"<div><p>Text</p></div>".as_slice()));
    assert!(matches!(found[0].metadata, ChapterMetadata::ApparatusOfChangePatreon));
    assert!(p.chapters_from_email(&email("APPARATUS news", "<p>x</p>"), 4, None).is_err());
    assert!(p.chapters_from_email(&email("other", body), 4, None).unwrap().is_empty());
}

#[test]
fn empty_bucket_gives_no_objects() {
    assert!(objects_after(&vec![], None).is_empty());
    let lm = vec![
        Some("2024-01-02T00:00:00Z".to_string()),
        None,
        Some("garbage".to_string()),
        Some("2024-01-01T00:00:00Z".to_string()),
    ];
    assert_eq!(objects_after(&lm, None), vec![0, 3]);
    assert_eq!(objects_after(&lm, Some(1704067200000)), vec![0]);
    assert_eq!(email_published_at(Some("Mon, 01 Jan 2024 00:00:00 +0000")), Some(1704067200000));
    assert_eq!(email_published_at(Some("nope")), None);
}

#[test]
fn provider_dispatch() {
    assert!(matches!(BookMetadata::RoyalRoad(5).chapter_provider(), Some(NewChapterProvider::Royalroad(p)) if p.royalroad_book_id == 5));
    assert!(BookMetadata::TheWanderingInn.chapter_provider().is_none());
    assert!(matches!(BookMetadata::Pale.chapter_provider(), Some(NewChapterProvider::Pale(_))));
    let m = ChapterMetadata::TheWanderingInnPatreon { url: "u".to_string(), password: Some("p".to_string()) };
    match m.body_provider() {
        Some(ChapterBodyProvider::WanderingInnPatreon(p)) => {
            assert_eq!(p.url, "u");
            assert_eq!(p.password.as_deref(), Some("p"));
        }
        _ => panic!("a Wandering Inn body provider"),
    }
    assert!(ChapterMetadata::ApparatusOfChangePatreon.body_provider().is_none());
}

#[test]
fn epub_email_message() {
    let m: Message = epub_message(b"EPUB", "k@example.com", "Pale: 1/2", "New chapter");
    assert_eq!(m.to, "k@example.com");
    assert_eq!(m.subject, "New chapter");
    assert_eq!(m.text.as_deref(), Some("New chapter"));
    let a = m.attachment.unwrap();
    assert_eq!(a.content_type, "application/epub+zip");
    assert_eq!(a.file_name, "Pale 12.epub");
    let dots = epub_message(b"E", "k", "..", "s").attachment.unwrap();
    assert_eq!(dots.file_name, "...epub");
    let long = epub_message(b"E", "k", &"é".repeat(200), "s").attachment.unwrap();
    assert_eq!(long.file_name, "é".repeat(127));
    let ctrl = epub_message(b"E", "k", "a\u{1}b\u{85}c", "s").attachment.unwrap();
    assert_eq!(ctrl.file_name, "abc.epub");
    assert_eq!(a.bytes, b"EPUB".to_vec());
    let plain = Message::new("a", "b", None, Some("h"), None);
    assert!(plain.text.is_none());
    assert_eq!(plain.html.as_deref(), Some("h"));
}

#[test]
fn body_extraction_repeats_exactly() {
    let p = PaleChapterBodyProvider { url: "https://x".to_string() };
    let html = page("<p>one</p><p>two</p>");
    assert_eq!(p.body_from_page(&html), p.body_from_page(&html));
    let w = WanderingInnPatreonChapterBodyProvider { url: "u".to_string(), password: Some("p".to_string()) };
    assert_eq!(w.body_from_page(&html), w.body_from_page(&html));
}
