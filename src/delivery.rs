//! The delivery worker's decisions: which subscriptions are due, what a
//! batch looks like, when the cursor may move; and the converter's input.

use vstd::prelude::*;
use vstd::utf8::encode_utf8;
use crate::adapters::{opt_text, safe_file_name, sanitize_file_name};
use crate::model::{ApiError, Chapter, Id, Subscription, Timestamp};
use crate::text::{append_bytes, opt_str_text};
use crate::store::{has_book, has_subscriber, in_next_batch, selects, Store, StoreView};

verus! {

/// Whether subscription `k` is due: its subscriber and book exist and its
/// next batch holds at least `chunk_size` chapters.
pub open spec fn ready(v: StoreView, k: int) -> bool {
    let s = v.subscriptions[k];
    &&& has_subscriber(v, s.subscriber_id)
    &&& has_book(v, s.book_id)
    &&& v.chapters.filter(|c: Chapter| in_next_batch(c, s)).len() >= s.chunk_size
}

/// One due delivery: positions in the store of the subscriber, the
/// subscription and the book, and the positions of the batch's chapters in
/// delivery order.
pub struct Delivery {
    pub subscriber: usize,
    pub subscription: usize,
    pub book: usize,
    pub chapters: Vec<usize>,
}

/// `d` is the due delivery of subscription `k`.
pub open spec fn describes(v: StoreView, d: Delivery, k: int) -> bool {
    let s = v.subscriptions[k];
    &&& d.subscription == k
    &&& d.subscriber < v.subscribers.len() && v.subscribers[d.subscriber as int].id == s.subscriber_id
    &&& d.book < v.books.len() && v.books[d.book as int].id == s.book_id
    &&& selects(v.chapters, d.chapters@, |c: Chapter| in_next_batch(c, s), false)
}

/// The next batch of subscription `k`: exactly the chapters of its book that
/// carry an EPUB and were created after its cursor, earliest first by the
/// ordering key.
pub fn next_batch(store: &Store, k: usize) -> (r: Vec<usize>)
    requires
        k < store@.subscriptions.len(),
    ensures
        selects(store@.chapters, r@, |c: Chapter| in_next_batch(c, store@.subscriptions[k as int]), false),
{
    let s = &store.subscriptions()[k];
    let r = store.list_chapters_with_epub(s.book_id, s.last_delivered_chapter_created_at);
    proof {
        let sv = store@.subscriptions[k as int];
        assert((|c: Chapter| c.book_id == sv.book_id && c.epub is Some
            && crate::store::after_cursor(c.created_at, sv.last_delivered_chapter_created_at))
            =~= (|c: Chapter| in_next_batch(c, sv)));
    }
    r
}

/// Whether a batch of `count` chapters meets a subscription's threshold.
pub fn meets_chunk_size(count: usize, chunk_size: i32) -> (r: bool)
    ensures
        r == (count as int >= chunk_size as int),
{
    chunk_size <= 0 || count as u64 >= chunk_size as u64
}

/// The due deliveries, one per due subscription, in the order of the
/// subscriptions in the store.
pub fn find_ready_deliveries(store: &Store) -> (r: Vec<Delivery>)
    ensures
        forall|m: int| 0 <= m < r@.len() ==> describes(store@, #[trigger] r@[m], r@[m].subscription as int)
            && ready(store@, r@[m].subscription as int),
        forall|a: int, b: int| 0 <= a < b < r@.len() ==> (#[trigger] r@[a]).subscription < (#[trigger] r@[b]).subscription,
        forall|k: int| 0 <= k < store@.subscriptions.len() && ready(store@, k) ==> exists|m: int|
            0 <= m < r@.len() && (#[trigger] r@[m]).subscription == k,
{
    let subs = store.subscriptions();
    let mut r: Vec<Delivery> = Vec::new();
    let mut k: usize = 0;
    while k < subs.len()
        invariant
            subs@ == store@.subscriptions,
            k <= subs@.len(),
            forall|m: int| 0 <= m < r@.len() ==> describes(store@, #[trigger] r@[m], r@[m].subscription as int)
                && ready(store@, r@[m].subscription as int) && r@[m].subscription < k,
            forall|a: int, b: int| 0 <= a < b < r@.len() ==> (#[trigger] r@[a]).subscription < (#[trigger] r@[b]).subscription,
            forall|j: int| 0 <= j < k && ready(store@, j) ==> exists|m: int|
                0 <= m < r@.len() && (#[trigger] r@[m]).subscription == j,
        decreases subs@.len() - k,
    {
        let s = &subs[k];
        let subscriber = store.find_subscriber(s.subscriber_id);
        let book = store.find_book(s.book_id);
        let ghost old_r = r@;
        if let (Some(sp), Some(bp)) = (subscriber, book) {
            let batch = next_batch(store, k);
            if meets_chunk_size(batch.len(), s.chunk_size) {
                r.push(Delivery { subscriber: sp, subscription: k, book: bp, chapters: batch });
                proof {
                    assert(r@[old_r.len() as int].subscription == k);
                }
            }
        }
        proof {
            assert forall|j: int| 0 <= j < k + 1 && ready(store@, j) implies exists|m: int|
                0 <= m < r@.len() && (#[trigger] r@[m]).subscription == j by {
                if j < k {
                    let m = choose|m: int| 0 <= m < old_r.len() && (#[trigger] old_r[m]).subscription == j;
                    assert(r@[m] == old_r[m]);
                } else {
                    assert(r@[old_r.len() as int].subscription == k);
                }
            }
        }
        k = k + 1;
    }
    r
}

/// A chapter as it stands in a multi-chapter document: its title as a
/// heading, then its HTML body.
pub open spec fn section(c: Chapter) -> Seq<u8> {
    encode_utf8("<h1>"@ + c.title@ + "</h1>"@) + match c.html {
        Some(h) => h@,
        None => Seq::empty(),
    }
}

/// The sections of the chapters at positions `pos`, in that order.
pub open spec fn batch_html(chs: Seq<Chapter>, pos: Seq<usize>) -> Seq<u8>
    decreases pos.len(),
{
    if pos.len() == 0 {
        Seq::empty()
    } else {
        batch_html(chs, pos.drop_last()) + section(chs[pos.last() as int])
    }
}

/// Every chapter at positions `pos` has an HTML body.
pub open spec fn all_have_html(chs: Seq<Chapter>, pos: Seq<usize>) -> bool {
    forall|a: int| 0 <= a < pos.len() ==> (#[trigger] chs[pos[a] as int]).html is Some
}

/// The HTML document of a batch: each chapter's HTML preceded by its title
/// as a heading, in the given order. Refused for an empty batch and for one
/// with a chapter that has no HTML.
pub fn assemble_html(chapters: &Vec<Chapter>, pos: &Vec<usize>) -> (r: Option<Vec<u8>>)
    requires
        forall|a: int| 0 <= a < pos@.len() ==> #[trigger] pos@[a] < chapters@.len(),
    ensures
        r is Some <==> pos@.len() > 0 && all_have_html(chapters@, pos@),
        r matches Some(b) ==> b@ == batch_html(chapters@, pos@),
{
    if pos.len() == 0 {
        return None;
    }
    let mut out: Vec<u8> = Vec::new();
    let mut k: usize = 0;
    while k < pos.len()
        invariant
            k <= pos@.len(),
            forall|a: int| 0 <= a < pos@.len() ==> #[trigger] pos@[a] < chapters@.len(),
            out@ == batch_html(chapters@, pos@.subrange(0, k as int)),
            forall|a: int| 0 <= a < k ==> (#[trigger] chapters@[pos@[a] as int]).html is Some,
        decreases pos@.len() - k,
    {
        let c = &chapters[pos[k]];
        let mut heading = String::from_str("<h1>");
        heading.append(c.title.as_str());
        heading.append("</h1>");
        match &c.html {
            Some(h) => {
                append_bytes(&mut out, heading.as_str().as_bytes());
                append_bytes(&mut out, h.as_slice());
            },
            None => {
                return None;
            },
        }
        proof {
            assert(pos@.subrange(0, k + 1).drop_last() =~= pos@.subrange(0, k as int));
        }
        k = k + 1;
    }
    assert(pos@.subrange(0, k as int) =~= pos@);
    Some(out)
}

/// A push notification to send before a delivery.
pub struct PushNotice {
    pub user_key: String,
    pub message: String,
}

/// Everything a delivery needs from the store, decided in advance.
pub struct DeliveryPlan {
    pub subscription_id: Id,
    /// The notification, for a subscriber with a push key.
    pub push: Option<PushNotice>,
    /// The address to mail the EPUB to, for a subscriber with one.
    pub kindle_email: Option<String>,
    /// The subject and text of the email; also the notification's text.
    pub subject: String,
    pub cover_title: String,
    /// The title of the batch's last chapter, which names the attachment.
    pub chapter_title: String,
    pub book_title: String,
    pub author: String,
    /// The document to convert once.
    pub html: Vec<u8>,
    /// The chapter the cursor moves to once the batch is delivered.
    pub last_chapter_id: Id,
}

/// The text announcing a batch.
pub open spec fn notice_text(book: Seq<char>, first: Seq<char>, last: Seq<char>, n: int) -> Seq<char> {
    if n == 1 {
        "Delivered new chapter for "@ + book + ": "@ + first
    } else {
        "Delivered new chapters for "@ + book + ". "@ + first + " through "@ + last
    }
}

/// The cover title of a batch.
pub open spec fn batch_cover_title(book: Seq<char>, first: Seq<char>, last: Seq<char>, n: int) -> Seq<char> {
    if n == 1 {
        book + ": "@ + first
    } else {
        book + ": "@ + first + " through "@ + last
    }
}

/// Plans the delivery `d` of a valid store.
pub fn plan_delivery(store: &Store, d: &Delivery) -> (r: DeliveryPlan)
    requires
        store.wf(),
        d.subscription < store@.subscriptions.len(),
        describes(store@, *d, d.subscription as int),
        ready(store@, d.subscription as int),
    ensures
        ({
            let v = store@;
            let s = v.subscriptions[d.subscription as int];
            let who = v.subscribers[d.subscriber as int];
            let book = v.books[d.book as int];
            let n = d.chapters@.len();
            let first = v.chapters[d.chapters@[0] as int];
            let last = v.chapters[d.chapters@[n - 1] as int];
            &&& n >= 1
            &&& r.subscription_id == s.id
            &&& r.subject@ == notice_text(book.title@, first.title@, last.title@, n as int)
            &&& r.cover_title@ == batch_cover_title(book.title@, first.title@, last.title@, n as int)
            &&& r.chapter_title@ == last.title@
            &&& r.book_title@ == book.title@
            &&& r.author@ == book.author@
            &&& r.html@ == batch_html(v.chapters, d.chapters@)
            &&& r.last_chapter_id == last.id
            &&& opt_text(r.kindle_email) == opt_text(who.kindle_email)
            &&& match who.pushover_key {
                Some(key) => r.push matches Some(p) && p.user_key@ == key@ && p.message@ == r.subject@,
                None => r.push is None,
            }
        }),
{
    let chs = store.chapters();
    let s = &store.subscriptions()[d.subscription];
    let who = &store.list_subscribers()[d.subscriber];
    let book = &store.list_books()[d.book];
    let n = d.chapters.len();
    proof {
        assert(s.chunk_size >= 1);
    }
    let first = &chs[d.chapters[0]];
    let last = &chs[d.chapters[n - 1]];
    let mut subject = if n == 1 {
        String::from_str("Delivered new chapter for ")
    } else {
        String::from_str("Delivered new chapters for ")
    };
    subject.append(book.title.as_str());
    let mut cover_title = book.title.clone();
    cover_title.append(": ");
    cover_title.append(first.title.as_str());
    if n == 1 {
        subject.append(": ");
        subject.append(first.title.as_str());
    } else {
        subject.append(". ");
        subject.append(first.title.as_str());
        subject.append(" through ");
        subject.append(last.title.as_str());
        cover_title.append(" through ");
        cover_title.append(last.title.as_str());
    }
    let push = match &who.pushover_key {
        Some(key) => Some(PushNotice { user_key: key.clone(), message: subject.clone() }),
        None => None,
    };
    let kindle_email = match &who.kindle_email {
        Some(e) => Some(e.clone()),
        None => None,
    };
    proof {
        let p = |c: Chapter| in_next_batch(c, store@.subscriptions[d.subscription as int]);
        assert forall|a: int| 0 <= a < d.chapters@.len() implies (#[trigger] chs@[d.chapters@[a] as int]).html is Some by {
            let i = d.chapters@[a];
            assert(d.chapters@.contains(i));
            assert(p(chs@[i as int]));
        }
    }
    let html = match assemble_html(chs, &d.chapters) {
        Some(h) => h,
        None => {
            proof {
                assert(false);
            }
            Vec::new()
        },
    };
    DeliveryPlan {
        subscription_id: s.id,
        push,
        kindle_email,
        subject,
        cover_title,
        chapter_title: last.title.clone(),
        book_title: book.title.clone(),
        author: book.author.clone(),
        html,
        last_chapter_id: last.id,
    }
}

/// Whether the cursor may advance after a delivery attempt: some channel is
/// configured and every configured channel succeeded.
pub fn cursor_may_advance(plan: &DeliveryPlan, pushed: bool, emailed: bool) -> (r: bool)
    ensures
        r == ((plan.push is Some || plan.kindle_email is Some) && (plan.push is Some ==> pushed) && (
        plan.kindle_email is Some ==> emailed)),
{
    (plan.push.is_some() || plan.kindle_email.is_some()) && (plan.push.is_none() || pushed) && (
    plan.kindle_email.is_none() || emailed)
}

/// Subscription `sid` may move its cursor to chapter `cid`: both exist, the
/// chapter belongs to the subscription's book and is not older than the cursor.
pub open spec fn cursor_move_allowed(v: StoreView, sid: Id, cid: Id) -> bool {
    exists|i: int, j: int|
        0 <= i < v.subscriptions.len() && 0 <= j < v.chapters.len() && (#[trigger] v.subscriptions[i]).id == sid
            && (#[trigger] v.chapters[j]).id == cid && v.chapters[j].book_id == v.subscriptions[i].book_id
            && (v.subscriptions[i].last_delivered_chapter_created_at matches Some(t) ==> t <= v.chapters[j].created_at)
}

/// `b` is `a` with the cursor of subscription `sid` moved to chapter `cid`,
/// its creation time copied, and the subscription's update time set to `now`;
/// nothing else changes.
pub open spec fn cursor_moved(a: StoreView, b: StoreView, sid: Id, cid: Id, now: Timestamp) -> bool {
    exists|i: int, j: int|
        0 <= i < a.subscriptions.len() && 0 <= j < a.chapters.len() && (#[trigger] a.subscriptions[i]).id == sid
            && (#[trigger] a.chapters[j]).id == cid && b == (StoreView {
            subscriptions: a.subscriptions.update(i, Subscription {
                last_delivered_chapter_id: Some(cid),
                last_delivered_chapter_created_at: Some(a.chapters[j].created_at),
                updated_at: now,
                ..a.subscriptions[i]
            }),
            ..a
        })
}

/// Concludes a delivery attempt: moves the cursor to the batch's last
/// chapter when `cursor_may_advance` allows it, and otherwise leaves the store
/// as it was. `Ok(true)` when the cursor moved.
pub fn finish_delivery(store: &mut Store, plan: &DeliveryPlan, pushed: bool, emailed: bool, now: Timestamp) -> (r: Result<bool, ApiError>)
    requires
        old(store).wf(),
    ensures
        final(store).wf(),
        crate::store::cursors_not_retreated(old(store)@, final(store)@),
        !((plan.push is Some || plan.kindle_email is Some) && (plan.push is Some ==> pushed) && (
        plan.kindle_email is Some ==> emailed)) ==> r == Ok::<bool, ApiError>(false) && final(store)@ == old(store)@,
        r == Ok::<bool, ApiError>(true) ==> cursor_moved(old(store)@, final(store)@, plan.subscription_id, plan.last_chapter_id, now),
        r == Ok::<bool, ApiError>(false) ==> final(store)@ == old(store)@,
        r is Err ==> final(store)@ == old(store)@,
        (plan.push is Some || plan.kindle_email is Some) && (plan.push is Some ==> pushed) && (plan.kindle_email is Some
            ==> emailed) && cursor_move_allowed(old(store)@, plan.subscription_id, plan.last_chapter_id) ==> r == Ok::<
            bool,
            ApiError,
        >(true),
{
    if !cursor_may_advance(plan, pushed, emailed) {
        return Ok(false);
    }
    match store.set_last_delivered_chapter(plan.subscription_id, plan.last_chapter_id, now) {
        Ok(i) => {
            proof {
                let v = old(store)@;
                assert(crate::store::has_subscription(v, plan.subscription_id));
                assert(crate::store::has_chapter(v, plan.last_chapter_id));
                let a = choose|a: int| 0 <= a < v.subscriptions.len() && (#[trigger] v.subscriptions[a]).id == plan.subscription_id;
                let b = choose|b: int| 0 <= b < v.chapters.len() && (#[trigger] v.chapters[b]).id == plan.last_chapter_id;
                assert(v.subscriptions[a].id == plan.subscription_id && v.chapters[b].id == plan.last_chapter_id);
            }
            Ok(true)
        },
        Err(e) => Err(e),
    }
}

/// A file attached to an email.
pub struct Attachment {
    pub content_type: String,
    pub file_name: String,
    pub bytes: Vec<u8>,
}

/// An email to send.
pub struct Message {
    pub to: String,
    pub subject: String,
    pub text: Option<String>,
    pub html: Option<String>,
    pub attachment: Option<Attachment>,
}

impl Message {
    pub fn new(to: &str, subject: &str, text: Option<&str>, html: Option<&str>, attachment: Option<Attachment>) -> (r: Self)
        ensures
            r.to@ == to@,
            r.subject@ == subject@,
            opt_text(r.text) == opt_str_text(text),
            opt_text(r.html) == opt_str_text(html),
            r.attachment == attachment,
    {
        Message {
            to: String::from_str(to),
            subject: String::from_str(subject),
            text: match text {
                Some(t) => Some(String::from_str(t)),
                None => None,
            },
            html: match html {
                Some(h) => Some(String::from_str(h)),
                None => None,
            },
            attachment,
        }
    }
}

/// The email that carries an EPUB: the subject doubles as text and HTML
/// body, and the attachment is named after the chapter title, made safe as
/// a file name.
pub fn epub_message(bytes: &[u8], email: &str, chapter_title: &str, subject: &str) -> (r: Message)
    ensures
        r.to@ == email@,
        r.subject@ == subject@,
        opt_text(r.text) == Some(subject@),
        opt_text(r.html) == Some(subject@),
        r.attachment matches Some(a) && a.content_type@ == "application/epub+zip"@
            && a.file_name@ == safe_file_name(chapter_title@ + ".epub"@) && a.bytes@ == bytes@,
{
    let mut name = String::from_str(chapter_title);
    name.append(".epub");
    let mut copy: Vec<u8> = Vec::new();
    append_bytes(&mut copy, bytes);
    let attachment = Attachment {
        content_type: String::from_str("application/epub+zip"),
        file_name: sanitize_file_name(name.as_str()),
        bytes: copy,
    };
    Message::new(email, subject, Some(subject), Some(subject), Some(attachment))
}

/// What the converter needs to turn one chapter into an EPUB.
pub struct ConversionJob {
    pub chapter_id: Id,
    pub html: Vec<u8>,
    /// `"{book title}: {chapter title}"`.
    pub cover_title: String,
    pub book_title: String,
    pub author: String,
}

/// Prepares the conversion of the chapter at position `i`. Refused for a
/// chapter without HTML and for one whose book is missing.
pub fn conversion_job(store: &Store, i: usize) -> (r: Result<ConversionJob, ApiError>)
    requires
        i < store@.chapters.len(),
    ensures
        ({
            let v = store@;
            let c = v.chapters[i as int];
            if c.html is None {
                r == Err::<ConversionJob, ApiError>(ApiError::InvalidRequest(crate::model::RequestProblem::EpubWithoutHtml))
            } else if !has_book(v, c.book_id) {
                r == Err::<ConversionJob, ApiError>(
                    ApiError::ResourceNotFound { resource_type: crate::model::ResourceType::Book, id: c.book_id },
                )
            } else {
                r matches Ok(job) && job.chapter_id == c.id && job.html@ == c.html->0@ && exists|b: int|
                    0 <= b < v.books.len() && (#[trigger] v.books[b]).id == c.book_id
                        && job.cover_title@ == v.books[b].title@ + ": "@ + c.title@
                        && job.book_title@ == v.books[b].title@ && job.author@ == v.books[b].author@
            }
        }),
{
    let c = &store.chapters()[i];
    let body = match &c.html {
        None => { return Err(ApiError::InvalidRequest(crate::model::RequestProblem::EpubWithoutHtml)); },
        Some(h) => h,
    };
    let b = match store.find_book(c.book_id) {
        None => {
            return Err(ApiError::ResourceNotFound { resource_type: crate::model::ResourceType::Book, id: c.book_id });
        },
        Some(b) => b,
    };
    let book = &store.list_books()[b];
    let mut cover_title = book.title.clone();
    cover_title.append(": ");
    cover_title.append(c.title.as_str());
    let mut html: Vec<u8> = Vec::new();
    append_bytes(&mut html, body.as_slice());
    Ok(ConversionJob {
        chapter_id: c.id,
        html,
        cover_title,
        book_title: book.title.clone(),
        author: book.author.clone(),
    })
}

} // verus!
