//! Calls into outside crates (RSS, HTML, email, dates, file names), each
//! behind a small contract, and names for what they return.

use vstd::prelude::*;
use vstd::utf8::encode_utf8;
use mailparse::MailHeaderMap;

verus! {

/// The text of an optional string.
pub open spec fn opt_text(o: Option<String>) -> Option<Seq<char>> {
    match o {
        Some(s) => Some(s@),
        None => None,
    }
}

/// One item of an RSS channel, with its fields as the feed writes them.
pub struct FeedItem {
    pub title: Option<String>,
    pub link: Option<String>,
    pub pub_date: Option<String>,
}

pub open spec fn feed_item_text(i: FeedItem) -> (Option<Seq<char>>, Option<Seq<char>>, Option<Seq<char>>) {
    (opt_text(i.title), opt_text(i.link), opt_text(i.pub_date))
}

/// One element of an HTML document matched by a selector.
pub struct HtmlElement {
    /// The element's outer HTML.
    pub html: String,
    /// Its `id` attribute.
    pub id: Option<String>,
    /// The text nodes beneath it, in document order.
    pub texts: Vec<String>,
    /// Its `href` attribute.
    pub href: Option<String>,
    /// The concatenated text of its next sibling element.
    pub next_sibling_text: Option<String>,
}

pub open spec fn element_text(
    e: HtmlElement,
) -> (Seq<char>, Option<Seq<char>>, Seq<Seq<char>>, Option<Seq<char>>, Option<Seq<char>>) {
    (e.html@, opt_text(e.id), e.texts@.map_values(|t: String| t@), opt_text(e.href), opt_text(e.next_sibling_text))
}

/// The parts of an email message that the providers read.
pub struct ParsedEmail {
    /// The first `Subject` header.
    pub subject: Option<String>,
    /// The decoded body of the message itself.
    pub body: Option<String>,
    /// The decoded body of its last sub-part.
    pub last_part_body: Option<String>,
}

pub open spec fn email_text(m: ParsedEmail) -> (Option<Seq<char>>, Option<Seq<char>>, Option<Seq<char>>) {
    (opt_text(m.subject), opt_text(m.body), opt_text(m.last_part_body))
}

/// The items of the RSS channel in `bytes`; `None` when it does not parse.
pub uninterp spec fn feed_items(bytes: Seq<u8>) -> Option<Seq<(Option<Seq<char>>, Option<Seq<char>>, Option<Seq<char>>)>>;

/// The instant, in milliseconds since the epoch, of an RFC 2822 date.
pub uninterp spec fn rfc2822_millis(s: Seq<char>) -> Option<i64>;

/// The instant, in milliseconds since the epoch, of an RFC 3339 date.
pub uninterp spec fn rfc3339_millis(s: Seq<char>) -> Option<i64>;

/// The elements of document `doc` that CSS selector `selector` matches, in
/// the order `Html::select` yields them (the order in which the parser
/// created the nodes); `None` when the selector does not parse.
pub uninterp spec fn selected(doc: Seq<char>, selector: Seq<char>) -> Option<
    Seq<(Seq<char>, Option<Seq<char>>, Seq<Seq<char>>, Option<Seq<char>>, Option<Seq<char>>)>,
>;

/// The subject and bodies of the email in `bytes`; `None` when it does not parse.
pub uninterp spec fn parsed_email(bytes: Seq<u8>) -> Option<(Option<Seq<char>>, Option<Seq<char>>, Option<Seq<char>>)>;

/// The lower-case form of a text.
pub uninterp spec fn lower_of(s: Seq<char>) -> Seq<char>;

/// A character that may stay in a file name: not one of `/?<>\\:*|"` and
/// not a control character (U+0000 to U+001F, U+0080 to U+009F).
pub open spec fn file_name_char(c: char) -> bool {
    &&& !(c == '/' || c == '?' || c == '<' || c == '>' || c == '\\' || c == ':' || c == '*' || c == '|' || c == '"')
    &&& !((c as u32) <= 0x1f || (0x80 <= (c as u32) && (c as u32) <= 0x9f))
}

/// A non-empty text made of dots only.
pub open spec fn all_dots(s: Seq<char>) -> bool {
    s.len() > 0 && forall|i: int| 0 <= i < s.len() ==> s[i] == '.'
}

/// The longest prefix of `s` whose UTF-8 form fits in 255 bytes.
pub open spec fn within_name_limit(s: Seq<char>) -> Seq<char>
    decreases s.len(),
{
    if s.len() == 0 || encode_utf8(s).len() <= 255 {
        s
    } else {
        within_name_limit(s.drop_last())
    }
}

/// A text made safe to use as a file name: forbidden characters dropped, a
/// name of dots only emptied, and the rest cut to 255 bytes.
pub open spec fn safe_file_name(s: Seq<char>) -> Seq<char> {
    let kept = s.filter(|c: char| file_name_char(c));
    within_name_limit(if all_dots(kept) { Seq::empty() } else { kept })
}

/// Relies on `rss::Channel::read_from`: the channel's items with their title,
/// link and publication date as written in the feed.
#[verifier::external_body]
pub(crate) fn read_feed(bytes: &[u8]) -> (r: Option<Vec<FeedItem>>)
    ensures
        r is None <==> feed_items(bytes@) is None,
        r matches Some(v) ==> feed_items(bytes@) == Some(v@.map_values(|i: FeedItem| feed_item_text(i))),
{
    let channel = rss::Channel::read_from(bytes).ok()?;
    let items = channel.items().iter().map(|i| FeedItem {
        title: i.title().map(String::from),
        link: i.link().map(String::from),
        pub_date: i.pub_date().map(String::from),
    });
    Some(items.collect())
}

/// Relies on `chrono::DateTime::parse_from_rfc2822` and `timestamp_millis`.
#[verifier::external_body]
pub(crate) fn parse_rfc2822(s: &str) -> (r: Option<i64>)
    ensures
        r == rfc2822_millis(s@),
{
    chrono::DateTime::parse_from_rfc2822(s).ok().map(|d| d.timestamp_millis())
}

/// Relies on `chrono::DateTime::parse_from_rfc3339` and `timestamp_millis`.
#[verifier::external_body]
pub(crate) fn parse_rfc3339(s: &str) -> (r: Option<i64>)
    ensures
        r == rfc3339_millis(s@),
{
    chrono::DateTime::parse_from_rfc3339(s).ok().map(|d| d.timestamp_millis())
}

/// Relies on `scraper::Html::parse_document`, `scraper::Selector::parse` and
/// `Html::select`: the matching elements in document order.
#[verifier::external_body]
pub(crate) fn select_elements(doc: &str, selector: &str) -> (r: Option<Vec<HtmlElement>>)
    ensures
        r is None <==> selected(doc@, selector@) is None,
        r matches Some(v) ==> selected(doc@, selector@) == Some(v@.map_values(|e: HtmlElement| element_text(e))),
{
    let doc = scraper::Html::parse_document(doc);
    let sel = scraper::Selector::parse(selector).ok()?;
    let found = doc.select(&sel).map(|e| HtmlElement {
        html: e.html(),
        id: e.value().id().map(String::from),
        texts: e.text().map(String::from).collect(),
        href: e.value().attr("href").map(String::from),
        next_sibling_text: e.next_siblings().find_map(scraper::ElementRef::wrap).map(|s| s.text().collect()),
    });
    Some(found.collect())
}

/// Relies on `mailparse::parse_mail`, the first `Subject` header and
/// `ParsedMail::get_body` of the message and of its last sub-part.
#[verifier::external_body]
pub(crate) fn parse_email(bytes: &[u8]) -> (r: Option<ParsedEmail>)
    ensures
        r is None <==> parsed_email(bytes@) is None,
        r matches Some(m) ==> parsed_email(bytes@) == Some(email_text(m)),
{
    let mail = mailparse::parse_mail(bytes).ok()?;
    Some(ParsedEmail {
        subject: mail.headers.get_first_value("Subject"),
        body: mail.get_body().ok(),
        last_part_body: mail.subparts.iter().last().and_then(|p| p.get_body().ok()),
    })
}

/// Relies on `str::to_lowercase`: the result depends on the characters alone.
#[verifier::external_body]
pub(crate) fn lowercase(s: &str) -> (r: String)
    ensures
        r@ == lower_of(s@),
{
    s.to_lowercase()
}

/// Relies on `sanitize_filename::sanitize_with_options` with the options
/// that `sanitize` uses off Windows: illegal and control characters removed,
/// a name of dots only replaced by nothing, truncation to 255 bytes.
#[verifier::external_body]
pub(crate) fn sanitize_file_name(s: &str) -> (r: String)
    ensures
        r@ == safe_file_name(s@),
{
    let options = sanitize_filename::Options { windows: false, truncate: true, replacement: "" };
    sanitize_filename::sanitize_with_options(s, options)
}

} // verus!
