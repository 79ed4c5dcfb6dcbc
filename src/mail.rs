//! Discovery from emails kept in an object bucket (Wandering Inn and
//! Apparatus of Change Patreon posts).

use vstd::prelude::*;
use vstd::utf8::encode_utf8;
use crate::adapters::{
    element_text, lower_of, lowercase, opt_text, parse_email, parse_rfc2822, parse_rfc3339,
    parsed_email, rfc2822_millis, rfc3339_millis, select_elements, selected, HtmlElement,
};
use crate::feeds::{body_from_elements, entry_body_outcome, ElementText, ProviderError};
use crate::model::{ChapterMetadata, Id, NewChapter, Timestamp};
use crate::text::{
    append_bytes, blank, contains, contains_text, find_text, first_occurrence, is_blank, last_index_of, matches_at,
    occurs_at, opt_str_text, rfind_char,
};

verus! {

/// The last segment between `/`s that is not blank; what a link's text is
/// titled by.
pub open spec fn last_title_segment(s: Seq<char>) -> Option<Seq<char>>
    decreases s.len(),
{
    if exists|i: int| last_index_of(s, '/', i) {
        let i = choose|i: int| last_index_of(s, '/', i);
        let seg = s.subrange(i + 1, s.len() as int);
        if !blank(seg) {
            Some(seg)
        } else {
            last_title_segment(s.subrange(0, i))
        }
    } else if !blank(s) {
        Some(s)
    } else {
        None
    }
}

/// The chapter title in a link: its last `/`-separated segment that is not blank.
pub fn chapter_title_from_link(link: &str) -> (r: Option<&str>)
    ensures
        opt_str_text(r) == last_title_segment(link@),
{
    let mut cur: &str = link;
    loop
        invariant
            last_title_segment(cur@) == last_title_segment(link@),
        decreases cur@.len(),
    {
        let n = cur.unicode_len();
        match rfind_char(cur, '/') {
            None => {
                if is_blank(cur) {
                    return None;
                }
                return Some(cur);
            },
            Some(i) => {
                proof {
                    let j = choose|j: int| last_index_of(cur@, '/', j);
                    assert(j == i);
                }
                let seg = cur.substring_char(i + 1, n);
                if !is_blank(seg) {
                    return Some(seg);
                }
                cur = cur.substring_char(0, i);
            },
        }
    }
}

/// `s` with every leading repetition of `p` removed.
pub open spec fn strip_prefixes(s: Seq<char>, p: Seq<char>) -> Seq<char>
    decreases s.len(),
{
    if p.len() > 0 && occurs_at(s, p, 0) {
        strip_prefixes(s.subrange(p.len() as int, s.len() as int), p)
    } else {
        s
    }
}

/// The text after the first `"` up to the next `"`, or to the end.
pub open spec fn quoted_part(s: Seq<char>) -> Option<Seq<char>> {
    if contains_text(s, "\""@) {
        let i = choose|i: int| first_occurrence(s, "\""@, i);
        let rest = s.subrange(i + "\""@.len(), s.len() as int);
        if contains_text(rest, "\""@) {
            let j = choose|j: int| first_occurrence(rest, "\""@, j);
            Some(rest.subrange(0, j))
        } else {
            Some(rest)
        }
    } else {
        None
    }
}

/// The chapter title in an Apparatus of Change email subject.
pub open spec fn title_from_subject(s: Seq<char>) -> Option<Seq<char>> {
    match quoted_part(s) {
        Some(q) => Some(strip_prefixes(q, "Apparatus Of Change - "@)),
        None => None,
    }
}

/// The chapter title quoted in an email subject, without the serial's name.
pub fn chapter_title_from_subject(subject: &str) -> (r: Option<&str>)
    ensures
        opt_str_text(r) == title_from_subject(subject@),
{
    let quote = "\"";
    let n = subject.unicode_len();
    let i = match find_text(subject, quote) {
        None => { return None; },
        Some(i) => i,
    };
    let ql = quote.unicode_len();
    proof {
        let w = choose|w: int| first_occurrence(subject@, "\""@, w);
        assert(w == i);
    }
    let rest = subject.substring_char(i + ql, n);
    let rl = rest.unicode_len();
    let mut q = match find_text(rest, quote) {
        None => rest,
        Some(j) => {
            proof {
                let w = choose|w: int| first_occurrence(rest@, "\""@, w);
                assert(w == j);
            }
            rest.substring_char(0, j)
        },
    };
    let prefix = "Apparatus Of Change - ";
    let pl = prefix.unicode_len();
    let ghost q0 = q@;
    assert(quoted_part(subject@) == Some(q0));
    loop
        invariant
            pl == prefix@.len(),
            strip_prefixes(q@, prefix@) == strip_prefixes(q0, prefix@),
            title_from_subject(subject@) == Some(strip_prefixes(q0, prefix@)),
        decreases q@.len(),
    {
        let len = q.unicode_len();
        if pl == 0 || pl > len || !matches_at(q, prefix, len, pl, 0) {
            return Some(q);
        }
        q = q.substring_char(pl, len);
    }
}

/// The subject of an email mentions `word`, in any case.
pub open spec fn subject_mentions(subject: Option<Seq<char>>, word: Seq<char>) -> bool {
    subject matches Some(s) && contains_text(lower_of(s), word)
}

/// The body of an email: its own, or else its last part's.
pub open spec fn email_body(m: (Option<Seq<char>>, Option<Seq<char>>, Option<Seq<char>>)) -> Option<Seq<char>> {
    match m.1 {
        Some(b) => Some(b),
        None => m.2,
    }
}

fn subject_has(subject: &Option<String>, word: &str) -> (r: bool)
    ensures
        r == subject_mentions(opt_text(*subject), word@),
{
    match subject {
        None => false,
        Some(s) => contains(lowercase(s.as_str()).as_str(), word),
    }
}

/// Whether the object last modified at `lm` (an RFC 3339 date) is newer
/// than the cursor; objects without a readable date are not.
pub open spec fn object_is_new(lm: Option<Seq<char>>, cursor: Option<Timestamp>) -> bool {
    match lm {
        None => false,
        Some(s) => match rfc3339_millis(s) {
            None => false,
            Some(t) => match cursor {
                None => true,
                Some(c) => t > c,
            },
        },
    }
}

/// The positions, in order, of the stored emails modified after the cursor.
pub fn objects_after(last_modified: &Vec<Option<String>>, cursor: Option<Timestamp>) -> (r: Vec<usize>)
    ensures
        forall|m: int| 0 <= m < r@.len() ==> #[trigger] r@[m] < last_modified@.len()
            && object_is_new(opt_text(last_modified@[r@[m] as int]), cursor),
        forall|a: int, b: int| 0 <= a < b < r@.len() ==> #[trigger] r@[a] < #[trigger] r@[b],
        forall|k: int| 0 <= k < last_modified@.len() && object_is_new(opt_text(#[trigger] last_modified@[k]), cursor)
            ==> r@.contains(k as usize),
{
    let mut r: Vec<usize> = Vec::new();
    let mut k: usize = 0;
    while k < last_modified.len()
        invariant
            k <= last_modified@.len(),
            forall|m: int| 0 <= m < r@.len() ==> #[trigger] r@[m] < k
                && object_is_new(opt_text(last_modified@[r@[m] as int]), cursor),
            forall|a: int, b: int| 0 <= a < b < r@.len() ==> #[trigger] r@[a] < #[trigger] r@[b],
            forall|j: int| 0 <= j < k && object_is_new(opt_text(#[trigger] last_modified@[j]), cursor)
                ==> r@.contains(j as usize),
        decreases last_modified@.len() - k,
    {
        let ghost old_r = r@;
        let fresh = match &last_modified[k] {
            None => false,
            Some(s) => match parse_rfc3339(s.as_str()) {
                None => false,
                Some(t) => match cursor {
                    None => true,
                    Some(c) => t > c,
                },
            },
        };
        if fresh {
            r.push(k);
        }
        proof {
            assert forall|j: int| 0 <= j < k + 1 && object_is_new(opt_text(#[trigger] last_modified@[j]), cursor)
                implies r@.contains(j as usize) by {
                if j < k {
                    let w = choose|w: int| 0 <= w < old_r.len() && old_r[w] == j as usize;
                    assert(r@[w] == j as usize);
                } else {
                    assert(r@[old_r.len() as int] == k);
                }
            }
        }
        k = k + 1;
    }
    r
}

/// The publication time of an email, from its store's RFC 2822 date.
pub fn email_published_at(last_modified: Option<&str>) -> (r: Option<Timestamp>)
    ensures
        r == (match opt_str_text(last_modified) {
            Some(s) => rfc2822_millis(s),
            None => None,
        }),
{
    match last_modified {
        Some(s) => parse_rfc2822(s),
        None => None,
    }
}

/// A text that mentions a password, in any case.
pub open spec fn mentions_password(t: Seq<char>) -> bool {
    contains_text(lower_of(t), "password"@)
}

/// A paragraph with a text node that mentions a password.
pub open spec fn para_mentions(p: ElementText) -> bool {
    exists|k: int| 0 <= k < p.2.len() && mentions_password(#[trigger] p.2[k])
}

/// The text nodes of all paragraphs, in document order.
pub open spec fn all_texts(ps: Seq<ElementText>) -> Seq<Seq<char>>
    decreases ps.len(),
{
    if ps.len() == 0 {
        Seq::empty()
    } else {
        all_texts(ps.drop_last()) + ps.last().2
    }
}

/// The password in the element after the one paragraph that mentions one.
pub open spec fn sibling_password(ps: Seq<ElementText>) -> Option<Seq<char>> {
    let c = ps.filter(|p: ElementText| para_mentions(p));
    if c.len() == 1 {
        c[0].4
    } else {
        None
    }
}

/// The first text position that mentions a password.
pub open spec fn first_mention(ts: Seq<Seq<char>>, f: int) -> bool {
    0 <= f < ts.len() && mentions_password(ts[f]) && forall|g: int| 0 <= g < f ==> !mentions_password(#[trigger] ts[g])
}

/// The text that follows the first mention of a password.
pub open spec fn text_after_mention(ts: Seq<Seq<char>>) -> Option<Seq<char>> {
    if exists|f: int| first_mention(ts, f) {
        let f = choose|f: int| first_mention(ts, f);
        if f + 1 < ts.len() {
            Some(ts[f + 1])
        } else {
            None
        }
    } else {
        None
    }
}

/// The password that unlocks the chapters an email links to.
pub open spec fn password_of(ps: Seq<ElementText>) -> Option<Seq<char>> {
    match sibling_password(ps) {
        Some(p) => Some(p),
        None => text_after_mention(all_texts(ps)),
    }
}

fn mentions_password_exec(t: &str) -> (r: bool)
    ensures
        r == mentions_password(t@),
{
    contains(lowercase(t).as_str(), "password")
}

fn clone_opt(o: &Option<String>) -> (r: Option<String>)
    ensures
        r == *o,
{
    match o {
        Some(s) => Some(s.clone()),
        None => None,
    }
}

/// The password of an email, from its `div > p` paragraphs: the text of the
/// element after the single paragraph that mentions a password, or else the
/// text node that follows the first mention.
pub fn extract_password(paras: &Vec<HtmlElement>) -> (r: Option<String>)
    ensures
        opt_text(r) == password_of(paras@.map_values(|e: HtmlElement| element_text(e))),
{
    let ghost es = paras@.map_values(|e: HtmlElement| element_text(e));
    let ghost pred = |p: ElementText| para_mentions(p);
    let mut count: usize = 0;
    let mut first: usize = 0;
    let mut flat: Vec<String> = Vec::new();
    let mut k: usize = 0;
    while k < paras.len()
        invariant
            k <= paras@.len(),
            es == paras@.map_values(|e: HtmlElement| element_text(e)),
            pred == (|p: ElementText| para_mentions(p)),
            count == es.subrange(0, k as int).filter(pred).len(),
            count >= 1 ==> first < k && es.subrange(0, k as int).filter(pred)[0] == es[first as int],
            flat@.map_values(|t: String| t@) == all_texts(es.subrange(0, k as int)),
            count <= k,
        decreases paras@.len() - k,
    {
        let e = &paras[k];
        let mut mentions = false;
        let mut j: usize = 0;
        let ghost flat0 = flat@.map_values(|t: String| t@);
        while j < e.texts.len()
            invariant
                j <= e.texts@.len(),
                mentions == exists|m: int| 0 <= m < j && mentions_password(#[trigger] e.texts@[m]@),
                flat@.map_values(|t: String| t@) == flat0 + e.texts@.subrange(0, j as int).map_values(|t: String| t@),
            decreases e.texts@.len() - j,
        {
            let t = &e.texts[j];
            if mentions_password_exec(t.as_str()) {
                mentions = true;
            }
            let ghost fl_old = flat@;
            flat.push(t.clone());
            proof {
                assert(flat@.map_values(|t: String| t@) =~= fl_old.map_values(|t: String| t@).push(t@));
                assert(e.texts@.subrange(0, j + 1).map_values(|t: String| t@) =~= e.texts@.subrange(0, j as int).map_values(|t: String| t@).push(t@));
                assert(flat@.map_values(|t: String| t@) =~= flat0 + e.texts@.subrange(0, j + 1).map_values(|t: String| t@));
            }
            j = j + 1;
        }
        proof {
            let ev = es[k as int];
            assert(ev.2 == e.texts@.map_values(|t: String| t@));
            assert(e.texts@.subrange(0, j as int) =~= e.texts@);
            assert(mentions == para_mentions(ev)) by {
                if mentions {
                    let m = choose|m: int| 0 <= m < j && mentions_password(#[trigger] e.texts@[m]@);
                    assert(ev.2[m] == e.texts@[m]@);
                } else {
                    assert forall|m: int| 0 <= m < ev.2.len() implies !mentions_password(#[trigger] ev.2[m]) by {
                        assert(ev.2[m] == e.texts@[m]@);
                    }
                }
            }
            assert(es.subrange(0, k + 1) =~= es.subrange(0, k as int).push(ev));
            es.subrange(0, k as int).lemma_filter_push(ev, pred);
            assert(es.subrange(0, k + 1).drop_last() =~= es.subrange(0, k as int));
        }
        if mentions {
            if count == 0 {
                first = k;
            }
            count = count + 1;
        }
        k = k + 1;
    }
    proof {
        assert(es.subrange(0, k as int) =~= es);
        assert((|p: ElementText| para_mentions(p)) == pred);
    }
    if count == 1 {
        let sib = clone_opt(&paras[first].next_sibling_text);
        if sib.is_some() {
            return sib;
        }
    }
    let ghost ts = flat@.map_values(|t: String| t@);
    proof {
        if count == 1 {
            assert(opt_text(paras@[first as int].next_sibling_text) == es[first as int].4);
        }
        assert(sibling_password(es) is None);
        assert(ts == all_texts(es));
    }
    let mut f: usize = 0;
    while f < flat.len()
        invariant
            f <= flat@.len(),
            ts == flat@.map_values(|t: String| t@),
            password_of(es) == text_after_mention(ts),
            es == paras@.map_values(|e: HtmlElement| element_text(e)),
            forall|g: int| 0 <= g < f ==> !mentions_password(#[trigger] ts[g]),
        decreases flat@.len() - f,
    {
        if mentions_password_exec(flat[f].as_str()) {
            proof {
                assert(first_mention(ts, f as int));
                let w = choose|w: int| first_mention(ts, w);
                if w < f {
                    assert(!mentions_password(ts[w]));
                } else if f < w {
                    assert(!mentions_password(ts[f as int]));
                }
            }
            if f + 1 < flat.len() {
                return Some(flat[f + 1].clone());
            }
            return None;
        }
        f = f + 1;
    }
    None
}

/// The (title, url) pairs of the links that name a chapter, in document
/// order: each link's title is the last non-blank path segment of its href.
pub open spec fn link_entries(ls: Seq<ElementText>) -> Seq<(Seq<char>, Seq<char>)>
    decreases ls.len(),
{
    if ls.len() == 0 {
        Seq::empty()
    } else {
        let prev = link_entries(ls.drop_last());
        let l = ls.last();
        match l.3 {
            Some(href) => match last_title_segment(href) {
                Some(t) => prev.push((t, href)),
                None => prev,
            },
            None => prev,
        }
    }
}

/// `v` holds one stub chapter per linked chapter, with the email's password.
pub open spec fn linked_chapters(
    v: Seq<NewChapter>,
    ls: Seq<ElementText>,
    password: Option<Seq<char>>,
    book_id: Id,
    published_at: Option<Timestamp>,
) -> bool {
    let es = link_entries(ls);
    &&& v.len() == es.len()
    &&& forall|k: int| 0 <= k < v.len() ==> {
        let nc = #[trigger] v[k];
        &&& nc.title@ == es[k].0
        &&& nc.book_id == book_id
        &&& nc.published_at == published_at
        &&& nc.html is None
        &&& nc.epub is None
        &&& (nc.metadata matches ChapterMetadata::TheWanderingInnPatreon { url, password: pw }
            && url@ == es[k].1 && opt_text(pw) == password)
    }
}

/// The stub chapters that a Wandering Inn email links to, from its
/// `div > p` paragraphs and the links inside them.
pub fn chapters_from_elements(
    paras: &Vec<HtmlElement>,
    links: &Vec<HtmlElement>,
    book_id: Id,
    published_at: Option<Timestamp>,
) -> (r: Vec<NewChapter>)
    ensures
        linked_chapters(
            r@,
            links@.map_values(|e: HtmlElement| element_text(e)),
            password_of(paras@.map_values(|e: HtmlElement| element_text(e))),
            book_id,
            published_at,
        ),
{
    let password = extract_password(paras);
    let ghost pw = opt_text(password);
    let ghost ls = links@.map_values(|e: HtmlElement| element_text(e));
    let mut out: Vec<NewChapter> = Vec::new();
    let mut k: usize = 0;
    while k < links.len()
        invariant
            k <= links@.len(),
            ls == links@.map_values(|e: HtmlElement| element_text(e)),
            pw == opt_text(password),
            linked_chapters(out@, ls.subrange(0, k as int), pw, book_id, published_at),
        decreases links@.len() - k,
    {
        let l = &links[k];
        proof {
            assert(ls.subrange(0, k + 1).drop_last() =~= ls.subrange(0, k as int));
            assert(ls.subrange(0, k + 1).last() == element_text(*l));
        }
        if let Some(href) = &l.href {
            if let Some(title) = chapter_title_from_link(href.as_str()) {
                out.push(NewChapter {
                    title: String::from_str(title),
                    metadata: ChapterMetadata::TheWanderingInnPatreon { url: href.clone(), password: clone_opt(&password) },
                    book_id,
                    html: None,
                    epub: None,
                    published_at,
                });
            }
        }
        k = k + 1;
    }
    proof {
        assert(ls.subrange(0, k as int) =~= ls);
    }
    out
}

/// Discovery from Wandering Inn Patreon emails kept in an object bucket.
pub struct WanderingInnPatreonNewChapterProvider;

impl WanderingInnPatreonNewChapterProvider {
    /// The stub chapters announced by one stored email: none unless its
    /// subject mentions the author, and then one per chapter link in its body.
    pub fn chapters_from_email(&self, email: &[u8], book_id: Id, published_at: Option<Timestamp>) -> (r: Result<
        Vec<NewChapter>,
        ProviderError,
    >)
        ensures
            match parsed_email(email@) {
                None => r == Err::<Vec<NewChapter>, ProviderError>(ProviderError::EmailUnreadable),
                Some(m) => if !subject_mentions(m.0, "pirateaba"@) || email_body(m) is None {
                    r matches Ok(v) && v@.len() == 0
                } else {
                    let body = email_body(m)->0;
                    match (selected(body, "div > p"@), selected(body, "div > p a"@)) {
                        (Some(ps), Some(ls)) => r matches Ok(v) && linked_chapters(v@, ls, password_of(ps), book_id, published_at),
                        _ => r == Err::<Vec<NewChapter>, ProviderError>(ProviderError::BadSelector),
                    }
                },
            },
    {
        let m = match parse_email(email) {
            None => { return Err(ProviderError::EmailUnreadable); },
            Some(m) => m,
        };
        if !subject_has(&m.subject, "pirateaba") {
            return Ok(Vec::new());
        }
        let body = match (&m.body, &m.last_part_body) {
            (Some(b), _) => b,
            (None, Some(b)) => b,
            (None, None) => { return Ok(Vec::new()); },
        };
        let paras = match select_elements(body.as_str(), "div > p") {
            None => { return Err(ProviderError::BadSelector); },
            Some(p) => p,
        };
        let links = match select_elements(body.as_str(), "div > p a") {
            None => { return Err(ProviderError::BadSelector); },
            Some(l) => l,
        };
        Ok(chapters_from_elements(&paras, &links, book_id, published_at))
    }
}

/// Body fetching for a Wandering Inn Patreon chapter, behind its password.
pub struct WanderingInnPatreonChapterBodyProvider {
    pub url: String,
    pub password: Option<String>,
}

impl WanderingInnPatreonChapterBodyProvider {
    /// The chapter body in a fetched chapter page: the children of
    /// `div.entry-content` without the navigation.
    pub fn body_from_page(&self, page: &str) -> (r: Result<Vec<u8>, ProviderError>)
        ensures
            entry_body_outcome(selected(page@, "div.entry-content > *"@), false, r),
    {
        match select_elements(page, "div.entry-content > *") {
            None => Err(ProviderError::BadSelector),
            Some(els) => body_from_elements(&els, false),
        }
    }
}

/// Discovery from Apparatus of Change Patreon emails kept in an object bucket.
pub struct ApparatusOfChangePatreonNewChapterProvider;

impl ApparatusOfChangePatreonNewChapterProvider {
    /// The chapter carried by one stored email: none unless its subject
    /// mentions the serial; its body is the post's content block and its
    /// title the subject's quoted part.
    pub fn chapters_from_email(&self, email: &[u8], book_id: Id, published_at: Option<Timestamp>) -> (r: Result<
        Vec<NewChapter>,
        ProviderError,
    >)
        ensures
            match parsed_email(email@) {
                None => r == Err::<Vec<NewChapter>, ProviderError>(ProviderError::EmailUnreadable),
                Some(m) => if !subject_mentions(m.0, "apparatus"@) || email_body(m) is None {
                    r matches Ok(v) && v@.len() == 0
                } else {
                    match selected(email_body(m)->0, "td > div > span > div > div > div > div + div"@) {
                        None => r == Err::<Vec<NewChapter>, ProviderError>(ProviderError::BadSelector),
                        Some(els) => if els.len() == 0 {
                            r == Err::<Vec<NewChapter>, ProviderError>(ProviderError::MissingBody)
                        } else {
                            match title_from_subject(m.0->0) {
                                None => r == Err::<Vec<NewChapter>, ProviderError>(ProviderError::NoTitleInSubject),
                                Some(t) => r matches Ok(v) && v@.len() == 1 && v@[0].title@ == t && v@[0].book_id == book_id
                                    && (v@[0].html matches Some(h) && h@ == encode_utf8(els[0].0)) && v@[0].epub is None
                                    && v@[0].published_at == published_at
                                    && v@[0].metadata is ApparatusOfChangePatreon,
                            }
                        },
                    }
                },
            },
    {
        let m = match parse_email(email) {
            None => { return Err(ProviderError::EmailUnreadable); },
            Some(m) => m,
        };
        if !subject_has(&m.subject, "apparatus") {
            return Ok(Vec::new());
        }
        let body = match (&m.body, &m.last_part_body) {
            (Some(b), _) => b,
            (None, Some(b)) => b,
            (None, None) => { return Ok(Vec::new()); },
        };
        let els = match select_elements(body.as_str(), "td > div > span > div > div > div > div + div") {
            None => { return Err(ProviderError::BadSelector); },
            Some(e) => e,
        };
        if els.len() == 0 {
            return Err(ProviderError::MissingBody);
        }
        let subject = match &m.subject {
            Some(s) => s,
            None => { return Ok(Vec::new()); },
        };
        let title = match chapter_title_from_subject(subject.as_str()) {
            None => { return Err(ProviderError::NoTitleInSubject); },
            Some(t) => String::from_str(t),
        };
        let mut html: Vec<u8> = Vec::new();
        append_bytes(&mut html, els[0].html.as_str().as_bytes());
        let mut out: Vec<NewChapter> = Vec::new();
        out.push(NewChapter {
            title,
            metadata: ChapterMetadata::ApparatusOfChangePatreon,
            book_id,
            html: Some(html),
            epub: None,
            published_at,
        });
        Ok(out)
    }
}

} // verus!
