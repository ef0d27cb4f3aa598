//! Intermediary pages: the pages that a search leads to, their hosts, and
//! the campaign links found in their text.

use vstd::prelude::*;
use vstd::string::*;
use crate::gleam::{campaign_url, canonical_url, get_gleam_id, gleam_id};
use crate::record::contains_text;
use crate::text::{after, all_after, lemma_after_shrinks};

verus! {

/// The host that the `url` crate finds in `url`, as that crate serialises
/// it: a domain as it stands in the parsed URL, an IPv4 address as four
/// decimal numbers, an IPv6 address between brackets. `None` where `url`
/// does not parse or has no host.
pub uninterp spec fn url_host(url: Seq<char>) -> Option<Seq<char>>;

/// The host of `url`.
///
/// Trusted: calls `url::Url::parse` and, on the parsed URL,
/// `Url::host_str`, and copies the text that comes back. Both depend on
/// the text of `url` alone.
#[verifier::external_body]
fn parse_host(url: &str) -> (r: Option<String>)
    ensures
        match r {
            Some(host) => url_host(url@) == Some(host@),
            None => url_host(url@) is None,
        },
{
    match url::Url::parse(url) {
        Ok(parsed) => match parsed.host_str() {
            Some(host) => Some(host.to_string()),
            None => None,
        },
        Err(_) => None,
    }
}

/// The host under which a page is rate-limited: the one found in its URL,
/// or `undefined` where none is found.
pub open spec fn host_or_undefined(found: Option<Seq<char>>) -> Seq<char> {
    match found {
        Some(host) => host,
        None => "undefined"@,
    }
}

/// Picks the host under which a page is rate-limited from what was found in
/// its URL.
pub fn host_name(found: Option<String>) -> (r: String)
    ensures
        r@ == host_or_undefined(
            match found {
                Some(host) => Some(host@),
                None => None,
            },
        ),
{
    match found {
        Some(host) => host,
        None => String::from_str("undefined"),
    }
}

/// A page that may link to campaigns, with the host it is served from.
#[derive(Debug, PartialEq, Eq)]
pub struct IntermediaryUrl {
    url: String,
    host: String,
}

/// The value of an [`IntermediaryUrl`].
pub struct PageView {
    pub url: Seq<char>,
    pub host: Seq<char>,
}

impl View for IntermediaryUrl {
    type V = PageView;

    closed spec fn view(&self) -> PageView {
        PageView { url: self.url@, host: self.host@ }
    }
}

/// The values of a list of pages.
pub open spec fn page_views(pages: Seq<IntermediaryUrl>) -> Seq<PageView> {
    Seq::new(pages.len(), |i: int| pages[i]@)
}

/// The pages for the URLs `urls`, in the same order.
pub open spec fn pages_of(urls: Seq<Seq<char>>) -> Seq<PageView> {
    Seq::new(
        urls.len(),
        |i: int| PageView { url: urls[i], host: host_or_undefined(url_host(urls[i])) },
    )
}

impl IntermediaryUrl {
    /// The page at `url`, under the host found in `url`.
    pub fn new(url: String) -> (r: Self)
        ensures
            r@.url == url@,
            r@.host == host_or_undefined(url_host(url@)),
    {
        let mut page = IntermediaryUrl { url, host: String::new() };
        page.init();
        page
    }

    /// The pages at `urls`, in the same order.
    pub fn new_from_vec(urls: Vec<String>) -> (r: Vec<Self>)
        ensures
            page_views(r@) == pages_of(urls.deep_view()),
    {
        let mut result: Vec<Self> = Vec::new();
        let mut i: usize = 0;
        while i < urls.len()
            invariant
                i <= urls.len(),
                result.len() == i,
                forall|j: int|
                    0 <= j < i ==> (#[trigger] result[j])@ == (PageView {
                        url: urls[j]@,
                        host: host_or_undefined(url_host(urls[j]@)),
                    }),
            decreases urls.len() - i,
        {
            result.push(IntermediaryUrl::new(urls[i].clone()));
            i += 1;
        }
        assert(page_views(result@) =~= pages_of(urls.deep_view()));
        result
    }

    /// Looks for the host in the page's URL again.
    pub fn init(&mut self)
        ensures
            final(self)@.url == old(self)@.url,
            final(self)@.host == host_or_undefined(url_host(old(self)@.url)),
    {
        self.host = host_name(parse_host(self.url.as_str()));
    }

    /// The host under which the page is rate-limited.
    pub fn get_host(&self) -> (r: &String)
        ensures
            r@ == self@.host,
    {
        &self.host
    }

    /// The page's URL.
    pub fn get_url(&self) -> (r: &str)
        ensures
            r@ == self@.url,
    {
        self.url.as_str()
    }
}

/// Whether `c` may stand in the path of a campaign link: an ASCII letter or
/// digit, `-`, `/` or `_`.
pub open spec fn path_char(c: char) -> bool {
    ('a' <= c && c <= 'z') || ('A' <= c && c <= 'Z') || ('0' <= c && c <= '9') || c == '-' || c
        == '/' || c == '_'
}

/// Whether `head` is the longest beginning of `text` made of path
/// characters.
pub open spec fn is_path_prefix(text: Seq<char>, head: Seq<char>) -> bool {
    &&& head.is_prefix_of(text)
    &&& forall|i: int| 0 <= i < head.len() ==> path_char(#[trigger] head[i])
    &&& head.len() < text.len() ==> !path_char(text[head.len() as int])
}

/// The longest beginning of `text` made of path characters.
pub open spec fn path_prefix(text: Seq<char>) -> Seq<char>
    decreases text.len(),
{
    if text.len() == 0 || !path_char(text[0]) {
        Seq::empty()
    } else {
        seq![text[0]] + path_prefix(text.drop_first())
    }
}

/// `path_prefix` is the one text that `is_path_prefix` describes.
pub proof fn lemma_path_prefix(text: Seq<char>, head: Seq<char>)
    requires
        is_path_prefix(text, head),
    ensures
        head == path_prefix(text),
    decreases text.len(),
{
    if text.len() == 0 || !path_char(text[0]) {
        if head.len() > 0 {
            assert(head[0] == text.subrange(0, head.len() as int)[0]);
            assert(path_char(head[0]));
        }
        assert(head =~= Seq::<char>::empty());
    } else {
        assert(head.len() > 0);
        let tail = head.drop_first();
        let rest = text.drop_first();
        assert(tail =~= rest.subrange(0, tail.len() as int)) by {
            assert forall|i: int| 0 <= i < tail.len() implies tail[i] == rest[i] by {
                assert(head[i + 1] == text.subrange(0, head.len() as int)[i + 1]);
            }
        }
        assert forall|i: int| 0 <= i < tail.len() implies path_char(#[trigger] tail[i]) by {
            assert(path_char(head[i + 1]));
        }
        lemma_path_prefix(rest, tail);
        assert(head[0] == text.subrange(0, head.len() as int)[0]);
        assert(head =~= seq![text[0]] + tail);
    }
}

/// Whether `c` may stand in the path of a campaign link.
fn is_path_char(c: char) -> (r: bool)
    ensures
        r == path_char(c),
{
    ('a' <= c && c <= 'z') || ('A' <= c && c <= 'Z') || ('0' <= c && c <= '9') || c == '-' || c
        == '/' || c == '_'
}

/// The path at the start of `url`: everything before the first character
/// that is no ASCII letter or digit, `-`, `/` or `_`.
pub fn get_url(url: &str) -> (r: &str)
    ensures
        r@ == path_prefix(url@),
        is_path_prefix(url@, r@),
{
    let n = url.unicode_len();
    let mut i: usize = 0;
    while i < n && is_path_char(url.get_char(i))
        invariant
            i <= n,
            n == url@.len(),
            forall|j: int| 0 <= j < i ==> path_char(#[trigger] url@[j]),
        decreases n - i,
    {
        i += 1;
    }
    let head = url.substring_char(0, i);
    proof {
        lemma_path_prefix(url@, head@);
    }
    head
}

/// The link that a path found behind `https://gleam.io/` stands for: the
/// path cut to twenty characters, behind that prefix again; none for an
/// empty path.
pub open spec fn link_of(path: Seq<char>) -> Option<Seq<char>> {
    if path.len() >= 20 {
        Some("https://gleam.io/"@ + path.subrange(0, 20))
    } else if path.len() > 0 {
        Some("https://gleam.io/"@ + path)
    } else {
        None
    }
}

/// The links found in `body`, in the order of the text and with
/// repetitions: one for each `https://gleam.io/` that is followed by a
/// path. The search ends at an occurrence that nothing follows.
pub open spec fn raw_links(body: Seq<char>) -> Seq<Seq<char>>
    decreases body.len(),
{
    let rest = after(body, "https://gleam.io/"@);
    if rest.len() == 0 || rest.len() >= body.len() {
        Seq::empty()
    } else {
        match link_of(path_prefix(rest)) {
            Some(link) => seq![link] + raw_links(rest),
            None => raw_links(rest),
        }
    }
}

/// `links` without repetitions: each text where it first occurs.
pub open spec fn without_repeats(links: Seq<Seq<char>>) -> Seq<Seq<char>>
    decreases links.len(),
{
    if links.len() == 0 {
        Seq::empty()
    } else {
        let head = without_repeats(links.drop_last());
        if head.contains(links.last()) {
            head
        } else {
            head.push(links.last())
        }
    }
}

/// The canonical URLs of the campaigns that `links` name, in the same
/// order; a link that carries no campaign key is left out.
pub open spec fn canonical_links(links: Seq<Seq<char>>) -> Seq<Seq<char>>
    decreases links.len(),
{
    if links.len() == 0 {
        Seq::empty()
    } else {
        let head = canonical_links(links.drop_last());
        match gleam_id(links.last()) {
            Some(id) => head.push(campaign_url(id)),
            None => head,
        }
    }
}

/// The campaign URLs that the page `body` links to.
pub open spec fn campaign_links(body: Seq<char>) -> Seq<Seq<char>> {
    canonical_links(without_repeats(raw_links(body)))
}

/// The link that `path` stands for.
fn link_for(path: &str) -> (r: Option<String>)
    ensures
        match r {
            Some(link) => link_of(path@) == Some(link@),
            None => link_of(path@) is None,
        },
{
    let n = path.unicode_len();
    if n >= 20 {
        let mut link = String::from_str("https://gleam.io/");
        link.append(path.substring_char(0, 20));
        Some(link)
    } else if n > 0 {
        let mut link = String::from_str("https://gleam.io/");
        link.append(path);
        Some(link)
    } else {
        None
    }
}

/// Finds the campaigns that an intermediary page links to. Every
/// `https://gleam.io/` in `body` that a path follows gives a link; a link
/// that was seen before is dropped; each remaining link that carries a
/// campaign key gives that campaign's canonical URL.
pub fn find_campaign_links(body: &str) -> (r: Vec<String>)
    ensures
        r.deep_view() == campaign_links(body@),
{
    let mut rep: Vec<String> = Vec::new();
    let mut cur = body;
    let ghost mut seen: Seq<Seq<char>> = Seq::empty();
    proof {
        reveal_strlit("https://gleam.io/");
        assert(seen + raw_links(cur@) =~= raw_links(body@));
    }
    loop
        invariant
            "https://gleam.io/"@.len() == 17,
            raw_links(body@) == seen + raw_links(cur@),
            rep.deep_view() == without_repeats(seen),
        ensures
            rep.deep_view() == without_repeats(raw_links(body@)),
        decreases cur@.len(),
    {
        let rest = all_after(cur, "https://gleam.io/");
        proof {
            lemma_after_shrinks(cur@, "https://gleam.io/"@);
        }
        if rest.is_empty() {
            assert(seen + raw_links(cur@) =~= seen);
            break ;
        }
        let path = get_url(rest);
        match link_for(path) {
            Some(link) => {
                proof {
                    let next = seen.push(link@);
                    assert(next.drop_last() =~= seen);
                    assert(next + raw_links(rest@) =~= seen + (seq![link@] + raw_links(rest@)));
                    seen = next;
                }
                if !contains_text(&rep, &link) {
                    let ghost before = rep.deep_view();
                    rep.push(link);
                    assert(rep.deep_view() =~= before.push(link@));
                }
            },
            None => {},
        }
        cur = rest;
    }
    let mut result: Vec<String> = Vec::new();
    let mut i: usize = 0;
    while i < rep.len()
        invariant
            i <= rep.len(),
            result.deep_view() == canonical_links(rep.deep_view().subrange(0, i as int)),
        decreases rep.len() - i,
    {
        let ghost upto = rep.deep_view().subrange(0, i + 1);
        proof {
            assert(upto.drop_last() =~= rep.deep_view().subrange(0, i as int));
            assert(upto.last() == rep[i as int]@);
        }
        match get_gleam_id(rep[i].as_str()) {
            Some(id) => {
                let ghost before = result.deep_view();
                result.push(canonical_url(id));
                assert(result.deep_view() =~= before.push(campaign_url(id@)));
            },
            None => {},
        }
        i += 1;
    }
    assert(rep.deep_view().subrange(0, rep.len() as int) =~= rep.deep_view());
    result
}

} // verus!
