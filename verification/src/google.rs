//! The search stage: the URL of a results page and the links found in it.

use vstd::prelude::*;
use vstd::string::*;
use crate::text::{
    after, all_after, all_between_strict, begins_with, between_strict, decimal,
    lemma_after_shrinks, lemma_between_shrinks, push_decimal,
};

verus! {

/// The URL of the results page number `page`, counted from zero: a search
/// for pages of the last hour that mention `"gleam.io"`, starting at result
/// `10 * page`.
pub open spec fn search_url(page: nat) -> Seq<char> {
    "https://www.google.com/search?q=\"gleam.io\"&tbs=qdr:h&filter=0&start="@ + decimal(page * 10)
}

/// The URL of the results page number `page`.
pub fn get_full_url(page: usize) -> (r: String)
    ensures
        r@ == search_url(page as nat),
{
    let mut url = String::from_str(
        "https://www.google.com/search?q=\"gleam.io\"&tbs=qdr:h&filter=0&start=",
    );
    let start: u128 = (page as u128) * 10;
    push_decimal(&mut url, start);
    url
}

/// The result links in the text `body` of a results page. A link stands
/// between `"><a href="` and the next quote; it counts as a result where
/// the text behind its first occurrence continues with one of the two
/// attributes that mark a result. The scan goes on behind that occurrence
/// and ends where no further link is found, or at an empty link.
pub open spec fn result_links(body: Seq<char>) -> Seq<Seq<char>>
    decreases body.len(),
{
    match between_strict(body, "\"><a href=\""@, "\""@) {
        None => Seq::empty(),
        Some(link) => {
            let rest = after(body, link);
            if link.len() == 0 || rest.len() >= body.len() {
                Seq::empty()
            } else if is_result(rest) {
                seq![link] + result_links(rest)
            } else {
                result_links(rest)
            }
        },
    }
}

/// Whether the text behind a link marks it as a search result.
pub open spec fn is_result(rest: Seq<char>) -> bool {
    "\" onmousedown=\"return rwt("@.is_prefix_of(rest) || "\" data-ved=\"2a"@.is_prefix_of(rest)
}

/// Finds the result links in the text of a results page.
pub fn find_result_links(body: &str) -> (r: Vec<String>)
    ensures
        r.deep_view() == result_links(body@),
{
    let mut rep: Vec<String> = Vec::new();
    let mut cur = body;
    assert(rep.deep_view() =~= Seq::<Seq<char>>::empty());
    assert(rep.deep_view() + result_links(cur@) =~= result_links(body@));
    loop
        invariant
            result_links(body@) == rep.deep_view() + result_links(cur@),
        ensures
            rep.deep_view() == result_links(body@),
        decreases cur@.len(),
    {
        match all_between_strict(cur, "\"><a href=\"", "\"") {
            None => {
                assert(rep.deep_view() + result_links(cur@) =~= rep.deep_view());
                break ;
            },
            Some(link) => {
                if link.is_empty() {
                    assert(rep.deep_view() + result_links(cur@) =~= rep.deep_view());
                    break ;
                }
                let rest = all_after(cur, link);
                proof {
                    lemma_after_shrinks(cur@, link@);
                    lemma_between_shrinks(cur@, "\"><a href=\""@, "\""@);
                }
                if begins_with(rest, "\" onmousedown=\"return rwt(") || begins_with(
                    rest,
                    "\" data-ved=\"2a",
                ) {
                    let ghost before = rep.deep_view();
                    rep.push(String::from_str(link));
                    proof {
                        assert(rep.deep_view() =~= before.push(link@));
                        assert(rep.deep_view() + result_links(rest@) =~= before + (seq![link@]
                            + result_links(rest@)));
                    }
                }
                cur = rest;
            },
        }
    }
    rep
}

} // verus!
