//! Campaign pages: the key in a campaign URL, the canonical URL, and what a
//! fetched page holds.

use vstd::prelude::*;
use vstd::string::*;
use crate::error::Error;
use crate::record::{CampaignRecord, RecordView};
use crate::text::{
    all_between_strict, begins_with, between_strict, decimal_value, parse_decimal, replace_all,
    replaced,
};

verus! {

/// The campaign key in `url`. A URL of 37 characters that begins with
/// `https://gleam.io/competitions/` carries it in the five characters after
/// that; any other URL of at least 23 characters that begins with
/// `https://gleam.io/` and has a `/` as its 23rd character carries it in the
/// five characters before that `/`.
pub open spec fn gleam_id(url: Seq<char>) -> Option<Seq<char>> {
    if url.len() == 37 && "https://gleam.io/competitions/"@.is_prefix_of(url) {
        Some(url.subrange(30, 35))
    } else if url.len() >= 23 && "https://gleam.io/"@.is_prefix_of(url) && url[22] == '/' {
        Some(url.subrange(17, 22))
    } else {
        None
    }
}

/// The canonical URL of the campaign with the key `key`.
pub open spec fn campaign_url(key: Seq<char>) -> Seq<char> {
    "https://gleam.io/"@ + key + "/-"@
}

/// The host that serves every campaign page.
pub open spec fn campaign_host() -> Seq<char> {
    "gleam.io"@
}

/// The host that serves every campaign page, as the key under which
/// requests for campaign pages are rate-limited.
pub fn host() -> (r: String)
    ensures
        r@ == campaign_host(),
{
    String::from_str("gleam.io")
}

/// Extracts the campaign key from a campaign URL.
pub fn get_gleam_id(url: &str) -> (r: Option<&str>)
    ensures
        match r {
            Some(id) => gleam_id(url@) == Some(id@),
            None => gleam_id(url@) is None,
        },
{
    let n = url.unicode_len();
    if n == 37 && begins_with(url, "https://gleam.io/competitions/") {
        Some(url.substring_char(30, 35))
    } else if n >= 23 && begins_with(url, "https://gleam.io/") && url.get_char(22) == '/' {
        Some(url.substring_char(17, 22))
    } else {
        None
    }
}

/// The canonical URL of the campaign with the key `key`.
pub fn canonical_url(key: &str) -> (r: String)
    ensures
        r@ == campaign_url(key@),
{
    let mut url = String::from_str("https://gleam.io/");
    url.append(key);
    url.append("/-");
    url
}

/// The URL to request in order to fetch the campaign that `url` names, or
/// `InvalidResponse` where `url` carries no campaign key.
pub fn request_url(url: &str) -> (r: Result<String, Error>)
    ensures
        match r {
            Ok(request) => gleam_id(url@) is Some && request@ == campaign_url(gleam_id(url@)->0),
            Err(e) => gleam_id(url@) is None && e == Error::InvalidResponse,
        },
{
    match get_gleam_id(url) {
        Some(id) => Ok(canonical_url(id)),
        None => Err(Error::InvalidResponse),
    }
}

/// What a campaign page holds, as far as it is read here.
#[derive(Debug, PartialEq, Eq)]
pub struct CampaignPage {
    /// The campaign description, a JSON text, with its quotes restored.
    pub json: String,
    /// The number of entries, where the page gives one.
    pub entry_count: Option<u64>,
}

/// The campaign description embedded in the page `body`: what stands between
/// the opening of the campaign block and its end, with every `&quot;`
/// turned back into a quote.
pub open spec fn page_json(body: Seq<char>) -> Option<Seq<char>> {
    match between_strict(
        body,
        "<div class='popup-blocks-container' ng-init='initCampaign("@,
        ")'>"@,
    ) {
        Some(raw) => Some(replace_all(raw, "&quot;"@, "\""@)),
        None => None,
    }
}

/// The entry count given in the page `body`: the unsigned decimal numeral
/// between `initEntryCount(` and the next `)`, where there is one.
pub open spec fn page_entry_count(body: Seq<char>) -> Option<u64> {
    match between_strict(body, "initEntryCount("@, ")"@) {
        Some(digits) => decimal_value(digits),
        None => None,
    }
}

/// Reads a fetched campaign page. A page without a campaign block is an
/// `InvalidResponse`; an entry count that is missing or unreadable is left
/// out.
pub fn read_page(body: &str) -> (r: Result<CampaignPage, Error>)
    ensures
        match r {
            Ok(page) => page_json(body@) == Some(page.json@) && page.entry_count
                == page_entry_count(body@),
            Err(e) => page_json(body@) is None && e == Error::InvalidResponse,
        },
{
    match all_between_strict(
        body,
        "<div class='popup-blocks-container' ng-init='initCampaign(",
        ")'>",
    ) {
        Some(raw) => {
            proof {
                reveal_strlit("&quot;");
            }
            let json = replaced(raw, "&quot;", "\"");
            let entry_count = match all_between_strict(body, "initEntryCount(", ")") {
                Some(digits) => parse_decimal(digits),
                None => None,
            };
            Ok(CampaignPage { json, entry_count })
        },
        None => Err(Error::InvalidResponse),
    }
}

/// The record of a campaign fetched at `now` from `url`, with the
/// description and entry count of `page` and the expiry `ends_at` decoded
/// from the description. The record is stored under the key that `url`
/// carries and names its own canonical URL as its referer; where the page
/// gave an entry count, the history starts with it.
pub open spec fn fetched(url: Seq<char>, page: CampaignPage, ends_at: Option<u64>, now: u64) -> RecordView {
    RecordView {
        key: gleam_id(url)->0,
        url: campaign_url(gleam_id(url)->0),
        referers: seq![campaign_url(gleam_id(url)->0)],
        last_updated: now,
        ends_at: ends_at,
        entry_count: page.entry_count,
        entry_history: match page.entry_count {
            Some(count) => Some(seq![(now, count)]),
            None => None,
        },
        details: page.json@,
    }
}

/// Builds the record of a campaign fetched at `now` from `url`, or
/// `InvalidResponse` where `url` carries no campaign key.
pub fn new_record(url: &str, page: CampaignPage, ends_at: Option<u64>, now: u64) -> (r: Result<
    CampaignRecord,
    Error,
>)
    ensures
        match r {
            Ok(record) => gleam_id(url@) is Some && record@ == fetched(url@, page, ends_at, now),
            Err(e) => gleam_id(url@) is None && e == Error::InvalidResponse,
        },
{
    match get_gleam_id(url) {
        Some(id) => {
            let mut referers: Vec<String> = Vec::new();
            referers.push(canonical_url(id));
            let entry_history = match page.entry_count {
                Some(count) => {
                    let mut history: Vec<(u64, u64)> = Vec::new();
                    history.push((now, count));
                    assert(history@ =~= seq![(now, count)]);
                    Some(history)
                },
                None => None,
            };
            let record = CampaignRecord {
                key: String::from_str(id),
                url: canonical_url(id),
                referers,
                last_updated: now,
                ends_at,
                entry_count: page.entry_count,
                entry_history,
                details: page.json,
            };
            assert(record.referers.deep_view() =~= seq![campaign_url(id@)]);
            Ok(record)
        },
        None => Err(Error::InvalidResponse),
    }
}

} // verus!
