//! One discovered campaign and its mathematical value.

use vstd::prelude::*;

verus! {

/// The value of a [`CampaignRecord`]: what contracts speak of.
pub struct RecordView {
    pub key: Seq<char>,
    pub url: Seq<char>,
    pub referers: Seq<Seq<char>>,
    pub last_updated: u64,
    pub ends_at: Option<u64>,
    pub entry_count: Option<u64>,
    pub entry_history: Option<Seq<(u64, u64)>>,
    pub details: Seq<char>,
}

impl RecordView {
    /// A record is active at `now` while its expiry is unknown or still ahead.
    pub open spec fn active(self, now: u64) -> bool {
        match self.ends_at {
            None => true,
            Some(end) => end > now,
        }
    }

    /// A record is worth re-fetching while it was last updated before its
    /// expiry; an unknown expiry counts as still ahead.
    pub open spec fn refreshable(self) -> bool {
        self.active(self.last_updated)
    }
}

/// One promotional campaign as stored between cycles.
#[derive(Debug, PartialEq, Eq)]
pub struct CampaignRecord {
    /// Identifier taken from the campaign URL; never reassigned.
    pub key: String,
    /// Canonical campaign URL.
    pub url: String,
    /// Pages that led to the campaign, each at most once.
    pub referers: Vec<String>,
    /// When the detail fields were last fetched.
    pub last_updated: u64,
    /// Campaign expiry; unknown until the first detail fetch.
    pub ends_at: Option<u64>,
    /// Number of entries seen at the last fetch, where the page gave one.
    pub entry_count: Option<u64>,
    /// Samples of the entry count, each a timestamp and the count seen then.
    pub entry_history: Option<Vec<(u64, u64)>>,
    /// The campaign description as fetched; carried along unread.
    pub details: String,
}

impl View for CampaignRecord {
    type V = RecordView;

    open spec fn view(&self) -> RecordView {
        RecordView {
            key: self.key@,
            url: self.url@,
            referers: self.referers.deep_view(),
            last_updated: self.last_updated,
            ends_at: self.ends_at,
            entry_count: self.entry_count,
            entry_history: match self.entry_history {
                None => None,
                Some(h) => Some(h@),
            },
            details: self.details@,
        }
    }
}

/// Whether `text` occurs in `list`.
pub fn contains_text(list: &Vec<String>, text: &String) -> (r: bool)
    ensures
        r == list.deep_view().contains(text@),
{
    let mut i: usize = 0;
    while i < list.len()
        invariant
            i <= list.len(),
            forall|j: int| 0 <= j < i ==> list.deep_view()[j] != text@,
        decreases list.len() - i,
    {
        assert(list.deep_view()[i as int] == list[i as int]@);
        if list[i] == *text {
            return true;
        }
        i += 1;
    }
    false
}

/// A copy of `list` with the same texts in the same order.
pub fn copy_texts(list: &Vec<String>) -> (r: Vec<String>)
    ensures
        r.deep_view() == list.deep_view(),
{
    let mut out: Vec<String> = Vec::new();
    let mut i: usize = 0;
    while i < list.len()
        invariant
            i <= list.len(),
            out.len() == i,
            forall|j: int| 0 <= j < i ==> out[j]@ == list[j]@,
        decreases list.len() - i,
    {
        out.push(list[i].clone());
        i += 1;
    }
    assert(out.deep_view() =~= list.deep_view());
    out
}

impl Clone for CampaignRecord {
    fn clone(&self) -> (r: Self)
        ensures
            r@ == self@,
    {
        let history = match &self.entry_history {
            None => None,
            Some(h) => {
                let mut copy: Vec<(u64, u64)> = Vec::new();
                let mut i: usize = 0;
                while i < h.len()
                    invariant
                        i <= h.len(),
                        copy@ == h@.subrange(0, i as int),
                    decreases h.len() - i,
                {
                    copy.push(h[i]);
                    assert(copy@ =~= h@.subrange(0, i + 1));
                    i += 1;
                }
                assert(copy@ =~= h@);
                Some(copy)
            },
        };
        CampaignRecord {
            key: self.key.clone(),
            url: self.url.clone(),
            referers: copy_texts(&self.referers),
            last_updated: self.last_updated,
            ends_at: self.ends_at,
            entry_count: self.entry_count,
            entry_history: history,
            details: self.details.clone(),
        }
    }
}

impl CampaignRecord {
    /// A record for a campaign that was found but not fetched yet: no
    /// referers, no expiry, no entry counts, no description.
    pub fn new(key: String, url: String) -> (r: Self)
        ensures
            r@ == (RecordView {
                key: key@,
                url: url@,
                referers: Seq::empty(),
                last_updated: 0,
                ends_at: None,
                entry_count: None,
                entry_history: None,
                details: Seq::empty(),
            }),
    {
        let r = CampaignRecord {
            key,
            url,
            referers: Vec::new(),
            last_updated: 0,
            ends_at: None,
            entry_count: None,
            entry_history: None,
            details: String::new(),
        };
        assert(r.referers.deep_view() =~= Seq::<Seq<char>>::empty());
        r
    }

    /// Whether the campaign is still running at `now`.
    pub fn is_active(&self, now: u64) -> (r: bool)
        ensures
            r == self@.active(now),
    {
        match self.ends_at {
            None => true,
            Some(end) => end > now,
        }
    }

    /// Whether the record may be chosen for a refresh.
    pub fn is_refreshable(&self) -> (r: bool)
        ensures
            r == self@.refreshable(),
    {
        self.is_active(self.last_updated)
    }

    /// Records `referer` as a page that led here. A referer already present
    /// is not added again; none is ever removed.
    pub fn add_referer(&mut self, referer: String)
        ensures
            final(self)@.referers == if old(self)@.referers.contains(referer@) {
                old(self)@.referers
            } else {
                old(self)@.referers.push(referer@)
            },
            final(self)@ == (RecordView { referers: final(self)@.referers, ..old(self)@ }),
    {
        if !contains_text(&self.referers, &referer) {
            self.referers.push(referer);
            assert(self.referers.deep_view() =~= old(self).referers.deep_view().push(referer@));
        }
    }
}

} // verus!
