//! The discovery pipeline: search, then resolve, then fetch.
//!
//! The pipeline decides; the caller acts. Each call of [`Pipeline::step`]
//! takes the result of the request that the pipeline last asked for and
//! returns the next request together with the time before which it must not
//! be sent. Search pages are requested until one comes back empty or fails;
//! then every page found is resolved in turn; the campaigns that a page
//! links to are fetched before the next page is resolved. No failure ends
//! the run early.

use vstd::prelude::*;
use vstd::string::*;
use crate::error::Error;
use crate::gleam::{campaign_host, host};
use crate::intermediary::{page_views, pages_of, IntermediaryUrl, PageView};
use crate::limiter::{LimiterView, RateLimiter};
use crate::record::{CampaignRecord, RecordView};
use crate::store::RecordStore;

verus! {

/// What the pipeline is waiting for.
#[derive(Debug, Clone, Copy, PartialEq, Eq, Structural)]
pub enum Stage {
    /// Nothing was requested yet.
    Idle,
    /// A page of search results.
    Search,
    /// The campaign links of a page.
    Resolve,
    /// A campaign.
    Fetch,
    /// Nothing: the run is over.
    Done,
}

/// The result of a request, handed to the pipeline.
#[derive(Debug)]
pub enum Event {
    /// The run begins.
    Start,
    /// The links of the search page that was asked for.
    Searched(Result<Vec<String>, Error>),
    /// The campaign URLs linked from the page that was asked for.
    Resolved(Result<Vec<String>, Error>),
    /// The campaign that was asked for.
    Fetched(Result<CampaignRecord, Error>),
}

/// The value of an [`Event`].
pub enum EventView {
    Start,
    Searched(Result<Seq<Seq<char>>, Error>),
    Resolved(Result<Seq<Seq<char>>, Error>),
    Fetched(Result<RecordView, Error>),
}

impl View for Event {
    type V = EventView;

    open spec fn view(&self) -> EventView {
        match self {
            Event::Start => EventView::Start,
            Event::Searched(Ok(links)) => EventView::Searched(Ok(links.deep_view())),
            Event::Searched(Err(e)) => EventView::Searched(Err(*e)),
            Event::Resolved(Ok(links)) => EventView::Resolved(Ok(links.deep_view())),
            Event::Resolved(Err(e)) => EventView::Resolved(Err(*e)),
            Event::Fetched(Ok(record)) => EventView::Fetched(Ok(record@)),
            Event::Fetched(Err(e)) => EventView::Fetched(Err(*e)),
        }
    }
}

/// What the caller does next. A request is sent no earlier than its
/// `not_before`, and its result comes back as the matching [`Event`].
#[derive(Debug, PartialEq, Eq)]
pub enum Action {
    /// Request the search page number `page`.
    Search { page: usize, not_before: u64 },
    /// Request the page at `url` and look for campaign links in it.
    Resolve { url: String, not_before: u64 },
    /// Request the campaign at `url`.
    Fetch { url: String, not_before: u64 },
    /// The run is over; the discoveries can be taken.
    Finished,
    /// The event was not the one waited for; nothing changed.
    Ignored,
}

/// The value of an [`Action`].
pub enum ActionView {
    Search { page: usize, not_before: u64 },
    Resolve { url: Seq<char>, not_before: u64 },
    Fetch { url: Seq<char>, not_before: u64 },
    Finished,
    Ignored,
}

impl View for Action {
    type V = ActionView;

    open spec fn view(&self) -> ActionView {
        match self {
            Action::Search { page, not_before } => ActionView::Search {
                page: *page,
                not_before: *not_before,
            },
            Action::Resolve { url, not_before } => ActionView::Resolve {
                url: url@,
                not_before: *not_before,
            },
            Action::Fetch { url, not_before } => ActionView::Fetch {
                url: url@,
                not_before: *not_before,
            },
            Action::Finished => ActionView::Finished,
            Action::Ignored => ActionView::Ignored,
        }
    }
}

/// The host that serves the search pages.
pub open spec fn search_host() -> Seq<char> {
    "www.google.com"@
}

/// The value of a [`Pipeline`].
pub struct PipelineView {
    /// Whether campaigns are only listed, not fetched.
    pub fast: bool,
    pub stage: Stage,
    /// Number of the search page that was last asked for.
    pub page: usize,
    /// The pages found by the search so far.
    pub pages: Seq<PageView>,
    /// Position of the page that is resolved, or whose campaigns are
    /// fetched.
    pub page_index: usize,
    /// The campaigns linked from that page.
    pub campaigns: Seq<Seq<char>>,
    /// Position of the campaign that is fetched.
    pub campaign_index: usize,
    /// The campaigns fetched so far, by key.
    pub found: Map<Seq<char>, RecordView>,
}

/// A step of the pipeline: its next state, what the caller does next, and
/// the two rate limiters afterwards.
pub struct Step {
    pub state: PipelineView,
    pub action: ActionView,
    pub hosts: LimiterView,
    pub detail: LimiterView,
}

/// The links of a result; none where the request failed.
pub open spec fn links_or_none(result: Result<Seq<Seq<char>>, Error>) -> Seq<Seq<char>> {
    match result {
        Ok(links) => links,
        Err(_) => Seq::empty(),
    }
}

impl PipelineView {
    /// The pipeline's invariant: it waits for a page or a campaign that
    /// exists.
    pub open spec fn wf(self) -> bool {
        &&& self.stage == Stage::Resolve ==> self.page_index < self.pages.len()
        &&& self.stage == Stage::Fetch ==> self.page_index < self.pages.len() && self.campaign_index
            < self.campaigns.len()
    }

    /// Asks for the search page number `page`, once the limiter `hosts`
    /// permits a request to the search host.
    pub open spec fn search(self, page: usize, hosts: LimiterView, detail: LimiterView, now: u64) -> Step {
        Step {
            state: PipelineView { stage: Stage::Search, page: page, ..self },
            action: ActionView::Search { page: page, not_before: hosts.granted(search_host(), now) },
            hosts: hosts.after(search_host(), now),
            detail: detail,
        }
    }

    /// Turns to the page at `index`: asks to resolve it, once the limiter
    /// `hosts` permits a request to its host. Behind the last page the run
    /// is over.
    pub open spec fn resolve(self, index: usize, hosts: LimiterView, detail: LimiterView, now: u64) -> Step {
        if index < self.pages.len() {
            Step {
                state: PipelineView {
                    stage: Stage::Resolve,
                    page_index: index,
                    campaigns: Seq::empty(),
                    campaign_index: 0,
                    ..self
                },
                action: ActionView::Resolve {
                    url: self.pages[index as int].url,
                    not_before: hosts.granted(self.pages[index as int].host, now),
                },
                hosts: hosts.after(self.pages[index as int].host, now),
                detail: detail,
            }
        } else {
            Step {
                state: PipelineView {
                    stage: Stage::Done,
                    page_index: index,
                    campaigns: Seq::empty(),
                    campaign_index: 0,
                    ..self
                },
                action: ActionView::Finished,
                hosts: hosts,
                detail: detail,
            }
        }
    }

    /// Turns to the campaign at `index` of the current page: asks to fetch
    /// it, once the limiter `detail` permits a request to the campaign
    /// host. Behind the last campaign the next page is resolved.
    pub open spec fn fetch(self, index: usize, hosts: LimiterView, detail: LimiterView, now: u64) -> Step {
        if index < self.campaigns.len() {
            Step {
                state: PipelineView { stage: Stage::Fetch, campaign_index: index, ..self },
                action: ActionView::Fetch {
                    url: self.campaigns[index as int],
                    not_before: detail.granted(campaign_host(), now),
                },
                hosts: hosts,
                detail: detail.after(campaign_host(), now),
            }
        } else {
            self.resolve((self.page_index + 1) as usize, hosts, detail, now)
        }
    }

    /// The step taken when `event` arrives at `now`.
    ///
    /// At the start the first search page is asked for. A search page with
    /// links adds them to the pages to resolve and the next search page is
    /// asked for; an empty or failed one ends the search and the first page
    /// is resolved. A resolved page with links has its campaigns fetched one
    /// by one, unless campaigns are only listed; a page without links, or
    /// one that failed, is passed over. A fetched campaign is recorded under
    /// its key, in place of an earlier record of that key; a failed fetch
    /// is passed over. An event that is not the one waited for is ignored.
    pub open spec fn next(self, event: EventView, hosts: LimiterView, detail: LimiterView, now: u64) -> Step {
        match (self.stage, event) {
            (Stage::Idle, EventView::Start) => self.search(0, hosts, detail, now),
            (Stage::Search, EventView::Searched(result)) => {
                let links = links_or_none(result);
                let grown = PipelineView { pages: self.pages + pages_of(links), ..self };
                if links.len() > 0 && self.page < usize::MAX {
                    grown.search((self.page + 1) as usize, hosts, detail, now)
                } else {
                    grown.resolve(0, hosts, detail, now)
                }
            },
            (Stage::Resolve, EventView::Resolved(result)) => {
                let links = links_or_none(result);
                if self.fast {
                    self.resolve((self.page_index + 1) as usize, hosts, detail, now)
                } else {
                    (PipelineView { campaigns: links, ..self }).fetch(0, hosts, detail, now)
                }
            },
            (Stage::Fetch, EventView::Fetched(result)) => {
                let kept = match result {
                    Ok(record) => PipelineView {
                        found: self.found.insert(record.key, record),
                        ..self
                    },
                    Err(_) => self,
                };
                kept.fetch((self.campaign_index + 1) as usize, hosts, detail, now)
            },
            _ => Step { state: self, action: ActionView::Ignored, hosts: hosts, detail: detail },
        }
    }
}

/// One run of discovery.
#[derive(Debug)]
pub struct Pipeline {
    fast: bool,
    stage: Stage,
    page: usize,
    pages: Vec<IntermediaryUrl>,
    page_index: usize,
    campaigns: Vec<String>,
    campaign_index: usize,
    found: RecordStore,
}

impl View for Pipeline {
    type V = PipelineView;

    closed spec fn view(&self) -> PipelineView {
        PipelineView {
            fast: self.fast,
            stage: self.stage,
            page: self.page,
            pages: page_views(self.pages@),
            page_index: self.page_index,
            campaigns: self.campaigns.deep_view(),
            campaign_index: self.campaign_index,
            found: self.found@,
        }
    }
}

impl Pipeline {
    /// The pipeline's invariant.
    pub closed spec fn wf(&self) -> bool {
        &&& self@.wf()
        &&& self.found.wf()
    }

    /// A run that has not begun. With `fast`, campaigns are only listed by
    /// the resolve stage and none is fetched.
    pub fn new(fast: bool) -> (r: Self)
        ensures
            r.wf(),
            r@ == (PipelineView {
                fast,
                stage: Stage::Idle,
                page: 0,
                pages: Seq::empty(),
                page_index: 0,
                campaigns: Seq::empty(),
                campaign_index: 0,
                found: Map::empty(),
            }),
    {
        let r = Pipeline {
            fast,
            stage: Stage::Idle,
            page: 0,
            pages: Vec::new(),
            page_index: 0,
            campaigns: Vec::new(),
            campaign_index: 0,
            found: RecordStore::new(),
        };
        assert(page_views(r.pages@) =~= Seq::<PageView>::empty());
        assert(r.campaigns.deep_view() =~= Seq::<Seq<char>>::empty());
        r
    }

    /// What the pipeline is waiting for.
    pub fn stage(&self) -> (r: Stage)
        ensures
            r == self@.stage,
    {
        self.stage
    }

    /// The campaigns fetched so far.
    pub fn found(&self) -> (r: &RecordStore)
        requires
            self.wf(),
        ensures
            r.wf(),
            r@ == self@.found,
    {
        &self.found
    }

    /// Ends the run and hands out the campaigns fetched in it.
    pub fn into_found(self) -> (r: RecordStore)
        requires
            self.wf(),
        ensures
            r.wf(),
            r@ == self@.found,
    {
        self.found
    }

    /// The URLs of the pages found by the search so far.
    pub fn candidates(&self) -> (r: Vec<String>)
        ensures
            r.deep_view() == Seq::new(self@.pages.len(), |i: int| self@.pages[i].url),
    {
        let mut out: Vec<String> = Vec::new();
        let mut i: usize = 0;
        while i < self.pages.len()
            invariant
                i <= self.pages.len(),
                out.len() == i,
                forall|j: int| 0 <= j < i ==> (#[trigger] out[j])@ == self.pages[j]@.url,
            decreases self.pages.len() - i,
        {
            out.push(String::from_str(self.pages[i].get_url()));
            i += 1;
        }
        assert(out.deep_view() =~= Seq::new(self@.pages.len(), |i: int| self@.pages[i].url));
        out
    }

    /// Asks for the search page number `page`.
    fn search(&mut self, page: usize, hosts: &mut RateLimiter, now: u64) -> (action: Action)
        requires
            old(self).wf(),
            old(hosts).wf(),
        ensures
            final(self).wf(),
            final(hosts).wf(),
            final(self)@ == old(self)@.search(page, old(hosts)@, old(hosts)@, now).state,
            action@ == old(self)@.search(page, old(hosts)@, old(hosts)@, now).action,
            final(hosts)@ == old(self)@.search(page, old(hosts)@, old(hosts)@, now).hosts,
    {
        let not_before = hosts.acquire(&String::from_str("www.google.com"), now);
        self.stage = Stage::Search;
        self.page = page;
        Action::Search { page, not_before }
    }

    /// Turns to the page at `index`, or ends the run behind the last page.
    fn resolve(&mut self, index: usize, hosts: &mut RateLimiter, now: u64) -> (action: Action)
        requires
            old(self).found.wf(),
            old(hosts).wf(),
        ensures
            final(self).wf(),
            final(hosts).wf(),
            final(self)@ == old(self)@.resolve(index, old(hosts)@, old(hosts)@, now).state,
            action@ == old(self)@.resolve(index, old(hosts)@, old(hosts)@, now).action,
            final(hosts)@ == old(self)@.resolve(index, old(hosts)@, old(hosts)@, now).hosts,
    {
        self.page_index = index;
        self.campaigns = Vec::new();
        self.campaign_index = 0;
        assert(self.campaigns.deep_view() =~= Seq::<Seq<char>>::empty());
        if index < self.pages.len() {
            self.stage = Stage::Resolve;
            let not_before = hosts.acquire(self.pages[index].get_host(), now);
            let url = String::from_str(self.pages[index].get_url());
            Action::Resolve { url, not_before }
        } else {
            self.stage = Stage::Done;
            Action::Finished
        }
    }

    /// Turns to the campaign at `index` of the current page, or to the next
    /// page behind the last campaign.
    fn fetch(
        &mut self,
        index: usize,
        hosts: &mut RateLimiter,
        detail: &mut RateLimiter,
        now: u64,
    ) -> (action: Action)
        requires
            old(self).found.wf(),
            old(self).page_index < old(self).pages.len(),
            old(hosts).wf(),
            old(detail).wf(),
        ensures
            final(self).wf(),
            final(hosts).wf(),
            final(detail).wf(),
            final(self)@ == old(self)@.fetch(index, old(hosts)@, old(detail)@, now).state,
            action@ == old(self)@.fetch(index, old(hosts)@, old(detail)@, now).action,
            final(hosts)@ == old(self)@.fetch(index, old(hosts)@, old(detail)@, now).hosts,
            final(detail)@ == old(self)@.fetch(index, old(hosts)@, old(detail)@, now).detail,
    {
        if index < self.campaigns.len() {
            self.stage = Stage::Fetch;
            self.campaign_index = index;
            let not_before = detail.acquire(&host(), now);
            let url = self.campaigns[index].clone();
            assert(self.campaigns.deep_view()[index as int] == self.campaigns[index as int]@);
            Action::Fetch { url, not_before }
        } else {
            let next = self.page_index + 1;
            self.resolve(next, hosts, now)
        }
    }

    /// Takes the result of the request that was last asked for, at the time
    /// `now`, and says what to do next. `hosts` spaces the requests to
    /// search and intermediary pages, host by host; `detail` spaces the
    /// requests for campaigns.
    pub fn step(
        &mut self,
        event: Event,
        hosts: &mut RateLimiter,
        detail: &mut RateLimiter,
        now: u64,
    ) -> (action: Action)
        requires
            old(self).wf(),
            old(hosts).wf(),
            old(detail).wf(),
        ensures
            final(self).wf(),
            final(hosts).wf(),
            final(detail).wf(),
            final(self)@ == old(self)@.next(event@, old(hosts)@, old(detail)@, now).state,
            action@ == old(self)@.next(event@, old(hosts)@, old(detail)@, now).action,
            final(hosts)@ == old(self)@.next(event@, old(hosts)@, old(detail)@, now).hosts,
            final(detail)@ == old(self)@.next(event@, old(hosts)@, old(detail)@, now).detail,
    {
        let stage = self.stage;
        match event {
            Event::Start => {
                if stage == Stage::Idle {
                    self.search(0, hosts, now)
                } else {
                    Action::Ignored
                }
            },
            Event::Searched(result) => {
                if stage == Stage::Search {
                    let links = match result {
                        Ok(links) => links,
                        Err(_) => Vec::new(),
                    };
                    assert(links.deep_view() =~= links_or_none(event@->Searched_0));
                    let more = links.len() > 0;
                    let ghost before = page_views(self.pages@);
                    let mut pages = IntermediaryUrl::new_from_vec(links);
                    self.pages.append(&mut pages);
                    assert(page_views(self.pages@) =~= before + pages_of(
                        links_or_none(event@->Searched_0),
                    ));
                    if more && self.page < usize::MAX {
                        let page = self.page + 1;
                        self.search(page, hosts, now)
                    } else {
                        self.resolve(0, hosts, now)
                    }
                } else {
                    Action::Ignored
                }
            },
            Event::Resolved(result) => {
                if stage == Stage::Resolve {
                    let links = match result {
                        Ok(links) => links,
                        Err(_) => Vec::new(),
                    };
                    assert(links.deep_view() =~= links_or_none(event@->Resolved_0));
                    assert(self@.pages.len() == self.pages.len());
                    if self.fast {
                        let next = self.page_index + 1;
                        self.resolve(next, hosts, now)
                    } else {
                        self.campaigns = links;
                        self.fetch(0, hosts, detail, now)
                    }
                } else {
                    Action::Ignored
                }
            },
            Event::Fetched(result) => {
                if stage == Stage::Fetch {
                    assert(self@.pages.len() == self.pages.len());
                    assert(self@.campaigns.len() == self.campaigns.len());
                    match result {
                        Ok(record) => {
                            self.found.insert(record);
                        },
                        Err(_) => {},
                    }
                    let next = self.campaign_index + 1;
                    self.fetch(next, hosts, detail, now)
                } else {
                    Action::Ignored
                }
            },
        }
    }
}

} // verus!
