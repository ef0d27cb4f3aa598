//! The refresh scheduler: which stored records are fetched again in a cycle,
//! and what each fetch outcome does to the store.

use vstd::prelude::*;
use crate::error::Error;
use crate::gleam::{campaign_host, host};
use crate::limiter::RateLimiter;
use crate::record::{CampaignRecord, RecordView};
use crate::store::{as_map, distinct_keys, has_key, index_of, lemma_lookup, lemma_push, views, RecordStore};

verus! {

/// The keys of the records of `m` that may be chosen for a refresh.
pub open spec fn refreshable_keys(m: Map<Seq<char>, RecordView>) -> Set<Seq<char>> {
    Set::new(|k: Seq<char>| m.contains_key(k) && m[k].refreshable())
}

/// How many of the first `upto` records of `e` may be chosen for a refresh.
pub open spec fn count_refreshable(e: Seq<RecordView>, upto: int) -> nat
    decreases upto,
{
    if upto <= 0 {
        0
    } else {
        count_refreshable(e, upto - 1) + if e[upto - 1].refreshable() {
            1nat
        } else {
            0nat
        }
    }
}

/// The record at `i` is chosen before the one at `j`: it was updated
/// earlier, or at the same time and stands earlier in the store.
pub open spec fn staler(e: Seq<RecordView>, i: int, j: int) -> bool {
    e[i].last_updated < e[j].last_updated || (e[i].last_updated == e[j].last_updated && i < j)
}

/// The record under `first` is chosen before the one under `second`.
pub open spec fn chosen_before(e: Seq<RecordView>, first: Seq<char>, second: Seq<char>) -> bool {
    staler(e, index_of(e, first), index_of(e, second))
}

/// Whether the position `j` is among `sel`.
pub open spec fn picked(sel: Seq<usize>, j: int) -> bool {
    exists|a: int| 0 <= a < sel.len() && #[trigger] sel[a] == j
}

/// `sel` lists, stalest first, the `budget` stalest refreshable records among
/// the first `upto` of `e`, or all of them where there are fewer.
pub open spec fn chosen(e: Seq<RecordView>, upto: int, budget: nat, sel: Seq<usize>) -> bool {
    &&& sel.len() == if budget <= count_refreshable(e, upto) {
        budget
    } else {
        count_refreshable(e, upto)
    }
    &&& forall|a: int| 0 <= a < sel.len() ==> (#[trigger] sel[a]) < upto && e[sel[a] as int].refreshable()
    &&& forall|a: int, b: int|
        0 <= a < b < sel.len() ==> staler(e, #[trigger] sel[a] as int, #[trigger] sel[b] as int)
    &&& forall|a: int, j: int|
        0 <= a < sel.len() && 0 <= j < upto && e[j].refreshable() && !picked(sel, j) ==> #[trigger] staler(
            e,
            sel[a] as int,
            j,
        )
    &&& sel.len() < budget ==> forall|j: int|
        0 <= j < upto && (#[trigger] e[j]).refreshable() ==> picked(sel, j)
}

/// Putting the next refreshable record into its place among the chosen ones,
/// and dropping the least stale where that exceeds the budget, keeps the
/// choice right for one more record.
proof fn lemma_choose_next(
    e: Seq<RecordView>,
    i: int,
    budget: nat,
    s: Seq<usize>,
    p: int,
    r: Seq<usize>,
)
    requires
        0 <= i < e.len(),
        i <= usize::MAX,
        e[i].refreshable(),
        chosen(e, i, budget, s),
        0 <= p <= s.len(),
        forall|a: int| 0 <= a < p ==> e[(#[trigger] s[a]) as int].last_updated <= e[i].last_updated,
        p < s.len() ==> e[s[p] as int].last_updated > e[i].last_updated,
        r == if s.len() + 1 > budget {
            s.insert(p, i as usize).drop_last()
        } else {
            s.insert(p, i as usize)
        },
    ensures
        chosen(e, i + 1, budget, r),
{
    let x = i as usize;
    let t = s.insert(p, x);
    let n = s.len() as int;
    assert(t.len() == n + 1);
    assert forall|a: int| 0 <= a < t.len() implies #[trigger] t[a] == (if a < p {
        s[a]
    } else if a == p {
        x
    } else {
        s[a - 1]
    }) by {}
    assert forall|a: int, b: int| 0 <= a < b < t.len() implies staler(
        e,
        #[trigger] t[a] as int,
        #[trigger] t[b] as int,
    ) by {
        if b == p {
            assert(e[s[a] as int].last_updated <= e[i].last_updated);
            assert(s[a] < i);
        } else if a == p {
            if b - 1 > p {
                assert(staler(e, s[p] as int, s[b - 1] as int));
            }
        } else {
            let sa = if a < p { a } else { a - 1 };
            let sb = if b < p { b } else { b - 1 };
            assert(staler(e, s[sa] as int, s[sb] as int));
        }
    }
    let dropped = s.len() + 1 > budget;
    assert(r.len() == if dropped { n } else { n + 1 });
    assert forall|a: int| 0 <= a < r.len() implies #[trigger] r[a] == t[a] by {}
    assert forall|a: int| 0 <= a < r.len() implies (#[trigger] r[a]) < i + 1 && e[r[a] as int].refreshable() by {
        if a < p {
            assert(s[a] < i);
        } else if a > p {
            assert(s[a - 1] < i);
        }
    }
    assert forall|a: int, b: int| 0 <= a < b < r.len() implies staler(
        e,
        #[trigger] r[a] as int,
        #[trigger] r[b] as int,
    ) by {
        assert(staler(e, t[a] as int, t[b] as int));
    }
    // every position of `s` keeps a place in `t`
    assert forall|j: int| picked(s, j) implies picked(t, j) by {
        let b = choose|b: int| 0 <= b < s.len() && #[trigger] s[b] == j;
        let tb = if b < p { b } else { b + 1 };
        assert(t[tb] == j);
    }
    assert(t[p] == x);
    assert(picked(t, i));
    assert forall|a: int, j: int|
        0 <= a < r.len() && 0 <= j < i + 1 && e[j].refreshable() && !picked(r, j) implies #[trigger] staler(
        e,
        r[a] as int,
        j,
    ) by {
        if picked(t, j) {
            let b = choose|b: int| 0 <= b < t.len() && #[trigger] t[b] == j;
            if b < r.len() {
                assert(r[b] == j);
                assert(false);
            }
            assert(b == n && dropped);
            assert(staler(e, t[a] as int, t[b] as int));
        } else {
            assert(j != i);
            assert(!picked(s, j));
            if n < budget {
                assert(picked(s, j));
            }
            assert(dropped);
            if a < p {
                assert(staler(e, s[a] as int, j));
            } else if a == p {
                assert(p < n);
                assert(staler(e, s[p] as int, j));
            } else {
                assert(staler(e, s[a - 1] as int, j));
            }
        }
    }
    if r.len() < budget {
        assert(!dropped);
        assert forall|j: int| 0 <= j < i + 1 && (#[trigger] e[j]).refreshable() implies picked(
            r,
            j,
        ) by {
            if j < i {
                assert(picked(s, j));
            }
            assert(picked(t, j));
            let b = choose|b: int| 0 <= b < t.len() && #[trigger] t[b] == j;
            assert(r[b] == j);
        }
    }
}

/// A record that may not be refreshed leaves the choice as it is.
proof fn lemma_choose_skip(e: Seq<RecordView>, i: int, budget: nat, s: Seq<usize>)
    requires
        0 <= i < e.len(),
        !e[i].refreshable(),
        chosen(e, i, budget, s),
    ensures
        chosen(e, i + 1, budget, s),
{
    assert forall|a: int, j: int|
        0 <= a < s.len() && 0 <= j < i + 1 && e[j].refreshable() && !picked(s, j) implies #[trigger] staler(
        e,
        s[a] as int,
        j,
    ) by {
        assert(j < i);
    }
}

/// In a sequence with distinct keys, the records that may be refreshed are
/// as many as the keys of its mapping that may be.
pub proof fn lemma_count_refreshable(e: Seq<RecordView>)
    requires
        distinct_keys(e),
    ensures
        refreshable_keys(as_map(e)).finite(),
        refreshable_keys(as_map(e)).len() == count_refreshable(e, e.len() as int),
    decreases e.len(),
{
    if e.len() == 0 {
        assert(refreshable_keys(as_map(e)) =~= Set::<Seq<char>>::empty());
    } else {
        let head = e.drop_last();
        let r = e.last();
        assert forall|a: int, b: int| 0 <= a < b < head.len() implies (#[trigger] head[a]).key
            != (#[trigger] head[b]).key by {
            assert(e[a].key != e[b].key);
        }
        if has_key(head, r.key) {
            let j = index_of(head, r.key);
            assert(0 <= j < head.len() && head[j].key == r.key);
            assert(e[j].key != e[e.len() - 1].key);
        }
        lemma_count_refreshable(head);
        lemma_push(head, r);
        assert(head.push(r) =~= e);
        lemma_same_count(e, head, head.len() as int);
        if r.refreshable() {
            assert(refreshable_keys(as_map(e)) =~= refreshable_keys(as_map(head)).insert(r.key));
        } else {
            assert(refreshable_keys(as_map(e)) =~= refreshable_keys(as_map(head)));
        }
    }
}

/// The count over a prefix depends on that prefix alone.
proof fn lemma_same_count(e: Seq<RecordView>, f: Seq<RecordView>, upto: int)
    requires
        0 <= upto <= e.len(),
        upto <= f.len(),
        forall|j: int| 0 <= j < upto ==> e[j] == f[j],
    ensures
        count_refreshable(e, upto) == count_refreshable(f, upto),
    decreases upto,
{
    if upto > 0 {
        lemma_same_count(e, f, upto - 1);
    }
}

/// The positions of the records to refresh, stalest first.
fn stalest_positions(recs: &Vec<CampaignRecord>, budget: usize) -> (sel: Vec<usize>)
    ensures
        chosen(views(recs@), recs.len() as int, budget as nat, sel@),
{
    let ghost e = views(recs@);
    let mut sel: Vec<usize> = Vec::new();
    let mut i: usize = 0;
    while i < recs.len()
        invariant
            i <= recs.len(),
            e == views(recs@),
            chosen(e, i as int, budget as nat, sel@),
        decreases recs.len() - i,
    {
        if recs[i].is_refreshable() {
            let mut p: usize = 0;
            while p < sel.len() && recs[sel[p]].last_updated <= recs[i].last_updated
                invariant
                    i < recs.len(),
                    e == views(recs@),
                    chosen(e, i as int, budget as nat, sel@),
                    p <= sel.len(),
                    forall|a: int|
                        0 <= a < p ==> e[(#[trigger] sel@[a]) as int].last_updated
                            <= e[i as int].last_updated,
                decreases sel.len() - p,
            {
                p += 1;
            }
            let ghost before = sel@;
            sel.insert(p, i);
            if sel.len() > budget {
                let _ = sel.pop();
            }
            proof {
                lemma_choose_next(e, i as int, budget as nat, before, p as int, sel@);
            }
        } else {
            proof {
                lemma_choose_skip(e, i as int, budget as nat, sel@);
            }
        }
        i += 1;
    }
    sel
}

/// Chooses the records to fetch again in this cycle: those that may be
/// refreshed, stalest first, as many as `budget` allows and never more than
/// there are. Returns their keys in the order in which they were chosen.
/// Among records updated at the same time, the one that stands earlier in
/// the store is chosen first.
pub fn select_stale(store: &RecordStore, budget: usize) -> (keys: Vec<String>)
    requires
        store.wf(),
    ensures
        refreshable_keys(store@).finite(),
        keys.len() == if budget <= refreshable_keys(store@).len() {
            budget as nat
        } else {
            refreshable_keys(store@).len()
        },
        forall|a: int|
            0 <= a < keys.len() ==> refreshable_keys(store@).contains(#[trigger] keys.deep_view()[a]),
        forall|a: int, b: int|
            0 <= a < b < keys.len() ==> {
                &&& (#[trigger] keys.deep_view()[a]) != (#[trigger] keys.deep_view()[b])
                &&& store@[keys.deep_view()[a]].last_updated <= store@[keys.deep_view()[b]].last_updated
            },
        forall|a: int, k: Seq<char>|
            0 <= a < keys.len() && refreshable_keys(store@).contains(k) && !keys.deep_view().contains(k)
                ==> store@[#[trigger] keys.deep_view()[a]].last_updated <= (#[trigger] store@[k]).last_updated,
        forall|a: int, b: int|
            0 <= a < b < keys.len() ==> #[trigger] chosen_before(
                store.entries(),
                keys.deep_view()[a],
                keys.deep_view()[b],
            ),
        forall|a: int, k: Seq<char>|
            0 <= a < keys.len() && refreshable_keys(store@).contains(k) && !keys.deep_view().contains(k)
                ==> #[trigger] chosen_before(store.entries(), keys.deep_view()[a], k),
{
    let recs = store.records();
    let ghost e = store.entries();
    proof {
        store.lemma_view();
        assert(views(recs@) =~= e);
        lemma_count_refreshable(e);
    }
    let sel = stalest_positions(recs, budget);
    let mut keys: Vec<String> = Vec::new();
    let mut a: usize = 0;
    while a < sel.len()
        invariant
            a <= sel.len(),
            keys.len() == a,
            e == views(recs@),
            chosen(e, recs.len() as int, budget as nat, sel@),
            forall|b: int| 0 <= b < a ==> (#[trigger] keys[b])@ == e[sel@[b] as int].key,
        decreases sel.len() - a,
    {
        keys.push(recs[sel[a]].key.clone());
        a += 1;
    }
    proof {
        let kv = keys.deep_view();
        let m = store@;
        assert forall|b: int| 0 <= b < keys.len() implies #[trigger] kv[b] == e[sel@[b] as int].key by {
            assert(kv[b] == keys[b]@);
        }
        assert forall|b: int| 0 <= b < keys.len() implies refreshable_keys(m).contains(
            #[trigger] kv[b],
        ) && m[kv[b]] == e[sel@[b] as int] && index_of(e, kv[b]) == sel@[b] by {
            lemma_lookup(e, sel@[b] as int);
        }
        assert forall|b: int, c: int| 0 <= b < c < keys.len() implies #[trigger] chosen_before(
            e,
            kv[b],
            kv[c],
        ) by {
            assert(refreshable_keys(m).contains(kv[b]));
            assert(refreshable_keys(m).contains(kv[c]));
            assert(staler(e, sel@[b] as int, sel@[c] as int));
        }
        assert forall|b: int, k: Seq<char>|
            0 <= b < keys.len() && refreshable_keys(m).contains(k) && !kv.contains(k) implies #[trigger] chosen_before(
            e,
            kv[b],
            k,
        ) by {
            let j = index_of(e, k);
            assert(0 <= j < e.len() && e[j].key == k);
            lemma_lookup(e, j);
            if picked(sel@, j) {
                let c = choose|c: int| 0 <= c < sel@.len() && #[trigger] sel@[c] == j;
                assert(kv[c] == k);
                assert(false);
            }
            assert(refreshable_keys(m).contains(kv[b]));
            assert(staler(e, sel@[b] as int, j));
        }
        assert forall|b: int, c: int| 0 <= b < c < keys.len() implies {
            &&& (#[trigger] kv[b]) != (#[trigger] kv[c])
            &&& m[kv[b]].last_updated <= m[kv[c]].last_updated
        } by {
            assert(staler(e, sel@[b] as int, sel@[c] as int));
            assert(sel@[b] != sel@[c]);
            if sel@[b] < sel@[c] {
                assert(e[sel@[b] as int].key != e[sel@[c] as int].key);
            } else {
                assert(e[sel@[c] as int].key != e[sel@[b] as int].key);
            }
            assert(refreshable_keys(m).contains(kv[b]));
            assert(refreshable_keys(m).contains(kv[c]));
        }
        assert forall|b: int, k: Seq<char>|
            0 <= b < keys.len() && refreshable_keys(m).contains(k) && !kv.contains(k) implies m[#[trigger] kv[b]].last_updated
            <= (#[trigger] m[k]).last_updated by {
            let j = index_of(e, k);
            assert(0 <= j < e.len() && e[j].key == k);
            lemma_lookup(e, j);
            if picked(sel@, j) {
                let c = choose|c: int| 0 <= c < sel@.len() && #[trigger] sel@[c] == j;
                assert(kv[c] == k);
                assert(false);
            }
            assert(staler(e, sel@[b] as int, j));
            assert(refreshable_keys(m).contains(kv[b]));
        }
    }
    keys
}

/// The value of a fetch outcome.
pub open spec fn outcome_view(outcome: Result<CampaignRecord, Error>) -> Result<RecordView, Error> {
    match outcome {
        Ok(record) => Ok(record@),
        Err(e) => Err(e),
    }
}

/// What the outcome of fetching the record under `key` again does to the
/// store. A fetched record takes the place of the stored one, under the
/// stored key and URL. An invalid response means that the campaign is gone:
/// its record is removed. A timeout changes nothing.
pub open spec fn refreshed(
    m: Map<Seq<char>, RecordView>,
    key: Seq<char>,
    outcome: Result<RecordView, Error>,
) -> Map<Seq<char>, RecordView> {
    match outcome {
        Ok(fetched) => if m.contains_key(key) {
            m.insert(key, RecordView { key: key, url: m[key].url, ..fetched })
        } else {
            m
        },
        Err(Error::InvalidResponse) => m.remove(key),
        Err(Error::Timeout) => m,
    }
}

/// The store after the outcomes `outcomes` of fetching `keys` were applied
/// in that order.
pub open spec fn refreshed_all(
    m: Map<Seq<char>, RecordView>,
    keys: Seq<Seq<char>>,
    outcomes: Seq<Result<RecordView, Error>>,
) -> Map<Seq<char>, RecordView>
    decreases keys.len(),
{
    if keys.len() == 0 || outcomes.len() != keys.len() {
        m
    } else {
        refreshed(
            refreshed_all(m, keys.drop_last(), outcomes.drop_last()),
            keys.last(),
            outcomes.last(),
        )
    }
}

/// A refresh touches the chosen records only: whatever the outcomes, a key
/// that was not chosen is stored afterwards exactly if it was before, with
/// the same record.
pub proof fn lemma_refresh_leaves_others(
    m: Map<Seq<char>, RecordView>,
    keys: Seq<Seq<char>>,
    outcomes: Seq<Result<RecordView, Error>>,
    k: Seq<char>,
)
    requires
        keys.len() == outcomes.len(),
        !keys.contains(k),
    ensures
        refreshed_all(m, keys, outcomes).contains_key(k) == m.contains_key(k),
        m.contains_key(k) ==> refreshed_all(m, keys, outcomes)[k] == m[k],
    decreases keys.len(),
{
    if keys.len() > 0 {
        let head = keys.drop_last();
        assert forall|i: int| 0 <= i < head.len() implies head[i] != k by {
            assert(keys[i] == head[i]);
        }
        lemma_refresh_leaves_others(m, head, outcomes.drop_last(), k);
        assert(keys[keys.len() - 1] != k);
    }
}

/// A refresh adds no record: every key stored afterwards was stored before.
pub proof fn lemma_refresh_adds_nothing(
    m: Map<Seq<char>, RecordView>,
    keys: Seq<Seq<char>>,
    outcomes: Seq<Result<RecordView, Error>>,
    k: Seq<char>,
)
    requires
        keys.len() == outcomes.len(),
    ensures
        refreshed_all(m, keys, outcomes).contains_key(k) ==> m.contains_key(k),
    decreases keys.len(),
{
    if keys.len() > 0 {
        lemma_refresh_adds_nothing(m, keys.drop_last(), outcomes.drop_last(), k);
    }
}

/// A record whose fetch came back as an invalid response is gone when the
/// refresh is over.
pub proof fn lemma_invalid_response_removes(
    m: Map<Seq<char>, RecordView>,
    keys: Seq<Seq<char>>,
    outcomes: Seq<Result<RecordView, Error>>,
    i: int,
)
    requires
        keys.len() == outcomes.len(),
        0 <= i < keys.len(),
        outcomes[i] == Err::<RecordView, Error>(Error::InvalidResponse),
    ensures
        !refreshed_all(m, keys, outcomes).contains_key(keys[i]),
    decreases keys.len(),
{
    let head = keys.drop_last();
    let head_outcomes = outcomes.drop_last();
    if i < keys.len() - 1 {
        lemma_invalid_response_removes(m, head, head_outcomes, i);
        assert(head[i] == keys[i]);
    }
}

/// Applies the outcome of fetching the record under `key` again.
pub fn apply_outcome(store: &mut RecordStore, key: &String, outcome: Result<CampaignRecord, Error>)
    requires
        old(store).wf(),
    ensures
        final(store).wf(),
        final(store)@ == refreshed(old(store)@, key@, outcome_view(outcome)),
{
    match outcome {
        Ok(fetched) => {
            let kept = match store.get(key) {
                Some(stored) => Some((stored.key.clone(), stored.url.clone())),
                None => None,
            };
            match kept {
                Some((stored_key, stored_url)) => {
                    proof {
                        store.lemma_view();
                        let e = store.entries();
                        let j = index_of(e, key@);
                        assert(0 <= j < e.len() && e[j].key == key@);
                        lemma_lookup(e, j);
                    }
                    let record = CampaignRecord {
                        key: stored_key,
                        url: stored_url,
                        referers: fetched.referers,
                        last_updated: fetched.last_updated,
                        ends_at: fetched.ends_at,
                        entry_count: fetched.entry_count,
                        entry_history: fetched.entry_history,
                        details: fetched.details,
                    };
                    store.insert(record);
                },
                None => {},
            }
        },
        Err(Error::InvalidResponse) => {
            let _ = store.remove(key);
        },
        Err(Error::Timeout) => {},
    }
}

/// The value of a [`RefreshRun`].
pub struct RefreshView {
    /// Keys of the records to fetch again, in the order of fetching.
    pub keys: Seq<Seq<char>>,
    /// How many of them have their outcome applied.
    pub done: nat,
    /// How many of those were fetched successfully and stored.
    pub updated: nat,
    /// Delay after a timeout before the next request.
    pub penalty: u64,
    /// No request goes out before this time.
    pub hold: u64,
}

/// What the caller does next in a refresh.
#[derive(Debug)]
pub enum RefreshAction {
    /// Wait until `not_before`, fetch the record stored under `key` again
    /// and hand the outcome to [`RefreshRun::apply`].
    Fetch { key: String, not_before: u64 },
    /// Nothing is left to fetch; `updated` records were refreshed.
    Finished { updated: usize },
}

/// One pass of the refresh scheduler over the records chosen for a cycle.
#[derive(Debug)]
pub struct RefreshRun {
    keys: Vec<String>,
    done: usize,
    updated: usize,
    penalty: u64,
    hold: u64,
}

impl View for RefreshRun {
    type V = RefreshView;

    closed spec fn view(&self) -> RefreshView {
        RefreshView {
            keys: self.keys.deep_view(),
            done: self.done as nat,
            updated: self.updated as nat,
            penalty: self.penalty,
            hold: self.hold,
        }
    }
}

impl RefreshView {
    /// The run's invariant.
    pub open spec fn wf(self) -> bool {
        self.updated <= self.done <= self.keys.len()
    }

    /// The earliest time at which a request asked for at `now` is passed on
    /// to the rate limiter.
    pub open spec fn asked(self, now: u64) -> u64 {
        if now >= self.hold {
            now
        } else {
            self.hold
        }
    }

    /// The run after `outcome`, reported at `now`, was applied to a store
    /// with the mapping `m`.
    pub open spec fn after(
        self,
        m: Map<Seq<char>, RecordView>,
        outcome: Result<RecordView, Error>,
        now: u64,
    ) -> RefreshView {
        if self.done >= self.keys.len() {
            self
        } else {
            RefreshView {
                done: self.done + 1,
                updated: if outcome is Ok && m.contains_key(self.keys[self.done as int]) {
                    self.updated + 1
                } else {
                    self.updated
                },
                hold: if outcome == Err::<RecordView, Error>(Error::Timeout) {
                    if now + self.penalty <= u64::MAX {
                        (now + self.penalty) as u64
                    } else {
                        u64::MAX
                    }
                } else {
                    self.hold
                },
                ..self
            }
        }
    }
}

impl RefreshRun {
    /// A run over the records stored under `keys`, in that order. After a
    /// timeout the next request waits for `penalty` from the moment the
    /// timeout was reported.
    pub fn new(keys: Vec<String>, penalty: u64) -> (r: Self)
        ensures
            r@.wf(),
            r@ == (RefreshView { keys: keys.deep_view(), done: 0, updated: 0, penalty, hold: 0 }),
    {
        RefreshRun { keys, done: 0, updated: 0, penalty, hold: 0 }
    }

    /// Says, at `now`, what to do next. While records are left, the next
    /// one is to be fetched, at the time that `limiter` grants to a request
    /// to the campaign host asked for at `now` (or, after a timeout, at the
    /// end of the penalty). The run itself does not change.
    pub fn next_action(&self, limiter: &mut RateLimiter, now: u64) -> (action: RefreshAction)
        requires
            self@.wf(),
            old(limiter).wf(),
        ensures
            final(limiter).wf(),
            match action {
                RefreshAction::Fetch { key, not_before } => {
                    &&& self@.done < self@.keys.len()
                    &&& key@ == self@.keys[self@.done as int]
                    &&& not_before == old(limiter)@.granted(campaign_host(), self@.asked(now))
                    &&& final(limiter)@ == old(limiter)@.after(campaign_host(), self@.asked(now))
                    &&& not_before >= now
                    &&& not_before >= self@.hold
                },
                RefreshAction::Finished { updated } => {
                    &&& self@.done == self@.keys.len()
                    &&& updated == self@.updated
                    &&& final(limiter)@ == old(limiter)@
                },
            },
    {
        if self.done < self.keys.len() {
            let key = self.keys[self.done].clone();
            assert(self.keys.deep_view()[self.done as int] == self.keys[self.done as int]@);
            let asked = if now >= self.hold { now } else { self.hold };
            let not_before = limiter.acquire(&host(), asked);
            RefreshAction::Fetch { key, not_before }
        } else {
            RefreshAction::Finished { updated: self.updated }
        }
    }

    /// Applies the outcome, reported at `now`, of the fetch that
    /// [`RefreshRun::next_action`] last asked for, and moves on to the next
    /// record. Only the record that was fetched can change. Once the run is
    /// finished this does nothing.
    pub fn apply(&mut self, store: &mut RecordStore, outcome: Result<CampaignRecord, Error>, now: u64)
        requires
            old(self)@.wf(),
            old(store).wf(),
        ensures
            final(self)@.wf(),
            final(store).wf(),
            final(self)@ == old(self)@.after(old(store)@, outcome_view(outcome), now),
            final(store)@ == if old(self)@.done < old(self)@.keys.len() {
                refreshed(old(store)@, old(self)@.keys[old(self)@.done as int], outcome_view(outcome))
            } else {
                old(store)@
            },
    {
        if self.done < self.keys.len() {
            assert(self.keys.deep_view()[self.done as int] == self.keys[self.done as int]@);
            let stored = store.contains_key(&self.keys[self.done]);
            match &outcome {
                Ok(_) => {
                    if stored {
                        self.updated = self.updated + 1;
                    }
                },
                Err(Error::Timeout) => {
                    self.hold = now.saturating_add(self.penalty);
                },
                Err(Error::InvalidResponse) => {},
            }
            apply_outcome(store, &self.keys[self.done], outcome);
            self.done = self.done + 1;
        }
    }

    /// Number of records refreshed so far.
    pub fn updated(&self) -> (n: usize)
        ensures
            n == self@.updated,
    {
        self.updated
    }
}

} // verus!
