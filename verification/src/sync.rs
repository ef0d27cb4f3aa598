//! Index sync: which records are pushed to the document index and which keys
//! are deleted from it. Sending them is the caller's part.

use vstd::prelude::*;
use crate::record::{CampaignRecord, RecordView};
use crate::store::{as_map, distinct_keys, has_key, index_of, lemma_lookup, views, RecordStore};

verus! {

/// The part of `m` that is active at `now`.
pub open spec fn active_part(m: Map<Seq<char>, RecordView>, now: u64) -> Map<
    Seq<char>,
    RecordView,
> {
    Map::new(|k: Seq<char>| m.contains_key(k) && m[k].active(now), |k: Seq<char>| m[k])
}

/// Whether the position `j` is among `src`.
spec fn listed(src: Seq<int>, j: int) -> bool {
    exists|a: int| 0 <= a < src.len() && #[trigger] src[a] == j
}

/// The documents of a full rebuild of the index: every record that is
/// active at `now`, each once, and no expired one.
pub fn active_records(store: &RecordStore, now: u64) -> (r: Vec<CampaignRecord>)
    requires
        store.wf(),
    ensures
        distinct_keys(views(r@)),
        as_map(views(r@)) == active_part(store@, now),
        forall|i: int| 0 <= i < r.len() ==> (#[trigger] r[i])@.active(now),
        forall|i: int|
            0 <= i < r.len() ==> store@.contains_key((#[trigger] r[i])@.key) && store@[r[i]@.key]
                == r[i]@,
{
    let recs = store.records();
    let ghost e = store.entries();
    let mut out: Vec<CampaignRecord> = Vec::new();
    let ghost mut src: Seq<int> = Seq::empty();
    let mut i: usize = 0;
    while i < recs.len()
        invariant
            i <= recs.len(),
            recs.len() == e.len(),
            forall|j: int| 0 <= j < recs.len() ==> (#[trigger] recs[j])@ == e[j],
            out.len() == src.len(),
            forall|a: int|
                0 <= a < src.len() ==> 0 <= (#[trigger] src[a]) < i && out[a]@ == e[src[a]]
                    && e[src[a]].active(now),
            forall|a: int, b: int| 0 <= a < b < src.len() ==> (#[trigger] src[a]) < (#[trigger] src[b]),
            forall|j: int| 0 <= j < i && (#[trigger] e[j]).active(now) ==> listed(src, j),
        decreases recs.len() - i,
    {
        if recs[i].is_active(now) {
            let ghost before = src;
            out.push(recs[i].clone());
            proof {
                src = src.push(i as int);
                assert forall|j: int| 0 <= j < i + 1 && (#[trigger] e[j]).active(now) implies listed(
                    src,
                    j,
                ) by {
                    if j < i {
                        let a = choose|a: int| 0 <= a < before.len() && #[trigger] before[a] == j;
                        assert(src[a] == j);
                    } else {
                        assert(src[before.len() as int] == j);
                    }
                }
            }
        }
        i += 1;
    }
    proof {
        store.lemma_view();
        let outv = views(out@);
        assert forall|a: int, b: int| 0 <= a < b < outv.len() implies (#[trigger] outv[a]).key != (
        #[trigger] outv[b]).key by {
            assert(src[a] < src[b]);
            assert(e[src[a]].key != e[src[b]].key);
        }
        assert forall|a: int| 0 <= a < out.len() implies store@.contains_key((#[trigger] out[a])@.key)
            && store@[out[a]@.key] == out[a]@ && out[a]@.active(now) by {
            assert(out[a]@ == e[src[a]]);
            lemma_lookup(e, src[a]);
        }
        assert forall|k: Seq<char>| has_key(outv, k) == active_part(store@, now).contains_key(k) by {
            if has_key(outv, k) {
                let a = index_of(outv, k);
                assert(0 <= a < outv.len() && outv[a].key == k);
                lemma_lookup(e, src[a]);
            }
            if active_part(store@, now).contains_key(k) {
                let j = index_of(e, k);
                assert(0 <= j < e.len() && e[j].key == k);
                lemma_lookup(e, j);
                let a = choose|a: int| 0 <= a < src.len() && #[trigger] src[a] == j;
                assert(outv[a].key == k);
            }
        }
        assert forall|k: Seq<char>| has_key(outv, k) implies #[trigger] as_map(outv)[k]
            == active_part(store@, now)[k] by {
            let a = index_of(outv, k);
            assert(0 <= a < outv.len() && outv[a].key == k);
            lemma_lookup(outv, a);
            lemma_lookup(e, src[a]);
        }
        assert(as_map(outv) =~= active_part(store@, now));
    }
    out
}

/// The records to push for the stale keys `stale`: for each key, in order,
/// the stored record where there is one and it is active at `now`.
pub open spec fn to_replace(m: Map<Seq<char>, RecordView>, stale: Seq<Seq<char>>, now: u64) -> Seq<
    RecordView,
>
    decreases stale.len(),
{
    if stale.len() == 0 {
        Seq::empty()
    } else {
        let head = to_replace(m, stale.drop_last(), now);
        if m.contains_key(stale.last()) && m[stale.last()].active(now) {
            head.push(m[stale.last()])
        } else {
            head
        }
    }
}

/// The keys to delete for the stale keys `stale`: those, in order, under
/// which nothing is stored any more.
pub open spec fn to_remove(m: Map<Seq<char>, RecordView>, stale: Seq<Seq<char>>) -> Seq<Seq<char>>
    decreases stale.len(),
{
    if stale.len() == 0 {
        Seq::empty()
    } else {
        let head = to_remove(m, stale.drop_last());
        if m.contains_key(stale.last()) {
            head
        } else {
            head.push(stale.last())
        }
    }
}

/// No record that has expired is among those to push.
pub proof fn lemma_replace_is_active(
    m: Map<Seq<char>, RecordView>,
    stale: Seq<Seq<char>>,
    now: u64,
    i: int,
)
    requires
        0 <= i < to_replace(m, stale, now).len(),
    ensures
        to_replace(m, stale, now)[i].active(now),
    decreases stale.len(),
{
    let head = to_replace(m, stale.drop_last(), now);
    if i < head.len() {
        lemma_replace_is_active(m, stale.drop_last(), now, i);
    }
}

/// What an incremental sync sends to the index.
#[derive(Debug)]
pub struct SyncPlan {
    /// Records to add, or to put in place of the documents with their keys.
    pub replace: Vec<CampaignRecord>,
    /// Keys of the documents to delete.
    pub remove: Vec<String>,
}

/// Plans an incremental sync for the keys `stale`, whose documents may be
/// out of date. A key that is still stored has its record pushed, unless the
/// record has expired by `now`: an expired record is neither pushed nor
/// deleted here. A key that is no longer stored has its document deleted.
pub fn plan_incremental(store: &RecordStore, stale: &Vec<String>, now: u64) -> (plan: SyncPlan)
    requires
        store.wf(),
    ensures
        views(plan.replace@) == to_replace(store@, stale.deep_view(), now),
        plan.remove.deep_view() == to_remove(store@, stale.deep_view()),
        forall|i: int| 0 <= i < plan.replace.len() ==> (#[trigger] plan.replace[i])@.active(now),
{
    let mut replace: Vec<CampaignRecord> = Vec::new();
    let mut remove: Vec<String> = Vec::new();
    let ghost keys = stale.deep_view();
    let mut i: usize = 0;
    assert(views(replace@) =~= to_replace(store@, keys.subrange(0, 0), now));
    assert(remove.deep_view() =~= to_remove(store@, keys.subrange(0, 0)));
    while i < stale.len()
        invariant
            i <= stale.len(),
            store.wf(),
            keys == stale.deep_view(),
            views(replace@) == to_replace(store@, keys.subrange(0, i as int), now),
            remove.deep_view() == to_remove(store@, keys.subrange(0, i as int)),
            forall|j: int| 0 <= j < replace.len() ==> (#[trigger] replace[j])@.active(now),
        decreases stale.len() - i,
    {
        let ghost upto = keys.subrange(0, i + 1);
        proof {
            assert(upto.drop_last() =~= keys.subrange(0, i as int));
            assert(upto.last() == stale[i as int]@);
        }
        match store.get(&stale[i]) {
            Some(record) => {
                if record.is_active(now) {
                    let ghost before = views(replace@);
                    replace.push(record.clone());
                    assert(views(replace@) =~= before.push(record@));
                }
            },
            None => {
                let ghost before = remove.deep_view();
                remove.push(stale[i].clone());
                assert(remove.deep_view() =~= before.push(stale[i as int]@));
            },
        }
        i += 1;
    }
    assert(keys.subrange(0, i as int) =~= keys);
    SyncPlan { replace, remove }
}

} // verus!
