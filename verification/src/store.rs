//! The keyed record store: at most one record per campaign key.

use vstd::prelude::*;
use crate::record::{CampaignRecord, RecordView};

verus! {

/// Whether some record of `s` carries the key `k`.
pub open spec fn has_key(s: Seq<RecordView>, k: Seq<char>) -> bool {
    exists|i: int| 0 <= i < s.len() && (#[trigger] s[i]).key == k
}

/// A position of `s` that carries the key `k`, where there is one.
pub open spec fn index_of(s: Seq<RecordView>, k: Seq<char>) -> int {
    choose|i: int| 0 <= i < s.len() && (#[trigger] s[i]).key == k
}

/// No two records of `s` share a key.
pub open spec fn distinct_keys(s: Seq<RecordView>) -> bool {
    forall|i: int, j: int|
        0 <= i < j < s.len() ==> (#[trigger] s[i]).key != (#[trigger] s[j]).key
}

/// The mapping from key to record that `s` stands for.
pub open spec fn as_map(s: Seq<RecordView>) -> Map<Seq<char>, RecordView> {
    Map::new(|k: Seq<char>| has_key(s, k), |k: Seq<char>| s[index_of(s, k)])
}

/// The values of a list of records.
pub open spec fn views(records: Seq<CampaignRecord>) -> Seq<RecordView> {
    Seq::new(records.len(), |i: int| records[i]@)
}

/// The mapping built by storing the records of `s` one after the other, a
/// later record overwriting an earlier one of the same key.
pub open spec fn collect(s: Seq<RecordView>) -> Map<Seq<char>, RecordView>
    decreases s.len(),
{
    if s.len() == 0 {
        Map::empty()
    } else {
        collect(s.drop_last()).insert(s.last().key, s.last())
    }
}

/// In a sequence with distinct keys each record is what its key maps to.
pub proof fn lemma_lookup(s: Seq<RecordView>, i: int)
    requires
        distinct_keys(s),
        0 <= i < s.len(),
    ensures
        has_key(s, s[i].key),
        index_of(s, s[i].key) == i,
        as_map(s).contains_key(s[i].key),
        as_map(s)[s[i].key] == s[i],
{
    let k = s[i].key;
    assert(0 <= i < s.len() && s[i].key == k);
    let j = index_of(s, k);
    assert(0 <= j < s.len() && s[j].key == k);
    if j < i {
        assert(s[j].key != s[i].key);
    } else if i < j {
        assert(s[i].key != s[j].key);
    }
}

/// Replacing a record by one of the same key overwrites that key.
pub proof fn lemma_update(s: Seq<RecordView>, i: int, r: RecordView)
    requires
        distinct_keys(s),
        0 <= i < s.len(),
        s[i].key == r.key,
    ensures
        distinct_keys(s.update(i, r)),
        as_map(s.update(i, r)) == as_map(s).insert(r.key, r),
{
    let t = s.update(i, r);
    assert forall|a: int, b: int| 0 <= a < b < t.len() implies (#[trigger] t[a]).key != (
    #[trigger] t[b]).key by {
        assert(s[a].key != s[b].key);
    }
    assert forall|k: Seq<char>| has_key(t, k) == (has_key(s, k) || k == r.key) by {
        if has_key(t, k) {
            let j = index_of(t, k);
            assert(0 <= j < t.len() && t[j].key == k);
            assert(s[j].key == k);
        }
        if has_key(s, k) {
            let j = index_of(s, k);
            assert(0 <= j < s.len() && s[j].key == k);
            assert(t[j].key == k);
        }
        if k == r.key {
            assert(t[i].key == k);
        }
    }
    assert forall|k: Seq<char>| has_key(t, k) implies #[trigger] as_map(t)[k] == as_map(
        s,
    ).insert(r.key, r)[k] by {
        let j = index_of(t, k);
        assert(0 <= j < t.len() && t[j].key == k);
        lemma_lookup(t, j);
        if k != r.key {
            assert(s[j].key == k);
            lemma_lookup(s, j);
        } else {
            lemma_lookup(t, i);
        }
    }
    assert(as_map(t) =~= as_map(s).insert(r.key, r));
}

/// Appending a record with a new key adds that key.
pub proof fn lemma_push(s: Seq<RecordView>, r: RecordView)
    requires
        distinct_keys(s),
        !has_key(s, r.key),
    ensures
        distinct_keys(s.push(r)),
        as_map(s.push(r)) == as_map(s).insert(r.key, r),
{
    let t = s.push(r);
    assert forall|a: int, b: int| 0 <= a < b < t.len() implies (#[trigger] t[a]).key != (
    #[trigger] t[b]).key by {
        if b < s.len() {
            assert(s[a].key != s[b].key);
        } else {
            assert(s[a].key != r.key);
        }
    }
    assert forall|k: Seq<char>| has_key(t, k) == (has_key(s, k) || k == r.key) by {
        if has_key(t, k) {
            let j = index_of(t, k);
            assert(0 <= j < t.len() && t[j].key == k);
            if j < s.len() {
                assert(s[j].key == k);
            }
        }
        if has_key(s, k) {
            let j = index_of(s, k);
            assert(0 <= j < s.len() && s[j].key == k);
            assert(t[j].key == k);
        }
        if k == r.key {
            assert(t[s.len() as int].key == k);
        }
    }
    assert forall|k: Seq<char>| has_key(t, k) implies #[trigger] as_map(t)[k] == as_map(
        s,
    ).insert(r.key, r)[k] by {
        let j = index_of(t, k);
        assert(0 <= j < t.len() && t[j].key == k);
        lemma_lookup(t, j);
        if k != r.key {
            assert(s[j].key == k);
            lemma_lookup(s, j);
        } else {
            lemma_lookup(t, s.len() as int);
        }
    }
    assert(as_map(t) =~= as_map(s).insert(r.key, r));
}

/// Taking a record out removes its key and no other.
pub proof fn lemma_remove(s: Seq<RecordView>, i: int)
    requires
        distinct_keys(s),
        0 <= i < s.len(),
    ensures
        distinct_keys(s.remove(i)),
        as_map(s.remove(i)) == as_map(s).remove(s[i].key),
{
    let t = s.remove(i);
    let gone = s[i].key;
    assert forall|a: int| 0 <= a < t.len() implies #[trigger] t[a] == s[if a < i {
        a
    } else {
        a + 1
    }] by {}
    assert forall|a: int, b: int| 0 <= a < b < t.len() implies (#[trigger] t[a]).key != (
    #[trigger] t[b]).key by {
        let sa = if a < i { a } else { a + 1 };
        let sb = if b < i { b } else { b + 1 };
        assert(s[sa].key != s[sb].key);
    }
    assert forall|k: Seq<char>| has_key(t, k) == (has_key(s, k) && k != gone) by {
        if has_key(t, k) {
            let j = index_of(t, k);
            assert(0 <= j < t.len() && t[j].key == k);
            let sj = if j < i { j } else { j + 1 };
            assert(s[sj].key == k);
            if sj < i {
                assert(s[sj].key != s[i].key);
            } else {
                assert(s[i].key != s[sj].key);
            }
        }
        if has_key(s, k) && k != gone {
            let j = index_of(s, k);
            assert(0 <= j < s.len() && s[j].key == k);
            let tj = if j < i { j } else { j - 1 };
            assert(t[tj].key == k);
        }
    }
    assert forall|k: Seq<char>| has_key(t, k) implies #[trigger] as_map(t)[k] == as_map(
        s,
    ).remove(gone)[k] by {
        let j = index_of(t, k);
        assert(0 <= j < t.len() && t[j].key == k);
        lemma_lookup(t, j);
        let sj = if j < i { j } else { j + 1 };
        assert(s[sj].key == k);
        lemma_lookup(s, sj);
    }
    assert(as_map(t) =~= as_map(s).remove(gone));
}

/// A sequence with distinct keys stands for a finite mapping with as many
/// keys as the sequence has records.
pub proof fn lemma_size(s: Seq<RecordView>)
    requires
        distinct_keys(s),
    ensures
        as_map(s).dom().finite(),
        as_map(s).dom().len() == s.len(),
    decreases s.len(),
{
    if s.len() == 0 {
        assert(as_map(s).dom() =~= Set::<Seq<char>>::empty());
    } else {
        let head = s.drop_last();
        let r = s.last();
        assert forall|a: int, b: int| 0 <= a < b < head.len() implies (#[trigger] head[a]).key
            != (#[trigger] head[b]).key by {
            assert(s[a].key != s[b].key);
        }
        if has_key(head, r.key) {
            let j = index_of(head, r.key);
            assert(0 <= j < head.len() && head[j].key == r.key);
            assert(s[j].key != s[s.len() - 1].key);
        }
        lemma_size(head);
        lemma_push(head, r);
        assert(head.push(r) =~= s);
        assert(as_map(s).dom() =~= as_map(head).dom().insert(r.key));
    }
}

/// The campaigns known to the crawler, one record per key.
#[derive(Debug)]
pub struct RecordStore {
    records: Vec<CampaignRecord>,
}

impl View for RecordStore {
    type V = Map<Seq<char>, RecordView>;

    /// The mapping from campaign key to record.
    closed spec fn view(&self) -> Map<Seq<char>, RecordView> {
        as_map(self.entries())
    }
}

impl RecordStore {
    /// The records in the order in which the store hands them out.
    pub closed spec fn entries(&self) -> Seq<RecordView> {
        Seq::new(self.records.len() as nat, |i: int| self.records[i]@)
    }

    /// The store's invariant: no key occurs twice.
    pub open spec fn wf(&self) -> bool {
        distinct_keys(self.entries())
    }

    /// The store's mapping is the one its records stand for.
    pub proof fn lemma_view(&self)
        ensures
            self@ == as_map(self.entries()),
    {
    }

    /// An empty store.
    pub fn new() -> (r: Self)
        ensures
            r.wf(),
            r@ == Map::<Seq<char>, RecordView>::empty(),
            r.entries() == Seq::<RecordView>::empty(),
    {
        let r = RecordStore { records: Vec::new() };
        assert(r.entries() =~= Seq::<RecordView>::empty());
        assert(r@ =~= Map::<Seq<char>, RecordView>::empty());
        r
    }

    /// Number of stored campaigns.
    pub fn len(&self) -> (n: usize)
        requires
            self.wf(),
        ensures
            n == self@.dom().len(),
            n == self.entries().len(),
            self@.dom().finite(),
    {
        proof {
            lemma_size(self.entries());
        }
        self.records.len()
    }

    /// Whether no campaign is stored.
    pub fn is_empty(&self) -> (r: bool)
        requires
            self.wf(),
        ensures
            r == (self@.dom().len() == 0),
            r == (self@ == Map::<Seq<char>, RecordView>::empty()),
    {
        proof {
            lemma_size(self.entries());
            if self.entries().len() == 0 {
                assert(self@ =~= Map::<Seq<char>, RecordView>::empty());
            }
        }
        self.records.len() == 0
    }

    /// The position of the record with the key `key`.
    fn position(&self, key: &String) -> (r: Option<usize>)
        ensures
            match r {
                Some(i) => i < self.entries().len() && self.entries()[i as int].key == key@,
                None => !has_key(self.entries(), key@),
            },
    {
        let mut i: usize = 0;
        while i < self.records.len()
            invariant
                i <= self.records.len(),
                forall|j: int| 0 <= j < i ==> (#[trigger] self.entries()[j]).key != key@,
            decreases self.records.len() - i,
        {
            if self.records[i].key == *key {
                return Some(i);
            }
            i += 1;
        }
        None
    }

    /// Whether a campaign with the key `key` is stored.
    pub fn contains_key(&self, key: &String) -> (r: bool)
        ensures
            r == self@.contains_key(key@),
    {
        self.position(key).is_some()
    }

    /// The record stored under `key`.
    pub fn get(&self, key: &String) -> (r: Option<&CampaignRecord>)
        requires
            self.wf(),
        ensures
            match r {
                Some(rec) => self@.contains_key(key@) && rec@ == self@[key@],
                None => !self@.contains_key(key@),
            },
    {
        match self.position(key) {
            Some(i) => {
                proof {
                    lemma_lookup(self.entries(), i as int);
                }
                Some(&self.records[i])
            },
            None => None,
        }
    }

    /// Stores `record` under its key. A record already stored under that key
    /// is overwritten; every other record stays as it is.
    pub fn insert(&mut self, record: CampaignRecord)
        requires
            old(self).wf(),
        ensures
            final(self).wf(),
            final(self)@ == old(self)@.insert(record@.key, record@),
    {
        let ghost before = self.entries();
        match self.position(&record.key) {
            Some(i) => {
                proof {
                    lemma_update(before, i as int, record@);
                }
                self.records.set(i, record);
                assert(self.entries() =~= before.update(i as int, record@));
            },
            None => {
                proof {
                    lemma_push(before, record@);
                }
                self.records.push(record);
                assert(self.entries() =~= before.push(record@));
            },
        }
    }

    /// Removes the record stored under `key` and says whether there was one.
    /// Every other record stays as it is.
    pub fn remove(&mut self, key: &String) -> (r: bool)
        requires
            old(self).wf(),
        ensures
            final(self).wf(),
            r == old(self)@.contains_key(key@),
            final(self)@ == old(self)@.remove(key@),
    {
        let ghost before = self.entries();
        match self.position(key) {
            Some(i) => {
                proof {
                    lemma_remove(before, i as int);
                }
                let _ = self.records.remove(i);
                assert(self.entries() =~= before.remove(i as int));
                true
            },
            None => {
                assert(self@ =~= self@.remove(key@));
                false
            },
        }
    }

    /// Merges what a cycle discovered with the persisted snapshot. Every
    /// discovered record is kept as it is; every persisted record whose key
    /// was not discovered is carried forward unchanged; nothing else is in
    /// the result, and no key occurs twice.
    pub fn merge(discovered: RecordStore, persisted: RecordStore) -> (r: RecordStore)
        requires
            discovered.wf(),
            persisted.wf(),
        ensures
            r.wf(),
            r@ == persisted@.union_prefer_right(discovered@),
            forall|k: Seq<char>| #[trigger]
                r@.contains_key(k) <==> discovered@.contains_key(k) || persisted@.contains_key(k),
            forall|k: Seq<char>| #[trigger]
                discovered@.contains_key(k) ==> r@[k] == discovered@[k],
            forall|k: Seq<char>|
                persisted@.contains_key(k) && !discovered@.contains_key(k) ==> #[trigger] r@[k]
                    == persisted@[k],
    {
        let ghost p = persisted.entries();
        let ghost found = discovered@;
        let mut out = discovered;
        let mut rest = persisted.records;
        while rest.len() > 0
            invariant
                distinct_keys(p),
                rest.len() <= p.len(),
                forall|j: int| 0 <= j < rest.len() ==> (#[trigger] rest[j])@ == p[j],
                out.wf(),
                forall|k: Seq<char>| #[trigger]
                    out@.contains_key(k) <==> found.contains_key(k) || exists|j: int|
                        rest.len() <= j < p.len() && (#[trigger] p[j]).key == k,
                forall|k: Seq<char>| #[trigger] found.contains_key(k) ==> out@[k] == found[k],
                forall|j: int|
                    rest.len() <= j < p.len() && !found.contains_key((#[trigger] p[j]).key)
                        ==> out@[p[j].key] == p[j],
            decreases rest.len(),
        {
            let ghost m = rest.len() as int - 1;
            let ghost before = out@;
            let rec = rest.pop().unwrap();
            assert(rec@ == p[m]);
            if out.contains_key(&rec.key) {
                proof {
                    if !found.contains_key(rec@.key) {
                        let j = choose|j: int| m < j < p.len() && (#[trigger] p[j]).key == rec@.key;
                        assert(p[m].key != p[j].key);
                    }
                }
            } else {
                out.insert(rec);
                assert forall|j: int|
                    m <= j < p.len() && !found.contains_key((#[trigger] p[j]).key) implies out@[p[j].key]
                    == p[j] by {
                    if j != m {
                        assert(before.contains_key(p[j].key));
                    }
                }
            }
            assert forall|k: Seq<char>| #[trigger]
                out@.contains_key(k) <==> found.contains_key(k) || exists|j: int|
                    m <= j < p.len() && (#[trigger] p[j]).key == k by {
                if out@.contains_key(k) && !found.contains_key(k) {
                    if before.contains_key(k) {
                        let j = choose|j: int| m < j < p.len() && (#[trigger] p[j]).key == k;
                        assert(m <= j < p.len() && p[j].key == k);
                    } else {
                        assert(p[m].key == k);
                    }
                }
                if exists|j: int| m <= j < p.len() && (#[trigger] p[j]).key == k {
                    let j = choose|j: int| m <= j < p.len() && (#[trigger] p[j]).key == k;
                    if j != m {
                        assert(m < j < p.len() && p[j].key == k);
                    }
                }
            }
        }
        proof {
            let goal = persisted@.union_prefer_right(found);
            assert forall|k: Seq<char>| out@.contains_key(k) <==> goal.contains_key(k) by {
                if has_key(p, k) {
                    let j = index_of(p, k);
                    assert(0 <= j < p.len() && p[j].key == k);
                }
                if exists|j: int| 0 <= j < p.len() && (#[trigger] p[j]).key == k {
                    assert(has_key(p, k));
                }
            }
            assert forall|k: Seq<char>| out@.contains_key(k) implies #[trigger] out@[k] == goal[k] by {
                if !found.contains_key(k) {
                    let j = index_of(p, k);
                    assert(0 <= j < p.len() && p[j].key == k);
                    lemma_lookup(p, j);
                }
            }
            assert(out@ =~= goal);
        }
        out
    }

    /// A store holding `records`. Where several share a key, the last one
    /// stays.
    pub fn from_records(records: Vec<CampaignRecord>) -> (r: RecordStore)
        ensures
            r.wf(),
            r@ == collect(views(records@)),
    {
        let mut out = RecordStore::new();
        let mut i: usize = 0;
        while i < records.len()
            invariant
                i <= records.len(),
                out.wf(),
                out@ == collect(views(records@).subrange(0, i as int)),
            decreases records.len() - i,
        {
            let ghost all = views(records@);
            let rec = records[i].clone();
            assert(all.subrange(0, i + 1).drop_last() =~= all.subrange(0, i as int));
            assert(all.subrange(0, i + 1).last() == rec@);
            out.insert(rec);
            i += 1;
        }
        assert(views(records@).subrange(0, i as int) =~= views(records@));
        out
    }

    /// The stored records, each key once.
    pub fn records(&self) -> (r: &Vec<CampaignRecord>)
        ensures
            r.len() == self.entries().len(),
            forall|i: int| 0 <= i < r.len() ==> (#[trigger] r[i])@ == self.entries()[i],
    {
        &self.records
    }
}

} // verus!
