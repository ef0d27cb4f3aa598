//! The rate limiter: when the next request to a target may be sent.
//!
//! The limiter never sleeps and never reads a clock. The caller hands in the
//! current time, is told the time at which the request may go out, waits
//! until then and sends it.

use vstd::prelude::*;

verus! {

/// The value of a [`RateLimiter`].
pub struct LimiterView {
    /// Least distance between two requests to one target.
    pub cooldown: u64,
    /// Whether every request counts as going to the same target.
    pub force: bool,
    /// In force mode, when the last request was granted.
    pub last_any: Option<u64>,
    /// Otherwise, when the last request to each host was granted.
    pub per_host: Map<Seq<char>, u64>,
}

/// The time at which a request asked for at `now` may go out, when the
/// last one to the same target was granted at `last`.
pub open spec fn grant_time(last: Option<u64>, cooldown: u64, now: u64) -> u64 {
    match last {
        None => now,
        Some(t) => {
            let ready = if t + cooldown <= u64::MAX {
                (t + cooldown) as u64
            } else {
                u64::MAX
            };
            if now >= ready {
                now
            } else {
                ready
            }
        },
    }
}

impl LimiterView {
    /// When the last request that counts against `host` was granted.
    pub open spec fn last(self, host: Seq<char>) -> Option<u64> {
        if self.force {
            self.last_any
        } else if self.per_host.contains_key(host) {
            Some(self.per_host[host])
        } else {
            None
        }
    }

    /// The time granted to a request to `host` asked for at `now`.
    pub open spec fn granted(self, host: Seq<char>, now: u64) -> u64 {
        grant_time(self.last(host), self.cooldown, now)
    }

    /// The limiter after that request was granted.
    pub open spec fn after(self, host: Seq<char>, now: u64) -> LimiterView {
        if self.force {
            LimiterView { last_any: Some(self.granted(host, now)), ..self }
        } else {
            LimiterView {
                per_host: self.per_host.insert(host, self.granted(host, now)),
                ..self
            }
        }
    }

    /// The limiter after the requests `calls`, each a host and the time at
    /// which it was asked for, were granted in that order.
    pub open spec fn after_all(self, calls: Seq<(Seq<char>, u64)>) -> LimiterView
        decreases calls.len(),
    {
        if calls.len() == 0 {
            self
        } else {
            self.after_all(calls.drop_last()).after(calls.last().0, calls.last().1)
        }
    }

    /// The time granted to the request `calls[i]`.
    pub open spec fn granted_at(self, calls: Seq<(Seq<char>, u64)>, i: int) -> u64 {
        self.after_all(calls.subrange(0, i)).granted(calls[i].0, calls[i].1)
    }
}

/// After a run of requests, the time remembered for the target of an earlier
/// one is no earlier than the time granted to it.
proof fn lemma_last_covers(start: LimiterView, calls: Seq<(Seq<char>, u64)>, i: int)
    requires
        0 <= i < calls.len(),
    ensures
        start.after_all(calls).cooldown == start.cooldown,
        start.after_all(calls).force == start.force,
        start.after_all(calls).last(calls[i].0) is Some,
        start.after_all(calls).last(calls[i].0)->0 >= start.granted_at(calls, i),
    decreases calls.len(),
{
    let head = calls.drop_last();
    let before = start.after_all(head);
    lemma_keeps_settings(start, head);
    if i == calls.len() - 1 {
        assert(calls.subrange(0, i) =~= head);
    } else {
        lemma_last_covers(start, head, i);
        assert(head.subrange(0, i) =~= calls.subrange(0, i));
        assert(head[i] == calls[i]);
    }
}

/// Granting requests changes neither the cooldown nor the mode.
proof fn lemma_keeps_settings(start: LimiterView, calls: Seq<(Seq<char>, u64)>)
    ensures
        start.after_all(calls).cooldown == start.cooldown,
        start.after_all(calls).force == start.force,
    decreases calls.len(),
{
    if calls.len() > 0 {
        lemma_keeps_settings(start, calls.drop_last());
    }
}

/// Cooldown fairness. In any run of requests, two that count against the
/// same target (the same host, or any two in force mode) are granted at
/// least the cooldown apart, as long as the earlier grant plus the cooldown
/// is a representable time.
pub proof fn lemma_cooldown_fairness(
    start: LimiterView,
    calls: Seq<(Seq<char>, u64)>,
    i: int,
    j: int,
)
    requires
        0 <= i < j < calls.len(),
        start.force || calls[i].0 == calls[j].0,
        start.granted_at(calls, i) + start.cooldown <= u64::MAX,
    ensures
        start.granted_at(calls, j) - start.granted_at(calls, i) >= start.cooldown,
{
    let head = calls.subrange(0, j);
    lemma_last_covers(start, head, i);
    assert(head.subrange(0, i) =~= calls.subrange(0, i));
    assert(head[i] == calls[i]);
}

/// Hosts do not hold each other up. Outside force mode, a request to a host
/// that no earlier request went to is granted at the very time it is asked
/// for, whatever was granted to other hosts just before.
pub proof fn lemma_fresh_host_is_immediate(
    start: LimiterView,
    calls: Seq<(Seq<char>, u64)>,
    j: int,
)
    requires
        0 <= j < calls.len(),
        !start.force,
        !start.per_host.contains_key(calls[j].0),
        forall|i: int| 0 <= i < j ==> (#[trigger] calls[i]).0 != calls[j].0,
    ensures
        start.granted_at(calls, j) == calls[j].1,
{
    lemma_untouched_host(start, calls.subrange(0, j), calls[j].0);
}

/// A host that no request of a run went to is remembered as before.
proof fn lemma_untouched_host(start: LimiterView, calls: Seq<(Seq<char>, u64)>, host: Seq<char>)
    requires
        !start.force,
        forall|i: int| 0 <= i < calls.len() ==> (#[trigger] calls[i]).0 != host,
    ensures
        start.after_all(calls).last(host) == start.last(host),
    decreases calls.len(),
{
    if calls.len() > 0 {
        let head = calls.drop_last();
        assert forall|i: int| 0 <= i < head.len() implies (#[trigger] head[i]).0 != host by {
            assert(calls[i].0 != host);
        }
        lemma_untouched_host(start, head, host);
        lemma_keeps_settings(start, head);
        assert(calls[calls.len() - 1].0 != host);
    }
}

/// Whether some slot of `s` is for `host`.
pub open spec fn has_host(s: Seq<(Seq<char>, u64)>, host: Seq<char>) -> bool {
    exists|i: int| 0 <= i < s.len() && (#[trigger] s[i]).0 == host
}

/// A slot of `s` for `host`, where there is one.
pub open spec fn slot_of(s: Seq<(Seq<char>, u64)>, host: Seq<char>) -> int {
    choose|i: int| 0 <= i < s.len() && (#[trigger] s[i]).0 == host
}

/// No two slots of `s` are for the same host.
pub open spec fn distinct_hosts(s: Seq<(Seq<char>, u64)>) -> bool {
    forall|i: int, j: int| 0 <= i < j < s.len() ==> (#[trigger] s[i]).0 != (#[trigger] s[j]).0
}

/// The mapping from host to time that the slots `s` stand for.
pub open spec fn slots_map(s: Seq<(Seq<char>, u64)>) -> Map<Seq<char>, u64> {
    Map::new(|h: Seq<char>| has_host(s, h), |h: Seq<char>| s[slot_of(s, h)].1)
}

/// With distinct hosts, each slot is what its host maps to.
proof fn lemma_slot(s: Seq<(Seq<char>, u64)>, i: int)
    requires
        distinct_hosts(s),
        0 <= i < s.len(),
    ensures
        has_host(s, s[i].0),
        slot_of(s, s[i].0) == i,
        slots_map(s)[s[i].0] == s[i].1,
{
    let h = s[i].0;
    assert(0 <= i < s.len() && s[i].0 == h);
    let j = slot_of(s, h);
    assert(0 <= j < s.len() && s[j].0 == h);
    if j < i {
        assert(s[j].0 != s[i].0);
    } else if i < j {
        assert(s[i].0 != s[j].0);
    }
}

/// Writing a new time into a host's slot, or appending a slot for a host
/// that has none, sets that host's time and no other.
proof fn lemma_slot_written(
    s: Seq<(Seq<char>, u64)>,
    t: Seq<(Seq<char>, u64)>,
    host: Seq<char>,
    time: u64,
    at: int,
)
    requires
        distinct_hosts(s),
        0 <= at <= s.len(),
        at < s.len() ==> s[at].0 == host && t == s.update(at, (host, time)),
        at == s.len() ==> !has_host(s, host) && t == s.push((host, time)),
    ensures
        distinct_hosts(t),
        slots_map(t) == slots_map(s).insert(host, time),
{
    assert forall|a: int, b: int| 0 <= a < b < t.len() implies (#[trigger] t[a]).0 != (
    #[trigger] t[b]).0 by {
        if b < s.len() {
            assert(s[a].0 != s[b].0);
        } else {
            assert(s[a].0 != host);
        }
    }
    assert forall|h: Seq<char>| has_host(t, h) == (has_host(s, h) || h == host) by {
        if has_host(t, h) {
            let j = slot_of(t, h);
            assert(0 <= j < t.len() && t[j].0 == h);
            if j < s.len() && j != at {
                assert(s[j].0 == h);
            }
        }
        if has_host(s, h) {
            let j = slot_of(s, h);
            assert(0 <= j < s.len() && s[j].0 == h);
            assert(t[j].0 == h);
        }
        if h == host {
            assert(t[at].0 == h);
        }
    }
    assert forall|h: Seq<char>| has_host(t, h) implies #[trigger] slots_map(t)[h] == slots_map(
        s,
    ).insert(host, time)[h] by {
        let j = slot_of(t, h);
        assert(0 <= j < t.len() && t[j].0 == h);
        lemma_slot(t, j);
        if h != host {
            assert(s[j].0 == h);
            lemma_slot(s, j);
        } else {
            lemma_slot(t, at);
        }
    }
    assert(slots_map(t) =~= slots_map(s).insert(host, time));
}

/// Spaces requests to one target by a cooldown.
///
/// In its usual mode the limiter remembers, per host, when the last request
/// was granted. In force mode it keeps a single time for all requests, so
/// that any two are a cooldown apart whatever their hosts.
#[derive(Debug)]
pub struct RateLimiter {
    cooldown: u64,
    force: bool,
    last_any: Option<u64>,
    hosts: Vec<String>,
    times: Vec<u64>,
}

impl View for RateLimiter {
    type V = LimiterView;

    closed spec fn view(&self) -> LimiterView {
        LimiterView {
            cooldown: self.cooldown,
            force: self.force,
            last_any: self.last_any,
            per_host: slots_map(self.slots()),
        }
    }
}

impl RateLimiter {
    /// The remembered hosts with their times.
    closed spec fn slots(&self) -> Seq<(Seq<char>, u64)> {
        Seq::new(self.hosts.len() as nat, |i: int| (self.hosts[i]@, self.times[i]))
    }

    /// The limiter's invariant: each host is remembered once.
    pub closed spec fn wf(&self) -> bool {
        &&& self.hosts.len() == self.times.len()
        &&& distinct_hosts(self.slots())
    }

    /// A limiter that has granted nothing yet. Times and `cooldown` are in
    /// one unit of the caller's choice.
    pub fn new(cooldown: u64, force: bool) -> (r: Self)
        ensures
            r.wf(),
            r@ == (LimiterView {
                cooldown,
                force,
                last_any: None,
                per_host: Map::empty(),
            }),
    {
        let r = RateLimiter {
            cooldown,
            force,
            last_any: None,
            hosts: Vec::new(),
            times: Vec::new(),
        };
        assert(r@.per_host =~= Map::<Seq<char>, u64>::empty());
        r
    }

    /// The least distance between two requests to one target.
    pub fn cooldown(&self) -> (r: u64)
        ensures
            r == self@.cooldown,
    {
        self.cooldown
    }

    /// The slot that remembers `host`.
    fn slot(&self, host: &String) -> (r: Option<usize>)
        requires
            self.wf(),
        ensures
            match r {
                Some(i) => i < self.slots().len() && self.slots()[i as int].0 == host@,
                None => !has_host(self.slots(), host@),
            },
    {
        let mut i: usize = 0;
        while i < self.hosts.len()
            invariant
                i <= self.hosts.len(),
                forall|j: int| 0 <= j < i ==> (#[trigger] self.slots()[j]).0 != host@,
            decreases self.hosts.len() - i,
        {
            if self.hosts[i] == *host {
                return Some(i);
            }
            i += 1;
        }
        None
    }

    /// Asks, at `now`, to send a request to `host`. Returns the time at
    /// which it may go out: `now` itself where nothing was granted to the
    /// same target before or the cooldown has passed since, else the last
    /// grant plus the cooldown. That time is remembered as the target's last
    /// request. The caller waits until the returned time before sending.
    pub fn acquire(&mut self, host: &String, now: u64) -> (granted: u64)
        requires
            old(self).wf(),
        ensures
            final(self).wf(),
            granted == old(self)@.granted(host@, now),
            final(self)@ == old(self)@.after(host@, now),
            granted >= now,
    {
        if self.force {
            let granted = grant(self.last_any, self.cooldown, now);
            self.last_any = Some(granted);
            granted
        } else {
            let ghost before = self.slots();
            match self.slot(host) {
                Some(i) => {
                    proof {
                        lemma_slot(before, i as int);
                    }
                    let granted = grant(Some(self.times[i]), self.cooldown, now);
                    self.times.set(i, granted);
                    proof {
                        assert(self.slots() =~= before.update(i as int, (host@, granted)));
                        lemma_slot_written(before, self.slots(), host@, granted, i as int);
                    }
                    granted
                },
                None => {
                    self.hosts.push(host.clone());
                    self.times.push(now);
                    proof {
                        assert(self.slots() =~= before.push((host@, now)));
                        lemma_slot_written(before, self.slots(), host@, now, before.len() as int);
                    }
                    now
                },
            }
        }
    }
}

/// The time at which a request asked for at `now` may go out.
pub fn grant(last: Option<u64>, cooldown: u64, now: u64) -> (r: u64)
    ensures
        r == grant_time(last, cooldown, now),
        r >= now,
{
    match last {
        None => now,
        Some(t) => {
            let ready = t.saturating_add(cooldown);
            if now >= ready {
                now
            } else {
                ready
            }
        },
    }
}

} // verus!
