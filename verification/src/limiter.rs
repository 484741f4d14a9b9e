//! Sliding-window rate limiter. Each key (a peer) gets at most `limit` granted
//! events per window of length `window`; a request past the limit is refused
//! without side effect. Idle windows are garbage-collected by `sweep`. A
//! limiter is owned by one component and mutated only through `&mut`, so
//! token accounting is serialized per limiter and never double-spends.

use vstd::prelude::*;

use crate::types::PeerId;

verus! {

/// Per-key counter: how many events were granted since `window_start`.
#[derive(Clone, Copy, PartialEq, Eq, Structural, Debug)]
pub struct RateWindow {
    pub key: PeerId,
    pub window_start: u64,
    pub count: u64,
}

/// Token accounting for one kind of request, over all peers.
pub struct Limiter {
    /// Events granted per key within one window; strictly positive.
    pub limit: u64,
    /// Window length; strictly positive.
    pub window: u64,
    /// One live window per key.
    pub entries: Vec<RateWindow>,
}

/// No two entries share a key.
pub open spec fn unique_keys(s: Seq<RateWindow>) -> bool {
    forall|i: int, j: int|
        0 <= i < s.len() && 0 <= j < s.len() && i != j ==> s[i].key != s[j].key
}

/// Some entry carries this key.
pub open spec fn has_key(s: Seq<RateWindow>, p: PeerId) -> bool {
    exists|i: int| 0 <= i < s.len() && s[i].key == p
}

/// The entry carrying this key (meaningful only when `has_key` holds and keys
/// are unique).
pub open spec fn window_of(s: Seq<RateWindow>, p: PeerId) -> RateWindow {
    s[choose|i: int| 0 <= i < s.len() && s[i].key == p]
}

/// The entries as a map from key to window.
pub open spec fn windows_map(s: Seq<RateWindow>) -> Map<PeerId, RateWindow> {
    Map::new(|p: PeerId| has_key(s, p), |p: PeerId| window_of(s, p))
}

/// The first instant at which an entry's window is over.
pub open spec fn window_deadline(e: RateWindow, window: u64) -> u64 {
    e.window_start.saturating_add(window)
}

/// Under unique keys, the entry at index `i` is what the map view holds for
/// its key.
pub proof fn lemma_window_at_index(s: Seq<RateWindow>, i: int)
    requires
        unique_keys(s),
        0 <= i < s.len(),
    ensures
        has_key(s, s[i].key),
        window_of(s, s[i].key) == s[i],
        windows_map(s).dom().contains(s[i].key),
        windows_map(s)[s[i].key] == s[i],
{
    assert(has_key(s, s[i].key));
    let j = choose|j: int| 0 <= j < s.len() && s[j].key == s[i].key;
    assert(j == i);
}

/// Replacing the entry at `i` by one with the same key is, on the map view, an
/// insert for that key.
pub proof fn lemma_update_entry(s: Seq<RateWindow>, i: int, e: RateWindow)
    requires
        unique_keys(s),
        0 <= i < s.len(),
        e.key == s[i].key,
    ensures
        unique_keys(s.update(i, e)),
        windows_map(s.update(i, e)) =~= windows_map(s).insert(e.key, e),
{
    let t = s.update(i, e);
    assert(forall|a: int| 0 <= a < t.len() ==> t[a].key == s[a].key);
    assert(unique_keys(t));
    assert forall|q: PeerId| has_key(t, q) == has_key(s, q) by {
        if has_key(t, q) {
            let a = choose|a: int| 0 <= a < t.len() && t[a].key == q;
            assert(s[a].key == q);
        }
        if has_key(s, q) {
            let a = choose|a: int| 0 <= a < s.len() && s[a].key == q;
            assert(t[a].key == q);
        }
    }
    assert forall|q: PeerId| #[trigger] windows_map(t).dom().contains(q) implies windows_map(t)[q]
        == windows_map(s).insert(e.key, e)[q] by {
        if q == e.key {
            lemma_window_at_index(t, i);
        } else {
            let a = choose|a: int| 0 <= a < s.len() && s[a].key == q;
            lemma_window_at_index(t, a);
            lemma_window_at_index(s, a);
        }
    }
}

/// Appending an entry with a fresh key is, on the map view, an insert for
/// that key.
pub proof fn lemma_push_entry(s: Seq<RateWindow>, e: RateWindow)
    requires
        unique_keys(s),
        !has_key(s, e.key),
    ensures
        unique_keys(s.push(e)),
        windows_map(s.push(e)) =~= windows_map(s).insert(e.key, e),
{
    let t = s.push(e);
    assert(forall|a: int| 0 <= a < s.len() ==> t[a] == s[a]);
    assert(t[s.len() as int] == e);
    assert(unique_keys(t));
    assert forall|q: PeerId| #[trigger] windows_map(t).dom().contains(q) implies windows_map(t)[q]
        == windows_map(s).insert(e.key, e)[q] by {
        if q == e.key {
            lemma_window_at_index(t, s.len() as int);
        } else {
            let a = choose|a: int| 0 <= a < t.len() && t[a].key == q;
            assert(a < s.len());
            lemma_window_at_index(t, a);
            lemma_window_at_index(s, a);
        }
    }
    assert forall|q: PeerId| #[trigger] windows_map(s).insert(e.key, e).dom().contains(q) implies
        windows_map(t).dom().contains(q) by {
        if q == e.key {
            lemma_window_at_index(t, s.len() as int);
        } else {
            let a = choose|a: int| 0 <= a < s.len() && s[a].key == q;
            assert(t[a].key == q);
        }
    }
}

/// The entries whose window still runs at `now`, in order.
pub open spec fn fresh_entries(s: Seq<RateWindow>, now: u64, window: u64) -> Seq<RateWindow>
    decreases s.len(),
{
    if s.len() == 0 {
        Seq::empty()
    } else if now < window_deadline(s.last(), window) {
        fresh_entries(s.drop_last(), now, window).push(s.last())
    } else {
        fresh_entries(s.drop_last(), now, window)
    }
}

impl View for Limiter {
    type V = Map<PeerId, RateWindow>;

    open spec fn view(&self) -> Map<PeerId, RateWindow> {
        windows_map(self.entries@)
    }
}

impl Limiter {
    /// Limits are positive, keys unique, every count between one and the limit.
    pub open spec fn wf(self) -> bool {
        &&& self.limit > 0
        &&& self.window > 0
        &&& unique_keys(self.entries@)
        &&& forall|i: int|
            0 <= i < self.entries@.len() ==> 1 <= (#[trigger] self.entries@[i]).count
                <= self.limit
    }

    /// The key has no running window at `now`: none recorded, or the recorded
    /// one is over.
    pub open spec fn fresh_window(self, key: PeerId, now: u64) -> bool {
        !self@.dom().contains(key) || now >= window_deadline(self@[key], self.window)
    }

    /// A request from `key` at `now` would be granted.
    pub open spec fn would_grant(self, key: PeerId, now: u64) -> bool {
        self.fresh_window(key, now) || self@[key].count < self.limit
    }

    /// The window recorded for `key` after a grant at `now`.
    pub open spec fn granted_window(self, key: PeerId, now: u64) -> RateWindow {
        if self.fresh_window(key, now) {
            RateWindow { key, window_start: now, count: 1 }
        } else {
            RateWindow {
                key,
                window_start: self@[key].window_start,
                count: (self@[key].count + 1) as u64,
            }
        }
    }

    /// A limiter with no running windows.
    pub fn new(limit: u64, window: u64) -> (r: Limiter)
        requires
            limit > 0,
            window > 0,
        ensures
            r.wf(),
            r.limit == limit,
            r.window == window,
            r@ =~= Map::<PeerId, RateWindow>::empty(),
            r.entries@ == Seq::<RateWindow>::empty(),
    {
        let r = Limiter { limit, window, entries: Vec::new() };
        proof {
            assert forall|p: PeerId| !(#[trigger] r@.dom().contains(p)) by {
                assert(!has_key(r.entries@, p));
            }
        }
        r
    }

    /// Spend one token for `key` at `now`. Grants while the key's window holds
    /// fewer than `limit` events (opening a fresh window when none runs), and
    /// refuses without any change once the limit is reached.
    pub fn allow(&mut self, key: PeerId, now: u64) -> (granted: bool)
        requires
            old(self).wf(),
        ensures
            final(self).wf(),
            final(self).limit == old(self).limit,
            final(self).window == old(self).window,
            granted == old(self).would_grant(key, now),
            granted ==> final(self)@ =~= old(self)@.insert(
                key,
                old(self).granted_window(key, now),
            ),
            !granted ==> final(self).entries@ == old(self).entries@,
    {
        match find_key(&self.entries, key) {
            Some(i) => {
                proof {
                    lemma_window_at_index(self.entries@, i as int);
                }
                let e = self.entries[i];
                if now >= e.window_start.saturating_add(self.window) {
                    let nw = RateWindow { key, window_start: now, count: 1 };
                    proof {
                        lemma_update_entry(self.entries@, i as int, nw);
                    }
                    self.entries[i] = nw;
                    true
                } else if e.count < self.limit {
                    let nw = RateWindow { key, window_start: e.window_start, count: e.count + 1 };
                    proof {
                        lemma_update_entry(self.entries@, i as int, nw);
                    }
                    self.entries[i] = nw;
                    true
                } else {
                    false
                }
            },
            None => {
                let nw = RateWindow { key, window_start: now, count: 1 };
                proof {
                    lemma_push_entry(self.entries@, nw);
                }
                self.entries.push(nw);
                true
            },
        }
    }

    /// Drop every window that is over at `now`; live windows are kept
    /// unchanged, in order.
    pub fn sweep(&mut self, now: u64)
        requires
            old(self).wf(),
        ensures
            final(self).wf(),
            final(self).limit == old(self).limit,
            final(self).window == old(self).window,
            final(self).entries@ == fresh_entries(old(self).entries@, now, old(self).window),
    {
        let ghost s = self.entries@;
        let mut kept: Vec<RateWindow> = Vec::new();
        let mut i: usize = 0;
        while i < self.entries.len()
            invariant
                0 <= i <= self.entries@.len(),
                self.entries@ == s,
                self.window == old(self).window,
                self.limit == old(self).limit,
                kept@ == fresh_entries(s.take(i as int), now, self.window),
            decreases self.entries@.len() - i,
        {
            let e = self.entries[i];
            proof {
                assert(s.take(i + 1).drop_last() =~= s.take(i as int));
                assert(s.take(i + 1).last() == s[i as int]);
            }
            if now < e.window_start.saturating_add(self.window) {
                kept.push(e);
            }
            i += 1;
        }
        proof {
            assert(s.take(s.len() as int) =~= s);
            lemma_fresh_entries_wf(s, now, old(self).window, old(self).limit);
        }
        self.entries = kept;
    }
}

/// No key is ever granted more than `limit` events within one window: every
/// recorded count stays within the limit.
pub proof fn lemma_grants_within_limit(l: &Limiter)
    requires
        l.wf(),
    ensures
        forall|p: PeerId| #[trigger]
            l@.dom().contains(p) ==> 1 <= l@[p].count <= l.limit,
{
    assert forall|p: PeerId| #[trigger] l@.dom().contains(p) implies 1 <= l@[p].count
        <= l.limit by {
        let i = choose|i: int| 0 <= i < l.entries@.len() && l.entries@[i].key == p;
        lemma_window_at_index(l.entries@, i);
    }
}

/// A sweep keeps keys unique and counts in range.
pub proof fn lemma_fresh_entries_wf(s: Seq<RateWindow>, now: u64, window: u64, limit: u64)
    requires
        unique_keys(s),
        forall|i: int| 0 <= i < s.len() ==> 1 <= (#[trigger] s[i]).count <= limit,
    ensures
        unique_keys(fresh_entries(s, now, window)),
        forall|i: int|
            0 <= i < fresh_entries(s, now, window).len() ==> 1 <= (#[trigger] fresh_entries(
                s,
                now,
                window,
            )[i]).count <= limit,
        forall|p: PeerId| has_key(fresh_entries(s, now, window), p) ==> has_key(s, p),
    decreases s.len(),
{
    if s.len() > 0 {
        let d = s.drop_last();
        assert(forall|i: int| 0 <= i < d.len() ==> d[i] == s[i]);
        lemma_fresh_entries_wf(d, now, window, limit);
        let f = fresh_entries(s, now, window);
        let fd = fresh_entries(d, now, window);
        assert forall|p: PeerId| has_key(fd, p) implies has_key(s, p) by {
            assert(has_key(d, p));
            let b = choose|b: int| 0 <= b < d.len() && d[b].key == p;
            assert(0 <= b < s.len() && s[b].key == p);
        }
        if now < window_deadline(s.last(), window) {
            assert(f == fd.push(s.last()));
            assert forall|p: PeerId| has_key(f, p) implies has_key(s, p) by {
                let a = choose|a: int| 0 <= a < f.len() && f[a].key == p;
                if a < fd.len() {
                    assert(fd[a].key == p);
                    assert(has_key(fd, p));
                } else {
                    assert(f[a] == s.last());
                    assert(0 <= s.len() - 1 < s.len() && s[s.len() - 1].key == p);
                }
            }
            assert forall|i: int, j: int|
                0 <= i < f.len() && 0 <= j < f.len() && i != j implies f[i].key != f[j].key by {
                if i < fd.len() && j < fd.len() {
                } else if i < fd.len() {
                    assert(fd[i].key == f[i].key);
                    assert(has_key(fd, f[i].key));
                    assert(has_key(d, f[i].key));
                    let a = choose|a: int| 0 <= a < d.len() && d[a].key == f[i].key;
                    assert(s[a].key == f[i].key);
                    assert(a != s.len() - 1);
                    assert(f[j] == s.last());
                } else {
                    assert(fd[j].key == f[j].key);
                    assert(has_key(fd, f[j].key));
                    assert(has_key(d, f[j].key));
                    let a = choose|a: int| 0 <= a < d.len() && d[a].key == f[j].key;
                    assert(s[a].key == f[j].key);
                    assert(a != s.len() - 1);
                    assert(f[i] == s.last());
                }
            }
        } else {
            assert(f == fd);
        }
    }
}

/// Index of the entry carrying `key`, if any.
fn find_key(entries: &Vec<RateWindow>, key: PeerId) -> (r: Option<usize>)
    ensures
        match r {
            Some(i) => i < entries@.len() && entries@[i as int].key == key,
            None => !has_key(entries@, key),
        },
{
    let mut i: usize = 0;
    while i < entries.len()
        invariant
            0 <= i <= entries@.len(),
            forall|j: int| 0 <= j < i ==> entries@[j].key != key,
        decreases entries@.len() - i,
    {
        if entries[i].key == key {
            return Some(i);
        }
        i += 1;
    }
    None
}

} // verus!
