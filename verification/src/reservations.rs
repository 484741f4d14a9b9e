//! Reservations: which peers are reachable through this relay, and until when.
//! At most one live reservation per peer; a renewed request replaces the old
//! entry and resets its expiry. An expiry sweep runs on a cadence chosen by
//! the service, not on every operation.

use vstd::prelude::*;

use crate::limiter::Limiter;
use crate::types::DenyReason;
use crate::types::PeerId;

verus! {

/// A peer's registration with the relay. Owned exclusively by the store;
/// callers read it by reference.
#[derive(Debug)]
pub struct Reservation {
    pub peer: PeerId,
    /// First instant at which the reservation no longer counts as live.
    pub expires_at: u64,
    /// Addresses the peer announced when reserving; carried for the host,
    /// never read by the core.
    pub addrs: Vec<String>,
}

/// Tracks active reservations with a global capacity and a TTL ceiling.
pub struct ReservationStore {
    /// Longest lifetime granted; requested lifetimes are clamped to it.
    pub max_ttl: u64,
    /// Most reservations held at once.
    pub capacity: u64,
    /// One entry per reserved peer.
    pub entries: Vec<Reservation>,
}

/// No two entries belong to the same peer.
pub open spec fn unique_peers(s: Seq<Reservation>) -> bool {
    forall|i: int, j: int|
        0 <= i < s.len() && 0 <= j < s.len() && i != j ==> s[i].peer != s[j].peer
}

/// Some entry belongs to this peer.
pub open spec fn has_peer(s: Seq<Reservation>, p: PeerId) -> bool {
    exists|i: int| 0 <= i < s.len() && s[i].peer == p
}

/// The entry of this peer (meaningful only when `has_peer` holds and peers are
/// unique).
pub open spec fn res_of(s: Seq<Reservation>, p: PeerId) -> Reservation {
    s[choose|i: int| 0 <= i < s.len() && s[i].peer == p]
}

/// The entries as a map from peer to reservation.
pub open spec fn res_map(s: Seq<Reservation>) -> Map<PeerId, Reservation> {
    Map::new(|p: PeerId| has_peer(s, p), |p: PeerId| res_of(s, p))
}

/// The reservation written on a successful request.
pub open spec fn new_reservation(peer: PeerId, expires_at: u64, addrs: Vec<String>) -> Reservation {
    Reservation { peer, expires_at, addrs }
}

/// The entries still live at `now`, in order.
pub open spec fn live_entries(s: Seq<Reservation>, now: u64) -> Seq<Reservation>
    decreases s.len(),
{
    if s.len() == 0 {
        Seq::empty()
    } else if s.last().expires_at > now {
        live_entries(s.drop_last(), now).push(s.last())
    } else {
        live_entries(s.drop_last(), now)
    }
}

/// The peers whose entries a sweep at `now` removes, in order.
pub open spec fn expired_peers(s: Seq<Reservation>, now: u64) -> Seq<PeerId>
    decreases s.len(),
{
    if s.len() == 0 {
        Seq::empty()
    } else if s.last().expires_at > now {
        expired_peers(s.drop_last(), now)
    } else {
        expired_peers(s.drop_last(), now).push(s.last().peer)
    }
}

/// Under unique peers, the entry at index `i` is what the map view holds for
/// its peer.
pub proof fn lemma_res_at_index(s: Seq<Reservation>, i: int)
    requires
        unique_peers(s),
        0 <= i < s.len(),
    ensures
        has_peer(s, s[i].peer),
        res_of(s, s[i].peer) == s[i],
        res_map(s).dom().contains(s[i].peer),
        res_map(s)[s[i].peer] == s[i],
{
    assert(has_peer(s, s[i].peer));
    let j = choose|j: int| 0 <= j < s.len() && s[j].peer == s[i].peer;
    assert(j == i);
}

/// Replacing the entry at `i` by one of the same peer is, on the map view, an
/// insert for that peer.
pub proof fn lemma_replace_res(s: Seq<Reservation>, i: int, e: Reservation)
    requires
        unique_peers(s),
        0 <= i < s.len(),
        e.peer == s[i].peer,
    ensures
        unique_peers(s.update(i, e)),
        res_map(s.update(i, e)) =~= res_map(s).insert(e.peer, e),
{
    let t = s.update(i, e);
    assert(forall|a: int| 0 <= a < t.len() ==> t[a].peer == s[a].peer);
    assert(unique_peers(t));
    assert forall|q: PeerId| has_peer(t, q) == has_peer(s, q) by {
        if has_peer(t, q) {
            let a = choose|a: int| 0 <= a < t.len() && t[a].peer == q;
            assert(s[a].peer == q);
        }
        if has_peer(s, q) {
            let a = choose|a: int| 0 <= a < s.len() && s[a].peer == q;
            assert(t[a].peer == q);
        }
    }
    assert forall|q: PeerId| #[trigger] res_map(t).dom().contains(q) implies res_map(t)[q]
        == res_map(s).insert(e.peer, e)[q] by {
        if q == e.peer {
            lemma_res_at_index(t, i);
        } else {
            let a = choose|a: int| 0 <= a < s.len() && s[a].peer == q;
            lemma_res_at_index(t, a);
            lemma_res_at_index(s, a);
        }
    }
}

/// Appending an entry for a peer without one is, on the map view, an insert
/// for that peer.
pub proof fn lemma_push_res(s: Seq<Reservation>, e: Reservation)
    requires
        unique_peers(s),
        !has_peer(s, e.peer),
    ensures
        unique_peers(s.push(e)),
        res_map(s.push(e)) =~= res_map(s).insert(e.peer, e),
{
    let t = s.push(e);
    assert(forall|a: int| 0 <= a < s.len() ==> t[a] == s[a]);
    assert(t[s.len() as int] == e);
    assert(unique_peers(t));
    assert forall|q: PeerId| #[trigger] res_map(t).dom().contains(q) implies res_map(t)[q]
        == res_map(s).insert(e.peer, e)[q] by {
        if q == e.peer {
            lemma_res_at_index(t, s.len() as int);
        } else {
            let a = choose|a: int| 0 <= a < t.len() && t[a].peer == q;
            assert(a < s.len());
            lemma_res_at_index(t, a);
            lemma_res_at_index(s, a);
        }
    }
    assert forall|q: PeerId| #[trigger] res_map(s).insert(e.peer, e).dom().contains(q) implies
        res_map(t).dom().contains(q) by {
        if q == e.peer {
            lemma_res_at_index(t, s.len() as int);
        } else {
            let a = choose|a: int| 0 <= a < s.len() && s[a].peer == q;
            assert(t[a].peer == q);
        }
    }
}

/// A sweep keeps peers unique and removes no live entry.
pub proof fn lemma_live_entries_wf(s: Seq<Reservation>, now: u64)
    requires
        unique_peers(s),
    ensures
        unique_peers(live_entries(s, now)),
        live_entries(s, now).len() <= s.len(),
        forall|p: PeerId| has_peer(live_entries(s, now), p) ==> has_peer(s, p),
        forall|i: int|
            0 <= i < live_entries(s, now).len() ==> (#[trigger] live_entries(s, now)[i]).expires_at
                > now,
    decreases s.len(),
{
    if s.len() > 0 {
        let d = s.drop_last();
        assert(forall|i: int| 0 <= i < d.len() ==> d[i] == s[i]);
        lemma_live_entries_wf(d, now);
        let f = live_entries(s, now);
        let fd = live_entries(d, now);
        assert forall|p: PeerId| has_peer(fd, p) implies has_peer(s, p) by {
            assert(has_peer(d, p));
            let b = choose|b: int| 0 <= b < d.len() && d[b].peer == p;
            assert(0 <= b < s.len() && s[b].peer == p);
        }
        if s.last().expires_at > now {
            assert(f == fd.push(s.last()));
            assert forall|p: PeerId| has_peer(f, p) implies has_peer(s, p) by {
                let a = choose|a: int| 0 <= a < f.len() && f[a].peer == p;
                if a < fd.len() {
                    assert(fd[a].peer == p);
                    assert(has_peer(fd, p));
                } else {
                    assert(f[a] == s.last());
                    assert(0 <= s.len() - 1 < s.len() && s[s.len() - 1].peer == p);
                }
            }
            assert forall|i: int, j: int|
                0 <= i < f.len() && 0 <= j < f.len() && i != j implies f[i].peer != f[j].peer by {
                if i < fd.len() && j < fd.len() {
                } else if i < fd.len() {
                    assert(fd[i].peer == f[i].peer);
                    assert(has_peer(fd, f[i].peer));
                    assert(has_peer(d, f[i].peer));
                    let a = choose|a: int| 0 <= a < d.len() && d[a].peer == f[i].peer;
                    assert(s[a].peer == f[i].peer);
                    assert(a != s.len() - 1);
                    assert(f[j] == s.last());
                } else {
                    assert(fd[j].peer == f[j].peer);
                    assert(has_peer(fd, f[j].peer));
                    assert(has_peer(d, f[j].peer));
                    let a = choose|a: int| 0 <= a < d.len() && d[a].peer == f[j].peer;
                    assert(s[a].peer == f[j].peer);
                    assert(a != s.len() - 1);
                    assert(f[i] == s.last());
                }
            }
        } else {
            assert(f == fd);
        }
    }
}

/// A sweep over entries that are all live changes nothing and removes nobody.
pub proof fn lemma_sweep_of_live_is_noop(s: Seq<Reservation>, now: u64)
    requires
        forall|i: int| 0 <= i < s.len() ==> (#[trigger] s[i]).expires_at > now,
    ensures
        live_entries(s, now) == s,
        expired_peers(s, now) == Seq::<PeerId>::empty(),
    decreases s.len(),
{
    if s.len() > 0 {
        let d = s.drop_last();
        assert(forall|i: int| 0 <= i < d.len() ==> d[i] == s[i]);
        lemma_sweep_of_live_is_noop(d, now);
        assert(live_entries(s, now) =~= d.push(s.last()));
        assert(d.push(s.last()) =~= s);
    }
}

/// Sweeping is idempotent: a second sweep at the same instant, with no
/// activity in between, changes nothing and removes nobody.
pub proof fn lemma_sweep_idempotent(s: Seq<Reservation>, now: u64)
    requires
        unique_peers(s),
    ensures
        live_entries(live_entries(s, now), now) == live_entries(s, now),
        expired_peers(live_entries(s, now), now) == Seq::<PeerId>::empty(),
{
    lemma_live_entries_wf(s, now);
    lemma_sweep_of_live_is_noop(live_entries(s, now), now);
}

/// In a well-formed store two entries of the same peer are the same entry:
/// there is never a duplicate reservation.
pub proof fn lemma_at_most_one_reservation(store: &ReservationStore)
    requires
        store.wf(),
    ensures
        forall|i: int, j: int|
            0 <= i < store.entries@.len() && 0 <= j < store.entries@.len()
                && store.entries@[i].peer == store.entries@[j].peer ==> i == j,
{
}

impl View for ReservationStore {
    type V = Map<PeerId, Reservation>;

    open spec fn view(&self) -> Map<PeerId, Reservation> {
        res_map(self.entries@)
    }
}

impl ReservationStore {
    /// Limits are positive, peers unique, occupancy within capacity.
    pub open spec fn wf(self) -> bool {
        &&& self.max_ttl > 0
        &&& self.capacity > 0
        &&& unique_peers(self.entries@)
        &&& self.entries@.len() <= self.capacity
    }

    /// The peer holds a reservation that is still live at `now`.
    pub open spec fn live(self, peer: PeerId, now: u64) -> bool {
        self@.dom().contains(peer) && self@[peer].expires_at > now
    }

    /// The expiry granted at `now`: the requested lifetime, clamped to the
    /// ceiling, from now on.
    pub open spec fn granted_expiry(self, requested_ttl: u64, now: u64) -> u64 {
        now.saturating_add(
            if requested_ttl <= self.max_ttl {
                requested_ttl
            } else {
                self.max_ttl
            },
        )
    }

    /// How a request fares against the rate limiter and the capacity; requests
    /// past the rate limit are refused first, a full store refuses newcomers,
    /// and a peer that already holds a reservation may always renew it.
    pub open spec fn reserve_decision(
        self,
        limiter: Limiter,
        peer: PeerId,
        requested_ttl: u64,
        now: u64,
    ) -> Result<u64, DenyReason> {
        if !limiter.would_grant(peer, now) {
            Result::Err(DenyReason::RateLimited)
        } else if !has_peer(self.entries@, peer) && self.entries@.len() >= self.capacity {
            Result::Err(DenyReason::CapacityExceeded)
        } else {
            Result::Ok(self.granted_expiry(requested_ttl, now))
        }
    }

    /// An empty store.
    pub fn new(max_ttl: u64, capacity: u64) -> (r: ReservationStore)
        requires
            max_ttl > 0,
            capacity > 0,
        ensures
            r.wf(),
            r.max_ttl == max_ttl,
            r.capacity == capacity,
            r.entries@ == Seq::<Reservation>::empty(),
            r@ =~= Map::<PeerId, Reservation>::empty(),
    {
        let r = ReservationStore { max_ttl, capacity, entries: Vec::new() };
        proof {
            assert forall|p: PeerId| !(#[trigger] r@.dom().contains(p)) by {
                assert(!has_peer(r.entries@, p));
            }
        }
        r
    }

    /// Register or renew `peer`. Spends a rate token first; a refusal for rate
    /// leaves everything unchanged. A granted request writes the peer's single
    /// entry with expiry `now` plus the clamped lifetime, replacing any
    /// earlier entry; only a peer new to a full store is refused for capacity.
    pub fn reserve(
        &mut self,
        limiter: &mut Limiter,
        peer: PeerId,
        requested_ttl: u64,
        addrs: Vec<String>,
        now: u64,
    ) -> (r: Result<u64, DenyReason>)
        requires
            old(self).wf(),
            old(limiter).wf(),
        ensures
            final(self).wf(),
            final(limiter).wf(),
            final(self).max_ttl == old(self).max_ttl,
            final(self).capacity == old(self).capacity,
            final(limiter).limit == old(limiter).limit,
            final(limiter).window == old(limiter).window,
            r == old(self).reserve_decision(*old(limiter), peer, requested_ttl, now),
            r == Result::<u64, DenyReason>::Err(DenyReason::RateLimited)
                ==> final(limiter).entries@ == old(limiter).entries@,
            r != Result::<u64, DenyReason>::Err(DenyReason::RateLimited)
                ==> final(limiter)@ =~= old(limiter)@.insert(
                    peer,
                    old(limiter).granted_window(peer, now),
                ),
            r matches Result::Ok(e) ==> final(self)@ =~= old(self)@.insert(
                peer,
                new_reservation(peer, e, addrs),
            ),
            r matches Result::Ok(_) ==> final(self).entries@.len() == old(self).entries@.len() + (
            if has_peer(old(self).entries@, peer) {
                0int
            } else {
                1int
            }),
            r matches Result::Err(_) ==> final(self).entries@ == old(self).entries@,
    {
        if !limiter.allow(peer, now) {
            return Result::Err(DenyReason::RateLimited);
        }
        let ttl = crate::types::min_u64(requested_ttl, self.max_ttl);
        let expires_at = now.saturating_add(ttl);
        match find_peer(&self.entries, peer) {
            Some(i) => {
                let nw = Reservation { peer, expires_at, addrs };
                proof {
                    lemma_res_at_index(self.entries@, i as int);
                    lemma_replace_res(self.entries@, i as int, nw);
                }
                self.entries[i] = nw;
                Result::Ok(expires_at)
            },
            None => {
                if self.entries.len() as u64 >= self.capacity {
                    return Result::Err(DenyReason::CapacityExceeded);
                }
                let nw = Reservation { peer, expires_at, addrs };
                proof {
                    lemma_push_res(self.entries@, nw);
                }
                self.entries.push(nw);
                Result::Ok(expires_at)
            },
        }
    }

    /// The peer's reservation, if any. Never mutates.
    pub fn lookup(&self, peer: PeerId) -> (r: Option<&Reservation>)
        requires
            self.wf(),
        ensures
            match r {
                Some(res) => self@.dom().contains(peer) && *res == self@[peer],
                None => !self@.dom().contains(peer),
            },
    {
        match find_peer(&self.entries, peer) {
            Some(i) => {
                proof {
                    lemma_res_at_index(self.entries@, i as int);
                }
                Some(&self.entries[i])
            },
            None => None,
        }
    }

    /// Whether the peer's reservation is live at `now`.
    pub fn is_live(&self, peer: PeerId, now: u64) -> (r: bool)
        requires
            self.wf(),
        ensures
            r == self.live(peer, now),
    {
        match self.lookup(peer) {
            Some(res) => res.expires_at > now,
            None => false,
        }
    }

    /// Remove every entry whose expiry has arrived; live entries stay, in
    /// order. Returns the peers removed, in entry order.
    pub fn sweep(&mut self, now: u64) -> (expired: Vec<PeerId>)
        requires
            old(self).wf(),
        ensures
            final(self).wf(),
            final(self).max_ttl == old(self).max_ttl,
            final(self).capacity == old(self).capacity,
            final(self).entries@ == live_entries(old(self).entries@, now),
            expired@ == expired_peers(old(self).entries@, now),
    {
        let ghost s = self.entries@;
        let mut expired: Vec<PeerId> = Vec::new();
        let mut i: usize = 0;
        let ghost mut k: int = 0;
        while i < self.entries.len()
            invariant
                0 <= k <= s.len(),
                i == live_entries(s.take(k), now).len(),
                self.entries@ == live_entries(s.take(k), now) + s.skip(k),
                self.max_ttl == old(self).max_ttl,
                self.capacity == old(self).capacity,
                expired@ == expired_peers(s.take(k), now),
            decreases s.len() - k,
        {
            proof {
                assert(s.take(k + 1).drop_last() =~= s.take(k));
                assert(s.take(k + 1).last() == s[k]);
                assert(self.entries@[i as int] == s.skip(k)[0]);
                assert(s.skip(k)[0] == s[k]);
            }
            let live = self.entries[i].expires_at > now;
            if live {
                proof {
                    assert(live_entries(s.take(k + 1), now) == live_entries(s.take(k), now).push(
                        s[k],
                    ));
                    assert(live_entries(s.take(k), now).push(s[k]) + s.skip(k + 1)
                        =~= self.entries@);
                }
                i += 1;
            } else {
                let e = self.entries.remove(i);
                expired.push(e.peer);
                proof {
                    assert(live_entries(s.take(k + 1), now) == live_entries(s.take(k), now));
                    assert((live_entries(s.take(k), now) + s.skip(k)).remove(i as int)
                        =~= live_entries(s.take(k), now) + s.skip(k + 1));
                }
            }
            proof {
                k = k + 1;
            }
        }
        proof {
            assert(k == s.len());
            assert(s.take(s.len() as int) =~= s);
            assert(s.skip(s.len() as int) =~= Seq::<Reservation>::empty());
            assert(self.entries@ =~= live_entries(s, now));
            lemma_live_entries_wf(s, now);
        }
        expired
    }

    /// Drop every reservation at once; used at shutdown.
    pub fn clear(&mut self)
        requires
            old(self).wf(),
        ensures
            final(self).wf(),
            final(self).max_ttl == old(self).max_ttl,
            final(self).capacity == old(self).capacity,
            final(self).entries@ == Seq::<Reservation>::empty(),
    {
        self.entries.clear();
    }
}

/// Index of the entry belonging to `peer`, if any.
fn find_peer(entries: &Vec<Reservation>, peer: PeerId) -> (r: Option<usize>)
    ensures
        match r {
            Some(i) => i < entries@.len() && entries@[i as int].peer == peer,
            None => !has_peer(entries@, peer),
        },
{
    let mut i: usize = 0;
    while i < entries.len()
        invariant
            0 <= i <= entries@.len(),
            forall|j: int| 0 <= j < i ==> entries@[j].peer != peer,
        decreases entries@.len() - i,
    {
        if entries[i].peer == peer {
            return Some(i);
        }
        i += 1;
    }
    None
}

} // verus!
