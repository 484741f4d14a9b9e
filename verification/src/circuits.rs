//! Circuits: relayed byte-forwarding sessions between two peers, each with a
//! byte budget and a duration ceiling fixed when it opens. The table meters
//! every forward against the budget — a circuit never relays more bytes than
//! its budget and is closed by a sweep once its duration is over.

use vstd::prelude::*;

use crate::limiter::Limiter;
use crate::reservations::ReservationStore;
use crate::types::CircuitId;
use crate::types::DenyReason;
use crate::types::ForwardError;
use crate::types::PeerId;

verus! {

/// Lifecycle of a circuit. `Closing` means the budget is spent: nothing may be
/// relayed any more, the close with its cause is still owed.
#[derive(Clone, Copy, PartialEq, Eq, Structural, Debug)]
pub enum CircuitState {
    Open,
    Closing,
    Closed,
}

/// One relayed session. Owned exclusively by the table for its lifetime; the
/// host keeps the two transport streams keyed by `id` and releases them
/// together when told the circuit closed.
#[derive(Clone, Copy, PartialEq, Eq, Structural, Debug)]
pub struct Circuit {
    pub id: CircuitId,
    pub src: PeerId,
    pub dst: PeerId,
    pub opened_at: u64,
    /// Granted lifetime: the requested duration clamped to the table ceiling.
    pub max_duration: u64,
    /// Total bytes relayed so far; only grows.
    pub bytes_forwarded: u64,
    /// Budget left; only shrinks.
    pub bytes_remaining: u64,
    pub state: CircuitState,
}

/// Tracks the active circuits and their budgets.
pub struct CircuitTable {
    /// Longest lifetime granted; requested durations are clamped to it.
    pub max_duration: u64,
    /// Byte budget of each circuit.
    pub max_bytes: u64,
    /// Most circuits open at once, over all peers.
    pub max_circuits: u64,
    /// Most circuits open at once toward one destination peer.
    pub max_circuits_per_peer: u64,
    /// Every circuit this table ever opened. Closed ones stay as records, so
    /// a late forward on a spent circuit is refused deterministically rather
    /// than mistaken for an unknown one.
    pub entries: Vec<Circuit>,
    /// Identifiers ever handed out; every recorded id is below it.
    pub next_id: u64,
}

/// No two entries share an identifier.
pub open spec fn unique_ids(s: Seq<Circuit>) -> bool {
    forall|i: int, j: int| 0 <= i < s.len() && 0 <= j < s.len() && i != j ==> s[i].id != s[j].id
}

/// Some entry carries this identifier.
pub open spec fn has_id(s: Seq<Circuit>, id: CircuitId) -> bool {
    exists|i: int| 0 <= i < s.len() && s[i].id == id
}

/// The entry carrying this identifier (meaningful only when `has_id` holds and
/// identifiers are unique).
pub open spec fn circuit_of(s: Seq<Circuit>, id: CircuitId) -> Circuit {
    s[choose|i: int| 0 <= i < s.len() && s[i].id == id]
}

/// The entries as a map from identifier to circuit.
pub open spec fn circ_map(s: Seq<Circuit>) -> Map<CircuitId, Circuit> {
    Map::new(|id: CircuitId| has_id(s, id), |id: CircuitId| circuit_of(s, id))
}

/// One if the circuit is open, else zero.
pub open spec fn count_one(c: Circuit) -> int {
    if c.state is Open {
        1int
    } else {
        0int
    }
}

/// One if the circuit is open toward `p`, else zero.
pub open spec fn count_one_for(c: Circuit, p: PeerId) -> int {
    if c.state is Open && c.dst == p {
        1int
    } else {
        0int
    }
}

/// How many circuits are open.
pub open spec fn open_count(s: Seq<Circuit>) -> int
    decreases s.len(),
{
    if s.len() == 0 {
        0int
    } else {
        open_count(s.drop_last()) + count_one(s.last())
    }
}

/// How many circuits are open toward `p`.
pub open spec fn open_count_for(s: Seq<Circuit>, p: PeerId) -> int
    decreases s.len(),
{
    if s.len() == 0 {
        0int
    } else {
        open_count_for(s.drop_last(), p) + count_one_for(s.last(), p)
    }
}

/// The circuit's lifetime is over at `now`.
pub open spec fn overdue(c: Circuit, now: u64) -> bool {
    c.opened_at.saturating_add(c.max_duration) <= now
}

/// The same circuit, closed.
pub open spec fn close_entry(c: Circuit) -> Circuit {
    Circuit {
        id: c.id,
        src: c.src,
        dst: c.dst,
        opened_at: c.opened_at,
        max_duration: c.max_duration,
        bytes_forwarded: c.bytes_forwarded,
        bytes_remaining: c.bytes_remaining,
        state: CircuitState::Closed,
    }
}

/// What a sweep at `now` leaves of one entry.
pub open spec fn swept_entry(c: Circuit, now: u64) -> Circuit {
    if c.state is Closed || !overdue(c, now) {
        c
    } else {
        close_entry(c)
    }
}

/// What a sweep at `now` leaves of the table.
pub open spec fn swept_entries(s: Seq<Circuit>, now: u64) -> Seq<Circuit> {
    Seq::new(s.len(), |i: int| swept_entry(s[i], now))
}

/// The identifiers a sweep at `now` closes, in entry order.
pub open spec fn overdue_ids(s: Seq<Circuit>, now: u64) -> Seq<CircuitId>
    decreases s.len(),
{
    if s.len() == 0 {
        Seq::empty()
    } else if s.last().state is Closed || !overdue(s.last(), now) {
        overdue_ids(s.drop_last(), now)
    } else {
        overdue_ids(s.drop_last(), now).push(s.last().id)
    }
}

/// Every entry, closed.
pub open spec fn all_closed(s: Seq<Circuit>) -> Seq<Circuit> {
    Seq::new(s.len(), |i: int| close_entry(s[i]))
}

/// The identifiers of entries not yet closed, in entry order.
pub open spec fn live_ids(s: Seq<Circuit>) -> Seq<CircuitId>
    decreases s.len(),
{
    if s.len() == 0 {
        Seq::empty()
    } else if s.last().state is Closed {
        live_ids(s.drop_last())
    } else {
        live_ids(s.drop_last()).push(s.last().id)
    }
}

/// Under unique identifiers, the entry at index `i` is what the map view holds
/// for its identifier.
pub proof fn lemma_circuit_at_index(s: Seq<Circuit>, i: int)
    requires
        unique_ids(s),
        0 <= i < s.len(),
    ensures
        has_id(s, s[i].id),
        circuit_of(s, s[i].id) == s[i],
        circ_map(s).dom().contains(s[i].id),
        circ_map(s)[s[i].id] == s[i],
{
    assert(has_id(s, s[i].id));
    let j = choose|j: int| 0 <= j < s.len() && s[j].id == s[i].id;
    assert(j == i);
}

/// Replacing the entry at `i` by one with the same identifier is, on the map
/// view, an insert for that identifier.
pub proof fn lemma_replace_circuit(s: Seq<Circuit>, i: int, e: Circuit)
    requires
        unique_ids(s),
        0 <= i < s.len(),
        e.id == s[i].id,
    ensures
        unique_ids(s.update(i, e)),
        circ_map(s.update(i, e)) =~= circ_map(s).insert(e.id, e),
{
    let t = s.update(i, e);
    assert(forall|a: int| 0 <= a < t.len() ==> t[a].id == s[a].id);
    assert(unique_ids(t));
    assert forall|q: CircuitId| has_id(t, q) == has_id(s, q) by {
        if has_id(t, q) {
            let a = choose|a: int| 0 <= a < t.len() && t[a].id == q;
            assert(s[a].id == q);
        }
        if has_id(s, q) {
            let a = choose|a: int| 0 <= a < s.len() && s[a].id == q;
            assert(t[a].id == q);
        }
    }
    assert forall|q: CircuitId| #[trigger] circ_map(t).dom().contains(q) implies circ_map(t)[q]
        == circ_map(s).insert(e.id, e)[q] by {
        if q == e.id {
            lemma_circuit_at_index(t, i);
        } else {
            let a = choose|a: int| 0 <= a < s.len() && s[a].id == q;
            lemma_circuit_at_index(t, a);
            lemma_circuit_at_index(s, a);
        }
    }
}

/// Appending an entry with a fresh identifier is, on the map view, an insert
/// for that identifier.
pub proof fn lemma_push_circuit(s: Seq<Circuit>, e: Circuit)
    requires
        unique_ids(s),
        !has_id(s, e.id),
    ensures
        unique_ids(s.push(e)),
        circ_map(s.push(e)) =~= circ_map(s).insert(e.id, e),
{
    let t = s.push(e);
    assert(forall|a: int| 0 <= a < s.len() ==> t[a] == s[a]);
    assert(t[s.len() as int] == e);
    assert(unique_ids(t));
    assert forall|q: CircuitId| #[trigger] circ_map(t).dom().contains(q) implies circ_map(t)[q]
        == circ_map(s).insert(e.id, e)[q] by {
        if q == e.id {
            lemma_circuit_at_index(t, s.len() as int);
        } else {
            let a = choose|a: int| 0 <= a < t.len() && t[a].id == q;
            assert(a < s.len());
            lemma_circuit_at_index(t, a);
            lemma_circuit_at_index(s, a);
        }
    }
    assert forall|q: CircuitId| #[trigger] circ_map(s).insert(e.id, e).dom().contains(q) implies
        circ_map(t).dom().contains(q) by {
        if q == e.id {
            lemma_circuit_at_index(t, s.len() as int);
        } else {
            let a = choose|a: int| 0 <= a < s.len() && s[a].id == q;
            assert(t[a].id == q);
        }
    }
}

/// How replacing one entry moves the open counts.
pub proof fn lemma_count_update(s: Seq<Circuit>, i: int, e: Circuit)
    requires
        0 <= i < s.len(),
    ensures
        open_count(s.update(i, e)) == open_count(s) - count_one(s[i]) + count_one(e),
        forall|p: PeerId| #[trigger]
            open_count_for(s.update(i, e), p) == open_count_for(s, p) - count_one_for(s[i], p)
                + count_one_for(e, p),
    decreases s.len(),
{
    let t = s.update(i, e);
    if i == s.len() - 1 {
        assert(t.drop_last() =~= s.drop_last());
        assert(t.last() == e);
        assert forall|p: PeerId| #[trigger]
            open_count_for(t, p) == open_count_for(s, p) - count_one_for(s[i], p) + count_one_for(
            e,
            p,
        ) by {
            assert(open_count_for(t, p) == open_count_for(s.drop_last(), p) + count_one_for(e, p));
            assert(open_count_for(s, p) == open_count_for(s.drop_last(), p) + count_one_for(
                s[i],
                p,
            ));
        }
    } else {
        assert(t.drop_last() =~= s.drop_last().update(i, e));
        assert(t.last() == s.last());
        lemma_count_update(s.drop_last(), i, e);
        assert(s.drop_last()[i] == s[i]);
        assert forall|p: PeerId| #[trigger]
            open_count_for(t, p) == open_count_for(s, p) - count_one_for(s[i], p) + count_one_for(
            e,
            p,
        ) by {
            assert(open_count_for(s.drop_last().update(i, e), p) == open_count_for(
                s.drop_last(),
                p,
            ) - count_one_for(s.drop_last()[i], p) + count_one_for(e, p));
            assert(open_count_for(t, p) == open_count_for(t.drop_last(), p) + count_one_for(
                t.last(),
                p,
            ));
            assert(open_count_for(s, p) == open_count_for(s.drop_last(), p) + count_one_for(
                s.last(),
                p,
            ));
        }
    }
}

/// How appending an entry moves the open counts.
pub proof fn lemma_count_push(s: Seq<Circuit>, e: Circuit)
    ensures
        open_count(s.push(e)) == open_count(s) + count_one(e),
        forall|p: PeerId| #[trigger]
            open_count_for(s.push(e), p) == open_count_for(s, p) + count_one_for(e, p),
{
    assert(s.push(e).drop_last() =~= s);
    assert(s.push(e).last() == e);
}

/// A table whose entries are the old ones except that some are no longer open
/// has open counts no larger than before.
pub proof fn lemma_counts_shrink(a: Seq<Circuit>, b: Seq<Circuit>)
    requires
        a.len() == b.len(),
        forall|i: int| 0 <= i < b.len() ==> b[i] == a[i] || !((#[trigger] b[i]).state is Open),
    ensures
        open_count(b) <= open_count(a),
        forall|p: PeerId| #[trigger] open_count_for(b, p) <= open_count_for(a, p),
    decreases a.len(),
{
    if a.len() > 0 {
        assert(forall|i: int|
            0 <= i < b.drop_last().len() ==> b.drop_last()[i] == a.drop_last()[i] || !((
            #[trigger] b.drop_last()[i]).state is Open));
        lemma_counts_shrink(a.drop_last(), b.drop_last());
        assert(b.last() == a.last() || !(b.last().state is Open));
        assert forall|p: PeerId| #[trigger] open_count_for(b, p) <= open_count_for(a, p) by {
            assert(open_count_for(b.drop_last(), p) <= open_count_for(a.drop_last(), p));
        }
    }
}

/// Entries that are all closed or not overdue are left alone by a sweep.
pub proof fn lemma_no_overdue_ids(s: Seq<Circuit>, now: u64)
    requires
        forall|i: int| 0 <= i < s.len() ==> (#[trigger] s[i]).state is Closed || !overdue(s[i], now),
    ensures
        overdue_ids(s, now) == Seq::<CircuitId>::empty(),
        swept_entries(s, now) == s,
    decreases s.len(),
{
    assert(swept_entries(s, now) =~= s);
    if s.len() > 0 {
        assert(forall|i: int| 0 <= i < s.drop_last().len() ==> s.drop_last()[i] == s[i]);
        lemma_no_overdue_ids(s.drop_last(), now);
    }
}

/// Sweeping is idempotent: a second sweep at the same instant, with no
/// activity in between, changes no entry and closes no circuit.
pub proof fn lemma_circuit_sweep_idempotent(s: Seq<Circuit>, now: u64)
    ensures
        swept_entries(swept_entries(s, now), now) == swept_entries(s, now),
        overdue_ids(swept_entries(s, now), now) == Seq::<CircuitId>::empty(),
{
    let t = swept_entries(s, now);
    assert(forall|i: int| 0 <= i < t.len() ==> (#[trigger] t[i]).state is Closed || !overdue(t[i], now));
    lemma_no_overdue_ids(t, now);
}

/// After a sweep no circuit stays open past its lifetime: whatever is still
/// open is not overdue.
pub proof fn lemma_sweep_leaves_no_overdue_open(s: Seq<Circuit>, now: u64)
    ensures
        forall|i: int|
            0 <= i < swept_entries(s, now).len() ==> ((#[trigger] swept_entries(s, now)[i]).state
                is Open ==> !overdue(swept_entries(s, now)[i], now)),
{
}

/// In a well-formed table no circuit has relayed more than the byte budget:
/// the accounting bounds what any pair of peers can consume.
pub proof fn lemma_forwarded_within_budget(t: &CircuitTable)
    requires
        t.wf(),
    ensures
        forall|i: int|
            0 <= i < t.entries@.len() ==> (#[trigger] t.entries@[i]).bytes_forwarded
                <= t.max_bytes,
{
}

/// A connect request toward a peer without a live reservation is refused as
/// `NoReservation`, whatever the state of the rate limiter.
pub proof fn lemma_no_reservation_always_refused(
    t: CircuitTable,
    limiter: Limiter,
    store: ReservationStore,
    src: PeerId,
    dst: PeerId,
    now: u64,
)
    requires
        !store.live(dst, now),
    ensures
        t.open_decision(limiter, store, src, dst, now) == Result::<
            CircuitId,
            DenyReason,
        >::Err(DenyReason::NoReservation),
{
}

impl View for CircuitTable {
    type V = Map<CircuitId, Circuit>;

    open spec fn view(&self) -> Map<CircuitId, Circuit> {
        circ_map(self.entries@)
    }
}

impl CircuitTable {
    /// Limits positive, identifiers unique and below `next_id`, accounting
    /// exact (forwarded plus remaining is the budget), open circuits have
    /// budget left, granted lifetimes within the ceiling, and both capacity
    /// bounds respected.
    pub open spec fn wf(self) -> bool {
        &&& self.max_duration > 0
        &&& self.max_bytes > 0
        &&& self.max_circuits > 0
        &&& self.max_circuits_per_peer > 0
        &&& unique_ids(self.entries@)
        &&& forall|i: int|
            0 <= i < self.entries@.len() ==> (#[trigger] self.entries@[i]).id.0 < self.next_id
        &&& forall|i: int|
            0 <= i < self.entries@.len() ==> (#[trigger] self.entries@[i]).bytes_forwarded
                + self.entries@[i].bytes_remaining == self.max_bytes
        &&& forall|i: int|
            0 <= i < self.entries@.len() ==> ((#[trigger] self.entries@[i]).state is Open
                ==> self.entries@[i].bytes_remaining > 0)
        &&& forall|i: int|
            0 <= i < self.entries@.len() ==> (#[trigger] self.entries@[i]).max_duration
                <= self.max_duration
        &&& open_count(self.entries@) <= self.max_circuits
        &&& forall|p: PeerId| #[trigger] open_count_for(self.entries@, p)
            <= self.max_circuits_per_peer
    }

    /// The circuit a granted connect request at `now` records.
    pub open spec fn new_circuit(
        self,
        src: PeerId,
        dst: PeerId,
        requested_duration: u64,
        now: u64,
    ) -> Circuit {
        Circuit {
            id: CircuitId(self.next_id),
            src,
            dst,
            opened_at: now,
            max_duration: if requested_duration <= self.max_duration {
                requested_duration
            } else {
                self.max_duration
            },
            bytes_forwarded: 0,
            bytes_remaining: self.max_bytes,
            state: CircuitState::Open,
        }
    }

    /// How a connect request fares. The reservation is consulted first, so a
    /// destination without a live reservation is refused as `NoReservation`
    /// whatever the rate limiter would say and without spending a token; then
    /// the source's rate, then the global and per-destination capacity; an
    /// exhausted identifier space counts as capacity.
    pub open spec fn open_decision(
        self,
        limiter: Limiter,
        store: ReservationStore,
        src: PeerId,
        dst: PeerId,
        now: u64,
    ) -> Result<CircuitId, DenyReason> {
        if !store.live(dst, now) {
            Result::Err(DenyReason::NoReservation)
        } else if !limiter.would_grant(src, now) {
            Result::Err(DenyReason::RateLimited)
        } else if open_count(self.entries@) >= self.max_circuits {
            Result::Err(DenyReason::CapacityExceeded)
        } else if open_count_for(self.entries@, dst) >= self.max_circuits_per_peer {
            Result::Err(DenyReason::CapacityExceeded)
        } else if self.next_id == u64::MAX {
            Result::Err(DenyReason::CapacityExceeded)
        } else {
            Result::Ok(CircuitId(self.next_id))
        }
    }

    /// The bytes a forward of `chunk_len` on this circuit would relay: the
    /// whole chunk, or the remaining budget as the allowed prefix.
    pub open spec fn forwarded_len(c: Circuit, chunk_len: u64) -> u64 {
        if chunk_len <= c.bytes_remaining {
            chunk_len
        } else {
            c.bytes_remaining
        }
    }

    /// The circuit after relaying `chunk_len` bytes (clamped to the budget):
    /// the accounting moves, and a spent budget puts it into `Closing`.
    pub open spec fn after_forward(c: Circuit, chunk_len: u64) -> Circuit {
        Circuit {
            id: c.id,
            src: c.src,
            dst: c.dst,
            opened_at: c.opened_at,
            max_duration: c.max_duration,
            bytes_forwarded: (c.bytes_forwarded + Self::forwarded_len(c, chunk_len)) as u64,
            bytes_remaining: (c.bytes_remaining - Self::forwarded_len(c, chunk_len)) as u64,
            state: if c.bytes_remaining == Self::forwarded_len(c, chunk_len) {
                CircuitState::Closing
            } else {
                CircuitState::Open
            },
        }
    }

    /// An empty table.
    pub fn new(max_duration: u64, max_bytes: u64, max_circuits: u64, max_circuits_per_peer: u64) -> (r:
        CircuitTable)
        requires
            max_duration > 0,
            max_bytes > 0,
            max_circuits > 0,
            max_circuits_per_peer > 0,
        ensures
            r.wf(),
            r.max_duration == max_duration,
            r.max_bytes == max_bytes,
            r.max_circuits == max_circuits,
            r.max_circuits_per_peer == max_circuits_per_peer,
            r.entries@ == Seq::<Circuit>::empty(),
            r.next_id == 0,
            r@ =~= Map::<CircuitId, Circuit>::empty(),
    {
        let r = CircuitTable {
            max_duration,
            max_bytes,
            max_circuits,
            max_circuits_per_peer,
            entries: Vec::new(),
            next_id: 0,
        };
        proof {
            assert forall|id: CircuitId| !(#[trigger] r@.dom().contains(id)) by {
                assert(!has_id(r.entries@, id));
            }
        }
        r
    }

    /// Open a circuit from `src` to `dst`. Refused as the decision says;
    /// granted, it records a fresh circuit with the clamped duration, the full
    /// byte budget and a never-used identifier. The rate token is spent only
    /// once the destination's reservation was found live.
    pub fn open(
        &mut self,
        limiter: &mut Limiter,
        store: &ReservationStore,
        src: PeerId,
        dst: PeerId,
        requested_duration: u64,
        now: u64,
    ) -> (r: Result<CircuitId, DenyReason>)
        requires
            old(self).wf(),
            old(limiter).wf(),
            store.wf(),
        ensures
            final(self).wf(),
            final(limiter).wf(),
            final(self).max_duration == old(self).max_duration,
            final(self).max_bytes == old(self).max_bytes,
            final(self).max_circuits == old(self).max_circuits,
            final(self).max_circuits_per_peer == old(self).max_circuits_per_peer,
            final(limiter).limit == old(limiter).limit,
            final(limiter).window == old(limiter).window,
            r == old(self).open_decision(*old(limiter), *store, src, dst, now),
            (r == Result::<CircuitId, DenyReason>::Err(DenyReason::NoReservation) || r == Result::<
                CircuitId,
                DenyReason,
            >::Err(DenyReason::RateLimited)) ==> final(limiter).entries@ == old(limiter).entries@,
            !(r == Result::<CircuitId, DenyReason>::Err(DenyReason::NoReservation) || r == Result::<
                CircuitId,
                DenyReason,
            >::Err(DenyReason::RateLimited)) ==> final(limiter)@ =~= old(limiter)@.insert(
                src,
                old(limiter).granted_window(src, now),
            ),
            r matches Result::Ok(id) ==> final(self).entries@ == old(self).entries@.push(
                old(self).new_circuit(src, dst, requested_duration, now),
            ) && id == CircuitId(old(self).next_id) && final(self).next_id == old(self).next_id
                + 1,
            r matches Result::Ok(id) ==> final(self)@ =~= old(self)@.insert(
                id,
                old(self).new_circuit(src, dst, requested_duration, now),
            ),
            r matches Result::Err(_) ==> final(self).entries@ == old(self).entries@
                && final(self).next_id == old(self).next_id,
    {
        if !store.is_live(dst, now) {
            return Result::Err(DenyReason::NoReservation);
        }
        if !limiter.allow(src, now) {
            return Result::Err(DenyReason::RateLimited);
        }
        let global = count_open(&self.entries);
        if global as u64 >= self.max_circuits {
            return Result::Err(DenyReason::CapacityExceeded);
        }
        let toward = count_open_for(&self.entries, dst);
        if toward as u64 >= self.max_circuits_per_peer {
            return Result::Err(DenyReason::CapacityExceeded);
        }
        if self.next_id == u64::MAX {
            return Result::Err(DenyReason::CapacityExceeded);
        }
        let duration = crate::types::min_u64(requested_duration, self.max_duration);
        let c = Circuit {
            id: CircuitId(self.next_id),
            src,
            dst,
            opened_at: now,
            max_duration: duration,
            bytes_forwarded: 0,
            bytes_remaining: self.max_bytes,
            state: CircuitState::Open,
        };
        proof {
            assert forall|i: int|
                0 <= i < self.entries@.len() implies (#[trigger] self.entries@[i]).id != c.id by {
                assert(self.entries@[i].id.0 < self.next_id);
            }
            assert(!has_id(self.entries@, c.id));
            lemma_push_circuit(self.entries@, c);
            lemma_count_push(self.entries@, c);
        }
        self.entries.push(c);
        self.next_id = self.next_id + 1;
        Result::Ok(c.id)
    }

    /// The circuit with this identifier, if recorded.
    pub fn get(&self, id: CircuitId) -> (r: Option<&Circuit>)
        requires
            self.wf(),
        ensures
            match r {
                Some(c) => self@.dom().contains(id) && *c == self@[id],
                None => !self@.dom().contains(id),
            },
    {
        match find_circuit(&self.entries, id) {
            Some(i) => {
                proof {
                    lemma_circuit_at_index(self.entries@, i as int);
                }
                Some(&self.entries[i])
            },
            None => None,
        }
    }

    /// Relay one chunk on a circuit. An open circuit relays the chunk, or the
    /// allowed prefix of it when the chunk overshoots the budget, and a spent
    /// budget puts the circuit into `Closing`; any other circuit — unknown,
    /// closing or closed — refuses with `QuotaExceeded` and nothing changes.
    /// The accounting never lets a circuit relay past its budget.
    pub fn forward(&mut self, id: CircuitId, chunk_len: u64) -> (r: Result<u64, ForwardError>)
        requires
            old(self).wf(),
        ensures
            final(self).wf(),
            final(self).max_duration == old(self).max_duration,
            final(self).max_bytes == old(self).max_bytes,
            final(self).max_circuits == old(self).max_circuits,
            final(self).max_circuits_per_peer == old(self).max_circuits_per_peer,
            final(self).next_id == old(self).next_id,
            r == (if old(self)@.dom().contains(id) && old(self)@[id].state is Open {
                Result::<u64, ForwardError>::Ok(Self::forwarded_len(old(self)@[id], chunk_len))
            } else {
                Result::<u64, ForwardError>::Err(ForwardError::QuotaExceeded)
            }),
            r matches Result::Ok(n) ==> n <= chunk_len && n <= old(self)@[id].bytes_remaining,
            r matches Result::Ok(_) ==> final(self)@ =~= old(self)@.insert(
                id,
                Self::after_forward(old(self)@[id], chunk_len),
            ),
            r matches Result::Err(_) ==> final(self).entries@ == old(self).entries@,
    {
        match find_circuit(&self.entries, id) {
            Some(i) => {
                proof {
                    lemma_circuit_at_index(self.entries@, i as int);
                }
                let c = self.entries[i];
                if !matches!(c.state, CircuitState::Open) {
                    return Result::Err(ForwardError::QuotaExceeded);
                }
                let n = crate::types::min_u64(chunk_len, c.bytes_remaining);
                let nc = Circuit {
                    id: c.id,
                    src: c.src,
                    dst: c.dst,
                    opened_at: c.opened_at,
                    max_duration: c.max_duration,
                    bytes_forwarded: c.bytes_forwarded + n,
                    bytes_remaining: c.bytes_remaining - n,
                    state: if c.bytes_remaining == n {
                        CircuitState::Closing
                    } else {
                        CircuitState::Open
                    },
                };
                proof {
                    lemma_replace_circuit(self.entries@, i as int, nc);
                    lemma_count_update(self.entries@, i as int, nc);
                }
                self.entries[i] = nc;
                Result::Ok(n)
            },
            None => Result::Err(ForwardError::QuotaExceeded),
        }
    }

    /// Close a circuit. Answers whether it was live (recorded and not yet
    /// closed); closing an unknown or already closed circuit is absorbed
    /// without any change. The record stays, so a later forward on the same
    /// identifier still answers `QuotaExceeded`.
    pub fn close(&mut self, id: CircuitId) -> (was_live: bool)
        requires
            old(self).wf(),
        ensures
            final(self).wf(),
            final(self).max_duration == old(self).max_duration,
            final(self).max_bytes == old(self).max_bytes,
            final(self).max_circuits == old(self).max_circuits,
            final(self).max_circuits_per_peer == old(self).max_circuits_per_peer,
            final(self).next_id == old(self).next_id,
            was_live == (old(self)@.dom().contains(id) && !(old(self)@[id].state is Closed)),
            was_live ==> final(self)@ =~= old(self)@.insert(id, close_entry(old(self)@[id])),
            !was_live ==> final(self).entries@ == old(self).entries@,
    {
        match find_circuit(&self.entries, id) {
            Some(i) => {
                proof {
                    lemma_circuit_at_index(self.entries@, i as int);
                }
                let c = self.entries[i];
                if matches!(c.state, CircuitState::Closed) {
                    return false;
                }
                let nc = Circuit {
                    id: c.id,
                    src: c.src,
                    dst: c.dst,
                    opened_at: c.opened_at,
                    max_duration: c.max_duration,
                    bytes_forwarded: c.bytes_forwarded,
                    bytes_remaining: c.bytes_remaining,
                    state: CircuitState::Closed,
                };
                proof {
                    lemma_replace_circuit(self.entries@, i as int, nc);
                    lemma_count_update(self.entries@, i as int, nc);
                }
                self.entries[i] = nc;
                true
            },
            None => false,
        }
    }

    /// Close every circuit whose lifetime is over at `now`; the rest stay
    /// untouched. Returns the identifiers closed, in entry order. A second
    /// sweep at the same instant closes nothing further.
    pub fn sweep(&mut self, now: u64) -> (closed: Vec<CircuitId>)
        requires
            old(self).wf(),
        ensures
            final(self).wf(),
            final(self).max_duration == old(self).max_duration,
            final(self).max_bytes == old(self).max_bytes,
            final(self).max_circuits == old(self).max_circuits,
            final(self).max_circuits_per_peer == old(self).max_circuits_per_peer,
            final(self).next_id == old(self).next_id,
            final(self).entries@ == swept_entries(old(self).entries@, now),
            closed@ == overdue_ids(old(self).entries@, now),
    {
        let ghost s = self.entries@;
        let mut closed: Vec<CircuitId> = Vec::new();
        let mut i: usize = 0;
        while i < self.entries.len()
            invariant
                0 <= i <= s.len(),
                self.entries@.len() == s.len(),
                self.max_duration == old(self).max_duration,
                self.max_bytes == old(self).max_bytes,
                self.max_circuits == old(self).max_circuits,
                self.max_circuits_per_peer == old(self).max_circuits_per_peer,
                self.next_id == old(self).next_id,
                forall|j: int| 0 <= j < i ==> self.entries@[j] == swept_entries(s, now)[j],
                forall|j: int| i <= j < s.len() ==> self.entries@[j] == s[j],
                closed@ == overdue_ids(s.take(i as int), now),
            decreases s.len() - i,
        {
            proof {
                assert(s.take(i + 1).drop_last() =~= s.take(i as int));
                assert(s.take(i + 1).last() == s[i as int]);
            }
            let c = self.entries[i];
            if !matches!(c.state, CircuitState::Closed) && c.opened_at.saturating_add(
                c.max_duration,
            ) <= now {
                let nc = Circuit {
                    id: c.id,
                    src: c.src,
                    dst: c.dst,
                    opened_at: c.opened_at,
                    max_duration: c.max_duration,
                    bytes_forwarded: c.bytes_forwarded,
                    bytes_remaining: c.bytes_remaining,
                    state: CircuitState::Closed,
                };
                self.entries[i] = nc;
                closed.push(c.id);
            }
            i += 1;
        }
        proof {
            assert(s.take(s.len() as int) =~= s);
            assert(self.entries@ =~= swept_entries(s, now));
            let t = swept_entries(s, now);
            assert(forall|a: int| 0 <= a < t.len() ==> (#[trigger] t[a]).id == s[a].id);
            assert(unique_ids(t));
            assert(forall|a: int| 0 <= a < t.len() ==> t[a] == s[a] || !((#[trigger] t[a]).state
                is Open));
            lemma_counts_shrink(s, t);
        }
        closed
    }

    /// Close every circuit not yet closed, whatever its deadline; used at
    /// shutdown. Returns the identifiers closed, in entry order.
    pub fn close_all(&mut self) -> (closed: Vec<CircuitId>)
        requires
            old(self).wf(),
        ensures
            final(self).wf(),
            final(self).max_duration == old(self).max_duration,
            final(self).max_bytes == old(self).max_bytes,
            final(self).max_circuits == old(self).max_circuits,
            final(self).max_circuits_per_peer == old(self).max_circuits_per_peer,
            final(self).next_id == old(self).next_id,
            final(self).entries@ == all_closed(old(self).entries@),
            closed@ == live_ids(old(self).entries@),
            forall|i: int|
                0 <= i < final(self).entries@.len() ==> (#[trigger] final(self).entries@[i]).state
                    is Closed,
            open_count(final(self).entries@) == 0,
    {
        let ghost s = self.entries@;
        let mut closed: Vec<CircuitId> = Vec::new();
        let mut i: usize = 0;
        while i < self.entries.len()
            invariant
                0 <= i <= s.len(),
                self.entries@.len() == s.len(),
                self.max_duration == old(self).max_duration,
                self.max_bytes == old(self).max_bytes,
                self.max_circuits == old(self).max_circuits,
                self.max_circuits_per_peer == old(self).max_circuits_per_peer,
                self.next_id == old(self).next_id,
                forall|j: int| 0 <= j < i ==> self.entries@[j] == all_closed(s)[j],
                forall|j: int| i <= j < s.len() ==> self.entries@[j] == s[j],
                closed@ == live_ids(s.take(i as int)),
            decreases s.len() - i,
        {
            proof {
                assert(s.take(i + 1).drop_last() =~= s.take(i as int));
                assert(s.take(i + 1).last() == s[i as int]);
            }
            let c = self.entries[i];
            if !matches!(c.state, CircuitState::Closed) {
                closed.push(c.id);
            }
            let nc = Circuit {
                id: c.id,
                src: c.src,
                dst: c.dst,
                opened_at: c.opened_at,
                max_duration: c.max_duration,
                bytes_forwarded: c.bytes_forwarded,
                bytes_remaining: c.bytes_remaining,
                state: CircuitState::Closed,
            };
            self.entries[i] = nc;
            i += 1;
        }
        proof {
            assert(s.take(s.len() as int) =~= s);
            assert(self.entries@ =~= all_closed(s));
            let t = all_closed(s);
            assert(forall|a: int| 0 <= a < t.len() ==> (#[trigger] t[a]).id == s[a].id);
            assert(unique_ids(t));
            assert(forall|a: int| 0 <= a < t.len() ==> !((#[trigger] t[a]).state is Open));
            lemma_counts_shrink(s, t);
            lemma_open_count_of_closed(t);
        }
        closed
    }
}

/// A table of closed entries has no open circuit.
pub proof fn lemma_open_count_of_closed(s: Seq<Circuit>)
    requires
        forall|i: int| 0 <= i < s.len() ==> !((#[trigger] s[i]).state is Open),
    ensures
        open_count(s) == 0,
    decreases s.len(),
{
    if s.len() > 0 {
        assert(forall|i: int| 0 <= i < s.drop_last().len() ==> s.drop_last()[i] == s[i]);
        lemma_open_count_of_closed(s.drop_last());
    }
}

/// How many of the recorded circuits are open.
fn count_open(entries: &Vec<Circuit>) -> (n: usize)
    ensures
        n == open_count(entries@),
{
    let ghost s = entries@;
    let mut n: usize = 0;
    let mut i: usize = 0;
    while i < entries.len()
        invariant
            0 <= i <= s.len(),
            entries@ == s,
            n <= i,
            n == open_count(s.take(i as int)),
        decreases s.len() - i,
    {
        proof {
            assert(s.take(i + 1).drop_last() =~= s.take(i as int));
            assert(s.take(i + 1).last() == s[i as int]);
        }
        if matches!(entries[i].state, CircuitState::Open) {
            n += 1;
        }
        i += 1;
    }
    proof {
        assert(s.take(s.len() as int) =~= s);
    }
    n
}

/// How many of the recorded circuits are open toward `p`.
fn count_open_for(entries: &Vec<Circuit>, p: PeerId) -> (n: usize)
    ensures
        n == open_count_for(entries@, p),
{
    let ghost s = entries@;
    let mut n: usize = 0;
    let mut i: usize = 0;
    while i < entries.len()
        invariant
            0 <= i <= s.len(),
            entries@ == s,
            n <= i,
            n == open_count_for(s.take(i as int), p),
        decreases s.len() - i,
    {
        proof {
            assert(s.take(i + 1).drop_last() =~= s.take(i as int));
            assert(s.take(i + 1).last() == s[i as int]);
        }
        if matches!(entries[i].state, CircuitState::Open) && entries[i].dst == p {
            n += 1;
        }
        i += 1;
    }
    proof {
        assert(s.take(s.len() as int) =~= s);
    }
    n
}

/// Index of the entry carrying `id`, if any.
fn find_circuit(entries: &Vec<Circuit>, id: CircuitId) -> (r: Option<usize>)
    ensures
        match r {
            Some(i) => i < entries@.len() && entries@[i as int].id == id,
            None => !has_id(entries@, id),
        },
{
    let mut i: usize = 0;
    while i < entries.len()
        invariant
            0 <= i <= entries@.len(),
            forall|j: int| 0 <= j < i ==> entries@[j].id != id,
        decreases entries@.len() - i,
    {
        if entries[i].id == id {
            return Some(i);
        }
        i += 1;
    }
    None
}

} // verus!
