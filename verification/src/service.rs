//! The relay service: reservations, circuits and the two rate limiters under
//! one roof, an event queue toward the host, the periodic expiry sweep, and a
//! graceful shutdown. The host event loop owns one value of `RelayService`,
//! drives it from protocol handlers, and drains its events.

use vstd::prelude::*;

use crate::circuits::all_closed;
use crate::circuits::close_entry;
use crate::circuits::live_ids;
use crate::circuits::overdue_ids;
use crate::circuits::swept_entries;
use crate::circuits::Circuit;
use crate::circuits::CircuitTable;
use crate::limiter::Limiter;
use crate::reservations::expired_peers;
use crate::reservations::has_peer;
use crate::reservations::live_entries;
use crate::reservations::new_reservation;
use crate::reservations::Reservation;
use crate::reservations::ReservationStore;
use crate::types::CircuitId;
use crate::types::CloseReason;
use crate::types::ConfigError;
use crate::types::DenyReason;
use crate::types::Event;
use crate::types::ForwardError;
use crate::types::PeerId;
use crate::types::RelayConfig;
use crate::types::Status;

verus! {

/// The relay protocol core. Fields are reachable for inspection; every
/// mutation goes through the operations below, which keep the invariants.
pub struct RelayService {
    pub reservations: ReservationStore,
    pub circuits: CircuitTable,
    /// Bounds reservation requests per peer and window.
    pub res_limiter: Limiter,
    /// Bounds connect requests per source peer and window.
    pub circ_limiter: Limiter,
    /// Events not yet drained by the host, oldest first.
    pub events: Vec<Event>,
    /// Set once by `shutdown`; afterwards every request is refused.
    pub shut_down: bool,
}

/// The events announcing expired reservations, in order.
pub open spec fn expired_events(peers: Seq<PeerId>) -> Seq<Event> {
    Seq::new(peers.len(), |i: int| Event::ReservationExpired { peer: peers[i] })
}

/// The events announcing closed circuits with one cause, in order.
pub open spec fn closed_events(ids: Seq<CircuitId>, cause: CloseReason) -> Seq<Event> {
    Seq::new(ids.len(), |i: int| Event::CircuitClosed { id: ids[i], cause })
}

/// The configured limits never move.
pub open spec fn same_config(pre: RelayService, post: RelayService) -> bool {
    &&& post.reservations.max_ttl == pre.reservations.max_ttl
    &&& post.reservations.capacity == pre.reservations.capacity
    &&& post.circuits.max_duration == pre.circuits.max_duration
    &&& post.circuits.max_bytes == pre.circuits.max_bytes
    &&& post.circuits.max_circuits == pre.circuits.max_circuits
    &&& post.circuits.max_circuits_per_peer == pre.circuits.max_circuits_per_peer
    &&& post.res_limiter.limit == pre.res_limiter.limit
    &&& post.res_limiter.window == pre.res_limiter.window
    &&& post.circ_limiter.limit == pre.circ_limiter.limit
    &&& post.circ_limiter.window == pre.circ_limiter.window
}

/// Nothing observable moved.
pub open spec fn unchanged_state(pre: RelayService, post: RelayService) -> bool {
    &&& post.reservations.entries@ == pre.reservations.entries@
    &&& post.circuits.entries@ == pre.circuits.entries@
    &&& post.circuits.next_id == pre.circuits.next_id
    &&& post.res_limiter.entries@ == pre.res_limiter.entries@
    &&& post.circ_limiter.entries@ == pre.circ_limiter.entries@
    &&& post.events@ == pre.events@
    &&& post.shut_down == pre.shut_down
}

/// Everything a reservation request does, as a relation between the service
/// before and after, the status answered, and the request.
pub open spec fn reserve_transition(
    pre: RelayService,
    post: RelayService,
    st: Status,
    peer: PeerId,
    requested_ttl: u64,
    addrs: Vec<String>,
    now: u64,
) -> bool {
    &&& same_config(pre, post)
    &&& post.shut_down == pre.shut_down
    &&& st == pre.reserve_status(peer, requested_ttl, now)
    &&& pre.shut_down ==> unchanged_state(pre, post)
    &&& !pre.shut_down ==> {
        let d = pre.reservations.reserve_decision(pre.res_limiter, peer, requested_ttl, now);
        &&& post.circuits.entries@ == pre.circuits.entries@
        &&& post.circuits.next_id == pre.circuits.next_id
        &&& post.circ_limiter.entries@ == pre.circ_limiter.entries@
        &&& d == Result::<u64, DenyReason>::Err(DenyReason::RateLimited)
            ==> post.res_limiter.entries@ == pre.res_limiter.entries@
        &&& d != Result::<u64, DenyReason>::Err(DenyReason::RateLimited)
            ==> post.res_limiter@ == pre.res_limiter@.insert(
                peer,
                pre.res_limiter.granted_window(peer, now),
            )
        &&& d matches Result::Ok(e) ==> post.reservations@ == pre.reservations@.insert(
            peer,
            new_reservation(peer, e, addrs),
        ) && post.reservations.entries@.len() == pre.reservations.entries@.len() + (
        if has_peer(pre.reservations.entries@, peer) {
            0int
        } else {
            1int
        }) && post.events@ == pre.events@.push(Event::ReservationAccepted { peer, expires_at: e })
        &&& d matches Result::Err(re) ==> post.reservations.entries@ == pre.reservations.entries@
            && post.events@ == pre.events@.push(Event::ReservationDenied { peer, reason: re })
    }
}

/// Everything a connect request does, as a relation between the service before
/// and after, the answer, and the request.
pub open spec fn connect_transition(
    pre: RelayService,
    post: RelayService,
    r: Result<CircuitId, DenyReason>,
    src: PeerId,
    dst: PeerId,
    requested_duration: u64,
    now: u64,
) -> bool {
    &&& same_config(pre, post)
    &&& post.shut_down == pre.shut_down
    &&& r == pre.connect_decision(src, dst, now)
    &&& pre.shut_down ==> unchanged_state(pre, post)
    &&& !pre.shut_down ==> {
        &&& post.reservations.entries@ == pre.reservations.entries@
        &&& post.res_limiter.entries@ == pre.res_limiter.entries@
        &&& (r == Result::<CircuitId, DenyReason>::Err(DenyReason::NoReservation) || r == Result::<
            CircuitId,
            DenyReason,
        >::Err(DenyReason::RateLimited)) ==> post.circ_limiter.entries@
            == pre.circ_limiter.entries@
        &&& !(r == Result::<CircuitId, DenyReason>::Err(DenyReason::NoReservation) || r
            == Result::<CircuitId, DenyReason>::Err(DenyReason::RateLimited))
            ==> post.circ_limiter@ == pre.circ_limiter@.insert(
                src,
                pre.circ_limiter.granted_window(src, now),
            )
        &&& r matches Result::Ok(id) ==> post.circuits.entries@ == pre.circuits.entries@.push(
            pre.circuits.new_circuit(src, dst, requested_duration, now),
        ) && id == CircuitId(pre.circuits.next_id) && post.circuits.next_id == pre.circuits.next_id
            + 1 && post.events@ == pre.events@.push(Event::CircuitEstablished { id, src, dst })
        &&& r matches Result::Err(re) ==> post.circuits.entries@ == pre.circuits.entries@
            && post.circuits.next_id == pre.circuits.next_id && post.events@ == pre.events@.push(
            Event::CircuitDenied { src, dst, reason: re },
        )
    }
}

/// Everything closing one circuit for a cause does: a live circuit is closed
/// and announced, anything else is absorbed; nothing else moves.
pub open spec fn close_transition(
    pre: RelayService,
    post: RelayService,
    id: CircuitId,
    cause: CloseReason,
) -> bool {
    &&& same_config(pre, post)
    &&& post.reservations.entries@ == pre.reservations.entries@
    &&& post.res_limiter.entries@ == pre.res_limiter.entries@
    &&& post.circ_limiter.entries@ == pre.circ_limiter.entries@
    &&& post.shut_down == pre.shut_down
    &&& post.circuits.next_id == pre.circuits.next_id
    &&& (pre.circuits@.dom().contains(id) && !(pre.circuits@[id].state is Closed))
        ==> post.circuits@ == pre.circuits@.insert(id, close_entry(pre.circuits@[id]))
            && post.events@ == pre.events@.push(Event::CircuitClosed { id, cause })
    &&& !(pre.circuits@.dom().contains(id) && !(pre.circuits@[id].state is Closed))
        ==> post.circuits.entries@ == pre.circuits.entries@ && post.events@ == pre.events@
}

impl RelayService {
    /// All components well-formed.
    pub open spec fn wf(self) -> bool {
        &&& self.reservations.wf()
        &&& self.circuits.wf()
        &&& self.res_limiter.wf()
        &&& self.circ_limiter.wf()
    }

    /// How a reservation request is answered: refused after shutdown, else as
    /// the store and the reservation limiter decide.
    pub open spec fn reserve_status(self, peer: PeerId, requested_ttl: u64, now: u64) -> Status {
        if self.shut_down {
            Status::Denied(DenyReason::CapacityExceeded)
        } else {
            match self.reservations.reserve_decision(self.res_limiter, peer, requested_ttl, now) {
                Result::Ok(_) => Status::Accepted,
                Result::Err(re) => Status::Denied(re),
            }
        }
    }

    /// How a connect request is answered: refused after shutdown, else as the
    /// circuit table, the reservation store and the circuit limiter decide.
    pub open spec fn connect_decision(self, src: PeerId, dst: PeerId, now: u64) -> Result<
        CircuitId,
        DenyReason,
    > {
        if self.shut_down {
            Result::Err(DenyReason::CapacityExceeded)
        } else {
            self.circuits.open_decision(self.circ_limiter, self.reservations, src, dst, now)
        }
    }

    /// Build a service from a configuration; every limit must be strictly
    /// positive, anything else is refused here and never at request time.
    pub fn new(cfg: &RelayConfig) -> (r: Result<RelayService, ConfigError>)
        ensures
            cfg.valid() <==> (r matches Result::Ok(_)),
            !cfg.valid() ==> (r matches Result::Err(e) && e == ConfigError::NonPositiveLimit),
            r matches Result::Ok(s) ==> {
                &&& s.wf()
                &&& !s.shut_down
                &&& s.events@ == Seq::<Event>::empty()
                &&& s.reservations.max_ttl == cfg.max_reservation_ttl
                &&& s.reservations.capacity == cfg.max_reservations
                &&& s.reservations.entries@ == Seq::<Reservation>::empty()
                &&& s.circuits.max_duration == cfg.max_circuit_duration
                &&& s.circuits.max_bytes == cfg.max_circuit_bytes
                &&& s.circuits.max_circuits == cfg.max_circuits
                &&& s.circuits.max_circuits_per_peer == cfg.max_circuits_per_peer
                &&& s.circuits.entries@ == Seq::<Circuit>::empty()
                &&& s.circuits.next_id == 0
                &&& s.res_limiter.limit == cfg.reservation_rate_limit
                &&& s.res_limiter.window == cfg.rate_window
                &&& s.res_limiter.entries@ == Seq::<crate::limiter::RateWindow>::empty()
                &&& s.circ_limiter.limit == cfg.circuit_rate_limit
                &&& s.circ_limiter.window == cfg.rate_window
                &&& s.circ_limiter.entries@ == Seq::<crate::limiter::RateWindow>::empty()
            },
    {
        if !cfg.is_valid() {
            return Result::Err(ConfigError::NonPositiveLimit);
        }
        Result::Ok(
            RelayService {
                reservations: ReservationStore::new(cfg.max_reservation_ttl, cfg.max_reservations),
                circuits: CircuitTable::new(
                    cfg.max_circuit_duration,
                    cfg.max_circuit_bytes,
                    cfg.max_circuits,
                    cfg.max_circuits_per_peer,
                ),
                res_limiter: Limiter::new(cfg.reservation_rate_limit, cfg.rate_window),
                circ_limiter: Limiter::new(cfg.circuit_rate_limit, cfg.rate_window),
                events: Vec::new(),
                shut_down: false,
            },
        )
    }

    /// Answer a reservation request from `peer` carrying the addresses the
    /// transport observed for it. After shutdown everything is refused and
    /// nothing moves; otherwise the store and limiter decide, the outcome is
    /// queued as an event, and the status to answer is returned.
    pub fn handle_reserve(
        &mut self,
        peer: PeerId,
        requested_ttl: u64,
        addrs: Vec<String>,
        now: u64,
    ) -> (st: Status)
        requires
            old(self).wf(),
        ensures
            final(self).wf(),
            reserve_transition(*old(self), *final(self), st, peer, requested_ttl, addrs, now),
    {
        if self.shut_down {
            return Status::Denied(DenyReason::CapacityExceeded);
        }
        match self.reservations.reserve(&mut self.res_limiter, peer, requested_ttl, addrs, now) {
            Result::Ok(expires_at) => {
                self.events.push(Event::ReservationAccepted { peer, expires_at });
                Status::Accepted
            },
            Result::Err(re) => {
                self.events.push(Event::ReservationDenied { peer, reason: re });
                Status::Denied(re)
            },
        }
    }

    /// Answer a connect request from `src` toward `dst`. After shutdown
    /// everything is refused and nothing moves; otherwise a destination
    /// without a live reservation is refused as `NoReservation` before any
    /// token is spent, then rate and the two capacity bounds decide; the
    /// outcome is queued as an event.
    pub fn handle_connect(
        &mut self,
        src: PeerId,
        dst: PeerId,
        requested_duration: u64,
        now: u64,
    ) -> (r: Result<CircuitId, DenyReason>)
        requires
            old(self).wf(),
        ensures
            final(self).wf(),
            connect_transition(*old(self), *final(self), r, src, dst, requested_duration, now),
    {
        if self.shut_down {
            return Result::Err(DenyReason::CapacityExceeded);
        }
        match self.circuits.open(
            &mut self.circ_limiter,
            &self.reservations,
            src,
            dst,
            requested_duration,
            now,
        ) {
            Result::Ok(id) => {
                self.events.push(Event::CircuitEstablished { id, src, dst });
                Result::Ok(id)
            },
            Result::Err(re) => {
                self.events.push(Event::CircuitDenied { src, dst, reason: re });
                Result::Err(re)
            },
        }
    }

    /// Relay one chunk on a circuit; the table's accounting decides and no
    /// event is queued — a spent budget surfaces when the circuit is closed.
    pub fn forward(&mut self, id: CircuitId, chunk_len: u64) -> (r: Result<u64, ForwardError>)
        requires
            old(self).wf(),
        ensures
            final(self).wf(),
            same_config(*old(self), *final(self)),
            final(self).reservations.entries@ == old(self).reservations.entries@,
            final(self).res_limiter.entries@ == old(self).res_limiter.entries@,
            final(self).circ_limiter.entries@ == old(self).circ_limiter.entries@,
            final(self).events@ == old(self).events@,
            final(self).shut_down == old(self).shut_down,
            final(self).circuits.next_id == old(self).circuits.next_id,
            r == (if old(self).circuits@.dom().contains(id) && old(self).circuits@[id].state
                is Open {
                Result::<u64, ForwardError>::Ok(
                    CircuitTable::forwarded_len(old(self).circuits@[id], chunk_len),
                )
            } else {
                Result::<u64, ForwardError>::Err(ForwardError::QuotaExceeded)
            }),
            r matches Result::Ok(n) ==> n <= chunk_len && final(self).circuits@
                == old(self).circuits@.insert(
                    id,
                    CircuitTable::after_forward(old(self).circuits@[id], chunk_len),
                ),
            r matches Result::Err(_) ==> final(self).circuits.entries@
                == old(self).circuits.entries@,
    {
        self.circuits.forward(id, chunk_len)
    }

    /// Close a circuit for a cause, queueing one `CircuitClosed` event if it
    /// was live; closing an unknown or closed circuit is absorbed silently.
    pub fn close_circuit(&mut self, id: CircuitId, cause: CloseReason) -> (was_live: bool)
        requires
            old(self).wf(),
        ensures
            final(self).wf(),
            was_live == (old(self).circuits@.dom().contains(id) && !(old(self).circuits@[id].state
                is Closed)),
            close_transition(*old(self), *final(self), id, cause),
    {
        let was_live = self.circuits.close(id);
        if was_live {
            self.events.push(Event::CircuitClosed { id, cause });
        }
        was_live
    }

    /// The expiry sweep, run on the host's cadence: drop reservations whose
    /// expiry has arrived and close circuits whose lifetime is over, queueing
    /// one event for each. Running it twice at the same instant with no
    /// activity in between changes nothing further and queues nothing further.
    pub fn sweep(&mut self, now: u64)
        requires
            old(self).wf(),
        ensures
            final(self).wf(),
            same_config(*old(self), *final(self)),
            final(self).res_limiter.entries@ == old(self).res_limiter.entries@,
            final(self).circ_limiter.entries@ == old(self).circ_limiter.entries@,
            final(self).shut_down == old(self).shut_down,
            final(self).circuits.next_id == old(self).circuits.next_id,
            final(self).reservations.entries@ == live_entries(
                old(self).reservations.entries@,
                now,
            ),
            final(self).circuits.entries@ == swept_entries(old(self).circuits.entries@, now),
            final(self).events@ == old(self).events@ + expired_events(
                expired_peers(old(self).reservations.entries@, now),
            ) + closed_events(
                overdue_ids(old(self).circuits.entries@, now),
                CloseReason::DurationExceeded,
            ),
    {
        let expired = self.reservations.sweep(now);
        append_expired_events(&mut self.events, &expired);
        let closed = self.circuits.sweep(now);
        append_closed_events(&mut self.events, &closed, CloseReason::DurationExceeded);
    }

    /// Garbage-collect rate windows that are over at `now`; token accounting
    /// for fresh requests is unaffected, a fresh window would be opened anyway.
    pub fn sweep_limiters(&mut self, now: u64)
        requires
            old(self).wf(),
        ensures
            final(self).wf(),
            same_config(*old(self), *final(self)),
            final(self).reservations.entries@ == old(self).reservations.entries@,
            final(self).circuits.entries@ == old(self).circuits.entries@,
            final(self).circuits.next_id == old(self).circuits.next_id,
            final(self).events@ == old(self).events@,
            final(self).shut_down == old(self).shut_down,
            final(self).res_limiter.entries@ == crate::limiter::fresh_entries(
                old(self).res_limiter.entries@,
                now,
                old(self).res_limiter.window,
            ),
            final(self).circ_limiter.entries@ == crate::limiter::fresh_entries(
                old(self).circ_limiter.entries@,
                now,
                old(self).circ_limiter.window,
            ),
    {
        self.res_limiter.sweep(now);
        self.circ_limiter.sweep(now);
    }

    /// Graceful shutdown: every circuit not yet closed is closed with cause
    /// `RelayShutdown` and announced, every reservation is dropped, and from
    /// here on every reservation or connect request is refused.
    pub fn shutdown(&mut self)
        requires
            old(self).wf(),
        ensures
            final(self).wf(),
            same_config(*old(self), *final(self)),
            final(self).shut_down,
            final(self).reservations.entries@ == Seq::<Reservation>::empty(),
            final(self).circuits.entries@ == all_closed(old(self).circuits.entries@),
            final(self).circuits.next_id == old(self).circuits.next_id,
            final(self).res_limiter.entries@ == old(self).res_limiter.entries@,
            final(self).circ_limiter.entries@ == old(self).circ_limiter.entries@,
            final(self).events@ == old(self).events@ + closed_events(
                live_ids(old(self).circuits.entries@),
                CloseReason::RelayShutdown,
            ),
            forall|i: int|
                0 <= i < final(self).circuits.entries@.len()
                    ==> (#[trigger] final(self).circuits.entries@[i]).state is Closed,
    {
        let closed = self.circuits.close_all();
        append_closed_events(&mut self.events, &closed, CloseReason::RelayShutdown);
        self.reservations.clear();
        self.shut_down = true;
    }

    /// Whether the host should still accept new protocol streams; false once
    /// the service is shut down.
    pub fn accepts_streams(&self) -> (r: bool)
        ensures
            r == !self.shut_down,
    {
        !self.shut_down
    }

    /// Hand the queued events to the host, oldest first, leaving the queue
    /// empty.
    pub fn take_events(&mut self) -> (evs: Vec<Event>)
        requires
            old(self).wf(),
        ensures
            final(self).wf(),
            same_config(*old(self), *final(self)),
            evs@ == old(self).events@,
            final(self).events@ == Seq::<Event>::empty(),
            final(self).reservations.entries@ == old(self).reservations.entries@,
            final(self).circuits.entries@ == old(self).circuits.entries@,
            final(self).circuits.next_id == old(self).circuits.next_id,
            final(self).res_limiter.entries@ == old(self).res_limiter.entries@,
            final(self).circ_limiter.entries@ == old(self).circ_limiter.entries@,
            final(self).shut_down == old(self).shut_down,
    {
        let mut evs: Vec<Event> = Vec::new();
        let mut i: usize = 0;
        while i < self.events.len()
            invariant
                0 <= i <= self.events@.len(),
                self.events@ == old(self).events@,
                evs@ == self.events@.take(i as int),
            decreases self.events@.len() - i,
        {
            evs.push(self.events[i]);
            proof {
                assert(self.events@.take(i + 1) =~= self.events@.take(i as int).push(
                    self.events@[i as int],
                ));
            }
            i += 1;
        }
        proof {
            assert(self.events@.take(self.events@.len() as int) =~= self.events@);
        }
        self.events.clear();
        evs
    }
}

/// Queue one `ReservationExpired` event per removed peer, in order.
fn append_expired_events(events: &mut Vec<Event>, peers: &Vec<PeerId>)
    ensures
        final(events)@ == old(events)@ + expired_events(peers@),
{
    proof {
        assert(events@ =~= old(events)@ + expired_events(peers@).take(0));
    }
    let mut i: usize = 0;
    while i < peers.len()
        invariant
            0 <= i <= peers@.len(),
            events@ == old(events)@ + expired_events(peers@).take(i as int),
        decreases peers@.len() - i,
    {
        events.push(Event::ReservationExpired { peer: peers[i] });
        proof {
            assert(expired_events(peers@).take(i + 1) =~= expired_events(peers@).take(
                i as int,
            ).push(Event::ReservationExpired { peer: peers@[i as int] }));
            assert(events@ =~= old(events)@ + expired_events(peers@).take(i + 1));
        }
        i += 1;
    }
    proof {
        assert(expired_events(peers@).take(peers@.len() as int) =~= expired_events(peers@));
    }
}

/// Queue one `CircuitClosed` event per closed identifier, in order, all with
/// one cause.
fn append_closed_events(events: &mut Vec<Event>, ids: &Vec<CircuitId>, cause: CloseReason)
    ensures
        final(events)@ == old(events)@ + closed_events(ids@, cause),
{
    proof {
        assert(events@ =~= old(events)@ + closed_events(ids@, cause).take(0));
    }
    let mut i: usize = 0;
    while i < ids.len()
        invariant
            0 <= i <= ids@.len(),
            events@ == old(events)@ + closed_events(ids@, cause).take(i as int),
        decreases ids@.len() - i,
    {
        events.push(Event::CircuitClosed { id: ids[i], cause });
        proof {
            assert(closed_events(ids@, cause).take(i + 1) =~= closed_events(ids@, cause).take(
                i as int,
            ).push(Event::CircuitClosed { id: ids@[i as int], cause }));
            assert(events@ =~= old(events)@ + closed_events(ids@, cause).take(i + 1));
        }
        i += 1;
    }
    proof {
        assert(closed_events(ids@, cause).take(ids@.len() as int) =~= closed_events(ids@, cause));
    }
}

} // verus!
