//! Plain data carried through the relay core: identifiers, refusal and close
//! reasons, protocol status codes, host-visible events, and the configuration
//! surface with its validity check.

use vstd::prelude::*;

verus! {

/// Opaque identifier of a network participant. The host maps its transport's
/// peer identities one-to-one onto these values; the core compares them by
/// equality only.
#[derive(Clone, Copy, PartialEq, Eq, Structural, Hash, Debug)]
pub struct PeerId(pub u64);

/// Identifier of a relayed circuit, unique for the lifetime of a circuit table.
#[derive(Clone, Copy, PartialEq, Eq, Structural, Hash, Debug)]
pub struct CircuitId(pub u64);

/// Why a reservation or connect request was refused. The refusal is answered
/// with a status message and the stream stays open for further requests.
#[derive(Clone, Copy, PartialEq, Eq, Structural, Debug)]
pub enum DenyReason {
    RateLimited,
    NoReservation,
    CapacityExceeded,
    TtlRejected,
}

/// Why a circuit was closed.
#[derive(Clone, Copy, PartialEq, Eq, Structural, Debug)]
pub enum CloseReason {
    PeerClosed,
    QuotaExceeded,
    DurationExceeded,
    RelayShutdown,
}

/// Refusal of a forward: the circuit is unknown, already closed, or out of
/// byte budget.
#[derive(Clone, Copy, PartialEq, Eq, Structural, Debug)]
pub enum ForwardError {
    QuotaExceeded,
}

/// Status answered on the request stream before any payload is relayed.
#[derive(Clone, Copy, PartialEq, Eq, Structural, Debug)]
pub enum Status {
    Accepted,
    Denied(DenyReason),
    MalformedRequest,
}

/// High-level events surfaced to the host event loop.
#[derive(Clone, Copy, PartialEq, Eq, Structural, Debug)]
pub enum Event {
    ReservationAccepted { peer: PeerId, expires_at: u64 },
    ReservationDenied { peer: PeerId, reason: DenyReason },
    ReservationExpired { peer: PeerId },
    CircuitEstablished { id: CircuitId, src: PeerId, dst: PeerId },
    CircuitDenied { src: PeerId, dst: PeerId, reason: DenyReason },
    CircuitClosed { id: CircuitId, cause: CloseReason },
}

/// Resource-governance limits consumed at startup. Every limit must be
/// strictly positive; a zero is a configuration error, refused when the
/// service is built, never at request time.
#[derive(Clone, Copy, PartialEq, Eq, Structural, Debug)]
pub struct RelayConfig {
    /// Longest reservation lifetime granted; requested lifetimes are clamped to it.
    pub max_reservation_ttl: u64,
    /// Most reservations held at once, over all peers.
    pub max_reservations: u64,
    /// Reservation requests allowed per peer within one rate window.
    pub reservation_rate_limit: u64,
    /// Longest circuit lifetime granted; requested durations are clamped to it.
    pub max_circuit_duration: u64,
    /// Byte budget of each circuit.
    pub max_circuit_bytes: u64,
    /// Most circuits live at once, over all peers.
    pub max_circuits: u64,
    /// Most circuits live at once toward one destination peer.
    pub max_circuits_per_peer: u64,
    /// Connect requests allowed per source peer within one rate window.
    pub circuit_rate_limit: u64,
    /// Length of the rate-limiting window.
    pub rate_window: u64,
}

/// Error answered when a service is built from an invalid configuration.
#[derive(Clone, Copy, PartialEq, Eq, Structural, Debug)]
pub enum ConfigError {
    /// Some limit is zero.
    NonPositiveLimit,
}

impl RelayConfig {
    /// Every limit is strictly positive.
    pub open spec fn valid(self) -> bool {
        &&& self.max_reservation_ttl > 0
        &&& self.max_reservations > 0
        &&& self.reservation_rate_limit > 0
        &&& self.max_circuit_duration > 0
        &&& self.max_circuit_bytes > 0
        &&& self.max_circuits > 0
        &&& self.max_circuits_per_peer > 0
        &&& self.circuit_rate_limit > 0
        &&& self.rate_window > 0
    }

    /// Runtime form of `valid`.
    pub fn is_valid(&self) -> (ok: bool)
        ensures
            ok == self.valid(),
    {
        self.max_reservation_ttl > 0 && self.max_reservations > 0
            && self.reservation_rate_limit > 0 && self.max_circuit_duration > 0
            && self.max_circuit_bytes > 0 && self.max_circuits > 0
            && self.max_circuits_per_peer > 0 && self.circuit_rate_limit > 0
            && self.rate_window > 0
    }
}

/// The smaller of two durations; used to clamp peer-requested lifetimes to the
/// configured maxima.
pub fn min_u64(a: u64, b: u64) -> (r: u64)
    ensures
        r == if a <= b { a } else { b },
{
    if a <= b {
        a
    } else {
        b
    }
}

} // verus!
