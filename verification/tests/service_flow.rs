use relay_core::circuits::CircuitState;
use relay_core::codec::encode_request;
use relay_core::codec::encode_status;
use relay_core::codec::Request;
use relay_core::handler::HandlerState;
use relay_core::handler::ProtocolHandler;
use relay_core::handler::StreamAction;
use relay_core::service::RelayService;
use relay_core::types::CircuitId;
use relay_core::types::CloseReason;
use relay_core::types::ConfigError;
use relay_core::types::DenyReason;
use relay_core::types::Event;
use relay_core::types::ForwardError;
use relay_core::types::PeerId;
use relay_core::types::RelayConfig;
use relay_core::types::Status;

fn config() -> RelayConfig {
    RelayConfig {
        max_reservation_ttl: 7200,
        max_reservations: 16,
        reservation_rate_limit: 10,
        max_circuit_duration: 3600,
        max_circuit_bytes: 100,
        max_circuits: 8,
        max_circuits_per_peer: 4,
        circuit_rate_limit: 10,
        rate_window: 1000,
    }
}

#[test]
fn zero_limit_is_a_configuration_error() {
    let mut cfg = config();
    cfg.max_circuit_bytes = 0;
    assert_eq!(RelayService::new(&cfg).err(), Some(ConfigError::NonPositiveLimit));
    assert!(RelayService::new(&config()).is_ok());
}

#[test]
fn reserve_connect_and_spend_the_byte_budget() {
    // Peer A reserves, peer B connects to A, the circuit opens with the full
    // budget, and once the budget is spent every further forward is refused.
    let mut svc = RelayService::new(&config()).unwrap();
    let a = PeerId(1);
    let b = PeerId(2);
    let st = svc.handle_reserve(a, 3600, vec![], 0);
    assert_eq!(st, Status::Accepted);
    let id = svc.handle_connect(b, a, 600, 1).unwrap();
    assert_eq!(svc.circuits.get(id).unwrap().bytes_remaining, 100);
    let mut total = 0u64;
    total += svc.forward(id, 64).unwrap();
    total += svc.forward(id, 64).unwrap();
    assert_eq!(total, 100);
    assert_eq!(svc.forward(id, 1), Err(ForwardError::QuotaExceeded));
    assert!(svc.close_circuit(id, CloseReason::QuotaExceeded));
    assert_eq!(svc.circuits.get(id).unwrap().state, CircuitState::Closed);
    let events = svc.take_events();
    assert_eq!(
        events,
        vec![
            Event::ReservationAccepted { peer: a, expires_at: 3600 },
            Event::CircuitEstablished { id, src: b, dst: a },
            Event::CircuitClosed { id, cause: CloseReason::QuotaExceeded },
        ]
    );
}

#[test]
fn eleventh_reservation_in_window_is_rate_limited() {
    let mut svc = RelayService::new(&config()).unwrap();
    let a = PeerId(5);
    for i in 0..10 {
        assert_eq!(svc.handle_reserve(a, 60, vec![], i), Status::Accepted);
    }
    assert_eq!(
        svc.handle_reserve(a, 60, vec![], 10),
        Status::Denied(DenyReason::RateLimited)
    );
}

#[test]
fn connect_without_reservation_is_no_reservation_even_when_rate_limited() {
    let mut cfg = config();
    cfg.circuit_rate_limit = 1;
    let mut svc = RelayService::new(&cfg).unwrap();
    let a = PeerId(1);
    let b = PeerId(2);
    svc.handle_reserve(a, 3600, vec![], 0);
    // Spends B's only token of this window.
    assert!(svc.handle_connect(b, a, 60, 1).is_ok());
    // Unreserved destination: refused as NoReservation, not as RateLimited.
    assert_eq!(svc.handle_connect(b, PeerId(99), 60, 2), Err(DenyReason::NoReservation));
    // Reserved destination: now the exhausted rate shows.
    assert_eq!(svc.handle_connect(b, a, 60, 3), Err(DenyReason::RateLimited));
}

#[test]
fn expired_reservation_no_longer_accepts_connects() {
    let mut svc = RelayService::new(&config()).unwrap();
    let a = PeerId(1);
    svc.handle_reserve(a, 50, vec![], 0);
    assert_eq!(svc.handle_connect(PeerId(2), a, 60, 50), Err(DenyReason::NoReservation));
    assert!(svc.handle_connect(PeerId(2), a, 60, 49).is_ok());
}

#[test]
fn sweep_emits_expiry_events_and_is_idempotent() {
    let mut svc = RelayService::new(&config()).unwrap();
    let a = PeerId(1);
    let b = PeerId(2);
    svc.handle_reserve(a, 40, vec![], 0);
    svc.handle_reserve(b, 3600, vec![], 0);
    let id = svc.handle_connect(PeerId(3), b, 30, 0).unwrap();
    svc.take_events();
    svc.sweep(40);
    let events = svc.take_events();
    assert_eq!(
        events,
        vec![
            Event::ReservationExpired { peer: a },
            Event::CircuitClosed { id, cause: CloseReason::DurationExceeded },
        ]
    );
    assert_eq!(svc.reservations.entries.len(), 1);
    // Second sweep at the same instant: no state change, no events.
    svc.sweep(40);
    assert!(svc.take_events().is_empty());
    assert_eq!(svc.reservations.entries.len(), 1);
    assert_eq!(svc.circuits.get(id).unwrap().state, CircuitState::Closed);
}

#[test]
fn sweep_limiters_drops_idle_windows() {
    let mut svc = RelayService::new(&config()).unwrap();
    svc.handle_reserve(PeerId(1), 60, vec![], 0);
    assert_eq!(svc.res_limiter.entries.len(), 1);
    svc.sweep_limiters(999);
    assert_eq!(svc.res_limiter.entries.len(), 1);
    svc.sweep_limiters(1000);
    assert_eq!(svc.res_limiter.entries.len(), 0);
}

#[test]
fn shutdown_closes_all_circuits_and_refuses_everything_after() {
    let mut svc = RelayService::new(&config()).unwrap();
    let a = PeerId(1);
    svc.handle_reserve(a, 3600, vec![], 0);
    let c1 = svc.handle_connect(PeerId(2), a, 60, 0).unwrap();
    let c2 = svc.handle_connect(PeerId(3), a, 60, 0).unwrap();
    let c3 = svc.handle_connect(PeerId(4), a, 60, 0).unwrap();
    svc.take_events();
    svc.shutdown();
    let events = svc.take_events();
    assert_eq!(
        events,
        vec![
            Event::CircuitClosed { id: c1, cause: CloseReason::RelayShutdown },
            Event::CircuitClosed { id: c2, cause: CloseReason::RelayShutdown },
            Event::CircuitClosed { id: c3, cause: CloseReason::RelayShutdown },
        ]
    );
    assert!(svc.reservations.entries.is_empty());
    assert_eq!(
        svc.handle_reserve(a, 3600, vec![], 1),
        Status::Denied(DenyReason::CapacityExceeded)
    );
    assert_eq!(svc.handle_connect(PeerId(2), a, 60, 1), Err(DenyReason::CapacityExceeded));
    assert!(svc.take_events().is_empty());
    assert!(!svc.accepts_streams());
}

#[test]
fn handler_answers_reserve_and_keeps_stream_open() {
    let mut svc = RelayService::new(&config()).unwrap();
    let mut h = ProtocolHandler::new(PeerId(1));
    let payload = encode_request(&Request::Reserve { ttl: 3600 });
    let out = h.on_frame(&mut svc, &payload, vec!["addr".to_string()], 0);
    assert_eq!(out.response, encode_status(&Status::Accepted));
    assert_eq!(out.action, StreamAction::Continue);
    assert_eq!(h.state, HandlerState::AwaitRequest);
    assert_eq!(svc.reservations.entries.len(), 1);
    assert_eq!(svc.reservations.entries[0].addrs, vec!["addr".to_string()]);
}

#[test]
fn handler_grants_connect_and_starts_forwarding() {
    let mut svc = RelayService::new(&config()).unwrap();
    svc.handle_reserve(PeerId(1), 3600, vec![], 0);
    let mut h = ProtocolHandler::new(PeerId(2));
    let payload = encode_request(&Request::Connect { dst: PeerId(1), duration: 600 });
    let out = h.on_frame(&mut svc, &payload, vec![], 1);
    assert_eq!(out.response, encode_status(&Status::Accepted));
    let id = match out.action {
        StreamAction::StartForwarding(id) => id,
        other => panic!("expected forwarding, got {other:?}"),
    };
    assert_eq!(h.state, HandlerState::Forwarding(id));
    // The peer's side closing tears the circuit down.
    h.on_peer_closed(&mut svc);
    assert_eq!(h.state, HandlerState::Closed);
    assert_eq!(svc.circuits.get(id).unwrap().state, CircuitState::Closed);
    let events = svc.take_events();
    assert!(events.contains(&Event::CircuitClosed { id, cause: CloseReason::PeerClosed }));
}

#[test]
fn handler_refuses_connect_without_reservation_but_keeps_stream() {
    let mut svc = RelayService::new(&config()).unwrap();
    let mut h = ProtocolHandler::new(PeerId(2));
    let payload = encode_request(&Request::Connect { dst: PeerId(1), duration: 600 });
    let out = h.on_frame(&mut svc, &payload, vec![], 0);
    assert_eq!(out.response, encode_status(&Status::Denied(DenyReason::NoReservation)));
    assert_eq!(out.action, StreamAction::Continue);
    assert_eq!(h.state, HandlerState::AwaitRequest);
}

#[test]
fn handler_terminates_stream_on_garbage() {
    let mut svc = RelayService::new(&config()).unwrap();
    let mut h = ProtocolHandler::new(PeerId(2));
    let out = h.on_frame(&mut svc, &vec![9u8, 9, 9], vec![], 0);
    assert_eq!(out.response, encode_status(&Status::MalformedRequest));
    assert_eq!(out.action, StreamAction::CloseStream);
    assert_eq!(h.state, HandlerState::Closed);
    // A closed handler accepts nothing more.
    let payload = encode_request(&Request::Reserve { ttl: 60 });
    let again = h.on_frame(&mut svc, &payload, vec![], 1);
    assert_eq!(again.response, encode_status(&Status::MalformedRequest));
    assert_eq!(again.action, StreamAction::CloseStream);
    assert!(svc.reservations.entries.is_empty());
}

#[test]
fn handler_frame_while_forwarding_tears_circuit_down() {
    let mut svc = RelayService::new(&config()).unwrap();
    svc.handle_reserve(PeerId(1), 3600, vec![], 0);
    let mut h = ProtocolHandler::new(PeerId(2));
    let connect = encode_request(&Request::Connect { dst: PeerId(1), duration: 600 });
    let out = h.on_frame(&mut svc, &connect, vec![], 1);
    let id = match out.action {
        StreamAction::StartForwarding(id) => id,
        other => panic!("expected forwarding, got {other:?}"),
    };
    svc.take_events();
    // A control frame on a forwarding stream violates the protocol.
    let reserve = encode_request(&Request::Reserve { ttl: 60 });
    let out = h.on_frame(&mut svc, &reserve, vec![], 2);
    assert_eq!(out.response, encode_status(&Status::MalformedRequest));
    assert_eq!(out.action, StreamAction::CloseStream);
    assert_eq!(h.state, HandlerState::Closed);
    assert_eq!(svc.circuits.get(id).unwrap().state, CircuitState::Closed);
    assert_eq!(
        svc.take_events(),
        vec![Event::CircuitClosed { id, cause: CloseReason::PeerClosed }]
    );
}

#[test]
fn handler_protocol_violation_closes_stream() {
    let mut h = ProtocolHandler::new(PeerId(2));
    let out = h.on_protocol_violation();
    assert_eq!(out.response, encode_status(&Status::MalformedRequest));
    assert_eq!(out.action, StreamAction::CloseStream);
    assert_eq!(h.state, HandlerState::Closed);
}

#[test]
fn circuit_ids_are_never_reused() {
    let mut svc = RelayService::new(&config()).unwrap();
    let a = PeerId(1);
    svc.handle_reserve(a, 3600, vec![], 0);
    let c1 = svc.handle_connect(PeerId(2), a, 60, 0).unwrap();
    assert!(svc.close_circuit(c1, CloseReason::PeerClosed));
    let c2 = svc.handle_connect(PeerId(2), a, 60, 1).unwrap();
    assert_ne!(c1, c2);
    assert_eq!(c1, CircuitId(0));
    assert_eq!(c2, CircuitId(1));
}
