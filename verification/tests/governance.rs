use relay_core::circuits::CircuitState;
use relay_core::circuits::CircuitTable;
use relay_core::limiter::Limiter;
use relay_core::reservations::ReservationStore;
use relay_core::types::DenyReason;
use relay_core::types::ForwardError;
use relay_core::types::PeerId;

#[test]
fn limiter_grants_up_to_limit_and_refuses_next() {
    let mut l = Limiter::new(10, 1000);
    let p = PeerId(1);
    for _ in 0..10 {
        assert!(l.allow(p, 5));
    }
    // Eleventh request in the same window.
    assert!(!l.allow(p, 5));
    // Refusal has no side effect: still refused, and a fresh window grants.
    assert!(!l.allow(p, 900));
    assert!(l.allow(p, 1005));
}

#[test]
fn limiter_keys_are_independent() {
    let mut l = Limiter::new(1, 1000);
    assert!(l.allow(PeerId(1), 0));
    assert!(!l.allow(PeerId(1), 1));
    assert!(l.allow(PeerId(2), 1));
}

#[test]
fn limiter_sweep_drops_stale_windows() {
    let mut l = Limiter::new(3, 100);
    assert!(l.allow(PeerId(1), 0));
    assert!(l.allow(PeerId(2), 50));
    l.sweep(120);
    assert_eq!(l.entries.len(), 1);
    assert_eq!(l.entries[0].key, PeerId(2));
}

#[test]
fn renewal_replaces_instead_of_duplicating() {
    let mut store = ReservationStore::new(3600, 8);
    let mut l = Limiter::new(10, 1000);
    let a = PeerId(7);
    let first = store.reserve(&mut l, a, 600, vec![], 100).unwrap();
    assert_eq!(first, 700);
    assert_eq!(store.entries.len(), 1);
    let renewed = store.reserve(&mut l, a, 600, vec![], 300).unwrap();
    assert_eq!(renewed, 900);
    assert_eq!(store.entries.len(), 1);
    assert_eq!(store.entries[0].expires_at, 900);
}

#[test]
fn reserve_clamps_ttl_to_ceiling() {
    let mut store = ReservationStore::new(3600, 8);
    let mut l = Limiter::new(10, 1000);
    let granted = store.reserve(&mut l, PeerId(1), 1_000_000, vec![], 10).unwrap();
    assert_eq!(granted, 3610);
}

#[test]
fn reserve_refuses_at_capacity_but_lets_holders_renew() {
    let mut store = ReservationStore::new(3600, 2);
    let mut l = Limiter::new(100, 1000);
    assert!(store.reserve(&mut l, PeerId(1), 60, vec![], 0).is_ok());
    assert!(store.reserve(&mut l, PeerId(2), 60, vec![], 0).is_ok());
    assert_eq!(
        store.reserve(&mut l, PeerId(3), 60, vec![], 0),
        Err(DenyReason::CapacityExceeded)
    );
    // A holder renews even with the store full.
    assert!(store.reserve(&mut l, PeerId(2), 60, vec![], 1).is_ok());
}

#[test]
fn reserve_refuses_when_rate_limited() {
    let mut store = ReservationStore::new(3600, 8);
    let mut l = Limiter::new(1, 1000);
    assert!(store.reserve(&mut l, PeerId(1), 60, vec![], 0).is_ok());
    assert_eq!(store.reserve(&mut l, PeerId(1), 60, vec![], 1), Err(DenyReason::RateLimited));
}

#[test]
fn reservation_sweep_is_idempotent() {
    let mut store = ReservationStore::new(3600, 8);
    let mut l = Limiter::new(100, 1000);
    store.reserve(&mut l, PeerId(1), 50, vec![], 0).unwrap();
    store.reserve(&mut l, PeerId(2), 500, vec![], 0).unwrap();
    let expired = store.sweep(50);
    assert_eq!(expired, vec![PeerId(1)]);
    assert_eq!(store.entries.len(), 1);
    // Again, with no activity in between: nothing further happens.
    let expired_again = store.sweep(50);
    assert!(expired_again.is_empty());
    assert_eq!(store.entries.len(), 1);
    assert_eq!(store.entries[0].peer, PeerId(2));
}

#[test]
fn lookup_and_liveness() {
    let mut store = ReservationStore::new(3600, 8);
    let mut l = Limiter::new(100, 1000);
    store.reserve(&mut l, PeerId(1), 50, vec!["addr-one".to_string()], 0).unwrap();
    let r = store.lookup(PeerId(1)).unwrap();
    assert_eq!(r.expires_at, 50);
    assert_eq!(r.addrs, vec!["addr-one".to_string()]);
    assert!(store.lookup(PeerId(2)).is_none());
    assert!(store.is_live(PeerId(1), 49));
    assert!(!store.is_live(PeerId(1), 50));
}

fn table_and_reservation(max_bytes: u64) -> (CircuitTable, Limiter, ReservationStore) {
    let mut store = ReservationStore::new(3600, 8);
    let mut rl = Limiter::new(100, 1000);
    store.reserve(&mut rl, PeerId(1), 3600, vec![], 0).unwrap();
    let table = CircuitTable::new(600, max_bytes, 4, 2);
    let cl = Limiter::new(100, 1000);
    (table, cl, store)
}

#[test]
fn forward_meters_and_closes_on_spent_budget() {
    let (mut table, mut cl, store) = table_and_reservation(100);
    let id = table.open(&mut cl, &store, PeerId(2), PeerId(1), 600, 0).unwrap();
    assert_eq!(table.get(id).unwrap().bytes_remaining, 100);
    assert_eq!(table.forward(id, 60), Ok(60));
    // Only the allowed prefix of the second chunk goes through.
    assert_eq!(table.forward(id, 60), Ok(40));
    let c = *table.get(id).unwrap();
    assert_eq!(c.bytes_forwarded, 100);
    assert_eq!(c.bytes_remaining, 0);
    assert_eq!(c.state, CircuitState::Closing);
    assert_eq!(table.forward(id, 1), Err(ForwardError::QuotaExceeded));
}

#[test]
fn open_respects_per_peer_and_global_limits() {
    let (mut table, mut cl, mut store) = table_and_reservation(1000);
    let mut rl = Limiter::new(100, 1000);
    store.reserve(&mut rl, PeerId(9), 3600, vec![], 0).unwrap();
    assert!(table.open(&mut cl, &store, PeerId(2), PeerId(1), 60, 0).is_ok());
    assert!(table.open(&mut cl, &store, PeerId(3), PeerId(1), 60, 0).is_ok());
    // Third circuit toward the same destination breaks the per-peer bound of two.
    assert_eq!(
        table.open(&mut cl, &store, PeerId(4), PeerId(1), 60, 0),
        Err(DenyReason::CapacityExceeded)
    );
    // Other destinations still fit until the global bound of four.
    assert!(table.open(&mut cl, &store, PeerId(4), PeerId(9), 60, 0).is_ok());
    assert!(table.open(&mut cl, &store, PeerId(5), PeerId(9), 60, 0).is_ok());
    assert_eq!(
        table.open(&mut cl, &store, PeerId(6), PeerId(9), 60, 0),
        Err(DenyReason::CapacityExceeded)
    );
}

#[test]
fn circuit_sweep_closes_overdue_and_is_idempotent() {
    let (mut table, mut cl, store) = table_and_reservation(1000);
    let id = table.open(&mut cl, &store, PeerId(2), PeerId(1), 50, 0).unwrap();
    assert!(table.sweep(49).is_empty());
    let closed = table.sweep(50);
    assert_eq!(closed, vec![id]);
    assert_eq!(table.get(id).unwrap().state, CircuitState::Closed);
    assert!(table.sweep(50).is_empty());
    assert!(table.sweep(10_000).is_empty());
}

#[test]
fn open_clamps_duration() {
    let (mut table, mut cl, store) = table_and_reservation(1000);
    let id = table.open(&mut cl, &store, PeerId(2), PeerId(1), 100_000, 0).unwrap();
    assert_eq!(table.get(id).unwrap().max_duration, 600);
}

#[test]
fn expiry_saturates_at_the_end_of_the_clock() {
    let mut store = ReservationStore::new(u64::MAX, 8);
    let mut l = Limiter::new(100, 1000);
    let granted = store.reserve(&mut l, PeerId(1), 100, vec![], u64::MAX - 10).unwrap();
    assert_eq!(granted, u64::MAX);
    assert!(store.is_live(PeerId(1), u64::MAX - 1));
}

#[test]
fn forward_of_empty_chunk_changes_nothing() {
    let (mut table, mut cl, store) = table_and_reservation(100);
    let id = table.open(&mut cl, &store, PeerId(2), PeerId(1), 600, 0).unwrap();
    assert_eq!(table.forward(id, 0), Ok(0));
    let c = *table.get(id).unwrap();
    assert_eq!(c.bytes_remaining, 100);
    assert_eq!(c.state, CircuitState::Open);
}

#[test]
fn close_is_absorbed_for_unknown_or_closed() {
    let (mut table, mut cl, store) = table_and_reservation(1000);
    let id = table.open(&mut cl, &store, PeerId(2), PeerId(1), 60, 0).unwrap();
    assert!(table.close(id));
    assert!(!table.close(id));
    assert!(!table.close(relay_core::types::CircuitId(999)));
}
