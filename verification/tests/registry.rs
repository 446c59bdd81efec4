use reseda_server::client::{Host, Reservation, Slot};
use reseda_server::wireguard::WireGuardConfig;

fn host(a: u8, b: u8) -> Host {
    Host { a, b, conn_time: 0 }
}

#[test]
fn fresh_registry_offers_first_coordinate() {
    let registry = WireGuardConfig::init_registry(12);
    match registry.find_open(5) {
        Slot::Open(h) => {
            assert_eq!((h.a, h.b, h.conn_time), (2, 1, 5));
        }
        Slot::Prospective => panic!("a fresh registry has room"),
    }
}

#[test]
fn reserving_twice_bounces_the_second_caller() {
    let mut registry = WireGuardConfig::init_registry(12);
    assert!(matches!(registry.reserve(host(2, 1)), Reservation::Held(_)));
    assert!(matches!(
        registry.reserve(host(2, 1)),
        Reservation::Detached(_)
    ));
}

#[test]
fn probe_skips_the_reserved_server_slot() {
    let mut registry = WireGuardConfig::init_registry(12);
    assert!(matches!(registry.reserve(host(2, 1)), Reservation::Held(_)));
    match registry.find_open(9) {
        Slot::Open(h) => assert_eq!((h.a, h.b), (2, 2)),
        Slot::Prospective => panic!("room remains"),
    }
}

#[test]
fn out_of_range_coordinates_bounce() {
    let mut registry = WireGuardConfig::init_registry(12);
    assert!(matches!(
        registry.reserve(host(1, 1)),
        Reservation::Detached(_)
    ));
    assert!(matches!(
        registry.reserve(host(12, 1)),
        Reservation::Detached(_)
    ));
    assert!(matches!(
        registry.reserve(host(2, 0)),
        Reservation::Detached(_)
    ));
    assert!(matches!(
        registry.reserve(host(2, 255)),
        Reservation::Detached(_)
    ));
}

#[test]
fn freeing_returns_a_slot_to_the_probe() {
    let mut registry = WireGuardConfig::init_registry(12);
    assert!(matches!(registry.reserve(host(2, 1)), Reservation::Held(_)));
    registry.free(&host(2, 1));
    match registry.find_open(0) {
        Slot::Open(h) => assert_eq!((h.a, h.b), (2, 1)),
        Slot::Prospective => panic!("the slot was freed"),
    }
}

#[test]
fn freeing_twice_is_a_no_op() {
    let mut registry = WireGuardConfig::init_registry(12);
    assert!(matches!(registry.reserve(host(2, 3)), Reservation::Held(_)));
    registry.free(&host(2, 3));
    registry.free(&host(2, 3));
    assert!(matches!(registry.reserve(host(2, 3)), Reservation::Held(_)));
}

#[test]
fn exhausting_one_row_yields_prospective() {
    // A single-row grid: `a = 2`, `b` over 1..=254.
    let mut registry = WireGuardConfig::init_registry(3);
    for b in 1..=254u8 {
        assert!(matches!(registry.reserve(host(2, b)), Reservation::Held(_)));
    }
    assert!(matches!(registry.find_open(0), Slot::Prospective));
    assert!(matches!(
        registry.reserve(host(2, 7)),
        Reservation::Detached(_)
    ));
}
