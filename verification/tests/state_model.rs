//! Tests of the platform independent state model.

use network_connectivity::state::Interfaces;
use network_connectivity::state::IpAddr;
use network_connectivity::Connectivity;
use network_connectivity::ConnectivityState;

fn verdict(ipv4: ConnectivityState, ipv6: ConnectivityState) -> Connectivity {
    Connectivity { ipv4, ipv6 }
}

#[test]
fn empty_map_has_no_connectivity() {
    let s = Interfaces::new();
    assert_eq!(
        s.connectivity(),
        verdict(ConnectivityState::Disconnected, ConnectivityState::Disconnected)
    );
}

#[test]
fn v4_come_up_steps_through_the_levels() {
    let mut s = Interfaces::new();
    s.add_link((7, false, true));
    assert_eq!(
        s.connectivity(),
        verdict(ConnectivityState::Disconnected, ConnectivityState::Disconnected)
    );
    s.add_address((7, IpAddr::V4(0xC0000205)));
    assert_eq!(
        s.connectivity(),
        verdict(ConnectivityState::Network, ConnectivityState::Disconnected)
    );
    s.add_default_route((7, IpAddr::V4(0xC0000201), 100));
    assert_eq!(
        s.connectivity(),
        verdict(ConnectivityState::Internet, ConnectivityState::Disconnected)
    );
}

#[test]
fn dual_stack_loses_v6_gateway() {
    let mut s = Interfaces::new();
    s.add_link((3, false, true));
    s.add_address((3, IpAddr::V4(0xC0000205)));
    s.add_address((3, IpAddr::V6(0x2001_0db8_0000_0000_0000_0000_0000_0001)));
    s.add_default_route((3, IpAddr::V4(0xC0000201), 100));
    s.add_default_route((3, IpAddr::V6(0xfe80_0000_0000_0000_0000_0000_0000_0001), 200));
    assert_eq!(
        s.connectivity(),
        verdict(ConnectivityState::Internet, ConnectivityState::Internet)
    );
    s.remove_default_route((3, IpAddr::V6(0xfe80_0000_0000_0000_0000_0000_0000_0001), 200));
    assert_eq!(
        s.connectivity(),
        verdict(ConnectivityState::Internet, ConnectivityState::Network)
    );
}

#[test]
fn loopback_links_are_ignored() {
    let mut s = Interfaces::new();
    s.add_link((1, true, true));
    assert_eq!(
        s.connectivity(),
        verdict(ConnectivityState::Disconnected, ConnectivityState::Disconnected)
    );
}

#[test]
fn address_before_link_is_kept() {
    let mut s = Interfaces::new();
    s.add_address((9, IpAddr::V4(0x0A000001)));
    assert_eq!(
        s.connectivity(),
        verdict(ConnectivityState::Disconnected, ConnectivityState::Disconnected)
    );
    s.add_link((9, false, true));
    assert_eq!(
        s.connectivity(),
        verdict(ConnectivityState::Network, ConnectivityState::Disconnected)
    );
}

#[test]
fn carrier_loss_drops_the_level() {
    let mut s = Interfaces::new();
    s.add_link((5, false, true));
    s.add_address((5, IpAddr::V4(0x0A000001)));
    s.add_default_route((5, IpAddr::V4(0x0A0000FE), 1));
    assert_eq!(
        s.connectivity(),
        verdict(ConnectivityState::Internet, ConnectivityState::Disconnected)
    );
    s.add_link((5, false, false));
    assert_eq!(
        s.connectivity(),
        verdict(ConnectivityState::Disconnected, ConnectivityState::Disconnected)
    );
}

#[test]
fn add_remove_link_round_trip_restores_the_verdict() {
    let mut s = Interfaces::new();
    let before = s.connectivity();
    s.add_link((7, false, true));
    s.remove_link((7, false, true));
    assert_eq!(s.connectivity(), before);
}

#[test]
fn add_remove_address_round_trip_restores_the_verdict() {
    let mut s = Interfaces::new();
    let before = s.connectivity();
    s.add_address((7, IpAddr::V4(0xC0000205)));
    s.remove_address((7, IpAddr::V4(0xC0000205)));
    assert_eq!(s.connectivity(), before);
}

#[test]
fn add_remove_route_round_trip_restores_the_verdict() {
    let mut s = Interfaces::new();
    s.add_link((7, false, true));
    s.add_address((7, IpAddr::V4(0xC0000205)));
    let before = s.connectivity();
    s.add_default_route((7, IpAddr::V4(0xC0000201), 100));
    s.remove_default_route((7, IpAddr::V4(0xC0000201), 100));
    assert_eq!(s.connectivity(), before);
}

#[test]
fn adding_twice_equals_adding_once() {
    let mut once = Interfaces::new();
    once.add_link((2, false, true));
    once.add_address((2, IpAddr::V4(1)));
    once.add_default_route((2, IpAddr::V4(2), 50));
    let mut twice = Interfaces::new();
    twice.add_link((2, false, true));
    twice.add_link((2, false, true));
    twice.add_address((2, IpAddr::V4(1)));
    twice.add_address((2, IpAddr::V4(1)));
    twice.add_default_route((2, IpAddr::V4(2), 50));
    twice.add_default_route((2, IpAddr::V4(2), 50));
    assert_eq!(once.connectivity(), twice.connectivity());
    twice.remove_address((2, IpAddr::V4(1)));
    once.remove_address((2, IpAddr::V4(1)));
    assert_eq!(once.connectivity(), twice.connectivity());
}

#[test]
fn equal_histories_yield_equal_verdicts() {
    let mut a = Interfaces::new();
    let mut b = Interfaces::new();
    for s in [&mut a, &mut b] {
        s.add_link((4, false, true));
        s.add_address((4, IpAddr::V6(0x2001)));
        s.add_default_route((4, IpAddr::V6(0xfe80), 10));
    }
    assert_eq!(a.connectivity(), b.connectivity());
}

#[test]
fn gateway_identity_includes_priority() {
    let mut s = Interfaces::new();
    s.add_link((6, false, true));
    s.add_address((6, IpAddr::V4(0x0A000001)));
    s.add_default_route((6, IpAddr::V4(0x0A0000FE), 100));
    s.add_default_route((6, IpAddr::V4(0x0A0000FE), 200));
    // removing one metric's entry leaves the other
    s.remove_default_route((6, IpAddr::V4(0x0A0000FE), 100));
    assert_eq!(
        s.connectivity(),
        verdict(ConnectivityState::Internet, ConnectivityState::Disconnected)
    );
    s.remove_default_route((6, IpAddr::V4(0x0A0000FE), 200));
    assert_eq!(
        s.connectivity(),
        verdict(ConnectivityState::Network, ConnectivityState::Disconnected)
    );
}

#[test]
fn removing_absent_entries_is_a_no_op() {
    let mut s = Interfaces::new();
    s.add_link((8, false, true));
    s.add_address((8, IpAddr::V4(1)));
    let before = s.connectivity();
    s.remove_address((8, IpAddr::V4(2)));
    s.remove_address((99, IpAddr::V4(1)));
    s.remove_default_route((8, IpAddr::V4(3), 7));
    s.remove_link((42, false, false));
    assert_eq!(s.connectivity(), before);
}

#[test]
fn any_and_all_order_the_families() {
    let c = verdict(ConnectivityState::Internet, ConnectivityState::Network);
    assert_eq!(c.any(), ConnectivityState::Internet);
    assert_eq!(c.all(), ConnectivityState::Network);
    let d = verdict(ConnectivityState::Disconnected, ConnectivityState::Internet);
    assert_eq!(d.any(), ConnectivityState::Internet);
    assert_eq!(d.all(), ConnectivityState::Disconnected);
    let e = verdict(ConnectivityState::Network, ConnectivityState::Network);
    assert_eq!(e.any(), ConnectivityState::Network);
    assert_eq!(e.all(), ConnectivityState::Network);
}
