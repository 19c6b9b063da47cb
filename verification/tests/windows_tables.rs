//! Tests of the Windows table-scan normalizer.

use network_connectivity::state::IpAddr;
use network_connectivity::windows::connectivity_from_tables;
use network_connectivity::windows::notification_triggers_rescan;
use network_connectivity::windows::rescan_step;
use network_connectivity::windows::AddressRow;
use network_connectivity::windows::InterfaceRow;
use network_connectivity::windows::RouteRow;
use network_connectivity::windows::IF_OPER_STATUS_UP;
use network_connectivity::windows::IF_TYPE_SOFTWARE_LOOPBACK;
use network_connectivity::windows::INFINITE_LIFETIME;
use network_connectivity::windows::MIB_ADD_INSTANCE;
use network_connectivity::windows::MIB_DELETE_INSTANCE;
use network_connectivity::windows::MIB_INITIAL_NOTIFICATION;
use network_connectivity::windows::MIB_PARAMETER_NOTIFICATION;
use network_connectivity::Connectivity;
use network_connectivity::ConnectivityState;

const IF_TYPE_ETHERNET: u32 = 6;

fn verdict(ipv4: ConnectivityState, ipv6: ConnectivityState) -> Connectivity {
    Connectivity { ipv4, ipv6 }
}

fn eth(index: u32, up: bool) -> InterfaceRow {
    InterfaceRow {
        index,
        if_type: IF_TYPE_ETHERNET,
        oper_status: if up { IF_OPER_STATUS_UP } else { 2 },
    }
}

fn addr(index: u32, address: IpAddr) -> AddressRow {
    AddressRow { index, address, valid_lifetime: 3600 }
}

fn default_route(index: u32, next_hop: IpAddr, metric: u32) -> RouteRow {
    RouteRow {
        index,
        destination_prefix_length: 0,
        destination_prefix: IpAddr::V4(0),
        next_hop,
        metric,
    }
}

#[test]
fn empty_tables_have_no_connectivity() {
    assert_eq!(
        connectivity_from_tables(&vec![], &vec![], &vec![]),
        verdict(ConnectivityState::Disconnected, ConnectivityState::Disconnected)
    );
}

#[test]
fn a_full_scan_reaches_internet() {
    let ifs = vec![eth(7, true)];
    let addrs = vec![addr(7, IpAddr::V4(0xC000_0205))];
    let routes = vec![default_route(7, IpAddr::V4(0xC000_0201), 25)];
    assert_eq!(
        connectivity_from_tables(&ifs, &addrs, &routes),
        verdict(ConnectivityState::Internet, ConnectivityState::Disconnected)
    );
}

#[test]
fn loopback_rows_do_not_contribute() {
    let ifs = vec![InterfaceRow {
        index: 1,
        if_type: IF_TYPE_SOFTWARE_LOOPBACK,
        oper_status: IF_OPER_STATUS_UP,
    }];
    let addrs = vec![addr(1, IpAddr::V4(0x7F00_0001))];
    let routes = vec![default_route(1, IpAddr::V4(0x7F00_0001), 1)];
    assert_eq!(
        connectivity_from_tables(&ifs, &addrs, &routes),
        verdict(ConnectivityState::Disconnected, ConnectivityState::Disconnected)
    );
}

#[test]
fn infinite_lifetime_addresses_are_skipped() {
    let ifs = vec![eth(7, true)];
    let permanent = vec![AddressRow {
        index: 7,
        address: IpAddr::V4(0xC000_0205),
        valid_lifetime: INFINITE_LIFETIME,
    }];
    assert_eq!(
        connectivity_from_tables(&ifs, &permanent, &vec![]),
        connectivity_from_tables(&ifs, &vec![], &vec![])
    );
}

#[test]
fn down_interfaces_do_not_contribute() {
    let ifs = vec![eth(7, false)];
    let addrs = vec![addr(7, IpAddr::V4(0xC000_0205))];
    assert_eq!(
        connectivity_from_tables(&ifs, &addrs, &vec![]),
        verdict(ConnectivityState::Disconnected, ConnectivityState::Disconnected)
    );
}

#[test]
fn non_default_routes_are_ignored() {
    let ifs = vec![eth(7, true)];
    let addrs = vec![addr(7, IpAddr::V4(0xC000_0205))];
    let narrower = vec![RouteRow {
        index: 7,
        destination_prefix_length: 24,
        destination_prefix: IpAddr::V4(0xC000_0200),
        next_hop: IpAddr::V4(0xC000_0201),
        metric: 25,
    }];
    assert_eq!(
        connectivity_from_tables(&ifs, &addrs, &narrower),
        verdict(ConnectivityState::Network, ConnectivityState::Disconnected)
    );
    let nonzero_prefix = vec![RouteRow {
        index: 7,
        destination_prefix_length: 0,
        destination_prefix: IpAddr::V4(0xC000_0200),
        next_hop: IpAddr::V4(0xC000_0201),
        metric: 25,
    }];
    assert_eq!(
        connectivity_from_tables(&ifs, &addrs, &nonzero_prefix),
        verdict(ConnectivityState::Network, ConnectivityState::Disconnected)
    );
}

#[test]
fn v6_rows_land_in_the_v6_family() {
    let ifs = vec![eth(9, true)];
    let addrs = vec![addr(9, IpAddr::V6(0x2001_0db8_0000_0000_0000_0000_0000_0001))];
    let routes = vec![RouteRow {
        index: 9,
        destination_prefix_length: 0,
        destination_prefix: IpAddr::V6(0),
        next_hop: IpAddr::V6(0xfe80_0000_0000_0000_0000_0000_0000_0001),
        metric: 10,
    }];
    assert_eq!(
        connectivity_from_tables(&ifs, &addrs, &routes),
        verdict(ConnectivityState::Disconnected, ConnectivityState::Internet)
    );
}

#[test]
fn rescan_reports_only_transitions() {
    let mut last = verdict(ConnectivityState::Disconnected, ConnectivityState::Disconnected);
    let ifs = vec![eth(7, true)];
    let addrs = vec![addr(7, IpAddr::V4(0xC000_0205))];
    let first = rescan_step(&mut last, &ifs, &addrs, &vec![]);
    assert_eq!(
        first,
        Some(verdict(ConnectivityState::Network, ConnectivityState::Disconnected))
    );
    // an identical rescan reports nothing
    let second = rescan_step(&mut last, &ifs, &addrs, &vec![]);
    assert_eq!(second, None);
    // a disappeared interface is simply absent from the next scan
    let third = rescan_step(&mut last, &vec![], &vec![], &vec![]);
    assert_eq!(
        third,
        Some(verdict(ConnectivityState::Disconnected, ConnectivityState::Disconnected))
    );
}

#[test]
fn only_the_recognized_notifications_rescan() {
    assert!(notification_triggers_rescan(MIB_PARAMETER_NOTIFICATION));
    assert!(notification_triggers_rescan(MIB_ADD_INSTANCE));
    assert!(notification_triggers_rescan(MIB_DELETE_INSTANCE));
    assert!(notification_triggers_rescan(MIB_INITIAL_NOTIFICATION));
    assert!(!notification_triggers_rescan(4));
    assert!(!notification_triggers_rescan(-1));
}
