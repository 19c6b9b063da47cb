//! Tests of the Linux normalizer and the driver step, with real
//! route-netlink messages.

use network_connectivity::diff_assign;
use network_connectivity::linux::ip_from_bytes;
use network_connectivity::linux::parse_address;
use network_connectivity::linux::parse_default_route;
use network_connectivity::linux::parse_link;
use network_connectivity::linux::Driver;
use network_connectivity::linux::DriverError;
use network_connectivity::linux::RtEvent;
use network_connectivity::linux::Step;
use network_connectivity::linux::AF_INET;
use network_connectivity::linux::AF_INET6;
use network_connectivity::linux::IFA_F_PERMANENT;
use network_connectivity::linux::IFF_LOOPBACK;
use network_connectivity::linux::IFF_LOWER_UP;
use network_connectivity::state::IpAddr;
use network_connectivity::Connectivity;
use network_connectivity::ConnectivityState;
use rtnetlink::packet::nlas;
use rtnetlink::packet::RtnlMessage;
use rtnetlink::proto::NetlinkMessage;
use rtnetlink::proto::NetlinkPayload;
use rtnetlink::packet::AddressMessage;
use rtnetlink::packet::LinkMessage;
use rtnetlink::packet::RouteMessage;

fn verdict(ipv4: ConnectivityState, ipv6: ConnectivityState) -> Connectivity {
    Connectivity { ipv4, ipv6 }
}

fn link_message(index: u32, flags: u32) -> LinkMessage {
    let mut msg = LinkMessage::default();
    msg.header.index = index;
    msg.header.flags = flags;
    msg
}

fn address_message(index: u32, family: u16, header_flags: u8, nlas: Vec<nlas::address::Nla>) -> AddressMessage {
    let mut msg = AddressMessage::default();
    msg.header.index = index;
    msg.header.family = family as u8;
    msg.header.flags = header_flags;
    msg.nlas = nlas;
    msg
}

fn route_message(family: u16, nlas: Vec<nlas::route::Nla>) -> RouteMessage {
    let mut msg = RouteMessage::default();
    msg.header.address_family = family as u8;
    msg.nlas = nlas;
    msg
}

#[test]
fn ip_from_bytes_packs_big_endian() {
    assert_eq!(
        ip_from_bytes(AF_INET, &vec![192, 0, 2, 5]),
        Some(IpAddr::V4(0xC000_0205))
    );
    let v6_bytes = vec![
        0x20, 0x01, 0x0d, 0xb8, 0, 0, 0, 0, 0, 0, 0, 0, 0, 0, 0, 0x01,
    ];
    assert_eq!(
        ip_from_bytes(AF_INET6, &v6_bytes),
        Some(IpAddr::V6(0x2001_0db8_0000_0000_0000_0000_0000_0001))
    );
    // wrong byte count for the family
    assert_eq!(ip_from_bytes(AF_INET, &vec![192, 0, 2]), None);
    assert_eq!(ip_from_bytes(AF_INET6, &vec![0x20, 0x01]), None);
    // unknown family
    assert_eq!(ip_from_bytes(0, &vec![1, 2, 3, 4]), None);
}

#[test]
fn parse_link_reads_the_flag_bits() {
    assert_eq!(parse_link(&link_message(7, IFF_LOWER_UP)), (7, false, true));
    assert_eq!(
        parse_link(&link_message(1, IFF_LOOPBACK | IFF_LOWER_UP)),
        (1, true, true)
    );
    assert_eq!(parse_link(&link_message(2, 0)), (2, false, false));
}

#[test]
fn parse_address_needs_an_address_attribute() {
    let msg = address_message(7, AF_INET, 0, vec![]);
    assert_eq!(parse_address(&msg), None);
}

#[test]
fn parse_address_reads_the_first_address() {
    let msg = address_message(
        7,
        AF_INET,
        0,
        vec![
            nlas::address::Nla::Label("eth0".into()),
            nlas::address::Nla::Address(vec![192, 0, 2, 5]),
        ],
    );
    assert_eq!(parse_address(&msg), Some((7, IpAddr::V4(0xC000_0205))));
}

#[test]
fn parse_address_rejects_permanent_header_flag() {
    let msg = address_message(
        7,
        AF_INET,
        IFA_F_PERMANENT as u8,
        vec![nlas::address::Nla::Address(vec![192, 0, 2, 5])],
    );
    assert_eq!(parse_address(&msg), None);
}

#[test]
fn parse_address_rejects_permanent_flag_attribute() {
    let msg = address_message(
        7,
        AF_INET,
        0,
        vec![
            nlas::address::Nla::Flags(IFA_F_PERMANENT),
            nlas::address::Nla::Address(vec![192, 0, 2, 5]),
        ],
    );
    assert_eq!(parse_address(&msg), None);
}

#[test]
fn parse_default_route_needs_all_three_attributes() {
    let oif = nlas::route::Nla::Oif(7);
    let gw = nlas::route::Nla::Gateway(vec![192, 0, 2, 1]);
    let prio = nlas::route::Nla::Priority(100);
    let full = route_message(AF_INET, vec![oif.clone(), gw.clone(), prio.clone()]);
    assert_eq!(
        parse_default_route(&full),
        Some((7, IpAddr::V4(0xC000_0201), 100))
    );
    assert_eq!(
        parse_default_route(&route_message(AF_INET, vec![gw.clone(), prio.clone()])),
        None
    );
    assert_eq!(
        parse_default_route(&route_message(AF_INET, vec![oif.clone(), prio.clone()])),
        None
    );
    assert_eq!(
        parse_default_route(&route_message(AF_INET, vec![oif.clone(), gw.clone()])),
        None
    );
}

#[test]
fn cold_start_publishes_disconnected() {
    let mut driver = Driver::new();
    assert_eq!(
        driver.initial_verdict(),
        verdict(ConnectivityState::Disconnected, ConnectivityState::Disconnected)
    );
}

#[test]
fn v4_come_up_emits_each_transition_once() {
    let mut driver = Driver::new();
    assert_eq!(
        driver.initial_verdict(),
        verdict(ConnectivityState::Disconnected, ConnectivityState::Disconnected)
    );
    // link only: the verdict does not change, nothing is emitted
    let s1 = driver.handle_event(RtEvent::NewLink(link_message(7, IFF_LOWER_UP)));
    assert_eq!(s1, Step::Silent);
    // the address brings the family to Network
    let s2 = driver.handle_event(RtEvent::NewAddress(address_message(
        7,
        AF_INET,
        0,
        vec![nlas::address::Nla::Address(vec![192, 0, 2, 5])],
    )));
    assert_eq!(
        s2,
        Step::Emit(verdict(ConnectivityState::Network, ConnectivityState::Disconnected))
    );
    // the default route brings it to Internet
    let s3 = driver.handle_event(RtEvent::NewRoute(route_message(
        AF_INET,
        vec![
            nlas::route::Nla::Oif(7),
            nlas::route::Nla::Gateway(vec![192, 0, 2, 1]),
            nlas::route::Nla::Priority(100),
        ],
    )));
    assert_eq!(
        s3,
        Step::Emit(verdict(ConnectivityState::Internet, ConnectivityState::Disconnected))
    );
}

#[test]
fn dual_stack_v6_gateway_loss_emits_the_transition() {
    let mut driver = Driver::new();
    driver.snapshot_link(&link_message(3, IFF_LOWER_UP));
    driver.snapshot_address(&address_message(
        3,
        AF_INET,
        0,
        vec![nlas::address::Nla::Address(vec![192, 0, 2, 5])],
    ));
    driver.snapshot_address(&address_message(
        3,
        AF_INET6,
        0,
        vec![nlas::address::Nla::Address(vec![
            0x20, 0x01, 0x0d, 0xb8, 0, 0, 0, 0, 0, 0, 0, 0, 0, 0, 0, 0x01,
        ])],
    ));
    driver.snapshot_default_route(&route_message(
        AF_INET,
        vec![
            nlas::route::Nla::Oif(3),
            nlas::route::Nla::Gateway(vec![192, 0, 2, 1]),
            nlas::route::Nla::Priority(100),
        ],
    ));
    driver.snapshot_default_route(&route_message(
        AF_INET6,
        vec![
            nlas::route::Nla::Oif(3),
            nlas::route::Nla::Gateway(vec![
                0xfe, 0x80, 0, 0, 0, 0, 0, 0, 0, 0, 0, 0, 0, 0, 0, 0x01,
            ]),
            nlas::route::Nla::Priority(200),
        ],
    ));
    assert_eq!(
        driver.initial_verdict(),
        verdict(ConnectivityState::Internet, ConnectivityState::Internet)
    );
    let s = driver.handle_event(RtEvent::DelRoute(route_message(
        AF_INET6,
        vec![
            nlas::route::Nla::Oif(3),
            nlas::route::Nla::Gateway(vec![
                0xfe, 0x80, 0, 0, 0, 0, 0, 0, 0, 0, 0, 0, 0, 0, 0, 0x01,
            ]),
            nlas::route::Nla::Priority(200),
        ],
    )));
    assert_eq!(
        s,
        Step::Emit(verdict(ConnectivityState::Internet, ConnectivityState::Network))
    );
}

#[test]
fn loopback_noise_emits_nothing() {
    let mut driver = Driver::new();
    driver.initial_verdict();
    let s1 = driver.handle_event(RtEvent::NewLink(link_message(
        1,
        IFF_LOOPBACK | IFF_LOWER_UP,
    )));
    assert_eq!(s1, Step::Silent);
    // addresses on the loopback key land on a keyless, down entry and
    // change no verdict
    let s2 = driver.handle_event(RtEvent::NewAddress(address_message(
        1,
        AF_INET,
        0,
        vec![nlas::address::Nla::Address(vec![127, 0, 0, 1])],
    )));
    assert_eq!(s2, Step::Silent);
}

#[test]
fn permanent_address_emits_nothing() {
    let mut driver = Driver::new();
    driver.snapshot_link(&link_message(7, IFF_LOWER_UP));
    driver.initial_verdict();
    let s = driver.handle_event(RtEvent::NewAddress(address_message(
        7,
        AF_INET,
        IFA_F_PERMANENT as u8,
        vec![nlas::address::Nla::Address(vec![192, 0, 2, 5])],
    )));
    assert_eq!(s, Step::Silent);
}

#[test]
fn error_frame_is_fatal_with_its_payload() {
    let mut driver = Driver::new();
    driver.initial_verdict();
    let s = driver.handle_event(RtEvent::Failure(-95, vec![1, 2, 3]));
    assert_eq!(s, Step::Fatal(DriverError::Protocol(-95, vec![1, 2, 3])));
}

#[test]
fn overrun_frame_is_fatal_with_its_payload() {
    let mut driver = Driver::new();
    driver.initial_verdict();
    let s = driver.handle_event(RtEvent::Overrun(vec![9, 9]));
    assert_eq!(s, Step::Fatal(DriverError::Overrun(vec![9, 9])));
}

#[test]
fn ignored_frames_emit_nothing() {
    let mut driver = Driver::new();
    driver.initial_verdict();
    assert_eq!(driver.handle_event(RtEvent::Other), Step::Silent);
}

#[test]
fn no_two_adjacent_equal_verdicts() {
    let mut driver = Driver::new();
    driver.initial_verdict();
    let up = RtEvent::NewLink(link_message(7, IFF_LOWER_UP));
    let addr = RtEvent::NewAddress(address_message(
        7,
        AF_INET,
        0,
        vec![nlas::address::Nla::Address(vec![192, 0, 2, 5])],
    ));
    // the same event again must not repeat the emission
    let first = driver.handle_event(up);
    assert_eq!(first, Step::Silent);
    let emitted = driver.handle_event(addr);
    assert!(matches!(emitted, Step::Emit(_)));
    let again = driver.handle_event(RtEvent::NewAddress(address_message(
        7,
        AF_INET,
        0,
        vec![nlas::address::Nla::Address(vec![192, 0, 2, 5])],
    )));
    assert_eq!(again, Step::Silent);
}

#[test]
fn diff_assign_reports_and_stores_the_difference() {
    let mut c = Connectivity {
        ipv4: ConnectivityState::Disconnected,
        ipv6: ConnectivityState::Disconnected,
    };
    let same = c;
    assert!(!diff_assign(&mut c, same));
    let other = Connectivity {
        ipv4: ConnectivityState::Internet,
        ipv6: ConnectivityState::Disconnected,
    };
    assert!(diff_assign(&mut c, other));
    assert_eq!(c, other);
    assert!(!diff_assign(&mut c, other));
}

#[test]
fn handle_message_classifies_the_payload() {
    let mut driver = Driver::new();
    driver.initial_verdict();
    let header = Default::default();
    // a new-address frame carries its mutation through to an emission
    driver.handle_message(NetlinkMessage::new(
        header,
        NetlinkPayload::InnerMessage(RtnlMessage::NewLink(link_message(7, IFF_LOWER_UP))),
    ));
    let s = driver.handle_message(NetlinkMessage::new(
        header,
        NetlinkPayload::InnerMessage(RtnlMessage::NewAddress(address_message(
            7,
            AF_INET,
            0,
            vec![nlas::address::Nla::Address(vec![192, 0, 2, 5])],
        ))),
    ));
    assert_eq!(
        s,
        Step::Emit(verdict(ConnectivityState::Network, ConnectivityState::Disconnected))
    );
    // an overrun frame is fatal
    let fatal = driver.handle_message(NetlinkMessage::new(
        header,
        NetlinkPayload::Overrun(vec![1]),
    ));
    assert_eq!(fatal, Step::Fatal(DriverError::Overrun(vec![1])));
    // frames the driver does not recognize are ignored
    let ignored = driver.handle_message(NetlinkMessage::new(header, NetlinkPayload::Noop));
    assert_eq!(ignored, Step::Silent);
}
