//! Normalizing Linux route-netlink messages into state mutations.
//!
//! The message structs of the netlink crates are opaque to the verifier, so
//! each is read through a small trusted accessor that hands out plain
//! values; everything that decides — which attribute counts, the permanent
//! flag, the address family, the byte layout of an address — is verified
//! against the spec functions below.

use vstd::prelude::*;

use crate::state::AddressInfo;
use crate::state::InterfaceView;
use crate::state::Interfaces;
use crate::state::IpAddr;
use crate::state::LinkInfo;
use crate::state::RouteInfo;
use crate::state::spec_add_address;
use crate::state::spec_add_default_route;
use crate::state::spec_add_link;
use crate::state::spec_connectivity;
use crate::state::spec_remove_address;
use crate::state::spec_remove_default_route;
use crate::state::spec_remove_link;
use crate::diff_assign;
use crate::Connectivity;
use crate::ConnectivityState;
use rtnetlink::packet::nlas;
use rtnetlink::packet::AddressMessage;
use rtnetlink::packet::LinkMessage;
use rtnetlink::packet::RouteMessage;
use rtnetlink::packet::RtnlMessage;
use rtnetlink::proto::NetlinkMessage;
use rtnetlink::proto::NetlinkPayload;

verus! {

/// Link flag: the interface is a loopback device (Linux `IFF_LOOPBACK`).
pub const IFF_LOOPBACK: u32 = 0x8;

/// Link flag: the link layer is up (Linux `IFF_LOWER_UP`).
pub const IFF_LOWER_UP: u32 = 0x10000;

/// Address family of ipv4 (Linux `AF_INET`).
pub const AF_INET: u16 = 2;

/// Address family of ipv6 (Linux `AF_INET6`).
pub const AF_INET6: u16 = 10;

/// Address flag: the address is administratively permanent (Linux
/// `IFA_F_PERMANENT`).
pub const IFA_F_PERMANENT: u32 = 128;

// ------------------------------------------------------------------
// the opaque message types of the netlink crates
// ------------------------------------------------------------------
/// Declares `LinkMessage` of `netlink-packet-route` to the verifier; its
/// value stays opaque.
#[verifier::external_type_specification]
#[verifier::external_body]
pub struct ExLinkMessage(LinkMessage);

/// Declares `AddressMessage` of `netlink-packet-route` to the verifier.
#[verifier::external_type_specification]
#[verifier::external_body]
pub struct ExAddressMessage(AddressMessage);

/// Declares `RouteMessage` of `netlink-packet-route` to the verifier.
#[verifier::external_type_specification]
#[verifier::external_body]
pub struct ExRouteMessage(RouteMessage);

/// Declares the address attribute enum of `netlink-packet-route`.
#[verifier::external_type_specification]
#[verifier::external_body]
pub struct ExAddressNla(nlas::address::Nla);

/// Declares the route attribute enum of `netlink-packet-route`.
#[verifier::external_type_specification]
#[verifier::external_body]
pub struct ExRouteNla(nlas::route::Nla);

// ------------------------------------------------------------------
// trusted accessors and converters
// ------------------------------------------------------------------
/// Relies on the public `header` field of `LinkMessage`: returns its
/// `index` and `flags` fields unchanged.
#[verifier::external_body]
fn link_header_fields(msg: &LinkMessage) -> (r: (u32, u32)) {
    (msg.header.index, msg.header.flags)
}

/// Relies on the public `header` field of `AddressMessage`: returns its
/// `index`, `family` and `flags` fields unchanged.
#[verifier::external_body]
fn address_header_fields(msg: &AddressMessage) -> (r: (u32, u8, u8)) {
    (msg.header.index, msg.header.family, msg.header.flags)
}

/// Relies on the public `nlas` field of `AddressMessage`: returns a
/// borrow of the attribute list.
#[verifier::external_body]
fn address_nlas(msg: &AddressMessage) -> (r: &Vec<nlas::address::Nla>) {
    &msg.nlas
}

/// Relies on the variants of the address attribute enum of
/// `netlink-packet-route`: each arm moves the payload of one variant.
#[verifier::external_body]
fn convert_address_nla(nla: &nlas::address::Nla) -> (r: AddressAttr) {
    match *nla {
        nlas::address::Nla::Address(ref bytes) => AddressAttr::Address(bytes.clone()),
        nlas::address::Nla::Flags(flags) => AddressAttr::Flags(flags),
        _ => AddressAttr::Other,
    }
}

/// Relies on the public `header` field of `RouteMessage`: returns its
/// `address_family` field unchanged.
#[verifier::external_body]
fn route_header_family(msg: &RouteMessage) -> (r: u8) {
    msg.header.address_family
}

/// Relies on the public `nlas` field of `RouteMessage`: returns a borrow
/// of the attribute list.
#[verifier::external_body]
fn route_nlas(msg: &RouteMessage) -> (r: &Vec<nlas::route::Nla>) {
    &msg.nlas
}

/// Relies on the variants of the route attribute enum of
/// `netlink-packet-route`: each arm moves the payload of one variant.
#[verifier::external_body]
fn convert_route_nla(nla: &nlas::route::Nla) -> (r: RouteAttr) {
    match *nla {
        nlas::route::Nla::Oif(oif) => RouteAttr::Oif(oif),
        nlas::route::Nla::Gateway(ref bytes) => RouteAttr::Gateway(bytes.clone()),
        nlas::route::Nla::Priority(priority) => RouteAttr::Priority(priority),
        _ => RouteAttr::Other,
    }
}

// ------------------------------------------------------------------
// the attributes the normalizer reads
// ------------------------------------------------------------------
/// An address message attribute, reduced to what the normalizer reads.
#[derive(Debug, Clone)]
pub enum AddressAttr {
    /// The address carried by the message
    Address(Vec<u8>),
    /// Extended address flags, to be combined with the header flags
    Flags(u32),
    /// Any attribute the normalizer ignores
    Other,
}

/// A route message attribute, reduced to what the normalizer reads.
#[derive(Debug, Clone)]
pub enum RouteAttr {
    /// The output interface index
    Oif(u32),
    /// The gateway address bytes
    Gateway(Vec<u8>),
    /// The route priority (metric)
    Priority(u32),
    /// Any attribute the normalizer ignores
    Other,
}

/// The attribute list of an address message, converted element by element.
fn address_attrs(msg: &AddressMessage) -> (r: Vec<AddressAttr>) {
    let raw = address_nlas(msg);
    let n = raw.len();
    let mut out: Vec<AddressAttr> = Vec::new();
    let mut i: usize = 0;
    while i < n
        invariant
            n == raw.len(),
            0 <= i <= n,
        decreases n - i,
    {
        out.push(convert_address_nla(&raw[i]));
        i += 1;
    }
    out
}

/// The attribute list of a route message, converted element by element.
fn route_attrs(msg: &RouteMessage) -> (r: Vec<RouteAttr>) {
    let raw = route_nlas(msg);
    let n = raw.len();
    let mut out: Vec<RouteAttr> = Vec::new();
    let mut i: usize = 0;
    while i < n
        invariant
            n == raw.len(),
            0 <= i <= n,
        decreases n - i,
    {
        out.push(convert_route_nla(&raw[i]));
        i += 1;
    }
    out
}

// ------------------------------------------------------------------
// what the normalizer means, as spec functions
// ------------------------------------------------------------------
/// The payload of the first `Address` attribute, if any.
pub open spec fn first_address_bytes(attrs: Seq<AddressAttr>) -> Option<Seq<u8>>
    decreases attrs.len(),
{
    if attrs.len() == 0 {
        None
    } else {
        match attrs[0] {
            AddressAttr::Address(bytes) => Some(bytes@),
            _ => first_address_bytes(attrs.drop_first()),
        }
    }
}

/// The payload of the first `Flags` attribute, if any.
pub open spec fn first_flags_value(attrs: Seq<AddressAttr>) -> Option<u32>
    decreases attrs.len(),
{
    if attrs.len() == 0 {
        None
    } else {
        match attrs[0] {
            AddressAttr::Flags(flags) => Some(flags),
            _ => first_flags_value(attrs.drop_first()),
        }
    }
}

/// The payload of the first `Oif` attribute, if any.
pub open spec fn first_oif_value(attrs: Seq<RouteAttr>) -> Option<u32>
    decreases attrs.len(),
{
    if attrs.len() == 0 {
        None
    } else {
        match attrs[0] {
            RouteAttr::Oif(oif) => Some(oif),
            _ => first_oif_value(attrs.drop_first()),
        }
    }
}

/// The payload of the first `Gateway` attribute, if any.
pub open spec fn first_gateway_bytes(attrs: Seq<RouteAttr>) -> Option<Seq<u8>>
    decreases attrs.len(),
{
    if attrs.len() == 0 {
        None
    } else {
        match attrs[0] {
            RouteAttr::Gateway(bytes) => Some(bytes@),
            _ => first_gateway_bytes(attrs.drop_first()),
        }
    }
}

/// The payload of the first `Priority` attribute, if any.
pub open spec fn first_priority_value(attrs: Seq<RouteAttr>) -> Option<u32>
    decreases attrs.len(),
{
    if attrs.len() == 0 {
        None
    } else {
        match attrs[0] {
            RouteAttr::Priority(priority) => Some(priority),
            _ => first_priority_value(attrs.drop_first()),
        }
    }
}

/// An address as the state model holds it, read from its wire bytes:
/// four octets packed big-endian for `AF_INET`, sixteen for `AF_INET6`,
/// nothing for any other family or byte count.
pub open spec fn spec_ip_from_bytes(family: u16, b: Seq<u8>) -> Option<IpAddr> {
    if family == AF_INET && b.len() == 4 {
        Some(
            IpAddr::V4(
                ((b[0] as u32) << 24) | ((b[1] as u32) << 16) | ((b[2] as u32) << 8) | (
                b[3] as u32),
            ),
        )
    } else if family == AF_INET6 && b.len() == 16 {
        Some(
            IpAddr::V6(
                ((b[0] as u128) << 120) | ((b[1] as u128) << 112) | ((b[2] as u128) << 104) | ((
                b[3] as u128) << 96) | ((b[4] as u128) << 88) | ((b[5] as u128) << 80) | ((
                b[6] as u128) << 72) | ((b[7] as u128) << 64) | ((b[8] as u128) << 56) | ((
                b[9] as u128) << 48) | ((b[10] as u128) << 40) | ((b[11] as u128) << 32) | ((
                b[12] as u128) << 24) | ((b[13] as u128) << 16) | ((b[14] as u128) << 8) | (
                b[15] as u128),
            ),
        )
    } else {
        None
    }
}

/// The flags an address message carries: the first `Flags` attribute if
/// present, combined with the header flags.
pub open spec fn spec_effective_flags(header_flags: u8, attrs: Seq<AddressAttr>) -> u32 {
    match first_flags_value(attrs) {
        Some(flags) => flags | (header_flags as u32),
        None => header_flags as u32,
    }
}

/// What an address message means: nothing without an `Address` attribute,
/// nothing when the effective flags mark the address permanent, nothing
/// for an unknown family or byte count; otherwise the interface index and
/// the address.
pub open spec fn spec_parse_address(
    index: u32,
    family: u8,
    header_flags: u8,
    attrs: Seq<AddressAttr>,
) -> Option<AddressInfo> {
    match first_address_bytes(attrs) {
        None => None,
        Some(bytes) => match spec_ip_from_bytes(family as u16, bytes) {
            None => None,
            Some(addr) => if spec_effective_flags(header_flags, attrs) & IFA_F_PERMANENT != 0 {
                None
            } else {
                Some((index, addr))
            },
        },
    }
}

/// What a link message means: the index, whether the link is loopback,
/// and whether its link layer is up.
pub open spec fn spec_parse_link(index: u32, flags: u32) -> LinkInfo {
    (index, flags & IFF_LOOPBACK != 0, flags & IFF_LOWER_UP != 0)
}

/// What a route message means: nothing unless an output interface, a
/// gateway and a priority are all present and the gateway bytes fit the
/// family; otherwise the output interface, the gateway and the priority.
pub open spec fn spec_parse_route(family: u8, attrs: Seq<RouteAttr>) -> Option<RouteInfo> {
    match first_gateway_bytes(attrs) {
        None => None,
        Some(bytes) => match (first_oif_value(attrs), first_priority_value(attrs)) {
            (Some(oif), Some(priority)) => match spec_ip_from_bytes(family as u16, bytes) {
                None => None,
                Some(gateway) => Some((oif, gateway, priority)),
            },
            _ => None,
        },
    }
}

// ------------------------------------------------------------------
// first-attribute lemmas
// ------------------------------------------------------------------
proof fn lemma_first_address_at(attrs: Seq<AddressAttr>, i: int)
    requires
        0 <= i < attrs.len(),
        attrs[i] is Address,
        forall|j: int| 0 <= j < i ==> !((#[trigger] attrs[j]) is Address),
    ensures
        first_address_bytes(attrs) == Some(attrs[i]->Address_0@),
    decreases i,
{
    if i > 0 {
        lemma_first_address_at(attrs.drop_first(), i - 1);
    }
}

proof fn lemma_first_address_none(attrs: Seq<AddressAttr>)
    requires
        forall|j: int| 0 <= j < attrs.len() ==> !((#[trigger] attrs[j]) is Address),
    ensures
        first_address_bytes(attrs) is None,
    decreases attrs.len(),
{
    if attrs.len() > 0 {
        lemma_first_address_none(attrs.drop_first());
    }
}

proof fn lemma_first_flags_at(attrs: Seq<AddressAttr>, i: int)
    requires
        0 <= i < attrs.len(),
        attrs[i] is Flags,
        forall|j: int| 0 <= j < i ==> !((#[trigger] attrs[j]) is Flags),
    ensures
        first_flags_value(attrs) == Some(attrs[i]->Flags_0),
    decreases i,
{
    if i > 0 {
        lemma_first_flags_at(attrs.drop_first(), i - 1);
    }
}

proof fn lemma_first_flags_none(attrs: Seq<AddressAttr>)
    requires
        forall|j: int| 0 <= j < attrs.len() ==> !((#[trigger] attrs[j]) is Flags),
    ensures
        first_flags_value(attrs) is None,
    decreases attrs.len(),
{
    if attrs.len() > 0 {
        lemma_first_flags_none(attrs.drop_first());
    }
}

proof fn lemma_first_oif_at(attrs: Seq<RouteAttr>, i: int)
    requires
        0 <= i < attrs.len(),
        attrs[i] is Oif,
        forall|j: int| 0 <= j < i ==> !((#[trigger] attrs[j]) is Oif),
    ensures
        first_oif_value(attrs) == Some(attrs[i]->Oif_0),
    decreases i,
{
    if i > 0 {
        lemma_first_oif_at(attrs.drop_first(), i - 1);
    }
}

proof fn lemma_first_oif_none(attrs: Seq<RouteAttr>)
    requires
        forall|j: int| 0 <= j < attrs.len() ==> !((#[trigger] attrs[j]) is Oif),
    ensures
        first_oif_value(attrs) is None,
    decreases attrs.len(),
{
    if attrs.len() > 0 {
        lemma_first_oif_none(attrs.drop_first());
    }
}

proof fn lemma_first_gateway_at(attrs: Seq<RouteAttr>, i: int)
    requires
        0 <= i < attrs.len(),
        attrs[i] is Gateway,
        forall|j: int| 0 <= j < i ==> !((#[trigger] attrs[j]) is Gateway),
    ensures
        first_gateway_bytes(attrs) == Some(attrs[i]->Gateway_0@),
    decreases i,
{
    if i > 0 {
        lemma_first_gateway_at(attrs.drop_first(), i - 1);
    }
}

proof fn lemma_first_gateway_none(attrs: Seq<RouteAttr>)
    requires
        forall|j: int| 0 <= j < attrs.len() ==> !((#[trigger] attrs[j]) is Gateway),
    ensures
        first_gateway_bytes(attrs) is None,
    decreases attrs.len(),
{
    if attrs.len() > 0 {
        lemma_first_gateway_none(attrs.drop_first());
    }
}

proof fn lemma_first_priority_at(attrs: Seq<RouteAttr>, i: int)
    requires
        0 <= i < attrs.len(),
        attrs[i] is Priority,
        forall|j: int| 0 <= j < i ==> !((#[trigger] attrs[j]) is Priority),
    ensures
        first_priority_value(attrs) == Some(attrs[i]->Priority_0),
    decreases i,
{
    if i > 0 {
        lemma_first_priority_at(attrs.drop_first(), i - 1);
    }
}

proof fn lemma_first_priority_none(attrs: Seq<RouteAttr>)
    requires
        forall|j: int| 0 <= j < attrs.len() ==> !((#[trigger] attrs[j]) is Priority),
    ensures
        first_priority_value(attrs) is None,
    decreases attrs.len(),
{
    if attrs.len() > 0 {
        lemma_first_priority_none(attrs.drop_first());
    }
}

// ------------------------------------------------------------------
// verified normalizers over plain values
// ------------------------------------------------------------------
/// Extract useful information from the header fields of a link message.
pub fn parse_link_fields(index: u32, flags: u32) -> (r: LinkInfo)
    ensures
        r == spec_parse_link(index, flags),
{
    (index, flags & IFF_LOOPBACK != 0, flags & IFF_LOWER_UP != 0)
}

/// An address as the state model holds it, read from its wire bytes.
pub fn ip_from_bytes(family: u16, bytes: &Vec<u8>) -> (r: Option<IpAddr>)
    ensures
        r == spec_ip_from_bytes(family, bytes@),
{
    if family == AF_INET && bytes.len() == 4 {
        Some(
            IpAddr::V4(
                ((bytes[0] as u32) << 24) | ((bytes[1] as u32) << 16) | ((bytes[2] as u32) << 8)
                    | (bytes[3] as u32),
            ),
        )
    } else if family == AF_INET6 && bytes.len() == 16 {
        Some(
            IpAddr::V6(
                ((bytes[0] as u128) << 120) | ((bytes[1] as u128) << 112) | ((
                bytes[2] as u128) << 104) | ((bytes[3] as u128) << 96) | ((
                bytes[4] as u128) << 88) | ((bytes[5] as u128) << 80) | ((
                bytes[6] as u128) << 72) | ((bytes[7] as u128) << 64) | ((
                bytes[8] as u128) << 56) | ((bytes[9] as u128) << 48) | ((
                bytes[10] as u128) << 40) | ((bytes[11] as u128) << 32) | ((
                bytes[12] as u128) << 24) | ((bytes[13] as u128) << 16) | ((
                bytes[14] as u128) << 8) | (bytes[15] as u128),
            ),
        )
    } else {
        None
    }
}

/// The first `Address` attribute's payload, by one pass over the list.
fn find_address_bytes<'a>(attrs: &'a Vec<AddressAttr>) -> (r: Option<&'a Vec<u8>>)
    ensures
        match r {
            Some(bytes) => first_address_bytes(attrs@) == Some(bytes@),
            None => first_address_bytes(attrs@) is None,
        },
{
    let n = attrs.len();
    let mut i: usize = 0;
    while i < n
        invariant
            n == attrs.len(),
            0 <= i <= n,
            forall|j: int| 0 <= j < i ==> !((#[trigger] attrs@[j]) is Address),
        decreases n - i,
    {
        match &attrs[i] {
            AddressAttr::Address(bytes) => {
                proof {
                    lemma_first_address_at(attrs@, i as int);
                }
                return Some(bytes);
            },
            _ => {},
        }
        i += 1;
    }
    proof {
        lemma_first_address_none(attrs@);
    }
    None
}

/// The first `Flags` attribute's payload, by one pass over the list.
fn find_flags_value(attrs: &Vec<AddressAttr>) -> (r: Option<u32>)
    ensures
        r == first_flags_value(attrs@),
{
    let n = attrs.len();
    let mut i: usize = 0;
    while i < n
        invariant
            n == attrs.len(),
            0 <= i <= n,
            forall|j: int| 0 <= j < i ==> !((#[trigger] attrs@[j]) is Flags),
        decreases n - i,
    {
        match &attrs[i] {
            AddressAttr::Flags(flags) => {
                proof {
                    lemma_first_flags_at(attrs@, i as int);
                }
                return Some(*flags);
            },
            _ => {},
        }
        i += 1;
    }
    proof {
        lemma_first_flags_none(attrs@);
    }
    None
}

/// The first `Oif` attribute's payload, by one pass over the list.
fn find_oif_value(attrs: &Vec<RouteAttr>) -> (r: Option<u32>)
    ensures
        r == first_oif_value(attrs@),
{
    let n = attrs.len();
    let mut i: usize = 0;
    while i < n
        invariant
            n == attrs.len(),
            0 <= i <= n,
            forall|j: int| 0 <= j < i ==> !((#[trigger] attrs@[j]) is Oif),
        decreases n - i,
    {
        match &attrs[i] {
            RouteAttr::Oif(oif) => {
                proof {
                    lemma_first_oif_at(attrs@, i as int);
                }
                return Some(*oif);
            },
            _ => {},
        }
        i += 1;
    }
    proof {
        lemma_first_oif_none(attrs@);
    }
    None
}

/// The first `Gateway` attribute's payload, by one pass over the list.
fn find_gateway_bytes<'a>(attrs: &'a Vec<RouteAttr>) -> (r: Option<&'a Vec<u8>>)
    ensures
        match r {
            Some(bytes) => first_gateway_bytes(attrs@) == Some(bytes@),
            None => first_gateway_bytes(attrs@) is None,
        },
{
    let n = attrs.len();
    let mut i: usize = 0;
    while i < n
        invariant
            n == attrs.len(),
            0 <= i <= n,
            forall|j: int| 0 <= j < i ==> !((#[trigger] attrs@[j]) is Gateway),
        decreases n - i,
    {
        match &attrs[i] {
            RouteAttr::Gateway(bytes) => {
                proof {
                    lemma_first_gateway_at(attrs@, i as int);
                }
                return Some(bytes);
            },
            _ => {},
        }
        i += 1;
    }
    proof {
        lemma_first_gateway_none(attrs@);
    }
    None
}

/// The first `Priority` attribute's payload, by one pass over the list.
fn find_priority_value(attrs: &Vec<RouteAttr>) -> (r: Option<u32>)
    ensures
        r == first_priority_value(attrs@),
{
    let n = attrs.len();
    let mut i: usize = 0;
    while i < n
        invariant
            n == attrs.len(),
            0 <= i <= n,
            forall|j: int| 0 <= j < i ==> !((#[trigger] attrs@[j]) is Priority),
        decreases n - i,
    {
        match &attrs[i] {
            RouteAttr::Priority(priority) => {
                proof {
                    lemma_first_priority_at(attrs@, i as int);
                }
                return Some(*priority);
            },
            _ => {},
        }
        i += 1;
    }
    proof {
        lemma_first_priority_none(attrs@);
    }
    None
}

/// Extract useful information from address header fields and attributes.
///
/// Has a result only if the message carries an address of a known family
/// and the effective flags do not mark it permanent.
pub fn parse_address_fields(
    index: u32,
    family: u8,
    header_flags: u8,
    attrs: &Vec<AddressAttr>,
) -> (r: Option<AddressInfo>)
    ensures
        r == spec_parse_address(index, family, header_flags, attrs@),
{
    let found = find_address_bytes(attrs);
    match found {
        None => None,
        Some(bytes) => {
            let addr = ip_from_bytes(family as u16, bytes);
            match addr {
                None => None,
                Some(addr) => {
                    let flags: u32 = match find_flags_value(attrs) {
                        Some(flags) => flags | (header_flags as u32),
                        None => header_flags as u32,
                    };
                    if flags & IFA_F_PERMANENT != 0 {
                        None
                    } else {
                        Some((index, addr))
                    }
                },
            }
        },
    }
}

/// Extract useful information from a route's family and attributes.
///
/// Has a result only when the message carries an output interface, a
/// gateway of a known family, and a priority.
pub fn parse_route_fields(family: u8, attrs: &Vec<RouteAttr>) -> (r: Option<RouteInfo>)
    ensures
        r == spec_parse_route(family, attrs@),
{
    let found = find_gateway_bytes(attrs);
    match found {
        None => None,
        Some(bytes) => {
            let oif = find_oif_value(attrs);
            let priority = find_priority_value(attrs);
            match (oif, priority) {
                (Some(oif), Some(priority)) => {
                    let gateway = ip_from_bytes(family as u16, bytes);
                    match gateway {
                        None => None,
                        Some(gateway) => Some((oif, gateway, priority)),
                    }
                },
                _ => None,
            }
        },
    }
}

// ------------------------------------------------------------------
// verified normalizers over whole messages
// ------------------------------------------------------------------
/// Extract useful information from a `LinkMessage`.
pub fn parse_link(link: &LinkMessage) -> (r: LinkInfo) {
    let (index, flags) = link_header_fields(link);
    parse_link_fields(index, flags)
}

/// Extract useful information from an `AddressMessage`.
///
/// Has a result if the message carries an address of a known family that
/// is not flagged permanent.
pub fn parse_address(addr: &AddressMessage) -> (r: Option<AddressInfo>) {
    let (index, family, header_flags) = address_header_fields(addr);
    let attrs = address_attrs(addr);
    parse_address_fields(index, family, header_flags, &attrs)
}

/// Extract useful information from a `RouteMessage`.
///
/// Has a result when the message has an output interface, gateway, and
/// priority.
pub fn parse_default_route(route: &RouteMessage) -> (r: Option<RouteInfo>) {
    let family = route_header_family(route);
    let attrs = route_attrs(route);
    parse_route_fields(family, &attrs)
}

/// An address whose effective flags mark it permanent is never turned
/// into a mutation, whatever else the message carries.
pub proof fn lemma_permanent_address_ignored(
    index: u32,
    family: u8,
    header_flags: u8,
    attrs: Seq<AddressAttr>,
)
    requires
        spec_effective_flags(header_flags, attrs) & IFA_F_PERMANENT != 0,
    ensures
        spec_parse_address(index, family, header_flags, attrs) is None,
{
}

// ------------------------------------------------------------------
// the event feed and the driver step
// ------------------------------------------------------------------
/// Declares `RtnlMessage` of `netlink-packet-route` to the verifier.
#[verifier::external_type_specification]
#[verifier::external_body]
pub struct ExRtnlMessage(RtnlMessage);

/// Declares `NetlinkMessage` of `netlink-packet-core` to the verifier.
#[verifier::external_type_specification]
#[verifier::external_body]
#[verifier::reject_recursive_types(I)]
pub struct ExNetlinkMessage<I>(NetlinkMessage<I>);

/// One frame of the route-netlink feed, reduced to the cases the driver
/// distinguishes.
pub enum RtEvent {
    /// A link appeared or changed
    NewLink(LinkMessage),
    /// A link went away
    DelLink(LinkMessage),
    /// An address appeared
    NewAddress(AddressMessage),
    /// An address went away
    DelAddress(AddressMessage),
    /// A route appeared
    NewRoute(RouteMessage),
    /// A route went away
    DelRoute(RouteMessage),
    /// The kernel answered with an error frame: its code and raw header
    Failure(i32, Vec<u8>),
    /// The kernel reported lost event data
    Overrun(Vec<u8>),
    /// Any frame the driver ignores
    Other,
}

/// Relies on the variants of `NetlinkPayload` and `RtnlMessage`: each arm
/// moves the payload of one variant into the matching event.
#[verifier::external_body]
fn classify(message: NetlinkMessage<RtnlMessage>) -> (r: RtEvent) {
    match message.payload {
        NetlinkPayload::Error(e) => RtEvent::Failure(e.code, e.header),
        NetlinkPayload::Overrun(data) => RtEvent::Overrun(data),
        NetlinkPayload::InnerMessage(RtnlMessage::NewLink(m)) => RtEvent::NewLink(m),
        NetlinkPayload::InnerMessage(RtnlMessage::DelLink(m)) => RtEvent::DelLink(m),
        NetlinkPayload::InnerMessage(RtnlMessage::NewAddress(m)) => RtEvent::NewAddress(m),
        NetlinkPayload::InnerMessage(RtnlMessage::DelAddress(m)) => RtEvent::DelAddress(m),
        NetlinkPayload::InnerMessage(RtnlMessage::NewRoute(m)) => RtEvent::NewRoute(m),
        NetlinkPayload::InnerMessage(RtnlMessage::DelRoute(m)) => RtEvent::DelRoute(m),
        _ => RtEvent::Other,
    }
}

/// What ends the driver: an error frame on the feed, or the kernel
/// reporting that events were lost and the shadow state can no longer be
/// trusted.
#[derive(Debug, Clone, PartialEq)]
pub enum DriverError {
    /// The feed carried a netlink error frame: its code and raw header
    Protocol(i32, Vec<u8>),
    /// The kernel reported a socket buffer overrun with this payload
    Overrun(Vec<u8>),
}

/// What one driver step decided.
#[derive(Debug, Clone, PartialEq)]
pub enum Step {
    /// The verdict changed; publish this value
    Emit(Connectivity),
    /// Nothing to publish
    Silent,
    /// Stop with this error
    Fatal(DriverError),
}

/// The driver's state: the shadow of the kernel tables and the verdict
/// published last.
pub struct Driver {
    /// The shadow of the kernel's interfaces, addresses and routes
    state: Interfaces,
    /// The verdict published last
    last: Connectivity,
}

impl Driver {
    /// The shadow is well formed.
    pub closed spec fn wf(self) -> bool {
        self.state.wf()
    }

    /// The abstract value of the shadow.
    pub closed spec fn shadow(self) -> Map<u32, InterfaceView> {
        self.state@
    }

    /// The verdict published last.
    pub closed spec fn published(self) -> Connectivity {
        self.last
    }

    /// A driver over an empty shadow, before its initial publication.
    pub fn new() -> (r: Self)
        ensures
            r.wf(),
            r.shadow() == Map::<u32, InterfaceView>::empty(),
            r.published() == (Connectivity {
                ipv4: ConnectivityState::Disconnected,
                ipv6: ConnectivityState::Disconnected,
            }),
    {
        Driver {
            state: Interfaces::new(),
            last: Connectivity {
                ipv4: ConnectivityState::Disconnected,
                ipv6: ConnectivityState::Disconnected,
            },
        }
    }

    /// Record one link of the initial snapshot.
    pub fn snapshot_link(&mut self, link: &LinkMessage)
        requires
            old(self).wf(),
        ensures
            final(self).wf(),
            final(self).published() == old(self).published(),
            exists|l: LinkInfo|
                final(self).shadow() == spec_add_link(old(self).shadow(), l.0, l.1, l.2),
    {
        let info = parse_link(link);
        self.state.add_link(info);
        proof {
            assert(self.shadow() == spec_add_link(old(self).shadow(), info.0, info.1, info.2));
        }
    }

    /// Record one address of the initial snapshot.
    pub fn snapshot_address(&mut self, address: &AddressMessage)
        requires
            old(self).wf(),
        ensures
            final(self).wf(),
            final(self).published() == old(self).published(),
            final(self).shadow() == old(self).shadow() || exists|a: AddressInfo|
                final(self).shadow() == spec_add_address(old(self).shadow(), a.0, a.1),
    {
        let parsed = parse_address(address);
        match parsed {
            Some(info) => {
                self.state.add_address(info);
                proof {
                    assert(self.shadow() == spec_add_address(
                        old(self).shadow(),
                        info.0,
                        info.1,
                    ));
                }
            },
            None => {},
        }
    }

    /// Record one route of the initial snapshot.
    pub fn snapshot_default_route(&mut self, route: &RouteMessage)
        requires
            old(self).wf(),
        ensures
            final(self).wf(),
            final(self).published() == old(self).published(),
            final(self).shadow() == old(self).shadow() || exists|r: RouteInfo|
                final(self).shadow() == spec_add_default_route(
                    old(self).shadow(),
                    r.0,
                    r.1,
                    r.2,
                ),
    {
        let parsed = parse_default_route(route);
        match parsed {
            Some(info) => {
                self.state.add_default_route(info);
                proof {
                    assert(self.shadow() == spec_add_default_route(
                        old(self).shadow(),
                        info.0,
                        info.1,
                        info.2,
                    ));
                }
            },
            None => {},
        }
    }

    /// The verdict of the snapshot, recorded as published. It is always
    /// published, even when it reports no connectivity at all: the first
    /// value on the channel is the readiness signal.
    pub fn initial_verdict(&mut self) -> (c: Connectivity)
        requires
            old(self).wf(),
        ensures
            final(self).wf(),
            final(self).shadow() == old(self).shadow(),
            c == spec_connectivity(old(self).shadow()),
            final(self).published() == c,
    {
        let c = self.state.connectivity();
        self.last = c;
        c
    }

    /// Recompute the verdict and publish it only on transition.
    fn emit_if_changed(&mut self) -> (s: Step)
        requires
            old(self).wf(),
        ensures
            final(self).wf(),
            final(self).shadow() == old(self).shadow(),
            final(self).published() == spec_connectivity(old(self).shadow()),
            !(s is Fatal),
            (s is Emit) <==> spec_connectivity(old(self).shadow()) != old(self).published(),
            s matches Step::Emit(v) ==> v == final(self).published() && v != old(
                self,
            ).published(),
            s is Silent ==> final(self).published() == old(self).published(),
    {
        let c = self.state.connectivity();
        if diff_assign(&mut self.last, c) {
            Step::Emit(c)
        } else {
            Step::Silent
        }
    }

    /// Apply one event of the feed and decide what the loop does next.
    ///
    /// Error and overrun frames are fatal and leave the driver untouched.
    /// Every other event mutates the shadow as the parsers say and then
    /// publishes the recomputed verdict exactly when it differs from the
    /// published one; the published verdict always tracks the last
    /// emission, so the stream never carries two adjacent equal verdicts.
    pub fn handle_event(&mut self, event: RtEvent) -> (s: Step)
        requires
            old(self).wf(),
        ensures
            final(self).wf(),
            (s is Fatal) <==> (event is Failure || event is Overrun),
            event matches RtEvent::Failure(code, header) ==> s == Step::Fatal(
                DriverError::Protocol(code, header),
            ),
            event matches RtEvent::Overrun(data) ==> s == Step::Fatal(DriverError::Overrun(data)),
            s is Fatal ==> *final(self) == *old(self),
            !(s is Fatal) ==> final(self).published() == spec_connectivity(final(self).shadow()),
            !(s is Fatal) ==> ((s is Emit) <==> spec_connectivity(final(self).shadow()) != old(
                self,
            ).published()),
            s matches Step::Emit(v) ==> v == final(self).published() && v != old(
                self,
            ).published(),
            s is Silent ==> final(self).published() == old(self).published(),
            event is Other ==> final(self).shadow() == old(self).shadow(),
            event is NewLink ==> exists|l: LinkInfo|
                final(self).shadow() == spec_add_link(old(self).shadow(), l.0, l.1, l.2),
            event is DelLink ==> exists|k: u32|
                final(self).shadow() == spec_remove_link(old(self).shadow(), k),
            event is NewAddress ==> final(self).shadow() == old(self).shadow() || exists|
                a: AddressInfo,
            |
                final(self).shadow() == spec_add_address(old(self).shadow(), a.0, a.1),
            event is DelAddress ==> final(self).shadow() == old(self).shadow() || exists|
                a: AddressInfo,
            |
                final(self).shadow() == spec_remove_address(old(self).shadow(), a.0, a.1),
            event is NewRoute ==> final(self).shadow() == old(self).shadow() || exists|
                r: RouteInfo,
            |
                final(self).shadow() == spec_add_default_route(
                    old(self).shadow(),
                    r.0,
                    r.1,
                    r.2,
                ),
            event is DelRoute ==> final(self).shadow() == old(self).shadow() || exists|
                r: RouteInfo,
            |
                final(self).shadow() == spec_remove_default_route(
                    old(self).shadow(),
                    r.0,
                    r.1,
                    r.2,
                ),
    {
        match event {
            RtEvent::NewLink(link) => {
                let info = parse_link(&link);
                self.state.add_link(info);
                proof {
                    assert(self.shadow() == spec_add_link(
                        old(self).shadow(),
                        info.0,
                        info.1,
                        info.2,
                    ));
                }
                self.emit_if_changed()
            },
            RtEvent::DelLink(link) => {
                let info = parse_link(&link);
                self.state.remove_link(info);
                proof {
                    assert(self.shadow() == spec_remove_link(old(self).shadow(), info.0));
                }
                self.emit_if_changed()
            },
            RtEvent::NewAddress(address) => {
                let parsed = parse_address(&address);
                match parsed {
                    Some(info) => {
                        self.state.add_address(info);
                        proof {
                            assert(self.shadow() == spec_add_address(
                                old(self).shadow(),
                                info.0,
                                info.1,
                            ));
                        }
                    },
                    None => {},
                }
                self.emit_if_changed()
            },
            RtEvent::DelAddress(address) => {
                let parsed = parse_address(&address);
                match parsed {
                    Some(info) => {
                        self.state.remove_address(info);
                        proof {
                            assert(self.shadow() == spec_remove_address(
                                old(self).shadow(),
                                info.0,
                                info.1,
                            ));
                        }
                    },
                    None => {},
                }
                self.emit_if_changed()
            },
            RtEvent::NewRoute(route) => {
                let parsed = parse_default_route(&route);
                match parsed {
                    Some(info) => {
                        self.state.add_default_route(info);
                        proof {
                            assert(self.shadow() == spec_add_default_route(
                                old(self).shadow(),
                                info.0,
                                info.1,
                                info.2,
                            ));
                        }
                    },
                    None => {},
                }
                self.emit_if_changed()
            },
            RtEvent::DelRoute(route) => {
                let parsed = parse_default_route(&route);
                match parsed {
                    Some(info) => {
                        self.state.remove_default_route(info);
                        proof {
                            assert(self.shadow() == spec_remove_default_route(
                                old(self).shadow(),
                                info.0,
                                info.1,
                                info.2,
                            ));
                        }
                    },
                    None => {},
                }
                self.emit_if_changed()
            },
            RtEvent::Failure(code, header) => Step::Fatal(DriverError::Protocol(code, header)),
            RtEvent::Overrun(data) => Step::Fatal(DriverError::Overrun(data)),
            RtEvent::Other => self.emit_if_changed(),
        }
    }

    /// Classify one frame of the feed and apply it.
    pub fn handle_message(&mut self, message: NetlinkMessage<RtnlMessage>) -> (s: Step)
        requires
            old(self).wf(),
        ensures
            final(self).wf(),
            s is Fatal ==> *final(self) == *old(self),
            !(s is Fatal) ==> final(self).published() == spec_connectivity(final(self).shadow()),
            !(s is Fatal) ==> ((s is Emit) <==> spec_connectivity(final(self).shadow()) != old(
                self,
            ).published()),
            s matches Step::Emit(v) ==> v == final(self).published() && v != old(
                self,
            ).published(),
            s is Silent ==> final(self).published() == old(self).published(),
    {
        let event = classify(message);
        self.handle_event(event)
    }
}

} // verus!