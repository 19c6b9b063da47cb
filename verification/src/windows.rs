//! Normalizing the Windows IP Helper tables into state mutations.
//!
//! On Windows the change callback does not describe what changed; the
//! driver re-reads the three tables — interfaces, unicast addresses, ip
//! forward rows — and rebuilds the shadow from scratch. The row types
//! here hold the fields that decision reads, as plain values; decoding
//! the OS structures into them is the platform glue's job.

use vstd::prelude::*;

use crate::state::spec_add_address;
use crate::state::spec_add_default_route;
use crate::state::spec_add_link;
use crate::state::spec_connectivity;
use crate::state::AddressInfo;
use crate::state::InterfaceView;
use crate::state::Interfaces;
use crate::state::IpAddr;
use crate::state::LinkInfo;
use crate::state::RouteInfo;
use crate::Connectivity;

verus! {

/// Interface type of a software loopback device (`IF_TYPE_SOFTWARE_LOOPBACK`).
pub const IF_TYPE_SOFTWARE_LOOPBACK: u32 = 24;

/// Operational status of an interface that is up (`IfOperStatusUp`).
pub const IF_OPER_STATUS_UP: u32 = 1;

/// The valid lifetime that marks an address as permanent: an infinite
/// lifetime.
pub const INFINITE_LIFETIME: u32 = 0xFFFF_FFFF;

/// Notification type: a parameter of an interface changed.
pub const MIB_PARAMETER_NOTIFICATION: i32 = 0;

/// Notification type: an interface instance was added.
pub const MIB_ADD_INSTANCE: i32 = 1;

/// Notification type: an interface instance was deleted.
pub const MIB_DELETE_INSTANCE: i32 = 2;

/// Notification type: the initial notification after registration.
pub const MIB_INITIAL_NOTIFICATION: i32 = 3;

/// One row of the interfaces table, reduced to what the verdict reads.
#[derive(PartialEq, Eq, Structural, Clone, Copy, Debug)]
pub struct InterfaceRow {
    /// The interface index
    pub index: u32,
    /// The interface type (`IF_TYPE_SOFTWARE_LOOPBACK` marks loopback)
    pub if_type: u32,
    /// The operational status (`IF_OPER_STATUS_UP` marks a carrier)
    pub oper_status: u32,
}

/// One row of the unicast address table, reduced to what the verdict
/// reads.
#[derive(PartialEq, Eq, Structural, Clone, Copy, Debug)]
pub struct AddressRow {
    /// The interface index the address sits on
    pub index: u32,
    /// The address, family selected by its variant
    pub address: IpAddr,
    /// The remaining valid lifetime; infinite marks a permanent address
    pub valid_lifetime: u32,
}

/// One row of the ip forward table, reduced to what the verdict reads.
#[derive(PartialEq, Eq, Structural, Clone, Copy, Debug)]
pub struct RouteRow {
    /// The interface index the route leaves through
    pub index: u32,
    /// The length of the destination prefix
    pub destination_prefix_length: u8,
    /// The destination prefix address
    pub destination_prefix: IpAddr,
    /// The next hop of the route
    pub next_hop: IpAddr,
    /// The route metric
    pub metric: u32,
}

/// What an interface row means: its index, whether it is a software
/// loopback, and whether it is operationally up.
pub open spec fn spec_link_of_row(row: InterfaceRow) -> LinkInfo {
    (row.index, row.if_type == IF_TYPE_SOFTWARE_LOOPBACK, row.oper_status == IF_OPER_STATUS_UP)
}

/// What an address row means: nothing when the lifetime is infinite (the
/// address is permanent), otherwise the index and the address.
pub open spec fn spec_address_of_row(row: AddressRow) -> Option<AddressInfo> {
    if row.valid_lifetime == INFINITE_LIFETIME {
        None
    } else {
        Some((row.index, row.address))
    }
}

/// An all-zero address of either family.
pub open spec fn spec_is_unspecified(a: IpAddr) -> bool {
    a == IpAddr::V4(0) || a == IpAddr::V6(0)
}

/// What a forward row means: a default route only when the destination
/// prefix has length zero and an all-zero prefix address; then the index,
/// the next hop and the metric.
pub open spec fn spec_route_of_row(row: RouteRow) -> Option<RouteInfo> {
    if row.destination_prefix_length == 0 && spec_is_unspecified(row.destination_prefix) {
        Some((row.index, row.next_hop, row.metric))
    } else {
        None
    }
}

/// The shadow after recording every interface row in order.
pub open spec fn spec_apply_interface_rows(
    m: Map<u32, InterfaceView>,
    rows: Seq<InterfaceRow>,
) -> Map<u32, InterfaceView>
    decreases rows.len(),
{
    if rows.len() == 0 {
        m
    } else {
        let l = spec_link_of_row(rows.last());
        spec_add_link(spec_apply_interface_rows(m, rows.drop_last()), l.0, l.1, l.2)
    }
}

/// The shadow after recording every address row in order.
pub open spec fn spec_apply_address_rows(
    m: Map<u32, InterfaceView>,
    rows: Seq<AddressRow>,
) -> Map<u32, InterfaceView>
    decreases rows.len(),
{
    if rows.len() == 0 {
        m
    } else {
        let prev = spec_apply_address_rows(m, rows.drop_last());
        match spec_address_of_row(rows.last()) {
            Some(a) => spec_add_address(prev, a.0, a.1),
            None => prev,
        }
    }
}

/// The shadow after recording every forward row in order.
pub open spec fn spec_apply_route_rows(
    m: Map<u32, InterfaceView>,
    rows: Seq<RouteRow>,
) -> Map<u32, InterfaceView>
    decreases rows.len(),
{
    if rows.len() == 0 {
        m
    } else {
        let prev = spec_apply_route_rows(m, rows.drop_last());
        match spec_route_of_row(rows.last()) {
            Some(r) => spec_add_default_route(prev, r.0, r.1, r.2),
            None => prev,
        }
    }
}

/// The shadow a full table scan builds, from nothing.
pub open spec fn spec_scan(
    interfaces: Seq<InterfaceRow>,
    addresses: Seq<AddressRow>,
    routes: Seq<RouteRow>,
) -> Map<u32, InterfaceView> {
    spec_apply_route_rows(
        spec_apply_address_rows(
            spec_apply_interface_rows(Map::<u32, InterfaceView>::empty(), interfaces),
            addresses,
        ),
        routes,
    )
}

/// Record every interface row in the shadow.
pub fn apply_interface_rows(state: &mut Interfaces, rows: &Vec<InterfaceRow>)
    requires
        old(state).wf(),
    ensures
        final(state).wf(),
        final(state)@ == spec_apply_interface_rows(old(state)@, rows@),
{
    let n = rows.len();
    let mut i: usize = 0;
    while i < n
        invariant
            state.wf(),
            n == rows.len(),
            0 <= i <= n,
            state@ == spec_apply_interface_rows(old(state)@, rows@.take(i as int)),
        decreases n - i,
    {
        let row = rows[i];
        state.add_link((
            row.index,
            row.if_type == IF_TYPE_SOFTWARE_LOOPBACK,
            row.oper_status == IF_OPER_STATUS_UP,
        ));
        proof {
            assert(rows@.take(i + 1).drop_last() =~= rows@.take(i as int));
            assert(rows@.take(i + 1).last() == rows@[i as int]);
        }
        i += 1;
    }
    proof {
        assert(rows@.take(n as int) =~= rows@);
    }
}

/// Record every address row in the shadow, skipping permanent addresses.
pub fn apply_address_rows(state: &mut Interfaces, rows: &Vec<AddressRow>)
    requires
        old(state).wf(),
    ensures
        final(state).wf(),
        final(state)@ == spec_apply_address_rows(old(state)@, rows@),
{
    let n = rows.len();
    let mut i: usize = 0;
    while i < n
        invariant
            state.wf(),
            n == rows.len(),
            0 <= i <= n,
            state@ == spec_apply_address_rows(old(state)@, rows@.take(i as int)),
        decreases n - i,
    {
        let row = rows[i];
        if row.valid_lifetime != INFINITE_LIFETIME {
            state.add_address((row.index, row.address));
        }
        proof {
            assert(rows@.take(i + 1).drop_last() =~= rows@.take(i as int));
            assert(rows@.take(i + 1).last() == rows@[i as int]);
        }
        i += 1;
    }
    proof {
        assert(rows@.take(n as int) =~= rows@);
    }
}

/// Record every forward row in the shadow, keeping only default routes.
pub fn apply_route_rows(state: &mut Interfaces, rows: &Vec<RouteRow>)
    requires
        old(state).wf(),
    ensures
        final(state).wf(),
        final(state)@ == spec_apply_route_rows(old(state)@, rows@),
{
    let n = rows.len();
    let mut i: usize = 0;
    while i < n
        invariant
            state.wf(),
            n == rows.len(),
            0 <= i <= n,
            state@ == spec_apply_route_rows(old(state)@, rows@.take(i as int)),
        decreases n - i,
    {
        let row = rows[i];
        let unspecified = match row.destination_prefix {
            IpAddr::V4(v) => v == 0,
            IpAddr::V6(v) => v == 0,
        };
        if row.destination_prefix_length == 0 && unspecified {
            state.add_default_route((row.index, row.next_hop, row.metric));
        }
        proof {
            assert(rows@.take(i + 1).drop_last() =~= rows@.take(i as int));
            assert(rows@.take(i + 1).last() == rows@[i as int]);
        }
        i += 1;
    }
    proof {
        assert(rows@.take(n as int) =~= rows@);
    }
}

/// The verdict of one full table scan, built from scratch.
pub fn connectivity_from_tables(
    interfaces: &Vec<InterfaceRow>,
    addresses: &Vec<AddressRow>,
    routes: &Vec<RouteRow>,
) -> (c: Connectivity)
    ensures
        c == spec_connectivity(spec_scan(interfaces@, addresses@, routes@)),
{
    let mut state = Interfaces::new();
    apply_interface_rows(&mut state, interfaces);
    apply_address_rows(&mut state, addresses);
    apply_route_rows(&mut state, routes);
    state.connectivity()
}

/// One rescan step: compute the verdict of the tables and report it only
/// when it differs from the verdict published last, which is updated in
/// place. Two adjacent reports therefore never carry the same verdict.
pub fn rescan_step(
    last: &mut Connectivity,
    interfaces: &Vec<InterfaceRow>,
    addresses: &Vec<AddressRow>,
    routes: &Vec<RouteRow>,
) -> (r: Option<Connectivity>)
    ensures
        *final(last) == spec_connectivity(spec_scan(interfaces@, addresses@, routes@)),
        r matches Some(v) ==> v == *final(last) && v != *old(last),
        r is None ==> *final(last) == *old(last),
        (r is Some) <==> spec_connectivity(spec_scan(interfaces@, addresses@, routes@)) != *old(
            last,
        ),
{
    let c = connectivity_from_tables(interfaces, addresses, routes);
    if crate::diff_assign(last, c) {
        Some(c)
    } else {
        None
    }
}

/// Whether a change notification of this type triggers a rescan:
/// parameter change, instance added, instance deleted, or the initial
/// notification; every other type is ignored.
pub fn notification_triggers_rescan(notification_type: i32) -> (r: bool)
    ensures
        r == (notification_type == MIB_PARAMETER_NOTIFICATION || notification_type
            == MIB_ADD_INSTANCE || notification_type == MIB_DELETE_INSTANCE || notification_type
            == MIB_INITIAL_NOTIFICATION),
{
    notification_type == MIB_PARAMETER_NOTIFICATION || notification_type == MIB_ADD_INSTANCE
        || notification_type == MIB_DELETE_INSTANCE || notification_type
        == MIB_INITIAL_NOTIFICATION
}

/// An address row whose lifetime is infinite is permanent and never
/// changes the shadow a scan builds, so it never changes the verdict.
pub proof fn lemma_permanent_row_ignored(m: Map<u32, InterfaceView>, rows: Seq<AddressRow>)
    requires
        rows.len() > 0,
        rows.last().valid_lifetime == INFINITE_LIFETIME,
    ensures
        spec_apply_address_rows(m, rows) == spec_apply_address_rows(m, rows.drop_last()),
{
}

} // verus!
