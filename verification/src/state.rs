//! The platform independent shadow of the host's network state.
//!
//! [`Interfaces`] maps an interface index to the facts the verdict depends
//! on: carrier, the addresses of each family, and the default-route gateways
//! of each family. Its abstract value is a `Map` from index to
//! [`InterfaceView`]; every mutation is specified as a pure transformer on
//! that map, and the connectivity verdict is a pure function of it.

use vstd::prelude::*;

use crate::Connectivity;
use crate::ConnectivityState;

verus! {

/// An ip address: four octets packed big-endian for v4, sixteen for v6.
#[derive(PartialEq, Eq, Structural, Clone, Copy, Debug)]
pub enum IpAddr {
    /// An ipv4 address as its packed big-endian value
    V4(u32),
    /// An ipv6 address as its packed big-endian value
    V6(u128),
}

impl IpAddr {
    /// Whether the address belongs to the v6 family.
    pub open spec fn is_v6(self) -> bool {
        self is V6
    }
}

/// Required information for links: index, loopback flag, carrier flag.
pub type LinkInfo = (u32, bool, bool);

/// Required information for addresses: index and address.
pub type AddressInfo = (u32, IpAddr);

/// Required information for default routes: index, gateway, priority.
pub type RouteInfo = (u32, IpAddr, u32);

/// Abstract value of the per-family state: the set of addresses and the
/// set of default-route gateways, each gateway paired with its priority.
#[verifier::ext_equal]
pub ghost struct AddressGatewayView {
    /// The addresses of this family
    pub addresses: Set<IpAddr>,
    /// The default-route gateways of this family, with their priorities
    pub gateways: Set<(IpAddr, u32)>,
}

/// Abstract value of one interface.
#[verifier::ext_equal]
pub ghost struct InterfaceView {
    /// Whether the interface is administratively up with a carrier
    pub up: bool,
    /// The ipv4 state of the interface
    pub ipv4: AddressGatewayView,
    /// The ipv6 state of the interface
    pub ipv6: AddressGatewayView,
}

/// The per-family state with no addresses and no gateways.
pub open spec fn empty_family() -> AddressGatewayView {
    AddressGatewayView { addresses: Set::empty(), gateways: Set::empty() }
}

/// A fresh interface entry: down, with empty address and gateway sets.
pub open spec fn fresh_interface(up: bool) -> InterfaceView {
    InterfaceView { up: up, ipv4: empty_family(), ipv6: empty_family() }
}

/// The entry a mutation starts from: the recorded interface if the key is
/// known, else a fresh one that is down.
pub open spec fn upserted(m: Map<u32, InterfaceView>, key: u32) -> InterfaceView {
    if m.contains_key(key) {
        m[key]
    } else {
        fresh_interface(false)
    }
}

/// The family state of an interface selected by `v6`.
pub open spec fn family_of(i: InterfaceView, v6: bool) -> AddressGatewayView {
    if v6 {
        i.ipv6
    } else {
        i.ipv4
    }
}

/// An interface with the family selected by `v6` replaced.
pub open spec fn with_family(i: InterfaceView, v6: bool, f: AddressGatewayView) -> InterfaceView {
    if v6 {
        InterfaceView { up: i.up, ipv4: i.ipv4, ipv6: f }
    } else {
        InterfaceView { up: i.up, ipv4: f, ipv6: i.ipv6 }
    }
}

/// Effect of a link event: loopback links are ignored; otherwise the entry
/// is upserted and its carrier set, keeping any recorded addresses and
/// gateways.
pub open spec fn spec_add_link(
    m: Map<u32, InterfaceView>,
    key: u32,
    loop_back: bool,
    carrier: bool,
) -> Map<u32, InterfaceView> {
    if loop_back {
        m
    } else {
        let i = upserted(m, key);
        m.insert(key, InterfaceView { up: carrier, ipv4: i.ipv4, ipv6: i.ipv6 })
    }
}

/// Effect of a link deletion: the entry is dropped entirely, addresses and
/// gateways with it.
pub open spec fn spec_remove_link(m: Map<u32, InterfaceView>, key: u32) -> Map<
    u32,
    InterfaceView,
> {
    m.remove(key)
}

/// Effect of an address event: the entry is upserted (down when new) and
/// the address joins the set of its family.
pub open spec fn spec_add_address(m: Map<u32, InterfaceView>, key: u32, addr: IpAddr) -> Map<
    u32,
    InterfaceView,
> {
    let i = upserted(m, key);
    let f = family_of(i, addr.is_v6());
    m.insert(
        key,
        with_family(
            i,
            addr.is_v6(),
            AddressGatewayView { addresses: f.addresses.insert(addr), gateways: f.gateways },
        ),
    )
}

/// Effect of an address deletion: if the interface is known, the address
/// leaves the set of its family; the entry itself stays.
pub open spec fn spec_remove_address(m: Map<u32, InterfaceView>, key: u32, addr: IpAddr) -> Map<
    u32,
    InterfaceView,
> {
    if m.contains_key(key) {
        let i = m[key];
        let f = family_of(i, addr.is_v6());
        m.insert(
            key,
            with_family(
                i,
                addr.is_v6(),
                AddressGatewayView { addresses: f.addresses.remove(addr), gateways: f.gateways },
            ),
        )
    } else {
        m
    }
}

/// Effect of a default-route event: the entry is upserted and the pair of
/// gateway and priority joins the set of its family.
pub open spec fn spec_add_default_route(
    m: Map<u32, InterfaceView>,
    key: u32,
    gateway: IpAddr,
    priority: u32,
) -> Map<u32, InterfaceView> {
    let i = upserted(m, key);
    let f = family_of(i, gateway.is_v6());
    m.insert(
        key,
        with_family(
            i,
            gateway.is_v6(),
            AddressGatewayView {
                addresses: f.addresses,
                gateways: f.gateways.insert((gateway, priority)),
            },
        ),
    )
}

/// Effect of a default-route deletion: if the interface is known, the pair
/// of gateway and priority leaves the set of its family; the entry stays.
pub open spec fn spec_remove_default_route(
    m: Map<u32, InterfaceView>,
    key: u32,
    gateway: IpAddr,
    priority: u32,
) -> Map<u32, InterfaceView> {
    if m.contains_key(key) {
        let i = m[key];
        let f = family_of(i, gateway.is_v6());
        m.insert(
            key,
            with_family(
                i,
                gateway.is_v6(),
                AddressGatewayView {
                    addresses: f.addresses,
                    gateways: f.gateways.remove((gateway, priority)),
                },
            ),
        )
    } else {
        m
    }
}

/// Connectivity level one family of one interface contributes: nothing
/// without carrier or addresses, the local network with addresses only,
/// the internet with an address and a default route.
pub open spec fn family_level(f: AddressGatewayView, up: bool) -> ConnectivityState {
    if !up || f.addresses == Set::<IpAddr>::empty() {
        ConnectivityState::Disconnected
    } else if f.gateways == Set::<(IpAddr, u32)>::empty() {
        ConnectivityState::Network
    } else {
        ConnectivityState::Internet
    }
}

/// Connectivity level of one interface for the family selected by `v6`.
pub open spec fn interface_level(i: InterfaceView, v6: bool) -> ConnectivityState {
    family_level(family_of(i, v6), i.up)
}

/// Connectivity level of the whole map for the family selected by `v6`:
/// the maximum level any interface contributes.
pub open spec fn map_level(m: Map<u32, InterfaceView>, v6: bool) -> ConnectivityState {
    if exists|k: u32|
        #[trigger] m.contains_key(k) && interface_level(m[k], v6)
            == ConnectivityState::Internet {
        ConnectivityState::Internet
    } else if exists|k: u32|
        #[trigger] m.contains_key(k) && interface_level(m[k], v6) == ConnectivityState::Network {
        ConnectivityState::Network
    } else {
        ConnectivityState::Disconnected
    }
}

/// The verdict derived from a map: the per-family maxima.
pub open spec fn spec_connectivity(m: Map<u32, InterfaceView>) -> Connectivity {
    Connectivity { ipv4: map_level(m, false), ipv6: map_level(m, true) }
}

// ------------------------------------------------------------------
// facts about sequences used as sets
// ------------------------------------------------------------------
proof fn lemma_to_set_push<A>(s: Seq<A>, x: A)
    ensures
        s.push(x).to_set() == s.to_set().insert(x),
{
    assert forall|y: A| #[trigger] s.push(x).to_set().contains(y) implies s.to_set().insert(
        x,
    ).contains(y) by {
        let i = choose|i: int| 0 <= i < s.push(x).len() && s.push(x)[i] == y;
        if i < s.len() {
            assert(s[i] == y);
        }
    }
    assert forall|y: A| s.to_set().insert(x).contains(y) implies #[trigger] s.push(
        x,
    ).to_set().contains(y) by {
        if s.to_set().contains(y) {
            let i = choose|i: int| 0 <= i < s.len() && s[i] == y;
            assert(s.push(x)[i] == y);
        } else {
            assert(s.push(x)[s.len() as int] == x);
        }
    }
    assert(s.push(x).to_set() =~= s.to_set().insert(x));
}

proof fn lemma_to_set_no_new<A>(s: Seq<A>, x: A)
    requires
        s.contains(x),
    ensures
        s.to_set() == s.to_set().insert(x),
{
    assert(s.to_set() =~= s.to_set().insert(x));
}

proof fn lemma_to_set_remove_at<A>(s: Seq<A>, i: int)
    requires
        s.no_duplicates(),
        0 <= i < s.len(),
    ensures
        s.remove(i).to_set() == s.to_set().remove(s[i]),
        s.remove(i).no_duplicates(),
{
    s.remove_ensures(i);
    assert forall|y: A| #[trigger] s.remove(i).to_set().contains(y) implies s.to_set().remove(
        s[i],
    ).contains(y) by {
        let j = choose|j: int| 0 <= j < s.remove(i).len() && s.remove(i)[j] == y;
        if j < i {
            assert(s[j] == y);
            assert(y != s[i]);
        } else {
            assert(s[j + 1] == y);
            assert(y != s[i]);
        }
    }
    assert forall|y: A| s.to_set().remove(s[i]).contains(y) implies #[trigger] s.remove(
        i,
    ).to_set().contains(y) by {
        let j = choose|j: int| 0 <= j < s.len() && s[j] == y;
        if j < i {
            assert(s.remove(i)[j] == y);
        } else {
            assert(j != i);
            assert(s.remove(i)[j - 1] == y);
        }
    }
    assert(s.remove(i).to_set() =~= s.to_set().remove(s[i]));
}

proof fn lemma_to_set_no_absent<A>(s: Seq<A>, x: A)
    requires
        !s.contains(x),
    ensures
        s.to_set() == s.to_set().remove(x),
{
    assert(s.to_set() =~= s.to_set().remove(x));
}

proof fn lemma_to_set_empty<A>(s: Seq<A>)
    ensures
        s.len() == 0 ==> s.to_set() == Set::<A>::empty(),
        s.len() > 0 ==> s.to_set().contains(s[0]),
        s.len() > 0 ==> s.to_set() != Set::<A>::empty(),
{
    if s.len() == 0 {
        assert(s.to_set() =~= Set::<A>::empty());
    } else {
        assert(s.to_set().contains(s[0]));
    }
}

// ------------------------------------------------------------------
// executable state
// ------------------------------------------------------------------
/// Records the state for one family of one interface.
#[derive(Debug)]
struct AddressGateway {
    /// The addresses of this family, each held once
    addresses: Vec<IpAddr>,
    /// The pairs of gateway and priority of this family, each held once
    gateways: Vec<(IpAddr, u32)>,
}

impl View for AddressGateway {
    type V = AddressGatewayView;

    closed spec fn view(&self) -> AddressGatewayView {
        AddressGatewayView {
            addresses: self.addresses@.to_set(),
            gateways: self.gateways@.to_set(),
        }
    }
}

impl AddressGateway {
    /// No element is held twice, so that removal by value is exact.
    spec fn wf(self) -> bool {
        self.addresses@.no_duplicates() && self.gateways@.no_duplicates()
    }

    fn new() -> (r: Self)
        ensures
            r.wf(),
            r@ == empty_family(),
    {
        let r = AddressGateway { addresses: Vec::new(), gateways: Vec::new() };
        proof {
            lemma_to_set_empty(r.addresses@);
            lemma_to_set_empty(r.gateways@);
            assert(r@ =~= empty_family());
        }
        r
    }

    fn add_addr(&mut self, addr: IpAddr)
        requires
            old(self).wf(),
        ensures
            final(self).wf(),
            final(self)@.addresses == old(self)@.addresses.insert(addr),
            final(self)@.gateways == old(self)@.gateways,
    {
        let n = self.addresses.len();
        let mut i: usize = 0;
        while i < n
            invariant
                self.wf(),
                n == self.addresses.len(),
                0 <= i <= n,
                forall|j: int| 0 <= j < i ==> self.addresses@[j] != addr,
                self == old(self),
            decreases n - i,
        {
            if self.addresses[i] == addr {
                proof {
                    assert(self.addresses@.contains(addr)) by {
                        assert(self.addresses@[i as int] == addr);
                    }
                    lemma_to_set_no_new(self.addresses@, addr);
                }
                return ;
            }
            i += 1;
        }
        proof {
            assert(!self.addresses@.contains(addr));
            lemma_to_set_push(self.addresses@, addr);
        }
        self.addresses.push(addr);
    }

    fn remove_addr(&mut self, addr: IpAddr)
        requires
            old(self).wf(),
        ensures
            final(self).wf(),
            final(self)@.addresses == old(self)@.addresses.remove(addr),
            final(self)@.gateways == old(self)@.gateways,
    {
        let n = self.addresses.len();
        let mut i: usize = 0;
        while i < n
            invariant
                self.wf(),
                n == self.addresses.len(),
                0 <= i <= n,
                forall|j: int| 0 <= j < i ==> self.addresses@[j] != addr,
                self == old(self),
            decreases n - i,
        {
            if self.addresses[i] == addr {
                proof {
                    assert(self.addresses@[i as int] == addr);
                    lemma_to_set_remove_at(self.addresses@, i as int);
                }
                self.addresses.remove(i);
                return ;
            }
            i += 1;
        }
        proof {
            assert(!self.addresses@.contains(addr));
            lemma_to_set_no_absent(self.addresses@, addr);
        }
    }

    fn add_gateway(&mut self, gateway: IpAddr, priority: u32)
        requires
            old(self).wf(),
        ensures
            final(self).wf(),
            final(self)@.addresses == old(self)@.addresses,
            final(self)@.gateways == old(self)@.gateways.insert((gateway, priority)),
    {
        let n = self.gateways.len();
        let mut i: usize = 0;
        while i < n
            invariant
                self.wf(),
                n == self.gateways.len(),
                0 <= i <= n,
                forall|j: int| 0 <= j < i ==> self.gateways@[j] != (gateway, priority),
                self == old(self),
            decreases n - i,
        {
            let g = &self.gateways[i];
            if g.0 == gateway && g.1 == priority {
                proof {
                    assert(self.gateways@.contains((gateway, priority))) by {
                        assert(self.gateways@[i as int] == (gateway, priority));
                    }
                    lemma_to_set_no_new(self.gateways@, (gateway, priority));
                }
                return ;
            }
            i += 1;
        }
        proof {
            assert(!self.gateways@.contains((gateway, priority)));
            lemma_to_set_push(self.gateways@, (gateway, priority));
        }
        self.gateways.push((gateway, priority));
    }

    fn remove_gateway(&mut self, gateway: IpAddr, priority: u32)
        requires
            old(self).wf(),
        ensures
            final(self).wf(),
            final(self)@.addresses == old(self)@.addresses,
            final(self)@.gateways == old(self)@.gateways.remove((gateway, priority)),
    {
        let n = self.gateways.len();
        let mut i: usize = 0;
        while i < n
            invariant
                self.wf(),
                n == self.gateways.len(),
                0 <= i <= n,
                forall|j: int| 0 <= j < i ==> self.gateways@[j] != (gateway, priority),
                self == old(self),
            decreases n - i,
        {
            let g = &self.gateways[i];
            if g.0 == gateway && g.1 == priority {
                proof {
                    assert(self.gateways@[i as int] == (gateway, priority));
                    lemma_to_set_remove_at(self.gateways@, i as int);
                }
                self.gateways.remove(i);
                return ;
            }
            i += 1;
        }
        proof {
            assert(!self.gateways@.contains((gateway, priority)));
            lemma_to_set_no_absent(self.gateways@, (gateway, priority));
        }
    }

    /// Convert to a [`ConnectivityState`], given the interface's carrier.
    fn connectivity_state(&self, up: bool) -> (r: ConnectivityState)
        ensures
            r == family_level(self@, up),
    {
        proof {
            lemma_to_set_empty(self.addresses@);
            lemma_to_set_empty(self.gateways@);
        }
        let address = !self.addresses.is_empty();
        let gateway = !self.gateways.is_empty();
        if !up || !address {
            ConnectivityState::Disconnected
        } else if !gateway {
            ConnectivityState::Network
        } else {
            ConnectivityState::Internet
        }
    }
}

/// Records the complete state for a single interface.
#[derive(Debug)]
struct Interface {
    /// Whether the interface is able to communicate with the network
    up: bool,
    /// The ipv4 state of the interface
    ipv4: AddressGateway,
    /// The ipv6 state of the interface
    ipv6: AddressGateway,
}

impl View for Interface {
    type V = InterfaceView;

    closed spec fn view(&self) -> InterfaceView {
        InterfaceView { up: self.up, ipv4: self.ipv4@, ipv6: self.ipv6@ }
    }
}

impl Interface {
    spec fn wf(self) -> bool {
        self.ipv4.wf() && self.ipv6.wf()
    }

    fn new(up: bool) -> (r: Self)
        ensures
            r.wf(),
            r@ == fresh_interface(up),
    {
        let r = Interface { up: up, ipv4: AddressGateway::new(), ipv6: AddressGateway::new() };
        proof {
            assert(r@ =~~= fresh_interface(up));
        }
        r
    }

    fn add_address(&mut self, addr: IpAddr)
        requires
            old(self).wf(),
        ensures
            final(self).wf(),
            final(self)@ == with_family(
                old(self)@,
                addr.is_v6(),
                AddressGatewayView {
                    addresses: family_of(old(self)@, addr.is_v6()).addresses.insert(addr),
                    gateways: family_of(old(self)@, addr.is_v6()).gateways,
                },
            ),
    {
        match addr {
            IpAddr::V4(_) => self.ipv4.add_addr(addr),
            IpAddr::V6(_) => self.ipv6.add_addr(addr),
        }
    }

    fn remove_address(&mut self, addr: IpAddr)
        requires
            old(self).wf(),
        ensures
            final(self).wf(),
            final(self)@ == with_family(
                old(self)@,
                addr.is_v6(),
                AddressGatewayView {
                    addresses: family_of(old(self)@, addr.is_v6()).addresses.remove(addr),
                    gateways: family_of(old(self)@, addr.is_v6()).gateways,
                },
            ),
    {
        match addr {
            IpAddr::V4(_) => self.ipv4.remove_addr(addr),
            IpAddr::V6(_) => self.ipv6.remove_addr(addr),
        }
    }

    fn add_gateway(&mut self, gateway: IpAddr, priority: u32)
        requires
            old(self).wf(),
        ensures
            final(self).wf(),
            final(self)@ == with_family(
                old(self)@,
                gateway.is_v6(),
                AddressGatewayView {
                    addresses: family_of(old(self)@, gateway.is_v6()).addresses,
                    gateways: family_of(old(self)@, gateway.is_v6()).gateways.insert(
                        (gateway, priority),
                    ),
                },
            ),
    {
        match gateway {
            IpAddr::V4(_) => self.ipv4.add_gateway(gateway, priority),
            IpAddr::V6(_) => self.ipv6.add_gateway(gateway, priority),
        }
    }

    fn remove_gateway(&mut self, gateway: IpAddr, priority: u32)
        requires
            old(self).wf(),
        ensures
            final(self).wf(),
            final(self)@ == with_family(
                old(self)@,
                gateway.is_v6(),
                AddressGatewayView {
                    addresses: family_of(old(self)@, gateway.is_v6()).addresses,
                    gateways: family_of(old(self)@, gateway.is_v6()).gateways.remove(
                        (gateway, priority),
                    ),
                },
            ),
    {
        match gateway {
            IpAddr::V4(_) => self.ipv4.remove_gateway(gateway, priority),
            IpAddr::V6(_) => self.ipv6.remove_gateway(gateway, priority),
        }
    }

    /// Convert to a [`Connectivity`] verdict for this interface alone.
    fn connectivity(&self) -> (c: Connectivity)
        ensures
            c.ipv4 == interface_level(self@, false),
            c.ipv6 == interface_level(self@, true),
    {
        Connectivity {
            ipv4: self.ipv4.connectivity_state(self.up),
            ipv6: self.ipv6.connectivity_state(self.up),
        }
    }
}

// ------------------------------------------------------------------
// the map of interfaces
// ------------------------------------------------------------------
/// Whether a key occurs among the entries.
spec fn has_key(s: Seq<(u32, Interface)>, key: u32) -> bool {
    exists|i: int| 0 <= i < s.len() && (#[trigger] s[i]).0 == key
}

/// The position of a key among the entries.
spec fn key_index(s: Seq<(u32, Interface)>, key: u32) -> int {
    choose|i: int| 0 <= i < s.len() && (#[trigger] s[i]).0 == key
}

/// Every key occurs at most once among the entries.
spec fn keys_distinct(s: Seq<(u32, Interface)>) -> bool {
    forall|i: int, j: int|
        0 <= i < j < s.len() ==> (#[trigger] s[i]).0 != (#[trigger] s[j]).0
}

/// The map an entry sequence stands for.
spec fn assoc_view(s: Seq<(u32, Interface)>) -> Map<u32, InterfaceView> {
    Map::new(|k: u32| has_key(s, k), |k: u32| s[key_index(s, k)].1@)
}

proof fn lemma_key_index(s: Seq<(u32, Interface)>, key: u32)
    requires
        keys_distinct(s),
        has_key(s, key),
    ensures
        0 <= key_index(s, key) < s.len(),
        s[key_index(s, key)].0 == key,
        forall|j: int| 0 <= j < s.len() && (#[trigger] s[j]).0 == key ==> j == key_index(s, key),
{
    let i = key_index(s, key);
    assert(0 <= i < s.len() && s[i].0 == key);
}

proof fn lemma_assoc_at(s: Seq<(u32, Interface)>, i: int)
    requires
        keys_distinct(s),
        0 <= i < s.len(),
    ensures
        assoc_view(s).contains_key(s[i].0),
        assoc_view(s)[s[i].0] == s[i].1@,
{
    assert(has_key(s, s[i].0));
    lemma_key_index(s, s[i].0);
}

proof fn lemma_assoc_push(s: Seq<(u32, Interface)>, key: u32, v: Interface)
    requires
        keys_distinct(s),
        !has_key(s, key),
    ensures
        keys_distinct(s.push((key, v))),
        assoc_view(s.push((key, v))) == assoc_view(s).insert(key, v@),
{
    let t = s.push((key, v));
    assert forall|i: int, j: int| 0 <= i < j < t.len() implies (#[trigger] t[i]).0 != (
    #[trigger] t[j]).0 by {
        if j < s.len() {
            assert(t[i] == s[i] && t[j] == s[j]);
        } else {
            assert(t[j] == (key, v));
            assert(t[i] == s[i]);
            assert(!has_key(s, key));
            assert(s[i].0 != key);
        }
    }
    assert forall|q: u32| true implies #[trigger] assoc_view(t).contains_key(q) == assoc_view(
        s,
    ).insert(key, v@).contains_key(q) by {
        if q == key {
            assert(t[s.len() as int].0 == key);
            assert(has_key(t, key));
        } else {
            if has_key(t, q) {
                let i = choose|i: int| 0 <= i < t.len() && (#[trigger] t[i]).0 == q;
                assert(i < s.len());
                assert(s[i].0 == q);
                assert(has_key(s, q));
            }
            if has_key(s, q) {
                let i = choose|i: int| 0 <= i < s.len() && (#[trigger] s[i]).0 == q;
                assert(t[i].0 == q);
                assert(has_key(t, q));
            }
        }
    }
    assert forall|q: u32| assoc_view(t).contains_key(q) implies assoc_view(t)[q] == assoc_view(
        s,
    ).insert(key, v@)[q] by {
        lemma_key_index(t, q);
        let i = key_index(t, q);
        if q == key {
            assert(t[s.len() as int].0 == key);
            assert(i == s.len());
            assert(t[i].1 == v);
        } else {
            assert(i < s.len());
            assert(s[i].0 == q);
            assert(has_key(s, q));
            lemma_key_index(s, q);
            assert(key_index(s, q) == i);
            assert(assoc_view(s)[q] == s[i].1@);
            assert(t[i] == s[i]);
        }
    }
    assert(assoc_view(t) =~= assoc_view(s).insert(key, v@));
}

proof fn lemma_assoc_remove(s: Seq<(u32, Interface)>, i: int)
    requires
        keys_distinct(s),
        0 <= i < s.len(),
    ensures
        keys_distinct(s.remove(i)),
        assoc_view(s.remove(i)) == assoc_view(s).remove(s[i].0),
{
    let t = s.remove(i);
    let key = s[i].0;
    s.remove_ensures(i);
    assert forall|a: int, b: int| 0 <= a < b < t.len() implies (#[trigger] t[a]).0 != (
    #[trigger] t[b]).0 by {
        let a0: int = if a < i {
            a
        } else {
            a + 1
        };
        let b0: int = if b < i {
            b
        } else {
            b + 1
        };
        assert(t[a] == s[a0] && t[b] == s[b0]);
    }
    assert forall|q: u32| true implies #[trigger] assoc_view(t).contains_key(q) == assoc_view(
        s,
    ).remove(key).contains_key(q) by {
        if has_key(t, q) {
            let j = choose|j: int| 0 <= j < t.len() && (#[trigger] t[j]).0 == q;
            let j0: int = if j < i {
                j
            } else {
                j + 1
            };
            assert(s[j0].0 == q);
            assert(has_key(s, q));
            assert(j0 != i);
            assert(q != key);
        }
        if has_key(s, q) && q != key {
            let j = choose|j: int| 0 <= j < s.len() && (#[trigger] s[j]).0 == q;
            assert(j != i);
            if j < i {
                assert(t[j].0 == q);
            } else {
                assert(t[j - 1].0 == q);
            }
            assert(has_key(t, q));
        }
    }
    assert forall|q: u32| assoc_view(t).contains_key(q) implies assoc_view(t)[q] == assoc_view(
        s,
    ).remove(key)[q] by {
        lemma_key_index(t, q);
        let j = key_index(t, q);
        let j0: int = if j < i {
            j
        } else {
            j + 1
        };
        assert(t[j] == s[j0]);
        assert(s[j0].0 == q);
        assert(has_key(s, q));
        lemma_key_index(s, q);
        assert(key_index(s, q) == j0);
    }
    assert(assoc_view(t) =~= assoc_view(s).remove(key));
}

/// Records the complete state for all interfaces, keyed by interface index.
#[derive(Debug)]
pub struct Interfaces {
    /// The recorded interfaces, each index held at most once
    entries: Vec<(u32, Interface)>,
}

impl View for Interfaces {
    type V = Map<u32, InterfaceView>;

    closed spec fn view(&self) -> Map<u32, InterfaceView> {
        assoc_view(self.entries@)
    }
}

impl Interfaces {
    /// Each interface index is recorded at most once and each entry is
    /// internally duplicate-free.
    pub closed spec fn wf(self) -> bool {
        keys_distinct(self.entries@) && forall|i: int|
            0 <= i < self.entries@.len() ==> (#[trigger] self.entries@[i]).1.wf()
    }

    /// Create a new [`Interfaces`] instance with no recorded interfaces.
    pub fn new() -> (r: Self)
        ensures
            r.wf(),
            r@ == Map::<u32, InterfaceView>::empty(),
    {
        let r = Interfaces { entries: Vec::new() };
        proof {
            assert(r@ =~= Map::<u32, InterfaceView>::empty());
        }
        r
    }

    fn find(&self, key: u32) -> (r: Option<usize>)
        requires
            self.wf(),
        ensures
            match r {
                Some(i) => i < self.entries@.len() && self.entries@[i as int].0 == key,
                None => !has_key(self.entries@, key),
            },
    {
        let n = self.entries.len();
        let mut i: usize = 0;
        while i < n
            invariant
                n == self.entries.len(),
                0 <= i <= n,
                forall|j: int| 0 <= j < i ==> (#[trigger] self.entries@[j]).0 != key,
            decreases n - i,
        {
            if self.entries[i].0 == key {
                return Some(i);
            }
            i += 1;
        }
        None
    }

    /// Take the entry for a key out, or make a fresh one that is down.
    fn take_or_fresh(&mut self, key: u32) -> (r: Interface)
        requires
            old(self).wf(),
        ensures
            final(self).wf(),
            r.wf(),
            !has_key(final(self).entries@, key),
            r@ == upserted(old(self)@, key),
            final(self)@ == old(self)@.remove(key),
    {
        let found = self.find(key);
        match found {
            Some(i) => {
                proof {
                    lemma_assoc_at(self.entries@, i as int);
                    lemma_assoc_remove(self.entries@, i as int);
                }
                let r = self.entries.remove(i).1;
                proof {
                    assert forall|j: int|
                        0 <= j < self.entries@.len() implies (#[trigger] self.entries@[j]).0
                        != key by {
                        lemma_key_index(old(self).entries@, key);
                    }
                }
                r
            },
            None => {
                proof {
                    assert(self@ =~= old(self)@.remove(key));
                }
                Interface::new(false)
            },
        }
    }

    /// Put an entry back for a key that is absent.
    fn put(&mut self, key: u32, iface: Interface)
        requires
            old(self).wf(),
            iface.wf(),
            !has_key(old(self).entries@, key),
        ensures
            final(self).wf(),
            final(self)@ == old(self)@.insert(key, iface@),
    {
        proof {
            lemma_assoc_push(self.entries@, key, iface);
        }
        self.entries.push((key, iface));
    }

    /// Adds a link entry, ignoring loopback links.
    pub fn add_link(&mut self, link: LinkInfo)
        requires
            old(self).wf(),
        ensures
            final(self).wf(),
            final(self)@ == spec_add_link(old(self)@, link.0, link.1, link.2),
    {
        let (index, loop_back, carrier) = link;
        if !loop_back {
            let mut iface = self.take_or_fresh(index);
            iface.up = carrier;
            self.put(index, iface);
            proof {
                assert(self@ =~~= spec_add_link(old(self)@, link.0, link.1, link.2));
            }
        }
    }

    /// Removes a link entry with everything recorded on it.
    pub fn remove_link(&mut self, link: LinkInfo)
        requires
            old(self).wf(),
        ensures
            final(self).wf(),
            final(self)@ == spec_remove_link(old(self)@, link.0),
    {
        let (index, _, _) = link;
        let found = self.find(index);
        match found {
            Some(i) => {
                proof {
                    lemma_assoc_remove(self.entries@, i as int);
                }
                self.entries.remove(i);
            },
            None => {
                proof {
                    assert(self@ =~= spec_remove_link(old(self)@, index));
                }
            },
        }
    }

    /// Adds an address entry, creating the interface if it is unknown.
    pub fn add_address(&mut self, address_info: AddressInfo)
        requires
            old(self).wf(),
        ensures
            final(self).wf(),
            final(self)@ == spec_add_address(old(self)@, address_info.0, address_info.1),
    {
        let (index, address) = address_info;
        let mut iface = self.take_or_fresh(index);
        iface.add_address(address);
        self.put(index, iface);
        proof {
            assert(self@ =~~= spec_add_address(old(self)@, index, address));
        }
    }

    /// Removes an address entry; the interface itself stays.
    pub fn remove_address(&mut self, address_info: AddressInfo)
        requires
            old(self).wf(),
        ensures
            final(self).wf(),
            final(self)@ == spec_remove_address(old(self)@, address_info.0, address_info.1),
    {
        let (index, address) = address_info;
        let found = self.find(index);
        match found {
            Some(i) => {
                proof {
                    lemma_assoc_at(self.entries@, i as int);
                    lemma_assoc_remove(self.entries@, i as int);
                }
                let mut iface = self.entries.remove(i).1;
                proof {
                    assert forall|j: int|
                        0 <= j < self.entries@.len() implies (#[trigger] self.entries@[j]).0
                        != index by {
                        lemma_key_index(old(self).entries@, index);
                    }
                }
                iface.remove_address(address);
                self.put(index, iface);
                proof {
                    assert(self@ =~~= spec_remove_address(old(self)@, index, address));
                }
            },
            None => {
                proof {
                    assert(self@ =~~= spec_remove_address(old(self)@, index, address));
                }
            },
        }
    }

    /// Adds a default route entry, creating the interface if it is unknown.
    pub fn add_default_route(&mut self, route: RouteInfo)
        requires
            old(self).wf(),
        ensures
            final(self).wf(),
            final(self)@ == spec_add_default_route(old(self)@, route.0, route.1, route.2),
    {
        let (index, gateway, priority) = route;
        let mut iface = self.take_or_fresh(index);
        iface.add_gateway(gateway, priority);
        self.put(index, iface);
        proof {
            assert(self@ =~~= spec_add_default_route(old(self)@, index, gateway, priority));
        }
    }

    /// Removes a default route entry; the interface itself stays.
    pub fn remove_default_route(&mut self, route: RouteInfo)
        requires
            old(self).wf(),
        ensures
            final(self).wf(),
            final(self)@ == spec_remove_default_route(old(self)@, route.0, route.1, route.2),
    {
        let (index, gateway, priority) = route;
        let found = self.find(index);
        match found {
            Some(i) => {
                proof {
                    lemma_assoc_at(self.entries@, i as int);
                    lemma_assoc_remove(self.entries@, i as int);
                }
                let mut iface = self.entries.remove(i).1;
                proof {
                    assert forall|j: int|
                        0 <= j < self.entries@.len() implies (#[trigger] self.entries@[j]).0
                        != index by {
                        lemma_key_index(old(self).entries@, index);
                    }
                }
                iface.remove_gateway(gateway, priority);
                self.put(index, iface);
                proof {
                    assert(self@ =~~= spec_remove_default_route(old(self)@, index, gateway, priority));
                }
            },
            None => {
                proof {
                    assert(self@ =~~= spec_remove_default_route(old(self)@, index, gateway, priority));
                }
            },
        }
    }

    /// The verdict of the whole map: for each family, the highest level
    /// any recorded interface contributes.
    pub fn connectivity(&self) -> (c: Connectivity)
        requires
            self.wf(),
        ensures
            c == spec_connectivity(self@),
    {
        let mut c = Connectivity {
            ipv4: ConnectivityState::Disconnected,
            ipv6: ConnectivityState::Disconnected,
        };
        let n = self.entries.len();
        let mut idx: usize = 0;
        while idx < n
            invariant
                self.wf(),
                n == self.entries.len(),
                0 <= idx <= n,
                forall|j: int|
                    0 <= j < idx ==> interface_level(
                        (#[trigger] self.entries@[j]).1@,
                        false,
                    ).rank() <= c.ipv4.rank(),
                forall|j: int|
                    0 <= j < idx ==> interface_level(
                        (#[trigger] self.entries@[j]).1@,
                        true,
                    ).rank() <= c.ipv6.rank(),
                c.ipv4 == ConnectivityState::Disconnected || exists|j: int|
                    0 <= j < idx && interface_level((#[trigger] self.entries@[j]).1@, false)
                        == c.ipv4,
                c.ipv6 == ConnectivityState::Disconnected || exists|j: int|
                    0 <= j < idx && interface_level((#[trigger] self.entries@[j]).1@, true)
                        == c.ipv6,
            decreases n - idx,
        {
            let entry = &self.entries[idx];
            let ic = entry.1.connectivity();
            if ic.ipv4.rank_u8() > c.ipv4.rank_u8() {
                c.ipv4 = ic.ipv4;
            }
            if ic.ipv6.rank_u8() > c.ipv6.rank_u8() {
                c.ipv6 = ic.ipv6;
            }
            idx += 1;
        }
        proof {
            self.lemma_levels_match(c.ipv4, false);
            self.lemma_levels_match(c.ipv6, true);
        }
        c
    }

    /// After the fold, a per-family accumulator that bounds every entry and
    /// is witnessed by one of them is exactly the map's level.
    proof fn lemma_levels_match(&self, acc: ConnectivityState, v6: bool)
        requires
            self.wf(),
            forall|j: int|
                0 <= j < self.entries@.len() ==> interface_level(
                    (#[trigger] self.entries@[j]).1@,
                    v6,
                ).rank() <= acc.rank(),
            acc == ConnectivityState::Disconnected || exists|j: int|
                0 <= j < self.entries@.len() && interface_level(
                    (#[trigger] self.entries@[j]).1@,
                    v6,
                ) == acc,
        ensures
            acc == map_level(self@, v6),
    {
        let s = self.entries@;
        let m = self@;
        assert forall|k: u32| #[trigger] m.contains_key(k) implies interface_level(m[k], v6).rank()
            <= acc.rank() by {
            assert(has_key(s, k));
            lemma_key_index(s, k);
            let i = key_index(s, k);
            lemma_assoc_at(s, i);
            assert(m[k] == s[i].1@);
        }
        if acc != ConnectivityState::Disconnected {
            let j = choose|j: int|
                0 <= j < s.len() && interface_level((#[trigger] s[j]).1@, v6) == acc;
            lemma_assoc_at(s, j);
            assert(m.contains_key(s[j].0) && interface_level(m[s[j].0], v6) == acc);
        }
    }
}

// ------------------------------------------------------------------
// laws of the state model
// ------------------------------------------------------------------
/// The verdict is a pure function of the map: equal maps yield equal
/// verdicts.
pub proof fn lemma_connectivity_pure(m1: Map<u32, InterfaceView>, m2: Map<u32, InterfaceView>)
    requires
        m1 == m2,
    ensures
        spec_connectivity(m1) == spec_connectivity(m2),
{
}

/// Loopback link events never change the map, so they never change the
/// verdict.
pub proof fn lemma_loopback_link_ignored(m: Map<u32, InterfaceView>, key: u32, carrier: bool)
    ensures
        spec_add_link(m, key, true, carrier) == m,
        spec_connectivity(spec_add_link(m, key, true, carrier)) == spec_connectivity(m),
{
}

/// Adding the same link twice is the same as adding it once.
pub proof fn lemma_add_link_idempotent(
    m: Map<u32, InterfaceView>,
    key: u32,
    loop_back: bool,
    carrier: bool,
)
    ensures
        spec_add_link(spec_add_link(m, key, loop_back, carrier), key, loop_back, carrier)
            == spec_add_link(m, key, loop_back, carrier),
{
    assert(spec_add_link(spec_add_link(m, key, loop_back, carrier), key, loop_back, carrier)
        =~~= spec_add_link(m, key, loop_back, carrier));
}

/// Adding the same address twice is the same as adding it once.
pub proof fn lemma_add_address_idempotent(m: Map<u32, InterfaceView>, key: u32, addr: IpAddr)
    ensures
        spec_add_address(spec_add_address(m, key, addr), key, addr) == spec_add_address(
            m,
            key,
            addr,
        ),
{
    assert(spec_add_address(spec_add_address(m, key, addr), key, addr) =~~= spec_add_address(
        m,
        key,
        addr,
    ));
}

/// Adding the same default route twice is the same as adding it once.
pub proof fn lemma_add_default_route_idempotent(
    m: Map<u32, InterfaceView>,
    key: u32,
    gateway: IpAddr,
    priority: u32,
)
    ensures
        spec_add_default_route(
            spec_add_default_route(m, key, gateway, priority),
            key,
            gateway,
            priority,
        ) == spec_add_default_route(m, key, gateway, priority),
{
    assert(spec_add_default_route(
        spec_add_default_route(m, key, gateway, priority),
        key,
        gateway,
        priority,
    ) =~~= spec_add_default_route(m, key, gateway, priority));
}

/// From the empty map, adding a link and removing it again restores the
/// empty map. This is the one mutation whose removal drops the entry; it
/// cannot be round-tripped from a map that already holds the key, because
/// the removal also forgets the recorded addresses and routes.
pub proof fn lemma_link_round_trip(key: u32, loop_back: bool, carrier: bool)
    ensures
        spec_remove_link(
            spec_add_link(Map::<u32, InterfaceView>::empty(), key, loop_back, carrier),
            key,
        ) == Map::<u32, InterfaceView>::empty(),
{
    assert(spec_remove_link(
        spec_add_link(Map::<u32, InterfaceView>::empty(), key, loop_back, carrier),
        key,
    ) =~~= Map::<u32, InterfaceView>::empty());
}

/// From the empty map, adding an address and removing it again restores
/// every address and gateway set; only the bare entry the upsert created
/// remains, down and empty, so the verdict is the one of the empty map.
pub proof fn lemma_address_round_trip(key: u32, addr: IpAddr)
    ensures
        spec_remove_address(
            spec_add_address(Map::<u32, InterfaceView>::empty(), key, addr),
            key,
            addr,
        ) == Map::<u32, InterfaceView>::empty().insert(key, fresh_interface(false)),
        spec_connectivity(
            spec_remove_address(
                spec_add_address(Map::<u32, InterfaceView>::empty(), key, addr),
                key,
                addr,
            ),
        ) == spec_connectivity(Map::<u32, InterfaceView>::empty()),
{
    let rt = spec_remove_address(
        spec_add_address(Map::<u32, InterfaceView>::empty(), key, addr),
        key,
        addr,
    );
    assert(rt =~~= Map::<u32, InterfaceView>::empty().insert(key, fresh_interface(false)));
    assert(spec_connectivity(rt) =~~= spec_connectivity(Map::<u32, InterfaceView>::empty()));
}

/// From the empty map, adding a default route and removing it again
/// restores every address and gateway set; only the bare entry the upsert
/// created remains, down and empty, so the verdict is the one of the empty
/// map.
pub proof fn lemma_default_route_round_trip(key: u32, gateway: IpAddr, priority: u32)
    ensures
        spec_remove_default_route(
            spec_add_default_route(Map::<u32, InterfaceView>::empty(), key, gateway, priority),
            key,
            gateway,
            priority,
        ) == Map::<u32, InterfaceView>::empty().insert(key, fresh_interface(false)),
        spec_connectivity(
            spec_remove_default_route(
                spec_add_default_route(
                    Map::<u32, InterfaceView>::empty(),
                    key,
                    gateway,
                    priority,
                ),
                key,
                gateway,
                priority,
            ),
        ) == spec_connectivity(Map::<u32, InterfaceView>::empty()),
{
    let rt = spec_remove_default_route(
        spec_add_default_route(Map::<u32, InterfaceView>::empty(), key, gateway, priority),
        key,
        gateway,
        priority,
    );
    assert(rt =~~= Map::<u32, InterfaceView>::empty().insert(key, fresh_interface(false)));
    assert(spec_connectivity(rt) =~~= spec_connectivity(Map::<u32, InterfaceView>::empty()));
}

/// Adding a link whose carrier is already recorded changes nothing.
pub proof fn lemma_add_present_link_noop(m: Map<u32, InterfaceView>, key: u32, carrier: bool)
    requires
        m.contains_key(key),
        m[key].up == carrier,
    ensures
        spec_add_link(m, key, false, carrier) == m,
{
    assert(spec_add_link(m, key, false, carrier) =~~= m);
}

/// Adding an address that is already recorded changes nothing.
pub proof fn lemma_add_present_address_noop(m: Map<u32, InterfaceView>, key: u32, addr: IpAddr)
    requires
        m.contains_key(key),
        family_of(m[key], addr.is_v6()).addresses.contains(addr),
    ensures
        spec_add_address(m, key, addr) == m,
{
    assert(spec_add_address(m, key, addr) =~~= m);
}

/// Adding a default route that is already recorded changes nothing.
pub proof fn lemma_add_present_default_route_noop(
    m: Map<u32, InterfaceView>,
    key: u32,
    gateway: IpAddr,
    priority: u32,
)
    requires
        m.contains_key(key),
        family_of(m[key], gateway.is_v6()).gateways.contains((gateway, priority)),
    ensures
        spec_add_default_route(m, key, gateway, priority) == m,
{
    assert(spec_add_default_route(m, key, gateway, priority) =~~= m);
}

/// Removing a link that is not recorded changes nothing.
pub proof fn lemma_remove_absent_link_noop(m: Map<u32, InterfaceView>, key: u32)
    requires
        !m.contains_key(key),
    ensures
        spec_remove_link(m, key) == m,
{
    assert(spec_remove_link(m, key) =~~= m);
}

/// Removing an address that is not recorded changes nothing.
pub proof fn lemma_remove_absent_address_noop(m: Map<u32, InterfaceView>, key: u32, addr: IpAddr)
    requires
        !m.contains_key(key) || !family_of(m[key], addr.is_v6()).addresses.contains(addr),
    ensures
        spec_remove_address(m, key, addr) == m,
{
    if m.contains_key(key) {
        assert(spec_remove_address(m, key, addr) =~~= m);
    }
}

/// Removing a default route that is not recorded changes nothing.
pub proof fn lemma_remove_absent_default_route_noop(
    m: Map<u32, InterfaceView>,
    key: u32,
    gateway: IpAddr,
    priority: u32,
)
    requires
        !m.contains_key(key) || !family_of(m[key], gateway.is_v6()).gateways.contains(
            (gateway, priority),
        ),
    ensures
        spec_remove_default_route(m, key, gateway, priority) == m,
{
    if m.contains_key(key) {
        assert(spec_remove_default_route(m, key, gateway, priority) =~~= m);
    }
}

} // verus!