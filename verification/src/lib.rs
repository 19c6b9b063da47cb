//! Watches a host's network stack and derives connectivity verdicts.
//!
//! The heart of the crate is a platform-independent shadow of the kernel's
//! interfaces, addresses and default routes ([`state::Interfaces`]), a
//! normalizer for Linux route-netlink events ([`linux`]), one for the rows
//! of the Windows IP Helper tables ([`windows`]), and a driver step that
//! emits a [`Connectivity`] verdict exactly when it changes.

use vstd::prelude::*;

pub mod linux;
pub mod state;
pub mod windows;

verus! {

/// Connectivity to the internet, from nothing over link-local to a
/// plausible path out, in that order.
#[derive(PartialEq, Eq, PartialOrd, Ord, Structural, Clone, Copy, Debug)]
pub enum ConnectivityState {
    /// No usable address
    Disconnected,
    /// An address is present but no default route
    Network,
    /// An address and a default route are present
    Internet,
}

impl ConnectivityState {
    /// Rank of a state in the order `Disconnected < Network < Internet`.
    pub open spec fn rank(self) -> int {
        match self {
            ConnectivityState::Disconnected => 0,
            ConnectivityState::Network => 1,
            ConnectivityState::Internet => 2,
        }
    }

    /// Rank as a machine integer, for comparing two states.
    pub fn rank_u8(self) -> (r: u8)
        ensures
            r == self.rank(),
    {
        match self {
            ConnectivityState::Disconnected => 0,
            ConnectivityState::Network => 1,
            ConnectivityState::Internet => 2,
        }
    }
}

/// Connectivity to the internet, separated by ip family.
#[derive(PartialEq, Eq, Structural, Clone, Copy, Debug)]
pub struct Connectivity {
    /// Ipv4 connectivity
    pub ipv4: ConnectivityState,
    /// Ipv6 connectivity
    pub ipv6: ConnectivityState,
}

impl Connectivity {
    /// Get the highest connectivity state of any ip family.
    pub fn any(&self) -> (r: ConnectivityState)
        ensures
            r == self.ipv4 || r == self.ipv6,
            r.rank() >= self.ipv4.rank(),
            r.rank() >= self.ipv6.rank(),
    {
        if self.ipv4.rank_u8() > self.ipv6.rank_u8() {
            self.ipv4
        } else {
            self.ipv6
        }
    }

    /// Get the lowest connectivity state of any ip family.
    pub fn all(&self) -> (r: ConnectivityState)
        ensures
            r == self.ipv4 || r == self.ipv6,
            r.rank() <= self.ipv4.rank(),
            r.rank() <= self.ipv6.rank(),
    {
        if self.ipv4.rank_u8() < self.ipv6.rank_u8() {
            self.ipv4
        } else {
            self.ipv6
        }
    }
}

/// Assigns `assignee` to `assign` and reports whether they differed.
pub fn diff_assign(assign: &mut Connectivity, assignee: Connectivity) -> (r: bool)
    ensures
        *final(assign) == assignee,
        r == (*old(assign) != assignee),
{
    if *assign == assignee {
        false
    } else {
        *assign = assignee;
        true
    }
}

/// For every verdict, what `any` reports is at least what `all` reports,
/// and both are one of the three states (their rank lies between 0 and 2).
/// The premises are exactly what `any` and `all` ensure of their results.
pub proof fn lemma_any_at_least_all(c: Connectivity, a: ConnectivityState, l: ConnectivityState)
    requires
        a == c.ipv4 || a == c.ipv6,
        a.rank() >= c.ipv4.rank(),
        a.rank() >= c.ipv6.rank(),
        l == c.ipv4 || l == c.ipv6,
        l.rank() <= c.ipv4.rank(),
        l.rank() <= c.ipv6.rank(),
    ensures
        a.rank() >= l.rank(),
        0 <= a.rank() <= 2,
        0 <= l.rank() <= 2,
{
}

} // verus!
