//! The declarative policy as the core consumes it.

use vstd::prelude::*;
use crate::ports::ProtoRange;
use crate::prefix::{Family, IpAddress, IpNetwork};

verus! {

/// How an external address is named: one fixed address, or every local
/// address within a network.
#[derive(Clone, Copy, Debug, PartialEq, Eq, Structural)]
pub enum AddressOrMatcher {
    Static { address: IpAddress },
    Matcher { match_address: IpNetwork },
}

impl AddressOrMatcher {
    /// The networks and addresses named are canonical.
    pub open spec fn wf(self) -> bool {
        match self {
            AddressOrMatcher::Static { address } => address.wf(),
            AddressOrMatcher::Matcher { match_address } => match_address.wf(),
        }
    }
}

/// One external-address entry of the policy. A list that is absent is taken
/// from the defaults.
#[derive(Clone, Debug)]
pub struct ConfigExternal {
    pub address: AddressOrMatcher,
    pub no_snat: bool,
    pub no_hairpin: bool,
    pub tcp_ranges: Option<Vec<ProtoRange>>,
    pub udp_ranges: Option<Vec<ProtoRange>>,
    pub icmp_ranges: Option<Vec<ProtoRange>>,
    pub icmp_in_ranges: Option<Vec<ProtoRange>>,
    pub icmp_out_ranges: Option<Vec<ProtoRange>>,
}

/// The default port ranges of the policy.
#[derive(Clone, Debug)]
pub struct ConfigDefaults {
    pub tcp_ranges: Vec<ProtoRange>,
    pub udp_ranges: Vec<ProtoRange>,
    pub icmp_ranges: Vec<ProtoRange>,
    pub icmp_in_ranges: Vec<ProtoRange>,
    pub icmp_out_ranges: Vec<ProtoRange>,
}

/// The entry that matches every address of `family`, with all ranges left
/// to the defaults.
pub open spec fn match_any_spec(family: Family) -> ConfigExternal {
    ConfigExternal {
        address: AddressOrMatcher::Matcher { match_address: IpNetwork { family, bits: 0, len: 0 } },
        no_snat: false,
        no_hairpin: false,
        tcp_ranges: None,
        udp_ranges: None,
        icmp_ranges: None,
        icmp_in_ranges: None,
        icmp_out_ranges: None,
    }
}

impl ConfigExternal {
    /// The entry that matches every address of `family`, with all ranges
    /// left to the defaults.
    pub fn match_any(family: Family) -> (e: ConfigExternal)
        ensures
            e == match_any_spec(family),
            e.address.wf(),
    {
        proof {
            assert(0u128 & 0u128 == 0u128) by (bit_vector);
        }
        ConfigExternal {
            address: AddressOrMatcher::Matcher {
                match_address: IpNetwork { family, bits: 0, len: 0 },
            },
            no_snat: false,
            no_hairpin: false,
            tcp_ranges: None,
            udp_ranges: None,
            icmp_ranges: None,
            icmp_in_ranges: None,
            icmp_out_ranges: None,
        }
    }

    /// The entry that matches every IPv4 address.
    pub fn match_any_ipv4() -> (e: ConfigExternal)
        ensures
            e == match_any_spec(Family::V4),
            e.address.wf(),
    {
        ConfigExternal::match_any(Family::V4)
    }

    /// The entry that matches every IPv6 address.
    pub fn match_any_ipv6() -> (e: ConfigExternal)
        ensures
            e == match_any_spec(Family::V6),
            e.address.wf(),
    {
        ConfigExternal::match_any(Family::V6)
    }
}

} // verus!
