//! Values of the data plane's configuration tables.

use vstd::prelude::*;
use crate::ports::{PortRanges, RawPortRange, MAX_PORT_RANGES};

verus! {

/// Per-destination configuration.
#[derive(Clone, Copy, Debug, PartialEq, Eq, Structural)]
pub struct DestConfig {
    /// Source NAT is suppressed for this destination.
    pub no_snat: bool,
    /// Traffic to this destination is hairpinned.
    pub hairpin: bool,
}

/// Per-external-address configuration: a flag, and for each protocol a
/// fixed-size array of port ranges with the count of slots in use.
#[derive(Clone, Copy, Debug, PartialEq, Eq)]
pub struct ExternalConfig {
    pub no_snat: bool,
    pub tcp_range: PortRanges,
    pub tcp_range_len: u8,
    pub udp_range: PortRanges,
    pub udp_range_len: u8,
    pub icmp_range: PortRanges,
    pub icmp_range_len: u8,
    pub icmp_in_range: PortRanges,
    pub icmp_in_range_len: u8,
    pub icmp_out_range: PortRanges,
    pub icmp_out_range_len: u8,
}

/// The array whose slots are all zero.
pub open spec fn zero_ranges() -> Seq<RawPortRange> {
    Seq::new(MAX_PORT_RANGES as nat, |i: int| RawPortRange { start_port: 0, end_port: 0 })
}

/// The mathematical content of an `ExternalConfig`: each array as the
/// sequence of its slots.
pub struct ExternalConfigSpec {
    pub no_snat: bool,
    pub tcp: Seq<RawPortRange>,
    pub tcp_len: u8,
    pub udp: Seq<RawPortRange>,
    pub udp_len: u8,
    pub icmp: Seq<RawPortRange>,
    pub icmp_len: u8,
    pub icmp_in: Seq<RawPortRange>,
    pub icmp_in_len: u8,
    pub icmp_out: Seq<RawPortRange>,
    pub icmp_out_len: u8,
}

impl View for ExternalConfig {
    type V = ExternalConfigSpec;

    open spec fn view(&self) -> ExternalConfigSpec {
        ExternalConfigSpec {
            no_snat: self.no_snat,
            tcp: self.tcp_range@,
            tcp_len: self.tcp_range_len,
            udp: self.udp_range@,
            udp_len: self.udp_range_len,
            icmp: self.icmp_range@,
            icmp_len: self.icmp_range_len,
            icmp_in: self.icmp_in_range@,
            icmp_in_len: self.icmp_in_range_len,
            icmp_out: self.icmp_out_range@,
            icmp_out_len: self.icmp_out_range_len,
        }
    }
}

/// The configuration with the flag cleared and every array empty.
pub open spec fn zero_external() -> ExternalConfigSpec {
    ExternalConfigSpec {
        no_snat: false,
        tcp: zero_ranges(),
        tcp_len: 0,
        udp: zero_ranges(),
        udp_len: 0,
        icmp: zero_ranges(),
        icmp_len: 0,
        icmp_in: zero_ranges(),
        icmp_in_len: 0,
        icmp_out: zero_ranges(),
        icmp_out_len: 0,
    }
}

/// Two configurations with the same content are the same value.
pub proof fn lemma_external_config_ext(a: ExternalConfig, b: ExternalConfig)
    requires
        a@ == b@,
    ensures
        a == b,
{
    assert(a.tcp_range =~= b.tcp_range);
    assert(a.udp_range =~= b.udp_range);
    assert(a.icmp_range =~= b.icmp_range);
    assert(a.icmp_in_range =~= b.icmp_in_range);
    assert(a.icmp_out_range =~= b.icmp_out_range);
}

impl DestConfig {
    /// The configuration with every flag cleared.
    pub fn new() -> (c: DestConfig)
        ensures
            c == (DestConfig { no_snat: false, hairpin: false }),
    {
        DestConfig { no_snat: false, hairpin: false }
    }
}

impl ExternalConfig {
    /// The configuration with the flag cleared and every array empty.
    pub fn new() -> (c: ExternalConfig)
        ensures
            c@ == zero_external(),
    {
        let zero = [RawPortRange { start_port: 0, end_port: 0 };MAX_PORT_RANGES];
        proof {
            assert(zero@ =~= zero_ranges());
        }
        ExternalConfig {
            no_snat: false,
            tcp_range: zero,
            tcp_range_len: 0,
            udp_range: zero,
            udp_range_len: 0,
            icmp_range: zero,
            icmp_range_len: 0,
            icmp_in_range: zero,
            icmp_in_range_len: 0,
            icmp_out_range: zero,
            icmp_out_range_len: 0,
        }
    }

    /// Whether two configurations are equal, field by field.
    pub fn same(&self, other: &ExternalConfig) -> (r: bool)
        ensures
            r == (*self == *other),
    {
        self.no_snat == other.no_snat && self.tcp_range_len == other.tcp_range_len
            && self.udp_range_len == other.udp_range_len && self.icmp_range_len
            == other.icmp_range_len && self.icmp_in_range_len == other.icmp_in_range_len
            && self.icmp_out_range_len == other.icmp_out_range_len && same_ranges(
            &self.tcp_range,
            &other.tcp_range,
        ) && same_ranges(&self.udp_range, &other.udp_range) && same_ranges(
            &self.icmp_range,
            &other.icmp_range,
        ) && same_ranges(&self.icmp_in_range, &other.icmp_in_range) && same_ranges(
            &self.icmp_out_range,
            &other.icmp_out_range,
        )
    }
}

/// Whether two port-range arrays hold the same slots.
pub fn same_ranges(a: &PortRanges, b: &PortRanges) -> (r: bool)
    ensures
        r == (*a == *b),
{
    let mut i: usize = 0;
    while i < MAX_PORT_RANGES
        invariant
            0 <= i <= MAX_PORT_RANGES,
            forall|k: int| 0 <= k < i ==> a@[k] == b@[k],
        decreases MAX_PORT_RANGES - i,
    {
        if a[i] != b[i] {
            return false;
        }
        i += 1;
    }
    proof {
        assert(a@ =~= b@);
        assert(*a =~= *b);
    }
    true
}

} // verus!
