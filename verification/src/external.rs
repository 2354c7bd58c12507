//! Normalisation of one external-address entry of the policy.

use vstd::prelude::*;
use crate::config::{AddressOrMatcher, ConfigDefaults, ConfigExternal};
use crate::error::ConfigError;
use crate::ports::{
    is_canonical, lemma_normalized, ranges_contain, ranges_result, ExternalRanges,
    PortRange, ProtoRange, MAX_PORT_RANGES,
};

verus! {

/// A validated external-address entry.
#[derive(Clone, Debug)]
pub struct External {
    pub address: AddressOrMatcher,
    pub no_snat: bool,
    pub no_hairpin: bool,
    pub tcp_ranges: ExternalRanges,
    pub udp_ranges: ExternalRanges,
    pub icmp_ranges: ExternalRanges,
    pub icmp_in_ranges: ExternalRanges,
    pub icmp_out_ranges: ExternalRanges,
}

/// The mathematical content of an `External`.
pub struct ExternalSpec {
    pub address: AddressOrMatcher,
    pub no_snat: bool,
    pub no_hairpin: bool,
    pub tcp: Seq<PortRange>,
    pub udp: Seq<PortRange>,
    pub icmp: Seq<PortRange>,
    pub icmp_in: Seq<PortRange>,
    pub icmp_out: Seq<PortRange>,
}

impl View for External {
    type V = ExternalSpec;

    open spec fn view(&self) -> ExternalSpec {
        ExternalSpec {
            address: self.address,
            no_snat: self.no_snat,
            no_hairpin: self.no_hairpin,
            tcp: self.tcp_ranges@,
            udp: self.udp_ranges@,
            icmp: self.icmp_ranges@,
            icmp_in: self.icmp_in_ranges@,
            icmp_out: self.icmp_out_ranges@,
        }
    }
}

/// A list fit for the data plane: canonical and within the slot count.
pub open spec fn fits(s: Seq<PortRange>) -> bool {
    is_canonical(s) && s.len() <= MAX_PORT_RANGES
}

impl ExternalSpec {
    /// Every list is canonical and fits the data plane's slots; the ICMP
    /// ranges contain the inbound and outbound ones, and where there are no
    /// ICMP ranges there are no inbound or outbound ones either.
    pub open spec fn wf(self) -> bool {
        &&& fits(self.tcp)
        &&& fits(self.udp)
        &&& fits(self.icmp)
        &&& fits(self.icmp_in)
        &&& fits(self.icmp_out)
        &&& ranges_contain(self.icmp, self.icmp_in)
        &&& ranges_contain(self.icmp, self.icmp_out)
        &&& self.icmp.len() == 0 ==> self.icmp_in.len() == 0 && self.icmp_out.len() == 0
    }
}

/// The list of an entry where it is given, else the default.
pub open spec fn chosen(own: Option<Vec<ProtoRange>>, default: Vec<ProtoRange>) -> Seq<
    ProtoRange,
> {
    match own {
        Some(v) => v@,
        None => default@,
    }
}

/// The inbound or outbound ICMP list: forced empty where there are no ICMP
/// ranges, else validated like the others.
pub open spec fn icmp_side_result(icmp: Seq<PortRange>, side: Seq<ProtoRange>) -> Result<
    Seq<PortRange>,
    ConfigError,
> {
    if icmp.len() == 0 {
        Ok(Seq::empty())
    } else {
        ranges_result(side, true)
    }
}

/// What normalising an entry gives. The lists are validated in the order
/// TCP, UDP, ICMP, ICMP inbound, ICMP outbound, and the first failure is
/// the error; then containment of the inbound and outbound lists in the
/// ICMP list is required.
pub open spec fn external_result(c: ConfigExternal, d: ConfigDefaults) -> Result<
    ExternalSpec,
    ConfigError,
> {
    match ranges_result(chosen(c.tcp_ranges, d.tcp_ranges), false) {
        Err(e) => Err(e),
        Ok(tcp) => match ranges_result(chosen(c.udp_ranges, d.udp_ranges), false) {
            Err(e) => Err(e),
            Ok(udp) => match ranges_result(chosen(c.icmp_ranges, d.icmp_ranges), true) {
                Err(e) => Err(e),
                Ok(icmp) => match icmp_side_result(
                    icmp,
                    chosen(c.icmp_in_ranges, d.icmp_in_ranges),
                ) {
                    Err(e) => Err(e),
                    Ok(icmp_in) => match icmp_side_result(
                        icmp,
                        chosen(c.icmp_out_ranges, d.icmp_out_ranges),
                    ) {
                        Err(e) => Err(e),
                        Ok(icmp_out) => if ranges_contain(icmp, icmp_in) && ranges_contain(
                            icmp,
                            icmp_out,
                        ) {
                            Ok(
                                ExternalSpec {
                                    address: c.address,
                                    no_snat: c.no_snat,
                                    no_hairpin: c.no_hairpin,
                                    tcp,
                                    udp,
                                    icmp,
                                    icmp_in,
                                    icmp_out,
                                },
                            )
                        } else {
                            Err(ConfigError::IcmpContainmentViolation)
                        },
                    },
                },
            },
        },
    }
}

/// A list that passed validation is fit for the data plane.
pub proof fn lemma_ranges_result_fits(s: Seq<ProtoRange>, allow_zero: bool)
    ensures
        ranges_result(s, allow_zero) matches Ok(x) ==> fits(x),
{
    lemma_normalized(crate::ports::inner_ranges(s));
}

/// Every entry that normalisation accepts has its ICMP ranges containing
/// the inbound and the outbound ones, all lists in canonical form; and
/// without ICMP ranges it has no inbound or outbound ones.
pub proof fn lemma_external_icmp_contained(c: ConfigExternal, d: ConfigDefaults)
    ensures
        external_result(c, d) matches Ok(e) ==> {
            &&& ranges_contain(e.icmp, e.icmp_in)
            &&& ranges_contain(e.icmp, e.icmp_out)
            &&& (e.icmp.len() == 0 ==> e.icmp_in.len() == 0 && e.icmp_out.len() == 0)
            &&& e.wf()
        },
{
    lemma_ranges_result_fits(chosen(c.tcp_ranges, d.tcp_ranges), false);
    lemma_ranges_result_fits(chosen(c.udp_ranges, d.udp_ranges), false);
    lemma_ranges_result_fits(chosen(c.icmp_ranges, d.icmp_ranges), true);
    lemma_ranges_result_fits(chosen(c.icmp_in_ranges, d.icmp_in_ranges), true);
    lemma_ranges_result_fits(chosen(c.icmp_out_ranges, d.icmp_out_ranges), true);
}

/// The list of an entry where it is given, else the default.
fn choose_ranges<'a>(own: &'a Option<Vec<ProtoRange>>, default: &'a Vec<ProtoRange>) -> (r: &'a [ProtoRange])
    ensures
        r@ == chosen(*own, *default),
{
    match own {
        Some(v) => v.as_slice(),
        None => default.as_slice(),
    }
}

impl External {
    /// Validates and normalises one entry of the policy against the
    /// defaults.
    pub fn try_from(external: &ConfigExternal, defaults: &ConfigDefaults) -> (res: Result<
        External,
        ConfigError,
    >)
        ensures
            match res {
                Ok(e) => external_result(*external, *defaults) == Ok::<ExternalSpec, ConfigError>(
                    e@,
                ) && e@.wf(),
                Err(err) => external_result(*external, *defaults) == Err::<
                    ExternalSpec,
                    ConfigError,
                >(err),
            },
    {
        proof {
            lemma_external_icmp_contained(*external, *defaults);
        }
        let tcp_ranges = match ExternalRanges::try_from(
            choose_ranges(&external.tcp_ranges, &defaults.tcp_ranges),
            false,
        ) {
            Ok(r) => r,
            Err(e) => {
                return Err(e);
            },
        };
        let udp_ranges = match ExternalRanges::try_from(
            choose_ranges(&external.udp_ranges, &defaults.udp_ranges),
            false,
        ) {
            Ok(r) => r,
            Err(e) => {
                return Err(e);
            },
        };
        let icmp_ranges = match ExternalRanges::try_from(
            choose_ranges(&external.icmp_ranges, &defaults.icmp_ranges),
            true,
        ) {
            Ok(r) => r,
            Err(e) => {
                return Err(e);
            },
        };
        let icmp_in_ranges = if icmp_ranges.is_empty() {
            ExternalRanges::empty()
        } else {
            match ExternalRanges::try_from(
                choose_ranges(&external.icmp_in_ranges, &defaults.icmp_in_ranges),
                true,
            ) {
                Ok(r) => r,
                Err(e) => {
                    return Err(e);
                },
            }
        };
        let icmp_out_ranges = if icmp_ranges.is_empty() {
            ExternalRanges::empty()
        } else {
            match ExternalRanges::try_from(
                choose_ranges(&external.icmp_out_ranges, &defaults.icmp_out_ranges),
                true,
            ) {
                Ok(r) => r,
                Err(e) => {
                    return Err(e);
                },
            }
        };
        if !icmp_ranges.contains(&icmp_in_ranges) {
            return Err(ConfigError::IcmpContainmentViolation);
        }
        if !icmp_ranges.contains(&icmp_out_ranges) {
            return Err(ConfigError::IcmpContainmentViolation);
        }
        Ok(
            External {
                address: external.address,
                no_snat: external.no_snat,
                no_hairpin: external.no_hairpin,
                tcp_ranges,
                udp_ranges,
                icmp_ranges,
                icmp_in_ranges,
                icmp_out_ranges,
            },
        )
    }
}

} // verus!
