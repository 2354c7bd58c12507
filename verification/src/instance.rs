//! The configuration of one interface's data plane: the constants applied
//! before load, the validated policy, and the runtime configuration of
//! each family.

use vstd::prelude::*;
use crate::config::{AddressOrMatcher, ConfigDefaults, ConfigExternal};
use crate::error::ConfigError;
use crate::external::{external_result, External, ExternalSpec};
use crate::prefix::{v4_bits, Family, IpNetwork, Prefix};
use crate::reconcile::Plan;
use crate::runtime::{built, fits_slots, specs_of, RuntimeConfig, RuntimeConfigSpec};
use crate::diff::is_diff;

verus! {

/// How packets are framed on an interface.
#[derive(Clone, Copy, Debug, PartialEq, Eq, Structural)]
pub enum PacketEncap {
    Ethernet,
    BareIp,
    Unsupported,
    Unknown,
}

/// The policy of one interface, as far as the core reads it.
#[derive(Clone, Debug)]
pub struct ConfigNetIf {
    pub nat44: bool,
    pub nat66: bool,
    pub bpf_log_level: Option<u8>,
    pub bpf_fib_lookup_external: Option<bool>,
    pub allow_inbound_icmpx: Option<bool>,
    pub timeout_fragment: Option<u64>,
    pub timeout_pkt_min: Option<u64>,
    pub timeout_pkt_default: Option<u64>,
    pub timeout_tcp_trans: Option<u64>,
    pub timeout_tcp_est: Option<u64>,
    pub default_externals: bool,
    pub externals: Vec<ConfigExternal>,
    pub no_snat_dests: Vec<IpNetwork>,
}

/// The addresses assigned to an interface: the IPv4 ones as 32-bit values,
/// the IPv6 ones as 128-bit values.
#[derive(Clone, Debug)]
pub struct IfAddresses {
    pub ipv4: Vec<u32>,
    pub ipv6: Vec<u128>,
}

/// The constants of the data plane that are set before it is loaded. A
/// field that is `None` leaves the constant as it is.
#[derive(Clone, Copy, Debug, PartialEq, Eq)]
pub struct ConstConfig {
    pub log_level: Option<u8>,
    pub has_eth_encap: Option<bool>,
    pub ingress_ipv4: Option<bool>,
    pub egress_ipv4: Option<bool>,
    pub ingress_ipv6: Option<bool>,
    pub egress_ipv6: Option<bool>,
    pub enable_fib_lookup_src: Option<bool>,
    pub allow_inbound_icmpx: Option<bool>,
    pub timeout_fragment: Option<u64>,
    pub timeout_pkt_min: Option<u64>,
    pub timeout_pkt_default: Option<u64>,
    pub timeout_tcp_trans: Option<u64>,
    pub timeout_tcp_est: Option<u64>,
}

/// The read-only constants of the data plane. A switch is a byte that is
/// 1 when on and 0 when off.
#[derive(Clone, Copy, Debug, PartialEq, Eq, Structural)]
pub struct RoData {
    pub log_level: u8,
    pub has_eth_encap: u8,
    pub ingress_ipv4: u8,
    pub egress_ipv4: u8,
    pub ingress_ipv6: u8,
    pub egress_ipv6: u8,
    pub enable_fib_lookup_src: u8,
    pub allow_inbound_icmpx: u8,
    pub timeout_fragment: u64,
    pub timeout_pkt_min: u64,
    pub timeout_pkt_default: u64,
    pub timeout_tcp_trans: u64,
    pub timeout_tcp_est: u64,
}

/// The byte of a switch.
pub open spec fn switch_byte(on: bool) -> u8 {
    if on {
        1
    } else {
        0
    }
}

/// A byte constant after a setting is applied.
pub open spec fn set_byte(setting: Option<u8>, prev: u8) -> u8 {
    match setting {
        Some(v) => v,
        None => prev,
    }
}

/// A switch after a setting is applied.
pub open spec fn set_switch(setting: Option<bool>, prev: u8) -> u8 {
    match setting {
        Some(on) => switch_byte(on),
        None => prev,
    }
}

/// A timeout after a setting is applied.
pub open spec fn set_timeout(setting: Option<u64>, prev: u64) -> u64 {
    match setting {
        Some(v) => v,
        None => prev,
    }
}

/// The constants after the settings of `c` are applied to `prev`: each
/// setting goes to the constant of its own name.
pub open spec fn applied(c: ConstConfig, prev: RoData) -> RoData {
    RoData {
        log_level: set_byte(c.log_level, prev.log_level),
        has_eth_encap: set_switch(c.has_eth_encap, prev.has_eth_encap),
        ingress_ipv4: set_switch(c.ingress_ipv4, prev.ingress_ipv4),
        egress_ipv4: set_switch(c.egress_ipv4, prev.egress_ipv4),
        ingress_ipv6: set_switch(c.ingress_ipv6, prev.ingress_ipv6),
        egress_ipv6: set_switch(c.egress_ipv6, prev.egress_ipv6),
        enable_fib_lookup_src: set_switch(c.enable_fib_lookup_src, prev.enable_fib_lookup_src),
        allow_inbound_icmpx: set_switch(c.allow_inbound_icmpx, prev.allow_inbound_icmpx),
        timeout_fragment: set_timeout(c.timeout_fragment, prev.timeout_fragment),
        timeout_pkt_min: set_timeout(c.timeout_pkt_min, prev.timeout_pkt_min),
        timeout_pkt_default: set_timeout(c.timeout_pkt_default, prev.timeout_pkt_default),
        timeout_tcp_trans: set_timeout(c.timeout_tcp_trans, prev.timeout_tcp_trans),
        timeout_tcp_est: set_timeout(c.timeout_tcp_est, prev.timeout_tcp_est),
    }
}

/// The byte of a switch.
fn byte_of(on: bool) -> (b: u8)
    ensures
        b == switch_byte(on),
{
    if on {
        1
    } else {
        0
    }
}

impl ConstConfig {
    /// Applies the settings to the data plane's constants.
    pub fn apply(&self, rodata: &mut RoData)
        ensures
            *final(rodata) == applied(*self, *old(rodata)),
    {
        if let Some(log_level) = self.log_level {
            rodata.log_level = log_level;
        }
        if let Some(has_eth_encap) = self.has_eth_encap {
            rodata.has_eth_encap = byte_of(has_eth_encap);
        }
        if let Some(ingress_ipv4) = self.ingress_ipv4 {
            rodata.ingress_ipv4 = byte_of(ingress_ipv4);
        }
        if let Some(egress_ipv4) = self.egress_ipv4 {
            rodata.egress_ipv4 = byte_of(egress_ipv4);
        }
        if let Some(ingress_ipv6) = self.ingress_ipv6 {
            rodata.ingress_ipv6 = byte_of(ingress_ipv6);
        }
        if let Some(egress_ipv6) = self.egress_ipv6 {
            rodata.egress_ipv6 = byte_of(egress_ipv6);
        }
        if let Some(enable_fib_lookup_src) = self.enable_fib_lookup_src {
            rodata.enable_fib_lookup_src = byte_of(enable_fib_lookup_src);
        }
        if let Some(allow_inbound_icmpx) = self.allow_inbound_icmpx {
            rodata.allow_inbound_icmpx = byte_of(allow_inbound_icmpx);
        }
        if let Some(timeout_fragment) = self.timeout_fragment {
            rodata.timeout_fragment = timeout_fragment;
        }
        if let Some(timeout_pkt_min) = self.timeout_pkt_min {
            rodata.timeout_pkt_min = timeout_pkt_min;
        }
        if let Some(timeout_pkt_default) = self.timeout_pkt_default {
            rodata.timeout_pkt_default = timeout_pkt_default;
        }
        if let Some(timeout_tcp_trans) = self.timeout_tcp_trans {
            rodata.timeout_tcp_trans = timeout_tcp_trans;
        }
        if let Some(timeout_tcp_est) = self.timeout_tcp_est {
            rodata.timeout_tcp_est = timeout_tcp_est;
        }
    }
}

/// The configuration of one interface's data plane.
pub struct InstanceConfig {
    if_index: u32,
    v4_no_snat_dests: Vec<Prefix>,
    v6_no_snat_dests: Vec<Prefix>,
    externals: Vec<External>,
    const_config: ConstConfig,
    runtime_v4_config: RuntimeConfig,
    runtime_v6_config: RuntimeConfig,
}

/// The mathematical content of an `InstanceConfig`.
pub struct InstanceConfigSpec {
    pub if_index: u32,
    pub v4_no_snat_dests: Seq<Prefix>,
    pub v6_no_snat_dests: Seq<Prefix>,
    pub externals: Seq<ExternalSpec>,
    pub const_config: ConstConfig,
    pub runtime_v4: RuntimeConfigSpec,
    pub runtime_v6: RuntimeConfigSpec,
}

impl View for InstanceConfig {
    type V = InstanceConfigSpec;

    closed spec fn view(&self) -> InstanceConfigSpec {
        InstanceConfigSpec {
            if_index: self.if_index,
            v4_no_snat_dests: self.v4_no_snat_dests@,
            v6_no_snat_dests: self.v6_no_snat_dests@,
            externals: specs_of(self.externals@),
            const_config: self.const_config,
            runtime_v4: self.runtime_v4_config@,
            runtime_v6: self.runtime_v6_config@,
        }
    }
}

impl InstanceConfigSpec {
    /// Both runtime configurations are well formed, each of its family,
    /// and every entry fits the data plane's slots.
    pub open spec fn wf(self) -> bool {
        &&& self.runtime_v4.wf()
        &&& self.runtime_v4.family == Family::V4
        &&& self.runtime_v6.wf()
        &&& self.runtime_v6.family == Family::V6
        &&& forall|i: int| 0 <= i < self.externals.len() ==> fits_slots(#[trigger] self.externals[i])
    }
}

/// Whether the interface carries an Ethernet header, or why it cannot be
/// served: an unknown encapsulation is taken for none.
pub open spec fn encap_result(encap: PacketEncap) -> Result<bool, ConfigError> {
    match encap {
        PacketEncap::Ethernet => Ok(true),
        PacketEncap::BareIp => Ok(false),
        PacketEncap::Unknown => Ok(false),
        PacketEncap::Unsupported => Err(ConfigError::UnsupportedEncapsulation),
    }
}

/// The log level of the data plane: the one configured, at most 5; none
/// configured means 0.
pub open spec fn log_level_of(level: Option<u8>) -> u8 {
    match level {
        Some(l) => if l <= 5 {
            l
        } else {
            5
        },
        None => 0,
    }
}

/// The constants of the data plane for an interface's policy.
pub open spec fn const_config_of(c: ConfigNetIf, has_eth_encap: bool) -> ConstConfig {
    ConstConfig {
        log_level: Some(log_level_of(c.bpf_log_level)),
        has_eth_encap: Some(has_eth_encap),
        ingress_ipv4: Some(c.nat44),
        egress_ipv4: Some(c.nat44),
        ingress_ipv6: Some(c.nat66),
        egress_ipv6: Some(c.nat66),
        enable_fib_lookup_src: c.bpf_fib_lookup_external,
        allow_inbound_icmpx: c.allow_inbound_icmpx,
        timeout_fragment: c.timeout_fragment,
        timeout_pkt_min: c.timeout_pkt_min,
        timeout_pkt_default: c.timeout_pkt_default,
        timeout_tcp_trans: c.timeout_tcp_trans,
        timeout_tcp_est: c.timeout_tcp_est,
    }
}

/// The entries added where the policy asks for default externals: one that
/// matches every address of each family that is enabled.
pub open spec fn default_entries(c: ConfigNetIf) -> Seq<ConfigExternal> {
    if c.default_externals {
        (if c.nat44 {
            seq![crate::config::match_any_spec(Family::V4)]
        } else {
            Seq::empty()
        }) + (if c.nat66 {
            seq![crate::config::match_any_spec(Family::V6)]
        } else {
            Seq::empty()
        })
    } else {
        Seq::empty()
    }
}

/// What normalising a list of entries gives: the normalised entries in
/// order, or the error of the first entry that is refused.
pub open spec fn externals_result(cs: Seq<ConfigExternal>, d: ConfigDefaults) -> Result<
    Seq<ExternalSpec>,
    ConfigError,
>
    decreases cs.len(),
{
    if cs.len() == 0 {
        Ok(Seq::empty())
    } else {
        match externals_result(cs.drop_last(), d) {
            Err(e) => Err(e),
            Ok(es) => match external_result(cs.last(), d) {
                Err(e) => Err(e),
                Ok(x) => Ok(es.push(x)),
            },
        }
    }
}

/// The test for a network of family `f`.
pub open spec fn of_family(f: Family) -> spec_fn(IpNetwork) -> bool {
    |n: IpNetwork| n.family == f
}

/// The prefix of a network.
pub open spec fn prefix_of() -> spec_fn(IpNetwork) -> Prefix {
    |n: IpNetwork| n.spec_prefix()
}

/// The prefixes of the networks of family `f`, in order.
pub open spec fn dests_of(f: Family, nets: Seq<IpNetwork>) -> Seq<Prefix> {
    nets.filter(of_family(f)).map_values(prefix_of())
}

/// The host prefixes of IPv4 addresses.
pub open spec fn v4_hosts(addrs: Seq<u32>) -> Seq<Prefix> {
    Seq::new(addrs.len(), |i: int| (v4_bits(addrs[i]), 32u8))
}

/// The host prefixes of IPv6 addresses.
pub open spec fn v6_hosts(addrs: Seq<u128>) -> Seq<Prefix> {
    Seq::new(addrs.len(), |i: int| (addrs[i], 128u8))
}

/// What validating an interface's policy gives. An unsupported
/// encapsulation is refused first; then the entries of the policy, with the
/// default entries after them, are normalised; then the runtime
/// configuration of each family is built from the no-snat destinations of
/// the family, the entries, and the interface's addresses of the family.
pub open spec fn instance_result(
    if_index: u32,
    encap: PacketEncap,
    c: ConfigNetIf,
    d: ConfigDefaults,
    addresses: IfAddresses,
) -> Result<InstanceConfigSpec, ConfigError> {
    match encap_result(encap) {
        Err(e) => Err(e),
        Ok(eth) => match externals_result(c.externals@ + default_entries(c), d) {
            Err(e) => Err(e),
            Ok(es) => {
                let v4_dests = dests_of(Family::V4, c.no_snat_dests@);
                let v6_dests = dests_of(Family::V6, c.no_snat_dests@);
                Ok(
                    InstanceConfigSpec {
                        if_index,
                        v4_no_snat_dests: v4_dests,
                        v6_no_snat_dests: v6_dests,
                        externals: es,
                        const_config: const_config_of(c, eth),
                        runtime_v4: built(Family::V4, v4_dests, es, v4_hosts(addresses.ipv4@)),
                        runtime_v6: built(Family::V6, v6_dests, es, v6_hosts(addresses.ipv6@)),
                    },
                )
            },
        },
    }
}

/// Once a list of entries has a refused entry, every longer list has the
/// same error.
pub proof fn lemma_externals_error_sticks(cs: Seq<ConfigExternal>, d: ConfigDefaults, n: int)
    requires
        0 <= n <= cs.len(),
        externals_result(cs.take(n), d) is Err,
    ensures
        externals_result(cs, d) == externals_result(cs.take(n), d),
    decreases cs.len() - n,
{
    if n == cs.len() {
        assert(cs.take(n) =~= cs);
    } else {
        assert(cs.take(n + 1).drop_last() =~= cs.take(n));
        lemma_externals_error_sticks(cs, d, n + 1);
    }
}

/// Normalises the entries of `own` and then those of `extra`.
fn normalize_all(own: &[ConfigExternal], extra: &[ConfigExternal], defaults: &ConfigDefaults) -> (res:
    Result<Vec<External>, ConfigError>)
    ensures
        match res {
            Ok(out) => externals_result(own@ + extra@, *defaults) == Ok::<
                Seq<ExternalSpec>,
                ConfigError,
            >(specs_of(out@)) && forall|i: int|
                0 <= i < out@.len() ==> fits_slots(#[trigger] out@[i]@),
            Err(e) => externals_result(own@ + extra@, *defaults) == Err::<
                Seq<ExternalSpec>,
                ConfigError,
            >(e),
        },
{
    let ghost all = own@ + extra@;
    let mut out: Vec<External> = Vec::new();
    let mut i: usize = 0;
    proof {
        assert(all.take(0) =~= Seq::<ConfigExternal>::empty());
        assert(specs_of(out@) =~= Seq::<ExternalSpec>::empty());
    }
    while i < own.len()
        invariant
            0 <= i <= own.len(),
            all == own@ + extra@,
            externals_result(all.take(i as int), *defaults) == Ok::<Seq<ExternalSpec>, ConfigError>(
                specs_of(out@),
            ),
            forall|k: int| 0 <= k < out@.len() ==> fits_slots(#[trigger] out@[k]@),
        decreases own.len() - i,
    {
        let c = &own[i];
        proof {
            assert(all[i as int] == *c);
            assert(all.take(i as int + 1).drop_last() =~= all.take(i as int));
            assert(all.take(i as int + 1).last() == *c);
        }
        match External::try_from(c, defaults) {
            Ok(e) => {
                proof {
                    assert(specs_of(out@.push(e)) =~= specs_of(out@).push(e@));
                }
                out.push(e);
            },
            Err(err) => {
                proof {
                    lemma_externals_error_sticks(all, *defaults, i as int + 1);
                }
                return Err(err);
            },
        }
        i += 1;
    }
    let mut j: usize = 0;
    while j < extra.len()
        invariant
            0 <= j <= extra.len(),
            all == own@ + extra@,
            externals_result(all.take(own@.len() + j), *defaults) == Ok::<
                Seq<ExternalSpec>,
                ConfigError,
            >(specs_of(out@)),
            forall|k: int| 0 <= k < out@.len() ==> fits_slots(#[trigger] out@[k]@),
        decreases extra.len() - j,
    {
        let c = &extra[j];
        let ghost n = own@.len() + j;
        proof {
            assert(all[n] == *c);
            assert(all.take(n + 1).drop_last() =~= all.take(n));
            assert(all.take(n + 1).last() == *c);
        }
        match External::try_from(c, defaults) {
            Ok(e) => {
                proof {
                    assert(specs_of(out@.push(e)) =~= specs_of(out@).push(e@));
                }
                out.push(e);
            },
            Err(err) => {
                proof {
                    lemma_externals_error_sticks(all, *defaults, n + 1);
                }
                return Err(err);
            },
        }
        j += 1;
    }
    proof {
        assert(all.take(own@.len() + j) =~= all);
    }
    Ok(out)
}

/// The prefixes of the networks of family `family`, in order.
fn family_dests(family: Family, nets: &[IpNetwork]) -> (out: Vec<Prefix>)
    ensures
        out@ == dests_of(family, nets@),
{
    let mut out: Vec<Prefix> = Vec::new();
    let mut i: usize = 0;
    let ghost pred = of_family(family);
    proof {
        reveal(Seq::filter);
        assert(nets@.take(0) =~= Seq::<IpNetwork>::empty());
        assert(nets@.take(0).filter(pred) =~= Seq::<IpNetwork>::empty());
        assert(out@ =~= nets@.take(0).filter(pred).map_values(prefix_of()));
    }
    while i < nets.len()
        invariant
            0 <= i <= nets.len(),
            pred == of_family(family),
            out@ == nets@.take(i as int).filter(pred).map_values(prefix_of()),
        decreases nets.len() - i,
    {
        let n = nets[i];
        let same_family = match (n.family, family) {
            (Family::V4, Family::V4) | (Family::V6, Family::V6) => true,
            _ => false,
        };
        proof {
            assert(nets@.take(i as int + 1) =~= nets@.take(i as int).push(n));
            nets@.take(i as int).lemma_filter_push(n, pred);
            if same_family {
                assert(nets@.take(i as int).filter(pred).push(n).map_values(prefix_of())
                    =~= nets@.take(i as int).filter(pred).map_values(prefix_of()).push(
                    n.spec_prefix(),
                ));
            }
        }
        if same_family {
            out.push(n.prefix());
        }
        i += 1;
    }
    proof {
        assert(nets@.take(i as int) =~= nets@);
    }
    out
}

/// The host prefixes of IPv4 addresses.
fn v4_host_prefixes(addrs: &[u32]) -> (out: Vec<Prefix>)
    ensures
        out@ == v4_hosts(addrs@),
{
    let mut out: Vec<Prefix> = Vec::new();
    let mut i: usize = 0;
    while i < addrs.len()
        invariant
            0 <= i <= addrs.len(),
            out@ == v4_hosts(addrs@.take(i as int)),
        decreases addrs.len() - i,
    {
        let a = addrs[i];
        proof {
            assert(out@.push((v4_bits(a), 32u8)) =~= v4_hosts(addrs@.take(i as int + 1)));
        }
        out.push(((a as u128) << 96, 32));
        i += 1;
    }
    proof {
        assert(addrs@.take(i as int) =~= addrs@);
    }
    out
}

/// The host prefixes of IPv6 addresses.
fn v6_host_prefixes(addrs: &[u128]) -> (out: Vec<Prefix>)
    ensures
        out@ == v6_hosts(addrs@),
{
    let mut out: Vec<Prefix> = Vec::new();
    let mut i: usize = 0;
    while i < addrs.len()
        invariant
            0 <= i <= addrs.len(),
            out@ == v6_hosts(addrs@.take(i as int)),
        decreases addrs.len() - i,
    {
        let a = addrs[i];
        proof {
            assert(out@.push((a, 128u8)) =~= v6_hosts(addrs@.take(i as int + 1)));
        }
        out.push((a, 128));
        i += 1;
    }
    proof {
        assert(addrs@.take(i as int) =~= addrs@);
    }
    out
}

/// The constants of the data plane for an interface's policy.
fn const_config_for(if_config: &ConfigNetIf, has_eth_encap: bool) -> (c: ConstConfig)
    ensures
        c == const_config_of(*if_config, has_eth_encap),
{
    let log_level = match if_config.bpf_log_level {
        Some(l) => if l <= 5 {
            l
        } else {
            5
        },
        None => 0,
    };
    ConstConfig {
        log_level: Some(log_level),
        has_eth_encap: Some(has_eth_encap),
        ingress_ipv4: Some(if_config.nat44),
        egress_ipv4: Some(if_config.nat44),
        ingress_ipv6: Some(if_config.nat66),
        egress_ipv6: Some(if_config.nat66),
        enable_fib_lookup_src: if_config.bpf_fib_lookup_external,
        allow_inbound_icmpx: if_config.allow_inbound_icmpx,
        timeout_fragment: if_config.timeout_fragment,
        timeout_pkt_min: if_config.timeout_pkt_min,
        timeout_pkt_default: if_config.timeout_pkt_default,
        timeout_tcp_trans: if_config.timeout_tcp_trans,
        timeout_tcp_est: if_config.timeout_tcp_est,
    }
}

/// The entries added where the policy asks for default externals.
fn default_externals_for(if_config: &ConfigNetIf) -> (out: Vec<ConfigExternal>)
    ensures
        out@ == default_entries(*if_config),
{
    let mut out: Vec<ConfigExternal> = Vec::new();
    if if_config.default_externals {
        if if_config.nat44 {
            out.push(ConfigExternal::match_any_ipv4());
        }
        if if_config.nat66 {
            out.push(ConfigExternal::match_any_ipv6());
        }
    }
    proof {
        assert(out@ =~= default_entries(*if_config));
    }
    out
}

impl InstanceConfig {
    /// Validates the policy of an interface and builds its configuration.
    pub fn try_from(
        if_index: u32,
        if_encap: PacketEncap,
        if_config: &ConfigNetIf,
        defaults: &ConfigDefaults,
        addresses: &IfAddresses,
    ) -> (res: Result<InstanceConfig, ConfigError>)
        ensures
            match res {
                Ok(c) => instance_result(if_index, if_encap, *if_config, *defaults, *addresses)
                    == Ok::<InstanceConfigSpec, ConfigError>(c@) && c@.wf(),
                Err(e) => instance_result(if_index, if_encap, *if_config, *defaults, *addresses)
                    == Err::<InstanceConfigSpec, ConfigError>(e),
            },
    {
        let has_eth_encap = match if_encap {
            PacketEncap::Ethernet => true,
            PacketEncap::BareIp => false,
            PacketEncap::Unsupported => {
                return Err(ConfigError::UnsupportedEncapsulation);
            },
            PacketEncap::Unknown => false,
        };
        let const_config = const_config_for(if_config, has_eth_encap);
        let default_externals = default_externals_for(if_config);
        let externals = match normalize_all(
            if_config.externals.as_slice(),
            default_externals.as_slice(),
            defaults,
        ) {
            Ok(externals) => externals,
            Err(e) => {
                return Err(e);
            },
        };
        let v4_no_snat_dests = family_dests(Family::V4, if_config.no_snat_dests.as_slice());
        let v4_hosts = v4_host_prefixes(addresses.ipv4.as_slice());
        let runtime_v4_config = RuntimeConfig::from(
            Family::V4,
            v4_no_snat_dests.as_slice(),
            externals.as_slice(),
            v4_hosts.as_slice(),
        );
        let v6_no_snat_dests = family_dests(Family::V6, if_config.no_snat_dests.as_slice());
        let v6_hosts = v6_host_prefixes(addresses.ipv6.as_slice());
        let runtime_v6_config = RuntimeConfig::from(
            Family::V6,
            v6_no_snat_dests.as_slice(),
            externals.as_slice(),
            v6_hosts.as_slice(),
        );
        Ok(
            InstanceConfig {
                if_index,
                v4_no_snat_dests,
                v6_no_snat_dests,
                externals,
                const_config,
                runtime_v4_config,
                runtime_v6_config,
            },
        )
    }

    /// The index of the interface.
    pub fn if_index(&self) -> (i: u32)
        ensures
            i == self@.if_index,
    {
        self.if_index
    }

    /// The constants to apply before the data plane is loaded.
    pub fn const_config(&self) -> (c: ConstConfig)
        ensures
            c == self@.const_config,
    {
        self.const_config
    }

    /// The runtime configuration for IPv4.
    pub fn runtime_v4_config(&self) -> (c: &RuntimeConfig)
        ensures
            c@ == self@.runtime_v4,
    {
        &self.runtime_v4_config
    }

    /// The runtime configuration for IPv6.
    pub fn runtime_v6_config(&self) -> (c: &RuntimeConfig)
        ensures
            c@ == self@.runtime_v6,
    {
        &self.runtime_v6_config
    }

    /// Whether every entry names a fixed address, so that the interface's
    /// addresses need not be watched.
    pub fn is_static(&self) -> (r: bool)
        ensures
            r == forall|i: int|
                0 <= i < self@.externals.len() ==> (#[trigger] self@.externals[i]).address is Static,
    {
        let mut i: usize = 0;
        while i < self.externals.len()
            invariant
                0 <= i <= self.externals.len(),
                forall|k: int|
                    0 <= k < i ==> (#[trigger] specs_of(self.externals@)[k]).address is Static,
            decreases self.externals.len() - i,
        {
            match self.externals[i].address {
                AddressOrMatcher::Static { .. } => {},
                AddressOrMatcher::Matcher { .. } => {
                    proof {
                        assert(!(specs_of(self.externals@)[i as int].address is Static));
                    }
                    return false;
                },
            }
            i += 1;
        }
        true
    }

    /// The hairpinned IPv4 destinations, the primary external address
    /// first.
    pub fn v4_hairpin_dests(&self) -> (res: Vec<Prefix>)
        ensures
            res@ == crate::runtime::hairpin_list(self@.runtime_v4),
    {
        self.runtime_v4_config.hairpin_dests()
    }

    /// The hairpinned IPv6 destinations, the primary external address
    /// first.
    pub fn v6_hairpin_dests(&self) -> (res: Vec<Prefix>)
        ensures
            res@ == crate::runtime::hairpin_list(self@.runtime_v6),
    {
        self.runtime_v6_config.hairpin_dests()
    }

    /// The plans of the first reconcile after load, for IPv4 and for IPv6:
    /// each from empty tables.
    pub fn load(&self) -> (plans: (Plan, Plan))
        requires
            self@.wf(),
        ensures
            is_diff(plans.0.dest_changes@, Map::empty(), self@.runtime_v4.dest_config),
            is_diff(plans.0.external_changes@, Map::empty(), self@.runtime_v4.external_config),
            plans.0.external_addr == Some(self@.runtime_v4.external_addr),
            is_diff(plans.1.dest_changes@, Map::empty(), self@.runtime_v6.dest_config),
            is_diff(plans.1.external_changes@, Map::empty(), self@.runtime_v6.external_config),
            plans.1.external_addr == Some(self@.runtime_v6.external_addr),
    {
        (self.runtime_v4_config.apply(None), self.runtime_v6_config.apply(None))
    }

    /// The IPv4 runtime configuration for a new set of addresses, with the
    /// plan of the reconcile that leads to it from the current one.
    pub fn reconfigure_v4_addresses(&self, addresses: &[u32]) -> (res: (RuntimeConfig, Plan))
        requires
            self@.wf(),
        ensures
            res.0@ == built(
                Family::V4,
                self@.v4_no_snat_dests,
                self@.externals,
                v4_hosts(addresses@),
            ),
            res.0@.wf(),
            is_diff(res.1.dest_changes@, self@.runtime_v4.dest_config, res.0@.dest_config),
            is_diff(
                res.1.external_changes@,
                self@.runtime_v4.external_config,
                res.0@.external_config,
            ),
            res.1.external_addr == (if self@.runtime_v4.external_addr != res.0@.external_addr {
                Some(res.0@.external_addr)
            } else {
                None
            }),
    {
        let hosts = v4_host_prefixes(addresses);
        proof {
            assert forall|i: int| 0 <= i < self.externals@.len() implies fits_slots(
                #[trigger] self.externals@[i]@,
            ) by {
                assert(self@.externals[i] == self.externals@[i]@);
            }
        }
        let new = RuntimeConfig::from(
            Family::V4,
            self.v4_no_snat_dests.as_slice(),
            self.externals.as_slice(),
            hosts.as_slice(),
        );
        let plan = new.apply(Some(&self.runtime_v4_config));
        (new, plan)
    }

    /// The IPv6 runtime configuration for a new set of addresses, with the
    /// plan of the reconcile that leads to it from the current one.
    pub fn reconfigure_v6_addresses(&self, addresses: &[u128]) -> (res: (RuntimeConfig, Plan))
        requires
            self@.wf(),
        ensures
            res.0@ == built(
                Family::V6,
                self@.v6_no_snat_dests,
                self@.externals,
                v6_hosts(addresses@),
            ),
            res.0@.wf(),
            is_diff(res.1.dest_changes@, self@.runtime_v6.dest_config, res.0@.dest_config),
            is_diff(
                res.1.external_changes@,
                self@.runtime_v6.external_config,
                res.0@.external_config,
            ),
            res.1.external_addr == (if self@.runtime_v6.external_addr != res.0@.external_addr {
                Some(res.0@.external_addr)
            } else {
                None
            }),
    {
        let hosts = v6_host_prefixes(addresses);
        proof {
            assert forall|i: int| 0 <= i < self.externals@.len() implies fits_slots(
                #[trigger] self.externals@[i]@,
            ) by {
                assert(self@.externals[i] == self.externals@[i]@);
            }
        }
        let new = RuntimeConfig::from(
            Family::V6,
            self.v6_no_snat_dests.as_slice(),
            self.externals.as_slice(),
            hosts.as_slice(),
        );
        let plan = new.apply(Some(&self.runtime_v6_config));
        (new, plan)
    }

    /// Takes an IPv4 runtime configuration as the current one, once the
    /// reconcile that leads to it has succeeded.
    pub fn install_v4(&mut self, new: RuntimeConfig)
        requires
            old(self)@.wf(),
            new@.wf(),
            new@.family == Family::V4,
        ensures
            final(self)@ == (InstanceConfigSpec { runtime_v4: new@, ..old(self)@ }),
            final(self)@.wf(),
    {
        self.runtime_v4_config = new;
    }

    /// Takes an IPv6 runtime configuration as the current one, once the
    /// reconcile that leads to it has succeeded.
    pub fn install_v6(&mut self, new: RuntimeConfig)
        requires
            old(self)@.wf(),
            new@.wf(),
            new@.family == Family::V6,
        ensures
            final(self)@ == (InstanceConfigSpec { runtime_v6: new@, ..old(self)@ }),
            final(self)@.wf(),
    {
        self.runtime_v6_config = new;
    }
}

} // verus!
