use einat::config::{AddressOrMatcher, ConfigDefaults, ConfigExternal};
use einat::engine::{Reconciler, Step};
use einat::error::ConfigError;
use einat::instance::{
    ConfigNetIf, ConstConfig, IfAddresses, InstanceConfig, PacketEncap, RoData,
};
use einat::ports::{PortRange, ProtoRange};
use einat::prefix::{Family, IpAddress, IpNetwork, Prefix};
use einat::reconcile::Action;
use einat::tables::DestConfig;

fn ip(a: u8, b: u8, c: u8, d: u8) -> u32 {
    u32::from_be_bytes([a, b, c, d])
}

fn host4(a: u8, b: u8, c: u8, d: u8) -> Prefix {
    ((ip(a, b, c, d) as u128) << 96, 32)
}

fn p(start: u16, end: u16) -> ProtoRange {
    ProtoRange { inner: PortRange { start, end } }
}

fn defaults() -> ConfigDefaults {
    ConfigDefaults {
        tcp_ranges: vec![p(20000, 29999)],
        udp_ranges: vec![p(20000, 29999)],
        icmp_ranges: vec![p(0, 65535)],
        icmp_in_ranges: vec![p(0, 9999)],
        icmp_out_ranges: vec![p(1000, 65535)],
    }
}

fn policy() -> ConfigNetIf {
    ConfigNetIf {
        nat44: true,
        nat66: false,
        bpf_log_level: None,
        bpf_fib_lookup_external: None,
        allow_inbound_icmpx: None,
        timeout_fragment: None,
        timeout_pkt_min: None,
        timeout_pkt_default: None,
        timeout_tcp_trans: None,
        timeout_tcp_est: None,
        default_externals: true,
        externals: vec![],
        no_snat_dests: vec![],
    }
}

fn fixed(address: IpAddress) -> ConfigExternal {
    ConfigExternal {
        address: AddressOrMatcher::Static { address },
        no_snat: false,
        no_hairpin: false,
        tcp_ranges: None,
        udp_ranges: None,
        icmp_ranges: None,
        icmp_in_ranges: None,
        icmp_out_ranges: None,
    }
}

fn addresses(ipv4: Vec<u32>, ipv6: Vec<u128>) -> IfAddresses {
    IfAddresses { ipv4, ipv6 }
}

fn rodata() -> RoData {
    RoData {
        log_level: 9,
        has_eth_encap: 9,
        ingress_ipv4: 9,
        egress_ipv4: 9,
        ingress_ipv6: 9,
        egress_ipv6: 9,
        enable_fib_lookup_src: 9,
        allow_inbound_icmpx: 9,
        timeout_fragment: 90,
        timeout_pkt_min: 91,
        timeout_pkt_default: 92,
        timeout_tcp_trans: 93,
        timeout_tcp_est: 94,
    }
}

#[test]
fn unsupported_encapsulation_is_refused() {
    let res = InstanceConfig::try_from(
        2,
        PacketEncap::Unsupported,
        &policy(),
        &defaults(),
        &addresses(vec![], vec![]),
    );
    assert_eq!(res.err(), Some(ConfigError::UnsupportedEncapsulation));
}

#[test]
fn encapsulation_sets_the_ethernet_switch() {
    for (encap, eth) in [
        (PacketEncap::Ethernet, true),
        (PacketEncap::BareIp, false),
        (PacketEncap::Unknown, false),
    ] {
        let c = InstanceConfig::try_from(7, encap, &policy(), &defaults(), &addresses(vec![], vec![]))
            .unwrap();
        assert_eq!(c.if_index(), 7);
        assert_eq!(c.const_config().has_eth_encap, Some(eth));
    }
}

#[test]
fn const_config_follows_the_policy() {
    let mut policy = policy();
    policy.nat66 = true;
    policy.bpf_log_level = Some(200);
    policy.allow_inbound_icmpx = Some(false);
    policy.timeout_pkt_default = Some(300);
    let c = InstanceConfig::try_from(
        1,
        PacketEncap::Ethernet,
        &policy,
        &defaults(),
        &addresses(vec![], vec![]),
    )
    .unwrap()
    .const_config();
    assert_eq!(
        c,
        ConstConfig {
            log_level: Some(5),
            has_eth_encap: Some(true),
            ingress_ipv4: Some(true),
            egress_ipv4: Some(true),
            ingress_ipv6: Some(true),
            egress_ipv6: Some(true),
            enable_fib_lookup_src: None,
            allow_inbound_icmpx: Some(false),
            timeout_fragment: None,
            timeout_pkt_min: None,
            timeout_pkt_default: Some(300),
            timeout_tcp_trans: None,
            timeout_tcp_est: None,
        }
    );
    let mut ro = rodata();
    c.apply(&mut ro);
    assert_eq!(
        ro,
        RoData {
            log_level: 5,
            has_eth_encap: 1,
            ingress_ipv4: 1,
            egress_ipv4: 1,
            ingress_ipv6: 1,
            egress_ipv6: 1,
            enable_fib_lookup_src: 9,
            allow_inbound_icmpx: 0,
            timeout_fragment: 90,
            timeout_pkt_min: 91,
            timeout_pkt_default: 300,
            timeout_tcp_trans: 93,
            timeout_tcp_est: 94,
        }
    );
    let mut policy2 = self::policy();
    policy2.bpf_log_level = Some(3);
    policy2.nat44 = false;
    let c = InstanceConfig::try_from(
        1,
        PacketEncap::BareIp,
        &policy2,
        &defaults(),
        &addresses(vec![], vec![]),
    )
    .unwrap()
    .const_config();
    assert_eq!(c.log_level, Some(3));
    assert_eq!(c.ingress_ipv4, Some(false));
    assert_eq!(c.egress_ipv6, Some(false));
}

#[test]
fn every_timeout_goes_to_its_own_constant() {
    let c = ConstConfig {
        log_level: None,
        has_eth_encap: None,
        ingress_ipv4: None,
        egress_ipv4: None,
        ingress_ipv6: None,
        egress_ipv6: None,
        enable_fib_lookup_src: Some(true),
        allow_inbound_icmpx: None,
        timeout_fragment: Some(1),
        timeout_pkt_min: Some(2),
        timeout_pkt_default: Some(3),
        timeout_tcp_trans: Some(4),
        timeout_tcp_est: Some(5),
    };
    let mut ro = rodata();
    c.apply(&mut ro);
    assert_eq!(ro.timeout_fragment, 1);
    assert_eq!(ro.timeout_pkt_min, 2);
    assert_eq!(ro.timeout_pkt_default, 3);
    assert_eq!(ro.timeout_tcp_trans, 4);
    assert_eq!(ro.timeout_tcp_est, 5);
    assert_eq!(ro.enable_fib_lookup_src, 1);
    assert_eq!(ro.log_level, 9);
    assert_eq!(ro.allow_inbound_icmpx, 9);
}

#[test]
fn default_externals_match_every_address_of_enabled_families() {
    let mut policy = policy();
    policy.nat66 = true;
    policy.no_snat_dests =
        vec![IpNetwork::v4(ip(192, 168, 1, 1), 16), IpNetwork::v6(0xfd00u128 << 112, 8)];
    let c = InstanceConfig::try_from(
        3,
        PacketEncap::Ethernet,
        &policy,
        &defaults(),
        &addresses(vec![ip(10, 0, 0, 9), ip(10, 0, 0, 5)], vec![7, 0]),
    )
    .unwrap();
    assert!(!c.is_static());
    let v4 = c.runtime_v4_config();
    assert_eq!(v4.family(), Family::V4);
    assert_eq!(v4.external_addr(), host4(10, 0, 0, 5));
    let keys: Vec<Prefix> = v4.dest_listing().into_iter().map(|(k, _)| k).collect();
    assert_eq!(
        keys,
        vec![host4(10, 0, 0, 5), host4(10, 0, 0, 9), ((ip(192, 168, 0, 0) as u128) << 96, 16)]
    );
    let v6 = c.runtime_v6_config();
    assert_eq!(v6.family(), Family::V6);
    assert_eq!(v6.external_addr(), (7, 128));
    let keys: Vec<Prefix> = v6.dest_listing().into_iter().map(|(k, _)| k).collect();
    assert_eq!(keys, vec![(7, 128), (0xfdu128 << 120, 8)]);
    assert_eq!(c.v4_hairpin_dests(), vec![host4(10, 0, 0, 5), host4(10, 0, 0, 9)]);
    assert_eq!(c.v6_hairpin_dests(), vec![(7, 128)]);
}

#[test]
fn without_default_externals_only_the_policy_counts() {
    let mut policy = policy();
    policy.default_externals = false;
    policy.externals = vec![fixed(IpAddress::v4(ip(10, 0, 0, 1)))];
    let c = InstanceConfig::try_from(
        3,
        PacketEncap::Ethernet,
        &policy,
        &defaults(),
        &addresses(vec![ip(10, 0, 0, 9)], vec![]),
    )
    .unwrap();
    assert!(c.is_static());
    assert_eq!(c.runtime_v4_config().external_addr(), host4(10, 0, 0, 1));
    assert_eq!(c.runtime_v4_config().external_get(host4(10, 0, 0, 9)), None);
    assert_eq!(c.runtime_v6_config().external_addr(), (0, 128));
}

#[test]
fn first_refused_entry_gives_the_error() {
    let mut zero = fixed(IpAddress::v4(ip(10, 0, 0, 1)));
    zero.tcp_ranges = Some(vec![p(0, 1)]);
    let mut many = fixed(IpAddress::v4(ip(10, 0, 0, 2)));
    many.udp_ranges = Some(vec![p(1, 1), p(3, 3), p(5, 5), p(7, 7), p(9, 9)]);
    let mut policy = policy();
    policy.externals = vec![fixed(IpAddress::v4(ip(10, 0, 0, 3))), many.clone(), zero.clone()];
    let res = InstanceConfig::try_from(
        3,
        PacketEncap::Ethernet,
        &policy,
        &defaults(),
        &addresses(vec![], vec![]),
    );
    assert_eq!(res.err(), Some(ConfigError::TooManyRanges));
    policy.externals = vec![zero, many];
    let res = InstanceConfig::try_from(
        3,
        PacketEncap::Unknown,
        &policy,
        &defaults(),
        &addresses(vec![], vec![]),
    );
    assert_eq!(res.err(), Some(ConfigError::ZeroNotAllowed));
    let res = InstanceConfig::try_from(
        3,
        PacketEncap::Unsupported,
        &policy,
        &defaults(),
        &addresses(vec![], vec![]),
    );
    assert_eq!(res.err(), Some(ConfigError::UnsupportedEncapsulation));
    let mut bad_defaults = defaults();
    bad_defaults.icmp_in_ranges = vec![p(0, 65535)];
    bad_defaults.icmp_ranges = vec![p(1, 65535)];
    let res = InstanceConfig::try_from(
        3,
        PacketEncap::Ethernet,
        &self::policy(),
        &bad_defaults,
        &addresses(vec![], vec![]),
    );
    assert_eq!(res.err(), Some(ConfigError::IcmpContainmentViolation));
}

#[test]
fn load_then_reconfigure_addresses() {
    let mut policy = policy();
    policy.nat66 = true;
    let mut c = InstanceConfig::try_from(
        3,
        PacketEncap::Ethernet,
        &policy,
        &defaults(),
        &addresses(vec![ip(10, 0, 0, 5), ip(10, 0, 0, 9)], vec![]),
    )
    .unwrap();
    let (v4, v6) = c.load();
    assert_eq!(v4.actions().len(), 5);
    assert_eq!(v6.actions(), vec![Action::WriteExternalAddr((0, 128))]);

    let (new, plan) = c.reconfigure_v4_addresses(&[ip(10, 0, 0, 9)]);
    assert_eq!(new.external_addr(), host4(10, 0, 0, 9));
    assert_eq!(
        plan.actions(),
        vec![
            Action::DeleteDest(host4(10, 0, 0, 5)),
            Action::RaiseFlag,
            Action::Sleep,
            Action::DeleteExternal(host4(10, 0, 0, 5)),
            Action::PurgeFlows(host4(10, 0, 0, 5)),
            Action::LowerFlag,
            Action::WriteExternalAddr(host4(10, 0, 0, 9)),
        ]
    );
    let mut engine = Reconciler::new(&plan);
    let mut steps = 0;
    while let Step::Do(_) = engine.next(true) {
        steps += 1;
    }
    assert_eq!(steps, 7);
    c.install_v4(new);
    assert_eq!(c.runtime_v4_config().external_addr(), host4(10, 0, 0, 9));
    assert_eq!(c.v4_hairpin_dests(), vec![host4(10, 0, 0, 9)]);
    let (same, plan) = c.reconfigure_v4_addresses(&[ip(10, 0, 0, 9)]);
    assert!(plan.actions().is_empty());
    c.install_v4(same);

    let (new6, plan6) = c.reconfigure_v6_addresses(&[1u128 << 127, 3]);
    assert_eq!(new6.external_addr(), (3, 128));
    assert_eq!(plan6.actions().len(), 2 + 2 + 1);
    c.install_v6(new6);
    assert_eq!(
        c.runtime_v6_config().dest_get((1u128 << 127, 128)),
        Some(DestConfig { no_snat: false, hairpin: true })
    );
    assert_eq!(c.v6_hairpin_dests(), vec![(3, 128), (1u128 << 127, 128)]);
}
