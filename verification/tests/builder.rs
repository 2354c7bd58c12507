use einat::config::{AddressOrMatcher, ConfigDefaults, ConfigExternal};
use einat::error::ConfigError;
use einat::external::External;
use einat::ports::{PortRange, ProtoRange, RawPortRange, MAX_PORT_RANGES};
use einat::prefix::{mask_of, Family, IpAddress, IpNetwork, Prefix};
use einat::runtime::{canonical, hairpin_keys, host_prefix, matching_addresses, RuntimeConfig};
use einat::tables::{DestConfig, ExternalConfig};

fn ip(a: u8, b: u8, c: u8, d: u8) -> u32 {
    u32::from_be_bytes([a, b, c, d])
}

fn host4(a: u8, b: u8, c: u8, d: u8) -> Prefix {
    ((ip(a, b, c, d) as u128) << 96, 32)
}

fn net4(a: u8, b: u8, c: u8, d: u8, len: u8) -> Prefix {
    IpNetwork::v4(ip(a, b, c, d), len).prefix()
}

fn p(start: u16, end: u16) -> ProtoRange {
    ProtoRange { inner: PortRange { start, end } }
}

fn raw(start: u16, end: u16) -> RawPortRange {
    RawPortRange { start_port: start, end_port: end }
}

fn defaults() -> ConfigDefaults {
    ConfigDefaults {
        tcp_ranges: vec![p(20000, 29999)],
        udp_ranges: vec![p(20000, 29999)],
        icmp_ranges: vec![p(0, 65535)],
        icmp_in_ranges: vec![p(0, 9999)],
        icmp_out_ranges: vec![p(1000, 65535)],
    }
}

fn entry(address: AddressOrMatcher) -> ConfigExternal {
    ConfigExternal {
        address,
        no_snat: false,
        no_hairpin: false,
        tcp_ranges: None,
        udp_ranges: None,
        icmp_ranges: None,
        icmp_in_ranges: None,
        icmp_out_ranges: None,
    }
}

fn fixed(a: u8, b: u8, c: u8, d: u8) -> AddressOrMatcher {
    AddressOrMatcher::Static { address: IpAddress::v4(ip(a, b, c, d)) }
}

fn matcher(a: u8, b: u8, c: u8, d: u8, len: u8) -> AddressOrMatcher {
    AddressOrMatcher::Matcher { match_address: IpNetwork::v4(ip(a, b, c, d), len) }
}

fn external(c: ConfigExternal) -> External {
    External::try_from(&c, &defaults()).unwrap()
}

fn dest_keys(c: &RuntimeConfig) -> Vec<Prefix> {
    c.dest_listing().into_iter().map(|(k, _)| k).collect()
}

fn external_keys(c: &RuntimeConfig) -> Vec<Prefix> {
    c.external_listing().into_iter().map(|(k, _)| k).collect()
}

#[test]
fn prefix_masks_and_networks() {
    assert_eq!(mask_of(0), 0);
    assert_eq!(mask_of(1), 1u128 << 127);
    assert_eq!(mask_of(24), 0xffff_ff00u128 << 96);
    assert_eq!(mask_of(32), 0xffff_ffffu128 << 96);
    assert_eq!(mask_of(128), u128::MAX);
    assert_eq!(mask_of(200), u128::MAX);
    assert_eq!(Family::V4.width(), 32);
    assert_eq!(Family::V6.width(), 128);
    assert_eq!(Family::V4.unspecified(), (0, 32));
    assert_eq!(Family::V6.unspecified(), (0, 128));
    let n = IpNetwork::v4(ip(10, 0, 0, 5), 24);
    assert_eq!(n.prefix(), ((ip(10, 0, 0, 0) as u128) << 96, 24));
    assert_eq!(IpNetwork::v4(ip(10, 0, 0, 5), 40).prefix(), host4(10, 0, 0, 5));
    assert_eq!(IpNetwork::v6(u128::MAX, 64).prefix(), (0xffff_ffff_ffff_ffffu128 << 64, 64));
    assert!(n.contains(&IpAddress::v4(ip(10, 0, 0, 200))));
    assert!(!n.contains(&IpAddress::v4(ip(10, 0, 1, 0))));
    assert!(!n.contains(&IpAddress::v6((ip(10, 0, 0, 1) as u128) << 96)));
    assert!(IpAddress::v4(0).is_unspecified());
    assert!(!IpAddress::v6(1).is_unspecified());
    assert_eq!(IpAddress::v4(ip(1, 2, 3, 4)).host_prefix(), host4(1, 2, 3, 4));
    assert_eq!(IpAddress::v6(77).host_prefix(), (77, 128));
    assert_eq!(canonical(Family::V4, (u128::MAX, 8)), (0xffu128 << 120, 8));
    assert_eq!(canonical(Family::V4, (u128::MAX, 99)), (0xffff_ffffu128 << 96, 32));
    assert_eq!(host_prefix(Family::V4, (u128::MAX, 3)), (0xffff_ffffu128 << 96, 32));
    assert_eq!(host_prefix(Family::V6, (5, 0)), (5, 128));
}

#[test]
fn external_takes_defaults_and_own_lists() {
    let mut c = entry(fixed(10, 0, 0, 1));
    c.tcp_ranges = Some(vec![p(1000, 2000), p(1500, 3000)]);
    c.no_hairpin = true;
    let e = external(c);
    assert_eq!(e.tcp_ranges.0, vec![PortRange { start: 1000, end: 3000 }]);
    assert_eq!(e.udp_ranges.0, vec![PortRange { start: 20000, end: 29999 }]);
    assert_eq!(e.icmp_ranges.0, vec![PortRange { start: 0, end: 65535 }]);
    assert_eq!(e.icmp_in_ranges.0, vec![PortRange { start: 0, end: 9999 }]);
    assert_eq!(e.icmp_out_ranges.0, vec![PortRange { start: 1000, end: 65535 }]);
    assert_eq!(e.address, fixed(10, 0, 0, 1));
    assert!(e.no_hairpin);
    assert!(!e.no_snat);
}

#[test]
fn external_refuses_zero_in_tcp_and_udp_only() {
    let mut c = entry(fixed(10, 0, 0, 1));
    c.tcp_ranges = Some(vec![p(0, 10)]);
    assert_eq!(External::try_from(&c, &defaults()).err(), Some(ConfigError::ZeroNotAllowed));
    let mut c = entry(fixed(10, 0, 0, 1));
    c.udp_ranges = Some(vec![p(0, 10)]);
    assert_eq!(External::try_from(&c, &defaults()).err(), Some(ConfigError::ZeroNotAllowed));
    let mut c = entry(fixed(10, 0, 0, 1));
    c.icmp_ranges = Some(vec![p(0, 10)]);
    c.icmp_in_ranges = Some(vec![p(0, 5)]);
    c.icmp_out_ranges = Some(vec![p(6, 10)]);
    assert!(External::try_from(&c, &defaults()).is_ok());
}

#[test]
fn external_refuses_too_many_ranges() {
    let mut c = entry(fixed(10, 0, 0, 1));
    c.udp_ranges = Some(vec![p(1, 1), p(3, 3), p(5, 5), p(7, 7), p(9, 9)]);
    assert_eq!(External::try_from(&c, &defaults()).err(), Some(ConfigError::TooManyRanges));
}

#[test]
fn icmp_contains_inbound_and_outbound() {
    let mut c = entry(fixed(10, 0, 0, 1));
    c.icmp_ranges = Some(vec![p(100, 200), p(300, 400)]);
    c.icmp_in_ranges = Some(vec![p(100, 150)]);
    c.icmp_out_ranges = Some(vec![p(350, 400), p(150, 200)]);
    let e = external(c);
    assert!(e.icmp_ranges.contains(&e.icmp_in_ranges));
    assert!(e.icmp_ranges.contains(&e.icmp_out_ranges));

    let mut c = entry(fixed(10, 0, 0, 1));
    c.icmp_ranges = Some(vec![p(100, 200)]);
    c.icmp_in_ranges = Some(vec![p(100, 201)]);
    c.icmp_out_ranges = Some(vec![p(100, 200)]);
    assert_eq!(
        External::try_from(&c, &defaults()).err(),
        Some(ConfigError::IcmpContainmentViolation)
    );

    let mut c = entry(fixed(10, 0, 0, 1));
    c.icmp_ranges = Some(vec![p(100, 200)]);
    c.icmp_in_ranges = Some(vec![p(100, 200)]);
    c.icmp_out_ranges = Some(vec![p(99, 100)]);
    assert_eq!(
        External::try_from(&c, &defaults()).err(),
        Some(ConfigError::IcmpContainmentViolation)
    );
}

#[test]
fn empty_icmp_forces_sides_empty() {
    let mut c = entry(fixed(10, 0, 0, 1));
    c.icmp_ranges = Some(vec![]);
    c.icmp_in_ranges = Some(vec![p(1, 2), p(4, 5), p(7, 8), p(10, 11), p(13, 14)]);
    c.icmp_out_ranges = Some(vec![p(5, 6)]);
    let e = external(c);
    assert!(e.icmp_ranges.is_empty());
    assert!(e.icmp_in_ranges.is_empty());
    assert!(e.icmp_out_ranges.is_empty());
}

#[test]
fn static_external_single_address() {
    let mut c = entry(fixed(10, 0, 0, 1));
    c.tcp_ranges = Some(vec![p(1000, 2000)]);
    let externals = vec![external(c)];
    let cfg = RuntimeConfig::from(Family::V4, &[], &externals, &[host4(10, 0, 0, 1)]);
    let key = host4(10, 0, 0, 1);
    assert_eq!(cfg.family(), Family::V4);
    assert_eq!(cfg.external_addr(), key);
    let x = cfg.external_get(key).unwrap();
    assert!(!x.no_snat);
    assert_eq!(x.tcp_range, [raw(1000, 2000), raw(0, 0), raw(0, 0), raw(0, 0)]);
    assert_eq!(x.tcp_range_len, 1);
    assert_eq!(x.udp_range[0], raw(20000, 29999));
    assert_eq!(x.udp_range_len, 1);
    assert_eq!(x.icmp_range_len, 1);
    assert_eq!(x.icmp_in_range[0], raw(0, 9999));
    assert_eq!(x.icmp_out_range[0], raw(1000, 65535));
    assert_eq!(cfg.dest_get(key), Some(DestConfig { no_snat: false, hairpin: true }));
    assert_eq!(dest_keys(&cfg), vec![key]);
    assert_eq!(external_keys(&cfg), vec![key]);
}

#[test]
fn matcher_with_two_addresses() {
    let mut c = entry(matcher(10, 0, 0, 0, 24));
    c.no_hairpin = true;
    c.tcp_ranges = Some(vec![p(20000, 29999)]);
    let externals = vec![external(c)];
    let addresses = [host4(10, 0, 0, 9), host4(10, 0, 0, 5), host4(10, 0, 1, 5), (0, 32)];
    let cfg = RuntimeConfig::from(Family::V4, &[], &externals, &addresses);
    assert_eq!(cfg.external_addr(), host4(10, 0, 0, 5));
    assert_eq!(external_keys(&cfg), vec![host4(10, 0, 0, 5), host4(10, 0, 0, 9)]);
    assert_eq!(dest_keys(&cfg), vec![host4(10, 0, 0, 5), host4(10, 0, 0, 9)]);
    for key in [host4(10, 0, 0, 5), host4(10, 0, 0, 9)] {
        assert_eq!(cfg.dest_get(key), Some(DestConfig { no_snat: false, hairpin: false }));
        assert_eq!(cfg.external_get(key).unwrap().tcp_range[0], raw(20000, 29999));
    }
    assert_eq!(cfg.external_get(host4(10, 0, 1, 5)), None);
    assert!(cfg.hairpin_dests().is_empty());
}

#[test]
fn no_snat_precedence() {
    let mut first = entry(fixed(1, 2, 3, 4));
    first.no_snat = true;
    let externals = vec![external(first), external(entry(fixed(5, 6, 7, 8)))];
    let dests = [host4(1, 2, 3, 4)];
    let cfg = RuntimeConfig::from(Family::V4, &dests, &externals, &[]);
    assert_eq!(cfg.external_addr(), host4(5, 6, 7, 8));
    let x = cfg.external_get(host4(1, 2, 3, 4)).unwrap();
    assert!(x.no_snat);
    assert_eq!(x.tcp_range_len, 0);
    assert_eq!(x.udp_range_len, 0);
    assert_eq!(x.icmp_range_len, 0);
    assert_eq!(x.icmp_in_range_len, 0);
    assert_eq!(x.icmp_out_range_len, 0);
    assert_eq!(x.tcp_range, [raw(0, 0); MAX_PORT_RANGES]);
    assert_eq!(cfg.dest_get(host4(1, 2, 3, 4)), Some(DestConfig { no_snat: true, hairpin: true }));
    assert_eq!(cfg.dest_get(host4(5, 6, 7, 8)), Some(DestConfig { no_snat: false, hairpin: true }));
}

#[test]
fn no_address_leaves_primary_unspecified() {
    let externals = vec![external(entry(matcher(10, 0, 0, 0, 8)))];
    let cfg = RuntimeConfig::from(Family::V4, &[], &externals, &[host4(192, 168, 0, 1)]);
    assert_eq!(cfg.external_addr(), (0, 32));
    assert!(external_keys(&cfg).is_empty());
    let cfg = RuntimeConfig::from(Family::V6, &[], &externals, &[host4(10, 0, 0, 1)]);
    assert_eq!(cfg.external_addr(), (0, 128));
    assert!(external_keys(&cfg).is_empty());
    let empty = RuntimeConfig::new(Family::V6);
    assert_eq!(empty.external_addr(), (0, 128));
    assert!(dest_keys(&empty).is_empty());
}

#[test]
fn static_of_other_family_or_unspecified_matches_nothing() {
    let v6 = AddressOrMatcher::Static { address: IpAddress::v6(1u128 << 100) };
    let none = AddressOrMatcher::Static { address: IpAddress::v4(0) };
    let externals = vec![external(entry(v6)), external(entry(none))];
    let cfg = RuntimeConfig::from(Family::V4, &[], &externals, &[]);
    assert!(external_keys(&cfg).is_empty());
    assert_eq!(cfg.external_addr(), (0, 32));
    let cfg = RuntimeConfig::from(Family::V6, &[], &externals, &[]);
    assert_eq!(external_keys(&cfg), vec![(1u128 << 100, 128)]);
    assert_eq!(cfg.external_addr(), (1u128 << 100, 128));
}

#[test]
fn an_address_is_claimed_by_the_first_matcher() {
    let mut wide = entry(matcher(10, 0, 0, 0, 8));
    wide.tcp_ranges = Some(vec![p(1, 10)]);
    let mut narrow = entry(matcher(10, 0, 0, 0, 24));
    narrow.tcp_ranges = Some(vec![p(50, 60)]);
    let addresses = [host4(10, 0, 0, 7), host4(10, 9, 9, 9)];
    let cfg =
        RuntimeConfig::from(Family::V4, &[], &[external(narrow.clone()), external(wide.clone())], &addresses);
    assert_eq!(cfg.external_get(host4(10, 0, 0, 7)).unwrap().tcp_range[0], raw(50, 60));
    assert_eq!(cfg.external_get(host4(10, 9, 9, 9)).unwrap().tcp_range[0], raw(1, 10));
    assert_eq!(cfg.external_addr(), host4(10, 0, 0, 7));
    let cfg = RuntimeConfig::from(Family::V4, &[], &[external(wide), external(narrow)], &addresses);
    assert_eq!(cfg.external_get(host4(10, 0, 0, 7)).unwrap().tcp_range[0], raw(1, 10));
    assert_eq!(cfg.external_get(host4(10, 9, 9, 9)).unwrap().tcp_range[0], raw(1, 10));
}

#[test]
fn builder_is_deterministic() {
    let mut m = entry(matcher(10, 0, 0, 0, 16));
    m.udp_ranges = Some(vec![p(5, 6), p(1, 2)]);
    let externals = vec![external(entry(fixed(172, 16, 0, 1))), external(m)];
    let dests = [net4(192, 168, 0, 0, 16), host4(172, 16, 0, 1)];
    let addresses = [host4(10, 0, 3, 3), host4(10, 0, 1, 1), host4(8, 8, 8, 8)];
    let a = RuntimeConfig::from(Family::V4, &dests, &externals, &addresses);
    let b = RuntimeConfig::from(Family::V4, &dests, &externals, &addresses);
    assert_eq!(a.external_addr(), b.external_addr());
    assert_eq!(a.dest_listing(), b.dest_listing());
    assert_eq!(a.external_listing(), b.external_listing());
    assert_eq!(a.hairpin_dests(), b.hairpin_dests());
    let plan = b.apply(Some(&a));
    assert!(plan.actions().is_empty());
}

#[test]
fn dest_keys_are_no_snat_dests_and_external_keys() {
    let externals = vec![external(entry(matcher(10, 0, 0, 0, 8)))];
    let dests = [net4(192, 168, 7, 7, 16), (u128::MAX, 8), host4(10, 1, 1, 1)];
    let address_sets: Vec<Vec<Prefix>> = vec![
        vec![],
        vec![host4(10, 1, 1, 1)],
        vec![host4(10, 1, 1, 1), host4(10, 2, 2, 2), host4(11, 0, 0, 1)],
        vec![host4(10, 2, 2, 2)],
    ];
    for addresses in address_sets {
        let cfg = RuntimeConfig::from(Family::V4, &dests, &externals, &addresses);
        let mut expected: Vec<Prefix> =
            vec![net4(192, 168, 0, 0, 16), (0xffu128 << 120, 8), host4(10, 1, 1, 1)];
        for key in external_keys(&cfg) {
            assert_eq!(key.1, 32);
            if !expected.contains(&key) {
                expected.push(key);
            }
        }
        let mut got = dest_keys(&cfg);
        got.sort();
        expected.sort();
        assert_eq!(got, expected);
    }
}

#[test]
fn listing_is_lexicographic() {
    let dests = [
        net4(192, 168, 2, 0, 24),
        net4(192, 168, 0, 0, 22),
        net4(192, 168, 2, 0, 23),
        net4(192, 168, 0, 0, 24),
        net4(192, 168, 0, 0, 23),
        net4(10, 0, 0, 0, 8),
    ];
    let cfg = RuntimeConfig::from(Family::V4, &dests, &[], &[]);
    assert_eq!(
        dest_keys(&cfg),
        vec![
            net4(10, 0, 0, 0, 8),
            net4(192, 168, 0, 0, 22),
            net4(192, 168, 0, 0, 23),
            net4(192, 168, 0, 0, 24),
            net4(192, 168, 2, 0, 23),
            net4(192, 168, 2, 0, 24),
        ]
    );
    for (_, d) in cfg.dest_listing() {
        assert_eq!(d, DestConfig { no_snat: true, hairpin: false });
    }
}

#[test]
fn init_builds_over_what_is_there() {
    let mut cfg = RuntimeConfig::from(Family::V4, &[host4(10, 0, 0, 1)], &[], &[]);
    assert_eq!(cfg.dest_get(host4(10, 0, 0, 1)), Some(DestConfig { no_snat: true, hairpin: false }));
    cfg.init(&[], &[external(entry(fixed(10, 0, 0, 1)))], &[]);
    assert_eq!(cfg.dest_get(host4(10, 0, 0, 1)), Some(DestConfig { no_snat: true, hairpin: true }));
    assert_eq!(cfg.external_addr(), host4(10, 0, 0, 1));
    let mut no_snat = entry(fixed(10, 0, 0, 1));
    no_snat.no_snat = true;
    cfg.init(&[], &[external(no_snat)], &[]);
    let x = cfg.external_get(host4(10, 0, 0, 1)).unwrap();
    assert!(x.no_snat);
    assert_eq!(x.tcp_range[0], raw(20000, 29999));
    assert_eq!(x.tcp_range_len, 1);
    assert_eq!(cfg.external_addr(), (0, 32));
}

#[test]
fn hairpin_dests_put_primary_first() {
    let mut quiet = entry(fixed(10, 0, 0, 1));
    quiet.no_snat = true;
    let mut hidden = entry(fixed(10, 0, 0, 2));
    hidden.no_hairpin = true;
    let externals = vec![
        external(quiet),
        external(hidden),
        external(entry(fixed(10, 0, 0, 9))),
        external(entry(fixed(10, 0, 0, 3))),
    ];
    let cfg = RuntimeConfig::from(Family::V4, &[net4(10, 0, 0, 0, 8)], &externals, &[]);
    assert_eq!(cfg.external_addr(), host4(10, 0, 0, 2));
    assert_eq!(
        cfg.hairpin_dests(),
        vec![host4(10, 0, 0, 1), host4(10, 0, 0, 3), host4(10, 0, 0, 9)]
    );
    let externals = vec![external(entry(fixed(10, 0, 0, 9))), external(entry(fixed(10, 0, 0, 3)))];
    let cfg = RuntimeConfig::from(Family::V4, &[], &externals, &[]);
    assert_eq!(cfg.hairpin_dests(), vec![host4(10, 0, 0, 9), host4(10, 0, 0, 3)]);
}

#[test]
fn table_values_compare_field_by_field() {
    let a = ExternalConfig::new();
    let mut b = ExternalConfig::new();
    assert!(a.same(&b));
    assert_eq!(a, b);
    b.icmp_out_range[3] = raw(0, 1);
    assert!(!a.same(&b));
    let mut c = ExternalConfig::new();
    c.udp_range_len = 1;
    assert!(!a.same(&c));
    assert_eq!(DestConfig::new(), DestConfig { no_snat: false, hairpin: false });
}

#[test]
fn matching_addresses_keep_the_given_order() {
    let listed = [host4(10, 0, 0, 9), host4(10, 0, 1, 1), (0, 32), host4(10, 0, 0, 5)];
    assert_eq!(
        matching_addresses(Family::V4, &matcher(10, 0, 0, 0, 24), &listed),
        vec![host4(10, 0, 0, 9), host4(10, 0, 0, 5)]
    );
    assert_eq!(
        matching_addresses(Family::V4, &matcher(0, 0, 0, 0, 0), &listed),
        vec![host4(10, 0, 0, 9), host4(10, 0, 1, 1), host4(10, 0, 0, 5)]
    );
    assert_eq!(matching_addresses(Family::V6, &matcher(10, 0, 0, 0, 24), &listed), Vec::<Prefix>::new());
    assert_eq!(matching_addresses(Family::V4, &fixed(10, 0, 0, 77), &listed), vec![host4(10, 0, 0, 77)]);
    assert_eq!(matching_addresses(Family::V4, &fixed(0, 0, 0, 0), &listed), Vec::<Prefix>::new());
    assert_eq!(matching_addresses(Family::V6, &fixed(10, 0, 0, 77), &[]), Vec::<Prefix>::new());
}

#[test]
fn hairpin_keys_move_the_external_key_to_the_front() {
    let on = DestConfig { no_snat: false, hairpin: true };
    let off = DestConfig { no_snat: true, hairpin: false };
    let entries = [
        (host4(10, 0, 0, 1), on),
        (host4(10, 0, 0, 2), off),
        (host4(10, 0, 0, 3), on),
        (host4(10, 0, 0, 4), on),
    ];
    assert_eq!(
        hairpin_keys(&entries, host4(10, 0, 0, 3)),
        vec![host4(10, 0, 0, 3), host4(10, 0, 0, 1), host4(10, 0, 0, 4)]
    );
    assert_eq!(
        hairpin_keys(&entries, host4(10, 0, 0, 2)),
        vec![host4(10, 0, 0, 1), host4(10, 0, 0, 3), host4(10, 0, 0, 4)]
    );
    assert_eq!(
        hairpin_keys(&entries, (0, 32)),
        vec![host4(10, 0, 0, 1), host4(10, 0, 0, 3), host4(10, 0, 0, 4)]
    );
    assert_eq!(hairpin_keys(&[], (0, 32)), Vec::<Prefix>::new());
}
