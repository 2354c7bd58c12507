use einat::prefix::{Family, IpAddress};
use einat::purge::{
    is_binding_stale, is_ct_stale, needs_value, select_bindings, select_ct, BindingKey,
    BindingRecord, BindingValue, CtKey,
};

fn v4(a: u8, b: u8, c: u8, d: u8) -> u128 {
    (u32::from_be_bytes([a, b, c, d]) as u128) << 96
}

fn orig(value: Option<BindingValue>) -> BindingRecord {
    BindingRecord { key: BindingKey { orig_dir: true, ipv4: true, ipv6: false, from_addr: v4(192, 168, 0, 2) }, value }
}

fn reply(ipv4: bool, ipv6: bool, from_addr: u128) -> BindingRecord {
    BindingRecord { key: BindingKey { orig_dir: false, ipv4, ipv6, from_addr }, value: None }
}

fn to(ipv4: bool, ipv6: bool, to_addr: u128) -> Option<BindingValue> {
    Some(BindingValue { ipv4, ipv6, to_addr })
}

#[test]
fn only_opening_direction_needs_the_value() {
    assert!(needs_value(&orig(None).key));
    assert!(!needs_value(&reply(true, false, 0).key));
}

#[test]
fn bindings_of_the_target_are_selected() {
    let target = IpAddress::v4(u32::from_be_bytes([10, 0, 0, 1]));
    assert_eq!(target, IpAddress { family: Family::V4, bits: v4(10, 0, 0, 1) });
    let records = vec![
        orig(to(true, false, v4(10, 0, 0, 1))),
        orig(to(true, false, v4(10, 0, 0, 2))),
        orig(to(false, true, v4(10, 0, 0, 1))),
        orig(None),
        reply(true, false, v4(10, 0, 0, 1)),
        reply(false, true, v4(10, 0, 0, 1)),
        reply(true, false, v4(10, 0, 0, 3)),
        BindingRecord { key: reply(true, false, v4(10, 0, 0, 1)).key, value: to(true, false, 0) },
        BindingRecord {
            key: BindingKey { orig_dir: true, ipv4: false, ipv6: false, from_addr: v4(10, 0, 0, 1) },
            value: to(true, true, v4(10, 0, 0, 1)),
        },
    ];
    let stale: Vec<bool> = records.iter().map(|r| is_binding_stale(r, &target)).collect();
    assert_eq!(stale, vec![true, false, false, false, true, false, false, true, true]);
    assert_eq!(select_bindings(&records, &target), vec![0, 4, 7, 8]);
    assert_eq!(select_bindings(&[], &target), Vec::<usize>::new());
    let six = IpAddress::v6(v4(10, 0, 0, 1));
    assert_eq!(select_bindings(&records, &six), vec![2, 5, 8]);
}

#[test]
fn ct_entries_of_the_target_are_selected() {
    let target = IpAddress::v6(0x2001_0db8u128 << 96 | 1);
    let keys = vec![
        CtKey { ipv4: false, ipv6: true, external_src_addr: 0x2001_0db8u128 << 96 | 1 },
        CtKey { ipv4: true, ipv6: false, external_src_addr: 0x2001_0db8u128 << 96 | 1 },
        CtKey { ipv4: false, ipv6: true, external_src_addr: 0x2001_0db8u128 << 96 | 2 },
        CtKey { ipv4: true, ipv6: true, external_src_addr: 0x2001_0db8u128 << 96 | 1 },
    ];
    assert!(is_ct_stale(&keys[0], &target));
    assert!(!is_ct_stale(&keys[1], &target));
    assert!(!is_ct_stale(&keys[2], &target));
    assert_eq!(select_ct(&keys, &target), vec![0, 3]);
    assert_eq!(select_ct(&keys[1..3], &target), Vec::<usize>::new());
}
