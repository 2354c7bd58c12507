use std::collections::BTreeMap;

use einat::config::{AddressOrMatcher, ConfigDefaults, ConfigExternal};
use einat::diff::MapChange;
use einat::engine::{Reconciler, Step};
use einat::external::External;
use einat::ports::{PortRange, ProtoRange, RawPortRange};
use einat::prefix::{Family, IpAddress, IpNetwork, Prefix};
use einat::reconcile::{Action, Plan};
use einat::runtime::RuntimeConfig;
use einat::tables::{DestConfig, ExternalConfig};

fn ip(a: u8, b: u8, c: u8, d: u8) -> u32 {
    u32::from_be_bytes([a, b, c, d])
}

fn host4(a: u8, b: u8, c: u8, d: u8) -> Prefix {
    ((ip(a, b, c, d) as u128) << 96, 32)
}

fn p(start: u16, end: u16) -> ProtoRange {
    ProtoRange { inner: PortRange { start, end } }
}

fn defaults() -> ConfigDefaults {
    ConfigDefaults {
        tcp_ranges: vec![p(20000, 29999)],
        udp_ranges: vec![p(20000, 29999)],
        icmp_ranges: vec![p(0, 65535)],
        icmp_in_ranges: vec![],
        icmp_out_ranges: vec![p(0, 65535)],
    }
}

fn entry(address: AddressOrMatcher, tcp: Option<Vec<ProtoRange>>, no_hairpin: bool) -> External {
    let c = ConfigExternal {
        address,
        no_snat: false,
        no_hairpin,
        tcp_ranges: tcp,
        udp_ranges: None,
        icmp_ranges: None,
        icmp_in_ranges: None,
        icmp_out_ranges: None,
    };
    External::try_from(&c, &defaults()).unwrap()
}

fn fixed(a: u8, b: u8, c: u8, d: u8) -> AddressOrMatcher {
    AddressOrMatcher::Static { address: IpAddress::v4(ip(a, b, c, d)) }
}

fn matcher(a: u8, b: u8, c: u8, d: u8, len: u8) -> AddressOrMatcher {
    AddressOrMatcher::Matcher { match_address: IpNetwork::v4(ip(a, b, c, d), len) }
}

fn pool(start: u16, end: u16) -> RuntimeConfig {
    let externals = vec![entry(fixed(10, 0, 0, 1), Some(vec![p(start, end)]), false)];
    RuntimeConfig::from(Family::V4, &[], &externals, &[])
}

fn matched(addresses: &[Prefix]) -> RuntimeConfig {
    let externals = vec![entry(matcher(10, 0, 0, 0, 24), Some(vec![p(20000, 29999)]), true)];
    RuntimeConfig::from(Family::V4, &[], &externals, addresses)
}

struct Kernel {
    dest: BTreeMap<Prefix, DestConfig>,
    ext: BTreeMap<Prefix, ExternalConfig>,
    external_addr: Option<Prefix>,
    deleting: bool,
    slept: bool,
    purged: Vec<Prefix>,
}

impl Kernel {
    fn new() -> Kernel {
        Kernel {
            dest: BTreeMap::new(),
            ext: BTreeMap::new(),
            external_addr: None,
            deleting: false,
            slept: false,
            purged: Vec::new(),
        }
    }

    fn holds(&self, c: &RuntimeConfig) -> bool {
        let dest: Vec<(Prefix, DestConfig)> = self.dest.iter().map(|(k, v)| (*k, *v)).collect();
        let ext: Vec<(Prefix, ExternalConfig)> = self.ext.iter().map(|(k, v)| (*k, *v)).collect();
        let mut want_dest = c.dest_listing();
        let mut want_ext = c.external_listing();
        want_dest.sort_by_key(|(k, _)| *k);
        want_ext.sort_by_key(|(k, _)| *k);
        dest == want_dest && ext == want_ext && self.external_addr == Some(c.external_addr())
    }

    fn perform(&mut self, a: &Action) -> bool {
        match a {
            Action::PutDest(k, v) => {
                self.dest.insert(*k, *v);
                true
            }
            Action::DeleteDest(k) => self.dest.remove(k).is_some(),
            Action::InsertExternal(k, v) => {
                if self.ext.contains_key(k) {
                    false
                } else {
                    self.ext.insert(*k, *v);
                    true
                }
            }
            Action::OverwriteExternal(k, v) => {
                assert!(self.deleting && self.slept);
                if self.ext.contains_key(k) {
                    self.ext.insert(*k, *v);
                    true
                } else {
                    false
                }
            }
            Action::DeleteExternal(k) => {
                assert!(self.deleting && self.slept);
                self.ext.remove(k).is_some()
            }
            Action::RaiseFlag => {
                self.deleting = true;
                self.slept = false;
                true
            }
            Action::Sleep => {
                self.slept = true;
                true
            }
            Action::PurgeFlows(k) => {
                assert!(self.deleting && self.slept);
                self.purged.push(*k);
                true
            }
            Action::LowerFlag => {
                self.deleting = false;
                true
            }
            Action::WriteExternalAddr(k) => {
                self.external_addr = Some(*k);
                true
            }
        }
    }
}

fn run(plan: &Plan, kernel: &mut Kernel, fail_at: Option<usize>) -> (Vec<Action>, Step) {
    let mut engine = Reconciler::new(plan);
    let mut trace = Vec::new();
    let mut ok = true;
    loop {
        match engine.next(ok) {
            Step::Do(a) => {
                ok = kernel.perform(&a);
                if fail_at == Some(trace.len()) {
                    ok = false;
                }
                assert_eq!(engine.flag_raised(), kernel.deleting || a == Action::RaiseFlag);
                trace.push(a);
                assert!(trace.len() < 1000);
            }
            last => {
                assert!(engine.is_over());
                assert!(!engine.flag_raised());
                return (trace, last);
            }
        }
    }
}

#[test]
fn first_apply_inserts_everything_and_writes_the_address() {
    let cfg = matched(&[host4(10, 0, 0, 9), host4(10, 0, 0, 5)]);
    let plan = cfg.apply(None);
    let hidden = DestConfig { no_snat: false, hairpin: false };
    assert_eq!(
        plan.dest_changes,
        vec![
            MapChange::Insert(host4(10, 0, 0, 5), hidden),
            MapChange::Insert(host4(10, 0, 0, 9), hidden),
        ]
    );
    let x5 = cfg.external_get(host4(10, 0, 0, 5)).unwrap();
    let x9 = cfg.external_get(host4(10, 0, 0, 9)).unwrap();
    assert_eq!(
        plan.external_changes,
        vec![MapChange::Insert(host4(10, 0, 0, 5), x5), MapChange::Insert(host4(10, 0, 0, 9), x9)]
    );
    assert_eq!(plan.external_addr, Some(host4(10, 0, 0, 5)));
    assert_eq!(
        plan.actions(),
        vec![
            Action::PutDest(host4(10, 0, 0, 5), hidden),
            Action::PutDest(host4(10, 0, 0, 9), hidden),
            Action::InsertExternal(host4(10, 0, 0, 5), x5),
            Action::InsertExternal(host4(10, 0, 0, 9), x9),
            Action::WriteExternalAddr(host4(10, 0, 0, 5)),
        ]
    );
}

#[test]
fn first_apply_of_empty_config_still_writes_the_address() {
    let cfg = RuntimeConfig::new(Family::V6);
    let plan = cfg.apply(None);
    assert_eq!(plan.actions(), vec![Action::WriteExternalAddr((0, 128))]);
}

#[test]
fn reapply_of_same_config_does_nothing() {
    let cfg = matched(&[host4(10, 0, 0, 9), host4(10, 0, 0, 5)]);
    let mut kernel = Kernel::new();
    let (first, end) = run(&cfg.apply(None), &mut kernel, None);
    assert_eq!(end, Step::Done);
    assert_eq!(first.len(), 5);
    assert!(kernel.holds(&cfg));
    let plan = cfg.apply(Some(&cfg));
    assert!(plan.dest_changes.is_empty());
    assert!(plan.external_changes.is_empty());
    assert_eq!(plan.external_addr, None);
    let (second, end) = run(&plan, &mut kernel, None);
    assert!(second.is_empty());
    assert_eq!(end, Step::Done);
    assert!(kernel.holds(&cfg));
}

#[test]
fn reconfigure_shrinks_pool() {
    let old = pool(1000, 2000);
    let new = pool(1500, 2000);
    let plan = new.apply(Some(&old));
    let key = host4(10, 0, 0, 1);
    let value = new.external_get(key).unwrap();
    assert_eq!(value.tcp_range[0], RawPortRange { start_port: 1500, end_port: 2000 });
    assert!(plan.dest_changes.is_empty());
    assert_eq!(plan.external_changes, vec![MapChange::Update(key, value)]);
    assert_eq!(plan.external_addr, None);
    assert_eq!(
        plan.actions(),
        vec![
            Action::RaiseFlag,
            Action::Sleep,
            Action::PurgeFlows(key),
            Action::OverwriteExternal(key, value),
            Action::LowerFlag,
        ]
    );
}

#[test]
fn address_withdrawn() {
    let old = matched(&[host4(10, 0, 0, 5), host4(10, 0, 0, 9)]);
    let new = matched(&[host4(10, 0, 0, 9)]);
    let plan = new.apply(Some(&old));
    let gone = host4(10, 0, 0, 5);
    assert_eq!(plan.dest_changes, vec![MapChange::Delete(gone)]);
    assert_eq!(plan.external_changes, vec![MapChange::Delete(gone)]);
    assert_eq!(plan.external_addr, Some(host4(10, 0, 0, 9)));
    assert_eq!(
        plan.actions(),
        vec![
            Action::DeleteDest(gone),
            Action::RaiseFlag,
            Action::Sleep,
            Action::DeleteExternal(gone),
            Action::PurgeFlows(gone),
            Action::LowerFlag,
            Action::WriteExternalAddr(host4(10, 0, 0, 9)),
        ]
    );
    let mut kernel = Kernel::new();
    run(&old.apply(None), &mut kernel, None);
    let (_, end) = run(&plan, &mut kernel, None);
    assert_eq!(end, Step::Done);
    assert!(kernel.holds(&new));
    assert_eq!(kernel.purged, vec![gone]);
}

#[test]
fn reconcile_reaches_new_from_any_old() {
    let configs = vec![
        RuntimeConfig::new(Family::V4),
        pool(1000, 2000),
        pool(1500, 2000),
        matched(&[host4(10, 0, 0, 5), host4(10, 0, 0, 9)]),
        matched(&[host4(10, 0, 0, 1)]),
        RuntimeConfig::from(
            Family::V4,
            &[host4(10, 0, 0, 1), (0, 0)],
            &[entry(fixed(10, 0, 0, 1), None, true), entry(matcher(0, 0, 0, 0, 0), None, false)],
            &[host4(10, 0, 0, 9), host4(1, 1, 1, 1)],
        ),
    ];
    for old in &configs {
        for new in &configs {
            let mut kernel = Kernel::new();
            let (_, end) = run(&old.apply(None), &mut kernel, None);
            assert_eq!(end, Step::Done);
            assert!(kernel.holds(old));
            let (_, end) = run(&new.apply(Some(old)), &mut kernel, None);
            assert_eq!(end, Step::Done);
            assert!(kernel.holds(new));
            assert!(!kernel.deleting);
        }
    }
}

#[test]
fn flag_is_raised_for_purges_and_lowered_on_every_way_out() {
    let old = RuntimeConfig::from(
        Family::V4,
        &[],
        &[entry(matcher(10, 0, 0, 0, 24), Some(vec![p(1, 9)]), false)],
        &[host4(10, 0, 0, 5), host4(10, 0, 0, 9)],
    );
    let new = RuntimeConfig::from(
        Family::V4,
        &[],
        &[entry(matcher(10, 0, 0, 0, 24), Some(vec![p(1, 5)]), false)],
        &[host4(10, 0, 0, 9), host4(10, 0, 0, 7)],
    );
    let plan = new.apply(Some(&old));
    let total = plan.actions().len();
    assert_eq!(total, 2 + 5 + 1 + 5 + 1);
    let mut fail_at = vec![None];
    for i in 0..total {
        fail_at.push(Some(i));
    }
    for fail in fail_at {
        let mut kernel = Kernel::new();
        run(&old.apply(None), &mut kernel, None);
        let (trace, end) = run(&plan, &mut kernel, fail);
        let mut raised = false;
        for a in &trace {
            match a {
                Action::RaiseFlag => raised = true,
                Action::LowerFlag => raised = false,
                Action::PurgeFlows(_) => assert!(raised),
                _ => {}
            }
        }
        assert!(!raised);
        assert!(!kernel.deleting);
        match fail {
            None => {
                assert_eq!(end, Step::Done);
                assert_eq!(trace, plan.actions());
            }
            Some(i) => {
                assert_eq!(end, Step::Failed);
                assert_eq!(trace[..=i], plan.actions()[..=i]);
                assert!(trace.len() <= i + 2);
                if trace.len() == i + 2 {
                    assert_eq!(trace[i + 1], Action::LowerFlag);
                }
            }
        }
    }
}

#[test]
fn engine_stays_at_its_end() {
    let plan = Plan { dest_changes: vec![], external_changes: vec![], external_addr: None };
    let mut engine = Reconciler::new(&plan);
    assert!(!engine.is_over());
    assert_eq!(engine.next(true), Step::Done);
    assert_eq!(engine.next(true), Step::Done);
    assert_eq!(engine.next(false), Step::Done);
    let plan = pool(1, 2).apply(None);
    let mut engine = Reconciler::new(&plan);
    assert!(matches!(engine.next(true), Step::Do(Action::PutDest(_, _))));
    assert_eq!(engine.next(false), Step::Failed);
    assert_eq!(engine.next(true), Step::Failed);
    assert!(engine.is_over());
}

#[test]
fn duplicate_external_insert_fails_the_reconcile() {
    let cfg = pool(1, 2);
    let mut kernel = Kernel::new();
    run(&cfg.apply(None), &mut kernel, None);
    let (trace, end) = run(&cfg.apply(None), &mut kernel, None);
    assert_eq!(end, Step::Failed);
    assert!(matches!(trace.last(), Some(Action::InsertExternal(_, _))));
}
