//! The runtime configuration of one address family and its builder.

use vstd::prelude::*;
use crate::config::AddressOrMatcher;
use crate::diff::{diff, is_diff, Table};
use crate::reconcile::Plan;
use crate::external::{External, ExternalSpec};
use crate::ports::{raw_slots, PortRange, MAX_PORT_RANGES};
use crate::prefix::{
    is_host_prefix, lemma_mask_idempotent, mask_of, prefix_covers, prefix_mask,
    prefix_wf, Family, Prefix,
};
use crate::tables::{
    lemma_external_config_ext, zero_external, DestConfig, ExternalConfig, ExternalConfigSpec,
};
use crate::trie::{
    dest_entries, dest_map_get, dest_map_insert, dest_map_listing, dest_map_new,
    external_entries, external_map_get, external_map_insert, external_map_listing,
    external_map_new, key_ok, keys_of, lex_order, listing, lists, prefix_set_insert,
    prefix_set_listing, prefix_set_new, prefix_set_remove, set_members,
};
use prefix_trie::{PrefixMap, PrefixSet};

verus! {

/// The configuration of one address family as the data plane's tables are
/// to hold it.
pub struct RuntimeConfig {
    family: Family,
    external_addr: Prefix,
    dest_config: PrefixMap<(u128, u8), DestConfig>,
    external_config: PrefixMap<(u128, u8), ExternalConfig>,
}

/// The mathematical content of a `RuntimeConfig`.
pub struct RuntimeConfigSpec {
    pub family: Family,
    /// The primary external address, as a host prefix; the unspecified
    /// address where the family has none.
    pub external_addr: Prefix,
    pub dest_config: Map<Prefix, DestConfig>,
    pub external_config: Map<Prefix, ExternalConfig>,
}

impl View for RuntimeConfig {
    type V = RuntimeConfigSpec;

    closed spec fn view(&self) -> RuntimeConfigSpec {
        RuntimeConfigSpec {
            family: self.family,
            external_addr: self.external_addr,
            dest_config: dest_entries(self.dest_config),
            external_config: external_entries(self.external_config),
        }
    }
}

impl RuntimeConfigSpec {
    /// Destination keys are canonical prefixes of the family; external keys
    /// and the primary external address are host prefixes of it.
    pub open spec fn wf(self) -> bool {
        &&& forall|k: Prefix| #[trigger]
            self.dest_config.contains_key(k) ==> prefix_wf(self.family, k)
        &&& forall|k: Prefix| #[trigger]
            self.external_config.contains_key(k) ==> is_host_prefix(self.family, k)
        &&& is_host_prefix(self.family, self.external_addr)
    }
}

/// The canonical prefix of family `f` that `p` stands for: its length cut
/// to the family's width, its host bits cleared.
pub open spec fn canon(f: Family, p: Prefix) -> Prefix {
    let l = if p.1 <= f.spec_width() {
        p.1
    } else {
        f.spec_width()
    };
    (p.0 & prefix_mask(l), l)
}

/// The host prefix of family `f` for the address whose bits `p` holds.
pub open spec fn host(f: Family, p: Prefix) -> Prefix {
    (p.0 & prefix_mask(f.spec_width()), f.spec_width())
}

/// The canonical forms of a list of prefixes.
pub open spec fn canon_all(f: Family, s: Seq<Prefix>) -> Seq<Prefix> {
    Seq::new(s.len(), |i: int| canon(f, s[i]))
}

/// The host prefixes of a list of addresses.
pub open spec fn host_all(f: Family, s: Seq<Prefix>) -> Seq<Prefix> {
    Seq::new(s.len(), |i: int| host(f, s[i]))
}

/// The contents of a list of validated entries.
pub open spec fn specs_of(s: Seq<External>) -> Seq<ExternalSpec> {
    Seq::new(s.len(), |i: int| s[i]@)
}

/// Whether each list of the entry fits the data plane's slots.
pub open spec fn fits_slots(e: ExternalSpec) -> bool {
    &&& e.tcp.len() <= MAX_PORT_RANGES
    &&& e.udp.len() <= MAX_PORT_RANGES
    &&& e.icmp.len() <= MAX_PORT_RANGES
    &&& e.icmp_in.len() <= MAX_PORT_RANGES
    &&& e.icmp_out.len() <= MAX_PORT_RANGES
}

/// The value with the content `v`.
pub open spec fn config_of(v: ExternalConfigSpec) -> ExternalConfig {
    choose|c: ExternalConfig| c@ == v
}

/// A value is the one with its content.
pub proof fn lemma_config_of(c: ExternalConfig)
    ensures
        config_of(c@) == c,
{
    lemma_external_config_ext(config_of(c@), c);
}

/// The destination table after the no-snat destinations `ns` are entered
/// into `dest`: each has its no-snat flag set and keeps its hairpin flag.
pub open spec fn seeded(dest: Map<Prefix, DestConfig>, ns: Seq<Prefix>) -> Map<
    Prefix,
    DestConfig,
> {
    Map::new(
        |k: Prefix| dest.contains_key(k) || ns.contains(k),
        |k: Prefix|
            if ns.contains(k) {
                DestConfig {
                    no_snat: true,
                    hairpin: if dest.contains_key(k) {
                        dest[k].hairpin
                    } else {
                        false
                    },
                }
            } else {
                dest[k]
            },
    )
}

/// Whether the host prefix `p` is an address that the entry's matcher
/// `net` of length `len` takes: within the network and not unspecified.
pub open spec fn matcher_takes(net: Prefix, p: Prefix) -> bool {
    prefix_covers(net, p.0) && p.0 != 0
}

/// The test that a matcher with the network `net` makes of an address.
pub open spec fn takes(net: Prefix) -> spec_fn(Prefix) -> bool {
    |p: Prefix| matcher_takes(net, p)
}

/// The host prefixes of family `f` that an entry claims, in order, among
/// the unclaimed local addresses as they are listed. A static address of
/// the family is claimed unless it is unspecified, whether or not it is
/// listed; a matcher of the family claims the listed addresses within it.
pub open spec fn matches_in(f: Family, address: AddressOrMatcher, unclaimed: Seq<Prefix>) -> Seq<
    Prefix,
> {
    match address {
        AddressOrMatcher::Static { address } => {
            let p = host(f, (address.bits, 0u8));
            if address.family == f && p.0 != 0 {
                seq![p]
            } else {
                Seq::empty()
            }
        },
        AddressOrMatcher::Matcher { match_address } => {
            if match_address.family == f {
                unclaimed.filter(takes(match_address.spec_prefix()))
            } else {
                Seq::empty()
            }
        },
    }
}

/// The host prefixes of family `f` that an entry claims, in order, given
/// the set of the local addresses that no earlier entry has claimed: the
/// set is gone through in the order in which it hands its members out.
pub open spec fn matches_of(f: Family, address: AddressOrMatcher, remaining: Set<Prefix>) -> Seq<
    Prefix,
> {
    matches_in(f, address, lex_order(remaining))
}

/// The destination table after the matched prefixes `ms` of an entry are
/// entered: each has its hairpin flag set from the entry and keeps its
/// no-snat flag.
pub open spec fn with_dests(dest: Map<Prefix, DestConfig>, ms: Seq<Prefix>, no_hairpin: bool) -> Map<
    Prefix,
    DestConfig,
> {
    Map::new(
        |k: Prefix| dest.contains_key(k) || ms.contains(k),
        |k: Prefix|
            if ms.contains(k) {
                DestConfig {
                    no_snat: if dest.contains_key(k) {
                        dest[k].no_snat
                    } else {
                        false
                    },
                    hairpin: !no_hairpin,
                }
            } else {
                dest[k]
            },
    )
}

/// The count byte of an array that holds the list `s`.
pub open spec fn slot_count(s: Seq<PortRange>) -> u8 {
    s.len() as u8
}

/// The external configuration of a prefix after an entry is written over
/// `prev`: the no-snat flag is the entry's; unless it is set, every array
/// holds the entry's list and its count.
pub open spec fn written(prev: ExternalConfigSpec, e: ExternalSpec) -> ExternalConfigSpec {
    if e.no_snat {
        ExternalConfigSpec { no_snat: true, ..prev }
    } else {
        ExternalConfigSpec {
            no_snat: false,
            tcp: raw_slots(e.tcp),
            tcp_len: slot_count(e.tcp),
            udp: raw_slots(e.udp),
            udp_len: slot_count(e.udp),
            icmp: raw_slots(e.icmp),
            icmp_len: slot_count(e.icmp),
            icmp_in: raw_slots(e.icmp_in),
            icmp_in_len: slot_count(e.icmp_in),
            icmp_out: raw_slots(e.icmp_out),
            icmp_out_len: slot_count(e.icmp_out),
        }
    }
}

/// The external table after the matched prefixes `ms` of an entry are
/// entered: each holds the entry written over what it held, or over the
/// zero configuration.
pub open spec fn with_externals(ext: Map<Prefix, ExternalConfig>, ms: Seq<Prefix>, e: ExternalSpec) -> Map<
    Prefix,
    ExternalConfig,
> {
    Map::new(
        |k: Prefix| ext.contains_key(k) || ms.contains(k),
        |k: Prefix|
            if ms.contains(k) {
                config_of(
                    written(
                        if ext.contains_key(k) {
                            ext[k]@
                        } else {
                            zero_external()
                        },
                        e,
                    ),
                )
            } else {
                ext[k]
            },
    )
}

/// The state of the builder between two entries.
pub struct BuildState {
    pub dest: Map<Prefix, DestConfig>,
    pub ext: Map<Prefix, ExternalConfig>,
    /// The local addresses that no entry has claimed yet.
    pub remaining: Set<Prefix>,
    /// The primary external address, once an entry has given one.
    pub external_addr: Option<Prefix>,
}

/// The builder's state after one more entry: the entry claims its matches,
/// gives the primary external address if none is set and it is not no-snat
/// and has a match, and enters every match into both tables.
pub open spec fn step(f: Family, st: BuildState, e: ExternalSpec) -> BuildState {
    let ms = matches_of(f, e.address, st.remaining);
    BuildState {
        dest: with_dests(st.dest, ms, e.no_hairpin),
        ext: with_externals(st.ext, ms, e),
        remaining: Set::new(|k: Prefix| st.remaining.contains(k) && !ms.contains(k)),
        external_addr: if st.external_addr is None && !e.no_snat && ms.len() > 0 {
            Some(ms[0])
        } else {
            st.external_addr
        },
    }
}

/// The builder's state after the entries `es`, taken in order.
pub open spec fn steps(f: Family, st: BuildState, es: Seq<ExternalSpec>) -> BuildState
    decreases es.len(),
{
    if es.len() == 0 {
        st
    } else {
        step(f, steps(f, st, es.drop_last()), es.last())
    }
}

/// The builder's state before the first entry, over the tables `dest` and
/// `ext`.
pub open spec fn start(
    f: Family,
    dest: Map<Prefix, DestConfig>,
    ext: Map<Prefix, ExternalConfig>,
    no_snat_dests: Seq<Prefix>,
    addresses: Seq<Prefix>,
) -> BuildState {
    BuildState {
        dest: seeded(dest, canon_all(f, no_snat_dests)),
        ext,
        remaining: host_all(f, addresses).to_set(),
        external_addr: None,
    }
}

/// What the builder makes of its inputs over the tables of `base`.
pub open spec fn built_over(
    base: RuntimeConfigSpec,
    no_snat_dests: Seq<Prefix>,
    externals: Seq<ExternalSpec>,
    addresses: Seq<Prefix>,
) -> RuntimeConfigSpec {
    let f = base.family;
    let st = steps(
        f,
        start(f, base.dest_config, base.external_config, no_snat_dests, addresses),
        externals,
    );
    RuntimeConfigSpec {
        family: f,
        external_addr: match st.external_addr {
            Some(p) => p,
            None => (0u128, f.spec_width()),
        },
        dest_config: st.dest,
        external_config: st.ext,
    }
}

/// The configuration with empty tables and no primary external address.
pub open spec fn empty_config(f: Family) -> RuntimeConfigSpec {
    RuntimeConfigSpec {
        family: f,
        external_addr: (0u128, f.spec_width()),
        dest_config: Map::empty(),
        external_config: Map::empty(),
    }
}

/// What the builder makes of its inputs.
pub open spec fn built(
    f: Family,
    no_snat_dests: Seq<Prefix>,
    externals: Seq<ExternalSpec>,
    addresses: Seq<Prefix>,
) -> RuntimeConfigSpec {
    built_over(empty_config(f), no_snat_dests, externals, addresses)
}

/// Pushing an element adds it to what a sequence contains.
proof fn lemma_push_contains(s: Seq<Prefix>, x: Prefix)
    ensures
        forall|k: Prefix| s.push(x).contains(k) <==> (s.contains(k) || k == x),
{
    assert forall|k: Prefix| s.push(x).contains(k) <==> (s.contains(k) || k == x) by {
        if s.push(x).contains(k) {
            let i = choose|i: int| 0 <= i < s.push(x).len() && s.push(x)[i] == k;
            if i < s.len() {
                assert(s[i] == k);
            }
        }
        if s.contains(k) {
            let i = choose|i: int| 0 <= i < s.len() && s[i] == k;
            assert(s.push(x)[i] == k);
        }
        if k == x {
            assert(s.push(x)[s.len() as int] == k);
        }
    }
}

/// The canonical prefix of family `family` that `p` stands for.
pub fn canonical(family: Family, p: Prefix) -> (c: Prefix)
    ensures
        c == canon(family, p),
        prefix_wf(family, c),
{
    let width = family.width();
    let len = if p.1 <= width {
        p.1
    } else {
        width
    };
    proof {
        lemma_mask_idempotent(p.0, len);
    }
    (p.0 & mask_of(len), len)
}

/// The host prefix of family `family` for the address whose bits `p`
/// holds.
pub fn host_prefix(family: Family, p: Prefix) -> (h: Prefix)
    ensures
        h == host(family, p),
        is_host_prefix(family, h),
{
    let width = family.width();
    proof {
        lemma_mask_idempotent(p.0, width);
    }
    (p.0 & mask_of(width), width)
}

/// Enters the no-snat destinations into a destination table.
fn seed_dests(
    dest: &mut PrefixMap<(u128, u8), DestConfig>,
    family: Family,
    no_snat_dests: &[Prefix],
)
    requires
        forall|k: Prefix| #[trigger] dest_entries(*old(dest)).contains_key(k) ==> prefix_wf(family, k),
    ensures
        dest_entries(*final(dest)) == seeded(
            dest_entries(*old(dest)),
            canon_all(family, no_snat_dests@),
        ),
        forall|k: Prefix| #[trigger]
            dest_entries(*final(dest)).contains_key(k) ==> prefix_wf(family, k),
{
    let ghost d0 = dest_entries(*dest);
    let mut i: usize = 0;
    proof {
        assert(canon_all(family, no_snat_dests@.take(0)) =~= Seq::<Prefix>::empty());
        assert(dest_entries(*dest) =~= seeded(d0, Seq::<Prefix>::empty()));
    }
    while i < no_snat_dests.len()
        invariant
            0 <= i <= no_snat_dests.len(),
            dest_entries(*dest) == seeded(d0, canon_all(family, no_snat_dests@.take(i as int))),
            forall|k: Prefix| #[trigger] dest_entries(*dest).contains_key(k) ==> prefix_wf(family, k),
        decreases no_snat_dests.len() - i,
    {
        let k = canonical(family, no_snat_dests[i]);
        let hairpin = match dest_map_get(dest, k) {
            Some(d) => d.hairpin,
            None => false,
        };
        let ghost before = canon_all(family, no_snat_dests@.take(i as int));
        proof {
            let after = canon_all(family, no_snat_dests@.take(i as int + 1));
            assert(after =~= before.push(k));
            lemma_push_contains(before, k);
            assert(seeded(d0, before).insert(k, DestConfig { no_snat: true, hairpin }) =~= seeded(
                d0,
                after,
            ));
        }
        dest_map_insert(dest, k, DestConfig { no_snat: true, hairpin });
        i += 1;
    }
    proof {
        assert(no_snat_dests@.take(i as int) =~= no_snat_dests@);
    }
}

/// The set of the host prefixes of the local addresses.
fn address_set(family: Family, addresses: &[Prefix]) -> (set: PrefixSet<(u128, u8)>)
    ensures
        set_members(set) == host_all(family, addresses@).to_set(),
{
    let mut set = prefix_set_new();
    let mut i: usize = 0;
    proof {
        assert(host_all(family, addresses@.take(0)).to_set() =~= Set::<Prefix>::empty());
    }
    while i < addresses.len()
        invariant
            0 <= i <= addresses.len(),
            set_members(set) == host_all(family, addresses@.take(i as int)).to_set(),
        decreases addresses.len() - i,
    {
        let h = host_prefix(family, addresses[i]);
        proof {
            let before = host_all(family, addresses@.take(i as int));
            let after = host_all(family, addresses@.take(i as int + 1));
            assert(after =~= before.push(h));
            lemma_push_contains(before, h);
            assert forall|k: Prefix| before.to_set().insert(h).contains(k) <==> after.to_set().contains(
                k,
            ) by {
                assert(after.contains(k) <==> (before.contains(k) || k == h));
            }
            assert(before.to_set().insert(h) =~= after.to_set());
        }
        prefix_set_insert(&mut set, h);
        i += 1;
    }
    proof {
        assert(addresses@.take(i as int) =~= addresses@);
    }
    set
}

/// The host prefixes of family `family` that an entry claims among the
/// unclaimed local addresses, in the order in which they are listed.
pub fn matching_addresses(family: Family, address: &AddressOrMatcher, unclaimed: &[Prefix]) -> (ms:
    Vec<Prefix>)
    ensures
        ms@ == matches_in(family, *address, unclaimed@),
        (forall|k: Prefix| #[trigger] unclaimed@.contains(k) ==> is_host_prefix(family, k))
            ==> forall|j: int| 0 <= j < ms.len() ==> is_host_prefix(family, #[trigger] ms@[j]),
{
    let mut ms: Vec<Prefix> = Vec::new();
    match address {
        AddressOrMatcher::Static { address } => {
            let same_family = match (address.family, family) {
                (Family::V4, Family::V4) | (Family::V6, Family::V6) => true,
                _ => false,
            };
            let p = host_prefix(family, (address.bits, 0));
            if same_family && p.0 != 0 {
                ms.push(p);
                proof {
                    assert(ms@ =~= seq![p]);
                }
            }
        },
        AddressOrMatcher::Matcher { match_address } => {
            let same_family = match (match_address.family, family) {
                (Family::V4, Family::V4) | (Family::V6, Family::V6) => true,
                _ => false,
            };
            if same_family {
                let mask = mask_of(match_address.len);
                let ghost pred = takes(match_address.spec_prefix());
                let mut i: usize = 0;
                proof {
                    assert(unclaimed@.take(0) =~= Seq::<Prefix>::empty());
                    reveal(Seq::filter);
                    assert(Seq::<Prefix>::empty().filter(pred) =~= Seq::<Prefix>::empty());
                }
                while i < unclaimed.len()
                    invariant
                        0 <= i <= unclaimed.len(),
                        mask == prefix_mask(match_address.len),
                        pred == takes(match_address.spec_prefix()),
                        ms@ == unclaimed@.take(i as int).filter(pred),
                        (forall|k: Prefix| #[trigger]
                            unclaimed@.contains(k) ==> is_host_prefix(family, k)) ==> forall|
                            j: int,
                        | 0 <= j < ms.len() ==> is_host_prefix(family, #[trigger] ms@[j]),
                    decreases unclaimed.len() - i,
                {
                    let p = unclaimed[i];
                    proof {
                        assert(unclaimed@.take(i as int + 1) =~= unclaimed@.take(i as int).push(p));
                        unclaimed@.take(i as int).lemma_filter_push(p, pred);
                        assert(unclaimed@.contains(p));
                    }
                    if p.0 & mask == match_address.bits && p.0 != 0 {
                        ms.push(p);
                    }
                    i += 1;
                }
                proof {
                    assert(unclaimed@.take(i as int) =~= unclaimed@);
                }
            }
        },
    }
    ms
}

/// The host prefixes that an entry claims among the unclaimed addresses.
fn find_matches(family: Family, address: &AddressOrMatcher, remaining: &PrefixSet<(u128, u8)>) -> (ms:
    Vec<Prefix>)
    requires
        forall|k: Prefix| #[trigger] set_members(*remaining).contains(k) ==> is_host_prefix(family, k),
    ensures
        ms@ == matches_of(family, *address, set_members(*remaining)),
        forall|j: int| 0 <= j < ms.len() ==> is_host_prefix(family, #[trigger] ms@[j]),
{
    match address {
        AddressOrMatcher::Static { .. } => {
            let none: Vec<Prefix> = Vec::new();
            matching_addresses(family, address, none.as_slice())
        },
        AddressOrMatcher::Matcher { .. } => {
            let all = prefix_set_listing(remaining);
            matching_addresses(family, address, all.as_slice())
        },
    }
}

/// Takes the claimed prefixes out of the set of unclaimed addresses.
fn claim(remaining: &mut PrefixSet<(u128, u8)>, family: Family, ms: &Vec<Prefix>)
    requires
        forall|j: int| 0 <= j < ms.len() ==> is_host_prefix(family, #[trigger] ms@[j]),
        forall|k: Prefix| #[trigger]
            set_members(*old(remaining)).contains(k) ==> is_host_prefix(family, k),
    ensures
        set_members(*final(remaining)) == Set::new(
            |k: Prefix| set_members(*old(remaining)).contains(k) && !ms@.contains(k),
        ),
        forall|k: Prefix| #[trigger]
            set_members(*final(remaining)).contains(k) ==> is_host_prefix(family, k),
{
    let ghost s0 = set_members(*remaining);
    let mut j: usize = 0;
    proof {
        assert(set_members(*remaining) =~= Set::new(
            |k: Prefix| s0.contains(k) && !ms@.take(0).contains(k),
        ));
    }
    while j < ms.len()
        invariant
            0 <= j <= ms.len(),
            forall|j: int| 0 <= j < ms.len() ==> is_host_prefix(family, #[trigger] ms@[j]),
            set_members(*remaining) == Set::new(
                |k: Prefix| s0.contains(k) && !ms@.take(j as int).contains(k),
            ),
        decreases ms.len() - j,
    {
        let p = ms[j];
        proof {
            assert(ms@.take(j as int + 1) =~= ms@.take(j as int).push(p));
            lemma_push_contains(ms@.take(j as int), p);
            assert(set_members(*remaining).remove(p) =~= Set::new(
                |k: Prefix| s0.contains(k) && !ms@.take(j as int + 1).contains(k),
            ));
        }
        prefix_set_remove(remaining, p);
        j += 1;
    }
    proof {
        assert(ms@.take(j as int) =~= ms@);
    }
}

/// Writes an entry over the external configuration of one prefix.
fn write_external(x: &mut ExternalConfig, external: &External)
    requires
        fits_slots(external@),
    ensures
        final(x)@ == written(old(x)@, external@),
{
    x.no_snat = external.no_snat;
    if !external.no_snat {
        external.tcp_ranges.apply_raw(&mut x.tcp_range, &mut x.tcp_range_len);
        external.udp_ranges.apply_raw(&mut x.udp_range, &mut x.udp_range_len);
        external.icmp_ranges.apply_raw(&mut x.icmp_range, &mut x.icmp_range_len);
        external.icmp_in_ranges.apply_raw(&mut x.icmp_in_range, &mut x.icmp_in_range_len);
        external.icmp_out_ranges.apply_raw(&mut x.icmp_out_range, &mut x.icmp_out_range_len);
    }
}

/// Writing an entry twice is writing it once.
proof fn lemma_written_twice(prev: ExternalConfigSpec, e: ExternalSpec)
    ensures
        written(written(prev, e), e) == written(prev, e),
{
}

/// The test for a hairpinned entry whose key is `external`.
pub open spec fn hairpin_primary(external: Prefix) -> spec_fn((Prefix, DestConfig)) -> bool {
    |e: (Prefix, DestConfig)| e.1.hairpin && e.0 == external
}

/// The test for a hairpinned entry whose key is not `external`.
pub open spec fn hairpin_other(external: Prefix) -> spec_fn((Prefix, DestConfig)) -> bool {
    |e: (Prefix, DestConfig)| e.1.hairpin && e.0 != external
}

/// The keys of the hairpinned entries of a list: the key `external` first
/// where it has such an entry, then the others in the order of the list.
pub open spec fn hairpin_order(entries: Seq<(Prefix, DestConfig)>, external: Prefix) -> Seq<
    Prefix,
> {
    keys_of(entries.filter(hairpin_primary(external))) + keys_of(
        entries.filter(hairpin_other(external)),
    )
}

/// The hairpinned destinations: the primary external address first where
/// it is one, then the others in the order in which the table hands them
/// out.
pub open spec fn hairpin_list(c: RuntimeConfigSpec) -> Seq<Prefix> {
    hairpin_order(listing(c.dest_config), c.external_addr)
}

/// The keys of the hairpinned entries of a list, the key `external` first.
pub fn hairpin_keys(entries: &[(Prefix, DestConfig)], external: Prefix) -> (res: Vec<Prefix>)
    ensures
        res@ == hairpin_order(entries@, external),
{
    let ghost first = hairpin_primary(external);
    let ghost other = hairpin_other(external);
    let mut res: Vec<Prefix> = Vec::new();
    let mut i: usize = 0;
    proof {
        reveal(Seq::filter);
        assert(entries@.take(0) =~= Seq::<(Prefix, DestConfig)>::empty());
        assert(entries@.take(0).filter(first) =~= Seq::<(Prefix, DestConfig)>::empty());
        assert(entries@.take(0).filter(other) =~= Seq::<(Prefix, DestConfig)>::empty());
        assert(res@ =~= keys_of(entries@.take(0).filter(first)));
    }
    while i < entries.len()
        invariant
            0 <= i <= entries.len(),
            first == hairpin_primary(external),
            res@ == keys_of(entries@.take(i as int).filter(first)),
        decreases entries.len() - i,
    {
        let (k, d) = entries[i];
        proof {
            let done = entries@.take(i as int);
            assert(entries@.take(i as int + 1) =~= done.push((k, d)));
            done.lemma_filter_push((k, d), first);
            assert(keys_of(done.filter(first).push((k, d))) =~= keys_of(done.filter(first)).push(k));
        }
        if d.hairpin && k.0 == external.0 && k.1 == external.1 {
            res.push(k);
        }
        i += 1;
    }
    let ghost front = res@;
    proof {
        assert(entries@.take(i as int) =~= entries@);
        assert(front + keys_of(entries@.take(0).filter(other)) =~= front);
    }
    i = 0;
    while i < entries.len()
        invariant
            0 <= i <= entries.len(),
            other == hairpin_other(external),
            front == keys_of(entries@.filter(hairpin_primary(external))),
            res@ == front + keys_of(entries@.take(i as int).filter(other)),
        decreases entries.len() - i,
    {
        let (k, d) = entries[i];
        proof {
            let done = entries@.take(i as int);
            assert(entries@.take(i as int + 1) =~= done.push((k, d)));
            done.lemma_filter_push((k, d), other);
            assert(keys_of(done.filter(other).push((k, d))) =~= keys_of(done.filter(other)).push(k));
            assert((front + keys_of(done.filter(other))).push(k) =~= front + keys_of(
                done.filter(other),
            ).push(k));
        }
        if d.hairpin && !(k.0 == external.0 && k.1 == external.1) {
            res.push(k);
        }
        i += 1;
    }
    proof {
        assert(entries@.take(i as int) =~= entries@);
    }
    res
}

/// The destination keys of any configuration built are the no-snat
/// destinations, in canonical form, together with the keys of the external
/// table.
pub proof fn lemma_dest_keys(
    f: Family,
    no_snat_dests: Seq<Prefix>,
    externals: Seq<ExternalSpec>,
    addresses: Seq<Prefix>,
)
    ensures
        forall|k: Prefix|
            built(f, no_snat_dests, externals, addresses).dest_config.contains_key(k) <==> (
            canon_all(f, no_snat_dests).contains(k) || built(
                f,
                no_snat_dests,
                externals,
                addresses,
            ).external_config.contains_key(k)),
{
    let st = start(
        f,
        Map::<Prefix, DestConfig>::empty(),
        Map::<Prefix, ExternalConfig>::empty(),
        no_snat_dests,
        addresses,
    );
    lemma_steps_keys(f, st, externals);
    let b = built(f, no_snat_dests, externals, addresses);
    let r = steps(f, st, externals);
    assert(b.dest_config == r.dest && b.external_config == r.ext);
    assert forall|k: Prefix| b.dest_config.contains_key(k) <==> (canon_all(f, no_snat_dests).contains(
        k,
    ) || b.external_config.contains_key(k)) by {
        assert(st.dest.contains_key(k) <==> canon_all(f, no_snat_dests).contains(k));
    }
}

/// Where every external key is a destination key before some entries are
/// taken, the destination keys afterwards are those before together with
/// the external keys afterwards.
pub proof fn lemma_steps_keys(f: Family, st: BuildState, es: Seq<ExternalSpec>)
    requires
        forall|k: Prefix| st.ext.contains_key(k) ==> st.dest.contains_key(k),
    ensures
        forall|k: Prefix|
            steps(f, st, es).dest.contains_key(k) <==> (st.dest.contains_key(k) || steps(
                f,
                st,
                es,
            ).ext.contains_key(k)),
    decreases es.len(),
{
    if es.len() > 0 {
        lemma_steps_keys(f, st, es.drop_last());
    }
}

/// The builder is a function of its inputs: the same policy and the same
/// addresses give the same configuration, table for table and slot for
/// slot.
pub proof fn lemma_built_deterministic(
    f: Family,
    no_snat_a: Seq<Prefix>,
    externals_a: Seq<ExternalSpec>,
    addresses_a: Seq<Prefix>,
    no_snat_b: Seq<Prefix>,
    externals_b: Seq<ExternalSpec>,
    addresses_b: Seq<Prefix>,
)
    requires
        no_snat_a =~= no_snat_b,
        externals_a =~= externals_b,
        addresses_a =~= addresses_b,
    ensures
        built(f, no_snat_a, externals_a, addresses_a) == built(
            f,
            no_snat_b,
            externals_b,
            addresses_b,
        ),
{
}

/// The destination table that a reconcile starts from: that of the
/// previous configuration, or the empty one on the first reconcile.
pub open spec fn prior_dest(old: Option<&RuntimeConfig>) -> Map<Prefix, DestConfig> {
    match old {
        Some(o) => o@.dest_config,
        None => Map::empty(),
    }
}

/// The external table that a reconcile starts from: that of the previous
/// configuration, or the empty one on the first reconcile.
pub open spec fn prior_external(old: Option<&RuntimeConfig>) -> Map<Prefix, ExternalConfig> {
    match old {
        Some(o) => o@.external_config,
        None => Map::empty(),
    }
}

/// The primary external address that a reconcile writes: the new one where
/// it differs from the previous one, and always on the first reconcile.
pub open spec fn addr_to_write(old: Option<&RuntimeConfig>, new: RuntimeConfigSpec) -> Option<
    Prefix,
> {
    match old {
        Some(o) => if o@.external_addr != new.external_addr {
            Some(new.external_addr)
        } else {
            None
        },
        None => Some(new.external_addr),
    }
}

impl RuntimeConfig {
    /// The configuration's family.
    pub fn family(&self) -> (f: Family)
        ensures
            f == self@.family,
    {
        self.family
    }

    /// The primary external address.
    pub fn external_addr(&self) -> (p: Prefix)
        ensures
            p == self@.external_addr,
    {
        self.external_addr
    }

    /// The configuration with empty tables and no primary external address.
    pub fn new(family: Family) -> (c: RuntimeConfig)
        ensures
            c@ == empty_config(family),
            c@.wf(),
    {
        let c = RuntimeConfig {
            family,
            external_addr: family.unspecified(),
            dest_config: dest_map_new(),
            external_config: external_map_new(),
        };
        proof {
            assert(c@.dest_config =~= Map::empty());
            assert(c@.external_config =~= Map::empty());
        }
        c
    }
    /// Enters the matched prefixes of one entry into both tables.
    fn enter_matches(&mut self, ms: &Vec<Prefix>, external: &External)
        requires
            old(self)@.wf(),
            fits_slots(external@),
            forall|j: int| 0 <= j < ms.len() ==> is_host_prefix(old(self)@.family, #[trigger] ms@[j]),
        ensures
            final(self)@.wf(),
            final(self)@.family == old(self)@.family,
            final(self)@.external_addr == old(self)@.external_addr,
            final(self)@.dest_config == with_dests(
                old(self)@.dest_config,
                ms@,
                external@.no_hairpin,
            ),
            final(self)@.external_config == with_externals(
                old(self)@.external_config,
                ms@,
                external@,
            ),
    {
        let ghost d0 = self@.dest_config;
        let ghost x0 = self@.external_config;
        let ghost e = external@;
        let mut j: usize = 0;
        proof {
            assert(ms@.take(0) =~= Seq::<Prefix>::empty());
            assert(self@.dest_config =~= with_dests(d0, ms@.take(0), e.no_hairpin));
            assert(self@.external_config =~= with_externals(x0, ms@.take(0), e));
        }
        while j < ms.len()
            invariant
                0 <= j <= ms.len(),
                e == external@,
                fits_slots(e),
                self@.wf(),
                self@.family == old(self)@.family,
                self@.external_addr == old(self)@.external_addr,
                forall|j: int| 0 <= j < ms.len() ==> is_host_prefix(self@.family, #[trigger] ms@[j]),
                self@.dest_config == with_dests(d0, ms@.take(j as int), e.no_hairpin),
                self@.external_config == with_externals(x0, ms@.take(j as int), e),
                forall|k: Prefix| #[trigger]
                    ms@.take(j as int).contains(k) ==> self@.external_config[k]@ == written(
                        if x0.contains_key(k) {
                            x0[k]@
                        } else {
                            zero_external()
                        },
                        e,
                    ),
            decreases ms.len() - j,
        {
            let p = ms[j];
            let ghost done = ms@.take(j as int);
            let ghost more = ms@.take(j as int + 1);
            proof {
                assert(more =~= done.push(p));
                lemma_push_contains(done, p);
                assert(is_host_prefix(self@.family, ms@[j as int]));
            }
            let no_snat = match dest_map_get(&self.dest_config, p) {
                Some(d) => d.no_snat,
                None => false,
            };
            let d = DestConfig { no_snat, hairpin: !external.no_hairpin };
            proof {
                assert(with_dests(d0, done, e.no_hairpin).insert(p, d) =~= with_dests(
                    d0,
                    more,
                    e.no_hairpin,
                ));
            }
            dest_map_insert(&mut self.dest_config, p, d);
            let mut x = match external_map_get(&self.external_config, p) {
                Some(x) => x,
                None => ExternalConfig::new(),
            };
            let ghost prev = x@;
            write_external(&mut x, external);
            proof {
                let base = if x0.contains_key(p) {
                    x0[p]@
                } else {
                    zero_external()
                };
                if done.contains(p) {
                    lemma_written_twice(base, e);
                }
                assert(x@ == written(base, e));
                lemma_config_of(x);
                assert(with_externals(x0, done, e).insert(p, x) =~= with_externals(x0, more, e));
            }
            external_map_insert(&mut self.external_config, p, x);
            j += 1;
        }
        proof {
            assert(ms@.take(j as int) =~= ms@);
        }
    }

    /// Builds the configuration from the policy and the local addresses,
    /// over the tables as they stand. Each no-snat destination is entered
    /// in canonical form; of each address the bits are taken, as a host of
    /// the family. The entries are taken in order, each claiming the
    /// addresses that no earlier one has claimed.
    pub fn init(&mut self, no_snat_dests: &[Prefix], externals: &[External], addresses: &[Prefix])
        requires
            old(self)@.wf(),
            forall|i: int| 0 <= i < externals@.len() ==> fits_slots(#[trigger] externals@[i]@),
        ensures
            final(self)@ == built_over(
                old(self)@,
                no_snat_dests@,
                specs_of(externals@),
                addresses@,
            ),
            final(self)@.wf(),
    {
        let family = self.family;
        let ghost base = self@;
        let ghost es = specs_of(externals@);
        let ghost st0 = start(
            family,
            base.dest_config,
            base.external_config,
            no_snat_dests@,
            addresses@,
        );
        seed_dests(&mut self.dest_config, family, no_snat_dests);
        let mut remaining = address_set(family, addresses);
        let mut external_addr: Option<Prefix> = None;
        let mut i: usize = 0;
        proof {
            assert(es.take(0) =~= Seq::<ExternalSpec>::empty());
            assert forall|k: Prefix| #[trigger] set_members(remaining).contains(k) implies is_host_prefix(
                family,
                k,
            ) by {
                let hs = host_all(family, addresses@);
                let n = choose|n: int| 0 <= n < hs.len() && hs[n] == k;
                lemma_mask_idempotent(addresses@[n].0, family.spec_width());
            }
        }
        while i < externals.len()
            invariant
                0 <= i <= externals.len(),
                family == base.family,
                es == specs_of(externals@),
                forall|i: int| 0 <= i < externals@.len() ==> fits_slots(#[trigger] externals@[i]@),
                self@.wf(),
                self@.family == family,
                external_addr matches Some(p) ==> is_host_prefix(family, p),
                forall|k: Prefix| #[trigger]
                    set_members(remaining).contains(k) ==> is_host_prefix(family, k),
                (BuildState {
                    dest: self@.dest_config,
                    ext: self@.external_config,
                    remaining: set_members(remaining),
                    external_addr,
                }) == steps(family, st0, es.take(i as int)),
            decreases externals.len() - i,
        {
            let external = &externals[i];
            proof {
                assert(es.take(i as int + 1).drop_last() =~= es.take(i as int));
                assert(es.take(i as int + 1).last() == external@);
                assert(fits_slots(externals@[i as int]@));
            }
            let ms = find_matches(family, &external.address, &remaining);
            claim(&mut remaining, family, &ms);
            if external_addr.is_none() && !external.no_snat && ms.len() > 0 {
                external_addr = Some(ms[0]);
            }
            self.enter_matches(&ms, external);
            i += 1;
        }
        proof {
            assert(es.take(i as int) =~= es);
        }
        self.external_addr = match external_addr {
            Some(p) => p,
            None => family.unspecified(),
        };
    }

    /// The configuration that the builder makes of the policy and the
    /// local addresses.
    pub fn from(
        family: Family,
        no_snat_dests: &[Prefix],
        externals: &[External],
        addresses: &[Prefix],
    ) -> (c: RuntimeConfig)
        requires
            forall|i: int| 0 <= i < externals@.len() ==> fits_slots(#[trigger] externals@[i]@),
        ensures
            c@ == built(family, no_snat_dests@, specs_of(externals@), addresses@),
            c@.wf(),
    {
        let mut c = RuntimeConfig::new(family);
        c.init(no_snat_dests, externals, addresses);
        c
    }
    /// The entries of the destination table, keys in lexicographic order.
    pub fn dest_listing(&self) -> (v: Vec<(Prefix, DestConfig)>)
        ensures
            v@ == listing(self@.dest_config),
            lists(keys_of(v@), self@.dest_config.dom()),
    {
        dest_map_listing(&self.dest_config)
    }

    /// The entries of the external table, keys in lexicographic order.
    pub fn external_listing(&self) -> (v: Vec<(Prefix, ExternalConfig)>)
        ensures
            v@ == listing(self@.external_config),
            lists(keys_of(v@), self@.external_config.dom()),
    {
        external_map_listing(&self.external_config)
    }

    /// The destination configuration of exactly the prefix `k`.
    pub fn dest_get(&self, k: Prefix) -> (r: Option<DestConfig>)
        requires
            key_ok(k),
        ensures
            r == (if self@.dest_config.contains_key(k) {
                Some(self@.dest_config[k])
            } else {
                None
            }),
    {
        dest_map_get(&self.dest_config, k)
    }

    /// The external configuration of exactly the prefix `k`.
    pub fn external_get(&self, k: Prefix) -> (r: Option<ExternalConfig>)
        requires
            key_ok(k),
        ensures
            r == (if self@.external_config.contains_key(k) {
                Some(self@.external_config[k])
            } else {
                None
            }),
    {
        external_map_get(&self.external_config, k)
    }

    /// The hairpinned destinations, the primary external address first.
    pub fn hairpin_dests(&self) -> (res: Vec<Prefix>)
        ensures
            res@ == hairpin_list(self@),
    {
        let entries = dest_map_listing(&self.dest_config);
        hairpin_keys(entries.as_slice(), self.external_addr)
    }

    /// The keys of a well-formed configuration are keys that a trie takes.
    proof fn lemma_keys_ok(&self)
        requires
            self@.wf(),
        ensures
            forall|k: Prefix| #[trigger] self.dest_config.entries().contains_key(k) ==> key_ok(k),
            forall|k: Prefix| #[trigger] self.external_config.entries().contains_key(k) ==> key_ok(k),
    {
        assert forall|k: Prefix| #[trigger]
            self.dest_config.entries().contains_key(k) implies key_ok(k) by {
            assert(self@.dest_config.contains_key(k));
        }
        assert forall|k: Prefix| #[trigger]
            self.external_config.entries().contains_key(k) implies key_ok(k) by {
            assert(self@.external_config.contains_key(k));
        }
    }

    /// Plans the reconcile that leads the data plane from the previous
    /// configuration to this one; with no previous configuration, from
    /// empty tables.
    pub fn apply(&self, old: Option<&RuntimeConfig>) -> (plan: Plan)
        requires
            self@.wf(),
            old matches Some(o) ==> o@.wf(),
        ensures
            is_diff(plan.dest_changes@, prior_dest(old), self@.dest_config),
            is_diff(plan.external_changes@, prior_external(old), self@.external_config),
            plan.external_addr == addr_to_write(old, self@),
    {
        proof {
            self.lemma_keys_ok();
        }
        match old {
            Some(o) => {
                proof {
                    o.lemma_keys_ok();
                }
                let dest_changes = diff(&o.dest_config, &self.dest_config);
                let external_changes = diff(&o.external_config, &self.external_config);
                let same_addr = o.external_addr.0 == self.external_addr.0 && o.external_addr.1
                    == self.external_addr.1;
                Plan {
                    dest_changes,
                    external_changes,
                    external_addr: if same_addr {
                        None
                    } else {
                        Some(self.external_addr)
                    },
                }
            },
            None => {
                let no_dest = dest_map_new();
                let no_external = external_map_new();
                proof {
                    assert(no_dest.entries() =~= Map::empty());
                    assert(no_external.entries() =~= Map::empty());
                }
                let dest_changes = diff(&no_dest, &self.dest_config);
                let external_changes = diff(&no_external, &self.external_config);
                Plan { dest_changes, external_changes, external_addr: Some(self.external_addr) }
            },
        }
    }
}

} // verus!
