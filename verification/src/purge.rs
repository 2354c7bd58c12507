//! Selection of the stale flow-state entries of an external address.
//!
//! The binding and connection-tracking tables belong to the data plane.
//! When the configuration of an external address changes or goes, the
//! entries that go through that address are deleted. The caller reads the
//! tables and deletes in bulk; which entries go is decided here.

use vstd::prelude::*;
use crate::prefix::{Family, IpAddress};

verus! {

/// The key of a binding, as far as the selection reads it.
#[derive(Clone, Copy, Debug, PartialEq, Eq, Structural)]
pub struct BindingKey {
    /// The binding is of the direction that opened the flow, not of the
    /// reply direction.
    pub orig_dir: bool,
    /// The address-family flag for IPv4 is set.
    pub ipv4: bool,
    /// The address-family flag for IPv6 is set.
    pub ipv6: bool,
    /// The address the binding maps from, as left-aligned bits.
    pub from_addr: u128,
}

/// The value of a binding, as far as the selection reads it.
#[derive(Clone, Copy, Debug, PartialEq, Eq, Structural)]
pub struct BindingValue {
    pub ipv4: bool,
    pub ipv6: bool,
    /// The address the binding maps to, as left-aligned bits.
    pub to_addr: u128,
}

/// A binding as the caller read it: the key, and the value where the key
/// called for a lookup and the lookup found one.
#[derive(Clone, Copy, Debug, PartialEq, Eq, Structural)]
pub struct BindingRecord {
    pub key: BindingKey,
    pub value: Option<BindingValue>,
}

/// The key of a connection-tracking entry, as far as the selection reads
/// it.
#[derive(Clone, Copy, Debug, PartialEq, Eq, Structural)]
pub struct CtKey {
    pub ipv4: bool,
    pub ipv6: bool,
    /// The external source address of the flow, as left-aligned bits.
    pub external_src_addr: u128,
}

/// Whether the family flags of an entry name the family `f`.
pub open spec fn family_flag(f: Family, ipv4: bool, ipv6: bool) -> bool {
    match f {
        Family::V4 => ipv4,
        Family::V6 => ipv6,
    }
}

/// Whether a binding goes through the external address `target`: one of
/// the opening direction, where its value is of the target's family and
/// maps to the target; one of the reply direction, where its key is of the
/// target's family and maps from the target.
pub open spec fn binding_stale(r: BindingRecord, target: IpAddress) -> bool {
    if r.key.orig_dir {
        match r.value {
            Some(v) => family_flag(target.family, v.ipv4, v.ipv6) && v.to_addr == target.bits,
            None => false,
        }
    } else {
        family_flag(target.family, r.key.ipv4, r.key.ipv6) && r.key.from_addr == target.bits
    }
}

/// Whether a connection-tracking entry goes through the external address
/// `target`.
pub open spec fn ct_stale(k: CtKey, target: IpAddress) -> bool {
    family_flag(target.family, k.ipv4, k.ipv6) && k.external_src_addr == target.bits
}

/// Whether `picked` names, in ascending order and each once, exactly the
/// indices at which `wanted` holds.
pub open spec fn picks(picked: Seq<usize>, wanted: Seq<bool>) -> bool {
    &&& forall|j: int| 0 <= j < picked.len() ==> (#[trigger] picked[j]) < wanted.len() && wanted[picked[j] as int]
    &&& forall|i: int, j: int| 0 <= i < j < picked.len() ==> (#[trigger] picked[i]) < (#[trigger] picked[j])
    &&& forall|i: int| 0 <= i < wanted.len() && #[trigger] wanted[i] ==> picked.contains(i as usize)
}

/// For each binding, whether it goes through the external address
/// `target`.
pub open spec fn stale_bindings(records: Seq<BindingRecord>, target: IpAddress) -> Seq<bool> {
    Seq::new(records.len(), |i: int| binding_stale(records[i], target))
}

/// For each connection-tracking entry, whether it goes through the
/// external address `target`.
pub open spec fn stale_cts(keys: Seq<CtKey>, target: IpAddress) -> Seq<bool> {
    Seq::new(keys.len(), |i: int| ct_stale(keys[i], target))
}

/// Whether the family flags of an entry name the family `f`.
fn has_family_flag(f: Family, ipv4: bool, ipv6: bool) -> (r: bool)
    ensures
        r == family_flag(f, ipv4, ipv6),
{
    match f {
        Family::V4 => ipv4,
        Family::V6 => ipv6,
    }
}

/// Whether the value of a binding has to be looked up to decide on it:
/// for the bindings of the opening direction.
pub fn needs_value(key: &BindingKey) -> (r: bool)
    ensures
        r == key.orig_dir,
{
    key.orig_dir
}

/// Whether a binding goes through the external address `target`.
pub fn is_binding_stale(record: &BindingRecord, target: &IpAddress) -> (r: bool)
    ensures
        r == binding_stale(*record, *target),
{
    if record.key.orig_dir {
        match record.value {
            Some(v) => has_family_flag(target.family, v.ipv4, v.ipv6) && v.to_addr == target.bits,
            None => false,
        }
    } else {
        has_family_flag(target.family, record.key.ipv4, record.key.ipv6) && record.key.from_addr
            == target.bits
    }
}

/// Whether a connection-tracking entry goes through the external address
/// `target`.
pub fn is_ct_stale(key: &CtKey, target: &IpAddress) -> (r: bool)
    ensures
        r == ct_stale(*key, *target),
{
    has_family_flag(target.family, key.ipv4, key.ipv6) && key.external_src_addr == target.bits
}

/// The indices of the bindings to delete for the external address
/// `target`, ascending.
pub fn select_bindings(records: &[BindingRecord], target: &IpAddress) -> (picked: Vec<usize>)
    ensures
        picks(picked@, stale_bindings(records@, *target)),
{
    let ghost wanted = stale_bindings(records@, *target);
    let mut picked: Vec<usize> = Vec::new();
    let mut i: usize = 0;
    while i < records.len()
        invariant
            0 <= i <= records.len(),
            wanted == stale_bindings(records@, *target),
            picks(picked@, wanted.take(i as int)),
        decreases records.len() - i,
    {
        let ghost before = picked@;
        let stale = is_binding_stale(&records[i], target);
        if stale {
            picked.push(i);
        }
        proof {
            lemma_picks_next(before, picked@, wanted, i as int);
        }
        i += 1;
    }
    proof {
        assert(wanted.take(i as int) =~= wanted);
    }
    picked
}

/// The indices of the connection-tracking entries to delete for the
/// external address `target`, ascending.
pub fn select_ct(keys: &[CtKey], target: &IpAddress) -> (picked: Vec<usize>)
    ensures
        picks(picked@, stale_cts(keys@, *target)),
{
    let ghost wanted = stale_cts(keys@, *target);
    let mut picked: Vec<usize> = Vec::new();
    let mut i: usize = 0;
    while i < keys.len()
        invariant
            0 <= i <= keys.len(),
            wanted == stale_cts(keys@, *target),
            picks(picked@, wanted.take(i as int)),
        decreases keys.len() - i,
    {
        let ghost before = picked@;
        let stale = is_ct_stale(&keys[i], target);
        if stale {
            picked.push(i);
        }
        proof {
            lemma_picks_next(before, picked@, wanted, i as int);
        }
        i += 1;
    }
    proof {
        assert(wanted.take(i as int) =~= wanted);
    }
    picked
}

/// One more index decided: it is appended where it is wanted, and left
/// out where it is not.
proof fn lemma_picks_next(before: Seq<usize>, after: Seq<usize>, wanted: Seq<bool>, i: int)
    requires
        0 <= i < wanted.len(),
        i <= usize::MAX,
        picks(before, wanted.take(i)),
        after == (if wanted[i] {
            before.push(i as usize)
        } else {
            before
        }),
    ensures
        picks(after, wanted.take(i + 1)),
{
    let done = wanted.take(i);
    let more = wanted.take(i + 1);
    assert forall|j: int| 0 <= j < after.len() implies (#[trigger] after[j]) < more.len() && more[after[j] as int] by {
        if j < before.len() {
            assert(after[j] == before[j]);
            assert(done[before[j] as int] == more[before[j] as int]);
        }
    }
    assert forall|a: int, b: int| 0 <= a < b < after.len() implies (#[trigger] after[a]) < (
    #[trigger] after[b]) by {
        assert(after[a] == before[a]);
        if b < before.len() {
            assert(after[b] == before[b]);
        }
    }
    assert forall|x: int| 0 <= x < more.len() && #[trigger] more[x] implies after.contains(
        x as usize,
    ) by {
        if x < i {
            assert(done[x]);
            assert(before.contains(x as usize));
            let j = choose|j: int| 0 <= j < before.len() && before[j] == x as usize;
            assert(after[j] == x as usize);
        } else {
            assert(after[before.len() as int] == i as usize);
        }
    }
}

} // verus!
