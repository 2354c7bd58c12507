//! Differences between two prefix-indexed tables.

use vstd::prelude::*;
use crate::prefix::Prefix;
use crate::tables::{DestConfig, ExternalConfig};
use crate::trie::{
    dest_entries, dest_map_get, dest_map_listing, external_entries, external_map_get,
    external_map_listing, key_ok, keys_of, listing, lists,
};
use prefix_trie::PrefixMap;

verus! {

/// One difference between an old and a new table.
#[derive(Debug, PartialEq, Eq)]
pub enum MapChange<V> {
    /// The key is new; it holds the value.
    Insert(Prefix, V),
    /// The key stays; its value changes to this one.
    Update(Prefix, V),
    /// The key is gone.
    Delete(Prefix),
}

impl<V> MapChange<V> {
    /// The key that the change is about.
    pub open spec fn key(self) -> Prefix {
        match self {
            MapChange::Insert(k, _) => k,
            MapChange::Update(k, _) => k,
            MapChange::Delete(k) => k,
        }
    }

    /// Whether the change is one that leads from `old` to `new`.
    pub open spec fn justified(self, old: Map<Prefix, V>, new: Map<Prefix, V>) -> bool {
        match self {
            MapChange::Insert(k, v) => !old.contains_key(k) && new.contains_key(k) && new[k] == v,
            MapChange::Update(k, v) => old.contains_key(k) && new.contains_key(k) && old[k]
                != new[k] && new[k] == v,
            MapChange::Delete(k) => old.contains_key(k) && !new.contains_key(k),
        }
    }

    /// The table after the change is made in `m`.
    pub open spec fn apply_to(self, m: Map<Prefix, V>) -> Map<Prefix, V> {
        match self {
            MapChange::Insert(k, v) => m.insert(k, v),
            MapChange::Update(k, v) => m.insert(k, v),
            MapChange::Delete(k) => m.remove(k),
        }
    }
}

/// Whether the key `k` differs between the two tables: present in one
/// only, or holding different values.
pub open spec fn differs<V>(old: Map<Prefix, V>, new: Map<Prefix, V>, k: Prefix) -> bool {
    (old.contains_key(k) != new.contains_key(k)) || (old.contains_key(k) && old[k] != new[k])
}

/// Whether `changes` is a difference from `old` to `new`: every change
/// leads from `old` to `new`, and every key that differs has exactly one
/// change.
pub open spec fn is_diff<V>(changes: Seq<MapChange<V>>, old: Map<Prefix, V>, new: Map<Prefix, V>) -> bool {
    &&& forall|i: int| 0 <= i < changes.len() ==> (#[trigger] changes[i]).justified(old, new)
    &&& forall|i: int, j: int|
        0 <= i < j < changes.len() ==> (#[trigger] changes[i]).key() != (#[trigger] changes[j]).key()
    &&& forall|k: Prefix|
        differs(old, new, k) ==> exists|i: int|
            0 <= i < changes.len() && (#[trigger] changes[i]).key() == k
}

/// The table after the changes are made in `m`, in order.
pub open spec fn apply_changes<V>(m: Map<Prefix, V>, changes: Seq<MapChange<V>>) -> Map<Prefix, V>
    decreases changes.len(),
{
    if changes.len() == 0 {
        m
    } else {
        changes.last().apply_to(apply_changes(m, changes.drop_last()))
    }
}

/// After changes that lead from `old` to `new`, no two about one key, a key
/// that has a change holds what it holds in `new`, and any other key holds
/// what it held.
pub proof fn lemma_apply_changes<V>(
    changes: Seq<MapChange<V>>,
    old: Map<Prefix, V>,
    new: Map<Prefix, V>,
    k: Prefix,
)
    requires
        forall|i: int| 0 <= i < changes.len() ==> (#[trigger] changes[i]).justified(old, new),
    ensures
        (exists|i: int| 0 <= i < changes.len() && (#[trigger] changes[i]).key() == k) ==> (
        apply_changes(old, changes).contains_key(k) == new.contains_key(k) && (new.contains_key(k)
            ==> apply_changes(old, changes)[k] == new[k])),
        !(exists|i: int| 0 <= i < changes.len() && (#[trigger] changes[i]).key() == k) ==> (
        apply_changes(old, changes).contains_key(k) == old.contains_key(k) && (old.contains_key(k)
            ==> apply_changes(old, changes)[k] == old[k])),
    decreases changes.len(),
{
    if changes.len() > 0 {
        let rest = changes.drop_last();
        let last = changes.last();
        assert forall|i: int| 0 <= i < rest.len() implies (#[trigger] rest[i]).justified(
            old,
            new,
        ) by {
            assert(rest[i] == changes[i]);
        }
        lemma_apply_changes(rest, old, new, k);
        assert(last == changes[changes.len() - 1]);
        assert(last.justified(old, new));
        if exists|i: int| 0 <= i < rest.len() && (#[trigger] rest[i]).key() == k {
            let i = choose|i: int| 0 <= i < rest.len() && (#[trigger] rest[i]).key() == k;
            assert(changes[i].key() == k);
        }
        if exists|i: int| 0 <= i < changes.len() && (#[trigger] changes[i]).key() == k {
            let i = choose|i: int| 0 <= i < changes.len() && (#[trigger] changes[i]).key() == k;
            if i < rest.len() {
                assert(rest[i].key() == k);
            }
        }
    }
}

/// Making a difference from `old` to `new` in `old` gives `new`.
pub proof fn lemma_diff_leads_to_new<V>(
    changes: Seq<MapChange<V>>,
    old: Map<Prefix, V>,
    new: Map<Prefix, V>,
)
    requires
        is_diff(changes, old, new),
    ensures
        apply_changes(old, changes) == new,
{
    let got = apply_changes(old, changes);
    assert forall|k: Prefix| #[trigger] got.dom().contains(k) == new.dom().contains(k) by {
        lemma_apply_changes(changes, old, new, k);
        if !(exists|i: int| 0 <= i < changes.len() && (#[trigger] changes[i]).key() == k) {
            assert(!differs(old, new, k));
        }
    }
    assert forall|k: Prefix| #[trigger] got.dom().contains(k) implies got[k] == new[k] by {
        lemma_apply_changes(changes, old, new, k);
        if !(exists|i: int| 0 <= i < changes.len() && (#[trigger] changes[i]).key() == k) {
            assert(!differs(old, new, k));
        }
    }
    assert(got =~= new);
}

/// Between a table and itself there is no difference.
pub proof fn lemma_diff_of_same<V>(changes: Seq<MapChange<V>>, m: Map<Prefix, V>)
    requires
        is_diff(changes, m, m),
    ensures
        changes.len() == 0,
{
    if changes.len() > 0 {
        assert(changes[0].justified(m, m));
    }
}

/// A value of a table: two of them can be compared.
pub trait TableValue: Copy {
    /// Whether the two values are equal.
    fn equals(&self, other: &Self) -> (r: bool)
        ensures
            r == (*self == *other),
    ;
}

impl TableValue for DestConfig {
    fn equals(&self, other: &Self) -> (r: bool) {
        self.no_snat == other.no_snat && self.hairpin == other.hairpin
    }
}

impl TableValue for ExternalConfig {
    fn equals(&self, other: &Self) -> (r: bool) {
        self.same(other)
    }
}

/// A prefix-indexed table that can be looked up and listed.
pub trait Table {
    type Value: TableValue;

    /// What the table holds.
    spec fn entries(&self) -> Map<Prefix, Self::Value>;

    /// The value at exactly the key `k`.
    fn lookup(&self, k: Prefix) -> (r: Option<Self::Value>)
        requires
            key_ok(k),
        ensures
            r == (if self.entries().contains_key(k) {
                Some(self.entries()[k])
            } else {
                None
            }),
    ;

    /// Every entry once, keys in lexicographic order.
    fn entry_list(&self) -> (v: Vec<(Prefix, Self::Value)>)
        ensures
            v@ == listing(self.entries()),
            lists(keys_of(v@), self.entries().dom()),
    ;
}

impl Table for PrefixMap<(u128, u8), DestConfig> {
    type Value = DestConfig;

    open spec fn entries(&self) -> Map<Prefix, DestConfig> {
        dest_entries(*self)
    }

    fn lookup(&self, k: Prefix) -> (r: Option<DestConfig>) {
        dest_map_get(self, k)
    }

    fn entry_list(&self) -> (v: Vec<(Prefix, DestConfig)>) {
        dest_map_listing(self)
    }
}

impl Table for PrefixMap<(u128, u8), ExternalConfig> {
    type Value = ExternalConfig;

    open spec fn entries(&self) -> Map<Prefix, ExternalConfig> {
        external_entries(*self)
    }

    fn lookup(&self, k: Prefix) -> (r: Option<ExternalConfig>) {
        external_map_get(self, k)
    }

    fn entry_list(&self) -> (v: Vec<(Prefix, ExternalConfig)>) {
        external_map_listing(self)
    }
}

/// Whether `k` is among the first `n` of `keys`.
pub open spec fn among(keys: Seq<Prefix>, n: int, k: Prefix) -> bool {
    exists|x: int| 0 <= x < n && #[trigger] keys[x] == k
}

/// Whether some change of the list is about the key `k`.
pub open spec fn has_change<V>(changes: Seq<MapChange<V>>, k: Prefix) -> bool {
    exists|i: int| 0 <= i < changes.len() && (#[trigger] changes[i]).key() == k
}

/// The difference from `old` to `new`: a deletion for each key of `old`
/// that `new` lacks, then for each key of `new` an insertion where `old`
/// lacks it, an update where `old` holds another value.
pub fn diff<T: Table>(old: &T, new: &T) -> (changes: Vec<MapChange<T::Value>>)
    requires
        forall|k: Prefix| #[trigger] old.entries().contains_key(k) ==> key_ok(k),
        forall|k: Prefix| #[trigger] new.entries().contains_key(k) ==> key_ok(k),
    ensures
        is_diff(changes@, old.entries(), new.entries()),
{
    let ghost om = old.entries();
    let ghost nm = new.entries();
    let ol = old.entry_list();
    let nl = new.entry_list();
    let ghost ok = keys_of(ol@);
    let ghost nk = keys_of(nl@);
    let mut changes: Vec<MapChange<T::Value>> = Vec::new();
    let mut i: usize = 0;
    while i < ol.len()
        invariant
            0 <= i <= ol.len(),
            om == old.entries(),
            nm == new.entries(),
            ol@ == listing(om),
            ok == keys_of(ol@),
            lists(ok, om.dom()),
            forall|k: Prefix| #[trigger] om.contains_key(k) ==> key_ok(k),
            forall|a: int| 0 <= a < changes.len() ==> (#[trigger] changes@[a]).justified(om, nm),
            forall|a: int|
                0 <= a < changes.len() ==> among(ok, i as int, (#[trigger] changes@[a]).key()),
            forall|a: int| 0 <= a < changes.len() ==> !nm.contains_key((#[trigger] changes@[a]).key()),
            forall|a: int, b: int|
                0 <= a < b < changes.len() ==> (#[trigger] changes@[a]).key() != (
                #[trigger] changes@[b]).key(),
            forall|x: int| 0 <= x < i && !nm.contains_key(#[trigger] ok[x]) ==> has_change(changes@, ok[x]),
        decreases ol.len() - i,
    {
        let k = ol[i].0;
        let ghost before = changes@;
        proof {
            assert(ok[i as int] == k);
            assert(ok.contains(k));
            assert(om.dom().contains(k));
        }
        if new.lookup(k).is_none() {
            changes.push(MapChange::Delete(k));
            proof {
                let n = before.len() as int;
                assert(changes@[n].key() == k);
                assert forall|a: int| 0 <= a < n implies (#[trigger] changes@[a]).key() != k by {
                    assert(changes@[a] == before[a]);
                    assert(among(ok, i as int, before[a].key()));
                    let x = choose|x: int| 0 <= x < i && #[trigger] ok[x] == before[a].key();
                    assert(crate::trie::lex_lt(ok[x], ok[i as int]));
                }
                assert forall|a: int| 0 <= a < changes.len() implies among(
                    ok,
                    i as int + 1,
                    (#[trigger] changes@[a]).key(),
                ) by {
                    if a < n {
                        assert(changes@[a] == before[a]);
                        assert(among(ok, i as int, before[a].key()));
                        let x = choose|x: int| 0 <= x < i && #[trigger] ok[x] == before[a].key();
                        assert(ok[x] == changes@[a].key());
                    } else {
                        assert(ok[i as int] == changes@[a].key());
                    }
                }
            }
        }
        proof {
            assert forall|x: int| 0 <= x < i + 1 && !nm.contains_key(#[trigger] ok[x]) implies has_change(
                changes@,
                ok[x],
            ) by {
                if x < i {
                    assert(has_change(before, ok[x]));
                    let a = choose|a: int| 0 <= a < before.len() && (#[trigger] before[a]).key() == ok[x];
                    assert(changes@[a].key() == ok[x]);
                } else {
                    assert(changes@[before.len() as int].key() == k);
                }
            }
        }
        i += 1;
    }
    let ghost deleted = changes@;
    let mut j: usize = 0;
    while j < nl.len()
        invariant
            0 <= j <= nl.len(),
            om == old.entries(),
            nm == new.entries(),
            nl@ == listing(nm),
            nk == keys_of(nl@),
            lists(nk, nm.dom()),
            lists(ok, om.dom()),
            forall|k: Prefix| #[trigger] nm.contains_key(k) ==> key_ok(k),
            forall|a: int| 0 <= a < changes.len() ==> (#[trigger] changes@[a]).justified(om, nm),
            deleted.len() <= changes.len(),
            forall|a: int| 0 <= a < deleted.len() ==> changes@[a] == #[trigger] deleted[a],
            forall|a: int| 0 <= a < deleted.len() ==> !nm.contains_key((#[trigger] deleted[a]).key()),
            forall|a: int|
                deleted.len() <= a < changes.len() ==> among(
                    nk,
                    j as int,
                    (#[trigger] changes@[a]).key(),
                ),
            forall|a: int, b: int|
                0 <= a < b < changes.len() ==> (#[trigger] changes@[a]).key() != (
                #[trigger] changes@[b]).key(),
            forall|x: int| 0 <= x < ok.len() && !nm.contains_key(#[trigger] ok[x]) ==> has_change(changes@, ok[x]),
            forall|x: int| 0 <= x < j && differs(om, nm, #[trigger] nk[x]) ==> has_change(changes@, nk[x]),
        decreases nl.len() - j,
    {
        let k = nl[j].0;
        let v = nl[j].1;
        let ghost before = changes@;
        proof {
            assert(nk[j as int] == k);
            assert(nk.contains(k));
            assert(nm.dom().contains(k));
            assert(nl@[j as int] == listing(nm)[j as int]);
            assert(v == nm[k]);
        }
        let change = match old.lookup(k) {
            None => Some(MapChange::Insert(k, v)),
            Some(o) => if o.equals(&v) {
                None
            } else {
                Some(MapChange::Update(k, v))
            },
        };
        if let Some(c) = change {
            changes.push(c);
            proof {
                let n = before.len() as int;
                assert(changes@[n].key() == k);
                assert forall|a: int| 0 <= a < n implies (#[trigger] changes@[a]).key() != k by {
                    assert(changes@[a] == before[a]);
                    if a >= deleted.len() {
                        assert(among(nk, j as int, before[a].key()));
                        let x = choose|x: int| 0 <= x < j && #[trigger] nk[x] == before[a].key();
                        assert(crate::trie::lex_lt(nk[x], nk[j as int]));
                    } else {
                        assert(before[a] == deleted[a]);
                    }
                }
                assert forall|a: int| deleted.len() <= a < changes.len() implies among(
                    nk,
                    j as int + 1,
                    (#[trigger] changes@[a]).key(),
                ) by {
                    if a < n {
                        assert(changes@[a] == before[a]);
                        assert(among(nk, j as int, before[a].key()));
                        let x = choose|x: int| 0 <= x < j && #[trigger] nk[x] == before[a].key();
                        assert(nk[x] == changes@[a].key());
                    } else {
                        assert(nk[j as int] == changes@[a].key());
                    }
                }
            }
        }
        proof {
            assert forall|x: int| 0 <= x < ok.len() && !nm.contains_key(#[trigger] ok[x]) implies has_change(
                changes@,
                ok[x],
            ) by {
                assert(has_change(before, ok[x]));
                let a = choose|a: int| 0 <= a < before.len() && (#[trigger] before[a]).key() == ok[x];
                assert(changes@[a].key() == ok[x]);
            }
            assert forall|x: int| 0 <= x < j + 1 && differs(om, nm, #[trigger] nk[x]) implies has_change(
                changes@,
                nk[x],
            ) by {
                if x < j {
                    assert(has_change(before, nk[x]));
                    let a = choose|a: int| 0 <= a < before.len() && (#[trigger] before[a]).key() == nk[x];
                    assert(changes@[a].key() == nk[x]);
                } else {
                    assert(changes@[before.len() as int].key() == k);
                }
            }
        }
        j += 1;
    }
    proof {
        assert forall|k: Prefix| differs(om, nm, k) implies exists|a: int|
            0 <= a < changes.len() && (#[trigger] changes@[a]).key() == k by {
            if nm.contains_key(k) {
                assert(nm.dom().contains(k));
                assert(nk.contains(k));
                let x = choose|x: int| 0 <= x < nk.len() && nk[x] == k;
                assert(has_change(changes@, nk[x]));
            } else {
                assert(om.dom().contains(k));
                assert(ok.contains(k));
                let x = choose|x: int| 0 <= x < ok.len() && ok[x] == k;
                assert(has_change(changes@, ok[x]));
            }
        }
    }
    changes
}

} // verus!
