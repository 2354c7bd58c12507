//! The prefix tries that hold the runtime configuration, with what is
//! taken on trust of them.
//!
//! The tries are those of the `prefix_trie` crate, keyed by left-aligned
//! `(bits, length)` pairs. What a trie holds is named by a specification
//! function; each operation used is wrapped in a function whose contract
//! says, over those names, what the operation does. That a set of prefixes
//! has but one listing in lexicographic order is proved here.

use vstd::prelude::*;
use crate::prefix::{is_masked, prefix_mask, Prefix};
use crate::tables::{DestConfig, ExternalConfig};
use prefix_trie::{PrefixMap, PrefixSet};

verus! {

/// `prefix_trie::PrefixMap`, taken as an opaque type.
#[verifier::external_type_specification]
#[verifier::external_body]
#[verifier::reject_recursive_types(P)]
#[verifier::reject_recursive_types(T)]
pub struct ExPrefixMap<P, T>(PrefixMap<P, T>);

/// `prefix_trie::PrefixSet`, taken as an opaque type.
#[verifier::external_type_specification]
#[verifier::external_body]
#[verifier::reject_recursive_types(P)]
pub struct ExPrefixSet<P>(PrefixSet<P>);

/// The entries of a `PrefixMap` of destination configurations: what its
/// operations have left in it.
pub uninterp spec fn dest_entries(m: PrefixMap<(u128, u8), DestConfig>) -> Map<
    (u128, u8),
    DestConfig,
>;

/// The entries of a `PrefixMap` of external configurations: what its
/// operations have left in it.
pub uninterp spec fn external_entries(m: PrefixMap<(u128, u8), ExternalConfig>) -> Map<
    (u128, u8),
    ExternalConfig,
>;

/// The members of a `PrefixSet`: what its operations have left in it.
pub uninterp spec fn set_members(s: PrefixSet<(u128, u8)>) -> Set<(u128, u8)>;

/// A key that a trie takes: canonical, and no longer than 128 bits.
pub open spec fn key_ok(k: Prefix) -> bool {
    k.1 <= 128 && is_masked(k.0, k.1)
}

/// Lexicographic order of prefixes as bit strings: the first differing bit
/// decides, and a prefix comes before its extensions.
pub open spec fn lex_lt(p: Prefix, q: Prefix) -> bool {
    let m = if p.1 <= q.1 {
        p.1
    } else {
        q.1
    };
    let a = p.0 & prefix_mask(m);
    let b = q.0 & prefix_mask(m);
    a < b || (a == b && p.1 < q.1)
}

/// Strictly ascending in lexicographic order.
pub open spec fn lex_sorted(s: Seq<Prefix>) -> bool {
    forall|i: int, j: int| 0 <= i < j < s.len() ==> lex_lt(#[trigger] s[i], #[trigger] s[j])
}

/// Whether `s` lists exactly the members of `keys`, in lexicographic order.
pub open spec fn lists(s: Seq<Prefix>, keys: Set<Prefix>) -> bool {
    lex_sorted(s) && forall|k: Prefix| keys.contains(k) <==> s.contains(k)
}

/// The keys of a list of entries.
pub open spec fn keys_of<V>(s: Seq<(Prefix, V)>) -> Seq<Prefix> {
    Seq::new(s.len(), |i: int| s[i].0)
}

/// Whether `s` lists exactly the entries of `m`, keys in lexicographic
/// order.
pub open spec fn lists_entries<V>(s: Seq<(Prefix, V)>, m: Map<Prefix, V>) -> bool {
    &&& lists(keys_of(s), m.dom())
    &&& forall|i: int| 0 <= i < s.len() ==> m[(#[trigger] s[i]).0] == s[i].1
}

/// The members of a set of prefixes in lexicographic order.
pub open spec fn lex_order(keys: Set<Prefix>) -> Seq<Prefix> {
    choose|s: Seq<Prefix>| lists(s, keys)
}

/// The entries of a map, keys in lexicographic order.
pub open spec fn listing<V>(m: Map<Prefix, V>) -> Seq<(Prefix, V)> {
    Seq::new(lex_order(m.dom()).len(), |i: int| (lex_order(m.dom())[i], m[lex_order(m.dom())[i]]))
}

/// Of two prefixes at most one comes before the other.
pub proof fn lemma_lex_asymmetric(p: Prefix, q: Prefix)
    ensures
        !(lex_lt(p, q) && lex_lt(q, p)),
{
}

/// A set of prefixes has at most one listing in lexicographic order.
pub proof fn lemma_lists_unique(a: Seq<Prefix>, b: Seq<Prefix>, keys: Set<Prefix>)
    requires
        lists(a, keys),
        lists(b, keys),
    ensures
        a == b,
    decreases a.len(),
{
    if a.len() == 0 {
        if b.len() > 0 {
            assert(b.contains(b[0]));
            assert(keys.contains(b[0]));
            assert(a.contains(b[0]));
        }
        assert(a =~= b);
    } else if b.len() == 0 {
        assert(a.contains(a[0]));
        assert(keys.contains(a[0]));
        assert(b.contains(a[0]));
    } else {
        assert(a.contains(a[0]) && b.contains(b[0]));
        assert(keys.contains(a[0]) && keys.contains(b[0]));
        assert(b.contains(a[0]) && a.contains(b[0]));
        let i = choose|i: int| 0 <= i < b.len() && b[i] == a[0];
        let j = choose|j: int| 0 <= j < a.len() && a[j] == b[0];
        if a[0] != b[0] {
            assert(lex_lt(b[0], b[i]));
            assert(lex_lt(a[0], a[j]));
            lemma_lex_asymmetric(a[0], b[0]);
        }
        let rest = keys.remove(a[0]);
        let ta = a.subrange(1, a.len() as int);
        let tb = b.subrange(1, b.len() as int);
        lemma_tail_lists(a, keys);
        lemma_tail_lists(b, keys);
        lemma_lists_unique(ta, tb, rest);
        assert(a =~= b) by {
            assert forall|k: int| 0 <= k < a.len() implies a[k] == b[k] by {
                if k > 0 {
                    assert(ta[k - 1] == a[k]);
                    assert(tb[k - 1] == b[k]);
                }
            }
        }
    }
}

/// Without its first element, a listing of a set lists the set without
/// that element.
proof fn lemma_tail_lists(a: Seq<Prefix>, keys: Set<Prefix>)
    requires
        lists(a, keys),
        a.len() > 0,
    ensures
        lists(a.subrange(1, a.len() as int), keys.remove(a[0])),
{
    let t = a.subrange(1, a.len() as int);
    assert forall|i: int, j: int| 0 <= i < j < t.len() implies lex_lt(
        #[trigger] t[i],
        #[trigger] t[j],
    ) by {
        assert(t[i] == a[i + 1] && t[j] == a[j + 1]);
    }
    assert forall|k: Prefix| keys.remove(a[0]).contains(k) <==> t.contains(k) by {
        if keys.remove(a[0]).contains(k) {
            assert(a.contains(k));
            let i = choose|i: int| 0 <= i < a.len() && a[i] == k;
            assert(t[i - 1] == k);
        }
        if t.contains(k) {
            let i = choose|i: int| 0 <= i < t.len() && t[i] == k;
            assert(a[i + 1] == k);
            assert(a.contains(k));
            assert(lex_lt(a[0], a[i + 1]));
        }
    }
}

/// A listing of a set in lexicographic order is the listing of the set.
pub proof fn lemma_listing_is(s: Seq<Prefix>, keys: Set<Prefix>)
    requires
        lists(s, keys),
    ensures
        s == lex_order(keys),
{
    lemma_lists_unique(s, lex_order(keys), keys);
}

/// A listing of the entries of a map, keys in lexicographic order, is the
/// listing of the map.
pub proof fn lemma_entries_listing_is<V>(s: Seq<(Prefix, V)>, m: Map<Prefix, V>)
    requires
        lists_entries(s, m),
    ensures
        s == listing(m),
{
    lemma_listing_is(keys_of(s), m.dom());
    assert(s =~= listing(m)) by {
        assert(s.len() == keys_of(s).len());
        assert forall|i: int| 0 <= i < s.len() implies s[i] == listing(m)[i] by {
            assert(keys_of(s)[i] == s[i].0);
        }
    }
}

/// `PrefixMap::new`: the new trie has no entry.
#[verifier::external_body]
pub(crate) fn dest_map_new() -> (m: PrefixMap<(u128, u8), DestConfig>)
    ensures
        dest_entries(m).dom() == Set::<Prefix>::empty(),
{
    PrefixMap::new()
}

/// `PrefixMap::get`: the value stored at exactly the key, if there is one.
#[verifier::external_body]
pub(crate) fn dest_map_get(m: &PrefixMap<(u128, u8), DestConfig>, k: (u128, u8)) -> (r: Option<
    DestConfig,
>)
    requires
        key_ok(k),
    ensures
        r == (if dest_entries(*m).contains_key(k) {
            Some(dest_entries(*m)[k])
        } else {
            None
        }),
{
    m.get(&k).copied()
}

/// `PrefixMap::insert`: afterwards the key holds the value, and every other
/// key holds what it held.
#[verifier::external_body]
pub(crate) fn dest_map_insert(
    m: &mut PrefixMap<(u128, u8), DestConfig>,
    k: (u128, u8),
    v: DestConfig,
)
    requires
        key_ok(k),
    ensures
        dest_entries(*final(m)) == dest_entries(*old(m)).insert(k, v),
{
    m.insert(k, v);
}

/// `PrefixMap::iter`: every entry once, keys in lexicographic order.
#[verifier::external_body]
fn dest_map_iter(m: &PrefixMap<(u128, u8), DestConfig>) -> (v: Vec<((u128, u8), DestConfig)>)
    ensures
        lists_entries(v@, dest_entries(*m)),
{
    m.iter().map(|(k, c)| (k, *c)).collect()
}

/// The entries of a destination-configuration trie, keys in lexicographic
/// order.
pub(crate) fn dest_map_listing(m: &PrefixMap<(u128, u8), DestConfig>) -> (v: Vec<
    (Prefix, DestConfig),
>)
    ensures
        v@ == listing(dest_entries(*m)),
        lists(keys_of(v@), dest_entries(*m).dom()),
{
    let v = dest_map_iter(m);
    proof {
        lemma_entries_listing_is(v@, dest_entries(*m));
    }
    v
}

/// `PrefixMap::new`: the new trie has no entry.
#[verifier::external_body]
pub(crate) fn external_map_new() -> (m: PrefixMap<(u128, u8), ExternalConfig>)
    ensures
        external_entries(m).dom() == Set::<Prefix>::empty(),
{
    PrefixMap::new()
}

/// `PrefixMap::get`: the value stored at exactly the key, if there is one.
#[verifier::external_body]
pub(crate) fn external_map_get(
    m: &PrefixMap<(u128, u8), ExternalConfig>,
    k: (u128, u8),
) -> (r: Option<ExternalConfig>)
    requires
        key_ok(k),
    ensures
        r == (if external_entries(*m).contains_key(k) {
            Some(external_entries(*m)[k])
        } else {
            None
        }),
{
    m.get(&k).copied()
}

/// `PrefixMap::insert`: afterwards the key holds the value, and every other
/// key holds what it held.
#[verifier::external_body]
pub(crate) fn external_map_insert(
    m: &mut PrefixMap<(u128, u8), ExternalConfig>,
    k: (u128, u8),
    v: ExternalConfig,
)
    requires
        key_ok(k),
    ensures
        external_entries(*final(m)) == external_entries(*old(m)).insert(k, v),
{
    m.insert(k, v);
}

/// `PrefixMap::iter`: every entry once, keys in lexicographic order.
#[verifier::external_body]
fn external_map_iter(m: &PrefixMap<(u128, u8), ExternalConfig>) -> (v: Vec<
    ((u128, u8), ExternalConfig),
>)
    ensures
        lists_entries(v@, external_entries(*m)),
{
    m.iter().map(|(k, c)| (k, *c)).collect()
}

/// The entries of an external-configuration trie, keys in lexicographic
/// order.
pub(crate) fn external_map_listing(m: &PrefixMap<(u128, u8), ExternalConfig>) -> (v: Vec<
    (Prefix, ExternalConfig),
>)
    ensures
        v@ == listing(external_entries(*m)),
        lists(keys_of(v@), external_entries(*m).dom()),
{
    let v = external_map_iter(m);
    proof {
        lemma_entries_listing_is(v@, external_entries(*m));
    }
    v
}

/// `PrefixSet::new`: the new set has no member.
#[verifier::external_body]
pub(crate) fn prefix_set_new() -> (s: PrefixSet<(u128, u8)>)
    ensures
        set_members(s) == Set::<Prefix>::empty(),
{
    PrefixSet::new()
}

/// `PrefixSet::insert`: afterwards the prefix is a member, beside those
/// that were.
#[verifier::external_body]
pub(crate) fn prefix_set_insert(s: &mut PrefixSet<(u128, u8)>, k: (u128, u8))
    requires
        key_ok(k),
    ensures
        set_members(*final(s)) == set_members(*old(s)).insert(k),
{
    s.insert(k);
}

/// `PrefixSet::remove`: afterwards the prefix is no member; the others
/// stay.
#[verifier::external_body]
pub(crate) fn prefix_set_remove(s: &mut PrefixSet<(u128, u8)>, k: (u128, u8))
    requires
        key_ok(k),
    ensures
        set_members(*final(s)) == set_members(*old(s)).remove(k),
{
    s.remove(&k);
}

/// `PrefixSet::iter`: every member once, in lexicographic order.
#[verifier::external_body]
fn prefix_set_iter(s: &PrefixSet<(u128, u8)>) -> (v: Vec<(u128, u8)>)
    ensures
        lists(v@, set_members(*s)),
{
    s.iter().collect()
}

/// The members of a prefix set in lexicographic order.
pub(crate) fn prefix_set_listing(s: &PrefixSet<(u128, u8)>) -> (v: Vec<Prefix>)
    ensures
        v@ == lex_order(set_members(*s)),
        lists(v@, set_members(*s)),
{
    let v = prefix_set_iter(s);
    proof {
        lemma_listing_is(v@, set_members(*s));
    }
    v
}

} // verus!
