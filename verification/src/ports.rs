//! Port-range algebra: inclusive 16-bit port ranges, their canonical form,
//! and containment between lists of ranges.

use vstd::prelude::*;
use crate::error::ConfigError;

verus! {

/// Number of port-range slots per protocol in the data plane's tables.
pub const MAX_PORT_RANGES: usize = 4;

/// A closed interval `[start, end]` of ports. It is empty when
/// `start > end`.
#[derive(Clone, Copy, Debug, PartialEq, Eq, Structural)]
pub struct PortRange {
    pub start: u16,
    pub end: u16,
}

/// A port range as it appears in the declarative policy.
#[derive(Clone, Copy, Debug, PartialEq, Eq, Structural)]
pub struct ProtoRange {
    pub inner: PortRange,
}

/// Whether port `p` lies in `r`.
pub open spec fn in_range(r: PortRange, p: int) -> bool {
    r.start <= p <= r.end
}

/// The ports of one range.
pub open spec fn range_set(r: PortRange) -> Set<int> {
    Set::new(|p: int| in_range(r, p))
}

/// The set of ports covered by a list of ranges: the union of its elements.
pub open spec fn ports_of(s: Seq<PortRange>) -> Set<int> {
    Set::new(|p: int| exists|i: int| 0 <= i < s.len() && in_range(#[trigger] s[i], p))
}

/// Canonical form: no empty range, ascending, and a gap of at least one port
/// between any two ranges (so no two overlap or touch).
pub open spec fn is_canonical(s: Seq<PortRange>) -> bool {
    &&& forall|i: int| 0 <= i < s.len() ==> (#[trigger] s[i]).start <= s[i].end
    &&& forall|i: int, j: int|
        0 <= i < j < s.len() ==> (#[trigger] s[i]).end + 1 < (#[trigger] s[j]).start
}

/// The canonical list that covers exactly the ports of `s`.
pub open spec fn normalized(s: Seq<PortRange>) -> Seq<PortRange> {
    choose|c: Seq<PortRange>| is_canonical(c) && ports_of(c) == ports_of(s)
}

/// Ascending by start, every range non-empty.
pub open spec fn sorted_by_start(s: Seq<PortRange>) -> bool {
    &&& forall|i: int| 0 <= i < s.len() ==> (#[trigger] s[i]).start <= s[i].end
    &&& forall|i: int, j: int|
        0 <= i < j < s.len() ==> (#[trigger] s[i]).start <= (#[trigger] s[j]).start
}

pub proof fn lemma_ports_push(s: Seq<PortRange>, r: PortRange)
    ensures
        ports_of(s.push(r)) == ports_of(s).union(range_set(r)),
{
    let t = s.push(r);
    assert forall|p: int| ports_of(t).contains(p) <==> ports_of(s).union(range_set(r)).contains(
        p,
    ) by {
        if ports_of(t).contains(p) {
            let i = choose|i: int| 0 <= i < t.len() && in_range(#[trigger] t[i], p);
            if i < s.len() {
                assert(in_range(s[i], p));
            }
        }
        if ports_of(s).contains(p) {
            let i = choose|i: int| 0 <= i < s.len() && in_range(#[trigger] s[i], p);
            assert(in_range(t[i], p));
        }
        if range_set(r).contains(p) {
            assert(in_range(t[s.len() as int], p));
        }
    }
    assert(ports_of(t) =~= ports_of(s).union(range_set(r)));
}

pub proof fn lemma_ports_insert(s: Seq<PortRange>, idx: int, r: PortRange)
    requires
        0 <= idx <= s.len(),
    ensures
        ports_of(s.insert(idx, r)) == ports_of(s).union(range_set(r)),
{
    let t = s.insert(idx, r);
    assert forall|p: int| ports_of(t).contains(p) <==> ports_of(s).union(range_set(r)).contains(
        p,
    ) by {
        if ports_of(t).contains(p) {
            let i = choose|i: int| 0 <= i < t.len() && in_range(#[trigger] t[i], p);
            if i < idx {
                assert(in_range(s[i], p));
            } else if i > idx {
                assert(in_range(s[i - 1], p));
            }
        }
        if ports_of(s).contains(p) {
            let i = choose|i: int| 0 <= i < s.len() && in_range(#[trigger] s[i], p);
            if i < idx {
                assert(in_range(t[i], p));
            } else {
                assert(in_range(t[i + 1], p));
            }
        }
        if range_set(r).contains(p) {
            assert(in_range(t[idx], p));
        }
    }
    assert(ports_of(t) =~= ports_of(s).union(range_set(r)));
}

pub proof fn lemma_ports_empty()
    ensures
        ports_of(Seq::<PortRange>::empty()) == Set::<int>::empty(),
{
    assert(ports_of(Seq::<PortRange>::empty()) =~= Set::<int>::empty());
}

/// A canonical list is determined by the ports it covers.
pub proof fn lemma_canonical_unique(a: Seq<PortRange>, b: Seq<PortRange>)
    requires
        is_canonical(a),
        is_canonical(b),
        ports_of(a) == ports_of(b),
    ensures
        a == b,
    decreases a.len(),
{
    if a.len() == 0 {
        if b.len() > 0 {
            assert(in_range(b[0], b[0].start as int));
            assert(ports_of(b).contains(b[0].start as int));
            assert(ports_of(a).contains(b[0].start as int));
        }
        assert(a =~= b);
    } else if b.len() == 0 {
        assert(in_range(a[0], a[0].start as int));
        assert(ports_of(a).contains(a[0].start as int));
        assert(ports_of(b).contains(a[0].start as int));
    } else {
        lemma_first_range(a, b);
        lemma_first_range(b, a);
        assert(a[0] == b[0]);
        let ta = a.subrange(1, a.len() as int);
        let tb = b.subrange(1, b.len() as int);
        lemma_tail_ports(a, b);
        lemma_tail_ports(b, a);
        assert(ports_of(ta) =~= ports_of(tb));
        assert(is_canonical(ta)) by {
            assert forall|i: int, j: int| 0 <= i < j < ta.len() implies (#[trigger] ta[i]).end + 1
                < (#[trigger] ta[j]).start by {
                assert(ta[i] == a[i + 1] && ta[j] == a[j + 1]);
            }
            assert forall|i: int| 0 <= i < ta.len() implies (#[trigger] ta[i]).start
                <= ta[i].end by {
                assert(ta[i] == a[i + 1]);
            }
        }
        assert(is_canonical(tb)) by {
            assert forall|i: int, j: int| 0 <= i < j < tb.len() implies (#[trigger] tb[i]).end + 1
                < (#[trigger] tb[j]).start by {
                assert(tb[i] == b[i + 1] && tb[j] == b[j + 1]);
            }
            assert forall|i: int| 0 <= i < tb.len() implies (#[trigger] tb[i]).start
                <= tb[i].end by {
                assert(tb[i] == b[i + 1]);
            }
        }
        lemma_canonical_unique(ta, tb);
        assert(a =~= b) by {
            assert(a.len() == b.len());
            assert forall|i: int| 0 <= i < a.len() implies a[i] == b[i] by {
                if i > 0 {
                    assert(ta[i - 1] == a[i]);
                    assert(tb[i - 1] == b[i]);
                }
            }
        }
    }
}

/// With equal port sets, the first range of `a` starts no earlier and ends
/// no later than the first range of `b`.
proof fn lemma_first_range(a: Seq<PortRange>, b: Seq<PortRange>)
    requires
        is_canonical(a),
        is_canonical(b),
        ports_of(a) == ports_of(b),
        a.len() > 0,
        b.len() > 0,
    ensures
        b[0].start <= a[0].start,
        b[0].start == a[0].start ==> a[0].end <= b[0].end,
{
    let p = a[0].start as int;
    assert(in_range(a[0], p));
    assert(ports_of(a).contains(p));
    assert(ports_of(b).contains(p));
    let j = choose|j: int| 0 <= j < b.len() && in_range(#[trigger] b[j], p);
    if j > 0 {
        assert(b[0].end + 1 < b[j].start);
    }
    if b[0].start == a[0].start && a[0].end > b[0].end {
        let q = b[0].end + 1;
        assert(in_range(a[0], q));
        assert(ports_of(a).contains(q));
        assert(ports_of(b).contains(q));
        let k = choose|k: int| 0 <= k < b.len() && in_range(#[trigger] b[k], q);
        if k > 0 {
            assert(b[0].end + 1 < b[k].start);
        }
    }
}

/// With equal port sets and equal first ranges, every port of the tail of
/// `a` is a port of the tail of `b`.
proof fn lemma_tail_ports(a: Seq<PortRange>, b: Seq<PortRange>)
    requires
        is_canonical(a),
        is_canonical(b),
        ports_of(a) == ports_of(b),
        a.len() > 0,
        b.len() > 0,
        a[0] == b[0],
    ensures
        ports_of(a.subrange(1, a.len() as int)).subset_of(
            ports_of(b.subrange(1, b.len() as int)),
        ),
{
    let ta = a.subrange(1, a.len() as int);
    let tb = b.subrange(1, b.len() as int);
    assert forall|p: int| ports_of(ta).contains(p) implies ports_of(tb).contains(p) by {
        let i = choose|i: int| 0 <= i < ta.len() && in_range(#[trigger] ta[i], p);
        assert(ta[i] == a[i + 1]);
        assert(a[0].end + 1 < a[i + 1].start);
        assert(in_range(a[i + 1], p));
        assert(ports_of(a).contains(p));
        assert(ports_of(b).contains(p));
        let j = choose|j: int| 0 <= j < b.len() && in_range(#[trigger] b[j], p);
        assert(j > 0);
        assert(tb[j - 1] == b[j]);
        assert(in_range(tb[j - 1], p));
    }
}

/// For every set of ports there is a canonical list covering exactly its
/// members below `n`.
proof fn lemma_canonical_exists(ports: Set<int>, n: int) -> (c: Seq<PortRange>)
    requires
        0 <= n <= 65536,
    ensures
        is_canonical(c),
        forall|p: int| ports_of(c).contains(p) <==> (ports.contains(p) && 0 <= p < n),
        forall|i: int| 0 <= i < c.len() ==> (#[trigger] c[i]).end < n,
    decreases n,
{
    if n == 0 {
        let c = Seq::<PortRange>::empty();
        lemma_ports_empty();
        c
    } else {
        let m = n - 1;
        let c0 = lemma_canonical_exists(ports, m);
        if !ports.contains(m) {
            c0
        } else if c0.len() > 0 && c0.last().end == m - 1 {
            let last = c0.last();
            let wide = PortRange { start: last.start, end: m as u16 };
            let c = c0.drop_last().push(wide);
            assert(is_canonical(c)) by {
                assert forall|i: int, j: int| 0 <= i < j < c.len() implies (#[trigger] c[i]).end
                    + 1 < (#[trigger] c[j]).start by {
                    assert(c[i] == c0[i]);
                    assert(c[j].start == c0[j].start);
                }
                assert forall|i: int| 0 <= i < c.len() implies (#[trigger] c[i]).start
                    <= c[i].end by {
                    assert(c[i].start == c0[i].start);
                    assert(c0[i].start <= c0[i].end);
                }
            }
            assert forall|p: int| ports_of(c).contains(p) <==> (ports.contains(p) && 0 <= p
                < n) by {
                if ports_of(c).contains(p) {
                    let i = choose|i: int| 0 <= i < c.len() && in_range(#[trigger] c[i], p);
                    if p != m {
                        assert(in_range(c0[i], p));
                        assert(ports_of(c0).contains(p));
                    }
                }
                if ports.contains(p) && 0 <= p < n {
                    if p == m {
                        assert(in_range(c[c.len() - 1], p));
                    } else {
                        assert(ports_of(c0).contains(p));
                        let i = choose|i: int| 0 <= i < c0.len() && in_range(#[trigger] c0[i], p);
                        assert(in_range(c[i], p));
                    }
                }
            }
            c
        } else {
            let one = PortRange { start: m as u16, end: m as u16 };
            let c = c0.push(one);
            lemma_ports_push(c0, one);
            assert(is_canonical(c)) by {
                assert forall|i: int, j: int| 0 <= i < j < c.len() implies (#[trigger] c[i]).end
                    + 1 < (#[trigger] c[j]).start by {
                    if j == c0.len() {
                        assert(c[i] == c0[i]);
                        if i < c0.len() - 1 {
                            assert(c0[i].end + 1 < c0[c0.len() - 1].start);
                            assert(c0.last().start <= c0.last().end);
                        }
                    } else {
                        assert(c[i] == c0[i] && c[j] == c0[j]);
                    }
                }
            }
            assert forall|p: int| ports_of(c).contains(p) <==> (ports.contains(p) && 0 <= p
                < n) by {
                assert(range_set(one).contains(p) <==> p == m);
            }
            c
        }
    }
}

/// `normalized` is well defined: it is canonical and covers the same ports.
pub proof fn lemma_normalized(s: Seq<PortRange>)
    ensures
        is_canonical(normalized(s)),
        ports_of(normalized(s)) == ports_of(s),
{
    let c = lemma_canonical_exists(ports_of(s), 65536);
    assert(ports_of(c) =~= ports_of(s)) by {
        assert forall|p: int| ports_of(s).contains(p) implies 0 <= p < 65536 by {
            let i = choose|i: int| 0 <= i < s.len() && in_range(#[trigger] s[i], p);
        }
    }
    assert(is_canonical(c) && ports_of(c) == ports_of(s));
}

/// Any canonical list with the ports of `s` is the normal form of `s`.
pub proof fn lemma_normalized_is(s: Seq<PortRange>, c: Seq<PortRange>)
    requires
        is_canonical(c),
        ports_of(c) == ports_of(s),
    ensures
        c == normalized(s),
{
    lemma_normalized(s);
    lemma_canonical_unique(c, normalized(s));
}

/// Normalising is idempotent, and what it yields is sorted with its
/// elements pairwise separated by a gap.
pub proof fn lemma_normalize_idempotent(s: Seq<PortRange>)
    ensures
        normalized(normalized(s)) == normalized(s),
        is_canonical(normalized(s)),
{
    lemma_normalized(s);
    lemma_normalized_is(normalized(s), normalized(s));
}


/// Drops empty ranges, sorts by start and merges ranges that overlap or
/// touch. The result is the canonical list covering the same ports.
pub fn sort_and_merge_ranges(ranges: &[PortRange]) -> (res: Vec<PortRange>)
    ensures
        res@ == normalized(ranges@),
        is_canonical(res@),
        ports_of(res@) == ports_of(ranges@),
{
    let sorted = sorted_non_empty(ranges);
    let res = merge_sorted(&sorted);
    proof {
        lemma_normalized_is(ranges@, res@);
    }
    res
}

/// The non-empty ranges of `ranges`, ascending by start; ranges with equal
/// starts keep their relative order.
fn sorted_non_empty(ranges: &[PortRange]) -> (sorted: Vec<PortRange>)
    ensures
        sorted_by_start(sorted@),
        ports_of(sorted@) == ports_of(ranges@),
{
    let mut sorted: Vec<PortRange> = Vec::new();
    let mut k: usize = 0;
    proof {
        lemma_ports_empty();
        assert(ranges@.take(0) =~= Seq::<PortRange>::empty());
    }
    while k < ranges.len()
        invariant
            0 <= k <= ranges.len(),
            sorted_by_start(sorted@),
            ports_of(sorted@) == ports_of(ranges@.take(k as int)),
        decreases ranges.len() - k,
    {
        let r = ranges[k];
        proof {
            assert(ranges@.take(k as int + 1) =~= ranges@.take(k as int).push(r));
            lemma_ports_push(ranges@.take(k as int), r);
        }
        if r.start <= r.end {
            let mut idx: usize = 0;
            while idx < sorted.len() && sorted[idx].start <= r.start
                invariant
                    0 <= idx <= sorted.len(),
                    forall|i: int| 0 <= i < idx ==> (#[trigger] sorted@[i]).start <= r.start,
                decreases sorted.len() - idx,
            {
                idx += 1;
            }
            proof {
                lemma_ports_insert(sorted@, idx as int, r);
                let t = sorted@.insert(idx as int, r);
                assert(sorted_by_start(t)) by {
                    assert forall|i: int, j: int| 0 <= i < j < t.len() implies (#[trigger] t[i]).start
                        <= (#[trigger] t[j]).start by {
                        if j < idx {
                            assert(t[i] == sorted@[i] && t[j] == sorted@[j]);
                        } else if j == idx {
                            assert(t[i] == sorted@[i]);
                        } else if i < idx {
                            assert(t[i] == sorted@[i] && t[j] == sorted@[j - 1]);
                        } else if i == idx {
                            assert(t[j] == sorted@[j - 1]);
                            assert(sorted@[idx as int].start <= sorted@[j - 1].start);
                        } else {
                            assert(t[i] == sorted@[i - 1] && t[j] == sorted@[j - 1]);
                        }
                    }
                    assert forall|i: int| 0 <= i < t.len() implies (#[trigger] t[i]).start
                        <= t[i].end by {
                        if i < idx {
                            assert(t[i] == sorted@[i]);
                        } else if i > idx {
                            assert(t[i] == sorted@[i - 1]);
                        }
                    }
                }
            }
            sorted.insert(idx, r);
        } else {
            proof {
                assert(range_set(r) =~= Set::<int>::empty());
                assert(ports_of(sorted@).union(range_set(r)) =~= ports_of(sorted@));
            }
        }
        k += 1;
    }
    proof {
        assert(ranges@.take(k as int) =~= ranges@);
    }
    sorted
}

/// Merges a list that is ascending by start into canonical form.
fn merge_sorted(sorted: &Vec<PortRange>) -> (res: Vec<PortRange>)
    requires
        sorted_by_start(sorted@),
    ensures
        is_canonical(res@),
        ports_of(res@) == ports_of(sorted@),
{
    let mut res: Vec<PortRange> = Vec::new();
    if sorted.len() == 0 {
        proof {
            assert(sorted@ =~= res@);
        }
        return res;
    }
    let mut curr = sorted[0];
    let mut i: usize = 1;
    proof {
        assert(sorted@.take(1) =~= res@.push(curr));
    }
    while i < sorted.len()
        invariant
            1 <= i <= sorted.len(),
            sorted_by_start(sorted@),
            curr.start <= curr.end,
            is_canonical(res@),
            forall|k: int| 0 <= k < res.len() ==> (#[trigger] res@[k]).end + 1 < curr.start,
            forall|k: int| i <= k < sorted.len() ==> curr.start <= (#[trigger] sorted@[k]).start,
            ports_of(res@.push(curr)) == ports_of(sorted@.take(i as int)),
        decreases sorted.len() - i,
    {
        let next = sorted[i];
        let ghost before = res@.push(curr);
        proof {
            assert(sorted@.take(i as int + 1) =~= sorted@.take(i as int).push(next));
            lemma_ports_push(sorted@.take(i as int), next);
            lemma_ports_push(before, next);
            lemma_ports_push(res@, curr);
        }
        if next.start as u32 > curr.end as u32 + 1 {
            proof {
                assert(is_canonical(before)) by {
                    assert forall|a: int, b: int| 0 <= a < b < before.len() implies (
                    #[trigger] before[a]).end + 1 < (#[trigger] before[b]).start by {
                        if b < res.len() {
                            assert(before[a] == res@[a] && before[b] == res@[b]);
                        } else {
                            assert(before[a] == res@[a]);
                        }
                    }
                    assert forall|a: int| 0 <= a < before.len() implies (#[trigger] before[a]).start
                        <= before[a].end by {
                        if a < res.len() {
                            assert(before[a] == res@[a]);
                        }
                    }
                }
                assert forall|k: int| 0 <= k < before.len() implies (#[trigger] before[k]).end + 1
                    < next.start by {
                    if k < res.len() {
                        assert(before[k] == res@[k]);
                    }
                }
            }
            res.push(curr);
            curr = next;
        } else if next.end > curr.end {
            let wide = PortRange { start: curr.start, end: next.end };
            proof {
                lemma_ports_push(res@, wide);
                assert(range_set(wide) =~= range_set(curr).union(range_set(next)));
                assert(ports_of(res@.push(wide)) =~= ports_of(before).union(range_set(next)));
            }
            curr = wide;
        } else {
            proof {
                assert(range_set(next).subset_of(range_set(curr)));
                assert(ports_of(before).union(range_set(next)) =~= ports_of(before));
            }
        }
        i += 1;
    }
    proof {
        assert(sorted@.take(i as int) =~= sorted@);
        let done = res@.push(curr);
        assert(is_canonical(done)) by {
            assert forall|a: int, b: int| 0 <= a < b < done.len() implies (#[trigger] done[a]).end
                + 1 < (#[trigger] done[b]).start by {
                if b < res.len() {
                    assert(done[a] == res@[a] && done[b] == res@[b]);
                } else {
                    assert(done[a] == res@[a]);
                }
            }
            assert forall|a: int| 0 <= a < done.len() implies (#[trigger] done[a]).start
                <= done[a].end by {
                if a < res.len() {
                    assert(done[a] == res@[a]);
                }
            }
        }
    }
    res.push(curr);
    res
}


/// One slot of a port-range array in the data plane's tables.
#[derive(Clone, Copy, Debug, PartialEq, Eq, Structural)]
pub struct RawPortRange {
    pub start_port: u16,
    pub end_port: u16,
}

/// The slots of a port-range array that holds the list `s`: its ranges
/// first, zeroes in the slots left over.
pub open spec fn raw_slots(s: Seq<PortRange>) -> Seq<RawPortRange> {
    Seq::new(
        MAX_PORT_RANGES as nat,
        |i: int|
            if i < s.len() {
                RawPortRange { start_port: s[i].start, end_port: s[i].end }
            } else {
                RawPortRange { start_port: 0, end_port: 0 }
            },
    )
}

/// The fixed-size port-range array of one protocol.
pub type PortRanges = [RawPortRange; MAX_PORT_RANGES];

/// The port ranges of one protocol of an external address.
#[derive(Clone, Debug, PartialEq, Eq)]
pub struct ExternalRanges(pub Vec<PortRange>);

/// The ranges held by a list of policy ranges.
pub open spec fn inner_ranges(s: Seq<ProtoRange>) -> Seq<PortRange> {
    Seq::new(s.len(), |i: int| s[i].inner)
}

/// Whether some range of the list starts at port zero.
pub open spec fn starts_at_zero(s: Seq<ProtoRange>) -> bool {
    exists|i: int| 0 <= i < s.len() && (#[trigger] s[i]).inner.start == 0
}

/// What validating and normalising a list of policy ranges gives: a range
/// starting at zero is refused unless `allow_zero`; then a list with more
/// than `MAX_PORT_RANGES` ranges after merging is refused; else the normal
/// form.
pub open spec fn ranges_result(s: Seq<ProtoRange>, allow_zero: bool) -> Result<
    Seq<PortRange>,
    ConfigError,
> {
    if !allow_zero && starts_at_zero(s) {
        Err(ConfigError::ZeroNotAllowed)
    } else if normalized(inner_ranges(s)).len() > MAX_PORT_RANGES {
        Err(ConfigError::TooManyRanges)
    } else {
        Ok(normalized(inner_ranges(s)))
    }
}

/// Whether range `a` covers range `b` entirely.
pub open spec fn covers(a: PortRange, b: PortRange) -> bool {
    a.start <= b.start && b.end <= a.end
}

/// Whether a single range of `s` covers `b`.
pub open spec fn covered_by(s: Seq<PortRange>, b: PortRange) -> bool {
    exists|m: int| 0 <= m < s.len() && covers(#[trigger] s[m], b)
}

/// Containment of lists of ranges: every port of `b` is a port of `a`.
pub open spec fn ranges_contain(a: Seq<PortRange>, b: Seq<PortRange>) -> bool {
    ports_of(b).subset_of(ports_of(a))
}

/// Containment range by range: each range of `b`'s normal form lies within
/// a single range of `a`'s normal form.
pub open spec fn every_range_covered(a: Seq<PortRange>, b: Seq<PortRange>) -> bool {
    forall|j: int|
        0 <= j < normalized(b).len() ==> covered_by(normalized(a), #[trigger] normalized(b)[j])
}

/// A port just past the end of a canonical list's range is covered by none
/// of its ranges.
proof fn lemma_gap_after(c: Seq<PortRange>, i: int)
    requires
        is_canonical(c),
        0 <= i < c.len(),
    ensures
        !ports_of(c).contains(c[i].end + 1),
{
    let p = c[i].end + 1;
    if ports_of(c).contains(p) {
        let m = choose|m: int| 0 <= m < c.len() && in_range(#[trigger] c[m], p);
        if m < i {
            assert(c[m].end + 1 < c[i].start);
            assert(c[i].start <= c[i].end);
        } else if m > i {
            assert(c[i].end + 1 < c[m].start);
        }
    }
}

/// Containment holds exactly when every port of `b` is a port of `a`;
/// range by range and port by port it is the same relation.
pub proof fn lemma_contains_iff_ports_included(a: Seq<PortRange>, b: Seq<PortRange>)
    ensures
        every_range_covered(a, b) <==> ranges_contain(a, b),
        ranges_contain(a, b) <==> forall|p: int|
            ports_of(b).contains(p) ==> ports_of(a).contains(p),
{
    lemma_normalized(a);
    lemma_normalized(b);
    let na = normalized(a);
    let nb = normalized(b);
    if every_range_covered(a, b) {
        assert forall|p: int| ports_of(b).contains(p) implies ports_of(a).contains(p) by {
            assert(ports_of(nb).contains(p));
            let j = choose|j: int| 0 <= j < nb.len() && in_range(#[trigger] nb[j], p);
            assert(covered_by(na, nb[j]));
            let m = choose|m: int| 0 <= m < na.len() && covers(#[trigger] na[m], nb[j]);
            assert(in_range(na[m], p));
            assert(ports_of(na).contains(p));
        }
    }
    if ranges_contain(a, b) {
        assert forall|j: int| 0 <= j < nb.len() implies covered_by(na, #[trigger] nb[j]) by {
            let p = nb[j].start as int;
            assert(in_range(nb[j], p));
            assert(ports_of(nb).contains(p));
            assert(ports_of(b).contains(p));
            assert(ports_of(a).contains(p));
            assert(ports_of(na).contains(p));
            let m = choose|m: int| 0 <= m < na.len() && in_range(#[trigger] na[m], p);
            if nb[j].end > na[m].end {
                let q = na[m].end + 1;
                lemma_gap_after(na, m);
                assert(in_range(nb[j], q));
                assert(ports_of(nb).contains(q));
                assert(ports_of(b).contains(q));
                assert(ports_of(a).contains(q));
            }
            assert(covers(na[m], nb[j]));
        }
    }
}

/// Every list of ranges contains itself.
pub proof fn lemma_contains_reflexive(a: Seq<PortRange>)
    ensures
        ranges_contain(a, a),
        every_range_covered(a, a),
{
    lemma_contains_iff_ports_included(a, a);
}

impl View for ExternalRanges {
    type V = Seq<PortRange>;

    open spec fn view(&self) -> Seq<PortRange> {
        self.0@
    }
}

impl ExternalRanges {
    /// The empty list.
    pub fn empty() -> (res: ExternalRanges)
        ensures
            res@ == Seq::<PortRange>::empty(),
    {
        ExternalRanges(Vec::new())
    }

    /// Whether the list holds no range.
    pub fn is_empty(&self) -> (r: bool)
        ensures
            r == (self@.len() == 0),
    {
        self.0.len() == 0
    }

    /// Validates and normalises a list of policy ranges. A range starting at
    /// zero is refused unless `allow_zero`; a list that still has more than
    /// `MAX_PORT_RANGES` ranges after merging is refused.
    pub fn try_from(ranges: &[ProtoRange], allow_zero: bool) -> (res: Result<
        ExternalRanges,
        ConfigError,
    >)
        ensures
            match res {
                Ok(x) => ranges_result(ranges@, allow_zero) == Ok::<Seq<PortRange>, ConfigError>(x@),
                Err(e) => ranges_result(ranges@, allow_zero) == Err::<Seq<PortRange>, ConfigError>(e),
            },
    {
        let mut plain: Vec<PortRange> = Vec::new();
        let mut k: usize = 0;
        while k < ranges.len()
            invariant
                0 <= k <= ranges.len(),
                plain@ == inner_ranges(ranges@.take(k as int)),
                allow_zero || !starts_at_zero(ranges@.take(k as int)),
            decreases ranges.len() - k,
        {
            let r = ranges[k];
            if !allow_zero && r.inner.start == 0 {
                return Err(ConfigError::ZeroNotAllowed);
            }
            proof {
                let done = ranges@.take(k as int);
                let more = ranges@.take(k as int + 1);
                assert(plain@.push(r.inner) =~= inner_ranges(more));
                if starts_at_zero(more) {
                    let i = choose|i: int| 0 <= i < more.len() && (#[trigger] more[i]).inner.start == 0;
                    if i < k {
                        assert(done[i].inner.start == 0);
                    }
                }
            }
            plain.push(r.inner);
            k += 1;
        }
        proof {
            assert(ranges@.take(k as int) =~= ranges@);
        }
        let merged = sort_and_merge_ranges(plain.as_slice());
        if merged.len() > MAX_PORT_RANGES {
            return Err(ConfigError::TooManyRanges);
        }
        Ok(ExternalRanges(merged))
    }

    /// Whether every port of `other` is a port of `self`.
    pub fn contains(&self, other: &ExternalRanges) -> (r: bool)
        ensures
            r == ranges_contain(self@, other@),
    {
        let this = sort_and_merge_ranges(self.0.as_slice());
        let that = sort_and_merge_ranges(other.0.as_slice());
        let mut j: usize = 0;
        let mut i: usize = 0;
        while i < this.len()
            invariant
                is_canonical(this@),
                is_canonical(that@),
                ports_of(this@) == ports_of(self@),
                ports_of(that@) == ports_of(other@),
                0 <= i <= this.len(),
                0 <= j <= that.len(),
                forall|k: int| 0 <= k < j ==> covered_by(this@, #[trigger] that@[k]),
                forall|m: int|
                    0 <= m < i && j < that.len() ==> (#[trigger] this@[m]).end < that@[j as int].start,
            decreases this.len() - i,
        {
            let range = this[i];
            while j < that.len()
                invariant
                    is_canonical(this@),
                    is_canonical(that@),
                    ports_of(this@) == ports_of(self@),
                    ports_of(that@) == ports_of(other@),
                    0 <= i < this.len(),
                    range == this@[i as int],
                    0 <= j <= that.len(),
                    forall|k: int| 0 <= k < j ==> covered_by(this@, #[trigger] that@[k]),
                    forall|m: int|
                        0 <= m < i && j < that.len() ==> (#[trigger] this@[m]).end
                            < that@[j as int].start,
                ensures
                    0 <= j <= that.len(),
                    forall|k: int| 0 <= k < j ==> covered_by(this@, #[trigger] that@[k]),
                    forall|m: int|
                        0 <= m <= i && j < that.len() ==> (#[trigger] this@[m]).end
                            < that@[j as int].start,
                decreases that.len() - j,
            {
                let o = that[j];
                if o.start < range.start {
                    proof {
                        let p = o.start as int;
                        assert(in_range(that@[j as int], p));
                        assert(ports_of(that@).contains(p));
                        if ports_of(this@).contains(p) {
                            let m = choose|m: int|
                                0 <= m < this.len() && in_range(#[trigger] this@[m], p);
                            if m > i {
                                assert(this@[i as int].end + 1 < this@[m].start);
                            }
                        }
                    }
                    return false;
                }
                if o.start > range.end {
                    break ;
                }
                if o.end > range.end {
                    proof {
                        let p = range.end + 1;
                        lemma_gap_after(this@, i as int);
                        assert(in_range(that@[j as int], p));
                        assert(ports_of(that@).contains(p));
                    }
                    return false;
                }
                proof {
                    assert(covers(this@[i as int], that@[j as int]));
                    if j + 1 < that.len() {
                        assert(that@[j as int].end + 1 < that@[j + 1].start);
                    }
                }
                j += 1;
            }
            i += 1;
        }
        proof {
            if j < that.len() {
                let p = that@[j as int].start as int;
                assert(in_range(that@[j as int], p));
                assert(ports_of(that@).contains(p));
                if ports_of(this@).contains(p) {
                    let m = choose|m: int| 0 <= m < this.len() && in_range(#[trigger] this@[m], p);
                }
            } else {
                assert forall|p: int| ports_of(that@).contains(p) implies ports_of(
                    this@,
                ).contains(p) by {
                    let k = choose|k: int| 0 <= k < that.len() && in_range(#[trigger] that@[k], p);
                    assert(covered_by(this@, that@[k]));
                    let m = choose|m: int| 0 <= m < this.len() && covers(#[trigger] this@[m], that@[k]);
                    assert(in_range(this@[m], p));
                }
            }
        }
        j == that.len()
    }

    /// Writes the list into a fixed-size array of the data plane: the
    /// ranges first, zeroes in the slots left over, and the count.
    pub fn apply_raw(&self, raw_ranges: &mut PortRanges, raw_len: &mut u8)
        requires
            self@.len() <= MAX_PORT_RANGES,
        ensures
            *final(raw_len) == self@.len(),
            final(raw_ranges)@ == raw_slots(self@),
    {
        let mut idx: usize = 0;
        while idx < MAX_PORT_RANGES
            invariant
                0 <= idx <= MAX_PORT_RANGES,
                self@.len() <= MAX_PORT_RANGES,
                forall|i: int|
                    0 <= i < idx ==> (#[trigger] raw_ranges@[i]) == (if i < self@.len() {
                        RawPortRange { start_port: self@[i].start, end_port: self@[i].end }
                    } else {
                        RawPortRange { start_port: 0, end_port: 0 }
                    }),
            decreases MAX_PORT_RANGES - idx,
        {
            if idx < self.0.len() {
                let range = self.0[idx];
                raw_ranges[idx] = RawPortRange { start_port: range.start, end_port: range.end };
            } else {
                raw_ranges[idx] = RawPortRange { start_port: 0, end_port: 0 };
            }
            idx += 1;
        }
        proof {
            assert(raw_ranges@ =~= raw_slots(self@));
        }
        *raw_len = self.0.len() as u8;
    }
}

} // verus!
