//! Planning a reconcile: from the differences between two runtime
//! configurations to the ordered operations on the data plane's tables.

use vstd::prelude::*;
use crate::diff::{
    apply_changes, is_diff, lemma_diff_leads_to_new, lemma_diff_of_same, MapChange,
};
use crate::prefix::Prefix;
use crate::tables::{DestConfig, ExternalConfig};

verus! {

/// The least quiescence interval, in milliseconds of wall-clock time: how
/// long a `Sleep` has to last at least, so that the invocations of the
/// data plane that began before the flag was raised have ended.
pub const MIN_QUIESCENCE_MILLIS: u64 = 1;

/// One operation on the data plane.
#[derive(Debug, PartialEq, Eq)]
pub enum Action {
    /// Write a destination entry, whether or not the key exists.
    PutDest(Prefix, DestConfig),
    /// Delete a destination entry.
    DeleteDest(Prefix),
    /// Create an external entry; it fails if the key exists.
    InsertExternal(Prefix, ExternalConfig),
    /// Overwrite an external entry; it fails if the key does not exist.
    OverwriteExternal(Prefix, ExternalConfig),
    /// Delete an external entry.
    DeleteExternal(Prefix),
    /// Raise the quiescence flag.
    RaiseFlag,
    /// Wait for the quiescence interval, `MIN_QUIESCENCE_MILLIS` at least.
    Sleep,
    /// Delete the bindings and connection-tracking entries of the external
    /// address that the host prefix names.
    PurgeFlows(Prefix),
    /// Lower the quiescence flag.
    LowerFlag,
    /// Write the primary external address.
    WriteExternalAddr(Prefix),
}

/// What a reconcile has to do: the differences of both tables, and the
/// primary external address where it is to be written.
pub struct Plan {
    pub dest_changes: Vec<MapChange<DestConfig>>,
    pub external_changes: Vec<MapChange<ExternalConfig>>,
    pub external_addr: Option<Prefix>,
}

/// The operation for one difference of the destination table.
pub open spec fn dest_action(c: MapChange<DestConfig>) -> Action {
    match c {
        MapChange::Insert(k, v) => Action::PutDest(k, v),
        MapChange::Update(k, v) => Action::PutDest(k, v),
        MapChange::Delete(k) => Action::DeleteDest(k),
    }
}

/// The operations for the differences of the destination table, in order.
pub open spec fn dest_actions(changes: Seq<MapChange<DestConfig>>) -> Seq<Action> {
    Seq::new(changes.len(), |i: int| dest_action(changes[i]))
}

/// The operations for one difference of the external table. An insertion
/// is a single create. An update and a deletion are guarded: the flag is
/// raised, the quiescence interval waited for, and the flag lowered at the
/// end; in between an update purges the flows and then overwrites the
/// entry, a deletion deletes the entry and then purges the flows.
pub open spec fn external_actions(c: MapChange<ExternalConfig>) -> Seq<Action> {
    match c {
        MapChange::Insert(k, v) => seq![Action::InsertExternal(k, v)],
        MapChange::Update(k, v) => seq![
            Action::RaiseFlag,
            Action::Sleep,
            Action::PurgeFlows(k),
            Action::OverwriteExternal(k, v),
            Action::LowerFlag,
        ],
        MapChange::Delete(k) => seq![
            Action::RaiseFlag,
            Action::Sleep,
            Action::DeleteExternal(k),
            Action::PurgeFlows(k),
            Action::LowerFlag,
        ],
    }
}

/// The operations for the differences of the external table, in order.
pub open spec fn all_external_actions(changes: Seq<MapChange<ExternalConfig>>) -> Seq<Action>
    decreases changes.len(),
{
    if changes.len() == 0 {
        Seq::empty()
    } else {
        all_external_actions(changes.drop_last()) + external_actions(changes.last())
    }
}

/// The write of the primary external address, where there is one.
pub open spec fn addr_actions(addr: Option<Prefix>) -> Seq<Action> {
    match addr {
        Some(p) => seq![Action::WriteExternalAddr(p)],
        None => Seq::empty(),
    }
}

/// The operations of a reconcile: the destination table first, then the
/// external table, last the primary external address.
pub open spec fn plan_of(
    dest_changes: Seq<MapChange<DestConfig>>,
    external_changes: Seq<MapChange<ExternalConfig>>,
    addr: Option<Prefix>,
) -> Seq<Action> {
    dest_actions(dest_changes) + all_external_actions(external_changes) + addr_actions(addr)
}

/// The data plane's state as the control plane sees it.
pub struct KernelState {
    pub dest: Map<Prefix, DestConfig>,
    pub ext: Map<Prefix, ExternalConfig>,
    pub external_addr: Prefix,
    /// The quiescence flag.
    pub deleting: bool,
}

/// The state after an operation that succeeds.
pub open spec fn effect(a: Action, s: KernelState) -> KernelState {
    match a {
        Action::PutDest(k, v) => KernelState { dest: s.dest.insert(k, v), ..s },
        Action::DeleteDest(k) => KernelState { dest: s.dest.remove(k), ..s },
        Action::InsertExternal(k, v) => KernelState { ext: s.ext.insert(k, v), ..s },
        Action::OverwriteExternal(k, v) => KernelState { ext: s.ext.insert(k, v), ..s },
        Action::DeleteExternal(k) => KernelState { ext: s.ext.remove(k), ..s },
        Action::RaiseFlag => KernelState { deleting: true, ..s },
        Action::Sleep => s,
        Action::PurgeFlows(_) => s,
        Action::LowerFlag => KernelState { deleting: false, ..s },
        Action::WriteExternalAddr(p) => KernelState { external_addr: p, ..s },
    }
}

/// The state after a list of operations that all succeed.
pub open spec fn effects(actions: Seq<Action>, s: KernelState) -> KernelState
    decreases actions.len(),
{
    if actions.len() == 0 {
        s
    } else {
        effect(actions.last(), effects(actions.drop_last(), s))
    }
}

/// Doing two lists of operations one after the other is doing their
/// concatenation.
pub proof fn lemma_effects_concat(a: Seq<Action>, b: Seq<Action>, s: KernelState)
    ensures
        effects(a + b, s) == effects(b, effects(a, s)),
    decreases b.len(),
{
    if b.len() == 0 {
        assert(a + b =~= a);
    } else {
        assert((a + b).drop_last() =~= a + b.drop_last());
        assert((a + b).last() == b.last());
        lemma_effects_concat(a, b.drop_last(), s);
    }
}

/// The operations for the destination differences make those differences
/// in the destination table and leave the rest.
pub proof fn lemma_dest_effects(changes: Seq<MapChange<DestConfig>>, s: KernelState)
    ensures
        effects(dest_actions(changes), s) == (KernelState {
            dest: apply_changes(s.dest, changes),
            ..s
        }),
    decreases changes.len(),
{
    if changes.len() > 0 {
        assert(dest_actions(changes).drop_last() =~= dest_actions(changes.drop_last()));
        lemma_dest_effects(changes.drop_last(), s);
    }
}

/// The operations for one external difference make that difference in the
/// external table; the flag is lowered afterwards where it was before.
pub proof fn lemma_external_effect(c: MapChange<ExternalConfig>, s: KernelState)
    requires
        !s.deleting,
    ensures
        effects(external_actions(c), s) == (KernelState { ext: c.apply_to(s.ext), ..s }),
{
    let a = external_actions(c);
    reveal_with_fuel(effects, 6);
    match c {
        MapChange::Insert(k, v) => {
            assert(a.drop_last() =~= Seq::<Action>::empty());
        },
        MapChange::Update(k, v) => {
            let a4 = a.drop_last();
            let a3 = a4.drop_last();
            let a2 = a3.drop_last();
            let a1 = a2.drop_last();
            assert(a1.drop_last() =~= Seq::<Action>::empty());
            assert(effects(a1, s) == effect(Action::RaiseFlag, s));
            assert(effects(a2, s) == effects(a1, s));
            assert(effects(a3, s) == effects(a2, s));
            assert(effects(a4, s).ext == s.ext.insert(k, v));
        },
        MapChange::Delete(k) => {
            let a4 = a.drop_last();
            let a3 = a4.drop_last();
            let a2 = a3.drop_last();
            let a1 = a2.drop_last();
            assert(a1.drop_last() =~= Seq::<Action>::empty());
            assert(effects(a1, s) == effect(Action::RaiseFlag, s));
            assert(effects(a2, s) == effects(a1, s));
            assert(effects(a3, s).ext == s.ext.remove(k));
            assert(effects(a4, s) == effects(a3, s));
        },
    }
}

/// The operations for the external differences make those differences in
/// the external table and leave the rest, the flag lowered.
pub proof fn lemma_external_effects(changes: Seq<MapChange<ExternalConfig>>, s: KernelState)
    requires
        !s.deleting,
    ensures
        effects(all_external_actions(changes), s) == (KernelState {
            ext: apply_changes(s.ext, changes),
            ..s
        }),
    decreases changes.len(),
{
    if changes.len() > 0 {
        let rest = changes.drop_last();
        lemma_external_effects(rest, s);
        lemma_effects_concat(all_external_actions(rest), external_actions(changes.last()), s);
        lemma_external_effect(changes.last(), effects(all_external_actions(rest), s));
    }
}

/// However the old configuration looked: where the data plane holds the
/// old tables, the operations of a reconcile towards the new tables, all
/// succeeding, leave it holding the new tables, with the flag lowered; and
/// where the primary external address is written, it is the one written.
pub proof fn lemma_plan_reaches_new(
    dest_changes: Seq<MapChange<DestConfig>>,
    external_changes: Seq<MapChange<ExternalConfig>>,
    addr: Option<Prefix>,
    s: KernelState,
    new_dest: Map<Prefix, DestConfig>,
    new_ext: Map<Prefix, ExternalConfig>,
)
    requires
        !s.deleting,
        is_diff(dest_changes, s.dest, new_dest),
        is_diff(external_changes, s.ext, new_ext),
    ensures
        effects(plan_of(dest_changes, external_changes, addr), s) == (KernelState {
            dest: new_dest,
            ext: new_ext,
            external_addr: match addr {
                Some(p) => p,
                None => s.external_addr,
            },
            deleting: false,
        }),
{
    let d = dest_actions(dest_changes);
    let x = all_external_actions(external_changes);
    let w = addr_actions(addr);
    lemma_effects_concat(d + x, w, s);
    lemma_effects_concat(d, x, s);
    lemma_dest_effects(dest_changes, s);
    let s1 = effects(d, s);
    lemma_external_effects(external_changes, s1);
    lemma_diff_leads_to_new(dest_changes, s.dest, new_dest);
    lemma_diff_leads_to_new(external_changes, s.ext, new_ext);
    reveal_with_fuel(effects, 2);
    match addr {
        Some(p) => {
            assert(w.drop_last() =~= Seq::<Action>::empty());
        },
        None => {},
    }
}

/// A reconcile from a configuration to itself has no operation at all.
pub proof fn lemma_same_config_plans_nothing(
    dest_changes: Seq<MapChange<DestConfig>>,
    external_changes: Seq<MapChange<ExternalConfig>>,
    dest: Map<Prefix, DestConfig>,
    ext: Map<Prefix, ExternalConfig>,
)
    requires
        is_diff(dest_changes, dest, dest),
        is_diff(external_changes, ext, ext),
    ensures
        plan_of(dest_changes, external_changes, None) == Seq::<Action>::empty(),
{
    lemma_diff_of_same(dest_changes, dest);
    lemma_diff_of_same(external_changes, ext);
    assert(plan_of(dest_changes, external_changes, None) =~= Seq::<Action>::empty());
}

/// The guard that protects the flow tables: lowered; raised but the
/// quiescence interval not yet waited for; or raised and quiet.
#[derive(Clone, Copy, Debug, PartialEq, Eq, Structural)]
pub enum Guard {
    Lowered,
    Raised,
    Quiet,
}

/// The guard after an operation.
pub open spec fn guard_after(a: Action, g: Guard) -> Guard {
    match a {
        Action::RaiseFlag => Guard::Raised,
        Action::Sleep => if g == Guard::Lowered {
            Guard::Lowered
        } else {
            Guard::Quiet
        },
        Action::LowerFlag => Guard::Lowered,
        _ => g,
    }
}

/// Whether an operation may be done under the guard `g`: flows are purged,
/// and external entries overwritten or deleted, only while the flag is
/// raised and the quiescence interval has passed.
pub open spec fn allowed(a: Action, g: Guard) -> bool {
    match a {
        Action::PurgeFlows(_) => g == Guard::Quiet,
        Action::OverwriteExternal(_, _) => g == Guard::Quiet,
        Action::DeleteExternal(_) => g == Guard::Quiet,
        _ => true,
    }
}

/// The guard after a list of operations.
pub open spec fn guard_after_all(actions: Seq<Action>, g: Guard) -> Guard
    decreases actions.len(),
{
    if actions.len() == 0 {
        g
    } else {
        guard_after(actions.last(), guard_after_all(actions.drop_last(), g))
    }
}

/// Whether every operation of the list is allowed under the guard it meets,
/// starting with the guard lowered, and the list leaves the guard lowered.
pub open spec fn guarded(actions: Seq<Action>) -> bool {
    &&& forall|i: int|
        0 <= i < actions.len() ==> allowed(
            #[trigger] actions[i],
            guard_after_all(actions.take(i), Guard::Lowered),
        )
    &&& guard_after_all(actions, Guard::Lowered) == Guard::Lowered
}

/// The guard after two lists is the guard after the second, from the guard
/// after the first.
pub proof fn lemma_guard_concat(a: Seq<Action>, b: Seq<Action>, g: Guard)
    ensures
        guard_after_all(a + b, g) == guard_after_all(b, guard_after_all(a, g)),
    decreases b.len(),
{
    if b.len() == 0 {
        assert(a + b =~= a);
    } else {
        assert((a + b).drop_last() =~= a + b.drop_last());
        assert((a + b).last() == b.last());
        lemma_guard_concat(a, b.drop_last(), g);
    }
}

/// Two guarded lists make a guarded list.
pub proof fn lemma_guarded_concat(a: Seq<Action>, b: Seq<Action>)
    requires
        guarded(a),
        guarded(b),
    ensures
        guarded(a + b),
{
    let c = a + b;
    lemma_guard_concat(a, b, Guard::Lowered);
    assert forall|i: int| 0 <= i < c.len() implies allowed(
        #[trigger] c[i],
        guard_after_all(c.take(i), Guard::Lowered),
    ) by {
        if i < a.len() {
            assert(c.take(i) =~= a.take(i));
            assert(c[i] == a[i]);
        } else {
            let j = i - a.len();
            assert(c.take(i) =~= a + b.take(j));
            lemma_guard_concat(a, b.take(j), Guard::Lowered);
            assert(c[i] == b[j]);
        }
    }
}

/// The operations for one external difference are guarded.
pub proof fn lemma_external_actions_guarded(c: MapChange<ExternalConfig>)
    ensures
        guarded(external_actions(c)),
{
    let a = external_actions(c);
    reveal_with_fuel(guard_after_all, 6);
    assert(a.take(0) =~= Seq::<Action>::empty());
    match c {
        MapChange::Insert(k, v) => {
            assert(a.drop_last() =~= Seq::<Action>::empty());
        },
        _ => {
            let t1 = a.take(1);
            let t2 = a.take(2);
            let t3 = a.take(3);
            let t4 = a.take(4);
            assert(t1.drop_last() =~= a.take(0));
            assert(t2.drop_last() =~= t1);
            assert(t3.drop_last() =~= t2);
            assert(t4.drop_last() =~= t3);
            assert(a.drop_last() =~= t4);
            assert(guard_after_all(t1, Guard::Lowered) == Guard::Raised);
            assert(guard_after_all(t2, Guard::Lowered) == Guard::Quiet);
            assert(guard_after_all(t3, Guard::Lowered) == Guard::Quiet);
            assert(guard_after_all(t4, Guard::Lowered) == Guard::Quiet);
            assert(guard_after_all(a, Guard::Lowered) == Guard::Lowered);
        },
    }
}

/// The operations for the external differences are guarded.
pub proof fn lemma_all_external_actions_guarded(changes: Seq<MapChange<ExternalConfig>>)
    ensures
        guarded(all_external_actions(changes)),
    decreases changes.len(),
{
    if changes.len() == 0 {
        assert(all_external_actions(changes) =~= Seq::<Action>::empty());
    } else {
        lemma_all_external_actions_guarded(changes.drop_last());
        lemma_external_actions_guarded(changes.last());
        lemma_guarded_concat(
            all_external_actions(changes.drop_last()),
            external_actions(changes.last()),
        );
    }
}

/// A list that leaves the guard as it is and holds no operation that needs
/// the guard is guarded.
proof fn lemma_plain_guarded(a: Seq<Action>)
    requires
        forall|i: int|
            0 <= i < a.len() ==> allowed(#[trigger] a[i], Guard::Lowered) && guard_after(
                a[i],
                Guard::Lowered,
            ) == Guard::Lowered,
    ensures
        guarded(a),
        forall|n: int| 0 <= n <= a.len() ==> guard_after_all(#[trigger] a.take(n), Guard::Lowered) == Guard::Lowered,
{
    assert forall|n: int| 0 <= n <= a.len() implies guard_after_all(
        #[trigger] a.take(n),
        Guard::Lowered,
    ) == Guard::Lowered by {
        lemma_plain_prefix(a, n);
    }
    assert(a.take(a.len() as int) =~= a);
}

proof fn lemma_plain_prefix(a: Seq<Action>, n: int)
    requires
        0 <= n <= a.len(),
        forall|i: int|
            0 <= i < a.len() ==> allowed(#[trigger] a[i], Guard::Lowered) && guard_after(
                a[i],
                Guard::Lowered,
            ) == Guard::Lowered,
    ensures
        guard_after_all(a.take(n), Guard::Lowered) == Guard::Lowered,
    decreases n,
{
    if n > 0 {
        lemma_plain_prefix(a, n - 1);
        assert(a.take(n).drop_last() =~= a.take(n - 1));
        assert(a.take(n).last() == a[n - 1]);
    }
}

/// In the operations of any reconcile, flows are purged and external
/// entries overwritten or deleted only after the flag was raised and the
/// quiescence interval waited for, and the flag is lowered at the end.
pub proof fn lemma_plan_guarded(
    dest_changes: Seq<MapChange<DestConfig>>,
    external_changes: Seq<MapChange<ExternalConfig>>,
    addr: Option<Prefix>,
)
    ensures
        guarded(plan_of(dest_changes, external_changes, addr)),
{
    let d = dest_actions(dest_changes);
    let x = all_external_actions(external_changes);
    let w = addr_actions(addr);
    lemma_plain_guarded(d);
    lemma_plain_guarded(w);
    lemma_all_external_actions_guarded(external_changes);
    lemma_guarded_concat(d, x);
    lemma_guarded_concat(d + x, w);
}

impl Plan {
    /// The operations of the plan, in the order in which they are to be
    /// done.
    pub fn actions(&self) -> (res: Vec<Action>)
        ensures
            res@ == plan_of(self.dest_changes@, self.external_changes@, self.external_addr),
            guarded(res@),
    {
        let mut res: Vec<Action> = Vec::new();
        let mut i: usize = 0;
        while i < self.dest_changes.len()
            invariant
                0 <= i <= self.dest_changes.len(),
                res@ == dest_actions(self.dest_changes@.take(i as int)),
            decreases self.dest_changes.len() - i,
        {
            let a = match &self.dest_changes[i] {
                MapChange::Insert(k, v) => Action::PutDest(*k, *v),
                MapChange::Update(k, v) => Action::PutDest(*k, *v),
                MapChange::Delete(k) => Action::DeleteDest(*k),
            };
            proof {
                assert(res@.push(a) =~= dest_actions(self.dest_changes@.take(i as int + 1)));
            }
            res.push(a);
            i += 1;
        }
        proof {
            assert(self.dest_changes@.take(i as int) =~= self.dest_changes@);
            assert(self.external_changes@.take(0) =~= Seq::<MapChange<ExternalConfig>>::empty());
            assert(res@ + all_external_actions(self.external_changes@.take(0)) =~= res@);
        }
        let ghost d = res@;
        let mut j: usize = 0;
        while j < self.external_changes.len()
            invariant
                0 <= j <= self.external_changes.len(),
                d == dest_actions(self.dest_changes@),
                res@ == d + all_external_actions(self.external_changes@.take(j as int)),
            decreases self.external_changes.len() - j,
        {
            let ghost before = res@;
            let ghost c = self.external_changes@[j as int];
            proof {
                let more = self.external_changes@.take(j as int + 1);
                assert(more.drop_last() =~= self.external_changes@.take(j as int));
                assert(more.last() == c);
            }
            match &self.external_changes[j] {
                MapChange::Insert(k, v) => {
                    res.push(Action::InsertExternal(*k, *v));
                },
                MapChange::Update(k, v) => {
                    res.push(Action::RaiseFlag);
                    res.push(Action::Sleep);
                    res.push(Action::PurgeFlows(*k));
                    res.push(Action::OverwriteExternal(*k, *v));
                    res.push(Action::LowerFlag);
                },
                MapChange::Delete(k) => {
                    res.push(Action::RaiseFlag);
                    res.push(Action::Sleep);
                    res.push(Action::DeleteExternal(*k));
                    res.push(Action::PurgeFlows(*k));
                    res.push(Action::LowerFlag);
                },
            }
            proof {
                assert(res@ =~= before + external_actions(c));
                assert(res@ =~= d + all_external_actions(self.external_changes@.take(j as int + 1)));
            }
            j += 1;
        }
        proof {
            assert(self.external_changes@.take(j as int) =~= self.external_changes@);
        }
        match self.external_addr {
            Some(p) => {
                res.push(Action::WriteExternalAddr(p));
                proof {
                    assert(res@ =~= plan_of(
                        self.dest_changes@,
                        self.external_changes@,
                        self.external_addr,
                    ));
                }
            },
            None => {
                proof {
                    assert(res@ =~= plan_of(
                        self.dest_changes@,
                        self.external_changes@,
                        self.external_addr,
                    ));
                }
            },
        }
        proof {
            lemma_plan_guarded(self.dest_changes@, self.external_changes@, self.external_addr);
        }
        res
    }
}

} // verus!
