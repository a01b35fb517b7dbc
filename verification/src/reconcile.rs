//! Reconciliation of the consumer's device set with the configured one:
//! list what is there, remove every record whose name is not desired, then
//! add every desired record whose name is absent. The plan is computed
//! here; per-record failures on the wire are the caller's to log and skip,
//! so the diff must be exact for convergence and idempotence to hold.

use vstd::prelude::*;
use crate::protocol::DeviceInfo;

verus! {

/// A device set holds a record with this name.
pub open spec fn has_name(list: Seq<DeviceInfo>, name: Seq<char>) -> bool {
    exists|i: int| 0 <= i < list.len() && #[trigger] list[i].name@ == name
}

/// The names to remove: names present now whose record is not desired,
/// in the order the consumer listed them.
pub open spec fn plan_removals(current: Seq<DeviceInfo>, desired: Seq<DeviceInfo>) -> Seq<
    Seq<char>,
> {
    current.map_values(|d: DeviceInfo| d.name@).filter(|n: Seq<char>| !has_name(desired, n))
}

/// The records to add: desired records whose name is absent now, in
/// configuration order.
pub open spec fn plan_additions(current: Seq<DeviceInfo>, desired: Seq<DeviceInfo>) -> Seq<
    DeviceInfo,
> {
    desired.filter(|d: DeviceInfo| !has_name(current, d.name@))
}

/// The operations one reconciliation pass issues, removals before
/// additions.
pub struct SyncPlan {
    pub removals: Vec<String>,
    pub additions: Vec<DeviceInfo>,
}

/// Whether a device list holds a record with the given name.
pub fn list_has_name(list: &Vec<DeviceInfo>, name: &String) -> (r: bool)
    ensures
        r == has_name(list@, name@),
{
    let n = list.len();
    let mut i: usize = 0;
    while i < n
        invariant
            i <= n,
            n == list@.len(),
            forall|j: int| 0 <= j < i ==> #[trigger] list@[j].name@ != name@,
        decreases n - i,
    {
        if list[i].name.eq(name) {
            return true;
        }
        i = i + 1;
    }
    false
}

/// Diff the listed device set against the desired one: what to remove and
/// what to add so that, once applied, the names present are exactly the
/// desired names. Records whose name is already present are left alone.
pub fn plan_sync(current: &Vec<DeviceInfo>, desired: &Vec<DeviceInfo>) -> (p: SyncPlan)
    ensures
        p.removals@.map_values(|n: String| n@) == plan_removals(current@, desired@),
        p.additions@ == plan_additions(current@, desired@),
{
    let mut removals: Vec<String> = Vec::new();
    let ghost names: Seq<Seq<char>> = current@.map_values(|d: DeviceInfo| d.name@);
    let ghost rpred = |n: Seq<char>| !has_name(desired@, n);
    let n = current.len();
    let mut i: usize = 0;
    proof {
        reveal(Seq::filter);
        assert(names.take(0) =~= Seq::<Seq<char>>::empty());
    }
    while i < n
        invariant
            i <= n,
            n == current@.len(),
            names == current@.map_values(|d: DeviceInfo| d.name@),
            rpred == (|n: Seq<char>| !has_name(desired@, n)),
            removals@.map_values(|s: String| s@) == names.take(i as int).filter(rpred),
        decreases n - i,
    {
        let ghost before: Seq<String> = removals@;
        if !list_has_name(desired, &current[i].name) {
            let nm = current[i].name.clone();
            removals.push(nm);
        }
        proof {
            reveal(Seq::filter);
            let t1 = names.take(i as int + 1);
            assert(t1.drop_last() =~= names.take(i as int));
            assert(t1.last() == names[i as int]);
            assert(names[i as int] == current@[i as int].name@);
            if rpred(names[i as int]) {
                assert(removals@.map_values(|s: String| s@) =~= before.map_values(|s: String| s@)
                    + seq![current@[i as int].name@]);
                assert(t1.filter(rpred) =~= t1.drop_last().filter(rpred) + seq![t1.last()]);
            } else {
                assert(t1.filter(rpred) == t1.drop_last().filter(rpred));
            }
        }
        i = i + 1;
    }
    proof {
        assert(names.take(n as int) =~= names);
    }
    let mut additions: Vec<DeviceInfo> = Vec::new();
    let ghost apred = |d: DeviceInfo| !has_name(current@, d.name@);
    let m = desired.len();
    let mut k: usize = 0;
    proof {
        reveal(Seq::filter);
        assert(desired@.take(0) =~= Seq::<DeviceInfo>::empty());
    }
    while k < m
        invariant
            k <= m,
            m == desired@.len(),
            apred == (|d: DeviceInfo| !has_name(current@, d.name@)),
            additions@ == desired@.take(k as int).filter(apred),
        decreases m - k,
    {
        let ghost before: Seq<DeviceInfo> = additions@;
        if !list_has_name(current, &desired[k].name) {
            let rec = DeviceInfo { name: desired[k].name.clone(), channel: desired[k].channel };
            proof {
                assert(rec == desired@[k as int]);
            }
            additions.push(rec);
        }
        proof {
            reveal(Seq::filter);
            let t1 = desired@.take(k as int + 1);
            assert(t1.drop_last() =~= desired@.take(k as int));
            assert(t1.last() == desired@[k as int]);
            if apred(desired@[k as int]) {
                assert(t1.filter(apred) =~= t1.drop_last().filter(apred) + seq![t1.last()]);
                assert(additions@ =~= before + seq![desired@[k as int]]);
            } else {
                assert(t1.filter(apred) == t1.drop_last().filter(apred));
            }
        }
        k = k + 1;
    }
    proof {
        assert(desired@.take(m as int) =~= desired@);
    }
    SyncPlan { removals, additions }
}

proof fn lemma_filter_member<A>(s: Seq<A>, pred: spec_fn(A) -> bool, x: A)
    requires
        s.filter(pred).contains(x),
    ensures
        s.contains(x),
        pred(x),
    decreases s.len(),
{
    reveal(Seq::filter);
    if s.len() > 0 {
        if s.last() == x && pred(x) {
            assert(s.contains(x)) by {
                assert(s[s.len() - 1] == x);
            }
        } else {
            if pred(s.last()) {
                if s.filter(pred).last() == x && s.drop_last().filter(pred).contains(x) {
                    lemma_filter_member(s.drop_last(), pred, x);
                } else if s.filter(pred).last() == x {
                    assert(x == s.last());
                    assert(s[s.len() - 1] == x);
                } else {
                    let j = choose|j: int|
                        0 <= j < s.filter(pred).len() && s.filter(pred)[j] == x;
                    assert(s.drop_last().filter(pred).contains(x)) by {
                        assert(s.drop_last().filter(pred)[j] == x);
                    }
                    lemma_filter_member(s.drop_last(), pred, x);
                }
            } else {
                lemma_filter_member(s.drop_last(), pred, x);
            }
            if s.drop_last().contains(x) {
                let j = choose|j: int| 0 <= j < s.drop_last().len() && s.drop_last()[j] == x;
                assert(s[j] == x);
            }
        }
    }
}

proof fn lemma_filter_has<A>(s: Seq<A>, pred: spec_fn(A) -> bool, i: int)
    requires
        0 <= i < s.len(),
        pred(s[i]),
    ensures
        s.filter(pred).contains(s[i]),
    decreases s.len(),
{
    reveal(Seq::filter);
    if i == s.len() - 1 {
        assert(s.filter(pred).last() == s[i]);
    } else {
        lemma_filter_has(s.drop_last(), pred, i);
        let x = s.drop_last()[i];
        let j = choose|j: int|
            0 <= j < s.drop_last().filter(pred).len() && s.drop_last().filter(pred)[j] == x;
        if pred(s.last()) {
            assert(s.filter(pred)[j] == x);
        }
    }
}

/// A name is planned for removal exactly when it is present now and not
/// desired.
pub proof fn lemma_removal_names(current: Seq<DeviceInfo>, desired: Seq<DeviceInfo>, n: Seq<char>)
    ensures
        plan_removals(current, desired).contains(n) <==> (has_name(current, n) && !has_name(
            desired,
            n,
        )),
{
    let names = current.map_values(|d: DeviceInfo| d.name@);
    let pred = |m: Seq<char>| !has_name(desired, m);
    if plan_removals(current, desired).contains(n) {
        lemma_filter_member(names, pred, n);
        let j = choose|j: int| 0 <= j < names.len() && names[j] == n;
        assert(current[j].name@ == n);
    }
    if has_name(current, n) && !has_name(desired, n) {
        let j = choose|j: int| 0 <= j < current.len() && #[trigger] current[j].name@ == n;
        assert(names[j] == n);
        lemma_filter_has(names, pred, j);
    }
}

/// A name is planned for addition exactly when it is desired and absent
/// now.
pub proof fn lemma_addition_names(current: Seq<DeviceInfo>, desired: Seq<DeviceInfo>, n: Seq<char>)
    ensures
        has_name(plan_additions(current, desired), n) <==> (has_name(desired, n) && !has_name(
            current,
            n,
        )),
{
    let pred = |d: DeviceInfo| !has_name(current, d.name@);
    let adds = plan_additions(current, desired);
    if has_name(adds, n) {
        let j = choose|j: int| 0 <= j < adds.len() && #[trigger] adds[j].name@ == n;
        lemma_filter_member(desired, pred, adds[j]);
        let k = choose|k: int| 0 <= k < desired.len() && desired[k] == adds[j];
        assert(desired[k].name@ == n);
    }
    if has_name(desired, n) && !has_name(current, n) {
        let j = choose|j: int| 0 <= j < desired.len() && #[trigger] desired[j].name@ == n;
        lemma_filter_has(desired, pred, j);
        let x = desired[j];
        let k = choose|k: int| 0 <= k < adds.len() && adds[k] == x;
        assert(adds[k].name@ == n);
    }
}

/// Reconciliation converges: once the planned removals and additions are
/// applied, the names present are exactly the desired names — extraneous
/// records go, missing ones arrive, shared ones stay.
pub proof fn lemma_sync_converges(current: Seq<DeviceInfo>, desired: Seq<DeviceInfo>)
    ensures
        forall|n: Seq<char>|
            ((has_name(current, n) && !plan_removals(current, desired).contains(n)) || has_name(
                plan_additions(current, desired),
                n,
            )) <==> #[trigger] has_name(desired, n),
{
    assert forall|n: Seq<char>|
        ((has_name(current, n) && !plan_removals(current, desired).contains(n)) || has_name(
            plan_additions(current, desired),
            n,
        )) <==> #[trigger] has_name(desired, n) by {
        lemma_removal_names(current, desired, n);
        lemma_addition_names(current, desired, n);
    }
}

/// Reconciliation is idempotent: when the names present already are the
/// desired names — as they are right after a successful pass — the next
/// pass plans no removal and no addition.
pub proof fn lemma_sync_idempotent(current: Seq<DeviceInfo>, desired: Seq<DeviceInfo>)
    requires
        forall|n: Seq<char>| #[trigger] has_name(current, n) <==> has_name(desired, n),
    ensures
        plan_removals(current, desired) == Seq::<Seq<char>>::empty(),
        plan_additions(current, desired) == Seq::<DeviceInfo>::empty(),
{
    let names = current.map_values(|d: DeviceInfo| d.name@);
    let rpred = |m: Seq<char>| !has_name(desired, m);
    assert forall|j: int| 0 <= j < names.len() implies !#[trigger] rpred(names[j]) by {
        assert(current[j].name@ == names[j]);
        assert(has_name(current, names[j]));
    }
    lemma_filter_all_false(names, rpred);
    let apred = |d: DeviceInfo| !has_name(current, d.name@);
    assert forall|j: int| 0 <= j < desired.len() implies !#[trigger] apred(desired[j]) by {
        assert(has_name(desired, desired[j].name@));
    }
    lemma_filter_all_false(desired, apred);
}

proof fn lemma_filter_all_false<A>(s: Seq<A>, pred: spec_fn(A) -> bool)
    requires
        forall|j: int| 0 <= j < s.len() ==> !#[trigger] pred(s[j]),
    ensures
        s.filter(pred) == Seq::<A>::empty(),
    decreases s.len(),
{
    reveal(Seq::filter);
    if s.len() > 0 {
        lemma_filter_all_false(s.drop_last(), pred);
        assert(!pred(s.last())) by {
            assert(s[s.len() - 1] == s.last());
        }
    }
}

} // verus!
