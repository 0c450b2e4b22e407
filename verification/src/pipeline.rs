//! The run's decision logic: feed every fetched build through the status
//! store, classify which ones are newly failing, and signal the
//! distinguished condition when no build could be fetched at all.

use vstd::prelude::*;
use crate::hydra::{HydraBuild, spec_is_failing, spec_key};
use crate::state::StatusStore;

verus! {

broadcast use vstd::seq_lib::lemma_seq_contains_after_push;

/// A build is newly failing when it is failing now and its previous
/// observation, if any, carried a different status code.  A change from
/// one failing code to another counts: the text shown to the operator
/// differs.
pub open spec fn spec_newly_failing(status: u8, previous: Option<u8>) -> bool {
    spec_is_failing(status) && previous != Some(status)
}

/// The store contents after observing each build of `bs` in order.
pub open spec fn spec_store_after(m: Map<Seq<char>, u8>, bs: Seq<HydraBuild>) -> Map<
    Seq<char>,
    u8,
>
    decreases bs.len(),
{
    if bs.len() == 0 {
        m
    } else {
        spec_store_after(m, bs.drop_last()).insert(spec_key(bs.last()), bs.last().buildstatus)
    }
}

/// What the store answered for build `i` of a run that started from `m`:
/// the status recorded when `bs[i]` was reached, absent if never seen.
pub open spec fn spec_prev_status(m: Map<Seq<char>, u8>, bs: Seq<HydraBuild>, i: int) -> Option<
    u8,
> {
    let mi = spec_store_after(m, bs.take(i));
    if mi.contains_key(spec_key(bs[i])) {
        Some(mi[spec_key(bs[i])])
    } else {
        None
    }
}

/// Whether build `i` of a run starting from store `m` is newly failing.
pub open spec fn spec_newly_failing_at(m: Map<Seq<char>, u8>, bs: Seq<HydraBuild>, i: int) -> bool {
    spec_newly_failing(bs[i].buildstatus, spec_prev_status(m, bs, i))
}

/// The classification itself, on one build's current and previous status.
pub fn classify_newly_failing(buildstatus: u8, previous: Option<u8>) -> (r: bool)
    ensures
        r == spec_newly_failing(buildstatus, previous),
{
    buildstatus != 0 && (match previous {
        Some(p) => p != buildstatus,
        None => true,
    })
}

/// The distinguished aggregate failure: not one build could be fetched,
/// which likely means the remote service changed its page format.
#[derive(PartialEq, Eq, Structural, Clone, Copy)]
pub struct NoBuildsFound;

/// Run the diff-and-classify step over every fetched build, in order:
/// record each build's status in the store and collect the indices of the
/// newly failing ones, in increasing order.  When nothing was fetched the
/// store is untouched and the run signals `NoBuildsFound`.
pub fn evaluate_builds(store: &mut StatusStore, builds: &Vec<HydraBuild>) -> (r: Result<
    Vec<usize>,
    NoBuildsFound,
>)
    requires
        old(store).wf(),
    ensures
        final(store).wf(),
        r is Err <==> builds@.len() == 0,
        r is Err ==> final(store)@ == old(store)@,
        r matches Ok(newly) ==> {
            &&& final(store)@ == spec_store_after(old(store)@, builds@)
            &&& forall|k: int|
                0 <= k < newly@.len() ==> newly@[k] < builds@.len() && spec_newly_failing_at(
                    old(store)@,
                    builds@,
                    newly@[k] as int,
                )
            &&& forall|k1: int, k2: int| 0 <= k1 < k2 < newly@.len() ==> newly@[k1] < newly@[k2]
            &&& forall|i: int|
                0 <= i < builds@.len() && spec_newly_failing_at(old(store)@, builds@, i)
                    ==> newly@.contains(i as usize)
        },
{
    if builds.len() == 0 {
        return Err(NoBuildsFound);
    }
    let mut newly: Vec<usize> = Vec::new();
    let mut i: usize = 0;
    while i < builds.len()
        invariant
            old(store).wf(),
            store.wf(),
            i <= builds@.len(),
            store@ == spec_store_after(old(store)@, builds@.take(i as int)),
            forall|k: int|
                0 <= k < newly@.len() ==> newly@[k] < i && spec_newly_failing_at(
                    old(store)@,
                    builds@,
                    newly@[k] as int,
                ),
            forall|k1: int, k2: int| 0 <= k1 < k2 < newly@.len() ==> newly@[k1] < newly@[k2],
            forall|j: int|
                0 <= j < i && spec_newly_failing_at(old(store)@, builds@, j) ==> newly@.contains(
                    j as usize,
                ),
        decreases builds@.len() - i,
    {
        let b = &builds[i];
        let full_name = b.get_full_name();
        let prev = store.update_build_status(&full_name, b.buildstatus);
        proof {
            assert(builds@.take(i as int + 1).drop_last() =~= builds@.take(i as int));
            assert(builds@.take(i as int + 1).last() == builds@[i as int]);
        }
        if classify_newly_failing(b.buildstatus, prev) {
            newly.push(i);
        }
        i = i + 1;
    }
    proof {
        assert(builds@.take(builds@.len() as int) =~= builds@);
    }
    Ok(newly)
}

/// The indices of the builds that are currently failing, in increasing
/// order, whether or not they are newly failing: the run's summary lists
/// all of them.
pub fn failing_indices(builds: &Vec<HydraBuild>) -> (r: Vec<usize>)
    ensures
        forall|k: int|
            0 <= k < r@.len() ==> r@[k] < builds@.len() && spec_is_failing(
                builds@[r@[k] as int].buildstatus,
            ),
        forall|k1: int, k2: int| 0 <= k1 < k2 < r@.len() ==> r@[k1] < r@[k2],
        forall|i: int|
            0 <= i < builds@.len() && spec_is_failing(builds@[i].buildstatus) ==> r@.contains(
                i as usize,
            ),
{
    let mut r: Vec<usize> = Vec::new();
    let mut i: usize = 0;
    while i < builds.len()
        invariant
            i <= builds@.len(),
            forall|k: int|
                0 <= k < r@.len() ==> r@[k] < i && spec_is_failing(builds@[r@[k] as int].buildstatus),
            forall|k1: int, k2: int| 0 <= k1 < k2 < r@.len() ==> r@[k1] < r@[k2],
            forall|j: int|
                0 <= j < i && spec_is_failing(builds@[j].buildstatus) ==> r@.contains(j as usize),
        decreases builds@.len() - i,
    {
        if builds[i].is_failing() {
            r.push(i);
        }
        i = i + 1;
    }
    r
}

/// A key that `bs` holds somewhere, always with status `v`, ends up in the
/// store mapped to `v`, wherever the run started from.
proof fn lemma_store_after_present(m: Map<Seq<char>, u8>, bs: Seq<HydraBuild>, i: int)
    requires
        0 <= i < bs.len(),
        forall|j: int|
            0 <= j < bs.len() && spec_key(bs[j]) == spec_key(bs[i]) ==> bs[j].buildstatus
                == bs[i].buildstatus,
    ensures
        spec_store_after(m, bs).contains_key(spec_key(bs[i])),
        spec_store_after(m, bs)[spec_key(bs[i])] == bs[i].buildstatus,
    decreases bs.len(),
{
    if i < bs.len() - 1 {
        assert(forall|j: int|
            0 <= j < bs.drop_last().len() && spec_key(bs.drop_last()[j]) == spec_key(
                bs.drop_last()[i],
            ) ==> bs.drop_last()[j].buildstatus == bs.drop_last()[i].buildstatus);
        lemma_store_after_present(m, bs.drop_last(), i);
    }
}

/// A key the store already maps to `v` keeps that value across a run whose
/// every observation of the key carries `v` again.
proof fn lemma_store_after_stable(m: Map<Seq<char>, u8>, bs: Seq<HydraBuild>, k: Seq<char>, v: u8)
    requires
        m.contains_key(k),
        m[k] == v,
        forall|j: int| 0 <= j < bs.len() && spec_key(bs[j]) == k ==> bs[j].buildstatus == v,
    ensures
        spec_store_after(m, bs).contains_key(k),
        spec_store_after(m, bs)[k] == v,
    decreases bs.len(),
{
    if bs.len() > 0 {
        assert(forall|j: int|
            0 <= j < bs.drop_last().len() && spec_key(bs.drop_last()[j]) == k
                ==> bs.drop_last()[j].buildstatus == v);
        lemma_store_after_stable(m, bs.drop_last(), k, v);
    }
}

/// Running the same observations twice in a row reports nothing new the
/// second time: every build then finds its own status already stored.
/// Excluded are runs that carry one job key with two different status
/// codes, which would keep re-triggering each other by design.
pub proof fn lemma_second_run_quiet(m: Map<Seq<char>, u8>, bs: Seq<HydraBuild>)
    requires
        forall|i: int, j: int|
            0 <= i < bs.len() && 0 <= j < bs.len() && spec_key(bs[i]) == spec_key(bs[j])
                ==> bs[i].buildstatus == bs[j].buildstatus,
    ensures
        forall|i: int|
            0 <= i < bs.len() ==> !spec_newly_failing_at(spec_store_after(m, bs), bs, i),
{
    let m1 = spec_store_after(m, bs);
    assert forall|i: int| 0 <= i < bs.len() implies !spec_newly_failing_at(m1, bs, i) by {
        lemma_store_after_present(m, bs, i);
        assert(forall|j: int|
            0 <= j < bs.take(i).len() && spec_key(bs.take(i)[j]) == spec_key(bs[i])
                ==> bs.take(i)[j].buildstatus == bs[i].buildstatus);
        lemma_store_after_stable(m1, bs.take(i), spec_key(bs[i]), bs[i].buildstatus);
        assert(spec_prev_status(m1, bs, i) == Some(bs[i].buildstatus));
    }
}

} // verus!
