//! Collecting results that come in any order.

use vstd::prelude::*;

verus! {

/// The items of `v`, last first.
pub fn reversed<T>(v: Vec<T>) -> (r: Vec<T>)
    ensures
        r@ == v@.reverse(),
{
    let mut rest: Vec<T> = v;
    let mut r: Vec<T> = Vec::new();
    let ghost all = rest@;
    while rest.len() > 0
        invariant
            rest@.len() <= all.len(),
            rest@ == all.take(rest@.len() as int),
            r@ == all.skip(rest@.len() as int).reverse(),
        decreases rest@.len(),
    {
        let ghost n = rest@.len() as int;
        if let Some(x) = rest.pop() {
            r.push(x);
            assert(rest@ =~= all.take(n - 1));
            assert(r@ =~= all.skip(n - 1).reverse());
        }
    }
    assert(all.skip(0) =~= all);
    r
}

/// Slots for the results of jobs that run side by side. `pending` holds the
/// numbers of the jobs that are not done, in the order in which they are
/// asked; `out` holds the result of each job that is.
pub struct JoinSlots<T> {
    pub pending: Vec<usize>,
    pub out: Vec<Option<T>>,
}

impl<T> JoinSlots<T> {
    /// A job is pending once, or has a result.
    pub open spec fn well_formed(&self) -> bool {
        &&& forall|i: int|
            0 <= i < self.pending@.len() ==> 0 <= #[trigger] self.pending@[i] < self.out@.len()
        &&& forall|i: int, j: int|
            0 <= i < j < self.pending@.len() ==> #[trigger] self.pending@[i]
                != #[trigger] self.pending@[j]
        &&& forall|k: int|
            0 <= k < self.out@.len() ==> (#[trigger] self.out@[k] is Some
                <==> !self.pending@.contains(k as usize))
    }

    /// Slots for `n` jobs, all of them pending, in their order.
    pub fn new(n: usize) -> (s: Self)
        ensures
            s.well_formed(),
            s.pending@ == Seq::new(n as nat, |i: int| i as usize),
            s.out@.len() == n,
    {
        let mut pending: Vec<usize> = Vec::new();
        let mut out: Vec<Option<T>> = Vec::new();
        let mut i: usize = 0;
        while i < n
            invariant
                i <= n,
                pending@ == Seq::new(i as nat, |k: int| k as usize),
                out@.len() == i,
                forall|k: int| 0 <= k < i ==> #[trigger] out@[k] is None,
            decreases n - i,
        {
            pending.push(i);
            out.push(None);
            i = i + 1;
            assert(pending@ =~= Seq::new(i as nat, |k: int| k as usize));
        }
        proof {
            assert forall|k: int| 0 <= k < out@.len() implies (#[trigger] out@[k] is Some
                <==> !pending@.contains(k as usize)) by {
                assert(pending@[k] == k);
            }
        }
        JoinSlots { pending, out }
    }

    /// Takes the result of the job at place `i` of the pending ones. The last
    /// pending job takes its place.
    pub fn ready(&mut self, i: usize, value: T)
        requires
            old(self).well_formed(),
            i < old(self).pending@.len(),
        ensures
            final(self).well_formed(),
            final(self).out@ == old(self).out@.update(
                old(self).pending@[i as int] as int,
                Some(value),
            ),
            final(self).pending@ == old(self).pending@.update(
                i as int,
                old(self).pending@.last(),
            ).drop_last(),
    {
        let ghost before = self.pending@;
        let ghost out_before = self.out@;
        let k: usize = self.pending[i];
        self.out.set(k, Some(value));
        self.pending.swap_remove(i);
        proof {
            let after = self.pending@;
            let n = before.len();
            assert(self.out.len() <= usize::MAX);
            assert forall|a: int, b: int| 0 <= a < b < after.len() implies #[trigger] after[a]
                != #[trigger] after[b] by {
                let oa = if a == i {
                    n - 1
                } else {
                    a
                };
                let ob = if b == i {
                    n - 1
                } else {
                    b
                };
                assert(after[a] == before[oa] && after[b] == before[ob]);
            }
            assert forall|j: int| 0 <= j < self.out@.len() implies (#[trigger] self.out@[j] is Some
                <==> !after.contains(j as usize)) by {
                if j == k {
                    if after.contains(k) {
                        let a = choose|a: int| 0 <= a < after.len() && after[a] == k;
                        let oa = if a == i {
                            n - 1
                        } else {
                            a
                        };
                        assert(before[oa] == before[i as int]);
                        assert(oa == i);
                    }
                } else {
                    assert(self.out@[j] == out_before[j]);
                    if before.contains(j as usize) {
                        let a = choose|a: int| 0 <= a < before.len() && before[a] == j as usize;
                        let na = if a == n - 1 {
                            i as int
                        } else {
                            a
                        };
                        assert(after[na] == j as usize);
                    }
                    if after.contains(j as usize) {
                        let a = choose|a: int| 0 <= a < after.len() && after[a] == j as usize;
                        let oa = if a == i {
                            n - 1
                        } else {
                            a
                        };
                        assert(before[oa] == j as usize);
                    }
                }
            }
        }
    }

    /// Whether every job is done.
    pub fn is_done(&self) -> (r: bool)
        ensures
            r == (self.pending@.len() == 0),
    {
        self.pending.len() == 0
    }

    /// The results, in the order of the jobs.
    pub fn finish(self) -> (results: Vec<T>)
        requires
            self.well_formed(),
            self.pending@.len() == 0,
        ensures
            results@.len() == self.out@.len(),
            forall|k: int|
                0 <= k < results@.len() ==> self.out@[k] == Some(#[trigger] results@[k]),
    {
        let ghost all = self.out@;
        proof {
            assert forall|k: int| 0 <= k < all.len() implies #[trigger] all[k] is Some by {
                assert(!self.pending@.contains(k as usize));
            }
        }
        let mut rest: Vec<Option<T>> = self.out;
        let mut back: Vec<T> = Vec::new();
        while rest.len() > 0
            invariant
                rest@.len() <= all.len(),
                rest@ == all.take(rest@.len() as int),
                back@.len() == all.len() - rest@.len(),
                forall|k: int| 0 <= k < all.len() ==> #[trigger] all[k] is Some,
                forall|k: int|
                    0 <= k < back@.len() ==> all[all.len() - 1 - k] == Some(#[trigger] back@[k]),
            decreases rest@.len(),
        {
            let ghost n = rest@.len() as int;
            if let Some(slot) = rest.pop() {
                assert(slot == all[n - 1]);
                if let Some(x) = slot {
                    back.push(x);
                }
                assert(rest@ =~= all.take(n - 1));
            }
        }
        let results: Vec<T> = reversed(back);
        assert forall|k: int| 0 <= k < results@.len() implies all[k] == Some(
            #[trigger] results@[k],
        ) by {
            assert(results@[k] == back@[back@.len() - 1 - k]);
        }
        results
    }
}

/// A result stays where it was put: taking another job's result changes
/// neither it nor the number of slots.
pub proof fn results_stay<T>(before: JoinSlots<T>, after: JoinSlots<T>, i: int, value: T, k: int)
    requires
        before.well_formed(),
        0 <= i < before.pending@.len(),
        after.out@ == before.out@.update(before.pending@[i] as int, Some(value)),
        0 <= k < before.out@.len(),
        before.out@[k] is Some,
    ensures
        after.out@.len() == before.out@.len(),
        after.out@[k] == before.out@[k],
{
    assert(before.pending@.contains(before.pending@[i]));
}

/// The pending jobs and the results when `picks` names, one after the other,
/// the place among the pending jobs of the one that is done next, and job `k`
/// gives `value(k)`.
pub open spec fn joined<T>(n: nat, picks: Seq<int>, value: spec_fn(int) -> T) -> (
    Seq<usize>,
    Seq<Option<T>>,
)
    decreases picks.len(),
{
    if picks.len() == 0 {
        (Seq::new(n, |i: int| i as usize), Seq::new(n, |i: int| None::<T>))
    } else {
        let (pending, out) = joined(n, picks.drop_last(), value);
        let job = pending[picks.last()];
        (
            pending.update(picks.last(), pending.last()).drop_last(),
            out.update(job as int, Some(value(job as int))),
        )
    }
}

/// Whether each of `picks` names a job that is pending at that time.
pub open spec fn picks_pending(n: nat, picks: Seq<int>) -> bool {
    &&& picks.len() <= n
    &&& forall|i: int| 0 <= i < picks.len() ==> 0 <= #[trigger] picks[i] < n - i
}

/// The jobs that are not pending have their own result, and no job is pending
/// twice.
proof fn joined_so_far<T>(n: nat, picks: Seq<int>, value: spec_fn(int) -> T)
    requires
        n <= usize::MAX,
        picks_pending(n, picks),
    ensures
        ({
            let (pending, out) = joined(n, picks, value);
            &&& pending.len() == n - picks.len()
            &&& out.len() == n
            &&& forall|i: int| 0 <= i < pending.len() ==> 0 <= #[trigger] pending[i] < n
            &&& forall|i: int, j: int|
                0 <= i < j < pending.len() ==> #[trigger] pending[i] != #[trigger] pending[j]
            &&& forall|k: int|
                0 <= k < n ==> #[trigger] out[k] == Some(value(k)) || pending.contains(k as usize)
        }),
    decreases picks.len(),
{
    if picks.len() == 0 {
        let (pending, out) = joined(n, picks, value);
        assert forall|k: int| 0 <= k < n implies #[trigger] out[k] == Some(value(k))
            || pending.contains(k as usize) by {
            assert(pending[k] == k as usize);
        }
    } else {
        let init = picks.drop_last();
        assert(picks[picks.len() - 1] == picks.last());
        assert forall|i: int| 0 <= i < init.len() implies 0 <= #[trigger] init[i] < n - i by {
            assert(init[i] == picks[i]);
        }
        joined_so_far(n, init, value);
        let (before, out_before) = joined(n, init, value);
        let (pending, out) = joined(n, picks, value);
        let at = picks.last();
        let last = before.len() - 1;
        assert forall|i: int, j: int| 0 <= i < j < pending.len() implies #[trigger] pending[i]
            != #[trigger] pending[j] by {
            assert(before[last] == before.last());
        }
        assert forall|k: int| 0 <= k < n implies #[trigger] out[k] == Some(value(k))
            || pending.contains(k as usize) by {
            assert(out_before[k] == Some(value(k)) || before.contains(k as usize));
            if k != before[at] && before.contains(k as usize) {
                let i = choose|i: int| 0 <= i < before.len() && before[i] == k as usize;
                let moved = if i == last {
                    at
                } else {
                    i
                };
                assert(pending[moved] == k as usize);
            }
        }
    }
}

/// When every job is done there is one result per job, in the order of the
/// jobs, in whatever order they were done.
pub proof fn results_in_order<T>(n: nat, picks: Seq<int>, value: spec_fn(int) -> T)
    requires
        n <= usize::MAX,
        picks_pending(n, picks),
        picks.len() == n,
    ensures
        joined(n, picks, value).0.len() == 0,
        joined(n, picks, value).1 == Seq::new(n, |k: int| Some(value(k))),
{
    joined_so_far(n, picks, value);
    assert(joined(n, picks, value).1 =~= Seq::new(n, |k: int| Some(value(k))));
}

} // verus!
