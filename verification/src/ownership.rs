//! Who holds the resources of one cache: at every moment each resource is
//! either idle in the cache or out on exactly one lease.
//!
//! The executable code gets this from ownership: a take moves the resource
//! out of the cache, a lease owns it, and a release gives the lease up. This
//! module states the same discipline over [`taking`] and `push`, the two
//! changes that a cache ever sees, and proves that no run of leases and
//! releases breaks it. A resource stands here for itself as an instance: two
//! resources that look alike are still two.

use crate::cache::taking;
use vstd::prelude::*;

verus! {

/// The resources of one cache, by where they are.
#[verifier::reject_recursive_types(T)]
pub struct Holdings<T> {
    /// The resources that lie idle in the cache.
    pub idle: Seq<T>,
    /// The resources that are out on a lease.
    pub leased: Set<T>,
}

/// What happens to the resources of one cache.
pub enum Step<T> {
    /// A lease is drawn. It takes an idle resource where the cache has one,
    /// and else gets `fresh`, newly constructed.
    Lease { fresh: T },
    /// The lease that holds this resource is released.
    Release(T),
}

/// No resource is in two places: none lies twice in the cache, and none lies
/// in the cache while it is out on a lease.
pub open spec fn exclusive<T>(h: Holdings<T>) -> bool {
    &&& h.idle.no_duplicates()
    &&& forall|t: T| !(h.idle.contains(t) && h.leased.contains(t))
}

/// Whether the resource `t` is anywhere: idle in the cache or out on a lease.
pub open spec fn present<T>(h: Holdings<T>, t: T) -> bool {
    h.idle.contains(t) || h.leased.contains(t)
}

/// Whether `step` can happen: what is newly constructed exists nowhere yet,
/// and only a resource that is out on a lease can be released.
pub open spec fn admits<T>(h: Holdings<T>, step: Step<T>) -> bool {
    match step {
        Step::Lease { fresh } => h.idle.len() == 0 ==> !h.leased.contains(fresh),
        Step::Release(t) => h.leased.contains(t),
    }
}

/// The resource that a lease drawn from `h` gets.
pub open spec fn granted<T>(h: Holdings<T>, fresh: T) -> T {
    match taking(h.idle).0 {
        Some(t) => t,
        None => fresh,
    }
}

/// Where the resources are after `step`.
pub open spec fn apply<T>(h: Holdings<T>, step: Step<T>) -> Holdings<T> {
    match step {
        Step::Lease { fresh } => Holdings {
            idle: taking(h.idle).1,
            leased: h.leased.insert(granted(h, fresh)),
        },
        Step::Release(t) => Holdings { idle: h.idle.push(t), leased: h.leased.remove(t) },
    }
}

/// Whether `steps` can happen one after the other, starting from `h`.
pub open spec fn admits_all<T>(h: Holdings<T>, steps: Seq<Step<T>>) -> bool
    decreases steps.len(),
{
    if steps.len() == 0 {
        true
    } else {
        admits_all(h, steps.drop_last()) && admits(run(h, steps.drop_last()), steps.last())
    }
}

/// Where the resources are after `steps`, starting from `h`.
pub open spec fn run<T>(h: Holdings<T>, steps: Seq<Step<T>>) -> Holdings<T>
    decreases steps.len(),
{
    if steps.len() == 0 {
        h
    } else {
        apply(run(h, steps.drop_last()), steps.last())
    }
}

/// One step keeps every resource in one place, and loses none. A lease moves
/// its resource from the cache to the lease, or brings a new one in; a
/// release moves its resource from the lease to the cache.
pub proof fn step_keeps_exclusive<T>(h: Holdings<T>, step: Step<T>)
    requires
        exclusive(h),
        admits(h, step),
    ensures
        exclusive(apply(h, step)),
        forall|u: T| present(h, u) ==> #[trigger] present(apply(h, step), u),
        step is Lease ==> apply(h, step).leased.contains(granted(h, step->fresh)),
        step is Lease ==> !apply(h, step).idle.contains(granted(h, step->fresh)),
        step is Release ==> apply(h, step).idle.contains(step->0),
        step is Release ==> !apply(h, step).leased.contains(step->0),
{
    let after = apply(h, step);
    match step {
        Step::Lease { fresh } => {
            if h.idle.len() > 0 {
                let last = h.idle.len() - 1;
                let t = h.idle.last();
                assert(h.idle[last] == t);
                assert(h.idle.contains(t));
                assert forall|i: int, j: int|
                    0 <= i < after.idle.len() && 0 <= j < after.idle.len() && i != j implies after.idle[i]
                    != after.idle[j] by {
                    assert(after.idle[i] == h.idle[i]);
                    assert(after.idle[j] == h.idle[j]);
                }
                assert forall|u: T| !(after.idle.contains(u) && after.leased.contains(u)) by {
                    if after.idle.contains(u) {
                        let i = choose|i: int| 0 <= i < after.idle.len() && after.idle[i] == u;
                        assert(h.idle[i] == u);
                        assert(h.idle.contains(u));
                        assert(u != t);
                    }
                }
                assert forall|u: T| present(h, u) implies #[trigger] present(after, u) by {
                    if h.idle.contains(u) && u != t {
                        let i = choose|i: int| 0 <= i < h.idle.len() && h.idle[i] == u;
                        assert(after.idle[i] == u);
                    }
                }
            } else {
                assert(after.idle == h.idle);
                assert forall|u: T| !(after.idle.contains(u) && after.leased.contains(u)) by {
                    if after.idle.contains(u) {
                        let i = choose|i: int| 0 <= i < after.idle.len() && after.idle[i] == u;
                    }
                }
            }
        },
        Step::Release(t) => {
            let n = h.idle.len() as int;
            assert(after.idle[n] == t);
            assert(after.idle.contains(t));
            assert forall|i: int, j: int|
                0 <= i < after.idle.len() && 0 <= j < after.idle.len() && i != j implies after.idle[i]
                != after.idle[j] by {
                if i < n {
                    assert(after.idle[i] == h.idle[i]);
                    assert(h.idle.contains(after.idle[i]));
                }
                if j < n {
                    assert(after.idle[j] == h.idle[j]);
                    assert(h.idle.contains(after.idle[j]));
                }
            }
            assert forall|u: T| !(after.idle.contains(u) && after.leased.contains(u)) by {
                if after.idle.contains(u) && u != t {
                    let i = choose|i: int| 0 <= i < after.idle.len() && after.idle[i] == u;
                    assert(h.idle[i] == u);
                    assert(h.idle.contains(u));
                }
            }
            assert forall|u: T| present(h, u) implies #[trigger] present(after, u) by {
                if h.idle.contains(u) {
                    let i = choose|i: int| 0 <= i < h.idle.len() && h.idle[i] == u;
                    assert(after.idle[i] == u);
                }
            }
        },
    }
}

/// A released resource is reused: the lease that is drawn next gets that very
/// resource, and what would have been newly constructed is not looked at.
pub proof fn released_resource_is_granted_next<T>(h: Holdings<T>, t: T, fresh: T)
    ensures
        granted(apply(h, Step::Release(t)), fresh) == t,
{
}

/// Whatever leases and releases follow one another, at every moment each
/// resource is in exactly one place: idle in the cache, or out on one lease,
/// never both, and never gone.
pub proof fn every_run_keeps_exclusive<T>(h: Holdings<T>, steps: Seq<Step<T>>)
    requires
        exclusive(h),
        admits_all(h, steps),
    ensures
        exclusive(run(h, steps)),
        forall|u: T| present(h, u) ==> #[trigger] present(run(h, steps), u),
    decreases steps.len(),
{
    if steps.len() > 0 {
        every_run_keeps_exclusive(h, steps.drop_last());
        step_keeps_exclusive(run(h, steps.drop_last()), steps.last());
    }
}

} // verus!
