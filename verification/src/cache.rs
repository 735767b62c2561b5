//! The cache of one description: the idle resources that wait for reuse.
//!
//! [`Cache`] is the cache itself, a plain value whose content contracts can
//! name. [`SharedCache`] is a cache behind a lock, shared between a pool and
//! the leases drawn from it.

use crate::traits::Resource;
use std::sync::Arc;
use vstd::prelude::*;
use vstd::rwlock::RwLock;
use vstd::rwlock::RwLockPredicate;

verus! {

/// What taking from a cache with content `idle` hands out, and what it leaves
/// behind: the resource that was put last, if there is any.
pub open spec fn taking<R>(idle: Seq<R>) -> (Option<R>, Seq<R>) {
    if idle.len() == 0 {
        (None, idle)
    } else {
        (Some(idle.last()), idle.drop_last())
    }
}

/// The idle resources of one description, in the order in which they were
/// put.
pub struct Cache<R> {
    idle: Vec<R>,
}

impl<R> View for Cache<R> {
    type V = Seq<R>;

    closed spec fn view(&self) -> Seq<R> {
        self.idle@
    }
}

impl<R: Resource> Cache<R> {
    /// Every idle resource is clean.
    pub open spec fn wf(&self) -> bool {
        forall|i: int| 0 <= i < self@.len() ==> (#[trigger] self@[i]).is_clean()
    }

    /// A cache without resources.
    pub fn new() -> (cache: Self)
        ensures
            cache@ == Seq::<R>::empty(),
            cache.wf(),
    {
        Cache { idle: Vec::with_capacity(1) }
    }

    /// The number of idle resources.
    pub fn len(&self) -> (n: usize)
        ensures
            n == self@.len(),
    {
        self.idle.len()
    }

    /// Takes one idle resource out of the cache, if it holds any. The resource
    /// leaves the cache: what stays behind is the content without it.
    pub fn take(&mut self) -> (r: Option<R>)
        requires
            old(self).wf(),
        ensures
            final(self).wf(),
            (r, final(self)@) == taking(old(self)@),
            r matches Some(x) ==> x.is_clean(),
    {
        let r = self.idle.pop();
        assert forall|i: int| 0 <= i < self@.len() implies (#[trigger] self@[i]).is_clean() by {
            assert(self@[i] == old(self)@[i]);
        }
        r
    }

    /// Puts a clean resource into the cache.
    pub fn put(&mut self, r: R)
        requires
            old(self).wf(),
            r.is_clean(),
        ensures
            final(self).wf(),
            final(self)@ == old(self)@.push(r),
    {
        self.idle.push(r);
    }
}

/// The exclusivity of ownership, counted: taking moves exactly one resource
/// out of a cache, so that the resource handed out and the content left
/// behind make up the content before, and nothing is duplicated or lost. A
/// cache without resources hands out nothing and stays as it is.
pub proof fn taking_moves_one_resource_out<R>(idle: Seq<R>)
    ensures
        taking(idle).0 matches Some(r) ==> idle == taking(idle).1.push(r),
        taking(idle).0 matches Some(r) ==> idle.to_multiset() == taking(idle).1.to_multiset().insert(
            r,
        ),
        taking(idle).0 is Some ==> taking(idle).1.len() + 1 == idle.len(),
        taking(idle).0 is None ==> idle.len() == 0 && taking(idle).1 == idle,
{
    if idle.len() > 0 {
        let rest = idle.drop_last();
        let r = idle.last();
        assert(idle == rest.push(r));
        rest.to_multiset_ensures();
    }
}

/// A cache hit: once a resource was put into a cache, the next take hands out
/// that very resource and leaves the cache as it was before the put, whatever
/// the cache held.
pub proof fn put_resource_is_taken_next<R>(idle: Seq<R>, r: R)
    ensures
        taking(idle.push(r)) == (Some(r), idle),
{
    assert(idle.push(r).drop_last() == idle);
}

/// The invariant of the lock around a cache: the description that the cache
/// belongs to, and that every idle resource in it is clean.
pub struct Home<I> {
    pub key: I,
}

impl<R: Resource, I> RwLockPredicate<Cache<R>> for Home<I> {
    open spec fn inv(self, cache: Cache<R>) -> bool {
        cache.wf()
    }
}

/// A handle to the cache of one description. All handles made by
/// [`share`](SharedCache::share) from one cache name that same cache; its
/// content is guarded by a lock that is held for one take or one put at a
/// time.
#[verifier::reject_recursive_types(R)]
#[verifier::reject_recursive_types(I)]
pub struct SharedCache<R: Resource, I> {
    lock: Arc<RwLock<Cache<R>, Home<I>>>,
}

impl<R: Resource, I> SharedCache<R, I> {
    /// The description that this cache belongs to.
    pub closed spec fn key(&self) -> I {
        self.lock.pred().key
    }

    /// A new, empty cache for the description `key`.
    pub fn new(key: &I) -> (cache: Self)
        ensures
            cache.key() == *key,
    {
        SharedCache { lock: Arc::new(RwLock::new(Cache::new(), Ghost(Home { key: *key }))) }
    }

    /// Another handle to the same cache.
    pub fn share(&self) -> (cache: Self)
        ensures
            cache == *self,
    {
        SharedCache { lock: self.lock.clone() }
    }

    /// Takes one idle resource out of the cache, if it holds any at this
    /// moment. What comes out of a cache is clean.
    pub fn take(&self) -> (r: Option<R>)
        ensures
            r matches Some(x) ==> x.is_clean(),
    {
        let (mut cache, guard) = self.lock.acquire_write();
        let r = cache.take();
        guard.release_write(cache);
        r
    }

    /// Puts a clean resource into the cache.
    pub fn put(&self, r: R)
        requires
            r.is_clean(),
    {
        let (mut cache, guard) = self.lock.acquire_write();
        cache.put(r);
        guard.release_write(cache);
    }

    /// The number of idle resources in the cache at this moment.
    pub fn idle(&self) -> usize {
        let guard = self.lock.acquire_read();
        let n = guard.borrow().len();
        guard.release_read();
        n
    }
}

} // verus!
