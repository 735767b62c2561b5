//! The pool, and the lease through which a resource of the pool is used.

use crate::cache::SharedCache;
use crate::traits::creates;
use crate::traits::creation_never_fails;
use crate::traits::lawful_description;
use crate::traits::Info;
use crate::traits::Pool;
use crate::traits::Resource;
use std::collections::HashMap;
use std::hash::Hash;
use std::ops::Deref;
use std::ops::DerefMut;
use vstd::prelude::*;

verus! {

/// A resource on lease from a pool, together with the cache that it goes back
/// to. The holder uses the lease as if it were the resource; the lease owns
/// the resource, so that nothing else can reach it as long as the lease
/// lives.
///
/// A lease ends with [`release`](Lease::release), which can happen once, as
/// it uses the lease up. A lease that is dropped instead takes its resource
/// with it: the pool then constructs anew when it is next asked.
#[verifier::reject_recursive_types(R)]
#[verifier::reject_recursive_types(I)]
pub struct Lease<R: Resource, I> {
    resource: R,
    cache: SharedCache<R, I>,
}

impl<R: Resource, I> View for Lease<R, I> {
    type V = R;

    /// The resource that the lease wraps.
    closed spec fn view(&self) -> R {
        self.resource
    }
}

impl<R: Resource, I> Lease<R, I> {
    /// The cache that the resource goes back to when the lease is released.
    pub closed spec fn cache(&self) -> SharedCache<R, I> {
        self.cache
    }

    /// The description of the cache that the resource goes back to.
    pub open spec fn home(&self) -> I {
        self.cache().key()
    }

    /// Binds `resource` to the cache that it is to go back to.
    pub fn new(resource: R, cache: SharedCache<R, I>) -> (lease: Self)
        ensures
            lease@ == resource,
            lease.cache() == cache,
    {
        Lease { resource, cache }
    }

    /// Ends the lease: resets the resource, then puts it into the cache that
    /// the lease was drawn from, where the next lease of that description
    /// finds it.
    pub fn release(self) {
        let Lease { resource, cache } = self;
        let mut resource = resource;
        resource.clear();
        cache.put(resource);
    }
}

impl<R: Resource, I> Deref for Lease<R, I> {
    type Target = R;

    fn deref(&self) -> (r: &R)
        ensures
            *r == self@,
    {
        &self.resource
    }
}

impl<R: Resource, I> DerefMut for Lease<R, I> {
    /// Whatever the holder does to the resource, the lease stays bound to the
    /// same cache.
    fn deref_mut(&mut self) -> (r: &mut R)
        ensures
            *r == old(self)@,
            final(self)@ == *final(r),
            final(self).cache() == old(self).cache(),
    {
        &mut self.resource
    }
}

/// The resource that a lease settles on: the idle one where the cache had
/// one, without any construction; else what constructing for `info` in `ctx`
/// gives, be it a resource or a failure.
pub fn reuse_or_try_create<R: Resource, I: Info<R>>(
    idle: Option<R>,
    info: &I,
    ctx: &I::Context,
) -> (res: Result<R, I::Error>)
    ensures
        idle matches Some(r) ==> res == Ok::<R, I::Error>(r),
        idle is None ==> call_ensures(I::try_create, (info, ctx), res),
{
    match idle {
        Some(r) => Ok(r),
        None => I::try_create(info, ctx),
    }
}

/// The resource that a lease settles on where construction cannot fail: the
/// idle one where the cache had one, without any construction; else the
/// resource constructed for `info` in `ctx`.
pub fn reuse_or_create<R: Resource, I: Info<R>>(idle: Option<R>, info: &I, ctx: &I::Context) -> (res:
    R)
    requires
        idle is None ==> creation_never_fails::<R, I>(info, ctx),
    ensures
        idle matches Some(r) ==> res == r,
        idle is None ==> creates::<R, I>(info, ctx, res),
{
    match idle {
        Some(r) => r,
        None => I::create(info, ctx),
    }
}

/// The caches of a pool once `info` was asked for: as `before` where `info`
/// had a cache already, else with `cache` as the cache of `info`. No cache is
/// ever removed or replaced.
pub open spec fn with_cache_for<R: Resource, I>(
    before: Map<I, SharedCache<R, I>>,
    info: I,
    cache: SharedCache<R, I>,
) -> Map<I, SharedCache<R, I>> {
    if before.contains_key(info) {
        before
    } else {
        before.insert(info, cache)
    }
}

/// Each cache is kept under the description that it belongs to.
pub open spec fn keyed<R: Resource, I>(caches: Map<I, SharedCache<R, I>>) -> bool {
    forall|k: I| #[trigger] caches.contains_key(k) ==> caches[k].key() == k
}

/// Descriptions that differ never share a cache: the caches that a pool keeps
/// under two different descriptions are two different caches.
pub proof fn unequal_descriptions_have_different_caches<R: Resource, I>(
    caches: Map<I, SharedCache<R, I>>,
    a: I,
    b: I,
)
    requires
        keyed(caches),
        caches.contains_key(a),
        caches.contains_key(b),
        a != b,
    ensures
        caches[a] != caches[b],
{
}

/// Asking a pool for `info` leaves every cache that it had where it was, and
/// keeps the pool's caches under their own descriptions: no cache, and so no
/// resource in it, moves from one description to another.
pub proof fn caches_stay_in_place<R: Resource, I>(
    before: Map<I, SharedCache<R, I>>,
    info: I,
    cache: SharedCache<R, I>,
)
    requires
        keyed(before),
        cache.key() == info,
    ensures
        keyed(with_cache_for(before, info, cache)),
        with_cache_for(before, info, cache).contains_key(info),
        forall|k: I| #[trigger]
            before.contains_key(k) ==> with_cache_for(before, info, cache).contains_key(k)
                && with_cache_for(before, info, cache)[k] == before[k],
{
}

/// One description that the pool has seen, with its cache.
#[verifier::reject_recursive_types(R)]
#[verifier::reject_recursive_types(I)]
struct Entry<R: Resource, I> {
    key: I,
    cache: SharedCache<R, I>,
}

/// A pool that keeps one cache of idle resources per description. A cache is
/// made when its description is first asked for, and stays for good.
///
/// Descriptions are found by their hash first and by comparison in any case,
/// so that a pool relies on `==` alone to tell them apart.
#[verifier::reject_recursive_types(R)]
#[verifier::reject_recursive_types(I)]
pub struct HashPool<R: Resource, I: Info<R> + Hash> {
    /// The descriptions seen so far, in the order in which they came.
    entries: Vec<Entry<R, I>>,
    /// Where a description is likely to stand in `entries`. Nothing is taken
    /// from it unchecked: a place it names counts only if the description
    /// found there compares equal.
    index: HashMap<I, usize>,
}

impl<R: Resource, I: Info<R> + Hash> View for HashPool<R, I> {
    type V = Map<I, SharedCache<R, I>>;

    /// The cache of each description that the pool has seen.
    closed spec fn view(&self) -> Map<I, SharedCache<R, I>> {
        Map::new(
            |k: I| exists|i: int| 0 <= i < self.entries@.len() && #[trigger] self.entries@[i].key == k,
            |k: I|
                self.entries@[choose|i: int|
                    0 <= i < self.entries@.len() && #[trigger] self.entries@[i].key == k].cache,
        )
    }
}

impl<R: Resource, I: Info<R> + Hash> HashPool<R, I> {
    /// No description occurs twice, and each cache belongs to the description
    /// that it is kept under.
    #[verifier::type_invariant]
    spec fn wf(&self) -> bool {
        &&& forall|i: int|
            0 <= i < self.entries@.len() ==> (#[trigger] self.entries@[i]).cache.key()
                == self.entries@[i].key
        &&& forall|i: int, j: int|
            0 <= i < j < self.entries@.len() ==> (#[trigger] self.entries@[i]).key != (
            #[trigger] self.entries@[j]).key
    }

    /// The entry at `i` is what the view holds for its description.
    proof fn lemma_entry_in_view(&self, i: int)
        requires
            self.wf(),
            0 <= i < self.entries@.len(),
        ensures
            self@.contains_key(self.entries@[i].key),
            self@[self.entries@[i].key] == self.entries@[i].cache,
    {
        let k = self.entries@[i].key;
        let j = choose|j: int| 0 <= j < self.entries@.len() && #[trigger] self.entries@[j].key == k;
        assert(self.entries@[j].key == self.entries@[i].key);
        assert(j == i);
    }

    /// What the view holds for a description is an entry.
    proof fn lemma_view_is_entry(&self, k: I) -> (i: int)
        requires
            self.wf(),
            self@.contains_key(k),
        ensures
            0 <= i < self.entries@.len(),
            self.entries@[i].key == k,
            self@[k] == self.entries@[i].cache,
    {
        let i = choose|i: int| 0 <= i < self.entries@.len() && #[trigger] self.entries@[i].key == k;
        self.lemma_entry_in_view(i);
        i
    }

    /// The caches of a well-formed pool are kept under their own
    /// descriptions.
    proof fn lemma_keyed(&self)
        requires
            self.wf(),
        ensures
            keyed(self@),
    {
        assert forall|k: I| #[trigger] self@.contains_key(k) implies self@[k].key() == k by {
            let i = self.lemma_view_is_entry(k);
        }
    }

    /// Appending an entry for a description that had none adds that
    /// description to the view and changes nothing else.
    proof fn lemma_appended(&self, before: Self, key: I, cache: SharedCache<R, I>)
        requires
            before.wf(),
            !before@.contains_key(key),
            cache.key() == key,
            self.entries@ == before.entries@.push((Entry { key, cache })),
        ensures
            self.wf(),
            self@ == before@.insert(key, cache),
    {
        let n = before.entries@.len() as int;
        assert forall|i: int| 0 <= i < n implies (#[trigger] self.entries@[i]).key != key by {
            assert(self.entries@[i] == before.entries@[i]);
            before.lemma_entry_in_view(i);
        }
        assert(self.wf());
        assert forall|k: I| self@.contains_key(k) <==> before@.insert(key, cache).contains_key(
            k,
        ) by {
            if self@.contains_key(k) {
                let i = self.lemma_view_is_entry(k);
                if i < n {
                    assert(before.entries@[i].key == k);
                }
            }
            if before@.contains_key(k) {
                let i = before.lemma_view_is_entry(k);
                assert(self.entries@[i].key == k);
            }
            if k == key {
                assert(self.entries@[n].key == k);
            }
        }
        assert forall|k: I| #[trigger] self@.contains_key(k) implies self@[k] == before@.insert(
            key,
            cache,
        )[k] by {
            let i = self.lemma_view_is_entry(k);
            if i < n {
                assert(self.entries@[i] == before.entries@[i]);
                before.lemma_entry_in_view(i);
            }
        }
        assert(self@ =~= before@.insert(key, cache));
    }

    /// A pool that has seen no description yet.
    pub fn new() -> (pool: Self)
        ensures
            pool@ == Map::<I, SharedCache<R, I>>::empty(),
    {
        let pool = HashPool { entries: Vec::new(), index: HashMap::new() };
        assert(pool@ =~= Map::<I, SharedCache<R, I>>::empty());
        pool
    }

    /// Where in `entries` the description `info` stands, if the pool has seen
    /// it.
    fn position(&self, info: &I) -> (res: Option<usize>)
        requires
            lawful_description::<I>(),
        ensures
            res matches Some(i) ==> i < self.entries@.len() && self.entries@[i as int].key == *info
                && self@.contains_key(*info) && self@[*info] == self.entries@[i as int].cache,
            res is None ==> !self@.contains_key(*info),
    {
        proof {
            use_type_invariant(self);
        }
        if let Some(hint) = self.index.get(info) {
            let i = *hint;
            if i < self.entries.len() && self.entries[i].key == *info {
                proof {
                    self.lemma_entry_in_view(i as int);
                }
                return Some(i);
            }
        }
        let mut i: usize = 0;
        while i < self.entries.len()
            invariant
                i <= self.entries@.len(),
                lawful_description::<I>(),
                self.wf(),
                forall|j: int| 0 <= j < i ==> (#[trigger] self.entries@[j]).key != *info,
            decreases self.entries@.len() - i,
        {
            if self.entries[i].key == *info {
                proof {
                    self.lemma_entry_in_view(i as int);
                }
                return Some(i);
            }
            i += 1;
        }
        None
    }

    /// Whether the pool has a cache for `info`.
    pub fn contains(&self, info: &I) -> (b: bool)
        requires
            lawful_description::<I>(),
        ensures
            b == self@.contains_key(*info),
    {
        self.position(info).is_some()
    }

    /// The number of idle resources that the cache of `info` holds at this
    /// moment; none where the pool has no cache for `info`.
    pub fn idle(&self, info: &I) -> (n: usize)
        requires
            lawful_description::<I>(),
        ensures
            !self@.contains_key(*info) ==> n == 0,
    {
        match self.position(info) {
            Some(i) => self.entries[i].cache.idle(),
            None => 0,
        }
    }

    /// A handle to the cache of `info`, and whether that cache was made by
    /// this call. A cache made by this call is empty, and no one else has a
    /// handle to it yet.
    fn locate(&mut self, info: &I) -> (found: (SharedCache<R, I>, bool))
        requires
            lawful_description::<I>(),
        ensures
            found.1 == !old(self)@.contains_key(*info),
            final(self)@ == with_cache_for(old(self)@, *info, found.0),
            final(self)@[*info] == found.0,
            found.0.key() == *info,
            keyed(final(self)@),
    {
        proof {
            use_type_invariant(&*self);
            self.lemma_keyed();
        }
        match self.position(info) {
            Some(i) => (self.entries[i].cache.share(), false),
            None => {
                let key = info.clone();
                assert(cloned::<I>(*info, key));
                let cache = SharedCache::new(&key);
                let handle = cache.share();
                let hint = self.entries.len();
                let mut entries = Vec::new();
                std::mem::swap(&mut entries, &mut self.entries);
                entries.push(Entry { key, cache });
                self.entries = entries;
                let mut index = HashMap::new();
                std::mem::swap(&mut index, &mut self.index);
                index.insert(info.clone(), hint);
                self.index = index;
                proof {
                    self.lemma_appended(*old(self), key, cache);
                    self.lemma_keyed();
                }
                (handle, true)
            },
        }
    }

    /// A handle to the cache of `info`. Where the pool has none yet, a new,
    /// empty cache is made for it; the caches of all other descriptions stay
    /// as they are.
    pub fn find_or_create_cache(&mut self, info: &I) -> (cache: SharedCache<R, I>)
        requires
            lawful_description::<I>(),
        ensures
            final(self)@ == with_cache_for(old(self)@, *info, cache),
            final(self)@[*info] == cache,
            cache.key() == *info,
            keyed(final(self)@),
    {
        self.locate(info).0
    }
}

impl<R: Resource, I: Info<R> + Hash> Default for HashPool<R, I> {
    /// A pool that has seen no description yet.
    fn default() -> (pool: Self)
        ensures
            pool@ == Map::<I, SharedCache<R, I>>::empty(),
    {
        HashPool::new()
    }
}

impl<R: Resource, I: Info<R> + Hash> Pool<R, I> for HashPool<R, I> {
    type Lease = Lease<R, I>;

    open spec fn leased(lease: &Lease<R, I>) -> R {
        lease@
    }

    /// The lease is bound to the cache of `info`, which the pool makes where
    /// it has none yet. The resource is one that was idle in that cache, or
    /// else the one constructed for `info` in `ctx`; the first lease of a
    /// description always constructs.
    fn lease(&mut self, info: &I, ctx: &I::Context) -> (lease: Lease<R, I>)
        ensures
            final(self)@ == with_cache_for(old(self)@, *info, lease.cache()),
            final(self)@[*info] == lease.cache(),
            lease.home() == *info,
            keyed(final(self)@),
            !old(self)@.contains_key(*info) ==> creates::<R, I>(info, ctx, lease@),
    {
        let (cache, fresh) = self.locate(info);
        let idle = if fresh {
            None
        } else {
            cache.take()
        };
        let resource = reuse_or_create(idle, info, ctx);
        Lease::new(resource, cache)
    }

    /// The lease is bound to the cache of `info`, which the pool makes where
    /// it has none yet, also where construction then fails. The resource is
    /// one that was idle in that cache, or else the one constructed for `info`
    /// in `ctx`; the first lease of a description always constructs. A
    /// failure of construction puts nothing into any cache.
    fn try_lease(&mut self, info: &I, ctx: &I::Context) -> (res: Result<Lease<R, I>, I::Error>)
        ensures
            final(self)@ == with_cache_for(old(self)@, *info, final(self)@[*info]),
            final(self)@.contains_key(*info),
            final(self)@[*info].key() == *info,
            keyed(final(self)@),
            res matches Ok(lease) ==> lease.cache() == final(self)@[*info],
            !old(self)@.contains_key(*info) ==> (res matches Ok(lease) ==> creates::<R, I>(
                info,
                ctx,
                lease@,
            )),
    {
        let (cache, fresh) = self.locate(info);
        let idle = if fresh {
            None
        } else {
            cache.take()
        };
        match reuse_or_try_create(idle, info, ctx) {
            Ok(resource) => Ok(Lease::new(resource, cache)),
            Err(e) => Err(e),
        }
    }
}

} // verus!
