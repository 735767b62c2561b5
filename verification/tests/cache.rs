use hashpool::cache::Cache;
use hashpool::cache::SharedCache;
use hashpool::hashpool::reuse_or_create;
use hashpool::hashpool::reuse_or_try_create;
use hashpool::hashpool::HashPool;
use hashpool::hashpool::Lease;
use hashpool::traits::Info;
use hashpool::traits::Pool;
use hashpool::traits::Resource;
use std::cell::Cell;
use std::collections::hash_map::RandomState;
use std::hash::BuildHasher;
use std::hash::Hash;
use std::hash::Hasher;

/// A resource with a name, so that one instance is told from another.
#[derive(Debug, PartialEq, Eq)]
struct Slate {
    name: u32,
    marks: Vec<u8>,
}

impl Slate {
    fn blank(name: u32) -> Self {
        Slate {
            name,
            marks: Vec::new(),
        }
    }
}

impl Resource for Slate {
    fn is_clean(&self) -> bool {
        self.marks.is_empty()
    }

    fn clear(&mut self) {
        self.marks.clear()
    }
}

/// A description of slates. Construction numbers the slates from the
/// context's counter, and fails where the context forbids it.
#[derive(Debug, Clone, PartialEq, Eq, Hash)]
struct Kind {
    id: u8,
}

struct Workshop {
    open: bool,
    next: Cell<u32>,
}

impl Workshop {
    fn open() -> Self {
        Workshop {
            open: true,
            next: Cell::new(100),
        }
    }

    fn closed() -> Self {
        Workshop {
            open: false,
            next: Cell::new(100),
        }
    }
}

#[derive(Debug, PartialEq, Eq)]
struct Closed;

impl Info<Slate> for Kind {
    type Context = Workshop;
    type Error = Closed;

    fn try_create(_info: &Self, ctx: &Workshop) -> Result<Slate, Closed> {
        if !ctx.open {
            return Err(Closed);
        }
        let name = ctx.next.get();
        ctx.next.set(name + 1);
        Ok(Slate::blank(name))
    }
}

/// A description whose hash says nothing about it: every value hashes
/// differently each time it is hashed.
#[derive(Debug, Clone, PartialEq, Eq)]
struct Fickle {
    id: u8,
}

impl Hash for Fickle {
    fn hash<H: Hasher>(&self, state: &mut H) {
        state.write_u64(RandomState::new().build_hasher().finish());
    }
}

impl Info<Slate> for Fickle {
    type Context = Workshop;
    type Error = Closed;

    fn try_create(_info: &Self, ctx: &Workshop) -> Result<Slate, Closed> {
        let name = ctx.next.get();
        ctx.next.set(name + 1);
        Ok(Slate::blank(name))
    }
}

/// A description that all hash alike.
#[derive(Debug, Clone, PartialEq, Eq)]
struct Flat {
    id: u8,
}

impl Hash for Flat {
    fn hash<H: Hasher>(&self, state: &mut H) {
        state.write_u8(0);
    }
}

impl Info<Slate> for Flat {
    type Context = Workshop;
    type Error = Closed;

    fn try_create(_info: &Self, ctx: &Workshop) -> Result<Slate, Closed> {
        let name = ctx.next.get();
        ctx.next.set(name + 1);
        Ok(Slate::blank(name))
    }
}

#[test]
fn new_cache_is_empty() {
    let mut cache = Cache::<Slate>::new();
    assert_eq!(cache.len(), 0);
    assert_eq!(cache.take(), None);
    assert_eq!(cache.len(), 0);
}

#[test]
fn cache_hands_out_what_was_put_last() {
    let mut cache = Cache::new();
    cache.put(Slate::blank(1));
    cache.put(Slate::blank(2));
    cache.put(Slate::blank(3));
    assert_eq!(cache.len(), 3);
    assert_eq!(cache.take(), Some(Slate::blank(3)));
    assert_eq!(cache.take(), Some(Slate::blank(2)));
    cache.put(Slate::blank(4));
    assert_eq!(cache.take(), Some(Slate::blank(4)));
    assert_eq!(cache.take(), Some(Slate::blank(1)));
    assert_eq!(cache.take(), None);
}

#[test]
fn take_moves_exactly_one_resource_out() {
    let mut cache = Cache::new();
    cache.put(Slate::blank(1));
    cache.put(Slate::blank(2));
    let out = cache.take().unwrap();
    assert_eq!(out.name, 2);
    assert_eq!(cache.len(), 1);
    let rest = cache.take().unwrap();
    assert_ne!(rest.name, out.name);
    assert_eq!(cache.len(), 0);
}

#[test]
fn put_resource_is_the_next_one_taken() {
    let mut cache = Cache::new();
    cache.put(Slate::blank(7));
    let before = cache.len();
    cache.put(Slate::blank(8));
    assert_eq!(cache.take(), Some(Slate::blank(8)));
    assert_eq!(cache.len(), before);
}

#[test]
fn clearing_twice_is_clearing_once() {
    let mut slate = Slate {
        name: 5,
        marks: vec![1, 2, 3],
    };
    assert!(!slate.is_clean());
    slate.clear();
    assert!(slate.is_clean());
    assert_eq!(slate, Slate::blank(5));
    slate.clear();
    assert!(slate.is_clean());
    assert_eq!(slate, Slate::blank(5));
}

#[test]
fn handles_of_one_cache_see_the_same_resources() {
    let cache = SharedCache::<Slate, Kind>::new(&Kind { id: 1 });
    let other = cache.share();
    assert_eq!(cache.idle(), 0);
    assert_eq!(other.take(), None);

    cache.put(Slate::blank(1));
    assert_eq!(other.idle(), 1);
    assert_eq!(other.take(), Some(Slate::blank(1)));
    assert_eq!(cache.idle(), 0);
    assert_eq!(cache.take(), None);
}

#[test]
fn caches_made_apart_stay_apart() {
    let one = SharedCache::<Slate, Kind>::new(&Kind { id: 1 });
    let two = SharedCache::<Slate, Kind>::new(&Kind { id: 1 });
    one.put(Slate::blank(1));
    assert_eq!(two.idle(), 0);
    assert_eq!(two.take(), None);
    assert_eq!(one.idle(), 1);
}

#[test]
fn idle_resource_is_reused_without_construction() {
    let shop = Workshop::open();
    let res = reuse_or_try_create(Some(Slate::blank(7)), &Kind { id: 1 }, &shop);
    assert_eq!(res, Ok(Slate::blank(7)));
    assert_eq!(shop.next.get(), 100);

    let shut = Workshop::closed();
    let res = reuse_or_try_create(Some(Slate::blank(8)), &Kind { id: 1 }, &shut);
    assert_eq!(res, Ok(Slate::blank(8)));

    let got = reuse_or_create(Some(Slate::blank(9)), &Kind { id: 1 }, &shop);
    assert_eq!(got, Slate::blank(9));
    assert_eq!(shop.next.get(), 100);
}

#[test]
fn empty_cache_leads_to_construction() {
    let shop = Workshop::open();
    let res = reuse_or_try_create(None, &Kind { id: 1 }, &shop);
    assert_eq!(res, Ok(Slate::blank(100)));
    assert_eq!(shop.next.get(), 101);

    let got = reuse_or_create(None, &Kind { id: 1 }, &shop);
    assert_eq!(got, Slate::blank(101));

    let shut = Workshop::closed();
    let res = reuse_or_try_create(None, &Kind { id: 1 }, &shut);
    assert_eq!(res, Err(Closed));
}

#[test]
fn create_is_try_create_where_that_succeeds() {
    let shop = Workshop::open();
    let slate = Kind::create(&Kind { id: 3 }, &shop);
    assert_eq!(slate, Slate::blank(100));
    assert_eq!(Kind::try_create(&Kind { id: 3 }, &shop), Ok(Slate::blank(101)));
    assert_eq!(
        Kind::try_create(&Kind { id: 3 }, &Workshop::closed()),
        Err(Closed)
    );
}

#[test]
fn release_resets_and_puts_into_the_cache_of_the_lease() {
    let home = SharedCache::<Slate, Kind>::new(&Kind { id: 1 });
    let elsewhere = SharedCache::<Slate, Kind>::new(&Kind { id: 2 });
    let mut lease = Lease::new(Slate::blank(1), home.share());
    lease.marks.push(9);
    assert_eq!(home.idle(), 0);

    lease.release();
    assert_eq!(home.idle(), 1);
    assert_eq!(elsewhere.idle(), 0);
    assert_eq!(home.take(), Some(Slate::blank(1)));
}

#[test]
fn equal_descriptions_find_the_same_cache() {
    let mut pool = HashPool::<Slate, Kind>::new();
    let first = pool.find_or_create_cache(&Kind { id: 1 });
    let second = pool.find_or_create_cache(&Kind { id: 1 });
    let third = pool.find_or_create_cache(&Kind { id: 2 });

    first.put(Slate::blank(1));
    assert_eq!(second.idle(), 1);
    assert_eq!(third.idle(), 0);
    assert_eq!(pool.idle(&Kind { id: 1 }), 1);
    assert_eq!(pool.idle(&Kind { id: 2 }), 0);
    assert_eq!(second.take(), Some(Slate::blank(1)));
    assert_eq!(first.idle(), 0);
}

#[test]
fn descriptions_are_found_whatever_their_hash_says() {
    let shop = Workshop::open();
    let mut pool = HashPool::<Slate, Fickle>::new();
    for round in 0..3 {
        for id in 0..20u8 {
            let lease = pool.lease(&Fickle { id }, &shop);
            assert_eq!(lease.name, 100 + u32::from(id), "round {}", round);
            lease.release();
        }
    }
    assert_eq!(shop.next.get(), 120);
    for id in 0..20u8 {
        assert!(pool.contains(&Fickle { id }));
        assert_eq!(pool.idle(&Fickle { id }), 1);
    }
    assert!(!pool.contains(&Fickle { id: 20 }));
}

#[test]
fn descriptions_that_hash_alike_are_told_apart() {
    let shop = Workshop::open();
    let mut pool = HashPool::<Slate, Flat>::new();
    let a = pool.lease(&Flat { id: 1 }, &shop);
    let b = pool.lease(&Flat { id: 2 }, &shop);
    assert_eq!(a.name, 100);
    assert_eq!(b.name, 101);
    a.release();
    assert_eq!(pool.idle(&Flat { id: 1 }), 1);
    assert_eq!(pool.idle(&Flat { id: 2 }), 0);
    let c = pool.lease(&Flat { id: 2 }, &shop);
    assert_eq!(c.name, 102);
    let d = pool.lease(&Flat { id: 1 }, &shop);
    assert_eq!(d.name, 100);
    assert_eq!(b.name, 101);
}

#[test]
fn try_lease_of_a_closed_workshop_fails_until_a_resource_is_idle() {
    let mut pool = HashPool::<Slate, Kind>::new();
    let kind = Kind { id: 1 };
    let shut = Workshop::closed();
    assert_eq!(pool.try_lease(&kind, &shut).err(), Some(Closed));
    assert!(pool.contains(&kind));
    assert_eq!(pool.idle(&kind), 0);

    let cache = pool.find_or_create_cache(&kind);
    cache.put(Slate::blank(1));
    let lease = pool.try_lease(&kind, &shut).unwrap();
    assert_eq!(*lease, Slate::blank(1));
    assert_eq!(pool.try_lease(&kind, &shut).err(), Some(Closed));
}

fn may_cross_threads<T: Send + Sync>(_value: &T) {}

#[test]
fn handles_leases_and_pools_may_cross_threads() {
    let mut pool = HashPool::<Slate, Kind>::new();
    let cache = pool.find_or_create_cache(&Kind { id: 1 });
    let lease = Lease::new(Slate::blank(1), cache.share());
    may_cross_threads(&cache);
    may_cross_threads(&lease);
    may_cross_threads(&pool);
    lease.release();
    assert_eq!(pool.idle(&Kind { id: 1 }), 1);
}
