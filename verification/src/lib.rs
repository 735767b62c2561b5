//! A keyed object pool: expensive resources are recycled per description
//! instead of being constructed anew for every request.
//!
//! A [`HashPool`](hashpool::HashPool) keeps one shared cache of idle resources
//! per distinct description. Leasing takes an idle resource from the cache of
//! the description, or constructs one outside of any lock; releasing a
//! [`Lease`](hashpool::Lease) resets the resource and hands it back to the
//! cache that it came from. A lease shares ownership of its cache, so that it
//! can outlive the pool, and each cache has a lock of its own, which is held
//! for one take or one put at a time.
//!
//! - [`traits`]: what a pool asks of resources and descriptions, and what a
//!   pool promises.
//! - [`cache`]: the cache of one description, plain and behind its lock.
//! - [`hashpool`]: the pool and the lease.
//! - [`ownership`]: why no resource is ever in two places.

pub mod cache;
pub mod hashpool;
pub mod ownership;
pub mod prelude;
pub mod traits;
