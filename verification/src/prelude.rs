//! The names most users need.

pub use crate::hashpool::HashPool;
pub use crate::hashpool::Lease;
pub use crate::traits::Info;
pub use crate::traits::Pool;
pub use crate::traits::Resource;
