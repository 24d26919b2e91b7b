//! Mirror of a paginated real-estate search: extraction of listings from page
//! markup, reconciliation against a persisted set, liveness-based eviction and
//! filtered reads.

pub mod numeric;
pub mod offer;
pub mod page;
pub mod dom;
pub mod reconcile;
pub mod liveness;
pub mod cycle;
pub mod query;
