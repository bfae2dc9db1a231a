//! Registry synchronisation and dependency deduplication for a plugin
//! marketplace: name-keyed catalogs per locale, content digests of archives,
//! and pruning of vendored dependencies that the host already provides.
pub mod keyed;
pub mod order;
pub mod strmap;
pub mod digest;
pub mod registry;
pub mod dedupe;
pub mod pipeline;
